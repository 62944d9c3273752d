//! The mathematics of radix integers: what a sequence of digit contents stands
//! for, what carry propagation turns it into, and the laws that connect the two.

use vstd::arithmetic::div_mod::*;
use vstd::arithmetic::mul::*;
use vstd::arithmetic::power::*;
use vstd::prelude::*;

verus! {

/// The message of a digit content: what is left of `x` below the message
/// modulus `m`.
pub open spec fn message_of(x: nat, m: nat) -> nat {
    x % m
}

/// The carry of a digit content: how many times the message modulus `m` goes
/// into `x`.
pub open spec fn carry_of(x: nat, m: nat) -> nat {
    x / m
}

/// The integer that the digit contents `s`, least significant first, stand for
/// in base `m`. Contents may exceed `m - 1`: a dirty digit still counts in full.
pub open spec fn radix_value(s: Seq<nat>, m: nat) -> nat
    decreases s.len(),
{
    if s.len() == 0 {
        0
    } else {
        s[0] + m * radix_value(s.skip(1), m)
    }
}

/// The `n` lowest base-`m` digits of `v`, least significant first.
pub open spec fn radix_digits(v: nat, m: nat, n: nat) -> Seq<nat>
    decreases n,
{
    if n == 0 {
        Seq::empty()
    } else {
        seq![v % m] + radix_digits(v / m, m, (n - 1) as nat)
    }
}

/// The carry that reaches digit `k` when the digits before it are propagated in
/// increasing order and `cin` enters digit 0.
pub open spec fn carry_from(s: Seq<nat>, m: nat, cin: nat, k: nat) -> nat
    decreases k,
{
    if k == 0 {
        cin
    } else {
        (s[k - 1] + carry_from(s, m, cin, (k - 1) as nat)) / m
    }
}

/// The carry that reaches digit `k` in a sequential pass that starts at digit 0
/// with no incoming carry.
pub open spec fn carry_into(s: Seq<nat>, m: nat, k: nat) -> nat {
    carry_from(s, m, 0, k)
}

/// A sequential pass over `s` never asks a digit to hold `limit` or more: each
/// digit, once the carry of its predecessors has been added, stays representable.
pub open spec fn propagates_within(s: Seq<nat>, m: nat, limit: nat) -> bool {
    forall|k: int| 0 <= k < s.len() ==> s[k] + #[trigger] carry_into(s, m, k as nat) < limit
}

/// What a sequential pass over all of `s` leaves in each digit.
pub open spec fn sequential_pass(s: Seq<nat>, m: nat) -> Seq<nat> {
    Seq::new(s.len(), |k: int| message_of(s[k] + carry_into(s, m, k as nat), m))
}

/// Digit contents after the strip and merge phases when `cin` is merged into
/// digit 0: each digit keeps its message and receives the carry stripped from
/// its predecessor.
pub open spec fn realigned_with(s: Seq<nat>, m: nat, cin: nat) -> Seq<nat> {
    Seq::new(
        s.len(),
        |k: int|
            if k == 0 {
                message_of(s[0], m) + cin
            } else {
                message_of(s[k], m) + carry_of(s[k - 1], m)
            },
    )
}

/// Digit contents after the strip and merge phases: as `realigned_with`, and
/// digit 0 receives nothing.
pub open spec fn realigned(s: Seq<nat>, m: nat) -> Seq<nat> {
    realigned_with(s, m, 0)
}

/// Every digit content is below `limit`.
pub open spec fn all_below(s: Seq<nat>, limit: nat) -> bool {
    forall|k: int| 0 <= k < s.len() ==> #[trigger] s[k] < limit
}

/// Every digit content is a pure message: below `m`, so its carry is zero.
pub open spec fn is_clean(s: Seq<nat>, m: nat) -> bool {
    all_below(s, m)
}

/// The carry of digit `index` fits into the next digit, if there is one: the
/// sum stays below `limit`.
pub open spec fn step_fits(s: Seq<nat>, m: nat, limit: nat, index: int) -> bool {
    index + 1 < s.len() ==> s[index + 1] + carry_of(s[index], m) < limit
}

/// Digit contents after one single-digit propagation at `index`.
pub open spec fn propagate_step(s: Seq<nat>, m: nat, index: int) -> Seq<nat> {
    Seq::new(
        s.len(),
        |k: int|
            if k == index {
                message_of(s[k], m)
            } else if k == index + 1 {
                s[k] + carry_of(s[index], m)
            } else {
                s[k]
            },
    )
}

/// Digit contents after propagation of the digits from `start` on: the digits
/// before `start` are kept, the others become the base-`m` digits of the value
/// that they stood for together.
pub open spec fn propagated_from(s: Seq<nat>, m: nat, start: int) -> Seq<nat> {
    s.subrange(0, start) + radix_digits(
        radix_value(s.subrange(start, s.len() as int), m),
        m,
        (s.len() - start) as nat,
    )
}

/// The digits of `v` one by one: there are `n` of them, each below `m`; the
/// first is `v` modulo `m`, and the others are the digits of `v / m`.
pub proof fn lemma_radix_digits_index(v: nat, m: nat, n: nat)
    requires
        m > 0,
    ensures
        radix_digits(v, m, n).len() == n,
        forall|k: int| 0 <= k < n ==> #[trigger] radix_digits(v, m, n)[k] < m,
        n > 0 ==> radix_digits(v, m, n)[0] == v % m,
        forall|k: int|
            1 <= k < n ==> #[trigger] radix_digits(v, m, n)[k] == radix_digits(
                v / m,
                m,
                (n - 1) as nat,
            )[k - 1],
    decreases n,
{
    if n > 0 {
        lemma_radix_digits_index(v / m, m, (n - 1) as nat);
        lemma_mod_bound(v as int, m as int);
    }
}

/// Adding a multiple of the base to a value changes neither its lowest digit
/// nor, beyond the multiple itself, what is carried upward.
pub proof fn lemma_low_digit(a: nat, b: nat, m: nat)
    requires
        m > 0,
    ensures
        (a + m * b) % m == a % m,
        (a + m * b) / m == a / m + b,
{
    lemma_fundamental_div_mod(a as int, m as int);
    let q = (a / m) as int;
    let r = (a % m) as int;
    lemma_mod_bound(a as int, m as int);
    lemma_div_pos_is_pos(a as int, m as int);
    assert(a + m * b == (q + b) * m + r) by (nonlinear_arith)
        requires
            a == m * q + r,
    ;
    lemma_fundamental_div_mod_converse((a + m * b) as int, m as int, q + b, r);
}

proof fn lemma_carry_shift(s: Seq<nat>, m: nat, cin: nat, k: nat)
    requires
        m > 0,
        1 <= k <= s.len(),
    ensures
        carry_from(s, m, cin, k) == carry_from(s.skip(1), m, (s[0] + cin) / m, (k - 1) as nat),
    decreases k,
{
    let c = (s[0] + cin) / m;
    if k > 1 {
        lemma_carry_shift(s, m, cin, (k - 1) as nat);
        assert(s.skip(1)[k - 2] == s[k - 1]);
        assert(carry_from(s.skip(1), m, c, (k - 1) as nat) == (s.skip(1)[k - 2] + carry_from(
            s.skip(1),
            m,
            c,
            (k - 2) as nat,
        )) / m);
    } else {
        assert(carry_from(s, m, cin, 0) == cin);
        assert(carry_from(s, m, cin, 1) == (s[0] + carry_from(s, m, cin, 0)) / m);
        assert(carry_from(s.skip(1), m, c, 0) == c);
    }
}

/// What a sequential pass leaves in digit `k` is digit `k` of the value that the
/// whole sequence stood for, the incoming carry included.
pub proof fn lemma_sequential_digit(s: Seq<nat>, m: nat, cin: nat, k: nat)
    requires
        m > 0,
        k < s.len(),
    ensures
        (s[k as int] + carry_from(s, m, cin, k)) % m == radix_digits(
            radix_value(s, m) + cin,
            m,
            s.len(),
        )[k as int],
    decreases k,
{
    let v = radix_value(s, m) + cin;
    let rest = radix_value(s.skip(1), m);
    lemma_radix_digits_index(v, m, s.len());
    lemma_low_digit(s[0] + cin, rest, m);
    assert(v == s[0] + cin + m * rest);
    if k > 0 {
        lemma_carry_shift(s, m, cin, k);
        lemma_sequential_digit(s.skip(1), m, (s[0] + cin) / m, (k - 1) as nat);
        assert(s.skip(1)[k - 1] == s[k as int]);
    }
}

/// A sequential pass turns a sequence into the digits of its value.
pub proof fn lemma_sequential_pass(s: Seq<nat>, m: nat)
    requires
        m > 0,
    ensures
        sequential_pass(s, m) == radix_digits(radix_value(s, m), m, s.len()),
{
    lemma_radix_digits_index(radix_value(s, m), m, s.len());
    assert forall|k: int| 0 <= k < s.len() implies sequential_pass(s, m)[k] == radix_digits(
        radix_value(s, m),
        m,
        s.len(),
    )[k] by {
        lemma_sequential_digit(s, m, 0, k as nat);
    }
    assert(sequential_pass(s, m) =~= radix_digits(radix_value(s, m), m, s.len()));
}

/// Strip and merge change the digits of the value in no position: whatever is
/// added on top, the realigned sequence and the given one stand for values
/// with the same `s.len()` lowest digits.
pub proof fn lemma_realigned_digits(s: Seq<nat>, m: nat, cin: nat, extra: nat)
    requires
        m > 0,
    ensures
        radix_digits(radix_value(realigned_with(s, m, cin), m) + extra, m, s.len())
            == radix_digits(radix_value(s, m) + cin + extra, m, s.len()),
    decreases s.len(),
{
    if s.len() > 0 {
        let w = realigned_with(s, m, cin);
        let tail = s.skip(1);
        let w_tail = realigned_with(tail, m, s[0] / m);
        assert(w.skip(1) =~= w_tail);
        let low = s[0] % m + cin + extra;
        lemma_fundamental_div_mod(s[0] as int, m as int);
        lemma_low_digit(low, radix_value(w_tail, m), m);
        lemma_low_digit(low, s[0] / m + radix_value(tail, m), m);
        assert(radix_value(w, m) + extra == low + m * radix_value(w_tail, m));
        let (v, t, x, q, r) = (radix_value(s, m), radix_value(tail, m), s[0], s[0] / m, s[0] % m);
        assert(v + cin + extra == low + m * (q + t)) by (nonlinear_arith)
            requires
                v == x + m * t,
                x == m * q + r,
                low == r + cin + extra,
        ;
        lemma_realigned_digits(tail, m, s[0] / m, low / m);
    }
}

/// In a clean sequence no carry moves, so a sequential pass never overflows.
pub proof fn lemma_clean_carries(s: Seq<nat>, m: nat, k: nat)
    requires
        m > 0,
        is_clean(s, m),
        k <= s.len(),
    ensures
        carry_into(s, m, k) == 0,
    decreases k,
{
    if k > 0 {
        lemma_clean_carries(s, m, (k - 1) as nat);
        lemma_basic_div(s[k - 1] as int, m as int);
    }
}

/// A clean sequence is the digit sequence of its own value.
pub proof fn lemma_digits_of_clean(s: Seq<nat>, m: nat)
    requires
        m > 0,
        is_clean(s, m),
    ensures
        radix_digits(radix_value(s, m), m, s.len()) == s,
    decreases s.len(),
{
    if s.len() > 0 {
        let tail = s.skip(1);
        assert(is_clean(tail, m)) by {
            assert forall|k: int| 0 <= k < tail.len() implies #[trigger] tail[k] < m by {
                assert(tail[k] == s[k + 1]);
            }
        }
        lemma_digits_of_clean(tail, m);
        lemma_low_digit(s[0], radix_value(tail, m), m);
        lemma_small_mod(s[0], m);
        lemma_basic_div(s[0] as int, m as int);
        assert(radix_digits(radix_value(s, m), m, s.len()) =~= s);
    } else {
        assert(radix_digits(radix_value(s, m), m, s.len()) =~= s);
    }
}

/// The digits of `v` stand for `v` reduced modulo `m` to the power `n`.
pub proof fn lemma_value_of_digits(v: nat, m: nat, n: nat)
    requires
        m > 0,
    ensures
        radix_value(radix_digits(v, m, n), m) == v % (pow(m as int, n) as nat),
        pow(m as int, n) > 0,
    decreases n,
{
    lemma_pow_positive(m as int, n);
    reveal(pow);
    if n > 0 {
        let d = radix_digits(v, m, n);
        let rest = radix_digits(v / m, m, (n - 1) as nat);
        lemma_radix_digits_index(v, m, n);
        assert(d.skip(1) =~= rest);
        lemma_value_of_digits(v / m, m, (n - 1) as nat);
        lemma_pow_positive(m as int, (n - 1) as nat);
        lemma_mod_breakdown(v as int, m as int, pow(m as int, (n - 1) as nat));
        assert(pow(m as int, n) == m * pow(m as int, (n - 1) as nat));
    } else {
        assert(pow(m as int, 0) == 1);
    }
}

/// After strip and merge every carry of the finishing pass stays below the
/// carry modulus `c`, and no digit is asked to hold the full modulus or more.
pub proof fn lemma_realigned_propagates(s: Seq<nat>, m: nat, c: nat)
    requires
        m >= 2,
        c >= 1,
        all_below(s, m * c),
    ensures
        all_below(realigned(s, m), m * c),
        propagates_within(realigned(s, m), m, m * c),
{
    let w = realigned(s, m);
    assert(m + 2 * c - 3 < m * c) by (nonlinear_arith)
        requires
            m >= 2,
            c >= 1,
    ;
    assert forall|k: int| 0 <= k < w.len() implies #[trigger] w[k] < m * c by {
        lemma_realigned_digit_bound(s, m, c, k);
    }
    assert forall|k: int| 0 <= k < w.len() implies w[k] + #[trigger] carry_into(w, m, k as nat) < m
        * c by {
        lemma_realigned_carry_bound(s, m, c, k as nat);
        lemma_realigned_digit_bound(s, m, c, k);
    }
}

proof fn lemma_realigned_digit_bound(s: Seq<nat>, m: nat, c: nat, k: int)
    requires
        m >= 2,
        c >= 1,
        all_below(s, m * c),
        0 <= k < s.len(),
    ensures
        realigned(s, m)[k] <= m + c - 2,
{
    lemma_mod_bound(s[k] as int, m as int);
    if k > 0 {
        let x = s[k - 1];
        assert(x / m < c) by (nonlinear_arith)
            requires
                x < m * c,
                m >= 2,
        ;
    }
}

proof fn lemma_realigned_carry_bound(s: Seq<nat>, m: nat, c: nat, k: nat)
    requires
        m >= 2,
        c >= 1,
        all_below(s, m * c),
        k <= s.len(),
    ensures
        carry_into(realigned(s, m), m, k) <= c - 1,
    decreases k,
{
    if k > 0 {
        let w = realigned(s, m);
        lemma_realigned_carry_bound(s, m, c, (k - 1) as nat);
        lemma_realigned_digit_bound(s, m, c, k - 1);
        let x = w[k - 1] + carry_into(w, m, (k - 1) as nat);
        assert(x / m < c) by (nonlinear_arith)
            requires
                x <= m + 2 * c - 3,
                m >= 2,
                c >= 1,
        ;
    }
}

/// Propagation is correct: the digits from `start` on come out clean, and
/// together they stand for the value that they stood for before, carries
/// included, reduced modulo `m` to the power of their number. The digits before
/// `start` are kept.
pub proof fn law_propagation_correct(s: Seq<nat>, m: nat, start: int)
    requires
        m > 0,
        0 <= start <= s.len(),
    ensures
        propagated_from(s, m, start).len() == s.len(),
        propagated_from(s, m, start).subrange(0, start) == s.subrange(0, start),
        is_clean(propagated_from(s, m, start).subrange(start, s.len() as int), m),
        radix_value(propagated_from(s, m, start).subrange(start, s.len() as int), m)
            == radix_value(s.subrange(start, s.len() as int), m) % (pow(
            m as int,
            (s.len() - start) as nat,
        ) as nat),
{
    let n = (s.len() - start) as nat;
    let v = radix_value(s.subrange(start, s.len() as int), m);
    let p = propagated_from(s, m, start);
    lemma_radix_digits_index(v, m, n);
    lemma_value_of_digits(v, m, n);
    assert(p.subrange(0, start) =~= s.subrange(0, start));
    assert(p.subrange(start, s.len() as int) =~= radix_digits(v, m, n));
}

/// Propagation is idempotent: a propagated radix integer may be propagated
/// again, whatever the full modulus `limit`, and comes out as it went in.
pub proof fn law_propagation_idempotent(s: Seq<nat>, m: nat, start: int, limit: nat)
    requires
        m > 0,
        limit >= m,
        0 <= start <= s.len(),
    ensures
        propagates_within(
            propagated_from(s, m, start).subrange(start, s.len() as int),
            m,
            limit,
        ),
        propagated_from(propagated_from(s, m, start), m, start) == propagated_from(s, m, start),
{
    let p = propagated_from(s, m, start);
    let tail = p.subrange(start, s.len() as int);
    law_propagation_correct(s, m, start);
    lemma_digits_of_clean(tail, m);
    assert forall|k: int| 0 <= k < tail.len() implies tail[k] + #[trigger] carry_into(
        tail,
        m,
        k as nat,
    ) < limit by {
        lemma_clean_carries(tail, m, k as nat);
    }
    assert(propagated_from(p, m, start) =~= p);
}

/// The parallel and the sequential propagation agree: stripping all carries,
/// merging them one position up and finishing with one pass in sequence gives
/// the digits that a pass in sequence over the digits as they were gives. Where
/// every digit content is below the full modulus `m * c`, the finishing pass
/// never overflows.
pub proof fn law_parallel_matches_sequential(s: Seq<nat>, m: nat, c: nat)
    requires
        m >= 2,
        c >= 1,
        all_below(s, m * c),
    ensures
        propagates_within(realigned(s, m), m, m * c),
        sequential_pass(realigned(s, m), m) == sequential_pass(s, m),
        sequential_pass(s, m) == propagated_from(s, m, 0),
{
    lemma_realigned_propagates(s, m, c);
    lemma_realigned_digits(s, m, 0, 0);
    lemma_sequential_pass(realigned(s, m), m);
    lemma_sequential_pass(s, m);
    assert(s.subrange(0, s.len() as int) =~= s);
    assert(propagated_from(s, m, 0) =~= radix_digits(radix_value(s, m), m, s.len()));
}

} // verus!

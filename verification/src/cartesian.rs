//! Enumeration of all `N`-tuples of items from a slice (the `N`th cartesian power).
use vstd::arithmetic::power::pow;
use vstd::prelude::*;

verus! {

/// Little-endian place value of `digits` in base `base`: `digits[0]` is the lowest digit.
pub open spec fn place_value(digits: Seq<usize>, base: int) -> int
    decreases digits.len(),
{
    if digits.len() == 0 {
        0
    } else {
        digits[0] + base * place_value(digits.skip(1), base)
    }
}

/// Digit `i` of `k` in base `base`.
pub open spec fn digit(k: int, base: int, i: nat) -> int {
    (k / pow(base, i)) % base
}

/// Every digit is below `base`.
pub open spec fn digits_below(digits: Seq<usize>, base: int) -> bool {
    forall|i: int| 0 <= i < digits.len() ==> #[trigger] digits[i] < base
}

/// Number of `n`-tuples over `len` items that the enumeration yields.
pub open spec fn tuple_count(len: nat, n: nat) -> nat {
    if len == 0 {
        0
    } else {
        pow(len as int, n) as nat
    }
}

proof fn lemma_pow_step(base: int, n: nat)
    requires
        base > 0,
    ensures
        pow(base, n + 1) == base * pow(base, n),
        pow(base, n) > 0,
        pow(base, 0) == 1,
{
    reveal(pow);
    vstd::arithmetic::power::lemma_pow_positive(base, n);
}

proof fn lemma_place_value_bound(digits: Seq<usize>, base: int)
    requires
        base > 0,
        digits_below(digits, base),
    ensures
        0 <= place_value(digits, base) < pow(base, digits.len()),
    decreases digits.len(),
{
    lemma_pow_step(base, 0);
    if digits.len() > 0 {
        let rest = digits.skip(1);
        assert(digits_below(rest, base));
        lemma_place_value_bound(rest, base);
        lemma_pow_step(base, rest.len());
        let v = place_value(rest, base);
        let p = pow(base, rest.len());
        let d = digits[0] as int;
        assert(d + base * v < base * p) by (nonlinear_arith)
            requires
                0 <= d < base,
                0 <= v < p,
        ;
        assert(0 <= d + base * v) by (nonlinear_arith)
            requires
                0 <= d,
                0 <= v,
                base > 0,
        ;
        assert(digits.len() == rest.len() + 1);
    }
}

/// Each digit can be read back from the place value.
proof fn lemma_digit_of_place_value(digits: Seq<usize>, base: int, i: nat)
    requires
        base > 0,
        digits_below(digits, base),
        i < digits.len(),
    ensures
        digit(place_value(digits, base), base, i) == digits[i as int],
    decreases i,
{
    let rest = digits.skip(1);
    assert(digits_below(rest, base));
    lemma_place_value_bound(rest, base);
    let v = place_value(rest, base);
    let d = digits[0] as int;
    let k = place_value(digits, base);
    assert(k == v * base + d) by (nonlinear_arith)
        requires
            k == d + base * v,
    ;
    vstd::arithmetic::div_mod::lemma_fundamental_div_mod_converse(k, base, v, d);
    lemma_pow_step(base, 0);
    if i == 0 {
        assert(k / 1 == k);
    } else {
        let j = (i - 1) as nat;
        lemma_digit_of_place_value(rest, base, j);
        lemma_pow_step(base, j);
        vstd::arithmetic::div_mod::lemma_div_denominator(k, base, pow(base, j));
        assert(pow(base, i) == base * pow(base, j));
        assert(rest[j as int] == digits[i as int]);
    }
}

/// Adding one to a number whose lowest `c` digits are all `base - 1` resets them to zero
/// and bumps digit `c`.
proof fn lemma_carry(old: Seq<usize>, new: Seq<usize>, base: int, c: int)
    requires
        base > 0,
        0 <= c < old.len(),
        new.len() == old.len(),
        forall|j: int| 0 <= j < c ==> old[j] == base - 1 && new[j] == 0,
        new[c] == old[c] + 1,
        forall|j: int| c < j < old.len() ==> new[j] == old[j],
    ensures
        place_value(new, base) == place_value(old, base) + 1,
    decreases c,
{
    if c == 0 {
        assert(new.skip(1) =~= old.skip(1));
    } else {
        lemma_carry(old.skip(1), new.skip(1), base, c - 1);
        let v = place_value(old.skip(1), base);
        assert(base * (v + 1) == base * v + base) by (nonlinear_arith);
    }
}

/// A number whose digits are all `base - 1` is the largest with that many digits.
proof fn lemma_all_max(digits: Seq<usize>, base: int)
    requires
        base > 0,
        forall|j: int| 0 <= j < digits.len() ==> digits[j] == base - 1,
    ensures
        place_value(digits, base) == pow(base, digits.len()) - 1,
    decreases digits.len(),
{
    lemma_pow_step(base, 0);
    if digits.len() > 0 {
        let rest = digits.skip(1);
        lemma_all_max(rest, base);
        lemma_pow_step(base, rest.len());
        let p = pow(base, rest.len());
        assert((base - 1) + base * (p - 1) == base * p - 1) by (nonlinear_arith);
        assert(digits.len() == rest.len() + 1);
    }
}

proof fn lemma_zeros(digits: Seq<usize>, base: int)
    requires
        forall|j: int| 0 <= j < digits.len() ==> digits[j] == 0,
    ensures
        place_value(digits, base) == 0,
    decreases digits.len(),
{
    if digits.len() > 0 {
        lemma_zeros(digits.skip(1), base);
    }
}

/// The digits of `k` below position `len`, lowest first.
pub open spec fn digits_of(k: int, base: int, len: nat) -> Seq<usize> {
    Seq::new(len, |i: int| digit(k, base, i as nat) as usize)
}

/// A count below `base^len` is the place value of its own digits.
proof fn lemma_place_value_of_digits(k: int, base: int, len: nat)
    requires
        0 < base <= usize::MAX,
        0 <= k < pow(base, len),
    ensures
        place_value(digits_of(k, base, len), base) == k,
    decreases len,
{
    lemma_pow_step(base, 0);
    if len == 0 {
        assert(k == 0);
    } else {
        let l1 = (len - 1) as nat;
        lemma_pow_step(base, l1);
        let q = k / base;
        vstd::arithmetic::div_mod::lemma_fundamental_div_mod(k, base);
        assert(0 <= q < pow(base, l1)) by (nonlinear_arith)
            requires
                k == base * q + k % base,
                0 <= k % base < base,
                0 <= k < base * pow(base, l1),
                base > 0,
        ;
        lemma_place_value_of_digits(q, base, l1);
        let ds = digits_of(k, base, len);
        assert forall|i: int| 0 <= i < l1 implies #[trigger] ds.skip(1)[i] == digits_of(q, base, l1)[i] by {
            lemma_pow_step(base, i as nat);
            vstd::arithmetic::div_mod::lemma_div_denominator(k, base, pow(base, i as nat));
            assert(pow(base, (i + 1) as nat) == base * pow(base, i as nat));
        }
        assert(ds.skip(1) =~= digits_of(q, base, l1));
        assert(k / 1 == k);
        assert(digit(k, base, 0) == k % base);
        assert(ds[0] == k % base);
    }
}

/// Every tuple of indices below `base` is the digit tuple of exactly one count below
/// `base^len`. The enumerator yields, for each count from zero up to `base^len`, the items
/// at the digits of that count, so it yields every tuple of items exactly once.
pub proof fn lemma_each_tuple_once(base: int, idx: Seq<usize>, k: int)
    requires
        0 < base <= usize::MAX,
        digits_below(idx, base),
    ensures
        0 <= place_value(idx, base) < pow(base, idx.len()),
        forall|i: nat| i < idx.len() ==> #[trigger] digit(place_value(idx, base), base, i) == idx[i as int],
        (0 <= k < pow(base, idx.len()) && forall|i: nat|
            i < idx.len() ==> #[trigger] digit(k, base, i) == idx[i as int]) ==> k == place_value(
            idx,
            base,
        ),
{
    lemma_place_value_bound(idx, base);
    assert forall|i: nat| i < idx.len() implies #[trigger] digit(place_value(idx, base), base, i)
        == idx[i as int] by {
        lemma_digit_of_place_value(idx, base, i);
    }
    if 0 <= k < pow(base, idx.len()) && forall|i: nat|
        i < idx.len() ==> #[trigger] digit(k, base, i) == idx[i as int] {
        lemma_place_value_of_digits(k, base, idx.len());
        assert forall|i: int| 0 <= i < idx.len() implies digits_of(k, base, idx.len())[i] == idx[i] by {
            assert(digit(k, base, i as nat) == idx[i]);
        }
        assert(digits_of(k, base, idx.len()) =~= idx);
    }
}

/// Enumerates every `N`-tuple of items, the first position varying fastest.
pub struct CartesianPower<'a, T, const N: usize> {
    items: &'a [T],
    positions: Vec<usize>,
    done: bool,
}

impl<'a, T, const N: usize> CartesianPower<'a, T, N> {
    /// Internal consistency.
    pub closed spec fn wf(&self) -> bool {
        &&& self.positions@.len() == N
        &&& !self.done ==> self.items@.len() > 0 && digits_below(
            self.positions@,
            self.items@.len() as int,
        )
    }

    /// The items tuples are drawn from.
    pub closed spec fn source(&self) -> Seq<T> {
        self.items@
    }

    /// How many tuples have been yielded so far.
    pub closed spec fn produced(&self) -> nat {
        if self.done {
            tuple_count(self.items@.len(), N as nat)
        } else {
            place_value(self.positions@, self.items@.len() as int) as nat
        }
    }

    /// How many tuples are yielded in all.
    pub open spec fn total(&self) -> nat {
        tuple_count(self.source().len(), N as nat)
    }

    proof fn lemma_produced_bound(&self)
        requires
            self.wf(),
        ensures
            self.produced() <= self.total(),
            !self.done ==> self.produced() < self.total(),
    {
        if !self.done {
            lemma_place_value_bound(self.positions@, self.items@.len() as int);
        }
    }

    /// What one call of `next` does: from `before` it moves to `after` and returns `r`.
    pub open spec fn next_yields(before: Self, after: Self, r: Option<Vec<&'a T>>) -> bool {
        &&& after.wf()
        &&& after.source() == before.source()
        &&& match r {
            Some(t) => {
                &&& before.produced() < before.total()
                &&& after.produced() == before.produced() + 1
                &&& t@.len() == N
                &&& forall|i: int|
                    0 <= i < N ==> *t@[i] == before.source()[digit(
                        before.produced() as int,
                        before.source().len() as int,
                        i as nat,
                    )]
            },
            None => {
                &&& before.produced() == before.total()
                &&& after.produced() == before.produced()
            },
        }
    }

    /// A whole run: starting with nothing yielded, the `k`-th call of `next` yields, for
    /// every `k` below `total()`, the tuple whose item `i` is at digit `i` of `k` in base
    /// `source().len()`, and then `None` on every later call; after call `k` the count of
    /// yielded tuples is `min(k + 1, total())`. `states[k]` is the enumerator before call `k`
    /// and `results[k]` what that call returned.
    pub proof fn lemma_whole_run(states: Seq<Self>, results: Seq<Option<Vec<&'a T>>>, k: int)
        requires
            states.len() == results.len() + 1,
            states[0].produced() == 0,
            forall|j: int|
                0 <= j < results.len() ==> Self::next_yields(#[trigger] states[j], states[j + 1], results[j]),
            0 <= k < results.len(),
        ensures
            states[k].source() == states[0].source(),
            states[k].produced() == (if k < states[0].total() { k } else { states[0].total() as int }),
            k < states[0].total() ==> {
                &&& results[k] is Some
                &&& states[k + 1].produced() == k + 1
                &&& results[k]->0@.len() == N
                &&& forall|i: int|
                    0 <= i < N ==> *results[k]->0@[i] == states[0].source()[digit(
                        k,
                        states[0].source().len() as int,
                        i as nat,
                    )]
            },
            k >= states[0].total() ==> results[k] is None,
        decreases k,
    {
        if k > 0 {
            Self::lemma_whole_run(states, results, k - 1);
            assert(Self::next_yields(states[k - 1], states[k], results[k - 1]));
        }
        assert(Self::next_yields(states[k], states[k + 1], results[k]));
    }

    /// Two enumerators over the same items that have yielded equally many tuples yield the
    /// same next tuple and still agree afterwards. `cartesian_power` and `combinations` both
    /// start over their items with nothing yielded, so they yield the same tuples in the
    /// same order, and report the same `len` at every step.
    pub proof fn lemma_enumerators_agree(
        a: Self,
        a_next: Self,
        ra: Option<Vec<&'a T>>,
        b: Self,
        b_next: Self,
        rb: Option<Vec<&'a T>>,
    )
        requires
            a.source() == b.source(),
            a.produced() == b.produced(),
            Self::next_yields(a, a_next, ra),
            Self::next_yields(b, b_next, rb),
        ensures
            ra.is_some() == rb.is_some(),
            ra.is_some() ==> ra.unwrap()@ == rb.unwrap()@,
            a_next.source() == b_next.source(),
            a_next.produced() == b_next.produced(),
    {
        if ra.is_some() && rb.is_some() {
            let ta = ra.unwrap();
            let tb = rb.unwrap();
            assert forall|i: int| 0 <= i < N implies ta@[i] == tb@[i] by {
                assert(*ta@[i] == *tb@[i]);
            }
            assert(ta@ =~= tb@);
        }
    }

    /// Yields the next tuple: the tuple whose digit `i`, in base `items.len()`, is the
    /// index of its item `i`, for the number of tuples yielded before it.
    pub fn next(&mut self) -> (r: Option<Vec<&'a T>>)
        requires
            old(self).wf(),
        ensures
            Self::next_yields(*old(self), *final(self), r),
    {
        proof {
            self.lemma_produced_bound();
        }
        if self.done {
            return None;
        }
        let len = self.items.len();
        let ghost base = len as int;
        let ghost old_pos = self.positions@;
        let mut out: Vec<&'a T> = Vec::new();
        let mut i: usize = 0;
        while i < N
            invariant
                self.positions@ == old_pos,
                old_pos.len() == N,
                digits_below(old_pos, base),
                len == self.items@.len(),
                base == len,
                i <= N,
                out@.len() == i,
                forall|j: int| 0 <= j < i ==> *out@[j] == self.items@[old_pos[j] as int],
            decreases N - i,
        {
            assert(old_pos[i as int] < base);
            out.push(&self.items[self.positions[i]]);
            i = i + 1;
        }
        let mut positions = self.positions.clone();
        let mut go_next = true;
        let ghost mut carry_at: int = 0;
        let mut i: usize = 0;
        while i < N
            invariant
                old_pos.len() == N,
                digits_below(old_pos, base),
                base == len,
                len > 0,
                positions@.len() == N,
                i <= N,
                forall|j: int| i <= j < N ==> positions@[j] == old_pos[j],
                go_next ==> forall|j: int| 0 <= j < i ==> old_pos[j] == base - 1 && positions@[j] == 0,
                !go_next ==> {
                    &&& 0 <= carry_at < i
                    &&& forall|j: int|
                        0 <= j < carry_at ==> old_pos[j] == base - 1 && positions@[j] == 0
                    &&& positions@[carry_at] == old_pos[carry_at] + 1
                    &&& positions@[carry_at] < base
                    &&& forall|j: int| carry_at < j < i ==> positions@[j] == old_pos[j]
                },
            decreases N - i,
        {
            assert(old_pos[i as int] < base);
            if go_next {
                let p = positions[i] + 1;
                if p == len {
                    positions.set(i, 0);
                } else {
                    positions.set(i, p);
                    go_next = false;
                    proof {
                        carry_at = i as int;
                    }
                }
            }
            i = i + 1;
        }
        proof {
            let k = place_value(old_pos, base);
            assert forall|j: int| 0 <= j < N implies *out@[j] == self.items@[digit(
                k,
                base,
                j as nat,
            )] by {
                lemma_digit_of_place_value(old_pos, base, j as nat);
            }
            lemma_place_value_bound(old_pos, base);
            lemma_pow_step(base, N as nat);
            if go_next {
                lemma_all_max(old_pos, base);
            } else {
                lemma_carry(old_pos, positions@, base, carry_at);
                assert forall|j: int| 0 <= j < N implies #[trigger] positions@[j] < base by {
                    if j > carry_at {
                        assert(old_pos[j] < base);
                    }
                }
                lemma_place_value_bound(positions@, base);
            }
        }
        self.positions = positions;
        if go_next {
            self.done = true;
        }
        Some(out)
    }

    /// Number of tuples left to yield.
    pub fn len(&self) -> (r: usize)
        requires
            self.wf(),
            self.total() <= usize::MAX,
        ensures
            r == self.total() - self.produced(),
    {
        proof {
            self.lemma_produced_bound();
        }
        if self.done {
            return 0;
        }
        let len = self.items.len();
        let ghost base = len as int;
        let mut pow_n: usize = 1;
        let mut i: usize = 0;
        proof {
            lemma_pow_step(base, 0);
            vstd::arithmetic::power::lemma_pow_increases(base as nat, i as nat, N as nat);
        }
        while i < N
            invariant
                i <= N,
                base == len,
                len > 0,
                pow_n == pow(base, i as nat),
                pow(base, N as nat) <= usize::MAX,
            decreases N - i,
        {
            proof {
                lemma_pow_step(base, i as nat);
                vstd::arithmetic::power::lemma_pow_increases(base as nat, (i + 1) as nat, N as nat);
            }
            pow_n = pow_n * len;
            i = i + 1;
        }
        let mut passed: usize = 0;
        let mut i: usize = N;
        proof {
            assert(self.positions@.skip(N as int).len() == 0);
        }
        while i > 0
            invariant
                i <= N,
                base == len,
                len == self.items@.len(),
                len > 0,
                self.wf(),
                !self.done,
                pow(base, N as nat) <= usize::MAX,
                passed == place_value(self.positions@.skip(i as int), base),
            decreases i,
        {
            let ghost rest = self.positions@.skip(i as int);
            let ghost cur = self.positions@.skip(i - 1);
            proof {
                assert(cur.skip(1) =~= rest);
                assert forall|j: int| 0 <= j < cur.len() implies #[trigger] cur[j] < base by {
                    assert(self.positions@[i - 1 + j] < base);
                }
                lemma_place_value_bound(cur, base);
                vstd::arithmetic::power::lemma_pow_increases(base as nat, cur.len(), N as nat);
                assert(cur[0] == self.positions@[i - 1]);
            }
            passed = self.positions[i - 1] + len * passed;
            i = i - 1;
        }
        proof {
            assert(self.positions@.skip(0) =~= self.positions@);
        }
        pow_n - passed
    }
}

/// Returns an enumerator of all `N`-tuples of `items` (the `N`th cartesian power),
/// the first position varying fastest.
pub fn cartesian_power<'a, T, const N: usize>(items: &'a [T]) -> (r: CartesianPower<'a, T, N>)
    ensures
        r.wf(),
        r.source() == items@,
        r.produced() == 0,
{
    let mut positions: Vec<usize> = Vec::new();
    let mut i: usize = 0;
    while i < N
        invariant
            i <= N,
            positions@.len() == i,
            forall|j: int| 0 <= j < i ==> positions@[j] == 0,
        decreases N - i,
    {
        positions.push(0);
        i = i + 1;
    }
    proof {
        lemma_zeros(positions@, items@.len() as int);
    }
    CartesianPower { items, positions, done: items.len() == 0 }
}

/// Returns an enumerator of all `N`-length combinations (with repetition and order) of
/// `items`; the same enumeration as `cartesian_power`.
pub fn combinations<'a, T, const N: usize>(items: &'a [T]) -> (r: CartesianPower<'a, T, N>)
    ensures
        r.wf(),
        r.source() == items@,
        r.produced() == 0,
{
    cartesian_power(items)
}

} // verus!

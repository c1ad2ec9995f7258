//! Equality of cue numbers, given as the bit patterns of `f32` values.
use vstd::prelude::*;

verus! {

/// The bit pattern of the positive infinity; every pattern above it
/// (sign bit cleared) is a NaN.
pub const POSITIVE_INFINITY_BITS: u32 = 0x7f80_0000;

/// The sign bit of a binary32 value.
pub const SIGN_BIT: u32 = 0x8000_0000;

/// The magnitude of a binary32 value: its pattern with the sign bit cleared.
pub open spec fn magnitude(bits: u32) -> int {
    bits as int % (SIGN_BIT as int)
}

/// The pattern encodes a NaN.
pub open spec fn is_nan(bits: u32) -> bool {
    magnitude(bits) > POSITIVE_INFINITY_BITS as int
}

/// The pattern encodes `+0.0` or `-0.0`.
pub open spec fn is_zero(bits: u32) -> bool {
    magnitude(bits) == 0
}

/// What `f32 ==` answers for the two values with these patterns: no NaN is
/// equal to anything, the two zeros are equal, and otherwise equal values
/// have equal patterns.
pub open spec fn same_number(a: u32, b: u32) -> bool {
    &&& !is_nan(a)
    &&& !is_nan(b)
    &&& (a == b || (is_zero(a) && is_zero(b)))
}

/// Compares two cue numbers as `f32 ==` compares them.
pub fn numbers_equal(a: u32, b: u32) -> (r: bool)
    ensures
        r == same_number(a, b),
{
    let ma = a % SIGN_BIT;
    let mb = b % SIGN_BIT;
    if ma > POSITIVE_INFINITY_BITS || mb > POSITIVE_INFINITY_BITS {
        false
    } else {
        a == b || (ma == 0 && mb == 0)
    }
}

/// Equality of cue numbers is an equivalence on the numbers that are not NaN,
/// and a NaN equals no number, itself included.
pub proof fn lemma_same_number_equivalence(a: u32, b: u32, c: u32)
    ensures
        !is_nan(a) ==> same_number(a, a),
        is_nan(a) ==> !same_number(a, b) && !same_number(b, a),
        same_number(a, b) ==> same_number(b, a),
        same_number(a, b) && same_number(b, c) ==> same_number(a, c),
{
}

/// Equality of cue numbers in terms of the patterns: two patterns are equal
/// numbers exactly when neither has a magnitude above that of infinity (a
/// NaN) and they are the same pattern or both have magnitude zero (the two
/// zeros). So each infinity equals itself, and the zeros equal each other.
pub proof fn lemma_same_number_rule(a: u32, b: u32)
    ensures
        same_number(a, b) <==> (a as int % 0x8000_0000 <= 0x7f80_0000 && b as int % 0x8000_0000 <= 0x7f80_0000
            && (a == b || (a as int % 0x8000_0000 == 0 && b as int % 0x8000_0000 == 0))),
{
}

/// Two different patterns name the same number only when both are zeros.
pub proof fn lemma_distinct_patterns(a: u32, b: u32)
    requires
        a != b,
    ensures
        same_number(a, b) <==> (is_zero(a) && is_zero(b)),
{
}

/// `i` is the first position of `numbers` that holds a number equal to `n`.
pub open spec fn first_match(numbers: Seq<u32>, n: u32, i: int) -> bool {
    &&& 0 <= i < numbers.len()
    &&& same_number(numbers[i], n)
    &&& forall|k: int| 0 <= k < i ==> !same_number(#[trigger] numbers[k], n)
}

/// The first position of `numbers` that holds a number equal to `n`, if any.
pub open spec fn position_of(numbers: Seq<u32>, n: u32) -> Option<int> {
    if exists|i: int| first_match(numbers, n, i) {
        Some(choose|i: int| first_match(numbers, n, i))
    } else {
        None
    }
}

/// There is only one first position.
pub proof fn lemma_first_match_unique(numbers: Seq<u32>, n: u32, i: int, j: int)
    requires
        first_match(numbers, n, i),
        first_match(numbers, n, j),
    ensures
        i == j,
{
    if i < j {
        assert(!same_number(numbers[i], n));
    } else if j < i {
        assert(!same_number(numbers[j], n));
    }
}

/// A first position found by a search is the one that `position_of` names.
pub proof fn lemma_position_is(numbers: Seq<u32>, n: u32, i: int)
    requires
        first_match(numbers, n, i),
    ensures
        position_of(numbers, n) == Some(i),
{
    let j = choose|j: int| first_match(numbers, n, j);
    lemma_first_match_unique(numbers, n, i, j);
}

/// A search that met no equal number finds no position.
pub proof fn lemma_position_none(numbers: Seq<u32>, n: u32)
    requires
        forall|k: int| 0 <= k < numbers.len() ==> !same_number(#[trigger] numbers[k], n),
    ensures
        position_of(numbers, n) is None,
{
    if exists|i: int| first_match(numbers, n, i) {
        let i = choose|i: int| first_match(numbers, n, i);
        assert(same_number(numbers[i], n));
    }
}

/// What `position_of` names is a first position, and with no position no
/// number of the sequence equals `n`.
pub proof fn lemma_position_of(numbers: Seq<u32>, n: u32)
    ensures
        match position_of(numbers, n) {
            Some(i) => first_match(numbers, n, i),
            None => forall|k: int| 0 <= k < numbers.len() ==> !same_number(#[trigger] numbers[k], n),
        },
{
    if position_of(numbers, n) is None {
        assert forall|k: int| 0 <= k < numbers.len() implies !same_number(#[trigger] numbers[k], n) by {
            if same_number(numbers[k], n) {
                lemma_some_first_match(numbers, n, k);
            }
        }
    }
}

/// Where some number equals `n`, a first such number exists at or before it.
proof fn lemma_some_first_match(numbers: Seq<u32>, n: u32, k: int)
    requires
        0 <= k < numbers.len(),
        same_number(numbers[k], n),
    ensures
        exists|i: int| first_match(numbers, n, i),
    decreases k,
{
    if forall|m: int| 0 <= m < k ==> !same_number(#[trigger] numbers[m], n) {
        assert(first_match(numbers, n, k));
    } else {
        let m = choose|m: int| 0 <= m < k && !!same_number(#[trigger] numbers[m], n);
        lemma_some_first_match(numbers, n, m);
    }
}

} // verus!

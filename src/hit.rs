use vstd::prelude::*;

verus! {

// A distance along a ray is handed over as the bit pattern of an IEEE-754
// double. For non-negative doubles, not NaN, the patterns compare as integers
// in the order of the numbers they stand for.

/// The pattern of positive infinity, where the search for the nearest hit starts.
pub const INFINITY_BITS: u64 = 0x7ff0_0000_0000_0000;

/// The pattern of 1 - 1e-5: a blocker must lie before it along a shadow ray, so
/// that a surface does not shadow itself.
pub const SHADOW_LIMIT_BITS: u64 = 0x3fef_ffeb_074a_771d;

/// The pattern of negative zero, which compares equal to zero.
pub const NEG_ZERO_BITS: u64 = 0x8000_0000_0000_0000;

/// A hit that the nearest-hit search takes into account: one nearer than infinity.
pub open spec fn counts(h: Option<u64>) -> bool {
    h matches Some(t) && t < INFINITY_BITS
}

/// `i` is the position of the nearest hit, the first one on a tie.
pub open spec fn is_nearest(hits: Seq<Option<u64>>, i: int) -> bool {
    &&& 0 <= i < hits.len()
    &&& counts(hits[i])
    &&& forall|j: int| 0 <= j < hits.len() && counts(#[trigger] hits[j]) ==> hits[i]->0 <= hits[j]->0
    &&& forall|j: int| 0 <= j < i && counts(#[trigger] hits[j]) ==> hits[i]->0 < hits[j]->0
}

/// The position of the nearest hit among the distances at which a ray meets each
/// object (`None` where it misses); on equal distances the earlier object wins.
pub fn nearest(hits: &Vec<Option<u64>>) -> (r: Option<usize>)
    ensures
        r matches Some(i) ==> is_nearest(hits@, i as int),
        r is None <==> forall|j: int| 0 <= j < hits@.len() ==> !counts(#[trigger] hits@[j]),
{
    let mut min: u64 = INFINITY_BITS;
    let mut best: Option<usize> = None;
    let mut i: usize = 0;
    while i < hits.len()
        invariant
            i <= hits@.len(),
            best is None ==> min == INFINITY_BITS && forall|j: int|
                0 <= j < i ==> !counts(#[trigger] hits@[j]),
            best matches Some(b) ==> b < i && hits@[b as int] == Some(min) && counts(hits@[b as int]),
            forall|j: int| 0 <= j < i && counts(#[trigger] hits@[j]) ==> min <= hits@[j]->0,
            best matches Some(b) ==> forall|j: int|
                0 <= j < b && counts(#[trigger] hits@[j]) ==> min < hits@[j]->0,
        decreases hits@.len() - i,
    {
        if let Some(t) = hits[i] {
            if t < min {
                min = t;
                best = Some(i);
            }
        }
        i += 1;
    }
    best
}

/// A hit at this distance blocks the light: `0 <= t < 1 - 1e-5`.
pub open spec fn blocks(t: u64) -> bool {
    t < SHADOW_LIMIT_BITS || t == NEG_ZERO_BITS
}

/// Whether some object meets the ray from a light to a point strictly before the
/// point; `hits` holds the distances at which the ray meets each object, in units
/// of the light-to-point distance.
pub fn occluding(hits: &Vec<Option<u64>>) -> (r: bool)
    ensures
        r == exists|j: int| 0 <= j < hits@.len() && (#[trigger] hits@[j] matches Some(t) && blocks(t)),
{
    let mut i: usize = 0;
    while i < hits.len()
        invariant
            i <= hits@.len(),
            forall|j: int| 0 <= j < i ==> !(#[trigger] hits@[j] matches Some(t) && blocks(t)),
        decreases hits@.len() - i,
    {
        if let Some(t) = hits[i] {
            if t < SHADOW_LIMIT_BITS || t == NEG_ZERO_BITS {
                assert(hits@[i as int] matches Some(t) && blocks(t));
                return true;
            }
        }
        i += 1;
    }
    false
}

/// Of two objects that a ray meets at finite distances `t1` and `t2`, the
/// nearest hit is the first where `t1 <= t2` (so on a tie) and the second
/// where `t2 < t1`.
pub proof fn nearest_of_two(t1: u64, t2: u64, i: int)
    requires
        t1 < INFINITY_BITS,
        t2 < INFINITY_BITS,
        is_nearest(seq![Some(t1), Some(t2)], i),
    ensures
        t1 <= t2 ==> i == 0,
        t2 < t1 ==> i == 1,
{
    let hits = seq![Some(t1), Some(t2)];
    assert(counts(hits[0]));
    assert(counts(hits[1]));
}

/// The shadow limit: a blocker at `1 - 2e-5` along the shadow ray blocks, one at
/// `1` or farther (up to infinity) does not.
pub proof fn shadow_limit()
    ensures
        blocks(0x3fef_ffd6_0e94_ee39),
        forall|t: u64| 0x3ff0_0000_0000_0000 <= t <= INFINITY_BITS ==> !blocks(t),
{
}

} // verus!

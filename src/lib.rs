use vstd::prelude::*;

pub mod hit;
pub mod imbuf;
pub mod interp;
pub mod scene;
pub mod text;

pub use scene::{Color, Light, Material, Object, ParseError, Point, Real, Scene, Shape};

verus! {

/// The elements of `v` in order, without the one at position `i`; all of
/// them when `i` is past the end.
pub fn except<T: Copy>(v: &Vec<T>, i: usize) -> (r: Vec<T>)
    ensures
        i < v@.len() ==> r@ == v@.remove(i as int),
        i >= v@.len() ==> r@ == v@,
{
    let mut r: Vec<T> = Vec::new();
    let mut j: usize = 0;
    while j < v.len()
        invariant
            j <= v@.len(),
            r@ == (if i < j {
                v@.subrange(0, j as int).remove(i as int)
            } else {
                v@.subrange(0, j as int)
            }),
        decreases v@.len() - j,
    {
        if j != i {
            r.push(v[j]);
        }
        proof {
            assert(v@.subrange(0, j as int + 1) =~= v@.subrange(0, j as int).push(v@[j as int]));
            if i < j {
                assert(v@.subrange(0, j as int + 1).remove(i as int) =~= v@.subrange(
                    0,
                    j as int,
                ).remove(i as int).push(v@[j as int]));
            } else if i == j {
                assert(v@.subrange(0, j as int + 1).remove(i as int) =~= v@.subrange(0, j as int));
            }
        }
        j += 1;
    }
    assert(v@.subrange(0, v@.len() as int) =~= v@);
    r
}

} // verus!

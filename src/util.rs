use vstd::prelude::*;
use vstd::layout::size_of as spec_size_of;

verus! {

/// Bytes taken by the items of a slice.
pub fn byte_size_of_array<T>(val: &[T]) -> (r: isize)
    requires
        val@.len() * spec_size_of::<T>() <= isize::MAX,
    ensures
        r as int == val@.len() * spec_size_of::<T>(),
{
    let each: usize = core::mem::size_of::<T>();
    let n: usize = val.len();
    proof {
        assert(n * each <= isize::MAX);
    }
    (n * each) as isize
}

/// Bytes taken by one value of `T`.
pub fn size_of<T>() -> (r: i32)
    requires
        spec_size_of::<T>() <= i32::MAX,
    ensures
        r as int == spec_size_of::<T>(),
{
    core::mem::size_of::<T>() as i32
}

/// Where the camera sits.
#[derive(Clone, Copy, Debug, PartialEq, Eq, Structural)]
pub enum CameraPosition {
    ThirdPerson,
    FirstPerson,
}

} // verus!

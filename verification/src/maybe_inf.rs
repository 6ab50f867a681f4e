//! Counts that may be infinite.
use vstd::prelude::*;

verus! {

/// A number, or infinity, which is greater than every number.
#[derive(Clone, Copy, PartialEq, Eq, Debug)]
pub enum MaybeInf<T> where T: Eq + Clone + Copy {
    Finite(T),
    Infinite,
}

impl MaybeInf<u32> {
    /// Subtracts `rhs` from a finite number; infinity stays.
    pub fn sub_assign(&mut self, rhs: u32)
        requires
            *old(self) matches MaybeInf::Finite(x) ==> x >= rhs,
        ensures
            match *old(self) {
                MaybeInf::Finite(x) => *final(self) == MaybeInf::Finite((x - rhs) as u32),
                MaybeInf::Infinite => *final(self) == MaybeInf::<u32>::Infinite,
            },
    {
        match *self {
            MaybeInf::Finite(x) => {
                *self = MaybeInf::Finite(x - rhs);
            },
            MaybeInf::Infinite => {},
        }
    }

    /// Whether this is the finite number zero.
    pub fn is_zero(&self) -> (r: bool)
        ensures
            r == (*self == MaybeInf::Finite(0u32)),
    {
        match *self {
            MaybeInf::Finite(x) => x == 0,
            MaybeInf::Infinite => false,
        }
    }
}

/// The order of `MaybeInf`: numbers in their own order, and infinity above
/// every number and equal to itself.
impl<T: Eq + Clone + Copy + vstd::std_specs::cmp::PartialOrdSpec> vstd::std_specs::cmp::PartialOrdSpecImpl for MaybeInf<T> {
    open spec fn obeys_partial_cmp_spec() -> bool {
        T::obeys_partial_cmp_spec()
    }

    open spec fn partial_cmp_spec(&self, other: &MaybeInf<T>) -> Option<core::cmp::Ordering> {
        match (*self, *other) {
            (MaybeInf::Finite(a), MaybeInf::Finite(b)) => a.partial_cmp_spec(&b),
            (MaybeInf::Finite(_), MaybeInf::Infinite) => Some(core::cmp::Ordering::Less),
            (MaybeInf::Infinite, MaybeInf::Finite(_)) => Some(core::cmp::Ordering::Greater),
            (MaybeInf::Infinite, MaybeInf::Infinite) => Some(core::cmp::Ordering::Equal),
        }
    }
}

impl<T: Eq + Clone + Copy + vstd::std_specs::cmp::PartialOrdSpec> PartialOrd for MaybeInf<T> {
    fn partial_cmp(&self, other: &MaybeInf<T>) -> (r: Option<core::cmp::Ordering>) {
        match (self, other) {
            (MaybeInf::Finite(a), MaybeInf::Finite(b)) => a.partial_cmp(b),
            (MaybeInf::Finite(_), MaybeInf::Infinite) => Some(core::cmp::Ordering::Less),
            (MaybeInf::Infinite, MaybeInf::Finite(_)) => Some(core::cmp::Ordering::Greater),
            (MaybeInf::Infinite, MaybeInf::Infinite) => Some(core::cmp::Ordering::Equal),
        }
    }
}

} // verus!

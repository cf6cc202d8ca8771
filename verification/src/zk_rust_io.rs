//! The I/O markers a user's program calls: compile-time stand-ins that the
//! rewriting replaces by each zkVM's own calls.
use vstd::prelude::*;

verus! {

/// Reads a value that the host handed to the guest. Outside a zkVM it reads
/// nothing and gives the default value of the type asked for: the call marks
/// where the rewriting puts the zkVM's own read.
#[inline(never)]
pub fn read<T: Default>() -> (r: T)
    ensures
        call_ensures(T::default, (), r),
{
    T::default()
}

/// Commits a value computed in the guest as public output. Outside a zkVM
/// it does nothing: the call marks where the rewriting puts the zkVM's own
/// commit.
#[inline(never)]
pub fn commit<T>(_value: &T) {
}

/// Hands a value from the host to the guest. Outside a zkVM it does nothing:
/// the call marks where the rewriting puts the zkVM's own write.
#[inline(never)]
pub fn write<T>(_value: &T) {
}

/// Reads what the guest committed. Outside a zkVM it reads nothing and gives
/// the default value of the type asked for: the call marks where the
/// rewriting puts the zkVM's own read.
#[inline(never)]
pub fn out<T: Default>() -> (r: T)
    ensures
        call_ensures(T::default, (), r),
{
    T::default()
}

} // verus!

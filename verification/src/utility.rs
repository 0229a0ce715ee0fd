//! Addresses that can be handed from one thread to another.
//!
//! A handle holds the address at which a worker's part of the buffer
//! begins. Address zero is no address.
use core::marker::PhantomData;
use vstd::prelude::*;

verus! {

/// The address of the first of some values of type `T` that are only read.
pub struct Movable<T>(pub usize, pub PhantomData<T>);

impl<T> Movable<T> {
    /// A handle on the values at `address`.
    pub fn new(address: usize) -> (handle: Movable<T>)
        ensures
            handle.0 == address,
    {
        Movable(address, PhantomData)
    }

    /// The address, unless it is zero.
    pub fn get(&self) -> (address: Option<usize>)
        ensures
            address == if self.0 == 0 {
                None::<usize>
            } else {
                Some(self.0)
            },
    {
        if self.0 == 0 {
            return None;
        }
        Some(self.0)
    }
}

/// The address of the first of some values of type `T` that may be written.
pub struct MovableMut<T>(pub usize, pub PhantomData<T>);

impl<T> MovableMut<T> {
    /// A handle on the values at `address`.
    pub fn new(address: usize) -> (handle: MovableMut<T>)
        ensures
            handle.0 == address,
    {
        MovableMut(address, PhantomData)
    }

    /// The address, unless it is zero.
    pub fn get(&self) -> (address: Option<usize>)
        ensures
            address == if self.0 == 0 {
                None::<usize>
            } else {
                Some(self.0)
            },
    {
        if self.0 == 0 {
            return None;
        }
        Some(self.0)
    }
}

} // verus!

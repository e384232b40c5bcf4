//! Access tokens that pick, by the type of a parameter, how a word's argument
//! is obtained: the machine itself, or a value popped from its stack.
use crate::value::FromOdraValue;
use crate::vm::{OdraError, Vm};
use std::marker::PhantomData;
use vstd::prelude::*;

verus! {

/// Hands a word the machine itself.
pub struct VmToken;

/// Hands a word a value popped from the machine's stack.
pub struct OtherToken;

pub trait GetVmForVm {
    fn get_access_token(&self) -> VmToken {
        VmToken
    }
}

impl<'a, B> GetVmForVm for PhantomData<&'a mut Vm<B>> {}

pub trait GetVmForOther {
    fn get_access_token(&self) -> OtherToken {
        OtherToken
    }
}

impl<'a, T: FromOdraValue> GetVmForOther for &'a PhantomData<T> {}

impl VmToken {
    /// The machine, as it was handed in.
    pub fn get<'a, B>(self, vm: &'a mut Vm<B>) -> (r: &'a mut Vm<B>)
        ensures
            *r == *old(vm),
            *final(vm) == *final(r),
    {
        vm
    }
}

impl OtherToken {
    /// The top of the stack, popped and converted to `T`.
    pub fn get<T: FromOdraValue, B>(self, vm: &mut Vm<B>) -> (r: Result<T, OdraError>)
        ensures
            final(vm).pending() == old(vm).pending(),
            final(vm).spec_vocabulary() == old(vm).spec_vocabulary(),
            old(vm).stack().len() == 0 ==> r == Err::<T, OdraError>(OdraError::StackUnderflow)
                && final(vm).stack() == old(vm).stack(),
            old(vm).stack().len() > 0 ==> {
                &&& final(vm).stack() == old(vm).stack().drop_last()
                &&& match r {
                    Ok(x) => T::spec_from_odra_value(old(vm).stack().last()) == Some(x),
                    Err(e) => T::spec_from_odra_value(old(vm).stack().last()) is None && e
                        == OdraError::Conversion,
                }
            },
    {
        vm.pop_from_stack()
    }
}

} // verus!

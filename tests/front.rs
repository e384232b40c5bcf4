use odra::compiler::Compiler;
use odra::spec_get_vm::{GetVmForOther, GetVmForVm, OtherToken, VmToken};
use odra::vm::{OdraError, Vm};
use odra::words::{Behavior, Word};
use std::marker::PhantomData;

#[derive(Debug, Clone, Copy, PartialEq)]
struct Nothing;

impl Behavior for Nothing {
    fn call(&self, _vm: &mut Vm<Nothing>) -> Result<(), OdraError> {
        Ok(())
    }
}

#[test]
fn vm_token_hands_over_the_machine() {
    let mut vm: Vm<Nothing> = Vm::new();
    let marker: PhantomData<&mut Vm<Nothing>> = PhantomData;
    let token: VmToken = marker.get_access_token();
    let same = token.get(&mut vm);
    same.push_onto_stack(4u16);
    assert_eq!(vm.stack_len(), 1);
}

#[test]
fn other_token_pops_and_converts() {
    let mut vm: Vm<Nothing> = Vm::new();
    vm.push_onto_stack(-9i16);
    let marker: PhantomData<i16> = PhantomData;
    let token: OtherToken = (&marker).get_access_token();
    assert_eq!(token.get::<i16, Nothing>(&mut vm), Ok(-9));
    assert_eq!(OtherToken.get::<i16, Nothing>(&mut vm), Err(OdraError::StackUnderflow));
}

#[test]
fn compiler_front_keeps_no_state() {
    let mut c = Compiler::new();
    c.enter_scope("s");
    c.finish_current_definition_and_start_next();
    c.exec_word(&Word::new_macro("m".to_string(), Nothing));
    c.exit_scope();
}

#[test]
fn entering_a_scope_twice_reuses_it() {
    let mut vm: Vm<Nothing> = Vm::new();
    vm.enter_scope("a");
    vm.register(Word::new_macro("here".to_string(), Nothing)).unwrap();
    vm.exit_scope();
    vm.enter_scope("b");
    assert!(vm.vocabulary().resolve("here").is_err());
    vm.exit_scope();
    vm.enter_scope("a");
    assert!(vm.vocabulary().resolve("here").is_ok());
    assert!(vm.run("here").is_ok());
}

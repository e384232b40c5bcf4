use odra::value::Float64Bits;
use odra::vm::{OdraError, Vm};
use odra::words::{register_all_builtin_words, Behavior, StackEffect, Word};
use odra::value::{OdraType, OdraValue};

#[derive(Debug, Clone, Copy, PartialEq)]
enum Builtin {
    One,
    Two,
    Add,
    Seven,
    Drain,
    Fail,
}

impl Behavior for Builtin {
    fn call(&self, vm: &mut Vm<Builtin>) -> Result<(), OdraError> {
        match self {
            Builtin::One => {
                vm.push_onto_stack(Float64Bits { bits: 1.0f64.to_bits() });
                Ok(())
            }
            Builtin::Two => {
                vm.push_onto_stack(Float64Bits { bits: 2.0f64.to_bits() });
                Ok(())
            }
            Builtin::Seven => {
                vm.push_onto_stack(7u8);
                Ok(())
            }
            Builtin::Add => {
                let b: Float64Bits = vm.pop_from_stack()?;
                let a: Float64Bits = vm.pop_from_stack()?;
                let sum = f64::from_bits(a.bits) + f64::from_bits(b.bits);
                vm.push_onto_stack(Float64Bits { bits: sum.to_bits() });
                Ok(())
            }
            Builtin::Drain => vm.run_word_being_built(),
            Builtin::Fail => Err(OdraError::Conversion),
        }
    }
}

fn number_effect(inputs: usize) -> StackEffect {
    StackEffect::Static { inputs: vec![OdraType::Number; inputs], outputs: vec![OdraType::Number] }
}

fn builtin_vm() -> Vm<Builtin> {
    let mut vm = Vm::new();
    let words = vec![
        Word::new("one".to_string(), false, number_effect(0), Builtin::One),
        Word::new("two".to_string(), false, number_effect(0), Builtin::Two),
        Word::new("add".to_string(), false, number_effect(2), Builtin::Add),
        Word::new("run".to_string(), true, StackEffect::Dynamic, Builtin::Drain),
    ];
    register_all_builtin_words(&mut vm, words).unwrap();
    vm
}

fn stack_of(vm: &Vm<Builtin>) -> Vec<OdraValue> {
    vm.main_fibre.stack.iter().cloned().collect()
}

#[test]
fn deferred_build_runs_on_drain() {
    let mut vm = builtin_vm();
    for token in ["one", "two", "add"] {
        vm.run(token).unwrap();
        assert_eq!(vm.stack_len(), 0);
    }
    assert_eq!(vm.pending_len(), 3);
    vm.run("run").unwrap();
    assert_eq!(stack_of(&vm), vec![OdraValue::Number(3.0f64.to_bits())]);
    assert_eq!(vm.pending_len(), 0);
}

#[test]
fn unknown_token_changes_nothing() {
    let mut vm = builtin_vm();
    vm.run("one").unwrap();
    vm.push_onto_stack(5u32);
    let before = stack_of(&vm);
    let r = vm.run("bogus");
    assert_eq!(r, Err(OdraError::Resolution("bogus".to_string())));
    assert_eq!(stack_of(&vm), before);
    assert_eq!(vm.pending_len(), 1);
}

#[test]
fn macro_runs_at_once() {
    let mut vm = Vm::new();
    vm.register(Word::new("seven".to_string(), true, StackEffect::Dynamic, Builtin::Seven)).unwrap();
    vm.run("seven").unwrap();
    assert_eq!(vm.pending_len(), 0);
    assert_eq!(vm.pop_from_stack::<u8>(), Ok(7));
}

#[test]
fn draining_an_empty_builder_does_nothing() {
    let mut vm = builtin_vm();
    vm.run("run").unwrap();
    assert_eq!(vm.stack_len(), 0);
    assert_eq!(vm.pending_len(), 0);
}

#[test]
fn drain_runs_in_queue_order() {
    let mut vm = Vm::new();
    vm.register(Word::new("seven".to_string(), false, StackEffect::Dynamic, Builtin::Seven)).unwrap();
    vm.register(Word::new("one".to_string(), false, number_effect(0), Builtin::One)).unwrap();
    vm.register(Word::new("run".to_string(), true, StackEffect::Dynamic, Builtin::Drain)).unwrap();
    vm.run("seven").unwrap();
    vm.run("one").unwrap();
    vm.run("run").unwrap();
    assert_eq!(
        stack_of(&vm),
        vec![OdraValue::Number(7.0f64.to_bits()), OdraValue::Number(1.0f64.to_bits())]
    );
}

#[test]
fn drain_stops_at_first_failure() {
    let mut vm = Vm::new();
    vm.register(Word::new("fail".to_string(), false, StackEffect::Dynamic, Builtin::Fail)).unwrap();
    vm.register(Word::new("one".to_string(), false, number_effect(0), Builtin::One)).unwrap();
    vm.register(Word::new("run".to_string(), true, StackEffect::Dynamic, Builtin::Drain)).unwrap();
    vm.run("fail").unwrap();
    vm.run("one").unwrap();
    assert_eq!(vm.run("run"), Err(OdraError::Conversion));
    assert_eq!(vm.stack_len(), 0);
    assert_eq!(vm.pending_len(), 0);
}

#[test]
fn add_on_short_stack_underflows() {
    let mut vm = builtin_vm();
    vm.run("one").unwrap();
    vm.run("add").unwrap();
    assert_eq!(vm.run("run"), Err(OdraError::StackUnderflow));
}

#[test]
fn second_registration_shadows_first() {
    let mut vm = Vm::new();
    vm.register(Word::new("foo".to_string(), false, number_effect(0), Builtin::One)).unwrap();
    vm.register(Word::new("foo".to_string(), false, number_effect(0), Builtin::Two)).unwrap();
    let w = vm.vocabulary().resolve("foo").unwrap();
    assert_eq!(w.behavior, Builtin::Two);
    vm.register(Word::new("run".to_string(), true, StackEffect::Dynamic, Builtin::Drain)).unwrap();
    vm.run("foo").unwrap();
    vm.run("run").unwrap();
    assert_eq!(stack_of(&vm), vec![OdraValue::Number(2.0f64.to_bits())]);
}

#[test]
fn child_registration_leaves_parent() {
    let mut vm = Vm::new();
    vm.register(Word::new("foo".to_string(), false, number_effect(0), Builtin::One)).unwrap();
    vm.enter_scope("inner");
    assert!(vm.vocabulary().resolve("foo").is_err());
    vm.register(Word::new("foo".to_string(), false, number_effect(0), Builtin::Two)).unwrap();
    assert_eq!(vm.vocabulary().resolve("foo").unwrap().behavior, Builtin::Two);
    vm.exit_scope();
    assert_eq!(vm.vocabulary().resolve("foo").unwrap().behavior, Builtin::One);
    vm.enter_scope("inner");
    assert_eq!(vm.vocabulary().resolve("foo").unwrap().behavior, Builtin::Two);
}

#[test]
fn exit_at_root_stays_at_root() {
    let mut vm = Vm::new();
    vm.register(Word::new("one".to_string(), false, number_effect(0), Builtin::One)).unwrap();
    vm.exit_scope();
    assert!(vm.vocabulary().resolve("one").is_ok());
}

#[test]
fn register_all_later_word_wins() {
    let mut vm = Vm::new();
    let words = vec![
        Word::new("x".to_string(), false, number_effect(0), Builtin::One),
        Word::new("x".to_string(), false, number_effect(0), Builtin::Two),
    ];
    register_all_builtin_words(&mut vm, words).unwrap();
    assert_eq!(vm.vocabulary().resolve("x").unwrap().behavior, Builtin::Two);
}

#[test]
fn word_accessors() {
    let w = Word::new("add".to_string(), false, number_effect(2), Builtin::Add);
    assert_eq!(w.name(), "add");
    assert!(!w.is_macro());
    match w.stack_effect() {
        StackEffect::Static { inputs, outputs } => {
            assert_eq!(inputs.len(), 2);
            assert_eq!(outputs, &vec![OdraType::Number]);
        }
        StackEffect::Dynamic => panic!("expected a static effect"),
    }
}

#[test]
fn pop_from_empty_stack_underflows() {
    let mut vm: Vm<Builtin> = Vm::new();
    assert_eq!(vm.pop_from_stack::<i32>(), Err(OdraError::StackUnderflow));
}

#[test]
fn pop_of_wrong_type_fails_and_removes() {
    let mut vm: Vm<Builtin> = Vm::new();
    vm.push_onto_stack(3u8);
    vm.push_onto_stack("hi".to_string());
    assert_eq!(vm.pop_from_stack::<u8>(), Err(OdraError::Conversion));
    assert_eq!(vm.stack_len(), 1);
    assert_eq!(vm.pop_from_stack::<u8>(), Ok(3));
}

#[test]
fn push_then_pop_string() {
    let mut vm: Vm<Builtin> = Vm::new();
    vm.push_onto_stack("word".to_string());
    assert_eq!(vm.stack_len(), 1);
    assert_eq!(vm.pop_from_stack::<String>(), Ok("word".to_string()));
    assert_eq!(vm.stack_len(), 0);
}

#[test]
fn effect_of_signature_skips_machine_parameters() {
    let effect = StackEffect::of_signature(
        vec![Some(OdraType::Number), None, Some(OdraType::String)],
        Some(OdraType::OtherNamed("Point".to_string())),
    );
    match effect {
        StackEffect::Static { inputs, outputs } => {
            assert_eq!(inputs, vec![OdraType::Number, OdraType::String]);
            assert_eq!(outputs, vec![OdraType::OtherNamed("Point".to_string())]);
        }
        StackEffect::Dynamic => panic!("expected a static effect"),
    }
    match StackEffect::of_signature(vec![None], None) {
        StackEffect::Static { inputs, outputs } => {
            assert!(inputs.is_empty());
            assert!(outputs.is_empty());
        }
        StackEffect::Dynamic => panic!("expected a static effect"),
    }
}

#[test]
fn macro_and_ordinary_constructors() {
    let m = Word::new_macro("run".to_string(), Builtin::Drain);
    assert!(m.is_macro());
    assert!(matches!(m.stack_effect(), StackEffect::Dynamic));
    let o = Word::new_ordinary("add".to_string(), vec![Some(OdraType::Number); 2], Some(OdraType::Number), Builtin::Add);
    assert!(!o.is_macro());
    match o.stack_effect() {
        StackEffect::Static { inputs, outputs } => {
            assert_eq!(inputs.len(), 2);
            assert_eq!(outputs.len(), 1);
        }
        StackEffect::Dynamic => panic!("expected a static effect"),
    }
}

#[test]
fn drained_words_leave_the_queue() {
    let mut vm = builtin_vm();
    vm.run("one").unwrap();
    vm.run("two").unwrap();
    vm.run_word_being_built().unwrap();
    assert_eq!(stack_of(&vm), vec![OdraValue::Number(1.0f64.to_bits()), OdraValue::Number(2.0f64.to_bits())]);
    vm.run("run").unwrap();
    assert_eq!(stack_of(&vm), vec![OdraValue::Number(1.0f64.to_bits()), OdraValue::Number(2.0f64.to_bits())]);
}

#[test]
fn failed_token_keeps_the_queue_for_the_drain() {
    let mut vm = builtin_vm();
    vm.run("one").unwrap();
    assert!(vm.run("bogus").is_err());
    assert_eq!(vm.stack_len(), 0);
    vm.run("run").unwrap();
    assert_eq!(stack_of(&vm), vec![OdraValue::Number(1.0f64.to_bits())]);
}

#[test]
fn take_empties_the_queue_in_order() {
    let mut vm = builtin_vm();
    vm.run("one").unwrap();
    vm.run("two").unwrap();
    let taken = vm.take_word_being_built();
    assert_eq!(taken.len(), 2);
    assert_eq!(taken[0].name(), "one");
    assert_eq!(taken[1].name(), "two");
    assert_eq!(vm.pending_len(), 0);
}

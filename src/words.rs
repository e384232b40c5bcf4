//! Words: named units of behaviour, either macros, which run as soon as they
//! are read, or ordinary words, which are queued into the word being built.
use crate::value::OdraType;
use crate::vm::{OdraError, Vm};
use vstd::prelude::*;

verus! {

/// What a word takes from the stack and gives back, when that is known.
#[derive(Debug, Clone)]
pub enum StackEffect {
    Dynamic,
    Static { inputs: Vec<OdraType>, outputs: Vec<OdraType> },
}

/// The types that a native function's parameters take from the stack, in
/// order; a parameter that is handed the machine itself (`None`) takes nothing.
pub open spec fn stack_inputs(params: Seq<Option<OdraType>>) -> Seq<OdraType>
    decreases params.len(),
{
    if params.len() == 0 {
        Seq::empty()
    } else {
        let rest = stack_inputs(params.subrange(1, params.len() as int));
        match params[0] {
            Some(t) => seq![t] + rest,
            None => rest,
        }
    }
}

/// What a native function's result gives to the stack: its type, if it has one.
pub open spec fn stack_outputs(result: Option<OdraType>) -> Seq<OdraType> {
    match result {
        Some(t) => seq![t],
        None => Seq::empty(),
    }
}

impl StackEffect {
    /// The effect of a native function with parameters of the given types
    /// (`None` for one handed the machine itself) and the given result type.
    pub fn of_signature(params: Vec<Option<OdraType>>, result: Option<OdraType>) -> (r: StackEffect)
        ensures
            r matches StackEffect::Static { inputs, outputs } && inputs@ == stack_inputs(params@)
                && outputs@ == stack_outputs(result),
    {
        let ghost all = params@;
        let mut rest = params;
        let mut inputs: Vec<OdraType> = Vec::new();
        while rest.len() > 0
            invariant
                inputs@ + stack_inputs(rest@) == stack_inputs(all),
            decreases rest.len(),
        {
            let ghost before = rest@;
            let p = rest.remove(0);
            assert(rest@ =~= before.subrange(1, before.len() as int));
            match p {
                Some(t) => {
                    inputs.push(t);
                    assert(inputs@ + stack_inputs(rest@) =~= (inputs@.drop_last() + (seq![t]
                        + stack_inputs(rest@))));
                },
                None => {},
            }
        }
        assert(stack_inputs(rest@) =~= Seq::<OdraType>::empty());
        assert(inputs@ =~= inputs@ + stack_inputs(rest@));
        let mut outputs: Vec<OdraType> = Vec::new();
        match result {
            Some(t) => outputs.push(t),
            None => {},
        }
        assert(outputs@ =~= stack_outputs(result));
        StackEffect::Static { inputs, outputs }
    }
}

/// The native behaviour behind a word. The embedder implements it for its own
/// type (usually an enum of its builtin words); the machine calls it when a
/// macro is read or when a queued ordinary word is run.
pub trait Behavior: Sized {
    /// What a call may do: `r` is its result and `post` the machine after a
    /// call on the machine `pre`. An implementation that states nothing
    /// leaves every outcome possible.
    open spec fn effect(&self, pre: Vm<Self>, post: Vm<Self>, r: Result<(), OdraError>) -> bool {
        true
    }

    fn call(&self, vm: &mut Vm<Self>) -> (r: Result<(), OdraError>)
        ensures
            self.effect(*old(vm), *final(vm), r),
    ;
}

/// A named word: its name, whether it is a macro, what it does to the stack,
/// and its behaviour.
#[derive(Debug)]
pub struct Word<B> {
    pub name: String,
    pub is_macro: bool,
    pub stack_effect: StackEffect,
    pub behavior: B,
}

impl<B> Word<B> {
    pub fn new(name: String, is_macro: bool, stack_effect: StackEffect, behavior: B) -> (r: Word<B>)
        ensures
            r.name == name,
            r.is_macro == is_macro,
            r.stack_effect == stack_effect,
            r.behavior == behavior,
    {
        Word { name, is_macro, stack_effect, behavior }
    }

    /// A macro: it runs as soon as it is read, and what it does to the stack
    /// is not declared.
    pub fn new_macro(name: String, behavior: B) -> (r: Word<B>)
        ensures
            r.name == name,
            r.is_macro,
            r.stack_effect is Dynamic,
            r.behavior == behavior,
    {
        Word { name, is_macro: true, stack_effect: StackEffect::Dynamic, behavior }
    }

    /// An ordinary word backed by a native function with parameters of the
    /// given types (`None` for one handed the machine itself) and the given
    /// result type.
    pub fn new_ordinary(
        name: String,
        params: Vec<Option<OdraType>>,
        result: Option<OdraType>,
        behavior: B,
    ) -> (r: Word<B>)
        ensures
            r.name == name,
            !r.is_macro,
            r.stack_effect matches StackEffect::Static { inputs, outputs } && inputs@ == stack_inputs(
                params@,
            ) && outputs@ == stack_outputs(result),
            r.behavior == behavior,
    {
        Word { name, is_macro: false, stack_effect: StackEffect::of_signature(params, result), behavior }
    }

    pub fn name(&self) -> (r: &str)
        ensures
            r@ == self.name@,
    {
        self.name.as_str()
    }

    pub fn is_macro(&self) -> (r: bool)
        ensures
            r == self.is_macro,
    {
        self.is_macro
    }

    pub fn stack_effect(&self) -> (r: &StackEffect)
        ensures
            *r == self.stack_effect,
    {
        &self.stack_effect
    }
}

impl<B: Behavior> Word<B> {
    /// Installs the word in the machine's current vocabulary, where it
    /// shadows any word of the same name.
    pub fn register(self, vm: &mut Vm<B>) -> (r: Result<(), OdraError>)
        ensures
            r is Ok,
            final(vm).spec_vocabulary().current_words() == old(vm).spec_vocabulary().current_words().insert(
                self.name@,
                self,
            ),
            final(vm).spec_vocabulary().current_node() == old(vm).spec_vocabulary().current_node(),
            final(vm).pending() == old(vm).pending(),
            final(vm).stack() == old(vm).stack(),
    {
        vm.register(self)
    }
}

/// Registers every word of `words`, in order, in the machine's current
/// vocabulary.
pub fn register_all_builtin_words<B: Behavior>(vm: &mut Vm<B>, words: Vec<Word<B>>) -> (r: Result<
    (),
    OdraError,
>)
    ensures
        r is Ok,
        final(vm).pending() == old(vm).pending(),
        final(vm).stack() == old(vm).stack(),
        forall|i: int|
            0 <= i < words.len() && (forall|j: int| i < j < words.len() ==> words@[j].name@ != words@[i].name@)
                ==> final(vm).spec_vocabulary().current_words().contains_key(#[trigger] words@[i].name@)
                && final(vm).spec_vocabulary().current_words()[words@[i].name@] == words@[i],
{
    let ghost all = words@;
    let mut rest = words;
    let mut done: usize = 0;
    let total = rest.len();
    while rest.len() > 0
        invariant
            done + rest.len() == all.len(),
            all.len() == total,
            forall|j: int| 0 <= j < rest.len() ==> rest@[j] == all[done + j],
            vm.pending() == old(vm).pending(),
            vm.stack() == old(vm).stack(),
            forall|i: int|
                0 <= i < done && (forall|j: int| i < j < done ==> all[j].name@ != all[i].name@)
                    ==> vm.spec_vocabulary().current_words().contains_key(#[trigger] all[i].name@)
                    && vm.spec_vocabulary().current_words()[all[i].name@] == all[i],
        decreases rest.len(),
    {
        let w = rest.remove(0);
        let _ = w.register(vm);
        done = done + 1;
    }
    Ok(())
}

} // verus!

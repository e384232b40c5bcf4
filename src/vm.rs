//! The machine: the main fibre's stack, the vocabulary tree and the word
//! being built.
use crate::collections::{stack_items, stack_len, stack_new, stack_pop, stack_push};
use crate::value::{share, AsOdraValue, FromOdraValue, OdraValue};
use crate::vocabulary::Vocabulary;
use crate::words::{Behavior, Word};
use std::sync::Arc;
use vstd::prelude::*;

verus! {

/// What can go wrong while running words.
#[derive(Debug, Clone, PartialEq)]
pub enum OdraError {
    /// The token names no word in the current vocabulary.
    Resolution(String),
    /// A value cannot be represented as the requested type.
    Conversion,
    /// A word wanted a value from an empty stack.
    StackUnderflow,
}

/// A named stack of values.
pub struct Fibre {
    pub name: String,
    pub stack: im::Vector<OdraValue>,
}

impl Fibre {
    /// The values on the stack, bottom first.
    pub open spec fn items(self) -> Seq<OdraValue> {
        stack_items(self.stack)
    }
}

/// The words queued into the word being built, first queued first.
struct WordBuilder<B> {
    thunks: Vec<Arc<Word<B>>>,
}

/// `states` are the machines between the calls of a drain that started on
/// `start` and ended on `end` with `r`: the first is `start` with its queue
/// emptied; each queued word, in order, took the machine from one state to
/// the next and succeeded; then either every queued word ran and `r` is `Ok`,
/// or the next queued word took the last state to `end` and failed with `r`.
pub open spec fn drain_trace<B: Behavior>(
    start: Vm<B>,
    states: Seq<Vm<B>>,
    end: Vm<B>,
    r: Result<(), OdraError>,
) -> bool {
    let words = start.pending();
    &&& 1 <= states.len() <= words.len() + 1
    &&& states[0].pending() == Seq::<Word<B>>::empty()
    &&& states[0].stack() == start.stack()
    &&& states[0].spec_vocabulary() == start.spec_vocabulary()
    &&& states[0].agrees_except_queue(start)
    &&& forall|j: int|
        0 <= j < states.len() - 1 ==> #[trigger] words[j].behavior.effect(
            states[j],
            states[j + 1],
            Ok(()),
        )
    &&& if r is Ok {
        states.len() == words.len() + 1 && end == states.last()
    } else {
        states.len() <= words.len() && words[states.len() - 1].behavior.effect(states.last(), end, r)
    }
}

/// The machine that reads tokens and runs words.
pub struct Vm<B> {
    pub main_fibre: Fibre,
    other_fibres: Vec<Fibre>,
    vocabulary: Vocabulary<B>,
    word_builder: WordBuilder<B>,
}

impl<B> Vm<B> {
    /// The vocabulary tree.
    pub closed spec fn spec_vocabulary(self) -> Vocabulary<B> {
        self.vocabulary
    }

    /// The ordinary words queued into the word being built, in order.
    pub closed spec fn pending(self) -> Seq<Word<B>> {
        Seq::new(self.word_builder.thunks.len() as nat, |i: int| *self.word_builder.thunks@[i])
    }

    /// The values on the main fibre's stack, bottom first.
    pub closed spec fn stack(self) -> Seq<OdraValue> {
        self.main_fibre.items()
    }

    /// The name of the main fibre.
    pub closed spec fn main_name(self) -> Seq<char> {
        self.main_fibre.name@
    }

    /// The number of fibres besides the main one.
    pub closed spec fn other_fibre_count(self) -> nat {
        self.other_fibres@.len()
    }

    /// Whether the two machines differ at most in the word being built.
    pub closed spec fn agrees_except_queue(self, other: Vm<B>) -> bool {
        &&& self.main_fibre == other.main_fibre
        &&& self.other_fibres == other.other_fibres
        &&& self.vocabulary == other.vocabulary
    }

    /// A machine with an empty main stack, an empty root vocabulary and no
    /// word being built.
    pub fn new() -> (r: Vm<B>)
        ensures
            r.stack() == Seq::<OdraValue>::empty(),
            r.pending() == Seq::<Word<B>>::empty(),
            r.spec_vocabulary().node_count() == 1,
            r.spec_vocabulary().current_node() == 0,
            r.spec_vocabulary().current_words() == Map::<Seq<char>, Word<B>>::empty(),
            r.spec_vocabulary().well_formed(),
            r.main_name() == "main"@,
            r.other_fibre_count() == 0,
    {
        let main_fibre = Fibre { name: "main".to_owned(), stack: stack_new() };
        let r = Vm {
            main_fibre,
            other_fibres: Vec::new(),
            vocabulary: Vocabulary::empty(),
            word_builder: WordBuilder { thunks: Vec::new() },
        };
        assert(r.pending() =~= Seq::<Word<B>>::empty());
        assert(r.other_fibres@ =~= Seq::<Fibre>::empty());
        r
    }

    /// Installs `word` in the current vocabulary, where it shadows any word
    /// of the same name.
    pub fn register(&mut self, word: Word<B>) -> (r: Result<(), OdraError>)
        ensures
            r is Ok,
            final(self).spec_vocabulary().current_words() == old(self).spec_vocabulary().current_words().insert(
                word.name@,
                word,
            ),
            final(self).spec_vocabulary().current_node() == old(self).spec_vocabulary().current_node(),
            final(self).spec_vocabulary().well_formed(),
            final(self).spec_vocabulary().node_count() == old(self).spec_vocabulary().node_count(),
            forall|n: int|
                0 <= n < old(self).spec_vocabulary().node_count() ==> #[trigger] final(self).spec_vocabulary().parent(n)
                    == old(self).spec_vocabulary().parent(n),
            forall|n: int|
                0 <= n < old(self).spec_vocabulary().node_count() && n != old(self).spec_vocabulary().current_node() ==> #[trigger] final(self).spec_vocabulary().node_words(n)
                    == old(self).spec_vocabulary().node_words(n),
            final(self).pending() == old(self).pending(),
            final(self).stack() == old(self).stack(),
    {
        self.vocabulary.append(Arc::new(word))
    }

    /// Enters the child scope `name` of the current vocabulary, creating it
    /// (empty) if needed. Words already registered anywhere stay as they were.
    pub fn enter_scope(&mut self, name: &str)
        ensures
            final(self).pending() == old(self).pending(),
            final(self).stack() == old(self).stack(),
            final(self).spec_vocabulary().well_formed(),
            final(self).spec_vocabulary().node_count() >= old(self).spec_vocabulary().node_count(),
            final(self).spec_vocabulary().parent(final(self).spec_vocabulary().current_node()) == Some(
                old(self).spec_vocabulary().current_node(),
            ),
            old(self).spec_vocabulary().children(old(self).spec_vocabulary().current_node()).contains_key(name@) ==> {
                &&& final(self).spec_vocabulary().current_node() == old(self).spec_vocabulary().children(
                    old(self).spec_vocabulary().current_node(),
                )[name@]
                &&& final(self).spec_vocabulary().node_count() == old(self).spec_vocabulary().node_count()
            },
            !old(self).spec_vocabulary().children(old(self).spec_vocabulary().current_node()).contains_key(name@) ==> {
                &&& final(self).spec_vocabulary().node_count() == old(self).spec_vocabulary().node_count() + 1
                &&& final(self).spec_vocabulary().current_node() == old(self).spec_vocabulary().node_count()
                &&& final(self).spec_vocabulary().current_words() == Map::<Seq<char>, Word<B>>::empty()
            },
            forall|n: int|
                0 <= n < old(self).spec_vocabulary().node_count() ==> #[trigger] final(self).spec_vocabulary().node_words(n)
                    == old(self).spec_vocabulary().node_words(n) && final(self).spec_vocabulary().parent(n)
                    == old(self).spec_vocabulary().parent(n),
    {
        let ghost before = self.vocabulary;
        self.vocabulary.enter_scope(name);
        assert forall|n: int| 0 <= n < before.node_count() implies #[trigger] self.vocabulary.node_words(n)
            == before.node_words(n) && self.vocabulary.parent(n) == before.parent(n) by {
            assert(self.vocabulary.node_words(n) == before.node_words(n));
            assert(self.vocabulary.parent(n) == before.parent(n));
        }
    }

    /// Returns to the parent of the current vocabulary (at the root, stays).
    pub fn exit_scope(&mut self)
        ensures
            final(self).pending() == old(self).pending(),
            final(self).stack() == old(self).stack(),
            final(self).spec_vocabulary().well_formed(),
            final(self).spec_vocabulary().current_node() == match old(self).spec_vocabulary().parent(
                old(self).spec_vocabulary().current_node(),
            ) {
                Some(p) => p,
                None => old(self).spec_vocabulary().current_node(),
            },
            final(self).spec_vocabulary().node_count() == old(self).spec_vocabulary().node_count(),
            forall|n: int|
                0 <= n < old(self).spec_vocabulary().node_count() ==> #[trigger] final(self).spec_vocabulary().node_words(n)
                    == old(self).spec_vocabulary().node_words(n) && final(self).spec_vocabulary().parent(n)
                    == old(self).spec_vocabulary().parent(n),
    {
        self.vocabulary.exit_scope()
    }

    /// Removes the top of the main stack and converts it to `T`. Fails with
    /// `StackUnderflow` on an empty stack (which is left as it was) and with
    /// `Conversion` when the value does not convert (it is still removed).
    pub fn pop_from_stack<T: FromOdraValue>(&mut self) -> (r: Result<T, OdraError>)
        ensures
            final(self).pending() == old(self).pending(),
            final(self).spec_vocabulary() == old(self).spec_vocabulary(),
            old(self).stack().len() == 0 ==> r == Err::<T, OdraError>(OdraError::StackUnderflow)
                && final(self).stack() == old(self).stack(),
            old(self).stack().len() > 0 ==> {
                &&& final(self).stack() == old(self).stack().drop_last()
                &&& match r {
                    Ok(x) => T::spec_from_odra_value(old(self).stack().last()) == Some(x),
                    Err(e) => T::spec_from_odra_value(old(self).stack().last()) is None && e
                        == OdraError::Conversion,
                }
            },
    {
        match stack_pop(&mut self.main_fibre.stack) {
            Some(v) => T::from_odra_value(v),
            None => Err(OdraError::StackUnderflow),
        }
    }

    /// Converts `value` and pushes it onto the main stack.
    pub fn push_onto_stack<T: AsOdraValue>(&mut self, value: T)
        ensures
            final(self).pending() == old(self).pending(),
            final(self).spec_vocabulary() == old(self).spec_vocabulary(),
            final(self).stack().len() == old(self).stack().len() + 1,
            final(self).stack().drop_last() == old(self).stack(),
            value.converts_to(final(self).stack().last()),
    {
        let v = value.as_odra_value();
        stack_push(&mut self.main_fibre.stack, v);
        assert(self.stack().drop_last() =~= old(self).stack());
    }

    /// The number of values on the main stack.
    pub fn stack_len(&self) -> (r: usize)
        ensures
            r == self.stack().len(),
    {
        stack_len(&self.main_fibre.stack)
    }

    /// The number of words queued into the word being built.
    pub fn pending_len(&self) -> (r: usize)
        ensures
            r == self.pending().len(),
    {
        self.word_builder.thunks.len()
    }

    /// The vocabulary tree.
    pub fn vocabulary(&self) -> (r: &Vocabulary<B>)
        ensures
            *r == self.spec_vocabulary(),
            r.well_formed(),
    {
        proof {
            use_type_invariant(&self.vocabulary);
        }
        &self.vocabulary
    }

    /// Queues `word` into the word being built.
    pub fn append_thunk(&mut self, word: Arc<Word<B>>)
        ensures
            final(self).pending() == old(self).pending().push(*word),
            final(self).spec_vocabulary() == old(self).spec_vocabulary(),
            final(self).stack() == old(self).stack(),
    {
        self.word_builder.thunks.push(word);
        assert(self.pending() =~= old(self).pending().push(*word));
    }

    /// Empties the word being built and returns what it held, first queued
    /// first.
    pub fn take_word_being_built(&mut self) -> (r: Vec<Arc<Word<B>>>)
        ensures
            r.len() == old(self).pending().len(),
            forall|i: int| 0 <= i < r.len() ==> *#[trigger] r@[i] == old(self).pending()[i],
            final(self).pending() == Seq::<Word<B>>::empty(),
            final(self).stack() == old(self).stack(),
            final(self).spec_vocabulary() == old(self).spec_vocabulary(),
            final(self).agrees_except_queue(*old(self)),
    {
        let mut thunks: Vec<Arc<Word<B>>> = Vec::new();
        std::mem::swap(&mut thunks, &mut self.word_builder.thunks);
        assert(self.pending() =~= Seq::<Word<B>>::empty());
        thunks
    }
}

impl<B: Behavior> Vm<B> {
    /// Reads one token: resolves it in the current vocabulary, then runs it at
    /// once if it is a macro, or queues it into the word being built if it is
    /// an ordinary word. A token that names no word is reported and changes
    /// nothing.
    pub fn run(&mut self, unresolved_word: &str) -> (r: Result<(), OdraError>)
        ensures
            !old(self).spec_vocabulary().current_words().contains_key(unresolved_word@) ==> {
                &&& (r matches Err(e) && e matches OdraError::Resolution(t) && t@ == unresolved_word@)
                &&& *final(self) == *old(self)
            },
            old(self).spec_vocabulary().current_words().contains_key(unresolved_word@) && !old(self).spec_vocabulary().current_words()[unresolved_word@].is_macro ==> {
                &&& r is Ok
                &&& final(self).pending() == old(self).pending().push(
                    old(self).spec_vocabulary().current_words()[unresolved_word@],
                )
                &&& final(self).stack() == old(self).stack()
                &&& final(self).spec_vocabulary() == old(self).spec_vocabulary()
            },
            old(self).spec_vocabulary().current_words().contains_key(unresolved_word@) && old(self).spec_vocabulary().current_words()[unresolved_word@].is_macro ==> old(self).spec_vocabulary().current_words()[unresolved_word@].behavior.effect(*old(self), *final(self), r),
    {
        let word = match self.vocabulary.resolve(unresolved_word) {
            Ok(w) => w,
            Err(e) => return Err(e),
        };
        self.exec_word(word)
    }

    /// Runs `word` at once if it is a macro; otherwise queues it.
    pub fn exec_word(&mut self, word: Arc<Word<B>>) -> (r: Result<(), OdraError>)
        ensures
            !word.is_macro ==> {
                &&& r is Ok
                &&& final(self).pending() == old(self).pending().push(*word)
                &&& final(self).stack() == old(self).stack()
                &&& final(self).spec_vocabulary() == old(self).spec_vocabulary()
            },
            word.is_macro ==> word.behavior.effect(*old(self), *final(self), r),
    {
        if word.is_macro {
            word.behavior.call(self)
        } else {
            self.append_thunk(word);
            Ok(())
        }
    }

    /// Runs the word being built: empties the queue, then runs each queued
    /// word once, in the order it was queued, on the machine that the one
    /// before left, stopping at the first that fails and returning its
    /// error. Words that those words queue are left queued.
    pub fn run_word_being_built(&mut self) -> (r: Result<(), OdraError>)
        ensures
            exists|states: Seq<Vm<B>>| drain_trace(*old(self), states, *final(self), r),
            old(self).pending().len() == 0 ==> {
                &&& r is Ok
                &&& final(self).pending() == old(self).pending()
                &&& final(self).stack() == old(self).stack()
                &&& final(self).spec_vocabulary() == old(self).spec_vocabulary()
            },
    {
        let ghost words = self.pending();
        let thunks = self.take_word_being_built();
        let ghost mut states: Seq<Vm<B>> = seq![*self];
        let mut i: usize = 0;
        while i < thunks.len()
            invariant
                i <= thunks.len(),
                words == old(self).pending(),
                thunks.len() == words.len(),
                forall|j: int| 0 <= j < thunks.len() ==> *#[trigger] thunks@[j] == words[j],
                states.len() == i + 1,
                states.last() == *self,
                states[0].pending() == Seq::<Word<B>>::empty(),
                states[0].stack() == old(self).stack(),
                states[0].spec_vocabulary() == old(self).spec_vocabulary(),
                states[0].agrees_except_queue(*old(self)),
                forall|j: int|
                    0 <= j < states.len() - 1 ==> #[trigger] words[j].behavior.effect(
                        states[j],
                        states[j + 1],
                        Ok(()),
                    ),
            decreases thunks.len() - i,
        {
            let ghost pre = *self;
            let word = share(&thunks[i]);
            let res = word.behavior.call(self);
            match res {
                Ok(()) => {},
                Err(e) => {
                    assert(drain_trace(*old(self), states, *self, res));
                    return Err(e);
                },
            }
            assert(res->Ok_0 == ());
            proof {
                let prev = states;
                assert(words[i as int].behavior.effect(pre, *self, Ok(())));
                states = states.push(*self);
                assert forall|j: int| 0 <= j < states.len() - 1 implies #[trigger] words[j].behavior.effect(
                    states[j],
                    states[j + 1],
                    Ok(()),
                ) by {
                    if j < i {
                        assert(states[j] == prev[j] && states[j + 1] == prev[j + 1]);
                    }
                }
            }
            i = i + 1;
        }
        assert(drain_trace(*old(self), states, *self, Ok(())));
        Ok(())
    }
}

} // verus!

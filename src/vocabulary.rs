//! A tree of vocabularies. Each node maps names to words; one node is
//! current, and names are looked up there alone.
use crate::value::share;
use crate::vm::OdraError;
use crate::words::Word;
use std::sync::Arc;
use vstd::prelude::*;

verus! {

/// The words of a node, in order of registration: a later word shadows an
/// earlier one of the same name.
pub open spec fn words_map<B>(ws: Seq<Arc<Word<B>>>) -> Map<Seq<char>, Word<B>>
    decreases ws.len(),
{
    if ws.len() == 0 {
        Map::empty()
    } else {
        words_map(ws.drop_last()).insert(ws.last().name@, *ws.last())
    }
}

/// The children of a node, by name, in order of creation.
pub open spec fn children_map(cs: Seq<(String, usize)>) -> Map<Seq<char>, int>
    decreases cs.len(),
{
    if cs.len() == 0 {
        Map::empty()
    } else {
        children_map(cs.drop_last()).insert(cs.last().0@, cs.last().1 as int)
    }
}

proof fn lemma_words_map_found<B>(ws: Seq<Arc<Word<B>>>, k: Seq<char>, i: int)
    requires
        0 <= i < ws.len(),
        ws[i].name@ == k,
        forall|j: int| i < j < ws.len() ==> ws[j].name@ != k,
    ensures
        words_map(ws).contains_key(k),
        words_map(ws)[k] == *ws[i],
    decreases ws.len(),
{
    if i < ws.len() - 1 {
        lemma_words_map_found(ws.drop_last(), k, i);
    }
}

proof fn lemma_words_map_absent<B>(ws: Seq<Arc<Word<B>>>, k: Seq<char>)
    requires
        forall|j: int| 0 <= j < ws.len() ==> ws[j].name@ != k,
    ensures
        !words_map(ws).contains_key(k),
    decreases ws.len(),
{
    if ws.len() > 0 {
        lemma_words_map_absent(ws.drop_last(), k);
    }
}

proof fn lemma_children_map_found(cs: Seq<(String, usize)>, k: Seq<char>, i: int)
    requires
        0 <= i < cs.len(),
        cs[i].0@ == k,
        forall|j: int| i < j < cs.len() ==> cs[j].0@ != k,
    ensures
        children_map(cs).contains_key(k),
        children_map(cs)[k] == cs[i].1 as int,
    decreases cs.len(),
{
    if i < cs.len() - 1 {
        lemma_children_map_found(cs.drop_last(), k, i);
    }
}

proof fn lemma_children_map_absent(cs: Seq<(String, usize)>, k: Seq<char>)
    requires
        forall|j: int| 0 <= j < cs.len() ==> cs[j].0@ != k,
    ensures
        !children_map(cs).contains_key(k),
    decreases cs.len(),
{
    if cs.len() > 0 {
        lemma_children_map_absent(cs.drop_last(), k);
    }
}

/// One node of the tree. Its id is its index in the tree.
struct VocabNode<B> {
    parent: Option<usize>,
    children: Vec<(String, usize)>,
    words: Vec<Arc<Word<B>>>,
}

/// The root is node 0 and has no parent; every other node's parent comes
/// before it; every child is a node of the tree whose parent is the node
/// that lists it.
spec fn nodes_linked<B>(nodes: Seq<VocabNode<B>>) -> bool {
    &&& nodes.len() > 0
    &&& nodes[0].parent is None
    &&& forall|n: int|
        0 <= n < nodes.len() ==> match #[trigger] nodes[n].parent {
            Some(p) => p < n,
            None => n == 0,
        }
    &&& forall|n: int, c: int|
        0 <= n < nodes.len() && 0 <= c < nodes[n].children.len() ==> #[trigger] nodes[n].children@[c].1
            < nodes.len() && nodes[nodes[n].children@[c].1 as int].parent == Some(n as usize)
}

/// A tree of vocabularies, created with its root, growing a child on first
/// entry into a scope; nodes are never removed.
pub struct Vocabulary<B> {
    nodes: Vec<VocabNode<B>>,
    current: usize,
}

impl<B> Vocabulary<B> {
    /// Node 0 is the root; parents come before their children; the current
    /// node and every child are nodes of the tree.
    #[verifier::type_invariant]
    pub closed spec fn well_formed(self) -> bool {
        &&& nodes_linked(self.nodes@)
        &&& self.current < self.nodes.len()
    }

    /// The number of nodes in the tree.
    pub closed spec fn node_count(self) -> nat {
        self.nodes@.len()
    }

    /// The node in which names are looked up and words are registered.
    pub closed spec fn current_node(self) -> int {
        self.current as int
    }

    /// The parent of node `n`; the root (node 0) has none.
    pub closed spec fn parent(self, n: int) -> Option<int> {
        match self.nodes@[n].parent {
            Some(p) => Some(p as int),
            None => None,
        }
    }

    /// The children of node `n`, by name.
    pub closed spec fn children(self, n: int) -> Map<Seq<char>, int> {
        children_map(self.nodes@[n].children@)
    }

    /// The words that node `n` resolves, by name.
    pub closed spec fn node_words(self, n: int) -> Map<Seq<char>, Word<B>> {
        words_map(self.nodes@[n].words@)
    }

    /// The words that the current node resolves, by name.
    pub open spec fn current_words(self) -> Map<Seq<char>, Word<B>> {
        self.node_words(self.current_node())
    }

    /// A tree of one node, the root, which is current and holds no words.
    pub fn empty() -> (r: Vocabulary<B>)
        ensures
            r.node_count() == 1,
            r.current_node() == 0,
            r.parent(0) is None,
            r.children(0) == Map::<Seq<char>, int>::empty(),
            r.current_words() == Map::<Seq<char>, Word<B>>::empty(),
            r.well_formed(),
    {
        let root = VocabNode { parent: None, children: Vec::new(), words: Vec::new() };
        let mut nodes = Vec::new();
        nodes.push(root);
        Vocabulary { nodes, current: 0 }
    }

    /// The word that `name` names in the current node: the last one
    /// registered under that name there. Ancestors are not searched.
    pub fn resolve(&self, name: &str) -> (r: Result<Arc<Word<B>>, OdraError>)
        ensures
            self.current_words().contains_key(name@) ==> (r matches Ok(w) && *w
                == self.current_words()[name@]),
            !self.current_words().contains_key(name@) ==> (r matches Err(e) && e
                matches OdraError::Resolution(t) && t@ == name@),
    {
        proof {
            use_type_invariant(self);
        }
        let key = name.to_owned();
        let ws = &self.nodes[self.current].words;
        let mut i = ws.len();
        while i > 0
            invariant
                i <= ws.len(),
                key@ == name@,
                self.current < self.nodes@.len(),
                *ws == self.nodes@[self.current as int].words,
                forall|j: int| i <= j < ws.len() ==> ws@[j].name@ != name@,
            decreases i,
        {
            i = i - 1;
            if ws[i].name == key {
                proof {
                    lemma_words_map_found(ws@, name@, i as int);
                }
                return Ok(share(&ws[i]));
            }
        }
        proof {
            lemma_words_map_absent(ws@, name@);
        }
        Err(OdraError::Resolution(key))
    }

    /// Registers `word` in the current node, where it shadows any word of
    /// the same name. Other nodes are left as they were.
    pub fn append(&mut self, word: Arc<Word<B>>) -> (r: Result<(), OdraError>)
        ensures
            r is Ok,
            final(self).well_formed(),
            final(self).current_node() == old(self).current_node(),
            final(self).node_count() == old(self).node_count(),
            final(self).current_words() == old(self).current_words().insert(word.name@, *word),
            forall|n: int|
                0 <= n < old(self).node_count() ==> #[trigger] final(self).parent(n) == old(self).parent(n) && final(self).children(n) == old(self).children(n),
            forall|n: int|
                0 <= n < old(self).node_count() && n != old(self).current_node() ==> #[trigger] final(self).node_words(n) == old(self).node_words(n),
    {
        proof {
            use_type_invariant(&*self);
        }
        let mut whole = Vocabulary::empty();
        std::mem::swap(self, &mut whole);
        let Vocabulary { mut nodes, current } = whole;
        let mut node = VocabNode { parent: None, children: Vec::new(), words: Vec::new() };
        nodes.set_and_swap(current, &mut node);
        node.words.push(word);
        assert(node.words@.drop_last() =~= old(self).nodes@[current as int].words@);
        nodes.set_and_swap(current, &mut node);
        *self = Vocabulary { nodes, current };
        Ok(())
    }

    /// Makes the child named `name` of the current node current, creating it
    /// (empty) if there is none.
    pub fn enter_scope(&mut self, name: &str)
        ensures
            final(self).well_formed(),
            final(self).node_count() >= old(self).node_count(),
            final(self).parent(final(self).current_node()) == Some(old(self).current_node()),
            old(self).children(old(self).current_node()).contains_key(name@) ==> {
                &&& final(self).current_node() == old(self).children(old(self).current_node())[name@]
                &&& final(self).node_count() == old(self).node_count()
            },
            !old(self).children(old(self).current_node()).contains_key(name@) ==> {
                &&& final(self).node_count() == old(self).node_count() + 1
                &&& final(self).current_node() == old(self).node_count()
                &&& final(self).parent(final(self).current_node()) == Some(old(self).current_node())
                &&& final(self).children(old(self).current_node()) == old(self).children(
                    old(self).current_node(),
                ).insert(name@, final(self).current_node())
                &&& final(self).current_words() == Map::<Seq<char>, Word<B>>::empty()
                &&& final(self).children(final(self).current_node()) == Map::<
                    Seq<char>,
                    int,
                >::empty()
            },
            forall|n: int|
                0 <= n < old(self).node_count() ==> #[trigger] final(self).node_words(n) == old(self).node_words(n) && final(self).parent(n) == old(self).parent(n),
    {
        proof {
            use_type_invariant(&*self);
        }
        let key = name.to_owned();
        let mut whole = Vocabulary::empty();
        std::mem::swap(self, &mut whole);
        proof {
            use_type_invariant(&whole);
        }
        let Vocabulary { mut nodes, current } = whole;
        let ghost before = nodes@;
        let mut i = nodes[current].children.len();
        while i > 0
            invariant
                i <= nodes@[current as int].children.len(),
                key@ == name@,
                nodes@ == before,
                before == old(self).nodes@,
                current == old(self).current,
                nodes_linked(before),
                current < nodes.len(),
                forall|j: int|
                    i <= j < nodes@[current as int].children.len() ==> nodes@[current as int].children@[j].0@
                        != name@,
            decreases i,
        {
            i = i - 1;
            if nodes[current].children[i].0 == key {
                proof {
                    lemma_children_map_found(nodes@[current as int].children@, name@, i as int);
                }
                let next = nodes[current].children[i].1;
                *self = Vocabulary { nodes, current: next };
                return;
            }
        }
        proof {
            lemma_children_map_absent(nodes@[current as int].children@, name@);
        }
        let fresh = nodes.len();
        nodes.push(VocabNode { parent: Some(current), children: Vec::new(), words: Vec::new() });
        let mut node = VocabNode { parent: None, children: Vec::new(), words: Vec::new() };
        nodes.set_and_swap(current, &mut node);
        node.children.push((key, fresh));
        assert(node.children@.drop_last() =~= before[current as int].children@);
        nodes.set_and_swap(current, &mut node);
        assert(nodes@[fresh as int].words@ =~= Seq::<Arc<Word<B>>>::empty());
        assert(nodes@[fresh as int].children@ =~= Seq::<(String, usize)>::empty());
        *self = Vocabulary { nodes, current: fresh };
    }

    /// Makes the parent of the current node current; at the root, nothing
    /// changes.
    pub fn exit_scope(&mut self)
        ensures
            final(self).well_formed(),
            final(self).current_node() == match old(self).parent(old(self).current_node()) {
                Some(p) => p,
                None => old(self).current_node(),
            },
            final(self).node_count() == old(self).node_count(),
            forall|n: int|
                0 <= n < old(self).node_count() ==> #[trigger] final(self).node_words(n) == old(self).node_words(n) && final(self).parent(n) == old(self).parent(n) && final(self).children(n) == old(self).children(n),
    {
        proof {
            use_type_invariant(&*self);
        }
        match self.nodes[self.current].parent {
            Some(p) => {
                self.current = p;
            },
            None => {},
        }
    }
}

/// Shadowing: of two words registered under one name in one vocabulary,
/// only the second is resolved there afterwards.
pub proof fn lemma_second_registration_shadows<B>(
    v0: Vocabulary<B>,
    v1: Vocabulary<B>,
    v2: Vocabulary<B>,
    w1: Word<B>,
    w2: Word<B>,
)
    requires
        w1.name@ == w2.name@,
        v1.current_words() == v0.current_words().insert(w1.name@, w1),
        v2.current_words() == v1.current_words().insert(w2.name@, w2),
    ensures
        v2.current_words().contains_key(w1.name@),
        v2.current_words()[w1.name@] == w2,
        v2.current_words().dom() == v0.current_words().dom().insert(w1.name@),
{
    assert(v2.current_words().dom() =~= v0.current_words().dom().insert(w1.name@));
}

/// Registering a word in a child vocabulary leaves what its parent resolves
/// as it was.
pub proof fn lemma_child_registration_leaves_parent<B>(v0: Vocabulary<B>, v1: Vocabulary<B>)
    requires
        v0.well_formed(),
        v0.parent(v0.current_node()) is Some,
        forall|n: int|
            0 <= n < v0.node_count() && n != v0.current_node() ==> #[trigger] v1.node_words(n)
                == v0.node_words(n),
    ensures
        v1.node_words(v0.parent(v0.current_node()).unwrap()) == v0.node_words(
            v0.parent(v0.current_node()).unwrap(),
        ),
{
    let c = v0.current_node();
    assert(0 <= c < v0.node_count());
    let p = v0.parent(c).unwrap();
    assert(match v0.nodes@[c].parent {
        Some(q) => q < c,
        None => c == 0,
    });
    assert(0 <= p < c);
}

proof fn lemma_children_map_source(cs: Seq<(String, usize)>, k: Seq<char>)
    requires
        children_map(cs).contains_key(k),
    ensures
        exists|j: int| 0 <= j < cs.len() && cs[j].0@ == k && #[trigger] cs[j].1 as int == children_map(cs)[k],
    decreases cs.len(),
{
    if cs.last().0@ != k {
        lemma_children_map_source(cs.drop_last(), k);
        let j = choose|j: int|
            0 <= j < cs.drop_last().len() && cs.drop_last()[j].0@ == k && #[trigger] cs.drop_last()[j].1 as int
                == children_map(cs.drop_last())[k];
        assert(cs[j] == cs.drop_last()[j]);
    } else {
        assert(cs[cs.len() - 1].1 as int == children_map(cs)[k]);
    }
}

/// What a well-formed tree guarantees: the current node is a node of the
/// tree; the root has no parent and every other node's parent comes before
/// it; every child is a node of the tree whose parent is the node it is a
/// child of.
pub proof fn lemma_well_formed_facts<B>(v: Vocabulary<B>)
    requires
        v.well_formed(),
    ensures
        v.node_count() > 0,
        0 <= v.current_node() < v.node_count(),
        v.parent(0) is None,
        forall|n: int| #![trigger v.parent(n)]
            0 < n < v.node_count() ==> v.parent(n) is Some && 0 <= v.parent(n).unwrap() < n,
        forall|n: int, k: Seq<char>|
            0 <= n < v.node_count() && #[trigger] v.children(n).contains_key(k) ==> 0 <= v.children(n)[k]
                < v.node_count() && v.parent(v.children(n)[k]) == Some(n),
{
    assert forall|n: int| #![trigger v.parent(n)] 0 < n < v.node_count() implies v.parent(n) is Some && 0
        <= v.parent(n).unwrap() < n by {
        assert(match v.nodes@[n].parent {
            Some(p) => p < n,
            None => n == 0,
        });
    }
    assert forall|n: int, k: Seq<char>|
        0 <= n < v.node_count() && #[trigger] v.children(n).contains_key(k) implies 0 <= v.children(n)[k]
            < v.node_count() && v.parent(v.children(n)[k]) == Some(n) by {
        lemma_children_map_source(v.nodes@[n].children@, k);
        let j = choose|j: int|
            0 <= j < v.nodes@[n].children@.len() && v.nodes@[n].children@[j].0@ == k
                && #[trigger] v.nodes@[n].children@[j].1 as int == children_map(v.nodes@[n].children@)[k];
        assert(v.nodes@[n].children@[j].1 < v.nodes@.len());
    }
}

/// Entering a scope and leaving it again returns to the node it started from,
/// which resolves every name as before, whatever was registered in between
/// in the child.
pub proof fn lemma_enter_then_exit_returns<B>(
    v0: Vocabulary<B>,
    v1: Vocabulary<B>,
    v2: Vocabulary<B>,
    v3: Vocabulary<B>,
)
    requires
        v0.well_formed(),
        v1.well_formed(),
        v1.node_count() >= v0.node_count(),
        v1.parent(v1.current_node()) == Some(v0.current_node()),
        forall|n: int| 0 <= n < v0.node_count() ==> #[trigger] v1.node_words(n) == v0.node_words(n),
        v2.current_node() == v1.current_node(),
        v2.node_count() == v1.node_count(),
        forall|n: int|
            0 <= n < v1.node_count() ==> #[trigger] v2.parent(n) == v1.parent(n),
        forall|n: int|
            0 <= n < v1.node_count() && n != v1.current_node() ==> #[trigger] v2.node_words(n)
                == v1.node_words(n),
        v3.current_node() == match v2.parent(v2.current_node()) {
            Some(p) => p,
            None => v2.current_node(),
        },
        forall|n: int| 0 <= n < v2.node_count() ==> #[trigger] v3.node_words(n) == v2.node_words(n),
    ensures
        v3.current_node() == v0.current_node(),
        v3.current_words() == v0.current_words(),
{
    lemma_well_formed_facts(v0);
    lemma_well_formed_facts(v1);
    let c = v1.current_node();
    let p = v0.current_node();
    assert(v2.parent(c) == v1.parent(c));
    assert(0 <= p < c);
    assert(v3.node_words(p) == v2.node_words(p));
    assert(v2.node_words(p) == v1.node_words(p));
}

} // verus!

//! The binding trie: each level maps an edge label (exact key, wildcard, or
//! no-match sentinel) to the commands bound where a sequence may end here
//! and to an optional subtree of what may come next.
//!
//! Where a chain is inserted whose final edge already carries a binding, the
//! new commands replace the old ones (last wins); the edge's continuation,
//! if any, is kept. `insert_single` likewise overwrites the whole prior
//! binding at its label and leaves a leaf.

use vstd::prelude::*;
use vstd::slice::slice_to_vec;
use crate::commands::KCommand;
use crate::keymap::input::KeyInput;

verus! {

/// A trie-edge label.
///
/// `MATCH(k)` matches exactly the key press `k` and wins over the others;
/// `MATCH_ALL` matches any key press not matched exactly; `MATCH_NONE` is a
/// sentinel consulted only when neither of the others matched.
#[allow(non_camel_case_types)]
#[derive(Clone, Copy, PartialEq, Eq, Structural, Hash, Debug)]
pub enum KeyInputTypes {
    /// Matches no key press directly; consulted last.
    MATCH_NONE,
    /// Matches exactly one key press; consulted first.
    MATCH(KeyInput),
    /// Matches every key press; consulted second.
    MATCH_ALL,
}

/// The abstract content of one trie edge: the commands bound if a sequence
/// terminates here, and what may come next (`None` marks a leaf).
pub ghost struct EdgeView {
    pub cmds: Seq<KCommand>,
    pub child: Option<TreeView>,
}

/// The abstract content of one trie level: a finite map from edge identity
/// to edge content.
pub ghost struct TreeView {
    pub edges: Map<KeyInputTypes, EdgeView>,
}

/// A trie edge together with its bound commands.
///
/// Identity, for the purpose of locating an edge in a tree level, is the
/// label alone, never the attached commands: repeated insertion along a
/// shared prefix must find the existing edge rather than create a second
/// one.
#[derive(Debug)]
pub struct KeymapNode {
    key: KeyInputTypes,
    commands: Vec<KCommand>,
}

impl KeymapNode {
    /// The edge label that identifies this node.
    pub closed spec fn spec_key(self) -> KeyInputTypes {
        self.key
    }

    /// The commands bound at this node.
    pub closed spec fn spec_cmds(self) -> Seq<KCommand> {
        self.commands@
    }

    /// An edge with no bound commands.
    pub fn new(key: KeyInputTypes) -> (r: Self)
        ensures
            r.spec_key() == key,
            r.spec_cmds() == Seq::<KCommand>::empty(),
    {
        Self { key, commands: Vec::new() }
    }

    /// An edge carrying the given commands.
    pub fn new_with_commands(key: KeyInputTypes, command: Vec<KCommand>) -> (r: Self)
        ensures
            r.spec_key() == key,
            r.spec_cmds() == command@,
    {
        Self { key, commands: command }
    }

    /// The commands bound at this edge.
    pub fn get_cmds(&self) -> (r: Vec<KCommand>)
        ensures
            r@ == self.spec_cmds(),
    {
        slice_to_vec(self.commands.as_slice())
    }

    /// The label of this edge.
    pub fn get_key(&self) -> (r: KeyInputTypes)
        ensures
            r == self.spec_key(),
    {
        self.key
    }
}

impl PartialEq for KeymapNode {
    /// Two nodes are the same edge exactly when their labels agree; the
    /// attached commands play no part in identity.
    fn eq(&self, other: &Self) -> (r: bool) {
        self.key == other.key
    }
}

impl vstd::std_specs::cmp::PartialEqSpecImpl for KeymapNode {
    open spec fn obeys_eq_spec() -> bool {
        true
    }

    open spec fn eq_spec(&self, other: &Self) -> bool {
        self.spec_key() == other.spec_key()
    }
}

/// One level of the binding trie.
#[derive(Debug)]
pub struct KeymapTree {
    nodes: Vec<(KeymapNode, Option<Box<KeymapTree>>)>,
}

/// The view of an optional subtree.
pub open spec fn opt_sub_view(o: Option<Box<KeymapTree>>) -> Option<TreeView>
    decreases o,
{
    match o {
        Some(t) => Some(t.as_view()),
        None => None,
    }
}

/// The view of an optional owned subtree.
pub open spec fn opt_tree_view(o: Option<KeymapTree>) -> Option<TreeView>
    decreases o,
{
    match o {
        Some(t) => Some(t.as_view()),
        None => None,
    }
}

/// The abstract edge one entry denotes.
spec fn edge_of(e: (KeymapNode, Option<Box<KeymapTree>>)) -> EdgeView
    decreases e,
{
    EdgeView { cmds: e.0.commands@, child: opt_sub_view(e.1) }
}

impl KeymapTree {
    /// The map a list of entries denotes; later entries would win, though
    /// well-formed trees never repeat a label.
    pub closed spec fn entries_view(s: Seq<(KeymapNode, Option<Box<KeymapTree>>)>) -> Map<
        KeyInputTypes,
        EdgeView,
    >
        decreases s,
    {
        if s.len() == 0 {
            Map::empty()
        } else {
            Self::entries_view(s.drop_last()).insert(s.last().0.key, edge_of(s.last()))
        }
    }

    /// Labels are pairwise distinct and every subtree is well-formed.
    pub closed spec fn entries_wf(s: Seq<(KeymapNode, Option<Box<KeymapTree>>)>) -> bool
        decreases s,
    {
        if s.len() == 0 {
            true
        } else {
            &&& Self::entries_wf(s.drop_last())
            &&& !Self::entries_view(s.drop_last()).dom().contains(s.last().0.key)
            &&& match s.last().1 {
                Some(t) => t.wf(),
                None => true,
            }
        }
    }

    /// The map this trie level denotes.
    pub closed spec fn as_view(self) -> TreeView
        decreases self,
    {
        TreeView { edges: KeymapTree::entries_view(self.nodes@) }
    }

    /// Well-formedness of a trie level: no label occurs twice, and all
    /// subtrees are well-formed in turn.
    pub closed spec fn wf(self) -> bool
        decreases self,
    {
        KeymapTree::entries_wf(self.nodes@)
    }
}

impl View for KeymapTree {
    type V = TreeView;

    open spec fn view(&self) -> TreeView {
        self.as_view()
    }
}

/// Appending an entry adds exactly its edge to the denoted map.
proof fn lemma_entries_push(s: Seq<(KeymapNode, Option<Box<KeymapTree>>)>, e: (KeymapNode, Option<
    Box<KeymapTree>,
>))
    ensures
        KeymapTree::entries_view(s.push(e)) == KeymapTree::entries_view(s).insert(
            e.0.key,
            edge_of(e),
        ),
        KeymapTree::entries_wf(s.push(e)) <==> (KeymapTree::entries_wf(s)
            && !KeymapTree::entries_view(s).dom().contains(e.0.key) && (match e.1 {
            Some(t) => t.wf(),
            None => true,
        })),
{
    assert(s.push(e).drop_last() =~= s);
    assert(s.push(e).last() == e);
}

/// Each entry of a well-formed list is present in the denoted map with
/// exactly its own edge content, and its subtree is well-formed.
proof fn lemma_entries_at(s: Seq<(KeymapNode, Option<Box<KeymapTree>>)>, i: int)
    requires
        KeymapTree::entries_wf(s),
        0 <= i < s.len(),
    ensures
        KeymapTree::entries_view(s).dom().contains(s[i].0.key),
        KeymapTree::entries_view(s)[s[i].0.key] == edge_of(s[i]),
        match s[i].1 {
            Some(t) => t.wf(),
            None => true,
        },
    decreases s.len(),
{
    if i == s.len() - 1 {
        assert(s.last() == s[i]);
    } else {
        lemma_entries_at(s.drop_last(), i);
        assert(s.drop_last()[i] == s[i]);
    }
}

/// A label under which no entry stands is not in the denoted map.
proof fn lemma_entries_absent(s: Seq<(KeymapNode, Option<Box<KeymapTree>>)>, k: KeyInputTypes)
    requires
        forall|t: int| 0 <= t < s.len() ==> s[t].0.key != k,
    ensures
        !KeymapTree::entries_view(s).dom().contains(k),
    decreases s.len(),
{
    if s.len() > 0 {
        lemma_entries_absent(s.drop_last(), k);
    }
}

/// Removing the entry of a label removes exactly that label from the
/// denoted map and keeps the list well-formed.
proof fn lemma_entries_remove(s: Seq<(KeymapNode, Option<Box<KeymapTree>>)>, i: int)
    requires
        KeymapTree::entries_wf(s),
        0 <= i < s.len(),
    ensures
        KeymapTree::entries_view(s.remove(i)) == KeymapTree::entries_view(s).remove(s[i].0.key),
        KeymapTree::entries_wf(s.remove(i)),
    decreases s.len(),
{
    let k = s[i].0.key;
    if i == s.len() - 1 {
        assert(s.remove(i) =~= s.drop_last());
        assert(!KeymapTree::entries_view(s.drop_last()).dom().contains(k));
        assert(KeymapTree::entries_view(s.drop_last()).insert(k, edge_of(s.last())).remove(k)
            =~= KeymapTree::entries_view(s.drop_last()));
    } else {
        lemma_entries_remove(s.drop_last(), i);
        lemma_entries_at(s.drop_last(), i);
        assert(s.drop_last()[i] == s[i]);
        assert(s.remove(i).drop_last() =~= s.drop_last().remove(i));
        assert(s.remove(i).last() == s.last());
        let m = KeymapTree::entries_view(s.drop_last());
        assert(KeymapTree::entries_view(s.remove(i)) == m.remove(k).insert(
            s.last().0.key,
            edge_of(s.last()),
        ));
        assert(s.last().0.key != k);
        assert(m.remove(k).insert(s.last().0.key, edge_of(s.last())) =~= m.insert(
            s.last().0.key,
            edge_of(s.last()),
        ).remove(k));
        assert(!m.remove(k).dom().contains(s.last().0.key));
    }
}

/// A well-formed list denotes a map with exactly one edge per entry.
proof fn lemma_entries_dom_len(s: Seq<(KeymapNode, Option<Box<KeymapTree>>)>)
    requires
        KeymapTree::entries_wf(s),
    ensures
        KeymapTree::entries_view(s).dom().finite(),
        KeymapTree::entries_view(s).dom().len() == s.len(),
    decreases s.len(),
{
    if s.len() > 0 {
        lemma_entries_dom_len(s.drop_last());
    }
}

impl KeymapTree {
    /// An empty trie level.
    pub fn new() -> (r: Self)
        ensures
            r.wf(),
            r@.edges == Map::<KeyInputTypes, EdgeView>::empty(),
    {
        Self { nodes: Vec::new() }
    }

    /// The position of the entry labelled `key`, if one exists.
    fn find(&self, key: KeyInputTypes) -> (r: Option<usize>)
        ensures
            match r {
                Some(i) => i < self.nodes@.len() && self.nodes@[i as int].0.key == key,
                None => forall|t: int| 0 <= t < self.nodes@.len() ==> self.nodes@[t].0.key != key,
            },
    {
        let n = self.nodes.len();
        let mut i: usize = 0;
        while i < n
            invariant
                n == self.nodes@.len(),
                i <= n,
                forall|t: int| 0 <= t < i ==> self.nodes@[t].0.key != key,
            decreases n - i,
        {
            if self.nodes[i].0.get_key() == key {
                return Some(i);
            }
            i += 1;
        }
        None
    }

    /// The number of edges at this level.
    pub fn len(&self) -> (n: usize)
        requires
            self.wf(),
        ensures
            n == self@.edges.dom().len(),
    {
        proof {
            lemma_entries_dom_len(self.nodes@);
        }
        self.nodes.len()
    }

    /// Whether an edge with `node`'s label exists at this level.
    pub fn contains_key(&self, node: &KeymapNode) -> (r: bool)
        requires
            self.wf(),
        ensures
            r == self@.edges.dom().contains(node.spec_key()),
    {
        match self.find(node.get_key()) {
            Some(i) => {
                proof {
                    lemma_entries_at(self.nodes@, i as int);
                }
                true
            },
            None => {
                proof {
                    lemma_entries_absent(self.nodes@, node.spec_key());
                }
                false
            },
        }
    }

    /// Looks the given edge label up at this level; returns the bound
    /// commands and the continuation subtree (`None` marks a leaf), or
    /// nothing if no such edge exists.
    pub fn get_fun(&self, node: &KeymapNode) -> (r: Option<(Vec<KCommand>, Option<KeymapTree>)>)
        requires
            self.wf(),
        ensures
            r is Some <==> self@.edges.dom().contains(node.spec_key()),
            r matches Some(p) ==> {
                &&& p.0@ == self@.edges[node.spec_key()].cmds
                &&& opt_tree_view(p.1) == self@.edges[node.spec_key()].child
                &&& match p.1 {
                    Some(t) => t.wf(),
                    None => true,
                }
            },
    {
        match self.find(node.get_key()) {
            Some(i) => {
                proof {
                    lemma_entries_at(self.nodes@, i as int);
                }
                let entry = &self.nodes[i];
                let cmds = entry.0.get_cmds();
                let sub = match &entry.1 {
                    Some(b) => Some((&**b).clone()),
                    None => None,
                };
                Some((cmds, sub))
            },
            None => {
                proof {
                    lemma_entries_absent(self.nodes@, node.spec_key());
                }
                None
            },
        }
    }
}

/// The commands bound at label `k`, or none where no such edge exists.
pub open spec fn spec_edge_cmds(t: TreeView, k: KeyInputTypes) -> Seq<KCommand> {
    if t.edges.dom().contains(k) {
        t.edges[k].cmds
    } else {
        Seq::empty()
    }
}

/// The continuation at label `k`, or none where no such edge exists.
pub open spec fn spec_edge_child(t: TreeView, k: KeyInputTypes) -> Option<TreeView> {
    if t.edges.dom().contains(k) {
        t.edges[k].child
    } else {
        None
    }
}

/// The subtree a chain descends into at label `k`: the edge's existing
/// continuation, or a fresh empty level.
pub open spec fn spec_subtree_or_empty(t: TreeView, k: KeyInputTypes) -> TreeView {
    match spec_edge_child(t, k) {
        Some(c) => c,
        None => TreeView { edges: Map::empty() },
    }
}

/// What inserting a chain of edge labels means, level by level.
///
/// Every label but the last is entered as an internal edge: an existing
/// edge keeps its commands and gains an empty subtree if it had none; a
/// missing edge is created with no commands. The last label's edge receives
/// `cmds`, replacing any commands bound there before (last wins), and keeps
/// whatever continuation it already had.
pub open spec fn spec_insert_chain(t: TreeView, keys: Seq<KeyInputTypes>, cmds: Seq<KCommand>) -> TreeView
    decreases keys.len(),
{
    if keys.len() == 0 {
        t
    } else {
        let k = keys[0];
        if keys.len() == 1 {
            TreeView { edges: t.edges.insert(k, EdgeView { cmds, child: spec_edge_child(t, k) }) }
        } else {
            TreeView {
                edges: t.edges.insert(
                    k,
                    EdgeView {
                        cmds: spec_edge_cmds(t, k),
                        child: Some(
                            spec_insert_chain(
                                spec_subtree_or_empty(t, k),
                                keys.drop_first(),
                                cmds,
                            ),
                        ),
                    },
                ),
            }
        }
    }
}

impl KeymapTree {
    /// Binds `node`'s commands at `node`'s label in this level, as a leaf,
    /// overwriting any prior binding (and continuation) at that label.
    pub fn insert_single(&mut self, node: KeymapNode)
        requires
            old(self).wf(),
        ensures
            final(self).wf(),
            final(self)@.edges == old(self)@.edges.insert(
                node.spec_key(),
                (EdgeView { cmds: node.spec_cmds(), child: None }),
            ),
    {
        let ghost s0 = self.nodes@;
        let ghost k = node.spec_key();
        match self.find(node.get_key()) {
            Some(i) => {
                proof {
                    lemma_entries_at(s0, i as int);
                    lemma_entries_remove(s0, i as int);
                }
                let _ = self.nodes.remove(i);
                let ghost s1 = self.nodes@;
                self.nodes.push((node, None));
                proof {
                    lemma_entries_push(s1, (node, None));
                    assert(KeymapTree::entries_view(s1).insert(k, edge_of((node, None)))
                        =~= KeymapTree::entries_view(s0).insert(k, edge_of((node, None))));
                }
            },
            None => {
                proof {
                    lemma_entries_absent(s0, k);
                    lemma_entries_push(s0, (node, None));
                }
                self.nodes.push((node, None));
            },
        }
    }

    /// Walks the trie from this level along `keys[idx..]`, creating
    /// intermediate edges as needed, and binds `commands` at the final
    /// edge.
    fn insert_chain_rec(&mut self, keys: &Vec<KeyInputTypes>, idx: usize, commands: &Vec<KCommand>)
        requires
            old(self).wf(),
            idx < keys@.len(),
        ensures
            final(self).wf(),
            final(self)@ == spec_insert_chain(old(self)@, keys@.skip(idx as int), commands@),
        decreases keys@.len() - idx,
    {
        let ghost s0 = self.nodes@;
        let ghost tail = keys@.skip(idx as int);
        let key = keys[idx];
        let last = idx == keys.len() - 1;
        proof {
            assert(tail[0] == key);
            assert(tail.len() == keys@.len() - idx);
            assert(tail.drop_first() =~= keys@.skip(idx as int + 1));
        }
        match self.find(key) {
            Some(i) => {
                proof {
                    lemma_entries_at(s0, i as int);
                    lemma_entries_remove(s0, i as int);
                }
                let (node, sub) = self.nodes.remove(i);
                let ghost s1 = self.nodes@;
                if last {
                    let bound = KeymapNode { key, commands: slice_to_vec(commands.as_slice()) };
                    self.nodes.push((bound, sub));
                    proof {
                        lemma_entries_push(s1, (bound, sub));
                        assert(final(self)@.edges =~= spec_insert_chain(
                            TreeView { edges: KeymapTree::entries_view(s0) },
                            tail,
                            commands@,
                        ).edges);
                    }
                } else {
                    let mut subtree: KeymapTree = match sub {
                        Some(b) => *b,
                        None => KeymapTree::new(),
                    };
                    proof {
                        if sub is None {
                            assert(subtree@.edges =~= Map::<KeyInputTypes, EdgeView>::empty());
                        }
                    }
                    subtree.insert_chain_rec(keys, idx + 1, commands);
                    self.nodes.push((node, Some(Box::new(subtree))));
                    proof {
                        lemma_entries_push(s1, (node, Some(Box::new(subtree))));
                        assert(final(self)@.edges =~= spec_insert_chain(
                            TreeView { edges: KeymapTree::entries_view(s0) },
                            tail,
                            commands@,
                        ).edges);
                    }
                }
            },
            None => {
                proof {
                    lemma_entries_absent(s0, key);
                }
                if last {
                    let bound = KeymapNode { key, commands: slice_to_vec(commands.as_slice()) };
                    self.nodes.push((bound, None));
                    proof {
                        lemma_entries_push(s0, (bound, None));
                        assert(final(self)@.edges =~= spec_insert_chain(
                            TreeView { edges: KeymapTree::entries_view(s0) },
                            tail,
                            commands@,
                        ).edges);
                    }
                } else {
                    let mut subtree = KeymapTree::new();
                    proof {
                        assert(subtree@.edges =~= Map::<KeyInputTypes, EdgeView>::empty());
                    }
                    subtree.insert_chain_rec(keys, idx + 1, commands);
                    let fresh = KeymapNode { key, commands: Vec::new() };
                    self.nodes.push((fresh, Some(Box::new(subtree))));
                    proof {
                        lemma_entries_push(s0, (fresh, Some(Box::new(subtree))));
                        assert(final(self)@.edges =~= spec_insert_chain(
                            TreeView { edges: KeymapTree::entries_view(s0) },
                            tail,
                            commands@,
                        ).edges);
                    }
                }
            },
        }
    }

    /// Inserts a chord: walks the trie from this level along `keys`,
    /// creating intermediate edges (with no commands) for every label but
    /// the last, and binds `commands` at the last label's edge, replacing
    /// any commands previously bound there. Edges already present are
    /// reused, so chains with a common prefix share it structurally.
    pub fn insert_chain(&mut self, keys: Vec<KeyInputTypes>, commands: Vec<KCommand>)
        requires
            old(self).wf(),
            keys@.len() >= 1,
        ensures
            final(self).wf(),
            final(self)@ == spec_insert_chain(old(self)@, keys@, commands@),
    {
        proof {
            assert(keys@.skip(0) =~= keys@);
        }
        self.insert_chain_rec(&keys, 0, &commands);
    }
}

/// Inserting a chain touches only the edge of its first label at this
/// level: the edge set afterwards is the old set plus that one label.
pub proof fn lemma_insert_chain_dom(t: TreeView, keys: Seq<KeyInputTypes>, cmds: Seq<KCommand>)
    requires
        keys.len() >= 1,
    ensures
        spec_insert_chain(t, keys, cmds).edges.dom() == t.edges.dom().insert(keys[0]),
{
    assert(spec_insert_chain(t, keys, cmds).edges.dom() =~= t.edges.dom().insert(keys[0]));
}

/// Prefix sharing: inserting two chains that begin with the same label
/// leaves exactly one edge for that label at this level — the edge set
/// grows by that single label — and the shared edge's subtree carries an
/// edge for each chain's second label.
pub proof fn lemma_prefix_sharing(
    t: TreeView,
    k: KeyInputTypes,
    k1: KeyInputTypes,
    k2: KeyInputTypes,
    c1: Seq<KCommand>,
    c2: Seq<KCommand>,
)
    ensures
        ({
            let t1 = spec_insert_chain(t, seq![k, k1], c1);
            let t2 = spec_insert_chain(t1, seq![k, k2], c2);
            &&& t2.edges.dom() == t.edges.dom().insert(k)
            &&& t2.edges[k].child matches Some(sub) && sub.edges.dom().contains(k1)
                && sub.edges.dom().contains(k2)
        }),
{
    let ka = seq![k, k1];
    let kb = seq![k, k2];
    let t1 = spec_insert_chain(t, ka, c1);
    let t2 = spec_insert_chain(t1, kb, c2);
    assert(ka.drop_first() =~= seq![k1]);
    assert(kb.drop_first() =~= seq![k2]);
    lemma_insert_chain_dom(t, ka, c1);
    lemma_insert_chain_dom(t1, kb, c2);
    assert(t1.edges.dom().insert(k) =~= t.edges.dom().insert(k));
    assert(t2.edges.dom() =~= t.edges.dom().insert(k));
    let sub0 = spec_subtree_or_empty(t, k);
    let a = spec_insert_chain(sub0, seq![k1], c1);
    assert(t1.edges[k].child == Some(a));
    assert(spec_subtree_or_empty(t1, k) == a);
    let b = spec_insert_chain(a, seq![k2], c2);
    assert(t2.edges[k].child == Some(b));
    lemma_insert_chain_dom(sub0, seq![k1], c1);
    lemma_insert_chain_dom(a, seq![k2], c2);
    assert(b.edges.dom().contains(k1));
    assert(b.edges.dom().contains(k2));
}

impl Clone for KeymapTree {
    /// A deep copy: the copy denotes the same map, and is well-formed if
    /// the original is.
    fn clone(&self) -> (r: Self)
        ensures
            r@ == self@,
            self.wf() ==> r.wf(),
        decreases self,
    {
        let n = self.nodes.len();
        let mut out: Vec<(KeymapNode, Option<Box<KeymapTree>>)> = Vec::new();
        let mut i: usize = 0;
        while i < n
            invariant
                n == self.nodes@.len(),
                i <= n,
                out@.len() == i,
                KeymapTree::entries_view(out@) == KeymapTree::entries_view(
                    self.nodes@.subrange(0, i as int),
                ),
                KeymapTree::entries_wf(self.nodes@.subrange(0, i as int))
                    ==> KeymapTree::entries_wf(out@),
            decreases n - i,
        {
            let ghost prefix = self.nodes@.subrange(0, i as int);
            let ghost out_prev = out@;
            let entry = &self.nodes[i];
            let node = KeymapNode {
                key: entry.0.get_key(),
                commands: slice_to_vec(entry.0.commands.as_slice()),
            };
            let sub = match &entry.1 {
                Some(b) => Some(Box::new((&**b).clone())),
                None => None,
            };
            out.push((node, sub));
            proof {
                assert(edge_of(out@.last()) == edge_of(self.nodes@[i as int]));
                lemma_entries_push(out_prev, out@.last());
                lemma_entries_push(prefix, self.nodes@[i as int]);
                assert(self.nodes@.subrange(0, i + 1) =~= prefix.push(self.nodes@[i as int]));
            }
            i += 1;
        }
        proof {
            assert(self.nodes@.subrange(0, n as int) =~= self.nodes@);
        }
        KeymapTree { nodes: out }
    }
}

} // verus!

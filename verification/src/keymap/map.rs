//! Mode-aware dispatch: one binding trie per editor mode, plus the
//! pending-sequence state that tracks progress through a multi-key chord.
//!
//! Dispatch is a deterministic state machine. In the idle state a key event
//! is resolved against the active mode's root trie; while a chord is in
//! progress it is resolved against the pending subtree. Resolution tries an
//! exact edge first, then the wildcard edge, then the no-match sentinel; if
//! none exists the result is empty and the machine returns to idle. A
//! matched edge yields its bound commands; if it has a continuation the
//! machine holds it as the new pending position, otherwise it returns to
//! idle.

use vstd::prelude::*;
use crate::commands::KCommand;
use crate::keymap::input::KeyInput;
use crate::keymap::tree::KeyInputTypes;
use crate::keymap::tree::KeymapNode;
use crate::keymap::tree::KeymapTree;
use crate::keymap::tree::TreeView;
use crate::keymap::tree::opt_tree_view;

verus! {

/// An editor-wide mode; each mode selects its own root trie.
#[derive(Clone, Copy, PartialEq, Eq, Structural, Hash, Debug)]
pub enum DocumentMode {
    Normal,
    Insert,
}

/// The abstract dispatch state: the active mode, the pending position of an
/// in-progress chord (`None` when idle), and the per-mode root tries.
pub ghost struct KeymapView {
    pub active_mode: DocumentMode,
    pub state: Option<TreeView>,
    pub maps: Map<DocumentMode, TreeView>,
}

/// One resolution step of a key press against one trie level, in strict
/// precedence order: the exact edge, else the wildcard edge, else the
/// no-match sentinel, else the built-in empty fallback.
pub open spec fn spec_step(t: TreeView, k: KeyInput) -> (Seq<KCommand>, Option<TreeView>) {
    if t.edges.dom().contains(KeyInputTypes::MATCH(k)) {
        let e = t.edges[KeyInputTypes::MATCH(k)];
        (e.cmds, e.child)
    } else if t.edges.dom().contains(KeyInputTypes::MATCH_ALL) {
        let e = t.edges[KeyInputTypes::MATCH_ALL];
        (e.cmds, e.child)
    } else if t.edges.dom().contains(KeyInputTypes::MATCH_NONE) {
        let e = t.edges[KeyInputTypes::MATCH_NONE];
        (e.cmds, e.child)
    } else {
        (Seq::<KCommand>::empty(), None::<TreeView>)
    }
}

/// One full dispatch step: the pending subtree is consulted if a chord is
/// in progress, else the active mode's root trie; the matched edge's
/// commands are returned and its continuation becomes the pending state.
pub open spec fn spec_dispatch(m: KeymapView, k: KeyInput) -> (Seq<KCommand>, KeymapView) {
    let t = match m.state {
        Some(t) => t,
        None => m.maps[m.active_mode],
    };
    let r = spec_step(t, k);
    (r.0, KeymapView { active_mode: m.active_mode, state: r.1, maps: m.maps })
}

/// Owns one binding trie per editor mode and the pending-sequence state,
/// and exposes the single dispatch entry point consumed on each key event.
#[derive(Debug)]
pub struct Keymap {
    active_mode: DocumentMode,
    state: Option<KeymapTree>,
    maps: Vec<(DocumentMode, KeymapTree)>,
}

impl Keymap {
    /// The map the per-mode entry list denotes; later entries would win,
    /// though a well-formed keymap never repeats a mode.
    pub closed spec fn modes_view(s: Seq<(DocumentMode, KeymapTree)>) -> Map<
        DocumentMode,
        TreeView,
    >
        decreases s,
    {
        if s.len() == 0 {
            Map::empty()
        } else {
            Self::modes_view(s.drop_last()).insert(s.last().0, s.last().1.as_view())
        }
    }

    /// Modes are pairwise distinct and every tree is well-formed.
    pub closed spec fn modes_wf(s: Seq<(DocumentMode, KeymapTree)>) -> bool
        decreases s,
    {
        if s.len() == 0 {
            true
        } else {
            &&& Self::modes_wf(s.drop_last())
            &&& !Self::modes_view(s.drop_last()).dom().contains(s.last().0)
            &&& s.last().1.wf()
        }
    }

    /// Well-formedness: the mode table has no repeated mode, and every
    /// tree, including a pending one, is well-formed.
    pub closed spec fn wf(self) -> bool {
        &&& Self::modes_wf(self.maps@)
        &&& match self.state {
            Some(t) => t.wf(),
            None => true,
        }
    }
}

impl View for Keymap {
    type V = KeymapView;

    closed spec fn view(&self) -> KeymapView {
        KeymapView {
            active_mode: self.active_mode,
            state: opt_tree_view(self.state),
            maps: Keymap::modes_view(self.maps@),
        }
    }
}

/// Appending a mode entry adds exactly its tree to the denoted map.
proof fn lemma_modes_push(s: Seq<(DocumentMode, KeymapTree)>, e: (DocumentMode, KeymapTree))
    ensures
        Keymap::modes_view(s.push(e)) == Keymap::modes_view(s).insert(e.0, e.1.as_view()),
        Keymap::modes_wf(s.push(e)) <==> (Keymap::modes_wf(s) && !Keymap::modes_view(
            s,
        ).dom().contains(e.0) && e.1.wf()),
{
    assert(s.push(e).drop_last() =~= s);
    assert(s.push(e).last() == e);
}

/// Each entry of a well-formed mode table is present in the denoted map
/// with its own tree.
proof fn lemma_modes_at(s: Seq<(DocumentMode, KeymapTree)>, i: int)
    requires
        Keymap::modes_wf(s),
        0 <= i < s.len(),
    ensures
        Keymap::modes_view(s).dom().contains(s[i].0),
        Keymap::modes_view(s)[s[i].0] == s[i].1.as_view(),
        s[i].1.wf(),
    decreases s.len(),
{
    if i == s.len() - 1 {
        assert(s.last() == s[i]);
    } else {
        lemma_modes_at(s.drop_last(), i);
        assert(s.drop_last()[i] == s[i]);
    }
}

/// A mode under which no entry stands is not in the denoted map.
proof fn lemma_modes_absent(s: Seq<(DocumentMode, KeymapTree)>, m: DocumentMode)
    requires
        forall|t: int| 0 <= t < s.len() ==> s[t].0 != m,
    ensures
        !Keymap::modes_view(s).dom().contains(m),
    decreases s.len(),
{
    if s.len() > 0 {
        lemma_modes_absent(s.drop_last(), m);
    }
}

/// Removing a mode's entry removes exactly that mode from the denoted map
/// and keeps the table well-formed.
proof fn lemma_modes_remove(s: Seq<(DocumentMode, KeymapTree)>, i: int)
    requires
        Keymap::modes_wf(s),
        0 <= i < s.len(),
    ensures
        Keymap::modes_view(s.remove(i)) == Keymap::modes_view(s).remove(s[i].0),
        Keymap::modes_wf(s.remove(i)),
    decreases s.len(),
{
    let k = s[i].0;
    if i == s.len() - 1 {
        assert(s.remove(i) =~= s.drop_last());
        assert(Keymap::modes_view(s.drop_last()).insert(k, s.last().1.as_view()).remove(k)
            =~= Keymap::modes_view(s.drop_last()));
    } else {
        lemma_modes_remove(s.drop_last(), i);
        lemma_modes_at(s.drop_last(), i);
        assert(s.drop_last()[i] == s[i]);
        assert(s.remove(i).drop_last() =~= s.drop_last().remove(i));
        assert(s.remove(i).last() == s.last());
        let m = Keymap::modes_view(s.drop_last());
        assert(s.last().0 != k);
        assert(m.remove(k).insert(s.last().0, s.last().1.as_view()) =~= m.insert(
            s.last().0,
            s.last().1.as_view(),
        ).remove(k));
        assert(!m.remove(k).dom().contains(s.last().0));
    }
}

impl Keymap {
    /// A fresh keymap: Normal mode active, no chord in progress, no trees
    /// loaded.
    pub fn new() -> (r: Self)
        ensures
            r.wf(),
            r@.active_mode == DocumentMode::Normal,
            r@.state is None,
            r@.maps == Map::<DocumentMode, TreeView>::empty(),
    {
        Self { active_mode: DocumentMode::Normal, state: None, maps: Vec::new() }
    }

    /// The position of the entry for `mode`, if one exists.
    fn find_mode(&self, mode: DocumentMode) -> (r: Option<usize>)
        ensures
            match r {
                Some(i) => i < self.maps@.len() && self.maps@[i as int].0 == mode,
                None => forall|t: int| 0 <= t < self.maps@.len() ==> self.maps@[t].0 != mode,
            },
    {
        let n = self.maps.len();
        let mut i: usize = 0;
        while i < n
            invariant
                n == self.maps@.len(),
                i <= n,
                forall|t: int| 0 <= t < i ==> self.maps@[t].0 != mode,
            decreases n - i,
        {
            if self.maps[i].0 == mode {
                return Some(i);
            }
            i += 1;
        }
        None
    }

    /// Makes `tree` the root trie of `doc_mod`, replacing any tree loaded
    /// for that mode before. The active mode and any pending chord are
    /// untouched.
    pub fn load_keymap_tree(&mut self, doc_mod: DocumentMode, tree: KeymapTree)
        requires
            old(self).wf(),
            tree.wf(),
        ensures
            final(self).wf(),
            final(self)@.maps == old(self)@.maps.insert(doc_mod, tree@),
            final(self)@.active_mode == old(self)@.active_mode,
            final(self)@.state == old(self)@.state,
    {
        let ghost s0 = self.maps@;
        match self.find_mode(doc_mod) {
            Some(i) => {
                proof {
                    lemma_modes_at(s0, i as int);
                    lemma_modes_remove(s0, i as int);
                }
                let _ = self.maps.remove(i);
                let ghost s1 = self.maps@;
                self.maps.push((doc_mod, tree));
                proof {
                    lemma_modes_push(s1, (doc_mod, tree));
                    assert(Keymap::modes_view(s1).insert(doc_mod, tree.as_view())
                        =~= Keymap::modes_view(s0).insert(doc_mod, tree.as_view()));
                }
            },
            None => {
                proof {
                    lemma_modes_absent(s0, doc_mod);
                    lemma_modes_push(s0, (doc_mod, tree));
                }
                self.maps.push((doc_mod, tree));
            },
        }
    }

    /// What merging a list of per-mode trees means: each entry in turn
    /// becomes the tree of its mode, later entries winning.
    pub open spec fn spec_merged(m: Map<DocumentMode, TreeView>, s: Seq<(DocumentMode, KeymapTree)>) -> Map<
        DocumentMode,
        TreeView,
    >
        decreases s,
    {
        if s.len() == 0 {
            m
        } else {
            Self::spec_merged(m, s.drop_last()).insert(s.last().0, s.last().1.as_view())
        }
    }

    /// Loads every entry of `map` in order, each replacing any tree its
    /// mode had. The active mode and any pending chord are untouched.
    pub fn merge(&mut self, map: Vec<(DocumentMode, KeymapTree)>)
        requires
            old(self).wf(),
            forall|i: int| 0 <= i < map@.len() ==> (#[trigger] map@[i]).1.wf(),
        ensures
            final(self).wf(),
            final(self)@.maps == Self::spec_merged(old(self)@.maps, map@),
            final(self)@.active_mode == old(self)@.active_mode,
            final(self)@.state == old(self)@.state,
    {
        let ghost all = map@;
        let mut map = map;
        let total = map.len();
        let mut taken: usize = 0;
        proof {
            assert(all.take(0) =~= Seq::<(DocumentMode, KeymapTree)>::empty());
        }
        while map.len() > 0
            invariant
                old(self).wf(),
                total == all.len(),
                taken + map@.len() == all.len(),
                map@ =~= all.skip(taken as int),
                self.wf(),
                self@.maps == Self::spec_merged(old(self)@.maps, all.take(taken as int)),
                self@.active_mode == old(self)@.active_mode,
                self@.state == old(self)@.state,
                forall|i: int| 0 <= i < all.len() ==> (#[trigger] all[i]).1.wf(),
            decreases map@.len(),
        {
            let (mode, tree) = map.remove(0);
            proof {
                assert(all[taken as int] == (mode, tree));
            }
            self.load_keymap_tree(mode, tree);
            proof {
                assert(all.take(taken + 1).drop_last() =~= all.take(taken as int));
                assert(all.take(taken + 1).last() == all[taken as int]);
            }
            taken += 1;
        }
        proof {
            assert(all.take(all.len() as int) =~= all);
        }
    }

    /// Whether a root trie is loaded for `mode`. Dispatching in the idle
    /// state asks for the active mode's tree; a missing one is a
    /// configuration error to be reported at load time.
    pub fn has_tree(&self, mode: DocumentMode) -> (r: bool)
        requires
            self.wf(),
        ensures
            r == self@.maps.dom().contains(mode),
    {
        match self.find_mode(mode) {
            Some(i) => {
                proof {
                    lemma_modes_at(self.maps@, i as int);
                }
                true
            },
            None => {
                proof {
                    lemma_modes_absent(self.maps@, mode);
                }
                false
            },
        }
    }

    /// The mode whose root trie idle dispatch consults.
    pub fn active_mode(&self) -> (r: DocumentMode)
        ensures
            r == self@.active_mode,
    {
        self.active_mode
    }

    /// Whether a multi-key chord is in progress.
    pub fn is_pending(&self) -> (r: bool)
        ensures
            r == (self@.state is Some),
    {
        self.state.is_some()
    }

    /// Abandons any in-progress chord, returning the dispatcher to idle.
    /// The loaded trees and the active mode are untouched.
    pub fn reset(&mut self)
        requires
            old(self).wf(),
        ensures
            final(self).wf(),
            final(self)@.state is None,
            final(self)@.active_mode == old(self)@.active_mode,
            final(self)@.maps == old(self)@.maps,
    {
        self.state = None;
    }

    /// A reference to the root trie of `mode`.
    fn mode_tree(&self, mode: DocumentMode) -> (r: &KeymapTree)
        requires
            self.wf(),
            self@.maps.dom().contains(mode),
        ensures
            r.as_view() == self@.maps[mode],
            r.wf(),
    {
        match self.find_mode(mode) {
            Some(i) => {
                proof {
                    lemma_modes_at(self.maps@, i as int);
                }
                &self.maps[i].1
            },
            None => {
                proof {
                    lemma_modes_absent(self.maps@, mode);
                }
                vstd::pervasive::unreached()
            },
        }
    }

    /// Resolves one key press against one trie level, in strict precedence
    /// order: exact edge, wildcard edge, no-match sentinel, else nothing.
    fn resolve(tree: &KeymapTree, key: KeyInput) -> (r: (Vec<KCommand>, Option<KeymapTree>))
        requires
            tree.wf(),
        ensures
            ({
                let s = spec_step(tree.as_view(), key);
                &&& r.0@ == s.0
                &&& opt_tree_view(r.1) == s.1
                &&& match r.1 {
                    Some(t) => t.wf(),
                    None => true,
                }
            }),
    {
        let key_node = KeymapNode::new(KeyInputTypes::MATCH(key));
        if let Some(p) = tree.get_fun(&key_node) {
            return p;
        }
        let all_node = KeymapNode::new(KeyInputTypes::MATCH_ALL);
        if let Some(p) = tree.get_fun(&all_node) {
            return p;
        }
        let none_node = KeymapNode::new(KeyInputTypes::MATCH_NONE);
        if let Some(p) = tree.get_fun(&none_node) {
            return p;
        }
        (Vec::new(), None)
    }

    /// Dispatch one key event.
    ///
    /// Resolves `key` against the pending subtree if a chord is in
    /// progress, else against the active mode's root trie, and returns the
    /// matched edge's commands (empty if nothing matched). The matched
    /// edge's continuation, if any, becomes the new pending state;
    /// otherwise the keymap returns to idle. The loaded trees and the
    /// active mode are never altered.
    ///
    /// A mode with no loaded tree is a configuration error reported at
    /// load time; dispatch in the idle state asks for the active mode's
    /// tree to be present.
    pub fn get(&mut self, key: KeyInput) -> (cmds: Vec<KCommand>)
        requires
            old(self).wf(),
            old(self)@.state is None ==> old(self)@.maps.dom().contains(old(self)@.active_mode),
        ensures
            final(self).wf(),
            cmds@ == spec_dispatch(old(self)@, key).0,
            final(self)@ == spec_dispatch(old(self)@, key).1,
    {
        match self.state.take() {
            Some(st) => {
                let (cmds, next) = Self::resolve(&st, key);
                self.state = next;
                cmds
            },
            None => {
                let (cmds, next) = {
                    let tree = self.mode_tree(self.active_mode);
                    Self::resolve(tree, key)
                };
                self.state = next;
                cmds
            },
        }
    }
}

/// Idempotent re-lookup: a key that resolves from the idle state without
/// leaving a chord pending (a terminal binding, or no binding at all)
/// dispatches identically a second time — the first dispatch mutated no
/// hidden state.
pub proof fn lemma_idempotent_relookup(m: KeymapView, k: KeyInput)
    requires
        m.state is None,
        m.maps.dom().contains(m.active_mode),
        spec_step(m.maps[m.active_mode], k).1 is None,
    ensures
        spec_dispatch(spec_dispatch(m, k).1, k).0 == spec_dispatch(m, k).0,
        spec_dispatch(spec_dispatch(m, k).1, k).1 == spec_dispatch(m, k).1,
{
}

/// Independence of idle dispatch: from the idle state the outcome depends
/// only on the loaded trees and the active mode. Since dispatch never
/// alters trees or mode, single-key bindings resolve the same however they
/// are interleaved with completed or abandoned chords.
pub proof fn lemma_idle_dispatch_independent(m1: KeymapView, m2: KeymapView, k: KeyInput)
    requires
        m1.state is None,
        m2.state is None,
        m1.maps == m2.maps,
        m1.active_mode == m2.active_mode,
    ensures
        spec_dispatch(m1, k).0 == spec_dispatch(m2, k).0,
        spec_dispatch(m1, k).1 == spec_dispatch(m2, k).1,
{
}

/// Wildcard fallback: where no exact edge exists for the key but a
/// wildcard edge is bound, resolution yields the wildcard's commands.
pub proof fn lemma_wildcard_fallback(t: TreeView, k: KeyInput)
    requires
        !t.edges.dom().contains(KeyInputTypes::MATCH(k)),
        t.edges.dom().contains(KeyInputTypes::MATCH_ALL),
    ensures
        spec_step(t, k).0 == t.edges[KeyInputTypes::MATCH_ALL].cmds,
        spec_step(t, k).1 == t.edges[KeyInputTypes::MATCH_ALL].child,
{
}

/// A miss after a partial chord abandons the chord: while a chord is
/// pending, a key with no exact, wildcard or no-match edge in the pending
/// subtree yields no commands and returns the machine to idle — the key is
/// not retried against the mode's root.
pub proof fn lemma_miss_after_partial_chord(m: KeymapView, k: KeyInput)
    requires
        m.state matches Some(t) ==> {
            &&& !t.edges.dom().contains(KeyInputTypes::MATCH(k))
            &&& !t.edges.dom().contains(KeyInputTypes::MATCH_ALL)
            &&& !t.edges.dom().contains(KeyInputTypes::MATCH_NONE)
        },
        m.state is Some,
    ensures
        spec_dispatch(m, k).0 == Seq::<KCommand>::empty(),
        spec_dispatch(m, k).1.state is None,
{
}

} // verus!

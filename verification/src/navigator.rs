//! Retainable, format-neutral navigation over a [`Loader`] hierarchy.
//!
//! A [`Cursor`] is a position reached by a path from the root: its view is
//! the sequence of `(item, state)` pairs from the root down to the cursor.
//! Expanding a cursor is a short protocol driven by the runtime: it starts a
//! [`PendingExpansion`] from the loader's shallow expansion, feeds it the
//! state derived for each child in turn, and finishes it into a
//! [`CursorExpansion`].

use crate::loader::{identity_of, stable_identity, Expansion, Loader};
use std::collections::VecDeque;
use std::marker::PhantomData;
use std::sync::Arc;
use vstd::prelude::*;
use vstd::std_specs::cmp::PartialEqSpec;

verus! {

/// Makes another pointer to the allocation behind `shared`.
///
/// Calls `Arc::clone`; claims only what its documentation states, that the
/// new pointer refers to the same value.
#[verifier::external_body]
fn share<T>(shared: &Arc<T>) -> (copy: Arc<T>)
    ensures
        copy == *shared,
{
    Arc::clone(shared)
}

/// One link of a cursor's ancestry: an item, its derived state, and the
/// frame by which it was reached.
struct Frame<I, S> {
    item: I,
    state: Arc<S>,
    parent: Option<Arc<Frame<I, S>>>,
}

impl<I, S> Frame<I, S> {
    /// The `(item, state)` pairs from the root down to this frame.
    spec fn path(self) -> Seq<(I, S)>
        decreases self,
    {
        match self.parent {
            None => seq![(self.item, *self.state)],
            Some(parent) => parent.path().push((self.item, *self.state)),
        }
    }

    proof fn lemma_path(&self)
        ensures
            self.path().len() >= 1,
            self.path().last() == (self.item, *self.state),
            match self.parent {
                None => self.path().len() == 1,
                Some(parent) => self.path().drop_last() == parent.path() && self.path().len()
                    == parent.path().len() + 1,
            },
    {
        match self.parent {
            None => {},
            Some(parent) => {
                assert(self.path().drop_last() =~= parent.path());
            },
        }
    }
}

/// Creates retainable cursors over a demand-loaded hierarchy.
///
/// `S` is format-defined effective state. The navigator shares its loader
/// with every cursor it creates; it does not interpret the state.
pub struct Navigator<L: Loader, S> {
    loader: Arc<L>,
    state: PhantomData<S>,
}

impl<L: Loader, S> Navigator<L, S> {
    /// The loader this navigator shares with its cursors.
    pub closed spec fn source(&self) -> L {
        *self.loader
    }
}

impl<L: Loader, S> Clone for Navigator<L, S> {
    fn clone(&self) -> (copy: Self)
        ensures
            copy == *self,
    {
        Navigator { loader: share(&self.loader), state: PhantomData }
    }
}

impl<L: Loader, S> Navigator<L, S> {
    /// Creates a navigator over `loader`.
    pub fn new(loader: L) -> (navigator: Self)
        ensures
            navigator.source() == loader,
    {
        Self::from_shared(Arc::new(loader))
    }

    /// Creates a navigator from a shared loader.
    pub fn from_shared(loader: Arc<L>) -> (navigator: Self)
        ensures
            navigator.source() == *loader,
    {
        Navigator { loader, state: PhantomData }
    }

    /// Returns the underlying demand loader.
    pub fn loader(&self) -> (loader: &L)
        ensures
            *loader == self.source(),
    {
        &self.loader
    }

    /// The root cursor, once the runtime has resolved the root `item` and
    /// derived its `state`: a path of one step, with no parent.
    pub fn root_cursor(&self, item: L::Item, state: S) -> (root: Cursor<L, S>)
        ensures
            root@ == seq![(item, state)],
            root.navigator() == *self,
    {
        let frame = Frame { item, state: Arc::new(state), parent: None };
        Cursor { navigator: self.clone(), frame: Arc::new(frame) }
    }
}

/// A retainable, path-aware position in a demand-loaded hierarchy.
///
/// A cursor owns a shared frame holding its item handle, effective state and
/// ancestry. Cloning it is cheap and keeps the same position.
pub struct Cursor<L: Loader, S> {
    navigator: Navigator<L, S>,
    frame: Arc<Frame<L::Item, S>>,
}

impl<L: Loader, S> View for Cursor<L, S> {
    type V = Seq<(L::Item, S)>;

    /// The `(item, state)` pairs from the root down to this cursor.
    closed spec fn view(&self) -> Seq<(L::Item, S)> {
        self.frame.path()
    }
}

impl<L: Loader, S> Clone for Cursor<L, S> {
    fn clone(&self) -> (copy: Self)
        ensures
            copy == *self,
    {
        Cursor { navigator: self.navigator.clone(), frame: share(&self.frame) }
    }
}

/// Result of shallowly expanding a cursor.
pub struct CursorExpansion<L: Loader, S> {
    /// Retainable cursors for the expanded item's immediate children.
    pub children: Vec<Cursor<L, S>>,
    /// Content references discovered for the expanded item.
    pub contents: Vec<L::ContentRef>,
}

impl<L: Loader, S> Cursor<L, S> {
    /// The navigator through which this cursor was created.
    pub closed spec fn navigator(&self) -> Navigator<L, S> {
        self.navigator
    }

    /// The item at this position.
    pub open spec fn spec_item(&self) -> L::Item {
        self@.last().0
    }

    /// The effective state at this position.
    pub open spec fn spec_state(&self) -> S {
        self@.last().1
    }

    /// The number of steps from the root to this position, counting both.
    pub open spec fn depth(&self) -> nat {
        self@.len()
    }

    /// Whether this cursor is a root, reached by no parent.
    pub open spec fn is_root(&self) -> bool {
        self@.len() == 1
    }

    /// The identity that the navigator's loader gives this cursor's item.
    pub open spec fn identity(&self) -> L::ItemId {
        identity_of(self.navigator().source(), self.spec_item())
    }

    /// Every cursor stands at the end of a path of at least one step.
    pub proof fn lemma_nonempty(&self)
        ensures
            self@.len() >= 1,
    {
        self.frame.lemma_path();
    }

    /// Returns the loader of the navigator through which this cursor was
    /// created.
    pub fn loader(&self) -> (loader: &L)
        ensures
            *loader == self.navigator().source(),
    {
        self.navigator.loader()
    }

    /// Returns the source-native item at this cursor position.
    pub fn item(&self) -> (item: &L::Item)
        ensures
            *item == self.spec_item(),
            self.depth() >= 1,
    {
        proof {
            self.frame.lemma_path();
        }
        &self.frame.item
    }

    /// Returns the effective format-specific state at this cursor position.
    pub fn state(&self) -> (state: &S)
        ensures
            *state == self.spec_state(),
            self.depth() >= 1,
    {
        proof {
            self.frame.lemma_path();
        }
        &self.frame.state
    }

    /// Returns this cursor's stable hierarchy identity.
    pub fn item_id(&self) -> (id: L::ItemId)
        ensures
            call_ensures(L::item_id, (&self.navigator().source(), &self.spec_item()), id),
            stable_identity::<L>() ==> id == self.identity(),
    {
        let id = self.navigator.loader.item_id(self.item());
        proof {
            let src = self.navigator().source();
            let item = self.spec_item();
            assert(call_ensures(L::item_id, (&src, &item), id));
        }
        id
    }

    /// Returns the cursor by which this position was reached, if any.
    ///
    /// The returned cursor is path ancestry, not necessarily an intrinsic
    /// unique parent in the source data.
    pub fn parent(&self) -> (parent: Option<Self>)
        ensures
            self.depth() >= 1,
            match parent {
                None => self.is_root(),
                Some(p) => {
                    &&& !self.is_root()
                    &&& p@ == self@.drop_last()
                    &&& p.navigator() == self.navigator()
                },
            },
    {
        proof {
            self.frame.lemma_path();
        }
        match &self.frame.parent {
            Some(frame) => {
                proof {
                    frame.lemma_path();
                }
                Some(Cursor { navigator: self.navigator.clone(), frame: share(frame) })
            },
            None => None,
        }
    }

    /// The path a child of this cursor has: one more step, with `item` and
    /// the `state` derived for it.
    pub open spec fn child_path(&self, item: L::Item, state: S) -> Seq<(L::Item, S)> {
        self@.push((item, state))
    }

    /// Starts one shallow expansion of this cursor from what the loader
    /// discovered for its item.
    ///
    /// The children are then derived one at a time, in source order: the
    /// runtime asks [`PendingExpansion::next_child`] which item comes next,
    /// derives its state with this cursor as the path parent, and hands the
    /// state to [`PendingExpansion::accept`].
    pub fn begin_expand(&self, expansion: Expansion<L::Item, L::ContentRef>) -> (pending:
        PendingExpansion<L, S>)
        ensures
            pending.wf(),
            pending.parent_cursor() == *self,
            pending.items() == expansion.children@,
            pending.remaining() == expansion.children@,
            pending.states() == Seq::<S>::empty(),
            pending.derived() == Seq::<Cursor<L, S>>::empty(),
            pending.contents() == expansion.contents@,
    {
        let Expansion { children: mut items, contents } = expansion;
        let ghost all = items@;
        let mut queue: VecDeque<L::Item> = VecDeque::new();
        while items.len() > 0
            invariant
                items@ + queue@ == all,
            decreases items.len(),
        {
            let item = items.pop().unwrap();
            queue.push_front(item);
            assert(items@ + queue@ =~= all);
        }
        assert(queue@ =~= all);
        assert(all.skip(0) =~= all);
        PendingExpansion {
            parent: self.clone(),
            queue,
            children: Vec::new(),
            contents,
            items: Ghost(all),
            states: Ghost(Seq::empty()),
        }
    }

    /// Whether `candidate` is kept among this cursor's siblings: its identity
    /// differs from this cursor's.
    pub open spec fn keeps_as_sibling(&self, candidate: Self) -> bool {
        !candidate.identity().eq_spec(&self.identity())
    }

    /// Every one of `candidates` (the children of this cursor's path parent)
    /// except this cursor, told apart by item identity, in their order. The
    /// root has no siblings and gets an empty vector.
    pub fn siblings_among(&self, candidates: Vec<Self>) -> (siblings: Vec<Self>)
        ensures
            is_subsequence(siblings@, candidates@),
            siblings@.len() <= candidates@.len(),
            self.is_root() ==> siblings@.len() == 0,
            !self.is_root() ==> exists|id: L::ItemId, ids: Seq<L::ItemId>, differs: Seq<bool>|
                #[trigger] sibling_comparisons(*self, candidates@, id, ids, differs) && siblings@
                    == select(candidates@, differs),
            !self.is_root() && L::ItemId::obeys_eq_spec() && stable_identity::<L>() ==> siblings@
                == candidates@.filter(
                |c: Self| self.keeps_as_sibling(c),
            ),
    {
        let mut siblings: Vec<Self> = Vec::new();
        if self.parent().is_none() {
            assert(picks(Seq::<int>::empty(), siblings@, candidates@));
            return siblings;
        }
        let id = self.item_id();
        let ghost keep = |c: Self| self.keeps_as_sibling(c);
        let ghost mut picked: Seq<int> = Seq::empty();
        let ghost mut ids: Seq<L::ItemId> = Seq::empty();
        let ghost mut differs: Seq<bool> = Seq::empty();
        let mut i: usize = 0;
        while i < candidates.len()
            invariant
                i <= candidates.len(),
                stable_identity::<L>() ==> id == self.identity(),
                keep == (|c: Self| self.keeps_as_sibling(c)),
                L::ItemId::obeys_eq_spec() && stable_identity::<L>() ==> siblings@
                    == candidates@.take(i as int).filter(keep),
                picks(picked, siblings@, candidates@),
                forall|j: int| 0 <= j < picked.len() ==> #[trigger] picked[j] < i,
                siblings@.len() <= i,
                sibling_comparisons(*self, candidates@.take(i as int), id, ids, differs),
                siblings@ == select(candidates@.take(i as int), differs),
            decreases candidates.len() - i,
        {
            let candidate = &candidates[i];
            let other = candidate.item_id();
            let differ = other.ne(&id);
            proof {
                reveal(Seq::filter);
                let before = candidates@.take(i as int);
                let after = candidates@.take(i + 1);
                assert(after.drop_last() =~= before);
                assert(call_ensures(<L::ItemId as PartialEq>::ne, (&other, &id), differ));
                let old_differs = differs;
                ids = ids.push(other);
                differs = differs.push(differ);
                assert(differs.drop_last() =~= old_differs);
                assert(after.last() == candidates@[i as int]);
                assert forall|j: int| 0 <= j < after.len() implies {
                    &&& call_ensures(
                        L::item_id,
                        (&(#[trigger] after[j]).navigator().source(), &after[j].spec_item()),
                        ids[j],
                    )
                    &&& call_ensures(<L::ItemId as PartialEq>::ne, (&ids[j], &id), differs[j])
                } by {
                    if j < i {
                        assert(after[j] == before[j]);
                    }
                }
            }
            if differ {
                siblings.push(candidate.clone());
                proof {
                    picked = picked.push(i as int);
                }
            }
            i = i + 1;
        }
        assert(candidates@.take(candidates@.len() as int) =~= candidates@);
        siblings
    }
}

/// What choosing siblings among `candidates` observed: `id` is a result of
/// the loader's `item_id` for `cursor`, `ids[i]` one for `candidates[i]`
/// (through its own navigator's loader), and `differs[i]` a result of
/// comparing `ids[i]` with `id` by `!=`.
pub open spec fn sibling_comparisons<L: Loader, S>(
    cursor: Cursor<L, S>,
    candidates: Seq<Cursor<L, S>>,
    id: L::ItemId,
    ids: Seq<L::ItemId>,
    differs: Seq<bool>,
) -> bool {
    &&& call_ensures(L::item_id, (&cursor.navigator().source(), &cursor.spec_item()), id)
    &&& ids.len() == candidates.len()
    &&& differs.len() == candidates.len()
    &&& forall|j: int|
        0 <= j < candidates.len() ==> {
            &&& call_ensures(
                L::item_id,
                (&(#[trigger] candidates[j]).navigator().source(), &candidates[j].spec_item()),
                ids[j],
            )
            &&& call_ensures(<L::ItemId as PartialEq>::ne, (&ids[j], &id), differs[j])
        }
}

/// The elements of `items` whose flag in `keep` is set, in order.
pub open spec fn select<T>(items: Seq<T>, keep: Seq<bool>) -> Seq<T>
    decreases items.len(),
{
    if items.len() == 0 || keep.len() == 0 {
        Seq::empty()
    } else {
        let rest = select(items.drop_last(), keep.drop_last());
        if keep.last() {
            rest.push(items.last())
        } else {
            rest
        }
    }
}

/// `idx` picks `sub` out of `seq`: one index of `seq` per element of `sub`,
/// strictly increasing, each holding that element.
pub open spec fn picks<T>(idx: Seq<int>, sub: Seq<T>, seq: Seq<T>) -> bool {
    &&& idx.len() == sub.len()
    &&& forall|j: int| 0 <= j < idx.len() ==> 0 <= #[trigger] idx[j] < seq.len() && sub[j] == seq[idx[j]]
    &&& forall|j: int, k: int| 0 <= j < k < idx.len() ==> idx[j] < idx[k]
}

/// `sub` consists of elements of `seq`, in the order they stand in `seq`.
pub open spec fn is_subsequence<T>(sub: Seq<T>, seq: Seq<T>) -> bool {
    exists|idx: Seq<int>| #[trigger] picks(idx, sub, seq)
}

/// One shallow expansion of a cursor in progress.
///
/// It holds the expanded cursor, the discovered child items not yet derived
/// (in source order), the child cursors built so far and the discovered
/// content references.
pub struct PendingExpansion<L: Loader, S> {
    parent: Cursor<L, S>,
    queue: VecDeque<L::Item>,
    children: Vec<Cursor<L, S>>,
    contents: Vec<L::ContentRef>,
    items: Ghost<Seq<L::Item>>,
    states: Ghost<Seq<S>>,
}

impl<L: Loader, S> PendingExpansion<L, S> {
    /// The children built so far are exactly the first discovered items, each
    /// one step below the expanded cursor with the state accepted for it, and
    /// the rest of the items wait in order.
    pub closed spec fn wf(&self) -> bool {
        &&& self.states@.len() == self.children@.len()
        &&& self.children@.len() + self.queue@.len() == self.items@.len()
        &&& self.queue@ == self.items@.skip(self.children@.len() as int)
        &&& forall|i: int|
            0 <= i < self.children@.len() ==> {
                &&& (#[trigger] self.children@[i])@ == self.parent.child_path(
                    self.items@[i],
                    self.states@[i],
                )
                &&& self.children@[i].navigator() == self.parent.navigator()
            }
    }

    /// The cursor being expanded.
    pub closed spec fn parent_cursor(&self) -> Cursor<L, S> {
        self.parent
    }

    /// All child items the loader discovered, in source order.
    pub closed spec fn items(&self) -> Seq<L::Item> {
        self.items@
    }

    /// The child items whose state has not been accepted yet, in order.
    pub closed spec fn remaining(&self) -> Seq<L::Item> {
        self.queue@
    }

    /// The states accepted so far, one per built child.
    pub closed spec fn states(&self) -> Seq<S> {
        self.states@
    }

    /// The child cursors built so far.
    pub closed spec fn derived(&self) -> Seq<Cursor<L, S>> {
        self.children@
    }

    /// The content references discovered for the expanded item.
    pub closed spec fn contents(&self) -> Seq<L::ContentRef> {
        self.contents@
    }

    /// The cursor being expanded: the path parent handed to state derivation.
    pub fn parent(&self) -> (parent: &Cursor<L, S>)
        ensures
            *parent == self.parent_cursor(),
    {
        &self.parent
    }

    /// The child item whose state is to be derived next, or `None` once
    /// every child has been derived.
    pub fn next_child(&self) -> (next: Option<&L::Item>)
        ensures
            match next {
                Some(item) => self.remaining().len() > 0 && *item == self.remaining()[0],
                None => self.remaining().len() == 0,
            },
    {
        if self.queue.len() == 0 {
            None
        } else {
            Some(&self.queue[0])
        }
    }

    /// Builds the cursor for the next child from its derived `state`: one
    /// step below the expanded cursor, appended after the children built so
    /// far.
    pub fn accept(&mut self, state: S)
        requires
            old(self).wf(),
            old(self).remaining().len() > 0,
        ensures
            final(self).wf(),
            final(self).parent_cursor() == old(self).parent_cursor(),
            final(self).items() == old(self).items(),
            final(self).contents() == old(self).contents(),
            final(self).remaining() == old(self).remaining().drop_first(),
            final(self).states() == old(self).states().push(state),
            final(self).derived().len() == old(self).derived().len() + 1,
            final(self).derived().drop_last() == old(self).derived(),
            final(self).derived().last()@ == old(self).parent_cursor().child_path(
                old(self).remaining()[0],
                state,
            ),
            final(self).derived().last().navigator() == old(self).parent_cursor().navigator(),
    {
        let ghost done = self.children@.len();
        let item = self.queue.pop_front().unwrap();
        let frame = Frame {
            item,
            state: Arc::new(state),
            parent: Some(share(&self.parent.frame)),
        };
        let child = Cursor { navigator: self.parent.navigator.clone(), frame: Arc::new(frame) };
        proof {
            self.parent.frame.lemma_path();
            assert(child@ =~= self.parent.child_path(self.items@[done as int], state));
            self.states@ = self.states@.push(state);
            assert(self.queue@ =~= self.items@.skip(done + 1 as int));
        }
        self.children.push(child);
        proof {
            assert(self.children@.drop_last() =~= old(self).children@);
        }
    }

    /// The finished expansion: the built child cursors, in source order, and
    /// the discovered content references.
    pub fn finish(self) -> (expansion: CursorExpansion<L, S>)
        requires
            self.wf(),
            self.remaining().len() == 0,
        ensures
            expansion.children@ == self.derived(),
            expansion.contents@ == self.contents(),
            expansion.children@.len() == self.items().len(),
            forall|i: int|
                0 <= i < self.items().len() ==> {
                    &&& (#[trigger] expansion.children@[i])@ == self.parent_cursor().child_path(
                        self.items()[i],
                        self.states()[i],
                    )
                    &&& expansion.children@[i].navigator() == self.parent_cursor().navigator()
                },
    {
        let PendingExpansion { children, contents, .. } = self;
        CursorExpansion { children, contents }
    }
}

/// The parent of a child is the cursor it was expanded from: a child built
/// one step below `parent` (as an expansion builds each child) is not a
/// root, is one step deeper, stands at the item and state it was built with,
/// and asking it for its parent gives back `parent`'s path.
pub proof fn law_parent_of_child<L: Loader, S>(
    parent: Cursor<L, S>,
    child: Cursor<L, S>,
    item: L::Item,
    state: S,
)
    requires
        child@ == parent.child_path(item, state),
    ensures
        !child.is_root(),
        child.depth() == parent.depth() + 1,
        child.spec_item() == item,
        child.spec_state() == state,
        child@.drop_last() == parent@,
{
    parent.lemma_nonempty();
    assert(child@.drop_last() =~= parent@);
}

/// Every child an expansion builds stands one step below the expanded
/// cursor, shares its navigator, and carries the item discovered at its
/// position with the state accepted for it; once no item remains, there is a
/// child for every discovered item.
pub proof fn law_expansion_children<L: Loader, S>(pending: PendingExpansion<L, S>)
    requires
        pending.wf(),
    ensures
        pending.derived().len() == pending.states().len(),
        pending.derived().len() + pending.remaining().len() == pending.items().len(),
        pending.remaining().len() == 0 ==> pending.derived().len() == pending.items().len(),
        forall|i: int|
            0 <= i < pending.derived().len() ==> {
                &&& (#[trigger] pending.derived()[i])@.drop_last() == pending.parent_cursor()@
                &&& !pending.derived()[i].is_root()
                &&& pending.derived()[i].spec_item() == pending.items()[i]
                &&& pending.derived()[i].spec_state() == pending.states()[i]
                &&& pending.derived()[i].navigator() == pending.parent_cursor().navigator()
            },
{
    assert forall|i: int| 0 <= i < pending.derived().len() implies {
        &&& (#[trigger] pending.derived()[i])@.drop_last() == pending.parent_cursor()@
        &&& !pending.derived()[i].is_root()
        &&& pending.derived()[i].spec_item() == pending.items()[i]
        &&& pending.derived()[i].spec_state() == pending.states()[i]
        &&& pending.derived()[i].navigator() == pending.parent_cursor().navigator()
    } by {
        law_parent_of_child(
            pending.parent_cursor(),
            pending.derived()[i],
            pending.items()[i],
            pending.states()[i],
        );
    }
}

/// One whole expansion: when an expansion started from `cursor` on the
/// discovered items `items` and content references `contents` has taken a
/// state for every item and is finished into `result`, the result has the
/// same content references in the same order and one child per item, in the
/// items' order, each at its item with the state derived for it, one step
/// below `cursor` and on its navigator, so that its identity is the one the
/// loader gives that item.
pub proof fn law_expansion_result<L: Loader, S>(
    cursor: Cursor<L, S>,
    items: Seq<L::Item>,
    contents: Seq<L::ContentRef>,
    pending: PendingExpansion<L, S>,
    result: CursorExpansion<L, S>,
)
    requires
        pending.wf(),
        pending.parent_cursor() == cursor,
        pending.items() == items,
        pending.contents() == contents,
        pending.remaining().len() == 0,
        result.children@ == pending.derived(),
        result.contents@ == pending.contents(),
    ensures
        result.contents@ == contents,
        result.children@.len() == items.len(),
        forall|i: int|
            0 <= i < items.len() ==> {
                &&& (#[trigger] result.children@[i]).spec_item() == items[i]
                &&& result.children@[i].spec_state() == pending.states()[i]
                &&& result.children@[i]@.drop_last() == cursor@
                &&& !result.children@[i].is_root()
                &&& result.children@[i].navigator() == cursor.navigator()
                &&& result.children@[i].identity() == identity_of(
                    cursor.navigator().source(),
                    items[i],
                )
            },
{
    law_expansion_children(pending);
}

/// Siblings are mutual: two candidates whose identities differ each keep
/// the other among their siblings.
pub proof fn law_siblings_mutual<L: Loader, S>(
    a: Cursor<L, S>,
    b: Cursor<L, S>,
    candidates: Seq<Cursor<L, S>>,
)
    requires
        candidates.contains(a),
        candidates.contains(b),
        !a.identity().eq_spec(&b.identity()),
        !b.identity().eq_spec(&a.identity()),
    ensures
        candidates.filter(|c: Cursor<L, S>| a.keeps_as_sibling(c)).contains(b),
        candidates.filter(|c: Cursor<L, S>| b.keeps_as_sibling(c)).contains(a),
{
    broadcast use vstd::seq_lib::group_filter_ensures;

    let ka = |c: Cursor<L, S>| a.keeps_as_sibling(c);
    let kb = |c: Cursor<L, S>| b.keeps_as_sibling(c);
    let i = choose|i: int| 0 <= i < candidates.len() && candidates[i] == b;
    let j = choose|j: int| 0 <= j < candidates.len() && candidates[j] == a;
    assert(ka(candidates[i]));
    assert(kb(candidates[j]));
}

/// The identities of the cursors in `cursors`.
pub open spec fn identities<L: Loader, S>(cursors: Seq<Cursor<L, S>>) -> Set<L::ItemId> {
    Set::new(|id: L::ItemId| exists|j: int| 0 <= j < cursors.len() && #[trigger] cursors[j].identity() == id)
}

/// With lawful identity comparison, a cursor's siblings together with the
/// cursor itself carry exactly the identities of all candidates it was
/// chosen from.
pub proof fn law_siblings_and_self_cover_candidates<L: Loader, S>(
    cursor: Cursor<L, S>,
    candidates: Seq<Cursor<L, S>>,
)
    requires
        candidates.contains(cursor),
        forall|x: L::ItemId, y: L::ItemId| #[trigger] x.eq_spec(&y) <==> x == y,
    ensures
        identities(candidates.filter(|c: Cursor<L, S>| cursor.keeps_as_sibling(c))).insert(
            cursor.identity(),
        ) == identities(candidates),
{
    broadcast use vstd::seq_lib::group_filter_ensures;

    let keep = |c: Cursor<L, S>| cursor.keeps_as_sibling(c);
    let siblings = candidates.filter(keep);
    let lhs = identities(siblings).insert(cursor.identity());
    let rhs = identities(candidates);
    assert forall|id: L::ItemId| lhs.contains(id) implies rhs.contains(id) by {
        if id == cursor.identity() {
            let j = choose|j: int| 0 <= j < candidates.len() && candidates[j] == cursor;
            assert(candidates[j].identity() == id);
        } else {
            let j = choose|j: int| 0 <= j < siblings.len() && #[trigger] siblings[j].identity() == id;
            assert(siblings.contains(siblings[j]));
            candidates.lemma_filter_contains_rev(keep, siblings[j]);
            let k = choose|k: int| 0 <= k < candidates.len() && candidates[k] == siblings[j];
            assert(candidates[k].identity() == id);
        }
    }
    assert forall|id: L::ItemId| rhs.contains(id) implies lhs.contains(id) by {
        let k = choose|k: int| 0 <= k < candidates.len() && #[trigger] candidates[k].identity() == id;
        if id != cursor.identity() {
            assert(!id.eq_spec(&cursor.identity()));
            assert(keep(candidates[k]));
            assert(siblings.contains(candidates[k]));
            let j = choose|j: int| 0 <= j < siblings.len() && siblings[j] == candidates[k];
            assert(siblings[j].identity() == id);
        }
    }
    assert(lhs =~= rhs);
}

/// The path reached by asking for the parent `k` times.
pub open spec fn ancestor_path<I, S>(path: Seq<(I, S)>, k: nat) -> Seq<(I, S)>
    decreases k,
{
    if k == 0 {
        path
    } else {
        ancestor_path(path.drop_last(), (k - 1) as nat)
    }
}

/// Ancestry is finite and ends at the root: asking a cursor of depth `d`
/// for its parent `k < d` times reaches the first `d - k` steps of its path,
/// which is a root exactly when `k == d - 1`, and that root holds the first
/// step of the path.
pub proof fn law_ancestry<L: Loader, S>(cursor: Cursor<L, S>, k: nat)
    requires
        k < cursor.depth(),
    ensures
        ancestor_path(cursor@, k) == cursor@.take(cursor.depth() - k),
        ancestor_path(cursor@, k).len() >= 1,
        ancestor_path(cursor@, k).len() == 1 <==> k == cursor.depth() - 1,
        k == cursor.depth() - 1 ==> ancestor_path(cursor@, k) == seq![cursor@[0]],
{
    lemma_ancestor_path(cursor@, k);
    if k == cursor.depth() - 1 {
        assert(cursor@.take(1) =~= seq![cursor@[0]]);
    }
}

proof fn lemma_ancestor_path<I, S>(path: Seq<(I, S)>, k: nat)
    requires
        k < path.len(),
    ensures
        ancestor_path(path, k) == path.take(path.len() - k),
    decreases k,
{
    if k == 0 {
        assert(path.take(path.len() as int) =~= path);
    } else {
        lemma_ancestor_path(path.drop_last(), (k - 1) as nat);
        assert(path.drop_last().take(path.drop_last().len() - (k - 1)) =~= path.take(
            path.len() - k,
        ));
    }
}

/// Whether `path` continues `ancestor`: it starts with all of `ancestor`'s
/// steps, so that asking for the parent enough times reaches `ancestor`.
pub open spec fn continues<I, S>(path: Seq<(I, S)>, ancestor: Seq<(I, S)>) -> bool {
    ancestor.len() <= path.len() && path.take(ancestor.len() as int) == ancestor
}

/// Expanding continues a path, and continuing is transitive: a child built
/// below `parent` continues it, and whatever continues the child continues
/// `parent` too.
pub proof fn law_child_continues_parent<L: Loader, S>(
    parent: Cursor<L, S>,
    child: Cursor<L, S>,
    item: L::Item,
    state: S,
    descendant: Seq<(L::Item, S)>,
)
    requires
        child@ == parent.child_path(item, state),
    ensures
        continues(child@, parent@),
        continues(descendant, child@) ==> continues(descendant, parent@),
{
    assert(child@.take(parent@.len() as int) =~= parent@);
    if continues(descendant, child@) {
        assert(descendant.take(parent@.len() as int) =~= child@.take(parent@.len() as int));
    }
}

/// Every cursor reached from a root cursor by expansions keeps the root's
/// item and state as the first step of its path, and asking it for its
/// parent one step fewer times than its depth reaches exactly that root.
pub proof fn law_descendants_of_root<L: Loader, S>(
    root: Cursor<L, S>,
    item: L::Item,
    state: S,
    descendant: Cursor<L, S>,
)
    requires
        root@ == seq![(item, state)],
        continues(descendant@, root@),
    ensures
        descendant@[0] == (item, state),
        ancestor_path(descendant@, (descendant.depth() - 1) as nat) == root@,
{
    assert(descendant@[0] == descendant@.take(1)[0]);
    law_ancestry(descendant, (descendant.depth() - 1) as nat);
}

/// A root cursor, made from the resolved root item and its derived state,
/// has no parent and stands at that item and state.
pub proof fn law_root_cursor<L: Loader, S>(root: Cursor<L, S>, item: L::Item, state: S)
    requires
        root@ == seq![(item, state)],
    ensures
        root.is_root(),
        root.depth() == 1,
        root.spec_item() == item,
        root.spec_state() == state,
{
}

/// No cursor is among its own siblings: whenever its identity equals itself
/// (as `Eq` promises), neither it nor any candidate with its identity is
/// kept, while every candidate with another identity is kept.
pub proof fn law_siblings_exclude_self<L: Loader, S>(
    cursor: Cursor<L, S>,
    candidates: Seq<Cursor<L, S>>,
)
    requires
        cursor.identity().eq_spec(&cursor.identity()),
    ensures
        ({
            let siblings = candidates.filter(|c: Cursor<L, S>| cursor.keeps_as_sibling(c));
            &&& !siblings.contains(cursor)
            &&& forall|j: int|
                0 <= j < siblings.len() ==> !(#[trigger] siblings[j]).identity().eq_spec(
                    &cursor.identity(),
                )
            &&& forall|j: int|
                0 <= j < candidates.len() && cursor.keeps_as_sibling(#[trigger] candidates[j])
                    ==> siblings.contains(candidates[j])
            &&& forall|j: int|
                0 <= j < candidates.len() && !siblings.contains(#[trigger] candidates[j])
                    ==> candidates[j].identity().eq_spec(&cursor.identity())
            &&& forall|j: int| 0 <= j < siblings.len() ==> candidates.contains(#[trigger] siblings[j])
        }),
{
    broadcast use vstd::seq_lib::group_filter_ensures;

    let keep = |c: Cursor<L, S>| cursor.keeps_as_sibling(c);
    let siblings = candidates.filter(keep);
    assert forall|j: int| 0 <= j < siblings.len() implies !(
    #[trigger] siblings[j]).identity().eq_spec(&cursor.identity()) by {
        assert(keep(siblings[j]));
    }
    if siblings.contains(cursor) {
        let j = choose|j: int| 0 <= j < siblings.len() && siblings[j] == cursor;
        assert(keep(siblings[j]));
    }
    assert forall|j: int|
        0 <= j < candidates.len() && cursor.keeps_as_sibling(
            #[trigger] candidates[j],
        ) implies siblings.contains(candidates[j]) by {
        assert(keep(candidates[j]));
    }
    assert forall|j: int|
        0 <= j < candidates.len() && !siblings.contains(
            #[trigger] candidates[j],
        ) implies candidates[j].identity().eq_spec(&cursor.identity()) by {
        if !candidates[j].identity().eq_spec(&cursor.identity()) {
            assert(keep(candidates[j]));
        }
    }
    assert forall|j: int| 0 <= j < siblings.len() implies candidates.contains(
        #[trigger] siblings[j],
    ) by {
        assert(siblings.contains(siblings[j]));
        candidates.lemma_filter_contains_rev(keep, siblings[j]);
    }
}

/// Two cursors of one navigator at the same item have the same identity,
/// whatever path reached them.
pub proof fn law_identity_by_item<L: Loader, S>(a: Cursor<L, S>, b: Cursor<L, S>)
    requires
        a.navigator() == b.navigator(),
        a.spec_item() == b.spec_item(),
    ensures
        a.identity() == b.identity(),
{
}

} // verus!

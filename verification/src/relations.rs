//! The range-coded relation store: a forest over one kind of entity in
//! which the children of one parent lie in consecutive slots.

use crate::allocator::{Id, IdRange};
use crate::component::Component;
use vstd::prelude::*;

verus! {

/// The place of one entity in the forest.
#[derive(Debug, PartialEq, Eq)]
pub enum RangeRelation<K> {
    /// A child, with its parent.
    ChildOf(Id<K>),
    /// A root, with the range of its children.
    ParentOf(IdRange<K>),
}

impl<K> Clone for RangeRelation<K> {
    fn clone(&self) -> (copy: Self)
        ensures
            copy == *self,
    {
        *self
    }
}

impl<K> Copy for RangeRelation<K> {

}

impl<K> RangeRelation<K> {
    /// The range of the children, for a root.
    pub fn parent_of(self) -> (children: Option<IdRange<K>>)
        ensures
            children == match self {
                RangeRelation::ParentOf(range) => Some(range),
                RangeRelation::ChildOf(_) => None,
            },
    {
        match self {
            RangeRelation::ParentOf(range) => Some(range),
            RangeRelation::ChildOf(_) => None,
        }
    }

    /// The parent, for a child.
    pub fn child_of(self) -> (parent: Option<Id<K>>)
        ensures
            parent == match self {
                RangeRelation::ChildOf(parent) => Some(parent),
                RangeRelation::ParentOf(_) => None,
            },
    {
        match self {
            RangeRelation::ChildOf(parent) => Some(parent),
            RangeRelation::ParentOf(_) => None,
        }
    }
}

/// What a range-coded relation store holds: the place in the forest of each
/// entity that has one, by its slot.
pub struct RangeForest<K> {
    pub entries: Map<usize, RangeRelation<K>>,
}

impl<K> RangeForest<K> {
    /// The forest without any entity.
    pub open spec fn empty() -> Self {
        RangeForest { entries: Map::empty() }
    }

    /// Whether `id` has a place in the forest.
    pub open spec fn contains(self, id: Id<K>) -> bool {
        self.entries.contains_key(id.index())
    }

    /// Whether the entity in slot `slot` is a root.
    pub open spec fn root_at(self, slot: usize) -> bool {
        self.entries.contains_key(slot) && self.entries[slot] is ParentOf
    }

    /// Whether `id` is a root.
    pub open spec fn is_root(self, id: Id<K>) -> bool {
        self.root_at(id.index())
    }

    /// The range of the children of the root in slot `slot`.
    pub open spec fn children_at(self, slot: usize) -> IdRange<K> {
        self.entries[slot]->ParentOf_0
    }

    /// Whether the entity in slot `parent` is a root that has the slot
    /// `child` in the range of its children.
    pub open spec fn covers(self, parent: usize, child: usize) -> bool {
        &&& self.root_at(parent)
        &&& self.children_at(parent).start() <= child < self.children_at(parent).spec_end()
    }

    /// Whether the entity in slot `slot` is a child.
    pub open spec fn is_child_at(self, slot: usize) -> bool {
        self.entries.contains_key(slot) && self.entries[slot] is ChildOf
    }

    /// The parent of the child in slot `slot`.
    pub open spec fn parent_at(self, slot: usize) -> Id<K> {
        self.entries[slot]->ChildOf_0
    }

    /// Whether the entity in slot `child` is a child, and one of the entity
    /// in slot `parent`.
    pub open spec fn child_at(self, child: usize, parent: usize) -> bool {
        self.is_child_at(child) && self.parent_at(child).index() == parent
    }

    /// The entries form a forest of roots and their children: each slot in
    /// the range of a root holds a child of that root, and each child lies
    /// in the range of its parent, which is a root.
    pub open spec fn wf(self) -> bool {
        &&& forall|slot: usize| #[trigger]
            self.root_at(slot) ==> self.children_at(slot).wf()
        &&& forall|parent: usize, child: usize| #[trigger]
            self.covers(parent, child) ==> self.child_at(child, parent)
        &&& forall|child: usize| #[trigger]
            self.is_child_at(child) ==> self.parent_at(child).wf() && self.covers(
                self.parent_at(child).index(),
                child,
            )
    }

    /// The forest with `id` as a new root without children.
    pub open spec fn insert_parent(self, id: Id<K>) -> Self {
        RangeForest {
            entries: self.entries.insert(id.index(), RangeRelation::ParentOf(IdRange::spec_empty())),
        }
    }

    /// Whether `id` can become a child of `parent`: it has no place yet,
    /// `parent` is a root, and `id` sits in the slot that follows the
    /// children of `parent`, unless `parent` has none so far.
    pub open spec fn accepts_child(self, id: Id<K>, parent: Id<K>) -> bool {
        &&& !self.contains(id)
        &&& self.is_root(parent)
        &&& self.children_at(parent.index()).len() == 0 || id.index() == self.children_at(
            parent.index(),
        ).spec_end()
    }

    /// The forest with `id` as the new last child of `parent`.
    pub open spec fn insert_child(self, id: Id<K>, parent: Id<K>) -> Self {
        RangeForest {
            entries: self.entries.insert(id.index(), RangeRelation::ChildOf(parent)).insert(
                parent.index(),
                RangeRelation::ParentOf(self.children_at(parent.index()).spec_extend(id)),
            ),
        }
    }

    /// The forest with the first `n` of `burst` inserted as children of
    /// `parent`, one after another and in order.
    pub open spec fn insert_burst(self, parent: Id<K>, burst: Seq<Id<K>>, n: nat) -> Self
        decreases n,
    {
        if n == 0 {
            self
        } else {
            self.insert_burst(parent, burst, (n - 1) as nat).insert_child(burst[n - 1], parent)
        }
    }

    /// The roots among `ids`, in the order in which `ids` has them.
    pub open spec fn roots_among(self, ids: Seq<Id<K>>) -> Seq<Id<K>> {
        ids.filter(|id: Id<K>| self.is_root(id))
    }

    /// How many roots `ids` has before its position `k`: the ordinal, from
    /// zero, that the root at `k` has among the roots of `ids`.
    pub open spec fn roots_before(self, ids: Seq<Id<K>>, k: int) -> nat {
        self.roots_among(ids.take(k)).len()
    }

    /// The root at position `k` of `ids` is found among the roots of `ids`
    /// at the position that counts the roots before it.
    pub proof fn lemma_root_ordinal(self, ids: Seq<Id<K>>, k: int)
        requires
            0 <= k < ids.len(),
            self.is_root(ids[k]),
        ensures
            self.roots_before(ids, k) < self.roots_among(ids).len(),
            self.roots_among(ids)[self.roots_before(ids, k) as int] == ids[k],
    {
        let is_root = |id: Id<K>| self.is_root(id);
        let head = ids.take(k);
        let tail = ids.skip(k);
        let one = seq![ids[k]];
        let rest = ids.skip(k + 1);
        assert(ids =~= head + tail);
        assert(tail =~= one + rest);
        Seq::filter_distributes_over_add(head, tail, is_root);
        Seq::filter_distributes_over_add(one, rest, is_root);
        assert(one.filter(is_root) =~= one) by {
            reveal_with_fuel(Seq::filter, 2);
            assert(one.drop_last() =~= Seq::<Id<K>>::empty());
        }
    }

    /// A new root leaves the forest a forest.
    pub proof fn lemma_insert_parent_wf(self, id: Id<K>)
        requires
            self.wf(),
            !self.contains(id),
        ensures
            self.insert_parent(id).wf(),
    {
        let after = self.insert_parent(id);
        IdRange::<K>::lemma_empty();
        assert forall|slot: usize| #[trigger] after.root_at(slot) implies after.children_at(slot).wf() by {
            if slot != id.index() {
                assert(self.root_at(slot));
            }
        }
        assert forall|parent: usize, child: usize| #[trigger] after.covers(parent, child) implies after.child_at(
            child,
            parent,
        ) by {
            assert(self.covers(parent, child));
        }
        assert forall|child: usize| #[trigger] after.is_child_at(child) implies after.parent_at(
            child,
        ).wf() && after.covers(after.parent_at(child).index(), child) by {
            assert(self.is_child_at(child));
            assert(self.covers(self.parent_at(child).index(), child));
        }
    }

    /// A child that the forest accepts leaves it a forest.
    pub proof fn lemma_insert_child_wf(self, id: Id<K>, parent: Id<K>)
        requires
            self.wf(),
            id.wf(),
            parent.wf(),
            self.accepts_child(id, parent),
        ensures
            self.insert_child(id, parent).wf(),
    {
        let after = self.insert_child(id, parent);
        let before_range = self.children_at(parent.index());
        assert(self.root_at(parent.index()));
        before_range.lemma_extend(id);
        before_range.lemma_view();
        id.lemma_wf();
        parent.lemma_wf();
        assert forall|slot: usize| #[trigger] after.root_at(slot) implies after.children_at(slot).wf() by {
            if slot != parent.index() {
                assert(self.root_at(slot));
            }
        }
        assert forall|p: usize, c: usize| #[trigger] after.covers(p, c) implies after.child_at(c, p) by {
            if p == parent.index() {
                if c != id.index() {
                    assert(self.covers(p, c));
                }
            } else {
                assert(self.root_at(p));
                assert(self.covers(p, c));
            }
        }
        assert forall|c: usize| #[trigger] after.is_child_at(c) implies after.parent_at(c).wf()
            && after.covers(after.parent_at(c).index(), c) by {
            if c != id.index() {
                assert(self.is_child_at(c));
                assert(self.covers(self.parent_at(c).index(), c));
            }
        }
    }

    /// The state of a forest in the middle of a burst of children of one
    /// root that had none, after the first `n` of them: the root has the
    /// first `n` slots of the burst, each of those is its child, and nothing
    /// else has changed.
    pub proof fn lemma_burst_prefix(self, parent: Id<K>, burst: IdRange<K>, n: nat)
        requires
            self.wf(),
            parent.wf(),
            burst.wf(),
            n <= burst.len(),
            self.is_root(parent),
            self.children_at(parent.index()).len() == 0,
            forall|k: int| 0 <= k < burst@.len() ==> !self.contains(#[trigger] burst@[k]),
        ensures
            self.insert_burst(parent, burst@, n).wf(),
            self.insert_burst(parent, burst@, n).is_root(parent),
            n == 0 ==> self.insert_burst(parent, burst@, n) == self,
            n > 0 ==> {
                &&& self.insert_burst(parent, burst@, n).children_at(parent.index()).start()
                    == burst.start()
                &&& self.insert_burst(parent, burst@, n).children_at(parent.index()).len() == n
            },
            forall|slot: usize| #[trigger]
                self.insert_burst(parent, burst@, n).entries.contains_key(slot)
                    <==> self.entries.contains_key(slot) || burst.start() <= slot < burst.start() + n,
            forall|slot: usize|
                self.entries.contains_key(slot) && slot != parent.index() ==> #[trigger] self.insert_burst(
                    parent,
                    burst@,
                    n,
                ).entries[slot] == self.entries[slot],
            forall|slot: usize|
                burst.start() <= slot < burst.start() + n ==> #[trigger] self.insert_burst(
                    parent,
                    burst@,
                    n,
                ).entries[slot] == RangeRelation::ChildOf(parent),
        decreases n,
    {
        burst.lemma_view();
        if n > 0 {
            let before = self.insert_burst(parent, burst@, (n - 1) as nat);
            self.lemma_burst_prefix(parent, burst, (n - 1) as nat);
            let id = burst@[n - 1];
            assert(id.index() == burst.start() + n - 1);
            assert(!self.contains(id));
            assert(before.accepts_child(id, parent));
            before.lemma_insert_child_wf(id, parent);
            before.children_at(parent.index()).lemma_extend(id);
        }
    }

    /// A new root, followed by the identifiers
    /// of one burst as its children, one after another and with nothing in
    /// between: each of them is then looked up as a child of that root, and
    /// the root as the parent of exactly the range of the burst.
    pub proof fn lemma_burst(self, root: Id<K>, burst: IdRange<K>)
        requires
            self.wf(),
            root.wf(),
            burst.wf(),
            burst.len() > 0,
            !self.contains(root),
            forall|k: int| 0 <= k < burst@.len() ==> !self.contains(#[trigger] burst@[k]),
            forall|k: int| 0 <= k < burst@.len() ==> #[trigger] burst@[k] != root,
        ensures
            self.insert_parent(root).insert_burst(root, burst@, burst.len() as nat).wf(),
            self.insert_parent(root).insert_burst(root, burst@, burst.len() as nat).entries[root.index()]
                == RangeRelation::ParentOf(burst),
            forall|k: int|
                0 <= k < burst@.len() ==> #[trigger] self.insert_parent(root).insert_burst(
                    root,
                    burst@,
                    burst.len() as nat,
                ).entries[burst@[k].index()] == RangeRelation::ChildOf(root),
    {
        let rooted = self.insert_parent(root);
        let after = rooted.insert_burst(root, burst@, burst.len() as nat);
        self.lemma_insert_parent_wf(root);
        IdRange::<K>::lemma_empty();
        burst.lemma_view();
        root.lemma_wf();
        assert forall|k: int| 0 <= k < burst@.len() implies !rooted.contains(#[trigger] burst@[k]) by {
            burst@[k].lemma_wf();
        }
        rooted.lemma_burst_prefix(root, burst, burst.len() as nat);
        after.children_at(root.index()).lemma_same_slots(burst);
        assert forall|k: int| 0 <= k < burst@.len() implies #[trigger] after.entries[burst@[k].index()]
            == RangeRelation::ChildOf(root) by {
            assert(burst.start() <= burst@[k].index() < burst.start() + burst.len());
        }
    }
}

/// The relation store of the entities of kind `K`, range coded: a root
/// holds the one range of its children, a child holds its parent.
#[derive(Debug)]
pub struct RangeRelations<K> {
    entries: Component<K, RangeRelation<K>>,
}

impl<K> View for RangeRelations<K> {
    type V = RangeForest<K>;

    closed spec fn view(&self) -> RangeForest<K> {
        RangeForest { entries: self.entries@ }
    }
}

impl<K> Default for RangeRelations<K> {
    fn default() -> (store: Self)
        ensures
            store@ == RangeForest::<K>::empty(),
            store@.wf(),
    {
        RangeRelations::new()
    }
}

impl<K> RangeRelations<K> {
    /// The store without any entity.
    pub fn new() -> (store: Self)
        ensures
            store@ == RangeForest::<K>::empty(),
            store@.wf(),
    {
        RangeRelations { entries: Component::new() }
    }

    /// Whether `id` has a place in the forest.
    pub fn contains(&self, id: Id<K>) -> (present: bool)
        ensures
            present == self@.contains(id),
    {
        self.entries.contains(id)
    }

    /// Whether `id` is a root.
    pub fn is_root(&self, id: Id<K>) -> (root: bool)
        ensures
            root == self@.is_root(id),
    {
        match self.entries.get(id) {
            Some(RangeRelation::ParentOf(_)) => true,
            _ => false,
        }
    }

    /// Whether `id` can become a child of `parent` as things stand.
    pub fn accepts_child(&self, id: Id<K>, parent: Id<K>) -> (accepted: bool)
        ensures
            accepted == self@.accepts_child(id, parent),
    {
        if self.entries.contains(id) {
            return false;
        }
        match self.entries.get(parent) {
            Some(RangeRelation::ParentOf(range)) => range.is_empty() || id.index() == range.end(),
            _ => false,
        }
    }

    /// Marks `id` as a root that has no children yet.
    pub fn insert_parent(&mut self, id: Id<K>)
        requires
            old(self)@.wf(),
            !old(self)@.contains(id),
        ensures
            final(self)@ == old(self)@.insert_parent(id),
            final(self)@.wf(),
    {
        proof {
            old(self)@.lemma_insert_parent_wf(id);
        }
        self.entries.insert(id, RangeRelation::ParentOf(IdRange::empty()));
    }

    /// Marks `id` as a child of `parent`, and takes it in as the last of
    /// the children of `parent`.
    pub fn insert_child(&mut self, id: Id<K>, parent: Id<K>)
        requires
            old(self)@.wf(),
            old(self)@.accepts_child(id, parent),
        ensures
            final(self)@ == old(self)@.insert_child(id, parent),
            final(self)@.wf(),
    {
        proof {
            use_type_invariant(&id);
            use_type_invariant(&parent);
            old(self)@.lemma_insert_child_wf(id, parent);
        }
        self.entries.insert(id, RangeRelation::ChildOf(parent));
        match self.entries.get_mut(parent) {
            RangeRelation::ParentOf(children) => {
                children.extend(id);
            },
            RangeRelation::ChildOf(_) => {},
        }
    }

    /// The place of `id` in the forest. It must have one.
    pub fn lookup(&self, id: Id<K>) -> (relation: RangeRelation<K>)
        requires
            self@.contains(id),
        ensures
            relation == self@.entries[id.index()],
    {
        *self.entries.index(id)
    }

    /// The place of `id` in the forest, if it has one.
    pub fn get(&self, id: Id<K>) -> (relation: Option<RangeRelation<K>>)
        ensures
            relation == if self@.contains(id) {
                Some(self@.entries[id.index()])
            } else {
                None
            },
    {
        match self.entries.get(id) {
            Some(relation) => Some(*relation),
            None => None,
        }
    }

    /// The ordinal, from zero, of the root `id` among the roots of `range`:
    /// its position in what `parents` gives for that range.
    pub fn root_ordinal(&self, range: IdRange<K>, id: Id<K>) -> (ordinal: usize)
        requires
            range@.contains(id),
            self@.is_root(id),
        ensures
            ordinal == self@.roots_before(range@, id.index() - range.start()),
            ordinal < self@.roots_among(range@).len(),
            self@.roots_among(range@)[ordinal as int] == id,
    {
        let ghost is_root = |id: Id<K>| self@.is_root(id);
        let offset = match range.position(id) {
            Some(offset) => offset,
            None => 0,
        };
        let mut ordinal: usize = 0;
        let mut k: usize = 0;
        proof {
            use_type_invariant(&range);
            range.lemma_view();
            reveal(Seq::filter);
            assert(range@.take(0) =~= Seq::<Id<K>>::empty());
            self@.lemma_root_ordinal(range@, offset as int);
        }
        while k < offset
            invariant
                k <= offset < range.len(),
                range.len() == range@.len(),
                is_root == |id: Id<K>| self@.is_root(id),
                ordinal == range@.take(k as int).filter(is_root).len(),
                ordinal <= k,
            decreases offset - k,
        {
            let other = range.get(k);
            proof {
                reveal(Seq::filter);
                assert(range@.take(k + 1).drop_last() =~= range@.take(k as int));
                assert(range@.take(k + 1).last() == other);
            }
            if self.is_root(other) {
                ordinal = ordinal + 1;
            }
            k = k + 1;
        }
        ordinal
    }

    /// The roots among the identifiers of `range`, in the order of the range.
    pub fn parents(&self, range: IdRange<K>) -> (roots: Vec<Id<K>>)
        ensures
            roots@ == self@.roots_among(range@),
    {
        let ghost is_root = |id: Id<K>| self@.is_root(id);
        let mut roots: Vec<Id<K>> = Vec::new();
        let n = range.len();
        let mut k: usize = 0;
        proof {
            reveal(Seq::filter);
            assert(range@.take(0) =~= Seq::<Id<K>>::empty());
        }
        while k < n
            invariant
                k <= n,
                n == range.len(),
                n == range@.len(),
                is_root == |id: Id<K>| self@.is_root(id),
                roots@ == range@.take(k as int).filter(is_root),
            decreases n - k,
        {
            let id = range.get(k);
            proof {
                reveal(Seq::filter);
                assert(range@.take(k + 1).drop_last() =~= range@.take(k as int));
                assert(range@.take(k + 1).last() == id);
            }
            if self.is_root(id) {
                roots.push(id);
            }
            k = k + 1;
        }
        assert(range@.take(k as int) =~= range@);
        roots
    }
}

} // verus!

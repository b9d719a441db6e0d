//! The graph-coded relation store: a forest over one kind of entity in
//! which each parent keeps the list of its children. It asks nothing of the
//! slots of the children, and takes them in any order; the range-coded
//! store is the compact form for children that are created in one burst.

use crate::allocator::Id;
use crate::component::Component;
use vstd::prelude::*;

verus! {

/// The place of one entity in the forest.
#[derive(Debug, PartialEq, Eq)]
pub enum Relation<K> {
    /// A child, with its parent.
    ChildOf(Id<K>),
    /// A root, with its children in the order in which they were inserted.
    ParentOf(Vec<Id<K>>),
}

/// The place of one entity in the forest, as contracts speak of it.
pub enum RelationView<K> {
    ChildOf(Id<K>),
    ParentOf(Seq<Id<K>>),
}

impl<K> View for Relation<K> {
    type V = RelationView<K>;

    open spec fn view(&self) -> RelationView<K> {
        match self {
            Relation::ChildOf(parent) => RelationView::ChildOf(*parent),
            Relation::ParentOf(children) => RelationView::ParentOf(children@),
        }
    }
}

/// What a graph-coded relation store holds: the place in the forest of each
/// entity that has one, by its slot.
pub struct Forest<K> {
    pub entries: Map<usize, RelationView<K>>,
}

impl<K> Forest<K> {
    /// The forest without any entity.
    pub open spec fn empty() -> Self {
        Forest { entries: Map::empty() }
    }

    /// Whether `id` has a place in the forest.
    pub open spec fn contains(self, id: Id<K>) -> bool {
        self.entries.contains_key(id.index())
    }

    /// Whether the entity in slot `slot` is a root.
    pub open spec fn root_at(self, slot: usize) -> bool {
        self.entries.contains_key(slot) && self.entries[slot] is ParentOf
    }

    /// Whether `id` is a root.
    pub open spec fn is_root(self, id: Id<K>) -> bool {
        self.root_at(id.index())
    }

    /// The children of the root in slot `slot`.
    pub open spec fn children_at(self, slot: usize) -> Seq<Id<K>> {
        self.entries[slot]->ParentOf_0
    }

    /// Whether the entity in slot `slot` is a child.
    pub open spec fn is_child_at(self, slot: usize) -> bool {
        self.entries.contains_key(slot) && self.entries[slot] is ChildOf
    }

    /// The parent of the child in slot `slot`.
    pub open spec fn parent_at(self, slot: usize) -> Id<K> {
        self.entries[slot]->ChildOf_0
    }

    /// Whether the root in slot `parent` has at position `k` of its list a
    /// child.
    pub open spec fn lists(self, parent: usize, k: int) -> bool {
        self.root_at(parent) && 0 <= k < self.children_at(parent).len()
    }

    /// The entries form a forest of roots and their children, without a
    /// cycle: whoever is listed by a root is a child of that root, and a
    /// child is listed by its parent, which is a root and so has no parent
    /// of its own.
    pub open spec fn wf(self) -> bool {
        &&& forall|parent: usize, k: int| #[trigger]
            self.lists(parent, k) ==> {
                let child = self.children_at(parent)[k];
                &&& child.wf()
                &&& self.is_child_at(child.index())
                &&& self.parent_at(child.index()).index() == parent
            }
        &&& forall|child: usize| #[trigger]
            self.is_child_at(child) ==> {
                let parent = self.parent_at(child);
                &&& parent.wf()
                &&& self.root_at(parent.index())
                &&& self.children_at(parent.index()).contains(Id::<K>::at(child as int))
            }
    }

    /// The forest with `id` as a new root without children.
    pub open spec fn insert_parent(self, id: Id<K>) -> Self {
        Forest { entries: self.entries.insert(id.index(), RelationView::ParentOf(Seq::empty())) }
    }

    /// Whether `id` can become a child of `parent`: it has no place yet, and
    /// `parent` is a root.
    pub open spec fn accepts_child(self, id: Id<K>, parent: Id<K>) -> bool {
        !self.contains(id) && self.is_root(parent)
    }

    /// The forest with `id` as the new last child of `parent`.
    pub open spec fn insert_child(self, id: Id<K>, parent: Id<K>) -> Self {
        Forest {
            entries: self.entries.insert(id.index(), RelationView::ChildOf(parent)).insert(
                parent.index(),
                RelationView::ParentOf(self.children_at(parent.index()).push(id)),
            ),
        }
    }

    /// A new root leaves the forest a forest.
    pub proof fn lemma_insert_parent_wf(self, id: Id<K>)
        requires
            self.wf(),
            !self.contains(id),
        ensures
            self.insert_parent(id).wf(),
    {
        let after = self.insert_parent(id);
        assert forall|parent: usize, k: int| #[trigger] after.lists(parent, k) implies {
            let child = after.children_at(parent)[k];
            &&& child.wf()
            &&& after.is_child_at(child.index())
            &&& after.parent_at(child.index()).index() == parent
        } by {
            assert(self.lists(parent, k));
        }
        assert forall|child: usize| #[trigger] after.is_child_at(child) implies {
            let parent = after.parent_at(child);
            &&& parent.wf()
            &&& after.root_at(parent.index())
            &&& after.children_at(parent.index()).contains(Id::<K>::at(child as int))
        } by {
            assert(self.is_child_at(child));
        }
    }

    /// A child that the forest accepts leaves it a forest.
    pub proof fn lemma_insert_child_wf(self, id: Id<K>, parent: Id<K>)
        requires
            self.wf(),
            id.wf(),
            parent.wf(),
            self.accepts_child(id, parent),
        ensures
            self.insert_child(id, parent).wf(),
    {
        let after = self.insert_child(id, parent);
        let before_list = self.children_at(parent.index());
        let after_list = before_list.push(id);
        id.lemma_wf();
        parent.lemma_wf();
        assert forall|p: usize, k: int| #[trigger] after.lists(p, k) implies {
            let child = after.children_at(p)[k];
            &&& child.wf()
            &&& after.is_child_at(child.index())
            &&& after.parent_at(child.index()).index() == p
        } by {
            if p == parent.index() {
                if k < before_list.len() {
                    assert(self.lists(p, k));
                }
            } else {
                assert(self.lists(p, k));
            }
        }
        assert forall|c: usize| #[trigger] after.is_child_at(c) implies {
            let p = after.parent_at(c);
            &&& p.wf()
            &&& after.root_at(p.index())
            &&& after.children_at(p.index()).contains(Id::<K>::at(c as int))
        } by {
            if c == id.index() {
                assert(after_list[before_list.len() as int] == id);
            } else {
                assert(self.is_child_at(c));
                let p = self.parent_at(c);
                if p.index() == parent.index() {
                    let k = before_list.index_of(Id::<K>::at(c as int));
                    assert(after_list[k] == Id::<K>::at(c as int));
                }
            }
        }
    }

    /// The children of two roots can be
    /// inserted in either order: the forest is the same.
    pub proof fn lemma_children_of_two_roots_commute(self, a: Id<K>, p: Id<K>, b: Id<K>, q: Id<K>)
        requires
            self.is_root(p),
            self.is_root(q),
            p.index() != q.index(),
            a.index() != b.index(),
            !self.contains(a),
            !self.contains(b),
        ensures
            self.insert_child(a, p).insert_child(b, q) == self.insert_child(b, q).insert_child(a, p),
    {
        assert(self.insert_child(a, p).insert_child(b, q).entries =~= self.insert_child(b, q).insert_child(
            a,
            p,
        ).entries);
    }
}

/// The relation store of the entities of kind `K`, graph coded: a root
/// holds the list of its children, a child holds its parent.
#[derive(Debug)]
pub struct Relations<K> {
    entries: Component<K, Relation<K>>,
}

impl<K> View for Relations<K> {
    type V = Forest<K>;

    closed spec fn view(&self) -> Forest<K> {
        Forest { entries: self.entries@.map_values(|relation: Relation<K>| relation@) }
    }
}

impl<K> Default for Relations<K> {
    fn default() -> (store: Self)
        ensures
            store@ == Forest::<K>::empty(),
            store@.wf(),
    {
        Relations::new()
    }
}

impl<K> Relations<K> {
    /// The store without any entity.
    pub fn new() -> (store: Self)
        ensures
            store@ == Forest::<K>::empty(),
            store@.wf(),
    {
        let store = Relations { entries: Component::new() };
        assert(store@.entries =~= Forest::<K>::empty().entries);
        store
    }

    /// Whether `id` has a place in the forest.
    pub fn contains(&self, id: Id<K>) -> (present: bool)
        ensures
            present == self@.contains(id),
    {
        self.entries.contains(id)
    }

    /// Whether `id` is a root.
    pub fn is_root(&self, id: Id<K>) -> (root: bool)
        ensures
            root == self@.is_root(id),
    {
        match self.entries.get(id) {
            Some(Relation::ParentOf(_)) => true,
            _ => false,
        }
    }

    /// Whether `id` can become a child of `parent` as things stand.
    pub fn accepts_child(&self, id: Id<K>, parent: Id<K>) -> (accepted: bool)
        ensures
            accepted == self@.accepts_child(id, parent),
    {
        !self.entries.contains(id) && self.is_root(parent)
    }

    /// Marks `id` as a root that has no children yet.
    pub fn insert_parent(&mut self, id: Id<K>)
        requires
            old(self)@.wf(),
            !old(self)@.contains(id),
        ensures
            final(self)@ == old(self)@.insert_parent(id),
            final(self)@.wf(),
    {
        proof {
            old(self)@.lemma_insert_parent_wf(id);
        }
        self.entries.insert(id, Relation::ParentOf(Vec::new()));
        assert(self@.entries =~= old(self)@.insert_parent(id).entries);
    }

    /// Marks `id` as a child of `parent`, and appends it to the children of
    /// `parent`.
    pub fn insert_child(&mut self, id: Id<K>, parent: Id<K>)
        requires
            old(self)@.wf(),
            old(self)@.accepts_child(id, parent),
        ensures
            final(self)@ == old(self)@.insert_child(id, parent),
            final(self)@.wf(),
    {
        proof {
            use_type_invariant(&id);
            use_type_invariant(&parent);
            old(self)@.lemma_insert_child_wf(id, parent);
        }
        self.entries.insert(id, Relation::ChildOf(parent));
        match self.entries.get_mut(parent) {
            Relation::ParentOf(children) => {
                children.push(id);
            },
            Relation::ChildOf(_) => {},
        }
        assert(self@.entries =~= old(self)@.insert_child(id, parent).entries);
    }

    /// The place of `id` in the forest. It must have one.
    pub fn lookup(&self, id: Id<K>) -> (relation: &Relation<K>)
        requires
            self@.contains(id),
        ensures
            relation@ == self@.entries[id.index()],
    {
        self.entries.index(id)
    }

    /// The place of `id` in the forest, if it has one.
    pub fn get(&self, id: Id<K>) -> (relation: Option<&Relation<K>>)
        ensures
            relation is Some <==> self@.contains(id),
            relation matches Some(found) ==> found@ == self@.entries[id.index()],
    {
        self.entries.get(id)
    }
}

} // verus!

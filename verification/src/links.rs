//! One-to-many links between two kinds of entity, kept as one contiguous
//! range of owned identifiers for each owner.

use crate::allocator::{Id, IdRange};
use crate::component::Component;
use vstd::prelude::*;

verus! {

/// What a link map holds: for each owner that owns anything, by its slot,
/// the range that it owns; and for each owned entity, by its slot, its owner.
pub struct LinksView<W, O> {
    pub by_owner: Map<usize, IdRange<O>>,
    pub by_owned: Map<usize, Id<W>>,
}

impl<W, O> LinksView<W, O> {
    /// The map without any link.
    pub open spec fn empty() -> Self {
        LinksView { by_owner: Map::empty(), by_owned: Map::empty() }
    }

    /// Whether the owner in slot `owner` has the entity in slot `owned` in
    /// its range.
    pub open spec fn covers(self, owner: usize, owned: usize) -> bool {
        &&& self.by_owner.contains_key(owner)
        &&& self.by_owner[owner].start() <= owned < self.by_owner[owner].spec_end()
    }

    /// The two directions agree: what lies in the range of an owner names
    /// that owner as its own, and what names an owner lies in its range. No
    /// range is empty.
    pub open spec fn wf(self) -> bool {
        &&& forall|owner: usize| #[trigger]
            self.by_owner.contains_key(owner) ==> self.by_owner[owner].wf()
                && self.by_owner[owner].len() > 0
        &&& forall|owner: usize, owned: usize| #[trigger]
            self.covers(owner, owned) ==> self.by_owned.contains_key(owned)
                && self.by_owned[owned].index() == owner
        &&& forall|owned: usize| #[trigger]
            self.by_owned.contains_key(owned) ==> self.by_owned[owned].wf() && self.covers(
                self.by_owned[owned].index(),
                owned,
            )
    }

    /// The range that `owner` owns, empty where it owns nothing.
    pub open spec fn range_of(self, owner: Id<W>) -> IdRange<O> {
        if self.by_owner.contains_key(owner.index()) {
            self.by_owner[owner.index()]
        } else {
            IdRange::spec_empty()
        }
    }

    /// Whether `owned` can be linked to `owner`: it has no owner yet, and it
    /// sits in the slot that follows the range of `owner`, unless `owner`
    /// owns nothing so far.
    pub open spec fn accepts(self, owner: Id<W>, owned: Id<O>) -> bool {
        &&& !self.by_owned.contains_key(owned.index())
        &&& self.by_owner.contains_key(owner.index()) ==> owned.index() == self.by_owner[owner.index()].spec_end()
    }

    /// The map with `owned` linked to `owner`.
    pub open spec fn link(self, owner: Id<W>, owned: Id<O>) -> Self {
        LinksView {
            by_owner: self.by_owner.insert(owner.index(), self.range_of(owner).spec_extend(owned)),
            by_owned: self.by_owned.insert(owned.index(), owner),
        }
    }

    /// The map with the first `n` of `burst` linked to `owner`, one after
    /// another and in order.
    pub open spec fn link_burst(self, owner: Id<W>, burst: Seq<Id<O>>, n: nat) -> Self
        decreases n,
    {
        if n == 0 {
            self
        } else {
            self.link_burst(owner, burst, (n - 1) as nat).link(owner, burst[n - 1])
        }
    }

    /// A link that the map accepts leaves the two directions in agreement.
    pub proof fn lemma_link_wf(self, owner: Id<W>, owned: Id<O>)
        requires
            self.wf(),
            owner.wf(),
            owned.wf(),
            self.accepts(owner, owned),
        ensures
            self.link(owner, owned).wf(),
            self.link(owner, owned).range_of(owner)@ == self.range_of(owner)@.push(owned),
    {
        let after = self.link(owner, owned);
        let before_range = self.range_of(owner);
        IdRange::<O>::lemma_empty();
        before_range.lemma_extend(owned);
        before_range.lemma_view();
        owner.lemma_wf();
        owned.lemma_wf();
        assert forall|w: usize, o: usize| #[trigger] after.covers(w, o) implies after.by_owned.contains_key(
            o,
        ) && after.by_owned[o].index() == w by {
            if w == owner.index() {
                if o != owned.index() {
                    assert(self.covers(w, o));
                }
            } else {
                assert(self.covers(w, o));
            }
        }
        assert forall|o: usize| #[trigger] after.by_owned.contains_key(o) implies after.by_owned[o].wf()
            && after.covers(after.by_owned[o].index(), o) by {
            if o != owned.index() {
                assert(self.covers(self.by_owned[o].index(), o));
            }
        }
    }

    /// Linking the identifiers of one burst to an
    /// owner that owned nothing, one after another and with no other link in
    /// between, leaves that owner with exactly the range of the burst, and
    /// each identifier of the burst with that owner.
    pub proof fn lemma_burst(self, owner: Id<W>, burst: IdRange<O>)
        requires
            self.wf(),
            owner.wf(),
            burst.wf(),
            burst.len() > 0,
            !self.by_owner.contains_key(owner.index()),
            forall|k: int| 0 <= k < burst@.len() ==> !self.by_owned.contains_key(#[trigger] burst@[k].index()),
        ensures
            self.link_burst(owner, burst@, burst.len() as nat).wf(),
            self.link_burst(owner, burst@, burst.len() as nat).by_owner.contains_key(owner.index()),
            self.link_burst(owner, burst@, burst.len() as nat).by_owner[owner.index()] == burst,
            forall|k: int|
                0 <= k < burst@.len() ==> {
                    &&& self.link_burst(owner, burst@, burst.len() as nat).by_owned.contains_key(
                        #[trigger] burst@[k].index(),
                    )
                    &&& self.link_burst(owner, burst@, burst.len() as nat).by_owned[burst@[k].index()]
                        == owner
                },
    {
        burst.lemma_view();
        self.lemma_burst_prefix(owner, burst, burst.len() as nat);
        let after = self.link_burst(owner, burst@, burst.len() as nat);
        after.by_owner[owner.index()].lemma_same_slots(burst);
        assert forall|k: int| 0 <= k < burst@.len() implies after.by_owned.contains_key(
            #[trigger] burst@[k].index(),
        ) && after.by_owned[burst@[k].index()] == owner by {
            assert(burst.start() <= burst@[k].index() < burst.start() + burst.len());
        }
    }

    /// The state of a link map in the middle of such a burst, after the
    /// first `n` links: the owner has the first `n` slots of the burst, and
    /// nothing else has changed.
    pub proof fn lemma_burst_prefix(self, owner: Id<W>, burst: IdRange<O>, n: nat)
        requires
            self.wf(),
            owner.wf(),
            burst.wf(),
            n <= burst.len(),
            !self.by_owner.contains_key(owner.index()),
            forall|k: int| 0 <= k < burst@.len() ==> !self.by_owned.contains_key(#[trigger] burst@[k].index()),
        ensures
            self.link_burst(owner, burst@, n).wf(),
            n == 0 ==> self.link_burst(owner, burst@, n) == self,
            n > 0 ==> {
                &&& self.link_burst(owner, burst@, n).by_owner.contains_key(owner.index())
                &&& self.link_burst(owner, burst@, n).by_owner[owner.index()].start() == burst.start()
                &&& self.link_burst(owner, burst@, n).by_owner[owner.index()].len() == n
            },
            forall|w: usize|
                w != owner.index() ==> (#[trigger] self.link_burst(owner, burst@, n).by_owner.contains_key(w)
                    <==> self.by_owner.contains_key(w)),
            forall|w: usize|
                w != owner.index() && self.by_owner.contains_key(w) ==> #[trigger] self.link_burst(
                    owner,
                    burst@,
                    n,
                ).by_owner[w] == self.by_owner[w],
            forall|o: usize| #[trigger]
                self.link_burst(owner, burst@, n).by_owned.contains_key(o) <==> self.by_owned.contains_key(o)
                    || burst.start() <= o < burst.start() + n,
            forall|o: usize|
                self.by_owned.contains_key(o) ==> #[trigger] self.link_burst(owner, burst@, n).by_owned[o]
                    == self.by_owned[o],
            forall|o: usize|
                burst.start() <= o < burst.start() + n ==> #[trigger] self.link_burst(
                    owner,
                    burst@,
                    n,
                ).by_owned[o] == owner,
        decreases n,
    {
        burst.lemma_view();
        if n > 0 {
            let before = self.link_burst(owner, burst@, (n - 1) as nat);
            self.lemma_burst_prefix(owner, burst, (n - 1) as nat);
            let owned = burst@[n - 1];
            assert(owned.index() == burst.start() + n - 1);
            assert(!self.by_owned.contains_key(owned.index()));
            assert(before.accepts(owner, owned));
            before.lemma_link_wf(owner, owned);
            IdRange::<O>::lemma_empty();
            before.range_of(owner).lemma_extend(owned);
        }
    }
}

/// The links from owners of kind `W` to what they own of kind `O`, in both
/// directions. Everything that one owner owns lies in consecutive slots, and
/// is linked to it slot after slot.
#[derive(Debug)]
pub struct OwnerRangeLinks<W, O> {
    targets: Component<W, IdRange<O>>,
    source: Component<O, Id<W>>,
}

impl<W, O> View for OwnerRangeLinks<W, O> {
    type V = LinksView<W, O>;

    closed spec fn view(&self) -> LinksView<W, O> {
        LinksView { by_owner: self.targets@, by_owned: self.source@ }
    }
}

impl<W, O> Default for OwnerRangeLinks<W, O> {
    fn default() -> (links: Self)
        ensures
            links@ == LinksView::<W, O>::empty(),
            links@.wf(),
    {
        OwnerRangeLinks::new()
    }
}

impl<W, O> OwnerRangeLinks<W, O> {
    /// The map without any link.
    pub fn new() -> (links: Self)
        ensures
            links@ == LinksView::<W, O>::empty(),
            links@.wf(),
    {
        OwnerRangeLinks { targets: Component::new(), source: Component::new() }
    }

    /// Whether `owner` owns anything.
    pub fn has_owned(&self, owner: Id<W>) -> (seen: bool)
        ensures
            seen == self@.by_owner.contains_key(owner.index()),
    {
        self.targets.contains(owner)
    }

    /// Whether `owned` has an owner.
    pub fn has_owner(&self, owned: Id<O>) -> (linked: bool)
        ensures
            linked == self@.by_owned.contains_key(owned.index()),
    {
        self.source.contains(owned)
    }

    /// Whether `owned` can be linked to `owner` as things stand.
    pub fn accepts(&self, owner: Id<W>, owned: Id<O>) -> (accepted: bool)
        ensures
            accepted == self@.accepts(owner, owned),
    {
        if self.source.contains(owned) {
            false
        } else if self.targets.contains(owner) {
            owned.index() == self.targets.index(owner).end()
        } else {
            true
        }
    }

    /// Links `owned` to `owner`: the first link of an owner starts its
    /// range, each later one extends that range by the next slot.
    pub fn link(&mut self, owner: Id<W>, owned: Id<O>)
        requires
            old(self)@.wf(),
            old(self)@.accepts(owner, owned),
        ensures
            final(self)@ == old(self)@.link(owner, owned),
            final(self)@.wf(),
    {
        proof {
            use_type_invariant(&owner);
            use_type_invariant(&owned);
            old(self)@.lemma_link_wf(owner, owned);
            IdRange::<O>::lemma_empty();
            old(self)@.range_of(owner).lemma_extend(owned);
        }
        self.source.insert(owned, owner);
        if self.targets.contains(owner) {
            self.targets.get_mut(owner).extend(owned);
        } else {
            self.targets.insert(owner, IdRange::single(owned));
        }
    }

    /// Links the identifiers of `burst` to `owner`, one after another and in
    /// order. The owner owns nothing before, and exactly `burst` after; an
    /// empty burst leaves it without a range.
    pub fn link_range(&mut self, owner: Id<W>, burst: IdRange<O>)
        requires
            old(self)@.wf(),
            !old(self)@.by_owner.contains_key(owner.index()),
            forall|slot: usize|
                burst.start() <= slot < burst.spec_end() ==> !old(self)@.by_owned.contains_key(slot),
        ensures
            final(self)@ == old(self)@.link_burst(owner, burst@, burst.len() as nat),
            final(self)@.wf(),
            burst.len() > 0 ==> final(self)@.by_owner == old(self)@.by_owner.insert(owner.index(), burst),
            burst.len() == 0 ==> final(self)@.by_owner == old(self)@.by_owner,
            forall|slot: usize| #[trigger]
                final(self)@.by_owned.contains_key(slot) <==> old(self)@.by_owned.contains_key(slot)
                    || burst.start() <= slot < burst.spec_end(),
            forall|slot: usize|
                old(self)@.by_owned.contains_key(slot) ==> #[trigger] final(self)@.by_owned[slot]
                    == old(self)@.by_owned[slot],
            forall|slot: usize|
                burst.start() <= slot < burst.spec_end() ==> #[trigger] final(self)@.by_owned[slot]
                    == owner,
    {
        let n = burst.len();
        let mut k: usize = 0;
        proof {
            use_type_invariant(&owner);
            use_type_invariant(&burst);
            burst.lemma_view();
        }
        while k < n
            invariant
                k <= n,
                n == burst.len(),
                owner.wf(),
                burst.wf(),
                old(self)@.wf(),
                !old(self)@.by_owner.contains_key(owner.index()),
                forall|j: int|
                    0 <= j < burst@.len() ==> !old(self)@.by_owned.contains_key(#[trigger] burst@[j].index()),
                self@ == old(self)@.link_burst(owner, burst@, k as nat),
            decreases n - k,
        {
            let owned = burst.get(k);
            proof {
                old(self)@.lemma_burst_prefix(owner, burst, k as nat);
                burst.lemma_view();
            }
            self.link(owner, owned);
            k = k + 1;
        }
        proof {
            let after = old(self)@.link_burst(owner, burst@, n as nat);
            old(self)@.lemma_burst_prefix(owner, burst, n as nat);
            if n > 0 {
                after.by_owner[owner.index()].lemma_same_slots(burst);
                assert(after.by_owner =~= old(self)@.by_owner.insert(owner.index(), burst));
            } else {
                assert(after.by_owner =~= old(self)@.by_owner);
            }
        }
    }

    /// The range that `owner` owns. It must own something.
    pub fn lookup_by_owner(&self, owner: Id<W>) -> (range: IdRange<O>)
        requires
            self@.by_owner.contains_key(owner.index()),
        ensures
            range == self@.by_owner[owner.index()],
    {
        *self.targets.index(owner)
    }

    /// The owner of `owned`. It must have one.
    pub fn lookup_by_owned(&self, owned: Id<O>) -> (owner: Id<W>)
        requires
            self@.by_owned.contains_key(owned.index()),
        ensures
            owner == self@.by_owned[owned.index()],
    {
        *self.source.index(owned)
    }
}

} // verus!

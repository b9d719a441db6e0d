//! Generation-tagged identifiers, contiguous ranges of them, and the
//! allocator that issues both.

use core::cmp::Ordering;
use core::marker::PhantomData;
use vstd::prelude::*;
use vstd::std_specs::cmp::{PartialEqSpec, PartialEqSpecImpl, PartialOrdSpec, PartialOrdSpecImpl};

verus! {

/// The generation of a slot that has never been reused. No slot is ever
/// recycled here, so every identifier in circulation carries it.
pub const FIRST_GENERATION: u32 = 0;

/// The identifier of one entity of kind `K`: a slot number and the
/// generation of that slot. It carries no payload.
#[derive(Debug, Ord, Hash)]
pub struct Id<K> {
    index: usize,
    generation: u32,
    kind: PhantomData<K>,
}

impl<K> Clone for Id<K> {
    fn clone(&self) -> (copy: Self)
        ensures
            copy == *self,
    {
        *self
    }
}

impl<K> Copy for Id<K> {

}

impl<K> PartialEq for Id<K> {
    fn eq(&self, other: &Self) -> (equal: bool) {
        self.index == other.index && self.generation == other.generation
    }
}

impl<K> Eq for Id<K> {

}

/// Two identifiers of one kind are equal if they have the same slot in the
/// same generation.
impl<K> PartialEqSpecImpl for Id<K> {
    open spec fn obeys_eq_spec() -> bool {
        true
    }

    open spec fn eq_spec(&self, other: &Self) -> bool {
        self.index() == other.index() && self.generation() == other.generation()
    }
}

impl<K> PartialOrd for Id<K> {
    fn partial_cmp(&self, other: &Self) -> (order: Option<Ordering>) {
        if self.index < other.index {
            Some(Ordering::Less)
        } else if self.index > other.index {
            Some(Ordering::Greater)
        } else if self.generation < other.generation {
            Some(Ordering::Less)
        } else if self.generation > other.generation {
            Some(Ordering::Greater)
        } else {
            Some(Ordering::Equal)
        }
    }
}

/// The identifiers of one kind are in the order of their slots, and within
/// one slot in the order of its generations.
impl<K> PartialOrdSpecImpl for Id<K> {
    open spec fn obeys_partial_cmp_spec() -> bool {
        true
    }

    open spec fn partial_cmp_spec(&self, other: &Self) -> Option<Ordering> {
        if self.index() < other.index() {
            Some(Ordering::Less)
        } else if self.index() > other.index() {
            Some(Ordering::Greater)
        } else if self.generation() < other.generation() {
            Some(Ordering::Less)
        } else if self.generation() > other.generation() {
            Some(Ordering::Greater)
        } else {
            Some(Ordering::Equal)
        }
    }
}

impl<K> Id<K> {
    /// What holds of every identifier in circulation: its slot number leaves
    /// room for a table one slot longer, and its slot was never reused.
    #[verifier::type_invariant]
    pub closed spec fn wf(self) -> bool {
        self.index < usize::MAX && self.generation == FIRST_GENERATION
    }

    /// The identifier of the first generation in slot `index`.
    pub closed spec fn at(index: int) -> Id<K> {
        Id { index: index as usize, generation: FIRST_GENERATION, kind: PhantomData }
    }

    /// The slot number, as contracts speak of it.
    pub closed spec fn spec_index(self) -> usize {
        self.index
    }

    /// The slot number.
    #[verifier::when_used_as_spec(spec_index)]
    pub fn index(self) -> (slot: usize)
        ensures
            slot == self.index(),
            slot < usize::MAX,
            self == Id::<K>::at(slot as int),
    {
        proof {
            use_type_invariant(&self);
        }
        self.index
    }

    /// The generation of the slot, as contracts speak of it.
    pub closed spec fn spec_generation(self) -> u32 {
        self.generation
    }

    /// The generation of the slot.
    #[verifier::when_used_as_spec(spec_generation)]
    pub fn generation(self) -> (generation: u32)
        ensures
            generation == self.generation(),
            generation == FIRST_GENERATION,
    {
        proof {
            use_type_invariant(&self);
        }
        self.generation
    }

    /// Whether two identifiers name the same entity.
    pub fn same(self, other: Id<K>) -> (same: bool)
        ensures
            same == (self == other),
            same == (self.index() == other.index()),
    {
        proof {
            use_type_invariant(&self);
            use_type_invariant(&other);
        }
        self.index == other.index
    }

    /// The identifiers in circulation of one kind are
    /// in the order of their slots, each before, after or equal to each
    /// other, and two of them are equal only if they have one slot.
    pub proof fn lemma_ordered_by_slot(self, other: Id<K>)
        requires
            self.wf(),
            other.wf(),
        ensures
            PartialEqSpec::eq_spec(&self, &other) <==> self == other,
            self == other <==> self.index() == other.index(),
            PartialOrdSpec::partial_cmp_spec(&self, &other) == Some(Ordering::Less) <==> self.index()
                < other.index(),
            PartialOrdSpec::partial_cmp_spec(&self, &other) == Some(Ordering::Equal) <==> self.index()
                == other.index(),
            PartialOrdSpec::partial_cmp_spec(&self, &other) == Some(Ordering::Greater) <==> self.index()
                > other.index(),
    {
    }

    /// A well-formed identifier is the first-generation identifier of its slot.
    pub proof fn lemma_wf(self)
        requires
            self.wf(),
        ensures
            self.index() < usize::MAX,
            self.generation() == FIRST_GENERATION,
            self == Id::<K>::at(self.index() as int),
    {
    }

    /// The first-generation identifier of a slot below the last is well
    /// formed and sits in that slot.
    pub proof fn lemma_at(index: int)
        requires
            0 <= index < usize::MAX,
        ensures
            Id::<K>::at(index).wf(),
            Id::<K>::at(index).index() == index,
            Id::<K>::at(index).generation() == FIRST_GENERATION,
    {
    }
}

/// A run of identifiers of kind `K` in consecutive slots: the compact
/// stand-in for what one bulk request issued.
#[derive(Debug, PartialEq, Eq, Hash)]
pub struct IdRange<K> {
    start: usize,
    len: usize,
    kind: PhantomData<K>,
}

impl<K> Clone for IdRange<K> {
    fn clone(&self) -> (copy: Self)
        ensures
            copy == *self,
    {
        *self
    }
}

impl<K> Copy for IdRange<K> {

}

impl<K> View for IdRange<K> {
    type V = Seq<Id<K>>;

    /// The identifiers of the range, in the order in which they were issued.
    closed spec fn view(&self) -> Seq<Id<K>> {
        Seq::new(self.len as nat, |k: int| Id::<K>::at(self.start + k))
    }
}

impl<K> IdRange<K> {
    /// What holds of every range in circulation: its last slot is a slot
    /// that an identifier can have.
    #[verifier::type_invariant]
    pub closed spec fn wf(self) -> bool {
        self.start + self.len <= usize::MAX
    }

    /// The slot of the first identifier, as contracts speak of it.
    pub closed spec fn spec_start(self) -> usize {
        self.start
    }

    /// How many identifiers the range holds, as contracts speak of it.
    pub closed spec fn spec_len(self) -> usize {
        self.len
    }

    /// The slot that follows the last slot of the range.
    pub open spec fn spec_end(self) -> int {
        self.start() + self.len()
    }

    /// The range that holds nothing.
    pub closed spec fn spec_empty() -> Self {
        IdRange { start: 0, len: 0, kind: PhantomData }
    }

    /// The range that holds `id` alone.
    pub closed spec fn spec_single(id: Id<K>) -> Self {
        IdRange { start: id.index, len: 1, kind: PhantomData }
    }

    /// The range with `id` taken in as its last: it starts at `id` if it was
    /// empty, and is one longer otherwise.
    pub closed spec fn spec_extend(self, id: Id<K>) -> Self {
        if self.len == 0 {
            Self::spec_single(id)
        } else {
            IdRange { start: self.start, len: (self.len + 1) as usize, kind: PhantomData }
        }
    }

    /// A range is its first slot and its length, and nothing else.
    pub proof fn lemma_same_slots(self, other: Self)
        requires
            self.start() == other.start(),
            self.len() == other.len(),
        ensures
            self == other,
    {
    }

    /// The empty range is well formed and holds nothing.
    pub proof fn lemma_empty()
        ensures
            Self::spec_empty().wf(),
            Self::spec_empty().len() == 0,
            Self::spec_empty()@ == Seq::<Id<K>>::empty(),
    {
        assert(Self::spec_empty()@ =~= Seq::<Id<K>>::empty());
    }

    /// What taking in the identifier of the next slot does to a range.
    pub proof fn lemma_extend(self, id: Id<K>)
        requires
            self.wf(),
            id.wf(),
            self.len() == 0 || id.index() == self.spec_end(),
        ensures
            self.spec_extend(id).wf(),
            self.spec_extend(id)@ == self@.push(id),
            self.spec_extend(id).len() == self.len() + 1,
            self.len() > 0 ==> self.spec_extend(id).start() == self.start(),
            self.len() == 0 ==> self.spec_extend(id) == Self::spec_single(id),
            Self::spec_single(id).start() == id.index(),
            Self::spec_single(id).len() == 1,
    {
        assert(self.spec_extend(id)@ =~= self@.push(id));
    }

    /// What the view of a well-formed range holds: one identifier for each
    /// slot from the first on, each of them well formed.
    pub proof fn lemma_view(self)
        requires
            self.wf(),
        ensures
            self.spec_end() <= usize::MAX,
            self@.len() == self.len(),
            forall|k: int|
                0 <= k < self.len() ==> #[trigger] self@[k] == Id::<K>::at(self.start() + k),
            forall|k: int| 0 <= k < self.len() ==> (#[trigger] self@[k]).index() == self.start() + k,
            forall|k: int| 0 <= k < self.len() ==> (#[trigger] self@[k]).wf(),
            forall|id: Id<K>|
                self@.contains(id) <==> id.wf() && self.start() <= id.index() < self.spec_end(),
    {
        assert forall|id: Id<K>|
            self@.contains(id) <==> id.wf() && self.start() <= id.index() < self.spec_end() by {
            if id.wf() && self.start() <= id.index() < self.spec_end() {
                assert(self@[id.index() - self.start()] == id);
            }
        }
    }

    /// The range that holds nothing.
    pub fn empty() -> (range: Self)
        ensures
            range == Self::spec_empty(),
            range@ == Seq::<Id<K>>::empty(),
            range.len() == 0,
    {
        proof {
            Self::lemma_empty();
        }
        IdRange { start: 0, len: 0, kind: PhantomData }
    }

    /// The range that holds `id` alone.
    pub fn single(id: Id<K>) -> (range: Self)
        ensures
            range == Self::spec_single(id),
            range@ == seq![id],
            range.start() == id.index(),
            range.len() == 1,
    {
        proof {
            use_type_invariant(&id);
            assert(Self::spec_single(id)@ =~= seq![id]);
        }
        IdRange { start: id.index, len: 1, kind: PhantomData }
    }

    /// The slot of the first identifier.
    #[verifier::when_used_as_spec(spec_start)]
    pub fn start(self) -> (start: usize)
        ensures
            start == self.start(),
    {
        self.start
    }

    /// How many identifiers the range holds.
    #[verifier::when_used_as_spec(spec_len)]
    pub fn len(self) -> (len: usize)
        ensures
            len == self.len(),
            len == self@.len(),
    {
        self.len
    }

    /// Whether the range holds nothing.
    pub fn is_empty(self) -> (empty: bool)
        ensures
            empty == (self.len() == 0),
            empty == (self@.len() == 0),
    {
        self.len == 0
    }

    /// The slot that follows the last slot of the range.
    pub fn end(self) -> (end: usize)
        ensures
            end == self.spec_end(),
    {
        proof {
            use_type_invariant(&self);
        }
        self.start + self.len
    }

    /// The identifier at offset `k`.
    pub fn get(self, k: usize) -> (id: Id<K>)
        requires
            k < self.len(),
        ensures
            id == self@[k as int],
            id.index() == self.start() + k,
    {
        proof {
            use_type_invariant(&self);
        }
        Id { index: self.start + k, generation: FIRST_GENERATION, kind: PhantomData }
    }

    /// Whether `id` is one of the range.
    pub fn contains(self, id: Id<K>) -> (found: bool)
        ensures
            found == self@.contains(id),
            found == (self.start() <= id.index() < self.spec_end()),
    {
        proof {
            use_type_invariant(&self);
            use_type_invariant(&id);
            self.lemma_view();
        }
        self.start <= id.index && id.index - self.start < self.len
    }

    /// The offset of `id` in the range, if it is one of the range.
    pub fn position(self, id: Id<K>) -> (offset: Option<usize>)
        ensures
            offset is Some <==> self@.contains(id),
            offset matches Some(k) ==> k < self.len() && self@[k as int] == id && k == id.index()
                - self.start(),
    {
        proof {
            use_type_invariant(&self);
            use_type_invariant(&id);
            self.lemma_view();
        }
        if self.start <= id.index && id.index - self.start < self.len {
            Some(id.index - self.start)
        } else {
            None
        }
    }

    /// Takes `id` in as the last of the range. It must sit in the slot that
    /// follows the range, unless the range is empty.
    pub fn extend(&mut self, id: Id<K>)
        requires
            old(self).len() == 0 || id.index() == old(self).spec_end(),
        ensures
            *final(self) == old(self).spec_extend(id),
            final(self)@ == old(self)@.push(id),
            final(self).len() == old(self).len() + 1,
            old(self).len() > 0 ==> final(self).start() == old(self).start(),
            old(self).len() == 0 ==> final(self).start() == id.index(),
    {
        proof {
            use_type_invariant(&*self);
            use_type_invariant(&id);
        }
        if self.len == 0 {
            *self = IdRange { start: id.index, len: 1, kind: PhantomData };
        } else {
            *self = IdRange { start: self.start, len: self.len + 1, kind: PhantomData };
        }
        assert(final(self)@ =~= old(self)@.push(id));
    }

    /// The identifiers of the range as a vector, in order.
    pub fn ids(self) -> (ids: Vec<Id<K>>)
        ensures
            ids@ == self@,
    {
        let mut ids: Vec<Id<K>> = Vec::new();
        let mut k: usize = 0;
        while k < self.len
            invariant
                k <= self.len,
                ids@.len() == k,
                forall|j: int| 0 <= j < k ==> ids@[j] == self@[j],
            decreases self.len - k,
        {
            ids.push(self.get(k));
            k = k + 1;
        }
        assert(ids@ =~= self@);
        ids
    }
}

/// The allocator of identifiers of kind `K`. It hands out slots in rising
/// order and never hands one out twice.
#[derive(Debug)]
pub struct RangeAllocator<K> {
    next: usize,
    kind: PhantomData<K>,
}

impl<K> View for RangeAllocator<K> {
    type V = nat;

    /// How many identifiers have been issued, which is also the next slot.
    closed spec fn view(&self) -> nat {
        self.next as nat
    }
}

impl<K> Default for RangeAllocator<K> {
    fn default() -> (allocator: Self)
        ensures
            allocator@ == 0,
    {
        RangeAllocator { next: 0, kind: PhantomData }
    }
}

impl<K> RangeAllocator<K> {
    /// An allocator that has issued nothing.
    pub fn new() -> (allocator: Self)
        ensures
            allocator@ == 0,
    {
        RangeAllocator { next: 0, kind: PhantomData }
    }

    /// How many more identifiers can be issued.
    pub fn remaining(&self) -> (left: usize)
        ensures
            left == usize::MAX - self@,
    {
        usize::MAX - self.next
    }

    /// All identifiers that have been issued so far, in the order in which
    /// they were issued: they fill the slots from the first on.
    pub fn issued(&self) -> (range: IdRange<K>)
        ensures
            range.start() == 0,
            range.len() == self@,
            range@.len() == self@,
            forall|k: int| 0 <= k < self@ ==> #[trigger] range@[k] == Id::<K>::at(k),
    {
        IdRange { start: 0, len: self.next, kind: PhantomData }
    }

    /// Issues one identifier, in the next free slot.
    pub fn create_one(&mut self) -> (id: Id<K>)
        requires
            old(self)@ < usize::MAX,
        ensures
            id == Id::<K>::at(old(self)@ as int),
            id.index() == old(self)@,
            final(self)@ == old(self)@ + 1,
    {
        let id = Id { index: self.next, generation: FIRST_GENERATION, kind: PhantomData };
        self.next = self.next + 1;
        id
    }

    /// Issues `n` identifiers at once, in the next `n` free slots: `n` may
    /// be zero, and the range is then empty.
    pub fn create(&mut self, n: usize) -> (range: IdRange<K>)
        requires
            old(self)@ + n <= usize::MAX,
        ensures
            range.start() == old(self)@,
            range.len() == n,
            range@.len() == n,
            forall|k: int| 0 <= k < n ==> #[trigger] range@[k] == Id::<K>::at(old(self)@ + k),
            final(self)@ == old(self)@ + n,
    {
        let range = IdRange { start: self.next, len: n, kind: PhantomData };
        self.next = self.next + n;
        range
    }
}

/// The slot in which request `i` of a run of requests starts, when the
/// allocator had issued `issued` identifiers before the run and request `j`
/// asks for `sizes[j]` identifiers. One identifier alone is a request for 1.
pub open spec fn request_start(issued: nat, sizes: Seq<nat>, i: int) -> nat
    decreases i,
{
    if i <= 0 {
        issued
    } else {
        request_start(issued, sizes, i - 1) + sizes[i - 1]
    }
}

/// Whether request `i` of such a run was given slot `slot`.
pub open spec fn request_holds(issued: nat, sizes: Seq<nat>, i: int, slot: int) -> bool {
    request_start(issued, sizes, i) <= slot < request_start(issued, sizes, i) + sizes[i]
}

/// Whatever is requested of an allocator, and in whatever sizes, what an
/// earlier request was given lies wholly below what a later one is given:
/// no slot is issued twice, and slots rise from request to request.
pub proof fn lemma_requests_disjoint_and_rising(issued: nat, sizes: Seq<nat>, i: int, j: int)
    requires
        0 <= i < j < sizes.len(),
    ensures
        request_start(issued, sizes, i) + sizes[i] <= request_start(issued, sizes, j),
        forall|a: int, b: int|
            #[trigger] request_holds(issued, sizes, i, a) && #[trigger] request_holds(
                issued,
                sizes,
                j,
                b,
            ) ==> a < b,
    decreases j,
{
    if i + 1 < j {
        lemma_requests_disjoint_and_rising(issued, sizes, i, j - 1);
    }
}

} // verus!

use vstd::prelude::*;

verus! {

/// Identifier of a selector whose match triggers selector-specific handling.
pub type PayloadId = u32;

/// The identifiers held by a payload set.
pub uninterp spec fn payload_ids(s: PayloadSet) -> Set<PayloadId>;

/// A set of payload identifiers, backed by `hashbrown::HashSet`.
#[verifier::external_body]
pub struct PayloadSet {
    set: hashbrown::HashSet<PayloadId>,
}

/// Relies on `hashbrown::HashSet::new`: the new set is empty.
#[verifier::external_body]
fn set_new() -> (r: PayloadSet)
    ensures
        payload_ids(r) == Set::<PayloadId>::empty(),
{
    PayloadSet { set: hashbrown::HashSet::new() }
}

/// Relies on `hashbrown::HashSet::insert`: adds the value and tells whether
/// it was absent before.
#[verifier::external_body]
fn set_insert(s: &mut PayloadSet, id: PayloadId) -> (r: bool)
    ensures
        payload_ids(*final(s)) == payload_ids(*old(s)).insert(id),
        r == !payload_ids(*old(s)).contains(id),
{
    s.set.insert(id)
}

/// Relies on `hashbrown::HashSet::contains`: membership.
#[verifier::external_body]
fn set_contains(s: &PayloadSet, id: PayloadId) -> (r: bool)
    ensures
        r == payload_ids(*s).contains(id),
{
    s.set.contains(&id)
}

/// Relies on `hashbrown::HashSet::extend`: adds every value of `other`.
#[verifier::external_body]
fn set_extend(s: &mut PayloadSet, other: &PayloadSet)
    ensures
        payload_ids(*final(s)) == payload_ids(*old(s)).union(payload_ids(*other)),
{
    s.set.extend(other.set.iter())
}

/// Relies on `hashbrown::HashSet::iter`: visits each value once, in an
/// order that is not specified.
#[verifier::external_body]
fn set_values(s: &PayloadSet) -> (r: Vec<PayloadId>)
    ensures
        r@.to_set() == payload_ids(*s),
        r@.no_duplicates(),
{
    s.set.iter().copied().collect()
}

impl PayloadSet {
    /// An empty set.
    pub fn new() -> (r: PayloadSet)
        ensures
            payload_ids(r) == Set::<PayloadId>::empty(),
    {
        set_new()
    }

    /// A set of the given identifiers.
    pub fn from_ids(ids: &[PayloadId]) -> (r: PayloadSet)
        ensures
            payload_ids(r) == ids@.to_set(),
    {
        let mut r = set_new();
        let mut i: usize = 0;
        while i < ids.len()
            invariant
                i <= ids@.len(),
                payload_ids(r) == ids@.subrange(0, i as int).to_set(),
            decreases ids@.len() - i,
        {
            set_insert(&mut r, ids[i]);
            proof {
                assert(ids@.subrange(0, i + 1) == ids@.subrange(0, i as int).push(ids@[i as int]));
                ids@.subrange(0, i as int).lemma_push_to_set_commute(ids@[i as int]);
            }
            i = i + 1;
        }
        proof {
            assert(ids@.subrange(0, ids@.len() as int) == ids@);
        }
        r
    }

    /// Adds `id`; tells whether it was absent.
    pub fn insert(&mut self, id: PayloadId) -> (r: bool)
        ensures
            payload_ids(*final(self)) == payload_ids(*old(self)).insert(id),
            r == !payload_ids(*old(self)).contains(id),
    {
        set_insert(self, id)
    }

    pub fn contains(&self, id: PayloadId) -> (r: bool)
        ensures
            r == payload_ids(*self).contains(id),
    {
        set_contains(self, id)
    }

    /// Adds every identifier of `other`.
    pub fn extend_from(&mut self, other: &PayloadSet)
        ensures
            payload_ids(*final(self)) == payload_ids(*old(self)).union(payload_ids(*other)),
    {
        set_extend(self, other)
    }

    /// The identifiers, each once, in no particular order.
    pub fn to_vec(&self) -> (r: Vec<PayloadId>)
        ensures
            r@.to_set() == payload_ids(*self),
            r@.no_duplicates(),
    {
        set_values(self)
    }
}

} // verus!

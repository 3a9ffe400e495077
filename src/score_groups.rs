use vstd::prelude::*;

use smallvec::SmallVec;

use crate::player::PlayerId;

verus! {

/// The identifiers of one score group, stored inline up to a small count.
#[verifier::external_body]
#[derive(Debug)]
pub struct GroupIds {
    ids: SmallVec<[PlayerId; 24]>,
}

/// The identifiers a score group holds, in order.
pub uninterp spec fn group_ids(v: GroupIds) -> Seq<PlayerId>;

/// Relies on smallvec::SmallVec::new: an empty vector.
#[verifier::external_body]
fn group_new() -> (r: GroupIds)
    ensures
        group_ids(r) == Seq::<PlayerId>::empty(),
{
    GroupIds { ids: SmallVec::new() }
}

/// Relies on smallvec::SmallVec::push: appends one item at the end.
#[verifier::external_body]
fn group_push(v: &mut GroupIds, id: PlayerId)
    requires
        group_ids(*old(v)).len() < usize::MAX,
    ensures
        group_ids(*final(v)) == group_ids(*old(v)).push(id),
{
    v.ids.push(id)
}

/// Relies on smallvec::SmallVec::as_slice: the items in order, which are
/// then copied into a vector.
#[verifier::external_body]
fn group_to_vec(v: &GroupIds) -> (r: Vec<PlayerId>)
    ensures
        r@ == group_ids(*v),
{
    v.ids.as_slice().to_vec()
}

impl GroupIds {
    /// A group holding one identifier.
    pub fn single(id: PlayerId) -> (r: GroupIds)
        ensures
            group_ids(r) == seq![id],
    {
        let mut g = group_new();
        group_push(&mut g, id);
        g
    }

    /// Appends an identifier.
    pub fn push(&mut self, id: PlayerId)
        requires
            group_ids(*old(self)).len() < usize::MAX,
        ensures
            group_ids(*final(self)) == group_ids(*old(self)).push(id),
    {
        group_push(self, id)
    }

    /// The identifiers of the group, in order.
    pub fn ids(&self) -> (r: Vec<PlayerId>)
        ensures
            r@ == group_ids(*self),
    {
        group_to_vec(self)
    }
}

} // verus!

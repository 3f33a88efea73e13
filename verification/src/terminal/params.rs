//! The numeric parameters of a control sequence, in vectors that keep short
//! lists off the heap.

use vstd::prelude::*;

verus! {

/// A list of parameters.
#[verifier::external_body]
pub struct ParamList {
    list: smallvec::SmallVec<[u16; 8]>,
}

/// The values of a parameter list.
pub uninterp spec fn param_values(list: ParamList) -> Seq<u16>;

impl ParamList {
    /// `SmallVec::new`: an empty list.
    #[verifier::external_body]
    pub(crate) fn new() -> (list: Self)
        ensures
            param_values(list) == Seq::<u16>::empty(),
    {
        ParamList { list: smallvec::SmallVec::new() }
    }

    /// `SmallVec::push`: one value more, at the end.
    #[verifier::external_body]
    pub(crate) fn push(&mut self, value: u16)
        ensures
            param_values(*final(self)) == param_values(*old(self)).push(value),
    {
        self.list.push(value)
    }

    /// `SmallVec::as_slice`: the values.
    #[verifier::external_body]
    pub(crate) fn as_slice(&self) -> (values: &[u16])
        ensures
            values@ == param_values(*self),
    {
        self.list.as_slice()
    }
}

/// One parameter with its sub-parameters.
#[verifier::external_body]
pub struct ParamGroup {
    group: smallvec::SmallVec<[u16; 6]>,
}

/// The values of a parameter group.
pub uninterp spec fn group_values(group: ParamGroup) -> Seq<u16>;

impl ParamGroup {
    /// `SmallVec::new`: an empty group.
    #[verifier::external_body]
    pub(crate) fn new() -> (group: Self)
        ensures
            group_values(group) == Seq::<u16>::empty(),
    {
        ParamGroup { group: smallvec::SmallVec::new() }
    }

    /// `SmallVec::push`: one value more, at the end.
    #[verifier::external_body]
    pub(crate) fn push(&mut self, value: u16)
        ensures
            group_values(*final(self)) == group_values(*old(self)).push(value),
    {
        self.group.push(value)
    }
}

/// A list of parameter groups.
#[verifier::external_body]
pub struct ParamGroups {
    groups: smallvec::SmallVec<[ParamGroup; 8]>,
}

/// The values of each group, group by group.
pub uninterp spec fn groups_values(groups: ParamGroups) -> Seq<Seq<u16>>;

impl ParamGroups {
    /// `SmallVec::new`: no group.
    #[verifier::external_body]
    pub(crate) fn new() -> (groups: Self)
        ensures
            groups_values(groups) == Seq::<Seq<u16>>::empty(),
    {
        ParamGroups { groups: smallvec::SmallVec::new() }
    }

    /// `SmallVec::push`: one group more, at the end.
    #[verifier::external_body]
    pub(crate) fn push(&mut self, group: ParamGroup)
        ensures
            groups_values(*final(self)) == groups_values(*old(self)).push(group_values(group)),
    {
        self.groups.push(group)
    }

    /// `SmallVec::len`: how many groups there are.
    #[verifier::external_body]
    pub(crate) fn len(&self) -> (n: usize)
        ensures
            n == groups_values(*self).len(),
    {
        self.groups.len()
    }

    /// Indexing a `SmallVec`: the values of one group.
    #[verifier::external_body]
    pub(crate) fn group(&self, i: usize) -> (values: &[u16])
        requires
            i < groups_values(*self).len(),
        ensures
            values@ == groups_values(*self)[i as int],
    {
        self.groups[i].group.as_slice()
    }
}

} // verus!

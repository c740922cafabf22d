//! The registry of test scenario groups.

use vstd::prelude::*;

verus! {

/// The name of the group that holds every other scenario group.
pub const ROOT_GROUP: &'static str = "root";

/// The name of the group of basic scenarios.
pub const BASIC_GROUP: &'static str = "basic";

/// A named group of scenarios and of further groups, by name.
pub struct ScenarioGroupImpl {
    pub name: String,
    pub groups: Vec<String>,
}

/// The group at the top of the scenario tree.
pub struct RootScenarioGroup {
    pub group: ScenarioGroupImpl,
}

impl RootScenarioGroup {
    /// The root group, holding nothing yet.
    pub fn new() -> (r: Self)
        ensures
            r.group.name@ == ROOT_GROUP@,
            r.group.groups@.len() == 0,
    {
        RootScenarioGroup { group: ScenarioGroupImpl { name: ROOT_GROUP.to_owned(), groups: Vec::new() } }
    }

    /// The group itself, for adding to it.
    pub fn get_group_impl(&mut self) -> (r: &mut ScenarioGroupImpl)
        ensures
            *r == old(self).group,
            final(self).group == *final(r),
    {
        &mut self.group
    }

    /// Registers the groups below the root: the basic scenarios.
    pub fn init(&mut self)
        ensures
            final(self).group.name@ == old(self).group.name@,
            final(self).group.groups@.len() == old(self).group.groups@.len() + 1,
            final(self).group.groups@.last()@ == BASIC_GROUP@,
            final(self).group.groups@.drop_last() == old(self).group.groups@,
    {
        self.group.groups.push(BASIC_GROUP.to_owned());
    }
}

} // verus!

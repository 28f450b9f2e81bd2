//! Actions: what happens when a scheduled moment comes. Each group of an
//! action applies generators to the fixtures its query selects.
use vstd::prelude::*;
use crate::generator::Generator;
use crate::parameter::Param;
use crate::query::Query;
use crate::time::Time;
use crate::value::Values;

verus! {

/// One generator for one parameter.
#[derive(Clone, Debug)]
pub struct Apply {
    pub parameter: Param,
    pub generator: Generator,
}

impl Apply {
    pub fn new(parameter: Param, generator: Generator) -> (r: Apply)
        ensures
            r.parameter == parameter,
            r.generator == generator,
    {
        Apply { parameter, generator }
    }

    /// Starts the generator at `time`.
    pub fn set_start_time(&mut self, time: Time)
        ensures
            final(self).parameter == old(self).parameter,
            final(self).generator == old(self).generator.started_at(time),
    {
        self.generator.set_start_time(time);
    }

    /// Lets the generator see `value`, when there is one.
    pub fn resolve(&mut self, value: Option<&Values>, time: &Time)
        ensures
            final(self).parameter == old(self).parameter,
            final(self).generator == match value {
                Some(v) => old(self).generator.resolved(*v, *time),
                None => old(self).generator,
            },
    {
        match value {
            Some(v) => self.generator.resolve(v, time),
            None => {},
        }
    }
}

/// Applies to the fixtures `query` selects.
#[derive(Clone, Debug)]
pub struct ApplyGroup {
    pub query: Query,
    pub applies: Vec<Apply>,
}

impl ApplyGroup {
    pub fn new(query: Query) -> (r: ApplyGroup)
        ensures
            r.query == query,
            r.applies@.len() == 0,
    {
        ApplyGroup { query, applies: Vec::new() }
    }

    pub fn add_apply(&mut self, apply: Apply)
        ensures
            final(self).query == old(self).query,
            final(self).applies@ == old(self).applies@.push(apply),
    {
        self.applies.push(apply);
    }

}

/// The apply groups that run together at one moment.
#[derive(Clone, Debug)]
pub struct Action {
    pub apply_groups: Vec<ApplyGroup>,
}

impl Action {
    pub fn new() -> (r: Action)
        ensures
            r.apply_groups@.len() == 0,
    {
        Action { apply_groups: Vec::new() }
    }

    pub fn add_group(&mut self, apply_group: ApplyGroup)
        ensures
            final(self).apply_groups@ == old(self).apply_groups@.push(apply_group),
    {
        self.apply_groups.push(apply_group);
    }

}

} // verus!

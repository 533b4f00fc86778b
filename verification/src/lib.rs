//! Reads local monitoring checks and turns their output into structured results.
//!
//! The library holds the decisions of the monitor: the check catalog and its
//! validation, the parsers for check output, the rules that turn a finished
//! process into a check result, and the rules of the collection history. The
//! program around it starts processes, talks to the database and prints.
use vstd::prelude::*;

pub mod cli;
pub mod config;
pub mod memory;
pub mod model;
pub mod nagios;
pub mod normalize;
pub mod runner;
pub mod storage;
pub mod sw_vers;
pub mod text;

pub use config::{CheckDefinition, CheckKind, ConfigError, StoreStrategy};
pub use model::{Execution, Fact};

use config::{
    Config, ConfigErrorSpec, entry_ids, first_problem_in, is_first_repeat, repeats_earlier,
    strictly_sorted,
};
use text::message;

verus! {

/// A monitor over a validated check catalog.
pub struct Monitor {
    config: Config,
}

/// A request that cannot be served.
#[derive(Debug, Clone, PartialEq, Eq)]
pub enum MonitorError {
    /// The request names a check that is not configured.
    UnknownCheck(String),
}

impl MonitorError {
    /// Describes the error.
    pub fn message(&self) -> (m: String)
        ensures
            m@ == match self {
                MonitorError::UnknownCheck(id) => "unknown check: "@ + id@,
            },
    {
        match self {
            MonitorError::UnknownCheck(id) => message("unknown check: ", id.as_str()),
        }
    }
}

impl Monitor {
    /// The catalog.
    pub closed spec fn catalog(self) -> Config {
        self.config
    }

    /// Builds a monitor from check definitions given in any order. Ids must
    /// be unique; then every definition is checked in id order.
    pub fn from_definitions(entries: Vec<(String, CheckDefinition)>) -> (r: Result<
        Monitor,
        ConfigError,
    >)
        ensures
            match r {
                Ok(m) => {
                    &&& strictly_sorted(m.catalog().ids())
                    &&& m.catalog().entries().to_multiset() == entries@.to_multiset()
                    &&& m.catalog().first_problem() is None
                },
                Err(e) => {
                    ||| exists|j: int|
                        is_first_repeat(entries@, j) && e@ == ConfigErrorSpec::DuplicateCheck(
                            entries@[j].0@,
                        )
                    ||| {
                        &&& forall|j: int| 0 <= j < entries@.len() ==> !repeats_earlier(entries@, j)
                        &&& exists|s: Seq<(String, CheckDefinition)>|
                            strictly_sorted(entry_ids(s)) && s.to_multiset()
                                == entries@.to_multiset() && first_problem_in(s, 0) == Some(e@)
                    }
                },
            },
    {
        let config = match Config::from_entries(entries) {
            Ok(c) => c,
            Err(e) => return Err(e),
        };
        match config.validate() {
            Ok(()) => Ok(Monitor { config }),
            Err(e) => {
                assert(strictly_sorted(entry_ids(config.entries())));
                Err(e)
            },
        }
    }

    /// The catalog.
    pub fn config(&self) -> (c: &Config)
        ensures
            *c == self.catalog(),
    {
        &self.config
    }

    /// The configured check ids, in increasing order.
    pub fn check_ids(&self) -> (ids: Vec<String>)
        ensures
            ids@.map_values(|s: String| s@) == self.catalog().ids(),
    {
        let mut ids: Vec<String> = Vec::new();
        let mut i: usize = 0;
        while i < self.config.len()
            invariant
                i <= self.config.entries().len(),
                ids@.map_values(|s: String| s@) == self.catalog().ids().take(i as int),
            decreases self.config.entries().len() - i,
        {
            let ghost before = ids@.map_values(|s: String| s@);
            let entry = self.config.entry(i);
            let id = entry.0.clone();
            assert(id@ == self.catalog().ids()[i as int]);
            ids.push(id);
            assert(ids@.map_values(|s: String| s@) =~= before.push(id@));
            assert(self.catalog().ids().take(i + 1) =~= self.catalog().ids().take(i as int).push(
                id@,
            ));
            i += 1;
        }
        assert(self.catalog().ids().take(i as int) =~= self.catalog().ids());
        ids
    }

    /// The kind of the check `id`, if it is configured.
    pub fn check_kind(&self, id: &str) -> (r: Option<CheckKind>)
        ensures
            match r {
                Some(k) => self.catalog().ids().contains(id@) && self.catalog().definition_of(
                    id@,
                ).kind == k,
                None => !self.catalog().ids().contains(id@),
            },
    {
        match self.config.position(id) {
            Some(i) => Some(self.config.entry(i).1.kind),
            None => None,
        }
    }

    /// The definitions of the requested checks, in request order. Nothing is
    /// returned when any requested id is unknown; the first unknown id, in
    /// request order, is reported.
    pub fn definitions_for(&self, ids: &Vec<String>) -> (r: Result<
        Vec<&CheckDefinition>,
        MonitorError,
    >)
        ensures
            match r {
                Ok(defs) => {
                    &&& defs@.len() == ids@.len()
                    &&& forall|k: int|
                        0 <= k < ids@.len() ==> self.catalog().ids().contains(ids@[k]@)
                            && *defs@[k] == self.catalog().definition_of(ids@[k]@)
                },
                Err(MonitorError::UnknownCheck(id)) => exists|k: int|
                    0 <= k < ids@.len() && ids@[k]@ == id@ && !self.catalog().ids().contains(
                        id@,
                    ) && forall|j: int|
                        0 <= j < k ==> self.catalog().ids().contains(#[trigger] ids@[j]@),
            },
    {
        let mut positions: Vec<usize> = Vec::new();
        let mut k: usize = 0;
        while k < ids.len()
            invariant
                k <= ids@.len(),
                positions@.len() == k,
                forall|j: int|
                    0 <= j < k ==> positions@[j] < self.catalog().ids().len()
                        && self.catalog().ids()[positions@[j] as int] == ids@[j]@
                        && self.catalog().ids().contains(ids@[j]@)
                        && self.catalog().definition_of(ids@[j]@) == self.catalog().entries()[positions@[j] as int].1,
            decreases ids.len() - k,
        {
            match self.config.position(ids[k].as_str()) {
                Some(i) => positions.push(i),
                None => {
                    return Err(MonitorError::UnknownCheck(ids[k].clone()));
                },
            }
            k += 1;
        }
        let mut defs: Vec<&CheckDefinition> = Vec::new();
        let mut j: usize = 0;
        while j < positions.len()
            invariant
                j <= positions@.len(),
                positions@.len() == ids@.len(),
                defs@.len() == j,
                forall|t: int|
                    0 <= t < positions@.len() ==> positions@[t] < self.catalog().ids().len()
                        && self.catalog().ids().contains(ids@[t]@)
                        && self.catalog().definition_of(ids@[t]@) == self.catalog().entries()[positions@[t] as int].1,
                forall|t: int|
                    0 <= t < j ==> *defs@[t] == self.catalog().entries()[positions@[t] as int].1,
            decreases positions.len() - j,
        {
            defs.push(&self.config.entry(positions[j]).1);
            j += 1;
        }
        Ok(defs)
    }
}

} // verus!

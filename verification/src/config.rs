//! The check catalog: one definition per check id, kept in id order, and its
//! validation before anything runs.
use vstd::prelude::*;

use crate::text::{
    chars_of, lex_less, lex_lt, lemma_lex_irreflexive, lemma_lex_total,
    lemma_lex_transitive, message, same_chars,
};

verus! {

broadcast use vstd::seq_lib::group_seq_properties;

/// What a check measures; it decides how the check's output is read.
#[derive(Debug, Clone, Copy, PartialEq, Eq, Structural)]
pub enum CheckKind {
    SystemDisk,
    CpuLoad,
    Memory,
    MacosVersion,
}

/// Which executions of a check are kept in the history.
#[derive(Debug, Clone, Copy, PartialEq, Eq, Structural)]
pub enum StoreStrategy {
    /// Every execution.
    Always,
    /// Only executions whose semantic snapshot differs from the previous one.
    OnChange,
}

/// How one check is run.
#[derive(Debug)]
pub struct CheckDefinition {
    pub kind: CheckKind,
    pub program: String,
    pub args: Vec<String>,
    pub timeout_ms: u64,
    pub interval_seconds: Option<u64>,
    pub store: Option<StoreStrategy>,
}

/// The collection interval of a kind when the definition names none.
pub open spec fn default_interval_seconds(kind: CheckKind) -> u64 {
    match kind {
        CheckKind::SystemDisk => 300,
        CheckKind::CpuLoad => 60,
        CheckKind::Memory => 60,
        CheckKind::MacosVersion => 3600,
    }
}

/// The store strategy of a kind when the definition names none: numeric checks
/// keep every execution, the macOS version only its changes.
pub open spec fn default_store(kind: CheckKind) -> StoreStrategy {
    match kind {
        CheckKind::MacosVersion => StoreStrategy::OnChange,
        _ => StoreStrategy::Always,
    }
}

/// Without an explicit interval, the root filesystem is collected every five
/// minutes, CPU load and memory every minute and the macOS version every hour.
pub proof fn law_default_intervals(kind: CheckKind)
    ensures
        kind == CheckKind::SystemDisk ==> default_interval_seconds(kind) == 5 * 60,
        kind == CheckKind::CpuLoad ==> default_interval_seconds(kind) == 60,
        kind == CheckKind::Memory ==> default_interval_seconds(kind) == 60,
        kind == CheckKind::MacosVersion ==> default_interval_seconds(kind) == 60 * 60,
        kind == CheckKind::CpuLoad || kind == CheckKind::Memory ==> default_interval_seconds(
            kind,
        ) < default_interval_seconds(CheckKind::SystemDisk),
{
}

impl CheckDefinition {
    /// The interval between collections, in seconds.
    pub fn effective_interval_seconds(&self) -> (r: u64)
        ensures
            r == match self.interval_seconds {
                Some(s) => s,
                None => default_interval_seconds(self.kind),
            },
            self.interval_seconds matches Some(s) ==> r == s,
            self.interval_seconds is None && self.kind == CheckKind::SystemDisk ==> r == 300,
            self.interval_seconds is None && self.kind == CheckKind::CpuLoad ==> r == 60,
            self.interval_seconds is None && self.kind == CheckKind::Memory ==> r == 60,
            self.interval_seconds is None && self.kind == CheckKind::MacosVersion ==> r == 3600,
    {
        match self.interval_seconds {
            Some(s) => s,
            None => match self.kind {
                CheckKind::SystemDisk => 300,
                CheckKind::CpuLoad => 60,
                CheckKind::Memory => 60,
                CheckKind::MacosVersion => 3600,
            },
        }
    }

    /// The store strategy in effect.
    pub fn effective_store(&self) -> (r: StoreStrategy)
        ensures
            r == match self.store {
                Some(s) => s,
                None => default_store(self.kind),
            },
    {
        match self.store {
            Some(s) => s,
            None => match self.kind {
                CheckKind::MacosVersion => StoreStrategy::OnChange,
                _ => StoreStrategy::Always,
            },
        }
    }
}

/// A configuration that cannot be used.
#[derive(Debug, Clone, PartialEq, Eq)]
pub enum ConfigError {
    /// Two definitions share an id.
    DuplicateCheck(String),
    /// The program path of the check is not absolute.
    RelativeProgram(String),
    /// The timeout of the check is zero.
    ZeroTimeout(String),
    /// An argument of the check contains a NUL character.
    NulArgument(String),
}

/// The abstract value of a [`ConfigError`]: its variant and the check id.
pub ghost enum ConfigErrorSpec {
    DuplicateCheck(Seq<char>),
    RelativeProgram(Seq<char>),
    ZeroTimeout(Seq<char>),
    NulArgument(Seq<char>),
}

impl View for ConfigError {
    type V = ConfigErrorSpec;

    open spec fn view(&self) -> ConfigErrorSpec {
        match self {
            ConfigError::DuplicateCheck(id) => ConfigErrorSpec::DuplicateCheck(id@),
            ConfigError::RelativeProgram(id) => ConfigErrorSpec::RelativeProgram(id@),
            ConfigError::ZeroTimeout(id) => ConfigErrorSpec::ZeroTimeout(id@),
            ConfigError::NulArgument(id) => ConfigErrorSpec::NulArgument(id@),
        }
    }
}

/// The text that describes a configuration error.
pub open spec fn config_error_message(e: ConfigErrorSpec) -> Seq<char> {
    match e {
        ConfigErrorSpec::DuplicateCheck(id) => "duplicate check id: "@ + id,
        ConfigErrorSpec::RelativeProgram(id) => "check "@ + id + " has a relative program path"@,
        ConfigErrorSpec::ZeroTimeout(id) => "check "@ + id + " has a zero timeout"@,
        ConfigErrorSpec::NulArgument(id) => "check "@ + id + " has an argument containing NUL"@,
    }
}

fn check_message(id: &String, rest: &str) -> (m: String)
    ensures
        m@ == "check "@ + id@ + rest@,
{
    let mut m = message("check ", id.as_str());
    m.append(rest);
    m
}

impl ConfigError {
    /// Describes the error.
    pub fn message(&self) -> (m: String)
        ensures
            m@ == config_error_message(self@),
    {
        match self {
            ConfigError::DuplicateCheck(id) => message("duplicate check id: ", id.as_str()),
            ConfigError::RelativeProgram(id) => check_message(id, " has a relative program path"),
            ConfigError::ZeroTimeout(id) => check_message(id, " has a zero timeout"),
            ConfigError::NulArgument(id) => check_message(id, " has an argument containing NUL"),
        }
    }
}

/// A path is absolute when it starts at the root.
pub open spec fn is_absolute(path: Seq<char>) -> bool {
    path.len() > 0 && path[0] == '/'
}

/// Some argument contains a NUL character.
pub open spec fn has_nul_argument(args: Seq<String>) -> bool {
    exists|i: int, j: int| 0 <= i < args.len() && 0 <= j < args[i]@.len() && args[i]@[j] == '\0'
}

/// The first problem of one definition: a relative program, then a zero
/// timeout, then an argument with NUL.
pub open spec fn definition_error(id: Seq<char>, def: CheckDefinition) -> Option<ConfigErrorSpec> {
    if !is_absolute(def.program@) {
        Some(ConfigErrorSpec::RelativeProgram(id))
    } else if def.timeout_ms == 0 {
        Some(ConfigErrorSpec::ZeroTimeout(id))
    } else if has_nul_argument(def.args@) {
        Some(ConfigErrorSpec::NulArgument(id))
    } else {
        None
    }
}

fn contains_nul(args: &Vec<String>) -> (r: bool)
    ensures
        r == has_nul_argument(args@),
{
    let mut i: usize = 0;
    while i < args.len()
        invariant
            i <= args.len(),
            forall|a: int, b: int|
                0 <= a < i && 0 <= b < args@[a]@.len() ==> args@[a]@[b] != '\0',
        decreases args.len() - i,
    {
        let cs = chars_of(args[i].as_str());
        let mut j: usize = 0;
        while j < cs.len()
            invariant
                i < args.len(),
                cs@ == args@[i as int]@,
                j <= cs.len(),
                forall|b: int| 0 <= b < j ==> cs@[b] != '\0',
            decreases cs.len() - j,
        {
            if cs[j] == '\0' {
                return true;
            }
            j += 1;
        }
        i += 1;
    }
    false
}

fn validate_definition(id: &String, def: &CheckDefinition) -> (r: Result<(), ConfigError>)
    ensures
        match r {
            Ok(()) => definition_error(id@, *def) is None,
            Err(e) => definition_error(id@, *def) == Some(e@),
        },
{
    let program = chars_of(def.program.as_str());
    if !(program.len() > 0 && program[0] == '/') {
        return Err(ConfigError::RelativeProgram(id.clone()));
    }
    if def.timeout_ms == 0 {
        return Err(ConfigError::ZeroTimeout(id.clone()));
    }
    if contains_nul(&def.args) {
        return Err(ConfigError::NulArgument(id.clone()));
    }
    Ok(())
}

/// The ids of a sequence of entries.
pub open spec fn entry_ids(s: Seq<(String, CheckDefinition)>) -> Seq<Seq<char>> {
    s.map_values(|e: (String, CheckDefinition)| e.0@)
}

/// Ids in strictly increasing order (hence each at most once).
pub open spec fn strictly_sorted(ids: Seq<Seq<char>>) -> bool {
    forall|i: int, j: int| 0 <= i < j < ids.len() ==> lex_lt(ids[i], ids[j])
}

/// Entry `j` repeats the id of an earlier entry.
pub open spec fn repeats_earlier(s: Seq<(String, CheckDefinition)>, j: int) -> bool {
    exists|i: int| 0 <= i < j && s[i].0@ == s[j].0@
}

/// `j` is the first entry that repeats an earlier id.
pub open spec fn is_first_repeat(s: Seq<(String, CheckDefinition)>, j: int) -> bool {
    &&& 0 <= j < s.len()
    &&& repeats_earlier(s, j)
    &&& forall|k: int| 0 <= k < j ==> !repeats_earlier(s, k)
}

/// The check catalog, ordered by id.
pub struct Config {
    entries: Vec<(String, CheckDefinition)>,
}

impl Config {
    #[verifier::type_invariant]
    spec fn sorted(self) -> bool {
        strictly_sorted(entry_ids(self.entries@))
    }

    /// The catalog's entries, in id order.
    pub closed spec fn entries(self) -> Seq<(String, CheckDefinition)> {
        self.entries@
    }

    /// The catalog's ids, in increasing order.
    pub open spec fn ids(self) -> Seq<Seq<char>> {
        entry_ids(self.entries())
    }

    /// Builds the catalog from definitions given in any order; ids must be unique.
    pub fn from_entries(entries: Vec<(String, CheckDefinition)>) -> (r: Result<Config, ConfigError>)
        ensures
            match r {
                Ok(c) => {
                    &&& strictly_sorted(c.ids())
                    &&& c.entries().to_multiset() == entries@.to_multiset()
                    &&& forall|j: int| 0 <= j < entries@.len() ==> !repeats_earlier(entries@, j)
                },
                Err(e) => exists|j: int|
                    is_first_repeat(entries@, j) && e@ == ConfigErrorSpec::DuplicateCheck(
                        entries@[j].0@,
                    ),
            },
    {
        let ghost orig = entries@;
        let total = entries.len();
        assert(orig.len() == total);
        let mut rest = entries;
        let mut sorted: Vec<(String, CheckDefinition)> = Vec::new();
        let mut k: usize = 0;
        assert(orig.take(0) =~= Seq::<(String, CheckDefinition)>::empty());
        while rest.len() > 0
            invariant
                orig == entries@,
                orig.len() <= usize::MAX,
                k + rest@.len() == orig.len(),
                rest@ == orig.skip(k as int),
                strictly_sorted(entry_ids(sorted@)),
                sorted@.to_multiset() == orig.take(k as int).to_multiset(),
                forall|j: int| 0 <= j < k ==> !repeats_earlier(orig, j),
            decreases rest@.len(),
        {
            let entry = rest.remove(0);
            assert(entry == orig[k as int]);
            assert(rest@ =~= orig.skip(k + 1));
            let id = chars_of(entry.0.as_str());
            let mut p: usize = 0;
            while p < sorted.len() && lex_less(&chars_of(sorted[p].0.as_str()), &id)
                invariant
                    p <= sorted.len(),
                    id@ == entry.0@,
                    forall|i: int| 0 <= i < p ==> lex_lt(#[trigger] sorted@[i].0@, id@),
                decreases sorted.len() - p,
            {
                p += 1;
            }
            proof {
                assert(orig.take(k + 1) =~= orig.take(k as int).push(entry));
            }
            if p < sorted.len() && same_chars(&chars_of(sorted[p].0.as_str()), &id) {
                proof {
                    let dup = sorted@[p as int];
                    assert(sorted@.contains(dup));
                    assert(orig.take(k as int).to_multiset().count(dup) > 0);
                    assert(orig.take(k as int).contains(dup));
                    let i = choose|i: int| 0 <= i < k && orig.take(k as int)[i] == dup;
                    assert(orig[i] == dup);
                    assert(repeats_earlier(orig, k as int));
                    assert(is_first_repeat(orig, k as int));
                }
                return Err(ConfigError::DuplicateCheck(entry.0));
            }
            proof {
                if p < sorted.len() {
                    lemma_lex_total(sorted@[p as int].0@, id@);
                }
                assert forall|i: int| 0 <= i < sorted.len() implies sorted@[i].0@ != id@ by {
                    if i < p {
                        lemma_lex_irreflexive(id@);
                    } else {
                        if i > p {
                            assert(lex_lt(entry_ids(sorted@)[p as int], entry_ids(sorted@)[i]));
                            lemma_lex_transitive(id@, sorted@[p as int].0@, sorted@[i].0@);
                        }
                        lemma_lex_irreflexive(id@);
                    }
                }
                assert(!repeats_earlier(orig, k as int)) by {
                    if repeats_earlier(orig, k as int) {
                        let i = choose|i: int| 0 <= i < k && orig[i].0@ == orig[k as int].0@;
                        assert(orig.take(k as int)[i] == orig[i]);
                        assert(orig.take(k as int).contains(orig[i]));
                        assert(sorted@.to_multiset().count(orig[i]) > 0);
                        assert(sorted@.contains(orig[i]));
                        let w = choose|w: int| 0 <= w < sorted@.len() && sorted@[w] == orig[i];
                        assert(sorted@[w].0@ != id@);
                    }
                }
            }
            let ghost old_sorted = sorted@;
            sorted.insert(p, entry);
            proof {
                assert(sorted@ == old_sorted.insert(p as int, entry));
                vstd::seq_lib::to_multiset_insert(old_sorted, p as int, entry);
                vstd::seq_lib::to_multiset_build(orig.take(k as int), entry);
                let ids = entry_ids(sorted@);
                let old_ids = entry_ids(old_sorted);
                assert forall|a: int, b: int| 0 <= a < b < ids.len() implies lex_lt(
                    ids[a],
                    ids[b],
                ) by {
                    if b < p {
                        assert(ids[a] == old_ids[a] && ids[b] == old_ids[b]);
                    } else if b == p {
                        assert(ids[a] == old_ids[a]);
                    } else if a < p {
                        assert(ids[a] == old_ids[a] && ids[b] == old_ids[b - 1]);
                        lemma_lex_total(old_ids[p as int], id@);
                        if b - 1 > p {
                            lemma_lex_transitive(id@, old_ids[p as int], old_ids[b - 1]);
                        }
                        lemma_lex_transitive(old_ids[a], id@, old_ids[b - 1]);
                    } else if a == p {
                        assert(ids[b] == old_ids[b - 1]);
                        lemma_lex_total(old_ids[p as int], id@);
                        if b - 1 > p {
                            lemma_lex_transitive(id@, old_ids[p as int], old_ids[b - 1]);
                        }
                    } else {
                        assert(ids[a] == old_ids[a - 1] && ids[b] == old_ids[b - 1]);
                    }
                }
            }
            k += 1;
        }
        assert(orig.take(k as int) =~= orig);
        Ok(Config { entries: sorted })
    }

    /// The definition of `id` (meaningful when `id` is configured).
    pub open spec fn definition_of(self, id: Seq<char>) -> CheckDefinition {
        self.entries()[self.ids().index_of(id)].1
    }

    /// The first problem in id order, if any.
    pub open spec fn first_problem(self) -> Option<ConfigErrorSpec> {
        first_problem_in(self.entries(), 0)
    }

    /// Checks every definition, in id order.
    pub fn validate(&self) -> (r: Result<(), ConfigError>)
        ensures
            match r {
                Ok(()) => self.first_problem() is None,
                Err(e) => self.first_problem() == Some(e@),
            },
    {
        let mut j: usize = 0;
        while j < self.entries.len()
            invariant
                j <= self.entries@.len(),
                first_problem_in(self.entries@, 0) == first_problem_in(self.entries@, j as int),
            decreases self.entries.len() - j,
        {
            let entry = &self.entries[j];
            match validate_definition(&entry.0, &entry.1) {
                Ok(()) => {},
                Err(e) => return Err(e),
            }
            j += 1;
        }
        Ok(())
    }

    /// The number of checks.
    pub fn len(&self) -> (n: usize)
        ensures
            n == self.entries().len(),
    {
        self.entries.len()
    }

    /// The id and definition at position `i` in id order.
    pub fn entry(&self, i: usize) -> (e: &(String, CheckDefinition))
        requires
            i < self.entries().len(),
        ensures
            *e == self.entries()[i as int],
    {
        &self.entries[i]
    }

    /// The position of `id`, if configured.
    pub fn position(&self, id: &str) -> (r: Option<usize>)
        ensures
            match r {
                Some(i) => {
                    &&& i < self.ids().len()
                    &&& self.ids()[i as int] == id@
                    &&& self.ids().contains(id@)
                    &&& self.definition_of(id@) == self.entries()[i as int].1
                },
                None => !self.ids().contains(id@),
            },
    {
        proof {
            use_type_invariant(self);
        }
        let wanted = chars_of(id);
        let mut i: usize = 0;
        while i < self.entries.len()
            invariant
                i <= self.entries@.len(),
                wanted@ == id@,
                strictly_sorted(entry_ids(self.entries@)),
                forall|j: int| 0 <= j < i ==> self.entries@[j].0@ != id@,
            decreases self.entries.len() - i,
        {
            if same_chars(&chars_of(self.entries[i].0.as_str()), &wanted) {
                proof {
                    let ids = self.ids();
                    assert(ids[i as int] == id@);
                    assert(ids.contains(id@));
                    let w = ids.index_of(id@);
                    assert(0 <= w < ids.len() && ids[w] == id@);
                    if w < i {
                        assert(lex_lt(ids[w], ids[i as int]));
                        lemma_lex_irreflexive(id@);
                    } else if w > i {
                        assert(lex_lt(ids[i as int], ids[w]));
                        lemma_lex_irreflexive(id@);
                    }
                }
                return Some(i);
            }
            i += 1;
        }
        proof {
            if self.ids().contains(id@) {
                let w = choose|w: int| 0 <= w < self.ids().len() && self.ids()[w] == id@;
                assert(self.entries@[w].0@ == id@);
            }
        }
        None
    }
}

/// The first problem among entries `i..`.
pub open spec fn first_problem_in(s: Seq<(String, CheckDefinition)>, i: int) -> Option<
    ConfigErrorSpec,
>
    decreases s.len() - i,
{
    if 0 <= i < s.len() {
        match definition_error(s[i].0@, s[i].1) {
            Some(e) => Some(e),
            None => first_problem_in(s, i + 1),
        }
    } else {
        None
    }
}

} // verus!

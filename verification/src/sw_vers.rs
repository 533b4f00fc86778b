//! Facts about the installed macOS version, read from the output of `sw_vers`.
use vstd::prelude::*;

use crate::model::Fact;
use crate::text::{
    chars_equal_str, chars_of, find_char, first_index_of, lines, lines_spec, message, slice_of,
    string_of, trim, trim_chars,
};

verus! {

/// The `sw_vers` fields that must be present, in the order of the facts.
pub open spec fn source_field(k: int) -> Seq<char> {
    if k == 0 {
        "ProductName"@
    } else if k == 1 {
        "ProductVersion"@
    } else {
        "BuildVersion"@
    }
}

/// The fact name for each required field.
pub open spec fn target_fact(k: int) -> Seq<char> {
    if k == 0 {
        "os.name"@
    } else if k == 1 {
        "os.version"@
    } else {
        "os.build"@
    }
}

/// Which required field `key` names, if any.
pub open spec fn slot_of(key: Seq<char>) -> Option<int> {
    if key == source_field(0) {
        Some(0)
    } else if key == source_field(1) {
        Some(1)
    } else if key == source_field(2) {
        Some(2)
    } else {
        None
    }
}

/// The values seen so far for the three required fields.
pub type Slots = Seq<Option<Seq<char>>>;

pub open spec fn empty_slots() -> Slots {
    seq![None, None, None]
}

/// Reading one line: blank lines are skipped; other lines are `key: value`;
/// a required key may appear once.
pub open spec fn scan_line(slots: Slots, line: Seq<char>) -> Result<Slots, Seq<char>> {
    if trim(line).len() == 0 {
        Ok(slots)
    } else {
        match first_index_of(line, ':') {
            None => Err("invalid sw_vers line: "@ + line),
            Some(c) => {
                let key = trim(line.take(c));
                match slot_of(key) {
                    None => Ok(slots),
                    Some(k) => if slots[k] is Some {
                        Err("duplicate sw_vers field: "@ + key)
                    } else {
                        Ok(slots.update(k, Some(trim(line.skip(c + 1)))))
                    },
                }
            },
        }
    }
}

/// The first `n` lines, read in order.
pub open spec fn scan_lines(ls: Seq<Seq<char>>, n: int) -> Result<Slots, Seq<char>>
    decreases n,
{
    if n <= 0 {
        Ok(empty_slots())
    } else {
        match scan_lines(ls, n - 1) {
            Err(e) => Err(e),
            Ok(slots) => scan_line(slots, ls[n - 1]),
        }
    }
}

/// The facts for the first `n` required fields; a field that is absent or empty is missing.
pub open spec fn collect_facts(slots: Slots, n: int) -> Result<Seq<(Seq<char>, Seq<char>)>, Seq<char>>
    decreases n,
{
    if n <= 0 {
        Ok(seq![])
    } else {
        match collect_facts(slots, n - 1) {
            Err(e) => Err(e),
            Ok(done) => match slots[n - 1] {
                Some(v) => if v.len() > 0 {
                    Ok(done.push((target_fact(n - 1), v)))
                } else {
                    Err("missing sw_vers field: "@ + source_field(n - 1))
                },
                None => Err("missing sw_vers field: "@ + source_field(n - 1)),
            },
        }
    }
}

/// The facts `os.name`, `os.version` and `os.build` from `sw_vers` output.
pub open spec fn parse_spec(out: Seq<char>) -> Result<Seq<(Seq<char>, Seq<char>)>, Seq<char>> {
    let ls = lines_spec(out);
    match scan_lines(ls, ls.len() as int) {
        Err(e) => Err(e),
        Ok(slots) => collect_facts(slots, 3),
    }
}

proof fn lemma_scan_error_stays(ls: Seq<Seq<char>>, k: int, n: int)
    requires
        0 < k <= n,
        scan_lines(ls, k) is Err,
    ensures
        scan_lines(ls, n) == scan_lines(ls, k),
    decreases n - k,
{
    if k < n {
        lemma_scan_error_stays(ls, k, n - 1);
    }
}

pub open spec fn slots_view(a: Option<String>, b: Option<String>, c: Option<String>) -> Slots {
    seq![
        match a {
            Some(s) => Some(s@),
            None => None,
        },
        match b {
            Some(s) => Some(s@),
            None => None,
        },
        match c {
            Some(s) => Some(s@),
            None => None,
        },
    ]
}

fn key_slot(key: &Vec<char>) -> (r: Option<usize>)
    ensures
        match r {
            Some(k) => slot_of(key@) == Some(k as int) && k < 3,
            None => slot_of(key@) is None,
        },
{
    if chars_equal_str(key, "ProductName") {
        Some(0)
    } else if chars_equal_str(key, "ProductVersion") {
        Some(1)
    } else if chars_equal_str(key, "BuildVersion") {
        Some(2)
    } else {
        None
    }
}

fn fact_for(k: usize, slot: &Option<String>) -> (r: Result<Fact, String>)
    requires
        k < 3,
    ensures
        match r {
            Ok(f) => match slot {
                Some(v) => v@.len() > 0 && f@ == (target_fact(k as int), v@),
                None => false,
            },
            Err(e) => (match slot {
                Some(v) => v@.len() == 0,
                None => true,
            }) && e@ == "missing sw_vers field: "@ + source_field(k as int),
        },
{
    let (source, target) = if k == 0 {
        ("ProductName", "os.name")
    } else if k == 1 {
        ("ProductVersion", "os.version")
    } else {
        ("BuildVersion", "os.build")
    };
    match slot {
        Some(v) => {
            let vc = chars_of(v.as_str());
            if vc.len() > 0 {
                Ok(Fact { name: String::from_str(target), value: v.clone() })
            } else {
                Err(message("missing sw_vers field: ", source))
            }
        },
        None => Err(message("missing sw_vers field: ", source)),
    }
}

/// Reads the macOS product name, version and build from `sw_vers` output.
pub fn parse(output: &str) -> (r: Result<Vec<Fact>, String>)
    ensures
        match r {
            Ok(facts) => parse_spec(output@) == Ok::<Seq<(Seq<char>, Seq<char>)>, Seq<char>>(
                facts@.map_values(|f: Fact| f@),
            ),
            Err(e) => parse_spec(output@) == Err::<Seq<(Seq<char>, Seq<char>)>, Seq<char>>(e@),
        },
{
    let v = chars_of(output);
    let ls = lines(&v);
    let ghost lsv = ls@.map_values(|p: Vec<char>| p@);
    let mut slot0: Option<String> = None;
    let mut slot1: Option<String> = None;
    let mut slot2: Option<String> = None;
    let mut i: usize = 0;
    assert(slots_view(slot0, slot1, slot2) =~= empty_slots());
    while i < ls.len()
        invariant
            lsv == ls@.map_values(|p: Vec<char>| p@),
            lsv == lines_spec(output@),
            i <= ls.len(),
            scan_lines(lsv, i as int) == Ok::<Slots, Seq<char>>(slots_view(slot0, slot1, slot2)),
        decreases ls.len() - i,
    {
        let line = &ls[i];
        assert(lsv[i as int] == line@);
        let ghost before = slots_view(slot0, slot1, slot2);
        let trimmed = trim_chars(line);
        if trimmed.len() != 0 {
            let colon = match find_char(line, ':') {
                Some(c) => c,
                None => {
                    let text = string_of(line, 0, line.len());
                    assert(text@ =~= line@);
                    let e = message("invalid sw_vers line: ", text.as_str());
                    proof {
                        lemma_scan_error_stays(lsv, i + 1, lsv.len() as int);
                    }
                    return Err(e);
                },
            };
            let key_raw = slice_of(line, 0, colon);
            let key = trim_chars(&key_raw);
            match key_slot(&key) {
                None => {},
                Some(k) => {
                    let taken = if k == 0 {
                        slot0.is_some()
                    } else if k == 1 {
                        slot1.is_some()
                    } else {
                        slot2.is_some()
                    };
                    if taken {
                        let key_text = string_of(&key, 0, key.len());
                        assert(key_text@ =~= key@);
                        let e = message("duplicate sw_vers field: ", key_text.as_str());
                        proof {
                            lemma_scan_error_stays(lsv, i + 1, lsv.len() as int);
                        }
                        return Err(e);
                    }
                    let value_raw = slice_of(line, colon + 1, line.len());
                    let value_chars = trim_chars(&value_raw);
                    let value = string_of(&value_chars, 0, value_chars.len());
                    assert(value@ =~= value_chars@);
                    assert(value_raw@ =~= line@.skip(colon + 1));
                    if k == 0 {
                        slot0 = Some(value);
                    } else if k == 1 {
                        slot1 = Some(value);
                    } else {
                        slot2 = Some(value);
                    }
                    assert(slots_view(slot0, slot1, slot2) =~= before.update(
                        k as int,
                        Some(value@),
                    ));
                },
            }
        }
        i += 1;
    }
    assert(lsv.len() == ls.len());
    let ghost slots = slots_view(slot0, slot1, slot2);
    let mut facts: Vec<Fact> = Vec::new();
    let mut k: usize = 0;
    assert(facts@.map_values(|f: Fact| f@) =~= Seq::<(Seq<char>, Seq<char>)>::empty());
    while k < 3
        invariant
            k <= 3,
            slots == slots_view(slot0, slot1, slot2),
            scan_lines(lsv, lsv.len() as int) == Ok::<Slots, Seq<char>>(slots),
            lsv == lines_spec(output@),
            collect_facts(slots, k as int) == Ok::<Seq<(Seq<char>, Seq<char>)>, Seq<char>>(
                facts@.map_values(|f: Fact| f@),
            ),
        decreases 3 - k,
    {
        let slot = if k == 0 {
            &slot0
        } else if k == 1 {
            &slot1
        } else {
            &slot2
        };
        match fact_for(k, slot) {
            Ok(f) => {
                let ghost before = facts@.map_values(|f: Fact| f@);
                facts.push(f);
                assert(facts@.map_values(|f: Fact| f@) =~= before.push(f@));
            },
            Err(e) => {
                assert(collect_facts(slots, k + 1) == Err::<
                    Seq<(Seq<char>, Seq<char>)>,
                    Seq<char>,
                >(e@));
                proof {
                    lemma_collect_error_stays(slots, k + 1, 3);
                }
                return Err(e);
            },
        }
        k += 1;
    }
    Ok(facts)
}

proof fn lemma_collect_error_stays(slots: Slots, k: int, n: int)
    requires
        0 < k <= n,
        collect_facts(slots, k) is Err,
    ensures
        collect_facts(slots, n) == collect_facts(slots, k),
    decreases n - k,
{
    if k < n {
        lemma_collect_error_stays(slots, k, n - 1);
    }
}

} // verus!

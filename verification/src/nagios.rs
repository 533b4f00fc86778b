//! The Nagios plugin output format: a summary, `|`, then performance data
//! `'label'=value[unit];warn;crit;min;max` separated by whitespace.
//!
//! Which prefix of a value field is a number is decided by a classifier that
//! the caller supplies (the numeric syntax is that of the caller's number
//! type); the parser keeps the numeric text as it was written.
use vstd::prelude::*;

use crate::text::{
    answer_of, ascii_ws, ask, chars_of, find_char, first_index_of, is_ascii_ws, is_text_function,
    message, slice_of, split_chars, split_on, string_of, trim, trim_chars,
};

verus! {

/// How a piece of text reads as a number.
#[derive(Debug, Clone, Copy, PartialEq, Eq, Structural)]
pub enum NumberClass {
    /// A finite number.
    Finite,
    /// A number that is not finite (infinite or not a number).
    NonFinite,
    /// Not a number at all.
    Invalid,
}

/// One performance datum; numbers are kept as their text.
#[derive(Debug, Clone, PartialEq, Eq)]
pub struct PerformanceDatum {
    pub label: String,
    pub value: String,
    pub unit: String,
    pub min: Option<String>,
    pub max: Option<String>,
}

#[derive(Debug, Clone, PartialEq, Eq)]
pub struct ParsedOutput {
    pub summary: String,
    pub metrics: Vec<PerformanceDatum>,
}

/// The abstract value of a performance datum.
pub ghost struct DatumSpec {
    pub label: Seq<char>,
    pub value: Seq<char>,
    pub unit: Seq<char>,
    pub min: Option<Seq<char>>,
    pub max: Option<Seq<char>>,
}

pub open spec fn opt_view(o: Option<String>) -> Option<Seq<char>> {
    match o {
        Some(s) => Some(s@),
        None => None,
    }
}

impl View for PerformanceDatum {
    type V = DatumSpec;

    open spec fn view(&self) -> DatumSpec {
        DatumSpec {
            label: self.label@,
            value: self.value@,
            unit: self.unit@,
            min: opt_view(self.min),
            max: opt_view(self.max),
        }
    }
}

impl View for ParsedOutput {
    type V = (Seq<char>, Seq<DatumSpec>);

    open spec fn view(&self) -> (Seq<char>, Seq<DatumSpec>) {
        (self.summary@, self.metrics@.map_values(|d: PerformanceDatum| d@))
    }
}

/// `f` reads any text as a number, and its answer depends on the text alone.
pub open spec fn is_text_classifier<F: Fn(&str) -> NumberClass>(f: F) -> bool {
    is_text_function::<NumberClass, F>(f)
}

/// The class that `f` gives to `text`.
pub open spec fn class_of<F: Fn(&str) -> NumberClass>(f: F, text: Seq<char>) -> NumberClass {
    answer_of::<NumberClass, F>(f, text)
}

fn classify<F: Fn(&str) -> NumberClass>(f: &F, text: &String) -> (r: NumberClass)
    requires
        is_text_classifier(*f),
    ensures
        r == class_of(*f, text@),
{
    ask(f, text)
}

pub open spec fn quote() -> char {
    '\''
}

/// First position at or after `i` that is not ASCII whitespace.
pub open spec fn skip_ws(s: Seq<char>, i: int) -> int
    decreases s.len() - i,
{
    if 0 <= i < s.len() && is_ascii_ws(s[i]) {
        skip_ws(s, i + 1)
    } else {
        i
    }
}

/// First position at or after `i` that is ASCII whitespace (or the end).
pub open spec fn skip_word(s: Seq<char>, i: int) -> int
    decreases s.len() - i,
{
    if 0 <= i < s.len() && !is_ascii_ws(s[i]) {
        skip_word(s, i + 1)
    } else {
        i
    }
}

/// First position at or after `i` that holds a quote (or the end).
pub open spec fn next_quote(s: Seq<char>, i: int) -> int
    decreases s.len() - i,
{
    if 0 <= i < s.len() && s[i] != quote() {
        next_quote(s, i + 1)
    } else {
        i
    }
}

pub proof fn lemma_skip_ws(s: Seq<char>, i: int)
    ensures
        skip_ws(s, i) >= i,
        0 <= i <= s.len() ==> skip_ws(s, i) <= s.len(),
    decreases s.len() - i,
{
    if 0 <= i < s.len() && is_ascii_ws(s[i]) {
        lemma_skip_ws(s, i + 1);
    }
}

pub proof fn lemma_skip_word(s: Seq<char>, i: int)
    ensures
        skip_word(s, i) >= i,
        0 <= i <= s.len() ==> skip_word(s, i) <= s.len(),
    decreases s.len() - i,
{
    if 0 <= i < s.len() && !is_ascii_ws(s[i]) {
        lemma_skip_word(s, i + 1);
    }
}

pub proof fn lemma_next_quote(s: Seq<char>, i: int)
    ensures
        next_quote(s, i) >= i,
        0 <= i <= s.len() ==> next_quote(s, i) <= s.len(),
    decreases s.len() - i,
{
    if 0 <= i < s.len() && s[i] != quote() {
        lemma_next_quote(s, i + 1);
    }
}

/// End of the token that starts at `st` (where `s[st]` is not whitespace), or
/// `None` for a quoted label that is never closed.
pub open spec fn token_end(s: Seq<char>, st: int) -> Option<int> {
    if s[st] == quote() {
        let q = next_quote(s, st + 1);
        if q >= s.len() {
            None
        } else {
            Some(skip_word(s, q + 1))
        }
    } else {
        Some(skip_word(s, st))
    }
}

/// The tokens of `s` from position `i` on.
pub open spec fn tokens_from(s: Seq<char>, i: int) -> Option<Seq<Seq<char>>>
    decreases s.len() - i,
{
    if 0 <= i <= s.len() {
        let st = skip_ws(s, i);
        if st >= s.len() {
            Some(seq![])
        } else {
            match token_end(s, st) {
                None => None,
                Some(e) => {
                    proof {
                        lemma_skip_ws(s, i);
                        lemma_skip_word(s, st);
                        lemma_next_quote(s, st + 1);
                        lemma_skip_word(s, next_quote(s, st + 1) + 1);
                    }
                    if i < e <= s.len() {
                        match tokens_from(s, e) {
                            Some(rest) => Some(seq![s.subrange(st, e)] + rest),
                            None => None,
                        }
                    } else {
                        None
                    }
                }
            }
        }
    } else {
        None
    }
}

pub open spec fn unterminated_label_message() -> Seq<char> {
    "unterminated quoted performance label"@
}

/// Splitting performance data into whitespace-separated tokens; a token that
/// starts with a quote runs at least to the closing quote.
pub open spec fn tokenize_spec(s: Seq<char>) -> Result<Seq<Seq<char>>, Seq<char>> {
    match tokens_from(s, 0) {
        Some(t) => Ok(t),
        None => Err(unterminated_label_message()),
    }
}

pub open spec fn prepend(done: Seq<Seq<char>>, rest: Option<Seq<Seq<char>>>) -> Option<
    Seq<Seq<char>>,
> {
    match rest {
        Some(r) => Some(done + r),
        None => None,
    }
}

pub open spec fn strings_view(v: Seq<String>) -> Seq<Seq<char>> {
    v.map_values(|s: String| s@)
}

fn tokenize_chars(v: &Vec<char>) -> (r: Option<Vec<String>>)
    ensures
        r matches Some(t) ==> tokens_from(v@, 0) == Some(strings_view(t@)),
        r is None ==> tokens_from(v@, 0) is None,
{
    let ghost s = v@;
    let mut tokens: Vec<String> = Vec::new();
    let mut start: usize = 0;
    assert(prepend(strings_view(tokens@), tokens_from(s, 0)) =~= tokens_from(s, 0)) by {
        assert(strings_view(tokens@) =~= Seq::<Seq<char>>::empty());
        match tokens_from(s, 0) {
            Some(r) => {
                assert(Seq::<Seq<char>>::empty() + r =~= r);
            },
            None => {},
        }
    }
    while start < v.len()
        invariant
            s == v@,
            start <= v.len(),
            prepend(strings_view(tokens@), tokens_from(s, start as int)) == tokens_from(s, 0),
        decreases v.len() - start,
    {
        let ghost start0 = start as int;
        while start < v.len() && ascii_ws(v[start])
            invariant
                s == v@,
                start0 <= start <= v.len(),
                skip_ws(s, start0) == skip_ws(s, start as int),
            decreases v.len() - start,
        {
            start += 1;
        }
        if start < v.len() {
            let mut end = start;
            if v[start] == '\'' {
                end += 1;
                while end < v.len() && v[end] != '\''
                    invariant
                        s == v@,
                        start < end <= v.len(),
                        next_quote(s, start + 1) == next_quote(s, end as int),
                    decreases v.len() - end,
                {
                    end += 1;
                }
                if end == v.len() {
                    assert(token_end(s, start as int) is None);
                    return None;
                }
                end += 1;
            }
            let ghost end0 = end as int;
            while end < v.len() && !ascii_ws(v[end])
                invariant
                    s == v@,
                    start <= end0 <= end <= v.len(),
                    skip_word(s, end0) == skip_word(s, end as int),
                decreases v.len() - end,
            {
                end += 1;
            }
            proof {
                lemma_skip_ws(s, start0);
                assert(token_end(s, start as int) == Some(end as int));
                assert(start0 < end);
            }
            let token = string_of(v, start, end);
            let ghost before = strings_view(tokens@);
            tokens.push(token);
            proof {
                assert(strings_view(tokens@) =~= before.push(token@));
                match tokens_from(s, end as int) {
                    Some(rest) => {
                        assert(before + (seq![token@] + rest) =~= before.push(token@) + rest);
                    },
                    None => {},
                }
            }
            start = end;
        }
    }
    proof {
        assert(skip_ws(s, start as int) == start);
        assert(tokens_from(s, start as int) == Some(Seq::<Seq<char>>::empty()));
        assert(strings_view(tokens@) + Seq::<Seq<char>>::empty() =~= strings_view(tokens@));
    }
    Some(tokens)
}

/// Splits performance data into tokens.
pub fn tokenize(input: &str) -> (r: Result<Vec<String>, String>)
    ensures
        match r {
            Ok(t) => tokenize_spec(input@) == Ok::<Seq<Seq<char>>, Seq<char>>(strings_view(t@)),
            Err(e) => tokenize_spec(input@) == Err::<Seq<Seq<char>>, Seq<char>>(e@),
        },
{
    let v = chars_of(input);
    match tokenize_chars(&v) {
        Some(t) => Ok(t),
        None => Err(String::from_str("unterminated quoted performance label")),
    }
}

/// A quoted label loses its quotes.
pub open spec fn strip_label(l: Seq<char>) -> Seq<char> {
    if l.len() >= 2 && l[0] == quote() && l.last() == quote() {
        l.subrange(1, l.len() - 1)
    } else {
        l
    }
}

/// The longest prefix of `s`, of at most `n` characters and at least one, that
/// `f` reads as a finite number.
pub open spec fn finite_prefix<F: Fn(&str) -> NumberClass>(f: F, s: Seq<char>, n: int) -> Option<
    int,
>
    decreases n,
{
    if n <= 0 {
        None
    } else if class_of(f, s.take(n)) == NumberClass::Finite {
        Some(n)
    } else {
        finite_prefix(f, s, n - 1)
    }
}

/// A value field is a finite number followed by its unit.
pub open spec fn parse_value_spec<F: Fn(&str) -> NumberClass>(f: F, s: Seq<char>) -> Result<
    (Seq<char>, Seq<char>),
    Seq<char>,
> {
    match finite_prefix(f, s, s.len() as int) {
        Some(k) => Ok((s.take(k), s.skip(k))),
        None => Err("invalid performance value: "@ + s),
    }
}

/// An absent or empty bound is no bound; a present one must be a finite number.
pub open spec fn optional_number_spec<F: Fn(&str) -> NumberClass>(
    f: F,
    o: Option<Seq<char>>,
) -> Result<Option<Seq<char>>, Seq<char>> {
    match o {
        None => Ok(None),
        Some(x) => if x.len() == 0 {
            Ok(None)
        } else {
            match class_of(f, x) {
                NumberClass::Finite => Ok(Some(x)),
                NumberClass::NonFinite => Err("non-finite performance bound: "@ + x),
                NumberClass::Invalid => Err("invalid performance bound: "@ + x),
            }
        },
    }
}

pub open spec fn field_at(fields: Seq<Seq<char>>, i: int) -> Option<Seq<char>> {
    if 0 <= i < fields.len() {
        Some(fields[i])
    } else {
        None
    }
}

/// One token `label=value[unit];warn;crit;min;max`.
pub open spec fn parse_datum_spec<F: Fn(&str) -> NumberClass>(f: F, t: Seq<char>) -> Result<
    DatumSpec,
    Seq<char>,
> {
    match first_index_of(t, '=') {
        None => Err("performance datum has no value: "@ + t),
        Some(i) => {
            let label = strip_label(t.take(i));
            if label.len() == 0 {
                Err("performance datum has an empty label"@)
            } else {
                let fields = split_on(t.skip(i + 1), ';');
                match parse_value_spec(f, fields[0]) {
                    Err(e) => Err(e),
                    Ok((value, unit)) => match optional_number_spec(f, field_at(fields, 3)) {
                        Err(e) => Err(e),
                        Ok(min) => match optional_number_spec(f, field_at(fields, 4)) {
                            Err(e) => Err(e),
                            Ok(max) => Ok(DatumSpec { label, value, unit, min, max }),
                        },
                    },
                }
            }
        },
    }
}

/// A label is kept exactly as written unless it both starts and ends with a
/// quote; a quoted label loses exactly those two quotes and nothing else.
pub proof fn law_label_kept_unless_quoted<F: Fn(&str) -> NumberClass>(
    f: F,
    t: Seq<char>,
    i: int,
)
    requires
        first_index_of(t, '=') == Some(i),
        0 <= i < t.len(),
    ensures
        match parse_datum_spec(f, t) {
            Ok(d) => {
                let l = t.take(i);
                &&& (l.len() >= 2 && l[0] == '\'' && l[l.len() - 1] == '\'') ==> d.label
                    == l.subrange(1, l.len() - 1)
                &&& !(l.len() >= 2 && l[0] == '\'' && l[l.len() - 1] == '\'') ==> d.label == l
            },
            Err(_) => true,
        },
{
}

/// The first `n` tokens, parsed in order; the first failure wins.
pub open spec fn parse_data_spec<F: Fn(&str) -> NumberClass>(
    f: F,
    tokens: Seq<Seq<char>>,
    n: int,
) -> Result<Seq<DatumSpec>, Seq<char>>
    decreases n,
{
    if n <= 0 {
        Ok(seq![])
    } else {
        match parse_data_spec(f, tokens, n - 1) {
            Err(e) => Err(e),
            Ok(done) => match parse_datum_spec(f, tokens[n - 1]) {
                Err(e) => Err(e),
                Ok(d) => Ok(done.push(d)),
            },
        }
    }
}

proof fn lemma_parse_data_error_stays<F: Fn(&str) -> NumberClass>(
    f: F,
    tokens: Seq<Seq<char>>,
    k: int,
    n: int,
)
    requires
        0 < k <= n,
        parse_data_spec(f, tokens, k) is Err,
    ensures
        parse_data_spec(f, tokens, n) == parse_data_spec(f, tokens, k),
    decreases n - k,
{
    if k < n {
        lemma_parse_data_error_stays(f, tokens, k, n - 1);
    }
}

/// Nagios plugin output: the trimmed summary before the first `|`, and the
/// performance data after it, of which there must be at least one datum.
pub open spec fn parse_spec<F: Fn(&str) -> NumberClass>(f: F, out: Seq<char>) -> Result<
    (Seq<char>, Seq<DatumSpec>),
    Seq<char>,
> {
    match first_index_of(out, '|') {
        None => Err("missing Nagios performance data separator"@),
        Some(p) => match tokenize_spec(out.skip(p + 1)) {
            Err(e) => Err(e),
            Ok(tokens) => if tokens.len() == 0 {
                Err("missing Nagios performance data"@)
            } else {
                match parse_data_spec(f, tokens, tokens.len() as int) {
                    Err(e) => Err(e),
                    Ok(data) => Ok((trim(out.take(p)), data)),
                }
            },
        },
    }
}

fn parse_value<F: Fn(&str) -> NumberClass>(f: &F, v: &Vec<char>) -> (r: Result<
    (String, String),
    String,
>)
    requires
        is_text_classifier(*f),
    ensures
        match r {
            Ok((value, unit)) => parse_value_spec(*f, v@) == Ok::<
                (Seq<char>, Seq<char>),
                Seq<char>,
            >((value@, unit@)),
            Err(e) => parse_value_spec(*f, v@) == Err::<(Seq<char>, Seq<char>), Seq<char>>(e@),
        },
{
    let mut k = v.len();
    while k > 0
        invariant
            k <= v.len(),
            is_text_classifier(*f),
            finite_prefix(*f, v@, v@.len() as int) == finite_prefix(*f, v@, k as int),
        decreases k,
    {
        let prefix = string_of(v, 0, k);
        assert(prefix@ == v@.take(k as int));
        if classify(f, &prefix) == NumberClass::Finite {
            let unit = string_of(v, k, v.len());
            assert(unit@ == v@.skip(k as int));
            return Ok((prefix, unit));
        }
        k -= 1;
    }
    let whole = string_of(v, 0, v.len());
    assert(whole@ =~= v@);
    Err(message("invalid performance value: ", whole.as_str()))
}

fn optional_number<F: Fn(&str) -> NumberClass>(f: &F, o: Option<&Vec<char>>) -> (r: Result<
    Option<String>,
    String,
>)
    requires
        is_text_classifier(*f),
    ensures
        match r {
            Ok(n) => optional_number_spec(*f, opt_chars(o)) == Ok::<
                Option<Seq<char>>,
                Seq<char>,
            >(opt_view(n)),
            Err(e) => optional_number_spec(*f, opt_chars(o)) == Err::<
                Option<Seq<char>>,
                Seq<char>,
            >(e@),
        },
{
    match o {
        None => Ok(None),
        Some(x) => {
            if x.len() == 0 {
                return Ok(None);
            }
            let text = string_of(x, 0, x.len());
            assert(text@ =~= x@);
            match classify(f, &text) {
                NumberClass::Finite => Ok(Some(text)),
                NumberClass::NonFinite => Err(
                    message("non-finite performance bound: ", text.as_str()),
                ),
                NumberClass::Invalid => Err(message("invalid performance bound: ", text.as_str())),
            }
        },
    }
}

pub open spec fn opt_chars(o: Option<&Vec<char>>) -> Option<Seq<char>> {
    match o {
        Some(v) => Some(v@),
        None => None,
    }
}

fn nth_field(fields: &Vec<Vec<char>>, i: usize) -> (r: Option<&Vec<char>>)
    ensures
        opt_chars(r) == field_at(fields@.map_values(|p: Vec<char>| p@), i as int),
{
    if i < fields.len() {
        Some(&fields[i])
    } else {
        None
    }
}

/// Parses one performance datum.
pub fn parse_datum<F: Fn(&str) -> NumberClass>(token: &str, classify_number: &F) -> (r: Result<
    PerformanceDatum,
    String,
>)
    requires
        is_text_classifier(*classify_number),
    ensures
        match r {
            Ok(d) => parse_datum_spec(*classify_number, token@) == Ok::<DatumSpec, Seq<char>>(
                d@,
            ),
            Err(e) => parse_datum_spec(*classify_number, token@) == Err::<DatumSpec, Seq<char>>(
                e@,
            ),
        },
{
    let f = classify_number;
    let v = chars_of(token);
    let eq = match find_char(&v, '=') {
        Some(i) => i,
        None => return Err(message("performance datum has no value: ", token)),
    };
    let raw = slice_of(&v, 0, eq);
    let label_chars = if raw.len() >= 2 && raw[0] == '\'' && raw[raw.len() - 1] == '\'' {
        slice_of(&raw, 1, raw.len() - 1)
    } else {
        raw
    };
    assert(label_chars@ == strip_label(v@.take(eq as int)));
    if label_chars.len() == 0 {
        return Err(String::from_str("performance datum has an empty label"));
    }
    let label = string_of(&label_chars, 0, label_chars.len());
    assert(label@ =~= label_chars@);
    let rest = slice_of(&v, eq + 1, v.len());
    assert(rest@ =~= v@.skip(eq + 1));
    let fields = split_chars(&rest, ';');
    let ghost fs = fields@.map_values(|p: Vec<char>| p@);
    assert(fs.len() >= 1);
    assert(fs[0] == fields@[0]@);
    let (value, unit) = match parse_value(f, &fields[0]) {
        Ok(pair) => pair,
        Err(e) => return Err(e),
    };
    let min = match optional_number(f, nth_field(&fields, 3)) {
        Ok(n) => n,
        Err(e) => return Err(e),
    };
    let max = match optional_number(f, nth_field(&fields, 4)) {
        Ok(n) => n,
        Err(e) => return Err(e),
    };
    Ok(PerformanceDatum { label, value, unit, min, max })
}

/// Parses Nagios plugin output.
pub fn parse<F: Fn(&str) -> NumberClass>(output: &str, classify_number: F) -> (r: Result<
    ParsedOutput,
    String,
>)
    requires
        is_text_classifier(classify_number),
    ensures
        match r {
            Ok(p) => parse_spec(classify_number, output@) == Ok::<
                (Seq<char>, Seq<DatumSpec>),
                Seq<char>,
            >(p@),
            Err(e) => parse_spec(classify_number, output@) == Err::<
                (Seq<char>, Seq<DatumSpec>),
                Seq<char>,
            >(e@),
        },
{
    let f = &classify_number;
    let v = chars_of(output);
    let bar = match find_char(&v, '|') {
        Some(i) => i,
        None => return Err(String::from_str("missing Nagios performance data separator")),
    };
    let data_text = string_of(&v, bar + 1, v.len());
    assert(data_text@ =~= output@.skip(bar + 1));
    let tokens = match tokenize(data_text.as_str()) {
        Ok(t) => t,
        Err(e) => return Err(e),
    };
    let ghost ts = strings_view(tokens@);
    if tokens.len() == 0 {
        return Err(String::from_str("missing Nagios performance data"));
    }
    let mut metrics: Vec<PerformanceDatum> = Vec::new();
    let mut i: usize = 0;
    assert(metrics@.map_values(|d: PerformanceDatum| d@) =~= Seq::<DatumSpec>::empty());
    while i < tokens.len()
        invariant
            is_text_classifier(*f),
            *f == classify_number,
            ts == strings_view(tokens@),
            ts.len() > 0,
            first_index_of(output@, '|') == Some(bar as int),
            tokenize_spec(output@.skip(bar + 1)) == Ok::<Seq<Seq<char>>, Seq<char>>(ts),
            i <= tokens.len(),
            parse_data_spec(*f, ts, i as int) == Ok::<Seq<DatumSpec>, Seq<char>>(
                metrics@.map_values(|d: PerformanceDatum| d@),
            ),
        decreases tokens.len() - i,
    {
        assert(ts[i as int] == tokens@[i as int]@);
        match parse_datum(tokens[i].as_str(), f) {
            Ok(d) => {
                let ghost before = metrics@.map_values(|d: PerformanceDatum| d@);
                metrics.push(d);
                assert(metrics@.map_values(|d: PerformanceDatum| d@) =~= before.push(d@));
            },
            Err(e) => {
                proof {
                    assert(parse_data_spec(*f, ts, i + 1) == Err::<Seq<DatumSpec>, Seq<char>>(
                        e@,
                    ));
                    lemma_parse_data_error_stays(*f, ts, i + 1, ts.len() as int);
                }
                return Err(e);
            },
        }
        i += 1;
    }
    let summary_chars = slice_of(&v, 0, bar);
    let trimmed = trim_chars(&summary_chars);
    let summary = string_of(&trimmed, 0, trimmed.len());
    assert(summary@ =~= trimmed@);
    assert(summary_chars@ =~= output@.take(bar as int));
    Ok(ParsedOutput { summary, metrics })
}

} // verus!

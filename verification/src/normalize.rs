//! Stable metric names for known Nagios check outputs.
//!
//! Numbers stay in the text in which the check wrote them; whether such a text
//! is negative is decided by a function that the caller supplies, which reads
//! it as the caller's number type does.
use vstd::prelude::*;

use crate::nagios::{DatumSpec, ParsedOutput, PerformanceDatum};
use crate::text::{
    answer_of, ask, chars_equal_str, chars_of, decimal, find_chars, find_seq, occurs_at, is_text_function,
    message, parse_u32, parse_u32_spec, push_decimal, slice_of,
};

verus! {

pub open spec fn cpu_count_marker() -> Seq<char> {
    "Scaled Load ("@
}

pub open spec fn cpu_count_suffix() -> Seq<char> {
    " CPUs)"@
}

/// The logical CPU count: the number between `Scaled Load (` and the next
/// ` CPUs)`, which must be a positive `u32`.
pub open spec fn logical_cpu_count_spec(summary: Seq<char>) -> Result<u32, Seq<char>> {
    match find_seq(summary, cpu_count_marker()) {
        None => Err("CPU summary has no logical CPU count"@),
        Some(i) => {
            let rest = summary.skip(i + cpu_count_marker().len());
            match find_seq(rest, cpu_count_suffix()) {
                None => Err("CPU summary has an invalid logical CPU count"@),
                Some(e) => match parse_u32_spec(rest.take(e)) {
                    None => Err("CPU summary has an invalid logical CPU count"@),
                    Some(n) => if n == 0 {
                        Err("CPU summary reports zero logical CPUs"@)
                    } else {
                        Ok(n)
                    },
                },
            }
        },
    }
}

/// Reads the logical CPU count from a `check_load` summary.
pub fn logical_cpu_count(summary: &str) -> (r: Result<u32, String>)
    ensures
        match r {
            Ok(n) => logical_cpu_count_spec(summary@) == Ok::<u32, Seq<char>>(n),
            Err(e) => logical_cpu_count_spec(summary@) == Err::<u32, Seq<char>>(e@),
        },
{
    let v = chars_of(summary);
    let marker = chars_of("Scaled Load (");
    let index = match find_chars(&v, &marker) {
        Some(i) => i,
        None => return Err(String::from_str("CPU summary has no logical CPU count")),
    };
    assert(occurs_at(v@, marker@, index as int));
    assert(marker@.len() == marker.len());
    assert(index + marker.len() <= v.len());
    let after = index + marker.len();
    let rest = slice_of(&v, after, v.len());
    assert(rest@ =~= summary@.skip(index + cpu_count_marker().len()));
    let suffix = chars_of(" CPUs)");
    let end = match find_chars(&rest, &suffix) {
        Some(e) => e,
        None => return Err(String::from_str("CPU summary has an invalid logical CPU count")),
    };
    let digits = slice_of(&rest, 0, end);
    assert(digits@ =~= rest@.take(end as int));
    match parse_u32(&digits) {
        None => Err(String::from_str("CPU summary has an invalid logical CPU count")),
        Some(n) => if n == 0 {
            Err(String::from_str("CPU summary reports zero logical CPUs"))
        } else {
            Ok(n)
        },
    }
}

/// A metric under its stable name, with the number as written and its unit.
#[derive(Debug, Clone, PartialEq, Eq)]
pub struct NormalizedMetric {
    pub name: String,
    pub value: String,
    pub unit: Option<String>,
}

pub ghost struct MetricSpec {
    pub name: Seq<char>,
    pub value: Seq<char>,
    pub unit: Option<Seq<char>>,
}

impl View for NormalizedMetric {
    type V = MetricSpec;

    open spec fn view(&self) -> MetricSpec {
        MetricSpec {
            name: self.name@,
            value: self.value@,
            unit: match self.unit {
                Some(u) => Some(u@),
                None => None,
            },
        }
    }
}

pub open spec fn metrics_view(v: Seq<NormalizedMetric>) -> Seq<MetricSpec> {
    v.map_values(|m: NormalizedMetric| m@)
}

/// `i` is the first datum labelled `label`.
pub open spec fn is_first_label(data: Seq<DatumSpec>, label: Seq<char>, i: int) -> bool {
    &&& 0 <= i < data.len()
    &&& data[i].label == label
    &&& forall|j: int| 0 <= j < i ==> data[j].label != label
}

/// The first datum labelled `label`.
pub open spec fn find_label(data: Seq<DatumSpec>, label: Seq<char>) -> Option<int> {
    if exists|i: int| is_first_label(data, label, i) {
        Some(choose|i: int| is_first_label(data, label, i))
    } else {
        None
    }
}

pub open spec fn data_view(output: &ParsedOutput) -> Seq<DatumSpec> {
    output.metrics@.map_values(|d: PerformanceDatum| d@)
}

fn find_datum(output: &ParsedOutput, label: &str) -> (r: Option<usize>)
    ensures
        match r {
            Some(i) => find_label(data_view(output), label@) == Some(i as int) && i
                < output.metrics@.len(),
            None => find_label(data_view(output), label@) is None,
        },
{
    let ghost data = data_view(output);
    let mut i: usize = 0;
    while i < output.metrics.len()
        invariant
            data == data_view(output),
            i <= output.metrics@.len(),
            forall|j: int| 0 <= j < i ==> data[j].label != label@,
        decreases output.metrics.len() - i,
    {
        let d = &output.metrics[i];
        assert(data[i as int] == d@);
        if chars_equal_str(&chars_of(d.label.as_str()), label) {
            proof {
                assert(is_first_label(data, label@, i as int));
                let k = choose|k: int| is_first_label(data, label@, k);
                if k < i {
                    assert(data[k].label != label@);
                }
                if i < k {
                    assert(data[i as int].label != label@);
                }
            }
            return Some(i);
        }
        i += 1;
    }
    None
}

fn is_empty_text(s: &String) -> (r: bool)
    ensures
        r == (s@.len() == 0),
{
    chars_of(s.as_str()).len() == 0
}

/// The `check_load -r` data that become CPU metrics, and their names.
pub open spec fn cpu_source(k: int) -> Seq<char> {
    if k == 0 {
        "load1"@
    } else if k == 1 {
        "load5"@
    } else if k == 2 {
        "load15"@
    } else if k == 3 {
        "scaled_load1"@
    } else if k == 4 {
        "scaled_load5"@
    } else {
        "scaled_load15"@
    }
}

pub open spec fn cpu_target(k: int) -> Seq<char> {
    if k == 0 {
        "cpu.load.1m"@
    } else if k == 1 {
        "cpu.load.5m"@
    } else if k == 2 {
        "cpu.load.15m"@
    } else if k == 3 {
        "cpu.load_per_logical_cpu.1m"@
    } else if k == 4 {
        "cpu.load_per_logical_cpu.5m"@
    } else {
        "cpu.load_per_logical_cpu.15m"@
    }
}

fn cpu_labels(k: usize) -> (r: (&'static str, &'static str))
    requires
        k < 6,
    ensures
        r.0@ == cpu_source(k as int),
        r.1@ == cpu_target(k as int),
{
    if k == 0 {
        ("load1", "cpu.load.1m")
    } else if k == 1 {
        ("load5", "cpu.load.5m")
    } else if k == 2 {
        ("load15", "cpu.load.15m")
    } else if k == 3 {
        ("scaled_load1", "cpu.load_per_logical_cpu.1m")
    } else if k == 4 {
        ("scaled_load5", "cpu.load_per_logical_cpu.5m")
    } else {
        ("scaled_load15", "cpu.load_per_logical_cpu.15m")
    }
}

/// The first `n` CPU load metrics: each source datum must exist, have no unit
/// and not be negative.
pub open spec fn cpu_metrics_spec<F: Fn(&str) -> bool>(
    data: Seq<DatumSpec>,
    is_negative: F,
    n: int,
) -> Result<Seq<MetricSpec>, Seq<char>>
    decreases n,
{
    if n <= 0 {
        Ok(seq![])
    } else {
        match cpu_metrics_spec(data, is_negative, n - 1) {
            Err(e) => Err(e),
            Ok(done) => match find_label(data, cpu_source(n - 1)) {
                None => Err("missing CPU metric: "@ + cpu_source(n - 1)),
                Some(i) => if data[i].unit.len() != 0 || answer_of(is_negative, data[i].value) {
                    Err("invalid CPU metric: "@ + cpu_source(n - 1))
                } else {
                    Ok(done.push(MetricSpec { name: cpu_target(n - 1), value: data[i].value, unit: None }))
                },
            },
        }
    }
}

/// `m` is the metric `name` that carries the value of the first datum
/// labelled `label`, without a unit.
pub open spec fn carries(m: MetricSpec, data: Seq<DatumSpec>, name: Seq<char>, label: Seq<char>) -> bool {
    &&& find_label(data, label) is Some
    &&& m.name == name
    &&& m.value == data[find_label(data, label).unwrap()].value
    &&& m.unit is None
}

proof fn lemma_cpu_metrics_shape<F: Fn(&str) -> bool>(data: Seq<DatumSpec>, f: F, n: int)
    requires
        0 <= n,
    ensures
        match cpu_metrics_spec(data, f, n) {
            Ok(ms) => {
                &&& ms.len() == n
                &&& forall|k: int|
                    0 <= k < n ==> carries(#[trigger] ms[k], data, cpu_target(k), cpu_source(k))
            },
            Err(_) => true,
        },
    decreases n,
{
    if n > 0 {
        lemma_cpu_metrics_shape(data, f, n - 1);
    }
}

/// CPU load: the logical CPU count from the summary, then the raw and the
/// per-CPU load averages over 1, 5 and 15 minutes.
pub open spec fn cpu_load_spec<F: Fn(&str) -> bool>(
    summary: Seq<char>,
    data: Seq<DatumSpec>,
    is_negative: F,
) -> Result<Seq<MetricSpec>, Seq<char>> {
    match logical_cpu_count_spec(summary) {
        Err(e) => Err(e),
        Ok(n) => match cpu_metrics_spec(data, is_negative, 6) {
            Err(e) => Err(e),
            Ok(loads) => Ok(
                seq![MetricSpec { name: "cpu.logical_cpus"@, value: decimal(n as nat), unit: None }]
                    + loads,
            ),
        },
    }
}

/// Each CPU load metric carries the datum of its own window: `cpu.load.1m`,
/// `cpu.load.5m` and `cpu.load.15m` the data `load1`, `load5` and `load15`,
/// and the per-CPU metrics the `scaled_` data, after the logical CPU count.
pub proof fn law_cpu_load_windows<F: Fn(&str) -> bool>(
    summary: Seq<char>,
    data: Seq<DatumSpec>,
    is_negative: F,
)
    ensures
        match cpu_load_spec(summary, data, is_negative) {
            Ok(ms) => {
                &&& ms.len() == 7
                &&& ms[0].name == "cpu.logical_cpus"@
                &&& carries(ms[1], data, "cpu.load.1m"@, "load1"@)
                &&& carries(ms[2], data, "cpu.load.5m"@, "load5"@)
                &&& carries(ms[3], data, "cpu.load.15m"@, "load15"@)
                &&& carries(ms[4], data, "cpu.load_per_logical_cpu.1m"@, "scaled_load1"@)
                &&& carries(ms[5], data, "cpu.load_per_logical_cpu.5m"@, "scaled_load5"@)
                &&& carries(ms[6], data, "cpu.load_per_logical_cpu.15m"@, "scaled_load15"@)
            },
            Err(_) => true,
        },
{
    lemma_cpu_metrics_shape(data, is_negative, 6);
    if let Ok(ms) = cpu_load_spec(summary, data, is_negative) {
        let loads = cpu_metrics_spec(data, is_negative, 6)->Ok_0;
        assert forall|k: int| 0 <= k < 6 implies ms[k + 1] == loads[k] by {}
        assert(ms[1] == loads[0]);
        assert(ms[2] == loads[1]);
        assert(ms[3] == loads[2]);
        assert(ms[4] == loads[3]);
        assert(ms[5] == loads[4]);
        assert(ms[6] == loads[5]);
    }
}

proof fn lemma_cpu_error_stays<F: Fn(&str) -> bool>(data: Seq<DatumSpec>, f: F, k: int, n: int)
    requires
        0 < k <= n,
        cpu_metrics_spec(data, f, k) is Err,
    ensures
        cpu_metrics_spec(data, f, n) == cpu_metrics_spec(data, f, k),
    decreases n - k,
{
    if k < n {
        lemma_cpu_error_stays(data, f, k, n - 1);
    }
}

/// Normalizes `check_load -r` output.
pub fn cpu_load<F: Fn(&str) -> bool>(output: &ParsedOutput, is_negative: &F) -> (r: Result<
    Vec<NormalizedMetric>,
    String,
>)
    requires
        is_text_function::<bool, F>(*is_negative),
    ensures
        match r {
            Ok(ms) => cpu_load_spec(output.summary@, data_view(output), *is_negative) == Ok::<
                Seq<MetricSpec>,
                Seq<char>,
            >(metrics_view(ms@)),
            Err(e) => cpu_load_spec(output.summary@, data_view(output), *is_negative) == Err::<
                Seq<MetricSpec>,
                Seq<char>,
            >(e@),
        },
{
    let count = match logical_cpu_count(output.summary.as_str()) {
        Ok(n) => n,
        Err(e) => return Err(e),
    };
    let mut count_text = String::new();
    push_decimal(&mut count_text, count as u64);
    assert(count_text@ =~= decimal(count as nat));
    let mut loads: Vec<NormalizedMetric> = Vec::new();
    let ghost data = data_view(output);
    let mut k: usize = 0;
    assert(metrics_view(loads@) =~= Seq::<MetricSpec>::empty());
    while k < 6
        invariant
            k <= 6,
            data == data_view(output),
            logical_cpu_count_spec(output.summary@) == Ok::<u32, Seq<char>>(count),
            count_text@ == decimal(count as nat),
            is_text_function::<bool, F>(*is_negative),
            cpu_metrics_spec(data, *is_negative, k as int) == Ok::<Seq<MetricSpec>, Seq<char>>(
                metrics_view(loads@),
            ),
        decreases 6 - k,
    {
        let (source, target) = cpu_labels(k);
        let i = match find_datum(output, source) {
            Some(i) => i,
            None => {
                let e = message("missing CPU metric: ", source);
                proof {
                    lemma_cpu_error_stays(data, *is_negative, k + 1, 6);
                }
                return Err(e);
            },
        };
        let d = &output.metrics[i];
        assert(data[i as int] == d@);
        if !is_empty_text(&d.unit) || ask(is_negative, &d.value) {
            let e = message("invalid CPU metric: ", source);
            proof {
                lemma_cpu_error_stays(data, *is_negative, k + 1, 6);
            }
            return Err(e);
        }
        let m = NormalizedMetric { name: String::from_str(target), value: d.value.clone(), unit: None };
        let ghost before = metrics_view(loads@);
        loads.push(m);
        assert(metrics_view(loads@) =~= before.push(m@));
        k += 1;
    }
    let mut metrics: Vec<NormalizedMetric> = Vec::new();
    let head = NormalizedMetric { name: String::from_str("cpu.logical_cpus"), value: count_text, unit: None };
    assert(head@ == MetricSpec { name: "cpu.logical_cpus"@, value: decimal(count as nat), unit: None });
    metrics.push(head);
    let ghost first = metrics_view(metrics@);
    assert(first =~= seq![head@]);
    let ghost rest = metrics_view(loads@);
    metrics.append(&mut loads);
    assert(metrics_view(metrics@) =~= first + rest);
    Ok(metrics)
}

/// The memory check's data, each kept under its own name with its unit.
pub open spec fn memory_name(k: int) -> Seq<char> {
    if k == 0 {
        "memory.total"@
    } else if k == 1 {
        "memory.used"@
    } else if k == 2 {
        "memory.available"@
    } else if k == 3 {
        "memory.available_non_compressed"@
    } else if k == 4 {
        "memory.free"@
    } else if k == 5 {
        "memory.wired"@
    } else if k == 6 {
        "memory.compressed"@
    } else if k == 7 {
        "memory.system_free_percent"@
    } else if k == 8 {
        "swap.total"@
    } else if k == 9 {
        "swap.used"@
    } else {
        "swap.free"@
    }
}

/// The unit of each memory metric, and the unit symbol its datum must carry.
pub open spec fn memory_unit(k: int) -> Seq<char> {
    if k == 7 {
        "percent"@
    } else {
        "bytes"@
    }
}

pub open spec fn memory_symbol(k: int) -> Seq<char> {
    if k == 7 {
        "%"@
    } else {
        "B"@
    }
}

fn memory_labels(k: usize) -> (r: (&'static str, &'static str, &'static str))
    requires
        k < 11,
    ensures
        r.0@ == memory_name(k as int),
        r.1@ == memory_unit(k as int),
        r.2@ == memory_symbol(k as int),
{
    if k == 0 {
        ("memory.total", "bytes", "B")
    } else if k == 1 {
        ("memory.used", "bytes", "B")
    } else if k == 2 {
        ("memory.available", "bytes", "B")
    } else if k == 3 {
        ("memory.available_non_compressed", "bytes", "B")
    } else if k == 4 {
        ("memory.free", "bytes", "B")
    } else if k == 5 {
        ("memory.wired", "bytes", "B")
    } else if k == 6 {
        ("memory.compressed", "bytes", "B")
    } else if k == 7 {
        ("memory.system_free_percent", "percent", "%")
    } else if k == 8 {
        ("swap.total", "bytes", "B")
    } else if k == 9 {
        ("swap.used", "bytes", "B")
    } else {
        ("swap.free", "bytes", "B")
    }
}

/// The first `n` memory metrics: each datum must exist, carry its unit symbol
/// and not be negative.
pub open spec fn memory_metrics_spec<F: Fn(&str) -> bool>(
    data: Seq<DatumSpec>,
    is_negative: F,
    n: int,
) -> Result<Seq<MetricSpec>, Seq<char>>
    decreases n,
{
    if n <= 0 {
        Ok(seq![])
    } else {
        match memory_metrics_spec(data, is_negative, n - 1) {
            Err(e) => Err(e),
            Ok(done) => match find_label(data, memory_name(n - 1)) {
                None => Err("missing memory metric: "@ + memory_name(n - 1)),
                Some(i) => if data[i].unit != memory_symbol(n - 1) || answer_of(
                    is_negative,
                    data[i].value,
                ) {
                    Err("invalid memory metric: "@ + memory_name(n - 1))
                } else {
                    Ok(done.push(MetricSpec {
                        name: memory_name(n - 1),
                        value: data[i].value,
                        unit: Some(memory_unit(n - 1)),
                    }))
                },
            },
        }
    }
}

proof fn lemma_memory_error_stays<F: Fn(&str) -> bool>(data: Seq<DatumSpec>, f: F, k: int, n: int)
    requires
        0 < k <= n,
        memory_metrics_spec(data, f, k) is Err,
    ensures
        memory_metrics_spec(data, f, n) == memory_metrics_spec(data, f, k),
    decreases n - k,
{
    if k < n {
        lemma_memory_error_stays(data, f, k, n - 1);
    }
}

/// Normalizes the memory check's output.
pub fn memory<F: Fn(&str) -> bool>(output: &ParsedOutput, is_negative: &F) -> (r: Result<
    Vec<NormalizedMetric>,
    String,
>)
    requires
        is_text_function::<bool, F>(*is_negative),
    ensures
        match r {
            Ok(ms) => memory_metrics_spec(data_view(output), *is_negative, 11) == Ok::<
                Seq<MetricSpec>,
                Seq<char>,
            >(metrics_view(ms@)),
            Err(e) => memory_metrics_spec(data_view(output), *is_negative, 11) == Err::<
                Seq<MetricSpec>,
                Seq<char>,
            >(e@),
        },
{
    let mut metrics: Vec<NormalizedMetric> = Vec::new();
    let ghost data = data_view(output);
    let mut k: usize = 0;
    assert(metrics_view(metrics@) =~= Seq::<MetricSpec>::empty());
    while k < 11
        invariant
            k <= 11,
            data == data_view(output),
            is_text_function::<bool, F>(*is_negative),
            memory_metrics_spec(data, *is_negative, k as int) == Ok::<Seq<MetricSpec>, Seq<char>>(
                metrics_view(metrics@),
            ),
        decreases 11 - k,
    {
        let (name, unit, symbol) = memory_labels(k);
        let i = match find_datum(output, name) {
            Some(i) => i,
            None => {
                let e = message("missing memory metric: ", name);
                proof {
                    lemma_memory_error_stays(data, *is_negative, k + 1, 11);
                }
                return Err(e);
            },
        };
        let d = &output.metrics[i];
        assert(data[i as int] == d@);
        if !chars_equal_str(&chars_of(d.unit.as_str()), symbol) || ask(is_negative, &d.value) {
            let e = message("invalid memory metric: ", name);
            proof {
                lemma_memory_error_stays(data, *is_negative, k + 1, 11);
            }
            return Err(e);
        }
        let m = NormalizedMetric {
            name: String::from_str(name),
            value: d.value.clone(),
            unit: Some(String::from_str(unit)),
        };
        let ghost before = metrics_view(metrics@);
        metrics.push(m);
        assert(metrics_view(metrics@) =~= before.push(m@));
        k += 1;
    }
    Ok(metrics)
}

/// The root filesystem datum of `check_disk`: it must exist, be in bytes and
/// have a maximum; the result is the used and the total size as written.
pub open spec fn disk_usage_spec(data: Seq<DatumSpec>) -> Result<(Seq<char>, Seq<char>), Seq<char>> {
    match find_label(data, "/"@) {
        None => Err("missing root filesystem metric"@),
        Some(i) => if data[i].unit != "B"@ {
            Err("root filesystem uses unexpected unit: "@ + data[i].unit)
        } else {
            match data[i].max {
                None => Err("root filesystem metric has no maximum"@),
                Some(total) => Ok((data[i].value, total)),
            }
        },
    }
}

/// Selects the used and total size of the root filesystem.
pub fn disk_usage(output: &ParsedOutput) -> (r: Result<(String, String), String>)
    ensures
        match r {
            Ok((used, total)) => disk_usage_spec(data_view(output)) == Ok::<
                (Seq<char>, Seq<char>),
                Seq<char>,
            >((used@, total@)),
            Err(e) => disk_usage_spec(data_view(output)) == Err::<
                (Seq<char>, Seq<char>),
                Seq<char>,
            >(e@),
        },
{
    let i = match find_datum(output, "/") {
        Some(i) => i,
        None => return Err(String::from_str("missing root filesystem metric")),
    };
    let d = &output.metrics[i];
    assert(data_view(output)[i as int] == d@);
    if !chars_equal_str(&chars_of(d.unit.as_str()), "B") {
        return Err(message("root filesystem uses unexpected unit: ", d.unit.as_str()));
    }
    match &d.max {
        None => Err(String::from_str("root filesystem metric has no maximum")),
        Some(total) => Ok((d.value.clone(), total.clone())),
    }
}

} // verus!

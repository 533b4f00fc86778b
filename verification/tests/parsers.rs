use mmonitor::nagios::{parse, tokenize, NumberClass};
use mmonitor::normalize::{cpu_load, disk_usage, logical_cpu_count, memory};
use mmonitor::sw_vers;

fn classify(text: &str) -> NumberClass {
    match text.parse::<f64>() {
        Ok(value) if value.is_finite() => NumberClass::Finite,
        Ok(_) => NumberClass::NonFinite,
        Err(_) => NumberClass::Invalid,
    }
}

fn is_negative(text: &str) -> bool {
    text.parse::<f64>().map(|value| value < 0.0).unwrap_or(false)
}

fn number(text: &str) -> f64 {
    text.parse::<f64>().unwrap()
}

#[test]
fn parses_multiline_monitoring_plugins_output() {
    let parsed = parse(
        "[OK] - Scaled Load (10 CPUs): 1m: 5.2\n|'load1'=5.2;;; 'scaled_load1'=0.52;;;",
        classify,
    )
    .unwrap();

    assert!(parsed.summary.contains("10 CPUs"));
    assert_eq!(parsed.metrics[0].label, "load1");
    assert_eq!(number(&parsed.metrics[1].value), 0.52);
}

#[test]
fn parses_disk_maximum() {
    let parsed = parse("DISK |'/'=802577416192B;0;0;0;994631127040", classify).unwrap();

    assert_eq!(parsed.metrics[0].unit, "B");
    assert_eq!(parsed.metrics[0].max.as_deref().map(number), Some(994631127040.0));
}

#[test]
fn normalizes_cpu_load() {
    let output = parse(
        "Scaled Load (10 CPUs) |'load1'=5;;; 'load5'=4;;; 'load15'=3;;; \
         'scaled_load1'=0.5;;; 'scaled_load5'=0.4;;; 'scaled_load15'=0.3;;;",
        classify,
    )
    .unwrap();
    let metrics = cpu_load(&output, &is_negative).unwrap();

    assert_eq!(number(&metrics[0].value), 10.0);
    assert_eq!(number(&metrics[4].value), 0.5);
}

#[test]
fn normalizes_memory() {
    let output = parse(
        "MEMORY |'memory.total'=100B;;;; 'memory.used'=80B;;;; \
         'memory.available'=60B;;;; 'memory.available_non_compressed'=30B;;;; \
         'memory.free'=5B;;;; 'memory.wired'=20B;;;; 'memory.compressed'=30B;;;; \
         'memory.system_free_percent'=30%;;;; 'swap.total'=50B;;;; \
         'swap.used'=40B;;;; 'swap.free'=10B;;;;",
        classify,
    )
    .unwrap();
    let metrics = memory(&output, &is_negative).unwrap();

    assert_eq!(metrics.len(), 11);
    assert_eq!(metrics[7].unit.as_deref(), Some("percent"));
}

#[test]
fn parses_macos_version_facts() {
    let facts = sw_vers::parse(
        "ProductName:\t\tmacOS\nProductVersion:\t\t27.0\nBuildVersion:\t\t26A5388g\n",
    )
    .unwrap();

    assert_eq!(facts[0].value, "macOS");
    assert_eq!(facts[1].value, "27.0");
    assert_eq!(facts[2].value, "26A5388g");
}

#[test]
fn rejects_missing_fields() {
    assert_eq!(
        sw_vers::parse("ProductName: macOS\n").unwrap_err(),
        "missing sw_vers field: ProductVersion"
    );
}

#[test]
fn rejects_duplicate_fields() {
    assert_eq!(
        sw_vers::parse(
            "ProductName: macOS\nProductName: macOS\nProductVersion: 27.0\nBuildVersion: 26A\n"
        )
        .unwrap_err(),
        "duplicate sw_vers field: ProductName"
    );
}

#[test]
fn sw_vers_facts_have_stable_names_and_trimmed_values() {
    let facts =
        sw_vers::parse("\r\nBuildVersion: 1B\r\nOther: x\nProductVersion:  2.0 \nProductName: Mac\n")
            .unwrap();
    let pairs: Vec<(&str, &str)> =
        facts.iter().map(|f| (f.name.as_str(), f.value.as_str())).collect();
    assert_eq!(pairs, vec![("os.name", "Mac"), ("os.version", "2.0"), ("os.build", "1B")]);
}

#[test]
fn sw_vers_rejects_empty_values_and_lines_without_colon() {
    assert_eq!(
        sw_vers::parse("ProductName:\nProductVersion: 1\nBuildVersion: 2\n").unwrap_err(),
        "missing sw_vers field: ProductName"
    );
    assert_eq!(sw_vers::parse("garbage\n").unwrap_err(), "invalid sw_vers line: garbage");
}

#[test]
fn tokenizes_quoted_labels_with_spaces() {
    let tokens = tokenize("  'a b'=1;2  c=3\t'd'=4 ").unwrap();
    assert_eq!(tokens, vec!["'a b'=1;2", "c=3", "'d'=4"]);
    assert_eq!(tokenize("   ").unwrap(), Vec::<String>::new());
}

#[test]
fn rejects_unterminated_quoted_label() {
    assert_eq!(tokenize("'open=1").unwrap_err(), "unterminated quoted performance label");
}

#[test]
fn nagios_parse_reports_each_error() {
    assert_eq!(
        parse("no separator", classify).unwrap_err(),
        "missing Nagios performance data separator"
    );
    assert_eq!(parse("x |  ", classify).unwrap_err(), "missing Nagios performance data");
    assert_eq!(parse("x | a", classify).unwrap_err(), "performance datum has no value: a");
    assert_eq!(parse("x | ''=1", classify).unwrap_err(), "performance datum has an empty label");
    assert_eq!(parse("x | a=B", classify).unwrap_err(), "invalid performance value: B");
    assert_eq!(parse("x | a=1;;;z", classify).unwrap_err(), "invalid performance bound: z");
    assert_eq!(parse("x | a=1;;;;inf", classify).unwrap_err(), "non-finite performance bound: inf");
}

#[test]
fn nagios_value_takes_the_longest_number() {
    let parsed = parse("s| a=1e3ms;1;2;-1;", classify).unwrap();
    let datum = &parsed.metrics[0];
    assert_eq!(datum.value, "1e3");
    assert_eq!(datum.unit, "ms");
    assert_eq!(datum.min.as_deref(), Some("-1"));
    assert_eq!(datum.max, None);
    assert_eq!(parsed.summary, "s");
}

#[test]
fn reads_the_logical_cpu_count() {
    assert_eq!(logical_cpu_count("Scaled Load (+12 CPUs)"), Ok(12));
    assert_eq!(
        logical_cpu_count("Load (12 CPUs)").unwrap_err(),
        "CPU summary has no logical CPU count"
    );
    assert_eq!(
        logical_cpu_count("Scaled Load (x CPUs)").unwrap_err(),
        "CPU summary has an invalid logical CPU count"
    );
    assert_eq!(
        logical_cpu_count("Scaled Load (4294967296 CPUs)").unwrap_err(),
        "CPU summary has an invalid logical CPU count"
    );
    assert_eq!(
        logical_cpu_count("Scaled Load (0 CPUs)").unwrap_err(),
        "CPU summary reports zero logical CPUs"
    );
}

#[test]
fn cpu_load_rejects_units_negative_and_missing_values() {
    let output = parse("Scaled Load (2 CPUs) |'load1'=-1", classify).unwrap();
    assert_eq!(cpu_load(&output, &is_negative).unwrap_err(), "invalid CPU metric: load1");
    let output = parse("Scaled Load (2 CPUs) |'load1'=1", classify).unwrap();
    assert_eq!(cpu_load(&output, &is_negative).unwrap_err(), "missing CPU metric: load5");
}

#[test]
fn memory_requires_its_units() {
    let output = parse("M |'memory.total'=1%", classify).unwrap();
    assert_eq!(memory(&output, &is_negative).unwrap_err(), "invalid memory metric: memory.total");
}

#[test]
fn selects_the_root_filesystem() {
    let output = parse("DISK |'/'=80B;0;0;0;100", classify).unwrap();
    assert_eq!(disk_usage(&output), Ok(("80".to_owned(), "100".to_owned())));
    let output = parse("DISK |'/'=80KB;0;0;0;100", classify).unwrap();
    assert_eq!(disk_usage(&output).unwrap_err(), "root filesystem uses unexpected unit: KB");
    let output = parse("DISK |'/'=80B", classify).unwrap();
    assert_eq!(disk_usage(&output).unwrap_err(), "root filesystem metric has no maximum");
    let output = parse("DISK |'/data'=80B", classify).unwrap();
    assert_eq!(disk_usage(&output).unwrap_err(), "missing root filesystem metric");
}

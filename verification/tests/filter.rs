use amanda::time::Timestamp;
use amanda::watch::filter::{build_filter, select_processes, FilterError, ProcessFilter};
use amanda::watch::monitor::{IeeeSingle, ProcessInfo, ProcessStatusStr, SortBy};

fn reading(x: f32) -> IeeeSingle {
    IeeeSingle { bits: x.to_bits() }
}

fn create_test_process(pid: u32, name: &str, cpu: f32, mem: u64) -> ProcessInfo {
    ProcessInfo {
        pid,
        name: name.to_string(),
        cmd: vec![name.to_string()],
        exe: Some(name.to_string()),
        cpu_percent: reading(cpu),
        memory_bytes: mem,
        memory_percent: reading(0.0),
        status: ProcessStatusStr("Run".to_string()),
        user: Some("user".to_string()),
        start_time: None::<Timestamp>,
        run_time_secs: 0,
    }
}

#[test]
fn test_empty_filter_matches_all() {
    let filter = ProcessFilter::new();
    let proc = create_test_process(1, "test", 10.0, 1000);

    assert!(filter.matches(&proc));
}

#[test]
fn test_name_filter() {
    let filter = ProcessFilter::new().with_name_pattern("^test").unwrap();

    assert!(filter.matches(&create_test_process(1, "test-process", 0.0, 0)));
    assert!(!filter.matches(&create_test_process(2, "other", 0.0, 0)));
}

#[test]
fn test_pid_filter() {
    let filter = ProcessFilter::new().with_pid(42);

    assert!(filter.matches(&create_test_process(42, "test", 0.0, 0)));
    assert!(!filter.matches(&create_test_process(1, "test", 0.0, 0)));
}

#[test]
fn test_cpu_filter() {
    let filter = ProcessFilter::new().with_cpu_above(reading(50.0));

    assert!(filter.matches(&create_test_process(1, "test", 75.0, 0)));
    assert!(!filter.matches(&create_test_process(1, "test", 25.0, 0)));
}

#[test]
fn test_memory_filter() {
    let filter = ProcessFilter::new().with_memory_above(1024 * 1024 * 100);

    assert!(filter.matches(&create_test_process(1, "test", 0.0, 1024 * 1024 * 200)));
    assert!(!filter.matches(&create_test_process(1, "test", 0.0, 1024 * 1024)));
}

#[test]
fn invalid_pattern_is_an_error() {
    match ProcessFilter::new().with_name_pattern("(unclosed") {
        Err(FilterError::InvalidPattern(msg)) => assert!(!msg.is_empty()),
        Ok(_) => panic!("pattern should not compile"),
    }
}

#[test]
fn thresholds_are_strict_and_nan_fails() {
    let filter = ProcessFilter::new().with_cpu_above(reading(50.0)).with_memory_above(10);
    assert!(filter.matches(&create_test_process(1, "t", 50.1, 11)));
    assert!(!filter.matches(&create_test_process(1, "t", 50.0, 11)));
    assert!(!filter.matches(&create_test_process(1, "t", 49.9, 11)));
    assert!(!filter.matches(&create_test_process(1, "t", 50.1, 10)));
    // `NaN > 50.0` is false, so a NaN reading is not more than the threshold.
    assert!(!filter.matches(&create_test_process(1, "t", f32::NAN, 11)));
    assert!(!ProcessFilter::new().with_cpu_above(reading(0.0)).matches(&create_test_process(1, "t", -0.0, 0)));
    assert!(!filter.is_empty());
    assert!(ProcessFilter::new().is_empty());
    assert!(ProcessFilter::default().is_empty());
    assert!(!filter.clone().is_empty());
}

#[test]
fn float_order_follows_ieee() {
    let cases: [(f32, f32); 9] = [
        (1.0, 2.0),
        (2.0, 1.0),
        (-1.0, 1.0),
        (-2.0, -1.0),
        (0.0, -0.0),
        (-0.0, 0.0),
        (f32::NEG_INFINITY, -1.0e30),
        (f32::NAN, 1.0),
        (1.5, 1.5),
    ];
    for (a, b) in cases {
        assert_eq!(reading(a).lt(&reading(b)), a < b, "{} < {}", a, b);
    }
    assert!(reading(f32::NAN).is_nan());
    assert!(!reading(f32::INFINITY).is_nan());
}

fn names(ps: &[ProcessInfo]) -> Vec<String> {
    ps.iter().map(|p| p.name.clone()).collect()
}

fn sample() -> Vec<ProcessInfo> {
    vec![
        create_test_process(30, "bash", 5.0, 300),
        create_test_process(10, "Xorg", 20.0, 100),
        create_test_process(20, "apt", 5.0, 900),
        create_test_process(40, "zsh", 0.0, 300),
    ]
}

#[test]
fn selection_sorts_stably() {
    let all = ProcessFilter::new();
    assert_eq!(names(&select_processes(sample(), &all, SortBy::Cpu)), ["Xorg", "bash", "apt", "zsh"]);
    assert_eq!(names(&select_processes(sample(), &all, SortBy::Memory)), ["apt", "bash", "zsh", "Xorg"]);
    assert_eq!(names(&select_processes(sample(), &all, SortBy::Pid)), ["Xorg", "apt", "bash", "zsh"]);
    assert_eq!(names(&select_processes(sample(), &all, SortBy::Name)), ["Xorg", "apt", "bash", "zsh"]);
}

#[test]
fn selection_filters_then_sorts() {
    let f = ProcessFilter::new().with_name_pattern("sh$").unwrap();
    assert_eq!(names(&select_processes(sample(), &f, SortBy::Pid)), ["bash", "zsh"]);
    let none = ProcessFilter::new().with_pid(99);
    assert!(select_processes(sample(), &none, SortBy::Cpu).is_empty());
}

#[test]
fn filter_from_options() {
    let f = build_filter(Some("^a"), Some(20), Some(reading(1.0)), Some(1)).unwrap();
    assert!(f.matches(&create_test_process(20, "apt", 5.0, 1024 * 1024 + 1)));
    assert!(!f.matches(&create_test_process(20, "apt", 5.0, 1024 * 1024)));
    assert!(build_filter(Some("["), None, None, None).is_err());
    assert!(build_filter(None, None, None, None).unwrap().is_empty());
}

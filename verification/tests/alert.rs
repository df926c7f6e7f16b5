use amanda::time::Timestamp;
use amanda::watch::alert::{AlertConfig, AlertEngine, AlertKind, AlertLevel};
use amanda::watch::monitor::{
    CpuInfo, IeeeDouble, IeeeSingle, LoadAverage, MemoryInfo, ProcessInfo, ProcessStatusStr,
    SystemSnapshot,
};

fn reading(x: f32) -> IeeeSingle {
    IeeeSingle { bits: x.to_bits() }
}

fn process(pid: u32, name: &str, exe: Option<&str>, cpu: f32, mem: u64) -> ProcessInfo {
    ProcessInfo {
        pid,
        name: name.to_string(),
        cmd: vec![],
        exe: exe.map(|e| e.to_string()),
        cpu_percent: reading(cpu),
        memory_bytes: mem,
        memory_percent: reading(0.0),
        status: ProcessStatusStr("Run".to_string()),
        user: None,
        start_time: None,
        run_time_secs: 0,
    }
}

fn snapshot(cpu: f32) -> SystemSnapshot {
    let zero = IeeeDouble { bits: 0 };
    SystemSnapshot {
        timestamp: Timestamp::from_parts(0, 0).unwrap(),
        hostname: "host".to_string(),
        cpu: CpuInfo { usage_percent: reading(cpu), core_count: 4, brand: "cpu".to_string(), frequency_mhz: 1000 },
        memory: MemoryInfo { total_bytes: 100, used_bytes: 50, free_bytes: 50, swap_total_bytes: 0, swap_used_bytes: 0 },
        load_average: LoadAverage { one: zero, five: zero, fifteen: zero },
    }
}

#[test]
fn system_thresholds() {
    let mut config = AlertConfig::default();
    config.cpu_threshold = Some(reading(80.0));
    config.memory_threshold = Some(reading(90.0));
    let mut engine = AlertEngine::new(config);
    let alerts = engine.check(&snapshot(85.0), reading(95.0), &[]);
    assert_eq!(alerts.len(), 2);
    assert_eq!(alerts[0].kind, AlertKind::SystemCpu { usage: reading(85.0), threshold: reading(80.0) });
    assert_eq!(alerts[0].level, AlertLevel::Warning);
    assert_eq!(alerts[1].kind, AlertKind::SystemMemory { usage: reading(95.0), threshold: reading(90.0) });
    assert_eq!(alerts[0].timestamp, alerts[1].timestamp);
    // At the threshold nothing fires.
    assert!(engine.check(&snapshot(80.0), reading(90.0), &[]).is_empty());
}

#[test]
fn process_alerts_fire_once() {
    let mut config = AlertConfig::default();
    config.process_cpu_threshold = Some(reading(50.0));
    config.process_memory_threshold = Some(1000);
    let mut engine = AlertEngine::new(config);
    let ps = vec![
        process(1, "hog", None, 90.0, 5000),
        process(2, "fat", None, 1.0, 5000),
        process(3, "calm", None, 1.0, 10),
    ];
    let alerts = engine.check(&snapshot(0.0), reading(0.0), &ps);
    assert_eq!(alerts.len(), 2);
    assert_eq!(alerts[0].kind, AlertKind::ProcessCpu { name: "hog".to_string(), pid: 1, usage: reading(90.0) });
    assert_eq!(alerts[0].level, AlertLevel::Info);
    assert_eq!(alerts[1].kind, AlertKind::ProcessMemory { name: "fat".to_string(), pid: 2, memory_bytes: 5000 });
    assert!(engine.check(&snapshot(0.0), reading(0.0), &ps).is_empty());
}

#[test]
fn watched_process_comes_and_goes() {
    let config = AlertConfig::default().with_overrides(None, None, Some("nginx".to_string()));
    let mut engine = AlertEngine::new(config);
    let present = vec![process(7, "worker", Some("/usr/sbin/nginx"), 0.0, 0)];
    let upper = vec![process(8, "NGINX", None, 0.0, 0)];
    assert!(engine.check(&snapshot(0.0), reading(0.0), &[]).is_empty());
    let started = engine.check(&snapshot(0.0), reading(0.0), &present);
    assert_eq!(started.len(), 1);
    assert_eq!(started[0].kind, AlertKind::WatchedStarted { name: "nginx".to_string() });
    assert_eq!(started[0].level, AlertLevel::Info);
    assert!(engine.check(&snapshot(0.0), reading(0.0), &upper).is_empty());
    let stopped = engine.check(&snapshot(0.0), reading(0.0), &[]);
    assert_eq!(stopped[0].kind, AlertKind::WatchedStopped { name: "nginx".to_string() });
    assert_eq!(stopped[0].level, AlertLevel::Warning);
}

#[test]
fn overrides_replace_only_given_options() {
    let mut base = AlertConfig::default();
    base.cpu_threshold = Some(reading(10.0));
    base.process_memory_threshold = Some(5);
    let merged = base.clone().with_overrides(None, Some(reading(70.0)), None);
    assert_eq!(merged.cpu_threshold, Some(reading(10.0)));
    assert_eq!(merged.memory_threshold, Some(reading(70.0)));
    assert_eq!(merged.watch_process, None);
    assert_eq!(merged.process_memory_threshold, Some(5));
    let replaced = base.with_overrides(Some(reading(1.0)), None, None);
    assert_eq!(replaced.cpu_threshold, Some(reading(1.0)));
}

#[test]
fn process_alert_comes_at_first_excess_across_checks() {
    let mut config = AlertConfig::default();
    config.process_cpu_threshold = Some(reading(50.0));
    let mut engine = AlertEngine::new(config);
    // Check 1: pid 4 is calm, pid 5 is over the threshold.
    let first = engine.check(&snapshot(0.0), reading(0.0), &[process(4, "a", None, 10.0, 0), process(5, "b", None, 60.0, 0)]);
    assert_eq!(first.len(), 1);
    assert_eq!(first[0].kind, AlertKind::ProcessCpu { name: "b".to_string(), pid: 5, usage: reading(60.0) });
    // Check 2: pid 4 goes over the threshold for the first time; pid 5 stays over.
    let second = engine.check(&snapshot(0.0), reading(0.0), &[process(4, "a", None, 70.0, 0), process(5, "b", None, 99.0, 0)]);
    assert_eq!(second.len(), 1);
    assert_eq!(second[0].kind, AlertKind::ProcessCpu { name: "a".to_string(), pid: 4, usage: reading(70.0) });
    // Check 3: both over again, calm in between or not: no repeat for either PID.
    let third = engine.check(&snapshot(0.0), reading(0.0), &[process(5, "b", None, 80.0, 0), process(4, "a", None, 90.0, 0)]);
    assert!(third.is_empty());
    // The same PID listed twice in one check is alerted on once.
    let fourth = engine.check(&snapshot(0.0), reading(0.0), &[process(6, "c", None, 55.0, 0), process(6, "c", None, 65.0, 0)]);
    assert_eq!(fourth.len(), 1);
    assert_eq!(fourth[0].kind, AlertKind::ProcessCpu { name: "c".to_string(), pid: 6, usage: reading(55.0) });
}

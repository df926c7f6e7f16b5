use amanda::watch::monitor::{IeeeSingle, ProcessInfo, ProcessStatusStr};
use amanda::watch::output::{csv_escape, fit_text, join_words, select_top};

fn process(pid: u32) -> ProcessInfo {
    ProcessInfo {
        pid,
        name: format!("p{}", pid),
        cmd: vec![],
        exe: None,
        cpu_percent: IeeeSingle { bits: 0 },
        memory_bytes: 0,
        memory_percent: IeeeSingle { bits: 0 },
        status: ProcessStatusStr("Run".to_string()),
        user: None,
        start_time: None,
        run_time_secs: 0,
    }
}

#[test]
fn top_rows() {
    let ps: Vec<ProcessInfo> = (1..=5).map(process).collect();
    assert_eq!(select_top(ps.clone(), 2).len(), 2);
    assert_eq!(select_top(ps.clone(), 2)[1].pid, 2);
    assert_eq!(select_top(ps.clone(), 0).len(), 5);
    assert_eq!(select_top(ps.clone(), 5).len(), 5);
    assert_eq!(select_top(ps, 9).len(), 5);
}

#[test]
fn csv_cells() {
    assert_eq!(csv_escape("say \"hi\""), "say \"\"hi\"\"");
    assert_eq!(csv_escape("plain"), "plain");
    assert_eq!(join_words(&vec!["ls".to_string(), "-l".to_string(), "a \"b\"".to_string()]), "ls -l a \"b\"");
    assert_eq!(join_words(&vec![]), "");
}

#[test]
fn column_fitting() {
    assert_eq!(fit_text("short", 20, 17, "..."), "short");
    assert_eq!(fit_text("a-very-long-process-name", 20, 17, "..."), "a-very-long-proce...");
    assert_eq!(fit_text("exactly-twenty-chars", 20, 17, "..."), "exactly-twenty-chars");
    assert_eq!(fit_text("administrator", 10, 8, ".."), "administ..");
    // 9 two-byte letters: 18 bytes, cut after 4 letters (8 bytes).
    assert_eq!(fit_text("ééééééééé", 10, 8, ".."), "éééé..");
}

use ananicy_rule_o_matic::application::process_service::{
    any_key_is, decode_io_class, decode_sched_policy, keys_of_processes, nice_value, parse_cgroup,
    parse_oom_score, read_process, select_by_key, shorten_cgroup, ProcessService, Readings,
};
use ananicy_rule_o_matic::domain::models::ProcessInfo;

fn process(pid: i32, name: &str) -> ProcessInfo {
    ProcessInfo {
        pid,
        name: name.to_string(),
        nice: Some(0),
        oom_score_adj: None,
        cgroup: None,
        sched_policy: None,
        rtprio: None,
        ioclass: None,
        latency_nice: None,
    }
}

#[test]
fn test_is_process_active_not_found() {
    let mut process_service = ProcessService::new();
    process_service.update_processes(vec![process(1, "init"), process(2, "sleep")]);

    let is_active = process_service.is_process_active("non_existent_process_12345");

    assert!(!is_active, "Should return false for non-existent process");
}

#[test]
fn test_shorten_cgroup() {
    assert_eq!(ProcessService::shorten_cgroup("/"), "/");

    assert_eq!(
        ProcessService::shorten_cgroup("/user.slice/user-1000.slice"),
        "/user.slice/user-1000.slice"
    );

    let long_path = "/user.slice/user-1000.slice/user@1000.service/app.slice/app-gnome-terminal.scope";
    let shortened = ProcessService::shorten_cgroup(long_path);

    assert_eq!(shortened, ".../app.slice/app-gnome-terminal.scope");

    let system_path = "/system.slice/system-dbus.slice/some.service/deeply/nested/cgroup";

    assert_eq!(ProcessService::shorten_cgroup(system_path), system_path);
}

#[test]
fn shorten_cgroup_needs_more_than_four_pieces() {
    assert_eq!(shorten_cgroup("/user.slice/a/b"), "/user.slice/a/b");
    assert_eq!(shorten_cgroup("/user.slice/a/b/c"), ".../b/c");
    assert_eq!(shorten_cgroup("/user.slice/a/b/"), ".../b/");
    assert_eq!(shorten_cgroup("/user.slicex/a/b/c"), ".../b/c");
    assert_eq!(shorten_cgroup("user.slice/a/b/c/d"), "user.slice/a/b/c/d");
    assert_eq!(shorten_cgroup(""), "");
}

#[test]
fn snapshot_finds_processes_by_name_without_case() {
    let mut process_service = ProcessService::new();
    assert!(!process_service.is_process_active("sleep"));
    assert!(process_service.get_process_infos("sleep").is_empty());

    process_service.update_processes(vec![
        process(10, "Sleep"),
        process(11, "bash"),
        process(12, "sleep"),
    ]);
    assert!(process_service.is_process_active("SLEEP"));
    assert!(process_service.is_process_active("bash"));
    assert!(!process_service.is_process_active("slee"));

    let infos = process_service.get_process_infos("sleep");
    let pids: Vec<i32> = infos.iter().map(|i| i.pid).collect();
    assert_eq!(pids, vec![10, 12]);
    assert_eq!(infos[0].name, "Sleep");
    assert_eq!(infos[0].nice, Some(0));
}

#[test]
fn snapshot_is_replaced_as_a_whole() {
    let mut process_service = ProcessService::new();
    process_service.update_processes(vec![process(1, "old")]);
    process_service.update_processes(vec![process(2, "new")]);
    assert!(!process_service.is_process_active("old"));
    assert!(process_service.is_process_active("new"));
}

#[test]
fn nice_value_is_reported_even_out_of_range() {
    assert_eq!(nice_value(0), Some(0));
    assert_eq!(nice_value(-20), Some(-20));
    assert_eq!(nice_value(19), Some(19));
    assert_eq!(nice_value(-1), Some(-1));
    assert_eq!(nice_value(i32::MIN), Some(i32::MIN));
}

#[test]
fn sched_policy_names() {
    assert_eq!(decode_sched_policy(0).as_deref(), Some("normal"));
    assert_eq!(decode_sched_policy(1).as_deref(), Some("fifo"));
    assert_eq!(decode_sched_policy(2).as_deref(), Some("rr"));
    assert_eq!(decode_sched_policy(3).as_deref(), Some("batch"));
    assert_eq!(decode_sched_policy(4).as_deref(), Some("unknown(4)"));
    assert_eq!(decode_sched_policy(5).as_deref(), Some("idle"));
    assert_eq!(decode_sched_policy(6).as_deref(), Some("deadline"));
    assert_eq!(decode_sched_policy(7).as_deref(), Some("unknown(7)"));
    assert_eq!(decode_sched_policy(i32::MAX).as_deref(), Some("unknown(2147483647)"));
    assert_eq!(decode_sched_policy(-1), None);
}

#[test]
fn io_class_names() {
    assert_eq!(decode_io_class(0).as_deref(), Some("none"));
    assert_eq!(decode_io_class(4).as_deref(), Some("none"));
    assert_eq!(decode_io_class((1 << 13) | 4).as_deref(), Some("realtime"));
    assert_eq!(decode_io_class((2 << 13) | 7).as_deref(), Some("best-effort"));
    assert_eq!(decode_io_class(3 << 13).as_deref(), Some("idle"));
    assert_eq!(decode_io_class(4 << 13).as_deref(), Some("unknown(4)"));
    assert_eq!(decode_io_class(65535).as_deref(), Some("unknown(7)"));
    assert_eq!(decode_io_class(-1), None);
    assert_eq!(decode_io_class(0x8000_0000).as_deref(), Some("unknown(-262144)"));
    assert_eq!(decode_io_class(0x1_0000_2000).as_deref(), Some("realtime"));
}

#[test]
fn oom_score_is_a_trimmed_integer() {
    assert_eq!(parse_oom_score("0\n"), Some(0));
    assert_eq!(parse_oom_score("  -1000\n"), Some(-1000));
    assert_eq!(parse_oom_score("+200"), Some(200));
    assert_eq!(parse_oom_score("007"), Some(7));
    assert_eq!(parse_oom_score("2147483647"), Some(i32::MAX));
    assert_eq!(parse_oom_score("-2147483648"), Some(i32::MIN));
    assert_eq!(parse_oom_score("2147483648"), None);
    assert_eq!(parse_oom_score("-2147483649"), None);
    assert_eq!(parse_oom_score("99999999999999999999999"), None);
    assert_eq!(parse_oom_score(""), None);
    assert_eq!(parse_oom_score("-"), None);
    assert_eq!(parse_oom_score("+"), None);
    assert_eq!(parse_oom_score("1 2"), None);
    assert_eq!(parse_oom_score("12a"), None);
    assert_eq!(parse_oom_score("--1"), None);
}

#[test]
fn cgroup_is_the_first_path_that_is_not_the_root() {
    assert_eq!(parse_cgroup("0::/user.slice/user-1000.slice/session-2.scope\n"), "/user.slice/user-1000.slice/session-2.scope");
    assert_eq!(parse_cgroup("1:name=systemd:/\n0::/system.slice/cron.service\n"), "/system.slice/cron.service");
    assert_eq!(parse_cgroup("0::/\n"), "/");
    assert_eq!(parse_cgroup(""), "/");
    assert_eq!(parse_cgroup("0::\n"), "/");
    assert_eq!(parse_cgroup("garbage\n0:/two-fields\n1:a:b:c\n"), "/");
    assert_eq!(parse_cgroup("3:cpu:/a\r\n2:mem:/b\r\n"), "/a");
    assert_eq!(parse_cgroup("3:cpu:/a\r"), "/a\r");
}

fn observed(pid: i32, name: &str) -> ProcessInfo {
    ProcessInfo {
        pid,
        name: name.to_string(),
        nice: nice_value(0),
        oom_score_adj: parse_oom_score("0\n"),
        cgroup: Some(parse_cgroup("0::/user.slice/user-1000.slice/session-1.scope\n")),
        sched_policy: decode_sched_policy(0),
        rtprio: Some(0),
        ioclass: decode_io_class(0),
        latency_nice: None,
    }
}

#[test]
fn test_integration_process_detection() {
    let pid = 4242;

    let mut process_service = ProcessService::new();
    process_service.update_processes(vec![observed(1, "init"), observed(pid, "sleep")]);

    let infos = process_service.get_process_infos("sleep");
    let found_pid = infos.iter().find(|info| info.pid == pid);

    assert!(found_pid.is_some(), "Failed to detect spawned sleep process with PID {}", pid);

    assert_eq!(found_pid.unwrap().name, "sleep");
}

#[test]
fn test_is_process_active_found() {
    let mut process_service = ProcessService::new();
    process_service.update_processes(vec![observed(4242, "sleep")]);

    let is_active = process_service.is_process_active("sleep");

    assert!(is_active, "Should return true for running process");
}

#[test]
fn test_process_info_fields() {
    let pid = 4242;

    let mut process_service = ProcessService::new();
    process_service.update_processes(vec![observed(pid, "sleep")]);

    let infos = process_service.get_process_infos("sleep");
    let info = infos.iter().find(|i| i.pid == pid).expect("Process not found");

    assert!(info.nice.is_some(), "Nice value should be present");

    if let Some(policy) = &info.sched_policy {
        assert!(
            ["normal", "fifo", "rr", "batch", "idle", "deadline"].contains(&policy.as_str())
                || policy.starts_with("unknown"),
            "Unknown scheduler policy: {}",
            policy
        );
    }

    if let Some(ioclass) = &info.ioclass {
        assert!(
            ["none", "realtime", "best-effort", "idle"].contains(&ioclass.as_str()) || ioclass.starts_with("unknown"),
            "Unknown io class: {}",
            ioclass
        );
    }

    assert_eq!(info.sched_policy.as_deref(), Some("normal"));
    assert_eq!(info.ioclass.as_deref(), Some("none"));
    assert_eq!(info.oom_score_adj, Some(0));
    assert_eq!(info.cgroup.as_deref(), Some("/user.slice/user-1000.slice/session-1.scope"));
}

#[test]
fn processes_are_selected_by_the_keys_given() {
    let key = |k: &str| k.chars().collect::<Vec<char>>();
    let processes = vec![process(1, "A"), process(2, "b"), process(3, "a")];
    let keys: Vec<String> =
        keys_of_processes(&processes).into_iter().map(|k| k.into_iter().collect()).collect();
    assert_eq!(keys, vec!["a", "b", "a"]);

    let found = select_by_key(&processes, &vec![key("x"), key("y"), key("x")], &key("x"));
    assert_eq!(found.iter().map(|p| p.pid).collect::<Vec<i32>>(), vec![1, 3]);
    let found = select_by_key(&processes, &vec![key("x")], &key("x"));
    assert_eq!(found.iter().map(|p| p.pid).collect::<Vec<i32>>(), vec![1]);
    let found = select_by_key(&processes, &vec![key("x"), key("y"), key("z"), key("x")], &key("z"));
    assert_eq!(found.iter().map(|p| p.pid).collect::<Vec<i32>>(), vec![3]);

    assert!(any_key_is(&vec![key("x"), key("y")], &key("y")));
    assert!(!any_key_is(&vec![key("x"), key("y")], &key("Y")));
    assert!(!any_key_is(&Vec::new(), &key("")));
}

#[test]
fn a_failed_reading_takes_nothing_from_the_others() {
    let all = read_process(&Readings {
        pid: 7,
        name: "pipewire".to_string(),
        priority: -11,
        oom_score_adj: Some("-900\n".to_string()),
        cgroup: Some("0::/user.slice/user-1000.slice/user@1000.service/session.slice/pipewire.service\n".to_string()),
        sched_policy: 2,
        sched_priority: Some(20),
        latency_nice: Some(-5),
        io_priority: (1 << 13) | 2,
    });
    assert_eq!(all.pid, 7);
    assert_eq!(all.name, "pipewire");
    assert_eq!(all.nice, Some(-11));
    assert_eq!(all.oom_score_adj, Some(-900));
    assert_eq!(
        all.cgroup.as_deref(),
        Some("/user.slice/user-1000.slice/user@1000.service/session.slice/pipewire.service")
    );
    assert_eq!(all.sched_policy.as_deref(), Some("rr"));
    assert_eq!(all.rtprio, Some(20));
    assert_eq!(all.latency_nice, Some(-5));
    assert_eq!(all.ioclass.as_deref(), Some("realtime"));

    let little = read_process(&Readings {
        pid: 8,
        name: "gone".to_string(),
        priority: -1,
        oom_score_adj: None,
        cgroup: None,
        sched_policy: -1,
        sched_priority: None,
        latency_nice: None,
        io_priority: -1,
    });
    assert_eq!(little.nice, Some(-1));
    assert_eq!(little.oom_score_adj, None);
    assert_eq!(little.cgroup, None);
    assert_eq!(little.sched_policy, None);
    assert_eq!(little.rtprio, None);
    assert_eq!(little.latency_nice, None);
    assert_eq!(little.ioclass, None);

    let mixed = read_process(&Readings {
        pid: 9,
        name: "half".to_string(),
        priority: 19,
        oom_score_adj: Some("not a number".to_string()),
        cgroup: Some(String::new()),
        sched_policy: 9,
        sched_priority: Some(0),
        latency_nice: None,
        io_priority: 0,
    });
    assert_eq!(mixed.oom_score_adj, None);
    assert_eq!(mixed.cgroup.as_deref(), Some("/"));
    assert_eq!(mixed.sched_policy.as_deref(), Some("unknown(9)"));
    assert_eq!(mixed.ioclass.as_deref(), Some("none"));
}

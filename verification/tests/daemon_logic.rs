use reduced::daemon::{
    config_path, daemon_status_message, delivery_log_message, diff_alert, diff_fetch_error_text,
    expand_tilde, failure_alert, handle_request, log_entry, notify_step, parse_pid,
    report_alert, report_log_message, report_period_secs, request_log_message, take_report,
    Channel, Counts, DaemonState, NotifyStep, RequestAction, DIFF_COLOR, FAILURE_COLOR,
    REPORT_COLOR,
};
use reduced::git::{
    extract_git_config_from_env, git_diff_report, git_show_args, git_verify_args, CommitDiff,
    GitConfig,
};
use reduced::request::{parse_request, request_message, Request};
use reduced::text::decimal_string;

fn pairs(list: &[(&str, &str)]) -> Vec<(String, String)> {
    list.iter().map(|(k, v)| (k.to_string(), v.to_string())).collect()
}

fn request(kind: &str, env: &[(&str, &str)]) -> Request {
    Request { kind: kind.to_string(), env_vars: pairs(env) }
}

const SECOND: u128 = 1_000_000_000;

#[test]
fn extract_git_config_needs_three_variables() {
    let env = pairs(&[("OX_REPO_NAME", "repo.git"), ("OX_NODE_NAME", "r1")]);
    assert!(extract_git_config_from_env(&env).is_none());
}

#[test]
fn extract_git_config_reads_all_fields() {
    let env = pairs(&[
        ("OX_REPO_NAME", "repo.git"),
        ("OX_REPO_COMMITREF", "abc123"),
        ("OX_NODE_NAME", "r1"),
        ("OX_NODE_GROUP", "core"),
        ("OX_JOB_STATUS", "success"),
        ("OX_JOB_TIME", "3.2"),
    ]);
    let c = extract_git_config_from_env(&env).unwrap();
    assert_eq!(c.repo_name, "repo.git");
    assert_eq!(c.commit_ref, "abc123");
    assert_eq!(c.node_name, "r1");
    assert_eq!(c.node_group.as_deref(), Some("core"));
    assert_eq!(c.job_status.as_deref(), Some("success"));
    assert_eq!(c.job_time.as_deref(), Some("3.2"));
}

#[test]
fn extract_git_config_first_pair_wins_and_optionals_missing() {
    let env = pairs(&[
        ("OX_NODE_NAME", "first"),
        ("OX_REPO_NAME", "repo.git"),
        ("OX_REPO_COMMITREF", "abc"),
        ("OX_NODE_NAME", "second"),
    ]);
    let c = extract_git_config_from_env(&env).unwrap();
    assert_eq!(c.node_name, "first");
    assert!(c.node_group.is_none() && c.job_status.is_none() && c.job_time.is_none());
}

fn sample_config(group: Option<&str>) -> GitConfig {
    GitConfig {
        repo_name: "/var/repo.git".to_string(),
        commit_ref: "abc".to_string(),
        node_name: "r1".to_string(),
        node_group: group.map(|g| g.to_string()),
        job_status: None,
        job_time: Some("2s".to_string()),
    }
}

#[test]
fn git_args_match_the_commands() {
    let c = sample_config(None);
    assert_eq!(
        git_verify_args(&c),
        vec!["--bare", "--git-dir", "/var/repo.git", "rev-parse", "--quiet", "--verify", "abc"]
    );
    assert_eq!(
        git_show_args(&c),
        vec!["--bare", "--git-dir", "/var/repo.git", "show", "--color=always", "--pretty=", "abc"]
    );
}

#[test]
fn git_report_with_diff() {
    let c = sample_config(Some("core"));
    let r = git_diff_report(&c, &CommitDiff::Shown("+x\n".to_string()));
    assert_eq!(
        r,
        "Node name: r1\nGroup name: core\nJob time: 2s\nGit repo: /var/repo.git\nGit commit ID: abc\n\n+x\n"
    );
}

#[test]
fn git_report_missing_commit_and_failure() {
    let c = sample_config(None);
    let header = "Node name: r1\nJob time: 2s\nGit repo: /var/repo.git\nGit commit ID: abc\n\n";
    assert_eq!(
        git_diff_report(&c, &CommitDiff::Missing),
        format!("{}Warning: commit abc does not exist in repository\n", header)
    );
    assert_eq!(
        git_diff_report(&c, &CommitDiff::Failed("fatal: bad".to_string())),
        format!("{}Error getting diff: fatal: bad\n", header)
    );
}

#[test]
fn request_message_keeps_only_ox_variables() {
    let env = pairs(&[("PATH", "/bin"), ("OX_NODE_NAME", "r1"), ("HOME", "/root"), ("OX_A", "x=y")]);
    assert_eq!(request_message("diff", &env), "diff\nOX_NODE_NAME=r1\nOX_A=x=y");
    assert_eq!(request_message("failure", &pairs(&[])), "failure\n");
}

#[test]
fn request_round_trip() {
    let env = pairs(&[("PATH", "/bin"), ("OX_NODE_NAME", "r1"), ("OX_NODE_MSG", "a = b"), ("OX_E", "")]);
    let parsed = parse_request(&request_message("failure", &env));
    assert_eq!(parsed.kind, "failure");
    assert_eq!(parsed.env_vars, pairs(&[("OX_NODE_NAME", "r1"), ("OX_NODE_MSG", "a = b"), ("OX_E", "")]));
    let parsed = parse_request(&request_message("diff", &pairs(&[])));
    assert_eq!(parsed.kind, "diff");
    assert!(parsed.env_vars.is_empty());
}

#[test]
fn parse_request_edge_cases() {
    let p = parse_request("  \n ");
    assert_eq!(p.kind, "");
    assert!(p.env_vars.is_empty());
    let p = parse_request(" diff\r\nno equals\nK=V=W\r\n=v\n\nX=  ");
    assert_eq!(p.kind, "diff");
    assert_eq!(p.env_vars, pairs(&[("K", "V=W"), ("", "v"), ("X", "")]));
}

#[test]
fn parse_request_trailing_whitespace_of_last_value_is_lost() {
    let env = pairs(&[("OX_NODE_NAME", "r1 ")]);
    let p = parse_request(&request_message("diff", &env));
    assert_eq!(p.env_vars, pairs(&[("OX_NODE_NAME", "r1")]));
}

#[test]
fn diff_request_counts_and_names_node() {
    let mut s = DaemonState::new();
    let a = handle_request(&mut s, &request("diff", &[("OX_NODE_NAME", "r1")]), 0, 60);
    assert!(matches!(a, RequestAction::Diff { ref node_name } if node_name == "r1"));
    assert_eq!((s.counts.diff, s.counts.failure), (1, 0));
    assert_eq!(request_log_message(&a), "Diff request processed for node: r1");
    let a = handle_request(&mut s, &request("diff", &[]), 0, 60);
    assert!(matches!(a, RequestAction::Diff { ref node_name } if node_name == "unknown"));
    assert_eq!(s.counts.diff, 2);
}

#[test]
fn failure_requests_are_throttled() {
    let mut s = DaemonState::new();
    let env = [("OX_NODE_NAME", "r1"), ("OX_NODE_IP", "10.0.0.1")];
    let a = handle_request(&mut s, &request("failure", &env), 100 * SECOND, 60);
    match &a {
        RequestAction::Failure { node_name, ip, group, reason } => {
            assert_eq!((node_name.as_str(), ip.as_str(), group.as_str(), reason.as_str()),
                ("r1", "10.0.0.1", "none", "unknown error"));
        }
        _ => panic!("expected a failure alert"),
    }
    assert_eq!(request_log_message(&a), "Failure request processed for node: r1");
    assert_eq!(s.counts.failure, 1);
    // 59.999 s later: still within the timeout.
    let a = handle_request(&mut s, &request("failure", &env), 160 * SECOND - 1, 60);
    assert!(matches!(a, RequestAction::FailureIgnored { .. }));
    assert_eq!(request_log_message(&a), "Failure request ignored (timeout) for node: r1");
    assert_eq!(s.counts.failure, 1);
    assert_eq!(s.last_failure_nanos, Some(100 * SECOND));
    // Exactly 60 s later: let through.
    let a = handle_request(&mut s, &request("failure", &env), 160 * SECOND, 60);
    assert!(matches!(a, RequestAction::Failure { .. }));
    assert_eq!(s.counts.failure, 2);
    assert_eq!(s.last_failure_nanos, Some(160 * SECOND));
}

#[test]
fn failure_with_clock_going_back_is_throttled() {
    let mut s = DaemonState::new();
    handle_request(&mut s, &request("failure", &[]), 100 * SECOND, 1);
    let a = handle_request(&mut s, &request("failure", &[]), 50 * SECOND, 1);
    assert!(matches!(a, RequestAction::FailureIgnored { .. }));
}

#[test]
fn failure_timeout_zero_never_throttles() {
    let mut s = DaemonState::new();
    handle_request(&mut s, &request("failure", &[]), 5, 0);
    let a = handle_request(&mut s, &request("failure", &[]), 5, 0);
    assert!(matches!(a, RequestAction::Failure { .. }));
    assert_eq!(s.counts.failure, 2);
}

#[test]
fn unknown_request_changes_nothing() {
    let mut s = DaemonState::new();
    let a = handle_request(&mut s, &request("hello", &[]), 0, 60);
    assert!(matches!(a, RequestAction::Unknown { ref kind } if kind == "hello"));
    assert_eq!(request_log_message(&a), "Unknown request: hello");
    assert_eq!((s.counts.diff, s.counts.failure, s.last_failure_nanos), (0, 0, None));
}

#[test]
fn report_takes_and_resets_counts() {
    let mut s = DaemonState::new();
    assert!(take_report(&mut s).is_none());
    handle_request(&mut s, &request("diff", &[]), 0, 60);
    handle_request(&mut s, &request("failure", &[]), 0, 60);
    handle_request(&mut s, &request("diff", &[]), 0, 60);
    let c = take_report(&mut s).unwrap();
    assert_eq!((c.diff, c.failure), (2, 1));
    assert_eq!((s.counts.diff, s.counts.failure), (0, 0));
    assert!(take_report(&mut s).is_none());
    assert_eq!(report_log_message(c), "Report sent: 2 diffs, 1 failures");
}

#[test]
fn report_period_in_seconds() {
    assert_eq!(report_period_secs(1), 86400);
    assert_eq!(report_period_secs(7), 604800);
    assert_eq!(report_period_secs(0), 0);
}

#[test]
fn alerts_match_templates() {
    let t = "2024-01-02 03:04:05 UTC";
    let a = diff_alert("r1", t);
    assert_eq!(a.subject, "Config Change: r1");
    assert_eq!(a.body, format!("<html><body><h2>Configuration Change Detected</h2><p>Device: {}</p><p>Time: {}</p><p>Configuration has been updated and committed to git.</p></body></html>", "r1", t));
    assert_eq!(a.title, "🔄 Config Change Detected");
    assert_eq!(a.description, format!("**Device:** {}\n**Time:** {}\nConfiguration has been updated and committed to git.", "r1", t));
    assert_eq!(a.color, DIFF_COLOR);
    assert_eq!(DIFF_COLOR, 3066993);

    let f = failure_alert("r1", "10.0.0.1", "core", "timeout", t);
    assert_eq!(f.subject, "Oxidized FAILURE: r1");
    assert_eq!(f.body, format!("<html><body><h2 style='color:red'>⚠️ Oxidized Backup FAILED</h2><p><strong>Device:</strong> {}</p><p><strong>IP:</strong> {}</p><p><strong>Group:</strong> {}</p><p><strong>Time:</strong> {}</p><p><strong>Reason:</strong> {}</p><hr><p>Please investigate connectivity or credentials.</p></body></html>", "r1", "10.0.0.1", "core", t, "timeout"));
    assert_eq!(f.title, "⚠️ Oxidized Backup FAILED");
    assert_eq!(f.description, format!("**Device:** {}\n**IP:** {}\n**Group:** {}\n**Time:** {}\n**Reason:** {}", "r1", "10.0.0.1", "core", t, "timeout"));
    assert_eq!(f.color, FAILURE_COLOR);
    assert_eq!(FAILURE_COLOR, 15158332);

    let ts = "2024-01-02T03:04:05+00:00";
    let r = report_alert(Counts { diff: 12, failure: 0 }, ts);
    assert_eq!(r.subject, "Oxidized Report: 12 changes, 0 failures");
    assert_eq!(r.body, format!("<html><body><h2>📊 Oxidized Activity Report (by Reduced)</h2><p><strong>Report Time:</strong> {}</p><p><strong>Configuration Changes:</strong> {}</p><p><strong>Backup Failures:</strong> {}</p><hr><p>This is an automated report from Reduced.</p></body></html>", ts, 12, 0));
    assert_eq!(r.title, "📊 Oxidized Activity Report");
    assert_eq!(r.description, format!("**Configuration Changes:** {}\n**Backup Failures:** {}\n**Report Time:** {}", 12, 0, ts));
    assert_eq!(r.color, REPORT_COLOR);
    assert_eq!(REPORT_COLOR, 3447003);
}

#[test]
fn notify_steps() {
    assert!(matches!(notify_step("mail", true, false), NotifyStep::SendMail));
    assert!(matches!(notify_step("discord", false, true), NotifyStep::SendDiscord));
    match notify_step("mail", false, true) {
        NotifyStep::Skip { log } => assert_eq!(log, "Method 'mail' is not configured"),
        _ => panic!(),
    }
    match notify_step("discord", true, false) {
        NotifyStep::Skip { log } => assert_eq!(log, "Method 'discord' is not configured"),
        _ => panic!(),
    }
    match notify_step("sms", true, true) {
        NotifyStep::Skip { log } => assert_eq!(log, "Unknown notification method: sms"),
        _ => panic!(),
    }
}

#[test]
fn delivery_log_messages() {
    assert_eq!(delivery_log_message(Channel::Mail, None), "Mail notification sent successfully");
    assert_eq!(delivery_log_message(Channel::Mail, Some("boom")), "Failed to send mail notification: boom");
    assert_eq!(delivery_log_message(Channel::Discord, None), "Discord notification sent successfully");
    assert_eq!(delivery_log_message(Channel::Discord, Some("404")), "Failed to send Discord notification: 404");
}

#[test]
fn diff_fetch_error() {
    assert_eq!(diff_fetch_error_text("r1", "spawn failed"), "Error fetching diff for r1: spawn failed");
}

#[test]
fn paths_and_log_lines() {
    assert_eq!(expand_tilde("~/logs/x.log", Some("/home/u")), "/home/u/logs/x.log");
    assert_eq!(expand_tilde("~x~y", Some("/h")), "/hx~y");
    assert_eq!(expand_tilde("~/logs", None), "~/logs");
    assert_eq!(expand_tilde("/var/log/~x", Some("/h")), "/var/log/~x");
    assert_eq!(config_path(Some("/home/u")), "/home/u/.config/oxidized/reduced.json");
    assert_eq!(config_path(None), "~/.config/oxidized/reduced.json");
    assert_eq!(log_entry("2024-01-02 03:04:05 UTC", "hello"), "[2024-01-02 03:04:05 UTC] hello\n");
}

#[test]
fn pid_parsing() {
    assert_eq!(parse_pid("1234\n"), Some(1234));
    assert_eq!(parse_pid("  +42 \t"), Some(42));
    assert_eq!(parse_pid("4294967295"), Some(u32::MAX));
    assert_eq!(parse_pid("4294967296"), None);
    assert_eq!(parse_pid("99999999999x"), None);
    assert_eq!(parse_pid("-1"), None);
    assert_eq!(parse_pid("+"), None);
    assert_eq!(parse_pid(""), None);
    assert_eq!(parse_pid("12 34"), None);
    assert_eq!(parse_pid("007"), Some(7));
    for s in ["0", "1", " 77\n", "+5", "65536", "abc", "4294967295", "42949672950"] {
        assert_eq!(parse_pid(s), s.trim().parse::<u32>().ok(), "input {:?}", s);
    }
}

#[test]
fn pid_file_round_trip_examples() {
    for pid in [0u32, 1, 9, 10, 4321, u32::MAX] {
        assert_eq!(parse_pid(&format!("{}\n", pid)), Some(pid));
    }
}

#[test]
fn decimal_strings() {
    for n in [0u64, 7, 10, 99, 100, 3066993, u64::MAX] {
        assert_eq!(decimal_string(n), n.to_string());
    }
}

#[test]
fn status_messages() {
    assert_eq!(daemon_status_message(true), "Daemon is running");
    assert_eq!(daemon_status_message(false), "Daemon is not running");
}

#[test]
fn full_failure_count_does_not_block_diff_or_throttled_failure() {
    let mut s = DaemonState::new();
    s.counts.failure = u64::MAX;
    s.last_failure_nanos = Some(10 * SECOND);
    let a = handle_request(&mut s, &request("diff", &[]), 11 * SECOND, 60);
    assert!(matches!(a, RequestAction::Diff { .. }));
    let a = handle_request(&mut s, &request("failure", &[]), 11 * SECOND, 60);
    assert!(matches!(a, RequestAction::FailureIgnored { .. }));
    assert_eq!((s.counts.diff, s.counts.failure), (1, u64::MAX));
}

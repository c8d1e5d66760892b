//! The daemon's decisions: what a request does to the counters and the
//! failure throttle, the alerts it sends, how it works through the
//! configured notification methods, and the small texts and paths around
//! them.

use vstd::prelude::*;
use crate::git::{env_lookup, find_env, pairs_view};
use crate::request::Request;
use crate::text::{
    chars_of, decimal, parse_u32, parse_u32_of, push_char, push_decimal, str_eq, trim_bounds,
    trimmed,
};

verus! {

/// Requests handled since the last report.
#[derive(Clone, Copy)]
pub struct Counts {
    pub diff: u64,
    pub failure: u64,
}

/// What the daemon remembers between requests: the counters, and when the
/// last failure alert was let through, in nanoseconds since the Unix epoch.
#[derive(Clone, Copy)]
pub struct DaemonState {
    pub counts: Counts,
    pub last_failure_nanos: Option<u128>,
}

impl DaemonState {
    /// The state at start-up: nothing counted, no failure seen.
    pub fn new() -> (s: DaemonState)
        ensures
            s.counts.diff == 0,
            s.counts.failure == 0,
            s.last_failure_nanos is None,
    {
        DaemonState { counts: Counts { diff: 0, failure: 0 }, last_failure_nanos: None }
    }
}

/// Whole seconds from `last` to `now`; zero when `now` is earlier.
pub open spec fn elapsed_secs(last: u128, now: u128) -> int {
    if now >= last {
        (now - last) / 1_000_000_000
    } else {
        0
    }
}

/// Whether a failure at `now` comes too soon after the last one let
/// through.
pub open spec fn throttled(last: Option<u128>, now: u128, timeout_secs: u64) -> bool {
    match last {
        Some(t) => elapsed_secs(t, now) < timeout_secs,
        None => false,
    }
}

/// Whether a failure alert at `now_nanos` comes less than `timeout_secs`
/// whole seconds after the last one let through.
pub fn failure_throttled(state: &DaemonState, now_nanos: u128, timeout_secs: u64) -> (r: bool)
    ensures
        r == throttled(state.last_failure_nanos, now_nanos, timeout_secs),
{
    match state.last_failure_nanos {
        Some(last) => {
            let elapsed: u128 = if now_nanos >= last {
                (now_nanos - last) / 1_000_000_000
            } else {
                0
            };
            elapsed < timeout_secs as u128
        },
        None => false,
    }
}

/// The state after a request of kind `kind` at `now`.
pub open spec fn state_after(s: DaemonState, kind: Seq<char>, now: u128, timeout_secs: u64) -> DaemonState {
    if kind == "diff"@ {
        DaemonState {
            counts: Counts { diff: (s.counts.diff + 1) as u64, failure: s.counts.failure },
            last_failure_nanos: s.last_failure_nanos,
        }
    } else if kind == "failure"@ && !throttled(s.last_failure_nanos, now, timeout_secs) {
        DaemonState {
            counts: Counts { diff: s.counts.diff, failure: (s.counts.failure + 1) as u64 },
            last_failure_nanos: Some(now),
        }
    } else {
        s
    }
}

/// The value of the variable named `key`, or `default`.
pub open spec fn lookup_or(env: Seq<(Seq<char>, Seq<char>)>, key: Seq<char>, default: Seq<char>) -> Seq<char> {
    match env_lookup(env, key) {
        Some(v) => v,
        None => default,
    }
}

/// The value of the variable named `key`, or `default`.
pub fn env_value_or(env_vars: &[(String, String)], key: &str, default: &str) -> (r: String)
    ensures
        r@ == lookup_or(pairs_view(env_vars@), key@, default@),
{
    match find_env(env_vars, key) {
        Some(v) => v,
        None => String::from_str(default),
    }
}

/// What the daemon does for a request.
pub enum RequestAction {
    /// A configuration change of a node: count it and alert.
    Diff { node_name: String },
    /// A backup failure: count it and alert.
    Failure { node_name: String, ip: String, group: String, reason: String },
    /// A failure that came too soon after the last one: only log it.
    FailureIgnored { node_name: String },
    /// A request the daemon does not know: only log it.
    Unknown { kind: String },
}

/// Handles one request at `now` (nanoseconds since the Unix epoch): a
/// `diff` is counted; a `failure` is counted and remembered unless it
/// comes less than `failure_timeout_secs` whole seconds after the last one
/// let through, in which case it is ignored; anything else is unknown.
/// Node name, address, group and reason come from `OX_NODE_NAME`,
/// `OX_NODE_IP`, `OX_NODE_GROUP` and `OX_NODE_MSG`, with `unknown`,
/// `unknown`, `none` and `unknown error` where they are missing.
pub fn handle_request(state: &mut DaemonState, request: &Request, now_nanos: u128, failure_timeout_secs: u64) -> (action: RequestAction)
    requires
        request.kind@ == "diff"@ ==> old(state).counts.diff < u64::MAX,
        request.kind@ == "failure"@ && !throttled(
            old(state).last_failure_nanos,
            now_nanos,
            failure_timeout_secs,
        ) ==> old(state).counts.failure < u64::MAX,
    ensures
        *final(state) == state_after(*old(state), request.kind@, now_nanos, failure_timeout_secs),
        ({
            let env = pairs_view(request.env_vars@);
            let node = lookup_or(env, "OX_NODE_NAME"@, "unknown"@);
            match action {
                RequestAction::Diff { node_name } => request.kind@ == "diff"@ && node_name@ == node,
                RequestAction::Failure { node_name, ip, group, reason } => {
                    &&& request.kind@ == "failure"@
                    &&& !throttled(old(state).last_failure_nanos, now_nanos, failure_timeout_secs)
                    &&& node_name@ == node
                    &&& ip@ == lookup_or(env, "OX_NODE_IP"@, "unknown"@)
                    &&& group@ == lookup_or(env, "OX_NODE_GROUP"@, "none"@)
                    &&& reason@ == lookup_or(env, "OX_NODE_MSG"@, "unknown error"@)
                },
                RequestAction::FailureIgnored { node_name } => {
                    &&& request.kind@ == "failure"@
                    &&& throttled(old(state).last_failure_nanos, now_nanos, failure_timeout_secs)
                    &&& node_name@ == node
                },
                RequestAction::Unknown { kind } => request.kind@ != "diff"@ && request.kind@
                    != "failure"@ && kind@ == request.kind@,
            }
        }),
{
    if str_eq(request.kind.as_str(), "diff") {
        let node_name = env_value_or(&request.env_vars, "OX_NODE_NAME", "unknown");
        state.counts.diff = state.counts.diff + 1;
        RequestAction::Diff { node_name }
    } else if str_eq(request.kind.as_str(), "failure") {
        let node_name = env_value_or(&request.env_vars, "OX_NODE_NAME", "unknown");
        let too_soon = failure_throttled(state, now_nanos, failure_timeout_secs);
        if too_soon {
            return RequestAction::FailureIgnored { node_name };
        }
        state.last_failure_nanos = Some(now_nanos);
        state.counts.failure = state.counts.failure + 1;
        let ip = env_value_or(&request.env_vars, "OX_NODE_IP", "unknown");
        let group = env_value_or(&request.env_vars, "OX_NODE_GROUP", "none");
        let reason = env_value_or(&request.env_vars, "OX_NODE_MSG", "unknown error");
        RequestAction::Failure { node_name, ip, group, reason }
    } else {
        RequestAction::Unknown { kind: request.kind.clone() }
    }
}


/// The log line of a handled request.
pub open spec fn request_log_of(action: RequestAction) -> Seq<char> {
    match action {
        RequestAction::Diff { node_name } => "Diff request processed for node: "@ + node_name@,
        RequestAction::Failure { node_name, .. } => "Failure request processed for node: "@
            + node_name@,
        RequestAction::FailureIgnored { node_name } => "Failure request ignored (timeout) for node: "@
            + node_name@,
        RequestAction::Unknown { kind } => "Unknown request: "@ + kind@,
    }
}

/// The line written to the log for a handled request.
pub fn request_log_message(action: &RequestAction) -> (r: String)
    ensures
        r@ == request_log_of(*action),
{
    match action {
        RequestAction::Diff { node_name } => {
            let mut m = String::from_str("Diff request processed for node: ");
            m.append(node_name.as_str());
            m
        },
        RequestAction::Failure { node_name, .. } => {
            let mut m = String::from_str("Failure request processed for node: ");
            m.append(node_name.as_str());
            m
        },
        RequestAction::FailureIgnored { node_name } => {
            let mut m = String::from_str("Failure request ignored (timeout) for node: ");
            m.append(node_name.as_str());
            m
        },
        RequestAction::Unknown { kind } => {
            let mut m = String::from_str("Unknown request: ");
            m.append(kind.as_str());
            m
        },
    }
}

/// The diff text used when fetching the diff failed.
pub fn diff_fetch_error_text(node_name: &str, error: &str) -> (r: String)
    ensures
        r@ == "Error fetching diff for "@ + node_name@ + ": "@ + error@,
{
    let mut m = String::from_str("Error fetching diff for ");
    m.append(node_name);
    m.append(": ");
    m.append(error);
    m
}

/// Ends a reporting period: when anything was counted, returns the counts
/// and sets them back to zero; otherwise returns nothing and changes
/// nothing.
pub fn take_report(state: &mut DaemonState) -> (r: Option<Counts>)
    ensures
        final(state).last_failure_nanos == old(state).last_failure_nanos,
        old(state).counts.diff > 0 || old(state).counts.failure > 0 ==> {
            &&& r == Some(old(state).counts)
            &&& final(state).counts.diff == 0
            &&& final(state).counts.failure == 0
        },
        old(state).counts.diff == 0 && old(state).counts.failure == 0 ==> {
            &&& r is None
            &&& *final(state) == *old(state)
        },
{
    if state.counts.diff > 0 || state.counts.failure > 0 {
        let counts = state.counts;
        state.counts = Counts { diff: 0, failure: 0 };
        Some(counts)
    } else {
        None
    }
}

/// The length of a reporting period in seconds: `interval_days` days.
pub fn report_period_secs(interval_days: u64) -> (r: u64)
    requires
        interval_days * 86400 <= u64::MAX,
    ensures
        r == interval_days * 86400,
{
    interval_days * 86400
}

/// The log line of a report.
pub fn report_log_message(counts: Counts) -> (r: String)
    ensures
        r@ == "Report sent: "@ + decimal(counts.diff as nat) + " diffs, "@ + decimal(
            counts.failure as nat,
        ) + " failures"@,
{
    let mut m = String::from_str("Report sent: ");
    push_decimal(counts.diff, &mut m);
    m.append(" diffs, ");
    push_decimal(counts.failure, &mut m);
    m.append(" failures");
    m
}

/// What one alert says, by mail and on Discord.
pub struct Alert {
    /// Subject of the mail.
    pub subject: String,
    /// HTML body of the mail.
    pub body: String,
    /// Title of the Discord embed.
    pub title: String,
    /// Description of the Discord embed.
    pub description: String,
    /// Colour of the Discord embed.
    pub color: u32,
}

/// Colour of change alerts (green).
pub const DIFF_COLOR: u32 = 3066993;

/// Colour of failure alerts (red).
pub const FAILURE_COLOR: u32 = 15158332;

/// Colour of reports (blue).
pub const REPORT_COLOR: u32 = 3447003;

/// The alert on a configuration change of `node` at `time`.
pub open spec fn diff_alert_holds(a: Alert, node: Seq<char>, time: Seq<char>) -> bool {
    &&& a.subject@ == "Config Change: "@ + node
    &&& a.body@ == "<html><body><h2>Configuration Change Detected</h2><p>Device: "@ + node
        + "</p><p>Time: "@ + time
        + "</p><p>Configuration has been updated and committed to git.</p></body></html>"@
    &&& a.title@ == "🔄 Config Change Detected"@
    &&& a.description@ == "**Device:** "@ + node + "\n**Time:** "@ + time
        + "\nConfiguration has been updated and committed to git."@
    &&& a.color == DIFF_COLOR
}

/// Builds the alert on a configuration change; `time` is the formatted
/// time of the change.
pub fn diff_alert(node_name: &str, time: &str) -> (a: Alert)
    ensures
        diff_alert_holds(a, node_name@, time@),
{
    let mut subject = String::from_str("Config Change: ");
    subject.append(node_name);
    let mut body = String::from_str(
        "<html><body><h2>Configuration Change Detected</h2><p>Device: ",
    );
    body.append(node_name);
    body.append("</p><p>Time: ");
    body.append(time);
    body.append("</p><p>Configuration has been updated and committed to git.</p></body></html>");
    let title = String::from_str("🔄 Config Change Detected");
    let mut description = String::from_str("**Device:** ");
    description.append(node_name);
    description.append("\n**Time:** ");
    description.append(time);
    description.append("\nConfiguration has been updated and committed to git.");
    Alert { subject, body, title, description, color: DIFF_COLOR }
}

/// The alert on a backup failure of `node`.
pub open spec fn failure_alert_holds(
    a: Alert,
    node: Seq<char>,
    ip: Seq<char>,
    group: Seq<char>,
    reason: Seq<char>,
    time: Seq<char>,
) -> bool {
    &&& a.subject@ == "Oxidized FAILURE: "@ + node
    &&& a.body@
        == "<html><body><h2 style='color:red'>⚠️ Oxidized Backup FAILED</h2><p><strong>Device:</strong> "@
        + node + "</p><p><strong>IP:</strong> "@ + ip + "</p><p><strong>Group:</strong> "@ + group
        + "</p><p><strong>Time:</strong> "@ + time + "</p><p><strong>Reason:</strong> "@ + reason
        + "</p><hr><p>Please investigate connectivity or credentials.</p></body></html>"@
    &&& a.title@ == "⚠️ Oxidized Backup FAILED"@
    &&& a.description@ == "**Device:** "@ + node + "\n**IP:** "@ + ip + "\n**Group:** "@ + group
        + "\n**Time:** "@ + time + "\n**Reason:** "@ + reason
    &&& a.color == FAILURE_COLOR
}

/// Builds the alert on a backup failure; `time` is the formatted time.
pub fn failure_alert(node_name: &str, ip: &str, group: &str, reason: &str, time: &str) -> (a: Alert)
    ensures
        failure_alert_holds(a, node_name@, ip@, group@, reason@, time@),
{
    let mut subject = String::from_str("Oxidized FAILURE: ");
    subject.append(node_name);
    let mut body = String::from_str(
        "<html><body><h2 style='color:red'>⚠️ Oxidized Backup FAILED</h2><p><strong>Device:</strong> ",
    );
    body.append(node_name);
    body.append("</p><p><strong>IP:</strong> ");
    body.append(ip);
    body.append("</p><p><strong>Group:</strong> ");
    body.append(group);
    body.append("</p><p><strong>Time:</strong> ");
    body.append(time);
    body.append("</p><p><strong>Reason:</strong> ");
    body.append(reason);
    body.append("</p><hr><p>Please investigate connectivity or credentials.</p></body></html>");
    let title = String::from_str("⚠️ Oxidized Backup FAILED");
    let mut description = String::from_str("**Device:** ");
    description.append(node_name);
    description.append("\n**IP:** ");
    description.append(ip);
    description.append("\n**Group:** ");
    description.append(group);
    description.append("\n**Time:** ");
    description.append(time);
    description.append("\n**Reason:** ");
    description.append(reason);
    Alert { subject, body, title, description, color: FAILURE_COLOR }
}

/// The periodic report of `counts` at `time`.
pub open spec fn report_alert_holds(a: Alert, counts: Counts, time: Seq<char>) -> bool {
    let d = decimal(counts.diff as nat);
    let f = decimal(counts.failure as nat);
    &&& a.subject@ == "Oxidized Report: "@ + d + " changes, "@ + f + " failures"@
    &&& a.body@
        == "<html><body><h2>📊 Oxidized Activity Report (by Reduced)</h2><p><strong>Report Time:</strong> "@
        + time + "</p><p><strong>Configuration Changes:</strong> "@ + d
        + "</p><p><strong>Backup Failures:</strong> "@ + f
        + "</p><hr><p>This is an automated report from Reduced.</p></body></html>"@
    &&& a.title@ == "📊 Oxidized Activity Report"@
    &&& a.description@ == "**Configuration Changes:** "@ + d + "\n**Backup Failures:** "@ + f
        + "\n**Report Time:** "@ + time
    &&& a.color == REPORT_COLOR
}

/// Builds the periodic report; `time` is the report time in RFC 3339 form.
pub fn report_alert(counts: Counts, time: &str) -> (a: Alert)
    ensures
        report_alert_holds(a, counts, time@),
{
    let mut subject = String::from_str("Oxidized Report: ");
    push_decimal(counts.diff, &mut subject);
    subject.append(" changes, ");
    push_decimal(counts.failure, &mut subject);
    subject.append(" failures");
    let mut body = String::from_str(
        "<html><body><h2>📊 Oxidized Activity Report (by Reduced)</h2><p><strong>Report Time:</strong> ",
    );
    body.append(time);
    body.append("</p><p><strong>Configuration Changes:</strong> ");
    push_decimal(counts.diff, &mut body);
    body.append("</p><p><strong>Backup Failures:</strong> ");
    push_decimal(counts.failure, &mut body);
    body.append("</p><hr><p>This is an automated report from Reduced.</p></body></html>");
    let title = String::from_str("📊 Oxidized Activity Report");
    let mut description = String::from_str("**Configuration Changes:** ");
    push_decimal(counts.diff, &mut description);
    description.append("\n**Backup Failures:** ");
    push_decimal(counts.failure, &mut description);
    description.append("\n**Report Time:** ");
    description.append(time);
    Alert { subject, body, title, description, color: REPORT_COLOR }
}


/// What to do for one configured notification method.
pub enum NotifyStep {
    /// Send a mail.
    SendMail,
    /// Post to Discord.
    SendDiscord,
    /// Send nothing; write this line to the log.
    Skip { log: String },
}

/// Decides what a notification method asks for: `mail` and `discord` send
/// when they are configured; otherwise, or for any other method, a line is
/// logged.
pub fn notify_step(method: &str, mail_configured: bool, discord_configured: bool) -> (r: NotifyStep)
    ensures
        r is SendMail <==> (method@ == "mail"@ && mail_configured),
        r is SendDiscord <==> (method@ == "discord"@ && discord_configured),
        r matches NotifyStep::Skip { log } ==> log@ == if method@ == "mail"@ {
            "Method 'mail' is not configured"@
        } else if method@ == "discord"@ {
            "Method 'discord' is not configured"@
        } else {
            "Unknown notification method: "@ + method@
        },
{
    proof {
        reveal_strlit("mail");
        reveal_strlit("discord");
        assert("mail"@.len() != "discord"@.len());
    }
    if str_eq(method, "mail") {
        if mail_configured {
            NotifyStep::SendMail
        } else {
            NotifyStep::Skip { log: String::from_str("Method 'mail' is not configured") }
        }
    } else if str_eq(method, "discord") {
        if discord_configured {
            NotifyStep::SendDiscord
        } else {
            NotifyStep::Skip { log: String::from_str("Method 'discord' is not configured") }
        }
    } else {
        let mut log = String::from_str("Unknown notification method: ");
        log.append(method);
        NotifyStep::Skip { log }
    }
}

/// A way of notifying.
pub enum Channel {
    Mail,
    Discord,
}

/// The log line after sending through `channel`: success, or the error.
pub fn delivery_log_message(channel: Channel, error: Option<&str>) -> (r: String)
    ensures
        r@ == match (channel, error) {
            (Channel::Mail, None) => "Mail notification sent successfully"@,
            (Channel::Mail, Some(e)) => "Failed to send mail notification: "@ + e@,
            (Channel::Discord, None) => "Discord notification sent successfully"@,
            (Channel::Discord, Some(e)) => "Failed to send Discord notification: "@ + e@,
        },
{
    match (channel, error) {
        (Channel::Mail, None) => String::from_str("Mail notification sent successfully"),
        (Channel::Mail, Some(e)) => {
            let mut m = String::from_str("Failed to send mail notification: ");
            m.append(e);
            m
        },
        (Channel::Discord, None) => String::from_str("Discord notification sent successfully"),
        (Channel::Discord, Some(e)) => {
            let mut m = String::from_str("Failed to send Discord notification: ");
            m.append(e);
            m
        },
    }
}

/// `path` with a leading `~` replaced by the home directory, when there is
/// one.
pub open spec fn expand_tilde_of(path: Seq<char>, home: Option<Seq<char>>) -> Seq<char> {
    match home {
        Some(h) if path.len() > 0 && path[0] == '~' => h + path.drop_first(),
        _ => path,
    }
}

/// Replaces a leading `~` of `path` with `home` (the `HOME` variable, if
/// set).
pub fn expand_tilde(path: &str, home: Option<&str>) -> (r: String)
    ensures
        r@ == expand_tilde_of(
            path@,
            match home {
                Some(h) => Some(h@),
                None => None,
            },
        ),
{
    let v = chars_of(path);
    match home {
        Some(h) => {
            if v.len() > 0 && v[0] == '~' {
                let mut out = String::from_str(h);
                let mut i: usize = 1;
                while i < v.len()
                    invariant
                        1 <= i <= v.len(),
                        v@ == path@,
                        out@ == h@ + v@.subrange(1, i as int),
                    decreases v.len() - i,
                {
                    push_char(&mut out, v[i]);
                    assert(v@.subrange(1, i + 1) =~= v@.subrange(1, i as int).push(v@[i as int]));
                    i = i + 1;
                }
                assert(v@.subrange(1, i as int) =~= path@.drop_first());
                return out;
            }
        },
        None => {},
    }
    String::from_str(path)
}

/// Where the configuration file is: under the home directory, or under
/// `~` when `HOME` is not set.
pub fn config_path(home: Option<&str>) -> (r: String)
    ensures
        r@ == match home {
            Some(h) => h@ + "/.config/oxidized/reduced.json"@,
            None => "~/.config/oxidized/reduced.json"@,
        },
{
    match home {
        Some(h) => {
            let mut p = String::from_str(h);
            p.append("/.config/oxidized/reduced.json");
            p
        },
        None => String::from_str("~/.config/oxidized/reduced.json"),
    }
}

/// A line of the log file: the time stamp in brackets, then the message.
pub fn log_entry(timestamp: &str, message: &str) -> (r: String)
    ensures
        r@ == "["@ + timestamp@ + "] "@ + message@ + "\n"@,
{
    let mut e = String::from_str("[");
    e.append(timestamp);
    e.append("] ");
    e.append(message);
    e.append("\n");
    e
}

/// The process id in the text of a pid file: the trimmed text read as a
/// `u32`.
pub open spec fn pid_of(text: Seq<char>) -> Option<u32> {
    parse_u32_of(trimmed(text))
}

/// Reads the process id out of the text of a pid file.
pub fn parse_pid(text: &str) -> (r: Option<u32>)
    ensures
        r == pid_of(text@),
{
    let v = chars_of(text);
    let (lo, hi) = trim_bounds(&v);
    parse_u32(&v, lo, hi)
}

/// What `status` prints.
pub fn daemon_status_message(running: bool) -> (r: String)
    ensures
        r@ == if running {
            "Daemon is running"@
        } else {
            "Daemon is not running"@
        },
{
    if running {
        String::from_str("Daemon is running")
    } else {
        String::from_str("Daemon is not running")
    }
}

/// A pid file as it is written, the decimal process id and a line break,
/// reads back as that process id.
pub proof fn pid_file_round_trip(pid: u32)
    ensures
        pid_of(decimal(pid as nat) + seq!['\n']) == Some(pid),
{
    let d = decimal(pid as nat);
    let t = d + seq!['\n'];
    crate::text::lemma_decimal_digits(pid as nat);
    assert(!crate::text::is_ws(d[0])) by {
        assert(crate::text::is_digit(d[0]));
    }
    assert(!crate::text::is_ws(d.last())) by {
        assert(crate::text::is_digit(d[d.len() - 1]));
    }
    assert(t[0] == d[0]);
    assert(crate::text::trim_start(t) == t);
    assert(t.drop_last() =~= d);
    assert(crate::text::trim_end(d) == d);
    assert(crate::text::trimmed(t) == d);
    assert(d[0] != '+') by {
        assert(crate::text::is_digit(d[0]));
    }
}

/// A failure alert that gets through holds back every failure alert for
/// the following `timeout_secs` whole seconds: a second failure request
/// at a time less than that after it leaves the state unchanged.
pub proof fn failure_throttle(s: DaemonState, first: u128, second: u128, timeout_secs: u64)
    requires
        !throttled(s.last_failure_nanos, first, timeout_secs),
        elapsed_secs(first, second) < timeout_secs,
    ensures
        state_after(s, "failure"@, first, timeout_secs).last_failure_nanos == Some(first),
        state_after(state_after(s, "failure"@, first, timeout_secs), "failure"@, second, timeout_secs)
            == state_after(s, "failure"@, first, timeout_secs),
{
    assert("failure"@ != "diff"@) by {
        reveal_strlit("failure");
        reveal_strlit("diff");
        assert("failure"@.len() != "diff"@.len());
    }
}

/// Requests other than `diff` and `failure` leave the state as it was.
pub proof fn unknown_request_keeps_state(s: DaemonState, kind: Seq<char>, now: u128, timeout_secs: u64)
    requires
        kind != "diff"@,
        kind != "failure"@,
    ensures
        state_after(s, kind, now, timeout_secs) == s,
{
}

/// Each `diff` request adds one to the change count and nothing else.
pub proof fn diff_counts_once(s: DaemonState, now: u128, timeout_secs: u64)
    requires
        s.counts.diff < u64::MAX,
    ensures
        state_after(s, "diff"@, now, timeout_secs).counts.diff == s.counts.diff + 1,
        state_after(s, "diff"@, now, timeout_secs).counts.failure == s.counts.failure,
        state_after(s, "diff"@, now, timeout_secs).last_failure_nanos == s.last_failure_nanos,
{
}

/// A failure at `now` is held back exactly when one was let through at
/// `last` and fewer than `timeout_secs` seconds have passed since: when the
/// clock has not gone back, exactly when `now` is before `last` plus the
/// timeout; when it has gone back, exactly when the timeout is not zero.
pub proof fn throttle_window(last: u128, now: u128, timeout_secs: u64)
    ensures
        !throttled(None, now, timeout_secs),
        now >= last ==> (throttled(Some(last), now, timeout_secs) <==> now < last + timeout_secs
            * 1_000_000_000),
        now < last ==> (throttled(Some(last), now, timeout_secs) <==> timeout_secs > 0),
{
    if now >= last {
        let d = (now - last) as int;
        assert(((d / 1_000_000_000) < timeout_secs) <==> (d < timeout_secs * 1_000_000_000)) by (nonlinear_arith)
            requires
                d >= 0,
                timeout_secs >= 0,
        ;
    }
}

} // verus!

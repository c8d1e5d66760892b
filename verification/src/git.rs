//! Git details of a configuration change: the repository, commit and node
//! taken from the environment, the `git` commands that inspect the commit,
//! and the text of the report.

use vstd::prelude::*;
use crate::text::{has_prefix, str_eq, views};

verus! {

/// The repository, commit and node of a change, and optional job details.
#[derive(Debug, Clone)]
pub struct GitConfig {
    pub repo_name: String,
    pub commit_ref: String,
    pub node_name: String,
    pub node_group: Option<String>,
    pub job_status: Option<String>,
    pub job_time: Option<String>,
}

/// The contents of an optional string.
pub open spec fn opt_view(o: Option<String>) -> Option<Seq<char>> {
    match o {
        Some(s) => Some(s@),
        None => None,
    }
}

/// The contents of a list of name-value pairs.
pub open spec fn pairs_view(env: Seq<(String, String)>) -> Seq<(Seq<char>, Seq<char>)> {
    env.map_values(|p: (String, String)| (p.0@, p.1@))
}

/// The value of the first pair named `key`.
pub open spec fn env_lookup(env: Seq<(Seq<char>, Seq<char>)>, key: Seq<char>) -> Option<Seq<char>>
    decreases env.len(),
{
    if env.len() == 0 {
        None
    } else if env[0].0 == key {
        Some(env[0].1)
    } else {
        env_lookup(env.drop_first(), key)
    }
}

/// The value of the first pair in `env` named `key`.
pub fn find_env(env: &[(String, String)], key: &str) -> (r: Option<String>)
    ensures
        opt_view(r) == env_lookup(pairs_view(env@), key@),
{
    let ghost all = pairs_view(env@);
    let mut i: usize = 0;
    assert(all.skip(0) =~= all);
    while i < env.len()
        invariant
            i <= env.len(),
            all == pairs_view(env@),
            env_lookup(all, key@) == env_lookup(all.skip(i as int), key@),
        decreases env.len() - i,
    {
        let ghost rest = all.skip(i as int);
        assert(rest[0] == (env@[i as int].0@, env@[i as int].1@));
        if str_eq(env[i].0.as_str(), key) {
            let v = env[i].1.clone();
            return Some(v);
        }
        assert(rest.drop_first() =~= all.skip(i + 1));
        i = i + 1;
    }
    assert(all.skip(i as int) =~= Seq::<(Seq<char>, Seq<char>)>::empty());
    None
}

/// Reads the details of a change from the variables that Oxidized sets:
/// `OX_REPO_NAME`, `OX_REPO_COMMITREF` and `OX_NODE_NAME` must be there,
/// `OX_NODE_GROUP`, `OX_JOB_STATUS` and `OX_JOB_TIME` may be.  The first
/// pair with a name counts.
pub fn extract_git_config_from_env(env_vars: &[(String, String)]) -> (r: Option<GitConfig>)
    ensures
        r is Some <==> (env_lookup(pairs_view(env_vars@), "OX_REPO_NAME"@) is Some && env_lookup(
            pairs_view(env_vars@),
            "OX_REPO_COMMITREF"@,
        ) is Some && env_lookup(pairs_view(env_vars@), "OX_NODE_NAME"@) is Some),
        r matches Some(c) ==> {
            &&& Some(c.repo_name@) == env_lookup(pairs_view(env_vars@), "OX_REPO_NAME"@)
            &&& Some(c.commit_ref@) == env_lookup(pairs_view(env_vars@), "OX_REPO_COMMITREF"@)
            &&& Some(c.node_name@) == env_lookup(pairs_view(env_vars@), "OX_NODE_NAME"@)
            &&& opt_view(c.node_group) == env_lookup(pairs_view(env_vars@), "OX_NODE_GROUP"@)
            &&& opt_view(c.job_status) == env_lookup(pairs_view(env_vars@), "OX_JOB_STATUS"@)
            &&& opt_view(c.job_time) == env_lookup(pairs_view(env_vars@), "OX_JOB_TIME"@)
        },
{
    let repo_name = find_env(env_vars, "OX_REPO_NAME")?;
    let commit_ref = find_env(env_vars, "OX_REPO_COMMITREF")?;
    let node_name = find_env(env_vars, "OX_NODE_NAME")?;
    let node_group = find_env(env_vars, "OX_NODE_GROUP");
    let job_status = find_env(env_vars, "OX_JOB_STATUS");
    let job_time = find_env(env_vars, "OX_JOB_TIME");
    Some(GitConfig { repo_name, commit_ref, node_name, node_group, job_status, job_time })
}


/// Arguments of the `git` call that checks that the commit exists:
/// `--bare --git-dir <repo> rev-parse --quiet --verify <commit>`.
pub fn git_verify_args(git_config: &GitConfig) -> (r: Vec<String>)
    ensures
        views(r@) == seq![
            "--bare"@,
            "--git-dir"@,
            git_config.repo_name@,
            "rev-parse"@,
            "--quiet"@,
            "--verify"@,
            git_config.commit_ref@,
        ],
{
    let mut r: Vec<String> = Vec::new();
    r.push(String::from_str("--bare"));
    r.push(String::from_str("--git-dir"));
    r.push(git_config.repo_name.clone());
    r.push(String::from_str("rev-parse"));
    r.push(String::from_str("--quiet"));
    r.push(String::from_str("--verify"));
    r.push(git_config.commit_ref.clone());
    assert(views(r@) =~= seq![
        "--bare"@,
        "--git-dir"@,
        git_config.repo_name@,
        "rev-parse"@,
        "--quiet"@,
        "--verify"@,
        git_config.commit_ref@,
    ]);
    r
}

/// Arguments of the `git` call that prints the commit's diff with colours:
/// `--bare --git-dir <repo> show --color=always --pretty= <commit>`.
pub fn git_show_args(git_config: &GitConfig) -> (r: Vec<String>)
    ensures
        views(r@) == seq![
            "--bare"@,
            "--git-dir"@,
            git_config.repo_name@,
            "show"@,
            "--color=always"@,
            "--pretty="@,
            git_config.commit_ref@,
        ],
{
    let mut r: Vec<String> = Vec::new();
    r.push(String::from_str("--bare"));
    r.push(String::from_str("--git-dir"));
    r.push(git_config.repo_name.clone());
    r.push(String::from_str("show"));
    r.push(String::from_str("--color=always"));
    r.push(String::from_str("--pretty="));
    r.push(git_config.commit_ref.clone());
    assert(views(r@) =~= seq![
        "--bare"@,
        "--git-dir"@,
        git_config.repo_name@,
        "show"@,
        "--color=always"@,
        "--pretty="@,
        git_config.commit_ref@,
    ]);
    r
}

/// A labelled line for an optional value, or nothing.
pub open spec fn optional_line(label: Seq<char>, value: Option<Seq<char>>) -> Seq<char> {
    match value {
        Some(v) => label + v + "\n"@,
        None => seq![],
    }
}

/// The heading of a change report: node, the optional group, job status and
/// job time, repository and commit, then an empty line.
pub open spec fn git_header(c: GitConfig) -> Seq<char> {
    "Node name: "@ + c.node_name@ + "\n"@ + optional_line("Group name: "@, opt_view(c.node_group))
        + optional_line("Job status: "@, opt_view(c.job_status)) + optional_line(
        "Job time: "@,
        opt_view(c.job_time),
    ) + "Git repo: "@ + c.repo_name@ + "\n"@ + "Git commit ID: "@ + c.commit_ref@ + "\n\n"@
}

/// What `git` said about the commit.
pub enum CommitDiff {
    /// The commit is not in the repository.
    Missing,
    /// `git show` succeeded with this output.
    Shown(String),
    /// `git show` failed with this error output.
    Failed(String),
}

/// The part of the report that follows the heading.
pub open spec fn commit_diff_text(commit: Seq<char>, d: CommitDiff) -> Seq<char> {
    match d {
        CommitDiff::Missing => "Warning: commit "@ + commit + " does not exist in repository\n"@,
        CommitDiff::Shown(out) => out@,
        CommitDiff::Failed(err) => "Error getting diff: "@ + err@ + "\n"@,
    }
}

fn push_optional_line(out: &mut String, label: &str, value: &Option<String>)
    ensures
        final(out)@ == old(out)@ + optional_line(label@, opt_view(*value)),
{
    match value {
        Some(v) => {
            out.append(label);
            out.append(v.as_str());
            out.append("\n");
        },
        None => {
            assert(old(out)@ + Seq::<char>::empty() =~= old(out)@);
        },
    }
    assert(final(out)@ =~= old(out)@ + optional_line(label@, opt_view(*value)));
}

/// The report on a change: the heading, then the diff, the `git` error, or
/// a warning that the commit does not exist.
pub fn git_diff_report(git_config: &GitConfig, diff: &CommitDiff) -> (r: String)
    ensures
        r@ == git_header(*git_config) + commit_diff_text(git_config.commit_ref@, *diff),
{
    let mut out = String::from_str("Node name: ");
    out.append(git_config.node_name.as_str());
    out.append("\n");
    push_optional_line(&mut out, "Group name: ", &git_config.node_group);
    push_optional_line(&mut out, "Job status: ", &git_config.job_status);
    push_optional_line(&mut out, "Job time: ", &git_config.job_time);
    out.append("Git repo: ");
    out.append(git_config.repo_name.as_str());
    out.append("\n");
    out.append("Git commit ID: ");
    out.append(git_config.commit_ref.as_str());
    out.append("\n\n");
    let ghost header = out@;
    assert(header =~= git_header(*git_config));
    match diff {
        CommitDiff::Missing => {
            out.append("Warning: commit ");
            out.append(git_config.commit_ref.as_str());
            out.append(" does not exist in repository\n");
        },
        CommitDiff::Shown(text) => {
            out.append(text.as_str());
        },
        CommitDiff::Failed(err) => {
            out.append("Error getting diff: ");
            out.append(err.as_str());
            out.append("\n");
        },
    }
    assert(out@ =~= header + commit_diff_text(git_config.commit_ref@, *diff));
    out
}

/// The report on a change holds, one line each and in this order: the
/// node; the group, the job status and the job time, each only when it is
/// known; the repository; the commit; then an empty line, and after it the
/// diff, the `git` error, or the warning that the commit does not exist.
pub proof fn git_report_layout(c: GitConfig, d: CommitDiff)
    ensures
        git_header(c) + commit_diff_text(c.commit_ref@, d) == "Node name: "@ + c.node_name@ + "\n"@
            + match c.node_group {
            Some(g) => "Group name: "@ + g@ + "\n"@,
            None => seq![],
        } + match c.job_status {
            Some(st) => "Job status: "@ + st@ + "\n"@,
            None => seq![],
        } + match c.job_time {
            Some(t) => "Job time: "@ + t@ + "\n"@,
            None => seq![],
        } + "Git repo: "@ + c.repo_name@ + "\n"@ + "Git commit ID: "@ + c.commit_ref@ + "\n"@
            + "\n"@ + match d {
            CommitDiff::Missing => "Warning: commit "@ + c.commit_ref@
                + " does not exist in repository\n"@,
            CommitDiff::Shown(out) => out@,
            CommitDiff::Failed(err) => "Error getting diff: "@ + err@ + "\n"@,
        },
{
    reveal_strlit("\n\n");
    reveal_strlit("\n");
    assert("\n\n"@ =~= "\n"@ + "\n"@);
    let g = match c.node_group {
        Some(g) => "Group name: "@ + g@ + "\n"@,
        None => Seq::<char>::empty(),
    };
    let st = match c.job_status {
        Some(st) => "Job status: "@ + st@ + "\n"@,
        None => Seq::<char>::empty(),
    };
    let t = match c.job_time {
        Some(t) => "Job time: "@ + t@ + "\n"@,
        None => Seq::<char>::empty(),
    };
    assert(optional_line("Group name: "@, opt_view(c.node_group)) == g);
    assert(optional_line("Job status: "@, opt_view(c.job_status)) == st);
    assert(optional_line("Job time: "@, opt_view(c.job_time)) == t);
    let dt = commit_diff_text(c.commit_ref@, d);
    assert(git_header(c) + dt =~= "Node name: "@ + c.node_name@ + "\n"@ + g + st + t
        + "Git repo: "@ + c.repo_name@ + "\n"@ + "Git commit ID: "@ + c.commit_ref@ + "\n"@ + "\n"@
        + dt);
}

/// Giving a job status adds exactly its line to the report, right after
/// the node and group lines and before the job time and repository lines;
/// the rest of the report stays as it was.
pub proof fn git_report_job_status_line(c: GitConfig, status: String, d: CommitDiff)
    requires
        c.job_status is None,
    ensures
        ({
            let with = GitConfig { job_status: Some(status), ..c };
            exists|pre: Seq<char>, post: Seq<char>|
                {
                    &&& git_header(c) + commit_diff_text(c.commit_ref@, d) == pre + post
                    &&& git_header(with) + commit_diff_text(with.commit_ref@, d) == pre
                        + "Job status: "@ + status@ + "\n"@ + post
                    &&& has_prefix(pre, "Node name: "@ + c.node_name@ + "\n"@)
                    &&& (has_prefix(post, "Job time: "@) || has_prefix(post, "Git repo: "@))
                }
        }),
{
    let with = GitConfig { job_status: Some(status), ..c };
    let dt = commit_diff_text(c.commit_ref@, d);
    let head = "Node name: "@ + c.node_name@ + "\n"@;
    let pre = head + optional_line("Group name: "@, opt_view(c.node_group));
    let t = optional_line("Job time: "@, opt_view(c.job_time));
    let post = t + "Git repo: "@ + c.repo_name@ + "\n"@ + "Git commit ID: "@ + c.commit_ref@
        + "\n\n"@ + dt;
    let line = "Job status: "@ + status@ + "\n"@;
    assert(optional_line("Job status: "@, opt_view(c.job_status)) == Seq::<char>::empty());
    assert(optional_line("Job status: "@, opt_view(with.job_status)) == line);
    assert(git_header(c) + dt =~= pre + post);
    assert(git_header(with) + dt =~= pre + line + post);
    assert(pre.take(head.len() as int) =~= head);
    if c.job_time is Some {
        assert(post.take("Job time: "@.len() as int) =~= "Job time: "@);
    } else {
        assert(post.take("Git repo: "@.len() as int) =~= "Git repo: "@);
    }
    assert(has_prefix(pre, head));
    assert(has_prefix(post, "Job time: "@) || has_prefix(post, "Git repo: "@));
    assert({
        &&& git_header(c) + commit_diff_text(c.commit_ref@, d) == pre + post
        &&& git_header(with) + commit_diff_text(with.commit_ref@, d) == pre + "Job status: "@
            + status@ + "\n"@ + post
        &&& has_prefix(pre, "Node name: "@ + c.node_name@ + "\n"@)
        &&& (has_prefix(post, "Job time: "@) || has_prefix(post, "Git repo: "@))
    });
}

/// Looking a name up gives the value of the first pair with that name,
/// and nothing when no pair has it.
pub proof fn env_lookup_first_match(env: Seq<(Seq<char>, Seq<char>)>, key: Seq<char>)
    ensures
        env_lookup(env, key) is None <==> forall|i: int| 0 <= i < env.len() ==> env[i].0 != key,
        forall|i: int|
            0 <= i < env.len() && env[i].0 == key && (forall|j: int| 0 <= j < i ==> env[j].0 != key)
                ==> env_lookup(env, key) == Some(env[i].1),
    decreases env.len(),
{
    if env.len() > 0 {
        env_lookup_first_match(env.drop_first(), key);
        assert forall|i: int| 1 <= i < env.len() implies env[i] == env.drop_first()[i - 1] by {}
        if env[0].0 != key {
            assert forall|i: int|
                0 <= i < env.len() && env[i].0 == key && (forall|j: int| 0 <= j < i ==> env[j].0 != key)
                    implies env_lookup(env, key) == Some(env[i].1) by {
                assert(i > 0);
                assert forall|j: int| 0 <= j < i - 1 implies env.drop_first()[j].0 != key by {
                    assert(env.drop_first()[j] == env[j + 1]);
                }
            }
            if env_lookup(env.drop_first(), key) is None {
                assert forall|i: int| 0 <= i < env.len() implies env[i].0 != key by {
                    if i > 0 {
                        assert(env.drop_first()[i - 1] == env[i]);
                    }
                }
            }
        }
    }
}

} // verus!

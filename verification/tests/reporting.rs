use lars::analysis::{generate_scrape_plan, Analysis, AnalysisAction};
use lars::github::{
    ask_failed, ask_outcome, build_github_headers, comments_url, commit_failed, commit_refused,
    label_to_add, label_to_remove, label_url, labels_url, lookup_failed, lookup_refused,
    make_contents_url, make_repo_path, make_results_comment, prepare_ask, put_content,
    read_failed, sha_failed, url_failed, Ask, Commit, CommitAction, CommitEvent, CommitJob,
    LabelAction, Labels,
};
use lars::model::{ActiveSimulation, ReportStartPayload, Timestamp};
use lars::pages::{history_reply, page_reply};
use lars::script::{CommandOutput, Script, ScriptAction, ScriptEvent};
use lars::state::Scheduler;

const ID: u128 = 0x0123_4567_89ab_cdef_0011_2233_4455_6677;

const TEXT: &str = "01234567-89ab-cdef-0011-223344556677";

fn simulation() -> ActiveSimulation {
    let mut lars = Scheduler::new();
    let payload = ReportStartPayload {
        simulation_id: ID,
        chart: "waku".to_string(),
        node_count: 1,
        duration_secs: 60,
        release_name: "waku-1".to_string(),
    };
    lars.report_start(payload, 1, Timestamp { secs: 0, nanos: 0 });
    lars.active.remove(ID).unwrap()
}

#[test]
fn plan_covers_the_run() {
    let mut sim = simulation();
    sim.start_time = Some(Timestamp { secs: 1_700_000_000, nanos: 5 });
    let plan = generate_scrape_plan(&sim);
    assert_eq!(plan.times_names, vec!["2023-11-14 22:13:20", "", "waku-1"]);
    sim.end_time = Some(Timestamp { secs: 0, nanos: 0 });
    assert_eq!(generate_scrape_plan(&sim).times_names[1], "1970-01-01 00:00:00");
    sim.end_time = Some(Timestamp { secs: i64::MAX, nanos: 0 });
    assert_eq!(generate_scrape_plan(&sim).times_names[1], "");
    assert_eq!(plan.dump_location, format!("lars_metrics/{}/", TEXT));
    assert_eq!(plan.plotting.name, format!("plot-{}", TEXT));
    assert_eq!(plan.rate_interval, "121s");
    assert_eq!(plan.step, "60s");
    assert_eq!(plan.metrics_to_scrape.len(), 2);
    assert_eq!(plan.metrics_to_scrape[0].name, "libp2p_network_in");
    assert_eq!(
        plan.metrics_to_scrape[1].query,
        "rate(libp2p_network_bytes_total{direction='out'}[$__rate_interval])"
    );
    assert_eq!(plan.metrics_to_scrape[1].folder_name, "libp2p-out/");
    assert_eq!(plan.plotting.ignore_columns, vec!["bootstrap", "midstrap"]);
    assert_eq!(plan.plotting.folder, vec![plan.dump_location.clone()]);
    assert_eq!(plan.plotting.include_files, vec!["waku-1"]);
    assert_eq!(plan.plotting.fig_size, (20, 20));
    assert_eq!(plan.plotting.scale_x, 1000);
    assert_eq!(plan.plotting.data_points, 25);
}

#[test]
fn runs_without_an_issue_are_not_analysed() {
    assert!(Analysis::start(&simulation()).is_none());
}

fn ok(text: &str) -> Result<String, String> {
    Ok(text.to_string())
}

fn failed() -> Result<String, String> {
    Err("no".to_string())
}

fn begin() -> Analysis {
    let mut sim = simulation();
    sim.issue_number = Some(12);
    Analysis::start(&sim).unwrap().0
}

#[test]
fn analysis_announces_a_committed_plot() {
    let mut a = begin();
    match a.step(ok("yaml")) {
        AnalysisAction::WritePlan { name, content } => {
            assert_eq!(name, format!("scrape-{}.yaml", TEXT));
            assert_eq!(content, "yaml");
        }
        _ => panic!("another action"),
    }
    match a.step(ok("")) {
        AnalysisAction::MakeDirectory(path) => {
            assert_eq!(path, format!("./analysis_results/{}", TEXT))
        }
        _ => panic!("another action"),
    }
    let png = match a.step(ok("")) {
        AnalysisAction::RunScript(png) => png,
        _ => panic!("another action"),
    };
    assert_eq!(png, format!("./analysis_results/{}/analysis_plot.png", TEXT));
    assert!(matches!(a.step(Ok(png.clone())), AnalysisAction::DiscardPlan));
    match a.step(failed()) {
        AnalysisAction::Commit { issue, png: path } => {
            assert_eq!(issue, 12);
            assert_eq!(path, png);
        }
        _ => panic!("another action"),
    }
    match a.step(ok("http://x")) {
        AnalysisAction::StoreUrl { simulation_id, url } => {
            assert_eq!(simulation_id, TEXT);
            assert_eq!(url, "http://x");
        }
        _ => panic!("another action"),
    }
    match a.step(failed()) {
        AnalysisAction::Comment { issue, body } => {
            assert_eq!(issue, 12);
            assert_eq!(body, "# Results\n\n![Analysis Plot](http://x)");
        }
        _ => panic!("another action"),
    }
    assert!(matches!(a.step(failed()), AnalysisAction::Label { issue: 12, success: true }));
    assert!(matches!(a.step(ok("")), AnalysisAction::Nothing));
    assert!(matches!(a.step(ok("")), AnalysisAction::Nothing));
}

#[test]
fn failed_commit_is_labelled() {
    let mut a = begin();
    for text in ["yaml", "", "", "png", ""] {
        a.step(ok(text));
    }
    assert!(matches!(a.step(failed()), AnalysisAction::Label { issue: 12, success: false }));
    assert!(matches!(a.step(ok("")), AnalysisAction::Nothing));
}

#[test]
fn plan_is_discarded_after_a_failure() {
    let mut a = begin();
    assert!(matches!(a.step(failed()), AnalysisAction::Nothing));
    let mut a = begin();
    a.step(ok("yaml"));
    assert!(matches!(a.step(failed()), AnalysisAction::Nothing));
    for steps in [2, 3] {
        let mut a = begin();
        for _ in 0..steps {
            a.step(ok(""));
        }
        assert!(matches!(a.step(failed()), AnalysisAction::DiscardPlan));
        assert!(matches!(a.step(ok("")), AnalysisAction::Nothing));
    }
}

fn output(success: bool, stdout: &[u8], stderr: &[u8]) -> Result<CommandOutput, String> {
    Ok(CommandOutput {
        success,
        status: "exit status: 1".to_string(),
        stdout: stdout.to_vec(),
        stderr: stderr.to_vec(),
    })
}

fn there(is: bool) -> ScriptEvent {
    ScriptEvent::Exists(is)
}

fn gone() -> ScriptEvent {
    ScriptEvent::Output(Err("gone".to_string()))
}

fn left(success: bool, stdout: &[u8], stderr: &[u8]) -> ScriptEvent {
    ScriptEvent::Output(output(success, stdout, stderr))
}

/// What a script run ends in, and that it does nothing after that.
fn outcome(events: Vec<ScriptEvent>) -> Result<String, String> {
    let (mut script, _) = Script::start("p.png".to_string());
    let mut end = None;
    for event in events {
        let action = script.step(event);
        if end.is_some() {
            assert!(matches!(action, ScriptAction::Nothing));
        }
        if let ScriptAction::Finish(result) = action {
            end = Some(result);
        }
    }
    end.unwrap()
}

#[test]
fn script_clones_only_what_is_missing() {
    let (mut script, first) = Script::start("p.png".to_string());
    assert!(matches!(first, ScriptAction::CheckRepository(path) if path == "./10ksim"));
    match script.step(there(false)) {
        ScriptAction::Clone { url, directory } => {
            assert_eq!(url, "https://github.com/vacp2p/10ksim.git");
            assert_eq!(directory, "./10ksim");
        }
        _ => panic!("another action"),
    }
    assert!(matches!(script.step(there(true)), ScriptAction::Nothing));
    match script.step(left(true, b"", b"")) {
        ScriptAction::CopyPlan(path) => assert_eq!(path, "scrape.yaml"),
        _ => panic!("another action"),
    }
    let (mut script, _) = Script::start("p.png".to_string());
    assert!(matches!(script.step(there(true)), ScriptAction::CopyPlan(_)));
    match script.step(ScriptEvent::Copied(Ok(()))) {
        ScriptAction::Run { program, script } => {
            assert_eq!(program, "python3");
            assert_eq!(script, "./10ksim/analyse.py");
        }
        _ => panic!("another action"),
    }
    match script.step(left(true, b"", b"")) {
        ScriptAction::CheckPlot(png) => assert_eq!(png, "p.png"),
        _ => panic!("another action"),
    }
    assert!(matches!(script.step(there(true)), ScriptAction::Finish(Ok(png)) if png == "p.png"));
    assert!(matches!(script.step(there(true)), ScriptAction::Nothing));
}

#[test]
fn commands_are_judged_by_what_they_leave() {
    let copied = || ScriptEvent::Copied(Ok(()));
    let end = |text: &str| Err(text.to_string());
    assert_eq!(
        outcome(vec![there(false), left(false, b"out", b"err"), copied(), gone()]),
        end("git clone failed: err\nout")
    );
    assert_eq!(
        outcome(vec![there(false), gone(), copied()]),
        end("Failed to execute git clone: gone")
    );
    assert_eq!(
        outcome(vec![there(true), ScriptEvent::Copied(Err("full".to_string())), gone()]),
        end("Failed to copy scrape.yaml to current directory: full")
    );
    assert_eq!(
        outcome(vec![there(true), copied(), left(false, b"a\xffb", b"err"), there(true)]),
        end("Python script failed.\nExit Code: exit status: 1\nStderr: err\nStdout: a\u{fffd}b")
    );
    assert_eq!(
        outcome(vec![there(true), copied(), gone(), there(true)]),
        end("Failed to execute python script: gone")
    );
    let missing = "Python script succeeded but output PNG file 'p.png' was not found. \
                   Script stdout:\nhé";
    assert_eq!(
        outcome(vec![there(true), copied(), left(true, "hé".as_bytes(), b""), there(false)]),
        end(missing)
    );
    assert_eq!(
        outcome(vec![there(true), copied(), left(true, b"", b""), there(true)]),
        ok("p.png")
    );
}

fn commit(token: &str) -> Commit {
    let (commit, first) = Commit::start(CommitJob {
        issue: 12,
        png: "p.png".to_string(),
        repo: "o/r".to_string(),
        token: token.to_string(),
    });
    assert!(matches!(first, CommitAction::ReadFile(path) if path == "p.png"));
    commit
}

fn bytes() -> CommitEvent {
    CommitEvent::Bytes(b"Man".to_vec())
}

fn text(s: &str) -> CommitEvent {
    CommitEvent::Text(s.to_string())
}

fn no() -> CommitEvent {
    CommitEvent::Failed("no".to_string())
}

/// What a commit ends in after these events, and that nothing is sent after that.
fn committed(events: Vec<CommitEvent>) -> Result<String, String> {
    let mut c = commit("t");
    let mut end = None;
    for event in events {
        match c.step(event) {
            CommitAction::Finish(result) => end = Some(result),
            action => assert!(end.is_none() || matches!(action, CommitAction::Nothing)),
        }
    }
    end.unwrap()
}

const CONTENTS: &str =
    "https://api.github.com/repos/o/r/contents/simulation_results/12/analysis_plot.png";

#[test]
fn commit_asks_for_the_file_before_it_commits() {
    let mut c = commit("t");
    match c.step(bytes()) {
        CommitAction::LookUp { url, headers } => {
            assert_eq!(url, CONTENTS);
            assert_eq!(headers.authorization, "token t");
        }
        _ => panic!("another action"),
    }
    match c.step(CommitEvent::Status(404)) {
        CommitAction::Put { url, headers, content } => {
            assert_eq!(url, CONTENTS);
            assert_eq!(headers.accept, "application/vnd.github.v3+json");
            assert_eq!(content.content, "TWFu");
            assert_eq!(content.sha, None);
        }
        _ => panic!("another action"),
    }
    assert!(matches!(c.step(CommitEvent::Status(201)), CommitAction::ReadUrl));
    assert!(matches!(c.step(text("u")), CommitAction::Finish(Ok(url)) if url == "u"));
    assert!(matches!(c.step(text("u")), CommitAction::Nothing));
    let mut c = commit("t");
    c.step(bytes());
    assert!(matches!(c.step(CommitEvent::Status(200)), CommitAction::ReadSha));
    match c.step(text("abc")) {
        CommitAction::Put { content, .. } => assert_eq!(content.sha, Some("abc".to_string())),
        _ => panic!("another action"),
    }
    assert!(matches!(c.step(CommitEvent::Status(200)), CommitAction::ReadUrl));
}

#[test]
fn nothing_is_sent_without_a_plot_and_a_token() {
    let mut c = commit("a\nb");
    match c.step(bytes()) {
        CommitAction::Finish(Err(e)) => {
            assert_eq!(e, "Invalid GitHub token format: failed to parse header value")
        }
        _ => panic!("another action"),
    }
    assert!(matches!(c.step(CommitEvent::Status(404)), CommitAction::Nothing));
    let end = |text: &str| Err(text.to_string());
    assert_eq!(
        committed(vec![no(), CommitEvent::Status(404)]),
        end("Failed to read local PNG file 'p.png': no")
    );
}

#[test]
fn refused_and_failed_commits_say_why() {
    let path = "simulation_results/12/analysis_plot.png";
    let status = CommitEvent::Status;
    assert_eq!(
        committed(vec![bytes(), no(), status(404)]),
        Err(format!("GitHub API request failed (GET {}): no", path))
    );
    assert_eq!(
        committed(vec![bytes(), status(403), text("stop"), status(404), status(200)]),
        Err(format!(
            "GitHub API error checking file existence (GET {}): Status 403 Forbidden, Body: stop",
            path
        ))
    );
    assert_eq!(
        committed(vec![bytes(), status(200), no(), text("abc")]),
        Err(format!("Failed to parse GitHub GET response for {}: no", path))
    );
    assert_eq!(
        committed(vec![bytes(), status(404), no()]),
        Err(format!("GitHub API request failed (PUT {}): no", path))
    );
    assert_eq!(
        committed(vec![bytes(), status(404), status(409), text("stop")]),
        Err(format!(
            "GitHub API error committing file (PUT {}): Status 409 Conflict, Body: stop",
            path
        ))
    );
    assert_eq!(
        committed(vec![bytes(), status(404), status(201), no()]),
        Err(format!("Failed to parse GitHub PUT response for {}: no", path))
    );
}

#[test]
fn one_label_is_added_whatever_the_removal_gave() {
    for removal in [Ok(()), Err("no".to_string())] {
        for (success, label) in [(true, "simulation-done"), (false, "simulation-failed")] {
            let (mut labels, first) = Labels::start(success);
            assert!(matches!(first, LabelAction::Remove(l) if l == "simulation-pending"));
            assert!(matches!(labels.step(removal.clone()), LabelAction::Add(l) if l == label));
            assert!(matches!(labels.step(Ok(())), LabelAction::Nothing));
            assert!(matches!(labels.step(Err("no".to_string())), LabelAction::Nothing));
        }
    }
}

#[test]
fn nothing_is_asked_without_a_token() {
    for ask in [Ask::PostComment, Ask::AddLabel, Ask::RemoveLabel] {
        assert_eq!(
            prepare_ask(ask, "o/r", "a\nb", 3, "l").unwrap_err(),
            "Invalid GitHub token format: failed to parse header value"
        );
    }
    let r = prepare_ask(Ask::PostComment, "o/r", "t", 3, "").unwrap();
    assert_eq!(r.url, "https://api.github.com/repos/o/r/issues/3/comments");
    assert_eq!(r.headers.authorization, "token t");
    let r = prepare_ask(Ask::AddLabel, "o/r", "t", 3, "a b").unwrap();
    assert_eq!(r.url, "https://api.github.com/repos/o/r/issues/3/labels");
    let r = prepare_ask(Ask::RemoveLabel, "o/r", "t", 3, "a b").unwrap();
    assert_eq!(r.url, "https://api.github.com/repos/o/r/issues/3/labels/a%20b");
}

#[test]
fn addresses_lead_to_the_repository() {
    assert_eq!(make_repo_path(12), "simulation_results/12/analysis_plot.png");
    assert_eq!(
        make_contents_url("o/r", "a/b"),
        "https://api.github.com/repos/o/r/contents/a/b"
    );
    assert_eq!(comments_url("o/r", 12), "https://api.github.com/repos/o/r/issues/12/comments");
    assert_eq!(labels_url("o/r", 12), "https://api.github.com/repos/o/r/issues/12/labels");
    assert_eq!(
        label_url("o/r", 12, "a b/é~"),
        "https://api.github.com/repos/o/r/issues/12/labels/a%20b%2F%C3%A9~"
    );
    assert_eq!(label_to_remove(), "simulation-pending");
    assert_eq!(label_to_add(true), "simulation-done");
    assert_eq!(label_to_add(false), "simulation-failed");
    assert_eq!(make_results_comment("u"), "# Results\n\n![Analysis Plot](u)");
}

#[test]
fn headers_carry_the_token() {
    let h = build_github_headers("SECRET").unwrap();
    assert_eq!(h.authorization, "token SECRET");
    assert_eq!(h.accept, "application/vnd.github.v3+json");
    assert_eq!(h.user_agent, "LARS-Simulation-Scheduler");
    assert_eq!(
        build_github_headers("a\nb").unwrap_err(),
        "Invalid GitHub token format: failed to parse header value"
    );
    assert!(build_github_headers("a\u{7f}b").is_err());
    assert!(build_github_headers("a\té").is_ok());
}

#[test]
fn commits_carry_the_plot() {
    let c = put_content(12, b"Man", None);
    assert_eq!(c.message, "Add analysis results for simulation from issue #12");
    assert_eq!(c.content, "TWFu");
    assert_eq!(c.sha, None);
    assert_eq!(put_content(1, b"Ma", Some("abc".to_string())).content, "TWE=");
    assert_eq!(put_content(1, b"M", None).content, "TQ==");
    assert_eq!(put_content(1, b"", None).content, "");
    assert_eq!(put_content(1, &[0xfb, 0xff, 0xfe], None).content, "+//+");
}

#[test]
fn failures_name_what_they_are_about() {
    assert_eq!(sha_failed("p", "no"), "Failed to parse GitHub GET response for p: no");
    assert_eq!(url_failed("p", "no"), "Failed to parse GitHub PUT response for p: no");
    assert_eq!(read_failed("p", "no"), "Failed to read local PNG file 'p': no");
    assert_eq!(lookup_failed("p", "no"), "GitHub API request failed (GET p): no");
    assert_eq!(commit_failed("p", "no"), "GitHub API request failed (PUT p): no");
    assert_eq!(
        lookup_refused("p", 403, "stop"),
        "GitHub API error checking file existence (GET p): Status 403 Forbidden, Body: stop"
    );
    assert_eq!(
        commit_refused("p", 599, "stop"),
        "GitHub API error committing file (PUT p): Status 599 <unknown status code>, Body: stop"
    );
}

#[test]
fn issues_are_changed_or_say_why_not() {
    assert_eq!(ask_outcome(Ask::PostComment, 3, "", 201, ""), Ok(()));
    assert_eq!(
        ask_outcome(Ask::PostComment, 3, "", 200, "b"),
        Err("GitHub API error posting comment (issue 3): Status 200 OK, Body: b".to_string())
    );
    assert_eq!(ask_outcome(Ask::AddLabel, 3, "l", 200, ""), Ok(()));
    assert_eq!(
        ask_outcome(Ask::AddLabel, 3, "l", 404, "b"),
        Err("GitHub API error adding label 'l' (issue 3): Status 404 Not Found, Body: b"
            .to_string())
    );
    for status in [200, 204, 299, 404] {
        assert_eq!(ask_outcome(Ask::RemoveLabel, 3, "l", status, ""), Ok(()));
    }
    assert_eq!(
        ask_outcome(Ask::RemoveLabel, 3, "l", 500, "b"),
        Err("GitHub API error removing label 'l' (issue 3): Status 500 Internal Server Error, \
             Body: b"
            .to_string())
    );
    assert_eq!(
        ask_failed(Ask::PostComment, 3, "no"),
        "GitHub API request failed (POST comment issue 3): no"
    );
    assert_eq!(
        ask_failed(Ask::AddLabel, 3, "no"),
        "GitHub API request failed (POST label issue 3): no"
    );
    assert_eq!(
        ask_failed(Ask::RemoveLabel, 3, "no"),
        "GitHub API request failed (DELETE label issue 3): no"
    );
}

#[test]
fn pages_are_shown_or_say_why_not() {
    assert_eq!(page_reply(ok("<html>")).unwrap(), "<html>");
    let e = page_reply(failed()).unwrap_err();
    assert_eq!((e.status, e.text.as_str()), (500, "Template rendering error"));
    assert_eq!(history_reply(Ok(vec![])).unwrap().len(), 0);
    let e = history_reply(Err("locked".to_string())).unwrap_err();
    assert_eq!((e.status, e.text.as_str()), (500, "Database error: locked"));
}

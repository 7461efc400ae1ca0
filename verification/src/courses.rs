//! The courses that a run, its analysis and what is told of it take: what is done step by step,
//! and what is said where a step fails.

use crate::analysis::{
    analysis_next, given, scrape_plan, time_text, AnalysisAction, AnalysisActionView, AnalysisView,
    MetricView,
};
use crate::github::{
    ask_url, commit_next, commit_run, final_label, headers_for, is_token, labels_next,
    pending_label, refused, Ask, CommitAction, CommitActionView, CommitEventView, CommitStage,
    CommitView, LabelActionView, LabelStage,
};
use crate::model::{ActiveView, Timestamp};
use crate::outside::{
    base64_text, hyphenated, lossy_text, percent_encoded, status_phrase, time_in_format,
};
use crate::script::{
    script_next, script_run, OutputView, ScriptAction, ScriptActionView, ScriptEventView,
    ScriptView,
};
use crate::state::{with_status, SchedulerView};
use crate::task::{stage_after, statefulset, timed, values_yaml, with_statuses, Outcome, Stage};
use crate::text::decimal;
use vstd::prelude::*;

verus! {

/// A run where everything succeeds goes through its stages in this order, and takes these
/// statuses on the way.
pub proof fn successful_runs_take_every_stage(now: Timestamp, sim: ActiveView)
    ensures
        ({
            let stage = |n: nat| stage_after(Stage::Begin, |s: Stage| true, n);
            &&& stage(1) is Writing
            &&& stage(2) is Deploying
            &&& stage(3) == Stage::Discarding(true)
            &&& stage(4) is RollingOut
            &&& stage(5) is Running
            &&& stage(6) == Stage::Removing(Outcome::Completed)
            &&& stage(7) is Done
        }),
        Stage::Begin.statuses(true) == seq!["Deploying"@],
        Stage::Writing.statuses(true).len() == 0,
        Stage::Deploying.statuses(true).len() == 0,
        Stage::Discarding(true).statuses(true) == seq!["WaitingForRollout"@],
        Stage::RollingOut.statuses(true) == seq!["Running"@],
        Stage::Running.statuses(true) == seq!["CleaningUp"@],
        Outcome::Completed.status() == "Completed"@,
        statefulset(sim.release_name) == sim.release_name + "-nodes"@,
        values_yaml() == "key: value # Stub YAML"@,
{
    let f = |s: Stage| true;
    let stage = |n: nat| stage_after(Stage::Begin, f, n);
    assert(stage(0) == Stage::Begin);
    assert(stage(1) == stage(0).next(f(stage(0))));
    assert(stage(2) == stage(1).next(f(stage(1))));
    assert(stage(3) == stage(2).next(f(stage(2))));
    assert(stage(4) == stage(3).next(f(stage(3))));
    assert(stage(5) == stage(4).next(f(stage(4))));
    assert(stage(6) == stage(5).next(f(stage(5))));
    assert(stage(7) == stage(6).next(f(stage(6))));
}

/// Whatever stage fails, the deployment is removed next, and the run ends under the status of
/// that stage, which the simulation is given before that of the clean-up.
pub proof fn failed_runs_end_under_their_stage(any: bool)
    ensures
        Stage::Begin.next(false) == Stage::Removing(Outcome::FailedConfig),
        Stage::Begin.statuses(false) == seq!["Deploying"@, "Failed (Config)"@, "CleaningUp"@],
        Outcome::FailedConfig.status() == "Failed (Config)"@,
        Stage::Writing.next(false) == Stage::Removing(Outcome::FailedIo),
        Stage::Writing.statuses(false) == seq!["Failed (IO)"@, "CleaningUp"@],
        Outcome::FailedIo.status() == "Failed (IO)"@,
        Stage::Deploying.next(false) == Stage::Discarding(false),
        Stage::Deploying.statuses(false).len() == 0,
        Stage::Discarding(false).next(any) == Stage::Removing(Outcome::FailedHelm),
        Stage::Discarding(false).statuses(any) == seq!["Failed (Helm)"@, "CleaningUp"@],
        Outcome::FailedHelm.status() == "Failed (Helm)"@,
        Stage::Discarding(true).next(any) is RollingOut,
        Stage::RollingOut.next(false) == Stage::Removing(Outcome::FailedRollout),
        Stage::RollingOut.statuses(false) == seq!["Failed (Rollout)"@, "CleaningUp"@],
        Outcome::FailedRollout.status() == "Failed (Rollout)"@,
        Stage::Running.next(any) == Stage::Removing(Outcome::Completed),
        Stage::Running.statuses(any) == seq!["CleaningUp"@],
        forall|outcome: Outcome| (#[trigger] Stage::Removing(outcome).next(any)) is Done,
        Stage::Done.next(any) is Done,
{
}

/// A task takes three times, and changes nothing else of its simulation: that of its beginning,
/// in whose place comes that of the rollout, and that of the end of the wait.
pub proof fn tasks_take_their_times(sim: ActiveView, stage: Stage, succeeded: bool, now: Timestamp)
    ensures
        ({
            let t = timed(sim, stage, succeeded, now);
            &&& t.start_time == if stage is Begin || (stage is RollingOut && succeeded) {
                Some(now)
            } else {
                sim.start_time
            }
            &&& t.end_time == if stage is Running {
                Some(now)
            } else {
                sim.end_time
            }
            &&& t == (ActiveView { start_time: t.start_time, end_time: t.end_time, ..sim })
        }),
{
}

/// Statuses are given one after the other.
pub proof fn statuses_are_given_in_order(
    s: SchedulerView,
    id: u128,
    statuses: Seq<Seq<char>>,
    next: Seq<char>,
)
    ensures
        with_statuses(s, id, Seq::empty()) == s,
        with_statuses(s, id, statuses.push(next)) == with_status(
            with_statuses(s, id, statuses),
            id,
            next,
        ),
{
    assert(statuses.push(next).drop_last() =~= statuses);
}

/// The stages and the actions of an analysis, given what comes of each action.
pub open spec fn analysis_run(
    issue: u64,
    id: u128,
    stage: AnalysisView,
    gave: Seq<Option<Seq<char>>>,
) -> Seq<AnalysisActionView>
    decreases gave.len(),
{
    if gave.len() == 0 {
        Seq::empty()
    } else {
        let (next, action) = analysis_next(issue, id, stage, gave[0]);
        seq![action] + analysis_run(issue, id, next, gave.drop_first())
    }
}

/// An analysis where everything succeeds writes the plan down, makes the directory, runs the
/// script, removes the plan, commits the plot that the script gave, keeps the address that the
/// commit gave, comments on the issue with it, and marks the issue as done, whatever comes of the
/// last of these.
pub proof fn successful_analyses_announce_the_plot(
    issue: u64,
    id: u128,
    plan: Seq<char>,
    any: Seq<char>,
    png: Seq<char>,
    url: Seq<char>,
    discarded: Option<Seq<char>>,
    stored: Option<Seq<char>>,
    commented: Option<Seq<char>>,
    labelled: Option<Seq<char>>,
)
    ensures
        analysis_run(
            issue,
            id,
            AnalysisView::Serializing,
            seq![
                Some(plan),
                Some(any),
                Some(any),
                Some(png),
                discarded,
                Some(url),
                stored,
                commented,
                labelled,
            ],
        ) == seq![
            AnalysisActionView::WritePlan {
                name: "scrape-"@ + hyphenated(id) + ".yaml"@,
                content: plan,
            },
            AnalysisActionView::MakeDirectory("./analysis_results/"@ + hyphenated(id)),
            AnalysisActionView::RunScript(
                "./analysis_results/"@ + hyphenated(id) + "/analysis_plot.png"@,
            ),
            AnalysisActionView::DiscardPlan,
            AnalysisActionView::Commit { issue: issue, png: png },
            AnalysisActionView::StoreUrl { simulation_id: hyphenated(id), url: url },
            AnalysisActionView::Comment {
                issue: issue,
                body: "# Results\n\n![Analysis Plot]("@ + url + ")"@,
            },
            AnalysisActionView::Label { issue: issue, success: true },
            AnalysisActionView::Nothing,
        ],
{
    let g: Seq<Option<Seq<char>>> = seq![
        Some(plan),
        Some(any),
        Some(any),
        Some(png),
        discarded,
        Some(url),
        stored,
        commented,
        labelled,
    ];
    let g1: Seq<Option<Seq<char>>> = g.drop_first();
    let g2: Seq<Option<Seq<char>>> = g1.drop_first();
    let g3: Seq<Option<Seq<char>>> = g2.drop_first();
    let g4: Seq<Option<Seq<char>>> = g3.drop_first();
    let g5: Seq<Option<Seq<char>>> = g4.drop_first();
    let g6: Seq<Option<Seq<char>>> = g5.drop_first();
    let g7: Seq<Option<Seq<char>>> = g6.drop_first();
    let g8: Seq<Option<Seq<char>>> = g7.drop_first();
    assert(analysis_run(issue, id, AnalysisView::Done, g8.drop_first()) =~= Seq::empty());
    reveal_with_fuel(analysis_run, 10);
}

/// An analysis that fails before there is a plot ends without a word to the issue, and with the
/// plan removed where it was written; one whose commit fails marks the issue as failed.
pub proof fn failed_analyses_end_quietly(issue: u64, id: u128, any: Option<Seq<char>>)
    ensures
        ({
            let next = |stage: AnalysisView, gave: Option<Seq<char>>|
                analysis_next(issue, id, stage, gave);
            let end = (AnalysisView::Done, AnalysisActionView::Nothing);
            &&& next(AnalysisView::Serializing, None) == end
            &&& next(AnalysisView::Writing, None) == end
            &&& next(AnalysisView::MakingDirectory, None) == (
                AnalysisView::Discarding(None),
                AnalysisActionView::DiscardPlan,
            )
            &&& next(AnalysisView::Scripting, None) == (
                AnalysisView::Discarding(None),
                AnalysisActionView::DiscardPlan,
            )
            &&& next(AnalysisView::Discarding(None), any) == end
            &&& next(AnalysisView::Committing, None) == (
                AnalysisView::Labelling,
                AnalysisActionView::Label { issue: issue, success: false },
            )
            &&& next(AnalysisView::Labelling, any) == end
            &&& next(AnalysisView::Done, any) == end
        }),
{
}

/// The plan of an analysis names the beginning, the end and the release of the run, scrapes what
/// comes in and what goes out, and dumps and plots it under the identifier of the run.
pub proof fn plans_are_about_their_run(sim: ActiveView)
    ensures
        ({
            let plan = scrape_plan(sim);
            let id = hyphenated(sim.simulation_id);
            let dump = "lars_metrics/"@ + id + "/"@;
            &&& plan.times_names == seq![
                time_text(sim.start_time),
                time_text(sim.end_time),
                sim.release_name,
            ]
            &&& plan.rate_interval == "121s"@
            &&& plan.step == "60s"@
            &&& plan.dump_location == dump
            &&& plan.metrics_to_scrape == seq![
                MetricView {
                    name: "libp2p_network_in"@,
                    query: "rate(libp2p_network_bytes_total{direction='in'}[$__rate_interval])"@,
                    extract_field: "instance"@,
                    folder_name: "libp2p-in/"@,
                },
                MetricView {
                    name: "libp2p_network_out"@,
                    query: "rate(libp2p_network_bytes_total{direction='out'}[$__rate_interval])"@,
                    extract_field: "instance"@,
                    folder_name: "libp2p-out/"@,
                },
            ]
            &&& plan.plotting.name == "plot-"@ + id
            &&& plan.plotting.folder == seq![dump]
            &&& plan.plotting.include_files == seq![sim.release_name]
            &&& plan.plotting.data == seq!["libp2p-in"@, "libp2p-out"@]
            &&& plan.plotting.ignore_columns == seq!["bootstrap"@, "midstrap"@]
            &&& plan.plotting.data_points == 25
            &&& plan.plotting.xlabel_name == "Simulation"@
            &&& plan.plotting.ylabel_name == "KBytes/s"@
            &&& !plan.plotting.show_min_max
            &&& plan.plotting.outliers
            &&& plan.plotting.scale_x == 1000
            &&& plan.plotting.fig_size == (20u32, 20u32)
        }),
{
}

/// A time in a plan is the date and the time of day, and empty where nothing is known.
pub proof fn plan_times_are_dates(t: Timestamp)
    ensures
        time_text(None).len() == 0,
        time_in_format(t.secs, t.nanos, "%Y-%m-%d %H:%M:%S"@) is Some ==> Some(
            time_text(Some(t)),
        ) == time_in_format(t.secs, t.nanos, "%Y-%m-%d %H:%M:%S"@),
        time_in_format(t.secs, t.nanos, "%Y-%m-%d %H:%M:%S"@) is None ==> time_text(
            Some(t),
        ).len() == 0,
{
}

/// The script runs once its repository is there, be it that it has been cloned, and once it has
/// the plan; the plot that it was to make is what it gives.
pub proof fn successful_scripts_give_the_plot(
    png: Seq<char>,
    cloned: OutputView,
    output: OutputView,
)
    requires
        cloned.success,
        output.success,
    ensures
        ({
            let copy = ScriptActionView::CopyPlan("scrape.yaml"@);
            let run = ScriptActionView::Run {
                program: "python3"@,
                script: "./10ksim/analyse.py"@,
            };
            let tail = seq![
                copy,
                run,
                ScriptActionView::CheckPlot(png),
                ScriptActionView::Finish(Ok(png)),
            ];
            &&& script_run(
                png,
                ScriptView::Checking,
                seq![
                    ScriptEventView::Exists(true),
                    ScriptEventView::Copied(None),
                    ScriptEventView::Output(Ok(output)),
                    ScriptEventView::Exists(true),
                ],
            ) == tail
            &&& script_run(
                png,
                ScriptView::Checking,
                seq![
                    ScriptEventView::Exists(false),
                    ScriptEventView::Output(Ok(cloned)),
                    ScriptEventView::Copied(None),
                    ScriptEventView::Output(Ok(output)),
                    ScriptEventView::Exists(true),
                ],
            ) == seq![
                ScriptActionView::Clone {
                    url: "https://github.com/vacp2p/10ksim.git"@,
                    directory: "./10ksim"@,
                },
            ] + tail
        }),
{
    let there: Seq<ScriptEventView> = seq![
        ScriptEventView::Exists(true),
        ScriptEventView::Copied(None),
        ScriptEventView::Output(Ok(output)),
        ScriptEventView::Exists(true),
    ];
    let t1: Seq<ScriptEventView> = there.drop_first();
    let t2: Seq<ScriptEventView> = t1.drop_first();
    let t3: Seq<ScriptEventView> = t2.drop_first();
    assert(script_run(png, ScriptView::Done, t3.drop_first()) =~= Seq::empty());
    let absent: Seq<ScriptEventView> = seq![
        ScriptEventView::Exists(false),
        ScriptEventView::Output(Ok(cloned)),
        ScriptEventView::Copied(None),
        ScriptEventView::Output(Ok(output)),
        ScriptEventView::Exists(true),
    ];
    let a1: Seq<ScriptEventView> = absent.drop_first();
    let a2: Seq<ScriptEventView> = a1.drop_first();
    assert(a2 =~= t1);
    reveal_with_fuel(script_run, 6);
}

/// What is said where the script fails: what failed, with what the command wrote, or why it could
/// not be run.
pub proof fn failed_scripts_say_why(
    png: Seq<char>,
    output: OutputView,
    cause: Seq<char>,
    written: Seq<char>,
)
    requires
        !output.success,
    ensures
        ({
            let end = |e: Seq<char>| (ScriptView::Done, ScriptActionView::Finish(Err(e)));
            let (out, err) = (lossy_text(output.stdout), lossy_text(output.stderr));
            &&& script_next(png, ScriptView::Cloning, ScriptEventView::Output(Ok(output))) == end(
                "git clone failed: "@ + err + "\n"@ + out,
            )
            &&& script_next(png, ScriptView::Cloning, ScriptEventView::Output(Err(cause))) == end(
                "Failed to execute git clone: "@ + cause,
            )
            &&& script_next(png, ScriptView::Copying, ScriptEventView::Copied(Some(cause))) == end(
                "Failed to copy scrape.yaml to current directory: "@ + cause,
            )
            &&& script_next(png, ScriptView::Running, ScriptEventView::Output(Ok(output))) == end(
                "Python script failed.\nExit Code: "@ + output.status + "\nStderr: "@ + err
                    + "\nStdout: "@ + out,
            )
            &&& script_next(png, ScriptView::Running, ScriptEventView::Output(Err(cause))) == end(
                "Failed to execute python script: "@ + cause,
            )
            &&& script_next(
                png,
                ScriptView::Looking(written),
                ScriptEventView::Exists(false),
            ) == end(
                "Python script succeeded but output PNG file '"@ + png
                    + "' was not found. Script stdout:\n"@ + written,
            )
        }),
{
}

/// The plot that is missing is reported with what the script wrote.
pub proof fn missing_plots_come_with_the_output(png: Seq<char>, output: OutputView)
    requires
        output.success,
    ensures
        script_next(png, ScriptView::Running, ScriptEventView::Output(Ok(output))) == (
            ScriptView::Looking(lossy_text(output.stdout)),
            ScriptActionView::CheckPlot(png),
        ),
{
}

/// A commit asks for the plot of the issue, and puts the bytes that were read in its place, with
/// the hash of the one that is there; the address that the repository gives is the result.
pub proof fn successful_commits_give_the_address(
    c: CommitView,
    bytes: Seq<u8>,
    sha: Seq<char>,
    code: u16,
    url: Seq<char>,
)
    requires
        c.stage is Reading,
        is_token(c.job.token),
        code == 200 || code == 201,
    ensures
        ({
            let at = "https://api.github.com/repos/"@ + c.job.repo + "/contents/"@ + (
            "simulation_results/"@ + decimal(c.job.issue as nat) + "/analysis_plot.png"@);
            let message = "Add analysis results for simulation from issue #"@ + decimal(
                c.job.issue as nat,
            );
            let content = base64_text(bytes);
            let new = commit_run(
                c,
                seq![
                    CommitEventView::Bytes(bytes),
                    CommitEventView::Status(404),
                    CommitEventView::Status(code),
                    CommitEventView::Text(url),
                ],
            );
            let again = commit_run(
                c,
                seq![
                    CommitEventView::Bytes(bytes),
                    CommitEventView::Status(200),
                    CommitEventView::Text(sha),
                    CommitEventView::Status(code),
                    CommitEventView::Text(url),
                ],
            );
            &&& new.len() == 4
            &&& new[0] matches CommitActionView::LookUp { url: asked, headers } && asked == at
                && headers.authorization == "token "@ + c.job.token && headers.accept
                == "application/vnd.github.v3+json"@ && headers.user_agent
                == "LARS-Simulation-Scheduler"@
            &&& new[1] matches CommitActionView::Put { url: put, headers, content: file } && put
                == at && headers == headers_for(c.job.token) && file.message == message
                && file.content == content && file.sha is None
            &&& new[2] is ReadUrl
            &&& new[3] == CommitActionView::Finish(Ok(url))
            &&& again.len() == 5
            &&& again[0] == new[0]
            &&& again[1] is ReadSha
            &&& again[2] matches CommitActionView::Put { url: put, headers, content: file } && put
                == at && headers == headers_for(c.job.token) && file.message == message
                && file.content == content && file.sha == Some(sha)
            &&& again[3] is ReadUrl
            &&& again[4] == CommitActionView::Finish(Ok(url))
        }),
{
    let new: Seq<CommitEventView> = seq![
        CommitEventView::Bytes(bytes),
        CommitEventView::Status(404),
        CommitEventView::Status(code),
        CommitEventView::Text(url),
    ];
    let n1: Seq<CommitEventView> = new.drop_first();
    let n2: Seq<CommitEventView> = n1.drop_first();
    let n3: Seq<CommitEventView> = n2.drop_first();
    assert(n3.drop_first() =~= Seq::empty());
    let again: Seq<CommitEventView> = seq![
        CommitEventView::Bytes(bytes),
        CommitEventView::Status(200),
        CommitEventView::Text(sha),
        CommitEventView::Status(code),
        CommitEventView::Text(url),
    ];
    let a1: Seq<CommitEventView> = again.drop_first();
    let a2: Seq<CommitEventView> = a1.drop_first();
    let a3: Seq<CommitEventView> = a2.drop_first();
    let a4: Seq<CommitEventView> = a3.drop_first();
    assert(a4.drop_first() =~= Seq::empty());
    reveal_with_fuel(commit_run, 6);
}

/// What is said where a commit fails: what was asked, and why it failed, or the status and the
/// text of the refusal.
pub proof fn failed_commits_say_why(c: CommitView, e: Seq<char>, code: u16)
    ensures
        ({
            let path = "simulation_results/"@ + decimal(c.job.issue as nat)
                + "/analysis_plot.png"@;
            let at = |stage: CommitStage| CommitView { stage: stage, ..c };
            let end = |e: Seq<char>|
                (
                    CommitView { stage: CommitStage::Done, ..c },
                    CommitActionView::Finish(Err(e)),
                );
            let failed = CommitEventView::Failed(e);
            let text = CommitEventView::Text(e);
            let answer = "Status "@ + status_phrase(code) + ", Body: "@ + e;
            &&& commit_next(at(CommitStage::Reading), failed) == end(
                "Failed to read local PNG file '"@ + c.job.png + "'"@ + ": "@ + e,
            )
            &&& commit_next(at(CommitStage::LookingUp), failed) == end(
                "GitHub API request failed (GET "@ + path + ")"@ + ": "@ + e,
            )
            &&& commit_next(at(CommitStage::ReadingSha), failed) == end(
                "Failed to parse GitHub GET response for "@ + path + ": "@ + e,
            )
            &&& commit_next(at(CommitStage::ReadingRefusal(code)), text) == end(
                "GitHub API error checking file existence (GET "@ + path + ")"@ + ": "@ + answer,
            )
            &&& commit_next(at(CommitStage::Committing), failed) == end(
                "GitHub API request failed (PUT "@ + path + ")"@ + ": "@ + e,
            )
            &&& commit_next(at(CommitStage::ReadingUrl), failed) == end(
                "Failed to parse GitHub PUT response for "@ + path + ": "@ + e,
            )
            &&& commit_next(at(CommitStage::ReadingRejection(code)), text) == end(
                "GitHub API error committing file (PUT "@ + path + ")"@ + ": "@ + answer,
            )
            &&& code != 200 && code != 404 ==> commit_next(
                at(CommitStage::LookingUp),
                CommitEventView::Status(code),
            ) == (at(CommitStage::ReadingRefusal(code)), CommitActionView::ReadText)
            &&& code != 200 && code != 201 ==> commit_next(
                at(CommitStage::Committing),
                CommitEventView::Status(code),
            ) == (at(CommitStage::ReadingRejection(code)), CommitActionView::ReadText)
        }),
{
}

/// A token that cannot stand in a header ends a commit before anything is asked.
pub proof fn bad_tokens_end_a_commit(c: CommitView, bytes: Seq<u8>)
    requires
        c.stage is Reading,
        !is_token(c.job.token),
    ensures
        commit_next(c, CommitEventView::Bytes(bytes)) == (
            CommitView { stage: CommitStage::Done, ..c },
            CommitActionView::Finish(
                Err("Invalid GitHub token format: "@ + "failed to parse header value"@),
            ),
        ),
{
}

/// What is asked about an issue goes to the address of the issue, and counts as granted for its
/// own statuses alone; a refusal names what was asked.
pub proof fn issues_are_asked_at_their_address(
    repo: Seq<char>,
    issue: u64,
    label: Seq<char>,
    status: u16,
)
    ensures
        ({
            let at = "https://api.github.com/repos/"@ + repo + "/issues/"@ + decimal(
                issue as nat,
            );
            &&& ask_url(Ask::PostComment, repo, issue, label) == at + "/comments"@
            &&& ask_url(Ask::AddLabel, repo, issue, label) == at + "/labels"@
            &&& ask_url(Ask::RemoveLabel, repo, issue, label) == at + "/labels/"@
                + percent_encoded(vstd::utf8::encode_utf8(label))
            &&& Ask::PostComment.granted(status) <==> status == 201
            &&& Ask::AddLabel.granted(status) <==> status == 200
            &&& Ask::RemoveLabel.granted(status) <==> 200 <= status < 300 || status == 404
            &&& refused(Ask::PostComment, issue, label) == "GitHub API error "@
                + "posting comment"@ + " (issue "@ + decimal(issue as nat) + ")"@
            &&& refused(Ask::AddLabel, issue, label) == "GitHub API error "@ + (
            "adding label '"@ + label + "'"@) + " (issue "@ + decimal(issue as nat) + ")"@
            &&& refused(Ask::RemoveLabel, issue, label) == "GitHub API error "@ + (
            "removing label '"@ + label + "'"@) + " (issue "@ + decimal(issue as nat) + ")"@
            &&& Ask::PostComment.name() == "POST comment"@
            &&& Ask::AddLabel.name() == "POST label"@
            &&& Ask::RemoveLabel.name() == "DELETE label"@
        }),
{
}

/// The label of pending simulations goes, and that of the outcome comes.
pub proof fn labels_tell_the_outcome(success: bool)
    ensures
        pending_label() == "simulation-pending"@,
        final_label(true) == "simulation-done"@,
        final_label(false) == "simulation-failed"@,
        labels_next(LabelStage::Removing, success) == (
            LabelStage::Adding,
            LabelActionView::Add(
                if success {
                    "simulation-done"@
                } else {
                    "simulation-failed"@
                },
            ),
        ),
        labels_next(LabelStage::Adding, success) == (LabelStage::Done, LabelActionView::Nothing),
        labels_next(LabelStage::Done, success) == (LabelStage::Done, LabelActionView::Nothing),
{
}

/// What an action gave is its text, and nothing where it failed.
pub proof fn failures_give_nothing(gave: String, cause: String)
    ensures
        given(Ok(gave)) == Some(gave@),
        given(Err(cause)) is None,
{
}

/// What is said of the actions of an analysis is said of all that they hold.
pub proof fn analysis_actions_show_everything(a: AnalysisAction)
    ensures
        match a {
            AnalysisAction::WritePlan { name, content } => a@ == AnalysisActionView::WritePlan {
                name: name@,
                content: content@,
            },
            AnalysisAction::MakeDirectory(path) => a@ == AnalysisActionView::MakeDirectory(path@),
            AnalysisAction::RunScript(png) => a@ == AnalysisActionView::RunScript(png@),
            AnalysisAction::DiscardPlan => a@ is DiscardPlan,
            AnalysisAction::Commit { issue, png } => a@ == AnalysisActionView::Commit {
                issue: issue,
                png: png@,
            },
            AnalysisAction::StoreUrl { simulation_id, url } => a@ == AnalysisActionView::StoreUrl {
                simulation_id: simulation_id@,
                url: url@,
            },
            AnalysisAction::Comment { issue, body } => a@ == AnalysisActionView::Comment {
                issue: issue,
                body: body@,
            },
            AnalysisAction::Label { issue, success } => a@ == AnalysisActionView::Label {
                issue: issue,
                success: success,
            },
            AnalysisAction::Nothing => a@ is Nothing,
        },
{
}

/// What is said of the actions of a commit is said of all that they hold.
pub proof fn commit_actions_show_everything(a: CommitAction)
    ensures
        match a {
            CommitAction::ReadFile(path) => a@ == CommitActionView::ReadFile(path@),
            CommitAction::LookUp { url, headers } => a@ matches CommitActionView::LookUp {
                url: u,
                headers: h,
            } && u == url@ && h.authorization == headers.authorization@ && h.accept
                == headers.accept@ && h.user_agent == headers.user_agent@,
            CommitAction::ReadSha => a@ is ReadSha,
            CommitAction::ReadText => a@ is ReadText,
            CommitAction::Put { url, headers, content } => a@ matches CommitActionView::Put {
                url: u,
                headers: h,
                content: c,
            } && u == url@ && h.authorization == headers.authorization@ && h.accept
                == headers.accept@ && h.user_agent == headers.user_agent@ && c.message
                == content.message@ && c.content == content.content@ && (c.sha is Some
                <==> content.sha is Some) && (content.sha is Some ==> c.sha == Some(
                content.sha->0@,
            )),
            CommitAction::ReadUrl => a@ is ReadUrl,
            CommitAction::Finish(Ok(url)) => a@ == CommitActionView::Finish(Ok(url@)),
            CommitAction::Finish(Err(e)) => a@ == CommitActionView::Finish(Err(e@)),
            CommitAction::Nothing => a@ is Nothing,
        },
{
}

/// What is said of the actions around the script is said of all that they hold.
pub proof fn script_actions_show_everything(a: ScriptAction)
    ensures
        match a {
            ScriptAction::CheckRepository(path) => a@ == ScriptActionView::CheckRepository(path@),
            ScriptAction::Clone { url, directory } => a@ == ScriptActionView::Clone {
                url: url@,
                directory: directory@,
            },
            ScriptAction::CopyPlan(path) => a@ == ScriptActionView::CopyPlan(path@),
            ScriptAction::Run { program, script } => a@ == ScriptActionView::Run {
                program: program@,
                script: script@,
            },
            ScriptAction::CheckPlot(png) => a@ == ScriptActionView::CheckPlot(png@),
            ScriptAction::Finish(Ok(png)) => a@ == ScriptActionView::Finish(Ok(png@)),
            ScriptAction::Finish(Err(e)) => a@ == ScriptActionView::Finish(Err(e@)),
            ScriptAction::Nothing => a@ is Nothing,
        },
{
}

} // verus!

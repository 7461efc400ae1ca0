//! The script that makes the plot of a run: its repository is there or is cloned, it gets the
//! plan, it runs, and the plot is looked for.

use crate::outside::{decode_lossy, lossy_text};
use vstd::prelude::*;

verus! {

/// What a command has left: whether it succeeded, its status, and what it wrote.
#[derive(Debug)]
pub struct CommandOutput {
    pub success: bool,
    pub status: String,
    pub stdout: Vec<u8>,
    pub stderr: Vec<u8>,
}

pub struct OutputView {
    pub success: bool,
    pub status: Seq<char>,
    pub stdout: Seq<u8>,
    pub stderr: Seq<u8>,
}

impl View for CommandOutput {
    type V = OutputView;

    open spec fn view(&self) -> OutputView {
        OutputView {
            success: self.success,
            status: self.status@,
            stdout: self.stdout@,
            stderr: self.stderr@,
        }
    }
}

/// How a clone failed, if it did.
pub open spec fn clone_failure(result: Result<OutputView, Seq<char>>) -> Option<Seq<char>> {
    match result {
        Ok(output) => if output.success {
            None
        } else {
            Some(
                "git clone failed: "@ + lossy_text(output.stderr) + "\n"@ + lossy_text(
                    output.stdout,
                ),
            )
        },
        Err(cause) => Some("Failed to execute git clone: "@ + cause),
    }
}

/// That the plan could not be copied.
pub open spec fn copy_failure(cause: Seq<char>) -> Seq<char> {
    "Failed to copy scrape.yaml to current directory: "@ + cause
}

/// What the script wrote where it succeeded, or how it failed.
pub open spec fn script_result(result: Result<OutputView, Seq<char>>) -> Result<
    Seq<char>,
    Seq<char>,
> {
    match result {
        Ok(output) => if output.success {
            Ok(lossy_text(output.stdout))
        } else {
            Err(
                "Python script failed.\nExit Code: "@ + output.status + "\nStderr: "@ + lossy_text(
                    output.stderr,
                ) + "\nStdout: "@ + lossy_text(output.stdout),
            )
        },
        Err(cause) => Err("Failed to execute python script: "@ + cause),
    }
}

/// That the script has not made the plot.
pub open spec fn plot_missing(png: Seq<char>, written: Seq<char>) -> Seq<char> {
    "Python script succeeded but output PNG file '"@ + png
        + "' was not found. Script stdout:\n"@ + written
}

/// The result of a command by its view.
pub open spec fn output_view(result: Result<CommandOutput, String>) -> Result<
    OutputView,
    Seq<char>,
> {
    match result {
        Ok(output) => Ok(output@),
        Err(e) => Err(e@),
    }
}

fn clone_failed(result: &Result<CommandOutput, String>) -> (r: Option<String>)
    ensures
        crate::model::opt_text(r) == clone_failure(output_view(*result)),
{
    match result {
        Ok(output) => {
            if output.success {
                None
            } else {
                let e: String = "git clone failed: ".to_owned().concat(
                    decode_lossy(output.stderr.as_slice()).as_str(),
                );
                Some(e.concat("\n").concat(decode_lossy(output.stdout.as_slice()).as_str()))
            }
        },
        Err(cause) => Some("Failed to execute git clone: ".to_owned().concat(cause.as_str())),
    }
}

fn script_outcome(result: &Result<CommandOutput, String>) -> (r: Result<String, String>)
    ensures
        match r {
            Ok(written) => script_result(output_view(*result)) == Ok::<Seq<char>, Seq<char>>(
                written@,
            ),
            Err(e) => script_result(output_view(*result)) == Err::<Seq<char>, Seq<char>>(e@),
        },
{
    match result {
        Ok(output) => {
            let stdout: String = decode_lossy(output.stdout.as_slice());
            if output.success {
                Ok(stdout)
            } else {
                let e: String = "Python script failed.\nExit Code: ".to_owned().concat(
                    output.status.as_str(),
                );
                let e: String = e.concat("\nStderr: ").concat(
                    decode_lossy(output.stderr.as_slice()).as_str(),
                );
                Err(e.concat("\nStdout: ").concat(stdout.as_str()))
            }
        },
        Err(cause) => Err("Failed to execute python script: ".to_owned().concat(cause.as_str())),
    }
}

/// What a script run waits for.
#[derive(Debug)]
pub enum ScriptStage {
    /// Whether the repository is there.
    Checking,
    /// The repository to be cloned.
    Cloning,
    /// The plan to be copied.
    Copying,
    /// The script.
    Running,
    /// Whether the plot is there, after a script that wrote this.
    Looking(String),
    /// Nothing any more.
    Done,
}

pub enum ScriptView {
    Checking,
    Cloning,
    Copying,
    Running,
    Looking(Seq<char>),
    Done,
}

impl View for ScriptStage {
    type V = ScriptView;

    open spec fn view(&self) -> ScriptView {
        match *self {
            ScriptStage::Checking => ScriptView::Checking,
            ScriptStage::Cloning => ScriptView::Cloning,
            ScriptStage::Copying => ScriptView::Copying,
            ScriptStage::Running => ScriptView::Running,
            ScriptStage::Looking(written) => ScriptView::Looking(written@),
            ScriptStage::Done => ScriptView::Done,
        }
    }
}

/// What has come of the last action.
#[derive(Debug)]
pub enum ScriptEvent {
    /// Whether what was looked for is there.
    Exists(bool),
    /// What the command has left, or why it could not be run.
    Output(Result<CommandOutput, String>),
    /// Whether the plan has been copied.
    Copied(Result<(), String>),
}

pub enum ScriptEventView {
    Exists(bool),
    Output(Result<OutputView, Seq<char>>),
    Copied(Option<Seq<char>>),
}

impl View for ScriptEvent {
    type V = ScriptEventView;

    open spec fn view(&self) -> ScriptEventView {
        match *self {
            ScriptEvent::Exists(there) => ScriptEventView::Exists(there),
            ScriptEvent::Output(result) => ScriptEventView::Output(output_view(result)),
            ScriptEvent::Copied(Ok(_)) => ScriptEventView::Copied(None),
            ScriptEvent::Copied(Err(e)) => ScriptEventView::Copied(Some(e@)),
        }
    }
}

/// What is to be done next. What comes of it is reported back.
#[derive(Debug)]
pub enum ScriptAction {
    /// Look whether the repository is in this directory.
    CheckRepository(String),
    /// Clone this repository into this directory.
    Clone { url: String, directory: String },
    /// Copy the plan to this file.
    CopyPlan(String),
    /// Run this program on this script.
    Run { program: String, script: String },
    /// Look whether this plot is there.
    CheckPlot(String),
    /// The run has ended: the plot, or why there is none.
    Finish(Result<String, String>),
    Nothing,
}

pub enum ScriptActionView {
    CheckRepository(Seq<char>),
    Clone { url: Seq<char>, directory: Seq<char> },
    CopyPlan(Seq<char>),
    Run { program: Seq<char>, script: Seq<char> },
    CheckPlot(Seq<char>),
    Finish(Result<Seq<char>, Seq<char>>),
    Nothing,
}

impl View for ScriptAction {
    type V = ScriptActionView;

    open spec fn view(&self) -> ScriptActionView {
        match *self {
            ScriptAction::CheckRepository(path) => ScriptActionView::CheckRepository(path@),
            ScriptAction::Clone { url, directory } => ScriptActionView::Clone {
                url: url@,
                directory: directory@,
            },
            ScriptAction::CopyPlan(path) => ScriptActionView::CopyPlan(path@),
            ScriptAction::Run { program, script } => ScriptActionView::Run {
                program: program@,
                script: script@,
            },
            ScriptAction::CheckPlot(png) => ScriptActionView::CheckPlot(png@),
            ScriptAction::Finish(Ok(png)) => ScriptActionView::Finish(Ok(png@)),
            ScriptAction::Finish(Err(e)) => ScriptActionView::Finish(Err(e@)),
            ScriptAction::Nothing => ScriptActionView::Nothing,
        }
    }
}

/// How a script run goes on, given the plot it is to make and what has come of the last action.
/// What does not answer the last action changes nothing.
pub open spec fn script_next(png: Seq<char>, stage: ScriptView, event: ScriptEventView) -> (
    ScriptView,
    ScriptActionView,
) {
    let copy = (ScriptView::Copying, ScriptActionView::CopyPlan("scrape.yaml"@));
    match (stage, event) {
        (ScriptView::Checking, ScriptEventView::Exists(there)) => if there {
            copy
        } else {
            (
                ScriptView::Cloning,
                ScriptActionView::Clone {
                    url: "https://github.com/vacp2p/10ksim.git"@,
                    directory: "./10ksim"@,
                },
            )
        },
        (ScriptView::Cloning, ScriptEventView::Output(result)) => match clone_failure(result) {
            Some(e) => (ScriptView::Done, ScriptActionView::Finish(Err(e))),
            None => copy,
        },
        (ScriptView::Copying, ScriptEventView::Copied(failed)) => match failed {
            Some(e) => (ScriptView::Done, ScriptActionView::Finish(Err(copy_failure(e)))),
            None => (
                ScriptView::Running,
                ScriptActionView::Run { program: "python3"@, script: "./10ksim/analyse.py"@ },
            ),
        },
        (ScriptView::Running, ScriptEventView::Output(result)) => match script_result(result) {
            Ok(written) => (ScriptView::Looking(written), ScriptActionView::CheckPlot(png)),
            Err(e) => (ScriptView::Done, ScriptActionView::Finish(Err(e))),
        },
        (ScriptView::Looking(written), ScriptEventView::Exists(there)) => (
            ScriptView::Done,
            ScriptActionView::Finish(
                if there {
                    Ok(png)
                } else {
                    Err(plot_missing(png, written))
                },
            ),
        ),
        _ => (stage, ScriptActionView::Nothing),
    }
}

/// A run of the script, and how far it has come.
#[derive(Debug)]
pub struct Script {
    pub png: String,
    pub stage: ScriptStage,
}

impl Script {
    /// Begins by looking for the repository.
    pub fn start(png: String) -> (r: (Script, ScriptAction))
        ensures
            r.0.png@ == png@,
            r.0.stage is Checking,
            r.1@ == ScriptActionView::CheckRepository("./10ksim"@),
    {
        (
            Script { png, stage: ScriptStage::Checking },
            ScriptAction::CheckRepository("./10ksim".to_owned()),
        )
    }

    /// Goes on, given what has come of the last action.
    pub fn step(&mut self, event: ScriptEvent) -> (r: ScriptAction)
        ensures
            final(self).png == old(self).png,
            (final(self).stage@, r@) == script_next(old(self).png@, old(self).stage@, event@),
    {
        let (stage, action) = match (&self.stage, event) {
            (ScriptStage::Checking, ScriptEvent::Exists(true)) => (
                ScriptStage::Copying,
                ScriptAction::CopyPlan("scrape.yaml".to_owned()),
            ),
            (ScriptStage::Checking, ScriptEvent::Exists(false)) => (
                ScriptStage::Cloning,
                ScriptAction::Clone {
                    url: "https://github.com/vacp2p/10ksim.git".to_owned(),
                    directory: "./10ksim".to_owned(),
                },
            ),
            (ScriptStage::Cloning, ScriptEvent::Output(result)) => match clone_failed(&result) {
                Some(e) => (ScriptStage::Done, ScriptAction::Finish(Err(e))),
                None => (
                    ScriptStage::Copying,
                    ScriptAction::CopyPlan("scrape.yaml".to_owned()),
                ),
            },
            (ScriptStage::Copying, ScriptEvent::Copied(Err(e))) => (
                ScriptStage::Done,
                ScriptAction::Finish(
                    Err(
                        "Failed to copy scrape.yaml to current directory: ".to_owned().concat(
                            e.as_str(),
                        ),
                    ),
                ),
            ),
            (ScriptStage::Copying, ScriptEvent::Copied(Ok(_))) => (
                ScriptStage::Running,
                ScriptAction::Run {
                    program: "python3".to_owned(),
                    script: "./10ksim/analyse.py".to_owned(),
                },
            ),
            (ScriptStage::Running, ScriptEvent::Output(result)) => match script_outcome(&result) {
                Ok(written) => (
                    ScriptStage::Looking(written),
                    ScriptAction::CheckPlot(self.png.clone()),
                ),
                Err(e) => (ScriptStage::Done, ScriptAction::Finish(Err(e))),
            },
            (ScriptStage::Looking(_), ScriptEvent::Exists(true)) => (
                ScriptStage::Done,
                ScriptAction::Finish(Ok(self.png.clone())),
            ),
            (ScriptStage::Looking(written), ScriptEvent::Exists(false)) => {
                let e: String = "Python script succeeded but output PNG file '".to_owned().concat(
                    self.png.as_str(),
                );
                let e: String = e.concat("' was not found. Script stdout:\n");
                (ScriptStage::Done, ScriptAction::Finish(Err(e.concat(written.as_str()))))
            },
            _ => {
                return ScriptAction::Nothing;
            },
        };
        self.stage = stage;
        action
    }
}

/// What is done from a stage on, given what comes of each action.
pub open spec fn script_run(png: Seq<char>, stage: ScriptView, events: Seq<ScriptEventView>) -> Seq<
    ScriptActionView,
>
    decreases events.len(),
{
    if events.len() == 0 {
        Seq::empty()
    } else {
        let (next, action) = script_next(png, stage, events[0]);
        seq![action] + script_run(png, next, events.drop_first())
    }
}

proof fn lemma_done_does_nothing(png: Seq<char>, events: Seq<ScriptEventView>)
    ensures
        forall|i: int|
            0 <= i < events.len() ==> (#[trigger] script_run(png, ScriptView::Done, events)[i])
                is Nothing,
        script_run(png, ScriptView::Done, events).len() == events.len(),
    decreases events.len(),
{
    if events.len() > 0 {
        lemma_done_does_nothing(png, events.drop_first());
    }
}

/// Each step has its one occasion: the repository is cloned only where it is not there, the
/// plan is copied once it is, the script runs once the plan is copied, and the plot is looked
/// for once the script has succeeded.
pub proof fn steps_have_their_occasion(png: Seq<char>, stage: ScriptView, event: ScriptEventView)
    ensures
        ({
            let (next, action) = script_next(png, stage, event);
            &&& action is Clone <==> stage is Checking && event == ScriptEventView::Exists(false)
            &&& action is CopyPlan <==> (stage is Checking && event == ScriptEventView::Exists(
                true,
            )) || (stage is Cloning && event is Output && clone_failure(event->Output_0) is None)
            &&& action is Run <==> stage is Copying && event == ScriptEventView::Copied(None)
            &&& action is CheckPlot <==> stage is Running && event is Output && script_result(
                event->Output_0,
            ) is Ok
            &&& action matches ScriptActionView::Finish(Ok(made)) ==> made == png
                && stage is Looking && event == ScriptEventView::Exists(true)
        }),
{
}

/// A failure ends the run: nothing is done after it.
pub proof fn failures_end_the_script(
    png: Seq<char>,
    stage: ScriptView,
    events: Seq<ScriptEventView>,
)
    requires
        events.len() > 0,
        match (stage, events[0]) {
            (ScriptView::Cloning, ScriptEventView::Output(result)) => clone_failure(result) is Some,
            (ScriptView::Copying, ScriptEventView::Copied(failed)) => failed is Some,
            (ScriptView::Running, ScriptEventView::Output(result)) => script_result(result) is Err,
            _ => false,
        },
    ensures
        ({
            let actions = script_run(png, stage, events);
            &&& actions.len() == events.len()
            &&& actions[0] matches ScriptActionView::Finish(Err(_))
            &&& forall|i: int| 1 <= i < actions.len() ==> (#[trigger] actions[i]) is Nothing
        }),
{
    let actions: Seq<ScriptActionView> = script_run(png, stage, events);
    let (next, action) = script_next(png, stage, events[0]);
    let rest: Seq<ScriptActionView> = script_run(png, next, events.drop_first());
    lemma_done_does_nothing(png, events.drop_first());
    assert(actions == seq![action] + rest);
    assert forall|i: int| 1 <= i < actions.len() implies (#[trigger] actions[i]) is Nothing by {
        assert(actions[i] == rest[i - 1]);
    }
}

} // verus!

//! The analysis of a run that has completed: what is to be scraped and plotted, and how the
//! plot gets to the issue that asked for the run.

use crate::github::{make_results_comment, results_comment};
use crate::model::{ActiveSimulation, ActiveView, Timestamp};
use crate::outside::{format_time, hyphenated, time_in_format, uuid_text};
use vstd::prelude::*;

verus! {

pub open spec fn texts(v: Seq<String>) -> Seq<Seq<char>> {
    Seq::new(v.len(), |i: int| v[i]@)
}

/// A metric that is to be scraped.
#[derive(Debug)]
pub struct ScrapeMetric {
    pub name: String,
    pub query: String,
    pub extract_field: String,
    pub folder_name: String,
}

pub struct MetricView {
    pub name: Seq<char>,
    pub query: Seq<char>,
    pub extract_field: Seq<char>,
    pub folder_name: Seq<char>,
}

impl View for ScrapeMetric {
    type V = MetricView;

    open spec fn view(&self) -> MetricView {
        MetricView {
            name: self.name@,
            query: self.query@,
            extract_field: self.extract_field@,
            folder_name: self.folder_name@,
        }
    }
}

/// A plot that is to be made.
#[derive(Debug)]
pub struct ScrapePlottingConfig {
    pub name: String,
    pub ignore_columns: Vec<String>,
    pub data_points: u32,
    pub folder: Vec<String>,
    pub data: Vec<String>,
    pub include_files: Vec<String>,
    pub xlabel_name: String,
    pub ylabel_name: String,
    pub show_min_max: bool,
    pub outliers: bool,
    pub scale_x: u32,
    pub fig_size: (u32, u32),
}

pub struct PlottingView {
    pub name: Seq<char>,
    pub ignore_columns: Seq<Seq<char>>,
    pub data_points: u32,
    pub folder: Seq<Seq<char>>,
    pub data: Seq<Seq<char>>,
    pub include_files: Seq<Seq<char>>,
    pub xlabel_name: Seq<char>,
    pub ylabel_name: Seq<char>,
    pub show_min_max: bool,
    pub outliers: bool,
    pub scale_x: u32,
    pub fig_size: (u32, u32),
}

impl View for ScrapePlottingConfig {
    type V = PlottingView;

    open spec fn view(&self) -> PlottingView {
        PlottingView {
            name: self.name@,
            ignore_columns: texts(self.ignore_columns@),
            data_points: self.data_points,
            folder: texts(self.folder@),
            data: texts(self.data@),
            include_files: texts(self.include_files@),
            xlabel_name: self.xlabel_name@,
            ylabel_name: self.ylabel_name@,
            show_min_max: self.show_min_max,
            outliers: self.outliers,
            scale_x: self.scale_x,
            fig_size: self.fig_size,
        }
    }
}

/// What the analysis of one run is to scrape and to plot: the beginning, the end and the
/// release of the run, how the metrics are dumped and where, the metrics, and the plot.
#[derive(Debug)]
pub struct ScrapeYamlRoot {
    pub times_names: Vec<String>,
    pub rate_interval: String,
    pub step: String,
    pub dump_location: String,
    pub metrics_to_scrape: Vec<ScrapeMetric>,
    pub plotting: ScrapePlottingConfig,
}

pub struct ScrapeView {
    pub times_names: Seq<Seq<char>>,
    pub rate_interval: Seq<char>,
    pub step: Seq<char>,
    pub dump_location: Seq<char>,
    pub metrics_to_scrape: Seq<MetricView>,
    pub plotting: PlottingView,
}

impl View for ScrapeYamlRoot {
    type V = ScrapeView;

    open spec fn view(&self) -> ScrapeView {
        ScrapeView {
            times_names: texts(self.times_names@),
            rate_interval: self.rate_interval@,
            step: self.step@,
            dump_location: self.dump_location@,
            metrics_to_scrape: Seq::new(
                self.metrics_to_scrape@.len(),
                |i: int| self.metrics_to_scrape@[i]@,
            ),
            plotting: self.plotting@,
        }
    }
}

/// A point in time as text; empty where it is not known or beyond the calendar.
pub open spec fn time_text(t: Option<Timestamp>) -> Seq<char> {
    match t {
        Some(t) => match time_in_format(t.secs, t.nanos, "%Y-%m-%d %H:%M:%S"@) {
            Some(s) => s,
            None => Seq::empty(),
        },
        None => Seq::empty(),
    }
}

fn make_time_text(t: Option<Timestamp>) -> (r: String)
    ensures
        r@ == time_text(t),
{
    match t {
        Some(t) => match format_time(t.secs, t.nanos, "%Y-%m-%d %H:%M:%S") {
            Some(s) => s,
            None => String::new(),
        },
        None => String::new(),
    }
}

/// Where the metrics of a run are dumped.
pub open spec fn dump_location(id: u128) -> Seq<char> {
    "lars_metrics/"@ + hyphenated(id) + "/"@
}

/// What the analysis of a run is to scrape and to plot.
pub open spec fn scrape_plan(sim: ActiveView) -> ScrapeView {
    ScrapeView {
        times_names: seq![time_text(sim.start_time), time_text(sim.end_time), sim.release_name],
        rate_interval: "121s"@,
        step: "60s"@,
        dump_location: dump_location(sim.simulation_id),
        metrics_to_scrape: seq![
            MetricView {
                name: "libp2p_network_in"@,
                query: "rate(libp2p_network_bytes_total{direction='in'}[$__rate_interval])"@,
                extract_field: "instance"@,
                folder_name: "libp2p-in/"@,
            },
            MetricView {
                name: "libp2p_network_out"@,
                query: "rate(libp2p_network_bytes_total{direction='out'}[$__rate_interval])"@,
                extract_field: "instance"@,
                folder_name: "libp2p-out/"@,
            },
        ],
        plotting: PlottingView {
            name: "plot-"@ + hyphenated(sim.simulation_id),
            ignore_columns: seq!["bootstrap"@, "midstrap"@],
            data_points: 25,
            folder: seq![dump_location(sim.simulation_id)],
            data: seq!["libp2p-in"@, "libp2p-out"@],
            include_files: seq![sim.release_name],
            xlabel_name: "Simulation"@,
            ylabel_name: "KBytes/s"@,
            show_min_max: false,
            outliers: true,
            scale_x: 1000,
            fig_size: (20, 20),
        },
    }
}

/// One text.
fn one(a: String) -> (r: Vec<String>)
    ensures
        texts(r@) == seq![a@],
{
    let mut r: Vec<String> = Vec::new();
    r.push(a);
    assert(texts(r@) =~= seq![a@]);
    r
}

/// Two texts.
fn two(a: &str, b: &str) -> (r: Vec<String>)
    ensures
        texts(r@) == seq![a@, b@],
{
    let mut r: Vec<String> = Vec::new();
    r.push(a.to_owned());
    r.push(b.to_owned());
    assert(texts(r@) =~= seq![a@, b@]);
    r
}

/// What the analysis of a run is to scrape and to plot.
pub fn generate_scrape_plan(sim: &ActiveSimulation) -> (r: ScrapeYamlRoot)
    ensures
        r@ == scrape_plan(sim@),
{
    let id: String = uuid_text(sim.simulation_id);
    let dump: String = "lars_metrics/".to_owned().concat(id.as_str()).concat("/");
    let mut times_names: Vec<String> = Vec::new();
    times_names.push(make_time_text(sim.start_time));
    times_names.push(make_time_text(sim.end_time));
    times_names.push(sim.release_name.clone());
    let mut metrics_to_scrape: Vec<ScrapeMetric> = Vec::new();
    metrics_to_scrape.push(
        ScrapeMetric {
            name: "libp2p_network_in".to_owned(),
            query: "rate(libp2p_network_bytes_total{direction='in'}[$__rate_interval])".to_owned(),
            extract_field: "instance".to_owned(),
            folder_name: "libp2p-in/".to_owned(),
        },
    );
    metrics_to_scrape.push(
        ScrapeMetric {
            name: "libp2p_network_out".to_owned(),
            query: "rate(libp2p_network_bytes_total{direction='out'}[$__rate_interval])".to_owned(),
            extract_field: "instance".to_owned(),
            folder_name: "libp2p-out/".to_owned(),
        },
    );
    let r: ScrapeYamlRoot = ScrapeYamlRoot {
        times_names,
        rate_interval: "121s".to_owned(),
        step: "60s".to_owned(),
        dump_location: dump.clone(),
        metrics_to_scrape,
        plotting: ScrapePlottingConfig {
            name: "plot-".to_owned().concat(id.as_str()),
            ignore_columns: two("bootstrap", "midstrap"),
            data_points: 25,
            folder: one(dump),
            data: two("libp2p-in", "libp2p-out"),
            include_files: one(sim.release_name.clone()),
            xlabel_name: "Simulation".to_owned(),
            ylabel_name: "KBytes/s".to_owned(),
            show_min_max: false,
            outliers: true,
            scale_x: 1000,
            fig_size: (20, 20),
        },
    };
    assert(r@.times_names =~= scrape_plan(sim@).times_names);
    assert(r@.metrics_to_scrape =~= scrape_plan(sim@).metrics_to_scrape);
    r
}

/// The file that says what is to be scraped for a run.
pub open spec fn scrape_file(id: u128) -> Seq<char> {
    "scrape-"@ + hyphenated(id) + ".yaml"@
}

/// The directory that the results of a run go to.
pub open spec fn results_directory(id: u128) -> Seq<char> {
    "./analysis_results/"@ + hyphenated(id)
}

/// The plot of a run.
pub open spec fn plot_path(id: u128) -> Seq<char> {
    results_directory(id) + "/analysis_plot.png"@
}

fn make_plot_path(id: u128) -> (r: String)
    ensures
        r@ == plot_path(id),
{
    let r: String = "./analysis_results/".to_owned().concat(uuid_text(id).as_str());
    r.concat("/analysis_plot.png")
}

/// What an analysis waits for.
#[derive(Debug)]
pub enum AnalysisStage {
    /// The plan to be written down.
    Serializing,
    /// The plan to be put into a file.
    Writing,
    /// The directory for the results.
    MakingDirectory,
    /// The script.
    Scripting,
    /// The file with the plan to be removed, and then the plot, where there is one, committed.
    Discarding(Option<String>),
    /// The commit of the plot.
    Committing,
    /// The address of the plot to be kept.
    Storing(String),
    /// The comment on the issue.
    Commenting,
    /// The labels of the issue.
    Labelling,
    /// Nothing any more.
    Done,
}

#[verifier::ext_equal]
pub enum AnalysisView {
    Serializing,
    Writing,
    MakingDirectory,
    Scripting,
    Discarding(Option<Seq<char>>),
    Committing,
    Storing(Seq<char>),
    Commenting,
    Labelling,
    Done,
}

impl View for AnalysisStage {
    type V = AnalysisView;

    open spec fn view(&self) -> AnalysisView {
        match *self {
            AnalysisStage::Serializing => AnalysisView::Serializing,
            AnalysisStage::Writing => AnalysisView::Writing,
            AnalysisStage::MakingDirectory => AnalysisView::MakingDirectory,
            AnalysisStage::Scripting => AnalysisView::Scripting,
            AnalysisStage::Discarding(Some(png)) => AnalysisView::Discarding(Some(png@)),
            AnalysisStage::Discarding(None) => AnalysisView::Discarding(None),
            AnalysisStage::Committing => AnalysisView::Committing,
            AnalysisStage::Storing(url) => AnalysisView::Storing(url@),
            AnalysisStage::Commenting => AnalysisView::Commenting,
            AnalysisStage::Labelling => AnalysisView::Labelling,
            AnalysisStage::Done => AnalysisView::Done,
        }
    }
}

/// What is to be done next. What comes of it is reported back.
#[derive(Debug)]
pub enum AnalysisAction {
    /// Put this into a file of this name.
    WritePlan { name: String, content: String },
    /// Make this directory.
    MakeDirectory(String),
    /// Run the script, which makes this plot.
    RunScript(String),
    /// Remove the file with the plan.
    DiscardPlan,
    /// Commit this plot for the issue.
    Commit { issue: u64, png: String },
    /// Keep the address of the plot for the run.
    StoreUrl { simulation_id: String, url: String },
    /// Comment on the issue.
    Comment { issue: u64, body: String },
    /// Change the labels of the issue.
    Label { issue: u64, success: bool },
    Nothing,
}

#[verifier::ext_equal]
pub enum AnalysisActionView {
    WritePlan { name: Seq<char>, content: Seq<char> },
    MakeDirectory(Seq<char>),
    RunScript(Seq<char>),
    DiscardPlan,
    Commit { issue: u64, png: Seq<char> },
    StoreUrl { simulation_id: Seq<char>, url: Seq<char> },
    Comment { issue: u64, body: Seq<char> },
    Label { issue: u64, success: bool },
    Nothing,
}

impl View for AnalysisAction {
    type V = AnalysisActionView;

    open spec fn view(&self) -> AnalysisActionView {
        match *self {
            AnalysisAction::WritePlan { name, content } => AnalysisActionView::WritePlan {
                name: name@,
                content: content@,
            },
            AnalysisAction::MakeDirectory(path) => AnalysisActionView::MakeDirectory(path@),
            AnalysisAction::RunScript(png) => AnalysisActionView::RunScript(png@),
            AnalysisAction::DiscardPlan => AnalysisActionView::DiscardPlan,
            AnalysisAction::Commit { issue, png } => AnalysisActionView::Commit {
                issue,
                png: png@,
            },
            AnalysisAction::StoreUrl { simulation_id, url } => AnalysisActionView::StoreUrl {
                simulation_id: simulation_id@,
                url: url@,
            },
            AnalysisAction::Comment { issue, body } => AnalysisActionView::Comment {
                issue,
                body: body@,
            },
            AnalysisAction::Label { issue, success } => AnalysisActionView::Label {
                issue,
                success,
            },
            AnalysisAction::Nothing => AnalysisActionView::Nothing,
        }
    }
}

/// The stage that follows, and what is to be done there, given what has come of the last
/// action: what it gave, or nothing where it failed.
pub open spec fn analysis_next(
    issue: u64,
    id: u128,
    stage: AnalysisView,
    gave: Option<Seq<char>>,
) -> (AnalysisView, AnalysisActionView) {
    let done = (AnalysisView::Done, AnalysisActionView::Nothing);
    match stage {
        AnalysisView::Serializing => match gave {
            Some(content) => (
                AnalysisView::Writing,
                AnalysisActionView::WritePlan { name: scrape_file(id), content: content },
            ),
            None => done,
        },
        AnalysisView::Writing => match gave {
            Some(_) => (
                AnalysisView::MakingDirectory,
                AnalysisActionView::MakeDirectory(results_directory(id)),
            ),
            None => done,
        },
        AnalysisView::MakingDirectory => match gave {
            Some(_) => (AnalysisView::Scripting, AnalysisActionView::RunScript(plot_path(id))),
            None => (AnalysisView::Discarding(None), AnalysisActionView::DiscardPlan),
        },
        AnalysisView::Scripting => (
            AnalysisView::Discarding(gave),
            AnalysisActionView::DiscardPlan,
        ),
        AnalysisView::Discarding(Some(png)) => (
            AnalysisView::Committing,
            AnalysisActionView::Commit { issue: issue, png: png },
        ),
        AnalysisView::Discarding(None) => done,
        AnalysisView::Committing => match gave {
            Some(url) => (
                AnalysisView::Storing(url),
                AnalysisActionView::StoreUrl { simulation_id: hyphenated(id), url: url },
            ),
            None => (
                AnalysisView::Labelling,
                AnalysisActionView::Label { issue: issue, success: false },
            ),
        },
        AnalysisView::Storing(url) => (
            AnalysisView::Commenting,
            AnalysisActionView::Comment { issue: issue, body: results_comment(url) },
        ),
        AnalysisView::Commenting => (
            AnalysisView::Labelling,
            AnalysisActionView::Label { issue: issue, success: true },
        ),
        AnalysisView::Labelling => done,
        AnalysisView::Done => done,
    }
}

/// What an action gave, or nothing where it failed.
pub open spec fn given(result: Result<String, String>) -> Option<Seq<char>> {
    match result {
        Ok(s) => Some(s@),
        Err(_) => None,
    }
}

/// The analysis of a run for an issue, and how far it has come.
#[derive(Debug)]
pub struct Analysis {
    pub issue: u64,
    pub simulation_id: u128,
    pub stage: AnalysisStage,
}

impl Analysis {
    /// Begins, with the plan that is to be written down; there is nothing to begin where no
    /// issue asked for the run.
    pub fn start(sim: &ActiveSimulation) -> (r: Option<(Analysis, ScrapeYamlRoot)>)
        ensures
            match sim.issue_number {
                Some(issue) => r matches Some((analysis, plan)) && analysis.issue == issue
                    && analysis.simulation_id == sim.simulation_id && analysis.stage
                    is Serializing && plan@ == scrape_plan(sim@),
                None => r is None,
            },
    {
        match sim.issue_number {
            Some(issue) => Some(
                (
                    Analysis {
                        issue,
                        simulation_id: sim.simulation_id,
                        stage: AnalysisStage::Serializing,
                    },
                    generate_scrape_plan(sim),
                ),
            ),
            None => None,
        }
    }

    /// Goes on, given what has come of the last action.
    pub fn step(&mut self, result: Result<String, String>) -> (r: AnalysisAction)
        ensures
            final(self).issue == old(self).issue,
            final(self).simulation_id == old(self).simulation_id,
            (final(self).stage@, r@) == analysis_next(
                old(self).issue,
                old(self).simulation_id,
                old(self).stage@,
                given(result),
            ),
    {
        let issue: u64 = self.issue;
        let id: u128 = self.simulation_id;
        let (stage, action) = match (&self.stage, result) {
            (AnalysisStage::Serializing, Ok(content)) => {
                let name: String = "scrape-".to_owned().concat(uuid_text(id).as_str());
                (
                    AnalysisStage::Writing,
                    AnalysisAction::WritePlan { name: name.concat(".yaml"), content },
                )
            },
            (AnalysisStage::Serializing, Err(_)) => (AnalysisStage::Done, AnalysisAction::Nothing),
            (AnalysisStage::Writing, Ok(_)) => (
                AnalysisStage::MakingDirectory,
                AnalysisAction::MakeDirectory(
                    "./analysis_results/".to_owned().concat(uuid_text(id).as_str()),
                ),
            ),
            (AnalysisStage::Writing, Err(_)) => (AnalysisStage::Done, AnalysisAction::Nothing),
            (AnalysisStage::MakingDirectory, Ok(_)) => (
                AnalysisStage::Scripting,
                AnalysisAction::RunScript(make_plot_path(id)),
            ),
            (AnalysisStage::MakingDirectory, Err(_)) => (
                AnalysisStage::Discarding(None),
                AnalysisAction::DiscardPlan,
            ),
            (AnalysisStage::Scripting, Ok(png)) => (
                AnalysisStage::Discarding(Some(png)),
                AnalysisAction::DiscardPlan,
            ),
            (AnalysisStage::Scripting, Err(_)) => (
                AnalysisStage::Discarding(None),
                AnalysisAction::DiscardPlan,
            ),
            (AnalysisStage::Discarding(Some(png)), _) => (
                AnalysisStage::Committing,
                AnalysisAction::Commit { issue, png: png.clone() },
            ),
            (AnalysisStage::Committing, Ok(url)) => (
                AnalysisStage::Storing(url.clone()),
                AnalysisAction::StoreUrl { simulation_id: uuid_text(id), url },
            ),
            (AnalysisStage::Committing, Err(_)) => (
                AnalysisStage::Labelling,
                AnalysisAction::Label { issue, success: false },
            ),
            (AnalysisStage::Storing(url), _) => (
                AnalysisStage::Commenting,
                AnalysisAction::Comment { issue, body: make_results_comment(url.as_str()) },
            ),
            (AnalysisStage::Commenting, _) => (
                AnalysisStage::Labelling,
                AnalysisAction::Label { issue, success: true },
            ),
            (AnalysisStage::Discarding(None), _)
            | (AnalysisStage::Labelling, _)
            | (AnalysisStage::Done, _) => (AnalysisStage::Done, AnalysisAction::Nothing),
        };
        self.stage = stage;
        action
    }
}

impl AnalysisView {
    /// Whether the file with the plan lies on the disk.
    pub open spec fn holds_plan(self) -> bool {
        self is MakingDirectory || self is Scripting || self is Discarding
    }

    /// How many steps it takes at most to come to the end.
    pub open spec fn steps_left(self) -> nat {
        match self {
            AnalysisView::Serializing => 9,
            AnalysisView::Writing => 8,
            AnalysisView::MakingDirectory => 7,
            AnalysisView::Scripting => 6,
            AnalysisView::Discarding(_) => 5,
            AnalysisView::Committing => 4,
            AnalysisView::Storing(_) => 3,
            AnalysisView::Commenting => 2,
            AnalysisView::Labelling => 1,
            AnalysisView::Done => 0,
        }
    }
}

/// Whatever succeeds and whatever fails, each step brings an analysis closer to its end.
pub proof fn every_analysis_ends(issue: u64, id: u128, stage: AnalysisView, gave: Option<Seq<char>>)
    ensures
        stage !is Done ==> analysis_next(issue, id, stage, gave).0.steps_left()
            < stage.steps_left(),
        stage is Done ==> analysis_next(issue, id, stage, gave) == (
            AnalysisView::Done,
            AnalysisActionView::Nothing,
        ),
{
}

/// A plan that has been put into a file is removed before anything is sent to GitHub, and
/// before the analysis ends.
pub proof fn plan_is_discarded(issue: u64, id: u128, stage: AnalysisView, gave: Option<Seq<char>>)
    requires
        stage.holds_plan(),
    ensures
        ({
            let (next, action) = analysis_next(issue, id, stage, gave);
            &&& stage !is Discarding ==> next.holds_plan() && (action is RunScript || action
                is DiscardPlan)
            &&& next is Discarding <==> action is DiscardPlan
            &&& stage is Discarding ==> !next.holds_plan()
        }),
{
}

/// The issue is told of success only once the plot has been committed, and then of its
/// address; it is told of failure only where the commit failed.
pub proof fn only_committed_plots_are_announced(
    issue: u64,
    id: u128,
    stage: AnalysisView,
    gave: Option<Seq<char>>,
)
    ensures
        ({
            let (next, action) = analysis_next(issue, id, stage, gave);
            &&& action is Comment <==> stage is Storing
            &&& next is Storing <==> stage is Committing && gave is Some
            &&& next matches AnalysisView::Storing(url) ==> gave == Some(url)
            &&& stage matches AnalysisView::Storing(url) ==> action
                == (AnalysisActionView::Comment { issue: issue, body: results_comment(url) })
            &&& action == (AnalysisActionView::Label { issue: issue, success: true }) <==> stage
                is Commenting
            &&& action == (AnalysisActionView::Label { issue: issue, success: false }) <==> stage
                is Committing && gave is None
        }),
{
}

} // verus!

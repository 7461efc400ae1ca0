//! Talking to GitHub: what is asked of it, and what its answers mean.

use crate::model::opt_text;
use crate::outside::{
    base64_text, check_header_value, encode_base64, encode_url, header_error_text, is_header_byte,
    percent_encoded, status_phrase, status_text,
};
use crate::text::{append_decimal, decimal};
use vstd::prelude::*;

verus! {

/// The label of an issue whose simulation has not been analysed.
pub open spec fn pending_label() -> Seq<char> {
    "simulation-pending"@
}

pub fn label_to_remove() -> (r: &'static str)
    ensures
        r@ == pending_label(),
{
    "simulation-pending"
}

/// The label of an issue whose simulation has been analysed.
pub open spec fn final_label(success: bool) -> Seq<char> {
    if success {
        "simulation-done"@
    } else {
        "simulation-failed"@
    }
}

pub fn label_to_add(success: bool) -> (r: &'static str)
    ensures
        r@ == final_label(success),
{
    if success {
        "simulation-done"
    } else {
        "simulation-failed"
    }
}

/// Where the repository keeps the plot for an issue.
pub open spec fn repo_path(issue: u64) -> Seq<char> {
    "simulation_results/"@ + decimal(issue as nat) + "/analysis_plot.png"@
}

pub fn make_repo_path(issue: u64) -> (r: String)
    ensures
        r@ == repo_path(issue),
{
    let mut r: String = "simulation_results/".to_owned();
    append_decimal(&mut r, issue as u128);
    r.append("/analysis_plot.png");
    r
}

/// The address of a repository.
pub open spec fn repo_url(repo: Seq<char>) -> Seq<char> {
    "https://api.github.com/repos/"@ + repo
}

/// The address of a file in a repository.
pub open spec fn contents_url(repo: Seq<char>, path: Seq<char>) -> Seq<char> {
    repo_url(repo) + "/contents/"@ + path
}

pub fn make_contents_url(repo: &str, path: &str) -> (r: String)
    ensures
        r@ == contents_url(repo@, path@),
{
    let mut r: String = "https://api.github.com/repos/".to_owned();
    r.append(repo);
    r.append("/contents/");
    r.append(path);
    r
}

/// The address of an issue.
pub open spec fn issue_url(repo: Seq<char>, issue: u64) -> Seq<char> {
    repo_url(repo) + "/issues/"@ + decimal(issue as nat)
}

fn make_issue_url(repo: &str, issue: u64) -> (r: String)
    ensures
        r@ == issue_url(repo@, issue),
{
    let mut r: String = "https://api.github.com/repos/".to_owned();
    r.append(repo);
    r.append("/issues/");
    append_decimal(&mut r, issue as u128);
    r
}

/// The address that comments on an issue are posted to.
pub fn comments_url(repo: &str, issue: u64) -> (r: String)
    ensures
        r@ == issue_url(repo@, issue) + "/comments"@,
{
    make_issue_url(repo, issue).concat("/comments")
}

/// The address that labels are added to an issue at.
pub fn labels_url(repo: &str, issue: u64) -> (r: String)
    ensures
        r@ == issue_url(repo@, issue) + "/labels"@,
{
    make_issue_url(repo, issue).concat("/labels")
}

/// The address that a label is removed from an issue at.
pub fn label_url(repo: &str, issue: u64, label: &str) -> (r: String)
    ensures
        r@ == issue_url(repo@, issue) + "/labels/"@ + percent_encoded(
            vstd::utf8::encode_utf8(label@),
        ),
{
    let r: String = make_issue_url(repo, issue).concat("/labels/");
    r.concat(encode_url(label).as_str())
}

/// Whether a text may be the value of a header.
pub open spec fn is_header_value(s: Seq<char>) -> bool {
    let bytes = vstd::utf8::encode_utf8(s);
    forall|i: int| #![trigger bytes[i]] 0 <= i < bytes.len() ==> is_header_byte(bytes[i])
}

/// The headers of a request.
#[derive(Debug)]
pub struct Headers {
    pub authorization: String,
    pub accept: String,
    pub user_agent: String,
}

pub struct HeadersView {
    pub authorization: Seq<char>,
    pub accept: Seq<char>,
    pub user_agent: Seq<char>,
}

impl View for Headers {
    type V = HeadersView;

    open spec fn view(&self) -> HeadersView {
        HeadersView {
            authorization: self.authorization@,
            accept: self.accept@,
            user_agent: self.user_agent@,
        }
    }
}

/// Whether a token can stand in a header.
pub open spec fn is_token(token: Seq<char>) -> bool {
    is_header_value("token "@ + token)
}

/// The headers that every request carries.
pub open spec fn headers_for(token: Seq<char>) -> HeadersView {
    HeadersView {
        authorization: "token "@ + token,
        accept: "application/vnd.github.v3+json"@,
        user_agent: "LARS-Simulation-Scheduler"@,
    }
}

/// That a token cannot stand in a header.
pub open spec fn bad_token() -> Seq<char> {
    "Invalid GitHub token format: "@ + "failed to parse header value"@
}

/// The headers that every request carries, or why the token cannot stand in one.
pub fn build_github_headers(token: &str) -> (r: Result<Headers, String>)
    ensures
        match r {
            Ok(headers) => is_token(token@) && headers@ == headers_for(token@),
            Err(e) => !is_token(token@) && e@ == bad_token(),
        },
{
    let authorization: String = "token ".to_owned().concat(token);
    match check_header_value(authorization.as_str()) {
        Ok(_) => Ok(
            Headers {
                authorization,
                accept: "application/vnd.github.v3+json".to_owned(),
                user_agent: "LARS-Simulation-Scheduler".to_owned(),
            },
        ),
        Err(e) => Err(
            "Invalid GitHub token format: ".to_owned().concat(header_error_text(&e).as_str()),
        ),
    }
}

/// A file as it is to be committed.
#[derive(Debug)]
pub struct PutContent {
    pub message: String,
    pub content: String,
    pub sha: Option<String>,
}

/// The message of the commit for an issue.
pub open spec fn commit_message(issue: u64) -> Seq<char> {
    "Add analysis results for simulation from issue #"@ + decimal(issue as nat)
}

/// A file as it is to be committed, in place of the one with the given hash where there is one.
pub open spec fn put_for(issue: u64, bytes: Seq<u8>, sha: Option<Seq<char>>) -> PutView {
    PutView { message: commit_message(issue), content: base64_text(bytes), sha: sha }
}

pub struct PutView {
    pub message: Seq<char>,
    pub content: Seq<char>,
    pub sha: Option<Seq<char>>,
}

impl View for PutContent {
    type V = PutView;

    open spec fn view(&self) -> PutView {
        PutView { message: self.message@, content: self.content@, sha: opt_text(self.sha) }
    }
}

/// The commit of a plot, in place of the file with the given hash where there is one.
pub fn put_content(issue: u64, bytes: &[u8], sha: Option<String>) -> (r: PutContent)
    requires
        (bytes@.len() + 2) / 3 * 4 <= isize::MAX,
    ensures
        r@ == put_for(issue, bytes@, opt_text(sha)),
{
    let mut message: String = "Add analysis results for simulation from issue #".to_owned();
    append_decimal(&mut message, issue as u128);
    PutContent { message, content: encode_base64(bytes), sha }
}

/// What went wrong, and why.
pub open spec fn failure(what: Seq<char>, why: Seq<char>) -> Seq<char> {
    what + ": "@ + why
}

fn failure_text(what: String, why: &str) -> (r: String)
    ensures
        r@ == failure(what@, why@),
{
    what.concat(": ").concat(why)
}

/// A status and a text that came with it.
pub open spec fn answer(status: u16, body: Seq<char>) -> Seq<char> {
    "Status "@ + status_phrase(status) + ", Body: "@ + body
}

fn answer_text(status: u16, body: &str) -> (r: String)
    requires
        100 <= status <= 999,
    ensures
        r@ == answer(status, body@),
{
    "Status ".to_owned().concat(status_text(status).as_str()).concat(", Body: ").concat(body)
}

/// That the plot could not be read.
pub fn read_failed(path: &str, cause: &str) -> (r: String)
    ensures
        r@ == failure("Failed to read local PNG file '"@ + path@ + "'"@, cause@),
{
    failure_text("Failed to read local PNG file '".to_owned().concat(path).concat("'"), cause)
}

/// That the question for a file could not be asked.
pub fn lookup_failed(path: &str, cause: &str) -> (r: String)
    ensures
        r@ == failure("GitHub API request failed (GET "@ + path@ + ")"@, cause@),
{
    failure_text("GitHub API request failed (GET ".to_owned().concat(path).concat(")"), cause)
}

/// That the hash of a file that exists could not be read.
pub fn sha_failed(path: &str, cause: &str) -> (r: String)
    ensures
        r@ == failure("Failed to parse GitHub GET response for "@ + path@, cause@),
{
    failure_text("Failed to parse GitHub GET response for ".to_owned().concat(path), cause)
}

/// That the question for a file was refused.
pub fn lookup_refused(path: &str, status: u16, body: &str) -> (r: String)
    requires
        100 <= status <= 999,
    ensures
        r@ == failure(
            "GitHub API error checking file existence (GET "@ + path@ + ")"@,
            answer(status, body@),
        ),
{
    failure_text(
        "GitHub API error checking file existence (GET ".to_owned().concat(path).concat(")"),
        answer_text(status, body).as_str(),
    )
}

/// That a commit could not be made.
pub fn commit_failed(path: &str, cause: &str) -> (r: String)
    ensures
        r@ == failure("GitHub API request failed (PUT "@ + path@ + ")"@, cause@),
{
    failure_text("GitHub API request failed (PUT ".to_owned().concat(path).concat(")"), cause)
}

/// That the address of a file that was committed could not be read.
pub fn url_failed(path: &str, cause: &str) -> (r: String)
    ensures
        r@ == failure("Failed to parse GitHub PUT response for "@ + path@, cause@),
{
    failure_text("Failed to parse GitHub PUT response for ".to_owned().concat(path), cause)
}

/// That a commit was refused.
pub fn commit_refused(path: &str, status: u16, body: &str) -> (r: String)
    requires
        100 <= status <= 999,
    ensures
        r@ == failure(
            "GitHub API error committing file (PUT "@ + path@ + ")"@,
            answer(status, body@),
        ),
{
    failure_text(
        "GitHub API error committing file (PUT ".to_owned().concat(path).concat(")"),
        answer_text(status, body).as_str(),
    )
}

/// What is asked about an issue.
#[derive(Clone, Copy, Debug, PartialEq, Eq, Structural)]
pub enum Ask {
    PostComment,
    AddLabel,
    RemoveLabel,
}

impl Ask {
    pub open spec fn name(self) -> Seq<char> {
        match self {
            Ask::PostComment => "POST comment"@,
            Ask::AddLabel => "POST label"@,
            Ask::RemoveLabel => "DELETE label"@,
        }
    }

    /// Whether a status means that what was asked is so now. A label that is to be removed
    /// need not have been there.
    pub open spec fn granted(self, status: u16) -> bool {
        match self {
            Ask::PostComment => status == 201,
            Ask::AddLabel => status == 200,
            Ask::RemoveLabel => 200 <= status < 300 || status == 404,
        }
    }
}

/// That nothing could be asked about an issue.
pub fn ask_failed(ask: Ask, issue: u64, cause: &str) -> (r: String)
    ensures
        r@ == failure(
            "GitHub API request failed ("@ + ask.name() + " issue "@ + decimal(issue as nat)
                + ")"@,
            cause@,
        ),
{
    let name: &str = match ask {
        Ask::PostComment => "POST comment",
        Ask::AddLabel => "POST label",
        Ask::RemoveLabel => "DELETE label",
    };
    let mut what: String = "GitHub API request failed (".to_owned().concat(name).concat(" issue ");
    append_decimal(&mut what, issue as u128);
    failure_text(what.concat(")"), cause)
}

/// What a refusal is called, given the label that was asked for.
pub open spec fn refused(ask: Ask, issue: u64, label: Seq<char>) -> Seq<char> {
    let what = match ask {
        Ask::PostComment => "posting comment"@,
        Ask::AddLabel => "adding label '"@ + label + "'"@,
        Ask::RemoveLabel => "removing label '"@ + label + "'"@,
    };
    "GitHub API error "@ + what + " (issue "@ + decimal(issue as nat) + ")"@
}

/// What an answer about an issue means. The label plays no part where none was asked for.
pub fn ask_outcome(ask: Ask, issue: u64, label: &str, status: u16, body: &str) -> (r: Result<
    (),
    String,
>)
    requires
        100 <= status <= 999,
    ensures
        match r {
            Ok(_) => ask.granted(status),
            Err(e) => !ask.granted(status) && e@ == failure(
                refused(ask, issue, label@),
                answer(status, body@),
            ),
        },
{
    let granted: bool = match ask {
        Ask::PostComment => status == 201,
        Ask::AddLabel => status == 200,
        Ask::RemoveLabel => (200 <= status && status < 300) || status == 404,
    };
    if granted {
        return Ok(());
    }
    let what: String = match ask {
        Ask::PostComment => "posting comment".to_owned(),
        Ask::AddLabel => "adding label '".to_owned().concat(label).concat("'"),
        Ask::RemoveLabel => "removing label '".to_owned().concat(label).concat("'"),
    };
    let mut e: String = "GitHub API error ".to_owned().concat(what.as_str()).concat(" (issue ");
    append_decimal(&mut e, issue as u128);
    Err(failure_text(e.concat(")"), answer_text(status, body).as_str()))
}

/// The comment that shows a plot.
pub open spec fn results_comment(url: Seq<char>) -> Seq<char> {
    "# Results\n\n![Analysis Plot]("@ + url + ")"@
}

pub fn make_results_comment(url: &str) -> (r: String)
    ensures
        r@ == results_comment(url@),
{
    "# Results\n\n![Analysis Plot](".to_owned().concat(url).concat(")")
}

/// A plot that is to be committed for an issue.
#[derive(Debug)]
pub struct CommitJob {
    pub issue: u64,
    pub png: String,
    pub repo: String,
    pub token: String,
}

pub struct JobView {
    pub issue: u64,
    pub png: Seq<char>,
    pub repo: Seq<char>,
    pub token: Seq<char>,
}

impl View for CommitJob {
    type V = JobView;

    open spec fn view(&self) -> JobView {
        JobView { issue: self.issue, png: self.png@, repo: self.repo@, token: self.token@ }
    }
}

/// What a commit waits for.
#[derive(Clone, Copy, Debug, PartialEq, Eq, Structural)]
pub enum CommitStage {
    /// The plot to be read.
    Reading,
    /// The answer to the question for the file.
    LookingUp,
    /// The hash of the file that exists.
    ReadingSha,
    /// What came with the status that refuses the question.
    ReadingRefusal(u16),
    /// The answer to the commit.
    Committing,
    /// The address of the file.
    ReadingUrl,
    /// What came with the status that refuses the commit.
    ReadingRejection(u16),
    /// Nothing any more.
    Done,
}

/// What has come of the last action.
#[derive(Debug)]
pub enum CommitEvent {
    /// The plot.
    Bytes(Vec<u8>),
    /// An answer with this status.
    Status(u16),
    /// The text that was asked for.
    Text(String),
    /// A failure, and why.
    Failed(String),
}

pub enum CommitEventView {
    Bytes(Seq<u8>),
    Status(u16),
    Text(Seq<char>),
    Failed(Seq<char>),
}

impl View for CommitEvent {
    type V = CommitEventView;

    open spec fn view(&self) -> CommitEventView {
        match *self {
            CommitEvent::Bytes(b) => CommitEventView::Bytes(b@),
            CommitEvent::Status(code) => CommitEventView::Status(code),
            CommitEvent::Text(s) => CommitEventView::Text(s@),
            CommitEvent::Failed(e) => CommitEventView::Failed(e@),
        }
    }
}

impl CommitEventView {
    /// Whether bytes can be encoded, and a status is one of HTTP.
    pub open spec fn possible(self) -> bool {
        match self {
            CommitEventView::Bytes(b) => (b.len() + 2) / 3 * 4 <= isize::MAX,
            CommitEventView::Status(code) => 100 <= code <= 999,
            _ => true,
        }
    }
}

/// What is to be done next for a commit. What comes of it is reported back.
#[derive(Debug)]
pub enum CommitAction {
    /// Read this file.
    ReadFile(String),
    /// Ask for the file at this address.
    LookUp { url: String, headers: Headers },
    /// Read the hash out of the answer.
    ReadSha,
    /// Read the text of the answer.
    ReadText,
    /// Commit the file at this address.
    Put { url: String, headers: Headers, content: PutContent },
    /// Read the address out of the answer.
    ReadUrl,
    /// The commit has ended: the address of the plot, or why there is none.
    Finish(Result<String, String>),
    Nothing,
}

pub enum CommitActionView {
    ReadFile(Seq<char>),
    LookUp { url: Seq<char>, headers: HeadersView },
    ReadSha,
    ReadText,
    Put { url: Seq<char>, headers: HeadersView, content: PutView },
    ReadUrl,
    Finish(Result<Seq<char>, Seq<char>>),
    Nothing,
}

impl View for CommitAction {
    type V = CommitActionView;

    open spec fn view(&self) -> CommitActionView {
        match *self {
            CommitAction::ReadFile(path) => CommitActionView::ReadFile(path@),
            CommitAction::LookUp { url, headers } => CommitActionView::LookUp {
                url: url@,
                headers: headers@,
            },
            CommitAction::ReadSha => CommitActionView::ReadSha,
            CommitAction::ReadText => CommitActionView::ReadText,
            CommitAction::Put { url, headers, content } => CommitActionView::Put {
                url: url@,
                headers: headers@,
                content: content@,
            },
            CommitAction::ReadUrl => CommitActionView::ReadUrl,
            CommitAction::Finish(Ok(url)) => CommitActionView::Finish(Ok(url@)),
            CommitAction::Finish(Err(e)) => CommitActionView::Finish(Err(e@)),
            CommitAction::Nothing => CommitActionView::Nothing,
        }
    }
}

/// A commit and how far it has come. The bytes are those of the plot, once it has been read.
#[derive(Debug)]
pub struct Commit {
    pub job: CommitJob,
    pub bytes: Vec<u8>,
    pub stage: CommitStage,
}

pub struct CommitView {
    pub job: JobView,
    pub bytes: Seq<u8>,
    pub stage: CommitStage,
}

impl View for Commit {
    type V = CommitView;

    open spec fn view(&self) -> CommitView {
        CommitView { job: self.job@, bytes: self.bytes@, stage: self.stage }
    }
}

impl CommitView {
    /// The plot can be encoded, the file is only asked for where the token can stand in a
    /// header, and a refusal has a status of HTTP.
    pub open spec fn well_formed(self) -> bool {
        &&& (self.bytes.len() + 2) / 3 * 4 <= isize::MAX
        &&& self.stage is LookingUp || self.stage is ReadingSha ==> is_token(self.job.token)
        &&& match self.stage {
            CommitStage::ReadingRefusal(code) => 100 <= code <= 999,
            CommitStage::ReadingRejection(code) => 100 <= code <= 999,
            _ => true,
        }
    }

    /// The commit at another stage.
    pub open spec fn at(self, stage: CommitStage) -> CommitView {
        CommitView { stage: stage, ..self }
    }

    /// The end of the commit in a failure.
    pub open spec fn fails(self, e: Seq<char>) -> (CommitView, CommitActionView) {
        (self.at(CommitStage::Done), CommitActionView::Finish(Err(e)))
    }

    /// The file goes to the repository.
    pub open spec fn puts(self, sha: Option<Seq<char>>) -> (CommitView, CommitActionView) {
        (
            self.at(CommitStage::Committing),
            CommitActionView::Put {
                url: contents_url(self.job.repo, repo_path(self.job.issue)),
                headers: headers_for(self.job.token),
                content: put_for(self.job.issue, self.bytes, sha),
            },
        )
    }
}

/// How a commit goes on, given what has come of the last action: the plot is read, the file is
/// asked for, and then committed, in place of the one that exists. What does not answer the
/// last action changes nothing.
pub open spec fn commit_next(c: CommitView, event: CommitEventView) -> (
    CommitView,
    CommitActionView,
) {
    let path = repo_path(c.job.issue);
    match (c.stage, event) {
        (CommitStage::Reading, CommitEventView::Bytes(b)) => if is_token(c.job.token) {
            (
                CommitView { bytes: b, stage: CommitStage::LookingUp, ..c },
                CommitActionView::LookUp {
                    url: contents_url(c.job.repo, path),
                    headers: headers_for(c.job.token),
                },
            )
        } else {
            c.fails(bad_token())
        },
        (CommitStage::Reading, CommitEventView::Failed(e)) => c.fails(
            failure("Failed to read local PNG file '"@ + c.job.png + "'"@, e),
        ),
        (CommitStage::LookingUp, CommitEventView::Status(code)) => if code == 200 {
            (c.at(CommitStage::ReadingSha), CommitActionView::ReadSha)
        } else if code == 404 {
            c.puts(None)
        } else {
            (c.at(CommitStage::ReadingRefusal(code)), CommitActionView::ReadText)
        },
        (CommitStage::LookingUp, CommitEventView::Failed(e)) => c.fails(
            failure("GitHub API request failed (GET "@ + path + ")"@, e),
        ),
        (CommitStage::ReadingSha, CommitEventView::Text(sha)) => c.puts(Some(sha)),
        (CommitStage::ReadingSha, CommitEventView::Failed(e)) => c.fails(
            failure("Failed to parse GitHub GET response for "@ + path, e),
        ),
        (CommitStage::ReadingRefusal(code), CommitEventView::Text(body)) => c.fails(
            failure(
                "GitHub API error checking file existence (GET "@ + path + ")"@,
                answer(code, body),
            ),
        ),
        (CommitStage::Committing, CommitEventView::Status(code)) => if code == 200 || code == 201 {
            (c.at(CommitStage::ReadingUrl), CommitActionView::ReadUrl)
        } else {
            (c.at(CommitStage::ReadingRejection(code)), CommitActionView::ReadText)
        },
        (CommitStage::Committing, CommitEventView::Failed(e)) => c.fails(
            failure("GitHub API request failed (PUT "@ + path + ")"@, e),
        ),
        (CommitStage::ReadingUrl, CommitEventView::Text(url)) => (
            c.at(CommitStage::Done),
            CommitActionView::Finish(Ok(url)),
        ),
        (CommitStage::ReadingUrl, CommitEventView::Failed(e)) => c.fails(
            failure("Failed to parse GitHub PUT response for "@ + path, e),
        ),
        (CommitStage::ReadingRejection(code), CommitEventView::Text(body)) => c.fails(
            failure(
                "GitHub API error committing file (PUT "@ + path + ")"@,
                answer(code, body),
            ),
        ),
        _ => (c, CommitActionView::Nothing),
    }
}

impl Commit {
    /// Begins by reading the plot.
    pub fn start(job: CommitJob) -> (r: (Commit, CommitAction))
        ensures
            r.0@ == (CommitView {
                job: job@,
                bytes: Seq::empty(),
                stage: CommitStage::Reading,
            }),
            r.0@.well_formed(),
            r.1@ == CommitActionView::ReadFile(job@.png),
    {
        let path: String = job.png.clone();
        let bytes: Vec<u8> = Vec::new();
        assert(bytes@ =~= Seq::empty());
        (Commit { job, bytes, stage: CommitStage::Reading }, CommitAction::ReadFile(path))
    }

    fn fail(&mut self, e: String) -> (r: CommitAction)
        ensures
            (final(self)@, r@) == old(self)@.fails(e@),
    {
        self.stage = CommitStage::Done;
        CommitAction::Finish(Err(e))
    }

    fn put(&mut self, sha: Option<String>) -> (r: CommitAction)
        requires
            old(self)@.well_formed(),
            is_token(old(self)@.job.token),
        ensures
            (final(self)@, r@) == old(self)@.puts(opt_text(sha)),
    {
        let path: String = make_repo_path(self.job.issue);
        let url: String = make_contents_url(self.job.repo.as_str(), path.as_str());
        let content: PutContent = put_content(self.job.issue, self.bytes.as_slice(), sha);
        match build_github_headers(self.job.token.as_str()) {
            Ok(headers) => {
                self.stage = CommitStage::Committing;
                CommitAction::Put { url, headers, content }
            },
            Err(e) => self.fail(e),
        }
    }

    /// Goes on, given what has come of the last action.
    pub fn step(&mut self, event: CommitEvent) -> (r: CommitAction)
        requires
            old(self)@.well_formed(),
            event@.possible(),
        ensures
            (final(self)@, r@) == commit_next(old(self)@, event@),
            final(self)@.well_formed(),
    {
        let path: String = make_repo_path(self.job.issue);
        match (self.stage, event) {
            (CommitStage::Reading, CommitEvent::Bytes(bytes)) => {
                match build_github_headers(self.job.token.as_str()) {
                    Ok(headers) => {
                        let url: String = make_contents_url(
                            self.job.repo.as_str(),
                            path.as_str(),
                        );
                        self.bytes = bytes;
                        self.stage = CommitStage::LookingUp;
                        CommitAction::LookUp { url, headers }
                    },
                    Err(e) => self.fail(e),
                }
            },
            (CommitStage::Reading, CommitEvent::Failed(e)) => {
                let e: String = read_failed(self.job.png.as_str(), e.as_str());
                self.fail(e)
            },
            (CommitStage::LookingUp, CommitEvent::Status(code)) => {
                if code == 200 {
                    self.stage = CommitStage::ReadingSha;
                    CommitAction::ReadSha
                } else if code == 404 {
                    self.put(None)
                } else {
                    self.stage = CommitStage::ReadingRefusal(code);
                    CommitAction::ReadText
                }
            },
            (CommitStage::LookingUp, CommitEvent::Failed(e)) => self.fail(
                lookup_failed(path.as_str(), e.as_str()),
            ),
            (CommitStage::ReadingSha, CommitEvent::Text(sha)) => self.put(Some(sha)),
            (CommitStage::ReadingSha, CommitEvent::Failed(e)) => self.fail(
                sha_failed(path.as_str(), e.as_str()),
            ),
            (CommitStage::ReadingRefusal(code), CommitEvent::Text(body)) => self.fail(
                lookup_refused(path.as_str(), code, body.as_str()),
            ),
            (CommitStage::Committing, CommitEvent::Status(code)) => {
                if code == 200 || code == 201 {
                    self.stage = CommitStage::ReadingUrl;
                    CommitAction::ReadUrl
                } else {
                    self.stage = CommitStage::ReadingRejection(code);
                    CommitAction::ReadText
                }
            },
            (CommitStage::Committing, CommitEvent::Failed(e)) => self.fail(
                commit_failed(path.as_str(), e.as_str()),
            ),
            (CommitStage::ReadingUrl, CommitEvent::Text(url)) => {
                self.stage = CommitStage::Done;
                CommitAction::Finish(Ok(url))
            },
            (CommitStage::ReadingUrl, CommitEvent::Failed(e)) => self.fail(
                url_failed(path.as_str(), e.as_str()),
            ),
            (CommitStage::ReadingRejection(code), CommitEvent::Text(body)) => self.fail(
                commit_refused(path.as_str(), code, body.as_str()),
            ),
            _ => CommitAction::Nothing,
        }
    }
}

/// What a commit does from a stage on, given what comes of each action.
pub open spec fn commit_run(c: CommitView, events: Seq<CommitEventView>) -> Seq<CommitActionView>
    decreases events.len(),
{
    if events.len() == 0 {
        Seq::empty()
    } else {
        let (next, action) = commit_next(c, events[0]);
        seq![action] + commit_run(next, events.drop_first())
    }
}

/// Whether an action sends something to GitHub.
pub open spec fn is_request(action: CommitActionView) -> bool {
    action is LookUp || action is Put
}

/// Whether nothing is sent.
pub open spec fn sends_nothing(actions: Seq<CommitActionView>) -> bool {
    forall|i: int| 0 <= i < actions.len() ==> !is_request(#[trigger] actions[i])
}

/// A commit that has ended, or that only waits for what a refusal says, sends nothing more.
proof fn lemma_ended_sends_nothing(c: CommitView, events: Seq<CommitEventView>)
    requires
        c.stage is Done || c.stage is ReadingRefusal || c.stage is ReadingRejection || c.stage
            is ReadingUrl,
    ensures
        sends_nothing(commit_run(c, events)),
    decreases events.len(),
{
    if events.len() > 0 {
        let (next, action) = commit_next(c, events[0]);
        lemma_ended_sends_nothing(next, events.drop_first());
    }
}

/// A plot that cannot be read, and a token that cannot stand in a header, mean that nothing is
/// sent.
pub proof fn nothing_is_sent_without_plot_and_token(c: CommitView, events: Seq<CommitEventView>)
    requires
        c.stage is Reading,
        events.len() > 0,
        events[0] is Failed || (events[0] is Bytes && !is_token(c.job.token)),
    ensures
        commit_run(c, events)[0] matches CommitActionView::Finish(Err(_)),
        sends_nothing(commit_run(c, events)),
{
    let (next, action) = commit_next(c, events[0]);
    lemma_ended_sends_nothing(next, events.drop_first());
}

/// The file is asked for before it is committed, and is committed only where the answer was
/// that it exists or that it does not: any other answer, and none, mean that no commit is sent.
pub proof fn nothing_is_committed_unasked(c: CommitView, events: Seq<CommitEventView>)
    requires
        c.stage is LookingUp,
        events.len() > 0,
        events[0] is Failed || (events[0] matches CommitEventView::Status(code) && code != 200
            && code != 404),
    ensures
        sends_nothing(commit_run(c, events)),
{
    let (next, action) = commit_next(c, events[0]);
    lemma_ended_sends_nothing(next, events.drop_first());
}

/// Each request has its one occasion: the file is asked for once the plot has been read, and
/// committed once the answer is that it does not exist, or once the hash of the one that exists
/// has been read.
pub proof fn requests_have_their_occasion(c: CommitView, event: CommitEventView)
    ensures
        ({
            let (next, action) = commit_next(c, event);
            &&& action is LookUp <==> c.stage is Reading && event is Bytes && is_token(c.job.token)
            &&& action is Put <==> (c.stage is LookingUp && event == CommitEventView::Status(404))
                || (c.stage is ReadingSha && event is Text)
            &&& next.stage is LookingUp && next != c <==> action is LookUp
            &&& next.stage is ReadingSha && c.stage !is ReadingSha ==> c.stage is LookingUp
                && event == CommitEventView::Status(200)
            &&& action matches CommitActionView::Finish(Ok(url)) ==> c.stage is ReadingUrl
                && event == CommitEventView::Text(url)
        }),
{
}

/// What is asked about an issue: the address, and the headers.
#[derive(Debug)]
pub struct AskRequest {
    pub url: String,
    pub headers: Headers,
}

/// Where something is asked about an issue.
pub open spec fn ask_url(ask: Ask, repo: Seq<char>, issue: u64, label: Seq<char>) -> Seq<char> {
    match ask {
        Ask::PostComment => issue_url(repo, issue) + "/comments"@,
        Ask::AddLabel => issue_url(repo, issue) + "/labels"@,
        Ask::RemoveLabel => issue_url(repo, issue) + "/labels/"@ + percent_encoded(
            vstd::utf8::encode_utf8(label),
        ),
    }
}

/// What is asked about an issue; nothing is where the token cannot stand in a header.
pub fn prepare_ask(ask: Ask, repo: &str, token: &str, issue: u64, label: &str) -> (r: Result<
    AskRequest,
    String,
>)
    ensures
        match r {
            Ok(request) => is_token(token@) && request.headers@ == headers_for(token@)
                && request.url@ == ask_url(ask, repo@, issue, label@),
            Err(e) => !is_token(token@) && e@ == bad_token(),
        },
{
    let url: String = match ask {
        Ask::PostComment => comments_url(repo, issue),
        Ask::AddLabel => labels_url(repo, issue),
        Ask::RemoveLabel => label_url(repo, issue, label),
    };
    match build_github_headers(token) {
        Ok(headers) => Ok(AskRequest { url, headers }),
        Err(e) => Err(e),
    }
}

/// What the change of an issue's labels waits for.
#[derive(Clone, Copy, Debug, PartialEq, Eq, Structural)]
pub enum LabelStage {
    /// The label of pending simulations to be removed.
    Removing,
    /// The label of analysed simulations to be added.
    Adding,
    /// Nothing any more.
    Done,
}

/// What is to be done next about the labels. What comes of it is reported back.
#[derive(Debug)]
pub enum LabelAction {
    Remove(String),
    Add(String),
    Nothing,
}

pub enum LabelActionView {
    Remove(Seq<char>),
    Add(Seq<char>),
    Nothing,
}

impl View for LabelAction {
    type V = LabelActionView;

    open spec fn view(&self) -> LabelActionView {
        match *self {
            LabelAction::Remove(label) => LabelActionView::Remove(label@),
            LabelAction::Add(label) => LabelActionView::Add(label@),
            LabelAction::Nothing => LabelActionView::Nothing,
        }
    }
}

/// How the change of labels goes on, whatever has come of the last action.
pub open spec fn labels_next(stage: LabelStage, success: bool) -> (LabelStage, LabelActionView) {
    match stage {
        LabelStage::Removing => (LabelStage::Adding, LabelActionView::Add(final_label(success))),
        LabelStage::Adding => (LabelStage::Done, LabelActionView::Nothing),
        LabelStage::Done => (LabelStage::Done, LabelActionView::Nothing),
    }
}

/// The change of the labels of an issue, and how far it has come.
#[derive(Debug)]
pub struct Labels {
    pub success: bool,
    pub stage: LabelStage,
}

impl Labels {
    /// Begins by removing the label of pending simulations.
    pub fn start(success: bool) -> (r: (Labels, LabelAction))
        ensures
            r.0.success == success,
            r.0.stage is Removing,
            r.1@ == LabelActionView::Remove(pending_label()),
    {
        (
            Labels { success, stage: LabelStage::Removing },
            LabelAction::Remove(label_to_remove().to_owned()),
        )
    }

    /// Goes on, whatever has come of the last action.
    pub fn step(&mut self, result: Result<(), String>) -> (r: LabelAction)
        ensures
            final(self).success == old(self).success,
            (final(self).stage, r@) == labels_next(old(self).stage, old(self).success),
    {
        match self.stage {
            LabelStage::Removing => {
                self.stage = LabelStage::Adding;
                LabelAction::Add(label_to_add(self.success).to_owned())
            },
            _ => {
                self.stage = LabelStage::Done;
                LabelAction::Nothing
            },
        }
    }
}

/// What is done about the labels in so many steps after the first.
pub open spec fn labels_run(stage: LabelStage, success: bool, steps: nat) -> Seq<LabelActionView>
    decreases steps,
{
    if steps == 0 {
        Seq::empty()
    } else {
        let (next, action) = labels_next(stage, success);
        seq![action] + labels_run(next, success, (steps - 1) as nat)
    }
}

proof fn lemma_labels_done(success: bool, steps: nat)
    ensures
        labels_run(LabelStage::Done, success, steps).len() == steps,
        forall|i: int|
            0 <= i < steps ==> (#[trigger] labels_run(LabelStage::Done, success, steps)[i])
                is Nothing,
    decreases steps,
{
    if steps > 0 {
        lemma_labels_done(success, (steps - 1) as nat);
    }
}

/// After the label of pending simulations, whatever came of its removal, exactly one label is
/// added: that of the outcome. Then nothing is done any more.
pub proof fn one_label_is_added_after_the_removal(success: bool, steps: nat)
    requires
        steps > 0,
    ensures
        ({
            let actions = labels_run(LabelStage::Removing, success, steps);
            &&& actions.len() == steps
            &&& actions[0] == LabelActionView::Add(final_label(success))
            &&& forall|i: int| 1 <= i < steps ==> (#[trigger] actions[i]) is Nothing
        }),
{
    let actions: Seq<LabelActionView> = labels_run(LabelStage::Removing, success, steps);
    let rest: nat = (steps - 1) as nat;
    let adding: Seq<LabelActionView> = labels_run(LabelStage::Adding, success, rest);
    assert(actions == seq![LabelActionView::Add(final_label(success))] + adding);
    if rest > 0 {
        let n: nat = (rest - 1) as nat;
        let done: Seq<LabelActionView> = labels_run(LabelStage::Done, success, n);
        lemma_labels_done(success, n);
        assert(adding == seq![LabelActionView::Nothing] + done);
        assert forall|i: int| 1 <= i < steps implies (#[trigger] actions[i]) is Nothing by {
            if i > 1 {
                assert(actions[i] == done[i - 2]);
            }
        }
    }
}

} // verus!

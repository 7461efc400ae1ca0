//! Answers to HTTP requests.

use crate::model::SimulationRunHistoryEntry;
use crate::outside::{is_random_uuid, random_uuid};
use vstd::prelude::*;

verus! {

/// An answer that is a status and a text.
#[derive(Debug, PartialEq, Eq)]
pub struct Reply {
    pub status: u16,
    pub text: String,
}

pub struct ReplyView {
    pub status: u16,
    pub text: Seq<char>,
}

impl View for Reply {
    type V = ReplyView;

    open spec fn view(&self) -> ReplyView {
        ReplyView { status: self.status, text: self.text@ }
    }
}

impl Reply {
    pub fn new(status: u16, text: &str) -> (r: Self)
        ensures
            r@ == (ReplyView { status: status, text: text@ }),
    {
        Reply { status, text: text.to_owned() }
    }
}

/// The page that was rendered, or what is said where rendering it failed.
pub fn page_reply(rendered: Result<String, String>) -> (r: Result<String, Reply>)
    ensures
        match rendered {
            Ok(html) => r == Ok::<String, Reply>(html),
            Err(_) => r matches Err(e) && e@ == (ReplyView {
                status: 500,
                text: "Template rendering error"@,
            }),
        },
{
    match rendered {
        Ok(html) => Ok(html),
        Err(_) => Err(Reply::new(500, "Template rendering error")),
    }
}

/// The runs that were fetched, or what is said where fetching them failed.
pub fn history_reply(fetched: Result<Vec<SimulationRunHistoryEntry>, String>) -> (r: Result<
    Vec<SimulationRunHistoryEntry>,
    Reply,
>)
    ensures
        match fetched {
            Ok(runs) => r == Ok::<Vec<SimulationRunHistoryEntry>, Reply>(runs),
            Err(cause) => r matches Err(e) && e@ == (ReplyView {
                status: 500,
                text: "Database error: "@ + cause@,
            }),
        },
{
    match fetched {
        Ok(runs) => Ok(runs),
        Err(cause) => Err(
            Reply { status: 500, text: "Database error: ".to_owned().concat(cause.as_str()) },
        ),
    }
}

/// A random identifier for a request or a run.
pub fn fresh_id() -> (r: u128)
    ensures
        is_random_uuid(r),
{
    random_uuid()
}

} // verus!

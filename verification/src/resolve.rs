//! The lifetime resolver: from a path's add-history and delete-history
//! lines, determine the earliest add event and the most recent delete
//! event.
//!
//! The adapter returns history most-recent-first, so the earliest add is
//! the last line of the add-history and the most recent delete is the
//! first line of the delete-history. Each line carries a commit identifier
//! and an RFC 3339 timestamp, separated by whitespace; anything after the
//! second token is ignored.

use vstd::prelude::*;

use crate::textutil::str_views;
use crate::textutil::tokens_of;
use crate::timestamps::TS_BOUND;
use crate::timestamps::parse_rfc3339_secs;
use crate::textutil::line_tokens;

verus! {

/// Why a candidate path could not be resolved. Each of these is fatal: a
/// lifetime cannot be computed without a creation event.
#[derive(Clone, Copy, Debug, PartialEq, Eq, Structural)]
pub enum LifetimeError {
    /// The add-history for a candidate path was empty.
    MissingAddHistory,
    /// The oldest add record did not hold both a commit and a timestamp.
    MalformedAddRecord,
    /// The timestamp of the oldest add record was not RFC 3339.
    BadAddTimestamp,
}

/// One history event: the commit that made it and when.
#[derive(Debug)]
pub struct HistoryEvent {
    pub commit: String,
    pub timestamp_secs: i64,
}

/// The mathematical shadow of a `HistoryEvent`.
pub struct EventView {
    pub commit: Seq<char>,
    pub timestamp_secs: i64,
}

impl View for HistoryEvent {
    type V = EventView;

    open spec fn view(&self) -> EventView {
        EventView { commit: self.commit@, timestamp_secs: self.timestamp_secs }
    }
}

/// The earliest add event in a most-recent-first add-history: the last
/// line's first token names the commit, its second the timestamp. An empty
/// history, a short line, or an unreadable timestamp is an error.
pub open spec fn resolve_created_spec(lines: Seq<Seq<char>>) -> Result<EventView, LifetimeError> {
    if lines.len() == 0 {
        Err(LifetimeError::MissingAddHistory)
    } else {
        let toks = tokens_of(lines.last());
        if toks.len() < 2 {
            Err(LifetimeError::MalformedAddRecord)
        } else {
            match crate::timestamps::rfc3339_secs_of(toks[1]) {
                Some(t) => Ok(EventView { commit: toks[0], timestamp_secs: t }),
                None => Err(LifetimeError::BadAddTimestamp),
            }
        }
    }
}

/// The most recent delete event in a most-recent-first delete-history: the
/// first line, read like an add record. A missing, short, or unreadable
/// record means "no deletion": the file may simply still exist.
pub open spec fn resolve_deleted_spec(lines: Seq<Seq<char>>) -> Option<EventView> {
    if lines.len() == 0 {
        None
    } else {
        let toks = tokens_of(lines[0]);
        if toks.len() < 2 {
            None
        } else {
            match crate::timestamps::rfc3339_secs_of(toks[1]) {
                Some(t) => Some(EventView { commit: toks[0], timestamp_secs: t }),
                None => None,
            }
        }
    }
}

/// A resolver result, seen mathematically.
pub open spec fn resolved_view(r: Result<HistoryEvent, LifetimeError>) -> Result<
    EventView,
    LifetimeError,
> {
    match r {
        Ok(e) => Ok(e@),
        Err(x) => Err(x),
    }
}

/// Determine the creation event of a path from its add-history.
pub fn resolve_created(lines: &Vec<String>) -> (r: Result<HistoryEvent, LifetimeError>)
    ensures
        resolved_view(r) == resolve_created_spec(str_views(lines@)),
        r matches Ok(e) ==> -TS_BOUND < e.timestamp_secs < TS_BOUND,
{
    if lines.len() == 0 {
        return Err(LifetimeError::MissingAddHistory);
    }
    let line = &lines[lines.len() - 1];
    proof {
        assert(str_views(lines@).last() == line@);
    }
    let toks = line_tokens(line.as_str());
    if toks.len() < 2 {
        return Err(LifetimeError::MalformedAddRecord);
    }
    proof {
        assert(str_views(toks@)[0] == toks@[0]@);
        assert(str_views(toks@)[1] == toks@[1]@);
    }
    match parse_rfc3339_secs(toks[1].as_str()) {
        Some(t) => Ok(HistoryEvent { commit: toks[0].clone(), timestamp_secs: t }),
        None => Err(LifetimeError::BadAddTimestamp),
    }
}

/// Determine the most recent deletion event of a path from its
/// delete-history, if it has one.
pub fn resolve_deleted(lines: &Vec<String>) -> (r: Option<HistoryEvent>)
    ensures
        match (r, resolve_deleted_spec(str_views(lines@))) {
            (Some(e), Some(v)) => e@ == v,
            (None, None) => true,
            _ => false,
        },
        r matches Some(e) ==> -TS_BOUND < e.timestamp_secs < TS_BOUND,
{
    if lines.len() == 0 {
        return None;
    }
    let line = &lines[0];
    proof {
        assert(str_views(lines@)[0] == line@);
    }
    let toks = line_tokens(line.as_str());
    if toks.len() < 2 {
        return None;
    }
    proof {
        assert(str_views(toks@)[0] == toks@[0]@);
        assert(str_views(toks@)[1] == toks@[1]@);
    }
    match parse_rfc3339_secs(toks[1].as_str()) {
        Some(t) => Some(HistoryEvent { commit: toks[0].clone(), timestamp_secs: t }),
        None => None,
    }
}

} // verus!

//! Rendering of report lines: one line per surviving entry and one
//! summary line, with ages shown as human-readable durations.

use vstd::prelude::*;

use crate::report::ChangesetLifetime;
use crate::report::LifetimeView;
use crate::report::wf_lifetime;
use crate::textutil::dec_str_of;
use crate::textutil::fmt_u64;
use crate::timestamps::MAX_AGE_MINUTES;

verus! {

/// What humantime renders for a duration of whole seconds: a
/// human-readable text such as a count of days, hours and minutes. The
/// rendering depends on the seconds alone.
pub uninterp spec fn human_duration_of(secs: u64) -> Seq<char>;

/// Relies on humantime's `format_duration`, whose rendering is a function
/// of the duration alone.
#[verifier::external_body]
fn human_duration(secs: u64) -> (r: String)
    ensures
        r@ == human_duration_of(secs),
{
    humantime::format_duration(std::time::Duration::from_secs(secs)).to_string()
}

/// The text for an absent removal commit: nothing.
pub open spec fn opt_commit_text(c: Option<Seq<char>>) -> Seq<char> {
    match c {
        Some(h) => h,
        None => Seq::<char>::empty(),
    }
}

/// One report line: base name, creation commit, removal commit (or
/// nothing), and the age as a human-readable duration.
pub open spec fn entry_line_of(v: LifetimeView) -> Seq<char> {
    v.name + " "@ + v.commit_added + " - "@ + opt_commit_text(v.commit_removed) + "  ("@
        + human_duration_of(((60 * v.age_minutes) as u64)) + ")"@
}

/// The closing summary: how many changesets survived and their mean age.
pub open spec fn summary_line_of(count: int, mean_minutes: int) -> Seq<char> {
    "Total: "@ + dec_str_of(count) + " changesets ("@ + human_duration_of(
        ((60 * mean_minutes) as u64),
    ) + ")"@
}

/// Render the line for one surviving entry.
pub fn entry_line(e: &ChangesetLifetime) -> (r: String)
    requires
        wf_lifetime(e@),
    ensures
        r@ == entry_line_of(e@),
{
    let mut s = String::new();
    s.append(e.name.as_str());
    s.append(" ");
    s.append(e.commit_added.as_str());
    s.append(" - ");
    match &e.commit_removed {
        Some(h) => s.append(h.as_str()),
        None => (),
    }
    s.append("  (");
    let secs: u64 = (e.age_minutes as u64) * 60;
    proof {
        assert(secs == ((60 * e@.age_minutes) as u64));
    }
    let h = human_duration(secs);
    s.append(h.as_str());
    s.append(")");
    proof {
        assert(s@ =~= entry_line_of(e@));
    }
    s
}

/// Render the summary line for a finished report.
pub fn summary_line(count: usize, mean_minutes: i64) -> (r: String)
    requires
        0 <= mean_minutes <= MAX_AGE_MINUTES,
    ensures
        r@ == summary_line_of(count as int, mean_minutes as int),
{
    let mut s = String::new();
    s.append("Total: ");
    let c = fmt_u64(count as u64);
    s.append(c.as_str());
    s.append(" changesets (");
    let secs: u64 = (mean_minutes as u64) * 60;
    proof {
        assert(secs == ((60 * mean_minutes as int) as u64));
    }
    let h = human_duration(secs);
    s.append(h.as_str());
    s.append(")");
    proof {
        assert(s@ =~= summary_line_of(count as int, mean_minutes as int));
    }
    s
}

} // verus!

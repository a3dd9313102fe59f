//! The report aggregator: resolve every candidate path, apply the window
//! filter, sort the survivors by age and compute the mean.

use vstd::prelude::*;

use crate::report::ChangesetLifetime;
use crate::report::LifetimeView;
use crate::report::age_minutes_of;
use crate::report::all_wf;
use crate::report::evaluate_candidate;
use crate::report::mean_minutes;
use crate::report::mean_minutes_of;
use crate::report::lemma_sum_permutation;
use crate::report::sort_by_age_desc;
use crate::report::sorted_desc;
use crate::report::survives;
use crate::report::views_of;
use crate::report::wf_lifetime;
use crate::resolve::EventView;
use crate::resolve::HistoryEvent;
use crate::resolve::LifetimeError;
use crate::resolve::resolve_created;
use crate::resolve::resolve_created_spec;
use crate::resolve::resolve_deleted;
use crate::resolve::resolve_deleted_spec;
use crate::textutil::base_name;
use crate::textutil::base_name_of;
use crate::textutil::str_views;
use crate::timestamps::TS_BOUND;
use crate::window::ObservationWindow;

verus! {

/// The raw history of one candidate path: its add-history and its
/// delete-history, both most-recent-first, as normalized lines.
pub struct PathHistory {
    pub path: String,
    pub added: Vec<String>,
    pub deleted: Vec<String>,
}

/// The mathematical shadow of a `PathHistory`.
pub struct PathHistoryView {
    pub path: Seq<char>,
    pub added: Seq<Seq<char>>,
    pub deleted: Seq<Seq<char>>,
}

impl View for PathHistory {
    type V = PathHistoryView;

    open spec fn view(&self) -> PathHistoryView {
        PathHistoryView { path: self.path@, added: str_views(self.added@), deleted: str_views(self.deleted@) }
    }
}

/// The views of a run of candidate histories.
pub open spec fn histories_of(s: Seq<PathHistory>) -> Seq<PathHistoryView> {
    s.map_values(|c: PathHistory| c@)
}

/// The timestamp of an optional event.
pub open spec fn opt_event_ts(d: Option<EventView>) -> Option<i64> {
    match d {
        Some(e) => Some(e.timestamp_secs),
        None => None,
    }
}

/// The commit of an optional event.
pub open spec fn opt_event_commit(d: Option<EventView>) -> Option<Seq<char>> {
    match d {
        Some(e) => Some(e.commit),
        None => None,
    }
}

/// The record reported for one surviving candidate.
pub open spec fn entry_of(
    c: PathHistoryView,
    cr: EventView,
    del: Option<EventView>,
    now: i64,
) -> LifetimeView {
    LifetimeView {
        name: base_name_of(c.path),
        commit_added: cr.commit,
        commit_removed: opt_event_commit(del),
        age_minutes: age_minutes_of(cr.timestamp_secs, opt_event_ts(del), now),
    }
}

/// What one candidate contributes to the report: an error when its
/// creation cannot be resolved, otherwise its record if it survives the
/// filter and nothing if it is excluded.
pub open spec fn survivor_of(c: PathHistoryView, now: i64, w: ObservationWindow) -> Result<
    Option<LifetimeView>,
    LifetimeError,
> {
    match resolve_created_spec(c.added) {
        Err(e) => Err(e),
        Ok(cr) => {
            let del = resolve_deleted_spec(c.deleted);
            if survives(cr.timestamp_secs, opt_event_ts(del), now, w) {
                Ok(Some(entry_of(c, cr, del, now)))
            } else {
                Ok(None)
            }
        },
    }
}

/// The surviving records of a run of candidates, in candidate order, or
/// the first resolution error.
pub open spec fn survivors_of(
    cs: Seq<PathHistoryView>,
    now: i64,
    w: ObservationWindow,
) -> Result<Seq<LifetimeView>, LifetimeError>
    decreases cs.len(),
{
    if cs.len() == 0 {
        Ok(Seq::<LifetimeView>::empty())
    } else {
        match survivor_of(cs[0], now, w) {
            Err(e) => Err(e),
            Ok(opt) => match survivors_of(cs.drop_first(), now, w) {
                Err(e) => Err(e),
                Ok(rest) => Ok(
                    match opt {
                        Some(v) => seq![v] + rest,
                        None => rest,
                    },
                ),
            },
        }
    }
}

/// The finished report: the surviving entries sorted by age descending,
/// and the mean age in whole minutes.
#[derive(Debug)]
pub struct Report {
    pub entries: Vec<ChangesetLifetime>,
    pub mean_minutes: i64,
}

/// Build the report for a run of candidate paths: resolve each, filter by
/// the window, sort the survivors oldest-lived first, and compute the mean
/// age. The entries are exactly the surviving records (entries of equal
/// age in unspecified order), and the first candidate whose creation
/// cannot be resolved is the run's error.
pub fn build_report(candidates: &Vec<PathHistory>, w: &ObservationWindow, now: i64) -> (r: Result<
    Report,
    LifetimeError,
>)
    requires
        w.wf(),
        -TS_BOUND < now < TS_BOUND,
    ensures
        ({
            let sv = survivors_of(histories_of(candidates@), now, *w);
            &&& (r is Ok <==> sv is Ok)
            &&& (r matches Err(a) ==> sv == Err::<Seq<LifetimeView>, LifetimeError>(a))
            &&& (r matches Ok(rep) ==> {
                let surv = sv->Ok_0;
                &&& views_of(rep.entries@).to_multiset() == surv.to_multiset()
                &&& sorted_desc(views_of(rep.entries@))
                &&& all_wf(views_of(rep.entries@))
                &&& rep.entries@.len() == surv.len()
                &&& rep.mean_minutes == mean_minutes_of(surv)
            })
        }),
{
    broadcast use vstd::seq_lib::group_to_multiset_ensures;

    let ghost full = histories_of(candidates@);
    let mut out: Vec<ChangesetLifetime> = Vec::new();
    let mut i: usize = 0;
    proof {
        assert(full.skip(0) =~= full);
        assert(views_of(out@) =~= Seq::<LifetimeView>::empty());
        match survivors_of(full, now, *w) {
            Ok(rest) => {
                assert(views_of(out@) + rest =~= rest);
            },
            Err(_) => {},
        }
    }
    while i < candidates.len()
        invariant
            w.wf(),
            -TS_BOUND < now < TS_BOUND,
            full == histories_of(candidates@),
            candidates@.len() == full.len(),
            0 <= i <= full.len(),
            all_wf(views_of(out@)),
            survivors_of(full, now, *w) == match survivors_of(full.skip(i as int), now, *w) {
                Err(e) => Err(e),
                Ok(rest) => Ok(views_of(out@) + rest),
            },
        decreases full.len() - i,
    {
        let c = &candidates[i];
        let ghost suf = full.skip(i as int);
        proof {
            assert(suf[0] == full[i as int]);
            assert(full[i as int] == c@);
            assert(suf.drop_first() =~= full.skip(i + 1));
        }
        match resolve_created(&c.added) {
            Err(e) => {
                proof {
                    assert(survivor_of(suf[0], now, *w) == Err::<Option<LifetimeView>, LifetimeError>(e));
                    assert(survivors_of(suf, now, *w) == Err::<Seq<LifetimeView>, LifetimeError>(e));
                }
                return Err(e);
            },
            Ok(cr) => {
                let del = resolve_deleted(&c.deleted);
                let del_ts: Option<i64> = match &del {
                    Some(d) => Some(d.timestamp_secs),
                    None => None,
                };
                let ghost dspec = resolve_deleted_spec(c@.deleted);
                proof {
                    assert(del_ts == opt_event_ts(dspec));
                }
                match evaluate_candidate(cr.timestamp_secs, del_ts, now, w) {
                    None => {
                        proof {
                            assert(survivor_of(suf[0], now, *w) == Ok::<
                                Option<LifetimeView>,
                                LifetimeError,
                            >(None));
                        }
                    },
                    Some(m) => {
                        let name = base_name(c.path.as_str());
                        let commit_removed: Option<String> = match del {
                            Some(d) => Some(d.commit),
                            None => None,
                        };
                        let entry = ChangesetLifetime {
                            name,
                            commit_added: cr.commit,
                            commit_removed,
                            age_minutes: m,
                        };
                        let ghost prevout = out@;
                        proof {
                            assert(entry@ == entry_of(c@, cr@, dspec, now));
                            assert(survivor_of(suf[0], now, *w) == Ok::<
                                Option<LifetimeView>,
                                LifetimeError,
                            >(Some(entry@)));
                        }
                        out.push(entry);
                        proof {
                            assert(out@ =~= prevout.push(entry));
                            assert forall|t: int| 0 <= t < out@.len() implies wf_lifetime(
                                #[trigger] views_of(out@)[t],
                            ) by {
                                if t < prevout.len() {
                                    assert(out@[t] == prevout[t]);
                                    assert(wf_lifetime(views_of(prevout)[t]));
                                } else {
                                    assert(out@[t] == entry);
                                }
                            }
                            assert(views_of(out@) =~= views_of(prevout).push(entry@));
                            match survivors_of(full.skip(i + 1), now, *w) {
                                Ok(rest) => {
                                    assert(views_of(prevout) + (seq![entry@] + rest) =~= views_of(
                                        out@,
                                    ) + rest);
                                },
                                Err(_) => {},
                            }
                        }
                    },
                }
            },
        }
        i += 1;
    }
    proof {
        assert(full.skip(full.len() as int) =~= Seq::<PathHistoryView>::empty());
        assert(survivors_of(full.skip(full.len() as int), now, *w) == Ok::<
            Seq<LifetimeView>,
            LifetimeError,
        >(Seq::<LifetimeView>::empty()));
        match survivors_of(full, now, *w) {
            Ok(surv) => {
                assert(views_of(out@) + Seq::<LifetimeView>::empty() =~= views_of(out@));
                assert(surv == views_of(out@));
            },
            Err(_) => {},
        }
    }
    let ghost surv = survivors_of(full, now, *w)->Ok_0;
    let sorted = sort_by_age_desc(out);
    let mean = mean_minutes(&sorted);
    proof {
        lemma_sum_permutation(views_of(sorted@), surv);
        assert(views_of(sorted@).to_multiset().len() == views_of(sorted@).len());
        assert(surv.to_multiset().len() == surv.len());
    }
    Ok(Report { entries: sorted, mean_minutes: mean })
}

/// Every entry that survives meets the minimum-age threshold: its age is
/// a positive count of whole minutes, and those minutes amount to at
/// least the window's minimum age in seconds.
pub proof fn lemma_report_ages_meet_threshold(
    cs: Seq<PathHistoryView>,
    now: i64,
    w: ObservationWindow,
    s: Seq<LifetimeView>,
)
    requires
        w.wf(),
        survivors_of(cs, now, w) == Ok::<Seq<LifetimeView>, LifetimeError>(s),
    ensures
        forall|i: int|
            0 <= i < s.len() ==> (#[trigger] s[i]).age_minutes >= 1 && 60 * s[i].age_minutes
                >= w.min_age_secs,
    decreases cs.len(),
{
    if cs.len() > 0 {
        match survivor_of(cs[0], now, w) {
            Err(_) => {},
            Ok(opt) => {
                match survivors_of(cs.drop_first(), now, w) {
                    Err(_) => {},
                    Ok(rest) => {
                        lemma_report_ages_meet_threshold(cs.drop_first(), now, w, rest);
                        match opt {
                            Some(v) => {
                                assert(s == seq![v] + rest);
                                assert(s[0] == v);
                                assert forall|i: int| 0 < i < s.len() implies (
                                #[trigger] s[i]).age_minutes >= 1 && 60 * s[i].age_minutes
                                    >= w.min_age_secs by {
                                    assert(s[i] == rest[i - 1]);
                                }
                            },
                            None => {},
                        }
                    },
                }
            },
        }
    }
}

/// Every entry of the report arises from some candidate, through that
/// candidate's own resolution and the window filter: no record is
/// invented and none is kept that the filter rejected.
pub proof fn lemma_report_provenance(
    cs: Seq<PathHistoryView>,
    now: i64,
    w: ObservationWindow,
    s: Seq<LifetimeView>,
)
    requires
        survivors_of(cs, now, w) == Ok::<Seq<LifetimeView>, LifetimeError>(s),
    ensures
        forall|i: int|
            0 <= i < s.len() ==> exists|j: int|
                0 <= j < cs.len() && survivor_of(#[trigger] cs[j], now, w) == Ok::<
                    Option<LifetimeView>,
                    LifetimeError,
                >(Some(#[trigger] s[i])),
    decreases cs.len(),
{
    if cs.len() > 0 {
        match survivor_of(cs[0], now, w) {
            Err(_) => {},
            Ok(opt) => {
                match survivors_of(cs.drop_first(), now, w) {
                    Err(_) => {},
                    Ok(rest) => {
                        lemma_report_provenance(cs.drop_first(), now, w, rest);
                        assert forall|i: int| 0 <= i < s.len() implies exists|j: int|
                            0 <= j < cs.len() && survivor_of(#[trigger] cs[j], now, w) == Ok::<
                                Option<LifetimeView>,
                                LifetimeError,
                            >(Some(#[trigger] s[i])) by {
                            match opt {
                                Some(v) => {
                                    assert(s == seq![v] + rest);
                                    if i == 0 {
                                        assert(s[0] == v);
                                        assert(survivor_of(cs[0], now, w) == Ok::<
                                            Option<LifetimeView>,
                                            LifetimeError,
                                        >(Some(s[0])));
                                    } else {
                                        assert(s[i] == rest[i - 1]);
                                        let j = choose|j: int|
                                            0 <= j < cs.drop_first().len() && survivor_of(
                                                cs.drop_first()[j],
                                                now,
                                                w,
                                            ) == Ok::<Option<LifetimeView>, LifetimeError>(
                                                Some(rest[i - 1]),
                                            );
                                        assert(cs.drop_first()[j] == cs[j + 1]);
                                        assert(survivor_of(cs[j + 1], now, w) == Ok::<
                                            Option<LifetimeView>,
                                            LifetimeError,
                                        >(Some(s[i])));
                                    }
                                },
                                None => {
                                    let j = choose|j: int|
                                        0 <= j < cs.drop_first().len() && survivor_of(
                                            cs.drop_first()[j],
                                            now,
                                            w,
                                        ) == Ok::<Option<LifetimeView>, LifetimeError>(
                                            Some(rest[i]),
                                        );
                                    assert(cs.drop_first()[j] == cs[j + 1]);
                                    assert(survivor_of(cs[j + 1], now, w) == Ok::<
                                        Option<LifetimeView>,
                                        LifetimeError,
                                    >(Some(s[i])));
                                },
                            }
                        }
                    },
                }
            },
        }
    }
}

/// A surviving record's candidate was created no later than the window's
/// end, was not removed before the window's start, and carries exactly
/// the resolved, minute-truncated age.
pub proof fn lemma_survivor_within_window(
    c: PathHistoryView,
    now: i64,
    w: ObservationWindow,
    v: LifetimeView,
)
    requires
        survivor_of(c, now, w) == Ok::<Option<LifetimeView>, LifetimeError>(Some(v)),
    ensures
        resolve_created_spec(c.added) matches Ok(cr) && cr.timestamp_secs <= w.end_secs && (
        resolve_deleted_spec(c.deleted) matches Some(d) ==> d.timestamp_secs >= w.start_secs) && v
            == entry_of(c, cr, resolve_deleted_spec(c.deleted), now),
{
}

} // verus!

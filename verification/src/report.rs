//! The report records and the filtering policy: which resolved lifetimes
//! survive the observation window, their minute-truncated ages, the
//! descending sort, and the mean age.

use vstd::prelude::*;
use vstd::multiset::Multiset;

use crate::timestamps::MAX_AGE_MINUTES;
use crate::timestamps::TS_BOUND;
use crate::timestamps::minutes_of;
use crate::window::ObservationWindow;

verus! {

/// One surviving changeset: its base file name, the commit that introduced
/// it, the commit that removed it (absent while the file is still present),
/// and its minute-truncated age.
#[derive(Debug)]
pub struct ChangesetLifetime {
    pub name: String,
    pub commit_added: String,
    pub commit_removed: Option<String>,
    pub age_minutes: i64,
}

/// The mathematical shadow of a `ChangesetLifetime`.
pub struct LifetimeView {
    pub name: Seq<char>,
    pub commit_added: Seq<char>,
    pub commit_removed: Option<Seq<char>>,
    pub age_minutes: int,
}

impl View for ChangesetLifetime {
    type V = LifetimeView;

    open spec fn view(&self) -> LifetimeView {
        LifetimeView {
            name: self.name@,
            commit_added: self.commit_added@,
            commit_removed: match self.commit_removed {
                Some(ref h) => Some(h@),
                None => None,
            },
            age_minutes: self.age_minutes as int,
        }
    }
}

/// Every reported age is at least one whole minute and is derived from two
/// bounded timestamps.
pub open spec fn wf_lifetime(v: LifetimeView) -> bool {
    1 <= v.age_minutes <= MAX_AGE_MINUTES
}

/// The views of a run of records.
pub open spec fn views_of(s: Seq<ChangesetLifetime>) -> Seq<LifetimeView> {
    s.map_values(|e: ChangesetLifetime| e@)
}

/// The age of a candidate in seconds, before truncation: removal time minus
/// creation time, or the current instant minus creation time while the file
/// is still present.
pub open spec fn raw_age_secs(created: i64, removed: Option<i64>, now: i64) -> int {
    match removed {
        Some(d) => d - created,
        None => now - created,
    }
}

/// The age of a candidate in whole minutes.
pub open spec fn age_minutes_of(created: i64, removed: Option<i64>, now: i64) -> int {
    minutes_of(raw_age_secs(created, removed, now))
}

/// The filtering policy: a candidate survives when its creation is not
/// after the window's end, its removal (if any) is not before the window's
/// start, and its minute-truncated age is neither zero nor below the
/// minimum-age threshold.
pub open spec fn survives(
    created: i64,
    removed: Option<i64>,
    now: i64,
    w: ObservationWindow,
) -> bool {
    let age = age_minutes_of(created, removed, now);
    &&& created <= w.end_secs
    &&& match removed {
        Some(d) => d >= w.start_secs,
        None => true,
    }
    &&& age != 0
    &&& 60 * age >= w.min_age_secs
}

/// Apply the filtering policy to one candidate: the minute-truncated age if
/// it survives, nothing if it is excluded.
pub fn evaluate_candidate(
    created: i64,
    removed: Option<i64>,
    now: i64,
    w: &ObservationWindow,
) -> (r: Option<i64>)
    requires
        w.wf(),
        -TS_BOUND < created < TS_BOUND,
        removed matches Some(d) ==> -TS_BOUND < d < TS_BOUND,
        -TS_BOUND < now < TS_BOUND,
    ensures
        r is Some <==> survives(created, removed, now, *w),
        r matches Some(m) ==> m == age_minutes_of(created, removed, now) && 1 <= m
            <= MAX_AGE_MINUTES,
{
    if created > w.end_secs {
        return None;
    }
    if let Some(d) = removed {
        if d < w.start_secs {
            return None;
        }
    }
    let raw: i64 = match removed {
        Some(d) => d - created,
        None => now - created,
    };
    if raw < 60 {
        // A non-positive or sub-minute span truncates to an age of zero or
        // a negative age; either is excluded under a non-negative threshold.
        return None;
    }
    let m: i64 = raw / 60;
    if 60 * m < w.min_age_secs {
        return None;
    }
    Some(m)
}

/// Ages never increase along the report: every entry is at least as old as
/// every entry after it.
pub open spec fn sorted_desc(s: Seq<LifetimeView>) -> bool {
    forall|i: int, j: int| 0 <= i <= j < s.len() ==> s[i].age_minutes >= s[j].age_minutes
}

/// Every record of a run is well formed.
pub open spec fn all_wf(s: Seq<LifetimeView>) -> bool {
    forall|i: int| 0 <= i < s.len() ==> wf_lifetime(#[trigger] s[i])
}

/// The sum of the recorded ages, in whole minutes.
pub open spec fn sum_age_minutes(s: Seq<LifetimeView>) -> int
    decreases s.len(),
{
    if s.len() == 0 {
        0
    } else {
        sum_age_minutes(s.drop_last()) + s.last().age_minutes
    }
}

/// The arithmetic mean age in whole minutes, rounded down; zero when there
/// are no entries, by policy rather than by accident.
pub open spec fn mean_minutes_of(s: Seq<LifetimeView>) -> int {
    if s.len() == 0 {
        0
    } else {
        sum_age_minutes(s) / s.len() as int
    }
}

/// Dropping the entry at `i` drops exactly its age from the sum.
proof fn lemma_sum_remove(s: Seq<LifetimeView>, i: int)
    requires
        0 <= i < s.len(),
    ensures
        sum_age_minutes(s) == sum_age_minutes(s.remove(i)) + s[i].age_minutes,
    decreases s.len(),
{
    if i == s.len() - 1 {
        assert(s.remove(i) =~= s.drop_last());
    } else {
        assert(s.remove(i).drop_last() =~= s.drop_last().remove(i));
        assert(s.remove(i).last() == s.last());
        lemma_sum_remove(s.drop_last(), i);
    }
}

/// The sum of the ages does not depend on the order of the entries.
pub proof fn lemma_sum_permutation(a: Seq<LifetimeView>, b: Seq<LifetimeView>)
    requires
        a.to_multiset() == b.to_multiset(),
    ensures
        sum_age_minutes(a) == sum_age_minutes(b),
    decreases a.len(),
{
    broadcast use vstd::seq_lib::group_to_multiset_ensures;

    if a.len() == 0 {
        assert(a.to_multiset().len() == 0);
        assert(b.to_multiset().len() == b.len());
    } else {
        let x = a.last();
        assert(a.to_multiset().count(x) > 0) by {
            assert(a.contains(x));
        }
        assert(b.contains(x));
        let j = choose|j: int| 0 <= j < b.len() && b[j] == x;
        assert(a.drop_last() =~= a.remove(a.len() - 1));
        assert(a.drop_last().to_multiset() == a.to_multiset().remove(x));
        assert(b.remove(j).to_multiset() == b.to_multiset().remove(x));
        lemma_sum_permutation(a.drop_last(), b.remove(j));
        lemma_sum_remove(b, j);
    }
}

/// Place one record into a run that is already sorted by age descending,
/// keeping it sorted.
fn insert_sorted(out: &mut Vec<ChangesetLifetime>, e: ChangesetLifetime)
    requires
        sorted_desc(views_of(old(out)@)),
        all_wf(views_of(old(out)@)),
        wf_lifetime(e@),
    ensures
        sorted_desc(views_of(final(out)@)),
        all_wf(views_of(final(out)@)),
        views_of(final(out)@).to_multiset() == views_of(old(out)@).to_multiset().insert(e@),
        final(out)@.len() == old(out)@.len() + 1,
{
    broadcast use vstd::seq_lib::group_to_multiset_ensures;

    let mut k: usize = 0;
    while k < out.len() && out[k].age_minutes >= e.age_minutes
        invariant
            0 <= k <= out.len(),
            forall|i: int| 0 <= i < k ==> views_of(out@)[i].age_minutes >= e@.age_minutes,
            out == old(out),
        decreases out.len() - k,
    {
        k += 1;
    }
    let ghost pre = out@;
    let ghost ki = k as int;
    out.insert(k, e);
    proof {
        pre.insert_ensures(ki, e);
        assert(out@ =~= pre.insert(ki, e));
        assert(out@[ki] == e);
        assert forall|t: int| 0 <= t < ki implies #[trigger] views_of(out@)[t] == views_of(
            pre,
        )[t] by {
            assert(out@[t] == pre[t]);
        }
        assert(views_of(out@)[ki] == e@);
        assert forall|t: int| ki < t < out@.len() implies #[trigger] views_of(out@)[t]
            == views_of(pre)[t - 1] by {
            assert(out@[t] == pre[t - 1]);
        }
        assert(views_of(out@) =~= views_of(pre).insert(ki, e@)) by {
            views_of(pre).insert_ensures(ki, e@);
        }
        assert(views_of(out@).remove(ki) =~= views_of(pre));
        assert(views_of(out@)[ki] == e@);
        assert(views_of(out@).contains(e@));
        assert(views_of(out@).to_multiset().count(e@) > 0);
        assert(views_of(out@).to_multiset().remove(e@) == views_of(pre).to_multiset());
        assert(views_of(out@).to_multiset() =~= views_of(pre).to_multiset().insert(e@));
        assert forall|i: int| 0 <= i < out@.len() implies wf_lifetime(
            #[trigger] views_of(out@)[i],
        ) by {
            if i < ki {
                assert(wf_lifetime(views_of(pre)[i]));
            } else if i > ki {
                assert(wf_lifetime(views_of(pre)[i - 1]));
            }
        }
        assert forall|i: int, j: int|
            0 <= i <= j < out@.len() implies views_of(out@)[i].age_minutes >= views_of(
            out@,
        )[j].age_minutes by {
            if j < ki {
                assert(views_of(pre)[i].age_minutes >= views_of(pre)[j].age_minutes);
            } else if j == ki {
                if i < ki {
                    assert(views_of(pre)[i].age_minutes >= e@.age_minutes);
                }
            } else {
                if i < ki {
                    assert(views_of(pre)[i].age_minutes >= e@.age_minutes);
                    assert(views_of(pre)[ki].age_minutes < e@.age_minutes);
                    assert(views_of(pre)[ki].age_minutes >= views_of(pre)[j - 1].age_minutes);
                } else if i == ki {
                    assert(views_of(pre)[ki].age_minutes < e@.age_minutes);
                    assert(views_of(pre)[ki].age_minutes >= views_of(pre)[j - 1].age_minutes);
                } else {
                    assert(views_of(pre)[i - 1].age_minutes >= views_of(pre)[j - 1].age_minutes);
                }
            }
        }
    }
}

/// The arithmetic mean age of the records in whole minutes, rounded down;
/// zero when there are no records.
pub fn mean_minutes(entries: &Vec<ChangesetLifetime>) -> (r: i64)
    requires
        all_wf(views_of(entries@)),
    ensures
        r == mean_minutes_of(views_of(entries@)),
        0 <= r <= MAX_AGE_MINUTES,
{
    let n = entries.len();
    if n == 0 {
        return 0;
    }
    let ghost vs = views_of(entries@);
    let mut sum: i128 = 0;
    let mut i: usize = 0;
    while i < n
        invariant
            n == entries@.len(),
            vs == views_of(entries@),
            all_wf(vs),
            0 < n,
            0 <= i <= n,
            sum == sum_age_minutes(vs.take(i as int)),
            0 <= sum <= (i as int) * (MAX_AGE_MINUTES as int),
        decreases n - i,
    {
        let a: i64 = entries[i].age_minutes;
        proof {
            assert(vs.take(i + 1).drop_last() =~= vs.take(i as int));
            assert(vs.take(i + 1).last() == vs[i as int]);
            assert(wf_lifetime(vs[i as int]));
            assert((i as int) * (MAX_AGE_MINUTES as int) + MAX_AGE_MINUTES == (i + 1)
                * (MAX_AGE_MINUTES as int)) by (nonlinear_arith);
            assert((i + 1) * (MAX_AGE_MINUTES as int) <= 0x1_0000_0000_0000_0000
                * (MAX_AGE_MINUTES as int)) by (nonlinear_arith)
                requires
                    0 <= i < 0x1_0000_0000_0000_0000,
            ;
        }
        sum = sum + a as i128;
        i += 1;
    }
    proof {
        assert(vs.take(n as int) =~= vs);
        vstd::arithmetic::div_mod::lemma_div_is_ordered(0, sum as int, n as int);
        vstd::arithmetic::div_mod::lemma_div_of0(n as int);
        assert(sum <= (n as int) * (MAX_AGE_MINUTES as int));
        vstd::arithmetic::div_mod::lemma_div_is_ordered(
            sum as int,
            (n as int) * (MAX_AGE_MINUTES as int),
            n as int,
        );
        vstd::arithmetic::div_mod::lemma_div_multiples_vanish(MAX_AGE_MINUTES as int, n as int);
    }
    let m: i128 = sum / (n as i128);
    m as i64
}

/// Sort the records by age, oldest-lived first. The result holds exactly
/// the records that went in; entries of equal age may come out in any
/// order.
pub fn sort_by_age_desc(v: Vec<ChangesetLifetime>) -> (r: Vec<ChangesetLifetime>)
    requires
        all_wf(views_of(v@)),
    ensures
        sorted_desc(views_of(r@)),
        all_wf(views_of(r@)),
        views_of(r@).to_multiset() == views_of(v@).to_multiset(),
        r@.len() == v@.len(),
    decreases v@.len(),
{
    broadcast use vstd::seq_lib::group_to_multiset_ensures;

    let mut rest = v;
    let mut out: Vec<ChangesetLifetime> = Vec::new();
    let ghost orig = rest@;
    loop
        invariant
            orig == v@,
            all_wf(views_of(rest@)),
            sorted_desc(views_of(out@)),
            all_wf(views_of(out@)),
            views_of(orig).to_multiset() == views_of(out@).to_multiset().add(
                views_of(rest@).to_multiset(),
            ),
            out@.len() + rest@.len() == orig.len(),
        decreases rest@.len(),
    {
        let ghost pre = rest@;
        match rest.pop() {
            None => {
                proof {
                    broadcast use vstd::seq_lib::group_to_multiset_ensures;

                    assert forall|x: LifetimeView| views_of(rest@).to_multiset().count(x) == 0 by {
                        assert(!views_of(rest@).contains(x));
                    }
                    assert(views_of(rest@).to_multiset() =~= Multiset::empty());
                    assert(views_of(orig).to_multiset() =~= views_of(out@).to_multiset());
                }
                return out;
            },
            Some(e) => {
                proof {
                    broadcast use vstd::seq_lib::group_to_multiset_ensures;

                    assert(pre.drop_last() =~= rest@);
                    assert(pre =~= rest@.push(e));
                    assert(views_of(pre) =~= views_of(rest@).push(e@));
                    assert(views_of(rest@).push(e@).to_multiset() == views_of(
                        rest@,
                    ).to_multiset().insert(e@));
                    assert(views_of(pre).to_multiset() == views_of(rest@).to_multiset().insert(e@));
                    assert(e@ == views_of(pre)[pre.len() - 1]);
                    assert(wf_lifetime(e@));
                    assert forall|i: int| 0 <= i < rest@.len() implies wf_lifetime(
                        #[trigger] views_of(rest@)[i],
                    ) by {
                        assert(rest@[i] == pre[i]);
                        assert(wf_lifetime(views_of(pre)[i]));
                    }
                }
                insert_sorted(&mut out, e);
                proof {
                    assert(views_of(orig).to_multiset() =~= views_of(out@).to_multiset().add(
                        views_of(rest@).to_multiset(),
                    ));
                }
            },
        }
    }
}

} // verus!

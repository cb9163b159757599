use vstd::prelude::*;
use super::history::{prefix_take, History};
use crate::ids::{CommitID, ReplicaID, ViewNumber};
use crate::log::LogEntry;
use crate::replica::model::{
    best, highest_commit, is_best, is_highest_commit, is_latest_view, latest_view, ranks_at_least,
    reach,
};
use crate::replica::parts::{DoViewChangeView, ResponseView};

verus! {

/// One of the reports ranks highest.
proof fn some_best<Op>(reports: Map<ReplicaID, DoViewChangeView<Op>>) -> (id: ReplicaID)
    requires
        reports.dom().finite(),
        reports.dom().len() > 0,
    ensures
        is_best(reports, id),
    decreases reports.dom().len(),
{
    let any = reports.dom().choose();
    assert(reports.contains_key(any));
    let rest = reports.remove(any);
    assert(rest.dom() =~= reports.dom().remove(any));
    if rest.dom().len() == 0 {
        assert forall|other: ReplicaID| #[trigger] reports.contains_key(other) implies ranks_at_least(
            reports,
            any,
            other,
        ) by {
            if other != any {
                assert(rest.dom().contains(other));
            }
        }
        any
    } else {
        let next = some_best(rest);
        let id = if ranks_at_least(reports, any, next) {
            any
        } else {
            next
        };
        assert forall|other: ReplicaID| #[trigger] reports.contains_key(other) implies ranks_at_least(
            reports,
            id,
            other,
        ) by {
            if other != any {
                assert(rest.contains_key(other));
                assert(ranks_at_least(rest, next, other));
            }
        }
        id
    }
}

pub proof fn best_is_best<Op>(reports: Map<ReplicaID, DoViewChangeView<Op>>)
    requires
        reports.dom().finite(),
        reports.dom().len() > 0,
    ensures
        is_best(reports, best(reports)),
{
    let id = some_best(reports);
}

/// One of the commit numbers reported is the highest.
proof fn some_highest<Op>(reports: Map<ReplicaID, DoViewChangeView<Op>>) -> (commit: CommitID)
    requires
        reports.dom().finite(),
        reports.dom().len() > 0,
    ensures
        is_highest_commit(reports, commit),
    decreases reports.dom().len(),
{
    let any = reports.dom().choose();
    assert(reports.contains_key(any));
    let rest = reports.remove(any);
    assert(rest.dom() =~= reports.dom().remove(any));
    if rest.dom().len() == 0 {
        assert forall|other: ReplicaID| #[trigger] reports.contains_key(other) implies reports[other].commit_number
            <= reports[any].commit_number by {
            if other != any {
                assert(rest.dom().contains(other));
            }
        }
        reports[any].commit_number
    } else {
        let next = some_highest(rest);
        let from = choose|id: ReplicaID| #[trigger]
            rest.contains_key(id) && rest[id].commit_number == next;
        assert(reports.contains_key(from));
        assert forall|other: ReplicaID| #[trigger] reports.contains_key(other) && other != any implies reports[other].commit_number
            <= next by {
            assert(rest.contains_key(other));
        }
        if reports[any].commit_number >= next {
            reports[any].commit_number
        } else {
            next
        }
    }
}

pub proof fn highest_is_highest<Op>(reports: Map<ReplicaID, DoViewChangeView<Op>>)
    requires
        reports.dom().finite(),
        reports.dom().len() > 0,
    ensures
        is_highest_commit(reports, highest_commit(reports)),
{
    let commit = some_highest(reports);
}

/// One of the views answered from is the latest.
proof fn some_latest<Op>(responses: Map<ReplicaID, ResponseView<Op>>) -> (latest: ViewNumber)
    requires
        responses.dom().finite(),
        responses.dom().len() > 0,
    ensures
        is_latest_view(responses, latest),
    decreases responses.dom().len(),
{
    let any = responses.dom().choose();
    assert(responses.contains_key(any));
    let rest = responses.remove(any);
    assert(rest.dom() =~= responses.dom().remove(any));
    if rest.dom().len() == 0 {
        assert forall|other: ReplicaID| #[trigger]
            responses.contains_key(other) implies responses[other].view_number
            <= responses[any].view_number by {
            if other != any {
                assert(rest.dom().contains(other));
            }
        }
        responses[any].view_number
    } else {
        let next = some_latest(rest);
        let from = choose|id: ReplicaID| #[trigger]
            rest.contains_key(id) && rest[id].view_number == next;
        assert(responses.contains_key(from));
        assert forall|other: ReplicaID| #[trigger]
            responses.contains_key(other) && other != any implies responses[other].view_number
            <= next by {
            assert(rest.contains_key(other));
        }
        if responses[any].view_number >= next {
            responses[any].view_number
        } else {
            next
        }
    }
}

pub proof fn latest_is_latest<Op>(responses: Map<ReplicaID, ResponseView<Op>>, q: ReplicaID)
    requires
        responses.dom().finite(),
        responses.contains_key(q),
    ensures
        responses[q].view_number <= latest_view(responses),
{
    assert(responses.dom().len() > 0) by {
        assert(responses.dom().contains(q));
        vstd::set_lib::lemma_set_empty_equivalency_len(responses.dom());
    }
    let latest = some_latest(responses);
    assert(is_latest_view(responses, latest_view(responses)));
}

/// The replicas whose mark is at least `mark`.
pub open spec fn reaching(marks: Seq<int>, mark: int) -> Set<ReplicaID> {
    Set::new(|q: ReplicaID| q < marks.len() && marks[q as int] >= mark)
}

/// As many replicas as the marks say reach a mark.
pub proof fn reaching_counts(marks: Seq<int>, mark: int)
    requires
        marks.len() <= usize::MAX,
    ensures
        reaching(marks, mark).finite(),
        reaching(marks, mark).len() == reach(marks, mark),
    decreases marks.len(),
{
    reveal(Seq::filter);
    if marks.len() == 0 {
        assert(reaching(marks, mark) =~= Set::empty());
    } else {
        let before = marks.drop_last();
        let last = (marks.len() - 1) as ReplicaID;
        reaching_counts(before, mark);
        if marks.last() >= mark {
            assert(reaching(marks, mark) =~= reaching(before, mark).insert(last));
        } else {
            assert(reaching(marks, mark) =~= reaching(before, mark));
        }
    }
}

/// Marks that only rise reach a mark no less.
pub proof fn reach_grows(marks: Seq<int>, later: Seq<int>, mark: int)
    requires
        marks.len() == later.len() <= usize::MAX,
        forall|q: int| 0 <= q < marks.len() ==> #[trigger] marks[q] <= later[q],
    ensures
        reach(marks, mark) <= reach(later, mark),
{
    reaching_counts(marks, mark);
    reaching_counts(later, mark);
    assert(reaching(marks, mark).subset_of(reaching(later, mark))) by {
        assert forall|q: ReplicaID| reaching(marks, mark).contains(q) implies reaching(
            later,
            mark,
        ).contains(q) by {
            assert(marks[q as int] <= later[q as int]);
        }
    }
    vstd::set_lib::lemma_len_subset(reaching(marks, mark), reaching(later, mark));
}

/// The log that ranks highest among the reports of a quorum for view `v` has
/// everything that was or can be chosen before.
pub proof fn best_is_complete<Op>(
    h: History<Op>,
    v: ViewNumber,
    reports: Map<ReplicaID, DoViewChangeView<Op>>,
) -> (log: Seq<LogEntry<Op>>)
    requires
        h.wf(),
        reports.dom().finite(),
        reports.dom().len() >= h.config.quorum(),
        forall|q: ReplicaID| #[trigger]
            reports.contains_key(q) ==> h.report_ok(q, v, reports[q]),
    ensures
        reports.contains_key(best(reports)),
        h.report_of(best(reports), v, reports[best(reports)], log),
        h.complete(log, v as int),
{
    best_is_best(reports);
    let b = best(reports);
    assert(h.report_ok(b, v, reports[b]));
    let log = choose|log: Seq<LogEntry<Op>>| #[trigger] h.report_of(b, v, reports[b], log);
    let lv = reports[b].last_normal_view;
    let quorum = reports.dom();
    assert(h.is_quorum(quorum)) by {
        assert forall|id: ReplicaID| quorum.contains(id) implies id < h.config.size() by {
            assert(reports.contains_key(id));
        }
    }
    reveal(History::complete);
    assert forall|u: ViewNumber, n: nat| u < v && n >= 1 implies #[trigger] h.settles(log, u, n) by {
        if !h.blocked(u, n) {
            assert(!h.left_without(quorum, u, n));
            let q = choose|q: ReplicaID| #[trigger]
                quorum.contains(q) && !(h.at[q as int] > u && h.acc(q, u) < n);
            assert(reports.contains_key(q));
            assert(h.report_ok(q, v, reports[q]));
            let other = choose|other: Seq<LogEntry<Op>>| #[trigger]
                h.report_of(q, v, reports[q], other);
            let olv = reports[q].last_normal_view;
            assert(h.acc(q, u) >= n);
            assert(u <= olv);
            assert(ranks_at_least(reports, b, q));
            assert(olv <= lv);
            if u < lv {
                assert(h.settles(log, u, n));
            } else {
                assert(u == lv && olv == lv);
                if h.complete(log, lv + 1) {
                    assert(h.settles(log, u, n));
                } else {
                    // What `q` reported holds the entries, and is no longer.
                    assert(other.len() >= n) by {
                        if h.complete(other, olv + 1) {
                            assert(h.settles(other, u, n));
                        }
                    }
                    assert(log.len() >= n);
                    prefix_take(log, h.log_of(u), n as int);
                    assert(h.has(log, u, n));
                }
            }
        }
    }
    log
}

} // verus!

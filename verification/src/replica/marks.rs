use vstd::prelude::*;
use super::model::{is_quorum_mark, is_reached, op_marks, quorum_mark, reach, round_marks};
use crate::ids::OpNumber;

verus! {

proof fn lemma_quorum_mark(marks: Seq<int>, quorum: int, mark: int)
    requires
        is_quorum_mark(marks, quorum, mark),
    ensures
        quorum_mark(marks, quorum) == mark,
{
    let other = quorum_mark(marks, quorum);
    assert(is_quorum_mark(marks, quorum, other));
}

/// Among the marks that a quorum reach there is a highest.
proof fn lemma_highest_reached(marks: Seq<int>, quorum: int, count: nat) -> (highest: int)
    requires
        count <= marks.len(),
        exists|i: int| 0 <= i < count && reach(marks, #[trigger] marks[i]) >= quorum,
    ensures
        is_reached(marks, quorum, highest),
        forall|i: int|
            0 <= i < count && reach(marks, #[trigger] marks[i]) >= quorum ==> marks[i] <= highest,
    decreases count,
{
    let last = marks[count - 1];
    if exists|i: int| 0 <= i < count - 1 && reach(marks, #[trigger] marks[i]) >= quorum {
        let before = lemma_highest_reached(marks, quorum, (count - 1) as nat);
        if reach(marks, last) >= quorum && last > before {
            assert(marks.contains(last));
            last
        } else {
            before
        }
    } else {
        let i = choose|i: int| 0 <= i < count && reach(marks, #[trigger] marks[i]) >= quorum;
        assert(i == count - 1);
        assert(marks.contains(last));
        last
    }
}

/// The mark a quorum reach is one of the marks that a quorum reach, and the
/// highest, or 0 where there is none.
pub proof fn lemma_quorum_mark_is_mark(marks: Seq<int>, quorum: int)
    ensures
        is_quorum_mark(marks, quorum, quorum_mark(marks, quorum)) || (quorum_mark(marks, quorum)
            == 0 && forall|mark: int| !is_reached(marks, quorum, mark)),
{
    if exists|mark: int| is_reached(marks, quorum, mark) {
        let mark = choose|mark: int| is_reached(marks, quorum, mark);
        let i = choose|i: int| 0 <= i < marks.len() && marks[i] == mark;
        assert(reach(marks, marks[i]) >= quorum);
        let highest = lemma_highest_reached(marks, quorum, marks.len());
        assert forall|other: int| is_reached(marks, quorum, other) implies other <= highest by {
            let j = choose|j: int| 0 <= j < marks.len() && marks[j] == other;
            assert(reach(marks, marks[j]) >= quorum);
        }
        assert(is_quorum_mark(marks, quorum, highest));
    }
}

/// How many of `marks` are at least `mark`.
fn count_ops(marks: &Vec<OpNumber>, mark: OpNumber) -> (count: usize)
    ensures
        count == reach(op_marks(marks@), mark as int),
{
    let ghost at_least = |other: int| other >= mark as int;
    let mut count: usize = 0;
    let mut i: usize = 0;
    proof {
        reveal(Seq::filter);
    }
    while i < marks.len()
        invariant
            i <= marks@.len(),
            count <= i,
            at_least == (|other: int| other >= mark as int),
            count == op_marks(marks@).take(i as int).filter(at_least).len(),
        decreases marks@.len() - i,
    {
        proof {
            reveal(Seq::filter);
            let all = op_marks(marks@);
            assert(all.take(i + 1).drop_last() =~= all.take(i as int));
        }
        if marks[i] >= mark {
            count += 1;
        }
        i += 1;
    }
    assert(op_marks(marks@).take(i as int) =~= op_marks(marks@));
    count
}

/// The highest of `marks` that at least `quorum` of them reach, or 0.
pub(crate) fn quorum_op(marks: &Vec<OpNumber>, quorum: usize) -> (mark: OpNumber)
    ensures
        mark == quorum_mark(op_marks(marks@), quorum as int),
        mark == 0 || marks@.contains(mark),
{
    let ghost all = op_marks(marks@);
    let mut highest: Option<OpNumber> = None;
    let mut i: usize = 0;
    while i < marks.len()
        invariant
            i <= marks@.len(),
            all == op_marks(marks@),
            highest matches Some(mark) ==> is_reached(all, quorum as int, mark as int)
                && marks@.contains(mark),
            forall|j: int|
                0 <= j < i && reach(all, #[trigger] all[j]) >= quorum ==> highest is Some && all[j]
                    <= highest->0,
        decreases marks@.len() - i,
    {
        let mark = marks[i];
        assert(all[i as int] == mark);
        if count_ops(marks, mark) >= quorum {
            let higher = match highest {
                Some(other) => mark > other,
                None => true,
            };
            if higher {
                highest = Some(mark);
            }
        }
        i += 1;
    }
    match highest {
        Some(mark) => {
            proof {
                assert forall|other: int| is_reached(all, quorum as int, other) implies other
                    <= mark by {
                    let j = choose|j: int| 0 <= j < all.len() && all[j] == other;
                    assert(all[j] == other);
                }
                lemma_quorum_mark(all, quorum as int, mark as int);
            }
            mark
        },
        None => {
            proof {
                if exists|mark: int| is_reached(all, quorum as int, mark) {
                    let mark = choose|mark: int| is_reached(all, quorum as int, mark);
                    let j = choose|j: int| 0 <= j < all.len() && all[j] == mark;
                    assert(reach(all, all[j]) >= quorum);
                }
            }
            0
        },
    }
}

/// How many of `marks` are at least `mark`.
fn count_rounds(marks: &Vec<u64>, mark: u64) -> (count: usize)
    ensures
        count == reach(round_marks(marks@), mark as int),
{
    let ghost at_least = |other: int| other >= mark as int;
    let mut count: usize = 0;
    let mut i: usize = 0;
    proof {
        reveal(Seq::filter);
    }
    while i < marks.len()
        invariant
            i <= marks@.len(),
            count <= i,
            at_least == (|other: int| other >= mark as int),
            count == round_marks(marks@).take(i as int).filter(at_least).len(),
        decreases marks@.len() - i,
    {
        proof {
            reveal(Seq::filter);
            let all = round_marks(marks@);
            assert(all.take(i + 1).drop_last() =~= all.take(i as int));
        }
        if marks[i] >= mark {
            count += 1;
        }
        i += 1;
    }
    assert(round_marks(marks@).take(i as int) =~= round_marks(marks@));
    count
}

/// The highest of `marks` that at least `quorum` of them reach, or 0.
pub(crate) fn quorum_round(marks: &Vec<u64>, quorum: usize) -> (mark: u64)
    ensures
        mark == quorum_mark(round_marks(marks@), quorum as int),
        mark == 0 || marks@.contains(mark),
{
    let ghost all = round_marks(marks@);
    let mut highest: Option<u64> = None;
    let mut i: usize = 0;
    while i < marks.len()
        invariant
            i <= marks@.len(),
            all == round_marks(marks@),
            highest matches Some(mark) ==> is_reached(all, quorum as int, mark as int)
                && marks@.contains(mark),
            forall|j: int|
                0 <= j < i && reach(all, #[trigger] all[j]) >= quorum ==> highest is Some && all[j]
                    <= highest->0,
        decreases marks@.len() - i,
    {
        let mark = marks[i];
        assert(all[i as int] == mark);
        if count_rounds(marks, mark) >= quorum {
            let higher = match highest {
                Some(other) => mark > other,
                None => true,
            };
            if higher {
                highest = Some(mark);
            }
        }
        i += 1;
    }
    match highest {
        Some(mark) => {
            proof {
                assert forall|other: int| is_reached(all, quorum as int, other) implies other
                    <= mark by {
                    let j = choose|j: int| 0 <= j < all.len() && all[j] == other;
                    assert(all[j] == other);
                }
                lemma_quorum_mark(all, quorum as int, mark as int);
            }
            mark
        },
        None => {
            proof {
                if exists|mark: int| is_reached(all, quorum as int, mark) {
                    let mark = choose|mark: int| is_reached(all, quorum as int, mark);
                    let j = choose|j: int| 0 <= j < all.len() && all[j] == mark;
                    assert(reach(all, all[j]) >= quorum);
                }
            }
            0
        },
    }
}

} // verus!

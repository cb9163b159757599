//! What queueing messages makes of a queue.

use vstd::prelude::*;
use super::model::mail;
use crate::ids::ReplicaID;
use crate::message::MessageView;

verus! {

/// Whether every message queued may leave before the next write.
pub open spec fn all_early<Op, Query, Chunk>(
    letters: Seq<(ReplicaID, MessageView<Op, Query, Chunk>)>,
) -> bool {
    forall|i: int| 0 <= i < letters.len() ==> (#[trigger] letters[i]).1.early()
}

/// Whether every message queued must wait for the next write.
pub open spec fn all_late<Op, Query, Chunk>(
    letters: Seq<(ReplicaID, MessageView<Op, Query, Chunk>)>,
) -> bool {
    forall|i: int| 0 <= i < letters.len() ==> !(#[trigger] letters[i]).1.early()
}

/// The messages queued that are no acknowledgements.
pub open spec fn lasting<Op, Query, Chunk>(
    letters: Seq<(ReplicaID, MessageView<Op, Query, Chunk>)>,
) -> Seq<(ReplicaID, MessageView<Op, Query, Chunk>)> {
    letters.filter(|letter: (ReplicaID, MessageView<Op, Query, Chunk>)| !(letter.1 is PrepareOk))
}

/// Whether `letter` is an acknowledgement that stands for `other`: it goes
/// to the same replica, in the same view.
pub open spec fn stands_for<Op, Query, Chunk>(
    letter: (ReplicaID, MessageView<Op, Query, Chunk>),
    other: (ReplicaID, MessageView<Op, Query, Chunk>),
) -> bool {
    &&& letter.0 == other.0
    &&& letter.1 is PrepareOk
    &&& other.1 is PrepareOk
    &&& letter.1->PrepareOk_view_number == other.1->PrepareOk_view_number
}

/// Whether an acknowledgement in `letters` stands for `other`.
pub open spec fn has_for<Op, Query, Chunk>(
    letters: Seq<(ReplicaID, MessageView<Op, Query, Chunk>)>,
    other: (ReplicaID, MessageView<Op, Query, Chunk>),
) -> bool {
    exists|j: int| 0 <= j < letters.len() && stands_for(#[trigger] letters[j], other)
}

/// Whether `b` is `a` with messages added that may leave before the next
/// write.
#[verifier::opaque]
pub open spec fn posts_early<Op, Query, Chunk>(
    a: Seq<(ReplicaID, MessageView<Op, Query, Chunk>)>,
    b: Seq<(ReplicaID, MessageView<Op, Query, Chunk>)>,
) -> bool {
    &&& a.is_prefix_of(b)
    &&& all_early(a) ==> all_early(b)
}

/// Whether `b` is `a` with messages added that must wait for the next write,
/// and nothing gone but acknowledgements that a later one stands for.
#[verifier::opaque]
pub open spec fn posts_late<Op, Query, Chunk>(
    a: Seq<(ReplicaID, MessageView<Op, Query, Chunk>)>,
    b: Seq<(ReplicaID, MessageView<Op, Query, Chunk>)>,
) -> bool {
    &&& lasting(a).is_prefix_of(lasting(b))
    &&& all_late(a) ==> all_late(b)
    &&& forall|i: int| 0 <= i < a.len() && (#[trigger] a[i]).1 is PrepareOk ==> has_for(b, a[i])
}

pub broadcast proof fn posts_early_refl<Op, Query, Chunk>(
    a: Seq<(ReplicaID, MessageView<Op, Query, Chunk>)>,
)
    ensures
        #[trigger] posts_early(a, a),
{
    reveal(posts_early);
}

pub broadcast proof fn posts_early_trans<Op, Query, Chunk>(
    a: Seq<(ReplicaID, MessageView<Op, Query, Chunk>)>,
    b: Seq<(ReplicaID, MessageView<Op, Query, Chunk>)>,
    c: Seq<(ReplicaID, MessageView<Op, Query, Chunk>)>,
)
    requires
        #[trigger] posts_early(a, b),
        #[trigger] posts_early(b, c),
    ensures
        posts_early(a, c),
{
    reveal(posts_early);
    assert(a =~= c.subrange(0, a.len() as int)) by {
        assert forall|i: int| 0 <= i < a.len() implies a[i] == c.subrange(0, a.len() as int)[i] by {
            assert(a[i] == b.subrange(0, a.len() as int)[i]);
            assert(b[i] == c.subrange(0, b.len() as int)[i]);
        }
    }
}

pub broadcast proof fn posts_early_push<Op, Query, Chunk>(
    a: Seq<(ReplicaID, MessageView<Op, Query, Chunk>)>,
    letter: (ReplicaID, MessageView<Op, Query, Chunk>),
)
    requires
        letter.1.early(),
    ensures
        #[trigger] posts_early(a, a.push(letter)),
{
    reveal(posts_early);
}

pub broadcast proof fn posts_early_mail<Op, Query, Chunk>(
    a: Seq<(ReplicaID, MessageView<Op, Query, Chunk>)>,
    size: nat,
    letter: spec_fn(ReplicaID) -> Option<MessageView<Op, Query, Chunk>>,
)
    requires
        forall|id: ReplicaID| (#[trigger] letter(id)) is Some ==> letter(id)->0.early(),
    ensures
        #[trigger] posts_early(a, a + mail(size, letter)),
{
    reveal(posts_early);
    mail_holds(size, letter);
    let b = a + mail(size, letter);
    assert(a =~= b.subrange(0, a.len() as int));
}

/// What is mailed is what the letters say.
proof fn mail_holds<M>(size: nat, letter: spec_fn(ReplicaID) -> Option<M>)
    ensures
        forall|i: int|
            0 <= i < mail(size, letter).len() ==> letter(
                (#[trigger] mail(size, letter)[i]).0,
            ) == Some(mail(size, letter)[i].1),
    decreases size,
{
    if size > 0 {
        mail_holds((size - 1) as nat, letter);
    }
}

pub broadcast proof fn posts_late_refl<Op, Query, Chunk>(
    a: Seq<(ReplicaID, MessageView<Op, Query, Chunk>)>,
)
    ensures
        #[trigger] posts_late(a, a),
{
    reveal(posts_late);
    assert forall|i: int| 0 <= i < a.len() && (#[trigger] a[i]).1 is PrepareOk implies has_for(
        a,
        a[i],
    ) by {
        assert(stands_for(a[i], a[i]));
    }
}

pub broadcast proof fn posts_late_trans<Op, Query, Chunk>(
    a: Seq<(ReplicaID, MessageView<Op, Query, Chunk>)>,
    b: Seq<(ReplicaID, MessageView<Op, Query, Chunk>)>,
    c: Seq<(ReplicaID, MessageView<Op, Query, Chunk>)>,
)
    requires
        #[trigger] posts_late(a, b),
        #[trigger] posts_late(b, c),
    ensures
        posts_late(a, c),
{
    reveal(posts_late);
    let (x, y, z) = (lasting(a), lasting(b), lasting(c));
    assert(x =~= z.subrange(0, x.len() as int)) by {
        assert forall|i: int| 0 <= i < x.len() implies x[i] == z.subrange(0, x.len() as int)[i] by {
            assert(x[i] == y.subrange(0, x.len() as int)[i]);
            assert(y[i] == z.subrange(0, y.len() as int)[i]);
        }
    }
    assert forall|i: int| 0 <= i < a.len() && (#[trigger] a[i]).1 is PrepareOk implies has_for(
        c,
        a[i],
    ) by {
        let j = choose|j: int| 0 <= j < b.len() && stands_for(#[trigger] b[j], a[i]);
        assert(has_for(c, b[j]));
        let n = choose|n: int| 0 <= n < c.len() && stands_for(#[trigger] c[n], b[j]);
        assert(stands_for(c[n], a[i]));
    }
}

/// What is queued behind other messages leaves them as they are.
pub proof fn posts_late_add<Op, Query, Chunk>(
    a: Seq<(ReplicaID, MessageView<Op, Query, Chunk>)>,
    more: Seq<(ReplicaID, MessageView<Op, Query, Chunk>)>,
)
    requires
        all_late(more),
    ensures
        posts_late(a, a + more),
{
    reveal(posts_late);
    let b = a + more;
    Seq::filter_distributes_over_add(
        a,
        more,
        |letter: (ReplicaID, MessageView<Op, Query, Chunk>)| !(letter.1 is PrepareOk),
    );
    assert(lasting(b) == lasting(a) + lasting(more));
    assert(lasting(a) =~= lasting(b).subrange(0, lasting(a).len() as int));
    assert forall|i: int| 0 <= i < a.len() && (#[trigger] a[i]).1 is PrepareOk implies has_for(
        b,
        a[i],
    ) by {
        assert(b[i] == a[i]);
        assert(stands_for(b[i], a[i]));
    }
}

pub broadcast proof fn posts_late_push<Op, Query, Chunk>(
    a: Seq<(ReplicaID, MessageView<Op, Query, Chunk>)>,
    letter: (ReplicaID, MessageView<Op, Query, Chunk>),
)
    requires
        !letter.1.early(),
    ensures
        #[trigger] posts_late(a, a.push(letter)),
{
    posts_late_add(a, seq![letter]);
    assert(a + seq![letter] =~= a.push(letter));
}

pub broadcast proof fn posts_late_mail<Op, Query, Chunk>(
    a: Seq<(ReplicaID, MessageView<Op, Query, Chunk>)>,
    size: nat,
    letter: spec_fn(ReplicaID) -> Option<MessageView<Op, Query, Chunk>>,
)
    requires
        forall|id: ReplicaID| (#[trigger] letter(id)) is Some ==> !letter(id)->0.early(),
    ensures
        #[trigger] posts_late(a, a + mail(size, letter)),
{
    mail_holds(size, letter);
    posts_late_add(a, mail(size, letter));
}

/// An acknowledgement queued in place of those that it stands for.
pub proof fn posts_late_ack<Op, Query, Chunk>(
    a: Seq<(ReplicaID, MessageView<Op, Query, Chunk>)>,
    keep: spec_fn((ReplicaID, MessageView<Op, Query, Chunk>)) -> bool,
    ack: (ReplicaID, MessageView<Op, Query, Chunk>),
)
    requires
        ack.1 is PrepareOk,
        forall|letter: (ReplicaID, MessageView<Op, Query, Chunk>)| #[trigger]
            keep(letter) == !stands_for(ack, letter),
    ensures
        posts_late(a, a.filter(keep).push(ack)),
{
    reveal(posts_late);
    let lasts = |letter: (ReplicaID, MessageView<Op, Query, Chunk>)| !(letter.1 is PrepareOk);
    let kept = a.filter(keep);
    let b = kept.push(ack);
    filtered_lasts(a, keep, ack);
    assert(lasting(b) == lasting(a)) by {
        reveal(Seq::filter);
        assert(b.drop_last() =~= kept);
    }
    broadcast use vstd::seq_lib::group_filter_ensures;

    assert forall|i: int| 0 <= i < a.len() && (#[trigger] a[i]).1 is PrepareOk implies has_for(
        b,
        a[i],
    ) by {
        if keep(a[i]) {
            assert(kept.contains(a[i]));
            let j = choose|j: int| 0 <= j < kept.len() && kept[j] == a[i];
            assert(stands_for(b[j], a[i]));
        } else {
            assert(stands_for(b[kept.len() as int], a[i]));
        }
    }
    if all_late(a) {
        assert forall|i: int| 0 <= i < b.len() implies !(#[trigger] b[i]).1.early() by {
            if i < kept.len() {
                assert(kept.contains(kept[i]));
                a.lemma_filter_contains_rev(keep, kept[i]);
            }
        }
    }
}

/// Dropping acknowledgements leaves the other messages.
proof fn filtered_lasts<Op, Query, Chunk>(
    a: Seq<(ReplicaID, MessageView<Op, Query, Chunk>)>,
    keep: spec_fn((ReplicaID, MessageView<Op, Query, Chunk>)) -> bool,
    ack: (ReplicaID, MessageView<Op, Query, Chunk>),
)
    requires
        forall|letter: (ReplicaID, MessageView<Op, Query, Chunk>)| #[trigger]
            keep(letter) == !stands_for(ack, letter),
    ensures
        lasting(a.filter(keep)) == lasting(a),
    decreases a.len(),
{
    reveal(Seq::filter);
    if a.len() > 0 {
        let before = a.drop_last();
        filtered_lasts(before, keep, ack);
        if keep(a.last()) {
            assert(a.filter(keep).drop_last() =~= before.filter(keep));
        }
    }
}

/// What is queued behind the same messages is queued in the same way.
pub proof fn posts_late_behind<Op, Query, Chunk>(
    first: Seq<(ReplicaID, MessageView<Op, Query, Chunk>)>,
    a: Seq<(ReplicaID, MessageView<Op, Query, Chunk>)>,
    b: Seq<(ReplicaID, MessageView<Op, Query, Chunk>)>,
)
    requires
        posts_late(a, b),
    ensures
        posts_late(first + a, first + b),
{
    reveal(posts_late);
    let lasts = |letter: (ReplicaID, MessageView<Op, Query, Chunk>)| !(letter.1 is PrepareOk);
    Seq::filter_distributes_over_add(first, a, lasts);
    Seq::filter_distributes_over_add(first, b, lasts);
    let (x, y) = (lasting(first + a), lasting(first + b));
    assert(x == lasting(first) + lasting(a));
    assert(y == lasting(first) + lasting(b));
    assert(x =~= y.subrange(0, x.len() as int)) by {
        assert forall|i: int| 0 <= i < x.len() implies x[i] == y.subrange(0, x.len() as int)[i] by {
            if i >= lasting(first).len() {
                let j = i - lasting(first).len();
                assert(lasting(a)[j] == lasting(b).subrange(0, lasting(a).len() as int)[j]);
            }
        }
    }
    let (before, after) = (first + a, first + b);
    assert forall|i: int| 0 <= i < before.len() && (
    #[trigger] before[i]).1 is PrepareOk implies has_for(after, before[i]) by {
        if i < first.len() {
            assert(stands_for(after[i], before[i]));
        } else {
            let letter = a[i - first.len()];
            assert(has_for(b, letter));
            let j = choose|j: int| 0 <= j < b.len() && stands_for(#[trigger] b[j], letter);
            assert(stands_for(after[first.len() + j], before[i]));
        }
    }
    if all_late(before) {
        assert forall|i: int| 0 <= i < a.len() implies !(#[trigger] a[i]).1.early() by {
            assert(before[first.len() + i] == a[i]);
        }
        assert forall|i: int| 0 <= i < after.len() implies !(#[trigger] after[i]).1.early() by {
            if i < first.len() {
                assert(after[i] == before[i]);
            }
        }
    }
}

/// What is queued behind the same messages is queued in the same way.
pub proof fn posts_early_behind<Op, Query, Chunk>(
    first: Seq<(ReplicaID, MessageView<Op, Query, Chunk>)>,
    a: Seq<(ReplicaID, MessageView<Op, Query, Chunk>)>,
    b: Seq<(ReplicaID, MessageView<Op, Query, Chunk>)>,
)
    requires
        posts_early(a, b),
    ensures
        posts_early(first + a, first + b),
{
    reveal(posts_early);
    let (before, after) = (first + a, first + b);
    assert(before =~= after.subrange(0, before.len() as int)) by {
        assert forall|i: int| 0 <= i < before.len() implies before[i] == after.subrange(
            0,
            before.len() as int,
        )[i] by {
            if i >= first.len() {
                let j = i - first.len();
                assert(a[j] == b.subrange(0, a.len() as int)[j]);
            }
        }
    }
    if all_early(before) {
        assert forall|i: int| 0 <= i < a.len() implies (#[trigger] a[i]).1.early() by {
            assert(before[first.len() + i] == a[i]);
        }
        assert forall|i: int| 0 <= i < after.len() implies (#[trigger] after[i]).1.early() by {
            if i < first.len() {
                assert(after[i] == before[i]);
            }
        }
    }
}

pub broadcast group group_posts {
    posts_early_refl,
    posts_early_push,
    posts_early_mail,
    posts_late_refl,
    posts_late_push,
    posts_late_mail,
}

} // verus!

use vstd::prelude::*;
use super::history::History;
use super::safety::{asker_ok, asks_ok, mail_ok, message_ok, outbox_ok, patient};
use crate::config::ConfigView;
use crate::ids::{OpNumber, ReplicaID};
use crate::message::{MessageView, MessageViewFor};
use crate::replica::model::{all_but, mail, ReplicaModel};
use crate::replica::parts::Status;
use crate::state_machine::StateMachine;

verus! {

/// What holds of what `letter` gives holds of the mail made of it.
pub proof fn letters_ok<SM: StateMachine>(
    h: History<SM::Input>,
    config: ConfigView,
    i: ReplicaID,
    size: nat,
    letter: spec_fn(ReplicaID) -> Option<MessageViewFor<SM>>,
)
    requires
        size <= usize::MAX,
        forall|to: ReplicaID|
            to < size && (#[trigger] letter(to)) is Some ==> message_ok::<SM>(h, to, letter(to)->0),
        forall|to: ReplicaID|
            to < size && (#[trigger] letter(to)) is Some ==> asker_ok::<SM>(
                config,
                i,
                letter(to)->0,
            ),
    ensures
        mail_ok::<SM>(h, mail(size, letter)),
        asks_ok::<SM>(config, i, mail(size, letter)),
    decreases size,
{
    if size > 0 {
        letters_ok::<SM>(h, config, i, (size - 1) as nat, letter);
    }
}

/// What `letter` gives is `message` if nothing else is.
pub proof fn letters_are<SM: StateMachine>(
    size: nat,
    letter: spec_fn(ReplicaID) -> Option<MessageViewFor<SM>>,
    message: MessageViewFor<SM>,
)
    requires
        size <= usize::MAX,
        forall|to: ReplicaID|
            to < size && (#[trigger] letter(to)) is Some ==> letter(to)->0 == message,
    ensures
        forall|k: int|
            0 <= k < mail(size, letter).len() ==> (#[trigger] mail(size, letter)[k]).1 == message,
    decreases size,
{
    if size > 0 {
        letters_are::<SM>((size - 1) as nat, letter, message);
        let before = mail((size - 1) as nat, letter);
        let all = mail(size, letter);
        assert forall|k: int| 0 <= k < all.len() implies (#[trigger] all[k]).1 == message by {
            if k < before.len() {
                assert(all[k] == before[k]);
            }
        }
    }
}

/// What `letter` gives may leave early if all of it may.
proof fn letters_early<SM: StateMachine>(
    size: nat,
    letter: spec_fn(ReplicaID) -> Option<MessageViewFor<SM>>,
)
    requires
        size <= usize::MAX,
        forall|to: ReplicaID|
            to < size && (#[trigger] letter(to)) is Some ==> (letter(to)->0).early(),
    ensures
        forall|k: int|
            0 <= k < mail(size, letter).len() ==> (#[trigger] mail(size, letter)[k]).1.early(),
    decreases size,
{
    if size > 0 {
        letters_early::<SM>((size - 1) as nat, letter);
        let before = mail((size - 1) as nat, letter);
        let all = mail(size, letter);
        assert forall|k: int| 0 <= k < all.len() implies (#[trigger] all[k]).1.early() by {
            if k < before.len() {
                assert(all[k] == before[k]);
            }
        }
    }
}

pub proof fn send_ok<SM: StateMachine>(
    h: History<SM::Input>,
    s: ReplicaModel<SM>,
    to: ReplicaID,
    message: MessageViewFor<SM>,
)
    requires
        outbox_ok(h, s),
        message_ok::<SM>(h, to, message),
        asker_ok::<SM>(s.config, s.self_id, message),
        s.status == Status::Recovering ==> !(message is PrepareOk),
    ensures
        outbox_ok(h, s.send(to, message)),
{
    reveal(outbox_ok);
}

pub proof fn send_each_early_ok<SM: StateMachine>(
    h: History<SM::Input>,
    s: ReplicaModel<SM>,
    letter: spec_fn(ReplicaID) -> Option<MessageViewFor<SM>>,
)
    requires
        outbox_ok(h, s),
        s.config.size() <= usize::MAX,
        forall|to: ReplicaID|
            to < s.config.size() && (#[trigger] letter(to)) is Some ==> message_ok::<SM>(
                h,
                to,
                letter(to)->0,
            ) && asker_ok::<SM>(s.config, s.self_id, letter(to)->0) && (letter(to)->0).early(),
    ensures
        outbox_ok(h, s.send_each_early(letter)),
{
    reveal(outbox_ok);
    letters_ok::<SM>(h, s.config, s.self_id, s.config.size(), letter);
    letters_early::<SM>(s.config.size(), letter);
}

pub proof fn send_to_others_ok<SM: StateMachine>(
    h: History<SM::Input>,
    s: ReplicaModel<SM>,
    message: MessageViewFor<SM>,
)
    requires
        outbox_ok(h, s),
        s.config.size() <= usize::MAX,
        forall|to: ReplicaID|
            to < s.config.size() && to != s.self_id ==> #[trigger] message_ok::<SM>(h, to, message),
        asker_ok::<SM>(s.config, s.self_id, message),
        s.status != Status::Recovering,
    ensures
        outbox_ok(h, s.send_to_others(message)),
{
    reveal(outbox_ok);
    letters_ok::<SM>(h, s.config, s.self_id, s.config.size(), all_but(s.self_id, message));
    letters_are::<SM>(s.config.size(), all_but(s.self_id, message), message);
}

/// What passes a filter holds what held before.
pub proof fn filter_ok<SM: StateMachine>(
    h: History<SM::Input>,
    config: ConfigView,
    i: ReplicaID,
    mail: Seq<(ReplicaID, MessageViewFor<SM>)>,
    keep: spec_fn((ReplicaID, MessageViewFor<SM>)) -> bool,
)
    requires
        mail_ok::<SM>(h, mail),
        asks_ok::<SM>(config, i, mail),
    ensures
        mail_ok::<SM>(h, mail.filter(keep)),
        asks_ok::<SM>(config, i, mail.filter(keep)),
        patient::<SM>(mail) ==> patient::<SM>(mail.filter(keep)),
    decreases mail.len(),
{
    reveal(Seq::filter);
    if mail.len() > 0 {
        filter_ok::<SM>(h, config, i, mail.drop_last(), keep);
        if patient::<SM>(mail) {
            assert(!mail[mail.len() - 1].1.early());
            assert(patient::<SM>(mail.drop_last())) by {
                assert forall|k: int| 0 <= k < mail.drop_last().len() implies !(
                #[trigger] mail.drop_last()[k]).1.early() by {
                    assert(!mail[k].1.early());
                }
            }
        }
        assert(asker_ok::<SM>(config, i, mail[mail.len() - 1].1));
        assert(message_ok::<SM>(h, mail[mail.len() - 1].0, mail[mail.len() - 1].1));
    }
}

pub proof fn send_prepare_ok_ok<SM: StateMachine>(h: History<SM::Input>, s: ReplicaModel<SM>)
    requires
        outbox_ok(h, s),
        h.acc(s.self_id, s.view_number) >= s.op_number(),
        s.op_number() <= usize::MAX,
        s.status != Status::Recovering,
    ensures
        outbox_ok(h, s.send_prepare_ok()),
{
    reveal(outbox_ok);
    let stale = |mail: (ReplicaID, MessageViewFor<SM>)|
        mail.0 == s.primary_id() && mail.1 is PrepareOk && mail.1->PrepareOk_view_number
            == s.view_number;
    let keep = |mail: (ReplicaID, MessageViewFor<SM>)| !stale(mail);
    filter_ok::<SM>(h, s.config, s.self_id, s.outbox, keep);
    let kept = ReplicaModel { outbox: s.outbox.filter(keep), ..s };
    assert(outbox_ok(h, kept));
    let message = MessageView::PrepareOk {
        view_number: s.view_number,
        op_number: s.op_number() as OpNumber,
        replica_id: s.self_id,
    };
    assert(s.send_prepare_ok() == kept.send(s.primary_id(), message));
    send_ok(h, kept, s.primary_id(), message);
}

/// The mail of two states is the same.
pub open spec fn same_mail<SM: StateMachine>(s: ReplicaModel<SM>, t: ReplicaModel<SM>) -> bool {
    &&& t.config == s.config
    &&& t.self_id == s.self_id
    &&& t.status == Status::Recovering ==> s.status == Status::Recovering
    &&& t.outbox_early == s.outbox_early
    &&& t.outbox == s.outbox
    &&& t.outbox_waiting == s.outbox_waiting
    &&& t.outbox_ready == s.outbox_ready
}

pub proof fn same_mail_ok<SM: StateMachine>(
    h: History<SM::Input>,
    s: ReplicaModel<SM>,
    t: ReplicaModel<SM>,
)
    requires
        outbox_ok(h, s),
        same_mail(s, t),
    ensures
        outbox_ok(h, t),
{
    reveal(outbox_ok);
}

} // verus!

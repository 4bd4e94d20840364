//! What holds of the registry over sequences of events. Each law is stated
//! over the model of the registry and proved from it.

use vstd::prelude::*;
use crate::error::RelayError;
use crate::link::{LinkModel, Presence};
use crate::message::{Message, MessageModel};
use crate::model::{padded, ClientInfoModel, ClientModel, Event, RegistryModel};
use crate::name::lowercase;
use crate::wellformed::{
    lemma_registered_wf, lemma_relinked_lookup, lemma_relinked_wf, lemma_removed_entry_was_there,
    lemma_without_lookup, lemma_without_wf,
};
use tokio::sync::mpsc::UnboundedSender;
use tokio::task::JoinHandle;

verus! {

/// Every event leads from a well-formed registry to a well-formed registry:
/// in every reachable state names are unique up to case, credentials are
/// unique and not empty, and every credential in use is on record as
/// issued.
pub proof fn law_well_formedness_is_invariant(r: RegistryModel, event: Event)
    requires
        r.wf(),
    ensures
        r.next(event).wf(),
{
    match event {
        Event::Register { name, credential } => {
            lemma_registered_wf(r, name, credential);
        },
        Event::Attach { credential, outbound } => {
            if r.has_credential(credential) {
                let i = r.index_of_credential(credential);
                assert(r.holds(i, credential));
                lemma_relinked_wf(r, i, LinkModel::Connected { outbound }, r.timers);
            }
        },
        Event::Detach { credential } => {
            if r.is_connected(credential) {
                let i = r.index_of_credential(credential);
                assert(r.holds(i, credential));
                lemma_relinked_wf(
                    r,
                    i,
                    LinkModel::Grace { timer: r.timers, task: None },
                    r.timers + 1,
                );
            }
        },
        Event::Arm { credential, timer, task } => {
            if r.awaits_task(credential, timer) {
                let i = r.index_of_credential(credential);
                assert(r.holds(i, credential));
                assert(r.clients[i].link == (LinkModel::Grace { timer, task: None }));
                lemma_relinked_wf(r, i, LinkModel::Grace { timer, task: Some(task) }, r.timers);
            }
        },
        Event::Expire { credential, timer } => {
            if r.is_pending(credential, timer) {
                let i = r.index_of_credential(credential);
                assert(r.holds(i, credential));
                lemma_without_wf(r, i);
            }
        },
        Event::Remove { credential } => {
            if r.has_credential(credential) {
                let i = r.index_of_credential(credential);
                assert(r.holds(i, credential));
                lemma_without_wf(r, i);
            }
        },
    }
}

/// A name that is registered cannot be registered again in any casing: once
/// `first` is registered, a registration under any `second` with the same
/// lowercase form fails with `NameConflict`, whatever is drawn for it, and
/// changes nothing.
pub proof fn law_names_conflict_in_any_case(
    r: RegistryModel,
    first: Seq<char>,
    first_credential: Seq<char>,
    second: Seq<char>,
    drawn: Seq<char>,
    result: Result<Seq<char>, RelayError>,
    after: RegistryModel,
)
    requires
        r.wf(),
        lowercase(first) == lowercase(second),
        r.admits(first, first_credential),
        r.registered(first, first_credential).registers(second, drawn, result, after),
    ensures
        result == Err::<Seq<char>, RelayError>(RelayError::NameConflict),
        after == r.registered(first, first_credential),
{
    let mid = r.registered(first, first_credential);
    assert(mid.goes_by(r.clients.len() as int, second));
}

/// A registration under a free name always succeeds, whatever is drawn for
/// it, and a registration fails on a taken name only.
pub proof fn law_free_name_registers(
    r: RegistryModel,
    name: Seq<char>,
    drawn: Seq<char>,
    result: Result<Seq<char>, RelayError>,
    after: RegistryModel,
)
    requires
        r.registers(name, drawn, result, after),
    ensures
        result is Ok <==> !r.has_name(name),
        result matches Ok(credential) ==> r.admits(name, credential) && after.clients
            == r.clients.push(ClientModel::registered(name, credential)),
        result matches Err(error) ==> error == RelayError::NameConflict && after == r,
{
}

/// Two names that differ beyond their casing can both be registered,
/// whatever is drawn for them: if both are free, both registrations succeed,
/// each with its own credential.
pub proof fn law_distinct_names_both_register(
    r: RegistryModel,
    first: Seq<char>,
    first_drawn: Seq<char>,
    first_result: Result<Seq<char>, RelayError>,
    between: RegistryModel,
    second: Seq<char>,
    second_drawn: Seq<char>,
    second_result: Result<Seq<char>, RelayError>,
    after: RegistryModel,
)
    requires
        r.wf(),
        lowercase(first) != lowercase(second),
        !r.has_name(first),
        !r.has_name(second),
        r.registers(first, first_drawn, first_result, between),
        between.registers(second, second_drawn, second_result, after),
    ensures
        first_result is Ok,
        second_result is Ok,
        first_result->Ok_0 != second_result->Ok_0,
        after.clients == r.clients.push(
            ClientModel::registered(first, first_result->Ok_0),
        ).push(ClientModel::registered(second, second_result->Ok_0)),
{
    if between.has_name(second) {
        let k = between.index_of_name(second);
        assert(between.goes_by(k, second));
        if k < r.clients.len() {
            assert(r.goes_by(k, second));
        }
    }
}

/// What is issued is determined by what is drawn: a draw settles on one
/// credential only, and on itself if it can be issued.
pub proof fn law_draw_settles_on_one_credential(
    r: RegistryModel,
    drawn: Seq<char>,
    one: Seq<char>,
    other: Seq<char>,
)
    requires
        r.settles(drawn, one),
        r.settles(drawn, other),
    ensures
        one == other,
        r.can_issue(drawn) ==> one == drawn,
{
    let a = choose|pad: nat| r.settles_at(drawn, one, pad);
    let b = choose|pad: nat| r.settles_at(drawn, other, pad);
    if a < b {
        assert(!r.can_issue(padded(drawn, a)));
    } else if b < a {
        assert(!r.can_issue(padded(drawn, b)));
    }
    if r.can_issue(drawn) {
        assert(padded(drawn, 0) =~= drawn);
        if a > 0 {
            assert(!r.can_issue(padded(drawn, 0)));
        }
    }
}

/// No event takes a credential off the record of issued credentials: what
/// was issued once stays on record when its client is removed or expires.
pub proof fn law_issued_credentials_stay_on_record(r: RegistryModel, event: Event)
    ensures
        r.issued.subset_of(r.next(event).issued),
{
}

/// A credential is never reused: the credential that a registration issues
/// is not empty, was never issued before, not even to a client that has
/// since been removed or evicted, and differs from the credential of every
/// client in the registry. It is on record from then on.
pub proof fn law_credentials_are_never_reused(
    r: RegistryModel,
    name: Seq<char>,
    drawn: Seq<char>,
    result: Result<Seq<char>, RelayError>,
    after: RegistryModel,
)
    requires
        r.wf(),
        r.registers(name, drawn, result, after),
    ensures
        result matches Ok(issued) ==> {
            &&& issued.len() > 0
            &&& !r.issued.contains(issued)
            &&& forall|i: int|
                0 <= i < r.clients.len() ==> (#[trigger] r.clients[i]).credential != issued
            &&& after.issued == r.issued.insert(issued)
        },
{
}

/// A credential is issued once: after a registration has issued it, and
/// after any event since, no registration issues it again, whatever is
/// drawn and whether or not its first holder is still registered.
pub proof fn law_credential_is_issued_once(
    r: RegistryModel,
    first: Seq<char>,
    credential: Seq<char>,
    event: Event,
    second: Seq<char>,
    drawn: Seq<char>,
    result: Result<Seq<char>, RelayError>,
    after: RegistryModel,
)
    requires
        r.admits(first, credential),
        r.registered(first, credential).next(event).registers(second, drawn, result, after),
    ensures
        r.registered(first, credential).next(event).issued.contains(credential),
        result != Ok::<Seq<char>, RelayError>(credential),
{
}

/// A message from an unrecognized credential is refused as `Unauthorized`,
/// whoever the recipient is.
pub proof fn law_route_needs_recognized_sender(
    r: RegistryModel,
    sender: Seq<char>,
    recipient: Seq<char>,
)
    requires
        !r.has_credential(sender),
    ensures
        r.route_outcome(sender, recipient) == Err::<(), RelayError>(RelayError::Unauthorized),
{
}

/// A message from a recognized sender to a name that nobody is registered
/// under is refused as `RecipientNotFound`.
pub proof fn law_route_needs_registered_recipient(
    r: RegistryModel,
    sender: Seq<char>,
    recipient: Seq<char>,
)
    requires
        r.has_credential(sender),
        !r.has_name(recipient),
    ensures
        r.route_outcome(sender, recipient) == Err::<(), RelayError>(
            RelayError::RecipientNotFound,
        ),
{
}

/// A message from a recognized sender to a recipient that is registered
/// but not connected, whether it never connected or is in its grace period,
/// is refused as `RecipientOffline`.
pub proof fn law_route_needs_connected_recipient(
    r: RegistryModel,
    sender: Seq<char>,
    recipient: Seq<char>,
)
    requires
        r.wf(),
        r.has_credential(sender),
        r.client_named(recipient) matches Some(client) && !(client.link is Connected),
    ensures
        r.route_outcome(sender, recipient) == Err::<(), RelayError>(RelayError::RecipientOffline),
{
}

/// A client that has registered and never connected is offline: a message
/// to it from a recognized sender is refused as `RecipientOffline`.
pub proof fn law_new_client_is_offline(
    r: RegistryModel,
    name: Seq<char>,
    credential: Seq<char>,
    sender: Seq<char>,
    recipient: Seq<char>,
)
    requires
        r.wf(),
        r.admits(name, credential),
        r.registered(name, credential).has_credential(sender),
        lowercase(recipient) == lowercase(name),
    ensures
        r.registered(name, credential).route_outcome(sender, recipient) == Err::<(), RelayError>(
            RelayError::RecipientOffline,
        ),
{
    let after = r.registered(name, credential);
    let last = r.clients.len() as int;
    lemma_registered_wf(r, name, credential);
    assert(after.goes_by(last, recipient));
    after.lemma_index_of_name(last, recipient);
}

/// After a connection is attached the client is connected through it and
/// no timer is pending for it, whatever its state was: a client never has
/// both a live connection and a running eviction timer. Its name and its
/// credential are as before.
pub proof fn law_attach_connects_and_withdraws_the_timer(
    r: RegistryModel,
    credential: Seq<char>,
    outbound: UnboundedSender<Message>,
)
    requires
        r.wf(),
        r.has_credential(credential),
    ensures
        r.upgrade_outcome(credential) == Ok::<(), RelayError>(()),
        r.attached(credential, outbound).client_with_credential(credential) == Some(
            r.client_with_credential(credential)->0.with_link(LinkModel::Connected { outbound }),
        ),
        r.attached(credential, outbound).is_connected(credential),
        forall|timer: nat| !r.attached(credential, outbound).is_pending(credential, timer),
{
    let i = r.index_of_credential(credential);
    assert(r.holds(i, credential));
    lemma_relinked_lookup(r, i, LinkModel::Connected { outbound }, r.timers);
    let after = r.attached(credential, outbound);
    assert(after.holds(i, credential));
    after.lemma_index_of_credential(i, credential);
}

/// A connected client receives: a message from a recognized sender to a
/// client that was just attached is delivered to the channel that was
/// attached, and carries the sender's display name and the body untouched.
pub proof fn law_attached_client_receives(
    r: RegistryModel,
    credential: Seq<char>,
    outbound: UnboundedSender<Message>,
    sender: Seq<char>,
    recipient: Seq<char>,
    body: Seq<char>,
)
    requires
        r.wf(),
        r.has_credential(sender),
        r.client_with_credential(credential) matches Some(client) && client.key == lowercase(
            recipient,
        ),
    ensures
        r.attached(credential, outbound).route_outcome(sender, recipient) == Ok::<(), RelayError>(
            (),
        ),
        r.attached(credential, outbound).route_target(recipient) == Some(outbound),
        r.attached(credential, outbound).routed_message(sender, body) == (MessageModel {
            from: r.client_with_credential(sender)->0.name,
            body,
        }),
{
    let i = r.index_of_credential(credential);
    assert(r.holds(i, credential));
    let link = LinkModel::Connected { outbound };
    lemma_relinked_lookup(r, i, link, r.timers);
    let after = r.attached(credential, outbound);
    assert(after == r.relinked(i, link, r.timers));
    assert(after.goes_by(i, recipient));
    after.lemma_index_of_name(i, recipient);
    let s = r.index_of_credential(sender);
    assert(r.holds(s, sender));
    assert(after.index_of_credential(sender) == s);
    assert(after.clients[s].name == r.clients[s].name);
}

/// From two registrations to a delivery: once `alice` and `bob` have
/// registered and `bob` has opened a connection, a message that `alice`
/// sends to `bob`, in any casing of his name, is delivered to his
/// connection. It carries her display name as she registered it and the body
/// untouched.
pub proof fn law_end_to_end_delivery(
    r: RegistryModel,
    alice: Seq<char>,
    alice_credential: Seq<char>,
    bob: Seq<char>,
    bob_credential: Seq<char>,
    outbound: UnboundedSender<Message>,
    recipient: Seq<char>,
    body: Seq<char>,
)
    requires
        r.wf(),
        r.admits(alice, alice_credential),
        r.registered(alice, alice_credential).admits(bob, bob_credential),
        lowercase(recipient) == lowercase(bob),
    ensures
        ({
            let connected = r.registered(alice, alice_credential).registered(
                bob,
                bob_credential,
            ).attached(bob_credential, outbound);
            &&& connected.route_outcome(alice_credential, recipient) == Ok::<(), RelayError>(())
            &&& connected.route_target(recipient) == Some(outbound)
            &&& connected.routed_message(alice_credential, body) == (MessageModel {
                from: alice,
                body,
            })
        }),
{
    let one = r.registered(alice, alice_credential);
    let two = one.registered(bob, bob_credential);
    lemma_registered_wf(r, alice, alice_credential);
    lemma_registered_wf(one, bob, bob_credential);
    let a = r.clients.len() as int;
    let b = one.clients.len() as int;
    assert(two.holds(a, alice_credential));
    assert(two.holds(b, bob_credential));
    two.lemma_index_of_credential(a, alice_credential);
    two.lemma_index_of_credential(b, bob_credential);
    law_attached_client_receives(two, bob_credential, outbound, alice_credential, recipient, body);
}

/// A closed connection does not delete the entry: whatever the state of the
/// client was, it keeps its name and its credential and can still be looked
/// up by either. A client that was connected is then in its grace period
/// under the timer number that was handed out.
pub proof fn law_grace_keeps_the_entry(r: RegistryModel, credential: Seq<char>)
    requires
        r.wf(),
    ensures
        r.detached(credential).keeps_identity_of(r, credential),
        r.is_connected(credential) ==> {
            &&& r.detach_ticket(credential) == Some(r.timers)
            &&& r.detached(credential).is_pending(credential, r.timers)
            &&& r.detached(credential).client_with_credential(credential) == Some(
                r.client_with_credential(credential)->0.with_link(
                    LinkModel::Grace { timer: r.timers, task: None },
                ),
            )
        },
{
    if r.has_credential(credential) {
        let i = r.index_of_credential(credential);
        assert(r.holds(i, credential));
        assert(r.goes_by(i, r.clients[i].name));
        r.lemma_index_of_name(i, r.clients[i].name);
        if r.is_connected(credential) {
            let link = LinkModel::Grace { timer: r.timers, task: None };
            lemma_relinked_lookup(r, i, link, r.timers + 1);
            let after = r.detached(credential);
            assert(after.holds(i, credential));
            after.lemma_index_of_credential(i, credential);
            assert(after.goes_by(i, r.clients[i].name));
            after.lemma_index_of_name(i, r.clients[i].name);
        }
    }
}

/// An entry leaves the registry in two ways only: it is removed, or the
/// timer that is pending for it runs out. Under every other event the client
/// stays registered with its name and its credential and is found by either.
pub proof fn law_entry_stays_until_removed_or_expired(
    r: RegistryModel,
    credential: Seq<char>,
    event: Event,
)
    requires
        r.wf(),
        r.has_credential(credential),
        event != (Event::Remove { credential }),
        !(event matches Event::Expire { credential: target, timer } && target == credential
            && r.is_pending(credential, timer)),
    ensures
        r.next(event).has_credential(credential),
        r.next(event).keeps_identity_of(r, credential),
{
    let i = r.index_of_credential(credential);
    assert(r.holds(i, credential));
    let after = r.next(event);
    law_well_formedness_is_invariant(r, event);
    let k = match event {
        Event::Expire { credential: target, timer } => if r.is_pending(target, timer)
            && r.index_of_credential(target) < i {
            i - 1
        } else {
            i
        },
        Event::Remove { credential: target } => if r.has_credential(target)
            && r.index_of_credential(target) < i {
            i - 1
        } else {
            i
        },
        _ => i,
    };
    match event {
        Event::Expire { credential: target, timer } => {
            if r.is_pending(target, timer) {
                assert(r.holds(r.index_of_credential(target), target));
            }
        },
        Event::Remove { credential: target } => {
            if r.has_credential(target) {
                assert(r.holds(r.index_of_credential(target), target));
            }
        },
        Event::Attach { credential: target, .. } => {
            if r.has_credential(target) {
                assert(r.holds(r.index_of_credential(target), target));
            }
        },
        Event::Detach { credential: target } => {
            if r.is_connected(target) {
                assert(r.holds(r.index_of_credential(target), target));
            }
        },
        Event::Arm { credential: target, timer, .. } => {
            if r.awaits_task(target, timer) {
                assert(r.holds(r.index_of_credential(target), target));
            }
        },
        Event::Register { .. } => {},
    }
    assert(0 <= k < after.clients.len());
    assert(after.clients[k].name == r.clients[i].name);
    assert(after.clients[k].key == r.clients[i].key);
    assert(after.clients[k].credential == credential);
    assert(after.holds(k, credential));
    after.lemma_index_of_credential(k, credential);
    assert(after.goes_by(k, r.clients[i].name));
    after.lemma_index_of_name(k, r.clients[i].name);
}

/// A client that reconnects within its grace period is where it would be
/// had its session never dropped: the table of clients is the one that
/// results from attaching the new connection straight away, with the same
/// name and the same credential, and no timer is pending for the client.
pub proof fn law_reconnect_restores_the_session(
    r: RegistryModel,
    credential: Seq<char>,
    outbound: UnboundedSender<Message>,
)
    requires
        r.wf(),
        r.is_connected(credential),
    ensures
        r.detached(credential).upgrade_outcome(credential) == Ok::<(), RelayError>(()),
        r.detached(credential).attached(credential, outbound).clients == r.attached(
            credential,
            outbound,
        ).clients,
        r.detached(credential).attached(credential, outbound).is_connected(credential),
        forall|timer: nat|
            !r.detached(credential).attached(credential, outbound).is_pending(credential, timer),
{
    let i = r.index_of_credential(credential);
    assert(r.holds(i, credential));
    let grace = LinkModel::Grace { timer: r.timers, task: None };
    lemma_relinked_lookup(r, i, grace, r.timers + 1);
    let gone = r.detached(credential);
    assert(gone.holds(i, credential));
    gone.lemma_index_of_credential(i, credential);
    let link = LinkModel::Connected { outbound };
    lemma_relinked_lookup(gone, i, link, gone.timers);
    let back = gone.attached(credential, outbound);
    assert(back.clients =~= r.attached(credential, outbound).clients);
    assert(back.holds(i, credential));
    back.lemma_index_of_credential(i, credential);
}

/// A grace period that nobody answers ends in eviction: when the timer
/// that was started at the disconnection runs out, the entry is deleted, its
/// credential and its name are no longer registered, and every other entry
/// is as it was.
pub proof fn law_unanswered_grace_ends_in_eviction(r: RegistryModel, credential: Seq<char>)
    requires
        r.wf(),
        r.is_connected(credential),
    ensures
        r.detached(credential).expired(credential, r.timers).clients == r.removed(
            credential,
        ).clients,
        !r.detached(credential).expired(credential, r.timers).has_credential(credential),
        !r.detached(credential).expired(credential, r.timers).has_name(
            r.client_with_credential(credential)->0.name,
        ),
{
    let i = r.index_of_credential(credential);
    assert(r.holds(i, credential));
    law_grace_keeps_the_entry(r, credential);
    let grace = LinkModel::Grace { timer: r.timers, task: None };
    lemma_relinked_lookup(r, i, grace, r.timers + 1);
    let gone = r.detached(credential);
    assert(gone.holds(i, credential));
    gone.lemma_index_of_credential(i, credential);
    lemma_without_lookup(gone, i);
    let evicted = gone.expired(credential, r.timers);
    assert(evicted.clients =~= r.removed(credential).clients);
}

/// Only the pending timer evicts: a timer whose number is not the one
/// pending for the client changes nothing when it runs out.
pub proof fn law_only_the_pending_timer_evicts(r: RegistryModel, credential: Seq<char>, timer: nat)
    requires
        !r.is_pending(credential, timer),
    ensures
        r.expired(credential, timer) == r,
{
}

/// The number that the next closed connection will get is pending for no
/// client: a timer that is handed out can be told from every timer that is
/// still running.
pub proof fn law_next_timer_number_is_unused(r: RegistryModel, credential: Seq<char>)
    requires
        r.wf(),
    ensures
        !r.is_pending(credential, r.timers),
{
    if r.has_credential(credential) {
        let i = r.index_of_credential(credential);
        assert(r.holds(i, credential));
    }
}

/// No event lowers the count of timer numbers handed out, so a number is
/// never handed out twice.
pub proof fn law_timer_count_never_drops(r: RegistryModel, event: Event)
    ensures
        r.timers <= r.next(event).timers,
{
}

/// A timer that was cancelled by a reconnection cannot evict: if the client
/// reconnects before the timer runs out, the timer changes nothing when it
/// does.
pub proof fn law_cancelled_timer_cannot_evict(
    r: RegistryModel,
    credential: Seq<char>,
    outbound: UnboundedSender<Message>,
)
    requires
        r.wf(),
        r.is_connected(credential),
    ensures
        r.detached(credential).attached(credential, outbound).expired(credential, r.timers)
            == r.detached(credential).attached(credential, outbound),
{
    law_reconnect_restores_the_session(r, credential, outbound);
}

/// A timer that was superseded cannot evict: if the client reconnects and
/// disconnects again, the timer of the first disconnection changes nothing
/// when it runs out, and the timer of the second is the pending one.
pub proof fn law_superseded_timer_cannot_evict(
    r: RegistryModel,
    credential: Seq<char>,
    outbound: UnboundedSender<Message>,
)
    requires
        r.wf(),
        r.is_connected(credential),
    ensures
        ({
            let again = r.detached(credential).attached(credential, outbound).detached(credential);
            &&& again.is_pending(credential, r.timers + 1)
            &&& again.expired(credential, r.timers) == again
        }),
{
    law_reconnect_restores_the_session(r, credential, outbound);
    let back = r.detached(credential).attached(credential, outbound);
    let gone = r.detached(credential);
    law_well_formedness_is_invariant(r, Event::Detach { credential });
    law_well_formedness_is_invariant(gone, Event::Attach { credential, outbound });
    law_grace_keeps_the_entry(back, credential);
}

/// Detaching twice is detaching once: the second report of a closed
/// connection starts no timer and changes nothing.
pub proof fn law_detach_is_idempotent(r: RegistryModel, credential: Seq<char>)
    requires
        r.wf(),
    ensures
        r.detached(credential).detach_ticket(credential).is_none(),
        r.detached(credential).detached(credential) == r.detached(credential),
{
    if r.is_connected(credential) {
        law_grace_keeps_the_entry(r, credential);
    }
}

/// Removing twice is removing once.
pub proof fn law_remove_is_idempotent(r: RegistryModel, credential: Seq<char>)
    requires
        r.wf(),
    ensures
        !r.removed(credential).has_credential(credential),
        r.removed(credential).removed(credential) == r.removed(credential),
{
    if r.has_credential(credential) {
        let i = r.index_of_credential(credential);
        assert(r.holds(i, credential));
        lemma_without_lookup(r, i);
    }
}

/// A timer evicts at most once: when the same timer runs out a second
/// time, nothing changes.
pub proof fn law_expire_is_idempotent(r: RegistryModel, credential: Seq<char>, timer: nat)
    requires
        r.wf(),
    ensures
        r.expired(credential, timer).expired(credential, timer) == r.expired(credential, timer),
{
    if r.is_pending(credential, timer) {
        let i = r.index_of_credential(credential);
        assert(r.holds(i, credential));
        lemma_without_lookup(r, i);
    }
}

/// A listing shows whole entries and shows each client once: every line
/// carries the name of one registered client and its credential, which is
/// not empty; both lead back to that client; and no two lines share a name
/// up to case or a credential.
pub proof fn law_listing_is_consistent(r: RegistryModel)
    requires
        r.wf(),
    ensures
        r.listing().len() == r.clients.len(),
        forall|i: int|
            0 <= i < r.listing().len() ==> {
                &&& (#[trigger] r.listing()[i]).credential.len() > 0
                &&& r.client_with_credential(r.listing()[i].credential) == Some(r.clients[i])
                &&& r.client_named(r.listing()[i].name) == Some(r.clients[i])
            },
        forall|i: int, j: int|
            #![trigger r.listing()[i], r.listing()[j]]
            0 <= i < j < r.listing().len() ==> lowercase(r.listing()[i].name) != lowercase(
                r.listing()[j].name,
            ) && r.listing()[i].credential != r.listing()[j].credential,
{
    assert forall|i: int| 0 <= i < r.listing().len() implies {
        &&& (#[trigger] r.listing()[i]).credential.len() > 0
        &&& r.client_with_credential(r.listing()[i].credential) == Some(r.clients[i])
        &&& r.client_named(r.listing()[i].name) == Some(r.clients[i])
    } by {
        assert(r.clients[i].credential.len() > 0);
        assert(r.holds(i, r.clients[i].credential));
        r.lemma_index_of_credential(i, r.clients[i].credential);
        assert(r.goes_by(i, r.clients[i].name));
        r.lemma_index_of_name(i, r.clients[i].name);
    }
    assert forall|i: int, j: int|
        #![trigger r.listing()[i], r.listing()[j]]
        0 <= i < j < r.listing().len() implies lowercase(r.listing()[i].name) != lowercase(
        r.listing()[j].name,
    ) && r.listing()[i].credential != r.listing()[j].credential by {
        assert(r.clients[i].key != r.clients[j].key);
        assert(r.clients[i].credential != r.clients[j].credential);
    }
}

/// A registration shows up in the listing as one whole line or not at all:
/// on success the listing grows by one line with the name as given, the
/// credential that was issued and no connection; on failure it is
/// unchanged.
pub proof fn law_registration_lists_a_whole_entry(
    r: RegistryModel,
    name: Seq<char>,
    credential: Seq<char>,
)
    ensures
        r.registered(name, credential).listing() == (if r.admits(name, credential) {
            r.listing().push(
                ClientInfoModel { name, credential, presence: Presence::Registered },
            )
        } else {
            r.listing()
        }),
{
    if r.admits(name, credential) {
        assert(r.registered(name, credential).listing() =~= r.listing().push(
            ClientInfoModel { name, credential, presence: Presence::Registered },
        ));
    }
}

/// Depositing a timer's task changes nothing that can be observed: the
/// listing is the same, and every client is pending under the timer it was
/// pending under.
pub proof fn law_arm_keeps_every_state(
    r: RegistryModel,
    credential: Seq<char>,
    timer: nat,
    task: JoinHandle<()>,
    other: Seq<char>,
    pending: nat,
)
    requires
        r.wf(),
    ensures
        r.armed(credential, timer, task).listing() == r.listing(),
        r.armed(credential, timer, task).timers == r.timers,
        r.armed(credential, timer, task).is_pending(other, pending) == r.is_pending(
            other,
            pending,
        ),
{
    if r.awaits_task(credential, timer) {
        let i = r.index_of_credential(credential);
        assert(r.holds(i, credential));
        let link = LinkModel::Grace { timer, task: Some(task) };
        lemma_relinked_lookup(r, i, link, r.timers);
        let after = r.armed(credential, timer, task);
        assert(after.listing() =~= r.listing());
        if r.has_credential(other) {
            let k = r.index_of_credential(other);
            assert(r.holds(k, other));
            assert(after.index_of_credential(other) == k);
        }
    }
}

/// "Registered" is the state of a client that never connected, and no
/// other: once a client has been connected, no event brings it back to that
/// state for as long as it stays in the registry.
pub proof fn law_registered_is_the_initial_state_only(
    r: RegistryModel,
    credential: Seq<char>,
    event: Event,
)
    requires
        r.wf(),
        r.client_with_credential(credential) matches Some(client) && !(client.link is Registered),
    ensures
        r.next(event).client_with_credential(credential) matches Some(client) ==> !(client.link
            is Registered),
{
    let i = r.index_of_credential(credential);
    assert(r.holds(i, credential));
    let after = r.next(event);
    law_well_formedness_is_invariant(r, event);
    match event {
        Event::Register { name, credential: generated } => {
            if r.admits(name, generated) {
                assert(after.holds(i, credential));
                after.lemma_index_of_credential(i, credential);
            }
        },
        Event::Attach { credential: target, outbound } => {
            if r.has_credential(target) {
                let k = r.index_of_credential(target);
                assert(r.holds(k, target));
                lemma_relinked_lookup(r, k, LinkModel::Connected { outbound }, r.timers);
                assert(after.index_of_credential(credential) == i);
            }
        },
        Event::Detach { credential: target } => {
            if r.is_connected(target) {
                let k = r.index_of_credential(target);
                assert(r.holds(k, target));
                lemma_relinked_lookup(
                    r,
                    k,
                    LinkModel::Grace { timer: r.timers, task: None },
                    r.timers + 1,
                );
                assert(after.index_of_credential(credential) == i);
            }
        },
        Event::Arm { credential: target, timer, task } => {
            if r.awaits_task(target, timer) {
                let k = r.index_of_credential(target);
                assert(r.holds(k, target));
                lemma_relinked_lookup(r, k, LinkModel::Grace { timer, task: Some(task) }, r.timers);
                assert(after.index_of_credential(credential) == i);
            }
        },
        Event::Expire { credential: target, timer } => {
            if r.is_pending(target, timer) {
                lemma_removed_entry_was_there(r, target, credential);
            }
        },
        Event::Remove { credential: target } => {
            if r.has_credential(target) {
                lemma_removed_entry_was_there(r, target, credential);
            }
        },
    }
}

} // verus!

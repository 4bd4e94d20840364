//! The registry as contracts see it, and what each event does to it.

use vstd::prelude::*;
use crate::error::RelayError;
use crate::link::{LinkModel, Presence};
use crate::message::{Message, MessageModel};
use crate::name::lowercase;
use tokio::sync::mpsc::UnboundedSender;
use tokio::task::JoinHandle;

verus! {

/// One registered client, as contracts see it.
pub struct ClientModel {
    /// Display name, in the casing given at registration.
    pub name: Seq<char>,
    /// The name under which the client is found: the lowercase form of
    /// `name`.
    pub key: Seq<char>,
    /// The credential issued at registration.
    pub credential: Seq<char>,
    /// State of the client's connection.
    pub link: LinkModel,
}

impl ClientModel {
    /// A client that has just registered: filed under the lowercase form of
    /// its name, and not connected.
    pub open spec fn registered(name: Seq<char>, credential: Seq<char>) -> ClientModel {
        ClientModel { name, key: lowercase(name), credential, link: LinkModel::Registered }
    }

    /// The client's line in a listing.
    pub open spec fn info(self) -> ClientInfoModel {
        ClientInfoModel {
            name: self.name,
            credential: self.credential,
            presence: self.link.presence(),
        }
    }

    /// The same client in another connection state.
    pub open spec fn with_link(self, link: LinkModel) -> ClientModel {
        ClientModel { name: self.name, key: self.key, credential: self.credential, link }
    }
}

/// `drawn` followed by `pad` zeros.
pub open spec fn padded(drawn: Seq<char>, pad: nat) -> Seq<char> {
    drawn + Seq::new(pad, |i: int| '0')
}

/// One line of a listing of the registry: a client without its handles.
pub struct ClientInfoModel {
    pub name: Seq<char>,
    pub credential: Seq<char>,
    pub presence: Presence,
}

/// The registry as contracts see it: the clients in the order they
/// registered, the number of eviction timers handed out so far, and every
/// credential that was ever issued.
pub struct RegistryModel {
    pub clients: Seq<ClientModel>,
    pub timers: nat,
    pub issued: Set<Seq<char>>,
}

/// Something that happens to the registry.
pub enum Event {
    /// A registration under `name`, to which `credential` was issued.
    Register { name: Seq<char>, credential: Seq<char> },
    /// A connection opened with `credential`; `outbound` leads to it.
    Attach { credential: Seq<char>, outbound: UnboundedSender<Message> },
    /// The connection opened with `credential` closed.
    Detach { credential: Seq<char> },
    /// Eviction timer number `timer` was started as `task`.
    Arm { credential: Seq<char>, timer: nat, task: JoinHandle<()> },
    /// Eviction timer number `timer` ran out.
    Expire { credential: Seq<char>, timer: nat },
    /// The entry with `credential` is to be deleted.
    Remove { credential: Seq<char> },
}

impl RegistryModel {
    /// The registry before anything was registered.
    pub open spec fn empty() -> RegistryModel {
        RegistryModel { clients: Seq::empty(), timers: 0, issued: Set::empty() }
    }

    /// Entry `i` exists and holds `credential`.
    pub open spec fn holds(self, i: int, credential: Seq<char>) -> bool {
        0 <= i < self.clients.len() && self.clients[i].credential == credential
    }

    /// Entry `i` exists and goes by `name`, compared without regard to case.
    pub open spec fn goes_by(self, i: int, name: Seq<char>) -> bool {
        0 <= i < self.clients.len() && self.clients[i].key == lowercase(name)
    }

    /// Some entry holds `credential`.
    pub open spec fn has_credential(self, credential: Seq<char>) -> bool {
        exists|i: int| self.holds(i, credential)
    }

    /// Some entry goes by `name`.
    pub open spec fn has_name(self, name: Seq<char>) -> bool {
        exists|i: int| self.goes_by(i, name)
    }

    /// Position of the entry that holds `credential`, where there is one.
    pub open spec fn index_of_credential(self, credential: Seq<char>) -> int {
        choose|i: int| self.holds(i, credential)
    }

    /// Position of the entry that goes by `name`, where there is one.
    pub open spec fn index_of_name(self, name: Seq<char>) -> int {
        choose|i: int| self.goes_by(i, name)
    }

    /// The client that holds `credential`.
    pub open spec fn client_with_credential(self, credential: Seq<char>) -> Option<ClientModel> {
        if self.has_credential(credential) {
            Some(self.clients[self.index_of_credential(credential)])
        } else {
            None
        }
    }

    /// The client that goes by `name`.
    pub open spec fn client_named(self, name: Seq<char>) -> Option<ClientModel> {
        if self.has_name(name) {
            Some(self.clients[self.index_of_name(name)])
        } else {
            None
        }
    }

    /// What every reachable registry satisfies: every entry is filed under
    /// the lowercase form of its name, no two entries share a name up to
    /// case, no two share a credential, no credential is empty, every
    /// credential in use is on record as issued, and every pending timer was
    /// handed out.
    pub open spec fn wf(self) -> bool {
        &&& forall|i: int|
            0 <= i < self.clients.len() ==> (#[trigger] self.clients[i]).key == lowercase(
                self.clients[i].name,
            )
        &&& forall|i: int|
            0 <= i < self.clients.len() ==> (#[trigger] self.clients[i]).credential.len() > 0
        &&& forall|i: int, j: int|
            #![trigger self.clients[i], self.clients[j]]
            0 <= i < j < self.clients.len() ==> self.clients[i].key != self.clients[j].key
        &&& forall|i: int, j: int|
            #![trigger self.clients[i], self.clients[j]]
            0 <= i < j < self.clients.len() ==> self.clients[i].credential
                != self.clients[j].credential
        &&& forall|i: int|
            0 <= i < self.clients.len() ==> self.issued.contains(
                (#[trigger] self.clients[i]).credential,
            )
        &&& forall|i: int|
            0 <= i < self.clients.len() ==> self.handed_out((#[trigger] self.clients[i]).link)
    }

    /// A pending timer in `link` bears a number that was handed out.
    pub open spec fn handed_out(self, link: LinkModel) -> bool {
        link matches LinkModel::Grace { timer, .. } ==> timer < self.timers
    }

    /// The same registry with another table of clients.
    pub open spec fn with_clients(self, clients: Seq<ClientModel>) -> RegistryModel {
        RegistryModel { clients, timers: self.timers, issued: self.issued }
    }

    /// The registry without entry `i`.
    pub open spec fn without(self, i: int) -> RegistryModel {
        self.with_clients(self.clients.remove(i))
    }

    /// The registry with entry `i` in another connection state and `timers`
    /// timers handed out.
    pub open spec fn relinked(self, i: int, link: LinkModel, timers: nat) -> RegistryModel {
        RegistryModel {
            clients: self.clients.update(i, self.clients[i].with_link(link)),
            timers,
            issued: self.issued,
        }
    }

    /// The same registry with entry `i` in another connection state.
    pub open spec fn with_link(self, i: int, link: LinkModel) -> RegistryModel {
        self.relinked(i, link, self.timers)
    }

    /// `credential` can be issued: it is not empty and it is not on record
    /// as issued, neither to a registered client nor to one that has since
    /// been removed or evicted.
    pub open spec fn can_issue(self, credential: Seq<char>) -> bool {
        credential.len() > 0 && !self.issued.contains(credential)
    }

    /// `credential` is `drawn` followed by `pad` zeros, it can be issued,
    /// and with fewer zeros it could not.
    pub open spec fn settles_at(self, drawn: Seq<char>, credential: Seq<char>, pad: nat) -> bool {
        &&& credential == padded(drawn, pad)
        &&& self.can_issue(credential)
        &&& forall|fewer: nat| fewer < pad ==> !self.can_issue(#[trigger] padded(drawn, fewer))
    }

    /// `credential` is what the registry issues when `drawn` was drawn: the
    /// draw itself if it can be issued, else the draw followed by as few
    /// zeros as make it a credential that can be.
    pub open spec fn settles(self, drawn: Seq<char>, credential: Seq<char>) -> bool {
        exists|pad: nat| self.settles_at(drawn, credential, pad)
    }

    /// A registration under `name` can issue `credential`: the name is free
    /// and the credential can be issued.
    pub open spec fn admits(self, name: Seq<char>, credential: Seq<char>) -> bool {
        !self.has_name(name) && self.can_issue(credential)
    }

    /// The registry after a registration under `name` that issued
    /// `credential`: a new entry, not yet connected, stands last and its
    /// credential is on record. Where the registration is not admitted
    /// nothing changes.
    pub open spec fn registered(self, name: Seq<char>, credential: Seq<char>) -> RegistryModel {
        if self.admits(name, credential) {
            RegistryModel {
                clients: self.clients.push(ClientModel::registered(name, credential)),
                timers: self.timers,
                issued: self.issued.insert(credential),
            }
        } else {
            self
        }
    }

    /// A registration under `name`, for which `drawn` was drawn, ends in
    /// `result` and leaves the registry `after`: a taken name is a conflict
    /// and changes nothing; a free name is registered with the credential
    /// that the draw settles on.
    pub open spec fn registers(
        self,
        name: Seq<char>,
        drawn: Seq<char>,
        result: Result<Seq<char>, RelayError>,
        after: RegistryModel,
    ) -> bool {
        if self.has_name(name) {
            result == Err::<Seq<char>, RelayError>(RelayError::NameConflict) && after == self
        } else {
            result matches Ok(credential) && self.settles(drawn, credential) && after
                == self.registered(name, credential)
        }
    }

    /// The registry after a connection was opened with `credential`: the
    /// client is connected through `outbound` and no timer is pending for it.
    pub open spec fn attached(
        self,
        credential: Seq<char>,
        outbound: UnboundedSender<Message>,
    ) -> RegistryModel {
        if self.has_credential(credential) {
            self.with_link(
                self.index_of_credential(credential),
                LinkModel::Connected { outbound },
            )
        } else {
            self
        }
    }

    /// The timer task that opening a connection with `credential` cancels.
    pub open spec fn cancelled_by_attach(self, credential: Seq<char>) -> Option<JoinHandle<()>> {
        match self.client_with_credential(credential) {
            Some(client) => match client.link {
                LinkModel::Grace { task, .. } => task,
                _ => None,
            },
            None => None,
        }
    }

    /// A live connection is attached to the client that holds `credential`.
    pub open spec fn is_connected(self, credential: Seq<char>) -> bool {
        self.client_with_credential(credential) matches Some(client) && client.link is Connected
    }

    /// The number of the timer that a closed connection starts: the next
    /// unused one if the client was connected, none otherwise.
    pub open spec fn detach_ticket(self, credential: Seq<char>) -> Option<nat> {
        if self.is_connected(credential) {
            Some(self.timers)
        } else {
            None
        }
    }

    /// The registry after the connection opened with `credential` closed: a
    /// connected client enters its grace period under a new timer number;
    /// for any other credential nothing changes.
    pub open spec fn detached(self, credential: Seq<char>) -> RegistryModel {
        if self.is_connected(credential) {
            self.relinked(
                self.index_of_credential(credential),
                LinkModel::Grace { timer: self.timers, task: None },
                self.timers + 1,
            )
        } else {
            self
        }
    }

    /// Whoever held `credential` in `before` still holds it here, under the
    /// same name; and if nobody did, nobody does.
    pub open spec fn keeps_identity_of(self, before: RegistryModel, credential: Seq<char>) -> bool {
        match before.client_with_credential(credential) {
            Some(client) => self.client_with_credential(credential) matches Some(same)
                && same.name == client.name && same.key == client.key && same.credential
                == client.credential && self.client_named(client.name) == Some(same),
            None => self.client_with_credential(credential).is_none(),
        }
    }

    /// The client that holds `credential` is in its grace period under timer
    /// number `timer`.
    pub open spec fn is_pending(self, credential: Seq<char>, timer: nat) -> bool {
        match self.client_with_credential(credential) {
            Some(client) => match client.link {
                LinkModel::Grace { timer: pending, .. } => pending == timer,
                _ => false,
            },
            None => false,
        }
    }

    /// The client that holds `credential` is in its grace period under timer
    /// number `timer` and no task has been deposited for that timer.
    pub open spec fn awaits_task(self, credential: Seq<char>, timer: nat) -> bool {
        self.client_with_credential(credential) matches Some(client) && client.link
            == (LinkModel::Grace { timer, task: None })
    }

    /// The registry after timer number `timer` was started as `task`: the
    /// task is kept with the client if that timer is the pending one and has
    /// no task yet; otherwise nothing changes.
    pub open spec fn armed(
        self,
        credential: Seq<char>,
        timer: nat,
        task: JoinHandle<()>,
    ) -> RegistryModel {
        if self.awaits_task(credential, timer) {
            self.with_link(
                self.index_of_credential(credential),
                LinkModel::Grace { timer, task: Some(task) },
            )
        } else {
            self
        }
    }

    /// The registry after timer number `timer` ran out: the entry is deleted
    /// if that timer is still the pending one; a cancelled or superseded
    /// timer changes nothing.
    pub open spec fn expired(self, credential: Seq<char>, timer: nat) -> RegistryModel {
        if self.is_pending(credential, timer) {
            self.without(self.index_of_credential(credential))
        } else {
            self
        }
    }

    /// The registry without the entry that holds `credential`.
    pub open spec fn removed(self, credential: Seq<char>) -> RegistryModel {
        if self.has_credential(credential) {
            self.without(self.index_of_credential(credential))
        } else {
            self
        }
    }

    /// Whether a connection may be opened with `credential`.
    pub open spec fn upgrade_outcome(self, credential: Seq<char>) -> Result<(), RelayError> {
        if self.has_credential(credential) {
            Ok(())
        } else {
            Err(RelayError::UpgradeRejected)
        }
    }

    /// The outbound channel of the client that goes by `recipient`, if that
    /// client is connected.
    pub open spec fn route_target(self, recipient: Seq<char>) -> Option<UnboundedSender<Message>> {
        match self.client_named(recipient) {
            Some(client) => match client.link {
                LinkModel::Connected { outbound } => Some(outbound),
                _ => None,
            },
            None => None,
        }
    }

    /// How routing a message ends: the sender must be recognized, then the
    /// recipient must be registered, then the recipient must be connected.
    pub open spec fn route_outcome(self, sender: Seq<char>, recipient: Seq<char>) -> Result<
        (),
        RelayError,
    > {
        if !self.has_credential(sender) {
            Err(RelayError::Unauthorized)
        } else if !self.has_name(recipient) {
            Err(RelayError::RecipientNotFound)
        } else if !(self.clients[self.index_of_name(recipient)].link is Connected) {
            Err(RelayError::RecipientOffline)
        } else {
            Ok(())
        }
    }

    /// The message that is delivered when the client holding `sender` sends
    /// `body`: it carries the sender's display name and the body untouched.
    pub open spec fn routed_message(self, sender: Seq<char>, body: Seq<char>) -> MessageModel {
        MessageModel { from: self.clients[self.index_of_credential(sender)].name, body }
    }

    /// The listing of the registry: one line for each client, in the order
    /// they registered.
    pub open spec fn listing(self) -> Seq<ClientInfoModel> {
        self.clients.map_values(|client: ClientModel| client.info())
    }

    /// The registry after `event`.
    pub open spec fn next(self, event: Event) -> RegistryModel {
        match event {
            Event::Register { name, credential } => self.registered(name, credential),
            Event::Attach { credential, outbound } => self.attached(credential, outbound),
            Event::Detach { credential } => self.detached(credential),
            Event::Arm { credential, timer, task } => self.armed(credential, timer, task),
            Event::Expire { credential, timer } => self.expired(credential, timer),
            Event::Remove { credential } => self.removed(credential),
        }
    }
}

impl RegistryModel {
    /// In a well-formed registry the entry that holds a credential is the
    /// only one, so its position is the one that `index_of_credential` picks.
    pub proof fn lemma_index_of_credential(self, i: int, credential: Seq<char>)
        requires
            self.wf(),
            self.holds(i, credential),
        ensures
            self.has_credential(credential),
            self.index_of_credential(credential) == i,
            self.client_with_credential(credential) == Some(self.clients[i]),
    {
        let j = self.index_of_credential(credential);
        assert(self.holds(j, credential));
        if i < j {
            assert(self.clients[i].credential != self.clients[j].credential);
        } else if j < i {
            assert(self.clients[j].credential != self.clients[i].credential);
        }
    }

    /// A well-formed registry keeps the identity of each of its clients.
    pub proof fn lemma_keeps_own_identity(self, credential: Seq<char>)
        requires
            self.wf(),
        ensures
            self.keeps_identity_of(self, credential),
    {
        if self.has_credential(credential) {
            let i = self.index_of_credential(credential);
            assert(self.holds(i, credential));
            assert(self.goes_by(i, self.clients[i].name));
            self.lemma_index_of_name(i, self.clients[i].name);
        }
    }

    /// In a well-formed registry the entry that goes by a name is the only
    /// one, so its position is the one that `index_of_name` picks.
    pub proof fn lemma_index_of_name(self, i: int, name: Seq<char>)
        requires
            self.wf(),
            self.goes_by(i, name),
        ensures
            self.has_name(name),
            self.index_of_name(name) == i,
            self.client_named(name) == Some(self.clients[i]),
    {
        let j = self.index_of_name(name);
        assert(self.goes_by(j, name));
        if i < j {
            assert(self.clients[i].key != self.clients[j].key);
        } else if j < i {
            assert(self.clients[j].key != self.clients[i].key);
        }
    }
}

} // verus!

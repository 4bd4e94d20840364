//! The executable registry: its storage, registration, lookup, listing and
//! removal.

use vstd::prelude::*;
use crate::credential::{
    fresh_credential, is_credential, is_lower_hex_string, lemma_padded_credential, CREDENTIAL_LEN,
};
use crate::error::RelayError;
use crate::link::{Link, LinkModel, Presence};
use crate::model::{padded, ClientInfoModel, ClientModel, RegistryModel};
use crate::name::{lowercase, to_lowercase};
use crate::wellformed::{lemma_registered_wf, lemma_relinked_wf, lemma_without_wf};

verus! {

/// One registered client.
pub struct Client {
    name: String,
    key: String,
    credential: String,
    link: Link,
}

impl View for Client {
    type V = ClientModel;

    closed spec fn view(&self) -> ClientModel {
        ClientModel {
            name: self.name@,
            key: self.key@,
            credential: self.credential@,
            link: self.link@,
        }
    }
}

impl Client {
    /// Display name, in the casing given at registration.
    pub fn name(&self) -> (name: &str)
        ensures
            name@ == self@.name,
    {
        self.name.as_str()
    }

    /// The credential issued at registration.
    pub fn credential(&self) -> (credential: &str)
        ensures
            credential@ == self@.credential,
    {
        self.credential.as_str()
    }

    /// State of the client's connection.
    pub fn presence(&self) -> (presence: Presence)
        ensures
            presence == self@.link.presence(),
    {
        self.link.presence()
    }

    /// The client's line in a listing.
    pub fn info(&self) -> (info: ClientInfo)
        ensures
            info@ == self@.info(),
    {
        ClientInfo {
            name: self.name.clone(),
            credential: self.credential.clone(),
            presence: self.link.presence(),
        }
    }

    /// The client's connection state with its handles.
    pub(crate) fn link(&self) -> (link: &Link)
        ensures
            link@ == self@.link,
    {
        &self.link
    }
}

/// One line of a listing of the registry: a copy of a client's name,
/// credential and connection state at the time the listing was taken.
#[derive(Debug)]
pub struct ClientInfo {
    pub name: String,
    pub credential: String,
    pub presence: Presence,
}

impl View for ClientInfo {
    type V = ClientInfoModel;

    open spec fn view(&self) -> ClientInfoModel {
        ClientInfoModel {
            name: self.name@,
            credential: self.credential@,
            presence: self.presence,
        }
    }
}

impl Clone for ClientInfo {
    fn clone(&self) -> (copy: ClientInfo)
        ensures
            copy@ == self@,
    {
        ClientInfo {
            name: self.name.clone(),
            credential: self.credential.clone(),
            presence: self.presence,
        }
    }
}

/// The outcome of a registration as contracts see it.
pub open spec fn credential_view(result: Result<String, RelayError>) -> Result<
    Seq<char>,
    RelayError,
> {
    match result {
        Ok(credential) => Ok(credential@),
        Err(error) => Err(error),
    }
}

/// The registry of clients: the single authority on who is registered, who
/// is connected, and who is about to be evicted. It keeps every credential
/// it has issued on record, also after the client is gone, so that none is
/// issued twice; the record grows with every registration.
///
/// Every operation takes the registry by reference, so a caller that shares
/// it between tasks keeps it behind one lock and each operation is one
/// critical section.
pub struct Registry {
    clients: Vec<Client>,
    timers: u64,
    issued: Vec<String>,
}

/// `credential` is one of the strings in `issued`.
pub open spec fn on_record(issued: Seq<String>, credential: Seq<char>) -> bool {
    exists|k: int| 0 <= k < issued.len() && (#[trigger] issued[k])@ == credential
}

impl View for Registry {
    type V = RegistryModel;

    closed spec fn view(&self) -> RegistryModel {
        RegistryModel {
            clients: self.clients@.map_values(|client: Client| client@),
            timers: self.timers as nat,
            issued: Set::new(|credential: Seq<char>| on_record(self.issued@, credential)),
        }
    }
}

impl Registry {
    /// Holds of every registry at every moment: the registry is well
    /// formed.
    #[verifier::type_invariant]
    spec fn inv(&self) -> bool {
        self@.wf()
    }

    /// A registry with no clients.
    pub fn new() -> (registry: Registry)
        ensures
            registry@ == RegistryModel::empty(),
            registry@.wf(),
    {
        let registry = Registry { clients: Vec::new(), timers: 0, issued: Vec::new() };
        assert(registry@.clients =~= Seq::empty());
        assert(registry@.issued =~= Set::empty());
        registry
    }

    /// Registers `name` and issues a credential for it.
    ///
    /// A taken name, compared without regard to case, fails with
    /// `NameConflict` and changes nothing. A free name is always
    /// registered: a credential is generated and the outcome is that of
    /// [`Registry::register_with`] for it. The credential that is returned
    /// is made of at least 32 lowercase hexadecimal digits and was never
    /// issued before, not even to a client that has since been removed or
    /// evicted.
    pub fn register(&mut self, name: &str) -> (result: Result<String, RelayError>)
        ensures
            old(self)@.wf(),
            final(self)@.wf(),
            exists|generated: Seq<char>|
                {
                    &&& #[trigger] is_credential(generated)
                    &&& old(self)@.registers(
                        name@,
                        generated,
                        credential_view(result),
                        final(self)@,
                    )
                },
            result is Err <==> old(self)@.has_name(name@),
            result matches Err(error) ==> error == RelayError::NameConflict && final(self)@ == old(
                self,
            )@,
            result matches Ok(credential) ==> {
                &&& !old(self)@.issued.contains(credential@)
                &&& is_lower_hex_string(credential@)
                &&& credential@.len() >= CREDENTIAL_LEN
                &&& final(self)@ == old(self)@.registered(name@, credential@)
            },
    {
        let key = to_lowercase(name);
        match self.position_of_key(&key) {
            Some(_) => {
                proof {
                    let any = Seq::new(CREDENTIAL_LEN as nat, |i: int| '0');
                    assert(is_credential(any));
                }
                Err(RelayError::NameConflict)
            },
            None => {
                let generated = fresh_credential();
                let credential = self.settle(generated);
                proof {
                    lemma_padded_credential(generated@, credential@);
                }
                Ok(self.enroll(name.to_owned(), key, credential))
            },
        }
    }

    /// Registers `name`, given the credential `drawn` for it.
    ///
    /// A taken name, compared without regard to case, fails with
    /// `NameConflict` and changes nothing. For a free name a new entry, not
    /// yet connected, is added last. Its credential is the draw itself if
    /// that can be issued. A draw that is empty or on record as issued, be it
    /// to a registered client or to one that has since been removed or
    /// evicted, is followed by as few `0` as make it a credential that can
    /// be issued. The credential is put on record and returned.
    pub fn register_with(&mut self, name: &str, drawn: String) -> (result: Result<
        String,
        RelayError,
    >)
        ensures
            old(self)@.wf(),
            final(self)@.wf(),
            old(self)@.registers(name@, drawn@, credential_view(result), final(self)@),
            result is Err <==> old(self)@.has_name(name@),
            result matches Ok(credential) ==> !old(self)@.issued.contains(credential@)
                && credential@.len() > 0,
    {
        let key = to_lowercase(name);
        match self.position_of_key(&key) {
            Some(_) => Err(RelayError::NameConflict),
            None => {
                let credential = self.settle(drawn);
                Ok(self.enroll(name.to_owned(), key, credential))
            },
        }
    }

    /// The client that holds `credential`, if one does.
    pub fn find_by_credential(&self, credential: &str) -> (found: Option<&Client>)
        ensures
            self@.wf(),
            match found {
                Some(client) => self@.client_with_credential(credential@) == Some(client@),
                None => self@.client_with_credential(credential@).is_none(),
            },
    {
        match self.position_of_credential(credential) {
            Some(i) => Some(&self.clients[i]),
            None => None,
        }
    }

    /// The client that goes by `name`, compared without regard to case, if
    /// one does.
    pub fn find_by_name(&self, name: &str) -> (found: Option<&Client>)
        ensures
            self@.wf(),
            match found {
                Some(client) => self@.client_named(name@) == Some(client@),
                None => self@.client_named(name@).is_none(),
            },
    {
        match self.position_of_name(name) {
            Some(i) => Some(&self.clients[i]),
            None => None,
        }
    }

    /// A listing of the registry as it is now: one line for each client, in
    /// the order they registered, each with the client's name and its
    /// credential, which is never empty. The listing is a copy: later
    /// changes to the registry do not show in it.
    pub fn snapshot(&self) -> (listing: Vec<ClientInfo>)
        ensures
            self@.wf(),
            listing@.map_values(|info: ClientInfo| info@) == self@.listing(),
            listing@.len() == self@.clients.len(),
            forall|i: int|
                0 <= i < listing@.len() ==> (#[trigger] listing@[i]).credential@.len() > 0,
    {
        proof {
            use_type_invariant(self);
        }
        let mut listing: Vec<ClientInfo> = Vec::new();
        let mut i: usize = 0;
        while i < self.clients.len()
            invariant
                self@.wf(),
                i <= self.clients.len(),
                listing@.len() == i,
                forall|j: int| 0 <= j < i ==> (#[trigger] listing@[j])@ == self@.clients[j].info(),
            decreases self.clients.len() - i,
        {
            listing.push(self.clients[i].info());
            i += 1;
        }
        assert(listing@.map_values(|info: ClientInfo| info@) =~= self@.listing());
        assert forall|i: int|
            0 <= i < listing@.len() implies (#[trigger] listing@[i]).credential@.len() > 0 by {
            assert(self@.clients[i].credential.len() > 0);
        }
        listing
    }

    /// Deletes the entry that holds `credential`. Without such an entry
    /// nothing changes, so a repeated removal does no harm.
    pub fn remove(&mut self, credential: &str)
        ensures
            old(self)@.wf(),
            final(self)@.wf(),
            final(self)@ == old(self)@.removed(credential@),
    {
        match self.position_of_credential(credential) {
            Some(i) => {
                self.delete(i);
            },
            None => {},
        }
    }

    /// Number of registered clients.
    pub fn len(&self) -> (len: usize)
        ensures
            self@.wf(),
            len == self@.clients.len(),
    {
        proof {
            use_type_invariant(self);
        }
        self.clients.len()
    }

    /// Whether no client is registered.
    pub fn is_empty(&self) -> (empty: bool)
        ensures
            self@.wf(),
            empty == (self@.clients.len() == 0),
    {
        proof {
            use_type_invariant(self);
        }
        self.clients.len() == 0
    }

    /// Number of eviction timers handed out so far.
    pub fn timers(&self) -> (timers: u64)
        ensures
            self@.wf(),
            timers == self@.timers,
    {
        proof {
            use_type_invariant(self);
        }
        self.timers
    }

    /// Where the entry that holds `credential` stands.
    pub(crate) fn position_of_credential(&self, credential: &str) -> (found: Option<usize>)
        ensures
            self@.wf(),
            self@.has_credential(credential@) == found.is_some(),
            found matches Some(i) ==> self@.holds(i as int, credential@)
                && self@.index_of_credential(credential@) == i,
    {
        proof {
            use_type_invariant(self);
        }
        let wanted = credential.to_owned();
        let mut i: usize = 0;
        while i < self.clients.len()
            invariant
                self@.wf(),
                wanted@ == credential@,
                i <= self.clients.len(),
                forall|j: int| 0 <= j < i ==> !self@.holds(j, credential@),
            decreases self.clients.len() - i,
        {
            if self.clients[i].credential == wanted {
                proof {
                    self@.lemma_index_of_credential(i as int, credential@);
                }
                return Some(i);
            }
            i += 1;
        }
        None
    }

    /// Where the entry that goes by `name` stands.
    pub(crate) fn position_of_name(&self, name: &str) -> (found: Option<usize>)
        ensures
            self@.wf(),
            self@.has_name(name@) == found.is_some(),
            found matches Some(i) ==> self@.goes_by(i as int, name@) && self@.index_of_name(name@)
                == i,
    {
        let key = to_lowercase(name);
        self.position_of_key(&key)
    }

    /// Entry `i`.
    pub(crate) fn client_at(&self, i: usize) -> (client: &Client)
        requires
            i < self@.clients.len(),
        ensures
            client@ == self@.clients[i as int],
    {
        &self.clients[i]
    }

    /// Puts entry `i` into another connection state, sets the number of
    /// timers handed out, and hands back the state the entry was in.
    pub(crate) fn set_link(&mut self, i: usize, link: Link, timers: u64) -> (previous: Link)
        requires
            i < old(self)@.clients.len(),
            old(self)@.timers <= timers,
            link@ matches LinkModel::Grace { timer, .. } ==> timer < timers,
        ensures
            old(self)@.wf(),
            final(self)@.wf(),
            final(self)@ == old(self)@.relinked(i as int, link@, timers as nat),
            previous@ == old(self)@.clients[i as int].link,
    {
        proof {
            use_type_invariant(&*self);
        }
        let ghost before = self@;
        let mut link = link;
        let mut clients = self.take_clients();
        std::mem::swap(&mut clients[i].link, &mut link);
        proof {
            lemma_relinked_wf(before, i as int, clients[i as int].link@, timers as nat);
            assert(clients@.map_values(|client: Client| client@) =~= before.relinked(
                i as int,
                clients[i as int].link@,
                timers as nat,
            ).clients);
        }
        self.timers = timers;
        self.clients = clients;
        link
    }

    /// Deletes entry `i`.
    pub(crate) fn delete(&mut self, i: usize)
        requires
            i < old(self)@.clients.len(),
        ensures
            old(self)@.wf(),
            final(self)@.wf(),
            final(self)@ == old(self)@.without(i as int),
    {
        proof {
            use_type_invariant(&*self);
        }
        let ghost before = self@;
        let mut clients = self.take_clients();
        let _ = clients.remove(i);
        proof {
            lemma_without_wf(before, i as int);
            assert(clients@.map_values(|client: Client| client@) =~= before.without(
                i as int,
            ).clients);
        }
        self.clients = clients;
    }

    /// Where the entry filed under `key` stands. Any name with `key` as its
    /// lowercase form is found there or nowhere.
    fn position_of_key(&self, key: &String) -> (found: Option<usize>)
        ensures
            self@.wf(),
            forall|name: Seq<char>|
                #![trigger lowercase(name)]
                lowercase(name) == key@ ==> {
                    &&& self@.has_name(name) == found.is_some()
                    &&& found matches Some(i) ==> self@.goes_by(i as int, name)
                        && self@.index_of_name(name) == i
                },
    {
        proof {
            use_type_invariant(self);
        }
        let mut i: usize = 0;
        while i < self.clients.len()
            invariant
                self@.wf(),
                i <= self.clients.len(),
                forall|j: int| 0 <= j < i ==> (#[trigger] self@.clients[j]).key != key@,
            decreases self.clients.len() - i,
        {
            if self.clients[i].key == *key {
                proof {
                    assert forall|name: Seq<char>|
                        #![trigger lowercase(name)]
                        lowercase(name) == key@ implies self@.has_name(name) && self@.goes_by(
                        i as int,
                        name,
                    ) && self@.index_of_name(name) == i by {
                        self@.lemma_index_of_name(i as int, name);
                    }
                }
                return Some(i);
            }
            i += 1;
        }
        proof {
            assert forall|name: Seq<char>|
                #![trigger lowercase(name)]
                lowercase(name) == key@ implies !self@.has_name(name) by {
                if self@.has_name(name) {
                    assert(self@.goes_by(self@.index_of_name(name), name));
                }
            }
        }
        None
    }

    /// Whether `credential` is on record as issued.
    fn is_on_record(&self, credential: &String) -> (found: bool)
        ensures
            found == self@.issued.contains(credential@),
    {
        let mut k: usize = 0;
        while k < self.issued.len()
            invariant
                k <= self.issued.len(),
                forall|j: int| 0 <= j < k ==> (#[trigger] self.issued[j])@ != credential@,
            decreases self.issued.len() - k,
        {
            if self.issued[k] == *credential {
                return true;
            }
            k += 1;
        }
        false
    }

    /// The length of the longest credential on record.
    fn longest_on_record(&self) -> (longest: usize)
        ensures
            forall|credential: Seq<char>|
                self@.issued.contains(credential) ==> credential.len() <= longest,
    {
        let mut longest: usize = 0;
        let mut k: usize = 0;
        while k < self.issued.len()
            invariant
                k <= self.issued.len(),
                forall|j: int| 0 <= j < k ==> (#[trigger] self.issued[j])@.len() <= longest,
            decreases self.issued.len() - k,
        {
            let length = self.issued[k].as_str().unicode_len();
            if length > longest {
                longest = length;
            }
            k += 1;
        }
        longest
    }

    /// The credential that is issued when `drawn` was drawn: the draw,
    /// followed by a `0` for as long as it cannot be issued.
    fn settle(&self, drawn: String) -> (credential: String)
        ensures
            self@.wf(),
            self@.settles(drawn@, credential@),
    {
        proof {
            use_type_invariant(self);
        }
        let longest = self.longest_on_record();
        let mut credential = drawn;
        let ghost pad: nat = 0;
        assert(credential@ =~= padded(drawn@, 0));
        while credential.as_str().is_empty() || (credential.as_str().unicode_len() <= longest
            && self.is_on_record(&credential))
            invariant
                credential@ == padded(drawn@, pad),
                forall|fewer: nat|
                    fewer < pad ==> !self@.can_issue(#[trigger] padded(drawn@, fewer)),
                forall|recorded: Seq<char>|
                    self@.issued.contains(recorded) ==> recorded.len() <= longest,
            decreases longest + 1 - credential@.len(),
        {
            proof {
                reveal_strlit("0");
                assert(credential@ + "0"@ =~= padded(drawn@, pad + 1));
                pad = pad + 1;
            }
            credential.append("0");
        }
        assert(self@.settles_at(drawn@, credential@, pad));
        credential
    }

    /// Adds the entry of a new client, whose name is free and whose
    /// credential can be issued, and hands back a copy of the credential.
    fn enroll(&mut self, name: String, key: String, credential: String) -> (issued: String)
        requires
            key@ == lowercase(name@),
            old(self)@.admits(name@, credential@),
        ensures
            old(self)@.wf(),
            final(self)@.wf(),
            final(self)@ == old(self)@.registered(name@, credential@),
            issued@ == credential@,
    {
        proof {
            use_type_invariant(&*self);
        }
        let issued = credential.clone();
        let ghost before = self@;
        let mut clients = self.take_clients();
        let mut record = self.take_record();
        record.push(credential.clone());
        clients.push(Client { name, key, credential, link: Link::Registered });
        proof {
            lemma_registered_wf(before, name@, credential@);
            assert(clients@.map_values(|client: Client| client@) =~= before.registered(
                name@,
                credential@,
            ).clients);
            assert forall|c: Seq<char>| on_record(record@, c) == (on_record(old(self).issued@, c)
                || c == credential@) by {
                if on_record(old(self).issued@, c) {
                    let k = choose|k: int|
                        0 <= k < old(self).issued@.len() && (#[trigger] old(self).issued@[k])@ == c;
                    assert(record@[k]@ == c);
                }
                if c == credential@ {
                    assert(record@[record@.len() - 1]@ == c);
                }
            }
            assert(Set::new(|c: Seq<char>| on_record(record@, c)) =~= before.issued.insert(
                credential@,
            ));
        }
        self.issued = record;
        self.clients = clients;
        issued
    }

    /// Moves the table of clients out, leaving an empty one behind, so that
    /// it can be changed and put back in one step.
    fn take_clients(&mut self) -> (clients: Vec<Client>)
        ensures
            clients == old(self).clients,
            final(self).clients@ =~= Seq::<Client>::empty(),
            final(self).timers == old(self).timers,
            final(self).issued == old(self).issued,
    {
        let mut clients = Vec::new();
        std::mem::swap(&mut clients, &mut self.clients);
        clients
    }

    /// Moves the record of issued credentials out of a registry whose table
    /// of clients was moved out, leaving an empty record behind.
    fn take_record(&mut self) -> (record: Vec<String>)
        requires
            old(self).clients@.len() == 0,
        ensures
            record == old(self).issued,
            final(self).issued@ =~= Seq::<String>::empty(),
            final(self).clients@ =~= Seq::<Client>::empty(),
            final(self).timers == old(self).timers,
    {
        let mut record = Vec::new();
        std::mem::swap(&mut record, &mut self.issued);
        record
    }
}

} // verus!

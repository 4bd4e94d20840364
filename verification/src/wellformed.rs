//! Single changes to the table of clients keep the registry well formed and
//! leave the lookups of all other entries as they were.

use vstd::prelude::*;
use crate::link::LinkModel;
use crate::model::RegistryModel;
use crate::name::lowercase;

verus! {

/// A registration keeps the registry well formed.
pub proof fn lemma_registered_wf(r: RegistryModel, name: Seq<char>, credential: Seq<char>)
    requires
        r.wf(),
    ensures
        r.registered(name, credential).wf(),
{
    let after = r.registered(name, credential);
    if r.admits(name, credential) {
        let last = r.clients.len() as int;
        assert forall|i: int| 0 <= i < last implies #[trigger] after.clients[i]
            == r.clients[i] by {}
        assert forall|i: int, j: int|
            0 <= i < j < after.clients.len() implies after.clients[i].key
            != after.clients[j].key by {
            assert(after.clients[i] == r.clients[i]);
            if j == last {
                assert(!r.goes_by(i, name));
            } else {
                assert(after.clients[j] == r.clients[j]);
            }
        }
        assert forall|i: int, j: int|
            0 <= i < j < after.clients.len() implies after.clients[i].credential
            != after.clients[j].credential by {
            assert(after.clients[i] == r.clients[i]);
            if j == last {
                assert(r.issued.contains(r.clients[i].credential));
            } else {
                assert(after.clients[j] == r.clients[j]);
            }
        }
        assert forall|i: int| 0 <= i < after.clients.len() implies after.issued.contains(
            (#[trigger] after.clients[i]).credential,
        ) by {
            if i < last {
                assert(after.clients[i] == r.clients[i]);
            }
        }
        assert forall|i: int| 0 <= i < after.clients.len() implies after.handed_out(
            (#[trigger] after.clients[i]).link,
        ) by {
            if i < last {
                assert(after.clients[i] == r.clients[i]);
            }
        }
    }
}

/// Putting one entry into another connection state keeps the registry well
/// formed, provided a pending timer is one that was handed out. The count of
/// timers may grow in the same step.
pub proof fn lemma_relinked_wf(r: RegistryModel, i: int, link: LinkModel, timers: nat)
    requires
        r.wf(),
        0 <= i < r.clients.len(),
        r.timers <= timers,
        link matches LinkModel::Grace { timer, .. } ==> timer < timers,
    ensures
        r.relinked(i, link, timers).wf(),
{
    let after = r.relinked(i, link, timers);
    assert forall|a: int| 0 <= a < after.clients.len() implies {
        &&& (#[trigger] after.clients[a]).name == r.clients[a].name
        &&& after.clients[a].key == r.clients[a].key
        &&& after.clients[a].credential == r.clients[a].credential
        &&& a != i ==> after.clients[a] == r.clients[a]
    } by {}
    assert forall|a: int, b: int| 0 <= a < b < after.clients.len() implies after.clients[a].key
        != after.clients[b].key by {
        assert(r.clients[a].key != r.clients[b].key);
    }
    assert forall|a: int, b: int|
        0 <= a < b < after.clients.len() implies after.clients[a].credential
        != after.clients[b].credential by {
        assert(r.clients[a].credential != r.clients[b].credential);
    }
    assert forall|a: int| 0 <= a < after.clients.len() implies after.handed_out(
        (#[trigger] after.clients[a]).link,
    ) by {
        if a != i {
            assert(r.handed_out(r.clients[a].link));
        }
    }
}

/// Deleting one entry keeps the registry well formed.
pub proof fn lemma_without_wf(r: RegistryModel, i: int)
    requires
        r.wf(),
        0 <= i < r.clients.len(),
    ensures
        r.without(i).wf(),
{
    let after = r.without(i);
    let origin = |a: int| if a < i { a } else { a + 1 };
    assert forall|a: int| 0 <= a < after.clients.len() implies #[trigger] after.clients[a]
        == r.clients[origin(a)] by {}
    assert forall|a: int, b: int| 0 <= a < b < after.clients.len() implies after.clients[a].key
        != after.clients[b].key by {
        assert(r.clients[origin(a)].key != r.clients[origin(b)].key);
    }
    assert forall|a: int, b: int|
        0 <= a < b < after.clients.len() implies after.clients[a].credential
        != after.clients[b].credential by {
        assert(r.clients[origin(a)].credential != r.clients[origin(b)].credential);
    }
    assert forall|a: int| 0 <= a < after.clients.len() implies after.handed_out(
        (#[trigger] after.clients[a]).link,
    ) by {
        assert(r.handed_out(r.clients[origin(a)].link));
    }
}

/// Putting entry `i` into another connection state changes neither which
/// credentials and names are registered nor where their entries stand.
pub proof fn lemma_relinked_lookup(r: RegistryModel, i: int, link: LinkModel, timers: nat)
    requires
        r.wf(),
        0 <= i < r.clients.len(),
        r.timers <= timers,
        link matches LinkModel::Grace { timer, .. } ==> timer < timers,
    ensures
        r.relinked(i, link, timers).wf(),
        forall|c: Seq<char>|
            #![trigger r.relinked(i, link, timers).has_credential(c)]
            r.relinked(i, link, timers).has_credential(c) == r.has_credential(c),
        forall|c: Seq<char>|
            #![trigger r.relinked(i, link, timers).index_of_credential(c)]
            r.has_credential(c) ==> r.relinked(i, link, timers).index_of_credential(c)
                == r.index_of_credential(c),
        forall|n: Seq<char>|
            #![trigger r.relinked(i, link, timers).has_name(n)]
            r.relinked(i, link, timers).has_name(n) == r.has_name(n),
        forall|n: Seq<char>|
            #![trigger r.relinked(i, link, timers).index_of_name(n)]
            r.has_name(n) ==> r.relinked(i, link, timers).index_of_name(n) == r.index_of_name(n),
{
    let after = r.relinked(i, link, timers);
    lemma_relinked_wf(r, i, link, timers);
    assert forall|c: Seq<char>|
        #![trigger after.has_credential(c)]
        after.has_credential(c) == r.has_credential(c) by {
        if r.has_credential(c) {
            let k = r.index_of_credential(c);
            assert(r.holds(k, c));
            assert(after.holds(k, c));
        }
        if after.has_credential(c) {
            let k = after.index_of_credential(c);
            assert(after.holds(k, c));
            assert(r.holds(k, c));
        }
    }
    assert forall|c: Seq<char>|
        #![trigger after.index_of_credential(c)]
        r.has_credential(c) implies after.index_of_credential(c) == r.index_of_credential(c) by {
        let k = r.index_of_credential(c);
        assert(r.holds(k, c));
        assert(after.holds(k, c));
        after.lemma_index_of_credential(k, c);
    }
    assert forall|n: Seq<char>|
        #![trigger after.has_name(n)]
        after.has_name(n) == r.has_name(n) by {
        if r.has_name(n) {
            let k = r.index_of_name(n);
            assert(r.goes_by(k, n));
            assert(after.goes_by(k, n));
        }
        if after.has_name(n) {
            let k = after.index_of_name(n);
            assert(after.goes_by(k, n));
            assert(r.goes_by(k, n));
        }
    }
    assert forall|n: Seq<char>|
        #![trigger after.index_of_name(n)]
        r.has_name(n) implies after.index_of_name(n) == r.index_of_name(n) by {
        let k = r.index_of_name(n);
        assert(r.goes_by(k, n));
        assert(after.goes_by(k, n));
        after.lemma_index_of_name(k, n);
    }
}

/// Deleting entry `i` unregisters its credential and its name and leaves
/// every other credential and name as it was.
pub proof fn lemma_without_lookup(r: RegistryModel, i: int)
    requires
        r.wf(),
        0 <= i < r.clients.len(),
    ensures
        r.without(i).wf(),
        !r.without(i).has_credential(r.clients[i].credential),
        !r.without(i).has_name(r.clients[i].name),
        forall|c: Seq<char>|
            #![trigger r.without(i).has_credential(c)]
            c != r.clients[i].credential ==> r.without(i).has_credential(c)
                == r.has_credential(c),
        forall|n: Seq<char>|
            #![trigger r.without(i).has_name(n)]
            lowercase(n) != r.clients[i].key ==> r.without(i).has_name(n)
                == r.has_name(n),
{
    let after = r.without(i);
    let origin = |a: int| if a < i { a } else { a + 1 };
    lemma_without_wf(r, i);
    assert forall|a: int| 0 <= a < after.clients.len() implies #[trigger] after.clients[a]
        == r.clients[origin(a)] by {}
    if after.has_credential(r.clients[i].credential) {
        let k = after.index_of_credential(r.clients[i].credential);
        assert(after.holds(k, r.clients[i].credential));
        assert(after.clients[k] == r.clients[origin(k)]);
        r.lemma_index_of_credential(origin(k), r.clients[i].credential);
        r.lemma_index_of_credential(i, r.clients[i].credential);
    }
    if after.has_name(r.clients[i].name) {
        let k = after.index_of_name(r.clients[i].name);
        assert(after.goes_by(k, r.clients[i].name));
        assert(after.clients[k] == r.clients[origin(k)]);
        r.lemma_index_of_name(origin(k), r.clients[i].name);
        r.lemma_index_of_name(i, r.clients[i].name);
    }
    assert forall|c: Seq<char>|
        #![trigger after.has_credential(c)]
        c != r.clients[i].credential implies after.has_credential(c) == r.has_credential(c) by {
        if r.has_credential(c) {
            let k = r.index_of_credential(c);
            assert(r.holds(k, c));
            let a = if k < i { k } else { k - 1 };
            assert(after.clients[a] == r.clients[origin(a)]);
            assert(after.holds(a, c));
        }
        if after.has_credential(c) {
            let k = after.index_of_credential(c);
            assert(after.holds(k, c));
            assert(after.clients[k] == r.clients[origin(k)]);
            assert(r.holds(origin(k), c));
        }
    }
    assert forall|n: Seq<char>|
        #![trigger after.has_name(n)]
        lowercase(n) != r.clients[i].key implies after.has_name(n) == r.has_name(n) by {
        if r.has_name(n) {
            let k = r.index_of_name(n);
            assert(r.goes_by(k, n));
            let a = if k < i { k } else { k - 1 };
            assert(after.clients[a] == r.clients[origin(a)]);
            assert(after.goes_by(a, n));
        }
        if after.has_name(n) {
            let k = after.index_of_name(n);
            assert(after.goes_by(k, n));
            assert(after.clients[k] == r.clients[origin(k)]);
            assert(r.goes_by(origin(k), n));
        }
    }
}

/// An entry that is found after the entry holding `target` was deleted is
/// an entry that was there before, unchanged.
pub proof fn lemma_removed_entry_was_there(
    r: RegistryModel,
    target: Seq<char>,
    credential: Seq<char>,
)
    requires
        r.wf(),
        r.has_credential(target),
    ensures
        r.removed(target).client_with_credential(credential) matches Some(client)
            ==> r.client_with_credential(credential) == Some(client),
{
    let i = r.index_of_credential(target);
    assert(r.holds(i, target));
    let after = r.removed(target);
    if after.has_credential(credential) {
        let k = after.index_of_credential(credential);
        assert(after.holds(k, credential));
        let origin = if k < i { k } else { k + 1 };
        assert(after.clients[k] == r.clients[origin]);
        assert(r.holds(origin, credential));
        r.lemma_index_of_credential(origin, credential);
    }
}

} // verus!

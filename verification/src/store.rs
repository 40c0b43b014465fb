//! What commands do to the data that a server holds.
//!
//! This is how the server documents its commands, as far as the heartbeat of a
//! process needs them. It is a model to reason about requests with: nothing
//! here runs.

use crate::command::{CommandView, FieldView, ValueView};
use vstd::prelude::*;

verus! {

/// What a server holds under a key.
pub enum Entry {
    Hash(Map<Seq<char>, ValueView>),
    Members(Set<Seq<char>>),
}

/// The data of a server.
pub struct Store {
    /// What is held under each key.
    pub entries: Map<Seq<char>, Entry>,
    /// The seconds that are left to those keys that expire.
    pub expiries: Map<Seq<char>, int>,
}

/// `hash` with `fields` stored in it, one after the other.
pub open spec fn with_fields(
    hash: Map<Seq<char>, ValueView>,
    fields: Seq<FieldView>,
) -> Map<Seq<char>, ValueView>
    decreases fields.len(),
{
    if fields.len() == 0 {
        hash
    } else {
        with_fields(hash, fields.drop_last()).insert(fields.last().name, fields.last().value)
    }
}

/// Whether one of `fields` has the given name.
pub open spec fn has_field(fields: Seq<FieldView>, name: Seq<char>) -> bool {
    exists|i: int| 0 <= i < fields.len() && (#[trigger] fields[i]).name == name
}

impl Store {
    /// Whether there is anything under `key` (`EXISTS`).
    pub open spec fn has(self, key: Seq<char>) -> bool {
        self.entries.contains_key(key)
    }

    /// Whether there is a hash under `key`.
    pub open spec fn has_hash(self, key: Seq<char>) -> bool {
        self.has(key) && self.entries[key] is Hash
    }

    /// Whether there is a set under `key`.
    pub open spec fn has_set(self, key: Seq<char>) -> bool {
        self.has(key) && self.entries[key] is Members
    }

    /// The hash under `key` (`HGETALL`); empty where there is none.
    pub open spec fn hash(self, key: Seq<char>) -> Map<Seq<char>, ValueView> {
        if self.has_hash(key) {
            self.entries[key]->Hash_0
        } else {
            Map::empty()
        }
    }

    /// The members of the set under `key` (`SMEMBERS`); none where there is no
    /// set.
    pub open spec fn members(self, key: Seq<char>) -> Set<Seq<char>> {
        if self.has_set(key) {
            self.entries[key]->Members_0
        } else {
            Set::empty()
        }
    }

    /// Whether the data is in order: a set has a member, and only what is there
    /// expires.
    pub open spec fn wf(self) -> bool {
        &&& forall|key: Seq<char>| #[trigger]
            self.has_set(key) ==> self.members(key) != Set::<Seq<char>>::empty()
        &&& forall|key: Seq<char>| #[trigger] self.expiries.contains_key(key) ==> self.has(key)
    }

    /// This store without `key`.
    pub open spec fn without(self, key: Seq<char>) -> Store {
        Store { entries: self.entries.remove(key), expiries: self.expiries.remove(key) }
    }

    /// This store with `entry` under `key`.
    pub open spec fn with(self, key: Seq<char>, entry: Entry) -> Store {
        Store { entries: self.entries.insert(key, entry), expiries: self.expiries }
    }

    /// Whether the server performs `command` on this store. It answers with an
    /// error to a command for a hash where there is a set and the other way
    /// round, and to one that stores no field.
    pub open spec fn accepts(self, command: CommandView) -> bool {
        match command {
            CommandView::HashSet { key, fields } => !self.has_set(key) && fields.len() > 0,
            CommandView::Expire { .. } => true,
            CommandView::SetAdd { set, .. } => !self.has_hash(set),
            CommandView::SetRemove { set, .. } => !self.has_hash(set),
            CommandView::Unlink { .. } => true,
        }
    }

    /// The store after `command`. A command that is not accepted changes
    /// nothing; a set without members is no longer there.
    pub open spec fn after(self, command: CommandView) -> Store {
        if !self.accepts(command) {
            self
        } else {
            match command {
                CommandView::HashSet { key, fields } => self.with(
                    key,
                    Entry::Hash(with_fields(self.hash(key), fields)),
                ),
                CommandView::Expire { key, seconds } => if !self.has(key) {
                    self
                } else if seconds <= 0 {
                    self.without(key)
                } else {
                    Store { entries: self.entries, expiries: self.expiries.insert(key, seconds) }
                },
                CommandView::SetAdd { set, member } => self.with(
                    set,
                    Entry::Members(self.members(set).insert(member)),
                ),
                CommandView::SetRemove { set, member } => if !self.members(set).contains(member) {
                    self
                } else if self.members(set).remove(member) =~= Set::empty() {
                    self.without(set)
                } else {
                    self.with(set, Entry::Members(self.members(set).remove(member)))
                },
                CommandView::Unlink { key } => self.without(key),
            }
        }
    }

    /// The store after the commands of one request.
    pub open spec fn after_request(self, request: Seq<CommandView>) -> Store
        decreases request.len(),
    {
        if request.len() == 0 {
            self
        } else {
            self.after_request(request.drop_last()).after(request.last())
        }
    }

    /// The store after `requests`, one after the other.
    pub open spec fn after_requests(self, requests: Seq<Seq<CommandView>>) -> Store
        decreases requests.len(),
    {
        if requests.len() == 0 {
            self
        } else {
            self.after_requests(requests.drop_last()).after_request(requests.last())
        }
    }

    /// Whether the server performs every command of a request.
    pub open spec fn accepts_request(self, request: Seq<CommandView>) -> bool
        decreases request.len(),
    {
        request.len() > 0 ==> {
            &&& self.accepts_request(request.drop_last())
            &&& self.after_request(request.drop_last()).accepts(request.last())
        }
    }

    /// Whether the server performs every command of `requests`.
    pub open spec fn accepts_requests(self, requests: Seq<Seq<CommandView>>) -> bool
        decreases requests.len(),
    {
        requests.len() > 0 ==> {
            &&& self.accepts_requests(requests.drop_last())
            &&& self.after_requests(requests.drop_last()).accepts_request(requests.last())
        }
    }
}

/// Every command keeps the data of a server in order.
pub proof fn lemma_after_keeps_order(store: Store, command: CommandView)
    requires
        store.wf(),
    ensures
        store.after(command).wf(),
{
    let after = store.after(command);
    assert forall|key: Seq<char>| #[trigger] after.has_set(key) implies after.members(key)
        != Set::<Seq<char>>::empty() by {
        match command {
            CommandView::SetAdd { set, member } if key == set && store.accepts(command) => {
                assert(after.members(key).contains(member));
            },
            _ => {
                assert(store.has_set(key));
            },
        }
    }
    assert forall|key: Seq<char>| #[trigger] after.expiries.contains_key(key) implies after.has(
        key,
    ) by {
        if store.expiries.contains_key(key) {
            assert(store.has(key));
        }
    }
}

/// What a hash holds once `fields` of different names are stored in it: their
/// values, and under any other name what it held before.
pub proof fn lemma_with_fields(hash: Map<Seq<char>, ValueView>, fields: Seq<FieldView>)
    requires
        forall|i: int, j: int|
            0 <= i < j < fields.len() ==> (#[trigger] fields[i]).name != (#[trigger] fields[j]).name,
    ensures
        forall|i: int|
            0 <= i < fields.len() ==> with_fields(hash, fields).contains_pair(
                (#[trigger] fields[i]).name,
                fields[i].value,
            ),
        forall|name: Seq<char>|
            !#[trigger] has_field(fields, name) ==> with_fields(hash, fields).contains_key(name)
                == hash.contains_key(name) && with_fields(hash, fields)[name] == hash[name],
    decreases fields.len(),
{
    if fields.len() > 0 {
        let rest = fields.drop_last();
        lemma_with_fields(hash, rest);
        assert forall|i: int| 0 <= i < fields.len() implies with_fields(
            hash,
            fields,
        ).contains_pair((#[trigger] fields[i]).name, fields[i].value) by {
            if i < rest.len() {
                assert(rest[i] == fields[i]);
            }
        }
        assert forall|name: Seq<char>| !#[trigger] has_field(fields, name) implies with_fields(
            hash,
            fields,
        ).contains_key(name) == hash.contains_key(name) && with_fields(hash, fields)[name]
            == hash[name] by {
            assert(fields[fields.len() - 1].name != name);
            if has_field(rest, name) {
                let i = choose|i: int| 0 <= i < rest.len() && (#[trigger] rest[i]).name == name;
                assert(fields[i].name == name);
            }
        }
    }
}

} // verus!

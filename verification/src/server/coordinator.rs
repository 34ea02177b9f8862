//! The coordinator: the single owner of the routing state.
//!
//! It handles one event at a time and answers with a [`Reaction`]; it never
//! sends anything itself. Every step is a step of
//! [`RoutingState`](crate::server::routing::RoutingState).

use crate::communication::common_message::{
    texts_of, ClientToServerMessage, ServerToClientMessage,
};
use crate::server::channel_message::{MainToThreadsMessage, SessionId, ThreadsToMainMessage};
use crate::server::routing::{
    deliveries_of, handles_after, note_name_set, note_sent, reason_name_already_set, reason_name_taken,
    reason_recipient_missing, reason_recipient_unavailable, reason_sender_unnamed, to_client,
    Delivery, Phase, Reaction, RoutingState,
};
use crate::server::channel_message::CommandView;
use vstd::prelude::*;
use vstd::string::StringExecFns;

verus! {

/// What the coordinator keeps about one live session.
struct SessionRecord<H> {
    identity: SessionId,
    handle: H,
    username: Option<String>,
}

/// The display name in a record, as a character sequence.
spec fn name_of<H>(record: SessionRecord<H>) -> Option<Seq<char>> {
    match record.username {
        Some(name) => Some(name@),
        None => None,
    }
}

/// Some record belongs to `identity`.
spec fn has_session<H>(records: Seq<SessionRecord<H>>, identity: SessionId) -> bool {
    exists|k: int| 0 <= k < records.len() && (#[trigger] records[k]).identity == identity
}

/// Some record holds `name`.
spec fn has_name<H>(records: Seq<SessionRecord<H>>, name: Seq<char>) -> bool {
    exists|k: int| 0 <= k < records.len() && name_of(#[trigger] records[k]) == Some(name)
}

/// Position of the record of `identity`.
spec fn slot_of<H>(records: Seq<SessionRecord<H>>, identity: SessionId) -> int {
    choose|k: int| 0 <= k < records.len() && (#[trigger] records[k]).identity == identity
}

/// Position of the record that holds `name`.
spec fn owner_slot<H>(records: Seq<SessionRecord<H>>, name: Seq<char>) -> int {
    choose|k: int| 0 <= k < records.len() && name_of(#[trigger] records[k]) == Some(name)
}

/// No identity and no display name occurs in two records.
spec fn distinct<H>(records: Seq<SessionRecord<H>>) -> bool {
    forall|a: int, b: int|
        0 <= a < records.len() && 0 <= b < records.len() && a != b ==> {
            &&& (#[trigger] records[a]).identity != (#[trigger] records[b]).identity
            &&& name_of(records[a]) is Some ==> name_of(records[a]) != name_of(records[b])
        }
}

/// The session table that a list of records stands for.
spec fn sessions_of<H>(records: Seq<SessionRecord<H>>) -> Map<SessionId, Option<Seq<char>>> {
    Map::new(
        |identity: SessionId| has_session(records, identity),
        |identity: SessionId| name_of(records[slot_of(records, identity)]),
    )
}

/// The name registry that a list of records stands for.
spec fn registry_of<H>(records: Seq<SessionRecord<H>>) -> Map<Seq<char>, SessionId> {
    Map::new(
        |name: Seq<char>| has_name(records, name),
        |name: Seq<char>| records[owner_slot(records, name)].identity,
    )
}

/// The handle of every session in a list of records.
spec fn handles_of<H>(records: Seq<SessionRecord<H>>) -> Map<SessionId, H> {
    Map::new(
        |identity: SessionId| has_session(records, identity),
        |identity: SessionId| records[slot_of(records, identity)].handle,
    )
}

/// The routing state that a phase and a list of records stand for.
spec fn state_of<H>(phase: Phase, records: Seq<SessionRecord<H>>) -> RoutingState {
    RoutingState { phase, sessions: sessions_of(records), registry: registry_of(records) }
}

/// In a list without repetition a record is found at its own position, by
/// its identity and by its name.
proof fn lemma_slot<H>(records: Seq<SessionRecord<H>>, k: int)
    requires
        distinct(records),
        0 <= k < records.len(),
    ensures
        has_session(records, records[k].identity),
        slot_of(records, records[k].identity) == k,
        sessions_of(records).dom().contains(records[k].identity),
        sessions_of(records)[records[k].identity] == name_of(records[k]),
        handles_of(records).dom().contains(records[k].identity),
        handles_of(records)[records[k].identity] == records[k].handle,
        name_of(records[k]) matches Some(name) ==> {
            &&& has_name(records, name)
            &&& owner_slot(records, name) == k
            &&& registry_of(records).dom().contains(name)
            &&& registry_of(records)[name] == records[k].identity
        },
{
    let identity = records[k].identity;
    assert(has_session(records, identity));
    let found = slot_of(records, identity);
    assert(found == k);
    if let Some(name) = name_of(records[k]) {
        assert(has_name(records, name));
        let owner = owner_slot(records, name);
        assert(owner == k);
    }
}

/// A list without repetition stands for a state whose registry and session
/// records agree.
proof fn lemma_state_wf<H>(phase: Phase, records: Seq<SessionRecord<H>>)
    requires
        distinct(records),
    ensures
        state_of(phase, records).wf(),
        handles_of(records).dom() == sessions_of(records).dom(),
{
    let state = state_of(phase, records);
    assert(handles_of(records).dom() =~= sessions_of(records).dom());
    assert forall|name: Seq<char>| #[trigger]
        state.registry.dom().contains(name) implies state.names(state.registry[name], name) by {
        let k = owner_slot(records, name);
        lemma_slot(records, k);
    }
    assert forall|identity: SessionId| #[trigger]
        state.sessions.dom().contains(identity) && state.sessions[identity] is Some implies state.binds(
        state.sessions[identity]->0,
        identity,
    ) by {
        let k = slot_of(records, identity);
        lemma_slot(records, k);
    }
}

/// Adding the record of a new, nameless session.
proof fn lemma_push<H>(records: Seq<SessionRecord<H>>, record: SessionRecord<H>)
    requires
        distinct(records),
        !has_session(records, record.identity),
        record.username is None,
    ensures
        distinct(records.push(record)),
        sessions_of(records.push(record)) == sessions_of(records).insert(record.identity, None),
        registry_of(records.push(record)) == registry_of(records),
        handles_of(records.push(record)) == handles_of(records).insert(
            record.identity,
            record.handle,
        ),
{
    let grown = records.push(record);
    assert forall|a: int, b: int|
        0 <= a < grown.len() && 0 <= b < grown.len() && a != b implies {
        &&& (#[trigger] grown[a]).identity != (#[trigger] grown[b]).identity
        &&& name_of(grown[a]) is Some ==> name_of(grown[a]) != name_of(grown[b])
    } by {
        if a < records.len() {
            assert(grown[a] == records[a]);
        }
        if b < records.len() {
            assert(grown[b] == records[b]);
        }
    }
    assert forall|identity: SessionId|
        sessions_of(grown).dom().contains(identity) <==> sessions_of(records).insert(
            record.identity,
            None,
        ).dom().contains(identity) by {
        if has_session(grown, identity) {
            let k = slot_of(grown, identity);
            if k < records.len() {
                assert(records[k] == grown[k]);
            }
        }
        if has_session(records, identity) {
            let k = slot_of(records, identity);
            assert(grown[k] == records[k]);
        }
        assert(grown[records.len() as int] == record);
    }
    assert forall|identity: SessionId| sessions_of(grown).dom().contains(identity) implies #[trigger]
        sessions_of(grown)[identity] == sessions_of(records).insert(record.identity, None)[identity] by {
        let k = slot_of(grown, identity);
        lemma_slot(grown, k);
        if k < records.len() {
            assert(records[k] == grown[k]);
            lemma_slot(records, k);
        }
    }
    assert(sessions_of(grown) =~= sessions_of(records).insert(record.identity, None));
    assert forall|identity: SessionId| handles_of(grown).dom().contains(identity) implies #[trigger]
        handles_of(grown)[identity] == handles_of(records).insert(
        record.identity,
        record.handle,
    )[identity] by {
        let k = slot_of(grown, identity);
        lemma_slot(grown, k);
        if k < records.len() {
            assert(records[k] == grown[k]);
            lemma_slot(records, k);
        }
    }
    assert(handles_of(grown) =~= handles_of(records).insert(record.identity, record.handle));
    assert forall|name: Seq<char>|
        registry_of(grown).dom().contains(name) <==> registry_of(records).dom().contains(name) by {
        if has_name(grown, name) {
            let k = owner_slot(grown, name);
            assert(k < records.len());
            assert(records[k] == grown[k]);
        }
        if has_name(records, name) {
            let k = owner_slot(records, name);
            assert(grown[k] == records[k]);
        }
    }
    assert forall|name: Seq<char>| registry_of(grown).dom().contains(name) implies #[trigger]
        registry_of(grown)[name] == registry_of(records)[name] by {
        let k = owner_slot(grown, name);
        lemma_slot(grown, k);
        assert(records[k] == grown[k]);
        lemma_slot(records, k);
    }
    assert(registry_of(grown) =~= registry_of(records));
}

/// Giving the nameless record at `k` a name that nobody holds.
proof fn lemma_name<H>(records: Seq<SessionRecord<H>>, k: int, record: SessionRecord<H>)
    requires
        distinct(records),
        0 <= k < records.len(),
        record.identity == records[k].identity,
        record.handle == records[k].handle,
        records[k].username is None,
        record.username is Some,
        !has_name(records, record.username->0@),
    ensures
        distinct(records.update(k, record)),
        sessions_of(records.update(k, record)) == sessions_of(records).insert(
            record.identity,
            name_of(record),
        ),
        registry_of(records.update(k, record)) == registry_of(records).insert(
            record.username->0@,
            record.identity,
        ),
        handles_of(records.update(k, record)) == handles_of(records),
{
    let named = records.update(k, record);
    let name = record.username->0@;
    assert forall|a: int, b: int|
        0 <= a < named.len() && 0 <= b < named.len() && a != b implies {
        &&& (#[trigger] named[a]).identity != (#[trigger] named[b]).identity
        &&& name_of(named[a]) is Some ==> name_of(named[a]) != name_of(named[b])
    } by {
        assert(a != k ==> named[a] == records[a]);
        assert(b != k ==> named[b] == records[b]);
        assert(records[a].identity != records[b].identity);
    }
    assert forall|identity: SessionId|
        sessions_of(named).dom().contains(identity) <==> sessions_of(records).insert(
            record.identity,
            name_of(record),
        ).dom().contains(identity) by {
        if has_session(named, identity) {
            let j = slot_of(named, identity);
            assert(records[j].identity == identity);
        }
        if has_session(records, identity) {
            let j = slot_of(records, identity);
            assert(named[j].identity == identity);
        }
        assert(named[k] == record);
    }
    assert forall|identity: SessionId| sessions_of(named).dom().contains(identity) implies #[trigger]
        sessions_of(named)[identity] == sessions_of(records).insert(
        record.identity,
        name_of(record),
    )[identity] by {
        let j = slot_of(named, identity);
        lemma_slot(named, j);
        if j != k {
            assert(named[j] == records[j]);
            lemma_slot(records, j);
        }
    }
    assert(sessions_of(named) =~= sessions_of(records).insert(record.identity, name_of(record)));
    assert forall|identity: SessionId| handles_of(named).dom().contains(identity) implies #[trigger]
        handles_of(named)[identity] == handles_of(records)[identity] by {
        let j = slot_of(named, identity);
        lemma_slot(named, j);
        assert(named[j].identity == records[j].identity);
        lemma_slot(records, j);
    }
    assert(handles_of(named) =~= handles_of(records));
    assert forall|other: Seq<char>|
        registry_of(named).dom().contains(other) <==> registry_of(records).insert(
            name,
            record.identity,
        ).dom().contains(other) by {
        if has_name(named, other) {
            let j = owner_slot(named, other);
            if j != k {
                assert(named[j] == records[j]);
            }
        }
        if has_name(records, other) {
            let j = owner_slot(records, other);
            assert(j != k);
            assert(named[j] == records[j]);
        }
        assert(named[k] == record);
    }
    assert forall|other: Seq<char>| registry_of(named).dom().contains(other) implies #[trigger]
        registry_of(named)[other] == registry_of(records).insert(name, record.identity)[other] by {
        let j = owner_slot(named, other);
        lemma_slot(named, j);
        if j != k {
            assert(named[j] == records[j]);
            lemma_slot(records, j);
        }
    }
    assert(registry_of(named) =~= registry_of(records).insert(name, record.identity));
}

/// Taking the record at `k` away.
proof fn lemma_remove<H>(records: Seq<SessionRecord<H>>, k: int)
    requires
        distinct(records),
        0 <= k < records.len(),
    ensures
        distinct(records.remove(k)),
        sessions_of(records.remove(k)) == sessions_of(records).remove(records[k].identity),
        registry_of(records.remove(k)) == (match name_of(records[k]) {
            Some(name) => registry_of(records).remove(name),
            None => registry_of(records),
        }),
        handles_of(records.remove(k)) == handles_of(records).remove(records[k].identity),
{
    let rest = records.remove(k);
    let gone = records[k];
    let origin = |j: int| if j < k { j } else { j + 1 };
    assert forall|j: int| 0 <= j < rest.len() implies #[trigger] rest[j] == records[origin(j)] by {}
    assert forall|a: int, b: int|
        0 <= a < rest.len() && 0 <= b < rest.len() && a != b implies {
        &&& (#[trigger] rest[a]).identity != (#[trigger] rest[b]).identity
        &&& name_of(rest[a]) is Some ==> name_of(rest[a]) != name_of(rest[b])
    } by {
        assert(rest[a] == records[origin(a)]);
        assert(rest[b] == records[origin(b)]);
    }
    assert forall|identity: SessionId|
        sessions_of(rest).dom().contains(identity) <==> sessions_of(records).remove(
            gone.identity,
        ).dom().contains(identity) by {
        if has_session(rest, identity) {
            let j = slot_of(rest, identity);
            assert(rest[j] == records[origin(j)]);
            assert(records[origin(j)].identity == identity);
        }
        if has_session(records, identity) && identity != gone.identity {
            let j = slot_of(records, identity);
            let moved = if j < k { j } else { j - 1 };
            assert(rest[moved] == records[origin(moved)]);
            assert(rest[moved].identity == identity);
        }
    }
    assert forall|identity: SessionId| sessions_of(rest).dom().contains(identity) implies #[trigger]
        sessions_of(rest)[identity] == sessions_of(records).remove(gone.identity)[identity] by {
        let j = slot_of(rest, identity);
        lemma_slot(rest, j);
        assert(rest[j] == records[origin(j)]);
        lemma_slot(records, origin(j));
    }
    assert(sessions_of(rest) =~= sessions_of(records).remove(gone.identity));
    assert forall|identity: SessionId| handles_of(rest).dom().contains(identity) implies #[trigger]
        handles_of(rest)[identity] == handles_of(records).remove(gone.identity)[identity] by {
        let j = slot_of(rest, identity);
        lemma_slot(rest, j);
        assert(rest[j] == records[origin(j)]);
        lemma_slot(records, origin(j));
    }
    assert(handles_of(rest) =~= handles_of(records).remove(gone.identity));
    let expected = match name_of(gone) {
        Some(name) => registry_of(records).remove(name),
        None => registry_of(records),
    };
    assert forall|name: Seq<char>|
        registry_of(rest).dom().contains(name) <==> expected.dom().contains(name) by {
        if has_name(rest, name) {
            let j = owner_slot(rest, name);
            assert(rest[j] == records[origin(j)]);
            assert(name_of(records[origin(j)]) == Some(name));
        }
        if has_name(records, name) && name_of(gone) != Some(name) {
            let j = owner_slot(records, name);
            let moved = if j < k { j } else { j - 1 };
            assert(rest[moved] == records[origin(moved)]);
            assert(name_of(rest[moved]) == Some(name));
        }
    }
    assert forall|name: Seq<char>| registry_of(rest).dom().contains(name) implies #[trigger]
        registry_of(rest)[name] == expected[name] by {
        let j = owner_slot(rest, name);
        lemma_slot(rest, j);
        assert(rest[j] == records[origin(j)]);
        lemma_slot(records, origin(j));
    }
    assert(registry_of(rest) =~= expected);
}

/// The identity has the form of a random UUID: its version field is 4 and
/// its variant field is binary 10.
pub open spec fn random_uuid(identity: SessionId) -> bool {
    identity & 0x0000_0000_0000_f000_c000_0000_0000_0000
        == 0x0000_0000_0000_4000_8000_0000_0000_0000
}

/// Mints the identity of a new session.
///
/// Calls `uuid::Uuid::new_v4` and returns the UUID's 128 bits as
/// `Uuid::as_u128` packs them. The value is random; `new_v4` forces the
/// version field to 4 and the variant field to binary 10, which is all the
/// contract claims. That two calls differ is not promised. `new_v4` panics
/// if the operating system cannot supply random bytes.
#[verifier::external_body]
fn mint_identity() -> (identity: SessionId)
    ensures
        random_uuid(identity),
{
    uuid::Uuid::new_v4().as_u128()
}

/// The delivery that writes `message` to the client of `target`.
fn deliver(target: SessionId, message: ServerToClientMessage) -> (delivery: Delivery)
    ensures
        delivery@ == to_client(target, message@),
{
    Delivery { target, command: MainToThreadsMessage::SendToClient(message) }
}

/// The routing state and its single writer.
pub struct Coordinator<H> {
    phase: Phase,
    sessions: Vec<SessionRecord<H>>,
}

impl<H> View for Coordinator<H> {
    type V = RoutingState;

    closed spec fn view(&self) -> RoutingState {
        state_of(self.phase, self.sessions@)
    }
}

impl<H> Coordinator<H> {
    #[verifier::type_invariant]
    spec fn inv(self) -> bool {
        distinct(self.sessions@)
    }

    /// The command handle of every live session, as it was given when the
    /// connection was accepted.
    pub closed spec fn handles(&self) -> Map<SessionId, H> {
        handles_of(self.sessions@)
    }

    /// The registry and the session records agree, and the sessions that
    /// have a handle are the live ones.
    pub open spec fn wf(&self) -> bool {
        self@.wf() && self.handles().dom() == self@.sessions.dom()
    }

    /// A running coordinator without sessions.
    pub fn new() -> (coordinator: Coordinator<H>)
        ensures
            coordinator@ == RoutingState::initial(),
            coordinator.wf(),
            coordinator.handles() == Map::<SessionId, H>::empty(),
    {
        let coordinator = Coordinator { phase: Phase::Running, sessions: Vec::new() };
        proof {
            assert(sessions_of(coordinator.sessions@) =~= Map::empty());
            assert(registry_of(coordinator.sessions@) =~= Map::empty());
            assert(handles_of(coordinator.sessions@) =~= Map::empty());
        }
        coordinator
    }

    /// The present phase.
    pub fn phase(&self) -> (phase: Phase)
        ensures
            phase == self@.phase,
            self.wf(),
    {
        proof {
            use_type_invariant(self);
            lemma_state_wf(self.phase, self.sessions@);
        }
        self.phase
    }

    /// Position of the record of `identity`, if the session is live.
    fn find_session(&self, identity: SessionId) -> (slot: Option<usize>)
        ensures
            match slot {
                Some(k) => k < self.sessions.len() && self.sessions[k as int].identity == identity,
                None => !has_session(self.sessions@, identity),
            },
    {
        let mut k: usize = 0;
        while k < self.sessions.len()
            invariant
                k <= self.sessions.len(),
                forall|j: int| 0 <= j < k ==> self.sessions[j].identity != identity,
            decreases self.sessions.len() - k,
        {
            if self.sessions[k].identity == identity {
                return Some(k);
            }
            k += 1;
        }
        None
    }

    /// Position of the record that holds `name`, if the name is bound.
    fn find_name(&self, name: &String) -> (slot: Option<usize>)
        ensures
            match slot {
                Some(k) => k < self.sessions.len() && name_of(self.sessions[k as int]) == Some(
                    name@,
                ),
                None => !has_name(self.sessions@, name@),
            },
    {
        let mut k: usize = 0;
        while k < self.sessions.len()
            invariant
                k <= self.sessions.len(),
                forall|j: int| 0 <= j < k ==> name_of(self.sessions[j]) != Some(name@),
            decreases self.sessions.len() - k,
        {
            let held = match &self.sessions[k].username {
                Some(other) => *other == *name,
                None => false,
            };
            if held {
                return Some(k);
            }
            k += 1;
        }
        None
    }

    /// Whether a session with this identity is live.
    pub fn has_session(&self, identity: SessionId) -> (live: bool)
        ensures
            live == self@.sessions.dom().contains(identity),
            self.wf(),
    {
        proof {
            use_type_invariant(self);
            lemma_state_wf(self.phase, self.sessions@);
        }
        self.find_session(identity).is_some()
    }

    /// The display name of a session: `None` if the session is not live or
    /// has not claimed a name.
    pub fn username_of(&self, identity: SessionId) -> (name: Option<String>)
        ensures
            match name {
                Some(text) => self@.names(identity, text@),
                None => !self@.sessions.dom().contains(identity)
                    || self@.sessions[identity] is None,
            },
            self.wf(),
    {
        proof {
            use_type_invariant(self);
            lemma_state_wf(self.phase, self.sessions@);
        }
        match self.find_session(identity) {
            Some(k) => {
                proof {
                    lemma_slot(self.sessions@, k as int);
                }
                match &self.sessions[k].username {
                    Some(text) => Some(text.clone()),
                    None => None,
                }
            },
            None => None,
        }
    }

    /// The session that holds `name`, if the name is bound.
    pub fn owner_of(&self, name: &String) -> (owner: Option<SessionId>)
        ensures
            match owner {
                Some(identity) => self@.binds(name@, identity),
                None => !self@.registry.dom().contains(name@),
            },
            self.wf(),
    {
        proof {
            use_type_invariant(self);
            lemma_state_wf(self.phase, self.sessions@);
        }
        match self.find_name(name) {
            Some(k) => {
                proof {
                    lemma_slot(self.sessions@, k as int);
                }
                Some(self.sessions[k].identity)
            },
            None => None,
        }
    }

    /// The command handle of a live session; `None` if the session is not
    /// live.
    pub fn handle_of(&self, identity: SessionId) -> (handle: Option<&H>)
        ensures
            match handle {
                Some(found) => self@.sessions.dom().contains(identity) && *found
                    == self.handles()[identity],
                None => !self@.sessions.dom().contains(identity),
            },
            self.wf(),
    {
        proof {
            use_type_invariant(self);
            lemma_state_wf(self.phase, self.sessions@);
        }
        match self.find_session(identity) {
            Some(k) => {
                proof {
                    lemma_slot(self.sessions@, k as int);
                }
                Some(&self.sessions[k].handle)
            },
            None => None,
        }
    }

    /// Every bound display name, once.
    pub fn usernames(&self) -> (names: Vec<String>)
        ensures
            self@.roster(texts_of(names@)),
            self.wf(),
    {
        proof {
            use_type_invariant(self);
            lemma_state_wf(self.phase, self.sessions@);
        }
        let mut names: Vec<String> = Vec::new();
        let ghost mut slots: Seq<int> = Seq::empty();
        let mut k: usize = 0;
        while k < self.sessions.len()
            invariant
                k <= self.sessions.len(),
                distinct(self.sessions@),
                slots.len() == names.len(),
                forall|i: int|
                    0 <= i < names.len() ==> 0 <= #[trigger] slots[i] < k && name_of(
                        self.sessions[slots[i]],
                    ) == Some(names[i]@),
                forall|i: int, j: int| 0 <= i < j < slots.len() ==> slots[i] < slots[j],
                forall|j: int|
                    0 <= j < k && name_of(#[trigger] self.sessions[j]) is Some ==> exists|i: int|
                        0 <= i < names.len() && #[trigger] slots[i] == j,
            decreases self.sessions.len() - k,
        {
            match &self.sessions[k].username {
                Some(text) => {
                    names.push(text.clone());
                    proof {
                        let ghost before = slots;
                        slots = slots.push(k as int);
                        assert forall|j: int|
                            0 <= j < k + 1 && name_of(
                                #[trigger] self.sessions[j],
                            ) is Some implies exists|i: int|
                            0 <= i < names.len() && #[trigger] slots[i] == j by {
                            if j < k {
                                let i = choose|i: int|
                                    0 <= i < before.len() && #[trigger] before[i] == j;
                                assert(slots[i] == j);
                            } else {
                                assert(slots[before.len() as int] == j);
                            }
                        }
                    }
                },
                None => {},
            }
            k += 1;
        }
        proof {
            let texts = texts_of(names@);
            let records = self.sessions@;
            assert forall|i: int, j: int| 0 <= i < texts.len() && 0 <= j < texts.len() && i != j implies texts[i] != texts[j] by {
                assert(slots[i] != slots[j]);
                assert(name_of(records[slots[i]]) == Some(texts[i]));
                assert(name_of(records[slots[j]]) == Some(texts[j]));
            }
            assert forall|name: Seq<char>| texts.to_set().contains(name) <==> registry_of(records).dom().contains(name) by {
                if texts.to_set().contains(name) {
                    let i = choose|i: int| 0 <= i < texts.len() && texts[i] == name;
                    assert(name_of(records[slots[i]]) == Some(name));
                }
                if has_name(records, name) {
                    let j = owner_slot(records, name);
                    let i = choose|i: int| 0 <= i < names.len() && #[trigger] slots[i] == j;
                    assert(texts[i] == name);
                }
            }
            assert(texts.to_set() =~= registry_of(records).dom());
        }
        names
    }

    /// Records a connection accepted under `identity`, with no name, and
    /// keeps `handle` as the way to its agent. Refused, with nothing
    /// changed, if the coordinator is not running or the identity is in use.
    pub fn open_session(&mut self, identity: SessionId, handle: H) -> (opened: bool)
        ensures
            opened == old(self)@.admits(identity),
            final(self)@ == (if opened {
                old(self)@.open(identity)
            } else {
                old(self)@
            }),
            final(self).handles() == (if opened {
                old(self).handles().insert(identity, handle)
            } else {
                old(self).handles()
            }),
            final(self).wf(),
    {
        proof {
            use_type_invariant(&*self);
            lemma_state_wf(self.phase, self.sessions@);
        }
        if self.phase != Phase::Running {
            return false;
        }
        if self.find_session(identity).is_some() {
            return false;
        }
        let record = SessionRecord { identity, handle, username: None };
        proof {
            lemma_push(self.sessions@, record);
            lemma_state_wf(self.phase, self.sessions@.push(record));
        }
        let mut records: Vec<SessionRecord<H>> = Vec::new();
        core::mem::swap(&mut self.sessions, &mut records);
        records.push(record);
        core::mem::swap(&mut self.sessions, &mut records);
        true
    }

    /// Accepts a connection: mints a random identity and records the
    /// session under it, as [`Coordinator::open_session`] does. Returns the
    /// identity, or `None`, with nothing changed, if the coordinator is not
    /// running or the minted identity is in use. A running coordinator
    /// none of whose live sessions has an identity of the form of a random
    /// UUID, a new one for instance, always accepts.
    pub fn accept_connection(&mut self, handle: H) -> (accepted: Option<SessionId>)
        ensures
            match accepted {
                Some(identity) => {
                    &&& random_uuid(identity)
                    &&& old(self)@.admits(identity)
                    &&& final(self)@ == old(self)@.open(identity)
                    &&& final(self).handles() == old(self).handles().insert(identity, handle)
                },
                None => {
                    &&& final(self)@ == old(self)@
                    &&& final(self).handles() == old(self).handles()
                },
            },
            !(old(self)@.phase is Running) ==> accepted is None,
            old(self)@.phase is Running && (forall|identity: SessionId|
                random_uuid(identity) ==> !old(self)@.sessions.dom().contains(identity))
                ==> accepted is Some,
            final(self).wf(),
    {
        if self.phase != Phase::Running {
            proof {
                use_type_invariant(&*self);
                lemma_state_wf(self.phase, self.sessions@);
            }
            return None;
        }
        let identity = mint_identity();
        if self.open_session(identity, handle) {
            Some(identity)
        } else {
            None
        }
    }

    /// Handles `SetUsername(name)` from the session whose record is at `k`.
    fn set_username(&mut self, k: usize, name: String) -> (answer: Delivery)
        requires
            k < old(self).sessions.len(),
        ensures
            answer@ == old(self)@.answer_set_username(
                old(self).sessions[k as int].identity,
                name@,
            ),
            final(self)@ == (if old(self)@.may_bind(old(self).sessions[k as int].identity, name@) {
                old(self)@.bind(old(self).sessions[k as int].identity, name@)
            } else {
                old(self)@
            }),
            final(self).handles() == old(self).handles(),
            final(self).wf(),
    {
        proof {
            use_type_invariant(&*self);
            lemma_state_wf(self.phase, self.sessions@);
            lemma_slot(self.sessions@, k as int);
        }
        let identity = self.sessions[k].identity;
        if self.find_name(&name).is_some() {
            return deliver(identity, ServerToClientMessage::Response(Err(text_name_taken())));
        }
        if self.sessions[k].username.is_some() {
            return deliver(
                identity,
                ServerToClientMessage::Response(Err(text_name_already_set())),
            );
        }
        let note = text_name_set(&name);
        let ghost record = SessionRecord {
            identity,
            handle: self.sessions[k as int].handle,
            username: Some(name),
        };
        proof {
            lemma_name(self.sessions@, k as int, record);
            lemma_state_wf(self.phase, self.sessions@.update(k as int, record));
        }
        let ghost before = self.sessions@;
        let mut records: Vec<SessionRecord<H>> = Vec::new();
        core::mem::swap(&mut self.sessions, &mut records);
        records[k].username = Some(name);
        assert(records@ =~= before.update(k as int, record));
        core::mem::swap(&mut self.sessions, &mut records);
        deliver(identity, ServerToClientMessage::Response(Ok(note)))
    }

    /// Handles `TextTo(recipient, text)` from the session whose record is at
    /// `k`.
    fn text_to(&self, k: usize, recipient: String, text: String) -> (reaction: Reaction)
        requires
            k < self.sessions.len(),
        ensures
            reaction@ == self@.answer_text_to(self.sessions[k as int].identity, recipient@, text@),
    {
        proof {
            use_type_invariant(self);
            lemma_slot(self.sessions@, k as int);
        }
        let identity = self.sessions[k].identity;
        match self.find_name(&recipient) {
            None => Reaction::Reply(
                deliver(identity, ServerToClientMessage::Response(Err(text_recipient_missing()))),
            ),
            Some(r) => {
                proof {
                    lemma_slot(self.sessions@, r as int);
                }
                match &self.sessions[k].username {
                    None => Reaction::Reply(
                        deliver(
                            identity,
                            ServerToClientMessage::Response(Err(text_sender_unnamed())),
                        ),
                    ),
                    Some(sender) => {
                        let note = text_sent(&recipient);
                        Reaction::Forward {
                            forward: deliver(
                                self.sessions[r].identity,
                                ServerToClientMessage::TextFrom(sender.clone(), text),
                            ),
                            on_delivered: deliver(
                                identity,
                                ServerToClientMessage::Response(Ok(note)),
                            ),
                            on_failure: deliver(
                                identity,
                                ServerToClientMessage::Response(
                                    Err(text_recipient_unavailable()),
                                ),
                            ),
                        }
                    },
                }
            },
        }
    }

    /// Removes the record of `identity`, and with it the registry entry of
    /// its name; nothing happens if the session is not live.
    fn close_session(&mut self, identity: SessionId)
        ensures
            final(self)@ == old(self)@.close(identity),
            final(self).handles() == old(self).handles().remove(identity),
            final(self).wf(),
    {
        proof {
            use_type_invariant(&*self);
            lemma_state_wf(self.phase, self.sessions@);
        }
        match self.find_session(identity) {
            None => {
                assert(self.handles().remove(identity) =~= self.handles());
            },
            Some(k) => {
                proof {
                    lemma_slot(self.sessions@, k as int);
                    lemma_remove(self.sessions@, k as int);
                    lemma_state_wf(self.phase, self.sessions@.remove(k as int));
                }
                let mut records: Vec<SessionRecord<H>> = Vec::new();
                core::mem::swap(&mut self.sessions, &mut records);
                records.remove(k);
                core::mem::swap(&mut self.sessions, &mut records);
            },
        }
    }

    /// One `Shutdown` for the agent of every live session.
    fn shutdown_orders(&self) -> (orders: Vec<Delivery>)
        ensures
            self@.shutdown_orders(deliveries_of(orders@)),
    {
        proof {
            use_type_invariant(self);
        }
        let mut orders: Vec<Delivery> = Vec::new();
        let mut k: usize = 0;
        while k < self.sessions.len()
            invariant
                k <= self.sessions.len(),
                orders.len() == k,
                forall|i: int|
                    0 <= i < k ==> (#[trigger] orders[i])@.target == self.sessions[i].identity
                        && orders[i]@.command == CommandView::Shutdown,
            decreases self.sessions.len() - k,
        {
            orders.push(
                Delivery {
                    target: self.sessions[k].identity,
                    command: MainToThreadsMessage::Shutdown,
                },
            );
            k += 1;
        }
        proof {
            let views = deliveries_of(orders@);
            let records = self.sessions@;
            assert forall|i: int| 0 <= i < views.len() implies (#[trigger] views[i]).target
                == records[i].identity && views[i].command
                == CommandView::Shutdown by {
                assert(views[i] == orders[i]@);
            }
            assert forall|identity: SessionId|
                self@.sessions.dom().contains(identity) <==> exists|i: int|
                    0 <= i < views.len() && (#[trigger] views[i]).target == identity by {
                if has_session(records, identity) {
                    let j = slot_of(records, identity);
                    assert(views[j].target == identity);
                }
                if exists|i: int| 0 <= i < views.len() && (#[trigger] views[i]).target == identity {
                    let i = choose|i: int|
                        0 <= i < views.len() && (#[trigger] views[i]).target == identity;
                    assert(records[i].identity == identity);
                }
            }
        }
        orders
    }

    /// Handles one event: updates the routing state and says what is to be
    /// sent. The new state is [`RoutingState::next`] of the old one, and the
    /// reaction is one that [`RoutingState::reacts`] accepts.
    pub fn handle(&mut self, message: ThreadsToMainMessage) -> (reaction: Reaction)
        ensures
            final(self)@ == old(self)@.next(message@),
            old(self)@.reacts(message@, reaction@),
            final(self).handles() == handles_after(old(self)@, old(self).handles(), message@),
            old(self).wf(),
            final(self).wf(),
    {
        proof {
            use_type_invariant(&*self);
            lemma_state_wf(self.phase, self.sessions@);
        }
        match message {
            ThreadsToMainMessage::Shutdown => {
                if self.phase != Phase::Running {
                    return Reaction::NotRunning;
                }
                let orders = self.shutdown_orders();
                self.phase = Phase::ShuttingDown;
                proof {
                    lemma_state_wf(self.phase, self.sessions@);
                }
                Reaction::Broadcast(orders)
            },
            ThreadsToMainMessage::ConnectionClosed(identity) => {
                if self.phase == Phase::Stopped {
                    return Reaction::NotRunning;
                }
                self.close_session(identity);
                Reaction::Silent
            },
            ThreadsToMainMessage::ReceivedFromClient(request, identity) => {
                if self.phase != Phase::Running {
                    return Reaction::NotRunning;
                }
                match self.find_session(identity) {
                    None => Reaction::UnknownSession(identity),
                    Some(k) => {
                        proof {
                            lemma_slot(self.sessions@, k as int);
                        }
                        match request {
                            ClientToServerMessage::Nothing => Reaction::Silent,
                            ClientToServerMessage::SetUsername(name) => Reaction::Reply(
                                self.set_username(k, name),
                            ),
                            ClientToServerMessage::GetUsernames => Reaction::Reply(
                                deliver(
                                    identity,
                                    ServerToClientMessage::Usernames(self.usernames()),
                                ),
                            ),
                            ClientToServerMessage::TextTo(recipient, text) => self.text_to(
                                k,
                                recipient,
                                text,
                            ),
                        }
                    },
                }
            },
        }
    }

    /// Ends a shutdown: a coordinator that is shutting down stops. In any
    /// other phase nothing changes.
    pub fn finish_shutdown(&mut self)
        ensures
            final(self)@ == old(self)@.finish(),
            final(self).handles() == old(self).handles(),
            final(self).wf(),
    {
        proof {
            use_type_invariant(&*self);
            lemma_state_wf(self.phase, self.sessions@);
        }
        if self.phase == Phase::ShuttingDown {
            self.phase = Phase::Stopped;
        }
        proof {
            lemma_state_wf(self.phase, self.sessions@);
        }
    }
}

/// The text of [`reason_name_taken`].
fn text_name_taken() -> (text: String)
    ensures
        text@ == reason_name_taken(),
{
    "name taken".to_string()
}

/// The text of [`reason_name_already_set`].
fn text_name_already_set() -> (text: String)
    ensures
        text@ == reason_name_already_set(),
{
    "name already set".to_string()
}

/// The text of [`reason_recipient_missing`].
fn text_recipient_missing() -> (text: String)
    ensures
        text@ == reason_recipient_missing(),
{
    "recipient missing".to_string()
}

/// The text of [`reason_sender_unnamed`].
fn text_sender_unnamed() -> (text: String)
    ensures
        text@ == reason_sender_unnamed(),
{
    "sender unnamed".to_string()
}

/// The text of [`reason_recipient_unavailable`].
fn text_recipient_unavailable() -> (text: String)
    ensures
        text@ == reason_recipient_unavailable(),
{
    "recipient unavailable".to_string()
}

/// The text of [`note_name_set`].
fn text_name_set(name: &String) -> (text: String)
    ensures
        text@ == note_name_set(name@),
{
    let mut text = "Set username ".to_string();
    text.append(name.as_str());
    text.append(" successfully!");
    text
}

/// The text of [`note_sent`].
fn text_sent(recipient: &String) -> (text: String)
    ensures
        text@ == note_sent(recipient@),
{
    let mut text = "Sent message to ".to_string();
    text.append(recipient.as_str());
    text
}

} // verus!

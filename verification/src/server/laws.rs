//! What holds of every run of the coordinator, proved of the routing model.

use crate::communication::common_message::{ClientMessageView, ServerMessageView};
use crate::server::channel_message::{CommandView, EventView, SessionId};
use crate::server::routing::{
    confirm, note_name_set, note_sent, reason_recipient_missing, reason_recipient_unavailable,
    refuse, to_client, DeliveryView, ReactionView, RoutingState,
};
use vstd::prelude::*;

verus! {

/// A request of one session for one display name.
pub struct Claim {
    pub identity: SessionId,
    pub name: Seq<char>,
}

impl Claim {
    /// The event by which the claim reaches the coordinator.
    pub open spec fn event(self) -> EventView {
        EventView::ReceivedFromClient(ClientMessageView::SetUsername(self.name), self.identity)
    }
}

/// The state reached from `start` once the first `count` claims have been
/// handled, one after the other.
pub open spec fn after_claims(start: RoutingState, claims: Seq<Claim>, count: nat) -> RoutingState
    decreases count,
{
    if count == 0 {
        start
    } else {
        after_claims(start, claims, (count - 1) as nat).next(claims[count - 1].event())
    }
}

/// The claim at `position` is granted when its turn comes.
pub open spec fn granted(start: RoutingState, claims: Seq<Claim>, position: nat) -> bool {
    let state = after_claims(start, claims, position);
    state.phase is Running && state.may_bind(claims[position as int].identity, claims[position as int].name)
}

/// `delivery` refuses a request of `identity`.
pub open spec fn is_refusal(delivery: DeliveryView, identity: SessionId) -> bool {
    &&& delivery.target == identity
    &&& delivery.command matches CommandView::SendToClient(ServerMessageView::Response(Err(_)))
}

/// The invariant of the routing state is kept: each event leads from a
/// state whose registry and records agree to another such state, and so do
/// accepting a connection and finishing a shutdown.
pub proof fn law_registry_stays_consistent(state: RoutingState, event: EventView, identity: SessionId)
    requires
        state.wf(),
    ensures
        RoutingState::initial().wf(),
        state.next(event).wf(),
        state.admits(identity) ==> state.open(identity).wf(),
        state.finish().wf(),
{
    let opened = state.open(identity);
    if state.admits(identity) {
        assert forall|name: Seq<char>| #[trigger]
            opened.registry.dom().contains(name) implies opened.names(
            opened.registry[name],
            name,
        ) by {
            assert(state.names(state.registry[name], name));
        }
        assert forall|other: SessionId| #[trigger]
            opened.sessions.dom().contains(other) && opened.sessions[other] is Some implies opened.binds(
            opened.sessions[other]->0,
            other,
        ) by {
            assert(state.binds(state.sessions[other]->0, other));
        }
    }
    let next = state.next(event);
    match event {
        EventView::ConnectionClosed(closed) => {
            assert forall|name: Seq<char>| #[trigger]
                next.registry.dom().contains(name) implies next.names(next.registry[name], name) by {
                assert(state.names(state.registry[name], name));
                if state.sessions.dom().contains(closed) && state.sessions[closed] is Some {
                    assert(state.binds(state.sessions[closed]->0, closed));
                }
            }
            assert forall|other: SessionId| #[trigger]
                next.sessions.dom().contains(other) && next.sessions[other] is Some implies next.binds(
                next.sessions[other]->0,
                other,
            ) by {
                assert(state.binds(state.sessions[other]->0, other));
                if state.sessions.dom().contains(closed) && state.sessions[closed] is Some {
                    assert(state.binds(state.sessions[closed]->0, closed));
                }
            }
        },
        EventView::ReceivedFromClient(ClientMessageView::SetUsername(claimed), claimer) => {
            assert forall|name: Seq<char>| #[trigger]
                next.registry.dom().contains(name) implies next.names(next.registry[name], name) by {
                if name != claimed || !state.may_bind(claimer, claimed) {
                    assert(state.names(state.registry[name], name));
                }
            }
            assert forall|other: SessionId| #[trigger]
                next.sessions.dom().contains(other) && next.sessions[other] is Some implies next.binds(
                next.sessions[other]->0,
                other,
            ) by {
                if other != claimer || !state.may_bind(claimer, claimed) {
                    assert(state.binds(state.sessions[other]->0, other));
                }
            }
        },
        _ => {},
    }
}

/// No two sessions hold the same display name.
pub proof fn law_names_are_unique(state: RoutingState, first: SessionId, second: SessionId, name: Seq<char>)
    requires
        state.wf(),
        state.names(first, name),
        state.names(second, name),
    ensures
        first == second,
{
    assert(state.binds(state.sessions[first]->0, first));
    assert(state.binds(state.sessions[second]->0, second));
}

/// A claim is answered to the claimer alone: with a confirmation if it is
/// granted, and then the name is bound to the claimer; with a refusal if it
/// is not, and then nothing changes.
pub proof fn law_claim_is_answered(state: RoutingState, claim: Claim, reaction: ReactionView)
    requires
        state.phase is Running,
        state.sessions.dom().contains(claim.identity),
        state.reacts(claim.event(), reaction),
    ensures
        ({
            &&& reaction matches ReactionView::Reply(answer)
            &&& if state.may_bind(claim.identity, claim.name) {
                &&& answer == confirm(claim.identity, note_name_set(claim.name))
                &&& state.next(claim.event()).binds(claim.name, claim.identity)
                &&& state.next(claim.event()).names(claim.identity, claim.name)
            } else {
                &&& is_refusal(answer, claim.identity)
                &&& state.next(claim.event()) == state
            }
        }),
{
}

/// Claims never unbind a name: what is registered stays registered while
/// only claims are handled.
proof fn lemma_claims_keep_names(start: RoutingState, claims: Seq<Claim>, from: nat, to: nat, name: Seq<char>)
    requires
        from <= to,
        after_claims(start, claims, from).registry.dom().contains(name),
    ensures
        after_claims(start, claims, to).registry.dom().contains(name),
    decreases to,
{
    if from < to {
        lemma_claims_keep_names(start, claims, from, (to - 1) as nat, name);
    }
}

/// Of all claims for one name, in whatever order and from whatever sessions
/// they come, at most one is granted.
pub proof fn law_one_claim_per_name(start: RoutingState, claims: Seq<Claim>, earlier: nat, later: nat)
    requires
        earlier < later < claims.len(),
        claims[earlier as int].name == claims[later as int].name,
    ensures
        !(granted(start, claims, earlier) && granted(start, claims, later)),
{
    if granted(start, claims, earlier) {
        let name = claims[earlier as int].name;
        assert(after_claims(start, claims, earlier + 1) == after_claims(
            start,
            claims,
            earlier,
        ).next(claims[earlier as int].event()));
        assert(after_claims(start, claims, earlier + 1).registry.dom().contains(name));
        lemma_claims_keep_names(start, claims, earlier + 1, later, name);
    }
}

/// While only claims are handled, the coordinator keeps running and no
/// session goes away.
proof fn lemma_claims_keep_sessions(start: RoutingState, claims: Seq<Claim>, count: nat, identity: SessionId)
    requires
        start.sessions.dom().contains(identity),
    ensures
        after_claims(start, claims, count).phase == start.phase,
        after_claims(start, claims, count).sessions.dom().contains(identity),
    decreases count,
{
    if count > 0 {
        lemma_claims_keep_sessions(start, claims, (count - 1) as nat, identity);
    }
}

/// In a sequence of claims by live sessions every claim is answered to its
/// claimer: the granted one with a confirmation, every other with a
/// refusal.
pub proof fn law_every_claim_is_answered(
    start: RoutingState,
    claims: Seq<Claim>,
    position: nat,
    reaction: ReactionView,
)
    requires
        start.phase is Running,
        forall|k: int| 0 <= k < claims.len() ==> start.sessions.dom().contains(
            (#[trigger] claims[k]).identity,
        ),
        position < claims.len(),
        after_claims(start, claims, position).reacts(claims[position as int].event(), reaction),
    ensures
        ({
            let claim = claims[position as int];
            &&& reaction matches ReactionView::Reply(answer)
            &&& if granted(start, claims, position) {
                answer == confirm(claim.identity, note_name_set(claim.name))
            } else {
                is_refusal(answer, claim.identity)
            }
        }),
{
    let claim = claims[position as int];
    lemma_claims_keep_sessions(start, claims, position, claim.identity);
    law_claim_is_answered(after_claims(start, claims, position), claim, reaction);
}

/// The answer to `GetUsernames` lists exactly the names that live sessions
/// hold when the request is handled, each once, and the request changes
/// nothing.
pub proof fn law_roster_is_exact(state: RoutingState, identity: SessionId, reaction: ReactionView)
    requires
        state.wf(),
        state.phase is Running,
        state.sessions.dom().contains(identity),
        state.reacts(
            EventView::ReceivedFromClient(ClientMessageView::GetUsernames, identity),
            reaction,
        ),
    ensures
        state.next(EventView::ReceivedFromClient(ClientMessageView::GetUsernames, identity))
            == state,
        ({
            &&& reaction matches ReactionView::Reply(answer)
            &&& answer.target == identity
            &&& answer.command matches CommandView::SendToClient(
                ServerMessageView::Usernames(names),
            )
            &&& names.no_duplicates()
            &&& forall|name: Seq<char>|
                names.contains(name) <==> exists|holder: SessionId| #[trigger]
                    state.names(holder, name)
        }),
{
    let names = reaction->Reply_0.command->SendToClient_0->Usernames_0;
    assert forall|name: Seq<char>| names.contains(name) <==> exists|holder: SessionId| #[trigger]
            state.names(holder, name) by {
        if names.contains(name) {
            assert(names.to_set().contains(name));
            assert(state.registry.dom().contains(name));
            assert(state.names(state.registry[name], name));
        }
        if exists|holder: SessionId| #[trigger] state.names(holder, name) {
            let holder = choose|holder: SessionId| #[trigger] state.names(holder, name);
            assert(state.binds(state.sessions[holder]->0, holder));
            assert(names.to_set().contains(name));
        }
    }
}

/// A text from a named sender to a named, live recipient is forwarded to
/// the recipient as coming from the sender's name; the sender's
/// confirmation comes after it. Nothing else is sent and the routing state
/// stays as it is.
pub proof fn law_text_reaches_recipient(
    state: RoutingState,
    sender: SessionId,
    sender_name: Seq<char>,
    recipient: SessionId,
    recipient_name: Seq<char>,
    text: Seq<char>,
    reaction: ReactionView,
)
    requires
        state.wf(),
        state.phase is Running,
        state.names(sender, sender_name),
        state.names(recipient, recipient_name),
        state.reacts(
            EventView::ReceivedFromClient(ClientMessageView::TextTo(recipient_name, text), sender),
            reaction,
        ),
    ensures
        reaction.deliveries(true) == seq![
            to_client(recipient, ServerMessageView::TextFrom(sender_name, text)),
            confirm(sender, note_sent(recipient_name)),
        ],
        reaction.deliveries(false) == seq![
            to_client(recipient, ServerMessageView::TextFrom(sender_name, text)),
            refuse(sender, reason_recipient_unavailable()),
        ],
        state.next(
            EventView::ReceivedFromClient(ClientMessageView::TextTo(recipient_name, text), sender),
        ) == state,
{
    assert(state.binds(state.sessions[recipient]->0, recipient));
}

/// A text to a name that nobody holds is refused to the sender; nothing is
/// delivered to anybody else and the routing state stays as it is.
pub proof fn law_text_to_unbound_name(
    state: RoutingState,
    sender: SessionId,
    recipient_name: Seq<char>,
    text: Seq<char>,
    reaction: ReactionView,
    handed_over: bool,
)
    requires
        state.phase is Running,
        state.sessions.dom().contains(sender),
        !state.registry.dom().contains(recipient_name),
        state.reacts(
            EventView::ReceivedFromClient(ClientMessageView::TextTo(recipient_name, text), sender),
            reaction,
        ),
    ensures
        reaction.deliveries(handed_over) == seq![refuse(sender, reason_recipient_missing())],
        state.next(
            EventView::ReceivedFromClient(ClientMessageView::TextTo(recipient_name, text), sender),
        ) == state,
{
}

/// Once the closure of a session has been handled, its record is gone and
/// the name it held is free: the claim of another live, nameless session
/// for that name is granted.
pub proof fn law_closed_name_is_free(
    state: RoutingState,
    closed: SessionId,
    name: Seq<char>,
    claimer: SessionId,
    reaction: ReactionView,
)
    requires
        state.wf(),
        state.phase is Running,
        state.names(closed, name),
        claimer != closed,
        state.sessions.dom().contains(claimer),
        state.sessions[claimer] is None,
        state.next(EventView::ConnectionClosed(closed)).reacts(
            (Claim { identity: claimer, name }).event(),
            reaction,
        ),
    ensures
        !state.next(EventView::ConnectionClosed(closed)).sessions.dom().contains(closed),
        !state.next(EventView::ConnectionClosed(closed)).registry.dom().contains(name),
        reaction == ReactionView::Reply(confirm(claimer, note_name_set(name))),
        state.next(EventView::ConnectionClosed(closed)).next(
            (Claim { identity: claimer, name }).event(),
        ).binds(name, claimer),
{
}

/// Whatever the coordinator asks to be delivered is addressed to a session
/// that is live when the event has been handled: every target has a
/// record, and with it a handle.
pub proof fn law_deliveries_reach_live_sessions(
    state: RoutingState,
    event: EventView,
    reaction: ReactionView,
    handed_over: bool,
    position: int,
)
    requires
        state.wf(),
        state.reacts(event, reaction),
        0 <= position < reaction.deliveries(handed_over).len(),
    ensures
        state.next(event).sessions.dom().contains(
            reaction.deliveries(handed_over)[position].target,
        ),
{
    match event {
        EventView::ReceivedFromClient(ClientMessageView::TextTo(recipient, _), _) => {
            if state.registry.dom().contains(recipient) {
                assert(state.names(state.registry[recipient], recipient));
            }
        },
        _ => {},
    }
}

/// Closing a session twice is closing it once.
pub proof fn law_closing_is_idempotent(state: RoutingState, closed: SessionId)
    ensures
        state.close(closed).close(closed) == state.close(closed),
{
}

/// A shutdown is a one-way street: a running coordinator answers the
/// shutdown signal with one `Shutdown` for every live session and no longer
/// runs afterwards; once stopped, no event changes the state or is answered.
pub proof fn law_shutdown_is_final(state: RoutingState, event: EventView, reaction: ReactionView)
    ensures
        state.phase is Running ==> state.next(EventView::Shutdown).phase is ShuttingDown,
        state.phase is ShuttingDown ==> state.finish().phase is Stopped,
        state.phase is Stopped && state.reacts(event, reaction) ==> state.next(event) == state
            && reaction == ReactionView::NotRunning,
        !(state.phase is Running) ==> !(state.next(event).phase is Running),
{
}

} // verus!

//! The server's authoritative session registry.
//!
//! Each connection moves through `Absent -> Connected -> Spawned` and falls
//! back to `Absent` when it disconnects. The registry records who is
//! connected (in registration order) and which characters exist, and each
//! transition yields the messages the transport must deliver.

use vstd::prelude::*;
use crate::protocol::{ClientMessage, DisconnectCause, Position, ServerMessage};

verus! {

/// A connection's spawned in-world character.
#[derive(Clone, Copy, Debug, PartialEq, Eq, Structural)]
pub struct CharacterRecord {
    pub connection_id: u64,
    pub entity_id: u64,
    pub position: Position,
}

/// A message handed to the transport, with who must receive it.
#[derive(Clone, Copy, Debug, PartialEq, Eq, Structural)]
pub enum Outgoing {
    /// Deliver to one connection.
    Send { to: u64, message: ServerMessage },
    /// Deliver to every connected client.
    Broadcast { message: ServerMessage },
    /// Deliver to every connected client but `except`.
    BroadcastExcept { except: u64, message: ServerMessage },
}

/// A connection event reported by the transport.
#[derive(Clone, Copy, Debug, PartialEq, Eq, Structural)]
pub enum ServerEvent {
    ClientConnected { client_id: u64 },
    ClientDisconnected { client_id: u64, reason: DisconnectCause },
}

/// The registry as a mathematical value.
pub struct LobbyView {
    /// Connected clients, in registration order.
    pub avatars: Seq<u64>,
    /// Spawned characters, in spawn order.
    pub characters: Seq<CharacterRecord>,
    /// The entity identifier the next spawn receives.
    pub next_entity_id: nat,
}

// ---------------------------------------------------------------------------
// The model

pub open spec fn is_member(avatars: Seq<u64>, id: u64) -> bool {
    avatars.contains(id)
}

pub open spec fn spawned(characters: Seq<CharacterRecord>, id: u64) -> bool {
    exists|i: int| 0 <= i < characters.len() && #[trigger] characters[i].connection_id == id
}

/// Where connection `id`'s character stands; meaningful when
/// `spawned(characters, id)`.
pub open spec fn character_index(characters: Seq<CharacterRecord>, id: u64) -> int {
    choose|i: int| 0 <= i < characters.len() && #[trigger] characters[i].connection_id == id
}

/// The character that connection `id` owns; meaningful when
/// `spawned(characters, id)`.
pub open spec fn character_of(characters: Seq<CharacterRecord>, id: u64) -> CharacterRecord {
    characters[character_index(characters, id)]
}

/// The registered clients without `id`, order kept.
pub open spec fn without_client(avatars: Seq<u64>, id: u64) -> Seq<u64> {
    if avatars.contains(id) {
        avatars.remove(avatars.index_of(id))
    } else {
        avatars
    }
}

/// The characters without the one `id` owns, order kept.
pub open spec fn without_character(characters: Seq<CharacterRecord>, id: u64) -> Seq<CharacterRecord> {
    if spawned(characters, id) {
        characters.remove(character_index(characters, id))
    } else {
        characters
    }
}

/// What a registry holds in every reachable state.
pub open spec fn lobby_inv(s: LobbyView) -> bool {
    &&& s.avatars.no_duplicates()
    &&& 1 <= s.next_entity_id <= u64::MAX
    &&& forall|i: int, j: int|
        0 <= i < s.characters.len() && 0 <= j < s.characters.len() && i != j
            ==> #[trigger] s.characters[i].connection_id != #[trigger] s.characters[j].connection_id
                && s.characters[i].entity_id != s.characters[j].entity_id
    &&& forall|i: int| 0 <= i < s.characters.len()
        ==> is_member(s.avatars, #[trigger] s.characters[i].connection_id)
            && s.characters[i].entity_id < s.next_entity_id
}

/// One "peer connected" notice to the newcomer `id` for each registered
/// client, in registration order.
pub open spec fn catch_up(avatars: Seq<u64>, id: u64) -> Seq<Outgoing> {
    avatars.map_values(|a: u64| Outgoing::Send { to: id, message: ServerMessage::PlayerConnected { id: a } })
}

pub open spec fn connect_step(s: LobbyView, id: u64) -> (LobbyView, Seq<Outgoing>) {
    if is_member(s.avatars, id) {
        (s, seq![])
    } else {
        (
            LobbyView { avatars: s.avatars.push(id), ..s },
            catch_up(s.avatars, id).push(
                Outgoing::Broadcast { message: ServerMessage::PlayerConnected { id } },
            ),
        )
    }
}

pub open spec fn disconnect_step(s: LobbyView, id: u64, reason: DisconnectCause) -> (LobbyView, Seq<Outgoing>) {
    let rest = LobbyView {
        avatars: without_client(s.avatars, id),
        characters: without_character(s.characters, id),
        next_entity_id: s.next_entity_id,
    };
    let notice = Outgoing::Broadcast { message: ServerMessage::PlayerDisconnected { id, reason } };
    if spawned(s.characters, id) {
        let removal = Outgoing::Broadcast {
            message: ServerMessage::EntityRemoved {
                server_entity: character_of(s.characters, id).entity_id,
            },
        };
        (rest, seq![notice, removal])
    } else {
        (rest, seq![notice])
    }
}

pub open spec fn spawn_step(s: LobbyView, id: u64, position: Position) -> (LobbyView, Seq<Outgoing>) {
    if !is_member(s.avatars, id) || spawned(s.characters, id) || s.next_entity_id >= u64::MAX {
        (s, seq![])
    } else {
        let e = s.next_entity_id as u64;
        (
            LobbyView {
                characters: s.characters.push(
                    CharacterRecord { connection_id: id, entity_id: e, position },
                ),
                next_entity_id: s.next_entity_id + 1,
                ..s
            },
            seq![
                Outgoing::BroadcastExcept {
                    except: id,
                    message: ServerMessage::SpawnPlayer { server_entity: e, position },
                },
                Outgoing::Send { to: id, message: ServerMessage::SpawnHim { server_entity: e, position } },
            ],
        )
    }
}

pub open spec fn event_step(s: LobbyView, e: ServerEvent) -> (LobbyView, Seq<Outgoing>) {
    match e {
        ServerEvent::ClientConnected { client_id } => connect_step(s, client_id),
        ServerEvent::ClientDisconnected { client_id, reason } => disconnect_step(s, client_id, reason),
    }
}

/// The state after the events, in order, and everything they sent, in order.
pub open spec fn run_events(s: LobbyView, events: Seq<ServerEvent>) -> (LobbyView, Seq<Outgoing>)
    decreases events.len(),
{
    if events.len() == 0 {
        (s, seq![])
    } else {
        let (s1, o1) = run_events(s, events.drop_last());
        let (s2, o2) = event_step(s1, events.last());
        (s2, o1 + o2)
    }
}

pub open spec fn message_step(s: LobbyView, from: u64, m: ClientMessage, spawn_point: Position) -> (LobbyView, Seq<Outgoing>) {
    match m {
        ClientMessage::SpawnMe => spawn_step(s, from, spawn_point),
    }
}

pub open spec fn run_messages(s: LobbyView, messages: Seq<(u64, ClientMessage)>, spawn_point: Position) -> (LobbyView, Seq<Outgoing>)
    decreases messages.len(),
{
    if messages.len() == 0 {
        (s, seq![])
    } else {
        let (s1, o1) = run_messages(s, messages.drop_last(), spawn_point);
        let (s2, o2) = message_step(s1, messages.last().0, messages.last().1, spawn_point);
        (s2, o1 + o2)
    }
}

/// Whether connection `r`, connected when `o` is sent, receives it.
pub open spec fn reaches(o: Outgoing, r: u64) -> bool {
    match o {
        Outgoing::Send { to, .. } => to == r,
        Outgoing::Broadcast { .. } => true,
        Outgoing::BroadcastExcept { except, .. } => except != r,
    }
}

pub open spec fn payload(o: Outgoing) -> ServerMessage {
    match o {
        Outgoing::Send { message, .. } => message,
        Outgoing::Broadcast { message } => message,
        Outgoing::BroadcastExcept { message, .. } => message,
    }
}

/// The messages connection `r` receives from `outs`, in sending order.
pub open spec fn inbox(outs: Seq<Outgoing>, r: u64) -> Seq<ServerMessage>
    decreases outs.len(),
{
    if outs.len() == 0 {
        seq![]
    } else if reaches(outs.last(), r) {
        inbox(outs.drop_last(), r).push(payload(outs.last()))
    } else {
        inbox(outs.drop_last(), r)
    }
}

// ---------------------------------------------------------------------------
// Invariant preservation

proof fn lemma_connect_keeps_inv(s: LobbyView, id: u64)
    requires
        lobby_inv(s),
    ensures
        lobby_inv(connect_step(s, id).0),
{
    if !is_member(s.avatars, id) {
        let t = connect_step(s, id).0;
        assert forall|i: int| 0 <= i < t.characters.len() implies is_member(
            t.avatars,
            #[trigger] t.characters[i].connection_id,
        ) by {
            let k = s.avatars.index_of(t.characters[i].connection_id);
            assert(t.avatars[k] == t.characters[i].connection_id);
        }
    }
}

/// After a disconnect each remaining entry is an earlier one, and none is
/// `id`'s.
proof fn lemma_disconnect_forgets(s: LobbyView, id: u64, reason: DisconnectCause)
    requires
        lobby_inv(s),
    ensures
        ({
            let t = disconnect_step(s, id, reason).0;
            let x = s.avatars.index_of(id);
            let y = character_index(s.characters, id);
            &&& forall|k: int| 0 <= k < t.avatars.len() ==> {
                let j = if s.avatars.contains(id) && k >= x { k + 1 } else { k };
                &&& 0 <= j < s.avatars.len()
                &&& #[trigger] t.avatars[k] == s.avatars[j]
                &&& t.avatars[k] != id
            }
            &&& forall|k: int| 0 <= k < t.characters.len() ==> {
                let j = if spawned(s.characters, id) && k >= y { k + 1 } else { k };
                &&& 0 <= j < s.characters.len()
                &&& #[trigger] t.characters[k] == s.characters[j]
                &&& t.characters[k].connection_id != id
            }
        }),
{
    let x = s.avatars.index_of(id);
    let y = character_index(s.characters, id);
    if s.avatars.contains(id) {
        s.avatars.remove_ensures(x);
    }
    if spawned(s.characters, id) {
        s.characters.remove_ensures(y);
    }
}

proof fn lemma_disconnect_keeps_inv(s: LobbyView, id: u64, reason: DisconnectCause)
    requires
        lobby_inv(s),
    ensures
        lobby_inv(disconnect_step(s, id, reason).0),
{
    let t = disconnect_step(s, id, reason).0;
    let chars = s.characters;
    // Index in `s.avatars` of the entry at `k` of `t.avatars`, and likewise
    // for characters.
    let x = s.avatars.index_of(id);
    let y = character_index(chars, id);
    let old_avatar = |k: int| if s.avatars.contains(id) && k >= x { k + 1 } else { k };
    let old_char = |k: int| if spawned(chars, id) && k >= y { k + 1 } else { k };
    if s.avatars.contains(id) {
        s.avatars.remove_ensures(x);
    }
    if spawned(chars, id) {
        chars.remove_ensures(y);
    }
    lemma_disconnect_forgets(s, id, reason);
    assert(t.avatars.no_duplicates()) by {
        assert forall|i: int, j: int| 0 <= i < t.avatars.len() && 0 <= j < t.avatars.len() && i != j
            implies t.avatars[i] != t.avatars[j] by {
            assert(s.avatars[old_avatar(i)] == t.avatars[i]);
            assert(s.avatars[old_avatar(j)] == t.avatars[j]);
        }
    }
    assert forall|i: int, j: int|
        0 <= i < t.characters.len() && 0 <= j < t.characters.len() && i != j
            implies #[trigger] t.characters[i].connection_id != #[trigger] t.characters[j].connection_id
                && t.characters[i].entity_id != t.characters[j].entity_id by {
        assert(chars[old_char(i)] == t.characters[i]);
        assert(chars[old_char(j)] == t.characters[j]);
    }
    assert forall|i: int| 0 <= i < t.characters.len() implies is_member(
        t.avatars,
        #[trigger] t.characters[i].connection_id,
    ) && t.characters[i].entity_id < t.next_entity_id by {
        let c = t.characters[i];
        assert(chars[old_char(i)] == c);
        let k = s.avatars.index_of(c.connection_id);
        assert(s.avatars[k] == c.connection_id);
        if s.avatars.contains(id) {
            let k2 = if k < x { k } else { k - 1 };
            assert(t.avatars[k2] == c.connection_id);
        } else {
            assert(t.avatars[k] == c.connection_id);
        }
    }
}

proof fn lemma_spawn_keeps_inv(s: LobbyView, id: u64, position: Position)
    requires
        lobby_inv(s),
    ensures
        lobby_inv(spawn_step(s, id, position).0),
{
}

// ---------------------------------------------------------------------------
// Laws

/// The number of "a character appeared" notices among `outs`.
pub open spec fn appearances(outs: Seq<Outgoing>) -> nat
    decreases outs.len(),
{
    if outs.len() == 0 {
        0
    } else if payload(outs.last()) is SpawnPlayer {
        appearances(outs.drop_last()) + 1
    } else {
        appearances(outs.drop_last())
    }
}

/// `PlayerConnected` for each client of `avatars`, in order.
pub open spec fn connected_notices(avatars: Seq<u64>) -> Seq<ServerMessage> {
    avatars.map_values(|a: u64| ServerMessage::PlayerConnected { id: a })
}

/// Order is kept on the way out: what is sent earlier is received earlier,
/// by every receiver.
pub proof fn lemma_inbox_keeps_order(first: Seq<Outgoing>, second: Seq<Outgoing>, r: u64)
    ensures
        inbox(first + second, r) == inbox(first, r) + inbox(second, r),
    decreases second.len(),
{
    if second.len() == 0 {
        assert(first + second =~= first);
        assert(inbox(first, r) + inbox(second, r) =~= inbox(first, r));
    } else {
        assert((first + second).drop_last() =~= first + second.drop_last());
        assert((first + second).last() == second.last());
        lemma_inbox_keeps_order(first, second.drop_last(), r);
        if reaches(second.last(), r) {
            assert(inbox(first, r) + inbox(second, r) =~= (inbox(first, r) + inbox(second.drop_last(), r)).push(
                payload(second.last()),
            ));
        }
    }
}

/// Events are handled in the order they occur: handling `a` then `b` is
/// handling `a` and then `b` from the resulting state, and what they send
/// goes out in the same order.
pub proof fn lemma_events_keep_order(s: LobbyView, a: Seq<ServerEvent>, b: Seq<ServerEvent>)
    ensures
        ({
            let (s1, o1) = run_events(s, a);
            let (s2, o2) = run_events(s1, b);
            run_events(s, a + b) == (s2, o1 + o2)
        }),
    decreases b.len(),
{
    let (s1, o1) = run_events(s, a);
    if b.len() == 0 {
        assert(a + b =~= a);
        assert(o1 + Seq::<Outgoing>::empty() =~= o1);
    } else {
        assert((a + b).drop_last() =~= a + b.drop_last());
        assert((a + b).last() == b.last());
        lemma_events_keep_order(s, a, b.drop_last());
        let (sb, ob) = run_events(s1, b.drop_last());
        let (s2, o) = event_step(sb, b.last());
        assert((o1 + ob) + o =~= o1 + (ob + o));
    }
}

proof fn lemma_inbox_single(o: Outgoing, r: u64)
    ensures
        inbox(seq![o], r) == if reaches(o, r) {
            seq![payload(o)]
        } else {
            Seq::<ServerMessage>::empty()
        },
{
    assert(seq![o].drop_last() =~= Seq::<Outgoing>::empty());
    assert(seq![o].last() == o);
    assert(inbox(Seq::<Outgoing>::empty(), r) == Seq::<ServerMessage>::empty());
    assert(Seq::<ServerMessage>::empty().push(payload(o)) =~= seq![payload(o)]);
}

proof fn lemma_inbox_pair(o: Outgoing, p: Outgoing, r: u64)
    ensures
        inbox(seq![o, p], r) == inbox(seq![o], r) + inbox(seq![p], r),
{
    assert(seq![o, p] =~= seq![o] + seq![p]);
    lemma_inbox_keeps_order(seq![o], seq![p], r);
}

proof fn lemma_catch_up_inbox(avatars: Seq<u64>, id: u64, r: u64)
    ensures
        inbox(catch_up(avatars, id), r) == if r == id {
            connected_notices(avatars)
        } else {
            Seq::<ServerMessage>::empty()
        },
    decreases avatars.len(),
{
    if avatars.len() == 0 {
        assert(connected_notices(avatars) =~= Seq::<ServerMessage>::empty());
    } else {
        assert(catch_up(avatars, id).drop_last() =~= catch_up(avatars.drop_last(), id));
        assert(connected_notices(avatars) =~= connected_notices(avatars.drop_last()).push(
            ServerMessage::PlayerConnected { id: avatars.last() },
        ));
        lemma_catch_up_inbox(avatars.drop_last(), id, r);
    }
}

/// A spawn request is idempotent: a second request from the same
/// connection changes nothing and sends nothing. A connected client
/// without a character that asks twice ends with exactly one character,
/// and exactly one "appeared" notice goes out.
pub proof fn lemma_spawn_idempotent(s: LobbyView, id: u64, p: Position, q: Position)
    requires
        lobby_inv(s),
    ensures
        ({
            let (s1, o1) = spawn_step(s, id, p);
            let (s2, o2) = spawn_step(s1, id, q);
            &&& s2 == s1
            &&& o2 == Seq::<Outgoing>::empty()
            &&& lobby_inv(s2)
            &&& forall|i: int, j: int|
                0 <= i < s2.characters.len() && 0 <= j < s2.characters.len()
                    && s2.characters[i].connection_id == id && s2.characters[j].connection_id == id
                    ==> i == j
            &&& (is_member(s.avatars, id) && !spawned(s.characters, id) && s.next_entity_id < u64::MAX)
                ==> spawned(s2.characters, id) && appearances(o1 + o2) == 1
        }),
{
    let (s1, o1) = spawn_step(s, id, p);
    lemma_spawn_keeps_inv(s, id, p);
    if is_member(s.avatars, id) && !spawned(s.characters, id) && s.next_entity_id < u64::MAX {
        let k = s.characters.len() as int;
        assert(s1.characters[k].connection_id == id);
        assert(spawned(s1.characters, id));
        assert(o1 + Seq::<Outgoing>::empty() =~= o1);
        assert(o1.drop_last() =~= seq![o1[0]]);
        assert(seq![o1[0]].drop_last() =~= Seq::<Outgoing>::empty());
        assert(appearances(Seq::<Outgoing>::empty()) == 0);
        assert(appearances(seq![o1[0]]) == 1);
        assert(appearances(o1) == 1);
    }
}

/// A newcomer joining `N` registered clients receives exactly `N` catch-up
/// notices, one per client in registration order, then its own
/// confirmation; each client already there receives only the notice of
/// the newcomer.
pub proof fn lemma_catch_up_complete(s: LobbyView, id: u64)
    requires
        lobby_inv(s),
        !is_member(s.avatars, id),
    ensures
        ({
            let o = connect_step(s, id).1;
            &&& inbox(o, id) == connected_notices(s.avatars).push(ServerMessage::PlayerConnected { id })
            &&& inbox(o, id).len() == s.avatars.len() + 1
            &&& forall|r: u64| is_member(s.avatars, r)
                ==> #[trigger] inbox(o, r) == seq![ServerMessage::PlayerConnected { id }]
        }),
{
    let o = connect_step(s, id).1;
    assert(o.drop_last() == catch_up(s.avatars, id));
    lemma_catch_up_inbox(s.avatars, id, id);
    assert forall|r: u64| is_member(s.avatars, r) implies #[trigger] inbox(o, r) == seq![
        ServerMessage::PlayerConnected { id },
    ] by {
        lemma_catch_up_inbox(s.avatars, id, r);
        assert(Seq::<ServerMessage>::empty().push(ServerMessage::PlayerConnected { id }) =~= seq![
            ServerMessage::PlayerConnected { id },
        ]);
    }
}

/// A spawn request from `a` reaches `a` as "this character is yours" and
/// every other client as "a character appeared", once each; no client
/// receives both.
pub proof fn lemma_spawn_delivery(s: LobbyView, a: u64, p: Position)
    requires
        lobby_inv(s),
        is_member(s.avatars, a),
        !spawned(s.characters, a),
        s.next_entity_id < u64::MAX,
    ensures
        ({
            let o = spawn_step(s, a, p).1;
            let e = s.next_entity_id as u64;
            &&& inbox(o, a) == seq![ServerMessage::SpawnHim { server_entity: e, position: p }]
            &&& forall|r: u64| r != a
                ==> #[trigger] inbox(o, r) == seq![ServerMessage::SpawnPlayer { server_entity: e, position: p }]
        }),
{
    let o = spawn_step(s, a, p).1;
    assert(o == seq![o[0], o[1]]);
    lemma_inbox_pair(o[0], o[1], a);
    lemma_inbox_single(o[0], a);
    lemma_inbox_single(o[1], a);
    assert(inbox(o, a) =~= seq![payload(o[1])]);
    assert forall|r: u64| r != a implies #[trigger] inbox(o, r) == seq![
        ServerMessage::SpawnPlayer { server_entity: s.next_entity_id as u64, position: p },
    ] by {
        lemma_inbox_pair(o[0], o[1], r);
        lemma_inbox_single(o[0], r);
        lemma_inbox_single(o[1], r);
        assert(inbox(o, r) =~= seq![payload(o[0])]);
    }
}

/// After `a` disconnects the registry holds no record of it nor of its
/// character, and every remaining client receives exactly one notice that
/// `a` left, followed by the removal of its character when it had one.
pub proof fn lemma_disconnect_cleanup(s: LobbyView, a: u64, reason: DisconnectCause)
    requires
        lobby_inv(s),
    ensures
        ({
            let (t, o) = disconnect_step(s, a, reason);
            let notice = ServerMessage::PlayerDisconnected { id: a, reason };
            &&& lobby_inv(t)
            &&& !is_member(t.avatars, a)
            &&& !spawned(t.characters, a)
            &&& forall|r: u64| #[trigger] inbox(o, r) == if spawned(s.characters, a) {
                seq![
                    notice,
                    ServerMessage::EntityRemoved {
                        server_entity: character_of(s.characters, a).entity_id,
                    },
                ]
            } else {
                seq![notice]
            }
        }),
{
    let (t, o) = disconnect_step(s, a, reason);
    lemma_disconnect_forgets(s, a, reason);
    lemma_disconnect_keeps_inv(s, a, reason);
    if t.avatars.contains(a) {
        let k = t.avatars.index_of(a);
        assert(t.avatars[k] != a);
    }
    assert forall|r: u64| #[trigger] inbox(o, r) == if spawned(s.characters, a) {
        seq![
            ServerMessage::PlayerDisconnected { id: a, reason },
            ServerMessage::EntityRemoved { server_entity: character_of(s.characters, a).entity_id },
        ]
    } else {
        seq![ServerMessage::PlayerDisconnected { id: a, reason }]
    } by {
        if spawned(s.characters, a) {
            assert(o == seq![o[0], o[1]]);
            lemma_inbox_pair(o[0], o[1], r);
            lemma_inbox_single(o[0], r);
            lemma_inbox_single(o[1], r);
            assert(inbox(o, r) =~= seq![payload(o[0]), payload(o[1])]);
        } else {
            assert(o == seq![o[0]]);
            lemma_inbox_single(o[0], r);
        }
    }
}

// ---------------------------------------------------------------------------
// The registry

/// The server's record of connected clients and their characters.
pub struct ServerLobby {
    players: Vec<u64>,
    characters: Vec<CharacterRecord>,
    next_entity_id: u64,
}

impl View for ServerLobby {
    type V = LobbyView;

    closed spec fn view(&self) -> LobbyView {
        LobbyView {
            avatars: self.players@,
            characters: self.characters@,
            next_entity_id: self.next_entity_id as nat,
        }
    }
}

/// `PlayerConnected` notices to `to`, one for each client of `avatars`.
fn catch_up_notices(avatars: &Vec<u64>, to: u64) -> (out: Vec<Outgoing>)
    ensures
        out@ == catch_up(avatars@, to),
{
    let mut out: Vec<Outgoing> = Vec::new();
    let n = avatars.len();
    for i in 0..n
        invariant
            n == avatars.len(),
            out@ == catch_up(avatars@.subrange(0, i as int), to),
    {
        out.push(Outgoing::Send { to, message: ServerMessage::PlayerConnected { id: avatars[i] } });
        assert(avatars@.subrange(0, i + 1) =~= avatars@.subrange(0, i as int).push(avatars@[i as int]));
        assert(out@ =~= catch_up(avatars@.subrange(0, i + 1), to));
    }
    assert(avatars@.subrange(0, n as int) =~= avatars@);
    out
}

impl ServerLobby {
    pub open spec fn wf(&self) -> bool {
        lobby_inv(self@)
    }

    /// An empty registry; the first character receives entity identifier 1.
    pub fn new() -> (r: ServerLobby)
        ensures
            r.wf(),
            r@.avatars == Seq::<u64>::empty(),
            r@.characters == Seq::<CharacterRecord>::empty(),
            r@.next_entity_id == 1,
    {
        ServerLobby { players: Vec::new(), characters: Vec::new(), next_entity_id: 1 }
    }

    /// Where `id` stands among the connected clients, if it is one.
    fn find_player(&self, id: u64) -> (r: Option<usize>)
        requires
            self.wf(),
        ensures
            r is None <==> !is_member(self@.avatars, id),
            r matches Some(i) ==> i == self@.avatars.index_of(id) && i < self@.avatars.len(),
    {
        let n = self.players.len();
        for i in 0..n
            invariant
                n == self.players.len(),
                self.wf(),
                forall|j: int| 0 <= j < i ==> self.players@[j] != id,
        {
            if self.players[i] == id {
                assert(self@.avatars[i as int] == id);
                assert(self@.avatars.contains(id));
                let ghost k = self@.avatars.index_of(id);
                assert(self@.avatars[k] == id);
                return Some(i);
            }
        }
        None
    }

    /// Where `id`'s character stands, if it has one.
    fn find_character(&self, id: u64) -> (r: Option<usize>)
        requires
            self.wf(),
        ensures
            r is None <==> !spawned(self@.characters, id),
            r matches Some(i) ==> i == character_index(self@.characters, id) && i < self@.characters.len(),
    {
        let n = self.characters.len();
        for i in 0..n
            invariant
                n == self.characters.len(),
                self.wf(),
                forall|j: int| 0 <= j < i ==> self.characters@[j].connection_id != id,
        {
            if self.characters[i].connection_id == id {
                assert(self@.characters[i as int].connection_id == id);
                let ghost k = character_index(self@.characters, id);
                assert(self@.characters[k].connection_id == id);
                return Some(i);
            }
        }
        None
    }

    /// Whether `id` is connected.
    pub fn is_connected(&self, id: u64) -> (r: bool)
        requires
            self.wf(),
        ensures
            r == is_member(self@.avatars, id),
    {
        self.find_player(id).is_some()
    }

    /// The character `id` owns, if it has spawned.
    pub fn character(&self, id: u64) -> (r: Option<CharacterRecord>)
        requires
            self.wf(),
        ensures
            r is None <==> !spawned(self@.characters, id),
            r matches Some(c) ==> c == character_of(self@.characters, id),
    {
        match self.find_character(id) {
            Some(i) => Some(self.characters[i]),
            None => None,
        }
    }

    /// The connected clients, in registration order.
    pub fn players(&self) -> (r: Vec<u64>)
        ensures
            r@ == self@.avatars,
    {
        self.players.clone()
    }

    /// The spawned characters, in spawn order.
    pub fn characters(&self) -> (r: Vec<CharacterRecord>)
        ensures
            r@ == self@.characters,
    {
        self.characters.clone()
    }

    /// The entity identifier the next character will receive.
    pub fn next_entity_id(&self) -> (r: u64)
        ensures
            r == self@.next_entity_id,
    {
        self.next_entity_id
    }

    /// Registers a newly connected client. A newcomer first receives one
    /// `PlayerConnected` notice for each client already registered, in
    /// registration order; then every client, the newcomer included, is
    /// told of it. A client already registered changes nothing.
    pub fn on_connected(&mut self, id: u64) -> (out: Vec<Outgoing>)
        requires
            old(self).wf(),
        ensures
            final(self).wf(),
            (final(self)@, out@) == connect_step(old(self)@, id),
    {
        proof { lemma_connect_keeps_inv(self@, id); }
        if self.find_player(id).is_some() {
            return Vec::new();
        }
        let mut out = catch_up_notices(&self.players, id);
        self.players.push(id);
        out.push(Outgoing::Broadcast { message: ServerMessage::PlayerConnected { id } });
        out
    }

    /// Forgets a client that disconnected, with its character if it had
    /// one. The remaining clients are told that it left and, where it had a
    /// character, that the character is gone.
    pub fn on_disconnected(&mut self, id: u64, reason: DisconnectCause) -> (out: Vec<Outgoing>)
        requires
            old(self).wf(),
        ensures
            final(self).wf(),
            (final(self)@, out@) == disconnect_step(old(self)@, id, reason),
    {
        proof { lemma_disconnect_keeps_inv(self@, id, reason); }
        let player = self.find_player(id);
        let character = self.find_character(id);
        if let Some(i) = player {
            self.players.remove(i);
        }
        let mut out: Vec<Outgoing> = Vec::new();
        out.push(Outgoing::Broadcast { message: ServerMessage::PlayerDisconnected { id, reason } });
        if let Some(i) = character {
            let c = self.characters.remove(i);
            out.push(Outgoing::Broadcast { message: ServerMessage::EntityRemoved { server_entity: c.entity_id } });
        }
        out
    }

    /// Creates the character of a connected client that has none yet, at
    /// `spawn_point`, under a fresh entity identifier. Every other client
    /// is told that it appeared; its owner is told that it is theirs. A
    /// request from a client that is not connected, that already has a
    /// character, or that comes when no identifier is left, changes nothing.
    pub fn on_spawn_request(&mut self, id: u64, spawn_point: Position) -> (out: Vec<Outgoing>)
        requires
            old(self).wf(),
        ensures
            final(self).wf(),
            (final(self)@, out@) == spawn_step(old(self)@, id, spawn_point),
    {
        proof { lemma_spawn_keeps_inv(self@, id, spawn_point); }
        let mut out: Vec<Outgoing> = Vec::new();
        if self.find_player(id).is_none() || self.find_character(id).is_some()
            || self.next_entity_id == u64::MAX {
            return out;
        }
        let e = self.next_entity_id;
        self.characters.push(CharacterRecord { connection_id: id, entity_id: e, position: spawn_point });
        self.next_entity_id = e + 1;
        out.push(Outgoing::BroadcastExcept {
            except: id,
            message: ServerMessage::SpawnPlayer { server_entity: e, position: spawn_point },
        });
        out.push(Outgoing::Send { to: id, message: ServerMessage::SpawnHim { server_entity: e, position: spawn_point } });
        out
    }
}

/// Applies the transport's connection events in order; returns everything
/// they send, in order.
pub fn handle_server_events(lobby: &mut ServerLobby, events: &Vec<ServerEvent>) -> (out: Vec<Outgoing>)
    requires
        old(lobby).wf(),
    ensures
        final(lobby).wf(),
        (final(lobby)@, out@) == run_events(old(lobby)@, events@),
{
    let mut out: Vec<Outgoing> = Vec::new();
    let n = events.len();
    for i in 0..n
        invariant
            n == events.len(),
            lobby.wf(),
            (lobby@, out@) == run_events(old(lobby)@, events@.subrange(0, i as int)),
    {
        let mut sent = match events[i] {
            ServerEvent::ClientConnected { client_id } => lobby.on_connected(client_id),
            ServerEvent::ClientDisconnected { client_id, reason } => lobby.on_disconnected(client_id, reason),
        };
        out.append(&mut sent);
        assert(events@.subrange(0, i + 1).drop_last() =~= events@.subrange(0, i as int));
    }
    assert(events@.subrange(0, n as int) =~= events@);
    out
}

/// Applies decoded client messages, each with the connection it came
/// from, in arrival order; new characters stand at `spawn_point`. Returns
/// everything they send, in order.
pub fn handle_client_messages(
    lobby: &mut ServerLobby,
    messages: &Vec<(u64, ClientMessage)>,
    spawn_point: Position,
) -> (out: Vec<Outgoing>)
    requires
        old(lobby).wf(),
    ensures
        final(lobby).wf(),
        (final(lobby)@, out@) == run_messages(old(lobby)@, messages@, spawn_point),
{
    let mut out: Vec<Outgoing> = Vec::new();
    let n = messages.len();
    for i in 0..n
        invariant
            n == messages.len(),
            lobby.wf(),
            (lobby@, out@) == run_messages(old(lobby)@, messages@.subrange(0, i as int), spawn_point),
    {
        let (from, message) = messages[i];
        let mut sent = match message {
            ClientMessage::SpawnMe => lobby.on_spawn_request(from, spawn_point),
        };
        out.append(&mut sent);
        assert(messages@.subrange(0, i + 1).drop_last() =~= messages@.subrange(0, i as int));
    }
    assert(messages@.subrange(0, n as int) =~= messages@);
    out
}

} // verus!

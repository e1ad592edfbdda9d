//! The client's mirror of the server's replicated entities.
//!
//! A client applies each message from the server once, in arrival order.
//! It keeps the set of peers it was told about and one shadow per entity
//! the server announced; it is never ahead of what the server sent.

use vstd::prelude::*;
use crate::protocol::{Position, ServerMessage};

verus! {

/// The client's stand-in for one server entity.
#[derive(Clone, Copy, Debug, PartialEq, Eq, Structural)]
pub struct ShadowEntity {
    pub entity_id: u64,
    pub position: Position,
    /// Set on exactly the shadow made from a `SpawnHim` message: the
    /// character this client steers.
    pub locally_controlled: bool,
}

/// What applying a message changed, for the presentation layer.
#[derive(Clone, Copy, Debug, PartialEq, Eq, Structural)]
pub enum MirrorChange {
    PeerJoined { id: u64 },
    PeerLeft { id: u64 },
    Created { shadow: ShadowEntity },
    Removed { entity_id: u64 },
}

/// The mirror as a mathematical value.
pub struct MirrorView {
    /// Peers announced as connected, in announcement order.
    pub peers: Seq<u64>,
    /// Shadows, in creation order.
    pub shadows: Seq<ShadowEntity>,
}

pub open spec fn has_shadow(shadows: Seq<ShadowEntity>, e: u64) -> bool {
    exists|i: int| 0 <= i < shadows.len() && #[trigger] shadows[i].entity_id == e
}

/// Where the shadow of entity `e` stands; meaningful when
/// `has_shadow(shadows, e)`.
pub open spec fn shadow_index(shadows: Seq<ShadowEntity>, e: u64) -> int {
    choose|i: int| 0 <= i < shadows.len() && #[trigger] shadows[i].entity_id == e
}

pub open spec fn mirror_inv(m: MirrorView) -> bool {
    &&& m.peers.no_duplicates()
    &&& forall|i: int, j: int|
        0 <= i < m.shadows.len() && 0 <= j < m.shadows.len() && i != j
            ==> #[trigger] m.shadows[i].entity_id != #[trigger] m.shadows[j].entity_id
}

/// The new shadow a creation message asks for.
pub open spec fn created(e: u64, position: Position, mine: bool) -> ShadowEntity {
    ShadowEntity { entity_id: e, position, locally_controlled: mine }
}

pub open spec fn create_step(m: MirrorView, e: u64, position: Position, mine: bool) -> (MirrorView, Option<MirrorChange>) {
    if has_shadow(m.shadows, e) {
        (m, None)
    } else {
        (
            MirrorView { shadows: m.shadows.push(created(e, position, mine)), ..m },
            Some(MirrorChange::Created { shadow: created(e, position, mine) }),
        )
    }
}

pub open spec fn apply_step(m: MirrorView, msg: ServerMessage) -> (MirrorView, Option<MirrorChange>) {
    match msg {
        ServerMessage::PlayerConnected { id } => if m.peers.contains(id) {
            (m, None)
        } else {
            (MirrorView { peers: m.peers.push(id), ..m }, Some(MirrorChange::PeerJoined { id }))
        },
        ServerMessage::PlayerDisconnected { id, .. } => if m.peers.contains(id) {
            (
                MirrorView { peers: m.peers.remove(m.peers.index_of(id)), ..m },
                Some(MirrorChange::PeerLeft { id }),
            )
        } else {
            (m, None)
        },
        ServerMessage::SpawnPlayer { server_entity, position } => create_step(m, server_entity, position, false),
        ServerMessage::SpawnHim { server_entity, position } => create_step(m, server_entity, position, true),
        ServerMessage::EntityRemoved { server_entity } => if has_shadow(m.shadows, server_entity) {
            (
                MirrorView { shadows: m.shadows.remove(shadow_index(m.shadows, server_entity)), ..m },
                Some(MirrorChange::Removed { entity_id: server_entity }),
            )
        } else {
            (m, None)
        },
    }
}

/// The mirror after the messages, in order, and the changes they made, in
/// order; a message that changed nothing contributes none.
pub open spec fn run_mirror(m: MirrorView, msgs: Seq<ServerMessage>) -> (MirrorView, Seq<MirrorChange>)
    decreases msgs.len(),
{
    if msgs.len() == 0 {
        (m, seq![])
    } else {
        let (m1, c1) = run_mirror(m, msgs.drop_last());
        let (m2, c2) = apply_step(m1, msgs.last());
        (
            m2,
            match c2 {
                Some(c) => c1.push(c),
                None => c1,
            },
        )
    }
}

proof fn lemma_apply_keeps_inv(m: MirrorView, msg: ServerMessage)
    requires
        mirror_inv(m),
    ensures
        mirror_inv(apply_step(m, msg).0),
{
    let t = apply_step(m, msg).0;
    match msg {
        ServerMessage::PlayerDisconnected { id, .. } => {
            if m.peers.contains(id) {
                let x = m.peers.index_of(id);
                m.peers.remove_ensures(x);
                assert forall|i: int, j: int| 0 <= i < t.peers.len() && 0 <= j < t.peers.len() && i != j
                    implies t.peers[i] != t.peers[j] by {
                    let oi = if i >= x { i + 1 } else { i };
                    let oj = if j >= x { j + 1 } else { j };
                    assert(t.peers[i] == m.peers[oi]);
                    assert(t.peers[j] == m.peers[oj]);
                }
            }
        },
        ServerMessage::EntityRemoved { server_entity } => {
            if has_shadow(m.shadows, server_entity) {
                let x = shadow_index(m.shadows, server_entity);
                m.shadows.remove_ensures(x);
                assert forall|i: int, j: int|
                    0 <= i < t.shadows.len() && 0 <= j < t.shadows.len() && i != j
                        implies #[trigger] t.shadows[i].entity_id != #[trigger] t.shadows[j].entity_id by {
                    let oi = if i >= x { i + 1 } else { i };
                    let oj = if j >= x { j + 1 } else { j };
                    assert(t.shadows[i] == m.shadows[oi]);
                    assert(t.shadows[j] == m.shadows[oj]);
                }
            }
        },
        _ => {},
    }
}

/// Creation is idempotent: applying the same creation message twice leaves
/// the mirror as applying it once, and exactly one shadow of that entity.
pub proof fn lemma_creation_idempotent(m: MirrorView, msg: ServerMessage)
    requires
        mirror_inv(m),
        msg is SpawnPlayer || msg is SpawnHim,
    ensures
        ({
            let e = if msg is SpawnPlayer { msg->SpawnPlayer_server_entity } else { msg->SpawnHim_server_entity };
            let (m1, c1) = apply_step(m, msg);
            let (m2, c2) = apply_step(m1, msg);
            &&& m2 == m1
            &&& c2 is None
            &&& has_shadow(m1.shadows, e)
            &&& forall|i: int, j: int|
                0 <= i < m1.shadows.len() && 0 <= j < m1.shadows.len()
                    && m1.shadows[i].entity_id == e && m1.shadows[j].entity_id == e ==> i == j
        }),
{
    let m1 = apply_step(m, msg).0;
    lemma_apply_keeps_inv(m, msg);
    let e = if msg is SpawnPlayer { msg->SpawnPlayer_server_entity } else { msg->SpawnHim_server_entity };
    if !has_shadow(m.shadows, e) {
        assert(m1.shadows[m.shadows.len() as int].entity_id == e);
    }
}

/// Messages are applied in the order they arrive: applying `a` then `b`
/// is applying `a` and then applying `b` to the result, and the changes
/// come out in the same order.
pub proof fn lemma_mirror_keeps_order(m: MirrorView, a: Seq<ServerMessage>, b: Seq<ServerMessage>)
    ensures
        ({
            let (m1, c1) = run_mirror(m, a);
            let (m2, c2) = run_mirror(m1, b);
            run_mirror(m, a + b) == (m2, c1 + c2)
        }),
    decreases b.len(),
{
    let (m1, c1) = run_mirror(m, a);
    if b.len() == 0 {
        assert(a + b =~= a);
        assert(c1 + Seq::<MirrorChange>::empty() =~= c1);
    } else {
        assert((a + b).drop_last() =~= a + b.drop_last());
        assert((a + b).last() == b.last());
        lemma_mirror_keeps_order(m, a, b.drop_last());
        let (mb, cb) = run_mirror(m1, b.drop_last());
        let (m2, c) = apply_step(mb, b.last());
        if let Some(x) = c {
            assert((c1 + cb).push(x) =~= c1 + cb.push(x));
        }
    }
}

/// Whether `msg` asks for a shadow of entity `e` at `position`.
pub open spec fn announces(msg: ServerMessage, e: u64, position: Position) -> bool {
    ||| msg == (ServerMessage::SpawnPlayer { server_entity: e, position })
    ||| msg == (ServerMessage::SpawnHim { server_entity: e, position })
}

/// Whether one of `msgs` asks for `shadow`.
pub open spec fn announced(msgs: Seq<ServerMessage>, shadow: ShadowEntity) -> bool {
    exists|i: int| 0 <= i < msgs.len() && announces(#[trigger] msgs[i], shadow.entity_id, shadow.position)
}

/// A mirror is never ahead of the server: starting from nothing, every
/// shadow it holds was announced by one of the messages it applied, at
/// the position it holds.
pub proof fn lemma_mirror_never_ahead(msgs: Seq<ServerMessage>)
    ensures
        ({
            let m = run_mirror(MirrorView { peers: seq![], shadows: seq![] }, msgs).0;
            forall|k: int| 0 <= k < m.shadows.len() ==> announced(msgs, #[trigger] m.shadows[k])
        }),
    decreases msgs.len(),
{
    if msgs.len() > 0 {
        let start = MirrorView { peers: seq![], shadows: seq![] };
        let before = msgs.drop_last();
        lemma_mirror_never_ahead(before);
        let m1 = run_mirror(start, before).0;
        let m = run_mirror(start, msgs).0;
        let last = msgs.last();
        assert forall|k: int| 0 <= k < m.shadows.len() implies announced(msgs, #[trigger] m.shadows[k]) by {
            // Where the shadow at `k` stood before the last message.
            let j = if last is EntityRemoved && has_shadow(m1.shadows, last->EntityRemoved_server_entity)
                && k >= shadow_index(m1.shadows, last->EntityRemoved_server_entity) {
                k + 1
            } else {
                k
            };
            if last is EntityRemoved && has_shadow(m1.shadows, last->EntityRemoved_server_entity) {
                m1.shadows.remove_ensures(shadow_index(m1.shadows, last->EntityRemoved_server_entity));
            }
            if j < m1.shadows.len() {
                assert(m.shadows[k] == m1.shadows[j]);
                assert(announced(before, m1.shadows[j]));
                let i = choose|i: int| 0 <= i < before.len() && announces(
                    #[trigger] before[i],
                    m1.shadows[j].entity_id,
                    m1.shadows[j].position,
                );
                assert(msgs[i] == before[i]);
            } else {
                assert(msgs[msgs.len() - 1] == last);
            }
        }
    }
}

/// A client's mirror of the session: peers and shadow entities.
pub struct ReplicationMirror {
    peers: Vec<u64>,
    shadows: Vec<ShadowEntity>,
}

impl View for ReplicationMirror {
    type V = MirrorView;

    closed spec fn view(&self) -> MirrorView {
        MirrorView { peers: self.peers@, shadows: self.shadows@ }
    }
}

impl ReplicationMirror {
    pub open spec fn wf(&self) -> bool {
        mirror_inv(self@)
    }

    /// A mirror that knows of nothing yet.
    pub fn new() -> (r: ReplicationMirror)
        ensures
            r.wf(),
            r@.peers == Seq::<u64>::empty(),
            r@.shadows == Seq::<ShadowEntity>::empty(),
    {
        ReplicationMirror { peers: Vec::new(), shadows: Vec::new() }
    }

    fn find_peer(&self, id: u64) -> (r: Option<usize>)
        requires
            self.wf(),
        ensures
            r is None <==> !self@.peers.contains(id),
            r matches Some(i) ==> i == self@.peers.index_of(id) && i < self@.peers.len(),
    {
        let n = self.peers.len();
        for i in 0..n
            invariant
                n == self.peers.len(),
                self.wf(),
                forall|j: int| 0 <= j < i ==> self.peers@[j] != id,
        {
            if self.peers[i] == id {
                assert(self@.peers[i as int] == id);
                assert(self@.peers.contains(id));
                let ghost k = self@.peers.index_of(id);
                assert(self@.peers[k] == id);
                return Some(i);
            }
        }
        None
    }

    fn find_shadow(&self, e: u64) -> (r: Option<usize>)
        requires
            self.wf(),
        ensures
            r is None <==> !has_shadow(self@.shadows, e),
            r matches Some(i) ==> i == shadow_index(self@.shadows, e) && i < self@.shadows.len(),
    {
        let n = self.shadows.len();
        for i in 0..n
            invariant
                n == self.shadows.len(),
                self.wf(),
                forall|j: int| 0 <= j < i ==> self.shadows@[j].entity_id != e,
        {
            if self.shadows[i].entity_id == e {
                assert(self@.shadows[i as int].entity_id == e);
                let ghost k = shadow_index(self@.shadows, e);
                assert(self@.shadows[k].entity_id == e);
                return Some(i);
            }
        }
        None
    }

    /// The shadow of entity `e`, if there is one.
    pub fn shadow(&self, e: u64) -> (r: Option<ShadowEntity>)
        requires
            self.wf(),
        ensures
            r is None <==> !has_shadow(self@.shadows, e),
            r matches Some(x) ==> x == self@.shadows[shadow_index(self@.shadows, e)],
    {
        match self.find_shadow(e) {
            Some(i) => Some(self.shadows[i]),
            None => None,
        }
    }

    /// The peers announced as connected, in announcement order.
    pub fn peers(&self) -> (r: Vec<u64>)
        ensures
            r@ == self@.peers,
    {
        self.peers.clone()
    }

    /// The shadows, in creation order.
    pub fn shadows(&self) -> (r: Vec<ShadowEntity>)
        ensures
            r@ == self@.shadows,
    {
        self.shadows.clone()
    }

    /// Applies one message from the server. A peer notice updates the
    /// peer list; a creation message makes a shadow unless one exists for
    /// that entity (a `SpawnHim` shadow is locally controlled); a removal
    /// destroys the shadow if there is one. Returns what changed, or
    /// `None` when the message changed nothing.
    ///
    /// A peer notice never touches shadows: the wire names no owner for
    /// another client's character, and the server follows a departure
    /// with the removal of the departed client's character.
    pub fn apply(&mut self, msg: ServerMessage) -> (r: Option<MirrorChange>)
        requires
            old(self).wf(),
        ensures
            final(self).wf(),
            (final(self)@, r) == apply_step(old(self)@, msg),
    {
        proof { lemma_apply_keeps_inv(self@, msg); }
        match msg {
            ServerMessage::PlayerConnected { id } => {
                if self.find_peer(id).is_some() {
                    return None;
                }
                self.peers.push(id);
                Some(MirrorChange::PeerJoined { id })
            },
            ServerMessage::PlayerDisconnected { id, .. } => {
                match self.find_peer(id) {
                    Some(i) => {
                        self.peers.remove(i);
                        Some(MirrorChange::PeerLeft { id })
                    },
                    None => None,
                }
            },
            ServerMessage::SpawnPlayer { server_entity, position } => self.create(server_entity, position, false),
            ServerMessage::SpawnHim { server_entity, position } => self.create(server_entity, position, true),
            ServerMessage::EntityRemoved { server_entity } => {
                match self.find_shadow(server_entity) {
                    Some(i) => {
                        self.shadows.remove(i);
                        Some(MirrorChange::Removed { entity_id: server_entity })
                    },
                    None => None,
                }
            },
        }
    }

    fn create(&mut self, e: u64, position: Position, mine: bool) -> (r: Option<MirrorChange>)
        requires
            old(self).wf(),
        ensures
            (final(self)@, r) == create_step(old(self)@, e, position, mine),
    {
        if self.find_shadow(e).is_some() {
            return None;
        }
        let shadow = ShadowEntity { entity_id: e, position, locally_controlled: mine };
        self.shadows.push(shadow);
        Some(MirrorChange::Created { shadow })
    }
}

/// Applies the server's messages in arrival order; returns the changes
/// they made, in order.
pub fn handle_server_messages(mirror: &mut ReplicationMirror, msgs: &Vec<ServerMessage>) -> (changes: Vec<MirrorChange>)
    requires
        old(mirror).wf(),
    ensures
        final(mirror).wf(),
        (final(mirror)@, changes@) == run_mirror(old(mirror)@, msgs@),
{
    let mut changes: Vec<MirrorChange> = Vec::new();
    let n = msgs.len();
    for i in 0..n
        invariant
            n == msgs.len(),
            mirror.wf(),
            (mirror@, changes@) == run_mirror(old(mirror)@, msgs@.subrange(0, i as int)),
    {
        if let Some(c) = mirror.apply(msgs[i]) {
            changes.push(c);
        }
        assert(msgs@.subrange(0, i + 1).drop_last() =~= msgs@.subrange(0, i as int));
    }
    assert(msgs@.subrange(0, n as int) =~= msgs@);
    changes
}

} // verus!

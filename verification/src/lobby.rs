//! Lobby bookkeeping: which players a process considers connected, and the
//! locally-owned handle it keeps for each.
//!
//! Server and client each own a lobby.  The server's is the source of truth;
//! a client's is a mirror that changes only when a connect or disconnect
//! message arrives, so membership there may lag the server's but never
//! invents an entry.

use vstd::prelude::*;

use crate::messages::{Player, Position, ServerMessage, WorldSync};
use crate::table::{
    distinct_keys, lemma_list_map_dom, list_map, table_get, table_insert, table_remove,
};

verus! {

/// A mapping from player identity to a locally-owned handle (an opaque
/// reference, meaningful only inside the owning process).  A player is
/// present exactly while this process considers it connected.
#[derive(Debug, Default)]
pub struct Lobby {
    pub players: Vec<(Player, u64)>,
}

impl View for Lobby {
    type V = Map<Player, u64>;

    open spec fn view(&self) -> Map<Player, u64> {
        list_map(self.players@)
    }
}

impl Lobby {
    /// Whether the entry list is a sound table: one entry per identity.
    pub open spec fn wf(&self) -> bool {
        distinct_keys(self.players@)
    }

    /// An empty lobby: nobody is connected.
    pub fn new() -> (r: Lobby)
        ensures
            r.wf(),
            r@ == Map::<Player, u64>::empty(),
            r.players@.len() == 0,
    {
        Lobby { players: Vec::new() }
    }

    /// Number of players this process considers connected.
    pub fn len(&self) -> (r: usize)
        ensures
            r == self.players@.len(),
    {
        self.players.len()
    }

    /// Whether `p` is considered connected.
    pub fn contains(&self, p: Player) -> (r: bool)
        requires
            self.wf(),
        ensures
            r == self@.contains_key(p),
    {
        proof {
            lemma_list_map_dom(self.players@);
        }
        match table_get(&self.players, p) {
            Some(_) => true,
            None => false,
        }
    }

    /// The handle kept for `p`, if `p` is connected.
    pub fn get(&self, p: Player) -> (r: Option<u64>)
        requires
            self.wf(),
        ensures
            r is Some <==> self@.contains_key(p),
            r matches Some(h) ==> h == self@[p],
    {
        proof {
            lemma_list_map_dom(self.players@);
        }
        match table_get(&self.players, p) {
            Some(h) => Some(*h),
            None => None,
        }
    }

    /// Marks `p` connected, bound to `handle`; overwrites any earlier
    /// binding for `p`.
    pub fn insert(&mut self, p: Player, handle: u64)
        requires
            old(self).wf(),
        ensures
            final(self).wf(),
            final(self)@ == old(self)@.insert(p, handle),
    {
        table_insert(&mut self.players, p, handle);
    }

    /// Marks `p` disconnected, returning its handle; a no-op when `p` was
    /// already absent, since a disconnect may race the event that would
    /// have announced it.
    pub fn remove(&mut self, p: Player) -> (r: Option<u64>)
        requires
            old(self).wf(),
        ensures
            final(self).wf(),
            final(self)@ == old(self)@.remove(p),
            r is Some <==> old(self)@.contains_key(p),
            r matches Some(h) ==> h == old(self)@[p],
    {
        proof {
            lemma_list_map_dom(self.players@);
        }
        table_remove(&mut self.players, p)
    }

    /// Applies one lifecycle message, the only path by which a client's
    /// membership changes.  For a connect, `connect_handle` is the handle
    /// the caller allotted for the new player; for a disconnect, the
    /// returned handle is the one the caller should release, if any.
    pub fn apply(&mut self, msg: &ServerMessage, connect_handle: u64) -> (despawn: Option<u64>)
        requires
            old(self).wf(),
        ensures
            final(self).wf(),
            final(self)@.dom() == member_step(old(self)@.dom(), *msg),
            *msg matches ServerMessage::PlayerConnected { player } ==> final(self)@ == old(
                self,
            )@.insert(player, connect_handle) && despawn is None,
            *msg matches ServerMessage::PlayerDisconnected { player } ==> {
                &&& final(self)@ == old(self)@.remove(player)
                &&& (despawn is Some <==> old(self)@.contains_key(player))
                &&& (despawn matches Some(h) ==> h == old(self)@[player])
            },
    {
        match msg {
            ServerMessage::PlayerConnected { player } => {
                self.insert(*player, connect_handle);
                proof {
                    assert(self@.dom() =~= member_step(old(self)@.dom(), *msg));
                }
                None
            },
            ServerMessage::PlayerDisconnected { player } => {
                let r = self.remove(*player);
                proof {
                    assert(self@.dom() =~= member_step(old(self)@.dom(), *msg));
                }
                r
            },
        }
    }
}

/// How one lifecycle message changes a membership set.
pub open spec fn member_step(s: Set<Player>, msg: ServerMessage) -> Set<Player> {
    match msg {
        ServerMessage::PlayerConnected { player } => s.insert(player),
        ServerMessage::PlayerDisconnected { player } => s.remove(player),
    }
}

/// The membership set after a sequence of lifecycle messages, applied in
/// order.
pub open spec fn members_after(s: Set<Player>, msgs: Seq<ServerMessage>) -> Set<Player>
    decreases msgs.len(),
{
    if msgs.len() == 0 {
        s
    } else {
        member_step(members_after(s, msgs.drop_last()), msgs.last())
    }
}

/// The connect messages a sequence of players gives rise to, in order.
pub open spec fn connect_seq(ps: Seq<Player>) -> Seq<ServerMessage> {
    ps.map_values(|p: Player| ServerMessage::PlayerConnected { player: p })
}

/// The burst a joining client receives: one connect message per player
/// already present, then the announcement of the joiner itself.
pub open spec fn join_burst(existing: Seq<Player>, joiner: Player) -> Seq<ServerMessage> {
    connect_seq(existing).push(ServerMessage::PlayerConnected { player: joiner })
}

/// Applying a run of connect messages adds exactly those players.
pub proof fn lemma_connect_seq_membership(s: Set<Player>, ps: Seq<Player>)
    ensures
        members_after(s, connect_seq(ps)) == s.union(ps.to_set()),
    decreases ps.len(),
{
    if ps.len() == 0 {
        assert(members_after(s, connect_seq(ps)) =~= s.union(ps.to_set()));
    } else {
        assert(connect_seq(ps).drop_last() =~= connect_seq(ps.drop_last()));
        lemma_connect_seq_membership(s, ps.drop_last());
        assert(connect_seq(ps).last() == (ServerMessage::PlayerConnected { player: ps.last() }));
        assert forall|q: Player| ps.to_set().contains(q) implies ps.drop_last().to_set().insert(
            ps.last(),
        ).contains(q) by {
            let i = choose|i: int| 0 <= i < ps.len() && ps[i] == q;
            if i < ps.len() - 1 {
                assert(ps.drop_last()[i] == q);
            }
        }
        assert forall|q: Player|
            ps.drop_last().to_set().insert(ps.last()).contains(q) implies ps.to_set().contains(
            q,
        ) by {
            if q == ps.last() {
                assert(ps[ps.len() - 1] == q);
            } else {
                let i = choose|i: int| 0 <= i < ps.drop_last().len() && ps.drop_last()[i] == q;
                assert(ps[i] == q);
            }
        }
        assert(ps.to_set() =~= ps.drop_last().to_set().insert(ps.last()));
        assert(members_after(s, connect_seq(ps)) =~= s.union(ps.to_set()));
    }
}

/// A client that starts from an empty lobby and applies the join burst for
/// the players present at the server ends with exactly those players plus
/// itself — the joiner reconstructs current membership without a dedicated
/// snapshot message.
pub proof fn lemma_join_burst_membership(existing: Seq<Player>, joiner: Player)
    ensures
        members_after(Set::empty(), join_burst(existing, joiner)) == existing.to_set().insert(
            joiner,
        ),
{
    assert(join_burst(existing, joiner).drop_last() =~= connect_seq(existing));
    lemma_connect_seq_membership(Set::empty(), existing);
    assert(members_after(Set::empty(), join_burst(existing, joiner)) =~= existing.to_set().insert(
        joiner,
    ));
}

/// The handle/position pairs a client should render from a snapshot: the
/// entries whose player it knows, each resolved to the local handle, in
/// snapshot order.  Entries for unknown players are ignored; only lifecycle
/// messages change membership.
pub open spec fn render_updates(m: Map<Player, u64>, entries: Seq<(Player, Position)>) -> Seq<
    (u64, Position),
>
    decreases entries.len(),
{
    if entries.len() == 0 {
        Seq::empty()
    } else {
        let rest = render_updates(m, entries.drop_last());
        if m.contains_key(entries.last().0) {
            rest.push((m[entries.last().0], entries.last().1))
        } else {
            rest
        }
    }
}

/// Resolves a snapshot against a client's lobby: for every entry whose
/// player is known, the local handle and the position to give it.
pub fn apply_world_sync(lobby: &Lobby, sync: &WorldSync) -> (r: Vec<(u64, Position)>)
    requires
        lobby.wf(),
    ensures
        r@ == render_updates(lobby@, sync.players_positions@),
{
    let n = sync.players_positions.len();
    let mut out: Vec<(u64, Position)> = Vec::new();
    let mut i: usize = 0;
    while i < n
        invariant
            i <= n,
            n == sync.players_positions@.len(),
            lobby.wf(),
            out@ == render_updates(lobby@, sync.players_positions@.subrange(0, i as int)),
        decreases n - i,
    {
        let (p, pos) = sync.players_positions[i];
        match lobby.get(p) {
            Some(h) => out.push((h, pos)),
            None => (),
        }
        proof {
            let pref = sync.players_positions@.subrange(0, i + 1);
            assert(pref.drop_last() =~= sync.players_positions@.subrange(0, i as int));
            assert(pref.last() == sync.players_positions@[i as int]);
        }
        i = i + 1;
    }
    proof {
        assert(sync.players_positions@.subrange(0, n as int) =~= sync.players_positions@);
    }
    out
}

} // verus!

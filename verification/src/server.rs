//! The server's side of the protocol: authoritative world state, the
//! connection manager, the input drain, the movement integrator and the
//! world-sync producer, run in that order once per tick.

use vstd::prelude::*;

use crate::lobby::{join_burst, lemma_join_burst_membership, members_after};
use crate::messages::{
    decode_player_input, encode_server_message, encode_world_sync, input_payload_wf,
    lemma_message_roundtrip, message_bytes, message_payload_wf, parsed_input, parsed_message,
    sync_bytes, Player, PlayerInput, Position, ProtocolError, ServerMessage, WorldSync,
};
use crate::motion::{dir_x, dir_y, lemma_wrap_in_range, moved, step_position};
use crate::router::{out_models, Destination, OutboundMessage, OutboundModel};
use crate::table::{
    del, distinct_keys, has_key, keys_of, lemma_del, lemma_upsert, list_map, table_index_of,
    table_insert, table_remove, upsert,
};
use crate::{CONNECTION_EVENTS_CHANNEL, MAX_TICK_MICROS, WORLD_SYNC_CHANNEL};

verus! {

/// What the server holds for one connected player: the last input sample
/// received from it, and its authoritative position.
#[derive(Debug, Clone, Copy, PartialEq, Eq, Structural)]
pub struct PlayerState {
    pub input: PlayerInput,
    pub position: Position,
}

/// The state a player starts in at connection accept: at the origin, with
/// no intent.
pub open spec fn initial_state() -> PlayerState {
    PlayerState {
        input: PlayerInput { up: false, down: false, left: false, right: false },
        position: Position { x: 0, y: 0 },
    }
}

/// A connection lifecycle event, as the transport reports it.
#[derive(Debug, Clone, Copy, PartialEq, Eq, Structural)]
pub enum ConnectionEvent {
    Connected { player: Player },
    Disconnected { player: Player },
}

/// The server's authoritative world: its lobby, with the simulation state
/// of each member as the locally-owned value.  Entries sit in join order,
/// so every pass over them is deterministic.
#[derive(Debug)]
pub struct ServerWorld {
    pub players: Vec<(Player, PlayerState)>,
}

impl View for ServerWorld {
    type V = Map<Player, PlayerState>;

    open spec fn view(&self) -> Map<Player, PlayerState> {
        list_map(self.players@)
    }
}

impl ServerWorld {
    /// One entry per identity.
    pub open spec fn wf(&self) -> bool {
        distinct_keys(self.players@)
    }

    /// A world with nobody connected.
    pub fn new() -> (r: ServerWorld)
        ensures
            r.wf(),
            r.players@.len() == 0,
    {
        ServerWorld { players: Vec::new() }
    }
}

/// The entry list after one lifecycle event: a connect inserts a fresh
/// default state (overwriting any stale entry), a disconnect drops the
/// entry and is a no-op for an absent identity.
pub open spec fn world_event_step(
    s: Seq<(Player, PlayerState)>,
    ev: ConnectionEvent,
) -> Seq<(Player, PlayerState)> {
    match ev {
        ConnectionEvent::Connected { player } => upsert(s, player, initial_state()),
        ConnectionEvent::Disconnected { player } => del(s, player),
    }
}

/// The entry list after a run of lifecycle events, applied in order.
pub open spec fn world_after_events(
    s: Seq<(Player, PlayerState)>,
    evs: Seq<ConnectionEvent>,
) -> Seq<(Player, PlayerState)>
    decreases evs.len(),
{
    if evs.len() == 0 {
        s
    } else {
        world_event_step(world_after_events(s, evs.drop_last()), evs.last())
    }
}

/// The catch-up messages a joiner is sent: one connect message per player
/// already present, addressed to the joiner alone, in lobby order.
pub open spec fn targeted_out(existing: Seq<Player>, joiner: Player) -> Seq<OutboundModel> {
    existing.map_values(
        |p: Player|
            OutboundModel {
                dest: Destination::Single { player: joiner },
                channel: CONNECTION_EVENTS_CHANNEL,
                payload: message_bytes(ServerMessage::PlayerConnected { player: p }),
            },
    )
}

/// Everything sent for one connect: the joiner's catch-up, then the
/// broadcast announcing the joiner to every client, the joiner included.
pub open spec fn connect_out(existing: Seq<Player>, joiner: Player) -> Seq<OutboundModel> {
    targeted_out(existing, joiner).push(
        OutboundModel {
            dest: Destination::Broadcast,
            channel: CONNECTION_EVENTS_CHANNEL,
            payload: message_bytes(ServerMessage::PlayerConnected { player: joiner }),
        },
    )
}

/// Everything sent for one lifecycle event, given the lobby keys as they
/// stand when the event is processed.
pub open spec fn event_out(keys: Seq<Player>, ev: ConnectionEvent) -> Seq<OutboundModel> {
    match ev {
        ConnectionEvent::Connected { player } => connect_out(keys, player),
        ConnectionEvent::Disconnected { player } => seq![
            OutboundModel {
                dest: Destination::Broadcast,
                channel: CONNECTION_EVENTS_CHANNEL,
                payload: message_bytes(ServerMessage::PlayerDisconnected { player }),
            },
        ],
    }
}

/// Everything sent for a run of lifecycle events, each seen against the
/// lobby as the events before it left it.
pub open spec fn events_out(
    s: Seq<(Player, PlayerState)>,
    evs: Seq<ConnectionEvent>,
) -> Seq<OutboundModel>
    decreases evs.len(),
{
    if evs.len() == 0 {
        Seq::empty()
    } else {
        events_out(s, evs.drop_last()) + event_out(
            keys_of(world_after_events(s, evs.drop_last())),
            evs.last(),
        )
    }
}

/// The connection manager's work for one event.  A connect first tells the
/// joiner, one message per player, who is already present, then creates
/// the joiner's state and announces it to everyone; a disconnect drops the
/// player (tolerating an absent one) and announces the departure.  The join
/// announcement thus precedes any snapshot naming the joiner, since
/// snapshots are produced only after the event queue is drained.
pub fn handle_connection_event(
    world: &mut ServerWorld,
    ev: &ConnectionEvent,
    out: &mut Vec<OutboundMessage>,
)
    requires
        old(world).wf(),
    ensures
        final(world).wf(),
        final(world).players@ == world_event_step(old(world).players@, *ev),
        out_models(final(out)@) == out_models(old(out)@) + event_out(
            keys_of(old(world).players@),
            *ev,
        ),
{
    match ev {
        ConnectionEvent::Connected { player } => {
            let joiner = *player;
            let n = world.players.len();
            let mut k: usize = 0;
            while k < n
                invariant
                    k <= n,
                    n == world.players@.len(),
                    world.players@ == old(world).players@,
                    out_models(out@) == out_models(old(out)@) + targeted_out(
                        keys_of(old(world).players@).subrange(0, k as int),
                        joiner,
                    ),
                decreases n - k,
            {
                let p = world.players[k].0;
                let payload = encode_server_message(
                    &(ServerMessage::PlayerConnected { player: p }),
                );
                let ghost prev = out@;
                out.push(
                    OutboundMessage {
                        dest: Destination::Single { player: joiner },
                        channel: CONNECTION_EVENTS_CHANNEL,
                        payload,
                    },
                );
                proof {
                    let ks = keys_of(old(world).players@);
                    assert(ks[k as int] == old(world).players@[k as int].0);
                    let lhs = out_models(out@);
                    let rhs = out_models(old(out)@) + targeted_out(
                        ks.subrange(0, k as int + 1),
                        joiner,
                    );
                    assert(out@ == prev.push(out@.last()));
                    assert(out_models(prev) == out_models(old(out)@) + targeted_out(
                        ks.subrange(0, k as int),
                        joiner,
                    ));
                    assert(out_models(prev).len() == prev.len());
                    assert(targeted_out(ks.subrange(0, k as int), joiner).len() == k as int);
                    assert(lhs.len() == rhs.len());
                    assert forall|i: int| 0 <= i < lhs.len() implies lhs[i] =~~= rhs[i] by {
                        assert(lhs[i] == out@[i]@);
                        if i < prev.len() {
                            assert(out@[i] == prev[i]);
                            assert(out_models(prev)[i] == prev[i]@);
                        }
                    }
                    assert(lhs =~~= rhs);
                }
                k = k + 1;
            }
            let fresh = PlayerState {
                input: PlayerInput { up: false, down: false, left: false, right: false },
                position: Position { x: 0, y: 0 },
            };
            table_insert(&mut world.players, joiner, fresh);
            let payload = encode_server_message(&(ServerMessage::PlayerConnected { player: joiner }));
            let ghost prev = out@;
            out.push(
                OutboundMessage {
                    dest: Destination::Broadcast,
                    channel: CONNECTION_EVENTS_CHANNEL,
                    payload,
                },
            );
            proof {
                let ks = keys_of(old(world).players@);
                assert(ks.subrange(0, n as int) =~= ks);
                let lhs = out_models(out@);
                let rhs = out_models(old(out)@) + connect_out(ks, joiner);
                assert(out@ == prev.push(out@.last()));
                assert(lhs.len() == rhs.len());
                assert forall|i: int| 0 <= i < lhs.len() implies lhs[i] =~~= rhs[i] by {
                    assert(lhs[i] == out@[i]@);
                    if i < prev.len() {
                        assert(out@[i] == prev[i]);
                        assert(out_models(prev)[i] == prev[i]@);
                    }
                }
                assert(lhs =~~= rhs);
            }
        },
        ConnectionEvent::Disconnected { player } => {
            let _gone = table_remove(&mut world.players, *player);
            let payload = encode_server_message(
                &(ServerMessage::PlayerDisconnected { player: *player }),
            );
            let ghost prev = out@;
            out.push(
                OutboundMessage {
                    dest: Destination::Broadcast,
                    channel: CONNECTION_EVENTS_CHANNEL,
                    payload,
                },
            );
            proof {
                let lhs = out_models(out@);
                let rhs = out_models(old(out)@) + event_out(keys_of(old(world).players@), *ev);
                assert(out@ == prev.push(out@.last()));
                assert(lhs.len() == rhs.len());
                assert forall|i: int| 0 <= i < lhs.len() implies lhs[i] =~~= rhs[i] by {
                    assert(lhs[i] == out@[i]@);
                    if i < prev.len() {
                        assert(out@[i] == prev[i]);
                        assert(out_models(prev)[i] == prev[i]@);
                    }
                }
                assert(lhs =~~= rhs);
            }
        },
    }
}

/// Whether every payload of an input batch has the input-sample shape.
pub open spec fn batch_wf(batch: Seq<(Player, Vec<u8>)>) -> bool {
    forall|i: int| 0 <= i < batch.len() ==> input_payload_wf(#[trigger] batch[i].1@)
}

/// The typed samples an input batch denotes, sender by sender, in arrival
/// order.
pub open spec fn decoded_inputs(batch: Seq<(Player, Vec<u8>)>) -> Seq<(Player, PlayerInput)> {
    batch.map_values(|e: (Player, Vec<u8>)| (e.0, parsed_input(e.1@)))
}

/// The sample a player's state ends the drain with: the last one that
/// player sent this pass, or the standing one if it sent none.
pub open spec fn last_input_from(
    msgs: Seq<(Player, PlayerInput)>,
    p: Player,
    standing: PlayerInput,
) -> PlayerInput
    decreases msgs.len(),
{
    if msgs.len() == 0 {
        standing
    } else if msgs.last().0 == p {
        msgs.last().1
    } else {
        last_input_from(msgs.drop_last(), p, standing)
    }
}

/// The entry list after a drain pass: positions stand, and each member's
/// input becomes the last sample received from it.  Samples from senders
/// not in the lobby fall away silently: a benign race, not an error.
pub open spec fn inputs_applied(
    s: Seq<(Player, PlayerState)>,
    msgs: Seq<(Player, PlayerInput)>,
) -> Seq<(Player, PlayerState)> {
    s.map_values(
        |e: (Player, PlayerState)|
            (
                e.0,
                PlayerState {
                    input: last_input_from(msgs, e.0, e.1.input),
                    position: e.1.position,
                },
            ),
    )
}

/// Drains one tick's input messages into the world.  Succeeds exactly when
/// every payload has the input shape; a malformed payload is fatal
/// protocol skew and surfaces as the error.
pub fn drain_player_inputs(world: &mut ServerWorld, batch: &Vec<(Player, Vec<u8>)>) -> (r: Result<
    (),
    ProtocolError,
>)
    requires
        old(world).wf(),
    ensures
        final(world).wf(),
        keys_of(final(world).players@) == keys_of(old(world).players@),
        r is Ok <==> batch_wf(batch@),
        r is Ok ==> final(world).players@ == inputs_applied(
            old(world).players@,
            decoded_inputs(batch@),
        ),
        r matches Err(e) ==> e == ProtocolError::MalformedPayload,
{
    let n = batch.len();
    let mut j: usize = 0;
    while j < n
        invariant
            j <= n,
            n == batch@.len(),
            old(world).wf(),
            world.wf(),
            forall|i: int| 0 <= i < j ==> input_payload_wf(#[trigger] batch@[i].1@),
            world.players@ == inputs_applied(
                old(world).players@,
                decoded_inputs(batch@.subrange(0, j as int)),
            ),
        decreases n - j,
    {
        let entry = &batch[j];
        let sender = entry.0;
        let decoded = decode_player_input(&entry.1);
        proof {
            assert(keys_of(world.players@) =~= keys_of(old(world).players@));
        }
        match decoded {
            Err(e) => {
                return Err(e);
            },
            Ok(inp) => {
                let ghost before = world.players@;
                match table_index_of(&world.players, sender) {
                    Some(idx) => {
                        let pos = world.players[idx].1.position;
                        world.players[idx] = (sender, PlayerState { input: inp, position: pos });
                    },
                    None => (),
                }
                proof {
                    let sub1 = batch@.subrange(0, j as int);
                    let sub2 = batch@.subrange(0, j as int + 1);
                    let msgs = decoded_inputs(sub1);
                    let msgs2 = decoded_inputs(sub2);
                    assert(sub2.drop_last() =~= sub1);
                    assert(sub2.last() == batch@[j as int]);
                    assert(msgs2 =~= msgs.push((sender, inp)));
                    assert(msgs2.drop_last() == msgs);
                    assert(msgs2.last() == (sender, inp));
                    let target = inputs_applied(old(world).players@, msgs2);
                    assert forall|t: int| 0 <= t < target.len() implies world.players@[t]
                        == target[t] by {
                        let e = old(world).players@[t];
                        assert(before[t] == inputs_applied(old(world).players@, msgs)[t]);
                        assert(before[t].0 == e.0);
                        if e.0 == sender {
                            assert(last_input_from(msgs2, e.0, e.1.input) == inp);
                            assert(has_key(before, sender));
                        } else {
                            assert(last_input_from(msgs2, e.0, e.1.input) == last_input_from(
                                msgs,
                                e.0,
                                e.1.input,
                            ));
                        }
                    }
                    assert(world.players@ =~= target);
                }
                j = j + 1;
            },
        }
    }
    proof {
        assert(batch@.subrange(0, n as int) =~= batch@);
    }
    Ok(())
}

/// The entry list after one movement step: every member's position
/// advanced by its standing input over `dt` microseconds.
pub open spec fn ticked(s: Seq<(Player, PlayerState)>, dt: u64) -> Seq<(Player, PlayerState)> {
    s.map_values(
        |e: (Player, PlayerState)|
            (
                e.0,
                PlayerState { input: e.1.input, position: moved(e.1.position, e.1.input, dt) },
            ),
    )
}

/// The movement integrator: advances every member by its standing input,
/// a pure function of the inputs and the elapsed time — no collision, no
/// clamping.
pub fn move_players(world: &mut ServerWorld, dt: u64)
    requires
        old(world).wf(),
        dt <= MAX_TICK_MICROS,
    ensures
        final(world).wf(),
        final(world).players@ == ticked(old(world).players@, dt),
{
    let n = world.players.len();
    let mut i: usize = 0;
    while i < n
        invariant
            i <= n,
            n == world.players@.len(),
            world.players@.len() == old(world).players@.len(),
            forall|t: int| 0 <= t < i ==> world.players@[t] == ticked(old(world).players@, dt)[t],
            forall|t: int| i <= t < n ==> world.players@[t] == old(world).players@[t],
            dt <= MAX_TICK_MICROS,
        decreases n - i,
    {
        let (p, st) = world.players[i];
        let next = step_position(st.position, st.input, dt);
        world.players[i] = (p, PlayerState { input: st.input, position: next });
        i = i + 1;
    }
    proof {
        assert(world.players@ =~= ticked(old(world).players@, dt));
        assert forall|a: int, b: int|
            0 <= a < b < world.players@.len() implies world.players@[a].0
            != world.players@[b].0 by {
            assert(old(world).players@[a].0 != old(world).players@[b].0);
        }
    }
}

/// The positions a snapshot reports: every member's, in lobby order.
pub open spec fn snapshot_entries(s: Seq<(Player, PlayerState)>) -> Seq<(Player, Position)> {
    s.map_values(|e: (Player, PlayerState)| (e.0, e.1.position))
}

/// The world-sync producer: one complete snapshot of every member's
/// current position, in lobby order.
pub fn build_world_sync(world: &ServerWorld) -> (r: WorldSync)
    ensures
        r.players_positions@ == snapshot_entries(world.players@),
{
    let n = world.players.len();
    let mut entries: Vec<(Player, Position)> = Vec::new();
    let mut i: usize = 0;
    while i < n
        invariant
            i <= n,
            n == world.players@.len(),
            entries@ == snapshot_entries(world.players@.subrange(0, i as int)),
        decreases n - i,
    {
        let (p, st) = world.players[i];
        entries.push((p, st.position));
        proof {
            assert(entries@ =~= snapshot_entries(world.players@.subrange(0, i as int + 1)));
        }
        i = i + 1;
    }
    proof {
        assert(world.players@.subrange(0, n as int) =~= world.players@);
    }
    WorldSync { players_positions: entries }
}

/// The model of the snapshot broadcast for a given entry list.
pub open spec fn sync_model(s: Seq<(Player, PlayerState)>) -> OutboundModel {
    OutboundModel {
        dest: Destination::Broadcast,
        channel: WORLD_SYNC_CHANNEL,
        payload: sync_bytes(snapshot_entries(s)),
    }
}

/// Frames the tick's snapshot for the world-sync channel, addressed to
/// every client.  Identical worlds give bit-identical frames.
pub fn world_sync_message(world: &ServerWorld) -> (r: OutboundMessage)
    ensures
        r@ == sync_model(world.players@),
{
    let sync = build_world_sync(world);
    let payload = encode_world_sync(&sync);
    let r = OutboundMessage { dest: Destination::Broadcast, channel: WORLD_SYNC_CHANNEL, payload };
    proof {
        assert(r@ =~~= sync_model(world.players@));
    }
    r
}

/// One whole server tick, the phases in their fixed order: drain the
/// lifecycle events, drain the input channel, integrate movement, then
/// broadcast one snapshot.  Succeeds exactly when every input payload is
/// well-shaped; a malformed one aborts the tick with the fatal error.
pub fn server_tick(
    world: &mut ServerWorld,
    events: &Vec<ConnectionEvent>,
    inputs: &Vec<(Player, Vec<u8>)>,
    dt: u64,
) -> (r: Result<Vec<OutboundMessage>, ProtocolError>)
    requires
        old(world).wf(),
        dt <= MAX_TICK_MICROS,
    ensures
        final(world).wf(),
        r is Ok <==> batch_wf(inputs@),
        r is Ok ==> final(world).players@ == ticked(
            inputs_applied(
                world_after_events(old(world).players@, events@),
                decoded_inputs(inputs@),
            ),
            dt,
        ),
        r matches Ok(out) ==> out_models(out@) == events_out(old(world).players@, events@).push(
            sync_model(final(world).players@),
        ),
        r matches Err(e) ==> e == ProtocolError::MalformedPayload,
{
    let mut out: Vec<OutboundMessage> = Vec::new();
    let ne = events.len();
    let mut i: usize = 0;
    while i < ne
        invariant
            i <= ne,
            ne == events@.len(),
            old(world).wf(),
            world.wf(),
            world.players@ == world_after_events(
                old(world).players@,
                events@.subrange(0, i as int),
            ),
            out_models(out@) == events_out(old(world).players@, events@.subrange(0, i as int)),
        decreases ne - i,
    {
        let ghost pre_world = world.players@;
        let ghost pre_out = out@;
        let ev = events[i];
        handle_connection_event(world, &ev, &mut out);
        proof {
            let sub1 = events@.subrange(0, i as int);
            let sub2 = events@.subrange(0, i as int + 1);
            assert(sub2.drop_last() =~= sub1);
            assert(sub2.last() == events@[i as int]);
            assert(world.players@ == world_after_events(old(world).players@, sub2));
            assert(out_models(out@) == out_models(pre_out) + event_out(
                keys_of(pre_world),
                events@[i as int],
            ));
            assert(out_models(out@) == events_out(old(world).players@, sub2));
        }
        i = i + 1;
    }
    proof {
        assert(events@.subrange(0, ne as int) =~= events@);
    }
    match drain_player_inputs(world, inputs) {
        Ok(()) => (),
        Err(e) => {
            return Err(e);
        },
    }
    move_players(world, dt);
    let sync = world_sync_message(&*world);
    let ghost prev = out@;
    out.push(sync);
    proof {
        let lhs = out_models(out@);
        let rhs = events_out(old(world).players@, events@).push(sync_model(world.players@));
        assert(out@ == prev.push(out@.last()));
        assert(out_models(prev) == events_out(old(world).players@, events@));
        assert(lhs.len() == rhs.len());
        assert forall|t: int| 0 <= t < lhs.len() implies lhs[t] =~~= rhs[t] by {
            assert(lhs[t] == out@[t]@);
            if t < prev.len() {
                assert(out@[t] == prev[t]);
                assert(out_models(prev)[t] == prev[t]@);
            }
        }
        assert(lhs =~~= rhs);
    }
    Ok(out)
}

/// Whether a player counts as connected once a run of lifecycle events has
/// been processed: the last event naming it was a connect.
pub open spec fn connected_at_end(evs: Seq<ConnectionEvent>, p: Player) -> bool
    decreases evs.len(),
{
    if evs.len() == 0 {
        false
    } else {
        match evs.last() {
            ConnectionEvent::Connected { player } => if player == p {
                true
            } else {
                connected_at_end(evs.drop_last(), p)
            },
            ConnectionEvent::Disconnected { player } => if player == p {
                false
            } else {
                connected_at_end(evs.drop_last(), p)
            },
        }
    }
}

/// Replaying lifecycle events keeps the lobby sound: one entry per
/// identity.
pub proof fn lemma_world_after_events_wf(s: Seq<(Player, PlayerState)>, evs: Seq<ConnectionEvent>)
    requires
        distinct_keys(s),
    ensures
        distinct_keys(world_after_events(s, evs)),
    decreases evs.len(),
{
    if evs.len() > 0 {
        lemma_world_after_events_wf(s, evs.drop_last());
        let w = world_after_events(s, evs.drop_last());
        match evs.last() {
            ConnectionEvent::Connected { player } => {
                lemma_upsert(w, player, initial_state());
            },
            ConnectionEvent::Disconnected { player } => {
                lemma_del(w, player);
            },
        }
    }
}

/// Replaying any run of lifecycle events from an empty world leaves a
/// lobby whose key set is exactly the set of currently-connected
/// identities: no leaked entry survives a disconnect, and no entry appears
/// without a connect.
pub proof fn lemma_lobby_tracks_connections(evs: Seq<ConnectionEvent>)
    ensures
        forall|p: Player|
            list_map(world_after_events(Seq::empty(), evs)).contains_key(p)
                <==> #[trigger] connected_at_end(evs, p),
    decreases evs.len(),
{
    if evs.len() > 0 {
        lemma_lobby_tracks_connections(evs.drop_last());
        let w = world_after_events(Seq::empty(), evs.drop_last());
        lemma_world_after_events_wf(Seq::empty(), evs.drop_last());
        let full = world_after_events(Seq::empty(), evs);
        match evs.last() {
            ConnectionEvent::Connected { player } => {
                lemma_upsert(w, player, initial_state());
            },
            ConnectionEvent::Disconnected { player } => {
                lemma_del(w, player);
            },
        }
        assert forall|p: Player|
            list_map(full).contains_key(p) <==> #[trigger] connected_at_end(evs, p) by {
            assert(connected_at_end(evs.drop_last(), p) <==> list_map(w).contains_key(p));
            match evs.last() {
                ConnectionEvent::Connected { player } => {
                    assert(list_map(full) == list_map(w).insert(player, initial_state()));
                },
                ConnectionEvent::Disconnected { player } => {
                    assert(list_map(full) == list_map(w).remove(player));
                },
            }
        }
    }
}

/// The payloads of a connect's outgoing run are all well-shaped lifecycle
/// events, and decode, in order, to the join burst: the catch-up connects
/// for the players already present, then the joiner's own announcement.
pub proof fn lemma_connect_out_decodes(keys: Seq<Player>, joiner: Player)
    ensures
        connect_out(keys, joiner).len() == join_burst(keys, joiner).len(),
        forall|i: int|
            0 <= i < connect_out(keys, joiner).len() ==> message_payload_wf(
                #[trigger] connect_out(keys, joiner)[i].payload,
            ) && parsed_message(connect_out(keys, joiner)[i].payload)
                == join_burst(keys, joiner)[i],
{
    let outs = connect_out(keys, joiner);
    let burst = join_burst(keys, joiner);
    assert forall|i: int| 0 <= i < outs.len() implies message_payload_wf(
        #[trigger] outs[i].payload,
    ) && parsed_message(outs[i].payload) == burst[i] by {
        if i < keys.len() {
            assert(outs[i] == targeted_out(keys, joiner)[i]);
            lemma_message_roundtrip(
                ServerMessage::PlayerConnected { player: keys[i] },
            );
        } else {
            lemma_message_roundtrip(
                ServerMessage::PlayerConnected { player: joiner },
            );
        }
    }
}

/// A client joining an occupied server reconstructs membership exactly:
/// decoding the payloads the connection manager sends it and applying them
/// to an empty lobby yields the set of players present at the moment of
/// join, plus the joiner itself.
pub proof fn lemma_joiner_reconstructs_membership(keys: Seq<Player>, joiner: Player)
    ensures
        members_after(
            Set::empty(),
            connect_out(keys, joiner).map_values(
                |m: OutboundModel| parsed_message(m.payload),
            ),
        ) == keys.to_set().insert(joiner),
{
    lemma_connect_out_decodes(keys, joiner);
    let decoded = connect_out(keys, joiner).map_values(
        |m: OutboundModel| parsed_message(m.payload),
    );
    assert(decoded =~= join_burst(keys, joiner));
    lemma_join_burst_membership(keys, joiner);
}

/// A tick that changes nothing reports the same world: with no lifecycle
/// events, no input messages and no elapsed time, the entry list stands
/// still, so repeated snapshot broadcasts are bit-identical.
pub proof fn lemma_noop_tick_identity(s: Seq<(Player, PlayerState)>)
    ensures
        ticked(inputs_applied(world_after_events(s, Seq::empty()), decoded_inputs(Seq::empty())), 0)
            == s,
        sync_model(
            ticked(
                inputs_applied(world_after_events(s, Seq::empty()), decoded_inputs(Seq::empty())),
                0,
            ),
        ) == sync_model(s),
{
    assert(world_after_events(s, Seq::empty()) == s);
    assert(decoded_inputs(Seq::empty()) =~= Seq::<(Player, PlayerInput)>::empty());
    let quiet = inputs_applied(s, Seq::empty());
    assert forall|t: int| 0 <= t < s.len() implies quiet[t] == s[t] by {
        let e = s[t];
        assert(last_input_from(Seq::empty(), e.0, e.1.input) == e.1.input);
        assert((PlayerState { input: e.1.input, position: e.1.position }) == e.1);
    }
    assert(quiet =~= s);
    let still = ticked(s, 0);
    assert forall|t: int| 0 <= t < s.len() implies still[t] == s[t] by {
        let e = s[t];
        let d_x = dir_x(e.1.input);
        let d_y = dir_y(e.1.input);
        assert(d_x * crate::PLAYER_MOVE_SPEED * 0u64 == 0);
        assert(d_y * crate::PLAYER_MOVE_SPEED * 0u64 == 0);
        lemma_wrap_in_range(e.1.position.x as int);
        lemma_wrap_in_range(e.1.position.y as int);
        assert(moved(e.1.position, e.1.input, 0) == e.1.position);
        assert((PlayerState { input: e.1.input, position: e.1.position }) == e.1);
    }
    assert(still =~= s);
}

} // verus!

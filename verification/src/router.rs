//! Message routing: pairing each typed message with its channel, and
//! turning inbound channel-tagged bytes back into the type that channel
//! carries.
//!
//! The channel id is the unchecked contract between sender and receiver: a
//! payload that does not deserialize to the channel's expected shape means
//! protocol version skew, and the error is fatal to the process by policy.

use vstd::prelude::*;

use crate::messages::{
    decode_player_input, decode_server_message, decode_world_sync, encode_player_input,
    input_bytes, input_payload_wf, message_bytes, message_payload_wf, parsed_input,
    parsed_message, sync_bytes, Player, PlayerInput, Position, ProtocolError, ServerMessage,
    WorldSync,
};
use crate::{CONNECTION_EVENTS_CHANNEL, PLAYER_POSITION_CHANNEL, WORLD_SYNC_CHANNEL};

verus! {

/// Who an outbound server message is for.
#[derive(Debug, Clone, Copy, PartialEq, Eq, Structural)]
pub enum Destination {
    /// One client, named by its identity.
    Single { player: Player },
    /// Every connected client.
    Broadcast,
}

/// A serialized message, tagged with its channel and destination, ready to
/// hand to the transport.
#[derive(Debug, Clone, PartialEq)]
pub struct OutboundMessage {
    pub dest: Destination,
    pub channel: u8,
    pub payload: Vec<u8>,
}

/// The mathematical shape of an outbound message: the payload as a byte
/// sequence.
#[verifier::ext_equal]
pub ghost struct OutboundModel {
    pub dest: Destination,
    pub channel: u8,
    pub payload: Seq<u8>,
}

impl View for OutboundMessage {
    type V = OutboundModel;

    open spec fn view(&self) -> OutboundModel {
        OutboundModel { dest: self.dest, channel: self.channel, payload: self.payload@ }
    }
}

/// The models of a run of outbound messages.
pub open spec fn out_models(s: Seq<OutboundMessage>) -> Seq<OutboundModel> {
    s.map_values(|m: OutboundMessage| m@)
}

/// A typed message a client can receive, by channel.
#[derive(Debug, Clone, PartialEq)]
pub enum ClientBoundMessage {
    /// From the connection-events channel.
    Event(ServerMessage),
    /// From the world-sync channel.
    Sync(WorldSync),
}

/// Classifies and deserializes one inbound payload on the client: the
/// connection-events channel must carry a lifecycle event and the
/// world-sync channel a snapshot; anything else is fatal protocol skew.
pub fn route_client_inbound(channel: u8, payload: &Vec<u8>) -> (r: Result<
    ClientBoundMessage,
    ProtocolError,
>)
    ensures
        channel == CONNECTION_EVENTS_CHANNEL ==> {
            &&& (r is Ok <==> message_payload_wf(payload@))
            &&& (r matches Ok(m) ==> m == ClientBoundMessage::Event(parsed_message(payload@))
                && payload@ == message_bytes(parsed_message(payload@)))
        },
        channel == WORLD_SYNC_CHANNEL ==> {
            &&& (r matches Ok(m) ==> m matches ClientBoundMessage::Sync(w) && payload@
                == sync_bytes(w.players_positions@))
            &&& (r is Err ==> forall|s: Seq<(Player, Position)>| payload@ != sync_bytes(s))
        },
        channel != CONNECTION_EVENTS_CHANNEL && channel != WORLD_SYNC_CHANNEL ==> r == Result::<
            ClientBoundMessage,
            ProtocolError,
        >::Err(ProtocolError::UnknownChannel),
        r matches Err(e) ==> e == ProtocolError::MalformedPayload || e
            == ProtocolError::UnknownChannel,
{
    if channel == CONNECTION_EVENTS_CHANNEL {
        match decode_server_message(payload) {
            Ok(m) => Ok(ClientBoundMessage::Event(m)),
            Err(e) => Err(e),
        }
    } else if channel == WORLD_SYNC_CHANNEL {
        match decode_world_sync(payload) {
            Ok(w) => Ok(ClientBoundMessage::Sync(w)),
            Err(e) => Err(e),
        }
    } else {
        Err(ProtocolError::UnknownChannel)
    }
}

/// Classifies and deserializes one inbound payload on the server: only the
/// player-input channel reaches it, and that channel must carry an input
/// sample.
pub fn route_server_inbound(channel: u8, payload: &Vec<u8>) -> (r: Result<
    PlayerInput,
    ProtocolError,
>)
    ensures
        channel == PLAYER_POSITION_CHANNEL ==> {
            &&& (r is Ok <==> input_payload_wf(payload@))
            &&& (r matches Ok(i) ==> i == parsed_input(payload@) && payload@ == input_bytes(i))
        },
        channel != PLAYER_POSITION_CHANNEL ==> r == Result::<PlayerInput, ProtocolError>::Err(
            ProtocolError::UnknownChannel,
        ),
        r matches Err(e) ==> e == ProtocolError::MalformedPayload || e
            == ProtocolError::UnknownChannel,
{
    if channel == PLAYER_POSITION_CHANNEL {
        decode_player_input(payload)
    } else {
        Err(ProtocolError::UnknownChannel)
    }
}

/// The input relay: frames the tick's input sample for the player-input
/// channel.  The sample is sent wholesale and unconditionally every tick,
/// whether or not it changed; a lost frame just leaves the server holding
/// the previous sample one tick longer.
pub fn client_input_message(input: &PlayerInput) -> (r: (u8, Vec<u8>))
    ensures
        r.0 == PLAYER_POSITION_CHANNEL,
        r.1@ == input_bytes(*input),
{
    (PLAYER_POSITION_CHANNEL, encode_player_input(input))
}

} // verus!

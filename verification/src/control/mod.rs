//! The control protocol: framed messages on one pipe between a client without
//! sockets and the monitor that owns them.
//!
//! - [`protocol`]: what goes over the wire.
//! - Codec: [`read_frame`] and [`write_frame`] move frames over any byte
//!   transport; [`FrameReadBuf`] decodes them bit by bit.
//! - Messages: [`ControlRequest`] and [`ControlReply`].
//! - Client: [`ArcaSession`] with `bind`, `connect` and `accept`.

mod arca_side;
mod codec;
mod ids;
mod laws;
mod message;
pub mod protocol;

pub use arca_side::{
    accept_outcome, after_asking, answer_for, answer_to, bind_outcome, can_ask, connect_outcome,
    is_answer, mismatched_reply_is_refused, replies_are_understood, request_bytes, stream_of,
    ArcaError, ArcaSession, ArcaTcpListener, ArcaTcpStream,
};
pub use codec::{
    chunks_do_not_matter, cut_frame_is_undecided, decided, declared_len,
    decode_frame_from_prefix, decoder_gives_the_first_frame, frame_bytes, frame_bytes_round_trip,
    frame_reads_back_equal, frame_result, frame_round_trip, frames_in_order, next_frame,
    next_frame_len, parse_frame, read_frame, try_read_effect, wire, wire_grows,
    wire_is_read_in_order, write_frame, FrameReadBuf, HEADER_LEN, MAX_WIRE_FRAME_LEN,
};
pub use ids::{id_after, id_counts, id_later, ids_are_distinct, next_id};
pub use laws::{
    a_decoded_frame_holds_its_content, a_handle_says_what_was_announced,
    a_request_carries_the_callers_endpoint, a_request_carries_the_callers_listener,
    a_request_is_sent_as_asked, an_answer_is_the_first_frame, codes_follow_the_catalog,
    endpoint_layout, frame_layout, ids_count_upwards, long_number_at, number_at, ready_layout,
    reply_layout, request_layout, says_endpoint, says_ready, says_stream,
    the_decoder_loses_nothing, too_short, what_a_frame_answers, what_a_frame_asks_for,
    what_a_stream_starts_with, what_an_answer_means,
};
pub use message::{
    one_direction_only, reply_round_trip, request_round_trip, short_of, ControlReply,
    ControlRequest,
};
pub use protocol::{
    connection_ready_round_trip, endpoint_round_trip, message_type_round_trip,
    same_content_same_frame,
    AcceptListenerId, CodecError, ConnectionReady, ControlFrame, DataPipeInfo, Endpoint,
    ErrPayload, FrameContent, ListenerReady, MessageType, MAX_FRAME_PAYLOAD,
};

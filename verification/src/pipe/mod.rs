//! Bidirectional byte pipe built from two single-producer, single-consumer
//! rings over one memory region.
//!
//! The pipe is a raw byte stream without message boundaries. Higher layers add
//! their own framing.

mod bidirectional_pipe;
mod error;
mod laws;
mod ring;
mod ring_consumer;
mod ring_header;
mod ring_producer;
mod shared_memory_region;
mod traits;

pub use bidirectional_pipe::{ends_meet, BidirectionalPipe};
pub use error::PipeError;
pub use laws::{
    a_consumer_reads_the_oldest, a_consumer_shows_its_ring, a_move_follows_the_ring,
    a_producer_shows_its_ring, a_producer_writes_behind_the_newest, a_read_takes_the_first_bytes,
    a_write_appends_the_first_bytes, an_endpoint_leaves_its_side, an_endpoint_sees_its_rings,
    an_endpoint_takes_its_side, cursors_count_bytes, flags_only_go_up, layout_of_a_region,
    positions_are_modulo_the_size, replacing_an_area, writing_all_hands_over_what_fits,
};
pub use ring::{
    consume_keeps_order, consumer_may_lag, contents, placed, producer_may_lag,
    sides_never_collide, span, spliced, stream_is_preserved, used_and_free, window,
    write_appends, RingData, RingMove, RingSpan,
};
pub use ring_consumer::RingConsumer;
pub use ring_header::{cursor_count, cursor_wraps_cleanly, RingHeader};
pub use ring_producer::RingProducer;
pub use shared_memory_region::{
    area_of, area_start, areas_are_apart, areas_in_place, header_start, in_header,
    read_takes_from_the_peer, required_bytes, with_area, with_areas, write_reaches_the_peer,
    zeroed_region_is_empty, RingFlags, SharedMemoryRegion, Side, HEADER_SIZE,
};
pub use traits::{
    accepted, after_writing, all_closed, can_send, continues, flags_kept, has_room, less,
    read_effect, same_channel, write_effect, Channel, ChannelState, CloseFlags, Pipe, Read, Write,
};

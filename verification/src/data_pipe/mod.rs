//! The byte stream of one session, over its data pipe.

mod async_stream;
mod dataframe;
mod sync_stream;

pub use async_stream::{AsyncStream, RecvProgress};
pub use dataframe::{
    data_header_layout, data_header_round_trip, frame_type_round_trip, DataFrameHeader, FrameType,
};
pub use sync_stream::{can_fill, can_take, StreamError, SyncStream};

//! Split-sweep radar link: the portion extractor, the server's connection
//! registry and broadcast coordinator, and the client's double buffer and
//! sliding-window merge engine.

pub mod broadcast;
pub mod config;
pub mod double_buffer;
pub mod framing;
pub mod merge;
pub mod registry;
pub mod session;
pub mod sweep;
pub mod target;

pub use broadcast::{remove_failed, BroadcastCoordinator, TickAction};
pub use config::LinkConfig;
pub use double_buffer::DoubleBuffer;
pub use framing::{decode_length, encode_frame, encode_length, PREFIX_LEN};
pub use merge::{
    merge_overlap_region, merge_sweeps, MergedRadarFrame, SlidingWindowProcessor,
    SYNC_TOLERANCE_US,
};
pub use registry::{ConnState, ConnectionRegistry};
pub use session::{
    classify_command, handle_command, handle_read, parse_command, Command, SessionStep,
};
pub use sweep::{extract_client_portion, RadarSweep, AZIMUTH_BINS, OVERLAP_END, OVERLAP_START};
pub use target::{target_footprint, SpreadCell, TargetType};

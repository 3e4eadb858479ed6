//! Live sensor-series toolkit: a streaming frame parser, an append-only
//! time-series store, a Largest-Triangle-Three-Buckets downsampler, a
//! versioned render cache and a refresh scheduler.

pub mod sample;
pub mod store;
pub mod parser;
pub mod downsample;
pub mod cache;
pub mod scheduler;

pub use sample::Sample;
pub use sample::value_bounds;
pub use sample::MAX_COORD;
pub use downsample::MAX_LEN;
pub use store::SeriesStore;
pub use parser::FrameParser;
pub use parser::ParseError;
pub use downsample::downsample;
pub use downsample::DownsampleError;
pub use cache::RenderCache;
pub use scheduler::RefreshScheduler;
pub use scheduler::RefreshEvent;
pub use scheduler::RefreshAction;

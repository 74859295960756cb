//! Audio-path bookkeeping: the oversampling block FIFO and the latency and
//! routing decisions around it.

pub mod fifo;
pub mod path;
pub mod recorder;
pub mod denormals;
pub mod peak;
pub mod engine;

pub mod clock;
pub mod histogram;
pub mod message;
pub mod pipeline;
pub mod queue;
pub mod stats;

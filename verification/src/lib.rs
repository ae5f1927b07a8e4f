pub mod clock;
pub mod codec;
pub mod collector;
pub mod metrics;
pub mod monitor;
pub mod percent;

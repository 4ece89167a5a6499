//! Decision logic of a satellite and its ground station.

pub mod cipher;
pub mod clock;
pub mod downlink;
pub mod fault;
pub mod json;
pub mod logger;
pub mod mission;
pub mod monitor;
pub mod scheduler;
pub mod sensor;
pub mod stats;
pub mod summary;
pub mod table;
pub mod task;
pub mod telemetry;
pub mod text;
pub mod timing;
pub mod types;

//! Ground-station logic for the ATLAS telemetry link: binary frame encoding
//! and decoding, stream resynchronisation, sequence accounting, command
//! construction, session logs and the telemetry simulator.

pub mod packet;
pub mod text;
pub mod command;
pub mod stream;
pub mod link;
pub mod session;
pub mod logger;
pub mod record;
pub mod simulator;

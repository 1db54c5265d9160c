//! Line-oriented serial console core: framing of a received byte stream into
//! text records, the serial worker's decisions, and the capped ingestion of
//! records into parsed rows.

pub mod console;
pub mod framer;
pub mod matcher;
pub mod serial_port;
pub mod settings;
pub mod text;

//! The payload schema: the stability contract every surface shares.
pub mod agent_profile;
pub mod enums;
pub mod payload;
pub mod profile_size;
pub mod regime;
pub mod spelling;
pub mod wire;
pub mod wire_laws;

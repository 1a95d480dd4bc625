//! Authoritative zone-data model for a small DNS secondary server:
//! the zone-file text parser, the zone-transfer session logic, and the
//! domain registry that holds each domain's installed zone.

pub mod laws;
pub mod parser;
pub mod record;
pub mod registry;
pub mod strmap;
pub mod strutil;
pub mod transfer;
pub mod zone;

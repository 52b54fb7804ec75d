//! An SMS / WhatsApp to IRC bridge library.
//!
//! The crate holds the bridge's data model and its decision logic: the
//! canonical phone-address encoding, ghost-nickname derivation, the message
//! store, the sender (message splitting and concatenated-SMS reassembly),
//! the ghost registry, and the InspIRCd server-to-server protocol engine.
//! All I/O (sockets, the modem, WhatsApp Web) lives outside the library and
//! talks to it through plain values.

pub mod addr;
pub mod admin;
pub mod comm;
pub mod config;
pub mod insp_s2s;
pub mod insp_user;
pub mod line;
pub mod models;
pub mod modem;
pub mod nick;
pub mod quarantine;
pub mod registration;
pub mod sender;
pub mod store;
pub mod util;
pub mod wa;

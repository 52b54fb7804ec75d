//! Configuration values the library's components read.  Loading and
//! parsing the configuration file happens outside the library; these
//! structs carry the plain values in.

use vstd::prelude::*;

verus! {

/// Logging configuration.
pub struct LoggingConfig {
    pub chan_loglevel: Option<String>,
    pub stdout_loglevel: Option<String>,
    pub ignore_other_libraries: bool,
}

/// Modem backend configuration.
pub struct ModemConfig {
    pub modem_path: Option<String>,
    pub cmgl_secs: Option<u32>,
    pub restart_delay_ms: Option<u32>,
    pub restart_timeout_ms: Option<u32>,
    pub command_timeout_ms: Option<u32>,
}

/// WhatsApp backend configuration.
pub struct WhatsappConfig {
    pub dl_path: Option<String>,
    pub media_path: Option<String>,
    pub autocreate_prefix: Option<String>,
    pub ack_check_interval: Option<u64>,
    pub ack_warn_ms: Option<u64>,
    pub ack_warn_pending_ms: Option<u64>,
    pub ack_expiry_ms: Option<u64>,
    pub ack_resend_ms: Option<u64>,
    pub backlog_start: Option<i64>,
}

/// IRC-client frontend configuration.
pub struct IrcClientConfig {
    pub irc_hostname: String,
    pub admin_nick: String,
    pub irc_channel: String,
    pub control_bot_nick: Option<String>,
    pub failure_interval: Option<u64>,
    pub irc_port: Option<u16>,
    pub irc_password: Option<String>,
    pub webirc_password: Option<String>,
}

/// IRC-server frontend configuration.
pub struct IrcServerConfig {
    pub listen: String,
}

/// WhatsApp Web connection wrapper configuration.
pub struct WebConnectionWrapperConfig {
    pub backoff_time_ms: u64,
}

/// InspIRCd server-to-server link configuration.
pub struct InspConfig {
    pub sid: String,
    pub control_nick: String,
    pub admin_nick: String,
    pub sendpass: String,
    pub recvpass: String,
    pub server_desc: String,
    pub server_name: String,
    pub log_chan: String,
    pub hostname: String,
    pub port: u16,
    pub set_topics: bool,
    pub clobber_topics: bool,
    pub ensure_joined: bool,
}

} // verus!

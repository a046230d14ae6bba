//! A dynamic-DNS updater: resolves the machine's public address and keeps
//! the A records of a domain and of its subdomains pointed at it.
pub mod api;
pub mod config;
pub mod cycle;
pub mod records;
pub mod text;

pub use api::{outcome_of_status, Credentials, Outcome};
pub use config::{startup, Config, ConfigError};
pub use cycle::{Action, Cycle, CycleError, Event, Phase};
pub use records::{list_a_record_subdomains, Record};
pub use text::normalize_ip;

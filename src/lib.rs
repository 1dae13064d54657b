//! Verified core of a multi-tenant HTTP edge server: path handling and
//! security checks, the ACME HTTP-01 challenge store, the port allocator,
//! round-robin load balancing, proxy rewriting rules, configuration
//! validation and the lifecycle state machines.

pub mod text;
pub mod file_util;
pub mod path_security;
pub mod challenge;
pub mod port_manager;
pub mod round_robin;
pub mod proxy;
pub mod configuration;
pub mod request_handler;
pub mod tls;
pub mod binding_site_index;
pub mod operation_mode;
pub mod database_migration;
pub mod monitoring;
pub mod triggers;
pub mod running_state;
pub mod php_handler;
pub mod http_util;
pub mod processor_chain;

//! Per-process network traffic accounting.

pub mod address_text;
pub mod addresses;
pub mod attribution;
pub mod capture;
pub mod cli;
pub mod conservation;
pub mod diagnostics;
pub mod domain_parse;
pub mod domain_parse_composite;
pub mod domain_parse_http;
pub mod domain_parse_tls;
pub mod flow_table;
pub mod history;
pub mod laws;
pub mod net;
pub mod palette;
pub mod pipeline;
pub mod proc_table;
pub mod process_detail;
pub mod process_name;
pub mod process_probe;
pub mod refcap;
pub mod refresh;
pub mod report;
pub mod scan;
pub mod session;
pub mod socket_map;
pub mod start_time;
pub mod stats;
pub mod text;
pub mod time;
pub mod traffic;

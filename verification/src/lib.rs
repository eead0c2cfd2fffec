//! Verified core of a launcher for the `dbx` service: parsers for the
//! outputs of system tools, host validation, process matching and the
//! decisions that drive finding, starting and probing the service.
use vstd::prelude::*;

pub mod host;
pub mod http;
pub mod launcher;
pub mod laws;
pub mod numbers;
pub mod paths;
pub mod ports;
pub mod process;
pub mod text;

pub use host::sanitize_host;
pub use http::{discover_dbx, is_dbx_server, parse_status, probe_request, response_complete, response_head, DBX_PORT};
pub use launcher::{
    check_dbx, dbx_url, ensure_started, first_start_question, install_hint, on_exit, record_spawn,
    remote_status, url_of, DbxStatus, StartQuestion, StartStep,
};
pub use paths::{
    common_bin_dirs, dbx_candidates, dbx_file_names, dbx_in_dir, dbx_installed, dbx_search_dirs,
    find_dbx, spawn_command, spawn_path_env, spawn_path_for, split_paths,
};
pub use ports::{
    parse_hex_port, parse_port, ports_from_lsof, ports_from_netstat, ports_from_proc,
    ports_from_proc_tcp, socket_inode,
};
pub use process::{dbx_token_with, find_dbx_processes, is_dbx_token, ProcessInfo};

verus! {

} // verus!

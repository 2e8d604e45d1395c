//! Verified core of the BetterCPT desktop plugin host.
pub mod text;
pub mod manifest;
pub mod keyed_vec;
pub mod id_vec;
pub mod permissions;
pub mod capability;
pub mod registry;
pub mod json;
pub mod json_text;
pub mod ipc;
pub mod state_tree;
pub mod scheduler;
pub mod crash_report;
pub mod recovery;
pub mod watchdog;
pub mod window_service;
pub mod settings;
pub mod logger;
pub mod dispatch;
pub mod widget_qt;
pub mod storage;
pub mod plugin_loader;
pub mod scripts;
pub mod splash;
pub mod host_loop;
pub mod isolate_pool;

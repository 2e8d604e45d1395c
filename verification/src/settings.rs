//! Application settings, as edited in the dashboard.
use vstd::prelude::*;

verus! {

/// The host's settings.
pub struct AppSettings {
    pub auto_start: bool,
    pub minimize_to_tray: bool,
    pub dev_mode: bool,
    pub theme: String,
    pub auto_enable_new: bool,
    pub auto_restart_crash: bool,
    pub max_crash_restart: u32,
    pub storage_quota: String,
    pub log_level: String,
}

impl Default for AppSettings {
    /// Start with the system, keep the window on close, no developer mode, light theme,
    /// enable new plugins, restart crashed plugins up to 5 times, 1 MB of storage,
    /// log level `Info`.
    fn default() -> (r: Self)
        ensures
            r.auto_start,
            !r.minimize_to_tray,
            !r.dev_mode,
            r.theme@ == "light"@,
            r.auto_enable_new,
            r.auto_restart_crash,
            r.max_crash_restart == 5,
            r.storage_quota@ == "1 MB"@,
            r.log_level@ == "Info"@,
    {
        AppSettings {
            auto_start: true,
            minimize_to_tray: false,
            dev_mode: false,
            theme: "light".to_owned(),
            auto_enable_new: true,
            auto_restart_crash: true,
            max_crash_restart: 5,
            storage_quota: "1 MB".to_owned(),
            log_level: "Info".to_owned(),
        }
    }
}

} // verus!

//! Battery watcher core: the rules that decide which hook scripts run when a
//! battery changes state, how hook configuration turns into actions, and the
//! bookkeeping around devices and installed support files.

pub mod actions;
pub mod config;
pub mod devices;
pub mod paths;
pub mod support_files;
pub mod text;

//! A terminal SSH / serial-console connection manager for network devices: the
//! host list with fuzzy search, the macro manager, the console form, session
//! automation (macros, expect rules), output colorization and notes.

use vstd::prelude::*;

pub mod text;
pub mod fuzzy;
pub mod config;
pub mod serial;
pub mod matcher;
pub mod app;
pub mod forms;
pub mod hostlist;
pub mod session;
pub mod highlight;
pub mod session_log;
pub mod notes;
pub mod picker;
pub mod ui;
pub mod known_hosts;
pub mod keys;
pub mod connect;

verus! {

} // verus!

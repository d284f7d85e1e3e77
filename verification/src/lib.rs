use vstd::prelude::*;

pub mod cryptor;
pub mod fanotify;
pub mod path;
pub mod config;
pub mod procfs;
pub mod kill;
pub mod event_handler;
pub mod main_loop;
pub mod daemonizer;

verus! {

} // verus!

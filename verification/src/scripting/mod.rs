//! Mission scripting: the script language and the runner that holds a loaded script.

pub mod commands;

//! The plugins that come with the daemon.

pub mod cpu;
pub mod debug;
pub mod disk;
pub mod http_poller;
pub mod load;
pub mod snoop;

use vstd::prelude::*;
use std::sync::Arc;
use crate::plugin::Input;
use crate::plugin::Output;
use crate::plugin::PluginRegistry;
use crate::plugin::Table;

verus! {

/// The input plugins that need nothing but this library: `disk` and
/// `load`, each as its entry point makes it.
pub fn builtin_inputs() -> (table: Table<Arc<Box<dyn Input>>>)
    ensures
        table.names() == seq!["disk"@, "load"@],
{
    let mut table: Table<Arc<Box<dyn Input>>> = Table::new();
    match disk::input() {
        Ok(plugin) => {
            table.insert("disk".to_owned(), Arc::new(plugin));
        },
        Err(_) => {},
    }
    assert(table.names() =~= seq!["disk"@]);
    proof {
        reveal_strlit("disk");
        reveal_strlit("load");
        assert("disk"@[0] != "load"@[0]);
        assert(!seq!["disk"@].contains("load"@));
    }
    match load::input() {
        Ok(plugin) => {
            table.insert("load".to_owned(), Arc::new(plugin));
        },
        Err(_) => {},
    }
    assert(table.names() =~= seq!["disk"@, "load"@]);
    table
}

/// The output plugins that need nothing but this library: `debug`, as its
/// entry point makes it.
pub fn builtin_outputs() -> (table: Table<Arc<Box<dyn Output>>>)
    ensures
        table.names() == seq!["debug"@],
{
    let mut table: Table<Arc<Box<dyn Output>>> = Table::new();
    match debug::output() {
        Ok(plugin) => {
            table.insert("debug".to_owned(), Arc::new(plugin));
        },
        Err(_) => {},
    }
    assert(table.names() =~= seq!["debug"@]);
    table
}

/// The registry of the plugins that need nothing but this library.
pub fn load_plugins() -> (registry: PluginRegistry)
    ensures
        registry.inputs() == seq!["disk"@, "load"@],
        registry.outputs() == seq!["debug"@],
{
    PluginRegistry::new(builtin_inputs(), builtin_outputs())
}

} // verus!

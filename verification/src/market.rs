//! Plugin marketplace data: the registry's entries and the market handle.
//! Fetching the registry and installing plugin files are the outer
//! shell's; the library holds the values they exchange.

use vstd::prelude::*;

verus! {

/// Metadata for a plugin in the remote registry.
#[derive(Debug, Clone)]
pub struct MarketPlugin {
    pub name: String,
    pub version: String,
    pub description: String,
    pub author: String,
    pub download_url: String,
    pub plugin_type: PluginType,
}

/// The kind of artifact a plugin ships.
#[derive(Debug, Clone, Copy, PartialEq, Eq, Structural)]
pub enum PluginType {
    Shell,
    Wasm,
}

/// The registry document: the list of available plugins.
#[derive(Debug, Clone)]
pub struct PluginRegistry {
    pub plugins: Vec<MarketPlugin>,
}

/// A handle on one remote registry.
#[derive(Debug, Clone)]
pub struct PluginMarket {
    pub registry_url: String,
}

impl PluginMarket {
    pub fn new(registry_url: String) -> (r: PluginMarket)
        ensures
            r.registry_url@ == registry_url@,
    {
        PluginMarket { registry_url }
    }
}

} // verus!

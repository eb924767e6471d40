//! Plugin definitions: shell plugins rendered from a command template and
//! sandboxed plugins with a fuel budget. Loading the definition files and
//! running the commands are the outer shell's; the defaults and the
//! template substitution are computed here.

use vstd::prelude::*;
use crate::text::own_str;

verus! {

/// One parameter a shell plugin accepts.
#[derive(Debug, Clone)]
pub struct PluginParam {
    pub name: String,
    pub description: String,
    pub param_type: String,
    pub required: bool,
}

/// A shell plugin: a command template with named parameters.
#[derive(Debug, Clone)]
pub struct PluginConfig {
    pub name: String,
    pub description: String,
    pub command: String,
    pub parameters: Vec<PluginParam>,
    pub timeout: u64,
}

/// One parameter a sandboxed plugin accepts.
#[derive(Debug, Clone)]
pub struct WasmPluginParam {
    pub name: String,
    pub description: String,
    pub param_type: String,
    pub required: bool,
}

/// A sandboxed plugin: a module file with an execution fuel budget.
#[derive(Debug, Clone)]
pub struct WasmPluginConfig {
    pub name: String,
    pub description: String,
    pub wasm_file: String,
    pub parameters: Vec<WasmPluginParam>,
    pub fuel: u64,
}

pub fn default_timeout() -> (r: u64)
    ensures
        r == 30,
{
    30
}

pub fn default_type() -> (r: String)
    ensures
        r@ == "string"@,
{
    own_str("string")
}

pub fn default_fuel() -> (r: u64)
    ensures
        r == 1000000,
{
    1000000
}

} // verus!

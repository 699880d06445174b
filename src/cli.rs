//! The command line of a node, as plain values.
use vstd::prelude::*;

verus! {

/// What a node is started with: peers to connect to, addresses to listen
/// on, the address of its local interface, and an optional subcommand.
#[derive(Debug, Clone)]
pub struct Args {
    pub peer: Vec<String>,
    pub bind: Vec<String>,
    pub ui_bind: String,
    pub cmd: Option<Command>,
}

/// The subcommands of a node.
#[derive(Debug, Clone)]
pub enum Command {
    Copy { src: String, dest: String },
    Update,
    Verify { bin: String, sig: String },
}

} // verus!

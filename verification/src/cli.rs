//! The command surface of the two binaries: what a node or server process
//! can be asked to do. The argument parser around these lives outside; it
//! hands the parsed command in.

use vstd::prelude::*;

verus! {

/// What a node can be queried about.
#[derive(Clone, Debug)]
pub enum NodeInfoType {
    /// The node's interfaces, optionally one in detail.
    Interface { index: Option<usize> },
    /// The peers of one interface, optionally one in detail.
    NodeMap { interface_index: usize, node_ip: Option<u32> },
}

/// What a node process does.
#[derive(Clone, Debug)]
pub enum NodeCmd {
    /// Run the node with the given configuration file.
    Daemon { config_path: String },
    /// Query a running node through its API address.
    Info { api: String, info_type: NodeInfoType },
}

/// What a server can be queried about.
#[derive(Clone, Debug)]
pub enum ServerInfoType {
    /// The server's groups.
    Group,
    /// The peer map of one group, optionally one node in detail.
    NodeMap { group_name: String, node_ip: Option<u32> },
}

/// What a server process does.
#[derive(Clone, Debug)]
pub enum ServerCmd {
    /// Run the server with the given configuration file.
    Daemon { config_path: String },
    /// Query a running server through its API address.
    Info { api: String, info_type: ServerInfoType },
}

/// The whole command line: which role, and what to do.
#[derive(Clone, Debug)]
pub enum Args {
    Server { cmd: ServerCmd },
    Node { cmd: NodeCmd },
}

} // verus!

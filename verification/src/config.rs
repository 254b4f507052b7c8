//! The two programs' configuration values and the rule that resolves them:
//! what the command line names wins over what the configuration file held.
//! Loading and saving the file itself is the surrounding program's business.
use vstd::prelude::*;

verus! {

/// The client's persisted configuration: the server to connect to, if one
/// is known.
pub struct ClientConfig {
    pub remote_addr: Option<String>,
}

impl Default for ClientConfig {
    /// A fresh client configuration knows no server.
    fn default() -> (r: Self)
        ensures
            r.remote_addr is None,
    {
        ClientConfig { remote_addr: None }
    }
}

/// The server's persisted configuration: where to listen and where backups
/// land.
pub struct ServerConfig {
    pub addr: String,
    pub backup_dir: String,
}

/// Applies the command line to the client's loaded configuration: an
/// address given there replaces the persisted one, and nothing else moves.
pub fn apply_client_args(config: &mut ClientConfig, address: Option<String>)
    ensures
        match address {
            Some(a) => final(config).remote_addr == Some(a),
            None => final(config).remote_addr == old(config).remote_addr,
        },
{
    match address {
        Some(a) => {
            config.remote_addr = Some(a);
        },
        None => {
        },
    }
}

/// Applies the command line to the server's loaded configuration: an
/// address or backup directory given there replaces the persisted one, and
/// what the command line leaves unnamed keeps its loaded value.
pub fn apply_server_args(
    config: &mut ServerConfig,
    address: Option<String>,
    backup_dir: Option<String>,
)
    ensures
        match address {
            Some(a) => final(config).addr == a,
            None => final(config).addr == old(config).addr,
        },
        match backup_dir {
            Some(d) => final(config).backup_dir == d,
            None => final(config).backup_dir == old(config).backup_dir,
        },
{
    match address {
        Some(a) => {
            config.addr = a;
        },
        None => {
        },
    }
    match backup_dir {
        Some(d) => {
            config.backup_dir = d;
        },
        None => {
        },
    }
}

} // verus!

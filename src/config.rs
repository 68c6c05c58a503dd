use vstd::prelude::*;
use vstd::string::StringExecFns;

verus! {

/// The push-channel section of the configuration file, every key optional.
pub struct ConfigFileNtfy {
    pub enabled: Option<bool>,
    pub url: Option<String>,
    pub topic: Option<String>,
    pub username: Option<String>,
    pub password: Option<String>,
    pub proxy: Option<String>,
}

/// The push-channel settings in effect.
pub struct Ntfy {
    pub enabled: bool,
    pub url: String,
    pub topic: String,
    /// User name and password, when both are configured.
    pub auth: Option<(String, String)>,
    pub proxy: Option<String>,
}

/// The topic used when none is configured.
pub open spec fn default_topic() -> Seq<char> {
    "bitcoin_alerts"@
}

impl Ntfy {
    /// The settings in effect for a configuration section: disabled, with an empty
    /// address and the default topic unless set, and credentials only when both the
    /// user name and the password are given.
    pub fn from_file(file: ConfigFileNtfy) -> (r: Ntfy)
        ensures
            r.enabled == (file.enabled == Some(true)),
            r.url@ == match file.url {
                Some(u) => u@,
                None => Seq::<char>::empty(),
            },
            r.topic@ == match file.topic {
                Some(t) => t@,
                None => default_topic(),
            },
            match (file.username, file.password) {
                (Some(u), Some(p)) => r.auth matches Some((ru, rp)) && ru@ == u@ && rp@ == p@,
                _ => r.auth is None,
            },
            r.proxy == file.proxy,
    {
        let enabled = match file.enabled {
            Some(e) => e,
            None => false,
        };
        let url = match file.url {
            Some(u) => u,
            None => String::new(),
        };
        let topic = match file.topic {
            Some(t) => t,
            None => String::from_str("bitcoin_alerts"),
        };
        let auth = match (file.username, file.password) {
            (Some(u), Some(p)) => Some((u, p)),
            _ => None,
        };
        Ntfy { enabled, url, topic, auth, proxy: file.proxy }
    }
}

/// The chain a node follows.
#[derive(Clone, Copy, Debug, PartialEq, Eq, Structural)]
pub enum Chain {
    Bitcoin,
    Testnet,
    Testnet4,
    Signet,
    Regtest,
}

/// The chain a configured name selects, if it names one.
pub open spec fn chain_named(name: Seq<char>) -> Option<Chain> {
    if name == "bitcoin"@ {
        Some(Chain::Bitcoin)
    } else if name == "testnet"@ {
        Some(Chain::Testnet)
    } else if name == "testnet4"@ {
        Some(Chain::Testnet4)
    } else if name == "signet"@ {
        Some(Chain::Signet)
    } else if name == "regtest"@ {
        Some(Chain::Regtest)
    } else {
        None
    }
}

/// Relies on `bitcoin::Network::from_str`, which accepts exactly the names
/// `bitcoin`, `testnet`, `testnet4`, `signet` and `regtest`.
#[verifier::external_body]
fn parse_chain(name: &str) -> (r: Option<Chain>)
    ensures
        r == chain_named(name@),
{
    match <bitcoin::Network as std::str::FromStr>::from_str(name) {
        Ok(bitcoin::Network::Bitcoin) => Some(Chain::Bitcoin),
        Ok(bitcoin::Network::Testnet) => Some(Chain::Testnet),
        Ok(bitcoin::Network::Testnet4) => Some(Chain::Testnet4),
        Ok(bitcoin::Network::Signet) => Some(Chain::Signet),
        Ok(bitcoin::Network::Regtest) => Some(Chain::Regtest),
        Err(_) => None,
    }
}

impl Chain {
    /// The chain configured by `name`: the main chain when none is given, nothing
    /// when the name is not a chain's.
    pub fn from_config(name: Option<&str>) -> (r: Option<Chain>)
        ensures
            r == match name {
                Some(n) => chain_named(n@),
                None => Some(Chain::Bitcoin),
            },
    {
        match name {
            Some(n) => parse_chain(n),
            None => Some(Chain::Bitcoin),
        }
    }

    /// The node's default RPC port on this chain.
    pub fn default_rpc_port(&self) -> (r: u16)
        ensures
            r == match *self {
                Chain::Bitcoin => 8332u16,
                Chain::Testnet => 18332u16,
                Chain::Signet => 38332u16,
                _ => 18443u16,
            },
    {
        match *self {
            Chain::Bitcoin => 8332,
            Chain::Testnet => 18332,
            Chain::Signet => 38332,
            _ => 18443,
        }
    }

    /// The directory, under the data path, that holds this chain's state.
    pub fn folder(&self) -> (r: &'static str)
        ensures
            r@ == match *self {
                Chain::Bitcoin => "bitcoin"@,
                Chain::Testnet => "testnet"@,
                Chain::Signet => "signet"@,
                _ => "regtest"@,
            },
    {
        match *self {
            Chain::Bitcoin => "bitcoin",
            Chain::Testnet => "testnet",
            Chain::Signet => "signet",
            _ => "regtest",
        }
    }

    /// Whether every block is announced, which only the local test chain does.
    pub fn announces_every_block(&self) -> (r: bool)
        ensures
            r == (*self == Chain::Regtest),
    {
        match *self {
            Chain::Regtest => true,
            _ => false,
        }
    }
}

/// The oldest node version the processor works with (22.0).
pub const MIN_NODE_VERSION: u64 = 220000;

/// Whether a node can be followed yet.
#[derive(Clone, Copy, Debug, PartialEq, Eq, Structural)]
pub enum NodeCheck {
    /// Synced and usable.
    Ready,
    /// Still downloading `left` blocks: ask again later.
    Syncing { left: u64 },
    /// Too old a version: stop.
    VersionTooOld,
    /// Peer-to-peer networking is off: stop.
    NetworkInactive,
}

/// Checks a node before following it: the version and the peer-to-peer network are
/// hard requirements, and the node must have every block whose header it has.
pub fn check_node(version: u64, network_active: bool, headers: u64, blocks: u64) -> (r: NodeCheck)
    ensures
        r == (if version < MIN_NODE_VERSION {
            NodeCheck::VersionTooOld
        } else if !network_active {
            NodeCheck::NetworkInactive
        } else if headers <= blocks {
            NodeCheck::Ready
        } else {
            NodeCheck::Syncing { left: (headers - blocks) as u64 }
        }),
{
    if version < MIN_NODE_VERSION {
        NodeCheck::VersionTooOld
    } else if !network_active {
        NodeCheck::NetworkInactive
    } else if headers <= blocks {
        NodeCheck::Ready
    } else {
        NodeCheck::Syncing { left: headers - blocks }
    }
}

} // verus!

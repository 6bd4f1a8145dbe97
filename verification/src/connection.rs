//! Where the relay server is reached.
use vstd::prelude::*;

verus! {

/// The port of the relay server when none is configured.
pub const DEFAULT_PORT: u32 = 5623;

/// Connection settings of the relay server.
#[derive(Debug, Clone)]
pub struct Connection {
    pub url: String,
    pub ip: String,
    pub port: u32,
    pub hostname: String,
}

/// The settings of a [`Connection`] as plain values.
pub struct ConnectionModel {
    pub url: Seq<char>,
    pub ip: Seq<char>,
    pub port: u32,
    pub hostname: Seq<char>,
}

impl View for Connection {
    type V = ConnectionModel;

    open spec fn view(&self) -> ConnectionModel {
        ConnectionModel { url: self.url@, ip: self.ip@, port: self.port, hostname: self.hostname@ }
    }
}

/// The settings used until the command line says otherwise: empty URL, IP
/// and host name, and port 5623.
pub open spec fn default_connection() -> ConnectionModel {
    ConnectionModel {
        url: Seq::empty(),
        ip: Seq::empty(),
        port: DEFAULT_PORT,
        hostname: Seq::empty(),
    }
}

impl Default for Connection {
    fn default() -> (c: Self)
        ensures
            c@ == default_connection(),
    {
        Connection {
            url: String::new(),
            ip: String::new(),
            port: DEFAULT_PORT,
            hostname: String::new(),
        }
    }
}

} // verus!

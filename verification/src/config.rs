//! Runtime configuration.
//!
//! The configuration is an explicit object owned by the server core and
//! handed to handlers by reference; there is no hidden global state. The
//! NAT-type value uses the wire encoding of the NAT-type enum.

use vstd::prelude::*;

verus! {

/// Compression level handed to the compressor.
pub const COMPRESS_LEVEL: i32 = 3;

/// Connect timeout in milliseconds.
pub const CONNECT_TIMEOUT: u64 = 18_000;

/// Per-message read timeout in milliseconds.
pub const READ_TIMEOUT: u64 = 18_000;

/// The configuration serial this build ships with.
pub const SERIAL: i32 = 3;

/// Wire value of the undetermined NAT type.
pub const NAT_TYPE_UNKNOWN: i32 = 0;

/// Wire value of the port-preserving (asymmetric-friendly) NAT type.
pub const NAT_TYPE_ASYMMETRIC: i32 = 1;

/// Wire value of the symmetric NAT type.
pub const NAT_TYPE_SYMMETRIC: i32 = 2;

/// How connections reach the network: directly or through a SOCKS5 proxy.
#[derive(Clone, Copy, PartialEq, Eq, Structural, Debug)]
pub enum NetWorkType {
    Direct,
    ProxySocks,
}

/// A SOCKS5 proxy endpoint with optional credentials.
#[derive(Clone, Debug)]
pub struct Socks5Server {
    pub proxy: String,
    pub username: String,
    pub password: String,
}

impl Default for Socks5Server {
    fn default() -> (r: Self)
        ensures
            r.proxy@ == Seq::<char>::empty(),
            r.username@ == Seq::<char>::empty(),
            r.password@ == Seq::<char>::empty(),
    {
        Socks5Server { proxy: String::new(), username: String::new(), password: String::new() }
    }
}

/// The mutable configuration values.
#[derive(Clone, Debug)]
pub struct Config2 {
    pub serial: i32,
    pub socks: Option<Socks5Server>,
    pub nat_type: i32,
}

/// The configuration object: owns a `Config2` and answers the queries the
/// rest of the system makes of it.
#[derive(Clone, Debug)]
pub struct Config {
    config2: Config2,
}

impl Config {
    /// The configured SOCKS5 proxy, if any.
    pub closed spec fn spec_socks(&self) -> Option<Socks5Server> {
        self.config2.socks
    }

    /// The stored configuration serial.
    pub closed spec fn spec_serial(&self) -> i32 {
        self.config2.serial
    }

    /// The stored NAT type.
    pub closed spec fn spec_nat_type(&self) -> i32 {
        self.config2.nat_type
    }

    pub fn new(config2: Config2) -> (r: Self)
        ensures
            r.spec_serial() == config2.serial,
            r.spec_nat_type() == config2.nat_type,
            r.spec_socks() == config2.socks,
    {
        Config { config2 }
    }

    pub fn get_socks(&self) -> (r: Option<Socks5Server>)
        ensures
            r is Some <==> self.spec_socks() is Some,
            r matches Some(s) ==> (self.spec_socks() matches Some(t) && s.proxy@ == t.proxy@
                && s.username@ == t.username@ && s.password@ == t.password@),
    {
        match &self.config2.socks {
            None => None,
            Some(s) => Some(
                Socks5Server {
                    proxy: s.proxy.clone(),
                    username: s.username.clone(),
                    password: s.password.clone(),
                },
            ),
        }
    }

    /// The configuration serial, never below the serial this build ships with.
    pub fn get_serial(&self) -> (r: i32)
        ensures
            r == if self.spec_serial() >= SERIAL {
                self.spec_serial()
            } else {
                SERIAL
            },
    {
        if self.config2.serial >= SERIAL {
            self.config2.serial
        } else {
            SERIAL
        }
    }

    pub fn get_nat_type(&self) -> (r: i32)
        ensures
            r == self.spec_nat_type(),
    {
        self.config2.nat_type
    }

    /// Stores a new NAT type; a write of the value already stored is a no-op,
    /// so no redundant persistence churn happens downstream.
    pub fn set_nat_type(&mut self, nat_type: i32)
        ensures
            final(self).spec_nat_type() == nat_type,
            final(self).spec_serial() == old(self).spec_serial(),
            final(self).spec_socks() == old(self).spec_socks(),
    {
        if nat_type == self.config2.nat_type {
            return ;
        }
        self.config2.nat_type = nat_type;
    }

    pub fn get_network_type(&self) -> (r: NetWorkType)
        ensures
            r == if self.spec_socks() is None {
                NetWorkType::Direct
            } else {
                NetWorkType::ProxySocks
            },
    {
        match &self.config2.socks {
            None => NetWorkType::Direct,
            Some(_) => NetWorkType::ProxySocks,
        }
    }
}

} // verus!

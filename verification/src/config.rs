//! The static configuration of one node.
//!
//! A node is a master, which owns the shard dispatcher, or a slave. The
//! configuration file itself is read and parsed by the embedding
//! process, which hands the plain values in.

use vstd::prelude::*;

verus! {

#[derive(Debug, Clone, Copy, PartialEq, Eq, Structural)]
pub enum InstanceRole {
    Master,
    Slave,
}

impl InstanceRole {
    /// The role's name as the configuration file writes it.
    pub fn name(&self) -> (r: String)
        ensures
            r@ == self.spec_name(),
    {
        match self {
            InstanceRole::Master => String::from_str("master"),
            InstanceRole::Slave => String::from_str("slave"),
        }
    }

    pub open spec fn spec_name(self) -> Seq<char> {
        match self {
            InstanceRole::Master => "master"@,
            InstanceRole::Slave => "slave"@,
        }
    }

    /// The role a configuration names, if any.
    pub fn parse(s: &str) -> (r: Option<InstanceRole>)
        ensures
            s@ == "master"@ ==> r == Some(InstanceRole::Master),
            s@ == "slave"@ ==> r == Some(InstanceRole::Slave),
            s@ != "master"@ && s@ != "slave"@ ==> r is None,
    {
        proof {
            reveal_strlit("master");
            reveal_strlit("slave");
            assert("master"@.len() == 6);
            assert("slave"@.len() == 5);
            assert("master"@ != "slave"@);
        }
        if crate::value::str_eq(s, "master") {
            Some(InstanceRole::Master)
        } else if crate::value::str_eq(s, "slave") {
            Some(InstanceRole::Slave)
        } else {
            None
        }
    }
}

/// One peer node.
#[derive(Debug, Clone)]
pub struct Instance {
    pub ip_port: String,
}

/// The static configuration of this node; `instances` is the peer list
/// and is used only by a master.
#[derive(Debug, Clone)]
pub struct Config {
    pub instance_role: InstanceRole,
    pub database_ip_port: String,
    pub database_name: String,
    pub database_path: String,
    pub instances: Vec<Instance>,
}

impl Config {
    /// Whether this node fans work out to peers.
    pub fn is_master(&self) -> (r: bool)
        ensures
            r == (self.instance_role == InstanceRole::Master),
    {
        match self.instance_role {
            InstanceRole::Master => true,
            InstanceRole::Slave => false,
        }
    }
}

} // verus!

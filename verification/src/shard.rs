//! Shard bookkeeping for the master node.
//!
//! The master broadcasts table creation and queries to every peer and
//! stripes inserts across them round-robin. The network itself lives in
//! the embedding process; this module holds the decisions: the operation
//! wrappers with their endpoints, and the round-robin step.

use vstd::prelude::*;
use crate::wire::{CreateTableRequest, InsertRequest, QueryRequest};

verus! {

/// The URL of a shard operation: `http://<ip_port>/<path>`.
pub fn build_url(ip_port: &str, path: &str) -> (r: String)
    ensures
        r@ == "http://"@ + ip_port@ + "/"@ + path@,
{
    let mut s = String::from_str("http://");
    s.append(ip_port);
    s.append("/");
    s.append(path);
    s
}

/// A table-creation operation to send to a shard.
pub struct CreateTable<'a> {
    pub request: &'a CreateTableRequest,
}

impl<'a> CreateTable<'a> {
    pub fn new(request: &'a CreateTableRequest) -> (r: Self)
        ensures
            r.request == request,
    {
        Self { request }
    }

    pub fn input(&self) -> (r: &'a CreateTableRequest)
        ensures
            r == self.request,
    {
        self.request
    }

    /// The endpoint path this operation posts to.
    pub fn endpoint(&self) -> (r: String)
        ensures
            r@ == "create_table"@,
    {
        String::from_str("create_table")
    }
}

/// An insert operation to send to a shard.
pub struct Insert<'a> {
    pub request: &'a InsertRequest,
}

impl<'a> Insert<'a> {
    pub fn new(request: &'a InsertRequest) -> (r: Self)
        ensures
            r.request == request,
    {
        Self { request }
    }

    pub fn input(&self) -> (r: &'a InsertRequest)
        ensures
            r == self.request,
    {
        self.request
    }

    /// The endpoint path this operation posts to.
    pub fn endpoint(&self) -> (r: String)
        ensures
            r@ == "insert"@,
    {
        String::from_str("insert")
    }
}

/// A query operation to send to a shard.
pub struct Query<'a> {
    pub request: &'a QueryRequest,
}

impl<'a> Query<'a> {
    pub fn new(request: &'a QueryRequest) -> (r: Self)
        ensures
            r.request == request,
    {
        Self { request }
    }

    pub fn input(&self) -> (r: &'a QueryRequest)
        ensures
            r == self.request,
    {
        self.request
    }

    /// The endpoint path this operation posts to.
    pub fn endpoint(&self) -> (r: String)
        ensures
            r@ == "query"@,
    {
        String::from_str("query")
    }
}

/// One round-robin step: the counter always stays below the number of
/// shards, and each step moves to the next shard, wrapping at the end.
pub fn next_shard_index(current: u64, number_of_shards: usize) -> (r: u64)
    requires
        number_of_shards >= 1,
        current < number_of_shards,
    ensures
        r == ((current + 1) as int) % (number_of_shards as int),
        r < number_of_shards,
{
    (current + 1) % (number_of_shards as u64)
}

} // verus!

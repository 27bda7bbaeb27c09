use vstd::prelude::*;

pub mod changes;
pub mod client;
pub mod discovery;
pub mod entry;
pub mod filter;
pub mod groups;
pub mod numerals;
pub mod pool;
pub mod text;
pub mod user;

verus! {

/// Errors the attribute decoder surfaces: a required single-valued
/// attribute is missing or empty.
#[derive(Debug, Clone, Copy, PartialEq, Eq, Structural)]
pub enum DecodeError {
    /// The required single-valued `cn` attribute is missing or empty.
    MissingCn,
    /// The required single-valued `uid` attribute is missing or empty.
    MissingUid,
    /// The required single-valued `krbPrincipalName` attribute is missing
    /// or empty.
    MissingPrincipal,
}

/// Errors of endpoint discovery: the resolver failed, or it answered with
/// no candidates. Either is fatal to pool construction.
#[derive(Debug, Clone, Copy, PartialEq, Eq, Structural)]
pub enum DiscoveryError {
    ResolverFailure,
    NoCandidates,
}

/// Errors a directory operation surfaces to its caller. Connection and
/// exhaustion failures end one checkout attempt; search and modify
/// failures end one operation; none is retried here.
#[derive(Debug, Clone, Copy, PartialEq, Eq, Structural)]
pub enum ClientError {
    /// Opening or binding a fresh connection failed.
    Connect,
    /// No connection could be checked out.
    PoolExhausted,
    /// The search call failed or ended with a failure status.
    Search,
    /// The modify call failed or ended with a failure status.
    Modify,
}

} // verus!

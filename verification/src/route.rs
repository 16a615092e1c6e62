//! The route-table data model.
//!
//! A route table is an ordered sequence of route entries, each identified by
//! its HTTP method and path pattern. Handlers form a small closed set of
//! variants; each variant carries the data needed to produce a response.

use vstd::prelude::*;

verus! {

/// The HTTP methods a route entry can be registered under.
#[derive(Clone, Copy, PartialEq, Eq, Structural, Debug)]
pub enum Method {
    Get,
    Post,
    Put,
    Delete,
    Patch,
    Head,
    Options,
}

/// How responses for a static route may be cached by clients.
#[derive(Clone, Copy, PartialEq, Eq, Structural, Debug)]
pub enum CachePolicy {
    /// The file name embeds a content hash: cacheable forever.
    Immutable,
    /// The file may change under the same name: revalidate per request.
    Mutable,
}

/// What a route entry does when a request reaches it.
pub enum HandlerRef {
    /// Serve the file at `fs_path`, stamping the long-lived cache header.
    StaticImmutable { fs_path: String },
    /// Serve the file at `fs_path` with its native conditional-request
    /// behaviour.
    StaticMutable { fs_path: String },
    /// Invoke the registered remote procedure identified by `handler_id`.
    RemoteProcedure { handler_id: u64 },
    /// Forward the request to the server-rendering handler.
    Fallback,
    /// Answer with a permanent redirect to `target`.
    Redirect { target: String },
}

/// The mathematical image of a `HandlerRef`.
#[verifier::ext_equal]
pub enum HandlerRefV {
    StaticImmutable { fs_path: Seq<char> },
    StaticMutable { fs_path: Seq<char> },
    RemoteProcedure { handler_id: u64 },
    Fallback,
    Redirect { target: Seq<char> },
}

impl View for HandlerRef {
    type V = HandlerRefV;

    open spec fn view(&self) -> HandlerRefV {
        match self {
            HandlerRef::StaticImmutable { fs_path } => HandlerRefV::StaticImmutable {
                fs_path: fs_path@,
            },
            HandlerRef::StaticMutable { fs_path } => HandlerRefV::StaticMutable {
                fs_path: fs_path@,
            },
            HandlerRef::RemoteProcedure { handler_id } => HandlerRefV::RemoteProcedure {
                handler_id: *handler_id,
            },
            HandlerRef::Fallback => HandlerRefV::Fallback,
            HandlerRef::Redirect { target } => HandlerRefV::Redirect { target: target@ },
        }
    }
}

/// One row of the route table.
pub struct RouteEntry {
    pub method: Method,
    pub path_pattern: String,
    pub handler: HandlerRef,
    pub cache_policy: Option<CachePolicy>,
}

/// The mathematical image of a `RouteEntry`.
#[verifier::ext_equal]
pub struct RouteEntryV {
    pub method: Method,
    pub path_pattern: Seq<char>,
    pub handler: HandlerRefV,
    pub cache_policy: Option<CachePolicy>,
}

impl View for RouteEntry {
    type V = RouteEntryV;

    open spec fn view(&self) -> RouteEntryV {
        RouteEntryV {
            method: self.method,
            path_pattern: self.path_pattern@,
            handler: self.handler@,
            cache_policy: self.cache_policy,
        }
    }
}

/// The images of a sequence of route entries.
pub open spec fn entries_view(s: Seq<RouteEntry>) -> Seq<RouteEntryV> {
    s.map_values(|e: RouteEntry| e@)
}

/// The identity of a route entry: its method and path pattern.
pub open spec fn entry_key(e: RouteEntryV) -> (Method, Seq<char>) {
    (e.method, e.path_pattern)
}

/// No two entries of `s` share an identity.
pub open spec fn distinct_keys(s: Seq<RouteEntryV>) -> bool {
    forall|i: int, j: int|
        0 <= i < j < s.len() ==> #[trigger] entry_key(s[i]) != #[trigger] entry_key(s[j])
}

/// The errors that can abort route-table construction at startup.
#[derive(Debug)]
pub enum BuildError {
    /// The serving prefix is unset or the asset root is missing; startup must
    /// stop and name the remediation.
    ConfigError { message: String },
    /// A directory under the asset root could not be listed; `path` names it.
    IoError { path: String },
    /// Two non-fallback entries collided on the same method and path
    /// pattern: an internal invariant was violated.
    RouteCollision { method: Method, path_pattern: String },
}

/// The exact header value stamped on responses for immutable static routes,
/// when the entry calls for one: a year-long public cache that never
/// revalidates. Mutable, remote-procedure, fallback and redirect entries get
/// no stamped header.
pub fn cache_control_header(entry: &RouteEntry) -> (r: Option<&'static str>)
    ensures
        match r {
            Some(h) => entry@.cache_policy == Some(CachePolicy::Immutable) && h@
                == "public, max-age=31536000, immutable"@,
            None => entry@.cache_policy != Some(CachePolicy::Immutable),
        },
{
    match entry.cache_policy {
        Some(CachePolicy::Immutable) => Some("public, max-age=31536000, immutable"),
        _ => None,
    }
}

/// Compares two route entries' identities.
pub fn same_identity(a: &RouteEntry, b: &RouteEntry) -> (r: bool)
    ensures
        r == (entry_key(a@) == entry_key(b@)),
{
    a.method == b.method && a.path_pattern == b.path_pattern
}

} // verus!

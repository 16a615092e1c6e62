//! The static route table builder.
//!
//! Each asset file becomes one route entry under the serving prefix. The
//! cache policy is decided by the final path segment of the asset's route
//! path: a name that embeds a content hash is wired to a handler that stamps
//! the long-lived cache header on every response, any other name is wired to
//! the file-serving primitive unmodified, keeping its native
//! conditional-request behaviour.

use vstd::prelude::*;

use crate::classify::{file_name_looks_immutable, is_immutable_name};
use crate::route::{
    entries_view, BuildError, CachePolicy, HandlerRef, HandlerRefV, Method, RouteEntry,
    RouteEntryV,
};
use crate::text::{last_segment, last_segment_of};
use crate::walk::{files_view, AssetFile, AssetFileV};

verus! {

/// The cache policy of an asset, decided by the final segment of its route
/// path.
pub open spec fn policy_of(route_path: Seq<char>) -> CachePolicy {
    if is_immutable_name(last_segment(route_path)) {
        CachePolicy::Immutable
    } else {
        CachePolicy::Mutable
    }
}

/// The route entry that one asset file becomes under `prefix`.
pub open spec fn static_route_of(prefix: Seq<char>, f: AssetFileV) -> RouteEntryV {
    RouteEntryV {
        method: Method::Get,
        path_pattern: prefix + f.route_path,
        handler: if policy_of(f.route_path) == CachePolicy::Immutable {
            HandlerRefV::StaticImmutable { fs_path: f.fs_path }
        } else {
            HandlerRefV::StaticMutable { fs_path: f.fs_path }
        },
        cache_policy: Some(policy_of(f.route_path)),
    }
}

/// The route entries of all asset files under `prefix`, in input order.
pub open spec fn spec_static_routes(prefix: Seq<char>, files: Seq<AssetFileV>) -> Seq<
    RouteEntryV,
> {
    files.map_values(|f: AssetFileV| static_route_of(prefix, f))
}

/// Builds one route entry per asset file, classifying each by the final
/// segment of its route path. Fails exactly when the serving prefix is
/// empty.
pub fn build_static_routes(files: &Vec<AssetFile>, prefix: &str) -> (r: Result<
    Vec<RouteEntry>,
    BuildError,
>)
    ensures
        match r {
            Ok(rs) => prefix@.len() > 0 && entries_view(rs@) == spec_static_routes(
                prefix@,
                files_view(files@),
            ),
            Err(e) => prefix@.len() == 0 && e is ConfigError,
        },
{
    if prefix.is_empty() {
        return Err(
            BuildError::ConfigError {
                message: String::from_str(
                    "the serving prefix is empty; configure a non-empty prefix",
                ),
            },
        );
    }
    let ghost fv = files_view(files@);
    let mut result: Vec<RouteEntry> = Vec::new();
    let n = files.len();
    let mut i: usize = 0;
    while i < n
        invariant
            i <= n == files@.len(),
            fv == files_view(files@),
            fv.len() == n,
            prefix@.len() > 0,
            entries_view(result@) == spec_static_routes(prefix@, fv.take(i as int)),
        decreases n - i,
    {
        let ghost before = result@;
        let seg = last_segment_of(files[i].route_path.as_str());
        let immutable = file_name_looks_immutable(seg);
        let mut pattern = String::from_str(prefix);
        pattern.append(files[i].route_path.as_str());
        let fs_path = files[i].fs_path.clone();
        proof {
            assert(fv[i as int] == files@[i as int]@);
            assert(pattern@ == prefix@ + fv[i as int].route_path);
            assert(immutable == (policy_of(fv[i as int].route_path) == CachePolicy::Immutable));
        }
        if immutable {
            result.push(
                RouteEntry {
                    method: Method::Get,
                    path_pattern: pattern,
                    handler: HandlerRef::StaticImmutable { fs_path },
                    cache_policy: Some(CachePolicy::Immutable),
                },
            );
        } else {
            result.push(
                RouteEntry {
                    method: Method::Get,
                    path_pattern: pattern,
                    handler: HandlerRef::StaticMutable { fs_path },
                    cache_policy: Some(CachePolicy::Mutable),
                },
            );
        }
        proof {
            assert(entries_view(result@) =~~= entries_view(before).push(
                static_route_of(prefix@, fv[i as int]),
            ));
            assert(spec_static_routes(prefix@, fv.take(i + 1)) =~~= spec_static_routes(
                prefix@,
                fv.take(i as int),
            ).push(static_route_of(prefix@, fv[i as int])));
        }
        i = i + 1;
    }
    proof {
        assert(fv.take(n as int) =~= fv);
    }
    Ok(result)
}

} // verus!

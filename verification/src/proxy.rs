//! Route proxy decisions: requests under `/api/ext/` are forwarded to the
//! extension whose declared route prefix covers them.
//!
//! When an extension declares routes_prefix="/api/ext/openclaw", any request
//! to /api/ext/openclaw/* is proxied to the extension's base_url, provided
//! the extension is active.
use vstd::prelude::*;

use crate::text::{chars_of, has_prefix, starts_with, text_eq};
use crate::types::{ApiError, BridgeState, HttpExtension};

verus! {

/// Seconds to wait for an extension to answer a proxied request.
pub const PROXY_TIMEOUT_SECS: u64 = 30;

/// The largest request body that is read and forwarded, in bytes.
pub const MAX_PROXY_BODY_BYTES: usize = 10 * 1024 * 1024;

/// The full path of a request caught under `/api/ext/`, given the part
/// after that prefix.
pub open spec fn proxied_path(rest: Seq<char>) -> Seq<char> {
    "/api/ext/"@ + rest
}

/// Whether the declared route prefix `prefix` covers the request path
/// `path`: the path is the prefix, or continues it after a `/`.
pub open spec fn prefix_covers(prefix: Seq<char>, path: Seq<char>) -> bool {
    path == prefix || (path.len() > prefix.len() && starts_with(path, prefix) && path[prefix.len()
        as int] == '/')
}

/// The part of `path` after the prefix that covers it and the `/` that
/// follows.
pub open spec fn path_after_prefix(prefix: Seq<char>, path: Seq<char>) -> Seq<char> {
    if path.len() <= prefix.len() {
        Seq::empty()
    } else {
        path.skip(prefix.len() + 1 as int)
    }
}

/// Whether extension `a` is preferred to `b` for a path both cover: a longer
/// prefix wins, and between equal prefixes a live extension wins over a
/// removed one.
pub open spec fn outranks(a: HttpExtension, b: HttpExtension) -> bool {
    ||| a.routes_prefix@.len() > b.routes_prefix@.len()
    ||| (a.routes_prefix@.len() == b.routes_prefix@.len() && a.state != BridgeState::Removed
        && b.state == BridgeState::Removed)
}

/// The extension a request path is routed to, by position in `exts`: the
/// first of those whose prefix covers the path that no other outranks.
pub open spec fn best_route(exts: Seq<HttpExtension>, path: Seq<char>) -> Option<int>
    decreases exts.len(),
{
    if exts.len() == 0 {
        None
    } else {
        let b = best_route(exts.drop_last(), path);
        let i = exts.len() - 1;
        if prefix_covers(exts[i].routes_prefix@, path) && (b is None || outranks(
            exts[i],
            exts[b->0],
        )) {
            Some(i)
        } else {
            b
        }
    }
}

/// The routed position lies in `exts` and its prefix covers the path; no
/// position is routed to when no prefix covers the path.
pub proof fn lemma_best_route(exts: Seq<HttpExtension>, path: Seq<char>)
    ensures
        best_route(exts, path) matches Some(i) ==> 0 <= i < exts.len() && prefix_covers(
            exts[i].routes_prefix@,
            path,
        ),
        best_route(exts, path) is None ==> forall|j: int|
            0 <= j < exts.len() ==> !prefix_covers(#[trigger] exts[j].routes_prefix@, path),
    decreases exts.len(),
{
    if exts.len() > 0 {
        let p = exts.drop_last();
        lemma_best_route(p, path);
        if best_route(exts, path) is None {
            assert forall|j: int| 0 <= j < exts.len() implies !prefix_covers(
                #[trigger] exts[j].routes_prefix@,
                path,
            ) by {
                if j < p.len() {
                    assert(p[j] == exts[j]);
                }
            }
        }
        if let Some(b) = best_route(p, path) {
            assert(p[b] == exts[b]);
        }
    }
}

/// No extension covering the path outranks the one it is routed to.
pub proof fn lemma_best_route_is_best(exts: Seq<HttpExtension>, path: Seq<char>)
    ensures
        best_route(exts, path) matches Some(i) ==> forall|j: int|
            0 <= j < exts.len() && prefix_covers(#[trigger] exts[j].routes_prefix@, path)
                ==> !outranks(exts[j], exts[i]),
    decreases exts.len(),
{
    if exts.len() > 0 {
        let p = exts.drop_last();
        lemma_best_route_is_best(p, path);
        lemma_best_route(p, path);
        if let Some(i) = best_route(exts, path) {
            assert forall|j: int|
                0 <= j < exts.len() && prefix_covers(
                    #[trigger] exts[j].routes_prefix@,
                    path,
                ) implies !outranks(exts[j], exts[i]) by {
                if j < p.len() {
                    assert(p[j] == exts[j]);
                    if let Some(b) = best_route(p, path) {
                        assert(p[b] == exts[b]);
                    }
                }
            }
        }
    }
}

/// The URL a request is forwarded to: the extension's base URL, then the
/// remaining path after a `/` when there is one, then the query after a `?`
/// when there is one.
pub open spec fn target_url(base: Seq<char>, path: Seq<char>, query: Option<Seq<char>>) -> Seq<
    char,
> {
    let with_path = if path.len() == 0 {
        base
    } else {
        base + "/"@ + path
    };
    match query {
        Some(q) => with_path + "?"@ + q,
        None => with_path,
    }
}

/// The headers that are never forwarded to an extension.
pub open spec fn hop_by_hop_names() -> Seq<Seq<char>> {
    seq![
        "host"@,
        "connection"@,
        "keep-alive"@,
        "transfer-encoding"@,
        "te"@,
        "trailer"@,
        "upgrade"@,
    ]
}

/// The request methods that are forwarded.
#[derive(Debug, Clone, Copy, PartialEq, Eq, Structural)]
pub enum ForwardMethod {
    Get,
    Post,
    Put,
    Delete,
    Patch,
}

/// The forwarded method named `name`, if any.
pub open spec fn method_named(name: Seq<char>) -> Option<ForwardMethod> {
    if name == "GET"@ {
        Some(ForwardMethod::Get)
    } else if name == "POST"@ {
        Some(ForwardMethod::Post)
    } else if name == "PUT"@ {
        Some(ForwardMethod::Put)
    } else if name == "DELETE"@ {
        Some(ForwardMethod::Delete)
    } else if name == "PATCH"@ {
        Some(ForwardMethod::Patch)
    } else {
        None
    }
}

/// What reading the stored extensions for a proxied request gave.
#[derive(Debug)]
pub enum ExtensionLookup {
    /// No database connection could be had; the error text.
    PoolUnavailable(String),
    /// The stored extensions, removed ones included.
    Listed(Vec<HttpExtension>),
    /// Reading them failed; the error text.
    Failed(String),
}

/// Where a proxied request is sent: the extension and the target URL.
#[derive(Debug)]
pub struct ProxyTarget {
    pub ext_id: String,
    pub url: String,
}

/// Whether the declared prefix `prefix` covers the request path `path`.
pub fn covers(prefix: &str, path: &str) -> (r: bool)
    ensures
        r == prefix_covers(prefix@, path@),
{
    if text_eq(path, prefix) {
        return true;
    }
    let pv = chars_of(path);
    let n = prefix.unicode_len();
    if pv.len() <= n {
        return false;
    }
    has_prefix(path, prefix) && pv[n] == '/'
}

/// The position in `exts` of the extension a request path is routed to.
pub fn find_route(exts: &Vec<HttpExtension>, path: &str) -> (r: Option<usize>)
    ensures
        match r {
            Some(i) => best_route(exts@, path@) == Some(i as int),
            None => best_route(exts@, path@) is None,
        },
{
    let mut best: Option<usize> = None;
    let mut i: usize = 0;
    while i < exts.len()
        invariant
            i <= exts@.len(),
            match best {
                Some(b) => best_route(exts@.take(i as int), path@) == Some(b as int),
                None => best_route(exts@.take(i as int), path@) is None,
            },
        decreases exts@.len() - i,
    {
        let ghost t = exts@.take(i + 1);
        proof {
            assert(t.drop_last() =~= exts@.take(i as int));
            lemma_best_route(exts@.take(i as int), path@);
            assert(t[i as int] == exts@[i as int]);
        }
        if covers(exts[i].routes_prefix.as_str(), path) {
            let better = match best {
                None => true,
                Some(b) => {
                    proof {
                        assert(t[b as int] == exts@[b as int]);
                        assert(exts@.take(i as int)[b as int] == exts@[b as int]);
                    }
                    let pi = exts[i].routes_prefix.as_str().unicode_len();
                    let pb = exts[b].routes_prefix.as_str().unicode_len();
                    pi > pb || (pi == pb && !matches!(exts[i].state, BridgeState::Removed)
                        && matches!(exts[b].state, BridgeState::Removed))
                },
            };
            if better {
                best = Some(i);
            }
        }
        i += 1;
    }
    proof {
        assert(exts@.take(exts@.len() as int) =~= exts@);
    }
    best
}

/// Where a proxied request goes, as the extension's id and the target URL,
/// or the status and message answered instead: 500 when the database cannot
/// be read, 404 when no declared prefix covers the path, 503 when the
/// extension it is routed to is not active.
pub open spec fn proxy_outcome(
    lookup: ExtensionLookup,
    rest: Seq<char>,
    query: Option<Seq<char>>,
) -> Result<(Seq<char>, Seq<char>), (u16, Seq<char>)> {
    match lookup {
        ExtensionLookup::PoolUnavailable(e) => Err((500u16, "db: "@ + e@)),
        ExtensionLookup::Failed(e) => Err((500u16, e@)),
        ExtensionLookup::Listed(exts) => {
            let path = proxied_path(rest);
            match best_route(exts@, path) {
                None => Err((404u16, "extension not found"@)),
                Some(i) => {
                    let e = exts@[i];
                    if e.state == BridgeState::Active {
                        Ok(
                            (
                                e.id@,
                                target_url(
                                    e.base_url@,
                                    path_after_prefix(e.routes_prefix@, path),
                                    query,
                                ),
                            ),
                        )
                    } else {
                        Err((503u16, "extension not active"@))
                    }
                },
            }
        },
    }
}

pub open spec fn opt_view(q: Option<&str>) -> Option<Seq<char>> {
    match q {
        Some(t) => Some(t@),
        None => None,
    }
}

/// Where a proxied request goes, given the stored extensions, the part of
/// the request path after `/api/ext/` and the original query string; or the
/// error to answer.
pub fn proxy_route(lookup: ExtensionLookup, rest: &str, query: Option<&str>) -> (r: Result<
    ProxyTarget,
    ApiError,
>)
    ensures
        match r {
            Ok(t) => proxy_outcome(lookup, rest@, opt_view(query)) == Ok::<
                (Seq<char>, Seq<char>),
                (u16, Seq<char>),
            >((t.ext_id@, t.url@)),
            Err(e) => proxy_outcome(lookup, rest@, opt_view(query)) == Err::<
                (Seq<char>, Seq<char>),
                (u16, Seq<char>),
            >((e.status, e.message@)),
        },
{
    match lookup {
        ExtensionLookup::PoolUnavailable(e) => Err(
            ApiError { status: 500, message: String::from_str("db: ").concat(e.as_str()) },
        ),
        ExtensionLookup::Failed(e) => Err(ApiError { status: 500, message: e }),
        ExtensionLookup::Listed(exts) => {
            let path = String::from_str("/api/ext/").concat(rest);
            match find_route(&exts, path.as_str()) {
                None => Err(
                    ApiError { status: 404, message: String::from_str("extension not found") },
                ),
                Some(i) => {
                    proof {
                        lemma_best_route(exts@, path@);
                    }
                    let e = &exts[i];
                    if !matches!(e.state, BridgeState::Active) {
                        return Err(
                            ApiError {
                                status: 503,
                                message: String::from_str("extension not active"),
                            },
                        );
                    }
                    let plen = e.routes_prefix.as_str().unicode_len();
                    let n = path.as_str().unicode_len();
                    let remaining = if n <= plen {
                        String::new()
                    } else {
                        String::from_str(path.as_str().substring_char(plen + 1, n))
                    };
                    proof {
                        if n > plen {
                            assert(path@.skip(plen + 1) =~= path@.subrange(plen + 1, n as int));
                        }
                        assert(remaining@ =~= path_after_prefix(e.routes_prefix@, path@));
                    }
                    let mut url = e.base_url.clone();
                    if !remaining.as_str().is_empty() {
                        url.append("/");
                        url.append(remaining.as_str());
                    }
                    match query {
                        Some(q) => {
                            url.append("?");
                            url.append(q);
                        },
                        None => {},
                    }
                    Ok(ProxyTarget { ext_id: e.id.clone(), url })
                },
            }
        },
    }
}

/// The forwarded method named `name` (`GET`, `POST`, `PUT`, `DELETE` or
/// `PATCH`); any other method is refused.
pub fn forward_method(name: &str) -> (r: Option<ForwardMethod>)
    ensures
        r == method_named(name@),
{
    if text_eq(name, "GET") {
        Some(ForwardMethod::Get)
    } else if text_eq(name, "POST") {
        Some(ForwardMethod::Post)
    } else if text_eq(name, "PUT") {
        Some(ForwardMethod::Put)
    } else if text_eq(name, "DELETE") {
        Some(ForwardMethod::Delete)
    } else if text_eq(name, "PATCH") {
        Some(ForwardMethod::Patch)
    } else {
        None
    }
}

/// The answer to a request whose method is not forwarded.
pub fn method_not_allowed() -> (r: ApiError)
    ensures
        r.status == 405 && r.message@ == "method not allowed"@,
{
    ApiError { status: 405, message: String::from_str("method not allowed") }
}

/// Whether requests with this method carry a body that is forwarded.
pub fn carries_body(m: ForwardMethod) -> (r: bool)
    ensures
        r == (m == ForwardMethod::Post || m == ForwardMethod::Put || m == ForwardMethod::Patch),
{
    matches!(m, ForwardMethod::Post | ForwardMethod::Put | ForwardMethod::Patch)
}

/// Headers that must not be forwarded to the upstream extension.
pub fn hop_by_hop_headers() -> (r: Vec<&'static str>)
    ensures
        r@.map_values(|s: &str| s@) == hop_by_hop_names(),
{
    let r = vec!["host", "connection", "keep-alive", "transfer-encoding", "te", "trailer", "upgrade"];
    assert(r@.map_values(|s: &str| s@) =~= hop_by_hop_names());
    r
}

/// Whether the header `name` is a hop-by-hop header.
pub fn is_hop_by_hop(name: &str) -> (r: bool)
    ensures
        r == hop_by_hop_names().contains(name@),
{
    let names = hop_by_hop_headers();
    let mut i: usize = 0;
    while i < names.len()
        invariant
            i <= names@.len(),
            names@.map_values(|s: &str| s@) == hop_by_hop_names(),
            forall|j: int| 0 <= j < i ==> hop_by_hop_names()[j] != name@,
        decreases names@.len() - i,
    {
        if text_eq(name, names[i]) {
            assert(hop_by_hop_names()[i as int] == name@);
            return true;
        }
        i += 1;
    }
    assert(!hop_by_hop_names().contains(name@)) by {
        if hop_by_hop_names().contains(name@) {
            let k = choose|k: int| 0 <= k < hop_by_hop_names().len() && hop_by_hop_names()[k] == name@;
            assert(hop_by_hop_names()[k] != name@);
        }
    }
    false
}

/// The headers forwarded from `headers` (each a name and its value when the
/// value is visible text): those that are not hop-by-hop and have a text
/// value, in order.
pub open spec fn forwarded(headers: Seq<(Seq<char>, Option<Seq<char>>)>) -> Seq<(Seq<char>, Seq<char>)>
    decreases headers.len(),
{
    if headers.len() == 0 {
        Seq::empty()
    } else {
        let rest = forwarded(headers.drop_last());
        let (name, value) = headers.last();
        if !hop_by_hop_names().contains(name) && value is Some {
            rest.push((name, value->0))
        } else {
            rest
        }
    }
}

pub open spec fn header_view(h: (String, Option<String>)) -> (Seq<char>, Option<Seq<char>>) {
    (h.0@, match h.1 {
        Some(v) => Some(v@),
        None => None,
    })
}

pub open spec fn pair_view(h: (String, String)) -> (Seq<char>, Seq<char>) {
    (h.0@, h.1@)
}

/// The headers to forward from a request's headers.
pub fn forward_headers(headers: Vec<(String, Option<String>)>) -> (r: Vec<(String, String)>)
    ensures
        r@.map_values(|h: (String, String)| pair_view(h)) == forwarded(
            headers@.map_values(|h: (String, Option<String>)| header_view(h)),
        ),
{
    let ghost all = headers@;
    let ghost hs = all.map_values(|h: (String, Option<String>)| header_view(h));
    let mut out: Vec<(String, String)> = Vec::new();
    for h in it: headers.into_iter()
        invariant
            it.seq() == all,
            hs == all.map_values(|h: (String, Option<String>)| header_view(h)),
            out@.map_values(|h: (String, String)| pair_view(h)) == forwarded(
                hs.take(it.index() as int),
            ),
    {
        let ghost i = it.index();
        proof {
            assert(hs.take(i + 1).drop_last() =~= hs.take(i as int));
            assert(hs.take(i + 1).last() == header_view(all[i as int]));
        }
        let (name, value) = h;
        let ghost before = out@;
        if !is_hop_by_hop(name.as_str()) {
            match value {
                Some(v) => {
                    out.push((name, v));
                    proof {
                        assert(out@.map_values(|h: (String, String)| pair_view(h))
                            =~= before.map_values(|h: (String, String)| pair_view(h)).push(
                            pair_view(out@.last()),
                        ));
                    }
                },
                None => {},
            }
        }
    }
    proof {
        assert(hs.take(all.len() as int) =~= hs);
    }
    out
}

/// The status answered for an extension's response status: the same status
/// when it is a valid HTTP status (100 to 999), else 502.
pub fn upstream_status(code: u16) -> (r: u16)
    ensures
        r == (if 100 <= code <= 999 {
            code
        } else {
            502
        }),
{
    if 100 <= code && code <= 999 {
        code
    } else {
        502
    }
}

/// The answer when a request body could not be read.
pub fn body_unreadable() -> (r: ApiError)
    ensures
        r.status == 400 && r.message@ == "failed to read request body"@,
{
    ApiError { status: 400, message: String::from_str("failed to read request body") }
}

/// The answer when the extension could not be reached.
pub fn upstream_failed(error: &str) -> (r: ApiError)
    ensures
        r.status == 502 && r.message@ == "proxy: "@ + error@,
{
    ApiError { status: 502, message: String::from_str("proxy: ").concat(error) }
}

/// A proxied request is sent only to an active extension whose declared
/// route prefix covers the request path, under that extension's base URL;
/// no other extension whose prefix covers the path outranks it.
pub proof fn law_routed_by_declared_prefix(
    lookup: ExtensionLookup,
    rest: Seq<char>,
    query: Option<Seq<char>>,
)
    ensures
        proxy_outcome(lookup, rest, query) is Ok ==> (lookup matches ExtensionLookup::Listed(exts)
            && exists|i: int|
            0 <= i < exts@.len() && {
                let e = #[trigger] exts@[i];
                let (id, url) = proxy_outcome(lookup, rest, query)->Ok_0;
                &&& e.state == BridgeState::Active
                &&& prefix_covers(e.routes_prefix@, proxied_path(rest))
                &&& id == e.id@
                &&& starts_with(url, e.base_url@)
                &&& forall|j: int|
                    0 <= j < exts@.len() && prefix_covers(
                        #[trigger] exts@[j].routes_prefix@,
                        proxied_path(rest),
                    ) ==> !outranks(exts@[j], e)
            }),
{
    if let ExtensionLookup::Listed(exts) = lookup {
        let path = proxied_path(rest);
        lemma_best_route(exts@, path);
        lemma_best_route_is_best(exts@, path);
        if let Some(i) = best_route(exts@, path) {
            let e = exts@[i];
            let tail = path_after_prefix(e.routes_prefix@, path);
            let with_path = if tail.len() == 0 {
                e.base_url@
            } else {
                e.base_url@ + "/"@ + tail
            };
            assert(with_path.take(e.base_url@.len() as int) =~= e.base_url@);
            match query {
                Some(q) => {
                    assert((with_path + "?"@ + q).take(e.base_url@.len() as int) =~= e.base_url@);
                },
                None => {},
            }
        }
    }
}

/// No hop-by-hop header is ever forwarded, and every forwarded header came
/// with a text value.
pub proof fn law_hop_by_hop_never_forwarded(headers: Seq<(Seq<char>, Option<Seq<char>>)>)
    ensures
        forall|i: int|
            0 <= i < forwarded(headers).len() ==> !hop_by_hop_names().contains(
                (#[trigger] forwarded(headers)[i]).0,
            ),
    decreases headers.len(),
{
    if headers.len() > 0 {
        law_hop_by_hop_never_forwarded(headers.drop_last());
        let rest = forwarded(headers.drop_last());
        assert forall|i: int| 0 <= i < forwarded(headers).len() implies !hop_by_hop_names().contains(
            (#[trigger] forwarded(headers)[i]).0,
        ) by {
            if i < rest.len() {
                assert(forwarded(headers)[i] == rest[i]);
            }
        }
    }
}


/// An extension that covers the path and outranks every other extension
/// covering it is the one the path is routed to, wherever it is listed.
pub proof fn lemma_best_route_unique_best(exts: Seq<HttpExtension>, path: Seq<char>, i: int)
    requires
        0 <= i < exts.len(),
        prefix_covers(exts[i].routes_prefix@, path),
        forall|j: int|
            0 <= j < exts.len() && j != i && prefix_covers(#[trigger] exts[j].routes_prefix@, path)
                ==> outranks(exts[i], exts[j]),
    ensures
        best_route(exts, path) == Some(i),
    decreases exts.len(),
{
    let p = exts.drop_last();
    let k = exts.len() - 1;
    lemma_best_route(p, path);
    if i == k {
        if let Some(b) = best_route(p, path) {
            assert(p[b] == exts[b]);
        }
    } else {
        assert forall|j: int|
            0 <= j < p.len() && j != i && prefix_covers(#[trigger] p[j].routes_prefix@, path)
                implies outranks(p[i], p[j]) by {
            assert(p[j] == exts[j]);
        }
        assert(p[i] == exts[i]);
        lemma_best_route_unique_best(p, path, i);
    }
}

/// Routing is complete: a request whose path is routed to an active
/// extension is forwarded to that extension, at its base URL followed by
/// what remains of the path after the prefix and a `/`, then the query.
pub proof fn law_routing_is_complete(
    exts: Vec<HttpExtension>,
    rest: Seq<char>,
    query: Option<Seq<char>>,
    i: int,
)
    requires
        best_route(exts@, "/api/ext/"@ + rest) == Some(i),
        exts@[i].state == BridgeState::Active,
    ensures
        ({
            let path = "/api/ext/"@ + rest;
            let p = exts@[i].routes_prefix@;
            let base = exts@[i].base_url@;
            let with_path = if path.len() <= p.len() + 1 {
                base
            } else {
                base + "/"@ + path.skip(p.len() + 1 as int)
            };
            let url = match query {
                Some(q) => with_path + "?"@ + q,
                None => with_path,
            };
            proxy_outcome(ExtensionLookup::Listed(exts), rest, query) == Ok::<
                (Seq<char>, Seq<char>),
                (u16, Seq<char>),
            >((exts@[i].id@, url))
        }),
{
    lemma_best_route(exts@, "/api/ext/"@ + rest);
}

/// A request is routed to the active extension whose declared prefix
/// covers its path (the path is the prefix, or the prefix then `/` and
/// more) and is longer than that of every other extension covering it,
/// or as long as that of a removed one, wherever that extension is listed.
pub proof fn law_longest_active_prefix_wins(
    exts: Vec<HttpExtension>,
    rest: Seq<char>,
    query: Option<Seq<char>>,
    i: int,
)
    requires
        0 <= i < exts@.len(),
        exts@[i].state == BridgeState::Active,
        ({
            let path = "/api/ext/"@ + rest;
            let p = exts@[i].routes_prefix@;
            path == p || (path.len() > p.len() && path.take(p.len() as int) == p
                && path[p.len() as int] == '/')
        }),
        forall|j: int|
            0 <= j < exts@.len() && j != i && ({
                let path = "/api/ext/"@ + rest;
                let p = #[trigger] exts@[j].routes_prefix@;
                path == p || (path.len() > p.len() && path.take(p.len() as int) == p
                    && path[p.len() as int] == '/')
            }) ==> exts@[j].routes_prefix@.len() < exts@[i].routes_prefix@.len() || (
            exts@[j].routes_prefix@.len() == exts@[i].routes_prefix@.len() && exts@[j].state
                == BridgeState::Removed),
    ensures
        proxy_outcome(ExtensionLookup::Listed(exts), rest, query) is Ok,
        proxy_outcome(ExtensionLookup::Listed(exts), rest, query)->Ok_0.0 == exts@[i].id@,
{
    let path = "/api/ext/"@ + rest;
    assert forall|j: int|
        0 <= j < exts@.len() && j != i && prefix_covers(#[trigger] exts@[j].routes_prefix@, path)
            implies outranks(exts@[i], exts@[j]) by {
        assert(exts@[j].routes_prefix@ == exts@[j].routes_prefix@);
    }
    lemma_best_route_unique_best(exts@, path, i);
}


/// The hop-by-hop headers are exactly `host`, `connection`, `keep-alive`,
/// `transfer-encoding`, `te`, `trailer` and `upgrade`.
pub proof fn law_hop_by_hop_names(name: Seq<char>)
    ensures
        hop_by_hop_names().contains(name) <==> (name == "host"@ || name == "connection"@ || name
            == "keep-alive"@ || name == "transfer-encoding"@ || name == "te"@ || name
            == "trailer"@ || name == "upgrade"@),
{
    let names = hop_by_hop_names();
    if names.contains(name) {
        let k = choose|k: int| 0 <= k < names.len() && names[k] == name;
        assert(k == 0 || k == 1 || k == 2 || k == 3 || k == 4 || k == 5 || k == 6);
    }
    if name == "host"@ {
        assert(names[0] == name);
    } else if name == "connection"@ {
        assert(names[1] == name);
    } else if name == "keep-alive"@ {
        assert(names[2] == name);
    } else if name == "transfer-encoding"@ {
        assert(names[3] == name);
    } else if name == "te"@ {
        assert(names[4] == name);
    } else if name == "trailer"@ {
        assert(names[5] == name);
    } else if name == "upgrade"@ {
        assert(names[6] == name);
    }
}

/// Forwarding is complete as well as safe: a request without headers
/// forwards none; a header that is not hop-by-hop and has a text value is
/// forwarded as it came, after those before it; a hop-by-hop header, or one
/// without a text value, adds nothing.
pub proof fn law_forwarding_keeps_plain_headers(
    headers: Seq<(Seq<char>, Option<Seq<char>>)>,
    name: Seq<char>,
    value: Seq<char>,
)
    ensures
        forwarded(Seq::empty()) == Seq::<(Seq<char>, Seq<char>)>::empty(),
        !hop_by_hop_names().contains(name) ==> forwarded(headers.push((name, Some(value))))
            == forwarded(headers).push((name, value)),
        hop_by_hop_names().contains(name) ==> forwarded(headers.push((name, Some(value))))
            == forwarded(headers),
        forwarded(headers.push((name, None))) == forwarded(headers),
{
    assert(headers.push((name, Some(value))).drop_last() == headers);
    assert(headers.push((name, None::<Seq<char>>)).drop_last() == headers);
}

/// The headers forwarded from two runs of headers, one after the other, are
/// those forwarded from the first, then those forwarded from the second.
pub proof fn law_forwarding_splits(
    first: Seq<(Seq<char>, Option<Seq<char>>)>,
    second: Seq<(Seq<char>, Option<Seq<char>>)>,
)
    ensures
        forwarded(first + second) == forwarded(first) + forwarded(second),
    decreases second.len(),
{
    if second.len() == 0 {
        assert(first + second =~= first);
        assert(forwarded(first) + forwarded(second) =~= forwarded(first));
    } else {
        law_forwarding_splits(first, second.drop_last());
        assert((first + second).drop_last() =~= first + second.drop_last());
        assert((first + second).last() == second.last());
        let (name, value) = second.last();
        if !hop_by_hop_names().contains(name) && value is Some {
            assert(forwarded(first) + forwarded(second) =~= (forwarded(first) + forwarded(
                second.drop_last(),
            )).push((name, value->0)));
        }
    }
}


/// Between extensions that cover a path and rank alike, the one listed
/// first is routed to: every covering extension listed before the chosen
/// one is outranked by it.
pub proof fn law_first_of_the_best_is_chosen(exts: Seq<HttpExtension>, path: Seq<char>)
    ensures
        best_route(exts, path) matches Some(i) ==> forall|j: int|
            0 <= j < i && prefix_covers(#[trigger] exts[j].routes_prefix@, path) ==> outranks(
                exts[i],
                exts[j],
            ),
    decreases exts.len(),
{
    if exts.len() > 0 {
        let p = exts.drop_last();
        law_first_of_the_best_is_chosen(p, path);
        lemma_best_route(p, path);
        lemma_best_route_is_best(p, path);
        if let Some(i) = best_route(exts, path) {
            assert forall|j: int|
                0 <= j < i && prefix_covers(#[trigger] exts[j].routes_prefix@, path) implies outranks(
                exts[i],
                exts[j],
            ) by {
                assert(p[j] == exts[j]);
                if let Some(b) = best_route(p, path) {
                    assert(p[b] == exts[b]);
                    if i < p.len() {
                        assert(p[i] == exts[i]);
                    }
                }
            }
        }
    }
}


/// A forwarded request goes to an active listed extension whose declared
/// prefix is the request path itself, or is followed in it by a `/`; the
/// URL is that extension's base URL, then a `/` and the rest of the path
/// after the prefix and its `/` when that rest is not empty, then a `?` and
/// the query when there is one.
pub proof fn law_forwarded_url_follows_prefix(
    lookup: ExtensionLookup,
    rest: Seq<char>,
    query: Option<Seq<char>>,
)
    ensures
        proxy_outcome(lookup, rest, query) is Ok ==> (lookup matches ExtensionLookup::Listed(exts)
            && exists|i: int|
            0 <= i < exts@.len() && {
                let e = #[trigger] exts@[i];
                let (id, url) = proxy_outcome(lookup, rest, query)->Ok_0;
                let path = "/api/ext/"@ + rest;
                let p = e.routes_prefix@;
                let tail = path.skip(p.len() + 1 as int);
                let q = match query {
                    Some(q) => "?"@ + q,
                    None => Seq::empty(),
                };
                &&& e.state == BridgeState::Active
                &&& id == e.id@
                &&& path == p ==> url == e.base_url@ + q
                &&& path != p ==> path == p + "/"@ + tail
                &&& path != p && tail.len() == 0 ==> url == e.base_url@ + q
                &&& path != p && tail.len() > 0 ==> url == e.base_url@ + "/"@ + tail + q
            }),
{
    if let ExtensionLookup::Listed(exts) = lookup {
        let path = proxied_path(rest);
        lemma_best_route(exts@, path);
        if let Some(i) = best_route(exts@, path) {
            let e = exts@[i];
            let p = e.routes_prefix@;
            let tail = path.skip(p.len() + 1 as int);
            reveal_strlit("/");
            if path != p {
                assert(path =~= p + "/"@ + tail);
            }
            let b = e.base_url@;
            match query {
                Some(q) => {
                    assert(b + "/"@ + tail + "?"@ + q =~= b + "/"@ + tail + ("?"@ + q));
                    assert(b + "?"@ + q =~= b + ("?"@ + q));
                },
                None => {
                    assert(b + "/"@ + tail + Seq::<char>::empty() =~= b + "/"@ + tail);
                    assert(b + Seq::<char>::empty() =~= b);
                },
            }
            assert(exts@[i] == e);
        }
    }
}


/// Exactly the methods `GET`, `POST`, `PUT`, `DELETE` and `PATCH` are
/// forwarded, each as itself; every other method name is refused.
pub proof fn law_forwarded_methods(name: Seq<char>)
    ensures
        method_named("GET"@) == Some(ForwardMethod::Get),
        method_named("POST"@) == Some(ForwardMethod::Post),
        method_named("PUT"@) == Some(ForwardMethod::Put),
        method_named("DELETE"@) == Some(ForwardMethod::Delete),
        method_named("PATCH"@) == Some(ForwardMethod::Patch),
        method_named(name) is Some <==> (name == "GET"@ || name == "POST"@ || name == "PUT"@
            || name == "DELETE"@ || name == "PATCH"@),
{
    reveal_strlit("GET");
    reveal_strlit("POST");
    reveal_strlit("PUT");
    reveal_strlit("DELETE");
    reveal_strlit("PATCH");
    assert("GET"@.len() == 3 && "PUT"@.len() == 3 && "POST"@.len() == 4);
    assert("DELETE"@.len() == 6 && "PATCH"@.len() == 5);
    assert("GET"@[0] != "PUT"@[0]);
}

} // verus!

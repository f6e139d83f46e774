//! Validation of registration requests: required fields, the base URL's
//! scheme and host, and the route prefix. Hosts that are loopback, private,
//! link-local, broadcast, unspecified or cloud-metadata endpoints are refused,
//! so that a registration cannot turn the daemon against its own network.
use vstd::prelude::*;

use crate::ipaddr::{ipv6_of, read_ipv6, read_url_ipv4, url_ipv4_of, Ipv4Octets};
use crate::text::{
    after_last, before_char, char_pos, chars_of, ends_with, find_after_last, find_char,
    find_pattern, has_pattern, has_prefix, has_suffix, lemma_char_pos, pattern_pos, starts_with,
    text_eq,
};
use crate::types::RegisterRequest;

verus! {

/// The text that `str::to_lowercase` makes of `s`.
pub uninterp spec fn lowercase(s: Seq<char>) -> Seq<char>;

/// The lowercase form of an ASCII character: `A`..`Z` become `a`..`z`,
/// every other character stays.
pub open spec fn ascii_lower(c: char) -> char {
    if 'A' <= c && c <= 'Z' {
        ((c as int) + 32) as char
    } else {
        c
    }
}

/// Whether every character of `s` is ASCII.
pub open spec fn all_ascii(s: Seq<char>) -> bool {
    forall|i: int| 0 <= i < s.len() ==> (#[trigger] s[i] as int) < 128
}

/// Calls `str::to_lowercase`, which maps each character to its lowercase
/// equivalent under the Unicode `Lowercase` property. The contract names the
/// result, which depends on the text alone, and states the one fact Unicode
/// fixes for ASCII text: the letters `A`..`Z` become `a`..`z` and every other
/// ASCII character (digits, punctuation, lowercase letters) has no other
/// lowercase form and stays. Of non-ASCII text it states nothing.
#[verifier::external_body]
fn to_lowercase(s: &str) -> (r: String)
    ensures
        r@ == lowercase(s@),
        all_ascii(s@) ==> r@ == s@.map_values(|c: char| ascii_lower(c)),
{
    s.to_lowercase()
}

/// The separator between a URL's scheme and the rest.
pub open spec fn scheme_separator() -> Seq<char> {
    seq![':', '/', '/']
}

/// The authority of `url`: the text after the first `://`, up to the first
/// `/`, `?` or `#`.
pub open spec fn url_authority(url: Seq<char>) -> Seq<char> {
    let rest = url.skip(pattern_pos(url, scheme_separator()) + 3 as int);
    before_char(before_char(before_char(rest, '/'), '?'), '#')
}

/// The host named by an authority: the text after the last `@` (which ends
/// any user information), then either the IPv6 literal between `[` and the
/// first `]`, or the text before the first `:` (which starts the port).
pub open spec fn authority_host(authority: Seq<char>) -> Seq<char> {
    let hp = after_last(authority, '@');
    if hp.len() > 0 && hp[0] == '[' && char_pos(hp, ']') < hp.len() {
        hp.subrange(1, char_pos(hp, ']') as int)
    } else {
        before_char(hp, ':')
    }
}

/// The host of `url` before lowercasing, without user information, port or
/// the brackets of an IPv6 literal. `None` when `url` holds no `://`.
pub open spec fn host_text(url: Seq<char>) -> Option<Seq<char>> {
    if has_pattern(url, scheme_separator()) {
        Some(authority_host(url_authority(url)))
    } else {
        None
    }
}

/// Names that always denote cloud metadata services.
pub open spec fn is_blocked_name(h: Seq<char>) -> bool {
    ||| h == "169.254.169.254"@
    ||| h == "metadata.google.internal"@
    ||| h == "100.100.100.200"@
}

/// The RFC 1918 private ranges: 10/8, 172.16/12 and 192.168/16.
pub open spec fn in_rfc1918(o: Ipv4Octets) -> bool {
    ||| o.a == 10
    ||| (o.a == 172 && 16 <= o.b <= 31)
    ||| (o.a == 192 && o.b == 168)
}

/// Loopback (127/8), link-local (169.254/16), broadcast, unspecified or
/// RFC 1918 private.
pub open spec fn is_private_ipv4(o: Ipv4Octets) -> bool {
    ||| o.a == 127
    ||| (o.a == 169 && o.b == 254)
    ||| (o.a == 255 && o.b == 255 && o.c == 255 && o.d == 255)
    ||| (o.a == 0 && o.b == 0 && o.c == 0 && o.d == 0)
    ||| in_rfc1918(o)
}

/// The IPv4 address that the last two groups of `g` carry.
pub open spec fn embedded_ipv4(g: Seq<u16>) -> Ipv4Octets {
    Ipv4Octets {
        a: (g[6] / 256) as u8,
        b: (g[6] % 256) as u8,
        c: (g[7] / 256) as u8,
        d: (g[7] % 256) as u8,
    }
}

/// The IPv6 loopback address `::1`, the unspecified address `::`, a
/// link-local address (fe80::/10), a unique local address (fc00::/7), or an
/// IPv4-mapped address (::ffff:0:0/96) of a private IPv4 address.
pub open spec fn is_private_ipv6(g: Seq<u16>) -> bool {
    &&& g.len() == 8
    &&& {
        ||| ((forall|i: int| 0 <= i < 7 ==> g[i] == 0) && (g[7] == 0 || g[7] == 1))
        ||| (0xfe80 <= g[0] && g[0] <= 0xfebf)
        ||| (0xfc00 <= g[0] && g[0] <= 0xfdff)
        ||| ((forall|i: int| 0 <= i < 5 ==> g[i] == 0) && g[5] == 0xffff && is_private_ipv4(
            embedded_ipv4(g),
        ))
    }
}

/// Names that always resolve to the loopback address: `localhost` and the
/// names under it (RFC 6761), with or without a final `.`.
pub open spec fn is_localhost_name(h: Seq<char>) -> bool {
    let n = if h.len() > 0 && h.last() == '.' {
        h.drop_last()
    } else {
        h
    };
    n == "localhost"@ || ends_with(n, ".localhost"@)
}

/// Whether `host` resolves to a private, loopback or cloud-metadata address,
/// as far as the text decides it: a metadata name, a `localhost` name, an
/// IPv4 address in any of the forms a URL host may take (dotted decimal,
/// octal, hexadecimal or shorthand), or an IPv6 address, in one of the
/// refused ranges.
pub open spec fn is_private_host_spec(host: Seq<char>) -> bool {
    if is_blocked_name(host) || is_localhost_name(host) {
        true
    } else if url_ipv4_of(host) is Some {
        is_private_ipv4(url_ipv4_of(host)->0)
    } else if ipv6_of(host) is Some {
        is_private_ipv6(ipv6_of(host)->0)
    } else {
        false
    }
}

/// The message with which a registration request is refused, if any.
pub open spec fn validation_error(req: RegisterRequest) -> Option<Seq<char>> {
    if req.id@.len() == 0 {
        Some("id is required"@)
    } else if req.base_url@.len() == 0 {
        Some("base_url is required"@)
    } else if !starts_with(req.base_url@, "http://"@) && !starts_with(
        req.base_url@,
        "https://"@,
    ) {
        Some("base_url must use http:// or https://"@)
    } else if host_text(req.base_url@) is Some && is_private_host_spec(
        lowercase(host_text(req.base_url@)->0),
    ) {
        Some("base_url must not target private/metadata addresses"@)
    } else if !starts_with(req.routes_prefix@, "/api/ext/"@) {
        Some("routes_prefix must start with /api/ext/"@)
    } else {
        None
    }
}

/// Extract the host portion from a URL, lowercased: without user
/// information or port, and an IPv6 literal without its brackets.
pub fn extract_host(url: &str) -> (r: Option<String>)
    ensures
        r is Some == host_text(url@) is Some,
        r is Some ==> r->0@ == lowercase(host_text(url@)->0),
        r is Some && all_ascii(host_text(url@)->0) ==> r->0@ == host_text(url@)->0.map_values(
            |c: char| ascii_lower(c),
        ),
{
    let v = chars_of(url);
    let n = v.len();
    let sep: Vec<char> = vec![':', '/', '/'];
    assert(sep@ =~= scheme_separator());
    assert(v@.subrange(0, n as int) =~= url@);
    let p1 = find_pattern(&v, 0, n, &sep);
    if n - p1 < 3 {
        return None;
    }
    let start = p1 + 3;
    let e1 = find_char(&v, start, n, '/');
    let e2 = find_char(&v, start, e1, '?');
    let e3 = find_char(&v, start, e2, '#');
    proof {
        let rest = url@.skip(p1 + 3);
        assert(rest =~= v@.subrange(start as int, n as int));
        assert(before_char(rest, '/') =~= v@.subrange(start as int, e1 as int));
        assert(before_char(v@.subrange(start as int, e1 as int), '?') =~= v@.subrange(
            start as int,
            e2 as int,
        ));
        assert(before_char(v@.subrange(start as int, e2 as int), '#') =~= v@.subrange(
            start as int,
            e3 as int,
        ));
    }
    let a = find_after_last(&v, start, e3, '@');
    let ghost hp = v@.subrange(a as int, e3 as int);
    let (lo, hi) = if a < e3 && v[a] == '[' {
        let b = find_char(&v, a, e3, ']');
        proof {
            assert(hp[0] == v@[a as int]);
            lemma_char_pos(hp, ']');
        }
        if b < e3 {
            proof {
                assert(hp.subrange(1, b - a) =~= v@.subrange(a + 1, b as int));
            }
            (a + 1, b)
        } else {
            let c = find_char(&v, a, e3, ':');
            assert(before_char(hp, ':') =~= v@.subrange(a as int, c as int));
            (a, c)
        }
    } else {
        let c = find_char(&v, a, e3, ':');
        assert(before_char(hp, ':') =~= v@.subrange(a as int, c as int));
        (a, c)
    };
    let part = url.substring_char(lo, hi);
    Some(to_lowercase(part))
}

/// Whether `ip` lies in an RFC 1918 private range.
pub fn is_rfc1918(ip: Ipv4Octets) -> (r: bool)
    ensures
        r == in_rfc1918(ip),
{
    ip.a == 10 || (ip.a == 172 && 16 <= ip.b && ip.b <= 31) || (ip.a == 192 && ip.b == 168)
}

/// Whether `name` is `localhost` or a name under it, with or without a
/// final `.`.
fn is_localhost(name: &str) -> (r: bool)
    ensures
        r == is_localhost_name(name@),
{
    let n = name.unicode_len();
    let trimmed = if n > 0 && name.get_char(n - 1) == '.' {
        let t = name.substring_char(0, n - 1);
        assert(t@ =~= name@.drop_last());
        t
    } else {
        name
    };
    text_eq(trimmed, "localhost") || has_suffix(trimmed, ".localhost")
}

/// Whether the groups `g` of an IPv6 address form a private address.
fn is_private_groups(g: &Vec<u16>) -> (r: bool)
    requires
        g@.len() == 8,
    ensures
        r == is_private_ipv6(g@),
{
    if (0xfe80 <= g[0] && g[0] <= 0xfebf) || (0xfc00 <= g[0] && g[0] <= 0xfdff) {
        return true;
    }
    let mut zeros: usize = 0;
    while zeros < 7 && g[zeros] == 0
        invariant
            zeros <= 7,
            g@.len() == 8,
            forall|i: int| 0 <= i < zeros ==> g@[i] == 0,
        decreases 7 - zeros,
    {
        zeros += 1;
    }
    proof {
        if zeros < 7 {
            assert(!(forall|i: int| 0 <= i < 7 ==> g@[i] == 0)) by {
                assert(g@[zeros as int] != 0);
            }
        }
        if zeros < 5 {
            assert(!(forall|i: int| 0 <= i < 5 ==> g@[i] == 0)) by {
                assert(g@[zeros as int] != 0);
            }
        }
    }
    if zeros == 7 {
        return g[7] == 0 || g[7] == 1;
    }
    if zeros >= 5 && g[5] == 0xffff {
        let ip = Ipv4Octets {
            a: (g[6] / 256) as u8,
            b: (g[6] % 256) as u8,
            c: (g[7] / 256) as u8,
            d: (g[7] % 256) as u8,
        };
        assert(ip == embedded_ipv4(g@));
        return is_private_v4(ip);
    }
    false
}

/// Whether `ip` is loopback, link-local, broadcast, unspecified or in an
/// RFC 1918 private range.
fn is_private_v4(ip: Ipv4Octets) -> (r: bool)
    ensures
        r == is_private_ipv4(ip),
{
    ip.a == 127 || (ip.a == 169 && ip.b == 254) || (ip.a == 255 && ip.b == 255 && ip.c == 255
        && ip.d == 255) || (ip.a == 0 && ip.b == 0 && ip.c == 0 && ip.d == 0) || is_rfc1918(ip)
}

/// Returns true if the host resolves to a private, loopback, or
/// cloud-metadata address, as far as its text decides: the metadata names,
/// `localhost` and the names under it, and IPv4 (in any URL form) and IPv6
/// addresses in the refused ranges. Other names are not looked up.
pub fn is_private_host(host: &str) -> (r: bool)
    ensures
        r == is_private_host_spec(host@),
{
    if text_eq(host, "169.254.169.254") || text_eq(host, "metadata.google.internal") || text_eq(
        host,
        "100.100.100.200",
    ) || is_localhost(host) {
        return true;
    }
    let v = chars_of(host);
    let n = v.len();
    assert(v@.subrange(0, n as int) =~= host@);
    match read_url_ipv4(&v) {
        Some(ip) => {
            return is_private_v4(ip);
        },
        None => {},
    }
    match read_ipv6(&v, 0, n) {
        Some(g) => is_private_groups(&g),
        None => false,
    }
}

/// Checks a registration request; the error is the message to report.
pub fn validate_request(req: &RegisterRequest) -> (r: Result<(), String>)
    ensures
        match r {
            Ok(()) => validation_error(*req) is None,
            Err(msg) => validation_error(*req) == Some(msg@),
        },
{
    if req.id.as_str().is_empty() {
        return Err(String::from_str("id is required"));
    }
    if req.base_url.as_str().is_empty() {
        return Err(String::from_str("base_url is required"));
    }
    if !has_prefix(req.base_url.as_str(), "http://") && !has_prefix(
        req.base_url.as_str(),
        "https://",
    ) {
        return Err(String::from_str("base_url must use http:// or https://"));
    }
    match extract_host(req.base_url.as_str()) {
        Some(host) => {
            if is_private_host(host.as_str()) {
                return Err(String::from_str("base_url must not target private/metadata addresses"));
            }
        },
        None => {},
    }
    if !has_prefix(req.routes_prefix.as_str(), "/api/ext/") {
        return Err(String::from_str("routes_prefix must start with /api/ext/"));
    }
    Ok(())
}


/// The 32-bit number of an IPv4 address, its first octet the most
/// significant.
pub open spec fn ipv4_value(o: Ipv4Octets) -> int {
    o.a * 16777216 + o.b * 65536 + o.c * 256 + o.d
}

/// Whether the address with number `n` lies in one of the refused IPv4
/// blocks: 127.0.0.0/8, 169.254.0.0/16, 10.0.0.0/8, 172.16.0.0/12,
/// 192.168.0.0/16, or is 255.255.255.255 or 0.0.0.0.
pub open spec fn in_refused_ipv4_block(n: int) -> bool {
    ||| 2130706432 <= n < 2147483648
    ||| 2851995648 <= n < 2852061184
    ||| 167772160 <= n < 184549376
    ||| 2886729728 <= n < 2887778304
    ||| 3232235520 <= n < 3232301056
    ||| n == 4294967295
    ||| n == 0
}

/// The refused IPv4 addresses are exactly those of the loopback block
/// 127.0.0.0/8, the link-local block 169.254.0.0/16, the private blocks
/// 10.0.0.0/8, 172.16.0.0/12 and 192.168.0.0/16, the broadcast address and
/// the unspecified address; every other address is public.
pub proof fn law_refused_ipv4_ranges(o: Ipv4Octets)
    ensures
        is_private_ipv4(o) <==> in_refused_ipv4_block(ipv4_value(o)),
{
}

/// A host that is neither a metadata nor a `localhost` name and reads as an
/// IPv4 address is refused exactly when that address lies in a refused
/// block.
pub proof fn law_ipv4_host_refused(host: Seq<char>, o: Ipv4Octets)
    requires
        !is_blocked_name(host),
        !is_localhost_name(host),
        url_ipv4_of(host) == Some(o),
    ensures
        is_private_host_spec(host) <==> in_refused_ipv4_block(ipv4_value(o)),
{
    law_refused_ipv4_ranges(o);
}


/// Whether the IPv6 address with groups `g` lies in one of the refused
/// IPv6 blocks: `::1/128`, `::/128`, fe80::/10, fc00::/7, or the
/// IPv4-mapped block ::ffff:0:0/96 with an IPv4 address of a refused block.
pub open spec fn in_refused_ipv6_block(g: Seq<u16>) -> bool {
    ||| (forall|i: int| 0 <= i < 7 ==> g[i] == 0) && g[7] == 1
    ||| (forall|i: int| 0 <= i < 7 ==> g[i] == 0) && g[7] == 0
    ||| g[0] / 64 == 0xfe80int / 64
    ||| g[0] / 512 == 0xfc00int / 512
    ||| (forall|i: int| 0 <= i < 5 ==> g[i] == 0) && g[5] == 0xffff && in_refused_ipv4_block(
        g[6] * 65536 + g[7],
    )
}

/// The refused IPv6 addresses are exactly those of the loopback and
/// unspecified addresses, the link-local block fe80::/10, the unique local
/// block fc00::/7, and the IPv4-mapped addresses of refused IPv4 addresses.
pub proof fn law_refused_ipv6_ranges(g: Seq<u16>)
    requires
        g.len() == 8,
    ensures
        is_private_ipv6(g) <==> in_refused_ipv6_block(g),
{
    let o = embedded_ipv4(g);
    assert(ipv4_value(o) == g[6] * 65536 + g[7]) by (nonlinear_arith)
        requires
            o.a == g[6] / 256,
            o.b == g[6] % 256,
            o.c == g[7] / 256,
            o.d == g[7] % 256,
            0 <= g[6] < 65536,
            0 <= g[7] < 65536,
    ;
    law_refused_ipv4_ranges(o);
}

/// A host that is neither a metadata nor a `localhost` name, does not read
/// as an IPv4 address and reads as an IPv6 address is refused exactly when
/// that address lies in a refused block.
pub proof fn law_ipv6_host_refused(host: Seq<char>, g: Seq<u16>)
    requires
        !is_blocked_name(host),
        !is_localhost_name(host),
        url_ipv4_of(host) is None,
        ipv6_of(host) == Some(g),
    ensures
        is_private_host_spec(host) <==> in_refused_ipv6_block(g),
{
    assert(g.len() == 8);
    law_refused_ipv6_ranges(g);
}

} // verus!

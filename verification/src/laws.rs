//! Properties that hold across the bridge's decisions.
use vstd::prelude::*;

use crate::health::{health_step, probe_plan};
use crate::ipaddr::{
    address_from_numbers, all_radix_digits, digits_value, hex_digit_value, ipv4_number, ipv4_of,
    is_dec_digit, is_octet_text, piece_numbers, split_dots, trim_final_dot, url_ipv4_of,
    Ipv4Octets,
};
use crate::text::{
    after_last, before_char, char_pos, decimal, digit_char, lemma_char_pos, lemma_char_pos_at,
    lemma_char_pos_contains, lemma_pattern_pos_found, starts_with,
};
use crate::types::{BridgeState, HttpExtension, RegisterRequest, MAX_FAILURES};
use crate::validation::{
    authority_host, host_text, in_refused_ipv4_block, ipv4_value, is_blocked_name,
    is_localhost_name, is_private_host_spec, law_ipv4_host_refused, lowercase, scheme_separator,
    validation_error,
};
use crate::webhook::delivery_plan;

verus! {

/// Only an active extension receives events: the deliveries for an
/// extension in any other state are none. (That proxied requests reach only
/// active extensions is `proxy::law_routed_by_declared_prefix`.)
pub proof fn law_only_active_extensions_receive_events(ext: HttpExtension)
    requires
        ext.state != BridgeState::Active,
    ensures
        delivery_plan(seq![ext]).len() == 0,
{
    assert(seq![ext].drop_last() =~= Seq::<HttpExtension>::empty());
    assert(delivery_plan(Seq::<HttpExtension>::empty()).len() == 0);
    assert(seq![ext].last() == ext);
}

/// An extension whose health check fails for the MAX_FAILURES-th time in a
/// row is removed, and from then on is left alone: no further health checks
/// and no events. (Proxied requests are never sent to it, since it is not
/// active: `proxy::law_routed_by_declared_prefix`.)
pub proof fn law_removed_extension_is_left_alone(ext: HttpExtension)
    requires
        ext.consecutive_failures + 1 == MAX_FAILURES,
    ensures
        health_step(ext.consecutive_failures as nat, false).0 == BridgeState::Removed,
        ({
            let removed = HttpExtension { state: BridgeState::Removed, ..ext };
            &&& probe_plan(seq![removed]).len() == 0
            &&& delivery_plan(seq![removed]).len() == 0
        }),
{
    let removed = HttpExtension { state: BridgeState::Removed, ..ext };
    assert(seq![removed].drop_last() =~= Seq::<HttpExtension>::empty());
    assert(delivery_plan(Seq::<HttpExtension>::empty()).len() == 0);
    assert(probe_plan(Seq::<HttpExtension>::empty()).len() == 0);
    assert(seq![removed].last() == removed);
}

/// An accepted registration has an id, an http or https base URL whose host
/// is not private, loopback or a metadata service, and a route prefix under
/// `/api/ext/`.
pub proof fn law_accepted_registration(req: RegisterRequest)
    requires
        validation_error(req) is None,
    ensures
        req.id@.len() > 0,
        starts_with(req.base_url@, "http://"@) || starts_with(req.base_url@, "https://"@),
        host_text(req.base_url@) is Some,
        !is_private_host_spec(lowercase(host_text(req.base_url@)->0)),
        starts_with(req.routes_prefix@, "/api/ext/"@),
{
    reveal_strlit("http://");
    reveal_strlit("https://");
    reveal_strlit("://");
    let sep = crate::validation::scheme_separator();
    let u = req.base_url@;
    if starts_with(u, "http://"@) {
        assert(u[4] == u.take(7)[4] && u[5] == u.take(7)[5] && u[6] == u.take(7)[6]);
        assert(u.subrange(4, 7) =~= sep);
        crate::text::lemma_pattern_pos(u, sep);
        assert(crate::text::pattern_pos(u, sep) <= 4) by {
            if crate::text::pattern_pos(u, sep) > 4 {
                assert(u.subrange(4, 4 + sep.len() as int) != sep);
            }
        }
    } else {
        assert(u[5] == u.take(8)[5] && u[6] == u.take(8)[6] && u[7] == u.take(8)[7]);
        assert(u.subrange(5, 8) =~= sep);
        crate::text::lemma_pattern_pos(u, sep);
        assert(crate::text::pattern_pos(u, sep) <= 5) by {
            if crate::text::pattern_pos(u, sep) > 5 {
                assert(u.subrange(5, 5 + sep.len() as int) != sep);
            }
        }
    }
}

/// Text holding none of the characters that end a URL's authority.
pub open spec fn within_authority(s: Seq<char>) -> bool {
    !s.contains('/') && !s.contains('?') && !s.contains('#')
}

proof fn lemma_char_pos_absent(s: Seq<char>, c: char)
    requires
        !s.contains(c),
    ensures
        char_pos(s, c) == s.len(),
        before_char(s, c) == s,
{
    assert forall|j: int| 0 <= j < s.len() implies s[j] != c by {
        if s[j] == c {
            assert(s.contains(c));
        }
    }
    lemma_char_pos_at(s, c, s.len() as int);
    assert(s.take(s.len() as int) =~= s);
}

/// The text after the last `@` of `x@y`, where `y` holds no `@`, is `y`.
proof fn lemma_after_last_at(x: Seq<char>, y: Seq<char>)
    requires
        !y.contains('@'),
    ensures
        after_last(x + seq!['@'] + y, '@') == y,
    decreases x.len(),
{
    let s = x + seq!['@'] + y;
    lemma_char_pos(s, '@');
    let p = char_pos(s, '@') as int;
    assert(s[x.len() as int] == '@');
    assert(p <= x.len());
    assert(after_last(s, '@') == after_last(s.skip(p + 1), '@'));
    if p < x.len() {
        let x2 = x.skip(p + 1);
        assert(s.skip(p + 1) =~= x2 + seq!['@'] + y);
        lemma_after_last_at(x2, y);
    } else {
        assert(s.skip(p + 1) =~= y);
        lemma_char_pos_absent(y, '@');
        assert(after_last(y, '@') == y);
    }
}

/// The host of `http://` + `authority` + `path`, where the authority holds
/// none of `/`, `?`, `#` and the path is empty or starts with `/`.
proof fn lemma_http_authority(authority: Seq<char>, path: Seq<char>)
    requires
        within_authority(authority),
        path.len() == 0 || path[0] == '/',
    ensures
        host_text("http://"@ + authority + path) == Some(authority_host(authority)),
{
    reveal_strlit("http://");
    let url = "http://"@ + authority + path;
    let sep = scheme_separator();
    assert(url.subrange(4, 7) =~= sep);
    assert forall|j: int| 0 <= j < 4 && j + sep.len() <= url.len() implies #[trigger] url.subrange(
        j,
        j + sep.len(),
    ) != sep by {
        assert(url.subrange(j, j + sep.len())[0] == url[j]);
    }
    lemma_pattern_pos_found(url, sep, 4);
    let rest = url.skip(7);
    assert(rest =~= authority + path);
    // The authority ends where the path starts.
    assert forall|j: int| 0 <= j < authority.len() implies rest[j] != '/' by {
        assert(rest[j] == authority[j]);
        if authority[j] == '/' {
            assert(authority.contains('/'));
        }
    }
    if path.len() > 0 {
        assert(rest[authority.len() as int] == '/');
    }
    lemma_char_pos_at(rest, '/', authority.len() as int);
    assert(before_char(rest, '/') =~= authority);
    lemma_char_pos_absent(authority, '?');
    lemma_char_pos_absent(authority, '#');
}

/// User information before an `@` and a port after a `:` never hide the
/// host of a URL: the host of `http://user@host:port/path` is `host`,
/// whatever the user information holds.
pub proof fn law_userinfo_and_port_do_not_hide_host(
    user: Seq<char>,
    host: Seq<char>,
    port: Seq<char>,
    path: Seq<char>,
)
    requires
        within_authority(user),
        within_authority(host),
        within_authority(port),
        !host.contains('@') && !host.contains(':'),
        !port.contains('@'),
        host.len() > 0 && host[0] != '[',
        path.len() == 0 || path[0] == '/',
    ensures
        host_text("http://"@ + user + "@"@ + host + ":"@ + port + path) == Some(host),
{
    reveal_strlit("@");
    reveal_strlit(":");
    let hp = host + seq![':'] + port;
    let authority = user + seq!['@'] + hp;
    assert("http://"@ + user + "@"@ + host + ":"@ + port + path =~= "http://"@ + authority + path);
    assert(!hp.contains('@')) by {
        if hp.contains('@') {
            let k = choose|k: int| 0 <= k < hp.len() && hp[k] == '@';
            if k < host.len() {
                assert(host[k] == '@');
                assert(host.contains('@'));
            } else if k > host.len() {
                assert(port[k - host.len() - 1] == '@');
                assert(port.contains('@'));
            }
        }
    }
    assert(within_authority(authority)) by {
        assert forall|c: char| c == '/' || c == '?' || c == '#' implies !authority.contains(c) by {
            if authority.contains(c) {
                let k = choose|k: int| 0 <= k < authority.len() && authority[k] == c;
                if k < user.len() {
                    assert(user[k] == c);
                    assert(user.contains(c));
                } else if k > user.len() && k < user.len() + 1 + host.len() {
                    assert(host[k - user.len() - 1] == c);
                    assert(host.contains(c));
                } else if k > user.len() + 1 + host.len() {
                    assert(port[k - user.len() - 2 - host.len()] == c);
                    assert(port.contains(c));
                }
            }
        }
    }
    lemma_http_authority(authority, path);
    lemma_after_last_at(user, hp);
    assert(hp[0] == host[0]);
    assert forall|j: int| 0 <= j < host.len() implies hp[j] != ':' by {
        assert(hp[j] == host[j]);
        if host[j] == ':' {
            assert(host.contains(':'));
        }
    }
    lemma_char_pos_at(hp, ':', host.len() as int);
    assert(hp.take(host.len() as int) =~= host);
}

/// An IPv6 literal in brackets is the host whole, whatever port follows:
/// the host of `http://[addr]:port/path` is `addr`.
pub proof fn law_bracketed_ipv6_host(addr: Seq<char>, port: Seq<char>, path: Seq<char>)
    requires
        within_authority(addr),
        within_authority(port),
        !addr.contains('@') && !addr.contains(']'),
        !port.contains('@'),
        path.len() == 0 || path[0] == '/',
    ensures
        host_text("http://["@ + addr + "]:"@ + port + path) == Some(addr),
{
    reveal_strlit("http://[");
    reveal_strlit("]:");
    let hp = seq!['['] + addr + seq![']', ':'] + port;
    assert("http://["@ + addr + "]:"@ + port + path =~= "http://"@ + hp + path) by {
        reveal_strlit("http://");
    }
    assert(!hp.contains('@')) by {
        if hp.contains('@') {
            let k = choose|k: int| 0 <= k < hp.len() && hp[k] == '@';
            if 1 <= k < 1 + addr.len() {
                assert(addr[k - 1] == '@');
                assert(addr.contains('@'));
            } else if k >= 3 + addr.len() {
                assert(port[k - 3 - addr.len()] == '@');
                assert(port.contains('@'));
            }
        }
    }
    assert(within_authority(hp)) by {
        assert forall|c: char| c == '/' || c == '?' || c == '#' implies !hp.contains(c) by {
            if hp.contains(c) {
                let k = choose|k: int| 0 <= k < hp.len() && hp[k] == c;
                if 1 <= k < 1 + addr.len() {
                    assert(addr[k - 1] == c);
                    assert(addr.contains(c));
                } else if k >= 3 + addr.len() {
                    assert(port[k - 3 - addr.len()] == c);
                    assert(port.contains(c));
                }
            }
        }
    }
    lemma_http_authority(hp, path);
    lemma_char_pos_absent(hp, '@');
    assert(after_last(hp, '@') == hp);
    assert forall|j: int| 0 <= j < addr.len() + 1 implies hp[j] != ']' by {
        if j > 0 {
            assert(hp[j] == addr[j - 1]);
            if addr[j - 1] == ']' {
                assert(addr.contains(']'));
            }
        }
    }
    lemma_char_pos_at(hp, ']', addr.len() + 1 as int);
    assert(hp.subrange(1, addr.len() + 1 as int) =~= addr);
}


/// A registration with an id, an `http://` or `https://` base URL whose
/// host is not private, loopback or a metadata endpoint, and a route prefix
/// under `/api/ext/` is accepted.
pub proof fn law_public_registration_accepted(req: RegisterRequest)
    requires
        req.id@.len() > 0,
        starts_with(req.base_url@, "http://"@) || starts_with(req.base_url@, "https://"@),
        host_text(req.base_url@) is Some ==> !is_private_host_spec(
            lowercase(host_text(req.base_url@)->0),
        ),
        starts_with(req.routes_prefix@, "/api/ext/"@),
    ensures
        validation_error(req) is None,
{
    reveal_strlit("http://");
    reveal_strlit("https://");
}

/// A well-formed registration whose base URL names an IPv4 address is
/// refused exactly when that address lies in a refused block (loopback,
/// link-local, RFC 1918, broadcast or unspecified), and accepted otherwise.
pub proof fn law_registration_by_ipv4_host(req: RegisterRequest, o: Ipv4Octets)
    requires
        req.id@.len() > 0,
        starts_with(req.base_url@, "http://"@) || starts_with(req.base_url@, "https://"@),
        host_text(req.base_url@) is Some,
        !is_blocked_name(lowercase(host_text(req.base_url@)->0)),
        !is_localhost_name(lowercase(host_text(req.base_url@)->0)),
        url_ipv4_of(lowercase(host_text(req.base_url@)->0)) == Some(o),
        starts_with(req.routes_prefix@, "/api/ext/"@),
    ensures
        validation_error(req) == (if in_refused_ipv4_block(ipv4_value(o)) {
            Some("base_url must not target private/metadata addresses"@)
        } else {
            None
        }),
{
    reveal_strlit("http://");
    reveal_strlit("https://");
    law_ipv4_host_refused(lowercase(host_text(req.base_url@)->0), o);
}


/// The decimal rendering of a number is made of decimal digits, starts with
/// `0` only when the number is zero, and reads back as the number.
pub proof fn law_decimal_reads_back(n: nat)
    ensures
        decimal(n).len() > 0,
        forall|i: int| 0 <= i < decimal(n).len() ==> is_dec_digit(#[trigger] decimal(n)[i]),
        decimal(n)[0] == '0' <==> n == 0,
        digits_value(decimal(n), 10) == n,
    decreases n,
{
    let d = n % 10;
    assert(is_dec_digit(digit_char(d)) && hex_digit_value(digit_char(d)) == d);
    if n >= 10 {
        law_decimal_reads_back(n / 10);
        let s = decimal(n);
        assert(s.drop_last() == decimal(n / 10));
        assert(s[0] == decimal(n / 10)[0]);
        assert forall|i: int| 0 <= i < s.len() implies is_dec_digit(#[trigger] s[i]) by {
            if i < s.len() - 1 {
                assert(s[i] == decimal(n / 10)[i]);
            }
        }
        assert(s.last() == digit_char(d));
        assert(digits_value(s, 10) == digits_value(decimal(n / 10), 10) * 10 + d);
        assert((n / 10) * 10 + n % 10 == n);
    } else {
        assert(decimal(n).drop_last() =~= Seq::<char>::empty());
        assert(digits_value(decimal(n), 10) == digits_value(Seq::<char>::empty(), 10) * 10 + d);
    }
}


/// A run of decimal digits followed by a dot: the dot is the first one, and
/// the text splits there into the digits and what follows the dot.
proof fn lemma_digits_then_dot(x: Seq<char>, y: Seq<char>)
    requires
        forall|i: int| 0 <= i < x.len() ==> is_dec_digit(#[trigger] x[i]),
    ensures
        !x.contains('.'),
        char_pos(x + (seq!['.'] + y), '.') == x.len(),
        (x + (seq!['.'] + y)).take(x.len() as int) == x,
        (x + (seq!['.'] + y)).skip(x.len() + 1 as int) == y,
{
    let s = x + (seq!['.'] + y);
    assert forall|j: int| 0 <= j < x.len() implies s[j] != '.' by {
        assert(s[j] == x[j]);
    }
    assert(s[x.len() as int] == '.');
    lemma_char_pos_at(s, '.', x.len() as int);
    assert(s.take(x.len() as int) =~= x);
    assert(s.skip(x.len() + 1 as int) =~= y);
    if x.contains('.') {
        let k = choose|k: int| 0 <= k < x.len() && x[k] == '.';
        assert(is_dec_digit(x[k]));
    }
}

/// The decimal rendering of an octet is an octet text that reads back as
/// the octet, in either reading of IPv4 numbers.
proof fn lemma_decimal_octet(n: nat)
    requires
        n <= 255,
    ensures
        is_octet_text(decimal(n)),
        digits_value(decimal(n), 10) == n,
        ipv4_number(decimal(n)) == Some(n),
        forall|i: int| 0 <= i < decimal(n).len() ==> is_dec_digit(#[trigger] decimal(n)[i]),
{
    law_decimal_reads_back(n);
    if n >= 10 {
        assert(decimal(n).len() == decimal(n / 10).len() + 1);
        if n / 10 >= 10 {
            assert(decimal(n / 10).len() == decimal(n / 10 / 10).len() + 1);
        }
    }
    let p = decimal(n);
    assert(all_radix_digits(p, 10));
}

/// The number of four octets, read back octet by octet.
proof fn lemma_octets_of_value(o: Ipv4Octets)
    ensures
        ({
            let v = o.a * 0x100_0000 + o.b * 0x1_0000 + o.c * 0x100 + o.d;
            &&& v / 0x100_0000 == o.a
            &&& (v / 0x1_0000) % 256 == o.b
            &&& (v / 0x100) % 256 == o.c
            &&& v % 256 == o.d
        }),
{
    let v = o.a * 0x100_0000 + o.b * 0x1_0000 + o.c * 0x100 + o.d;
    assert(v / 0x100_0000 == o.a && (v / 0x1_0000) % 256 == o.b && (v / 0x100) % 256 == o.c && v
        % 256 == o.d) by (nonlinear_arith)
        requires
            v == o.a * 0x100_0000 + o.b * 0x1_0000 + o.c * 0x100 + o.d,
            o.a <= 255,
            o.b <= 255,
            o.c <= 255,
            o.d <= 255,
    ;
}

/// Four runs of decimal digits joined by dots split into those four runs.
proof fn lemma_split_four(a: Seq<char>, b: Seq<char>, c: Seq<char>, d: Seq<char>)
    requires
        forall|i: int| 0 <= i < a.len() ==> is_dec_digit(#[trigger] a[i]),
        forall|i: int| 0 <= i < b.len() ==> is_dec_digit(#[trigger] b[i]),
        forall|i: int| 0 <= i < c.len() ==> is_dec_digit(#[trigger] c[i]),
        forall|i: int| 0 <= i < d.len() ==> is_dec_digit(#[trigger] d[i]),
    ensures
        split_dots(a + (seq!['.'] + (b + (seq!['.'] + (c + (seq!['.'] + d)))))) == seq![a, b, c, d],
{
    let dot = seq!['.'];
    let r2 = c + (dot + d);
    let r1 = b + (dot + r2);
    let t = a + (dot + r1);
    lemma_digits_then_dot(a, r1);
    lemma_digits_then_dot(b, r2);
    lemma_digits_then_dot(c, d);
    lemma_digits_then_dot(d, Seq::empty());
    lemma_char_pos_contains(d, '.');
    assert(split_dots(d) == seq![d]);
    assert(split_dots(r2) =~= seq![c, d]);
    assert(split_dots(r1) =~= seq![b, c, d]);
    assert(split_dots(t) =~= seq![a, b, c, d]);
}

/// The dotted-decimal text of four octets, as four octet texts and the
/// dots between them.
proof fn lemma_strict_reads_back(o: Ipv4Octets)
    ensures
        ipv4_of(
            decimal(o.a as nat) + (seq!['.'] + (decimal(o.b as nat) + (seq!['.'] + (decimal(
                o.c as nat,
            ) + (seq!['.'] + decimal(o.d as nat)))))),
        ) == Some(o),
{
    let a = decimal(o.a as nat);
    let b = decimal(o.b as nat);
    let c = decimal(o.c as nat);
    let d = decimal(o.d as nat);
    lemma_decimal_octet(o.a as nat);
    lemma_decimal_octet(o.b as nat);
    lemma_decimal_octet(o.c as nat);
    lemma_decimal_octet(o.d as nat);
    let dot = seq!['.'];
    let r2 = c + (dot + d);
    let r1 = b + (dot + r2);
    lemma_digits_then_dot(a, r1);
    lemma_digits_then_dot(b, r2);
    lemma_digits_then_dot(c, d);
    lemma_digits_then_dot(d, Seq::empty());
}

/// The dotted-decimal text of four octets, read as a URL host.
proof fn lemma_url_reads_back(o: Ipv4Octets)
    ensures
        url_ipv4_of(
            decimal(o.a as nat) + (seq!['.'] + (decimal(o.b as nat) + (seq!['.'] + (decimal(
                o.c as nat,
            ) + (seq!['.'] + decimal(o.d as nat)))))),
        ) == Some(o),
{
    let a = decimal(o.a as nat);
    let b = decimal(o.b as nat);
    let c = decimal(o.c as nat);
    let d = decimal(o.d as nat);
    lemma_decimal_octet(o.a as nat);
    lemma_decimal_octet(o.b as nat);
    lemma_decimal_octet(o.c as nat);
    lemma_decimal_octet(o.d as nat);
    let dot = seq!['.'];
    let t = a + (dot + (b + (dot + (c + (dot + d)))));
    assert(t.last() == d.last());
    assert(trim_final_dot(t) == t);
    lemma_split_four(a, b, c, d);
    let ps = seq![a, b, c, d];
    assert(ipv4_number(ps[0]) is Some && ipv4_number(ps[1]) is Some && ipv4_number(ps[2]) is Some
        && ipv4_number(ps[3]) is Some);
    let ns = seq![o.a as nat, o.b as nat, o.c as nat, o.d as nat];
    assert(piece_numbers(ps) == Some(ns)) by {
        assert(Seq::new(ps.len(), |i: int| ipv4_number(ps[i])->0) =~= ns);
    }
    let v = o.a * 0x100_0000 + o.b * 0x1_0000 + o.c * 0x100 + o.d;
    assert(address_from_numbers(ns) == Some(v as nat));
    lemma_octets_of_value(o);
}

/// The dotted-decimal text of an IPv4 address (each octet in decimal, no
/// leading zeros, separated by dots) reads back as that address, both as a
/// strict dotted-decimal address and as a URL host.
pub proof fn law_dotted_decimal_reads_back(o: Ipv4Octets)
    ensures
        ({
            let t = decimal(o.a as nat) + seq!['.'] + decimal(o.b as nat) + seq!['.'] + decimal(
                o.c as nat,
            ) + seq!['.'] + decimal(o.d as nat);
            ipv4_of(t) == Some(o) && url_ipv4_of(t) == Some(o)
        }),
{
    let a = decimal(o.a as nat);
    let b = decimal(o.b as nat);
    let c = decimal(o.c as nat);
    let d = decimal(o.d as nat);
    let dot = seq!['.'];
    assert(a + dot + b + dot + c + dot + d =~= a + (dot + (b + (dot + (c + (dot + d))))));
    lemma_strict_reads_back(o);
    lemma_url_reads_back(o);
}

} // verus!

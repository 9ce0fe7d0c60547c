//! What may be a table key, and the text of each.

use crate::addr::{Endpoint, Ip};
use crate::table::TableKey;
use crate::text::hex_text;
use vstd::prelude::*;
use vstd::string::*;

verus! {

/// The only key of a table that counts everything together.
impl TableKey for () {
    open spec fn text(k: ()) -> Seq<char> {
        Seq::empty()
    }

    proof fn text_is_faithful(a: (), b: ()) {
    }

    fn to_text(&self) -> (r: String) {
        String::new()
    }

    fn duplicate(&self) -> (r: Self) {
    }
}

impl TableKey for u64 {
    open spec fn text(k: u64) -> Seq<char> {
        crate::text::hex(k as nat, 16)
    }

    proof fn text_is_faithful(a: u64, b: u64) {
        crate::text::lemma_hex_ranges();
        crate::text::lemma_hex_faithful(a as nat, b as nat, 16);
    }

    fn to_text(&self) -> (r: String) {
        hex_text(*self as u128, 16)
    }

    fn duplicate(&self) -> (r: Self) {
        *self
    }
}

/// The family, then the address.
pub open spec fn ip_text(ip: Ip) -> Seq<char> {
    match ip {
        Ip::V4(a) => "4"@ + crate::text::hex(a as nat, 8),
        Ip::V6(a) => "6"@ + crate::text::hex(a as nat, 32),
    }
}

/// The first characters tell two addresses apart, whatever follows them.
pub proof fn lemma_ip_text_faithful(a: Ip, b: Ip, rest_a: Seq<char>, rest_b: Seq<char>)
    requires
        ip_text(a) + rest_a == ip_text(b) + rest_b,
    ensures
        a == b,
        rest_a == rest_b,
{
    reveal_strlit("4");
    reveal_strlit("6");
    crate::text::lemma_hex_ranges();
    let s = ip_text(a) + rest_a;
    let t = ip_text(b) + rest_b;
    assert(s[0] == ip_text(a)[0]);
    assert(t[0] == ip_text(b)[0]);
    match (a, b) {
        (Ip::V4(x), Ip::V4(y)) => {
            crate::text::lemma_hex_len(x as nat, 8);
            crate::text::lemma_hex_len(y as nat, 8);
            assert(s.subrange(1, 9) =~= crate::text::hex(x as nat, 8));
            assert(t.subrange(1, 9) =~= crate::text::hex(y as nat, 8));
            crate::text::lemma_hex_faithful(x as nat, y as nat, 8);
            assert(s.skip(9) =~= rest_a);
            assert(t.skip(9) =~= rest_b);
        },
        (Ip::V6(x), Ip::V6(y)) => {
            crate::text::lemma_hex_len(x as nat, 32);
            crate::text::lemma_hex_len(y as nat, 32);
            assert(s.subrange(1, 33) =~= crate::text::hex(x as nat, 32));
            assert(t.subrange(1, 33) =~= crate::text::hex(y as nat, 32));
            crate::text::lemma_hex_faithful(x as nat, y as nat, 32);
            assert(s.skip(33) =~= rest_a);
            assert(t.skip(33) =~= rest_b);
        },
        _ => {},
    }
}

impl TableKey for Ip {
    open spec fn text(k: Ip) -> Seq<char> {
        ip_text(k)
    }

    proof fn text_is_faithful(a: Ip, b: Ip) {
        assert(ip_text(a) + Seq::empty() =~= ip_text(a));
        assert(ip_text(b) + Seq::empty() =~= ip_text(b));
        lemma_ip_text_faithful(a, b, Seq::empty(), Seq::empty());
    }

    fn to_text(&self) -> (r: String) {
        match *self {
            Ip::V4(a) => "4".to_owned().concat(hex_text(a as u128, 8).as_str()),
            Ip::V6(a) => "6".to_owned().concat(hex_text(a, 32).as_str()),
        }
    }

    fn duplicate(&self) -> (r: Self) {
        *self
    }
}

/// A controller's address and the id of the peer that it asks for.
impl TableKey for (Ip, String) {
    open spec fn text(k: (Ip, Seq<char>)) -> Seq<char> {
        ip_text(k.0) + k.1
    }

    proof fn text_is_faithful(a: (Ip, Seq<char>), b: (Ip, Seq<char>)) {
        lemma_ip_text_faithful(a.0, b.0, a.1, b.1);
    }

    fn to_text(&self) -> (r: String) {
        self.0.to_text().concat(self.1.as_str())
    }

    fn duplicate(&self) -> (r: Self) {
        (self.0, self.1.clone())
    }
}

/// The flow label and the scope of an IPv6 address; none of an IPv4 one.
pub open spec fn extra_text(a: Endpoint) -> Seq<char> {
    match a {
        Endpoint::V4 { .. } => Seq::empty(),
        Endpoint::V6 { flowinfo, scope_id, .. } => crate::text::hex(flowinfo as nat, 8)
            + crate::text::hex(scope_id as nat, 8),
    }
}

impl TableKey for Endpoint {
    open spec fn text(k: Endpoint) -> Seq<char> {
        ip_text(k.ip()) + (crate::text::hex(k.port() as nat, 4) + extra_text(k))
    }

    proof fn text_is_faithful(a: Endpoint, b: Endpoint) {
        let (p, q) = (crate::text::hex(a.port() as nat, 4), crate::text::hex(b.port() as nat, 4));
        let (x, y) = (extra_text(a), extra_text(b));
        lemma_ip_text_faithful(a.ip(), b.ip(), p + x, q + y);
        crate::text::lemma_hex_ranges();
        crate::text::lemma_hex_len(a.port() as nat, 4);
        crate::text::lemma_hex_len(b.port() as nat, 4);
        assert((p + x).take(4) =~= p);
        assert((q + y).take(4) =~= q);
        assert((p + x).skip(4) =~= x);
        assert((q + y).skip(4) =~= y);
        crate::text::lemma_hex_faithful(a.port() as nat, b.port() as nat, 4);
        match (a, b) {
            (
                Endpoint::V6 { flowinfo: f, scope_id: s, .. },
                Endpoint::V6 { flowinfo: g, scope_id: t, .. },
            ) => {
                crate::text::lemma_hex_len(f as nat, 8);
                crate::text::lemma_hex_len(g as nat, 8);
                assert(x.take(8) =~= crate::text::hex(f as nat, 8));
                assert(y.take(8) =~= crate::text::hex(g as nat, 8));
                assert(x.skip(8) =~= crate::text::hex(s as nat, 8));
                assert(y.skip(8) =~= crate::text::hex(t as nat, 8));
                crate::text::lemma_hex_faithful(f as nat, g as nat, 8);
                crate::text::lemma_hex_faithful(s as nat, t as nat, 8);
            },
            _ => {},
        }
    }

    fn to_text(&self) -> (r: String) {
        let head = self.ip().to_text();
        let port = hex_text(self.port() as u128, 4);
        let tail = match *self {
            Endpoint::V4 { .. } => String::new(),
            Endpoint::V6 { flowinfo, scope_id, .. } => hex_text(flowinfo as u128, 8).concat(
                hex_text(scope_id as u128, 8).as_str(),
            ),
        };
        head.concat(port.concat(tail.as_str()).as_str())
    }

    fn duplicate(&self) -> (r: Self) {
        *self
    }
}

} // verus!

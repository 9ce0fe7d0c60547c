//! The switches. Every extension is off unless its switch says `Y`.

use vstd::prelude::*;
use vstd::string::*;

verus! {

/// Which extensions are on.
#[derive(Clone, Copy, Debug)]
pub struct Switches {
    /// Answer NAT tests over UDP and forward UDP ports.
    pub punch_udp: bool,
    /// Forward IPv6 addresses.
    pub punch_ipv6: bool,
    /// Accept registrations over WebSocket.
    pub ws_register: bool,
}

/// What `str::to_uppercase` makes of a text.
pub uninterp spec fn uppercase(s: Seq<char>) -> Seq<char>;

/// Whether `s` is made of ASCII characters alone.
pub open spec fn is_ascii(s: Seq<char>) -> bool {
    forall|i: int| 0 <= i < s.len() ==> (#[trigger] s[i]) as int <= 127
}

/// The ASCII character `c` in upper case: `A` to `Z` for `a` to `z`, any other as it is.
pub open spec fn ascii_upper(c: char) -> char {
    if 97 <= c as int <= 122 {
        (c as int - 32) as char
    } else {
        c
    }
}

/// Calls `str::to_uppercase`, which maps a text by Unicode's rules, whatever the locale. The
/// result is named. Of an ASCII text it is stated in full: `a` to `z` become `A` to `Z`, and every
/// other character stays.
#[verifier::external_body]
fn to_uppercase(s: &str) -> (r: String)
    ensures
        r@ == uppercase(s@),
        is_ascii(s@) ==> r@ == s@.map_values(|c: char| ascii_upper(c)),
{
    s.to_uppercase()
}

/// Whether a switch whose value is `upper` in upper case is on.
pub fn is_y(upper: &String) -> (r: bool)
    ensures
        r == (upper@ == "Y"@),
{
    *upper == "Y".to_owned()
}

/// `y`, in either case.
pub open spec fn is_yes(value: Seq<char>) -> bool {
    value == "Y"@ || value == "y"@
}

/// An ASCII text is `Y` in upper case exactly where it is `Y` or `y`.
proof fn lemma_upper_y(value: Seq<char>)
    requires
        is_ascii(value),
    ensures
        (value.map_values(|c: char| ascii_upper(c)) == "Y"@) == is_yes(value),
{
    reveal_strlit("Y");
    reveal_strlit("y");
    let upper = value.map_values(|c: char| ascii_upper(c));
    if upper == "Y"@ {
        assert(upper[0] == 'Y');
        assert(value.len() == upper.len() == 1);
        assert(value =~= "Y"@ || value =~= "y"@);
    }
    if is_yes(value) {
        assert(upper =~= "Y"@);
    }
}

/// Whether a switch with this value is on: `Y`, in either case. Any other ASCII value leaves it
/// off, as does none.
pub fn switch_on(value: &str) -> (r: bool)
    ensures
        r == (uppercase(value@) == "Y"@),
        is_yes(value@) ==> r,
        is_ascii(value@) ==> r == is_yes(value@),
        value@.len() == 0 ==> !r,
{
    proof {
        reveal_strlit("Y");
        reveal_strlit("y");
        if is_ascii(value@) {
            lemma_upper_y(value@);
        }
    }
    is_y(&to_uppercase(value))
}

impl Switches {
    /// Everything off.
    pub fn off() -> (r: Self)
        ensures
            !r.punch_udp,
            !r.punch_ipv6,
            !r.ws_register,
    {
        Switches { punch_udp: false, punch_ipv6: false, ws_register: false }
    }

    /// The switches with these three values.
    pub fn read(punch_udp: &str, punch_ipv6: &str, ws_register: &str) -> (r: Self)
        ensures
            r.punch_udp == (uppercase(punch_udp@) == "Y"@),
            r.punch_ipv6 == (uppercase(punch_ipv6@) == "Y"@),
            r.ws_register == (uppercase(ws_register@) == "Y"@),
            punch_udp@.len() == 0 ==> !r.punch_udp,
            punch_ipv6@.len() == 0 ==> !r.punch_ipv6,
            ws_register@.len() == 0 ==> !r.ws_register,
            is_yes(punch_udp@) ==> r.punch_udp,
            is_yes(punch_ipv6@) ==> r.punch_ipv6,
            is_yes(ws_register@) ==> r.ws_register,
            is_ascii(punch_udp@) ==> r.punch_udp == is_yes(punch_udp@),
            is_ascii(punch_ipv6@) ==> r.punch_ipv6 == is_yes(punch_ipv6@),
            is_ascii(ws_register@) ==> r.ws_register == is_yes(ws_register@),
    {
        Switches {
            punch_udp: switch_on(punch_udp),
            punch_ipv6: switch_on(punch_ipv6),
            ws_register: switch_on(ws_register),
        }
    }
}

/// Whether NAT tests over UDP are answered and UDP ports forwarded.
pub fn punch_udp(switches: &Switches) -> (r: bool)
    ensures
        r == switches.punch_udp,
{
    switches.punch_udp
}

/// Whether IPv6 addresses are forwarded.
pub fn punch_ipv6(switches: &Switches) -> (r: bool)
    ensures
        r == switches.punch_ipv6,
{
    switches.punch_ipv6
}

/// Whether registrations over WebSocket are accepted.
pub fn ws_register_enabled(switches: &Switches) -> (r: bool)
    ensures
        r == switches.ws_register,
{
    switches.ws_register
}

} // verus!

//! Structured addresses and their text forms.
//!
//! The text forms themselves are produced by the `goxoy_address_parser`
//! crate; this module states what they are and checks socket endpoint text
//! before it is handed over.

use goxoy_address_parser::address_parser::{AddressParser, IPAddressVersion, ProtocolType};
use vstd::prelude::*;
use vstd::string::*;

verus! {

/// Transport protocol of an address.
#[derive(Clone, Copy, Debug, PartialEq, Eq, Structural)]
pub enum Protocol {
    Tcp,
    Udp,
    WebSocket,
}

/// IP version of an address.
#[derive(Clone, Copy, Debug, PartialEq, Eq, Structural)]
pub enum IpVersion {
    V4,
    V6,
}

/// A structured address: host, port, transport protocol and IP version.
#[derive(Debug, PartialEq, Eq)]
pub struct Address {
    pub host: String,
    pub port: usize,
    pub protocol: Protocol,
    pub ip_version: IpVersion,
}

/// The mathematical value of an [`Address`].
pub struct AddressView {
    pub host: Seq<char>,
    pub port: nat,
    pub protocol: Protocol,
    pub ip_version: IpVersion,
}

impl View for Address {
    type V = AddressView;

    open spec fn view(&self) -> AddressView {
        AddressView {
            host: self.host@,
            port: self.port as nat,
            protocol: self.protocol,
            ip_version: self.ip_version,
        }
    }
}

impl Clone for Address {
    fn clone(&self) -> (copy: Self)
        ensures
            copy@ == self@,
    {
        Address {
            host: self.host.clone(),
            port: self.port,
            protocol: self.protocol,
            ip_version: self.ip_version,
        }
    }
}

/// The character for a decimal digit.
pub open spec fn digit_char(d: nat) -> char {
    ('0' as nat + d) as char
}

/// Decimal notation of a number, without leading zeros.
pub open spec fn decimal(n: nat) -> Seq<char>
    decreases n,
{
    if n < 10 {
        seq![digit_char(n)]
    } else {
        decimal(n / 10).push(digit_char(n % 10))
    }
}

/// Whether `c` is one of `0` to `9`.
pub open spec fn is_digit(c: char) -> bool {
    '0' <= c <= '9'
}

/// The number that a string of decimal digits denotes.
pub open spec fn digits_value(s: Seq<char>) -> nat
    decreases s.len(),
{
    if s.len() == 0 {
        0
    } else {
        (digits_value(s.drop_last()) * 10 + (s.last() as nat - '0' as nat)) as nat
    }
}

/// Canonical text of an address: `/ipv4/`, then `/ipv6/` for an IPv6
/// address, the host, `/tcp/` or `/udp/`, and the port in decimal.
pub open spec fn canonical_text(a: AddressView) -> Seq<char> {
    seq!['/', 'i', 'p', 'v', '4', '/']
        + (if a.ip_version == IpVersion::V6 {
            seq!['/', 'i', 'p', 'v', '6', '/']
        } else {
            Seq::<char>::empty()
        })
        + a.host
        + (if a.protocol == Protocol::Tcp {
            seq!['/', 't', 'c', 'p', '/']
        } else {
            seq!['/', 'u', 'd', 'p', '/']
        })
        + decimal(a.port)
}

/// Text to bind a socket at: the host, a colon, and the port in decimal.
pub open spec fn bind_text(a: AddressView) -> Seq<char> {
    a.host + seq![':'] + decimal(a.port)
}

/// The address that `AddressParser::string_to_object` reads from a text.
/// Nothing is stated of it but that it goes by the text alone (and, as
/// every contract here, by the width of `usize`: a port that does not fit
/// reads as zero).
pub uninterp spec fn parsed_address(text: Seq<char>) -> AddressView;

/// Calls `AddressParser::object_to_string`. Taken on trust from that
/// function's source: it writes `/ipv4/`, then `/ipv6/` if the version is
/// IPv6, the host as it is, `/tcp/` for TCP and `/udp/` for anything else,
/// and the port in decimal.
#[verifier::external_body]
pub(crate) fn canonical_string(addr: &Address) -> (text: String)
    ensures
        text@ == canonical_text(addr@),
{
    let protocol_type = match addr.protocol {
        Protocol::Tcp => ProtocolType::TCP,
        Protocol::Udp => ProtocolType::UDP,
        Protocol::WebSocket => ProtocolType::WEBSOCKET,
    };
    let ip_version = match addr.ip_version {
        IpVersion::V4 => IPAddressVersion::IpV4,
        IpVersion::V6 => IPAddressVersion::IpV6,
    };
    let ip_address = addr.host.clone();
    let object = AddressParser { ip_address, port_no: addr.port, protocol_type, ip_version };
    AddressParser::object_to_string(object)
}

/// Calls `AddressParser::string_to_object`. Taken on trust: it reads an
/// address from a text, going by the text alone, and always returns.
#[verifier::external_body]
pub(crate) fn parse_canonical(text: &String) -> (addr: Address)
    ensures
        addr@ == parsed_address(text@),
{
    let parsed = AddressParser::string_to_object(text.clone());
    let protocol = match parsed.protocol_type {
        ProtocolType::TCP => Protocol::Tcp,
        ProtocolType::UDP => Protocol::Udp,
        ProtocolType::WEBSOCKET => Protocol::WebSocket,
    };
    let ip_version = match parsed.ip_version {
        IPAddressVersion::IpV4 => IpVersion::V4,
        IPAddressVersion::IpV6 => IpVersion::V6,
    };
    Address { host: parsed.ip_address, port: parsed.port_no, protocol, ip_version }
}

/// Calls `AddressParser::local_addr_for_binding`. Taken on trust from that
/// function's source: it writes the host as it is, a colon, and the port in
/// decimal, whatever the protocol and the version are.
#[verifier::external_body]
pub(crate) fn bind_string(addr: &Address) -> (text: String)
    ensures
        text@ == bind_text(addr@),
{
    let protocol_type = match addr.protocol {
        Protocol::Tcp => ProtocolType::TCP,
        Protocol::Udp => ProtocolType::UDP,
        Protocol::WebSocket => ProtocolType::WEBSOCKET,
    };
    let ip_version = match addr.ip_version {
        IpVersion::V4 => IPAddressVersion::IpV4,
        IpVersion::V6 => IPAddressVersion::IpV6,
    };
    let ip_address = addr.host.clone();
    let object = AddressParser { ip_address, port_no: addr.port, protocol_type, ip_version };
    AddressParser::local_addr_for_binding(object)
}

/// Position of the first colon of `s` at or after `from`, or `s.len()`
/// when there is none.
pub open spec fn colon_from(s: Seq<char>, from: int) -> int
    decreases s.len() - from,
{
    if from < 0 || from >= s.len() {
        s.len() as int
    } else if s[from] == ':' {
        from
    } else {
        colon_from(s, from + 1)
    }
}

/// The part of a socket endpoint text before its first colon.
pub open spec fn host_part(s: Seq<char>) -> Seq<char> {
    s.subrange(0, colon_from(s, 0))
}

/// The part of a socket endpoint text between its first colon and the
/// next one, or the end of the text.
pub open spec fn port_part(s: Seq<char>) -> Seq<char> {
    s.subrange(colon_from(s, 0) + 1, colon_from(s, colon_from(s, 0) + 1))
}

/// A number text without its optional leading plus sign.
pub open spec fn unsigned(s: Seq<char>) -> Seq<char> {
    if s.len() > 0 && s[0] == '+' {
        s.drop_first()
    } else {
        s
    }
}

/// Whether every character of `s` is a decimal digit.
pub open spec fn all_digits(s: Seq<char>) -> bool {
    forall|i: int| 0 <= i < s.len() ==> is_digit(#[trigger] s[i])
}

/// Whether `s` is read as a port number: an optional plus sign, then at
/// least one decimal digit, denoting a number that fits in `usize`.
pub open spec fn is_port_text(s: Seq<char>) -> bool {
    &&& unsigned(s).len() > 0
    &&& all_digits(unsigned(s))
    &&& digits_value(unsigned(s)) <= usize::MAX
}

/// Whether `s` has the form `host:port` of a socket endpoint: it holds a
/// colon, and what follows the first colon, up to the next, is a port number.
pub open spec fn is_socket_text(s: Seq<char>) -> bool {
    &&& colon_from(s, 0) < s.len()
    &&& is_port_text(port_part(s))
}

/// The address named by a socket endpoint text.
pub open spec fn endpoint_address(
    s: Seq<char>,
    protocol: Protocol,
    ip_version: IpVersion,
) -> AddressView {
    AddressView {
        host: host_part(s),
        port: digits_value(unsigned(port_part(s))),
        protocol,
        ip_version,
    }
}

/// Display text of a peer whose socket endpoint text is `s`.
pub open spec fn display_text(s: Seq<char>, protocol: Protocol, ip_version: IpVersion) -> Seq<
    char,
> {
    canonical_text(endpoint_address(s, protocol, ip_version))
}

/// Calls `AddressParser::binding_addr_to_string`. Taken on trust from
/// that function's source: it splits the text at its colons, takes the
/// first piece as the host, reads the second piece as a `usize` the way
/// `str::parse` does (an optional plus sign, then decimal digits), and
/// writes the canonical text of that address. It panics when the text has
/// no colon or the second piece is no such number; `is_socket_text` leaves
/// those texts out.
#[verifier::external_body]
pub(crate) fn display_string(remote: &str, protocol: Protocol, ip_version: IpVersion) -> (text:
    String)
    requires
        is_socket_text(remote@),
    ensures
        text@ == display_text(remote@, protocol, ip_version),
{
    let protocol_type = match protocol {
        Protocol::Tcp => ProtocolType::TCP,
        Protocol::Udp => ProtocolType::UDP,
        Protocol::WebSocket => ProtocolType::WEBSOCKET,
    };
    let version = match ip_version {
        IpVersion::V4 => IPAddressVersion::IpV4,
        IpVersion::V6 => IPAddressVersion::IpV6,
    };
    AddressParser::binding_addr_to_string(remote.to_string(), protocol_type, version)
}

/// Reading more digits never makes the number smaller.
pub proof fn lemma_digits_value_grows(s: Seq<char>, k: int)
    requires
        all_digits(s),
        0 <= k <= s.len(),
    ensures
        digits_value(s.take(k)) <= digits_value(s),
    decreases s.len() - k,
{
    if k < s.len() {
        lemma_digits_value_grows(s.drop_last(), k);
        assert(s.drop_last().take(k) =~= s.take(k));
        assert(is_digit(s.last()));
    } else {
        assert(s.take(k) =~= s);
    }
}

fn find_colon(s: &str, from: usize, len: usize) -> (at: usize)
    requires
        len == s@.len(),
        from <= len,
    ensures
        at == colon_from(s@, from as int),
        from <= at <= len,
{
    let mut i: usize = from;
    while i < len && s.get_char(i) != ':'
        invariant
            from <= i <= len,
            len == s@.len(),
            colon_from(s@, from as int) == colon_from(s@, i as int),
        decreases len - i,
    {
        i = i + 1;
    }
    i
}

fn port_text_ok(s: &str, from: usize, to: usize) -> (ok: bool)
    requires
        from <= to <= s@.len(),
    ensures
        ok == is_port_text(s@.subrange(from as int, to as int)),
{
    let ghost piece = s@.subrange(from as int, to as int);
    let mut start: usize = from;
    if start < to && s.get_char(start) == '+' {
        start = start + 1;
    }
    let ghost digits = s@.subrange(start as int, to as int);
    assert(digits =~= unsigned(piece)) by {
        if start == from && from < to {
            assert(piece[0] == s@[from as int]);
        }
    }
    if start >= to {
        return false;
    }
    let mut value: usize = 0;
    let mut i: usize = start;
    while i < to
        invariant
            from <= start <= i <= to <= s@.len(),
            digits == s@.subrange(start as int, to as int),
            digits == unsigned(s@.subrange(from as int, to as int)),
            all_digits(digits.take(i - start)),
            value == digits_value(digits.take(i - start)),
        decreases to - i,
    {
        let c: char = s.get_char(i);
        assert(c == digits[i - start]);
        if c < '0' || c > '9' {
            assert(!is_digit(digits[i - start]));
            return false;
        }
        let d: usize = (c as usize) - ('0' as usize);
        proof {
            let next = digits.take(i - start + 1);
            assert(next.drop_last() =~= digits.take(i - start));
            assert(next.last() == c);
            assert(all_digits(next)) by {
                assert forall|j: int| 0 <= j < next.len() implies is_digit(#[trigger] next[j]) by {
                    if j < i - start {
                        assert(next[j] == digits.take(i - start)[j]);
                    }
                }
            }
            assert(digits_value(next) == value * 10 + d);
            if all_digits(digits) {
                lemma_digits_value_grows(digits, i - start + 1);
            }
        }
        if value > (usize::MAX - d) / 10 {
            return false;
        }
        value = value * 10 + d;
        i = i + 1;
    }
    assert(digits.take(i - start) =~= digits);
    true
}

/// The display text of a peer, from the text of its socket endpoint
/// (`host:port`), or `None` when the text is no socket endpoint.
pub fn peer_display(remote: &str, protocol: Protocol, ip_version: IpVersion) -> (shown: Option<
    String,
>)
    ensures
        shown is Some <==> is_socket_text(remote@),
        shown matches Some(text) ==> text@ == display_text(remote@, protocol, ip_version),
{
    let len: usize = remote.unicode_len();
    let first: usize = find_colon(remote, 0, len);
    if first >= len {
        return None;
    }
    let second: usize = find_colon(remote, first + 1, len);
    if !port_text_ok(remote, first + 1, second) {
        return None;
    }
    Some(display_string(remote, protocol, ip_version))
}

} // verus!

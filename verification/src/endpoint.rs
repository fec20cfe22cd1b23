//! Where the notification server is: its host, its port, whether to use TLS,
//! and the address to connect to.
use vstd::prelude::*;
use vstd::string::StrSliceExecFns;

use crate::error::Error;

verus! {

/// Seconds the client waits after a session ends before it connects again;
/// it does so after every session, however it ended.
pub const RECONNECT_DELAY_SECS: u64 = 10;

/// The port used when the setting names none, or one that is not a number.
pub const DEFAULT_PORT: u16 = 80;

/// True of the ASCII decimal digits.
pub open spec fn is_digit(c: char) -> bool {
    '0' <= c && c <= '9'
}

/// True when every character of `d` is a decimal digit.
pub open spec fn all_digits(d: Seq<char>) -> bool {
    forall|i: int| 0 <= i < d.len() ==> is_digit(#[trigger] d[i])
}

/// The number that the decimal digits `d` write (0 for no digits).
pub open spec fn decimal_value(d: Seq<char>) -> nat
    decreases d.len(),
{
    if d.len() == 0 {
        0
    } else {
        (decimal_value(d.drop_last()) * 10 + (d.last() as int - 48)) as nat
    }
}

/// The value of `u16`'s `FromStr` on `t`: an optional `+`, then one or more
/// decimal digits writing a number that fits in 16 bits.
pub open spec fn u16_from_text(t: Seq<char>) -> Option<u16> {
    let digits = if t.len() > 0 && t[0] == '+' {
        t.drop_first()
    } else {
        t
    };
    if digits.len() > 0 && all_digits(digits) && decimal_value(digits) <= 65535 {
        Some(decimal_value(digits) as u16)
    } else {
        None
    }
}

/// Appending digits never makes a decimal number smaller.
pub proof fn lemma_decimal_prefix_le(d: Seq<char>, k: int)
    requires
        all_digits(d),
        0 <= k <= d.len(),
    ensures
        decimal_value(d.take(k)) <= decimal_value(d),
    decreases d.len(),
{
    if k < d.len() {
        let shorter = d.drop_last();
        assert(shorter.take(k) =~= d.take(k));
        assert(all_digits(shorter)) by {
            assert forall|i: int| 0 <= i < shorter.len() implies is_digit(#[trigger] shorter[i]) by {
                assert(shorter[i] == d[i]);
            }
        }
        lemma_decimal_prefix_le(shorter, k);
    } else {
        assert(d.take(k) =~= d);
    }
}

/// Parses a port number the way `u16`'s `FromStr` does.
pub fn parse_u16(t: &str) -> (r: Option<u16>)
    ensures
        r == u16_from_text(t@),
{
    let len: usize = t.unicode_len();
    let start: usize = if len > 0 && t.get_char(0) == '+' { 1 } else { 0 };
    let ghost digits = if t@.len() > 0 && t@[0] == '+' {
        t@.drop_first()
    } else {
        t@
    };
    assert(digits =~= t@.subrange(start as int, len as int));
    if start == len {
        return None;
    }
    let mut value: u32 = 0;
    let mut i: usize = start;
    while i < len
        invariant
            start <= i <= len,
            len == t@.len(),
            digits =~= t@.subrange(start as int, len as int),
            digits == (if t@.len() > 0 && t@[0] == '+' {
                t@.drop_first()
            } else {
                t@
            }),
            all_digits(digits.take(i - start)),
            value as int == decimal_value(digits.take(i - start)),
            value <= 65535,
        decreases len - i,
    {
        let c = t.get_char(i);
        if !('0' <= c && c <= '9') {
            assert(digits[i - start] == c);
            assert(!all_digits(digits));
            return None;
        }
        let next: u32 = value * 10 + (c as u32 - 48);
        proof {
            let prefix = digits.take(i + 1 - start);
            assert(prefix.drop_last() =~= digits.take(i - start));
            assert(prefix.last() == c);
            assert(all_digits(prefix)) by {
                assert forall|j: int| 0 <= j < prefix.len() implies is_digit(#[trigger] prefix[j]) by {
                    if j < prefix.len() - 1 {
                        assert(prefix[j] == digits.take(i - start)[j]);
                    }
                }
            }
        }
        if next > 65535 {
            proof {
                if all_digits(digits) {
                    lemma_decimal_prefix_le(digits, i + 1 - start);
                }
            }
            return None;
        }
        value = next;
        i = i + 1;
    }
    assert(digits.take(len - start) =~= digits);
    Some(value as u16)
}

/// The first position at or after `k` that holds `c`, if any.
pub open spec fn index_of_char(s: Seq<char>, c: char, k: int) -> Option<int>
    decreases s.len() - k,
{
    if k < 0 || k >= s.len() {
        None
    } else if s[k] == c {
        Some(k)
    } else {
        index_of_char(s, c, k + 1)
    }
}

/// `index_of_char` gives the least position at or after `k` that holds the character.
pub proof fn lemma_index_of_char(s: Seq<char>, c: char, k: int)
    requires
        0 <= k,
    ensures
        match index_of_char(s, c, k) {
            Some(i) => k <= i < s.len() && s[i] == c && forall|j: int| k <= j < i ==> s[j] != c,
            None => forall|j: int| k <= j < s.len() ==> s[j] != c,
        },
    decreases s.len() - k,
{
    if k < s.len() && s[k] != c {
        lemma_index_of_char(s, c, k + 1);
    }
}

fn find_char(s: &str, c: char, from: usize) -> (r: usize)
    requires
        from <= s@.len(),
    ensures
        from <= r <= s@.len(),
        match index_of_char(s@, c, from as int) {
            Some(i) => r == i && i < s@.len(),
            None => r == s@.len(),
        },
{
    proof {
        lemma_index_of_char(s@, c, from as int);
    }
    let len: usize = s.unicode_len();
    let mut k: usize = from;
    while k < len
        invariant
            from <= k <= len,
            len == s@.len(),
            index_of_char(s@, c, from as int) == index_of_char(s@, c, k as int),
        decreases len - k,
    {
        if s.get_char(k) == c {
            return k;
        }
        k = k + 1;
    }
    k
}

/// The host part of a `host:port` setting: the text before the first `:`, or all of it.
pub open spec fn host_part(setting: Seq<char>) -> Seq<char> {
    match index_of_char(setting, ':', 0) {
        Some(i) => setting.subrange(0, i),
        None => setting,
    }
}

/// The port part of a `host:port` setting: the text between the first `:` and
/// the next one (or the end), if there is a `:`.
pub open spec fn port_part(setting: Seq<char>) -> Option<Seq<char>> {
    match index_of_char(setting, ':', 0) {
        None => None,
        Some(i) => match index_of_char(setting, ':', i + 1) {
            Some(j) => Some(setting.subrange(i + 1, j)),
            None => Some(setting.subrange(i + 1, setting.len() as int)),
        },
    }
}

/// The port a `host:port` setting asks for: its port part as a number, else `DEFAULT_PORT`.
pub open spec fn port_of(setting: Seq<char>) -> u16 {
    match port_part(setting) {
        Some(p) => match u16_from_text(p) {
            Some(v) => v,
            None => DEFAULT_PORT,
        },
        None => DEFAULT_PORT,
    }
}

/// How to reach the notification server.
pub struct ConnectionConfig {
    pub hostname: String,
    pub port: u16,
    pub use_tls: bool,
}

impl ConnectionConfig {
    /// Reads the `host:port` setting and the TLS switch, which is on only when it is `true`.
    pub fn parse(host_with_port: &str, use_tls: &str) -> (r: Self)
        ensures
            r.hostname@ == host_part(host_with_port@),
            r.port == port_of(host_with_port@),
            r.use_tls <==> use_tls@ == seq!['t', 'r', 'u', 'e'],
    {
        let len: usize = host_with_port.unicode_len();
        let colon: usize = find_char(host_with_port, ':', 0);
        let hostname = host_with_port.substring_char(0, colon);
        let mut port: u16 = DEFAULT_PORT;
        if colon < len {
            let end: usize = find_char(host_with_port, ':', colon + 1);
            let segment = host_with_port.substring_char(colon + 1, end);
            assert(index_of_char(host_with_port@, ':', 0) == Some(colon as int));
            assert(port_part(host_with_port@) == Some(segment@));
            if let Some(p) = parse_u16(segment) {
                port = p;
            }
        } else {
            assert(hostname@ =~= host_with_port@);
        }
        let flag_len: usize = use_tls.unicode_len();
        let tls: bool = flag_len == 4 && use_tls.get_char(0) == 't' && use_tls.get_char(1) == 'r'
            && use_tls.get_char(2) == 'u' && use_tls.get_char(3) == 'e';
        assert(tls ==> use_tls@ =~= seq!['t', 'r', 'u', 'e']);
        ConnectionConfig { hostname: hostname.to_owned(), port, use_tls: tls }
    }
}

/// True when `t` is the decimal text of the octet `v`: digits only, no
/// leading zero unless the octet is just `0`.
pub open spec fn is_octet_text(t: Seq<char>, v: u8) -> bool {
    &&& t.len() >= 1
    &&& all_digits(t)
    &&& (t.len() > 1 ==> t[0] != '0')
    &&& decimal_value(t) == v
}

/// True when `s` writes the IPv4 address `octets` in dot-decimal notation:
/// four octets in decimal, divided by `.`.
pub open spec fn is_dotted_quad(s: Seq<char>, octets: Seq<u8>) -> bool {
    &&& octets.len() == 4
    &&& exists|a: Seq<char>, b: Seq<char>, c: Seq<char>, d: Seq<char>|
        {
            &&& s == a + seq!['.'] + b + seq!['.'] + c + seq!['.'] + d
            &&& is_octet_text(a, octets[0])
            &&& is_octet_text(b, octets[1])
            &&& is_octet_text(c, octets[2])
            &&& is_octet_text(d, octets[3])
        }
}

/// `str::parse::<embassy_net::Ipv4Address>()`, where that type is
/// `core::net::Ipv4Addr`. Its documentation says the text is the four octets
/// in decimal notation divided by `.`, with octal (leading `0`) and
/// hexadecimal numbers refused; the contract says it parses exactly those.
#[verifier::external_body]
fn ipv4_literal(host: &str) -> (r: Option<[u8; 4]>)
    ensures
        match r {
            Some(a) => is_dotted_quad(host@, a@),
            None => forall|o: Seq<u8>| !is_dotted_quad(host@, o),
        },
{
    match host.parse::<embassy_net::Ipv4Address>() {
        Ok(address) => Some(address.octets()),
        Err(_) => None,
    }
}

/// How to find the server's address.
#[derive(Debug, Clone, Copy)]
pub enum HostLookup {
    /// The host is written as an IPv4 address.
    Address([u8; 4]),
    /// The host is a name to look up in the DNS.
    Dns,
}

/// A host written as an IPv4 address is used as it stands; any other is looked up.
pub fn resolve_host(hostname: &str) -> (r: HostLookup)
    ensures
        match r {
            HostLookup::Address(a) => is_dotted_quad(hostname@, a@),
            HostLookup::Dns => forall|o: Seq<u8>| !is_dotted_quad(hostname@, o),
        },
{
    match ipv4_literal(hostname) {
        Some(address) => HostLookup::Address(address),
        None => HostLookup::Dns,
    }
}

/// The address to use from a DNS answer: the first one. A lookup that failed
/// or timed out (`None`) or that found nothing is a DNS error.
pub fn pick_dns_answer(answer: Option<&[[u8; 4]]>) -> (r: Result<[u8; 4], Error>)
    ensures
        match answer {
            Some(list) => if list@.len() > 0 {
                r == Ok::<[u8; 4], Error>(list@[0])
            } else {
                r == Err::<[u8; 4], Error>(Error::Dns)
            },
            None => r == Err::<[u8; 4], Error>(Error::Dns),
        },
{
    match answer {
        Some(list) => if list.len() > 0 {
            Ok(list[0])
        } else {
            Err(Error::Dns)
        },
        None => Err(Error::Dns),
    }
}

proof fn lemma_index_of_char_at(s: Seq<char>, c: char, k: int, i: int)
    requires
        0 <= k <= i < s.len(),
        s[i] == c,
        forall|j: int| k <= j < i ==> s[j] != c,
    ensures
        index_of_char(s, c, k) == Some(i),
    decreases i - k,
{
    if k < i {
        lemma_index_of_char_at(s, c, k + 1, i);
    }
}

proof fn lemma_index_of_char_absent(s: Seq<char>, c: char, k: int)
    requires
        0 <= k,
        forall|j: int| k <= j < s.len() ==> s[j] != c,
    ensures
        index_of_char(s, c, k) is None,
    decreases s.len() - k,
{
    if k < s.len() {
        lemma_index_of_char_absent(s, c, k + 1);
    }
}

/// In `host:digits`, the host is the text before the colon and the port is the
/// number the decimal digits write, however many digits there are, as long as
/// it fits in 16 bits.
pub proof fn law_port_is_the_written_number(host: Seq<char>, digits: Seq<char>)
    requires
        forall|i: int| 0 <= i < host.len() ==> host[i] != ':',
        digits.len() >= 1,
        forall|i: int| 0 <= i < digits.len() ==> '0' <= #[trigger] digits[i] && digits[i] <= '9',
        decimal_value(digits) <= 65535,
    ensures
        host_part(host + seq![':'] + digits) == host,
        port_of(host + seq![':'] + digits) == decimal_value(digits),
        port_of(host + seq![':', '+'] + digits) == decimal_value(digits),
{
    let s = host + seq![':'] + digits;
    let c = host.len() as int;
    assert(s[c] == ':');
    assert forall|j: int| 0 <= j < c implies s[j] != ':' by {
        assert(s[j] == host[j]);
    }
    lemma_index_of_char_at(s, ':', 0, c);
    assert forall|j: int| c + 1 <= j < s.len() implies s[j] != ':' by {
        assert(s[j] == digits[j - c - 1]);
    }
    lemma_index_of_char_absent(s, ':', c + 1);
    assert(s.subrange(0, c) =~= host);
    assert(s.subrange(c + 1, s.len() as int) =~= digits);
    assert(all_digits(digits));

    let t = host + seq![':', '+'] + digits;
    assert(t[c] == ':');
    assert forall|j: int| 0 <= j < c implies t[j] != ':' by {
        assert(t[j] == host[j]);
    }
    lemma_index_of_char_at(t, ':', 0, c);
    assert forall|j: int| c + 1 <= j < t.len() implies t[j] != ':' by {
        if j > c + 1 {
            assert(t[j] == digits[j - c - 2]);
        }
    }
    lemma_index_of_char_absent(t, ':', c + 1);
    let p = t.subrange(c + 1, t.len() as int);
    assert(p[0] == '+');
    assert(p.drop_first() =~= digits);
}

/// A setting with no colon is all host, and the port is `DEFAULT_PORT` (80);
/// so is the port when the text after the colon is not a number.
pub proof fn law_port_defaults_to_80(setting: Seq<char>)
    ensures
        (forall|i: int| 0 <= i < setting.len() ==> setting[i] != ':') ==> host_part(setting)
            == setting && port_of(setting) == 80,
        port_part(setting) matches Some(p) && u16_from_text(p) is None ==> port_of(setting) == 80,
{
    if forall|i: int| 0 <= i < setting.len() ==> setting[i] != ':' {
        lemma_index_of_char_absent(setting, ':', 0);
    }
}

} // verus!

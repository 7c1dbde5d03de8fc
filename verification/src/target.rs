//! Targets and endpoints. A target is the user-supplied host and port; a
//! resolved target yields one endpoint per IP address, each carrying the
//! server name to present in SNI (the DNS host when the host is a name, the
//! IP literal otherwise).

use vstd::prelude::*;

use crate::error::ErrorReason;
use crate::text::{digit_char, spec_dec_digits, u64_to_dec};

verus! {

/// An IP address as plain values: four octets, or eight 16-bit groups.
#[derive(Clone, Copy, Debug, PartialEq, Eq, Hash, Structural)]
pub enum IpAddress {
    V4(u8, u8, u8, u8),
    V6(u16, u16, u16, u16, u16, u16, u16, u16),
}

/// The name presented in SNI and validated against.
#[derive(Clone, Debug, PartialEq, Eq, Hash)]
pub enum ServerName {
    DnsName(String),
    IpAddress(IpAddress),
}

/// The spec-level shape of a server name.
#[verifier::ext_equal]
pub enum ServerNameV {
    DnsName(Seq<char>),
    IpAddress(IpAddress),
}

impl View for ServerName {
    type V = ServerNameV;

    open spec fn view(&self) -> ServerNameV {
        match self {
            ServerName::DnsName(s) => ServerNameV::DnsName(s@),
            ServerName::IpAddress(ip) => ServerNameV::IpAddress(*ip),
        }
    }
}

/// A user-supplied target: host (DNS name or textual IP) and port.
#[derive(Clone, Debug, Eq, Hash)]
pub struct Target {
    pub host: String,
    pub port: u16,
}

impl View for Target {
    type V = (Seq<char>, u16);

    open spec fn view(&self) -> (Seq<char>, u16) {
        (self.host@, self.port)
    }
}

impl PartialEq for Target {
    fn eq(&self, other: &Target) -> (r: bool) {
        self.host == other.host && self.port == other.port
    }
}

impl vstd::std_specs::cmp::PartialEqSpecImpl for Target {
    open spec fn obeys_eq_spec() -> bool {
        true
    }

    open spec fn eq_spec(&self, other: &Target) -> bool {
        self@ == other@
    }
}

impl Target {
    /// A copy with the same contents.
    pub fn duplicate(&self) -> (r: Target)
        ensures
            r@ == self@,
    {
        Target { host: self.host.clone(), port: self.port }
    }

    /// The `host:port` spelling.
    pub fn display_string(&self) -> (r: String)
        ensures
            r@ == self.host@ + seq![':'] + spec_dec_digits(self.port as nat),
    {
        let mut s = self.host.clone();
        s.append(":");
        let p = u64_to_dec(self.port as u64);
        s.append(p.as_str());
        proof {
            reveal_strlit(":");
        }
        s
    }
}

impl ServerName {
    /// A copy with the same contents.
    pub fn duplicate(&self) -> (r: ServerName)
        ensures
            r@ == self@,
    {
        match self {
            ServerName::DnsName(s) => ServerName::DnsName(s.clone()),
            ServerName::IpAddress(ip) => ServerName::IpAddress(*ip),
        }
    }
}

/// One resolved address of a target, together with the server name.
#[derive(Clone, Debug, PartialEq, Eq, Hash)]
pub struct Endpoint {
    pub ip: IpAddress,
    pub port: u16,
    pub server_name: ServerName,
}

/// The spec-level shape of an endpoint.
#[verifier::ext_equal]
pub struct EndpointV {
    pub ip: IpAddress,
    pub port: u16,
    pub server_name: ServerNameV,
}

impl View for Endpoint {
    type V = EndpointV;

    open spec fn view(&self) -> EndpointV {
        EndpointV { ip: self.ip, port: self.port, server_name: self.server_name@ }
    }
}

/// The dotted-quad rendering of four octets.
pub open spec fn spec_ipv4_chars(a: u8, b: u8, c: u8, d: u8) -> Seq<char> {
    spec_dec_digits(a as nat) + seq!['.'] + spec_dec_digits(b as nat) + seq!['.']
        + spec_dec_digits(c as nat) + seq!['.'] + spec_dec_digits(d as nat)
}

/// The hexadecimal character of one digit value, lower case.
pub open spec fn hex_char(i: int) -> char {
    if i < 10 { digit_char(i) }
    else if i == 10 { 'a' } else if i == 11 { 'b' } else if i == 12 { 'c' }
    else if i == 13 { 'd' } else if i == 14 { 'e' } else { 'f' }
}

/// Lower-case hexadecimal rendering without leading zeros.
pub open spec fn spec_hex_digits(n: nat) -> Seq<char>
    decreases n,
{
    if n < 16 { seq![hex_char(n as int)] } else { spec_hex_digits(n / 16) + seq![hex_char((n % 16) as int)] }
}

/// One hexadecimal digit as a string slice.
fn hex_digit_str(d: u8) -> (r: &'static str)
    requires
        d < 16,
    ensures
        r@ == seq![hex_char(d as int)],
{
    proof {
        reveal_strlit("0"); reveal_strlit("1"); reveal_strlit("2"); reveal_strlit("3");
        reveal_strlit("4"); reveal_strlit("5"); reveal_strlit("6"); reveal_strlit("7");
        reveal_strlit("8"); reveal_strlit("9"); reveal_strlit("a"); reveal_strlit("b");
        reveal_strlit("c"); reveal_strlit("d"); reveal_strlit("e"); reveal_strlit("f");
    }
    match d {
        0 => "0", 1 => "1", 2 => "2", 3 => "3", 4 => "4", 5 => "5", 6 => "6", 7 => "7",
        8 => "8", 9 => "9", 10 => "a", 11 => "b", 12 => "c", 13 => "d", 14 => "e", _ => "f",
    }
}

/// Renders a number in lower-case hexadecimal.
fn u16_to_hex(n: u16) -> (s: String)
    ensures
        s@ == spec_hex_digits(n as nat),
    decreases n,
{
    if n < 16 {
        let d: &str = hex_digit_str(n as u8);
        d.to_owned()
    } else {
        assert(n / 16 < n) by (nonlinear_arith)
            requires n >= 16;
        let mut s = u16_to_hex(n / 16);
        let d: &str = hex_digit_str((n % 16) as u8);
        s.append(d);
        s
    }
}

/// The textual form of an address: dotted quad, or uncompressed lower-case
/// hexadecimal groups joined by `:`.
pub open spec fn spec_ip_chars(ip: IpAddress) -> Seq<char> {
    match ip {
        IpAddress::V4(a, b, c, d) => spec_ipv4_chars(a, b, c, d),
        IpAddress::V6(g0, g1, g2, g3, g4, g5, g6, g7) =>
            spec_hex_digits(g0 as nat) + seq![':'] + spec_hex_digits(g1 as nat) + seq![':']
            + spec_hex_digits(g2 as nat) + seq![':'] + spec_hex_digits(g3 as nat) + seq![':']
            + spec_hex_digits(g4 as nat) + seq![':'] + spec_hex_digits(g5 as nat) + seq![':']
            + spec_hex_digits(g6 as nat) + seq![':'] + spec_hex_digits(g7 as nat),
    }
}

/// The textual form of an endpoint: `address:port`, the address in brackets
/// when it is a v6 one.
pub open spec fn spec_endpoint_chars(e: EndpointV) -> Seq<char> {
    match e.ip {
        IpAddress::V4(_, _, _, _) => spec_ip_chars(e.ip) + seq![':'] + spec_dec_digits(e.port as nat),
        IpAddress::V6(_, _, _, _, _, _, _, _) =>
            seq!['['] + spec_ip_chars(e.ip) + seq![']'] + seq![':'] + spec_dec_digits(e.port as nat),
    }
}

/// Renders an address.
pub fn ip_display_string(ip: &IpAddress) -> (r: String)
    ensures
        r@ == spec_ip_chars(*ip),
{
    proof {
        reveal_strlit(".");
        reveal_strlit(":");
    }
    match ip {
        IpAddress::V4(a, b, c, d) => {
            let mut s = u64_to_dec(*a as u64);
            s.append(".");
            let t = u64_to_dec(*b as u64);
            s.append(t.as_str());
            s.append(".");
            let t = u64_to_dec(*c as u64);
            s.append(t.as_str());
            s.append(".");
            let t = u64_to_dec(*d as u64);
            s.append(t.as_str());
            s
        },
        IpAddress::V6(g0, g1, g2, g3, g4, g5, g6, g7) => {
            let mut s = u16_to_hex(*g0);
            s.append(":");
            let t = u16_to_hex(*g1);
            s.append(t.as_str());
            s.append(":");
            let t = u16_to_hex(*g2);
            s.append(t.as_str());
            s.append(":");
            let t = u16_to_hex(*g3);
            s.append(t.as_str());
            s.append(":");
            let t = u16_to_hex(*g4);
            s.append(t.as_str());
            s.append(":");
            let t = u16_to_hex(*g5);
            s.append(t.as_str());
            s.append(":");
            let t = u16_to_hex(*g6);
            s.append(t.as_str());
            s.append(":");
            let t = u16_to_hex(*g7);
            s.append(t.as_str());
            s
        },
    }
}

impl Endpoint {
    /// The resolved address.
    pub fn address(&self) -> (r: IpAddress)
        ensures
            r == self.ip,
    {
        self.ip
    }

    /// The port probed.
    pub fn port(&self) -> (r: u16)
        ensures
            r == self.port,
    {
        self.port
    }

    /// A copy with the same contents.
    pub fn duplicate(&self) -> (r: Endpoint)
        ensures
            r@ == self@,
    {
        Endpoint { ip: self.ip, port: self.port, server_name: self.server_name.duplicate() }
    }

    /// The `address:port` spelling used as a metric label.
    pub fn display_string(&self) -> (r: String)
        ensures
            r@ == spec_endpoint_chars(self@),
    {
        proof {
            reveal_strlit("[");
            reveal_strlit("]");
            reveal_strlit(":");
        }
        let addr = ip_display_string(&self.ip);
        let mut s = match &self.ip {
            IpAddress::V4(_, _, _, _) => addr,
            IpAddress::V6(_, _, _, _, _, _, _, _) => {
                let mut t = "[".to_owned();
                t.append(addr.as_str());
                t.append("]");
                t
            },
        };
        s.append(":");
        let p = u64_to_dec(self.port as u64);
        s.append(p.as_str());
        s
    }
}


/// Whether a character is a decimal digit.
pub open spec fn spec_is_digit(c: char) -> bool {
    '0' <= c <= '9'
}

/// The value of a decimal digit.
pub open spec fn spec_digit_val(c: char) -> int {
    c as int - '0' as int
}

/// The number a digit string denotes, most significant digit first.
pub open spec fn spec_dec_val(s: Seq<char>) -> int
    decreases s.len(),
{
    if s.len() == 0 { 0 } else { spec_dec_val(s.drop_last()) * 10 + spec_digit_val(s.last()) }
}

/// The same fold, saturated at one hundred thousand; what the bounded
/// accumulator of the parser computes.
pub open spec fn spec_clamped_val(s: Seq<char>) -> int
    decreases s.len(),
{
    if s.len() == 0 {
        0
    } else {
        let v = spec_clamped_val(s.drop_last()) * 10 + spec_digit_val(s.last());
        if v > 100000 { 100000 } else { v }
    }
}

/// The saturated fold is the true value below the saturation point.
proof fn lemma_clamped_val(s: Seq<char>)
    requires
        forall|i: int| 0 <= i < s.len() ==> spec_is_digit(#[trigger] s[i]),
    ensures
        spec_clamped_val(s) == if spec_dec_val(s) <= 100000 { spec_dec_val(s) } else { 100000 },
        spec_dec_val(s) >= 0,
    decreases s.len(),
{
    if s.len() > 0 {
        assert(forall|i: int| 0 <= i < s.len() - 1 ==> #[trigger] s.drop_last()[i] == s[i]);
        lemma_clamped_val(s.drop_last());
        assert(spec_is_digit(s.last()));
    }
}

/// All characters of a string are digits.
pub open spec fn spec_all_digits(s: Seq<char>) -> bool {
    forall|i: int| 0 <= i < s.len() ==> spec_is_digit(#[trigger] s[i])
}

/// The port a digit string denotes: digits only, nonempty, at most 65535.
pub open spec fn spec_parse_port(s: Seq<char>) -> Option<u16> {
    if s.len() >= 1 && spec_all_digits(s) && spec_dec_val(s) <= 65535 {
        Some(spec_dec_val(s) as u16)
    } else {
        None
    }
}

/// Parses a port number.
#[verifier::loop_isolation(false)]
pub fn parse_port(s: &str) -> (r: Option<u16>)
    ensures
        r == spec_parse_port(s@),
{
    let n: usize = s.unicode_len();
    if n == 0 {
        return None;
    }
    let mut acc: u32 = 0;
    for i in 0..n
        invariant
            n == s@.len(),
            spec_all_digits(s@.take(i as int)),
            acc == spec_clamped_val(s@.take(i as int)),
            acc <= 100000,
    {
        let c = s.get_char(i);
        if !('0' <= c && c <= '9') {
            return None;
        }
        let d: u32 = c as u32 - '0' as u32;
        acc = acc * 10 + d;
        if acc > 100000 {
            acc = 100000;
        }
        proof {
            assert(s@.take(i + 1).drop_last() =~= s@.take(i as int));
            assert(s@.take(i + 1).last() == s@[i as int]);
        }
    }
    proof {
        assert(s@.take(n as int) =~= s@);
        lemma_clamped_val(s@);
    }
    if acc <= 65535 {
        Some(acc as u16)
    } else {
        None
    }
}

/// The index of the rightmost `:` of a string, or a negative number when
/// there is none.
pub open spec fn spec_last_colon(s: Seq<char>) -> int
    decreases s.len(),
{
    if s.len() == 0 {
        -1
    } else if s.last() == ':' {
        s.len() - 1
    } else {
        spec_last_colon(s.drop_last())
    }
}

/// The rightmost colon is the one nothing follows.
proof fn lemma_last_colon_at(s: Seq<char>, k: int)
    requires
        0 <= k < s.len(),
        s[k] == ':',
        forall|l: int| k < l < s.len() ==> s[l] != ':',
    ensures
        spec_last_colon(s) == k,
    decreases s.len(),
{
    if k == s.len() - 1 {
    } else {
        assert(forall|i: int| 0 <= i < s.len() - 1 ==> #[trigger] s.drop_last()[i] == s[i]);
        lemma_last_colon_at(s.drop_last(), k);
    }
}

/// A string without a colon has no rightmost one.
proof fn lemma_no_colon(s: Seq<char>)
    requires
        forall|l: int| 0 <= l < s.len() ==> s[l] != ':',
    ensures
        spec_last_colon(s) == -1,
    decreases s.len(),
{
    if s.len() > 0 {
        assert(forall|i: int| 0 <= i < s.len() - 1 ==> #[trigger] s.drop_last()[i] == s[i]);
        lemma_no_colon(s.drop_last());
    }
}

/// The host and port of a `host:port` spelling: the rightmost colon
/// splits, and the part after it must be a port number.
pub open spec fn spec_parse_target(s: Seq<char>) -> Option<(Seq<char>, u16)> {
    let i = spec_last_colon(s);
    if i < 0 {
        None
    } else {
        match spec_parse_port(s.skip(i + 1)) {
            Some(p) => Some((s.take(i), p)),
            None => None,
        }
    }
}

impl Target {
    /// Parses a user-supplied `host:port` spelling; rejects one without a
    /// colon or with a malformed port as an invalid endpoint.
    #[verifier::loop_isolation(false)]
    pub fn from_str(s: &str) -> (r: Result<Target, ErrorReason>)
        ensures
            r matches Ok(t) ==> spec_parse_target(s@) == Some((t.host@, t.port)),
            r is Err <==> spec_parse_target(s@) is None,
            r matches Err(e) ==> e matches ErrorReason::InvalidEndpoint,
    {
        let n: usize = s.unicode_len();
        let mut colon: Option<usize> = None;
        let mut j: usize = n;
        while j > 0
            invariant
                n == s@.len(),
                j <= n,
                colon is None ==> forall|l: int| j <= l < n ==> s@[l] != ':',
                colon matches Some(k) ==> k < n && s@[k as int] == ':'
                    && (forall|l: int| k < l < n ==> s@[l] != ':'),
                colon is Some ==> j == 0,
            decreases j,
        {
            j = j - 1;
            if s.get_char(j) == ':' {
                colon = Some(j);
                proof {
                    lemma_last_colon_at(s@, j as int);
                }
                j = 0;
            }
        }
        let k = match colon {
            Some(k) => {
                proof {
                    lemma_last_colon_at(s@, k as int);
                }
                k
            },
            None => {
                proof {
                    lemma_no_colon(s@);
                }
                return Err(ErrorReason::InvalidEndpoint);
            },
        };
        let host = s.substring_char(0, k);
        let port_part = s.substring_char(k + 1, n);
        proof {
            assert(host@ =~= s@.take(k as int));
            assert(port_part@ =~= s@.skip(k + 1));
        }
        match parse_port(port_part) {
            Some(port) => Ok(Target { host: host.to_owned(), port }),
            None => Err(ErrorReason::InvalidEndpoint),
        }
    }
}

/// Splits a string at every `.`: the parts between the separators, in
/// order, empty parts kept.
pub open spec fn spec_split_dots(s: Seq<char>) -> Seq<Seq<char>>
    decreases s.len(),
{
    if s.len() == 0 {
        seq![Seq::empty()]
    } else {
        let rest = spec_split_dots(s.drop_first());
        if s.first() == '.' {
            seq![Seq::<char>::empty()] + rest
        } else {
            seq![seq![s.first()] + rest.first()] + rest.drop_first()
        }
    }
}

/// The split always yields at least one part.
proof fn lemma_split_dots_len(s: Seq<char>)
    ensures
        spec_split_dots(s).len() >= 1,
    decreases s.len(),
{
    if s.len() > 0 {
        lemma_split_dots_len(s.drop_first());
    }
}

/// Splits the characters from position `p` on at every `.`.
fn split_dots_from(v: &Vec<char>, p: usize) -> (parts: Vec<Vec<char>>)
    requires
        p <= v@.len(),
    ensures
        parts@.len() >= 1,
        Seq::new(parts@.len(), |i: int| parts@[i]@) == spec_split_dots(v@.skip(p as int)),
    decreases v@.len() - p@,
{
    proof {
        lemma_split_dots_len(v@.skip(p as int));
    }
    if p == v.len() {
        let mut parts: Vec<Vec<char>> = Vec::new();
        parts.push(Vec::new());
        proof {
            assert(v@.skip(p as int) =~= Seq::<char>::empty());
            assert(Seq::new(parts@.len(), |i: int| parts@[i]@)
                =~~= spec_split_dots(v@.skip(p as int)));
        }
        parts
    } else {
        let mut parts = split_dots_from(v, p + 1);
        let ghost s = v@.skip(p as int);
        proof {
            assert(s.len() > 0);
            assert(s.first() == v@[p as int]);
            assert(s.drop_first() =~= v@.skip(p + 1));
        }
        let c = v[p];
        if c == '.' {
            parts.insert(0, Vec::new());
            proof {
                assert(Seq::new(parts@.len(), |i: int| parts@[i]@)
                    =~~= spec_split_dots(s));
            }
        } else {
            let ghost before = parts@;
            let first_part = &mut parts[0];
            first_part.insert(0, c);
            proof {
                assert(parts@ =~= before.update(0, parts@[0]));
                assert(parts@[0]@ =~= seq![s.first()] + spec_split_dots(s.drop_first()).first());
                assert(Seq::new(parts@.len(), |i: int| parts@[i]@)
                    =~~= spec_split_dots(s));
            }
        }
        parts
    }
}

/// The octet a dotted-quad part denotes: digits only, nonempty, no
/// leading zero, at most 255.
pub open spec fn spec_parse_octet(s: Seq<char>) -> Option<u8> {
    if s.len() >= 1 && spec_all_digits(s) && (s[0] != '0' || s.len() == 1)
        && spec_dec_val(s) <= 255 {
        Some(spec_dec_val(s) as u8)
    } else {
        None
    }
}

/// Parses one dotted-quad part.
#[verifier::loop_isolation(false)]
fn parse_octet(v: &Vec<char>) -> (r: Option<u8>)
    ensures
        r == spec_parse_octet(v@),
{
    let n: usize = v.len();
    if n == 0 {
        return None;
    }
    if v[0] == '0' && n > 1 {
        return None;
    }
    let mut acc: u32 = 0;
    for i in 0..n
        invariant
            n == v@.len(),
            spec_all_digits(v@.take(i as int)),
            acc == spec_clamped_val(v@.take(i as int)),
            acc <= 100000,
    {
        let c = v[i];
        if !('0' <= c && c <= '9') {
            return None;
        }
        let d: u32 = c as u32 - '0' as u32;
        acc = acc * 10 + d;
        if acc > 100000 {
            acc = 100000;
        }
        proof {
            assert(v@.take(i + 1).drop_last() =~= v@.take(i as int));
            assert(v@.take(i + 1).last() == v@[i as int]);
        }
    }
    proof {
        assert(v@.take(n as int) =~= v@);
        lemma_clamped_val(v@);
    }
    if acc <= 255 {
        Some(acc as u8)
    } else {
        None
    }
}

/// The IPv4 address a dotted-quad string denotes: exactly four parts,
/// each a valid octet.
pub open spec fn spec_parse_ipv4(s: Seq<char>) -> Option<(u8, u8, u8, u8)> {
    let parts = spec_split_dots(s);
    if parts.len() == 4 {
        match (spec_parse_octet(parts[0]), spec_parse_octet(parts[1]),
               spec_parse_octet(parts[2]), spec_parse_octet(parts[3])) {
            (Some(a), Some(b), Some(c), Some(d)) => Some((a, b, c, d)),
            _ => None,
        }
    } else {
        None
    }
}

/// Parses an IPv4 literal.
pub fn parse_ipv4(s: &str) -> (r: Option<(u8, u8, u8, u8)>)
    ensures
        r == spec_parse_ipv4(s@),
{
    let n: usize = s.unicode_len();
    let mut v: Vec<char> = Vec::new();
    for i in 0..n
        invariant
            n == s@.len(),
            v@ == s@.take(i as int),
    {
        v.push(s.get_char(i));
        proof {
            assert(v@ =~= s@.take(i + 1));
        }
    }
    proof {
        assert(v@ =~= s@);
        assert(v@.skip(0) =~= v@);
    }
    let parts = split_dots_from(&v, 0);
    if parts.len() != 4 {
        return None;
    }
    let a = parse_octet(&parts[0]);
    let b = parse_octet(&parts[1]);
    let c = parse_octet(&parts[2]);
    let d = parse_octet(&parts[3]);
    match (a, b, c, d) {
        (Some(a), Some(b), Some(c), Some(d)) => Some((a, b, c, d)),
        _ => None,
    }
}

/// Whether a host is acceptable as a TLS server name; a function of the
/// characters alone.
pub uninterp spec fn spec_server_name_ok(host: Seq<char>) -> bool;

/// Relies on `rustls_pki_types::ServerName::try_from(&str)`: whether the
/// host parses as a DNS name or IP address for SNI purposes.
#[verifier::external_body]
fn server_name_acceptable(host: &str) -> (r: bool)
    ensures
        r == spec_server_name_ok(host@),
{
    rustls_pki_types::ServerName::try_from(host).is_ok()
}

/// Expands a target into endpoints. An IPv4-literal host yields exactly
/// one endpoint whose server name is that address, whatever was resolved;
/// a named host yields one endpoint per resolved address, all presenting
/// the DNS name. A host that is no acceptable server name is an invalid
/// endpoint; a named host with no resolved addresses resolves to nothing.
#[verifier::loop_isolation(false)]
pub fn plan_endpoints(target: &Target, resolved_ips: &Vec<IpAddress>) -> (r: Result<Vec<Endpoint>, ErrorReason>)
    ensures
        spec_parse_ipv4(target.host@) matches Some(q) ==> (r matches Ok(eps)
            && eps@.len() == 1
            && eps@[0]@ == (EndpointV {
                ip: IpAddress::V4(q.0, q.1, q.2, q.3),
                port: target.port,
                server_name: ServerNameV::IpAddress(IpAddress::V4(q.0, q.1, q.2, q.3)),
            })),
        spec_parse_ipv4(target.host@) is None && !spec_server_name_ok(target.host@)
            ==> r == Err::<Vec<Endpoint>, ErrorReason>(ErrorReason::InvalidEndpoint),
        spec_parse_ipv4(target.host@) is None && spec_server_name_ok(target.host@)
            && resolved_ips@.len() == 0
            ==> r == Err::<Vec<Endpoint>, ErrorReason>(ErrorReason::ResolveEmpty),
        spec_parse_ipv4(target.host@) is None && spec_server_name_ok(target.host@)
            && resolved_ips@.len() > 0
            ==> (r matches Ok(eps) && eps@.len() == resolved_ips@.len()
                && forall|i: int| 0 <= i < eps@.len() ==> (#[trigger] eps@[i])@ == (EndpointV {
                    ip: resolved_ips@[i],
                    port: target.port,
                    server_name: ServerNameV::DnsName(target.host@),
                })),
{
    if let Some((a, b, c, d)) = parse_ipv4(target.host.as_str()) {
        let ip = IpAddress::V4(a, b, c, d);
        let mut eps: Vec<Endpoint> = Vec::new();
        eps.push(Endpoint { ip, port: target.port, server_name: ServerName::IpAddress(ip) });
        return Ok(eps);
    }
    if !server_name_acceptable(target.host.as_str()) {
        return Err(ErrorReason::InvalidEndpoint);
    }
    if resolved_ips.len() == 0 {
        return Err(ErrorReason::ResolveEmpty);
    }
    let mut eps: Vec<Endpoint> = Vec::new();
    let n: usize = resolved_ips.len();
    for i in 0..n
        invariant
            n == resolved_ips@.len(),
            eps@.len() == i,
            forall|j: int| 0 <= j < i ==> (#[trigger] eps@[j])@ == (EndpointV {
                ip: resolved_ips@[j],
                port: target.port,
                server_name: ServerNameV::DnsName(target.host@),
            }),
    {
        eps.push(Endpoint {
            ip: resolved_ips[i],
            port: target.port,
            server_name: ServerName::DnsName(target.host.clone()),
        });
    }
    Ok(eps)
}

} // verus!

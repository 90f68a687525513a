use vstd::prelude::*;
use crate::config::{IpRulesConfig, IpRulesMode};
use crate::balancer::RouteState;
use crate::proxy::{route_overrides, select_route};
use crate::router::{header_text, Headers};
use crate::text::chars_of;
use crate::text::string_from_chars;

verus! {

/// An IP address: IPv4 as its 32-bit number, IPv6 as its 128-bit number.
#[derive(Clone, Copy, Debug, PartialEq, Eq, Structural)]
pub enum Ip {
    V4(u32),
    V6(u128),
}

/// A network in CIDR notation: the address as written and the prefix length.
#[derive(Clone, Copy, Debug, PartialEq, Eq, Structural)]
pub enum Cidr {
    V4 { addr: u32, prefix: u8 },
    V6 { addr: u128, prefix: u8 },
}

impl Cidr {
    /// The prefix fits the address family (at most 32 bits for IPv4, 128 for IPv6).
    pub open spec fn wf(self) -> bool {
        match self {
            Cidr::V4 { prefix, .. } => prefix <= 32,
            Cidr::V6 { prefix, .. } => prefix <= 128,
        }
    }
}

/// The IPv4 netmask of a prefix: its top `prefix` bits set.
pub open spec fn v4_mask(prefix: u8) -> u32 {
    (!(0xffff_ffffu64 >> prefix)) as u32
}

/// The IPv6 netmask of a prefix: its top `prefix` bits set.
pub open spec fn v6_mask(prefix: u8) -> u128 {
    if prefix == 0 {
        0u128
    } else {
        (u128::MAX << ((128 - prefix) as u8)) as u128
    }
}

/// A network contains an address of its own family whose masked bits equal those of
/// the network address.
pub open spec fn cidr_contains(net: Cidr, ip: Ip) -> bool {
    match (net, ip) {
        (Cidr::V4 { addr, prefix }, Ip::V4(a)) => (a & v4_mask(prefix)) == (addr & v4_mask(prefix)),
        (Cidr::V6 { addr, prefix }, Ip::V6(a)) => (a & v6_mask(prefix)) == (addr & v6_mask(prefix)),
        _ => false,
    }
}

impl Cidr {
    /// Does this network contain `ip`? Addresses of the other family are never contained.
    pub fn contains(&self, ip: Ip) -> (r: bool)
        requires
            self.wf(),
        ensures
            r == cidr_contains(*self, ip),
    {
        match (*self, ip) {
            (Cidr::V4 { addr, prefix }, Ip::V4(a)) => {
                let mask = (!(0xffff_ffffu64 >> prefix)) as u32;
                (a & mask) == (addr & mask)
            },
            (Cidr::V6 { addr, prefix }, Ip::V6(a)) => {
                let mask: u128 = if prefix == 0 {
                    0
                } else {
                    u128::MAX << (128 - prefix)
                };
                (a & mask) == (addr & mask)
            },
            _ => false,
        }
    }
}

/// An IPv4 network of prefix length `p` contains exactly the IPv4 addresses whose top
/// `p` bits are those of the network address (with `p == 0`, every IPv4 address).
pub proof fn law_v4_network_is_prefix_match(addr: u32, prefix: u8, a: u32)
    requires
        prefix <= 32,
    ensures
        cidr_contains((Cidr::V4 { addr: addr, prefix: prefix }), Ip::V4(a))
            == (((a as u64) >> ((32 - prefix) as u64)) == ((addr as u64) >> ((32 - prefix) as u64))),
{
    let s: u64 = (32 - prefix) as u64;
    assert((((a & ((!(0xffff_ffffu64 >> prefix)) as u32)) == (addr & ((!(0xffff_ffffu64 >> prefix)) as u32)))
        == (((a as u64) >> s) == ((addr as u64) >> s)))) by (bit_vector)
        requires
            prefix <= 32,
            s == 32 - prefix,
    ;
}

/// An IPv6 network of prefix length `p > 0` contains exactly the IPv6 addresses whose
/// top `p` bits are those of the network address; one of prefix length 0 contains every
/// IPv6 address.
pub proof fn law_v6_network_is_prefix_match(addr: u128, prefix: u8, a: u128)
    requires
        prefix <= 128,
    ensures
        prefix == 0 ==> cidr_contains((Cidr::V6 { addr: addr, prefix: prefix }), Ip::V6(a)),
        prefix > 0 ==> (cidr_contains((Cidr::V6 { addr: addr, prefix: prefix }), Ip::V6(a))
            == ((a >> ((128 - prefix) as u8)) == (addr >> ((128 - prefix) as u8)))),
{
    if prefix == 0 {
        assert((a & 0u128) == (addr & 0u128)) by (bit_vector);
    } else {
        let s: u8 = (128 - prefix) as u8;
        assert((a & (u128::MAX << s)) == ((a >> s) << s)) by (bit_vector)
            requires
                s < 128,
        ;
        assert((addr & (u128::MAX << s)) == ((addr >> s) << s)) by (bit_vector)
            requires
                s < 128,
        ;
        assert((((a >> s) << s) >> s) == (a >> s)) by (bit_vector)
            requires
                s < 128,
        ;
        assert((((addr >> s) << s) >> s) == (addr >> s)) by (bit_vector)
            requires
                s < 128,
        ;
    }
}

/// What `IpNetwork::from_str` yields for a string, as a `Cidr`.
pub uninterp spec fn cidr_parse(s: Seq<char>) -> Option<Cidr>;

/// Parses a network with `ipnetwork`'s `IpNetwork::from_str` (IPv4 first, then IPv6;
/// a missing prefix means a single address). `IpNetwork` holds the prefix only when it
/// fits the family, which the contract states.
#[verifier::external_body]
fn parse_network(s: &str) -> (r: Option<Cidr>)
    ensures
        r == cidr_parse(s@),
        r matches Some(c) ==> c.wf(),
{
    match s.parse::<ipnetwork::IpNetwork>() {
        Ok(ipnetwork::IpNetwork::V4(n)) => Some(Cidr::V4 { addr: u32::from(n.ip()), prefix: n.prefix() }),
        Ok(ipnetwork::IpNetwork::V6(n)) => Some(Cidr::V6 { addr: u128::from(n.ip()), prefix: n.prefix() }),
        Err(_) => None,
    }
}

/// The address a string denotes: a string without `/` that `IpNetwork::from_str` reads
/// as a single-address network (IPv4 with prefix 32, IPv6 with prefix 128). For such
/// strings `IpNetwork::from_str` tries `Ipv4Addr::from_str`, then `Ipv6Addr::from_str`,
/// exactly as `IpAddr::from_str` does.
pub open spec fn ip_parse(s: Seq<char>) -> Option<Ip> {
    if s.contains('/') {
        None
    } else {
        match cidr_parse(s) {
            Some(Cidr::V4 { addr, .. }) => Some(Ip::V4(addr)),
            Some(Cidr::V6 { addr, .. }) => Some(Ip::V6(addr)),
            None => None,
        }
    }
}

/// Parses an IPv4 or IPv6 address.
pub fn parse_ip(s: &str) -> (r: Option<Ip>)
    ensures
        r == ip_parse(s@),
{
    let cs = chars_of(s);
    let mut i: usize = 0;
    while i < cs.len()
        invariant
            i <= cs@.len(),
            cs@ == s@,
            forall|k: int| 0 <= k < i ==> cs@[k] != '/',
        decreases cs@.len() - i,
    {
        if cs[i] == '/' {
            proof {
                assert(s@[i as int] == '/');
            }
            return None;
        }
        i = i + 1;
    }
    proof {
        if s@.contains('/') {
            let k = choose|k: int| 0 <= k < s@.len() && s@[k] == '/';
            assert(cs@[k] != '/');
        }
    }
    match parse_network(s) {
        Some(Cidr::V4 { addr, .. }) => Some(Ip::V4(addr)),
        Some(Cidr::V6 { addr, .. }) => Some(Ip::V6(addr)),
        None => None,
    }
}

/// White space as `char::is_whitespace` (and so `str::trim`) defines it: the characters
/// with the Unicode `White_Space` property.
pub open spec fn is_white_space(c: char) -> bool {
    ||| ('\t' <= c && c <= '\r')
    ||| c == ' '
    ||| c == '\u{85}'
    ||| c == '\u{A0}'
    ||| c == '\u{1680}'
    ||| ('\u{2000}' <= c && c <= '\u{200A}')
    ||| c == '\u{2028}'
    ||| c == '\u{2029}'
    ||| c == '\u{202F}'
    ||| c == '\u{205F}'
    ||| c == '\u{3000}'
}

/// `s` without its leading white space.
pub open spec fn trimmed_start(s: Seq<char>) -> Seq<char>
    decreases s.len(),
{
    if s.len() > 0 && is_white_space(s[0]) {
        trimmed_start(s.drop_first())
    } else {
        s
    }
}

/// `s` without its trailing white space.
pub open spec fn trimmed_end(s: Seq<char>) -> Seq<char>
    decreases s.len(),
{
    if s.len() > 0 && is_white_space(s.last()) {
        trimmed_end(s.drop_last())
    } else {
        s
    }
}

/// `s` without leading and trailing white space, as `str::trim` returns it.
pub open spec fn trimmed(s: Seq<char>) -> Seq<char> {
    trimmed_end(trimmed_start(s))
}

fn white_space(c: char) -> (r: bool)
    ensures
        r == is_white_space(c),
{
    ('\t' <= c && c <= '\r') || c == ' ' || c == '\u{85}' || c == '\u{A0}' || c == '\u{1680}'
        || ('\u{2000}' <= c && c <= '\u{200A}') || c == '\u{2028}' || c == '\u{2029}' || c == '\u{202F}'
        || c == '\u{205F}' || c == '\u{3000}'
}

/// The string without leading and trailing white space.
fn trim(s: &str) -> (r: String)
    ensures
        r@ == trimmed(s@),
{
    let cs = chars_of(s);
    let mut start: usize = 0;
    proof {
        assert(cs@.skip(0) =~= cs@);
    }
    while start < cs.len() && white_space(cs[start])
        invariant
            start <= cs@.len(),
            cs@ == s@,
            trimmed_start(cs@) == trimmed_start(cs@.skip(start as int)),
        decreases cs@.len() - start,
    {
        proof {
            assert(cs@.skip(start as int).drop_first() =~= cs@.skip(start + 1));
        }
        start = start + 1;
    }
    proof {
        if start == cs@.len() {
            assert(cs@.skip(start as int) =~= Seq::<char>::empty());
        }
        assert(cs@.subrange(start as int, cs@.len() as int) =~= cs@.skip(start as int));
    }
    let mut end: usize = cs.len();
    while end > start && white_space(cs[end - 1])
        invariant
            start <= end <= cs@.len(),
            cs@ == s@,
            trimmed_start(cs@) == cs@.skip(start as int),
            trimmed_end(cs@.subrange(start as int, end as int)) == trimmed(s@),
        decreases end,
    {
        proof {
            assert(cs@.subrange(start as int, end as int).drop_last() =~= cs@.subrange(start as int, end - 1));
        }
        end = end - 1;
    }
    string_from_chars(&cs, start, end)
}

/// The networks among `cidrs` that parse, in order; the others are left out.
pub open spec fn parsed_networks(cidrs: Seq<Seq<char>>) -> Seq<Cidr>
    decreases cidrs.len(),
{
    if cidrs.len() == 0 {
        Seq::empty()
    } else {
        let prev = parsed_networks(cidrs.drop_last());
        match cidr_parse(cidrs.last()) {
            Some(c) => prev.push(c),
            None => prev,
        }
    }
}

/// The views of a sequence of strings.
pub open spec fn string_views(v: Seq<String>) -> Seq<Seq<char>> {
    v.map_values(|s: String| s@)
}

/// Parsed IP rules: the mode and the networks that parsed.
pub struct IpRules {
    pub mode: IpRulesMode,
    pub networks: Vec<Cidr>,
}

/// Does any of the networks contain `ip`?
pub open spec fn any_contains(networks: Seq<Cidr>, ip: Ip) -> bool {
    exists|i: int| 0 <= i < networks.len() && cidr_contains(#[trigger] networks[i], ip)
}

/// The decision of a rule set: an allowlist lets through exactly the contained
/// addresses, a denylist exactly the others.
pub open spec fn rules_allow(mode: IpRulesMode, networks: Seq<Cidr>, ip: Ip) -> bool {
    match mode {
        IpRulesMode::Allowlist => any_contains(networks, ip),
        IpRulesMode::Denylist => !any_contains(networks, ip),
    }
}

impl IpRules {
    /// Every network has a prefix that fits its family.
    pub open spec fn wf(&self) -> bool {
        forall|i: int| 0 <= i < self.networks@.len() ==> (#[trigger] self.networks@[i]).wf()
    }

    /// Builds rules from the configuration; entries that do not parse as CIDR are skipped.
    pub fn from_config(cfg: &IpRulesConfig) -> (r: IpRules)
        ensures
            r.mode == cfg.mode,
            r.networks@ == parsed_networks(string_views(cfg.cidrs@)),
            r.wf(),
    {
        let mut networks: Vec<Cidr> = Vec::new();
        let mut i: usize = 0;
        while i < cfg.cidrs.len()
            invariant
                i <= cfg.cidrs@.len(),
                networks@ == parsed_networks(string_views(cfg.cidrs@).take(i as int)),
                forall|k: int| 0 <= k < networks@.len() ==> (#[trigger] networks@[k]).wf(),
            decreases cfg.cidrs@.len() - i,
        {
            proof {
                assert(string_views(cfg.cidrs@).take(i + 1).drop_last() =~= string_views(cfg.cidrs@).take(i as int));
                assert(string_views(cfg.cidrs@).take(i + 1).last() == cfg.cidrs@[i as int]@);
            }
            match parse_network(cfg.cidrs[i].as_str()) {
                Some(c) => networks.push(c),
                None => {},
            }
            i = i + 1;
        }
        proof {
            assert(string_views(cfg.cidrs@).take(cfg.cidrs@.len() as int) =~= string_views(cfg.cidrs@));
        }
        IpRules { mode: cfg.mode, networks }
    }

    /// Does any of the networks contain `ip`?
    fn any_network_contains(&self, ip: Ip) -> (r: bool)
        requires
            self.wf(),
        ensures
            r == any_contains(self.networks@, ip),
    {
        let mut i: usize = 0;
        while i < self.networks.len()
            invariant
                i <= self.networks@.len(),
                self.wf(),
                forall|k: int| 0 <= k < i ==> !cidr_contains(#[trigger] self.networks@[k], ip),
            decreases self.networks@.len() - i,
        {
            if self.networks[i].contains(ip) {
                return true;
            }
            i = i + 1;
        }
        false
    }

    /// Whether the rules let `ip` through.
    pub fn is_allowed(&self, ip: Ip) -> (r: bool)
        requires
            self.wf(),
        ensures
            r == rules_allow(self.mode, self.networks@, ip),
    {
        let matched = self.any_network_contains(ip);
        match self.mode {
            IpRulesMode::Allowlist => matched,
            IpRulesMode::Denylist => !matched,
        }
    }
}

/// An IPv4-mapped IPv6 address (`::ffff:a.b.c.d`) as the IPv4 address it carries;
/// every other address unchanged.
pub open spec fn normalized(ip: Ip) -> Ip {
    match ip {
        Ip::V6(a) => if (a >> 32u128) == 0xffffu128 {
            Ip::V4((a & 0xffff_ffffu128) as u32)
        } else {
            ip
        },
        Ip::V4(_) => ip,
    }
}

/// Turns an IPv4-mapped IPv6 address into IPv4, as `Ipv6Addr::to_ipv4_mapped` does.
pub fn normalize(ip: Ip) -> (r: Ip)
    ensures
        r == normalized(ip),
{
    match ip {
        Ip::V6(a) => if (a >> 32u128) == 0xffffu128 {
            Ip::V4((a & 0xffff_ffffu128) as u32)
        } else {
            ip
        },
        Ip::V4(_) => ip,
    }
}

/// An IPv4 address written as `::ffff:a.b.c.d` is treated as `a.b.c.d`.
pub proof fn law_mapped_address_is_ipv4(a: u32)
    ensures
        normalized(Ip::V6(0xffff_0000_0000u128 | (a as u128))) == Ip::V4(a),
{
    let x: u128 = 0xffff_0000_0000u128 | (a as u128);
    assert((x >> 32u128) == 0xffffu128) by (bit_vector)
        requires
            x == 0xffff_0000_0000u128 | (a as u128),
            a <= 0xffff_ffffu32,
    ;
    assert(((x & 0xffff_ffffu128) as u32) == a) by (bit_vector)
        requires
            x == 0xffff_0000_0000u128 | (a as u128),
    ;
}

/// For the same networks, an allowlist and a denylist decide every address oppositely.
pub proof fn law_allowlist_denylist_complement(networks: Seq<Cidr>, ip: Ip)
    ensures
        rules_allow(IpRulesMode::Allowlist, networks, ip) == !rules_allow(IpRulesMode::Denylist, networks, ip),
{
}

/// The text before the first occurrence of `c` (all of `s` when there is none), which
/// is what `s.split(c).next()` yields.
pub open spec fn before_first(s: Seq<char>, c: char) -> Seq<char>
    decreases s.len(),
{
    if s.len() == 0 {
        s
    } else if s[0] == c {
        Seq::empty()
    } else {
        seq![s[0]] + before_first(s.drop_first(), c)
    }
}

proof fn lemma_before_first(s: Seq<char>, c: char, end: int)
    requires
        0 <= end <= s.len(),
        forall|k: int| 0 <= k < end ==> s[k] != c,
        end == s.len() || s[end] == c,
    ensures
        before_first(s, c) == s.take(end),
    decreases s.len(),
{
    if s.len() == 0 {
    } else if s[0] == c {
        assert(end == 0);
        assert(s.take(0) =~= Seq::<char>::empty());
    } else {
        lemma_before_first(s.drop_first(), c, end - 1);
        assert(seq![s[0]] + s.drop_first().take(end - 1) =~= s.take(end));
    }
}

/// `s.split(c).next()`: the text before the first `c`.
pub fn split_first(s: &str, c: char) -> (r: String)
    ensures
        r@ == before_first(s@, c),
{
    let cs = chars_of(s);
    let mut end: usize = 0;
    while end < cs.len() && cs[end] != c
        invariant
            end <= cs@.len(),
            cs@ == s@,
            forall|k: int| 0 <= k < end ==> cs@[k] != c,
        decreases cs@.len() - end,
    {
        end = end + 1;
    }
    proof {
        lemma_before_first(cs@, c, end as int);
        assert(cs@.subrange(0, end as int) =~= cs@.take(end as int));
    }
    string_from_chars(&cs, 0, end)
}

/// The client address that `X-Forwarded-For` names: the first comma-separated entry,
/// trimmed, when it parses as an address.
pub open spec fn forwarded_ip(headers: Seq<crate::router::HeaderEntry>) -> Option<Ip> {
    match header_text(headers, "x-forwarded-for"@) {
        Some(v) => ip_parse(trimmed(before_first(v, ','))),
        None => None,
    }
}

/// Reads the client address from `X-Forwarded-For`.
pub fn forwarded_client_ip(headers: &Headers) -> (r: Option<Ip>)
    ensures
        r == forwarded_ip(headers.entries@),
{
    match headers.text("x-forwarded-for") {
        Some(v) => {
            let first = split_first(v.as_str(), ',');
            let t = trim(first.as_str());
            parse_ip(t.as_str())
        },
        None => None,
    }
}

/// What the IP filter does with a request.
#[derive(Clone, Copy, Debug, PartialEq, Eq, Structural)]
pub enum FilterOutcome {
    /// The request goes on.
    Pass,
    /// The address is not allowed (403).
    Forbidden,
    /// No client address could be determined (500).
    NoClientIp,
}

/// The decision of the IP filter for a request.
pub open spec fn filter_decision(
    rules: Option<(IpRulesMode, Seq<Cidr>)>,
    headers: Seq<crate::router::HeaderEntry>,
    socket_ip: Option<Ip>,
) -> FilterOutcome {
    match rules {
        None => FilterOutcome::Pass,
        Some((mode, networks)) => {
            let client = match forwarded_ip(headers) {
                Some(ip) => Some(ip),
                None => socket_ip,
            };
            match client {
                None => FilterOutcome::NoClientIp,
                Some(ip) => if rules_allow(mode, networks, normalized(ip)) {
                    FilterOutcome::Pass
                } else {
                    FilterOutcome::Forbidden
                },
            }
        },
    }
}

/// The rules as a pair of mode and networks.
pub open spec fn rules_view(rules: Option<IpRules>) -> Option<(IpRulesMode, Seq<Cidr>)> {
    match rules {
        Some(r) => Some((r.mode, r.networks@)),
        None => None,
    }
}

/// The global IP filter. A request whose route has IP rules of its own is left to them,
/// as per-route rules override the global ones. Otherwise, without global rules every
/// request passes; with them the client is the first `X-Forwarded-For` entry, else the
/// socket peer, and IPv4-mapped IPv6 addresses are taken as IPv4 before the rules decide.
pub fn ip_filter(
    rules: &Option<IpRules>,
    routes: &Vec<RouteState>,
    path: &str,
    headers: &Headers,
    socket_ip: Option<Ip>,
) -> (r: FilterOutcome)
    requires
        rules matches Some(rs) ==> rs.wf(),
    ensures
        r == if route_overrides(routes@, path@, headers.entries@) {
            FilterOutcome::Pass
        } else {
            filter_decision(rules_view(*rules), headers.entries@, socket_ip)
        },
{
    let overridden = match select_route(routes, path, headers) {
        Some(i) => routes[i].ip_rules.is_some(),
        None => false,
    };
    if overridden {
        return FilterOutcome::Pass;
    }
    match rules {
        None => FilterOutcome::Pass,
        Some(rs) => {
            let client = match forwarded_client_ip(headers) {
                Some(ip) => Some(ip),
                None => socket_ip,
            };
            match client {
                None => FilterOutcome::NoClientIp,
                Some(ip) => {
                    let ip = normalize(ip);
                    if rs.is_allowed(ip) {
                        FilterOutcome::Pass
                    } else {
                        FilterOutcome::Forbidden
                    }
                },
            }
        },
    }
}

} // verus!

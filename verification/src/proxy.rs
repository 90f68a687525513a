use vstd::prelude::*;
use crate::balancer::{next_counter, opt_view, pick, GateWayState, RouteState};
use crate::config::{BalancingMode, SplitGroupConfig};
use crate::dashboard::{find_backend, find_backend_index, BackendInfo, DashboardState, RequestLog};
use crate::middleware::ip_rules::{ip_parse, normalize, normalized, parse_ip, rules_allow, Ip, IpRules};
use crate::rate_limiter::{bucket_of, ip_key, window_step};
use crate::router::{header_text, match_route, path_condition, header_condition, views, Headers};
use crate::text::chars_of;
use rand::RngExt;

verus! {

/// A request the gateway answers itself, with `status` and `message`.
#[derive(Debug)]
pub struct Rejection {
    pub status: u16,
    pub message: String,
}

/// Index of the first route whose path and header conditions the request meets.
pub open spec fn first_matching_route(routes: Seq<RouteState>, path: Seq<char>, headers: Seq<crate::router::HeaderEntry>) -> Option<int>
    decreases routes.len(),
{
    if routes.len() == 0 {
        None
    } else {
        match first_matching_route(routes.drop_last(), path, headers) {
            Some(i) => Some(i),
            None => if path_condition(routes.last().config, path) && header_condition(routes.last().config, headers) {
                Some(routes.len() - 1)
            } else {
                None
            },
        }
    }
}

/// Does the route of a request carry IP rules of its own?
pub open spec fn route_overrides(routes: Seq<RouteState>, path: Seq<char>, headers: Seq<crate::router::HeaderEntry>) -> bool {
    match first_matching_route(routes, path, headers) {
        Some(i) => routes[i].ip_rules is Some,
        None => false,
    }
}

/// Picks the route of a request: the first one, in configuration order, whose
/// conditions hold.
pub fn select_route(routes: &Vec<RouteState>, path: &str, headers: &Headers) -> (r: Option<usize>)
    ensures
        match r {
            Some(i) => i < routes@.len() && first_matching_route(routes@, path@, headers.entries@) == Some(i as int),
            None => first_matching_route(routes@, path@, headers.entries@) is None,
        },
{
    let mut i: usize = 0;
    while i < routes.len()
        invariant
            i <= routes@.len(),
            first_matching_route(routes@.take(i as int), path@, headers.entries@) is None,
        decreases routes@.len() - i,
    {
        proof {
            assert(routes@.take(i + 1).drop_last() =~= routes@.take(i as int));
        }
        if match_route(&routes[i].config, path, headers) {
            proof {
                lemma_first_matching_prefix(routes@, path@, headers.entries@, i as int);
            }
            return Some(i);
        }
        i = i + 1;
    }
    proof {
        assert(routes@.take(routes@.len() as int) =~= routes@);
    }
    None
}

proof fn lemma_first_matching_prefix(routes: Seq<RouteState>, path: Seq<char>, headers: Seq<crate::router::HeaderEntry>, i: int)
    requires
        0 <= i < routes.len(),
        first_matching_route(routes.take(i), path, headers) is None,
        path_condition(routes[i].config, path) && header_condition(routes[i].config, headers),
    ensures
        first_matching_route(routes, path, headers) == Some(i),
    decreases routes.len(),
{
    if i == routes.len() - 1 {
        assert(routes.drop_last() =~= routes.take(i));
    } else {
        assert(routes.drop_last().take(i) =~= routes.take(i));
        lemma_first_matching_prefix(routes.drop_last(), path, headers, i);
    }
}

/// Is every character an ASCII digit?
pub open spec fn all_digits(s: Seq<char>) -> bool {
    forall|i: int| 0 <= i < s.len() ==> '0' <= #[trigger] s[i] <= '9'
}

/// The number a string of ASCII digits denotes.
pub open spec fn digits_value(s: Seq<char>) -> nat
    decreases s.len(),
{
    if s.len() == 0 {
        0
    } else {
        digits_value(s.drop_last()) * 10 + ((s.last() as u32) - ('0' as u32)) as nat
    }
}

/// What `str::parse::<usize>` accepts: an optional `+`, then at least one ASCII digit,
/// denoting a number that fits in `usize`.
pub open spec fn usize_parse(s: Seq<char>) -> Option<usize> {
    let d = if s.len() > 0 && s[0] == '+' { s.drop_first() } else { s };
    if d.len() > 0 && all_digits(d) && digits_value(d) <= usize::MAX {
        Some(digits_value(d) as usize)
    } else {
        None
    }
}

proof fn lemma_digits_value_grows(s: Seq<char>, k: int)
    requires
        0 <= k <= s.len(),
        all_digits(s),
    ensures
        digits_value(s.take(k)) <= digits_value(s),
    decreases s.len() - k,
{
    if k < s.len() {
        lemma_digits_value_grows(s, k + 1);
        assert(s.take(k + 1).drop_last() =~= s.take(k));
        assert(s.take(k + 1).last() == s[k]);
        assert(digits_value(s.take(k)) <= digits_value(s.take(k + 1))) by (nonlinear_arith)
            requires
                digits_value(s.take(k + 1)) == digits_value(s.take(k)) * 10 + ((s[k] as u32) - ('0' as u32)) as nat,
        ;
    } else {
        assert(s.take(k) =~= s);
    }
}

/// Parses a decimal `usize` as `str::parse::<usize>` does.
pub fn parse_usize(s: &str) -> (r: Option<usize>)
    ensures
        r == usize_parse(s@),
{
    let cs = chars_of(s);
    let start: usize = if cs.len() > 0 && cs[0] == '+' { 1 } else { 0 };
    let ghost d = if s@.len() > 0 && s@[0] == '+' { s@.drop_first() } else { s@ };
    proof {
        assert(cs@.skip(start as int) =~= d);
    }
    if start >= cs.len() {
        proof {
            assert(d.len() == 0);
            assert(usize_parse(s@) is None);
        }
        return None;
    }
    let mut value: usize = 0;
    let mut i: usize = start;
    while i < cs.len()
        invariant
            start <= i <= cs@.len(),
            cs@ == s@,
            d == (if s@.len() > 0 && s@[0] == '+' { s@.drop_first() } else { s@ }),
            cs@.skip(start as int) == d,
            all_digits(d.take(i - start)),
            value as nat == digits_value(d.take(i - start)),
        decreases cs@.len() - i,
    {
        let c = cs[i];
        proof {
            assert(d.take(i - start + 1).drop_last() =~= d.take(i - start));
            assert(d[i - start] == c);
        }
        if c < '0' || c > '9' {
            proof {
                assert(!all_digits(d));
            }
            return None;
        }
        let digit: usize = (c as u32 - '0' as u32) as usize;
        if value > (usize::MAX - digit) / 10 {
            proof {
                assert(value * 10 + digit > usize::MAX) by (nonlinear_arith)
                    requires
                        value > (usize::MAX - digit) / 10,
                        digit <= 9,
                ;
                assert(all_digits(d.take(i - start + 1)));
                assert(digits_value(d.take(i - start + 1)) == value * 10 + digit);
                if all_digits(d) {
                    lemma_digits_value_grows(d, i - start + 1);
                    assert(digits_value(d) > usize::MAX);
                }
                assert(usize_parse(s@) is None);
            }
            return None;
        }
        proof {
            assert(value * 10 + digit <= usize::MAX) by (nonlinear_arith)
                requires
                    value <= (usize::MAX - digit) / 10,
                    digit <= 9,
            ;
        }
        value = value * 10 + digit;
        i = i + 1;
        proof {
            assert(all_digits(d.take(i - start)));
        }
    }
    proof {
        assert(d.take(cs@.len() - start) =~= d);
    }
    Some(value)
}

/// Does the request announce a body larger than the limit? Only a `Content-Length`
/// that parses counts.
pub open spec fn announced_too_large(max: Option<usize>, headers: Seq<crate::router::HeaderEntry>) -> bool {
    match max {
        Some(m) => match header_text(headers, "content-length"@) {
            Some(v) => match usize_parse(v) {
                Some(cl) => cl > m,
                None => false,
            },
            None => false,
        },
        None => false,
    }
}

/// Checks the announced body size against the configured limit.
pub fn body_too_large(max: Option<usize>, headers: &Headers) -> (r: bool)
    ensures
        r == announced_too_large(max, headers.entries@),
{
    match max {
        Some(m) => match headers.text("content-length") {
            Some(v) => match parse_usize(v.as_str()) {
                Some(cl) => cl > m,
                None => false,
            },
            None => false,
        },
        None => false,
    }
}

/// The client address text the proxy works with: the whole `X-Forwarded-For` value,
/// or the empty string.
pub fn client_ip_text(headers: &Headers) -> (r: String)
    ensures
        r@ == match header_text(headers.entries@, "x-forwarded-for"@) {
            Some(v) => v,
            None => Seq::<char>::empty(),
        },
{
    match headers.text("x-forwarded-for") {
        Some(v) => v,
        None => String::new(),
    }
}

/// The sum of the split weights.
pub open spec fn split_total(groups: Seq<SplitGroupConfig>) -> nat
    decreases groups.len(),
{
    if groups.len() == 0 {
        0
    } else {
        split_total(groups.drop_last()) + groups.last().weight as nat
    }
}

/// The group a roll lands in: the first whose running total of weights exceeds the roll.
pub open spec fn chosen_group(groups: Seq<SplitGroupConfig>, roll: int) -> int
    decreases groups.len(),
{
    if groups.len() == 0 {
        0
    } else if roll < groups[0].weight {
        0
    } else {
        1 + chosen_group(groups.drop_first(), roll - groups[0].weight)
    }
}

/// A split the proxy can serve: weights add up to a positive `u32`, and every group
/// with weight has backends.
pub open spec fn split_servable(groups: Seq<SplitGroupConfig>) -> bool {
    &&& 0 < split_total(groups) <= u32::MAX
    &&& forall|i: int| 0 <= i < groups.len() && (#[trigger] groups[i]).weight > 0 ==> groups[i].backends@.len() > 0
}

proof fn lemma_split_total_front(groups: Seq<SplitGroupConfig>)
    requires
        groups.len() > 0,
    ensures
        split_total(groups) == groups[0].weight + split_total(groups.drop_first()),
    decreases groups.len(),
{
    if groups.len() > 1 {
        let a = groups.drop_last();
        lemma_split_total_front(a);
        assert(groups.drop_first().drop_last() =~= a.drop_first());
        assert(groups.drop_first().last() == groups.last());
        assert(a[0] == groups[0]);
        assert(split_total(groups) == split_total(a) + groups.last().weight);
        assert(split_total(a) == a[0].weight + split_total(a.drop_first()));
        assert(split_total(groups.drop_first()) == split_total(groups.drop_first().drop_last()) + groups.drop_first().last().weight);
    } else {
        assert(groups.drop_first().len() == 0);
        assert(groups.drop_last().len() == 0);
        assert(groups.last() == groups[0]);
        assert(split_total(groups.drop_first()) == 0);
        assert(split_total(groups.drop_last()) == 0);
        assert(split_total(groups) == split_total(groups.drop_last()) + groups.last().weight);
    }
}

proof fn lemma_chosen_group(groups: Seq<SplitGroupConfig>, roll: int)
    requires
        0 <= roll < split_total(groups),
    ensures
        0 <= chosen_group(groups, roll) < groups.len(),
        groups[chosen_group(groups, roll)].weight > 0,
    decreases groups.len(),
{
    if groups.len() == 0 {
    } else {
        lemma_split_total_front(groups);
        if roll >= groups[0].weight {
            lemma_chosen_group(groups.drop_first(), roll - groups[0].weight);
        }
    }
}

/// `rand::rng().random_range(0..n)`: a random number below `n` (the range must be
/// non-empty, or the call panics).
#[verifier::external_body]
fn random_below(n: u32) -> (r: u32)
    requires
        n > 0,
    ensures
        r < n,
{
    rand::rng().random_range(0..n)
}

/// How many of the rolls `lo..hi` select group `g`.
pub open spec fn rolls_for(groups: Seq<SplitGroupConfig>, g: int, lo: int, hi: int) -> nat
    decreases hi - lo,
{
    if hi <= lo {
        0
    } else {
        rolls_for(groups, g, lo, hi - 1) + if chosen_group(groups, hi - 1) == g { 1nat } else { 0nat }
    }
}

proof fn lemma_chosen_group_nonneg(groups: Seq<SplitGroupConfig>, roll: int)
    ensures
        chosen_group(groups, roll) >= 0,
    decreases groups.len(),
{
    if groups.len() > 0 && roll >= groups[0].weight {
        lemma_chosen_group_nonneg(groups.drop_first(), roll - groups[0].weight);
    }
}

proof fn lemma_rolls_split(groups: Seq<SplitGroupConfig>, g: int, lo: int, mid: int, hi: int)
    requires
        lo <= mid <= hi,
    ensures
        rolls_for(groups, g, lo, hi) == rolls_for(groups, g, lo, mid) + rolls_for(groups, g, mid, hi),
    decreases hi - mid,
{
    if mid < hi {
        lemma_rolls_split(groups, g, lo, mid, hi - 1);
    }
}

proof fn lemma_rolls_first_group(groups: Seq<SplitGroupConfig>, g: int, hi: int)
    requires
        groups.len() > 0,
        0 <= hi <= groups[0].weight,
    ensures
        rolls_for(groups, g, 0, hi) == if g == 0 { hi as nat } else { 0nat },
    decreases hi,
{
    if hi > 0 {
        lemma_rolls_first_group(groups, g, hi - 1);
    }
}

proof fn lemma_rolls_shift(groups: Seq<SplitGroupConfig>, g: int, lo: int, hi: int)
    requires
        groups.len() > 0,
        groups[0].weight <= lo <= hi,
    ensures
        rolls_for(groups, g, lo, hi) == if g >= 1 {
            rolls_for(groups.drop_first(), g - 1, lo - groups[0].weight, hi - groups[0].weight)
        } else {
            0nat
        },
    decreases hi - lo,
{
    let w = groups[0].weight as int;
    if lo < hi {
        lemma_rolls_shift(groups, g, lo, hi - 1);
        lemma_chosen_group_nonneg(groups.drop_first(), hi - 1 - w);
        assert(chosen_group(groups, hi - 1) == 1 + chosen_group(groups.drop_first(), hi - 1 - w));
    }
}

/// Canary splits share traffic by weight: of the `split_total` equally likely rolls,
/// exactly `weight` select each group.
pub proof fn law_split_share(groups: Seq<SplitGroupConfig>, g: int)
    requires
        0 <= g < groups.len(),
    ensures
        rolls_for(groups, g, 0, split_total(groups) as int) == groups[g].weight,
    decreases groups.len(),
{
    let w = groups[0].weight as int;
    let total = split_total(groups) as int;
    lemma_split_total_front(groups);
    lemma_rolls_split(groups, g, 0, w, total);
    lemma_rolls_first_group(groups, g, w);
    lemma_rolls_shift(groups, g, w, total);
    if g >= 1 {
        law_split_share(groups.drop_first(), g - 1);
    }
}

/// The group of a split that a roll selects.
pub fn pick_split_group(groups: &Vec<SplitGroupConfig>, roll: u32) -> (r: usize)
    requires
        roll < split_total(groups@),
        split_total(groups@) <= u32::MAX,
    ensures
        r == chosen_group(groups@, roll as int),
        r < groups@.len(),
        groups@[r as int].weight > 0,
{
    proof {
        lemma_chosen_group(groups@, roll as int);
    }
    let mut cumulative: u32 = 0;
    let mut i: usize = 0;
    let n = groups.len();
    proof {
        assert(groups@.skip(0) =~= groups@);
        assert(groups@.take(0) =~= Seq::<SplitGroupConfig>::empty());
    }
    loop
        invariant
            n == groups@.len(),
            i < groups@.len(),
            cumulative as int == split_total(groups@.take(i as int)),
            roll >= cumulative,
            chosen_group(groups@, roll as int) == i + chosen_group(groups@.skip(i as int), roll - cumulative),
            roll < split_total(groups@),
            split_total(groups@) <= u32::MAX,
            0 <= chosen_group(groups@, roll as int) < groups@.len(),
            groups@[chosen_group(groups@, roll as int)].weight > 0,
        decreases groups@.len() - i,
    {
        proof {
            lemma_split_total_prefix(groups@, i as int);
            assert(groups@.skip(i as int)[0] == groups@[i as int]);
        }
        cumulative = cumulative + groups[i].weight;
        if roll < cumulative {
            return i;
        }
        proof {
            assert(groups@.skip(i as int).drop_first() =~= groups@.skip(i + 1));
            assert(groups@.take(i + 1).drop_last() =~= groups@.take(i as int));
            if i + 1 >= groups@.len() {
                assert(groups@.take(i + 1) =~= groups@);
            }
        }
        i = i + 1;
    }
}

proof fn lemma_split_total_prefix(groups: Seq<SplitGroupConfig>, i: int)
    requires
        0 <= i < groups.len(),
    ensures
        split_total(groups.take(i)) + groups[i].weight <= split_total(groups),
        split_total(groups.take(i + 1)) == split_total(groups.take(i)) + groups[i].weight,
    decreases groups.len() - i,
{
    assert(groups.take(i + 1).drop_last() =~= groups.take(i));
    if i + 1 < groups.len() {
        lemma_split_total_prefix(groups, i + 1);
    } else {
        assert(groups.take(i + 1) =~= groups);
    }
}

/// The backend a split serves for a roll: the chosen group's backend at the counter
/// modulo the group's size.
pub open spec fn split_choice(groups: Seq<SplitGroupConfig>, roll: int, counter: usize) -> Seq<char> {
    let g = groups[chosen_group(groups, roll)];
    g.backends@[(counter as int) % (g.backends@.len() as int)]@
}

/// With the route's counter at `counter`, every request whose roll lands in group `g`
/// gets the group's backend `t`.
pub open spec fn split_serves_at(groups: Seq<SplitGroupConfig>, g: int, counter: usize, t: int) -> bool {
    forall|roll: int|
        0 <= roll < split_total(groups) && chosen_group(groups, roll) == g
            ==> #[trigger] split_choice(groups, roll, counter) == groups[g].backends@[t]@
}

/// Within a split group the route's counter rotates through the group: starting from
/// any counter, the next `n` counter values (the counter advances by one per request)
/// give every one of the group's `n` backends to requests whose roll lands in the group.
pub proof fn law_split_group_rotates(groups: Seq<SplitGroupConfig>, g: int, counter: usize, t: int)
    requires
        split_servable(groups),
        0 <= g < groups.len(),
        groups[g].weight > 0,
        0 <= t < groups[g].backends@.len(),
        counter + groups[g].backends@.len() <= usize::MAX + 1,
    ensures
        exists|j: int|
            0 <= j < groups[g].backends@.len() && #[trigger] split_serves_at(groups, g, (counter + j) as usize, t),
{
    let n = groups[g].backends@.len() as int;
    assert(groups[g].backends@.len() > 0);
    let c = counter as int;
    vstd::arithmetic::div_mod::lemma_fundamental_div_mod(c, n);
    let q = c / n;
    let r = c % n;
    let j = if t >= r { t - r } else { t - r + n };
    let q2 = if t >= r { q } else { q + 1 };
    assert(c + j == q2 * n + t) by (nonlinear_arith)
        requires
            c == n * q + r,
            j == (if t >= r { t - r } else { t - r + n }),
            q2 == (if t >= r { q } else { q + 1 }),
    ;
    vstd::arithmetic::div_mod::lemma_fundamental_div_mod_converse_mod(c + j, n, q2, t);
    assert forall|roll: int|
        0 <= roll < split_total(groups) && chosen_group(groups, roll) == g
            implies #[trigger] split_choice(groups, roll, (counter + j) as usize) == groups[g].backends@[t]@ by {
        assert(((counter + j) as usize) as int == c + j);
    }
    assert(split_serves_at(groups, g, (counter + j) as usize, t));
}

/// Does a route state differ from another only in its counter?
pub open spec fn same_but_counter(a: RouteState, b: RouteState) -> bool {
    &&& a.config == b.config
    &&& a.backends == b.backends
    &&& a.ip_rules == b.ip_rules
}

/// Is `r` a backend choice the route could make for this request, with `after` the
/// route afterwards? A split route rolls a random number below its total weight and
/// takes the next backend of the group it lands in; other routes balance as `pick` does
/// for some client hash.
pub open spec fn valid_choice(
    before: RouteState,
    after: RouteState,
    balancing: BalancingMode,
    dash: DashboardState,
    r: Option<Seq<char>>,
) -> bool {
    &&& same_but_counter(before, after)
    &&& match before.config.split {
        Some(groups) => exists|roll: int|
            0 <= roll < split_total(groups@) && r == Some(#[trigger] split_choice(groups@, roll, before.counter))
                && after.counter == next_counter(before.counter),
        None => exists|h: u64|
            #[trigger] pick(views(before.backends@), dash, balancing, before.counter, h) == (r, after.counter),
    }
}

impl RouteState {
    /// Chooses the backend for a request: by weighted random group and the round-robin
    /// counter when the route splits traffic, otherwise by the balancer.
    pub fn choose_backend(&mut self, balancing: BalancingMode, dash: &DashboardState, client_ip: &str) -> (r: Option<String>)
        requires
            old(self).config.split matches Some(groups) ==> split_servable(groups@),
        ensures
            valid_choice(*old(self), *final(self), balancing, *dash, opt_view(r)),
            old(self).config.split is Some ==> r is Some,
    {
        match &self.config.split {
            Some(groups) => {
                let total = split_weight_total(groups);
                let roll = random_below(total);
                let gi = pick_split_group(groups, roll);
                let group = &groups[gi];
                proof {
                    assert(groups@[gi as int].weight > 0);
                }
                let idx = self.counter % group.backends.len();
                let chosen = group.backends[idx].clone();
                self.counter = self.counter.wrapping_add(1);
                proof {
                    assert(chosen@ == split_choice(groups@, roll as int, old(self).counter));
                }
                Some(chosen)
            },
            None => {
                let r = self.next_backend(client_ip, balancing, dash);
                proof {
                    let h = choose|h: u64| (opt_view(r), self.counter) == pick(views(old(self).backends@), *dash, balancing, old(self).counter, h);
                    assert(pick(views(old(self).backends@), *dash, balancing, old(self).counter, h) == (opt_view(r), self.counter));
                }
                r
            },
        }
    }
}

/// The sum of the split weights as a `u32`.
fn split_weight_total(groups: &Vec<SplitGroupConfig>) -> (r: u32)
    requires
        split_total(groups@) <= u32::MAX,
    ensures
        r == split_total(groups@),
{
    let mut total: u32 = 0;
    let mut i: usize = 0;
    while i < groups.len()
        invariant
            i <= groups@.len(),
            total as int == split_total(groups@.take(i as int)),
            split_total(groups@) <= u32::MAX,
        decreases groups@.len() - i,
    {
        proof {
            lemma_split_total_prefix(groups@, i as int);
        }
        total = total + groups[i].weight;
        i = i + 1;
    }
    proof {
        assert(groups@.take(groups@.len() as int) =~= groups@);
    }
    total
}

/// Do the route's IP rules block this client? Only a client address that parses is
/// judged, an IPv4-mapped IPv6 address as the IPv4 address it carries.
pub open spec fn route_blocks(rules: Option<IpRules>, ip: Option<Ip>) -> bool {
    match (rules, ip) {
        (Some(rs), Some(a)) => !rules_allow(rs.mode, rs.networks@, normalized(a)),
        _ => false,
    }
}

fn route_blocks_exec(rules: &Option<IpRules>, ip: Option<Ip>) -> (r: bool)
    requires
        rules matches Some(rs) ==> rs.wf(),
    ensures
        r == route_blocks(*rules, ip),
{
    match (rules, ip) {
        (Some(rs), Some(a)) => !rs.is_allowed(normalize(a)),
        _ => false,
    }
}

/// A rejection as status and message.
pub open spec fn admission_view(r: Result<String, Rejection>) -> Result<Seq<char>, (u16, Seq<char>)> {
    match r {
        Ok(b) => Ok(b@),
        Err(rej) => Err((rej.status, rej.message@)),
    }
}

/// The admission of a request to a matched route, after its body was read: the route's
/// IP rules (403), then the per-IP rate limit (429), then the choice of backend (503
/// when none is eligible). Only a client address that parses is judged by the rules and
/// counted by the limiter. A rejected request leaves the route's counter alone; a
/// request the limiter sees is recorded in its bucket whether or not it passes.
pub fn admit_request(gw: &mut GateWayState, route_idx: usize, client_ip: &str) -> (r: Result<String, Rejection>)
    requires
        route_idx < old(gw).routes@.len(),
        old(gw).routes@[route_idx as int].ip_rules matches Some(rs) ==> rs.wf(),
        old(gw).routes@[route_idx as int].config.split matches Some(groups) ==> split_servable(groups@),
    ensures
        final(gw).global_dashboard == old(gw).global_dashboard,
        final(gw).balancing == old(gw).balancing,
        final(gw).max_body_bytes == old(gw).max_body_bytes,
        final(gw).routes@.len() == old(gw).routes@.len(),
        forall|i: int| 0 <= i < final(gw).routes@.len() && i != route_idx ==> final(gw).routes@[i] == old(gw).routes@[i],
        ({
            let route = old(gw).routes@[route_idx as int];
            let ip = ip_parse(client_ip@);
            if route_blocks(route.ip_rules, ip) {
                &&& admission_view(r) == Err::<Seq<char>, (u16, Seq<char>)>((403u16, "IP address not allowed"@))
                &&& final(gw).routes@[route_idx as int] == route
                &&& final(gw).rate_limiter == old(gw).rate_limiter
            } else {
                let limiter_rejects = match (old(gw).rate_limiter, ip) {
                    (Some(l), Some(a)) => {
                        &&& final(gw).rate_limiter matches Some(l2)
                        &&& l2.limit == l.limit
                        &&& l2.window_secs == l.window_secs
                        &&& exists|now: u64| {
                            let step = #[trigger] window_step(bucket_of(l.contents(), ip_key(a)), l.limit, l.window_secs, now);
                            &&& l2.contents() == l.contents().insert(ip_key(a), step.1)
                            &&& !step.0
                        }
                    },
                    _ => false,
                };
                let limiter_passes = match (old(gw).rate_limiter, ip) {
                    (Some(l), Some(a)) => {
                        &&& final(gw).rate_limiter matches Some(l2)
                        &&& l2.limit == l.limit
                        &&& l2.window_secs == l.window_secs
                        &&& exists|now: u64| {
                            let step = #[trigger] window_step(bucket_of(l.contents(), ip_key(a)), l.limit, l.window_secs, now);
                            &&& l2.contents() == l.contents().insert(ip_key(a), step.1)
                            &&& step.0
                        }
                    },
                    _ => final(gw).rate_limiter == old(gw).rate_limiter,
                };
                ||| limiter_rejects
                    && admission_view(r) == Err::<Seq<char>, (u16, Seq<char>)>((429u16, "Rate limit exceeded"@))
                    && final(gw).routes@[route_idx as int] == route
                ||| limiter_passes && exists|choice: Option<Seq<char>>| {
                    &&& #[trigger] valid_choice(route, final(gw).routes@[route_idx as int], old(gw).balancing, old(gw).global_dashboard, choice)
                    &&& admission_view(r) == match choice {
                        Some(b) => Ok::<Seq<char>, (u16, Seq<char>)>(b),
                        None => Err((503u16, "No healthy backends available"@)),
                    }
                }
            }
        }),
{
    let ip = parse_ip(client_ip);
    if route_blocks_exec(&gw.routes[route_idx].ip_rules, ip) {
        return Err(Rejection { status: 403, message: String::from_str("IP address not allowed") });
    }
    let ghost old_limiter = gw.rate_limiter;
    let mut limiter_rejected = false;
    match (&mut gw.rate_limiter, ip) {
        (Some(limiter), Some(a)) => {
            if !limiter.check_and_record(a) {
                limiter_rejected = true;
            }
        },
        _ => {},
    }
    if limiter_rejected {
        return Err(Rejection { status: 429, message: String::from_str("Rate limit exceeded") });
    }
    let mut route = gw.routes.remove(route_idx);
    let ghost before_route = route;
    let chosen = route.choose_backend(gw.balancing, &gw.global_dashboard, client_ip);
    gw.routes.insert(route_idx, route);
    proof {
        assert(gw.routes@ =~= old(gw).routes@.update(route_idx as int, route));
        assert(valid_choice(before_route, route, gw.balancing, gw.global_dashboard, opt_view(chosen)));
    }
    match chosen {
        Some(b) => Ok(b),
        None => Err(Rejection { status: 503, message: String::from_str("No healthy backends available") }),
    }
}

/// The backends after a connection to `url` opened: the first entry with that url counts
/// one more active connection (the count wraps as an atomic's does).
pub open spec fn connection_opened(bs: Seq<BackendInfo>, url: Seq<char>) -> Seq<BackendInfo> {
    match find_backend(bs, url) {
        Some(i) => bs.update(i, BackendInfo { active_connections: bs[i].active_connections.wrapping_add(1), ..bs[i] }),
        None => bs,
    }
}

/// The backends after a connection to `url` closed: the first entry with that url counts
/// one less.
pub open spec fn connection_closed(bs: Seq<BackendInfo>, url: Seq<char>) -> Seq<BackendInfo> {
    match find_backend(bs, url) {
        Some(i) => bs.update(i, BackendInfo { active_connections: bs[i].active_connections.wrapping_sub(1), ..bs[i] }),
        None => bs,
    }
}

/// Counts a connection opened to `url` on its first dashboard entry.
pub fn open_connection(dash: &mut DashboardState, url: &str)
    ensures
        final(dash).backends@ == connection_opened(old(dash).backends@, url@),
        final(dash).recent_request == old(dash).recent_request,
        final(dash).total_request == old(dash).total_request,
        final(dash).status_msg == old(dash).status_msg,
        final(dash).pinned_backend == old(dash).pinned_backend,
{
    proof {
        crate::dashboard::lemma_find_backend(dash.backends@, url@);
    }
    if let Some(i) = find_backend_index(&dash.backends, url) {
        let mut b = dash.backends.remove(i);
        b.active_connections = b.active_connections.wrapping_add(1);
        dash.backends.insert(i, b);
        proof {
            assert(dash.backends@ =~= connection_opened(old(dash).backends@, url@));
        }
    }
}

/// Counts a connection to `url` closed on its first dashboard entry.
pub fn close_connection(dash: &mut DashboardState, url: &str)
    ensures
        final(dash).backends@ == connection_closed(old(dash).backends@, url@),
        final(dash).recent_request == old(dash).recent_request,
        final(dash).total_request == old(dash).total_request,
        final(dash).status_msg == old(dash).status_msg,
        final(dash).pinned_backend == old(dash).pinned_backend,
{
    proof {
        crate::dashboard::lemma_find_backend(dash.backends@, url@);
    }
    if let Some(i) = find_backend_index(&dash.backends, url) {
        let mut b = dash.backends.remove(i);
        b.active_connections = b.active_connections.wrapping_sub(1);
        dash.backends.insert(i, b);
        proof {
            assert(dash.backends@ =~= connection_closed(old(dash).backends@, url@));
        }
    }
}

/// Closing a connection after opening it leaves every backend as it was.
pub proof fn law_close_undoes_open(bs: Seq<BackendInfo>, url: Seq<char>)
    ensures
        connection_closed(connection_opened(bs, url), url) == bs,
{
    crate::dashboard::lemma_find_backend(bs, url);
    match find_backend(bs, url) {
        Some(i) => {
            let opened = connection_opened(bs, url);
            assert(forall|j: int| 0 <= j < bs.len() ==> (#[trigger] opened[j]).url == bs[j].url);
            crate::dashboard::lemma_find_backend_char(opened, url, i);
            assert(connection_closed(opened, url) =~= bs);
        },
        None => {},
    }
}

/// The latency history after a sample: appended, keeping the last 30.
pub open spec fn latency_after(h: Seq<u128>, d: u128) -> Seq<u128> {
    if h.push(d).len() > 30 {
        h.push(d).drop_first()
    } else {
        h.push(d)
    }
}

/// The request log after an entry: the entry in front, keeping the latest 20.
pub open spec fn log_after<T>(log: Seq<T>, entry: T) -> Seq<T> {
    let l = seq![entry] + log;
    if l.len() > 20 {
        l.drop_last()
    } else {
        l
    }
}

/// Records a forwarded request on the dashboard: the backend's hit count, last hit,
/// latency history (last 30) and 5xx count; the total; and the request log entry
/// (latest 20, newest first).
pub fn record_response(
    dash: &mut DashboardState,
    backend: &str,
    method: String,
    path: String,
    status: u16,
    duration_ms: u128,
    request_id: String,
    now: u64,
)
    requires
        old(dash).total_request < u64::MAX,
        find_backend(old(dash).backends@, backend@) matches Some(i) ==> {
            &&& old(dash).backends@[i].request_count < u64::MAX
            &&& status >= 500 ==> old(dash).backends@[i].error_count < u64::MAX
        },
    ensures
        match find_backend(old(dash).backends@, backend@) {
            Some(i) => {
                let b = old(dash).backends@[i];
                let b2 = final(dash).backends@[i];
                &&& final(dash).backends@.len() == old(dash).backends@.len()
                &&& forall|j: int| 0 <= j < old(dash).backends@.len() && j != i ==> final(dash).backends@[j] == old(dash).backends@[j]
                &&& b2@ == crate::dashboard::BackendView {
                    request_count: (b.request_count + 1) as u64,
                    last_hit: Some(now),
                    latency_history: latency_after(b.latency_history@, duration_ms),
                    error_count: if status >= 500 { (b.error_count + 1) as u64 } else { b.error_count },
                    ..b@
                }
            },
            None => final(dash).backends@ == old(dash).backends@,
        },
        final(dash).total_request == old(dash).total_request + 1,
        final(dash).recent_request@ == log_after(old(dash).recent_request@, final(dash).recent_request@[0]),
        final(dash).recent_request@[0].method@ == method@,
        final(dash).recent_request@[0].path@ == path@,
        final(dash).recent_request@[0].backends@ == backend@,
        final(dash).recent_request@[0].status == status,
        final(dash).recent_request@[0].duration_ms == duration_ms,
        final(dash).recent_request@[0].request_id@ == request_id@,
        final(dash).status_msg == old(dash).status_msg,
        final(dash).pinned_backend == old(dash).pinned_backend,
        final(dash).selected_backend == old(dash).selected_backend,
{
    proof {
        crate::dashboard::lemma_find_backend(dash.backends@, backend@);
    }
    if let Some(i) = find_backend_index(&dash.backends, backend) {
        let mut b = dash.backends.remove(i);
        b.request_count = b.request_count + 1;
        b.last_hit = Some(now);
        b.latency_history.push_back(duration_ms);
        if b.latency_history.len() > 30 {
            b.latency_history.pop_front();
        }
        if status >= 500 {
            b.error_count = b.error_count + 1;
        }
        dash.backends.insert(i, b);
        proof {
            assert(dash.backends@ =~= old(dash).backends@.update(i as int, b));
        }
    }
    dash.total_request = dash.total_request + 1;
    let entry = RequestLog {
        method,
        path,
        backends: crate::text::owned(backend),
        status,
        duration_ms,
        request_id,
    };
    let ghost old_log = dash.recent_request@;
    dash.recent_request.push_front(entry);
    if dash.recent_request.len() > 20 {
        dash.recent_request.pop_back();
    }
    proof {
        assert(dash.recent_request@[0] == entry);
        assert(dash.recent_request@ =~= log_after(old_log, entry));
    }
}

} // verus!

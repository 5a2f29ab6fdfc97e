//! Access control for inbound connections: deployment-mode-aware client IP
//! extraction, whitelist/blacklist policy evaluation, ban-message rendering
//! and the JSON block-response body.
//!
//! List lookups are out-of-process calls made by the surrounding transport
//! layer; their outcomes are handed in as plain values and the decision here
//! is a pure function of policy, outcomes and the clock. Whitelist-mode
//! lookup errors fail closed; blacklist and priority-whitelist lookup errors
//! fail open.

use vstd::prelude::*;

use crate::text::{dec_str_of, digit_char, opt_str_view, opt_string_view, u64_to_string};

verus! {

/// Whitelist switches: `enabled` turns the list into the sole gate;
/// `whitelist_priority` only lets a listed address skip the blacklist.
#[derive(Clone, Copy, Debug)]
pub struct WhitelistPolicy {
    pub enabled: bool,
    pub whitelist_priority: bool,
}

/// Blacklist switch.
#[derive(Clone, Copy, Debug)]
pub struct BlacklistPolicy {
    pub enabled: bool,
}

/// Process-wide security policy, read per request.
#[derive(Clone, Copy, Debug)]
pub struct SecurityPolicy {
    pub allow_lan_access: bool,
    pub whitelist: WhitelistPolicy,
    pub blacklist: BlacklistPolicy,
}

/// One whitelist or blacklist record; an absent expiry means permanent.
#[derive(Clone, Debug)]
pub struct IpListEntry {
    pub ip: String,
    pub reason: Option<String>,
    pub expires_at: Option<i64>,
}

/// Outcome of a whitelist membership lookup.
#[derive(Clone, Copy, Debug, PartialEq, Eq, Structural)]
pub enum WhitelistLookup {
    Found,
    NotFound,
    LookupError,
}

/// Outcome of a blacklist lookup.
#[derive(Clone, Debug)]
pub enum BlacklistLookup {
    Found(IpListEntry),
    NotFound,
    LookupError,
}

/// Ghost model of a block decision.
pub struct BlockModel {
    pub message: Seq<char>,
    pub log_reason: Option<Seq<char>>,
}

/// Ghost model of the filter's decision.
pub enum DecisionModel {
    Allow,
    Block(BlockModel),
    Unavailable,
}

/// The filter's decision: pass the request on, block it with a message (and,
/// for blacklist hits, a reason for the audit log), or fail closed.
#[derive(Clone, Debug)]
pub enum AccessDecision {
    Allow,
    Block { message: String, log_reason: Option<String> },
    Unavailable,
}

impl View for AccessDecision {
    type V = DecisionModel;

    open spec fn view(&self) -> DecisionModel {
        match *self {
            AccessDecision::Allow => DecisionModel::Allow,
            AccessDecision::Block { message, log_reason } => DecisionModel::Block(
                BlockModel { message: message@, log_reason: opt_string_view(log_reason) },
            ),
            AccessDecision::Unavailable => DecisionModel::Unavailable,
        }
    }
}

// ---------------------------------------------------------------------------
// Client IP extraction
// ---------------------------------------------------------------------------

/// ASCII whitespace, as trimmed from forwarded-header entries.
pub open spec fn is_space(c: char) -> bool {
    c == ' ' || c == '\t' || c == '\n' || c == '\r'
}

/// The characters before the first comma (the whole sequence when there is
/// none).
pub open spec fn up_to_comma(s: Seq<char>) -> Seq<char>
    decreases s.len(),
{
    if s.len() == 0 {
        s
    } else if s[0] == ',' {
        Seq::empty()
    } else {
        seq![s[0]] + up_to_comma(s.skip(1))
    }
}

/// The sequence with leading whitespace removed.
pub open spec fn trim_start(s: Seq<char>) -> Seq<char>
    decreases s.len(),
{
    if s.len() > 0 && is_space(s[0]) {
        trim_start(s.skip(1))
    } else {
        s
    }
}

/// The sequence with trailing whitespace removed.
pub open spec fn trim_end(s: Seq<char>) -> Seq<char>
    decreases s.len(),
{
    if s.len() > 0 && is_space(s[s.len() - 1]) {
        trim_end(s.take(s.len() - 1))
    } else {
        s
    }
}

/// The sequence with whitespace removed from both ends.
pub open spec fn trim_spaces(s: Seq<char>) -> Seq<char> {
    trim_end(trim_start(s))
}

/// The first comma-separated entry of a forwarded-for header, trimmed.
pub open spec fn forwarded_token(h: Seq<char>) -> Seq<char> {
    trim_spaces(up_to_comma(h))
}

proof fn lemma_up_to_comma_take(s: Seq<char>, k: int)
    requires
        0 <= k <= s.len(),
        forall|i: int| 0 <= i < k ==> s[i] != ',',
        k == s.len() || s[k] == ',',
    ensures
        up_to_comma(s) == s.take(k),
    decreases k,
{
    if k == 0 {
        assert(s.take(0) =~= Seq::<char>::empty());
        if s.len() > 0 {
            assert(s[0] == ',');
        }
    } else {
        assert(s[0] != ',');
        let t = s.skip(1);
        assert(forall|i: int| 0 <= i < k - 1 ==> t[i] == s[i + 1] && s[i + 1] != ',');
        lemma_up_to_comma_take(t, k - 1);
        assert(seq![s[0]] + t.take(k - 1) =~= s.take(k));
    }
}

proof fn lemma_trim_start_skip(s: Seq<char>, a: int)
    requires
        0 <= a <= s.len(),
        forall|i: int| 0 <= i < a ==> is_space(s[i]),
        a == s.len() || !is_space(s[a]),
    ensures
        trim_start(s) == s.skip(a),
    decreases a,
{
    if a == 0 {
        assert(s.skip(0) =~= s);
    } else {
        assert(is_space(s[0]));
        let t = s.skip(1);
        assert(forall|i: int| 0 <= i < a - 1 ==> t[i] == s[i + 1] && is_space(s[i + 1]));
        lemma_trim_start_skip(t, a - 1);
        assert(t.skip(a - 1) =~= s.skip(a));
    }
}

proof fn lemma_trim_end_take(s: Seq<char>, b: int)
    requires
        0 <= b <= s.len(),
        forall|i: int| b <= i < s.len() ==> is_space(s[i]),
        b == 0 || !is_space(s[b - 1]),
    ensures
        trim_end(s) == s.take(b),
    decreases s.len() - b,
{
    if b == s.len() {
        assert(s.take(b) =~= s);
    } else {
        assert(is_space(s[s.len() - 1]));
        let t = s.take(s.len() - 1);
        assert(forall|i: int| b <= i < t.len() ==> t[i] == s[i] && is_space(s[i]));
        lemma_trim_end_take(t, b);
        assert(t.take(b) =~= s.take(b));
    }
}

fn is_space_char(c: char) -> (b: bool)
    ensures
        b == is_space(c),
{
    c == ' ' || c == '\t' || c == '\n' || c == '\r'
}

/// The first comma-separated entry of a header value, trimmed of whitespace.
pub fn first_forwarded_entry(h: &str) -> (r: String)
    ensures
        r@ == forwarded_token(h@),
{
    let n = h.unicode_len();
    let mut k: usize = 0;
    while k < n && h.get_char(k) != ','
        invariant
            k <= n,
            n == h@.len(),
            forall|i: int| 0 <= i < k ==> h@[i] != ',',
        decreases n - k,
    {
        k += 1;
    }
    let token = h.substring_char(0, k);
    proof {
        lemma_up_to_comma_take(h@, k as int);
        assert(token@ =~= h@.take(k as int));
    }
    let tn = token.unicode_len();
    let mut a: usize = 0;
    while a < tn && is_space_char(token.get_char(a))
        invariant
            a <= tn,
            tn == token@.len(),
            forall|i: int| 0 <= i < a ==> is_space(token@[i]),
        decreases tn - a,
    {
        a += 1;
    }
    let mut b: usize = tn;
    while b > a && is_space_char(token.get_char(b - 1))
        invariant
            a <= b <= tn,
            tn == token@.len(),
            forall|i: int| b <= i < tn ==> is_space(token@[i]),
        decreases b,
    {
        b -= 1;
    }
    let trimmed = token.substring_char(a, b);
    proof {
        lemma_trim_start_skip(token@, a as int);
        let t = token@.skip(a as int);
        assert(forall|i: int| b - a <= i < t.len() ==> t[i] == token@[i + a] && is_space(
            token@[i + a],
        ));
        if b > a {
            assert(!is_space(token@[b - 1]));
            assert(t[b - a - 1] == token@[b - 1]);
        }
        lemma_trim_end_take(t, b - a);
        assert(t.take(b - a) =~= token@.subrange(a as int, b as int));
        assert(trimmed@ == trim_spaces(token@));
    }
    trimmed.to_owned()
}

/// Where the client address is taken from, by deployment mode. Trusting
/// proxy headers, the forwarded-for chain wins, then the real-ip header,
/// then the transport peer; not trusting them (direct exposure), the
/// transport peer wins and headers are only a fallback, so a client cannot
/// spoof its way past the lists.
pub open spec fn extract_ip_model(
    trust_proxy_headers: bool,
    xff: Option<Seq<char>>,
    xri: Option<Seq<char>>,
    peer: Option<Seq<char>>,
) -> Option<Seq<char>> {
    if trust_proxy_headers {
        match xff {
            Some(h) => Some(forwarded_token(h)),
            None => match xri {
                Some(r) => Some(r),
                None => peer,
            },
        }
    } else {
        match peer {
            Some(p) => Some(p),
            None => match xff {
                Some(h) => Some(forwarded_token(h)),
                None => xri,
            },
        }
    }
}

/// Picks the client IP from the forwarded headers and the transport peer
/// address according to the deployment mode.
pub fn extract_client_ip(
    trust_proxy_headers: bool,
    x_forwarded_for: Option<&str>,
    x_real_ip: Option<&str>,
    peer_addr: Option<&str>,
) -> (r: Option<String>)
    ensures
        opt_string_view(r) == extract_ip_model(
            trust_proxy_headers,
            opt_str_view(x_forwarded_for),
            opt_str_view(x_real_ip),
            opt_str_view(peer_addr),
        ),
{
    if trust_proxy_headers {
        match x_forwarded_for {
            Some(h) => Some(first_forwarded_entry(h)),
            None => match x_real_ip {
                Some(r) => Some(r.to_owned()),
                None => match peer_addr {
                    Some(p) => Some(p.to_owned()),
                    None => None,
                },
            },
        }
    } else {
        match peer_addr {
            Some(p) => Some(p.to_owned()),
            None => match x_forwarded_for {
                Some(h) => Some(first_forwarded_entry(h)),
                None => match x_real_ip {
                    Some(r) => Some(r.to_owned()),
                    None => None,
                },
            },
        }
    }
}

// ---------------------------------------------------------------------------
// Ban message rendering
// ---------------------------------------------------------------------------

/// Reason shown when a blacklist record carries none.
pub open spec fn default_reason() -> Seq<char> {
    "Malicious activity detected"@
}

/// The ban-duration sentence. A missing expiry is a permanent ban; a
/// non-positive remaining time renders as already expired; a remaining time
/// of more than a day renders in whole days, otherwise in hours and minutes,
/// or minutes alone below an hour.
pub open spec fn ban_type_msg(expires_at: Option<i64>, now: i64) -> Seq<char> {
    match expires_at {
        None => "Permanent ban."@,
        Some(t) => {
            let remaining = t - now;
            if remaining <= 0 {
                "Temporary ban (expired, will be removed soon)."@
            } else if remaining > 86400 {
                "Temporary ban. Please try again after "@ + dec_str_of((remaining / 86400) as nat)
                    + " day(s)."@
            } else {
                let hours = remaining / 3600;
                let minutes = (remaining % 3600) / 60;
                if hours > 0 {
                    "Temporary ban. Please try again after "@ + dec_str_of(hours as nat)
                        + " hour(s) and "@ + dec_str_of(minutes as nat) + " minute(s)."@
                } else {
                    "Temporary ban. Please try again after "@ + dec_str_of(minutes as nat)
                        + " minute(s)."@
                }
            }
        },
    }
}

/// The reason a blacklist entry states, or the default.
pub open spec fn entry_reason(e: IpListEntry) -> Seq<char> {
    match e.reason {
        Some(r) => r@,
        None => default_reason(),
    }
}

/// The full message shown for a blacklist hit.
pub open spec fn entry_ban_message(e: IpListEntry, now: i64) -> Seq<char> {
    "Access denied. Reason: "@ + entry_reason(e) + ". "@ + ban_type_msg(e.expires_at, now)
}

/// The reason recorded in the audit log for a blacklist hit.
pub open spec fn entry_log_reason(e: IpListEntry) -> Seq<char> {
    "IP in blacklist: "@ + entry_reason(e)
}

fn ban_type_message(expires_at: Option<i64>, now: i64) -> (r: String)
    ensures
        r@ == ban_type_msg(expires_at, now),
{
    match expires_at {
        None => String::from_str("Permanent ban."),
        Some(t) => {
            let big: i128 = t as i128 - now as i128;
            if big <= 0 {
                String::from_str("Temporary ban (expired, will be removed soon).")
            } else {
                let remaining: u64 = big as u64;
                proof {
                    assert(remaining == t - now);
                }
                if remaining > 86400 {
                    let mut out = String::from_str("Temporary ban. Please try again after ");
                    let days = u64_to_string(remaining / 86400);
                    out.append(days.as_str());
                    out.append(" day(s).");
                    out
                } else {
                    let hours = remaining / 3600;
                    let minutes = (remaining % 3600) / 60;
                    if hours > 0 {
                        let mut out = String::from_str("Temporary ban. Please try again after ");
                        let hs = u64_to_string(hours);
                        out.append(hs.as_str());
                        out.append(" hour(s) and ");
                        let ms = u64_to_string(minutes);
                        out.append(ms.as_str());
                        out.append(" minute(s).");
                        out
                    } else {
                        let mut out = String::from_str("Temporary ban. Please try again after ");
                        let ms = u64_to_string(minutes);
                        out.append(ms.as_str());
                        out.append(" minute(s).");
                        out
                    }
                }
            }
        },
    }
}

/// Renders the human-readable message for a blacklist hit.
pub fn build_ban_message(entry: &IpListEntry, now: i64) -> (r: String)
    ensures
        r@ == entry_ban_message(*entry, now),
{
    let mut out = String::from_str("Access denied. Reason: ");
    match &entry.reason {
        Some(re) => out.append(re.as_str()),
        None => out.append("Malicious activity detected"),
    }
    out.append(". ");
    let bt = ban_type_message(entry.expires_at, now);
    out.append(bt.as_str());
    out
}

// ---------------------------------------------------------------------------
// Policy evaluation
// ---------------------------------------------------------------------------

/// Message shown when whitelist mode rejects an address.
pub open spec fn not_whitelisted_message() -> Seq<char> {
    "Access denied. Your IP is not in the whitelist."@
}

/// The blacklist stage: a hit blocks with the rendered ban message and an
/// audit-log reason; a miss, a lookup error (fail open) or a disabled list
/// allows.
pub open spec fn blacklist_decision_model(
    enabled: bool,
    bl: BlacklistLookup,
    now: i64,
) -> DecisionModel {
    if enabled {
        match bl {
            BlacklistLookup::Found(e) => DecisionModel::Block(
                BlockModel {
                    message: entry_ban_message(e, now),
                    log_reason: Some(entry_log_reason(e)),
                },
            ),
            BlacklistLookup::NotFound => DecisionModel::Allow,
            BlacklistLookup::LookupError => DecisionModel::Allow,
        }
    } else {
        DecisionModel::Allow
    }
}

/// The whole decision for a known client address. Whitelist mode is the
/// sole gate when enabled (fail closed on a lookup error); otherwise a
/// priority-whitelist hit short-circuits the blacklist, and the blacklist
/// stage decides the rest.
pub open spec fn decision_model(
    policy: SecurityPolicy,
    wl: WhitelistLookup,
    bl: BlacklistLookup,
    now: i64,
) -> DecisionModel {
    if policy.whitelist.enabled {
        match wl {
            WhitelistLookup::Found => DecisionModel::Allow,
            WhitelistLookup::NotFound => DecisionModel::Block(
                BlockModel { message: not_whitelisted_message(), log_reason: None },
            ),
            WhitelistLookup::LookupError => DecisionModel::Unavailable,
        }
    } else if policy.whitelist.whitelist_priority && wl is Found {
        DecisionModel::Allow
    } else {
        blacklist_decision_model(policy.blacklist.enabled, bl, now)
    }
}

/// The blacklist stage as executable code.
pub fn apply_blacklist(enabled: bool, bl: &BlacklistLookup, now: i64) -> (r: AccessDecision)
    ensures
        r@ == blacklist_decision_model(enabled, *bl, now),
{
    if enabled {
        match bl {
            BlacklistLookup::Found(e) => {
                let message = build_ban_message(e, now);
                let mut log_reason = String::from_str("IP in blacklist: ");
                match &e.reason {
                    Some(re) => log_reason.append(re.as_str()),
                    None => log_reason.append("Malicious activity detected"),
                }
                AccessDecision::Block { message: message, log_reason: Some(log_reason) }
            },
            BlacklistLookup::NotFound => AccessDecision::Allow,
            BlacklistLookup::LookupError => AccessDecision::Allow,
        }
    } else {
        AccessDecision::Allow
    }
}

/// Decides a request for a known client address from the policy and the two
/// lookup outcomes.
pub fn evaluate_access(
    policy: &SecurityPolicy,
    wl: &WhitelistLookup,
    bl: &BlacklistLookup,
    now: i64,
) -> (r: AccessDecision)
    ensures
        r@ == decision_model(*policy, *wl, *bl, now),
{
    if policy.whitelist.enabled {
        match wl {
            WhitelistLookup::Found => AccessDecision::Allow,
            WhitelistLookup::NotFound => AccessDecision::Block {
                message: String::from_str("Access denied. Your IP is not in the whitelist."),
                log_reason: None,
            },
            WhitelistLookup::LookupError => AccessDecision::Unavailable,
        }
    } else {
        if policy.whitelist.whitelist_priority {
            match wl {
                WhitelistLookup::Found => {
                    return AccessDecision::Allow;
                },
                _ => {},
            }
        }
        apply_blacklist(policy.blacklist.enabled, bl, now)
    }
}

/// The decision including the unknown-identity case: policy cannot be
/// applied to an unidentifiable actor, so a request without a client IP
/// passes (fail open, logged by the caller for audit).
pub open spec fn request_decision_model(
    policy: SecurityPolicy,
    client_ip: Option<Seq<char>>,
    wl: WhitelistLookup,
    bl: BlacklistLookup,
    now: i64,
) -> DecisionModel {
    match client_ip {
        None => DecisionModel::Allow,
        Some(_) => decision_model(policy, wl, bl, now),
    }
}

/// Decides a request whose client IP may be unknown: with no IP the request
/// is allowed through, whatever the lists hold; with one, the policy
/// decides.
pub fn evaluate_request(
    policy: &SecurityPolicy,
    client_ip: Option<&str>,
    wl: &WhitelistLookup,
    bl: &BlacklistLookup,
    now: i64,
) -> (r: AccessDecision)
    ensures
        r@ == request_decision_model(*policy, opt_str_view(client_ip), *wl, *bl, now),
        client_ip is None ==> r is Allow,
{
    match client_ip {
        None => AccessDecision::Allow,
        Some(_) => evaluate_access(policy, wl, bl, now),
    }
}

/// Whether the decision needs a whitelist lookup at all.
pub fn needs_whitelist_lookup(policy: &SecurityPolicy) -> (r: bool)
    ensures
        r == (policy.whitelist.enabled || policy.whitelist.whitelist_priority),
{
    policy.whitelist.enabled || policy.whitelist.whitelist_priority
}

/// Whether the decision still needs a blacklist lookup after the whitelist
/// outcome is known.
pub fn needs_blacklist_lookup(policy: &SecurityPolicy, wl: &WhitelistLookup) -> (r: bool)
    ensures
        r == (!policy.whitelist.enabled && !(policy.whitelist.whitelist_priority && *wl is Found)
            && policy.blacklist.enabled),
{
    if policy.whitelist.enabled {
        return false;
    }
    if policy.whitelist.whitelist_priority {
        match wl {
            WhitelistLookup::Found => {
                return false;
            },
            _ => {},
        }
    }
    policy.blacklist.enabled
}

/// When no blacklist lookup is needed, the decision does not depend on the
/// blacklist outcome, so a caller may pass any placeholder.
pub proof fn lemma_blacklist_lookup_irrelevant(
    policy: SecurityPolicy,
    wl: WhitelistLookup,
    bl1: BlacklistLookup,
    bl2: BlacklistLookup,
    now: i64,
)
    requires
        !(!policy.whitelist.enabled && !(policy.whitelist.whitelist_priority && wl is Found)
            && policy.blacklist.enabled),
    ensures
        decision_model(policy, wl, bl1, now) == decision_model(policy, wl, bl2, now),
{
}

// ---------------------------------------------------------------------------
// Block response body
// ---------------------------------------------------------------------------

/// The hexadecimal digit character for a value below sixteen.
pub open spec fn hex_digit(d: nat) -> char
    recommends
        d < 16,
{
    if d < 10 {
        digit_char(d)
    } else if d == 10 {
        'a'
    } else if d == 11 {
        'b'
    } else if d == 12 {
        'c'
    } else if d == 13 {
        'd'
    } else if d == 14 {
        'e'
    } else {
        'f'
    }
}

/// JSON string escaping of one character: quote, backslash and control
/// characters get escapes, everything else passes through.
pub open spec fn json_escape_char(c: char) -> Seq<char> {
    if c == '"' {
        seq!['\\', '"']
    } else if c == '\\' {
        seq!['\\', '\\']
    } else if c == '\u{8}' {
        seq!['\\', 'b']
    } else if c == '\u{c}' {
        seq!['\\', 'f']
    } else if c == '\n' {
        seq!['\\', 'n']
    } else if c == '\r' {
        seq!['\\', 'r']
    } else if c == '\t' {
        seq!['\\', 't']
    } else if (c as u32) < 0x20 {
        seq!['\\', 'u', '0', '0', hex_digit((c as u32 / 16) as nat), hex_digit(
            (c as u32 % 16) as nat,
        )]
    } else {
        seq![c]
    }
}

/// JSON string escaping of a whole sequence.
pub open spec fn json_escaped(s: Seq<char>) -> Seq<char>
    decreases s.len(),
{
    if s.len() == 0 {
        Seq::empty()
    } else {
        json_escape_char(s[0]) + json_escaped(s.skip(1))
    }
}

proof fn lemma_json_escaped_push(s: Seq<char>, c: char)
    ensures
        json_escaped(s.push(c)) == json_escaped(s) + json_escape_char(c),
    decreases s.len(),
{
    if s.len() == 0 {
        assert(s.push(c)[0] == c);
        assert(s.push(c).skip(1) =~= s);
        assert(json_escaped(s.push(c)) == json_escape_char(c) + json_escaped(s));
        assert(json_escape_char(c) + json_escaped(s) =~= json_escaped(s) + json_escape_char(c));
    } else {
        let a = json_escape_char(s[0]);
        let b = json_escaped(s.skip(1));
        let e = json_escape_char(c);
        assert(s.push(c)[0] == s[0]);
        assert(s.push(c).skip(1) =~= s.skip(1).push(c));
        lemma_json_escaped_push(s.skip(1), c);
        assert(json_escaped(s.push(c)) == a + json_escaped(s.push(c).skip(1)));
        assert(json_escaped(s.push(c).skip(1)) == b + e);
        assert(a + (b + e) =~= (a + b) + e);
        assert(json_escaped(s) == a + b);
    }
}

fn hex_digit_str(d: u32) -> (r: &'static str)
    requires
        d < 16,
    ensures
        r@ == seq![hex_digit(d as nat)],
{
    if d == 0 {
        proof {
            reveal_strlit("0");
            assert("0"@ =~= seq![hex_digit(0nat)]);
        }
        "0"
    } else if d == 1 {
        proof {
            reveal_strlit("1");
            assert("1"@ =~= seq![hex_digit(1nat)]);
        }
        "1"
    } else if d == 2 {
        proof {
            reveal_strlit("2");
            assert("2"@ =~= seq![hex_digit(2nat)]);
        }
        "2"
    } else if d == 3 {
        proof {
            reveal_strlit("3");
            assert("3"@ =~= seq![hex_digit(3nat)]);
        }
        "3"
    } else if d == 4 {
        proof {
            reveal_strlit("4");
            assert("4"@ =~= seq![hex_digit(4nat)]);
        }
        "4"
    } else if d == 5 {
        proof {
            reveal_strlit("5");
            assert("5"@ =~= seq![hex_digit(5nat)]);
        }
        "5"
    } else if d == 6 {
        proof {
            reveal_strlit("6");
            assert("6"@ =~= seq![hex_digit(6nat)]);
        }
        "6"
    } else if d == 7 {
        proof {
            reveal_strlit("7");
            assert("7"@ =~= seq![hex_digit(7nat)]);
        }
        "7"
    } else if d == 8 {
        proof {
            reveal_strlit("8");
            assert("8"@ =~= seq![hex_digit(8nat)]);
        }
        "8"
    } else if d == 9 {
        proof {
            reveal_strlit("9");
            assert("9"@ =~= seq![hex_digit(9nat)]);
        }
        "9"
    } else if d == 10 {
        proof {
            reveal_strlit("a");
            assert("a"@ =~= seq![hex_digit(10nat)]);
        }
        "a"
    } else if d == 11 {
        proof {
            reveal_strlit("b");
            assert("b"@ =~= seq![hex_digit(11nat)]);
        }
        "b"
    } else if d == 12 {
        proof {
            reveal_strlit("c");
            assert("c"@ =~= seq![hex_digit(12nat)]);
        }
        "c"
    } else if d == 13 {
        proof {
            reveal_strlit("d");
            assert("d"@ =~= seq![hex_digit(13nat)]);
        }
        "d"
    } else if d == 14 {
        proof {
            reveal_strlit("e");
            assert("e"@ =~= seq![hex_digit(14nat)]);
        }
        "e"
    } else {
        proof {
            reveal_strlit("f");
            assert("f"@ =~= seq![hex_digit(15nat)]);
        }
        "f"
    }
}

/// Escapes a string for embedding in a JSON string literal.
pub fn json_escape_str(s: &str) -> (r: String)
    ensures
        r@ == json_escaped(s@),
{
    let n = s.unicode_len();
    let mut out = String::new();
    let mut i: usize = 0;
    while i < n
        invariant
            i <= n,
            n == s@.len(),
            out@ == json_escaped(s@.take(i as int)),
        decreases n - i,
    {
        let c = s.get_char(i);
        if c == '"' {
            proof {
                reveal_strlit("\\\"");
                assert("\\\""@ =~= seq!['\\', '"']);
            }
            out.append("\\\"");
        } else if c == '\\' {
            proof {
                reveal_strlit("\\\\");
                assert("\\\\"@ =~= seq!['\\', '\\']);
            }
            out.append("\\\\");
        } else if c == '\u{8}' {
            proof {
                reveal_strlit("\\b");
                assert("\\b"@ =~= seq!['\\', 'b']);
            }
            out.append("\\b");
        } else if c == '\u{c}' {
            proof {
                reveal_strlit("\\f");
                assert("\\f"@ =~= seq!['\\', 'f']);
            }
            out.append("\\f");
        } else if c == '\n' {
            proof {
                reveal_strlit("\\n");
                assert("\\n"@ =~= seq!['\\', 'n']);
            }
            out.append("\\n");
        } else if c == '\r' {
            proof {
                reveal_strlit("\\r");
                assert("\\r"@ =~= seq!['\\', 'r']);
            }
            out.append("\\r");
        } else if c == '\t' {
            proof {
                reveal_strlit("\\t");
                assert("\\t"@ =~= seq!['\\', 't']);
            }
            out.append("\\t");
        } else if (c as u32) < 0x20 {
            proof {
                reveal_strlit("\\u00");
                assert("\\u00"@ =~= seq!['\\', 'u', '0', '0']);
            }
            out.append("\\u00");
            out.append(hex_digit_str((c as u32) / 16));
            out.append(hex_digit_str((c as u32) % 16));
            proof {
                assert(out@ =~= json_escaped(s@.take(i as int)) + json_escape_char(c));
            }
        } else {
            let piece = s.substring_char(i, i + 1);
            proof {
                assert(piece@ =~= seq![s@[i as int]]);
            }
            out.append(piece);
        }
        proof {
            assert(s@.take(i + 1) =~= s@.take(i as int).push(s@[i as int]));
            lemma_json_escaped_push(s@.take(i as int), s@[i as int]);
        }
        i += 1;
    }
    proof {
        assert(s@.take(n as int) =~= s@);
    }
    out
}

/// The JSON body served with a block response.
pub open spec fn blocked_body_model(ip: Seq<char>, message: Seq<char>) -> Seq<char> {
    "{\"error\":{\"message\":\""@ + json_escaped(message)
        + "\",\"type\":\"ip_blocked\",\"code\":\"ip_blocked\",\"ip\":\""@ + json_escaped(ip)
        + "\"}}"@
}

/// Builds the JSON body for a block response.
pub fn create_blocked_response_body(ip: &str, message: &str) -> (r: String)
    ensures
        r@ == blocked_body_model(ip@, message@),
{
    let mut out = String::from_str("{\"error\":{\"message\":\"");
    let em = json_escape_str(message);
    out.append(em.as_str());
    out.append("\",\"type\":\"ip_blocked\",\"code\":\"ip_blocked\",\"ip\":\"");
    let ei = json_escape_str(ip);
    out.append(ei.as_str());
    out.append("\"}}");
    out
}

// ---------------------------------------------------------------------------
// Audit log records
// ---------------------------------------------------------------------------

/// One audit record for a blocked request; written fire-and-forget by the
/// surrounding transport layer.
#[derive(Clone, Debug)]
pub struct IpAccessLog {
    pub id: String,
    pub client_ip: String,
    pub timestamp: i64,
    pub method: Option<String>,
    pub path: Option<String>,
    pub user_agent: Option<String>,
    pub status: Option<u16>,
    pub duration: Option<i64>,
    pub api_key_hash: Option<String>,
    pub blocked: bool,
    pub block_reason: Option<String>,
    pub username: Option<String>,
}

/// Relies on `uuid::Uuid::new_v4` and its `Display` form: a fresh random
/// identifier in the standard hyphenated rendering, 36 characters long.
#[verifier::external_body]
pub fn new_log_id() -> (r: String)
    ensures
        r@.len() == 36,
{
    uuid::Uuid::new_v4().to_string()
}

/// Assembles the audit record for one blocked request.
pub fn build_block_log(
    id: String,
    client_ip: String,
    timestamp: i64,
    method: String,
    path: String,
    user_agent: Option<String>,
    log_reason: String,
) -> (r: IpAccessLog)
    ensures
        r.id@ == id@,
        r.client_ip@ == client_ip@,
        r.timestamp == timestamp,
        r.method matches Some(m) && m@ == method@,
        r.path matches Some(p) && p@ == path@,
        r.user_agent == user_agent,
        r.status == Some(403u16),
        r.duration == Some(0i64),
        r.api_key_hash is None,
        r.blocked == true,
        r.block_reason matches Some(b) && b@ == log_reason@,
        r.username is None,
{
    IpAccessLog {
        id: id,
        client_ip: client_ip,
        timestamp: timestamp,
        method: Some(method),
        path: Some(path),
        user_agent: user_agent,
        status: Some(403),
        duration: Some(0),
        api_key_hash: None,
        blocked: true,
        block_reason: Some(log_reason),
        username: None,
    }
}

// ---------------------------------------------------------------------------
// Policy laws
// ---------------------------------------------------------------------------

/// A blacklist entry whose expiry is not in the future renders as an expired
/// temporary ban, never as an active countdown.
pub proof fn lemma_expired_ban_message(expires_at: i64, now: i64)
    requires
        expires_at <= now,
    ensures
        ban_type_msg(Some(expires_at), now) == "Temporary ban (expired, will be removed soon)."@,
{
}

/// A blacklist entry expiring more than a day from now renders in whole
/// days.
pub proof fn lemma_distant_expiry_in_days(expires_at: i64, now: i64)
    requires
        expires_at - now > 86400,
    ensures
        ban_type_msg(Some(expires_at), now) == "Temporary ban. Please try again after "@
            + dec_str_of(((expires_at - now) / 86400) as nat) + " day(s)."@,
{
}

/// Whitelist mode with an unreadable list fails closed: the decision is
/// temporary unavailability, never allow.
pub proof fn lemma_whitelist_error_fails_closed(
    policy: SecurityPolicy,
    bl: BlacklistLookup,
    now: i64,
)
    requires
        policy.whitelist.enabled,
    ensures
        decision_model(policy, WhitelistLookup::LookupError, bl, now) is Unavailable,
{
}

/// With whitelist-priority off, an address on both lists is blocked: the
/// blacklist takes precedence.
pub proof fn lemma_blacklist_takes_precedence(policy: SecurityPolicy, e: IpListEntry, now: i64)
    requires
        !policy.whitelist.enabled,
        !policy.whitelist.whitelist_priority,
        policy.blacklist.enabled,
    ensures
        (decision_model(policy, WhitelistLookup::Found, BlacklistLookup::Found(e), now)
            matches DecisionModel::Block(b) && b.message == entry_ban_message(e, now)),
{
}

/// With whitelist-priority on, an address on both lists is allowed: the
/// whitelist short-circuits the blacklist.
pub proof fn lemma_whitelist_priority_short_circuits(
    policy: SecurityPolicy,
    e: IpListEntry,
    now: i64,
)
    requires
        !policy.whitelist.enabled,
        policy.whitelist.whitelist_priority,
    ensures
        decision_model(policy, WhitelistLookup::Found, BlacklistLookup::Found(e), now) is Allow,
{
}

} // verus!

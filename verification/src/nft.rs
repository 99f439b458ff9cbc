//! Packet-filter command synthesis and dump matching.
//!
//! All of the bridge's filter rules live in one private kernel table,
//! `inet phantom`, with four base chains. This module builds the exact
//! command text the filter library is driven with — table and chain
//! creation, rule insertion tagged with a `phantom-rule-<id>` comment, and
//! targeted deletion by handle — and locates rules in a structured dump by
//! matching their projected fields. The unverified shell sends the commands
//! and hands dumps back as plain projections.

use vstd::prelude::*;

use crate::db::FirewallRuleRow;
use crate::text::{
    contains_at, dec_value, digits_end, digits_end_exec, i64_dec, i64_to_string, lemma_digits_end,
    parse_u64, spec_contains, spec_contains_lower, str_contains, str_contains_lower, str_eq,
    u64_dec, u64_to_string,
};

verus! {

// ---------------------------------------------------------------------------
// Case folding (outside call)
// ---------------------------------------------------------------------------

/// What `str::to_lowercase` returns; it depends on the characters alone.
pub uninterp spec fn lower_of(s: Seq<char>) -> Seq<char>;

/// Relies on str::to_lowercase: the result depends on the characters alone,
/// and it is empty exactly when the input is, since lowercase mappings
/// never erase a character.
#[verifier::external_body]
fn lowercase(s: &str) -> (r: String)
    ensures
        r@ == lower_of(s@),
        (r@.len() == 0) == (s@.len() == 0),
{
    s.to_lowercase()
}

// ---------------------------------------------------------------------------
// Command fragments
// ---------------------------------------------------------------------------

/// The family keyword a match fragment is qualified with: 10 is IPv6,
/// anything else is treated as IPv4.
pub open spec fn family_word(family: i32) -> Seq<char> {
    if family == 10 {
        "ip6"@
    } else {
        "ip"@
    }
}

/// `<fam> saddr <cidr> `, or nothing when no source is given.
pub open spec fn source_match_spec(family: i32, source: Seq<char>) -> Seq<char> {
    if source.len() == 0 {
        Seq::<char>::empty()
    } else {
        family_word(family) + " saddr "@ + source + " "@
    }
}

/// `<fam> daddr <cidr> `, or nothing when no destination is given.
pub open spec fn dest_match_spec(family: i32, destination: Seq<char>) -> Seq<char> {
    if destination.len() == 0 {
        Seq::<char>::empty()
    } else {
        family_word(family) + " daddr "@ + destination + " "@
    }
}

/// `<proto> dport <port> `, or nothing when the port is zero.
pub open spec fn proto_dport_spec(proto: Seq<char>, dport: int) -> Seq<char> {
    if dport == 0 {
        Seq::<char>::empty()
    } else {
        proto + " dport "@ + i64_dec(dport) + " "@
    }
}

/// `iifname "<name>" `, or nothing when no inbound interface is given.
pub open spec fn iif_match_spec(name: Seq<char>) -> Seq<char> {
    if name.len() == 0 {
        Seq::<char>::empty()
    } else {
        "iifname \""@ + name + "\" "@
    }
}

/// `oifname "<name>" `, or nothing when no outbound interface is given.
pub open spec fn oif_match_spec(name: Seq<char>) -> Seq<char> {
    if name.len() == 0 {
        Seq::<char>::empty()
    } else {
        "oifname \""@ + name + "\" "@
    }
}

/// `ct state <states> `, or nothing when no state match is given.
pub open spec fn ct_match_spec(state_match: Seq<char>) -> Seq<char> {
    if state_match.len() == 0 {
        Seq::<char>::empty()
    } else {
        "ct state "@ + state_match + " "@
    }
}

fn source_match(family: i32, source: &str) -> (r: String)
    ensures
        r@ == source_match_spec(family, source@),
{
    if source.is_empty() {
        let r = String::new();
        proof {
            assert(r@ =~= source_match_spec(family, source@));
        }
        r
    } else {
        let mut r = if family == 10 {
            String::from_str("ip6")
        } else {
            String::from_str("ip")
        };
        r.append(" saddr ");
        r.append(source);
        r.append(" ");
        proof {
            assert(r@ =~= source_match_spec(family, source@));
        }
        r
    }
}

fn dest_match(family: i32, destination: &str) -> (r: String)
    ensures
        r@ == dest_match_spec(family, destination@),
{
    if destination.is_empty() {
        let r = String::new();
        proof {
            assert(r@ =~= dest_match_spec(family, destination@));
        }
        r
    } else {
        let mut r = if family == 10 {
            String::from_str("ip6")
        } else {
            String::from_str("ip")
        };
        r.append(" daddr ");
        r.append(destination);
        r.append(" ");
        proof {
            assert(r@ =~= dest_match_spec(family, destination@));
        }
        r
    }
}

/// Build the `<proto> dport <port> ` fragment; empty when the port is zero.
pub fn proto_dport_match(proto: &str, dport: u16) -> (r: String)
    ensures
        r@ == proto_dport_spec(proto@, dport as int),
{
    if dport == 0 {
        let r = String::new();
        proof {
            assert(r@ =~= proto_dport_spec(proto@, dport as int));
        }
        r
    } else {
        let mut r = String::from_str(proto);
        r.append(" dport ");
        let d = u64_to_string(dport as u64);
        r.append(d.as_str());
        r.append(" ");
        proof {
            assert(u64_dec(dport as nat) =~= i64_dec(dport as int));
            assert(r@ =~= proto_dport_spec(proto@, dport as int));
        }
        r
    }
}

fn iif_match(name: &str) -> (r: String)
    ensures
        r@ == iif_match_spec(name@),
{
    if name.is_empty() {
        let r = String::new();
        proof {
            assert(r@ =~= iif_match_spec(name@));
        }
        r
    } else {
        let mut r = String::from_str("iifname \"");
        r.append(name);
        r.append("\" ");
        proof {
            assert(r@ =~= iif_match_spec(name@));
        }
        r
    }
}

fn oif_match(name: &str) -> (r: String)
    ensures
        r@ == oif_match_spec(name@),
{
    if name.is_empty() {
        let r = String::new();
        proof {
            assert(r@ =~= oif_match_spec(name@));
        }
        r
    } else {
        let mut r = String::from_str("oifname \"");
        r.append(name);
        r.append("\" ");
        proof {
            assert(r@ =~= oif_match_spec(name@));
        }
        r
    }
}

// ---------------------------------------------------------------------------
// Table and chain management
// ---------------------------------------------------------------------------

/// The commands that create the private table and its four base chains.
/// Each uses `add`, which the filter library treats as idempotent, so
/// running the list against a kernel that already has the table changes
/// nothing.
pub fn ensure_table() -> (r: Vec<String>)
    ensures
        r@.len() == 5,
        r@[0]@ == "add table inet phantom"@,
        r@[1]@
            == "add chain inet phantom input { type filter hook input priority 0; policy accept; }"@,
        r@[2]@
            == "add chain inet phantom forward { type filter hook forward priority 0; policy accept; }"@,
        r@[3]@
            == "add chain inet phantom output { type filter hook output priority 0; policy accept; }"@,
        r@[4]@
            == "add chain inet phantom postrouting { type nat hook postrouting priority 100; policy accept; }"@,
{
    let mut r: Vec<String> = Vec::new();
    r.push(String::from_str("add table inet phantom"));
    r.push(
        String::from_str(
            "add chain inet phantom input { type filter hook input priority 0; policy accept; }",
        ),
    );
    r.push(
        String::from_str(
            "add chain inet phantom forward { type filter hook forward priority 0; policy accept; }",
        ),
    );
    r.push(
        String::from_str(
            "add chain inet phantom output { type filter hook output priority 0; policy accept; }",
        ),
    );
    r.push(
        String::from_str(
            "add chain inet phantom postrouting { type nat hook postrouting priority 100; policy accept; }",
        ),
    );
    r
}

/// The command that lists the private table as a structured dump.
pub fn list_rules() -> (r: String)
    ensures
        r@ == "list table inet phantom"@,
{
    String::from_str("list table inet phantom")
}

/// The command that drops every rule in the private table in one kernel
/// operation, leaving the chains in place.
pub fn flush_table() -> (r: String)
    ensures
        r@ == "flush table inet phantom"@,
{
    String::from_str("flush table inet phantom")
}

/// The command that deletes one rule of a chain by its kernel handle.
pub open spec fn delete_rule_spec(chain: Seq<char>, handle: u64) -> Seq<char> {
    "delete rule inet phantom "@ + chain + " handle "@ + u64_dec(handle as nat)
}

/// Build the targeted delete for a captured handle.
pub fn remove_rule_by_handle(chain: &str, handle: u64) -> (r: String)
    ensures
        r@ == delete_rule_spec(chain@, handle),
{
    let mut r = String::from_str("delete rule inet phantom ");
    r.append(chain);
    r.append(" handle ");
    let h = u64_to_string(handle);
    r.append(h.as_str());
    proof {
        assert(r@ =~= delete_rule_spec(chain@, handle));
    }
    r
}

// ---------------------------------------------------------------------------
// Rule insertion
// ---------------------------------------------------------------------------

/// The comment text that tags an installed rule with its store id.
pub open spec fn phantom_tag(id: i64) -> Seq<char> {
    "phantom-rule-"@ + i64_dec(id as int)
}

/// Build the `phantom-rule-<id>` tag.
pub fn phantom_comment(id: i64) -> (r: String)
    ensures
        r@ == phantom_tag(id),
{
    let mut r = String::from_str("phantom-rule-");
    let d = i64_to_string(id);
    r.append(d.as_str());
    proof {
        assert(r@ =~= phantom_tag(id));
    }
    r
}

/// The one rule-insertion command for a stored rule: the target chain, the
/// match fragments in their fixed order — source, destination, transport
/// and port, inbound interface, outbound interface, conntrack state — the
/// action label, and the store-id comment the drift detector finds the rule
/// by.
pub open spec fn apply_rule_spec(r: FirewallRuleRow) -> Seq<char> {
    "add rule inet phantom "@ + r.chain@ + " "@ + source_match_spec(r.family, r.source@)
        + dest_match_spec(r.family, r.destination@) + proto_dport_spec(r.proto@, r.dport as int)
        + iif_match_spec(r.in_iface@) + oif_match_spec(r.out_iface@) + ct_match_spec(
        r.state_match@,
    ) + r.rule_type@ + " comment \""@ + phantom_tag(r.id) + "\""@
}

/// Synthesize the insertion command for one stored rule.
pub fn apply_rule(rule: &FirewallRuleRow) -> (r: String)
    ensures
        r@ == apply_rule_spec(*rule),
{
    let mut r = String::from_str("add rule inet phantom ");
    r.append(rule.chain.as_str());
    r.append(" ");
    let src = source_match(rule.family, rule.source.as_str());
    r.append(src.as_str());
    let dst = dest_match(rule.family, rule.destination.as_str());
    r.append(dst.as_str());
    if rule.dport != 0 {
        r.append(rule.proto.as_str());
        r.append(" dport ");
        let d = i64_to_string(rule.dport as i64);
        r.append(d.as_str());
        r.append(" ");
    }
    let iif = iif_match(rule.in_iface.as_str());
    r.append(iif.as_str());
    let oif = oif_match(rule.out_iface.as_str());
    r.append(oif.as_str());
    if !rule.state_match.as_str().is_empty() {
        r.append("ct state ");
        r.append(rule.state_match.as_str());
        r.append(" ");
    }
    r.append(rule.rule_type.as_str());
    r.append(" comment \"");
    let tag = phantom_comment(rule.id);
    r.append(tag.as_str());
    r.append("\"");
    proof {
        assert(r@ =~= apply_rule_spec(*rule));
    }
    r
}

// ---------------------------------------------------------------------------
// Simple rule helpers
// ---------------------------------------------------------------------------

/// The command accepting traffic on the input chain.
pub fn add_input_accept(family: u8, proto: &str, dport: u16, source: &str) -> (r: String)
    ensures
        r@ == "add rule inet phantom input "@ + source_match_spec(family as i32, source@)
            + proto_dport_spec(proto@, dport as int) + "accept"@,
{
    let mut r = String::from_str("add rule inet phantom input ");
    let src = source_match(family as i32, source);
    r.append(src.as_str());
    let pd = proto_dport_match(proto, dport);
    r.append(pd.as_str());
    r.append("accept");
    r
}

/// The command dropping traffic on the input chain.
pub fn add_input_drop(family: u8, proto: &str, dport: u16, source: &str) -> (r: String)
    ensures
        r@ == "add rule inet phantom input "@ + source_match_spec(family as i32, source@)
            + proto_dport_spec(proto@, dport as int) + "drop"@,
{
    let mut r = String::from_str("add rule inet phantom input ");
    let src = source_match(family as i32, source);
    r.append(src.as_str());
    let pd = proto_dport_match(proto, dport);
    r.append(pd.as_str());
    r.append("drop");
    r
}

/// The command accepting forwarded traffic between two interfaces; the
/// conntrack state text is case-folded as the kernel expects.
pub fn add_forward(in_iface: &str, out_iface: &str, state_match: &str) -> (r: String)
    ensures
        r@ == "add rule inet phantom forward "@ + iif_match_spec(in_iface@) + oif_match_spec(
            out_iface@,
        ) + ct_match_spec(if state_match@.len() == 0 {
            state_match@
        } else {
            lower_of(state_match@)
        }) + "accept"@,
{
    let mut r = String::from_str("add rule inet phantom forward ");
    let iif = iif_match(in_iface);
    r.append(iif.as_str());
    let oif = oif_match(out_iface);
    r.append(oif.as_str());
    if !state_match.is_empty() {
        r.append("ct state ");
        let folded = lowercase(state_match);
        r.append(folded.as_str());
        r.append(" ");
    }
    r.append("accept");
    proof {
        let ct = if state_match@.len() == 0 {
            state_match@
        } else {
            lower_of(state_match@)
        };
        assert(r@ =~= "add rule inet phantom forward "@ + iif_match_spec(in_iface@)
            + oif_match_spec(out_iface@) + ct_match_spec(ct) + "accept"@);
    }
    r
}

/// The command masquerading a source network out an interface.
pub fn add_nat_masquerade(source_network: &str, out_iface: &str) -> (r: String)
    ensures
        r@ == "add rule inet phantom postrouting ip saddr "@ + source_network@ + " "@
            + oif_match_spec(out_iface@) + "masquerade"@,
{
    let mut r = String::from_str("add rule inet phantom postrouting ip saddr ");
    r.append(source_network);
    r.append(" ");
    let oif = oif_match(out_iface);
    r.append(oif.as_str());
    r.append("masquerade");
    r
}

// ---------------------------------------------------------------------------
// Kernel dump projection and handle lookup
// ---------------------------------------------------------------------------

/// What the bridge reads out of one rule node of a structured kernel dump:
/// the chain, the kernel handle, the comment if any, the right-hand values
/// and payload protocols of its match expressions, whether it matches on
/// the transport protocol meta key, the statement keys, and the node's
/// serialized text. The unverified shell projects each dump node into this.
pub struct KernelRule {
    pub chain: String,
    pub handle: u64,
    pub comment: Option<String>,
    pub right_nums: Vec<u64>,
    pub right_strs: Vec<String>,
    pub payload_protos: Vec<String>,
    pub has_l4proto: bool,
    pub actions: Vec<String>,
    pub text: String,
}

/// The structural match the handle lookup uses: protocol by payload or
/// meta key, destination port among the numeric right-hand values, source
/// among the textual ones (exactly or as a substring), and the action
/// present as a statement key. An empty query field matches anything.
pub open spec fn rule_matches(
    n: KernelRule,
    proto: Seq<char>,
    dport: u16,
    source: Seq<char>,
    action: Seq<char>,
) -> bool {
    &&& (proto.len() == 0 || n.has_l4proto || exists|i: int|
        0 <= i < n.payload_protos@.len() && (#[trigger] n.payload_protos@[i])@ == proto)
    &&& (dport == 0 || exists|i: int|
        0 <= i < n.right_nums@.len() && #[trigger] n.right_nums@[i] == dport as u64)
    &&& (source.len() == 0 || exists|i: int|
        0 <= i < n.right_strs@.len() && ((#[trigger] n.right_strs@[i])@ == source
            || spec_contains(n.right_strs@[i]@, source)))
    &&& exists|i: int| 0 <= i < n.actions@.len() && (#[trigger] n.actions@[i])@ == action
}

/// The match a forward-rule lookup uses: both interface names and the
/// conntrack state text occur in the node's serialized form, the state
/// compared without regard to ASCII case.
pub open spec fn forward_matches(
    n: KernelRule,
    in_iface: Seq<char>,
    out_iface: Seq<char>,
    state_match: Seq<char>,
) -> bool {
    &&& (in_iface.len() == 0 || spec_contains(n.text@, in_iface))
    &&& (out_iface.len() == 0 || spec_contains(n.text@, out_iface))
    &&& (state_match.len() == 0 || spec_contains_lower(n.text@, state_match))
}

/// The match a masquerade-rule lookup uses.
pub open spec fn nat_matches(n: KernelRule, source_network: Seq<char>, out_iface: Seq<char>) -> bool {
    &&& (source_network.len() == 0 || spec_contains(n.text@, source_network))
    &&& (out_iface.len() == 0 || spec_contains(n.text@, out_iface))
    &&& spec_contains(n.text@, "masquerade"@)
}

/// The first index of the dump satisfying a predicate, or the length.
pub open spec fn first_match(s: Seq<KernelRule>, pred: spec_fn(KernelRule) -> bool) -> int
    decreases s.len(),
{
    if s.len() == 0 {
        0
    } else if pred(s[0]) {
        0
    } else {
        1 + first_match(s.drop_first(), pred)
    }
}

proof fn lemma_first_match_is(s: Seq<KernelRule>, pred: spec_fn(KernelRule) -> bool, p: int)
    requires
        0 <= p <= s.len(),
        forall|k: int| 0 <= k < p ==> !pred(#[trigger] s[k]),
        p < s.len() ==> pred(s[p]),
    ensures
        first_match(s, pred) == p,
    decreases s.len(),
{
    if s.len() > 0 {
        if p == 0 {
        } else {
            assert(!pred(s[0]));
            let t = s.drop_first();
            assert(forall|k: int| 0 <= k < p - 1 ==> #[trigger] t[k] == s[k + 1]);
            lemma_first_match_is(t, pred, p - 1);
        }
    }
}

fn matches_rule_exec(n: &KernelRule, proto: &str, dport: u16, source: &str, action: &str) -> (r:
    bool)
    ensures
        r == rule_matches(*n, proto@, dport, source@, action@),
{
    let mut m_proto = proto.is_empty() || n.has_l4proto;
    let mut i: usize = 0;
    while i < n.payload_protos.len()
        invariant
            0 <= i <= n.payload_protos@.len(),
            m_proto == (proto@.len() == 0 || n.has_l4proto || exists|k: int|
                0 <= k < i && (#[trigger] n.payload_protos@[k])@ == proto@),
        decreases n.payload_protos@.len() - i,
    {
        if str_eq(n.payload_protos[i].as_str(), proto) {
            m_proto = true;
        }
        i = i + 1;
    }
    let mut m_dport = dport == 0;
    let mut i: usize = 0;
    while i < n.right_nums.len()
        invariant
            0 <= i <= n.right_nums@.len(),
            m_dport == (dport == 0 || exists|k: int|
                0 <= k < i && #[trigger] n.right_nums@[k] == dport as u64),
        decreases n.right_nums@.len() - i,
    {
        if n.right_nums[i] == dport as u64 {
            m_dport = true;
        }
        i = i + 1;
    }
    let mut m_source = source.is_empty();
    let mut i: usize = 0;
    while i < n.right_strs.len()
        invariant
            0 <= i <= n.right_strs@.len(),
            m_source == (source@.len() == 0 || exists|k: int|
                0 <= k < i && ((#[trigger] n.right_strs@[k])@ == source@ || spec_contains(
                    n.right_strs@[k]@,
                    source@,
                ))),
        decreases n.right_strs@.len() - i,
    {
        if str_eq(n.right_strs[i].as_str(), source) || str_contains(
            n.right_strs[i].as_str(),
            source,
        ) {
            m_source = true;
        }
        i = i + 1;
    }
    let mut m_action = false;
    let mut i: usize = 0;
    while i < n.actions.len()
        invariant
            0 <= i <= n.actions@.len(),
            m_action == exists|k: int| 0 <= k < i && (#[trigger] n.actions@[k])@ == action@,
        decreases n.actions@.len() - i,
    {
        if str_eq(n.actions[i].as_str(), action) {
            m_action = true;
        }
        i = i + 1;
    }
    m_proto && m_dport && m_source && m_action
}

/// Find the handle of the first dump rule whose projection matches the
/// query. The address family takes no part in the comparison: the table is
/// family-neutral and the port, protocol and address fields decide.
pub fn find_rule_handle(
    nodes: &Vec<KernelRule>,
    family: u8,
    proto: &str,
    dport: u16,
    source: &str,
    action: &str,
) -> (r: Option<u64>)
    ensures
        ({
            let pred = |n: KernelRule| rule_matches(n, proto@, dport, source@, action@);
            let fm = first_match(nodes@, pred);
            if fm < nodes@.len() {
                r == Some(nodes@[fm].handle)
            } else {
                r is None
            }
        }),
{
    let ghost pred = |n: KernelRule| rule_matches(n, proto@, dport, source@, action@);
    let mut i: usize = 0;
    while i < nodes.len()
        invariant
            0 <= i <= nodes@.len(),
            forall|k: int| 0 <= k < i ==> !pred(#[trigger] nodes@[k]),
            pred == (|n: KernelRule| rule_matches(n, proto@, dport, source@, action@)),
        decreases nodes@.len() - i,
    {
        if matches_rule_exec(&nodes[i], proto, dport, source, action) {
            proof {
                lemma_first_match_is(nodes@, pred, i as int);
            }
            return Some(nodes[i].handle);
        }
        i = i + 1;
    }
    proof {
        lemma_first_match_is(nodes@, pred, nodes@.len() as int);
    }
    None
}

/// Find the handle of the first forward rule whose serialized text matches.
pub fn find_forward_handle(
    nodes: &Vec<KernelRule>,
    in_iface: &str,
    out_iface: &str,
    state_match: &str,
) -> (r: Option<u64>)
    ensures
        ({
            let pred = |n: KernelRule| forward_matches(n, in_iface@, out_iface@, state_match@);
            let fm = first_match(nodes@, pred);
            if fm < nodes@.len() {
                r == Some(nodes@[fm].handle)
            } else {
                r is None
            }
        }),
{
    let ghost pred = |n: KernelRule| forward_matches(n, in_iface@, out_iface@, state_match@);
    let mut i: usize = 0;
    while i < nodes.len()
        invariant
            0 <= i <= nodes@.len(),
            forall|k: int| 0 <= k < i ==> !pred(#[trigger] nodes@[k]),
            pred == (|n: KernelRule| forward_matches(n, in_iface@, out_iface@, state_match@)),
        decreases nodes@.len() - i,
    {
        let m_in = in_iface.is_empty() || str_contains(nodes[i].text.as_str(), in_iface);
        let m_out = out_iface.is_empty() || str_contains(nodes[i].text.as_str(), out_iface);
        let m_state = state_match.is_empty() || str_contains_lower(
            nodes[i].text.as_str(),
            state_match,
        );
        if m_in && m_out && m_state {
            proof {
                lemma_first_match_is(nodes@, pred, i as int);
            }
            return Some(nodes[i].handle);
        }
        i = i + 1;
    }
    proof {
        lemma_first_match_is(nodes@, pred, nodes@.len() as int);
    }
    None
}

/// Find the handle of the first masquerade rule whose serialized text
/// matches.
pub fn find_nat_handle(nodes: &Vec<KernelRule>, source_network: &str, out_iface: &str) -> (r:
    Option<u64>)
    ensures
        ({
            let pred = |n: KernelRule| nat_matches(n, source_network@, out_iface@);
            let fm = first_match(nodes@, pred);
            if fm < nodes@.len() {
                r == Some(nodes@[fm].handle)
            } else {
                r is None
            }
        }),
{
    let ghost pred = |n: KernelRule| nat_matches(n, source_network@, out_iface@);
    let mut i: usize = 0;
    while i < nodes.len()
        invariant
            0 <= i <= nodes@.len(),
            forall|k: int| 0 <= k < i ==> !pred(#[trigger] nodes@[k]),
            pred == (|n: KernelRule| nat_matches(n, source_network@, out_iface@)),
        decreases nodes@.len() - i,
    {
        let m_src = source_network.is_empty() || str_contains(
            nodes[i].text.as_str(),
            source_network,
        );
        let m_out = out_iface.is_empty() || str_contains(nodes[i].text.as_str(), out_iface);
        let m_masq = str_contains(nodes[i].text.as_str(), "masquerade");
        if m_src && m_out && m_masq {
            proof {
                lemma_first_match_is(nodes@, pred, i as int);
            }
            return Some(nodes[i].handle);
        }
        i = i + 1;
    }
    proof {
        lemma_first_match_is(nodes@, pred, nodes@.len() as int);
    }
    None
}

/// Delete the input rule matching the query: look its handle up in the dump
/// projection and build the targeted delete. Fails exactly when no rule
/// matches.
pub fn del_input_rule(
    nodes: &Vec<KernelRule>,
    family: u8,
    proto: &str,
    dport: u16,
    source: &str,
    action: &str,
) -> (r: Result<String, String>)
    ensures
        ({
            let pred = |n: KernelRule| rule_matches(n, proto@, dport, source@, action@);
            let fm = first_match(nodes@, pred);
            if fm < nodes@.len() {
                r matches Ok(c) && c@ == delete_rule_spec("input"@, nodes@[fm].handle)
            } else {
                r is Err
            }
        }),
{
    match find_rule_handle(nodes, family, proto, dport, source, action) {
        Some(h) => Ok(remove_rule_by_handle("input", h)),
        None => Err(String::from_str("Rule not found in dump")),
    }
}

/// Delete the forward rule matching the query. Fails exactly when no rule
/// matches.
pub fn del_forward(
    nodes: &Vec<KernelRule>,
    in_iface: &str,
    out_iface: &str,
    state_match: &str,
) -> (r: Result<String, String>)
    ensures
        ({
            let pred = |n: KernelRule| forward_matches(n, in_iface@, out_iface@, state_match@);
            let fm = first_match(nodes@, pred);
            if fm < nodes@.len() {
                r matches Ok(c) && c@ == delete_rule_spec("forward"@, nodes@[fm].handle)
            } else {
                r is Err
            }
        }),
{
    match find_forward_handle(nodes, in_iface, out_iface, state_match) {
        Some(h) => Ok(remove_rule_by_handle("forward", h)),
        None => Err(String::from_str("Forward rule not found in dump")),
    }
}

/// Delete the masquerade rule matching the query. Fails exactly when no
/// rule matches.
pub fn del_nat_masquerade(nodes: &Vec<KernelRule>, source_network: &str, out_iface: &str) -> (r:
    Result<String, String>)
    ensures
        ({
            let pred = |n: KernelRule| nat_matches(n, source_network@, out_iface@);
            let fm = first_match(nodes@, pred);
            if fm < nodes@.len() {
                r matches Ok(c) && c@ == delete_rule_spec("postrouting"@, nodes@[fm].handle)
            } else {
                r is Err
            }
        }),
{
    match find_nat_handle(nodes, source_network, out_iface) {
        Some(h) => Ok(remove_rule_by_handle("postrouting", h)),
        None => Err(String::from_str("NAT rule not found in dump")),
    }
}

// ---------------------------------------------------------------------------
// Handle capture
// ---------------------------------------------------------------------------

/// `i` is the position of the last `# handle ` marker in `s`.
pub open spec fn is_last_handle_pos(s: Seq<char>, i: int) -> bool {
    contains_at(s, "# handle "@, i) && (forall|k: int| k > i ==> !contains_at(s, "# handle "@, k))
}

/// The handle the handle-augmented output of a rule insertion reports: the
/// decimal run after the last `# handle ` marker, if there is a marker, the
/// run is non-empty, and the value fits.
pub open spec fn spec_parse_handle(s: Seq<char>) -> Option<u64> {
    if exists|i: int| is_last_handle_pos(s, i) {
        let i = choose|i: int| is_last_handle_pos(s, i);
        let j = digits_end(s, i + 9);
        let d = s.subrange(i + 9, j);
        if d.len() > 0 && dec_value(d) <= u64::MAX {
            Some(dec_value(d) as u64)
        } else {
            None
        }
    } else {
        None
    }
}

proof fn lemma_last_handle_pos_unique(s: Seq<char>, i: int, j: int)
    requires
        is_last_handle_pos(s, i),
        is_last_handle_pos(s, j),
    ensures
        i == j,
{
    if i < j {
        assert(!contains_at(s, "# handle "@, j));
    }
    if j < i {
        assert(!contains_at(s, "# handle "@, i));
    }
}

/// Extract the kernel-assigned handle from handle-augmented output.
pub fn parse_handle(output: &str) -> (r: Option<u64>)
    ensures
        r == spec_parse_handle(output@),
{
    let pat = "# handle ";
    let len = output.unicode_len();
    let plen = pat.unicode_len();
    proof {
        reveal_strlit("# handle ");
    }
    let mut last: Option<usize> = None;
    if plen <= len {
        let mut i: usize = 0;
        while i <= len - plen
            invariant
                0 <= i <= len - plen + 1,
                plen == 9,
                plen == pat@.len(),
                plen <= len,
                len == output@.len(),
                pat@ == "# handle "@,
                match last {
                    Some(p) => contains_at(output@, "# handle "@, p as int) && (forall|k: int|
                        p < k < i ==> !contains_at(output@, "# handle "@, k)) && p < i,
                    None => forall|k: int| 0 <= k < i ==> !contains_at(output@, "# handle "@, k),
                },
            decreases len - i,
        {
            let mut j: usize = 0;
            let mut matched = true;
            while j < plen
                invariant
                    0 <= j <= plen,
                    plen == 9,
                    plen == pat@.len(),
                    i + plen <= len,
                    len == output@.len(),
                    pat@ == "# handle "@,
                    matched ==> forall|q: int| 0 <= q < j ==> output@[i + q] == pat@[q],
                    !matched ==> !contains_at(output@, "# handle "@, i as int),
                decreases plen - j,
            {
                if matched && output.get_char(i + j) != pat.get_char(j) {
                    matched = false;
                }
                j = j + 1;
            }
            if matched {
                assert(contains_at(output@, "# handle "@, i as int));
                last = Some(i);
            }
            i = i + 1;
        }
    }
    proof {
        assert forall|k: int| match last {
            Some(p) => p < k ==> !contains_at(output@, "# handle "@, k),
            None => !contains_at(output@, "# handle "@, k),
        } by {
            if contains_at(output@, "# handle "@, k) {
                assert(0 <= k && k + 9 <= len);
            }
        }
    }
    match last {
        Some(p) => {
            proof {
                assert(is_last_handle_pos(output@, p as int));
                let w = choose|w: int| is_last_handle_pos(output@, w);
                lemma_last_handle_pos_unique(output@, w, p as int);
            }
            let dstart = p + 9;
            let dend = digits_end_exec(output, dstart);
            if dend == dstart {
                return None;
            }
            let digits = output.substring_char(dstart, dend);
            proof {
                lemma_digits_end(output@, dstart as int);
            }
            match parse_u64(digits) {
                Some(v) => Some(v),
                None => None,
            }
        },
        None => {
            proof {
                assert forall|k: int| !is_last_handle_pos(output@, k) by {
                    if contains_at(output@, "# handle "@, k) {
                        assert(false);
                    }
                }
            }
            None
        },
    }
}

} // verus!

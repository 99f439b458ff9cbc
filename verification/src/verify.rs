//! Drift detection: the store's applied claims against the live kernel.
//!
//! The store says which rules the bridge believes are installed; a dump of
//! the private kernel table says what is really there. A stored rule is
//! identified in the dump by its `phantom-rule-<id>` comment. The report
//! lists the applied rules whose tag is missing from the dump, and the
//! dump rules carrying a tag that no applied row explains; untagged dump
//! rules belong to base chains or other tooling and are ignored. Routing
//! rules are not dumped — the report only counts the applied rows.

use vstd::prelude::*;

use crate::db::{applied_fw_of, applied_rt_of, FirewallDB, FirewallRuleRow};
use crate::nft::{phantom_comment, phantom_tag, KernelRule};
use crate::db::lemma_filter_push;
use crate::text::{
    all_digits, dec_value, i64_dec, parse_u64, spec_starts_with, str_eq, str_starts_with,
    u64_dec, u64_to_string,
};

verus! {

// ---------------------------------------------------------------------------
// Report types
// ---------------------------------------------------------------------------

/// The composite drift report.
pub struct VerifyResult {
    pub in_sync: bool,
    pub firewall: FirewallVerify,
    pub routing: RoutingVerify,
}

/// The filter-rule side of the report.
pub struct FirewallVerify {
    pub db_applied: usize,
    pub kernel_rules: usize,
    pub missing_in_kernel: Vec<MissingRule>,
    pub extra_in_kernel: Vec<ExtraRule>,
}

/// The routing side: only a count, since routing state is not dumped.
pub struct RoutingVerify {
    pub db_applied: usize,
    pub summary: String,
}

/// An applied rule whose tag does not appear in the kernel dump.
pub struct MissingRule {
    pub rule_id: i64,
    pub chain: String,
    pub comment: String,
}

/// A dump rule carrying a tag that no applied row explains.
pub struct ExtraRule {
    pub chain: String,
    pub handle: u64,
    pub expr_summary: String,
}

// ---------------------------------------------------------------------------
// Drift model
// ---------------------------------------------------------------------------

/// Some dump rule carries exactly this comment.
pub open spec fn kernel_has_tag(kernel: Seq<KernelRule>, tag: Seq<char>) -> bool {
    exists|i: int|
        0 <= i < kernel.len() && ((#[trigger] kernel[i]).comment matches Some(c) && c@ == tag)
}

/// The applied rules whose tag is missing from the dump, in store order.
pub open spec fn missing_rows(
    applied: Seq<FirewallRuleRow>,
    kernel: Seq<KernelRule>,
) -> Seq<FirewallRuleRow> {
    applied.filter(|r: FirewallRuleRow| !kernel_has_tag(kernel, phantom_tag(r.id)))
}

/// Some applied row carries this id.
pub open spec fn applied_has_id(applied: Seq<FirewallRuleRow>, id: i64) -> bool {
    exists|i: int| 0 <= i < applied.len() && (#[trigger] applied[i]).id == id
}

/// A dump rule is unexplained drift: its comment carries the bridge's tag
/// prefix, but what follows is not the decimal id of an applied row.
pub open spec fn is_phantom_extra(n: KernelRule, applied: Seq<FirewallRuleRow>) -> bool {
    &&& n.comment matches Some(c)
    &&& spec_starts_with(n.comment->Some_0@, "phantom-rule-"@)
    &&& ({
        let rest = n.comment->Some_0@.subrange(13, n.comment->Some_0@.len() as int);
        !(rest.len() > 0 && all_digits(rest) && dec_value(rest) <= i64::MAX && applied_has_id(
            applied,
            dec_value(rest) as i64,
        ))
    })
}

/// The unexplained dump rules, in dump order.
pub open spec fn extra_rows(applied: Seq<FirewallRuleRow>, kernel: Seq<KernelRule>) -> Seq<
    KernelRule,
> {
    kernel.filter(|n: KernelRule| is_phantom_extra(n, applied))
}

/// Drift reporting is sound for the bridge's own work: a dump rule whose
/// comment is the tag of an applied row is never reported as unexplained,
/// because the tag's digits read back to exactly that row's id.
pub proof fn lemma_own_tag_not_extra(n: KernelRule, applied: Seq<FirewallRuleRow>, id: i64)
    requires
        id >= 0,
        n.comment matches Some(c) && c@ == phantom_tag(id),
        applied_has_id(applied, id),
    ensures
        !is_phantom_extra(n, applied),
{
    reveal_strlit("phantom-rule-");
    crate::text::lemma_u64_dec(id as nat);
    let c = n.comment->Some_0@;
    assert(c == "phantom-rule-"@ + i64_dec(id as int));
    assert(i64_dec(id as int) == u64_dec(id as nat));
    assert(c.len() == 13 + u64_dec(id as nat).len());
    let rest = c.subrange(13, c.len() as int);
    assert(rest =~= u64_dec(id as nat));
    assert(rest.len() > 0);
    assert(dec_value(rest) == id);
}

fn kernel_has_tag_exec(kernel: &Vec<KernelRule>, tag: &str) -> (r: bool)
    ensures
        r == kernel_has_tag(kernel@, tag@),
{
    let mut i: usize = 0;
    while i < kernel.len()
        invariant
            0 <= i <= kernel@.len(),
            forall|k: int|
                0 <= k < i ==> !((#[trigger] kernel@[k]).comment matches Some(c) && c@ == tag@),
        decreases kernel@.len() - i,
    {
        match &kernel[i].comment {
            Some(c) => {
                if str_eq(c.as_str(), tag) {
                    return true;
                }
            },
            None => {},
        }
        i = i + 1;
    }
    false
}

fn applied_has_id_exec(applied: &Vec<FirewallRuleRow>, id: i64) -> (r: bool)
    ensures
        r == applied_has_id(applied@, id),
{
    let mut i: usize = 0;
    while i < applied.len()
        invariant
            0 <= i <= applied@.len(),
            forall|k: int| 0 <= k < i ==> (#[trigger] applied@[k]).id != id,
        decreases applied@.len() - i,
    {
        if applied[i].id == id {
            return true;
        }
        i = i + 1;
    }
    false
}

fn is_phantom_extra_exec(n: &KernelRule, applied: &Vec<FirewallRuleRow>) -> (r: bool)
    ensures
        r == is_phantom_extra(*n, applied@),
{
    let c = match &n.comment {
        Some(c) => c,
        None => {
            return false;
        },
    };
    if !str_starts_with(c.as_str(), "phantom-rule-") {
        return false;
    }
    proof {
        reveal_strlit("phantom-rule-");
    }
    let clen = c.as_str().unicode_len();
    let rest = c.as_str().substring_char(13, clen);
    match parse_u64(rest) {
        Some(v) => {
            if v <= i64::MAX as u64 {
                let tracked_row = applied_has_id_exec(applied, v as i64);
                !tracked_row
            } else {
                true
            }
        },
        None => true,
    }
}

// ---------------------------------------------------------------------------
// The report
// ---------------------------------------------------------------------------

/// Compare the store's applied claims against a dump of the private
/// kernel table, handed in as plain projections. The report lists every
/// applied rule whose tag is absent from the dump and every tagged dump
/// rule that no applied row explains; it is in sync exactly when both
/// lists are empty. Routing state is not dumped, so its side only counts
/// the applied rows.
#[verifier::rlimit(30)]
pub fn verify_rules(db: &FirewallDB, kernel: &Vec<KernelRule>) -> (r: Result<
    VerifyResult,
    String,
>)
    ensures
        r is Ok,
        r matches Ok(v) ==> ({
            let applied = applied_fw_of(*db);
            let miss = missing_rows(applied, kernel@);
            let ex = extra_rows(applied, kernel@);
            &&& v.firewall.db_applied == applied.len()
            &&& v.firewall.kernel_rules == kernel@.len()
            &&& v.firewall.missing_in_kernel@.len() == miss.len()
            &&& forall|j: int|
                0 <= j < miss.len() ==> (#[trigger] v.firewall.missing_in_kernel@[j]).rule_id
                    == miss[j].id && v.firewall.missing_in_kernel@[j].chain@ == miss[j].chain@
                    && v.firewall.missing_in_kernel@[j].comment@ == phantom_tag(miss[j].id)
            &&& v.firewall.extra_in_kernel@.len() == ex.len()
            &&& forall|j: int|
                0 <= j < ex.len() ==> (#[trigger] v.firewall.extra_in_kernel@[j]).chain@
                    == ex[j].chain@ && v.firewall.extra_in_kernel@[j].handle == ex[j].handle
                    && v.firewall.extra_in_kernel@[j].expr_summary@ == ex[j].comment->Some_0@
            &&& v.in_sync == (miss.len() == 0 && ex.len() == 0)
            &&& v.routing.db_applied == applied_rt_of(*db).len()
            &&& v.routing.summary@ == u64_dec(applied_rt_of(*db).len() as nat)
                + " routing rules applied"@
        }),
{
    let applied = match db.applied_firewall_rules() {
        Ok(v) => v,
        Err(e) => {
            proof {
                assert(false);
            }
            return Err(e);
        },
    };
    let rt_applied = match db.applied_routing_rules() {
        Ok(v) => v,
        Err(e) => {
            proof {
                assert(false);
            }
            return Err(e);
        },
    };
    let ghost miss_pred = |r: FirewallRuleRow| !kernel_has_tag(kernel@, phantom_tag(r.id));
    let mut missing: Vec<MissingRule> = Vec::new();
    let mut i: usize = 0;
    proof {
        assert(applied@.subrange(0, 0).filter(miss_pred) =~= Seq::<FirewallRuleRow>::empty())
            by {
            reveal(Seq::filter);
        }
    }
    while i < applied.len()
        invariant
            0 <= i <= applied@.len(),
            applied@ == applied_fw_of(*db),
            missing@.len() == applied@.subrange(0, i as int).filter(miss_pred).len(),
            forall|j: int|
                0 <= j < missing@.len() ==> ({
                    let m = applied@.subrange(0, i as int).filter(miss_pred)[j];
                    (#[trigger] missing@[j]).rule_id == m.id && missing@[j].chain@ == m.chain@
                        && missing@[j].comment@ == phantom_tag(m.id)
                }),
            miss_pred == (|r: FirewallRuleRow| !kernel_has_tag(kernel@, phantom_tag(r.id))),
        decreases applied@.len() - i,
    {
        let ghost prefix = applied@.subrange(0, i as int);
        let tag = phantom_comment(applied[i].id);
        if !kernel_has_tag_exec(kernel, tag.as_str()) {
            missing.push(
                MissingRule {
                    rule_id: applied[i].id,
                    chain: applied[i].chain.clone(),
                    comment: tag,
                },
            );
        }
        proof {
            lemma_filter_push(prefix, applied@[i as int], miss_pred);
            assert(applied@.subrange(0, i as int + 1) =~= prefix.push(applied@[i as int]));
        }
        i = i + 1;
    }
    proof {
        assert(applied@.subrange(0, applied@.len() as int) =~= applied@);
    }
    let ghost extra_pred = |n: KernelRule| is_phantom_extra(n, applied@);
    let mut extra: Vec<ExtraRule> = Vec::new();
    let mut i: usize = 0;
    proof {
        assert(kernel@.subrange(0, 0).filter(extra_pred) =~= Seq::<KernelRule>::empty()) by {
            reveal(Seq::filter);
        }
    }
    while i < kernel.len()
        invariant
            0 <= i <= kernel@.len(),
            applied@ == applied_fw_of(*db),
            extra@.len() == kernel@.subrange(0, i as int).filter(extra_pred).len(),
            forall|j: int|
                0 <= j < extra@.len() ==> ({
                    let n = kernel@.subrange(0, i as int).filter(extra_pred)[j];
                    (#[trigger] extra@[j]).chain@ == n.chain@ && extra@[j].handle == n.handle
                        && extra@[j].expr_summary@ == n.comment->Some_0@
                }),
            extra_pred == (|n: KernelRule| is_phantom_extra(n, applied@)),
        decreases kernel@.len() - i,
    {
        let ghost prefix = kernel@.subrange(0, i as int);
        if is_phantom_extra_exec(&kernel[i], &applied) {
            let c = match &kernel[i].comment {
                Some(c) => c.clone(),
                None => {
                    proof {
                        assert(false);
                    }
                    String::new()
                },
            };
            extra.push(
                ExtraRule {
                    chain: kernel[i].chain.clone(),
                    handle: kernel[i].handle,
                    expr_summary: c,
                },
            );
        }
        proof {
            lemma_filter_push(prefix, kernel@[i as int], extra_pred);
            assert(kernel@.subrange(0, i as int + 1) =~= prefix.push(kernel@[i as int]));
        }
        i = i + 1;
    }
    proof {
        assert(kernel@.subrange(0, kernel@.len() as int) =~= kernel@);
    }
    let in_sync = missing.len() == 0 && extra.len() == 0;
    let mut summary = u64_to_string(rt_applied.len() as u64);
    summary.append(" routing rules applied");
    let result = VerifyResult {
        in_sync,
        firewall: FirewallVerify {
            db_applied: applied.len(),
            kernel_rules: kernel.len(),
            missing_in_kernel: missing,
            extra_in_kernel: extra,
        },
        routing: RoutingVerify { db_applied: rt_applied.len(), summary },
    };
    Ok(result)
}

} // verus!

//! Drift detection: the store's applied claims against kernel dump
//! projections.

use firewall_bridge::db::FirewallDB;
use firewall_bridge::nft::KernelRule;
use firewall_bridge::verify::verify_rules;

fn dump_node(chain: &str, handle: u64, comment: Option<&str>) -> KernelRule {
    KernelRule {
        chain: chain.to_string(),
        handle,
        comment: comment.map(|c| c.to_string()),
        right_nums: Vec::new(),
        right_strs: Vec::new(),
        payload_protos: Vec::new(),
        has_l4proto: false,
        actions: Vec::new(),
        text: String::new(),
    }
}

#[test]
fn test_verify_empty_db() {
    let db = FirewallDB::new();
    let applied = db.applied_firewall_rules().unwrap();
    assert!(applied.is_empty());
    let report = verify_rules(&db, &Vec::new()).unwrap();
    assert!(report.in_sync);
    assert_eq!(report.firewall.db_applied, 0);
    assert_eq!(report.routing.db_applied, 0);
}

#[test]
fn test_missing_rule_detected() {
    let mut db = FirewallDB::new();
    let g = db.create_rule_group("grp", "custom", 10, "{}").unwrap();
    let rid = db
        .insert_firewall_rule(g.id, "input", "accept", 2, "", 0, 0, "", "", "", "", "", "", 0)
        .unwrap();
    db.update_fw_rule_applied(rid, true, 5).unwrap();

    // the kernel table was flushed behind the bridge's back
    let report = verify_rules(&db, &Vec::new()).unwrap();
    assert!(!report.in_sync);
    assert_eq!(report.firewall.missing_in_kernel.len(), 1);
    assert_eq!(report.firewall.missing_in_kernel[0].rule_id, rid);
    assert_eq!(report.firewall.missing_in_kernel[0].chain, "input");
    assert_eq!(
        report.firewall.missing_in_kernel[0].comment,
        format!("phantom-rule-{}", rid)
    );
    assert!(report.firewall.extra_in_kernel.is_empty());
}

#[test]
fn test_in_sync_when_tag_present() {
    let mut db = FirewallDB::new();
    let g = db.create_rule_group("grp", "custom", 10, "{}").unwrap();
    let rid = db
        .insert_firewall_rule(g.id, "input", "accept", 2, "", 0, 0, "", "", "", "", "", "", 0)
        .unwrap();
    db.update_fw_rule_applied(rid, true, 5).unwrap();

    let tag = format!("phantom-rule-{}", rid);
    let dump = vec![
        dump_node("input", 5, Some(&tag)),
        dump_node("input", 1, None), // base-chain noise is ignored
    ];
    let report = verify_rules(&db, &dump).unwrap();
    assert!(report.in_sync);
    assert_eq!(report.firewall.kernel_rules, 2);
}

#[test]
fn test_extra_rule_detected() {
    let db = FirewallDB::new();
    let dump = vec![
        dump_node("output", 9, Some("phantom-rule-99")),
        dump_node("output", 10, Some("someone-elses-rule")),
    ];
    let report = verify_rules(&db, &dump).unwrap();
    assert!(!report.in_sync);
    assert_eq!(report.firewall.extra_in_kernel.len(), 1);
    assert_eq!(report.firewall.extra_in_kernel[0].handle, 9);
    assert_eq!(report.firewall.extra_in_kernel[0].chain, "output");
    assert_eq!(report.firewall.extra_in_kernel[0].expr_summary, "phantom-rule-99");
}

#[test]
fn test_malformed_tag_counts_as_extra() {
    let db = FirewallDB::new();
    let dump = vec![dump_node("input", 4, Some("phantom-rule-12x"))];
    let report = verify_rules(&db, &dump).unwrap();
    assert_eq!(report.firewall.extra_in_kernel.len(), 1);
}

#[test]
fn test_routing_side_counts_applied() {
    let mut db = FirewallDB::new();
    let g = db.create_rule_group("grp", "custom", 10, "{}").unwrap();
    let rid = db
        .insert_routing_rule(g.id, "policy", "10.8.0.0/24", "", "main", 254, 100, "", "", 0)
        .unwrap();
    db.update_rt_rule_applied(rid, true).unwrap();
    let report = verify_rules(&db, &Vec::new()).unwrap();
    assert_eq!(report.routing.db_applied, 1);
    assert_eq!(report.routing.summary, "1 routing rules applied");
}

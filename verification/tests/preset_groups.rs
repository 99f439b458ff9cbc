//! Preset constructors: the number, order and fields of the rules each
//! preset materializes.

use firewall_bridge::db::FirewallDB;
use firewall_bridge::presets::{
    preset_dns_protection, preset_ipv6_block, preset_kill_switch, preset_multihop, preset_vpn,
};

fn preset_store() -> FirewallDB {
    FirewallDB::new()
}

#[test]
fn test_preset_vpn() {
    let mut db = preset_store();
    preset_vpn(&mut db, "vpn-basic", "wg0", 51820, "10.8.0.0/24", "eth0").unwrap();

    let group = db.get_rule_group("vpn-basic").unwrap();
    assert_eq!(group.group_type, "vpn");
    assert_eq!(group.priority, 100);

    let rules = db.firewall_rules_for_group(group.id).unwrap();
    assert_eq!(rules.len(), 4);
    assert_eq!(rules[0].chain, "input");
    assert_eq!(rules[0].dport, 51820);
    assert_eq!(rules[1].chain, "forward");
    assert_eq!(rules[2].state_match, "established,related");
    assert_eq!(rules[3].rule_type, "masquerade");
}

#[test]
fn test_preset_vpn_rule_fields() {
    let mut db = preset_store();
    preset_vpn(&mut db, "vpn-basic", "wg0", 51820, "10.8.0.0/24", "eth0").unwrap();
    let group = db.get_rule_group("vpn-basic").unwrap();
    let rules = db.firewall_rules_for_group(group.id).unwrap();
    assert_eq!(rules[0].proto, "udp");
    assert_eq!(rules[1].in_iface, "wg0");
    assert_eq!(rules[1].out_iface, "eth0");
    assert_eq!(rules[2].in_iface, "eth0");
    assert_eq!(rules[2].out_iface, "wg0");
    assert_eq!(rules[3].chain, "postrouting");
    assert_eq!(rules[3].source, "10.8.0.0/24");
    assert_eq!(rules[3].out_iface, "eth0");
    for (i, r) in rules.iter().enumerate() {
        assert_eq!(r.position, i as i32);
        assert!(!r.applied);
        assert_eq!(r.nft_handle, 0);
    }
}

#[test]
fn test_preset_multihop() {
    let mut db = preset_store();
    preset_multihop(&mut db, "hop1", "wg0", "wg-hop1", 100, 200, "10.8.0.0/24").unwrap();

    let group = db.get_rule_group("hop1").unwrap();
    assert_eq!(group.group_type, "multihop");

    let fw_rules = db.firewall_rules_for_group(group.id).unwrap();
    assert_eq!(fw_rules.len(), 2);

    let rt_rules = db.routing_rules_for_group(group.id).unwrap();
    assert_eq!(rt_rules.len(), 4);
}

#[test]
fn test_preset_multihop_no_fwmark() {
    let mut db = preset_store();
    preset_multihop(&mut db, "hop-nofwm", "wg0", "wg-hop1", 0, 200, "10.8.0.0/24").unwrap();

    let group = db.get_rule_group("hop-nofwm").unwrap();
    let rt_rules = db.routing_rules_for_group(group.id).unwrap();
    assert_eq!(rt_rules.len(), 3);
}

#[test]
fn test_preset_multihop_rule_shape() {
    let mut db = preset_store();
    preset_multihop(&mut db, "hop1", "wg0", "wg-hop1", 100, 200, "10.8.0.0/24").unwrap();
    let group = db.get_rule_group("hop1").unwrap();
    assert_eq!(group.priority, 80);
    let rt = db.routing_rules_for_group(group.id).unwrap();
    assert_eq!(rt[0].rule_type, "table");
    assert_eq!(rt[0].table_id, 200);
    assert_eq!(rt[1].rule_type, "policy");
    assert_eq!(rt[1].from_network, "10.8.0.0/24");
    assert_eq!(rt[1].priority, 100);
    assert_eq!(rt[2].rule_type, "route");
    assert_eq!(rt[2].destination, "default");
    assert_eq!(rt[2].device, "wg-hop1");
    assert_eq!(rt[3].rule_type, "policy");
    assert_eq!(rt[3].priority, 200);
    assert_eq!(rt[3].fwmark, 100);
}

#[test]
fn test_preset_kill_switch() {
    let mut db = preset_store();
    preset_kill_switch(&mut db, 51820, 443, "wg0").unwrap();

    let group = db.get_rule_group("kill-switch").unwrap();
    assert_eq!(group.group_type, "kill_switch");
    assert_eq!(group.priority, 10);

    let rules = db.firewall_rules_for_group(group.id).unwrap();
    assert_eq!(rules.len(), 11);

    assert_eq!(rules[0].chain, "output");
    assert_eq!(rules[0].out_iface, "lo");

    let last = rules.last().unwrap();
    assert_eq!(last.chain, "input");
    assert_eq!(last.rule_type, "drop");
}

#[test]
fn test_preset_kill_switch_no_wstunnel() {
    let mut db = preset_store();
    preset_kill_switch(&mut db, 51820, 0, "wg0").unwrap();

    let group = db.get_rule_group("kill-switch").unwrap();
    let rules = db.firewall_rules_for_group(group.id).unwrap();
    assert_eq!(rules.len(), 10);
}

#[test]
fn test_preset_dns_protection() {
    let mut db = preset_store();
    preset_dns_protection(&mut db, "wg0").unwrap();

    let group = db.get_rule_group("dns-protection").unwrap();
    assert_eq!(group.group_type, "dns_protection");

    let rules = db.firewall_rules_for_group(group.id).unwrap();
    assert_eq!(rules.len(), 5);

    for r in &rules {
        assert_eq!(r.chain, "output");
    }

    assert_eq!(rules[0].rule_type, "accept");
    assert_eq!(rules[0].out_iface, "wg0");
    assert_eq!(rules[3].rule_type, "drop");
    assert_eq!(rules[4].rule_type, "drop");
}

#[test]
fn test_preset_ipv6_block() {
    let mut db = preset_store();
    preset_ipv6_block(&mut db).unwrap();

    let group = db.get_rule_group("ipv6-block").unwrap();
    assert_eq!(group.group_type, "ipv6_block");
    assert_eq!(group.priority, 5);

    let rules = db.firewall_rules_for_group(group.id).unwrap();
    assert_eq!(rules.len(), 3);

    for r in &rules {
        assert_eq!(r.family, 10);
        assert_eq!(r.rule_type, "drop");
    }
}

#[test]
fn test_preset_metadata_stored() {
    let mut db = preset_store();
    preset_vpn(&mut db, "meta-test", "wg0", 51820, "10.8.0.0/24", "eth0").unwrap();

    let group = db.get_rule_group("meta-test").unwrap();
    let meta: serde_json::Value = serde_json::from_str(&group.metadata).unwrap();
    assert_eq!(meta["preset"], "vpn");
    assert_eq!(meta["wg_port"], 51820);
    assert_eq!(meta["wg_iface"], "wg0");
}

#[test]
fn test_preset_determinism() {
    let mut db1 = preset_store();
    let mut db2 = preset_store();
    preset_kill_switch(&mut db1, 51820, 443, "wg0").unwrap();
    preset_kill_switch(&mut db2, 51820, 443, "wg0").unwrap();
    let g1 = db1.get_rule_group("kill-switch").unwrap();
    let g2 = db2.get_rule_group("kill-switch").unwrap();
    let r1 = db1.firewall_rules_for_group(g1.id).unwrap();
    let r2 = db2.firewall_rules_for_group(g2.id).unwrap();
    assert_eq!(r1.len(), r2.len());
    for (a, b) in r1.iter().zip(r2.iter()) {
        assert_eq!(a.chain, b.chain);
        assert_eq!(a.rule_type, b.rule_type);
        assert_eq!(a.position, b.position);
        assert_eq!(a.dport, b.dport);
        assert_eq!(a.comment, b.comment);
    }
}

#[test]
fn test_preset_name_collision_fails() {
    let mut db = preset_store();
    preset_ipv6_block(&mut db).unwrap();
    assert!(preset_ipv6_block(&mut db).is_err());
}

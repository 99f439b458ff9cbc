//! Store behaviour: configuration lifecycle, group and rule CRUD, cascade
//! deletion, and the listing orders.

use firewall_bridge::db::FirewallDB;

fn store() -> FirewallDB {
    FirewallDB::new()
}

#[test]
fn test_config_lifecycle() {
    let mut db = store();
    db.init_config().unwrap();
    let cfg = db.get_config().unwrap();
    assert_eq!(cfg.state, "initialized");
    assert!(!cfg.ip_forward_enabled);

    db.set_state("started").unwrap();
    assert_eq!(db.get_config().unwrap().state, "started");

    db.set_config_flag("ip_forward_enabled", true).unwrap();
    assert!(db.get_config().unwrap().ip_forward_enabled);
}

#[test]
fn test_config_flag_allow_list() {
    let mut db = store();
    db.init_config().unwrap();
    assert!(db.set_config_flag("ipv6_blocked", true).is_ok());
    assert!(db.set_config_flag("kill_switch_active", true).is_ok());
    assert!(db.set_config_flag("state", true).is_err());
    assert!(db.set_config_flag("updated_at", true).is_err());
    let cfg = db.get_config().unwrap();
    assert!(cfg.ipv6_blocked);
    assert!(cfg.kill_switch_active);
}

#[test]
fn test_rule_group_crud() {
    let mut db = store();
    let group = db.create_rule_group("vpn-basic", "vpn", 50, "{}").unwrap();
    assert_eq!(group.name, "vpn-basic");
    assert_eq!(group.group_type, "vpn");
    assert_eq!(group.priority, 50);
    assert!(group.enabled);

    let groups = db.list_rule_groups().unwrap();
    assert_eq!(groups.len(), 1);

    db.set_group_enabled("vpn-basic", false).unwrap();
    let updated = db.get_rule_group("vpn-basic").unwrap();
    assert!(!updated.enabled);

    db.delete_rule_group("vpn-basic").unwrap();
    assert!(db.get_rule_group("vpn-basic").is_err());
}

#[test]
fn test_firewall_rule_crud() {
    let mut db = store();
    let group = db.create_rule_group("test", "custom", 100, "{}").unwrap();

    let rule_id = db
        .insert_firewall_rule(
            group.id, "input", "accept", 2, "udp", 51820, 0, "", "", "", "", "", "wg-port", 0,
        )
        .unwrap();
    assert!(rule_id > 0);

    let rules = db.firewall_rules_for_group(group.id).unwrap();
    assert_eq!(rules.len(), 1);
    assert_eq!(rules[0].chain, "input");
    assert_eq!(rules[0].dport, 51820);
    assert!(!rules[0].applied);

    db.update_fw_rule_applied(rule_id, true, 42).unwrap();
    let applied = db.applied_firewall_rules().unwrap();
    assert_eq!(applied.len(), 1);
    assert_eq!(applied[0].nft_handle, 42);

    db.clear_fw_applied_state().unwrap();
    assert_eq!(db.applied_firewall_rules().unwrap().len(), 0);
}

#[test]
fn test_routing_rule_crud() {
    let mut db = store();
    let group = db.create_rule_group("mh", "multihop", 100, "{}").unwrap();

    let rule_id = db
        .insert_routing_rule(group.id, "policy", "10.8.0.0/24", "", "multihop", 100, 100, "", "", 0)
        .unwrap();
    assert!(rule_id > 0);

    let rules = db.routing_rules_for_group(group.id).unwrap();
    assert_eq!(rules.len(), 1);
    assert_eq!(rules[0].rule_type, "policy");

    db.update_rt_rule_applied(rule_id, true).unwrap();
    assert_eq!(db.applied_routing_rules().unwrap().len(), 1);

    db.clear_rt_applied_state().unwrap();
    assert_eq!(db.applied_routing_rules().unwrap().len(), 0);
}

#[test]
fn test_cascade_delete() {
    let mut db = store();
    let group = db.create_rule_group("del-test", "custom", 100, "{}").unwrap();
    db.insert_firewall_rule(group.id, "input", "accept", 2, "tcp", 443, 0, "", "", "", "", "", "", 0)
        .unwrap();
    db.insert_firewall_rule(group.id, "forward", "accept", 2, "", 0, 0, "", "", "wg0", "eth0", "", "", 1)
        .unwrap();
    db.insert_routing_rule(group.id, "policy", "10.0.0.0/8", "", "main", 254, 100, "", "", 0)
        .unwrap();

    assert_eq!(db.firewall_rules_for_group(group.id).unwrap().len(), 2);
    assert_eq!(db.routing_rules_for_group(group.id).unwrap().len(), 1);

    db.delete_rule_group("del-test").unwrap();
    assert_eq!(db.all_firewall_rules().unwrap().len(), 0);
}

#[test]
fn test_enabled_groups() {
    let mut db = store();
    db.create_rule_group("enabled", "vpn", 50, "{}").unwrap();
    db.create_rule_group("disabled", "vpn", 100, "{}").unwrap();
    db.set_group_enabled("disabled", false).unwrap();

    let enabled = db.enabled_groups().unwrap();
    assert_eq!(enabled.len(), 1);
    assert_eq!(enabled[0].name, "enabled");
}

#[test]
fn test_list_order_priority_then_name() {
    let mut db = store();
    db.create_rule_group("zeta", "custom", 50, "{}").unwrap();
    db.create_rule_group("alpha", "custom", 100, "{}").unwrap();
    db.create_rule_group("beta", "custom", 50, "{}").unwrap();
    db.create_rule_group("omega", "custom", 10, "{}").unwrap();

    let groups = db.list_rule_groups().unwrap();
    let names: Vec<&str> = groups.iter().map(|g| g.name.as_str()).collect();
    assert_eq!(names, vec!["omega", "beta", "zeta", "alpha"]);
}

#[test]
fn test_create_then_get_round_trip() {
    let mut db = store();
    db.create_rule_group("round", "vpn", 70, "{\"k\":1}").unwrap();
    let g = db.get_rule_group("round").unwrap();
    assert_eq!(g.name, "round");
    assert_eq!(g.group_type, "vpn");
    assert_eq!(g.priority, 70);
    assert_eq!(g.metadata, "{\"k\":1}");
    assert!(g.enabled);
}

#[test]
fn test_duplicate_group_name_rejected() {
    let mut db = store();
    db.create_rule_group("dup", "custom", 10, "{}").unwrap();
    assert!(db.create_rule_group("dup", "vpn", 20, "{}").is_err());
}

#[test]
fn test_insert_rule_requires_group() {
    let mut db = store();
    let r = db.insert_firewall_rule(7, "input", "accept", 2, "", 0, 0, "", "", "", "", "", "", 0);
    assert!(r.is_err());
    let r2 = db.insert_routing_rule(7, "policy", "", "", "", 0, 0, "", "", 0);
    assert!(r2.is_err());
}

#[test]
fn test_rules_for_group_position_order() {
    let mut db = store();
    let g = db.create_rule_group("pos", "custom", 10, "{}").unwrap();
    db.insert_firewall_rule(g.id, "output", "drop", 2, "", 0, 0, "", "", "", "", "", "", 2)
        .unwrap();
    db.insert_firewall_rule(g.id, "input", "accept", 2, "", 0, 0, "", "", "", "", "", "", 0)
        .unwrap();
    db.insert_firewall_rule(g.id, "forward", "accept", 2, "", 0, 0, "", "", "", "", "", "", 1)
        .unwrap();
    let rules = db.firewall_rules_for_group(g.id).unwrap();
    assert_eq!(rules[0].position, 0);
    assert_eq!(rules[1].position, 1);
    assert_eq!(rules[2].position, 2);
    assert_eq!(rules[0].chain, "input");
    assert_eq!(rules[2].chain, "output");
}

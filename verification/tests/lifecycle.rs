//! The lifecycle state machine: init, start, stop, close, the applied
//! flags across transitions, and per-group operations while running.

use firewall_bridge::db::FirewallDB;
use firewall_bridge::state::{FirewallState, Status};

fn machine_with_group() -> FirewallState {
    let mut db = FirewallDB::new();
    let g = db.create_rule_group("grp", "custom", 10, "{}").unwrap();
    db.insert_firewall_rule(g.id, "input", "accept", 2, "udp", 51820, 0, "", "", "", "", "", "", 0)
        .unwrap();
    db.insert_firewall_rule(g.id, "output", "drop", 2, "", 0, 0, "", "", "", "", "", "", 1)
        .unwrap();
    let mut st = FirewallState::new();
    st.init(db).unwrap();
    st
}

#[test]
fn test_init_config_row() {
    let mut st = FirewallState::new();
    st.init(FirewallDB::new()).unwrap();
    assert!(matches!(st.status(), Status::Initialized));
    let db = st.db().unwrap();
    let cfg = db.get_config().unwrap();
    assert_eq!(cfg.state, "initialized");
    assert!(!cfg.ip_forward_enabled);
    assert!(!cfg.ipv6_blocked);
    assert!(!cfg.kill_switch_active);
}

#[test]
fn test_init_clears_applied_flags() {
    let mut db = FirewallDB::new();
    let g = db.create_rule_group("grp", "custom", 10, "{}").unwrap();
    let rid = db
        .insert_firewall_rule(g.id, "input", "accept", 2, "", 0, 0, "", "", "", "", "", "", 0)
        .unwrap();
    db.update_fw_rule_applied(rid, true, 9).unwrap();
    let tid = db
        .insert_routing_rule(g.id, "policy", "10.0.0.0/8", "", "main", 254, 100, "", "", 0)
        .unwrap();
    db.update_rt_rule_applied(tid, true).unwrap();

    let mut st = FirewallState::new();
    st.init(db).unwrap();
    let db = st.db().unwrap();
    for r in db.all_firewall_rules().unwrap() {
        assert!(!r.applied);
        assert_eq!(r.nft_handle, 0);
    }
    assert_eq!(db.applied_routing_rules().unwrap().len(), 0);
}

#[test]
fn test_start_requires_initialized() {
    let mut st = FirewallState::new();
    assert!(st.start().is_err());
    st.init(FirewallDB::new()).unwrap();
    let plan = st.start().unwrap();
    assert_eq!(plan.flush, "flush table inet phantom");
    assert!(matches!(st.status(), Status::Started));
    assert!(st.start().is_err());
}

#[test]
fn test_start_plan_lists_enabled_groups() {
    let mut st = machine_with_group();
    let plan = st.start().unwrap();
    assert_eq!(plan.groups.len(), 1);
    assert_eq!(plan.groups[0].fw.len(), 2);
    assert_eq!(plan.groups[0].fw[0].chain, "input");
    assert_eq!(plan.groups[0].fw[1].chain, "output");
    assert_eq!(plan.groups[0].rt.len(), 0);
}

#[test]
fn test_disabled_group_not_in_start_plan() {
    let mut db = FirewallDB::new();
    let g = db.create_rule_group("grp", "custom", 10, "{}").unwrap();
    let rid = db
        .insert_firewall_rule(g.id, "input", "accept", 2, "", 0, 0, "", "", "", "", "", "", 0)
        .unwrap();
    db.set_group_enabled("grp", false).unwrap();
    let mut st = FirewallState::new();
    st.init(db).unwrap();
    let plan = st.start().unwrap();
    assert_eq!(plan.groups.len(), 0);
    let db = st.db().unwrap();
    assert_eq!(db.applied_firewall_rules().unwrap().len(), 0);
    let rows = db.all_firewall_rules().unwrap();
    assert_eq!(rows.len(), 1);
    assert_eq!(rows[0].id, rid);
    assert!(!rows[0].applied);
}

#[test]
fn test_partial_failure_start_continues() {
    let mut st = machine_with_group();
    let plan = st.start().unwrap();
    assert!(matches!(st.status(), Status::Started));
    let first = plan.groups[0].fw[0].id;
    let second = plan.groups[0].fw[1].id;
    st.record_fw_failure(first, "kernel said no");
    st.record_fw_success(second, 7).unwrap();
    assert!(matches!(st.status(), Status::Started));
    assert!(!st.last_error().is_empty());
    let db = st.db().unwrap();
    let applied = db.applied_firewall_rules().unwrap();
    assert_eq!(applied.len(), 1);
    assert_eq!(applied[0].id, second);
    assert_eq!(applied[0].nft_handle, 7);
}

#[test]
fn test_stop_clears_applied_state() {
    let mut st = machine_with_group();
    let plan = st.start().unwrap();
    let first = plan.groups[0].fw[0].id;
    st.record_fw_success(first, 5).unwrap();
    let stop_plan = st.stop().unwrap();
    assert_eq!(stop_plan.flush, "flush table inet phantom");
    assert!(matches!(st.status(), Status::Stopped));
    let db = st.db().unwrap();
    for r in db.all_firewall_rules().unwrap() {
        assert!(!r.applied);
        assert_eq!(r.nft_handle, 0);
    }
    assert_eq!(db.get_config().unwrap().state, "stopped");
}

#[test]
fn test_stop_plan_lists_applied_routing_rules() {
    let mut db = FirewallDB::new();
    let g = db.create_rule_group("grp", "custom", 10, "{}").unwrap();
    db.insert_routing_rule(g.id, "policy", "10.8.0.0/24", "", "main", 254, 100, "", "", 0)
        .unwrap();
    let mut st = FirewallState::new();
    st.init(db).unwrap();
    let plan = st.start().unwrap();
    let rid = plan.groups[0].rt[0].id;
    st.record_rt_success(rid).unwrap();
    let stop_plan = st.stop().unwrap();
    assert_eq!(stop_plan.rt_remove.len(), 1);
    assert_eq!(stop_plan.rt_remove[0].id, rid);
}

#[test]
fn test_stop_only_from_started() {
    let mut st = FirewallState::new();
    assert!(st.stop().is_err());
    st.init(FirewallDB::new()).unwrap();
    assert!(st.stop().is_err());
}

#[test]
fn test_close_returns_to_uninitialized() {
    let mut st = machine_with_group();
    st.start().unwrap();
    let plan = st.close().unwrap();
    assert!(plan.is_some());
    assert!(matches!(st.status(), Status::Uninitialized));
    assert!(st.db().is_err());
    assert!(st.last_error().is_empty());
}

#[test]
fn test_reinit_is_idempotent() {
    let mut st = machine_with_group();
    st.start().unwrap();
    st.init(FirewallDB::new()).unwrap();
    assert!(matches!(st.status(), Status::Initialized));
}

#[test]
fn test_enable_disable_group_while_started() {
    let mut st = machine_with_group();
    st.start().unwrap();
    let removed = st.disable_rule_group("grp").unwrap();
    assert!(removed.is_some());
    let again = st.enable_rule_group("grp").unwrap();
    let plan = again.unwrap();
    assert_eq!(plan.fw.len(), 2);
    assert!(st.enable_rule_group("missing").is_err());
}

#[test]
fn test_add_and_remove_rule_while_started() {
    let mut st = machine_with_group();
    st.start().unwrap();
    let (id, apply) = st
        .add_rule("grp", "forward", "accept", 2, "", 0, "", "", "wg0", "eth0", "")
        .unwrap();
    let row = apply.unwrap();
    assert_eq!(row.id, id);
    assert_eq!(row.position, 2);
    st.record_fw_success(id, 11).unwrap();
    let removal = st.remove_rule(id).unwrap();
    let (chain, handle) = removal.unwrap();
    assert_eq!(chain, "forward");
    assert_eq!(handle, 11);
    let db = st.db().unwrap();
    assert_eq!(db.all_firewall_rules().unwrap().len(), 2);
}

#[test]
fn test_rt_add_and_remove_rule() {
    let mut st = machine_with_group();
    st.start().unwrap();
    let (id, apply) = st
        .rt_add_rule("grp", "policy", "10.8.0.0/24", "", "main", 254, 100, "", "", 0)
        .unwrap();
    assert!(apply.is_some());
    st.record_rt_success(id).unwrap();
    let removal = st.rt_remove_rule(id).unwrap();
    let row = removal.unwrap();
    assert_eq!(row.id, id);
    assert!(row.applied);
    let db = st.db().unwrap();
    assert_eq!(db.routing_rules_for_group(1).unwrap().len(), 0);
}

#[test]
fn test_delete_group_cascades_through_machine() {
    let mut st = machine_with_group();
    st.delete_rule_group("grp").unwrap();
    let db = st.db().unwrap();
    assert!(db.get_rule_group("grp").is_err());
    assert_eq!(db.all_firewall_rules().unwrap().len(), 0);
}

#[test]
fn test_status_labels() {
    assert_eq!(Status::Uninitialized.as_str(), "uninitialized");
    assert_eq!(Status::Initialized.as_str(), "initialized");
    assert_eq!(Status::Started.as_str(), "started");
    assert_eq!(Status::Stopped.as_str(), "stopped");
    assert_eq!(Status::Error.as_str(), "error");
}

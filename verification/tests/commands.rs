//! Command synthesis and datagram construction: the exact text sent to the
//! packet filter and the exact bytes sent over netlink.

use firewall_bridge::db::FirewallRuleRow;
use firewall_bridge::error::ErrorCode;
use firewall_bridge::nft::{
    add_forward, add_input_accept, add_input_drop, add_nat_masquerade, apply_rule, del_forward,
    del_input_rule, del_nat_masquerade, ensure_table, find_forward_handle, find_nat_handle,
    find_rule_handle, flush_table, list_rules, parse_handle, phantom_comment, proto_dport_match,
    remove_rule_by_handle, KernelRule,
};
use firewall_bridge::route::{
    align4, ensure_table as ensure_rt_table, parse_ack, parse_network, policy_add, policy_delete,
    resolve_table, resolve_table_static, route_add, route_delete, AckError, Ipv4Net,
};
use firewall_bridge::text::{i64_to_string, parse_u64, str_contains, str_eq, u64_to_string};

fn sample_rule() -> FirewallRuleRow {
    FirewallRuleRow {
        id: 7,
        group_id: 1,
        chain: "input".to_string(),
        rule_type: "accept".to_string(),
        family: 2,
        proto: "udp".to_string(),
        dport: 51820,
        sport: 0,
        source: "10.8.0.0/24".to_string(),
        destination: "".to_string(),
        in_iface: "".to_string(),
        out_iface: "".to_string(),
        state_match: "".to_string(),
        comment: "".to_string(),
        position: 0,
        applied: false,
        nft_handle: 0,
        created_at: 0,
    }
}

#[test]
fn test_apply_rule_command_text() {
    let cmd = apply_rule(&sample_rule());
    assert_eq!(
        cmd,
        "add rule inet phantom input ip saddr 10.8.0.0/24 udp dport 51820 accept comment \"phantom-rule-7\""
    );
}

#[test]
fn test_apply_rule_all_fragments() {
    let mut r = sample_rule();
    r.id = 12;
    r.chain = "forward".to_string();
    r.family = 10;
    r.destination = "fd00::/8".to_string();
    r.in_iface = "wg0".to_string();
    r.out_iface = "eth0".to_string();
    r.state_match = "established,related".to_string();
    let cmd = apply_rule(&r);
    assert_eq!(
        cmd,
        "add rule inet phantom forward ip6 saddr 10.8.0.0/24 ip6 daddr fd00::/8 udp dport 51820 iifname \"wg0\" oifname \"eth0\" ct state established,related accept comment \"phantom-rule-12\""
    );
}

#[test]
fn test_ensure_table_commands() {
    let cmds = ensure_table();
    assert_eq!(cmds.len(), 5);
    assert_eq!(cmds[0], "add table inet phantom");
    assert!(cmds[1].starts_with("add chain inet phantom input"));
    assert!(cmds[2].starts_with("add chain inet phantom forward"));
    assert!(cmds[3].starts_with("add chain inet phantom output"));
    assert!(cmds[4].contains("type nat hook postrouting priority 100"));
    // the command list is a pure function of nothing: two calls agree
    assert_eq!(ensure_table(), cmds);
}

#[test]
fn test_simple_rule_helpers() {
    assert_eq!(
        add_input_accept(2, "udp", 51820, ""),
        "add rule inet phantom input udp dport 51820 accept"
    );
    assert_eq!(
        add_input_drop(10, "", 0, "fe80::/10"),
        "add rule inet phantom input ip6 saddr fe80::/10 drop"
    );
    assert_eq!(
        add_forward("wg0", "eth0", "RELATED,ESTABLISHED"),
        "add rule inet phantom forward iifname \"wg0\" oifname \"eth0\" ct state related,established accept"
    );
    assert_eq!(
        add_nat_masquerade("10.8.0.0/24", "eth0"),
        "add rule inet phantom postrouting ip saddr 10.8.0.0/24 oifname \"eth0\" masquerade"
    );
    assert_eq!(proto_dport_match("tcp", 443), "tcp dport 443 ");
    assert_eq!(proto_dport_match("tcp", 0), "");
    assert_eq!(list_rules(), "list table inet phantom");
    assert_eq!(flush_table(), "flush table inet phantom");
    assert_eq!(
        remove_rule_by_handle("input", 42),
        "delete rule inet phantom input handle 42"
    );
    assert_eq!(phantom_comment(19), "phantom-rule-19");
}

#[test]
fn test_parse_handle_from_output() {
    let out = "add rule inet phantom input udp dport 51820 accept # handle 42";
    assert_eq!(parse_handle(out), Some(42));
    let multi = "table inet phantom # handle 1\nadd rule ... # handle 57";
    assert_eq!(parse_handle(multi), Some(57));
    assert_eq!(parse_handle("no marker here"), None);
    assert_eq!(parse_handle("ends with # handle "), None);
}

fn node(chain: &str, handle: u64, comment: Option<&str>, text: &str) -> KernelRule {
    KernelRule {
        chain: chain.to_string(),
        handle,
        comment: comment.map(|c| c.to_string()),
        right_nums: Vec::new(),
        right_strs: Vec::new(),
        payload_protos: Vec::new(),
        has_l4proto: false,
        actions: Vec::new(),
        text: text.to_string(),
    }
}

#[test]
fn test_find_rule_handle_structural() {
    let mut n1 = node("input", 4, None, "");
    n1.payload_protos.push("udp".to_string());
    n1.right_nums.push(51820);
    n1.actions.push("accept".to_string());
    let mut n2 = node("input", 9, None, "");
    n2.payload_protos.push("tcp".to_string());
    n2.right_nums.push(443);
    n2.actions.push("drop".to_string());
    let nodes = vec![n1, n2];
    assert_eq!(find_rule_handle(&nodes, 2, "udp", 51820, "", "accept"), Some(4));
    assert_eq!(find_rule_handle(&nodes, 2, "tcp", 443, "", "drop"), Some(9));
    assert_eq!(find_rule_handle(&nodes, 2, "tcp", 443, "", "accept"), None);
    let del = del_input_rule(&nodes, 2, "udp", 51820, "", "accept").unwrap();
    assert_eq!(del, "delete rule inet phantom input handle 4");
}

#[test]
fn test_find_forward_and_nat_handles() {
    let nodes = vec![
        node("forward", 3, None, "iifname wg0 oifname eth0 accept"),
        node("postrouting", 6, None, "ip saddr 10.8.0.0/24 oifname eth0 masquerade"),
    ];
    assert_eq!(find_forward_handle(&nodes, "wg0", "eth0", ""), Some(3));
    assert_eq!(find_forward_handle(&nodes, "wg1", "eth0", ""), None);
    assert_eq!(find_nat_handle(&nodes, "10.8.0.0/24", "eth0"), Some(6));
    assert_eq!(
        del_forward(&nodes, "wg0", "eth0", "").unwrap(),
        "delete rule inet phantom forward handle 3"
    );
    assert_eq!(
        del_nat_masquerade(&nodes, "10.8.0.0/24", "eth0").unwrap(),
        "delete rule inet phantom postrouting handle 6"
    );
    assert!(del_forward(&nodes, "tun9", "", "").is_err());
}

#[test]
fn test_parse_network_exact() {
    let n = parse_network("10.8.0.0/24").unwrap();
    assert_eq!((n.a, n.b, n.c, n.d, n.prefix), (10, 8, 0, 0, 24));
    assert!(parse_network("10.8.0/24").is_err());
    assert!(parse_network("10.8.0.0").is_err());
    assert!(parse_network("10.08.0.0/24").is_err());
    assert!(parse_network("300.0.0.1/8").is_err());
    assert!(parse_network("").is_err());
}

#[test]
fn test_policy_add_datagram_bytes() {
    let buf = policy_add("10.8.0.0/24", "", 200, 100, 1).unwrap();
    assert_eq!(buf.len(), 44);
    assert_eq!(&buf[0..4], &[44, 0, 0, 0]); // length
    assert_eq!(&buf[4..6], &[32, 0]); // new-rule
    assert_eq!(&buf[6..8], &[0x05, 0x06]); // request|ack|create|excl
    assert_eq!(&buf[8..12], &[1, 0, 0, 0]); // sequence
    assert_eq!(buf[16], 2); // AF_INET
    assert_eq!(buf[17], 0); // dst_len
    assert_eq!(buf[18], 24); // src_len
    assert_eq!(buf[20], 200); // one-byte table id
    assert_eq!(buf[23], 1); // to-table action
    assert_eq!(&buf[28..36], &[8, 0, 2, 0, 10, 8, 0, 0]); // source attr
    assert_eq!(&buf[36..44], &[8, 0, 6, 0, 100, 0, 0, 0]); // priority attr
}

#[test]
fn test_policy_add_wide_table_and_dest() {
    let buf = policy_add("10.8.0.0/24", "192.168.1.0/24", 300, 50, 2).unwrap();
    assert_eq!(buf.len(), 60);
    assert_eq!(buf[17], 24); // dst_len from the destination prefix
    assert_eq!(buf[20], 0); // table byte overflows into an attribute
    assert_eq!(&buf[36..44], &[8, 0, 1, 0, 192, 168, 1, 0]); // dest attr
    assert_eq!(&buf[44..52], &[8, 0, 15, 0, 44, 1, 0, 0]); // table attr: 300
    let del = policy_delete("10.8.0.0/24", "192.168.1.0/24", 300, 50, 2).unwrap();
    assert_eq!(&del[4..6], &[33, 0]); // del-rule
    assert_eq!(&del[6..8], &[0x05, 0x00]); // request|ack only
    assert_eq!(&del[8..], &buf[8..]); // identical body
}

#[test]
fn test_route_add_datagram_bytes() {
    let buf = route_add("default", 5, 200, 3).unwrap();
    assert_eq!(buf.len(), 36);
    assert_eq!(&buf[4..6], &[24, 0]); // new-route
    assert_eq!(buf[16], 2); // AF_INET
    assert_eq!(buf[17], 0); // default: prefix 0
    assert_eq!(buf[21], 4); // static protocol
    assert_eq!(buf[22], 0); // universe scope for the default route
    assert_eq!(buf[23], 1); // unicast
    assert_eq!(&buf[28..36], &[8, 0, 4, 0, 5, 0, 0, 0]); // oif attr
    let with_dst = route_add("192.168.50.0/24", 5, 200, 3).unwrap();
    assert_eq!(with_dst.len(), 44);
    assert_eq!(with_dst[17], 24);
    assert_eq!(with_dst[22], 253); // link scope
    assert_eq!(&with_dst[28..36], &[8, 0, 1, 0, 192, 168, 50, 0]);
    let del = route_delete("default", 5, 200, 3).unwrap();
    assert_eq!(&del[4..6], &[25, 0]);
    assert!(route_add("not-a-network", 5, 200, 3).is_err());
}

#[test]
fn test_parse_ack_replies() {
    // shorter than a netlink header: a transport failure
    assert_eq!(parse_ack(&[0u8; 8]), Err(AckError::Malformed));
    assert_eq!(parse_ack(&[]), Err(AckError::Malformed));
    // an error message too short to carry its code: a transport failure
    let mut truncated = [0u8; 18];
    truncated[4] = 2;
    assert_eq!(parse_ack(&truncated), Err(AckError::Malformed));
    // an error message with code 0 is an acknowledgement
    let mut ok_reply = [0u8; 36];
    ok_reply[4] = 2;
    assert!(parse_ack(&ok_reply).is_ok());
    // an error message with -95 (EOPNOTSUPP negated)
    let mut err_reply = [0u8; 36];
    err_reply[4] = 2;
    let code: i32 = -95;
    let b = code.to_le_bytes();
    err_reply[16..20].copy_from_slice(&b);
    assert_eq!(parse_ack(&err_reply), Err(AckError::Code(-95)));
    // a non-error message type acknowledges, with or without a payload
    let mut other = [0u8; 36];
    other[4] = 3;
    other[16] = 1;
    assert!(parse_ack(&other).is_ok());
    let mut bare = [0u8; 16];
    bare[4] = 3;
    assert!(parse_ack(&bare).is_ok());
}

#[test]
fn test_resolve_table_names() {
    assert_eq!(resolve_table_static("default"), Some(253));
    assert_eq!(resolve_table_static("main"), Some(254));
    assert_eq!(resolve_table_static("local"), Some(255));
    assert_eq!(resolve_table_static("unspec"), Some(0));
    assert_eq!(resolve_table_static("200"), Some(200));
    assert_eq!(resolve_table_static("hops"), None);

    let lines: Vec<String> = vec![
        "# reserved".to_string(),
        "".to_string(),
        "255\tlocal".to_string(),
        "200 hops".to_string(),
        "bad wormhole".to_string(),
    ];
    assert_eq!(resolve_table("hops", &lines).unwrap(), 200);
    assert_eq!(resolve_table("main", &lines).unwrap(), 254);
    assert!(resolve_table("wormhole", &lines).is_err());
    assert!(resolve_table("absent", &lines).is_err());
}

#[test]
fn test_ensure_rt_table_entry() {
    let lines: Vec<String> = vec!["200 hops".to_string(), "# comment".to_string()];
    assert!(ensure_rt_table(200, "hops", &lines).is_none());
    let added = ensure_rt_table(201, "hops2", &lines).unwrap();
    assert_eq!(added, "201 hops2");
}

#[test]
fn test_align4_values() {
    assert_eq!(align4(0), 0);
    assert_eq!(align4(1), 4);
    assert_eq!(align4(4), 4);
    assert_eq!(align4(5), 8);
}

#[test]
fn test_text_helpers() {
    assert_eq!(u64_to_string(0), "0");
    assert_eq!(u64_to_string(51820), "51820");
    assert_eq!(i64_to_string(-42), "-42");
    assert_eq!(parse_u64("51820"), Some(51820));
    assert_eq!(parse_u64(""), None);
    assert_eq!(parse_u64("12a"), None);
    assert_eq!(parse_u64("99999999999999999999999"), None);
    assert!(str_eq("abc", "abc"));
    assert!(!str_eq("abc", "abd"));
    assert!(str_contains("established,related", "related"));
    assert!(!str_contains("established", "related"));
}

#[test]
fn test_error_codes_frozen() {
    assert_eq!(ErrorCode::Success.code(), 0);
    assert_eq!(ErrorCode::AlreadyInitialized.code(), -1);
    assert_eq!(ErrorCode::NotInitialized.code(), -2);
    assert_eq!(ErrorCode::NftablesFailed.code(), -3);
    assert_eq!(ErrorCode::NetlinkFailed.code(), -4);
    assert_eq!(ErrorCode::InvalidParam.code(), -5);
    assert_eq!(ErrorCode::IoError.code(), -6);
    assert_eq!(ErrorCode::PermissionDenied.code(), -7);
    assert_eq!(ErrorCode::DbOpen.code(), -10);
    assert_eq!(ErrorCode::DbQuery.code(), -11);
    assert_eq!(ErrorCode::DbWrite.code(), -12);
    assert_eq!(ErrorCode::GroupNotFound.code(), -13);
    assert_eq!(ErrorCode::RuleNotFound.code(), -14);
    assert_eq!(ErrorCode::InvalidState.code(), -15);
    assert_eq!(ErrorCode::AlreadyStarted.code(), -16);
    assert_eq!(ErrorCode::NotStarted.code(), -17);
    assert_eq!(ErrorCode::PresetFailed.code(), -18);
    assert_eq!(ErrorCode::VerifyFailed.code(), -19);
    assert_eq!(ErrorCode::Success.message(), "OK");
}

#[test]
fn test_ipv4net_equality() {
    let a = Ipv4Net { a: 10, b: 8, c: 0, d: 0, prefix: 24 };
    let b = parse_network("10.8.0.0/24").unwrap();
    assert!(a == b);
}

#[test]
fn test_round_trip_decimal_text() {
    for n in [0u64, 1, 9, 10, 99, 255, 51820, 65535, u64::MAX] {
        assert_eq!(parse_u64(&u64_to_string(n)), Some(n));
    }
}

#[test]
fn test_largest_port_values() {
    assert_eq!(proto_dport_match("udp", 65535), "udp dport 65535 ");
    let n = parse_network("255.255.255.255/255").unwrap();
    assert_eq!((n.a, n.b, n.c, n.d, n.prefix), (255, 255, 255, 255, 255));
}

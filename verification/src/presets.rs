//! Preset rule groups for common intents: each materializes a named group
//! and a fixed list of rules in the store. The number, order and fields of
//! the rules a preset produces are pinned by its contract; the metadata blob
//! records the parameters for audit and reconstruction.

use vstd::prelude::*;

use crate::db::{
    fw_le, fw_row_fields, fw_stamped, group_insert_index, lemma_fw_insert_index_is,
    lemma_insert_len_is_push, lemma_rt_insert_index_is, lemma_rule_gids_bounded, rt_le,
    rt_row_fields, rt_stamped, FirewallDB, FirewallRuleRow, RoutingRuleRow, RuleGroupRow,
};
use crate::error::ErrorCode;
use crate::text::{u64_dec, u64_to_string};

verus! {

/// The metadata blob a VPN preset stores: its parameters as a JSON object.
pub open spec fn vpn_metadata(
    wg_iface: Seq<char>,
    wg_port: u16,
    wg_subnet: Seq<char>,
    out_iface: Seq<char>,
) -> Seq<char> {
    "{\"preset\":\"vpn\",\"wg_iface\":\""@ + wg_iface + "\",\"wg_port\":"@ + u64_dec(
        wg_port as nat,
    ) + ",\"wg_subnet\":\""@ + wg_subnet + "\",\"out_iface\":\""@ + out_iface + "\"}"@
}

fn build_vpn_metadata(wg_iface: &str, wg_port: u16, wg_subnet: &str, out_iface: &str) -> (m:
    String)
    ensures
        m@ == vpn_metadata(wg_iface@, wg_port, wg_subnet@, out_iface@),
{
    let mut m = String::from_str("{\"preset\":\"vpn\",\"wg_iface\":\"");
    m.append(wg_iface);
    m.append("\",\"wg_port\":");
    let port = u64_to_string(wg_port as u64);
    m.append(port.as_str());
    m.append(",\"wg_subnet\":\"");
    m.append(wg_subnet);
    m.append("\",\"out_iface\":\"");
    m.append(out_iface);
    m.append("\"}");
    proof {
        assert(m@ =~= vpn_metadata(wg_iface@, wg_port, wg_subnet@, out_iface@));
    }
    m
}

fn fw_rule(
    group_id: i64,
    chain: &str,
    rule_type: &str,
    family: i32,
    proto: &str,
    dport: i32,
    source: &str,
    in_iface: &str,
    out_iface: &str,
    state_match: &str,
    comment: &str,
    position: i32,
) -> (row: FirewallRuleRow)
    ensures
        row.id == 0 && row.group_id == group_id && row.chain@ == chain@ && row.rule_type@
            == rule_type@ && row.family == family && row.proto@ == proto@ && row.dport == dport
            && row.sport == 0 && row.source@ == source@ && row.destination@ == ""@
            && row.in_iface@ == in_iface@ && row.out_iface@ == out_iface@ && row.state_match@
            == state_match@ && row.comment@ == comment@ && row.position == position
            && row.applied == false && row.nft_handle == 0 && row.created_at == 0,
{
    FirewallRuleRow {
        id: 0,
        group_id,
        chain: String::from_str(chain),
        rule_type: String::from_str(rule_type),
        family,
        proto: String::from_str(proto),
        dport,
        sport: 0,
        source: String::from_str(source),
        destination: String::from_str(""),
        in_iface: String::from_str(in_iface),
        out_iface: String::from_str(out_iface),
        state_match: String::from_str(state_match),
        comment: String::from_str(comment),
        position,
        applied: false,
        nft_handle: 0,
        created_at: 0,
    }
}

fn rt_rule(
    group_id: i64,
    rule_type: &str,
    from_network: &str,
    table_name: &str,
    table_id: i32,
    priority: i32,
    destination: &str,
    device: &str,
    fwmark: i32,
) -> (row: RoutingRuleRow)
    ensures
        row.id == 0 && row.group_id == group_id && row.rule_type@ == rule_type@
            && row.from_network@ == from_network@ && row.to_network@ == ""@ && row.table_name@
            == table_name@ && row.table_id == table_id && row.priority == priority
            && row.destination@ == destination@ && row.device@ == device@ && row.fwmark == fwmark
            && row.applied == false && row.created_at == 0,
{
    RoutingRuleRow {
        id: 0,
        group_id,
        rule_type: String::from_str(rule_type),
        from_network: String::from_str(from_network),
        to_network: String::from_str(""),
        table_name: String::from_str(table_name),
        table_id,
        priority,
        destination: String::from_str(destination),
        device: String::from_str(device),
        fwmark,
        applied: false,
        created_at: 0,
    }
}

/// Insert a filter rule known to land after every stored rule, so the table
/// grows at its end.
fn append_fw_rule(db: &mut FirewallDB, row: FirewallRuleRow) -> (r: Result<i64, String>)
    requires
        old(db).wf(),
        old(db).group_id_exists(row.group_id),
        old(db).can_assign_fw_id(),
        forall|i: int|
            0 <= i < old(db).spec_fw_rules().len() ==> ((#[trigger] old(
                db,
            ).spec_fw_rules()[i]).group_id < row.group_id || (old(
                db,
            ).spec_fw_rules()[i].group_id == row.group_id && old(
                db,
            ).spec_fw_rules()[i].position <= row.position)),
    ensures
        r is Ok,
        final(db).wf(),
        final(db).spec_fw_rules() == old(db).spec_fw_rules().push(
            fw_stamped(row, old(db).next_fw_id, old(db).spec_clock()),
        ),
        final(db).next_fw_id == old(db).next_fw_id + 1,
        final(db).spec_groups() == old(db).spec_groups(),
        final(db).spec_rt_rules() == old(db).spec_rt_rules(),
        final(db).spec_config() == old(db).spec_config(),
        final(db).spec_clock() == old(db).spec_clock(),
        final(db).next_group_id == old(db).next_group_id,
        final(db).next_rt_id == old(db).next_rt_id,
        forall|i: int|
            0 <= i < final(db).spec_fw_rules().len() ==> ((#[trigger] final(db).spec_fw_rules()[
                i
            ]).group_id < row.group_id || (final(db).spec_fw_rules()[i].group_id == row.group_id
                && final(db).spec_fw_rules()[i].position <= row.position)),
{
    let ghost s = *old(db);
    let ghost brow = row;
    let res = db.insert_fw_row(row);
    proof {
        let st = fw_stamped(brow, s.next_fw_id, s.spec_clock());
        assert forall|i: int| 0 <= i < s.spec_fw_rules().len() implies fw_le(
            #[trigger] s.spec_fw_rules()[i],
            st,
        ) by {
            assert(s.spec_fw_rules()[i].id < s.next_fw_id);
        }
        assert(res is Ok);
        lemma_fw_insert_index_is(s.spec_fw_rules(), st, s.spec_fw_rules().len() as int);
        lemma_insert_len_is_push(s.spec_fw_rules(), st);
    }
    res
}

/// Insert a routing rule known to land after every stored rule, so the
/// table grows at its end.
fn append_rt_rule(db: &mut FirewallDB, row: RoutingRuleRow) -> (r: Result<i64, String>)
    requires
        old(db).wf(),
        old(db).group_id_exists(row.group_id),
        old(db).can_assign_rt_id(),
        forall|i: int|
            0 <= i < old(db).spec_rt_rules().len() ==> (#[trigger] old(
                db,
            ).spec_rt_rules()[i]).group_id <= row.group_id,
    ensures
        r is Ok,
        final(db).wf(),
        final(db).spec_rt_rules() == old(db).spec_rt_rules().push(
            rt_stamped(row, old(db).next_rt_id, old(db).spec_clock()),
        ),
        final(db).next_rt_id == old(db).next_rt_id + 1,
        final(db).spec_groups() == old(db).spec_groups(),
        final(db).spec_fw_rules() == old(db).spec_fw_rules(),
        final(db).spec_config() == old(db).spec_config(),
        final(db).spec_clock() == old(db).spec_clock(),
        final(db).next_group_id == old(db).next_group_id,
        final(db).next_fw_id == old(db).next_fw_id,
        forall|i: int|
            0 <= i < final(db).spec_rt_rules().len() ==> (#[trigger] final(db).spec_rt_rules()[
                i
            ]).group_id <= row.group_id,
{
    let ghost s = *old(db);
    let ghost brow = row;
    let res = db.insert_rt_row(row);
    proof {
        let st = rt_stamped(brow, s.next_rt_id, s.spec_clock());
        assert forall|i: int| 0 <= i < s.spec_rt_rules().len() implies rt_le(
            #[trigger] s.spec_rt_rules()[i],
            st,
        ) by {
            assert(s.spec_rt_rules()[i].id < s.next_rt_id);
        }
        assert(res is Ok);
        lemma_rt_insert_index_is(s.spec_rt_rules(), st, s.spec_rt_rules().len() as int);
        lemma_insert_len_is_push(s.spec_rt_rules(), st);
    }
    res
}

/// The group a preset creates was added with these fields, and every group
/// that was there before is untouched.
pub open spec fn preset_group_created(
    pre: FirewallDB,
    post: FirewallDB,
    name: Seq<char>,
    group_type: Seq<char>,
    priority: i32,
    metadata: Seq<char>,
) -> bool {
    &&& post.group_name_exists(name)
    &&& post.spec_groups().len() == pre.spec_groups().len() + 1
    &&& forall|h: RuleGroupRow|
        post.spec_groups().contains(h) && h.name@ == name ==> h.group_type@ == group_type
            && h.priority == priority && h.enabled && h.metadata@ == metadata && h.id
            == pre.next_group_id && h.created_at == pre.spec_clock() && h.updated_at
            == pre.spec_clock()
    &&& forall|h: RuleGroupRow|
        pre.spec_groups().contains(h) ==> post.spec_groups().contains(h)
    &&& forall|h: RuleGroupRow|
        post.spec_groups().contains(h) ==> pre.spec_groups().contains(h) || h.name@ == name
}

proof fn lemma_preset_group_created(
    pre: FirewallDB,
    post: FirewallDB,
    g: RuleGroupRow,
    k: int,
    name: Seq<char>,
    group_type: Seq<char>,
    priority: i32,
    metadata: Seq<char>,
)
    requires
        !pre.group_name_exists(name),
        g.name@ == name,
        g.group_type@ == group_type,
        g.priority == priority,
        g.enabled,
        g.metadata@ == metadata,
        g.id == pre.next_group_id,
        g.created_at == pre.spec_clock(),
        g.updated_at == pre.spec_clock(),
        0 <= k <= pre.spec_groups().len(),
        post.spec_groups() == pre.spec_groups().insert(k, g),
    ensures
        preset_group_created(pre, post, name, group_type, priority, metadata),
{
    assert forall|h: RuleGroupRow|
        pre.spec_groups().contains(h) implies post.spec_groups().contains(h) by {
        let i = choose|i: int| 0 <= i < pre.spec_groups().len() && pre.spec_groups()[i] == h;
        let i2: int = if i < k {
            i
        } else {
            i + 1
        };
        assert(post.spec_groups()[i2] == h);
    }
    assert forall|h: RuleGroupRow|
        post.spec_groups().contains(h) implies pre.spec_groups().contains(h) || h.name@
        == name by {
        let i = choose|i: int| 0 <= i < post.spec_groups().len() && post.spec_groups()[i] == h;
        if i != k {
            let i2: int = if i < k {
                i
            } else {
                i - 1
            };
            assert(pre.spec_groups()[i2] == h);
        }
    }
    assert(post.spec_groups()[k] == g);
    assert(post.group_name_exists(name));
    assert forall|h: RuleGroupRow|
        post.spec_groups().contains(h) && h.name@ == name implies h.group_type@ == group_type
        && h.priority == priority && h.enabled && h.metadata@ == metadata && h.id
        == pre.next_group_id && h.created_at == pre.spec_clock() && h.updated_at
        == pre.spec_clock() by {
        let i = choose|i: int| 0 <= i < post.spec_groups().len() && post.spec_groups()[i] == h;
        if i != k {
            let i2: int = if i < k {
                i
            } else {
                i - 1
            };
            assert(pre.spec_groups()[i2] == h);
            assert(pre.group_name_exists(name));
            assert(false);
        }
    }
}

/// Create the VPN basic group: one group of type `vpn` at priority 100 and
/// exactly four filter rules at positions 0 to 3 — accept the tunnel's
/// listen port on input, forward tunnel-to-uplink, forward the return path
/// for established traffic, and masquerade the tunnel subnet out the uplink.
pub fn preset_vpn(
    db: &mut FirewallDB,
    name: &str,
    wg_iface: &str,
    wg_port: u16,
    wg_subnet: &str,
    out_iface: &str,
) -> (r: Result<(), (ErrorCode, String)>)
    requires
        old(db).wf(),
    ensures
        final(db).wf(),
        r is Err <==> (old(db).group_name_exists(name@) || !old(db).can_assign_group_id() || old(
            db,
        ).next_fw_id > i64::MAX - 4),
        r is Err ==> *final(db) == *old(db),
        r matches Err((code, m)) ==> code == ErrorCode::DbWrite,
        r is Ok ==> preset_group_created(
            *old(db),
            *final(db),
            name@,
            "vpn"@,
            100,
            vpn_metadata(wg_iface@, wg_port, wg_subnet@, out_iface@),
        ),
        r is Ok ==> final(db).spec_fw_rules().len() == old(db).spec_fw_rules().len() + 4,
        r is Ok ==> forall|k: int|
            0 <= k < old(db).spec_fw_rules().len() ==> final(db).spec_fw_rules()[k] == old(
                db,
            ).spec_fw_rules()[k],
        r is Ok ==> fw_row_fields(
            final(db).spec_fw_rules()[old(db).spec_fw_rules().len() as int],
            old(db).next_fw_id,
            old(db).next_group_id,
            "input"@,
            "accept"@,
            2,
            "udp"@,
            wg_port as i32,
            0,
            ""@,
            ""@,
            ""@,
            ""@,
            ""@,
            "wg-listen-port"@,
            0,
            old(db).spec_clock(),
        ),
        r is Ok ==> fw_row_fields(
            final(db).spec_fw_rules()[old(db).spec_fw_rules().len() as int + 1],
            (old(db).next_fw_id + 1) as i64,
            old(db).next_group_id,
            "forward"@,
            "accept"@,
            2,
            ""@,
            0,
            0,
            ""@,
            ""@,
            wg_iface@,
            out_iface@,
            ""@,
            "wg-forward-out"@,
            1,
            old(db).spec_clock(),
        ),
        r is Ok ==> fw_row_fields(
            final(db).spec_fw_rules()[old(db).spec_fw_rules().len() as int + 2],
            (old(db).next_fw_id + 2) as i64,
            old(db).next_group_id,
            "forward"@,
            "accept"@,
            2,
            ""@,
            0,
            0,
            ""@,
            ""@,
            out_iface@,
            wg_iface@,
            "established,related"@,
            "wg-forward-return"@,
            2,
            old(db).spec_clock(),
        ),
        r is Ok ==> fw_row_fields(
            final(db).spec_fw_rules()[old(db).spec_fw_rules().len() as int + 3],
            (old(db).next_fw_id + 3) as i64,
            old(db).next_group_id,
            "postrouting"@,
            "masquerade"@,
            2,
            ""@,
            0,
            0,
            wg_subnet@,
            ""@,
            ""@,
            out_iface@,
            ""@,
            "wg-nat"@,
            3,
            old(db).spec_clock(),
        ),
        final(db).spec_rt_rules() == old(db).spec_rt_rules(),
        final(db).spec_config() == old(db).spec_config(),
        final(db).spec_clock() == old(db).spec_clock(),
{
    if db.get_rule_group(name).is_ok() {
        return Err((ErrorCode::DbWrite, String::from_str("preset: group name already exists")));
    }
    if db.next_group_id == i64::MAX {
        return Err((ErrorCode::DbWrite, String::from_str("preset: group id space exhausted")));
    }
    if db.next_fw_id > i64::MAX - 4 {
        return Err((ErrorCode::DbWrite, String::from_str("preset: rule id space exhausted")));
    }
    let metadata = build_vpn_metadata(wg_iface, wg_port, wg_subnet, out_iface);
    let g = match db.create_rule_group(name, "vpn", 100, metadata.as_str()) {
        Ok(g) => g,
        Err(e) => {
            proof {
                assert(false);
            }
            return Err((ErrorCode::DbWrite, e));
        },
    };
    let gid = g.id;
    let ghost s0 = *old(db);
    let ghost kx = group_insert_index(s0.spec_groups(), g);
    proof {
        assert(db.spec_groups()[kx] == g);
        assert(db.group_id_exists(gid));
        lemma_rule_gids_bounded(s0);
        assert forall|i: int|
            0 <= i < db.spec_fw_rules().len() implies (#[trigger] db.spec_fw_rules()[i]).group_id
            < gid by {
            assert(db.spec_fw_rules()[i] == s0.spec_fw_rules()[i]);
        }
    }
    let ghost n = s0.spec_fw_rules().len() as int;
    let r0 = fw_rule(gid, "input", "accept", 2, "udp", wg_port as i32, "", "", "", "",
        "wg-listen-port", 0);
    let res0 = append_fw_rule(db, r0);
    proof {
        assert(db.spec_groups()[kx] == g);
        assert forall|i: int|
            0 <= i < db.spec_fw_rules().len() implies ((#[trigger] db.spec_fw_rules()[
                i
            ]).group_id < gid || (db.spec_fw_rules()[i].group_id == gid && db.spec_fw_rules()[
                i
            ].position <= 1)) by {
            if i < n {
                assert(db.spec_fw_rules()[i] == s0.spec_fw_rules()[i]);
            }
        }
    }
    let r1 = fw_rule(gid, "forward", "accept", 2, "", 0, "", wg_iface, out_iface, "",
        "wg-forward-out", 1);
    let res1 = append_fw_rule(db, r1);
    proof {
        assert(db.spec_groups()[kx] == g);
        assert forall|i: int|
            0 <= i < db.spec_fw_rules().len() implies ((#[trigger] db.spec_fw_rules()[
                i
            ]).group_id < gid || (db.spec_fw_rules()[i].group_id == gid && db.spec_fw_rules()[
                i
            ].position <= 2)) by {
            if i < n {
                assert(db.spec_fw_rules()[i] == s0.spec_fw_rules()[i]);
            }
        }
    }
    let r2 = fw_rule(gid, "forward", "accept", 2, "", 0, "", out_iface, wg_iface,
        "established,related", "wg-forward-return", 2);
    let res2 = append_fw_rule(db, r2);
    proof {
        assert(db.spec_groups()[kx] == g);
        assert forall|i: int|
            0 <= i < db.spec_fw_rules().len() implies ((#[trigger] db.spec_fw_rules()[
                i
            ]).group_id < gid || (db.spec_fw_rules()[i].group_id == gid && db.spec_fw_rules()[
                i
            ].position <= 3)) by {
            if i < n {
                assert(db.spec_fw_rules()[i] == s0.spec_fw_rules()[i]);
            }
        }
    }
    let r3 = fw_rule(gid, "postrouting", "masquerade", 2, "", 0, wg_subnet, "", out_iface, "",
        "wg-nat", 3);
    let res3 = append_fw_rule(db, r3);
    proof {
        lemma_preset_group_created(
            *old(db),
            *db,
            g,
            kx,
            name@,
            "vpn"@,
            100,
            vpn_metadata(wg_iface@, wg_port, wg_subnet@, out_iface@),
        );
    }
    Ok(())
}


/// The metadata blob a multihop preset stores.
pub open spec fn multihop_metadata(
    in_iface: Seq<char>,
    out_iface: Seq<char>,
    fwmark: u32,
    table_id: u32,
    subnet: Seq<char>,
) -> Seq<char> {
    "{\"preset\":\"multihop\",\"in_iface\":\""@ + in_iface + "\",\"out_iface\":\""@ + out_iface
        + "\",\"fwmark\":"@ + u64_dec(fwmark as nat) + ",\"table_id\":"@ + u64_dec(
        table_id as nat,
    ) + ",\"subnet\":\""@ + subnet + "\"}"@
}

fn build_multihop_metadata(
    in_iface: &str,
    out_iface: &str,
    fwmark: u32,
    table_id: u32,
    subnet: &str,
) -> (m: String)
    ensures
        m@ == multihop_metadata(in_iface@, out_iface@, fwmark, table_id, subnet@),
{
    let mut m = String::from_str("{\"preset\":\"multihop\",\"in_iface\":\"");
    m.append(in_iface);
    m.append("\",\"out_iface\":\"");
    m.append(out_iface);
    m.append("\",\"fwmark\":");
    let fm = u64_to_string(fwmark as u64);
    m.append(fm.as_str());
    m.append(",\"table_id\":");
    let tid = u64_to_string(table_id as u64);
    m.append(tid.as_str());
    m.append(",\"subnet\":\"");
    m.append(subnet);
    m.append("\"}");
    proof {
        assert(m@ =~= multihop_metadata(in_iface@, out_iface@, fwmark, table_id, subnet@));
    }
    m
}

/// Create a multihop group: a routing-table entry, a policy for the subnet,
/// a default route out the next hop, an optional mark-based policy when a
/// firewall mark is given, and the two forward rules, at priority 80.
#[verifier::rlimit(40)]
pub fn preset_multihop(
    db: &mut FirewallDB,
    name: &str,
    in_iface: &str,
    out_iface: &str,
    fwmark: u32,
    table_id: u32,
    subnet: &str,
) -> (r: Result<(), (ErrorCode, String)>)
    requires
        old(db).wf(),
    ensures
        final(db).wf(),
        r is Err <==> (old(db).group_name_exists(name@) || !old(db).can_assign_group_id() || old(
            db,
        ).next_fw_id > i64::MAX - 2 || old(db).next_rt_id > i64::MAX - 4),
        r is Err ==> *final(db) == *old(db),
        r matches Err((code, m)) ==> code == ErrorCode::DbWrite,
        r is Ok ==> preset_group_created(
            *old(db),
            *final(db),
            name@,
            "multihop"@,
            80,
            multihop_metadata(in_iface@, out_iface@, fwmark, table_id, subnet@),
        ),
        r is Ok ==> final(db).spec_rt_rules().len() == old(db).spec_rt_rules().len() + (
        if fwmark > 0 {
            4int
        } else {
            3int
        }),
        r is Ok ==> forall|k: int|
            0 <= k < old(db).spec_rt_rules().len() ==> final(db).spec_rt_rules()[k] == old(
                db,
            ).spec_rt_rules()[k],
        r is Ok ==> rt_row_fields(
            final(db).spec_rt_rules()[old(db).spec_rt_rules().len() as int],
            old(db).next_rt_id,
            old(db).next_group_id,
            "table"@,
            ""@,
            ""@,
            name@,
            table_id as i32,
            0,
            ""@,
            ""@,
            0,
            old(db).spec_clock(),
        ),
        r is Ok ==> rt_row_fields(
            final(db).spec_rt_rules()[old(db).spec_rt_rules().len() as int + 1],
            (old(db).next_rt_id + 1) as i64,
            old(db).next_group_id,
            "policy"@,
            subnet@,
            ""@,
            name@,
            table_id as i32,
            100,
            ""@,
            ""@,
            0,
            old(db).spec_clock(),
        ),
        r is Ok ==> rt_row_fields(
            final(db).spec_rt_rules()[old(db).spec_rt_rules().len() as int + 2],
            (old(db).next_rt_id + 2) as i64,
            old(db).next_group_id,
            "route"@,
            ""@,
            ""@,
            name@,
            table_id as i32,
            0,
            "default"@,
            out_iface@,
            0,
            old(db).spec_clock(),
        ),
        (r is Ok && fwmark > 0) ==> rt_row_fields(
            final(db).spec_rt_rules()[old(db).spec_rt_rules().len() as int + 3],
            (old(db).next_rt_id + 3) as i64,
            old(db).next_group_id,
            "policy"@,
            ""@,
            ""@,
            name@,
            table_id as i32,
            200,
            ""@,
            ""@,
            fwmark as i32,
            old(db).spec_clock(),
        ),
        r is Ok ==> final(db).spec_fw_rules().len() == old(db).spec_fw_rules().len() + 2,
        r is Ok ==> forall|k: int|
            0 <= k < old(db).spec_fw_rules().len() ==> final(db).spec_fw_rules()[k] == old(
                db,
            ).spec_fw_rules()[k],
        r is Ok ==> fw_row_fields(
            final(db).spec_fw_rules()[old(db).spec_fw_rules().len() as int],
            old(db).next_fw_id,
            old(db).next_group_id,
            "forward"@,
            "accept"@,
            2,
            ""@,
            0,
            0,
            ""@,
            ""@,
            in_iface@,
            out_iface@,
            ""@,
            "multihop-forward"@,
            0,
            old(db).spec_clock(),
        ),
        r is Ok ==> fw_row_fields(
            final(db).spec_fw_rules()[old(db).spec_fw_rules().len() as int + 1],
            (old(db).next_fw_id + 1) as i64,
            old(db).next_group_id,
            "forward"@,
            "accept"@,
            2,
            ""@,
            0,
            0,
            ""@,
            ""@,
            out_iface@,
            in_iface@,
            "established,related"@,
            "multihop-return"@,
            1,
            old(db).spec_clock(),
        ),
        final(db).spec_config() == old(db).spec_config(),
        final(db).spec_clock() == old(db).spec_clock(),
{
    if db.get_rule_group(name).is_ok() {
        return Err((ErrorCode::DbWrite, String::from_str("preset: group name already exists")));
    }
    if db.next_group_id == i64::MAX {
        return Err((ErrorCode::DbWrite, String::from_str("preset: group id space exhausted")));
    }
    if db.next_fw_id > i64::MAX - 2 {
        return Err((ErrorCode::DbWrite, String::from_str("preset: rule id space exhausted")));
    }
    if db.next_rt_id > i64::MAX - 4 {
        return Err((ErrorCode::DbWrite, String::from_str("preset: rule id space exhausted")));
    }
    let metadata = build_multihop_metadata(in_iface, out_iface, fwmark, table_id, subnet);
    let g = match db.create_rule_group(name, "multihop", 80, metadata.as_str()) {
        Ok(g) => g,
        Err(e) => {
            proof {
                assert(false);
            }
            return Err((ErrorCode::DbWrite, e));
        },
    };
    let gid = g.id;
    let ghost s0 = *old(db);
    let ghost kx = group_insert_index(s0.spec_groups(), g);
    proof {
        assert(db.spec_groups()[kx] == g);
        assert(db.group_id_exists(gid));
        lemma_rule_gids_bounded(s0);
        assert forall|i: int|
            0 <= i < db.spec_rt_rules().len() implies (#[trigger] db.spec_rt_rules()[i]).group_id
            <= gid by {
            assert(db.spec_rt_rules()[i] == s0.spec_rt_rules()[i]);
        }
    }
    let ghost nr = s0.spec_rt_rules().len() as int;
    let ghost nf = s0.spec_fw_rules().len() as int;
    let t0 = rt_rule(gid, "table", "", name, table_id as i32, 0, "", "", 0);
    let res = append_rt_rule(db, t0);
    proof {
        assert(db.spec_groups()[kx] == g);
        assert forall|i: int|
            0 <= i < db.spec_rt_rules().len() implies (#[trigger] db.spec_rt_rules()[i]).group_id
            <= gid by {
            if i < nr {
                assert(db.spec_rt_rules()[i] == s0.spec_rt_rules()[i]);
            }
        }
    }
    let t1 = rt_rule(gid, "policy", subnet, name, table_id as i32, 100, "", "", 0);
    let res = append_rt_rule(db, t1);
    proof {
        assert(db.spec_groups()[kx] == g);
        assert forall|i: int|
            0 <= i < db.spec_rt_rules().len() implies (#[trigger] db.spec_rt_rules()[i]).group_id
            <= gid by {
            if i < nr {
                assert(db.spec_rt_rules()[i] == s0.spec_rt_rules()[i]);
            }
        }
    }
    let t2 = rt_rule(gid, "route", "", name, table_id as i32, 0, "default", out_iface, 0);
    let res = append_rt_rule(db, t2);
    if fwmark > 0 {
        proof {
            assert(db.spec_groups()[kx] == g);
            assert forall|i: int|
                0 <= i < db.spec_rt_rules().len() implies (#[trigger] db.spec_rt_rules()[
                    i
                ]).group_id <= gid by {
                if i < nr {
                    assert(db.spec_rt_rules()[i] == s0.spec_rt_rules()[i]);
                }
            }
        }
        let t3 = rt_rule(gid, "policy", "", name, table_id as i32, 200, "", "", fwmark as i32);
        let res = append_rt_rule(db, t3);
    }
    proof {
        assert(db.spec_groups()[kx] == g);
        assert forall|i: int|
            0 <= i < db.spec_fw_rules().len() implies (#[trigger] db.spec_fw_rules()[i]).group_id
            < gid by {
            assert(db.spec_fw_rules()[i] == s0.spec_fw_rules()[i]);
        }
    }
    let f0 = fw_rule(gid, "forward", "accept", 2, "", 0, "", in_iface, out_iface, "",
        "multihop-forward", 0);
    let res = append_fw_rule(db, f0);
    proof {
        assert(db.spec_groups()[kx] == g);
        assert forall|i: int|
            0 <= i < db.spec_fw_rules().len() implies ((#[trigger] db.spec_fw_rules()[
                i
            ]).group_id < gid || (db.spec_fw_rules()[i].group_id == gid && db.spec_fw_rules()[
                i
            ].position <= 1)) by {
            if i < nf {
                assert(db.spec_fw_rules()[i] == s0.spec_fw_rules()[i]);
            }
        }
    }
    let f1 = fw_rule(gid, "forward", "accept", 2, "", 0, "", out_iface, in_iface,
        "established,related", "multihop-return", 1);
    let res = append_fw_rule(db, f1);
    proof {
        lemma_preset_group_created(
            *old(db),
            *db,
            g,
            kx,
            name@,
            "multihop"@,
            80,
            multihop_metadata(in_iface@, out_iface@, fwmark, table_id, subnet@),
        );
    }
    Ok(())
}


/// The metadata blob a kill-switch preset stores.
pub open spec fn kill_switch_metadata(
    wg_port: u16,
    wstunnel_port: u16,
    wg_iface: Seq<char>,
) -> Seq<char> {
    "{\"preset\":\"kill_switch\",\"wg_port\":"@ + u64_dec(wg_port as nat)
        + ",\"wstunnel_port\":"@ + u64_dec(wstunnel_port as nat) + ",\"wg_iface\":\""@ + wg_iface
        + "\"}"@
}

fn build_kill_switch_metadata(wg_port: u16, wstunnel_port: u16, wg_iface: &str) -> (m: String)
    ensures
        m@ == kill_switch_metadata(wg_port, wstunnel_port, wg_iface@),
{
    let mut m = String::from_str("{\"preset\":\"kill_switch\",\"wg_port\":");
    let p = u64_to_string(wg_port as u64);
    m.append(p.as_str());
    m.append(",\"wstunnel_port\":");
    let w = u64_to_string(wstunnel_port as u64);
    m.append(w.as_str());
    m.append(",\"wg_iface\":\"");
    m.append(wg_iface);
    m.append("\"}");
    proof {
        assert(m@ =~= kill_switch_metadata(wg_port, wstunnel_port, wg_iface@));
    }
    m
}

fn ks_tail_rules(db: &mut FirewallDB, gid: i64, start_pos: i32) -> (r: Result<
    (),
    (ErrorCode, String),
>)
    requires
        old(db).wf(),
        old(db).group_id_exists(gid),
        old(db).next_fw_id <= i64::MAX - 4,
        0 <= start_pos <= i32::MAX - 3,
        forall|i: int|
            0 <= i < old(db).spec_fw_rules().len() ==> ((#[trigger] old(db).spec_fw_rules()[
                i
            ]).group_id < gid || (old(db).spec_fw_rules()[i].group_id == gid && old(
                db,
            ).spec_fw_rules()[i].position < start_pos)),
    ensures
        r is Ok,
        final(db).wf(),
        final(db).spec_fw_rules().len() == old(db).spec_fw_rules().len() + 4,
        forall|k: int|
            0 <= k < old(db).spec_fw_rules().len() ==> final(db).spec_fw_rules()[k] == old(
                db,
            ).spec_fw_rules()[k],
        fw_row_fields(
            final(db).spec_fw_rules()[old(db).spec_fw_rules().len() as int],
            old(db).next_fw_id,
            gid,
            "output"@,
            "drop"@,
            2,
            ""@,
            0,
            0,
            ""@,
            ""@,
            ""@,
            ""@,
            ""@,
            "ks-drop-out"@,
            start_pos,
            old(db).spec_clock(),
        ),
        fw_row_fields(
            final(db).spec_fw_rules()[old(db).spec_fw_rules().len() as int + 1],
            (old(db).next_fw_id + 1) as i64,
            gid,
            "input"@,
            "accept"@,
            2,
            ""@,
            0,
            0,
            ""@,
            ""@,
            "lo"@,
            ""@,
            ""@,
            "ks-lo-in"@,
            (start_pos + 1) as i32,
            old(db).spec_clock(),
        ),
        fw_row_fields(
            final(db).spec_fw_rules()[old(db).spec_fw_rules().len() as int + 2],
            (old(db).next_fw_id + 2) as i64,
            gid,
            "input"@,
            "accept"@,
            2,
            ""@,
            0,
            0,
            ""@,
            ""@,
            ""@,
            ""@,
            "established,related"@,
            "ks-ct-in"@,
            (start_pos + 2) as i32,
            old(db).spec_clock(),
        ),
        fw_row_fields(
            final(db).spec_fw_rules()[old(db).spec_fw_rules().len() as int + 3],
            (old(db).next_fw_id + 3) as i64,
            gid,
            "input"@,
            "drop"@,
            2,
            ""@,
            0,
            0,
            ""@,
            ""@,
            ""@,
            ""@,
            ""@,
            "ks-drop-in"@,
            (start_pos + 3) as i32,
            old(db).spec_clock(),
        ),
        final(db).spec_groups() == old(db).spec_groups(),
        final(db).spec_rt_rules() == old(db).spec_rt_rules(),
        final(db).spec_config() == old(db).spec_config(),
        final(db).spec_clock() == old(db).spec_clock(),
        final(db).next_group_id == old(db).next_group_id,
        final(db).next_rt_id == old(db).next_rt_id,
        final(db).next_fw_id == old(db).next_fw_id + 4,
{
    let mut pos = start_pos;
    let row = fw_rule(gid, "output", "drop", 2, "", 0, "", "", "", "", "ks-drop-out", pos);
    let res = append_fw_rule(db, row);
    pos = pos + 1;
    let row = fw_rule(gid, "input", "accept", 2, "", 0, "", "lo", "", "", "ks-lo-in", pos);
    let res = append_fw_rule(db, row);
    pos = pos + 1;
    let row = fw_rule(gid, "input", "accept", 2, "", 0, "", "", "", "established,related",
        "ks-ct-in", pos);
    let res = append_fw_rule(db, row);
    pos = pos + 1;
    let row = fw_rule(gid, "input", "drop", 2, "", 0, "", "", "", "", "ks-drop-in", pos);
    let res = append_fw_rule(db, row);
    Ok(())
}

/// Create the kill-switch group, named `kill-switch` at priority 10: a
/// default-deny posture on output and input with narrow exceptions for
/// loopback, established traffic, the tunnel's port and interface, DHCP,
/// and — when a port is given — the tunnel's TCP fallback.
#[verifier::rlimit(100)]
pub fn preset_kill_switch(
    db: &mut FirewallDB,
    wg_port: u16,
    wstunnel_port: u16,
    wg_iface: &str,
) -> (r: Result<(), (ErrorCode, String)>)
    requires
        old(db).wf(),
    ensures
        final(db).wf(),
        r is Err <==> (old(db).group_name_exists("kill-switch"@) || !old(
            db,
        ).can_assign_group_id() || old(db).next_fw_id > i64::MAX - 11),
        r is Err ==> *final(db) == *old(db),
        r matches Err((code, m)) ==> code == ErrorCode::DbWrite,
        r is Ok ==> preset_group_created(
            *old(db),
            *final(db),
            "kill-switch"@,
            "kill_switch"@,
            10,
            kill_switch_metadata(wg_port, wstunnel_port, wg_iface@),
        ),
        r is Ok ==> final(db).spec_fw_rules().len() == old(db).spec_fw_rules().len() + (
        if wstunnel_port > 0 {
            11int
        } else {
            10int
        }),
        r is Ok ==> forall|k: int|
            0 <= k < old(db).spec_fw_rules().len() ==> final(db).spec_fw_rules()[k] == old(
                db,
            ).spec_fw_rules()[k],
        r is Ok ==> fw_row_fields(
            final(db).spec_fw_rules()[old(db).spec_fw_rules().len() as int],
            old(db).next_fw_id,
            old(db).next_group_id,
            "output"@,
            "accept"@,
            2,
            ""@,
            0,
            0,
            ""@,
            ""@,
            ""@,
            "lo"@,
            ""@,
            "ks-lo-out"@,
            0,
            old(db).spec_clock(),
        ),
        r is Ok ==> fw_row_fields(
            final(db).spec_fw_rules()[old(db).spec_fw_rules().len() as int + 1],
            (old(db).next_fw_id + 1) as i64,
            old(db).next_group_id,
            "output"@,
            "accept"@,
            2,
            ""@,
            0,
            0,
            ""@,
            ""@,
            ""@,
            ""@,
            "established,related"@,
            "ks-ct-out"@,
            1,
            old(db).spec_clock(),
        ),
        r is Ok ==> fw_row_fields(
            final(db).spec_fw_rules()[old(db).spec_fw_rules().len() as int + 2],
            (old(db).next_fw_id + 2) as i64,
            old(db).next_group_id,
            "output"@,
            "accept"@,
            2,
            "udp"@,
            wg_port as i32,
            0,
            ""@,
            ""@,
            ""@,
            ""@,
            ""@,
            "ks-wg-out"@,
            2,
            old(db).spec_clock(),
        ),
        r is Ok ==> fw_row_fields(
            final(db).spec_fw_rules()[old(db).spec_fw_rules().len() as int + 3],
            (old(db).next_fw_id + 3) as i64,
            old(db).next_group_id,
            "output"@,
            "accept"@,
            2,
            ""@,
            0,
            0,
            ""@,
            ""@,
            ""@,
            wg_iface@,
            ""@,
            "ks-wg-iface"@,
            3,
            old(db).spec_clock(),
        ),
        r is Ok ==> fw_row_fields(
            final(db).spec_fw_rules()[old(db).spec_fw_rules().len() as int + 4],
            (old(db).next_fw_id + 4) as i64,
            old(db).next_group_id,
            "output"@,
            "accept"@,
            2,
            "udp"@,
            67,
            0,
            ""@,
            ""@,
            ""@,
            ""@,
            ""@,
            "ks-dhcp-67"@,
            4,
            old(db).spec_clock(),
        ),
        r is Ok ==> fw_row_fields(
            final(db).spec_fw_rules()[old(db).spec_fw_rules().len() as int + 5],
            (old(db).next_fw_id + 5) as i64,
            old(db).next_group_id,
            "output"@,
            "accept"@,
            2,
            "udp"@,
            68,
            0,
            ""@,
            ""@,
            ""@,
            ""@,
            ""@,
            "ks-dhcp-68"@,
            5,
            old(db).spec_clock(),
        ),
        (r is Ok && wstunnel_port > 0) ==> fw_row_fields(
            final(db).spec_fw_rules()[old(db).spec_fw_rules().len() as int + 6],
            (old(db).next_fw_id + 6) as i64,
            old(db).next_group_id,
            "output"@,
            "accept"@,
            2,
            "tcp"@,
            wstunnel_port as i32,
            0,
            ""@,
            ""@,
            ""@,
            ""@,
            ""@,
            "ks-wst-out"@,
            6,
            old(db).spec_clock(),
        ),
        r is Ok ==> fw_row_fields(
            final(db).spec_fw_rules()[old(db).spec_fw_rules().len() as int + 6 + (if wstunnel_port > 0 { 1int } else { 0int })],
            (old(db).next_fw_id + 6 + (if wstunnel_port > 0 { 1int } else { 0int })) as i64,
            old(db).next_group_id,
            "output"@,
            "drop"@,
            2,
            ""@,
            0,
            0,
            ""@,
            ""@,
            ""@,
            ""@,
            ""@,
            "ks-drop-out"@,
            (6 + (if wstunnel_port > 0 { 1int } else { 0int })) as i32,
            old(db).spec_clock(),
        ),
        r is Ok ==> fw_row_fields(
            final(db).spec_fw_rules()[old(db).spec_fw_rules().len() as int + 6 + (if wstunnel_port > 0 { 1int } else { 0int }) + 1],
            (old(db).next_fw_id + 6 + (if wstunnel_port > 0 { 1int } else { 0int }) + 1) as i64,
            old(db).next_group_id,
            "input"@,
            "accept"@,
            2,
            ""@,
            0,
            0,
            ""@,
            ""@,
            "lo"@,
            ""@,
            ""@,
            "ks-lo-in"@,
            (6 + (if wstunnel_port > 0 { 1int } else { 0int }) + 1) as i32,
            old(db).spec_clock(),
        ),
        r is Ok ==> fw_row_fields(
            final(db).spec_fw_rules()[old(db).spec_fw_rules().len() as int + 6 + (if wstunnel_port > 0 { 1int } else { 0int }) + 2],
            (old(db).next_fw_id + 6 + (if wstunnel_port > 0 { 1int } else { 0int }) + 2) as i64,
            old(db).next_group_id,
            "input"@,
            "accept"@,
            2,
            ""@,
            0,
            0,
            ""@,
            ""@,
            ""@,
            ""@,
            "established,related"@,
            "ks-ct-in"@,
            (6 + (if wstunnel_port > 0 { 1int } else { 0int }) + 2) as i32,
            old(db).spec_clock(),
        ),
        r is Ok ==> fw_row_fields(
            final(db).spec_fw_rules()[old(db).spec_fw_rules().len() as int + 6 + (if wstunnel_port > 0 { 1int } else { 0int }) + 3],
            (old(db).next_fw_id + 6 + (if wstunnel_port > 0 { 1int } else { 0int }) + 3) as i64,
            old(db).next_group_id,
            "input"@,
            "drop"@,
            2,
            ""@,
            0,
            0,
            ""@,
            ""@,
            ""@,
            ""@,
            ""@,
            "ks-drop-in"@,
            (6 + (if wstunnel_port > 0 { 1int } else { 0int }) + 3) as i32,
            old(db).spec_clock(),
        ),
        r is Ok ==> final(db).spec_rt_rules() == old(db).spec_rt_rules(),
        final(db).spec_config() == old(db).spec_config(),
        final(db).spec_clock() == old(db).spec_clock(),
{
    if db.get_rule_group("kill-switch").is_ok() {
        return Err((ErrorCode::DbWrite, String::from_str("preset: group name already exists")));
    }
    if db.next_group_id == i64::MAX {
        return Err((ErrorCode::DbWrite, String::from_str("preset: group id space exhausted")));
    }
    if db.next_fw_id > i64::MAX - 11 {
        return Err((ErrorCode::DbWrite, String::from_str("preset: rule id space exhausted")));
    }
    let metadata = build_kill_switch_metadata(wg_port, wstunnel_port, wg_iface);
    let g = match db.create_rule_group("kill-switch", "kill_switch", 10, metadata.as_str()) {
        Ok(g) => g,
        Err(e) => {
            proof {
                assert(false);
            }
            return Err((ErrorCode::DbWrite, e));
        },
    };
    let gid = g.id;
    let ghost s0 = *old(db);
    let ghost kx = group_insert_index(s0.spec_groups(), g);
    proof {
        assert(db.spec_groups()[kx] == g);
        assert(db.group_id_exists(gid));
        lemma_rule_gids_bounded(s0);
    }
    let ghost nf = s0.spec_fw_rules().len() as int;
    let mut pos: i32 = 0;
    proof {
        assert(db.spec_groups()[kx] == g);
        assert(db.group_id_exists(gid));
        assert forall|i: int|
            0 <= i < db.spec_fw_rules().len() implies ((#[trigger] db.spec_fw_rules()[
                i
            ]).group_id < gid || (db.spec_fw_rules()[i].group_id == gid && db.spec_fw_rules()[
                i
            ].position < pos)) by {
            if i < nf {
                assert(db.spec_fw_rules()[i] == s0.spec_fw_rules()[i]);
            }
        }
    }
    let row = fw_rule(gid, "output", "accept", 2, "", 0, "", "", "lo", "", "ks-lo-out", pos);
    let res = append_fw_rule(db, row);
    pos = pos + 1;
    proof {
        assert(db.spec_groups()[kx] == g);
        assert(db.group_id_exists(gid));
    }
    let row = fw_rule(gid, "output", "accept", 2, "", 0, "", "", "", "established,related", "ks-ct-out", pos);
    let res = append_fw_rule(db, row);
    pos = pos + 1;
    proof {
        assert(db.spec_groups()[kx] == g);
        assert(db.group_id_exists(gid));
    }
    let row = fw_rule(gid, "output", "accept", 2, "udp", wg_port as i32, "", "", "", "", "ks-wg-out", pos);
    let res = append_fw_rule(db, row);
    pos = pos + 1;
    proof {
        assert(db.spec_groups()[kx] == g);
        assert(db.group_id_exists(gid));
    }
    let row = fw_rule(gid, "output", "accept", 2, "", 0, "", "", wg_iface, "", "ks-wg-iface", pos);
    let res = append_fw_rule(db, row);
    pos = pos + 1;
    proof {
        assert(db.spec_groups()[kx] == g);
        assert(db.group_id_exists(gid));
    }
    let row = fw_rule(gid, "output", "accept", 2, "udp", 67, "", "", "", "", "ks-dhcp-67", pos);
    let res = append_fw_rule(db, row);
    pos = pos + 1;
    proof {
        assert(db.spec_groups()[kx] == g);
        assert(db.group_id_exists(gid));
    }
    let row = fw_rule(gid, "output", "accept", 2, "udp", 68, "", "", "", "", "ks-dhcp-68", pos);
    let res = append_fw_rule(db, row);
    pos = pos + 1;
    if wstunnel_port > 0 {
        proof {
            assert(db.spec_groups()[kx] == g);
            assert(db.group_id_exists(gid));
        }
        let row = fw_rule(gid, "output", "accept", 2, "tcp", wstunnel_port as i32, "", "", "", "", "ks-wst-out", pos);
        let res = append_fw_rule(db, row);
        pos = pos + 1;
    }
    proof {
        assert(db.spec_groups()[kx] == g);
        assert(db.group_id_exists(gid));
    }
    let res = ks_tail_rules(db, gid, pos);
    proof {
        lemma_preset_group_created(
            *old(db),
            *db,
            g,
            kx,
            "kill-switch"@,
            "kill_switch"@,
            10,
            kill_switch_metadata(wg_port, wstunnel_port, wg_iface@),
        );
    }
    Ok(())
}


/// The metadata blob a DNS-protection preset stores.
pub open spec fn dns_protection_metadata(wg_iface: Seq<char>) -> Seq<char> {
    "{\"preset\":\"dns_protection\",\"wg_iface\":\""@ + wg_iface + "\"}"@
}

fn build_dns_protection_metadata(wg_iface: &str) -> (m: String)
    ensures
        m@ == dns_protection_metadata(wg_iface@),
{
    let mut m = String::from_str("{\"preset\":\"dns_protection\",\"wg_iface\":\"");
    m.append(wg_iface);
    m.append("\"}");
    proof {
        assert(m@ =~= dns_protection_metadata(wg_iface@));
    }
    m
}

/// Create the DNS-protection group, named `dns-protection` at priority 20:
/// allow name lookups through the tunnel and the loopback resolver, drop
/// them everywhere else.
pub fn preset_dns_protection(db: &mut FirewallDB, wg_iface: &str) -> (r: Result<
    (),
    (ErrorCode, String),
>)
    requires
        old(db).wf(),
    ensures
        final(db).wf(),
        r is Err <==> (old(db).group_name_exists("dns-protection"@) || !old(
            db,
        ).can_assign_group_id() || old(db).next_fw_id > i64::MAX - 5),
        r is Err ==> *final(db) == *old(db),
        r matches Err((code, m)) ==> code == ErrorCode::DbWrite,
        r is Ok ==> preset_group_created(
            *old(db),
            *final(db),
            "dns-protection"@,
            "dns_protection"@,
            20,
            dns_protection_metadata(wg_iface@),
        ),
        r is Ok ==> final(db).spec_fw_rules().len() == old(db).spec_fw_rules().len() + 5,
        r is Ok ==> forall|k: int|
            0 <= k < old(db).spec_fw_rules().len() ==> final(db).spec_fw_rules()[k] == old(
                db,
            ).spec_fw_rules()[k],
        r is Ok ==> fw_row_fields(
            final(db).spec_fw_rules()[old(db).spec_fw_rules().len() as int],
            old(db).next_fw_id,
            old(db).next_group_id,
            "output"@,
            "accept"@,
            2,
            "udp"@,
            53,
            0,
            ""@,
            ""@,
            ""@,
            wg_iface@,
            ""@,
            "dns-wg-udp"@,
            0,
            old(db).spec_clock(),
        ),
        r is Ok ==> fw_row_fields(
            final(db).spec_fw_rules()[old(db).spec_fw_rules().len() as int + 1],
            (old(db).next_fw_id + 1) as i64,
            old(db).next_group_id,
            "output"@,
            "accept"@,
            2,
            "tcp"@,
            53,
            0,
            ""@,
            ""@,
            ""@,
            wg_iface@,
            ""@,
            "dns-wg-tcp"@,
            1,
            old(db).spec_clock(),
        ),
        r is Ok ==> fw_row_fields(
            final(db).spec_fw_rules()[old(db).spec_fw_rules().len() as int + 2],
            (old(db).next_fw_id + 2) as i64,
            old(db).next_group_id,
            "output"@,
            "accept"@,
            2,
            "udp"@,
            53,
            0,
            ""@,
            ""@,
            ""@,
            "lo"@,
            ""@,
            "dns-lo-udp"@,
            2,
            old(db).spec_clock(),
        ),
        r is Ok ==> fw_row_fields(
            final(db).spec_fw_rules()[old(db).spec_fw_rules().len() as int + 3],
            (old(db).next_fw_id + 3) as i64,
            old(db).next_group_id,
            "output"@,
            "drop"@,
            2,
            "udp"@,
            53,
            0,
            ""@,
            ""@,
            ""@,
            ""@,
            ""@,
            "dns-block-udp"@,
            3,
            old(db).spec_clock(),
        ),
        r is Ok ==> fw_row_fields(
            final(db).spec_fw_rules()[old(db).spec_fw_rules().len() as int + 4],
            (old(db).next_fw_id + 4) as i64,
            old(db).next_group_id,
            "output"@,
            "drop"@,
            2,
            "tcp"@,
            53,
            0,
            ""@,
            ""@,
            ""@,
            ""@,
            ""@,
            "dns-block-tcp"@,
            4,
            old(db).spec_clock(),
        ),
        r is Ok ==> final(db).spec_rt_rules() == old(db).spec_rt_rules(),
        final(db).spec_config() == old(db).spec_config(),
        final(db).spec_clock() == old(db).spec_clock(),
{
    if db.get_rule_group("dns-protection").is_ok() {
        return Err((ErrorCode::DbWrite, String::from_str("preset: group name already exists")));
    }
    if db.next_group_id == i64::MAX {
        return Err((ErrorCode::DbWrite, String::from_str("preset: group id space exhausted")));
    }
    if db.next_fw_id > i64::MAX - 5 {
        return Err((ErrorCode::DbWrite, String::from_str("preset: rule id space exhausted")));
    }
    let metadata = build_dns_protection_metadata(wg_iface);
    let g = match db.create_rule_group("dns-protection", "dns_protection", 20, metadata.as_str()) {
        Ok(g) => g,
        Err(e) => {
            proof {
                assert(false);
            }
            return Err((ErrorCode::DbWrite, e));
        },
    };
    let gid = g.id;
    let ghost s0 = *old(db);
    let ghost kx = group_insert_index(s0.spec_groups(), g);
    proof {
        assert(db.spec_groups()[kx] == g);
        assert(db.group_id_exists(gid));
        lemma_rule_gids_bounded(s0);
    }
    let mut pos: i32 = 0;
    proof {
        assert(db.spec_groups()[kx] == g);
        assert(db.group_id_exists(gid));
        assert forall|i: int|
            0 <= i < db.spec_fw_rules().len() implies (#[trigger] db.spec_fw_rules()[i]).group_id
            < gid by {
            assert(db.spec_fw_rules()[i] == s0.spec_fw_rules()[i]);
        }
    }
    let row = fw_rule(gid, "output", "accept", 2, "udp", 53, "", "", wg_iface, "", "dns-wg-udp", pos);
    let res = append_fw_rule(db, row);
    pos = pos + 1;
    proof {
        assert(db.spec_groups()[kx] == g);
        assert(db.group_id_exists(gid));
    }
    let row = fw_rule(gid, "output", "accept", 2, "tcp", 53, "", "", wg_iface, "", "dns-wg-tcp", pos);
    let res = append_fw_rule(db, row);
    pos = pos + 1;
    proof {
        assert(db.spec_groups()[kx] == g);
        assert(db.group_id_exists(gid));
    }
    let row = fw_rule(gid, "output", "accept", 2, "udp", 53, "", "", "lo", "", "dns-lo-udp", pos);
    let res = append_fw_rule(db, row);
    pos = pos + 1;
    proof {
        assert(db.spec_groups()[kx] == g);
        assert(db.group_id_exists(gid));
    }
    let row = fw_rule(gid, "output", "drop", 2, "udp", 53, "", "", "", "", "dns-block-udp", pos);
    let res = append_fw_rule(db, row);
    pos = pos + 1;
    proof {
        assert(db.spec_groups()[kx] == g);
        assert(db.group_id_exists(gid));
    }
    let row = fw_rule(gid, "output", "drop", 2, "tcp", 53, "", "", "", "", "dns-block-tcp", pos);
    let res = append_fw_rule(db, row);
    pos = pos + 1;
    proof {
        lemma_preset_group_created(
            *old(db),
            *db,
            g,
            kx,
            "dns-protection"@,
            "dns_protection"@,
            20,
            dns_protection_metadata(wg_iface@),
        );
    }
    Ok(())
}

/// The metadata blob an IPv6-block preset stores.
pub open spec fn ipv6_block_metadata() -> Seq<char> {
    "{\"preset\":\"ipv6_block\"}"@
}

/// Create the IPv6-block group, named `ipv6-block` at priority 5: drop all
/// IPv6 traffic on the input, output and forward chains.
pub fn preset_ipv6_block(db: &mut FirewallDB) -> (r: Result<(), (ErrorCode, String)>)
    requires
        old(db).wf(),
    ensures
        final(db).wf(),
        r is Err <==> (old(db).group_name_exists("ipv6-block"@) || !old(
            db,
        ).can_assign_group_id() || old(db).next_fw_id > i64::MAX - 3),
        r is Err ==> *final(db) == *old(db),
        r matches Err((code, m)) ==> code == ErrorCode::DbWrite,
        r is Ok ==> preset_group_created(
            *old(db),
            *final(db),
            "ipv6-block"@,
            "ipv6_block"@,
            5,
            ipv6_block_metadata(),
        ),
        r is Ok ==> final(db).spec_fw_rules().len() == old(db).spec_fw_rules().len() + 3,
        r is Ok ==> forall|k: int|
            0 <= k < old(db).spec_fw_rules().len() ==> final(db).spec_fw_rules()[k] == old(
                db,
            ).spec_fw_rules()[k],
        r is Ok ==> fw_row_fields(
            final(db).spec_fw_rules()[old(db).spec_fw_rules().len() as int],
            old(db).next_fw_id,
            old(db).next_group_id,
            "input"@,
            "drop"@,
            10,
            ""@,
            0,
            0,
            ""@,
            ""@,
            ""@,
            ""@,
            ""@,
            "ipv6-input"@,
            0,
            old(db).spec_clock(),
        ),
        r is Ok ==> fw_row_fields(
            final(db).spec_fw_rules()[old(db).spec_fw_rules().len() as int + 1],
            (old(db).next_fw_id + 1) as i64,
            old(db).next_group_id,
            "output"@,
            "drop"@,
            10,
            ""@,
            0,
            0,
            ""@,
            ""@,
            ""@,
            ""@,
            ""@,
            "ipv6-output"@,
            1,
            old(db).spec_clock(),
        ),
        r is Ok ==> fw_row_fields(
            final(db).spec_fw_rules()[old(db).spec_fw_rules().len() as int + 2],
            (old(db).next_fw_id + 2) as i64,
            old(db).next_group_id,
            "forward"@,
            "drop"@,
            10,
            ""@,
            0,
            0,
            ""@,
            ""@,
            ""@,
            ""@,
            ""@,
            "ipv6-forward"@,
            2,
            old(db).spec_clock(),
        ),
        r is Ok ==> final(db).spec_rt_rules() == old(db).spec_rt_rules(),
        final(db).spec_config() == old(db).spec_config(),
        final(db).spec_clock() == old(db).spec_clock(),
{
    if db.get_rule_group("ipv6-block").is_ok() {
        return Err((ErrorCode::DbWrite, String::from_str("preset: group name already exists")));
    }
    if db.next_group_id == i64::MAX {
        return Err((ErrorCode::DbWrite, String::from_str("preset: group id space exhausted")));
    }
    if db.next_fw_id > i64::MAX - 3 {
        return Err((ErrorCode::DbWrite, String::from_str("preset: rule id space exhausted")));
    }
    let metadata = String::from_str("{\"preset\":\"ipv6_block\"}");
    let g = match db.create_rule_group("ipv6-block", "ipv6_block", 5, metadata.as_str()) {
        Ok(g) => g,
        Err(e) => {
            proof {
                assert(false);
            }
            return Err((ErrorCode::DbWrite, e));
        },
    };
    let gid = g.id;
    let ghost s0 = *old(db);
    let ghost kx = group_insert_index(s0.spec_groups(), g);
    proof {
        assert(db.spec_groups()[kx] == g);
        assert(db.group_id_exists(gid));
        lemma_rule_gids_bounded(s0);
    }
    let mut pos: i32 = 0;
    proof {
        assert(db.spec_groups()[kx] == g);
        assert(db.group_id_exists(gid));
        assert forall|i: int|
            0 <= i < db.spec_fw_rules().len() implies (#[trigger] db.spec_fw_rules()[i]).group_id
            < gid by {
            assert(db.spec_fw_rules()[i] == s0.spec_fw_rules()[i]);
        }
    }
    let row = fw_rule(gid, "input", "drop", 10, "", 0, "", "", "", "", "ipv6-input", pos);
    let res = append_fw_rule(db, row);
    pos = pos + 1;
    proof {
        assert(db.spec_groups()[kx] == g);
        assert(db.group_id_exists(gid));
    }
    let row = fw_rule(gid, "output", "drop", 10, "", 0, "", "", "", "", "ipv6-output", pos);
    let res = append_fw_rule(db, row);
    pos = pos + 1;
    proof {
        assert(db.spec_groups()[kx] == g);
        assert(db.group_id_exists(gid));
    }
    let row = fw_rule(gid, "forward", "drop", 10, "", 0, "", "", "", "", "ipv6-forward", pos);
    let res = append_fw_rule(db, row);
    pos = pos + 1;
    proof {
        lemma_preset_group_created(
            *old(db),
            *db,
            g,
            kx,
            "ipv6-block"@,
            "ipv6_block"@,
            5,
            ipv6_block_metadata(),
        );
    }
    Ok(())
}

} // verus!
//! The bridge's persistent store, modelled as a verified relational state.
//!
//! Four tables: the configuration singleton, rule groups, firewall rules and
//! routing rules. Rule groups are kept sorted by `(priority, name)` and rules
//! by `(group_id, position, id)` / `(group_id, id)`, the orders in which the
//! store hands them out. Group names are unique, ids are unique and assigned
//! in increasing order, and every rule row references an existing group;
//! deleting a group cascades to its rules. An unverified shell persists this
//! state in an embedded database file; the schema it uses is `SCHEMA_DDL`.

use vstd::prelude::*;

use crate::text::{lemma_str_le_total, lemma_str_le_trans, spec_str_le, str_eq, str_le};

verus! {

// ---------------------------------------------------------------------------
// Row types
// ---------------------------------------------------------------------------

/// The one-row bridge configuration.
pub struct ConfigRow {
    pub state: String,
    pub ip_forward_enabled: bool,
    pub ipv6_blocked: bool,
    pub kill_switch_active: bool,
    pub updated_at: i64,
}

/// A named bundle of firewall and routing rules.
pub struct RuleGroupRow {
    pub id: i64,
    pub name: String,
    pub group_type: String,
    pub enabled: bool,
    pub priority: i32,
    pub metadata: String,
    pub created_at: i64,
    pub updated_at: i64,
}

/// One packet-filter rule, a child of a rule group.
pub struct FirewallRuleRow {
    pub id: i64,
    pub group_id: i64,
    pub chain: String,
    pub rule_type: String,
    pub family: i32,
    pub proto: String,
    pub dport: i32,
    pub sport: i32,
    pub source: String,
    pub destination: String,
    pub in_iface: String,
    pub out_iface: String,
    pub state_match: String,
    pub comment: String,
    pub position: i32,
    pub applied: bool,
    pub nft_handle: i64,
    pub created_at: i64,
}

/// One policy-routing rule, a child of a rule group.
pub struct RoutingRuleRow {
    pub id: i64,
    pub group_id: i64,
    pub rule_type: String,
    pub from_network: String,
    pub to_network: String,
    pub table_name: String,
    pub table_id: i32,
    pub priority: i32,
    pub destination: String,
    pub device: String,
    pub fwmark: i32,
    pub applied: bool,
    pub created_at: i64,
}

impl Clone for ConfigRow {
    fn clone(&self) -> (r: Self)
        ensures
            r == *self,
    {
        ConfigRow {
            state: self.state.clone(),
            ip_forward_enabled: self.ip_forward_enabled,
            ipv6_blocked: self.ipv6_blocked,
            kill_switch_active: self.kill_switch_active,
            updated_at: self.updated_at,
        }
    }
}

impl Clone for RuleGroupRow {
    fn clone(&self) -> (r: Self)
        ensures
            r == *self,
    {
        RuleGroupRow {
            id: self.id,
            name: self.name.clone(),
            group_type: self.group_type.clone(),
            enabled: self.enabled,
            priority: self.priority,
            metadata: self.metadata.clone(),
            created_at: self.created_at,
            updated_at: self.updated_at,
        }
    }
}

impl Clone for FirewallRuleRow {
    fn clone(&self) -> (r: Self)
        ensures
            r == *self,
    {
        FirewallRuleRow {
            id: self.id,
            group_id: self.group_id,
            chain: self.chain.clone(),
            rule_type: self.rule_type.clone(),
            family: self.family,
            proto: self.proto.clone(),
            dport: self.dport,
            sport: self.sport,
            source: self.source.clone(),
            destination: self.destination.clone(),
            in_iface: self.in_iface.clone(),
            out_iface: self.out_iface.clone(),
            state_match: self.state_match.clone(),
            comment: self.comment.clone(),
            position: self.position,
            applied: self.applied,
            nft_handle: self.nft_handle,
            created_at: self.created_at,
        }
    }
}

impl Clone for RoutingRuleRow {
    fn clone(&self) -> (r: Self)
        ensures
            r == *self,
    {
        RoutingRuleRow {
            id: self.id,
            group_id: self.group_id,
            rule_type: self.rule_type.clone(),
            from_network: self.from_network.clone(),
            to_network: self.to_network.clone(),
            table_name: self.table_name.clone(),
            table_id: self.table_id,
            priority: self.priority,
            destination: self.destination.clone(),
            device: self.device.clone(),
            fwmark: self.fwmark,
            applied: self.applied,
            created_at: self.created_at,
        }
    }
}

// ---------------------------------------------------------------------------
// Row orders
// ---------------------------------------------------------------------------

/// Group listing order: ascending `(priority, name)`.
pub open spec fn group_le(a: RuleGroupRow, b: RuleGroupRow) -> bool {
    a.priority < b.priority || (a.priority == b.priority && spec_str_le(a.name@, b.name@))
}

/// Firewall-rule listing order: ascending `(group_id, position, id)`.
pub open spec fn fw_le(a: FirewallRuleRow, b: FirewallRuleRow) -> bool {
    a.group_id < b.group_id || (a.group_id == b.group_id && (a.position < b.position || (
    a.position == b.position && a.id <= b.id)))
}

/// Routing-rule listing order: ascending `(group_id, id)`.
pub open spec fn rt_le(a: RoutingRuleRow, b: RoutingRuleRow) -> bool {
    a.group_id < b.group_id || (a.group_id == b.group_id && a.id <= b.id)
}

proof fn lemma_group_le_total(a: RuleGroupRow, b: RuleGroupRow)
    ensures
        group_le(a, b) || group_le(b, a),
{
    lemma_str_le_total(a.name@, b.name@);
}

proof fn lemma_group_le_trans(a: RuleGroupRow, b: RuleGroupRow, c: RuleGroupRow)
    requires
        group_le(a, b),
        group_le(b, c),
    ensures
        group_le(a, c),
{
    if a.priority == b.priority && b.priority == c.priority {
        lemma_str_le_trans(a.name@, b.name@, c.name@);
    }
}

fn group_le_exec(a: &RuleGroupRow, b: &RuleGroupRow) -> (r: bool)
    ensures
        r == group_le(*a, *b),
{
    if a.priority < b.priority {
        true
    } else if a.priority == b.priority {
        str_le(a.name.as_str(), b.name.as_str())
    } else {
        false
    }
}

// ---------------------------------------------------------------------------
// Named table views
// ---------------------------------------------------------------------------

/// The enabled groups, in `(priority, name)` order.
pub open spec fn enabled_of(db: FirewallDB) -> Seq<RuleGroupRow> {
    db.spec_groups().filter(|g: RuleGroupRow| g.enabled)
}

/// One group's firewall rules, in `(position, id)` order.
pub open spec fn fw_of_group(db: FirewallDB, gid: i64) -> Seq<FirewallRuleRow> {
    db.spec_fw_rules().filter(|row: FirewallRuleRow| row.group_id == gid)
}

/// One group's routing rules, in id order.
pub open spec fn rt_of_group(db: FirewallDB, gid: i64) -> Seq<RoutingRuleRow> {
    db.spec_rt_rules().filter(|row: RoutingRuleRow| row.group_id == gid)
}

/// The firewall rules whose applied flag is set.
pub open spec fn applied_fw_of(db: FirewallDB) -> Seq<FirewallRuleRow> {
    db.spec_fw_rules().filter(|row: FirewallRuleRow| row.applied)
}

/// The routing rules whose applied flag is set.
pub open spec fn applied_rt_of(db: FirewallDB) -> Seq<RoutingRuleRow> {
    db.spec_rt_rules().filter(|row: RoutingRuleRow| row.applied)
}

// ---------------------------------------------------------------------------
// The store
// ---------------------------------------------------------------------------

/// The store facade: the bridge's source of truth for declared intent.
pub struct FirewallDB {
    pub config: Option<ConfigRow>,
    pub groups: Vec<RuleGroupRow>,
    pub fw_rules: Vec<FirewallRuleRow>,
    pub rt_rules: Vec<RoutingRuleRow>,
    pub next_group_id: i64,
    pub next_fw_id: i64,
    pub next_rt_id: i64,
    pub clock: i64,
}

impl FirewallDB {
    /// The configuration row, if one was created.
    pub open spec fn spec_config(self) -> Option<ConfigRow> {
        self.config
    }

    /// All rule groups, in `(priority, name)` order.
    pub open spec fn spec_groups(self) -> Seq<RuleGroupRow> {
        self.groups@
    }

    /// All firewall rules, in `(group_id, position, id)` order.
    pub open spec fn spec_fw_rules(self) -> Seq<FirewallRuleRow> {
        self.fw_rules@
    }

    /// All routing rules, in `(group_id, id)` order.
    pub open spec fn spec_rt_rules(self) -> Seq<RoutingRuleRow> {
        self.rt_rules@
    }

    /// The timestamp new and updated rows are stamped with.
    pub open spec fn spec_clock(self) -> i64 {
        self.clock
    }

    /// A group row with this id exists.
    pub open spec fn group_id_exists(self, gid: i64) -> bool {
        exists|i: int| 0 <= i < self.groups@.len() && self.groups@[i].id == gid
    }

    /// A group row with this name exists.
    pub open spec fn group_name_exists(self, name: Seq<char>) -> bool {
        exists|i: int| 0 <= i < self.groups@.len() && self.groups@[i].name@ == name
    }

    /// Store invariant: orders, unique keys, id bounds and foreign keys.
    pub open spec fn wf(self) -> bool {
        &&& forall|i: int, j: int|
            0 <= i < j < self.groups@.len() ==> group_le(
                #[trigger] self.groups@[i],
                #[trigger] self.groups@[j],
            )
        &&& forall|i: int, j: int|
            0 <= i < j < self.groups@.len() ==> (#[trigger] self.groups@[i]).name@ != (
            #[trigger] self.groups@[j]).name@
        &&& forall|i: int, j: int|
            0 <= i < j < self.groups@.len() ==> (#[trigger] self.groups@[i]).id != (
            #[trigger] self.groups@[j]).id
        &&& forall|i: int|
            0 <= i < self.groups@.len() ==> 1 <= (#[trigger] self.groups@[i]).id
                < self.next_group_id
        &&& forall|i: int, j: int|
            0 <= i < j < self.fw_rules@.len() ==> fw_le(
                #[trigger] self.fw_rules@[i],
                #[trigger] self.fw_rules@[j],
            )
        &&& forall|i: int, j: int|
            0 <= i < j < self.fw_rules@.len() ==> (#[trigger] self.fw_rules@[i]).id != (
            #[trigger] self.fw_rules@[j]).id
        &&& forall|i: int|
            0 <= i < self.fw_rules@.len() ==> 1 <= (#[trigger] self.fw_rules@[i]).id
                < self.next_fw_id
        &&& forall|i: int|
            0 <= i < self.fw_rules@.len() ==> self.group_id_exists(
                (#[trigger] self.fw_rules@[i]).group_id,
            )
        &&& forall|i: int, j: int|
            0 <= i < j < self.rt_rules@.len() ==> rt_le(
                #[trigger] self.rt_rules@[i],
                #[trigger] self.rt_rules@[j],
            )
        &&& forall|i: int, j: int|
            0 <= i < j < self.rt_rules@.len() ==> (#[trigger] self.rt_rules@[i]).id != (
            #[trigger] self.rt_rules@[j]).id
        &&& forall|i: int|
            0 <= i < self.rt_rules@.len() ==> 1 <= (#[trigger] self.rt_rules@[i]).id
                < self.next_rt_id
        &&& forall|i: int|
            0 <= i < self.rt_rules@.len() ==> self.group_id_exists(
                (#[trigger] self.rt_rules@[i]).group_id,
            )
        &&& 1 <= self.next_group_id
        &&& 1 <= self.next_fw_id
        &&& 1 <= self.next_rt_id
    }

    /// Well-formedness depends only on the three tables and the id counters.
    proof fn lemma_wf_same_tables(a: FirewallDB, b: FirewallDB)
        requires
            a.wf(),
            b.groups@ == a.groups@,
            b.fw_rules@ == a.fw_rules@,
            b.rt_rules@ == a.rt_rules@,
            b.next_group_id == a.next_group_id,
            b.next_fw_id == a.next_fw_id,
            b.next_rt_id == a.next_rt_id,
        ensures
            b.wf(),
    {
        assert forall|i: int| 0 <= i < b.fw_rules@.len() implies b.group_id_exists(
            (#[trigger] b.fw_rules@[i]).group_id,
        ) by {
            assert(a.group_id_exists(a.fw_rules@[i].group_id));
            let k = choose|k: int|
                0 <= k < a.groups@.len() && a.groups@[k].id == a.fw_rules@[i].group_id;
            assert(b.groups@[k].id == b.fw_rules@[i].group_id);
        }
        assert forall|i: int| 0 <= i < b.rt_rules@.len() implies b.group_id_exists(
            (#[trigger] b.rt_rules@[i]).group_id,
        ) by {
            assert(a.group_id_exists(a.rt_rules@[i].group_id));
            let k = choose|k: int|
                0 <= k < a.groups@.len() && a.groups@[k].id == a.rt_rules@[i].group_id;
            assert(b.groups@[k].id == b.rt_rules@[i].group_id);
        }
    }

    /// A fresh, empty store.
    pub fn new() -> (db: Self)
        ensures
            db.wf(),
            db.spec_config() is None,
            db.spec_groups() =~= Seq::<RuleGroupRow>::empty(),
            db.spec_fw_rules() =~= Seq::<FirewallRuleRow>::empty(),
            db.spec_rt_rules() =~= Seq::<RoutingRuleRow>::empty(),
            db.spec_clock() == 0,
            db.next_group_id == 1,
            db.next_fw_id == 1,
            db.next_rt_id == 1,
    {
        FirewallDB {
            config: None,
            groups: Vec::new(),
            fw_rules: Vec::new(),
            rt_rules: Vec::new(),
            next_group_id: 1,
            next_fw_id: 1,
            next_rt_id: 1,
            clock: 0,
        }
    }

    /// Set the timestamp used for subsequent writes.
    pub fn set_time(&mut self, ts: i64)
        ensures
            final(self).spec_clock() == ts,
            final(self).spec_config() == old(self).spec_config(),
            final(self).spec_groups() == old(self).spec_groups(),
            final(self).spec_fw_rules() == old(self).spec_fw_rules(),
            final(self).spec_rt_rules() == old(self).spec_rt_rules(),
            final(self).next_group_id == old(self).next_group_id,
            final(self).next_fw_id == old(self).next_fw_id,
            final(self).next_rt_id == old(self).next_rt_id,
            old(self).wf() ==> final(self).wf(),
    {
        self.clock = ts;
        proof {
            if old(self).wf() {
                Self::lemma_wf_same_tables(*old(self), *self);
            }
        }
    }

    // ---- Config ----

    /// Create the configuration row if it is absent; an existing row is kept.
    pub fn init_config(&mut self) -> (r: Result<(), String>)
        ensures
            r is Ok,
            old(self).spec_config() is Some ==> final(self).spec_config() == old(self).spec_config(),
            old(self).spec_config() is None ==> (final(self).spec_config() matches Some(c) && c.state@
                == "initialized"@ && !c.ip_forward_enabled && !c.ipv6_blocked
                && !c.kill_switch_active && c.updated_at == old(self).spec_clock()),
            final(self).spec_groups() == old(self).spec_groups(),
            final(self).spec_fw_rules() == old(self).spec_fw_rules(),
            final(self).spec_rt_rules() == old(self).spec_rt_rules(),
            final(self).spec_clock() == old(self).spec_clock(),
            final(self).next_group_id == old(self).next_group_id,
            final(self).next_fw_id == old(self).next_fw_id,
            final(self).next_rt_id == old(self).next_rt_id,
            old(self).wf() ==> final(self).wf(),
    {
        if self.config.is_none() {
            self.config = Some(
                ConfigRow {
                    state: String::from_str("initialized"),
                    ip_forward_enabled: false,
                    ipv6_blocked: false,
                    kill_switch_active: false,
                    updated_at: self.clock,
                },
            );
        }
        proof {
            if old(self).wf() {
                Self::lemma_wf_same_tables(*old(self), *self);
            }
        }
        Ok(())
    }

    /// Read the configuration row.
    pub fn get_config(&self) -> (r: Result<ConfigRow, String>)
        ensures
            r is Ok <==> self.spec_config() is Some,
            r matches Ok(c) ==> self.spec_config() matches Some(c2) && c == c2,
    {
        match &self.config {
            Some(c) => Ok(c.clone()),
            None => Err(String::from_str("get_config: no config row")),
        }
    }

    /// Set the lifecycle label on the configuration row. Like an update of a
    /// possibly-empty table, this succeeds even when no row exists yet.
    pub fn set_state(&mut self, state: &str) -> (r: Result<(), String>)
        ensures
            r is Ok,
            old(self).spec_config() is None ==> final(self).spec_config() is None,
            old(self).spec_config() matches Some(c) ==> (final(self).spec_config() matches Some(c2) && c2.state@
                == state@ && c2.ip_forward_enabled == c.ip_forward_enabled && c2.ipv6_blocked
                == c.ipv6_blocked && c2.kill_switch_active == c.kill_switch_active && c2.updated_at
                == old(self).spec_clock()),
            final(self).spec_groups() == old(self).spec_groups(),
            final(self).spec_fw_rules() == old(self).spec_fw_rules(),
            final(self).spec_rt_rules() == old(self).spec_rt_rules(),
            final(self).spec_clock() == old(self).spec_clock(),
            final(self).next_group_id == old(self).next_group_id,
            final(self).next_fw_id == old(self).next_fw_id,
            final(self).next_rt_id == old(self).next_rt_id,
            old(self).wf() ==> final(self).wf(),
    {
        let clock = self.clock;
        match &mut self.config {
            Some(c) => {
                c.state = String::from_str(state);
                c.updated_at = clock;
            },
            None => {},
        }
        proof {
            if old(self).wf() {
                Self::lemma_wf_same_tables(*old(self), *self);
            }
        }
        Ok(())
    }

    /// Set one of the three kernel-settings flags. Any other column name is
    /// rejected: this is the only place a caller-chosen column reaches the
    /// store, and it is held to a fixed allow-list.
    pub fn set_config_flag(&mut self, column: &str, value: bool) -> (r: Result<(), String>)
        ensures
            r is Ok <==> (column@ == "ip_forward_enabled"@ || column@ == "ipv6_blocked"@
                || column@ == "kill_switch_active"@),
            r is Err ==> *final(self) == *old(self),
            r is Ok && old(self).spec_config() is None ==> final(self).spec_config() is None,
            (r is Ok && old(self).spec_config() is Some) ==> (final(self).spec_config() matches Some(c2)
                && c2.state == old(self).spec_config()->Some_0.state && c2.updated_at == old(self).spec_clock()
                && c2.ip_forward_enabled == (if column@ == "ip_forward_enabled"@ {
                value
            } else {
                old(self).spec_config()->Some_0.ip_forward_enabled
            }) && c2.ipv6_blocked == (if column@ == "ipv6_blocked"@ {
                value
            } else {
                old(self).spec_config()->Some_0.ipv6_blocked
            }) && c2.kill_switch_active == (if column@ == "kill_switch_active"@ {
                value
            } else {
                old(self).spec_config()->Some_0.kill_switch_active
            })),
            final(self).spec_groups() == old(self).spec_groups(),
            final(self).spec_fw_rules() == old(self).spec_fw_rules(),
            final(self).spec_rt_rules() == old(self).spec_rt_rules(),
            final(self).spec_clock() == old(self).spec_clock(),
            final(self).next_group_id == old(self).next_group_id,
            final(self).next_fw_id == old(self).next_fw_id,
            final(self).next_rt_id == old(self).next_rt_id,
            old(self).wf() ==> final(self).wf(),
    {
        let is_fwd = str_eq(column, "ip_forward_enabled");
        let is_v6 = str_eq(column, "ipv6_blocked");
        let is_ks = str_eq(column, "kill_switch_active");
        if !is_fwd && !is_v6 && !is_ks {
            let mut e = String::from_str("Unknown config column: ");
            e.append(column);
            return Err(e);
        }
        let clock = self.clock;
        match &mut self.config {
            Some(c) => {
                if is_fwd {
                    c.ip_forward_enabled = value;
                }
                if is_v6 {
                    c.ipv6_blocked = value;
                }
                if is_ks {
                    c.kill_switch_active = value;
                }
                c.updated_at = clock;
            },
            None => {},
        }
        proof {
            if old(self).wf() {
                Self::lemma_wf_same_tables(*old(self), *self);
            }
        }
        Ok(())
    }

    // ---- Rule groups ----

    fn find_group_by_name(&self, name: &str) -> (r: Option<usize>)
        ensures
            r matches Some(i) ==> i < self.groups@.len() && self.groups@[i as int].name@ == name@,
            r is None ==> forall|i: int|
                0 <= i < self.groups@.len() ==> (#[trigger] self.groups@[i]).name@ != name@,
            r is Some <==> self.group_name_exists(name@),
    {
        let mut i: usize = 0;
        while i < self.groups.len()
            invariant
                0 <= i <= self.groups@.len(),
                forall|k: int| 0 <= k < i ==> (#[trigger] self.groups@[k]).name@ != name@,
            decreases self.groups@.len() - i,
        {
            if str_eq(self.groups[i].name.as_str(), name) {
                return Some(i);
            }
            i = i + 1;
        }
        None
    }

    fn find_group_by_id(&self, id: i64) -> (r: Option<usize>)
        ensures
            r matches Some(i) ==> i < self.groups@.len() && self.groups@[i as int].id == id,
            r is None ==> forall|i: int|
                0 <= i < self.groups@.len() ==> (#[trigger] self.groups@[i]).id != id,
            r is Some <==> self.group_id_exists(id),
    {
        let mut i: usize = 0;
        while i < self.groups.len()
            invariant
                0 <= i <= self.groups@.len(),
                forall|k: int| 0 <= k < i ==> (#[trigger] self.groups@[k]).id != id,
            decreases self.groups@.len() - i,
        {
            if self.groups[i].id == id {
                return Some(i);
            }
            i = i + 1;
        }
        None
    }

    /// There is headroom to assign another group id.
    pub open spec fn can_assign_group_id(self) -> bool {
        self.next_group_id < i64::MAX
    }

    /// Create a rule group. Fails exactly when the name is already taken (or
    /// the id space is exhausted); the new group is enabled, stamped with the
    /// current clock, and stored in `(priority, name)` order.
    #[verifier::rlimit(30)]
    pub fn create_rule_group(
        &mut self,
        name: &str,
        group_type: &str,
        priority: i32,
        metadata: &str,
    ) -> (r: Result<RuleGroupRow, String>)
        requires
            old(self).wf(),
        ensures
            final(self).wf(),
            r is Err <==> (old(self).group_name_exists(name@) || !old(
                self,
            ).can_assign_group_id()),
            r is Err ==> *final(self) == *old(self),
            r matches Ok(g) ==> g.name@ == name@ && g.group_type@ == group_type@ && g.priority
                == priority && g.enabled == true && g.metadata@ == metadata@ && g.created_at
                == old(self).spec_clock() && g.updated_at == old(self).spec_clock(),
            r matches Ok(g) ==> forall|i: int|
                0 <= i < old(self).spec_groups().len() ==> (#[trigger] old(
                    self,
                ).spec_groups()[i]).id != g.id,
            r matches Ok(g) ==> final(self).spec_groups() == old(self).spec_groups().insert(
                group_insert_index(old(self).spec_groups(), g),
                g,
            ) && 0 <= group_insert_index(old(self).spec_groups(), g) <= old(
                self,
            ).spec_groups().len(),
            r is Ok ==> final(self).group_name_exists(name@),
            final(self).spec_config() == old(self).spec_config(),
            final(self).spec_fw_rules() == old(self).spec_fw_rules(),
            final(self).spec_rt_rules() == old(self).spec_rt_rules(),
            final(self).spec_clock() == old(self).spec_clock(),
            final(self).next_fw_id == old(self).next_fw_id,
            final(self).next_rt_id == old(self).next_rt_id,
            r matches Ok(g) ==> g.id == old(self).next_group_id && final(self).next_group_id
                == old(self).next_group_id + 1,
    {
        if self.find_group_by_name(name).is_some() {
            let mut e = String::from_str("create_rule_group: UNIQUE constraint failed: ");
            e.append(name);
            return Err(e);
        }
        if self.next_group_id == i64::MAX {
            return Err(String::from_str("create_rule_group: id space exhausted"));
        }
        let row = RuleGroupRow {
            id: self.next_group_id,
            name: String::from_str(name),
            group_type: String::from_str(group_type),
            enabled: true,
            priority,
            metadata: String::from_str(metadata),
            created_at: self.clock,
            updated_at: self.clock,
        };
        let result = row.clone();
        let mut pos: usize = 0;
        while pos < self.groups.len()
            invariant
                0 <= pos <= self.groups@.len(),
                forall|k: int| 0 <= k < pos ==> group_le(#[trigger] self.groups@[k], row),
            ensures
                0 <= pos <= self.groups@.len(),
                forall|k: int| 0 <= k < pos ==> group_le(#[trigger] self.groups@[k], row),
                pos < self.groups@.len() ==> !group_le(self.groups@[pos as int], row),
            decreases self.groups@.len() - pos,
        {
            if !group_le_exec(&self.groups[pos], &row) {
                break;
            }
            pos = pos + 1;
        }
        proof {
            if pos < self.groups@.len() {
                lemma_group_le_total(self.groups@[pos as int], row);
            }
        }
        let ghost pre = self.groups@;
        self.next_group_id = self.next_group_id + 1;
        self.groups.insert(pos, row);
        proof {
            let g = self.groups@[pos as int];
            assert(self.groups@ =~= pre.insert(pos as int, g));
            // sortedness around the insertion point
            assert forall|i: int, j: int|
                0 <= i < j < self.groups@.len() implies group_le(
                #[trigger] self.groups@[i],
                #[trigger] self.groups@[j],
            ) by {
                if i < pos && j == pos {
                } else if i == pos && j > pos {
                    if j == pos + 1 {
                        assert(group_le(g, pre[pos as int]));
                    } else {
                        lemma_group_le_trans(g, pre[pos as int], pre[j - 1]);
                    }
                } else if i < pos && j > pos {
                    assert(group_le(pre[i], pre[j - 1]));
                }
            }
            assert(pre == old(self).spec_groups());
            lemma_group_insert_index_is(pre, result, pos as int);
            assert(self.groups@ == old(self).spec_groups().insert(pos as int, result));
            assert(self.groups@[pos as int].name@ == name@);
            assert forall|i: int| 0 <= i < self.fw_rules@.len() implies self.group_id_exists(
                (#[trigger] self.fw_rules@[i]).group_id,
            ) by {
                let k = choose|k: int|
                    0 <= k < pre.len() && pre[k].id == self.fw_rules@[i].group_id;
                let k2: int = if k < pos { k } else { k + 1 };
                assert(self.groups@[k2].id == self.fw_rules@[i].group_id);
            }
            assert forall|i: int| 0 <= i < self.rt_rules@.len() implies self.group_id_exists(
                (#[trigger] self.rt_rules@[i]).group_id,
            ) by {
                let k = choose|k: int|
                    0 <= k < pre.len() && pre[k].id == self.rt_rules@[i].group_id;
                let k2: int = if k < pos { k } else { k + 1 };
                assert(self.groups@[k2].id == self.rt_rules@[i].group_id);
            }
        }
        Ok(result)
    }

    /// Read a group by name. Succeeds exactly when the name exists.
    pub fn get_rule_group(&self, name: &str) -> (r: Result<RuleGroupRow, String>)
        ensures
            r is Ok <==> self.group_name_exists(name@),
            r matches Ok(g) ==> self.spec_groups().contains(g) && g.name@ == name@,
    {
        match self.find_group_by_name(name) {
            Some(i) => {
                let g = self.groups[i].clone();
                proof {
                    assert(self.spec_groups()[i as int] == g);
                }
                Ok(g)
            },
            None => {
                let mut e = String::from_str("get_rule_group: no such group: ");
                e.append(name);
                Err(e)
            },
        }
    }

    /// Read a group by id. Succeeds exactly when the id exists.
    pub fn get_rule_group_by_id(&self, id: i64) -> (r: Result<RuleGroupRow, String>)
        ensures
            r is Ok <==> self.group_id_exists(id),
            r matches Ok(g) ==> self.spec_groups().contains(g) && g.id == id,
    {
        match self.find_group_by_id(id) {
            Some(i) => {
                let g = self.groups[i].clone();
                proof {
                    assert(self.spec_groups()[i as int] == g);
                }
                Ok(g)
            },
            None => Err(String::from_str("get_rule_group_by_id: no such group")),
        }
    }

    /// All rule groups, in `(priority, name)` order.
    pub fn list_rule_groups(&self) -> (r: Result<Vec<RuleGroupRow>, String>)
        ensures
            r is Ok,
            r matches Ok(v) ==> v@ == self.spec_groups(),
    {
        let mut out: Vec<RuleGroupRow> = Vec::new();
        let mut i: usize = 0;
        while i < self.groups.len()
            invariant
                0 <= i <= self.groups@.len(),
                out@ =~= self.groups@.subrange(0, i as int),
            decreases self.groups@.len() - i,
        {
            out.push(self.groups[i].clone());
            proof {
                assert(out@ =~= self.groups@.subrange(0, i as int + 1));
            }
            i = i + 1;
        }
        proof {
            assert(out@ =~= self.groups@);
        }
        Ok(out)
    }

    /// The enabled groups, in `(priority, name)` order.
    pub fn enabled_groups(&self) -> (r: Result<Vec<RuleGroupRow>, String>)
        ensures
            r is Ok,
            r matches Ok(v) ==> v@ == enabled_of(*self),
    {
        let ghost pred = |g: RuleGroupRow| g.enabled;
        let mut out: Vec<RuleGroupRow> = Vec::new();
        let mut i: usize = 0;
        proof {
            assert(self.groups@.subrange(0, 0).filter(pred) =~= Seq::<RuleGroupRow>::empty())
                by {
                reveal(Seq::filter);
            }
        }
        while i < self.groups.len()
            invariant
                0 <= i <= self.groups@.len(),
                out@ == self.groups@.subrange(0, i as int).filter(pred),
                pred == (|g: RuleGroupRow| g.enabled),
            decreases self.groups@.len() - i,
        {
            let ghost pre = self.groups@.subrange(0, i as int);
            if self.groups[i].enabled {
                out.push(self.groups[i].clone());
            }
            proof {
                lemma_filter_push(pre, self.groups@[i as int], pred);
                assert(self.groups@.subrange(0, i as int + 1) =~= pre.push(
                    self.groups@[i as int],
                ));
            }
            i = i + 1;
        }
        proof {
            assert(self.groups@.subrange(0, self.groups@.len() as int) =~= self.groups@);
        }
        Ok(out)
    }

    /// Enable or disable a group by name. Fails exactly when the name does
    /// not exist; on success the group's flag and update stamp change and
    /// nothing else does.
    pub fn set_group_enabled(&mut self, name: &str, enabled: bool) -> (r: Result<(), String>)
        requires
            old(self).wf(),
        ensures
            final(self).wf(),
            r is Ok <==> old(self).group_name_exists(name@),
            r is Err ==> *final(self) == *old(self),
            r is Ok ==> ({
                &&& final(self).spec_groups().len() == old(self).spec_groups().len()
                &&& forall|i: int|
                    0 <= i < old(self).spec_groups().len() ==> final(self).spec_groups()[i]
                        == (if (#[trigger] old(self).spec_groups()[i]).name@ == name@ {
                        RuleGroupRow {
                            enabled,
                            updated_at: old(self).spec_clock(),
                            ..old(self).spec_groups()[i]
                        }
                    } else {
                        old(self).spec_groups()[i]
                    })
            }),
            final(self).spec_config() == old(self).spec_config(),
            final(self).spec_fw_rules() == old(self).spec_fw_rules(),
            final(self).spec_rt_rules() == old(self).spec_rt_rules(),
            final(self).spec_clock() == old(self).spec_clock(),
            final(self).next_group_id == old(self).next_group_id,
            final(self).next_fw_id == old(self).next_fw_id,
            final(self).next_rt_id == old(self).next_rt_id,
    {
        let idx = match self.find_group_by_name(name) {
            Some(i) => i,
            None => {
                let mut e = String::from_str("Rule group not found: ");
                e.append(name);
                return Err(e);
            },
        };
        let clock = self.clock;
        let g = &mut self.groups[idx];
        g.enabled = enabled;
        g.updated_at = clock;
        proof {
            let og = old(self).spec_groups();
            let ng = self.groups@;
            assert(ng.len() == og.len());
            assert forall|i: int|
                0 <= i < ng.len() implies (#[trigger] ng[i]).name@ == og[i].name@ && ng[i].id
                == og[i].id && ng[i].priority == og[i].priority by {}
            assert forall|i: int, j: int| 0 <= i < j < ng.len() implies group_le(
                #[trigger] ng[i],
                #[trigger] ng[j],
            ) by {
                assert(group_le(og[i], og[j]));
            }
            assert forall|i: int| 0 <= i < self.fw_rules@.len() implies self.group_id_exists(
                (#[trigger] self.fw_rules@[i]).group_id,
            ) by {
                assert(old(self).group_id_exists(self.fw_rules@[i].group_id));
                let k = choose|k: int|
                    0 <= k < og.len() && og[k].id == self.fw_rules@[i].group_id;
                assert(ng[k].id == self.fw_rules@[i].group_id);
            }
            assert forall|i: int| 0 <= i < self.rt_rules@.len() implies self.group_id_exists(
                (#[trigger] self.rt_rules@[i]).group_id,
            ) by {
                assert(old(self).group_id_exists(self.rt_rules@[i].group_id));
                let k = choose|k: int|
                    0 <= k < og.len() && og[k].id == self.rt_rules@[i].group_id;
                assert(ng[k].id == self.rt_rules@[i].group_id);
            }
        }
        Ok(())
    }

    /// Delete a group by name, cascading to its firewall and routing rules.
    /// Fails exactly when the name does not exist.
    pub fn delete_rule_group(&mut self, name: &str) -> (r: Result<(), String>)
        requires
            old(self).wf(),
        ensures
            final(self).wf(),
            r is Ok <==> old(self).group_name_exists(name@),
            r is Err ==> *final(self) == *old(self),
            r is Ok ==> ({
                exists|k: int|
                    {
                        &&& 0 <= k < old(self).spec_groups().len()
                        &&& (#[trigger] old(self).spec_groups()[k]).name@ == name@
                        &&& final(self).spec_groups() == old(self).spec_groups().remove(k)
                        &&& final(self).spec_fw_rules() == old(self).spec_fw_rules().filter(
                            |r: FirewallRuleRow| r.group_id != old(self).spec_groups()[k].id,
                        )
                        &&& final(self).spec_rt_rules() == old(self).spec_rt_rules().filter(
                            |r: RoutingRuleRow| r.group_id != old(self).spec_groups()[k].id,
                        )
                    }
            }),
            final(self).spec_config() == old(self).spec_config(),
            final(self).spec_clock() == old(self).spec_clock(),
            final(self).next_group_id == old(self).next_group_id,
            final(self).next_fw_id == old(self).next_fw_id,
            final(self).next_rt_id == old(self).next_rt_id,
    {
        let idx = match self.find_group_by_name(name) {
            Some(i) => i,
            None => {
                let mut e = String::from_str("Rule group not found: ");
                e.append(name);
                return Err(e);
            },
        };
        let gid = self.groups[idx].id;
        let ghost old_groups = self.groups@;
        self.groups.remove(idx);
        proof {
            assert(self.groups@ =~= old_groups.remove(idx as int));
        }
        self.fw_rules = Self::retain_fw_other_group(&self.fw_rules, gid);
        self.rt_rules = Self::retain_rt_other_group(&self.rt_rules, gid);
        proof {
            let fpred = |r: FirewallRuleRow| r.group_id != gid;
            let rpred = |r: RoutingRuleRow| r.group_id != gid;
            // the predicate in the contract names the group row; it is the
            // same function as the one over the copied id
            let fpost = |r: FirewallRuleRow| r.group_id != old(self).spec_groups()[
                idx as int
            ].id;
            let rpost = |r: RoutingRuleRow| r.group_id != old(self).spec_groups()[idx as int].id;
            assert(fpred =~= fpost);
            assert(rpred =~= rpost);
            // orders and unique ids survive taking a subsequence
            Self::lemma_fw_filter_wf(old(self).spec_fw_rules(), fpred);
            Self::lemma_rt_filter_wf(old(self).spec_rt_rules(), rpred);
            // foreign keys survive: the only group gone is the one whose
            // rules were dropped
            assert forall|i: int| 0 <= i < self.fw_rules@.len() implies self.group_id_exists(
                (#[trigger] self.fw_rules@[i]).group_id,
            ) by {
                let row = self.fw_rules@[i];
                assert(old(self).spec_fw_rules().contains(row)) by {
                    broadcast use vstd::seq_lib::group_filter_ensures;

                    assert(old(self).spec_fw_rules().filter(fpred)[i] == row);
                }
                let j = choose|j: int|
                    0 <= j < old(self).spec_fw_rules().len() && old(self).spec_fw_rules()[j]
                        == row;
                assert(old(self).group_id_exists(row.group_id));
                let k = choose|k: int|
                    0 <= k < old_groups.len() && old_groups[k].id == row.group_id;
                assert(row.group_id != gid);
                assert(k != idx);
                let k2: int = if k < idx { k } else { k - 1 };
                assert(self.groups@[k2].id == row.group_id);
            }
            assert forall|i: int| 0 <= i < self.rt_rules@.len() implies self.group_id_exists(
                (#[trigger] self.rt_rules@[i]).group_id,
            ) by {
                let row = self.rt_rules@[i];
                assert(old(self).spec_rt_rules().contains(row)) by {
                    broadcast use vstd::seq_lib::group_filter_ensures;

                    assert(old(self).spec_rt_rules().filter(rpred)[i] == row);
                }
                assert(old(self).group_id_exists(row.group_id));
                let k = choose|k: int|
                    0 <= k < old_groups.len() && old_groups[k].id == row.group_id;
                assert(row.group_id != gid);
                assert(k != idx);
                let k2: int = if k < idx { k } else { k - 1 };
                assert(self.groups@[k2].id == row.group_id);
            }
        }
        Ok(())
    }

    fn retain_fw_other_group(rules: &Vec<FirewallRuleRow>, gid: i64) -> (out: Vec<
        FirewallRuleRow,
    >)
        ensures
            out@ == rules@.filter(|r: FirewallRuleRow| r.group_id != gid),
    {
        let ghost pred = |r: FirewallRuleRow| r.group_id != gid;
        let mut out: Vec<FirewallRuleRow> = Vec::new();
        let mut i: usize = 0;
        proof {
            assert(rules@.subrange(0, 0).filter(pred) =~= Seq::<FirewallRuleRow>::empty()) by {
                reveal(Seq::filter);
            }
        }
        while i < rules.len()
            invariant
                0 <= i <= rules@.len(),
                out@ == rules@.subrange(0, i as int).filter(pred),
                pred == (|r: FirewallRuleRow| r.group_id != gid),
            decreases rules@.len() - i,
        {
            let ghost pre = rules@.subrange(0, i as int);
            if rules[i].group_id != gid {
                out.push(rules[i].clone());
            }
            proof {
                lemma_filter_push(pre, rules@[i as int], pred);
                assert(rules@.subrange(0, i as int + 1) =~= pre.push(rules@[i as int]));
            }
            i = i + 1;
        }
        proof {
            assert(rules@.subrange(0, rules@.len() as int) =~= rules@);
        }
        out
    }

    fn retain_rt_other_group(rules: &Vec<RoutingRuleRow>, gid: i64) -> (out: Vec<RoutingRuleRow>)
        ensures
            out@ == rules@.filter(|r: RoutingRuleRow| r.group_id != gid),
    {
        let ghost pred = |r: RoutingRuleRow| r.group_id != gid;
        let mut out: Vec<RoutingRuleRow> = Vec::new();
        let mut i: usize = 0;
        proof {
            assert(rules@.subrange(0, 0).filter(pred) =~= Seq::<RoutingRuleRow>::empty()) by {
                reveal(Seq::filter);
            }
        }
        while i < rules.len()
            invariant
                0 <= i <= rules@.len(),
                out@ == rules@.subrange(0, i as int).filter(pred),
                pred == (|r: RoutingRuleRow| r.group_id != gid),
            decreases rules@.len() - i,
        {
            let ghost pre = rules@.subrange(0, i as int);
            if rules[i].group_id != gid {
                out.push(rules[i].clone());
            }
            proof {
                lemma_filter_push(pre, rules@[i as int], pred);
                assert(rules@.subrange(0, i as int + 1) =~= pre.push(rules@[i as int]));
            }
            i = i + 1;
        }
        proof {
            assert(rules@.subrange(0, rules@.len() as int) =~= rules@);
        }
        out
    }

    /// A filtered firewall-rule table keeps its order and unique ids.
    proof fn lemma_fw_filter_wf(s: Seq<FirewallRuleRow>, pred: spec_fn(FirewallRuleRow) -> bool)
        requires
            forall|i: int, j: int| 0 <= i < j < s.len() ==> fw_le(#[trigger] s[i], #[trigger] s[j]),
            forall|i: int, j: int|
                0 <= i < j < s.len() ==> (#[trigger] s[i]).id != (#[trigger] s[j]).id,
        ensures
            forall|i: int, j: int|
                0 <= i < j < s.filter(pred).len() ==> fw_le(
                    #[trigger] s.filter(pred)[i],
                    #[trigger] s.filter(pred)[j],
                ),
            forall|i: int, j: int|
                0 <= i < j < s.filter(pred).len() ==> (#[trigger] s.filter(pred)[i]).id != (
                #[trigger] s.filter(pred)[j]).id,
            forall|i: int|
                0 <= i < s.filter(pred).len() ==> s.contains(#[trigger] s.filter(pred)[i]),
        decreases s.len(),
    {
        reveal(Seq::filter);
        if s.len() > 0 {
            let butlast = s.drop_last();
            Self::lemma_fw_filter_wf(butlast, pred);
            let f = s.filter(pred);
            let fb = butlast.filter(pred);
            assert(forall|i: int| 0 <= i < butlast.len() ==> butlast[i] == s[i]);
            assert(forall|i: int|
                0 <= i < fb.len() ==> butlast.contains(#[trigger] fb[i]) && s.contains(fb[i]));
            if pred(s.last()) {
                assert(f == fb.push(s.last()));
                assert forall|i: int, j: int| 0 <= i < j < f.len() implies fw_le(
                    #[trigger] f[i],
                    #[trigger] f[j],
                ) && f[i].id != f[j].id by {
                    if j == f.len() - 1 {
                        assert(f[i] == fb[i]);
                        assert(butlast.contains(fb[i]));
                        let k = choose|k: int| 0 <= k < butlast.len() && butlast[k] == fb[i];
                        assert(fw_le(s[k], s[s.len() - 1]));
                        assert(s[k].id != s[s.len() - 1].id);
                    }
                }
            } else {
                assert(f == fb);
            }
        }
    }

    /// A filtered routing-rule table keeps its order and unique ids.
    proof fn lemma_rt_filter_wf(s: Seq<RoutingRuleRow>, pred: spec_fn(RoutingRuleRow) -> bool)
        requires
            forall|i: int, j: int| 0 <= i < j < s.len() ==> rt_le(#[trigger] s[i], #[trigger] s[j]),
            forall|i: int, j: int|
                0 <= i < j < s.len() ==> (#[trigger] s[i]).id != (#[trigger] s[j]).id,
        ensures
            forall|i: int, j: int|
                0 <= i < j < s.filter(pred).len() ==> rt_le(
                    #[trigger] s.filter(pred)[i],
                    #[trigger] s.filter(pred)[j],
                ),
            forall|i: int, j: int|
                0 <= i < j < s.filter(pred).len() ==> (#[trigger] s.filter(pred)[i]).id != (
                #[trigger] s.filter(pred)[j]).id,
            forall|i: int|
                0 <= i < s.filter(pred).len() ==> s.contains(#[trigger] s.filter(pred)[i]),
        decreases s.len(),
    {
        reveal(Seq::filter);
        if s.len() > 0 {
            let butlast = s.drop_last();
            Self::lemma_rt_filter_wf(butlast, pred);
            let f = s.filter(pred);
            let fb = butlast.filter(pred);
            assert(forall|i: int| 0 <= i < butlast.len() ==> butlast[i] == s[i]);
            assert(forall|i: int|
                0 <= i < fb.len() ==> butlast.contains(#[trigger] fb[i]) && s.contains(fb[i]));
            if pred(s.last()) {
                assert(f == fb.push(s.last()));
                assert forall|i: int, j: int| 0 <= i < j < f.len() implies rt_le(
                    #[trigger] f[i],
                    #[trigger] f[j],
                ) && f[i].id != f[j].id by {
                    if j == f.len() - 1 {
                        assert(f[i] == fb[i]);
                        assert(butlast.contains(fb[i]));
                        let k = choose|k: int| 0 <= k < butlast.len() && butlast[k] == fb[i];
                        assert(rt_le(s[k], s[s.len() - 1]));
                        assert(s[k].id != s[s.len() - 1].id);
                    }
                }
            } else {
                assert(f == fb);
            }
        }
    }

    // ---- Firewall rules ----

    /// There is headroom to assign another firewall-rule id.
    pub open spec fn can_assign_fw_id(self) -> bool {
        self.next_fw_id < i64::MAX
    }

    /// Insert a firewall rule under a group. Fails exactly when the group id
    /// does not exist (the foreign key) or the id space is exhausted. The new
    /// row is not applied and is stored in `(group_id, position, id)` order.
    /// Insert an already-built firewall-rule row under its `group_id`. The
    /// store replaces the row's id, applied flag, handle and creation stamp
    /// with its own values and files it in `(group_id, position, id)` order.
    /// Fails exactly when the group id does not exist (the foreign key) or
    /// the id space is exhausted.
    pub fn insert_fw_row(&mut self, row: FirewallRuleRow) -> (r: Result<i64, String>)
        requires
            old(self).wf(),
        ensures
            final(self).wf(),
            r is Err <==> (!old(self).group_id_exists(row.group_id) || !old(
                self,
            ).can_assign_fw_id()),
            r is Err ==> *final(self) == *old(self),
            r is Ok ==> ({
                let stamped = fw_stamped(row, old(self).next_fw_id, old(self).spec_clock());
                &&& 0 <= fw_insert_index(old(self).spec_fw_rules(), stamped) <= old(
                    self,
                ).spec_fw_rules().len()
                &&& final(self).spec_fw_rules() == old(self).spec_fw_rules().insert(
                    fw_insert_index(old(self).spec_fw_rules(), stamped),
                    stamped,
                )
            }),
            r matches Ok(id) ==> forall|i: int|
                0 <= i < old(self).spec_fw_rules().len() ==> (#[trigger] old(
                    self,
                ).spec_fw_rules()[i]).id != id,
            final(self).spec_config() == old(self).spec_config(),
            final(self).spec_groups() == old(self).spec_groups(),
            final(self).spec_rt_rules() == old(self).spec_rt_rules(),
            final(self).spec_clock() == old(self).spec_clock(),
            final(self).next_group_id == old(self).next_group_id,
            final(self).next_rt_id == old(self).next_rt_id,
            r matches Ok(id) ==> id == old(self).next_fw_id && final(self).next_fw_id == old(
                self,
            ).next_fw_id + 1,
    {
        if self.find_group_by_id(row.group_id).is_none() {
            return Err(String::from_str("insert_fw_row: FOREIGN KEY constraint failed"));
        }
        if self.next_fw_id == i64::MAX {
            return Err(String::from_str("insert_fw_row: id space exhausted"));
        }
        let group_id = row.group_id;
        let ghost arg = row;
        let mut row = row;
        row.id = self.next_fw_id;
        row.applied = false;
        row.nft_handle = 0;
        row.created_at = self.clock;
        let id = row.id;
        let ghost grow = row;
        let mut pos: usize = 0;
        while pos < self.fw_rules.len()
            invariant
                0 <= pos <= self.fw_rules@.len(),
                forall|k: int| 0 <= k < pos ==> fw_le(#[trigger] self.fw_rules@[k], grow),
                row == grow,
            ensures
                0 <= pos <= self.fw_rules@.len(),
                forall|k: int| 0 <= k < pos ==> fw_le(#[trigger] self.fw_rules@[k], grow),
                pos < self.fw_rules@.len() ==> !fw_le(self.fw_rules@[pos as int], grow),
                row == grow,
            decreases self.fw_rules@.len() - pos,
        {
            let keep = {
                let e = &self.fw_rules[pos];
                e.group_id < row.group_id || (e.group_id == row.group_id && (e.position
                    < row.position || (e.position == row.position && e.id <= row.id)))
            };
            if !keep {
                break;
            }
            pos = pos + 1;
        }
        let ghost pre = self.fw_rules@;
        self.next_fw_id = self.next_fw_id + 1;
        self.fw_rules.insert(pos, row);
        proof {
            assert(self.fw_rules@ =~= pre.insert(pos as int, grow));
            assert forall|i: int, j: int|
                0 <= i < j < self.fw_rules@.len() implies fw_le(
                #[trigger] self.fw_rules@[i],
                #[trigger] self.fw_rules@[j],
            ) && self.fw_rules@[i].id != self.fw_rules@[j].id by {
                if i < pos && j == pos {
                } else if i == pos && j > pos {
                    assert(!fw_le(pre[pos as int], grow));
                    assert(fw_le(pre[pos as int], pre[j - 1]) || j == pos + 1);
                } else if i < pos && j > pos {
                    assert(fw_le(pre[i], pre[j - 1]));
                    assert(pre[i].id != pre[j - 1].id);
                }
            }
            assert forall|i: int| 0 <= i < self.fw_rules@.len() implies self.group_id_exists(
                (#[trigger] self.fw_rules@[i]).group_id,
            ) by {
                if i != pos {
                    let q: int = if i < pos { i } else { i - 1 };
                    assert(old(self).group_id_exists(pre[q].group_id));
                    Self::lemma_gid_exists_same_groups(*old(self), *self, pre[q].group_id);
                } else {
                    Self::lemma_gid_exists_same_groups(*old(self), *self, group_id);
                }
            }
            assert forall|i: int| 0 <= i < self.rt_rules@.len() implies self.group_id_exists(
                (#[trigger] self.rt_rules@[i]).group_id,
            ) by {
                Self::lemma_gid_exists_same_groups(*old(self), *self, self.rt_rules@[i].group_id);
            }
            assert(pre == old(self).spec_fw_rules());
            assert(grow == fw_stamped(arg, id, old(self).spec_clock()));
            lemma_fw_insert_index_is(pre, grow, pos as int);
            assert(fw_insert_index(old(self).spec_fw_rules(), grow) == pos as int);
            assert(self.fw_rules@ == old(self).spec_fw_rules().insert(
                fw_insert_index(old(self).spec_fw_rules(), grow),
                grow,
            ));
        }
        Ok(id)
    }

    /// Insert a firewall rule from its field values. See `insert_fw_row`.
    pub fn insert_firewall_rule(
        &mut self,
        group_id: i64,
        chain: &str,
        rule_type: &str,
        family: i32,
        proto: &str,
        dport: i32,
        sport: i32,
        source: &str,
        destination: &str,
        in_iface: &str,
        out_iface: &str,
        state_match: &str,
        comment: &str,
        position: i32,
    ) -> (r: Result<i64, String>)
        requires
            old(self).wf(),
        ensures
            final(self).wf(),
            r is Err <==> (!old(self).group_id_exists(group_id) || !old(
                self,
            ).can_assign_fw_id()),
            r is Err ==> *final(self) == *old(self),
            r matches Ok(id) ==> fw_inserted(
                *old(self),
                *final(self),
                id,
                group_id,
                chain@,
                rule_type@,
                family,
                proto@,
                dport,
                sport,
                source@,
                destination@,
                in_iface@,
                out_iface@,
                state_match@,
                comment@,
                position,
            ),
            r matches Ok(id) ==> forall|i: int|
                0 <= i < old(self).spec_fw_rules().len() ==> (#[trigger] old(
                    self,
                ).spec_fw_rules()[i]).id != id,
            final(self).spec_config() == old(self).spec_config(),
            final(self).spec_groups() == old(self).spec_groups(),
            final(self).spec_rt_rules() == old(self).spec_rt_rules(),
            final(self).spec_clock() == old(self).spec_clock(),
            final(self).next_group_id == old(self).next_group_id,
            final(self).next_rt_id == old(self).next_rt_id,
            r matches Ok(id) ==> id == old(self).next_fw_id && final(self).next_fw_id == old(
                self,
            ).next_fw_id + 1,
    {
        let row = FirewallRuleRow {
            id: 0,
            group_id,
            chain: String::from_str(chain),
            rule_type: String::from_str(rule_type),
            family,
            proto: String::from_str(proto),
            dport,
            sport,
            source: String::from_str(source),
            destination: String::from_str(destination),
            in_iface: String::from_str(in_iface),
            out_iface: String::from_str(out_iface),
            state_match: String::from_str(state_match),
            comment: String::from_str(comment),
            position,
            applied: false,
            nft_handle: 0,
            created_at: 0,
        };
        let ghost built = row;
        let r = self.insert_fw_row(row);
        proof {
            if r is Ok {
                let id = r->Ok_0;
                let stamped = fw_stamped(built, old(self).next_fw_id, old(self).spec_clock());
                assert(fw_row_fields(
                    stamped,
                    id,
                    group_id,
                    chain@,
                    rule_type@,
                    family,
                    proto@,
                    dport,
                    sport,
                    source@,
                    destination@,
                    in_iface@,
                    out_iface@,
                    state_match@,
                    comment@,
                    position,
                    old(self).spec_clock(),
                ));
                assert(fw_inserted(
                    *old(self),
                    *self,
                    id,
                    group_id,
                    chain@,
                    rule_type@,
                    family,
                    proto@,
                    dport,
                    sport,
                    source@,
                    destination@,
                    in_iface@,
                    out_iface@,
                    state_match@,
                    comment@,
                    position,
                ));
            }
        }
        r
    }

    /// Set the applied flag and captured handle of the rule with this id;
    /// rows with other ids are untouched. Succeeds whether or not the id
    /// exists, as an update by key does.
    pub fn update_fw_rule_applied(&mut self, rule_id: i64, applied: bool, nft_handle: i64) -> (r:
        Result<(), String>)
        requires
            old(self).wf(),
        ensures
            final(self).wf(),
            r is Ok,
            final(self).spec_fw_rules().len() == old(self).spec_fw_rules().len(),
            forall|i: int|
                0 <= i < old(self).spec_fw_rules().len() ==> final(self).spec_fw_rules()[i] == (
                if (#[trigger] old(self).spec_fw_rules()[i]).id == rule_id {
                    fw_with_applied(old(self).spec_fw_rules()[i], applied, nft_handle)
                } else {
                    old(self).spec_fw_rules()[i]
                }),
            final(self).spec_config() == old(self).spec_config(),
            final(self).spec_groups() == old(self).spec_groups(),
            final(self).spec_rt_rules() == old(self).spec_rt_rules(),
            final(self).spec_clock() == old(self).spec_clock(),
            final(self).next_group_id == old(self).next_group_id,
            final(self).next_fw_id == old(self).next_fw_id,
            final(self).next_rt_id == old(self).next_rt_id,
    {
        let n = self.fw_rules.len();
        let mut out: Vec<FirewallRuleRow> = Vec::new();
        let mut i: usize = 0;
        while i < n
            invariant
                0 <= i <= n,
                n == self.fw_rules@.len(),
                out@.len() == i,
                forall|k: int|
                    0 <= k < i ==> out@[k] == (if (#[trigger] self.fw_rules@[k]).id == rule_id {
                        fw_with_applied(self.fw_rules@[k], applied, nft_handle)
                    } else {
                        self.fw_rules@[k]
                    }),
            decreases n - i,
        {
            let mut c = self.fw_rules[i].clone();
            if c.id == rule_id {
                c.applied = applied;
                c.nft_handle = nft_handle;
            }
            out.push(c);
            i = i + 1;
        }
        self.fw_rules = out;
        proof {
            assert forall|i: int|
                0 <= i < self.fw_rules@.len() implies (#[trigger] self.fw_rules@[i]).id == old(
                self,
            ).spec_fw_rules()[i].id && self.fw_rules@[i].group_id == old(
                self,
            ).spec_fw_rules()[i].group_id && self.fw_rules@[i].position == old(
                self,
            ).spec_fw_rules()[i].position by {}
            assert forall|i: int, j: int|
                0 <= i < j < self.fw_rules@.len() implies fw_le(
                #[trigger] self.fw_rules@[i],
                #[trigger] self.fw_rules@[j],
            ) && self.fw_rules@[i].id != self.fw_rules@[j].id by {
                assert(fw_le(old(self).spec_fw_rules()[i], old(self).spec_fw_rules()[j]));
                assert(old(self).spec_fw_rules()[i].id != old(self).spec_fw_rules()[j].id);
            }
            assert forall|i: int| 0 <= i < self.fw_rules@.len() implies self.group_id_exists(
                (#[trigger] self.fw_rules@[i]).group_id,
            ) by {
                assert(old(self).group_id_exists(old(self).spec_fw_rules()[i].group_id));
                Self::lemma_gid_exists_same_groups(
                    *old(self),
                    *self,
                    old(self).spec_fw_rules()[i].group_id,
                );
            }
            assert forall|i: int| 0 <= i < self.rt_rules@.len() implies self.group_id_exists(
                (#[trigger] self.rt_rules@[i]).group_id,
            ) by {
                Self::lemma_gid_exists_same_groups(*old(self), *self, self.rt_rules@[i].group_id);
            }
        }
        Ok(())
    }

    /// Delete the firewall rule with this id, if any.
    pub fn delete_firewall_rule(&mut self, rule_id: i64) -> (r: Result<(), String>)
        requires
            old(self).wf(),
        ensures
            final(self).wf(),
            r is Ok,
            final(self).spec_fw_rules() == old(self).spec_fw_rules().filter(
                |row: FirewallRuleRow| row.id != rule_id,
            ),
            final(self).spec_config() == old(self).spec_config(),
            final(self).spec_groups() == old(self).spec_groups(),
            final(self).spec_rt_rules() == old(self).spec_rt_rules(),
            final(self).spec_clock() == old(self).spec_clock(),
            final(self).next_group_id == old(self).next_group_id,
            final(self).next_fw_id == old(self).next_fw_id,
            final(self).next_rt_id == old(self).next_rt_id,
    {
        let ghost pred = |row: FirewallRuleRow| row.id != rule_id;
        let mut out: Vec<FirewallRuleRow> = Vec::new();
        let mut i: usize = 0;
        proof {
            assert(self.fw_rules@.subrange(0, 0).filter(pred) =~= Seq::<
                FirewallRuleRow,
            >::empty()) by {
                reveal(Seq::filter);
            }
        }
        while i < self.fw_rules.len()
            invariant
                0 <= i <= self.fw_rules@.len(),
                out@ == self.fw_rules@.subrange(0, i as int).filter(pred),
                pred == (|row: FirewallRuleRow| row.id != rule_id),
            decreases self.fw_rules@.len() - i,
        {
            let ghost prefix = self.fw_rules@.subrange(0, i as int);
            if self.fw_rules[i].id != rule_id {
                out.push(self.fw_rules[i].clone());
            }
            proof {
                lemma_filter_push(prefix, self.fw_rules@[i as int], pred);
                assert(self.fw_rules@.subrange(0, i as int + 1) =~= prefix.push(
                    self.fw_rules@[i as int],
                ));
            }
            i = i + 1;
        }
        proof {
            assert(self.fw_rules@.subrange(0, self.fw_rules@.len() as int) =~= self.fw_rules@);
        }
        self.fw_rules = out;
        proof {
            Self::lemma_fw_filter_wf(old(self).spec_fw_rules(), pred);
            assert forall|i: int| 0 <= i < self.fw_rules@.len() implies self.group_id_exists(
                (#[trigger] self.fw_rules@[i]).group_id,
            ) by {
                assert(old(self).spec_fw_rules().contains(self.fw_rules@[i]));
                let k = choose|k: int|
                    0 <= k < old(self).spec_fw_rules().len() && old(self).spec_fw_rules()[k]
                        == self.fw_rules@[i];
                assert(old(self).group_id_exists(self.fw_rules@[i].group_id));
                Self::lemma_gid_exists_same_groups(
                    *old(self),
                    *self,
                    self.fw_rules@[i].group_id,
                );
            }
            assert forall|i: int| 0 <= i < self.rt_rules@.len() implies self.group_id_exists(
                (#[trigger] self.rt_rules@[i]).group_id,
            ) by {
                Self::lemma_gid_exists_same_groups(*old(self), *self, self.rt_rules@[i].group_id);
            }
        }
        Ok(())
    }

    /// The firewall rules of one group, in `(position, id)` order.
    pub fn firewall_rules_for_group(&self, group_id: i64) -> (r: Result<
        Vec<FirewallRuleRow>,
        String,
    >)
        ensures
            r is Ok,
            r matches Ok(v) ==> v@ == fw_of_group(*self, group_id),
    {
        let ghost pred = |row: FirewallRuleRow| row.group_id == group_id;
        let mut out: Vec<FirewallRuleRow> = Vec::new();
        let mut i: usize = 0;
        proof {
            assert(self.fw_rules@.subrange(0, 0).filter(pred) =~= Seq::<
                FirewallRuleRow,
            >::empty()) by {
                reveal(Seq::filter);
            }
        }
        while i < self.fw_rules.len()
            invariant
                0 <= i <= self.fw_rules@.len(),
                out@ == self.fw_rules@.subrange(0, i as int).filter(pred),
                pred == (|row: FirewallRuleRow| row.group_id == group_id),
            decreases self.fw_rules@.len() - i,
        {
            let ghost prefix = self.fw_rules@.subrange(0, i as int);
            if self.fw_rules[i].group_id == group_id {
                out.push(self.fw_rules[i].clone());
            }
            proof {
                lemma_filter_push(prefix, self.fw_rules@[i as int], pred);
                assert(self.fw_rules@.subrange(0, i as int + 1) =~= prefix.push(
                    self.fw_rules@[i as int],
                ));
            }
            i = i + 1;
        }
        proof {
            assert(self.fw_rules@.subrange(0, self.fw_rules@.len() as int) =~= self.fw_rules@);
        }
        Ok(out)
    }

    /// Every firewall rule, in `(group_id, position, id)` order.
    pub fn all_firewall_rules(&self) -> (r: Result<Vec<FirewallRuleRow>, String>)
        ensures
            r is Ok,
            r matches Ok(v) ==> v@ == self.spec_fw_rules(),
    {
        let mut out: Vec<FirewallRuleRow> = Vec::new();
        let mut i: usize = 0;
        while i < self.fw_rules.len()
            invariant
                0 <= i <= self.fw_rules@.len(),
                out@ =~= self.fw_rules@.subrange(0, i as int),
            decreases self.fw_rules@.len() - i,
        {
            out.push(self.fw_rules[i].clone());
            proof {
                assert(out@ =~= self.fw_rules@.subrange(0, i as int + 1));
            }
            i = i + 1;
        }
        proof {
            assert(out@ =~= self.fw_rules@);
        }
        Ok(out)
    }

    /// The firewall rules the bridge believes are live.
    pub fn applied_firewall_rules(&self) -> (r: Result<Vec<FirewallRuleRow>, String>)
        ensures
            r is Ok,
            r matches Ok(v) ==> v@ == applied_fw_of(*self),
    {
        let ghost pred = |row: FirewallRuleRow| row.applied;
        let mut out: Vec<FirewallRuleRow> = Vec::new();
        let mut i: usize = 0;
        proof {
            assert(self.fw_rules@.subrange(0, 0).filter(pred) =~= Seq::<
                FirewallRuleRow,
            >::empty()) by {
                reveal(Seq::filter);
            }
        }
        while i < self.fw_rules.len()
            invariant
                0 <= i <= self.fw_rules@.len(),
                out@ == self.fw_rules@.subrange(0, i as int).filter(pred),
                pred == (|row: FirewallRuleRow| row.applied),
            decreases self.fw_rules@.len() - i,
        {
            let ghost prefix = self.fw_rules@.subrange(0, i as int);
            if self.fw_rules[i].applied {
                out.push(self.fw_rules[i].clone());
            }
            proof {
                lemma_filter_push(prefix, self.fw_rules@[i as int], pred);
                assert(self.fw_rules@.subrange(0, i as int + 1) =~= prefix.push(
                    self.fw_rules@[i as int],
                ));
            }
            i = i + 1;
        }
        proof {
            assert(self.fw_rules@.subrange(0, self.fw_rules@.len() as int) =~= self.fw_rules@);
        }
        Ok(out)
    }

    /// Reset the applied flag and handle of every firewall rule: the bulk
    /// recovery step `init` and `stop` rely on.
    pub fn clear_fw_applied_state(&mut self) -> (r: Result<(), String>)
        requires
            old(self).wf(),
        ensures
            final(self).wf(),
            r is Ok,
            final(self).spec_fw_rules().len() == old(self).spec_fw_rules().len(),
            forall|i: int|
                0 <= i < old(self).spec_fw_rules().len() ==> final(self).spec_fw_rules()[i]
                    == fw_with_applied(#[trigger] old(self).spec_fw_rules()[i], false, 0),
            final(self).spec_config() == old(self).spec_config(),
            final(self).spec_groups() == old(self).spec_groups(),
            final(self).spec_rt_rules() == old(self).spec_rt_rules(),
            final(self).spec_clock() == old(self).spec_clock(),
            final(self).next_group_id == old(self).next_group_id,
            final(self).next_fw_id == old(self).next_fw_id,
            final(self).next_rt_id == old(self).next_rt_id,
    {
        let n = self.fw_rules.len();
        let mut out: Vec<FirewallRuleRow> = Vec::new();
        let mut i: usize = 0;
        while i < n
            invariant
                0 <= i <= n,
                n == self.fw_rules@.len(),
                out@.len() == i,
                forall|k: int|
                    0 <= k < i ==> out@[k] == fw_with_applied(
                        #[trigger] self.fw_rules@[k],
                        false,
                        0,
                    ),
            decreases n - i,
        {
            let mut c = self.fw_rules[i].clone();
            c.applied = false;
            c.nft_handle = 0;
            out.push(c);
            i = i + 1;
        }
        self.fw_rules = out;
        proof {
            assert forall|i: int|
                0 <= i < self.fw_rules@.len() implies (#[trigger] self.fw_rules@[i]).id == old(
                self,
            ).spec_fw_rules()[i].id && self.fw_rules@[i].group_id == old(
                self,
            ).spec_fw_rules()[i].group_id && self.fw_rules@[i].position == old(
                self,
            ).spec_fw_rules()[i].position by {}
            assert forall|i: int, j: int|
                0 <= i < j < self.fw_rules@.len() implies fw_le(
                #[trigger] self.fw_rules@[i],
                #[trigger] self.fw_rules@[j],
            ) && self.fw_rules@[i].id != self.fw_rules@[j].id by {
                assert(fw_le(old(self).spec_fw_rules()[i], old(self).spec_fw_rules()[j]));
                assert(old(self).spec_fw_rules()[i].id != old(self).spec_fw_rules()[j].id);
            }
            assert forall|i: int| 0 <= i < self.fw_rules@.len() implies self.group_id_exists(
                (#[trigger] self.fw_rules@[i]).group_id,
            ) by {
                assert(old(self).group_id_exists(old(self).spec_fw_rules()[i].group_id));
                Self::lemma_gid_exists_same_groups(
                    *old(self),
                    *self,
                    old(self).spec_fw_rules()[i].group_id,
                );
            }
            assert forall|i: int| 0 <= i < self.rt_rules@.len() implies self.group_id_exists(
                (#[trigger] self.rt_rules@[i]).group_id,
            ) by {
                Self::lemma_gid_exists_same_groups(*old(self), *self, self.rt_rules@[i].group_id);
            }
        }
        Ok(())
    }

    /// Reset the applied flag and handle of one group's firewall rules:
    /// what disabling a group records in the store.
    pub fn clear_group_fw_applied(&mut self, group_id: i64) -> (r: Result<(), String>)
        requires
            old(self).wf(),
        ensures
            final(self).wf(),
            r is Ok,
            final(self).spec_fw_rules().len() == old(self).spec_fw_rules().len(),
            forall|i: int|
                0 <= i < old(self).spec_fw_rules().len() ==> final(self).spec_fw_rules()[i] == (
                if (#[trigger] old(self).spec_fw_rules()[i]).group_id == group_id {
                    fw_with_applied(old(self).spec_fw_rules()[i], false, 0)
                } else {
                    old(self).spec_fw_rules()[i]
                }),
            final(self).spec_config() == old(self).spec_config(),
            final(self).spec_groups() == old(self).spec_groups(),
            final(self).spec_rt_rules() == old(self).spec_rt_rules(),
            final(self).spec_clock() == old(self).spec_clock(),
            final(self).next_group_id == old(self).next_group_id,
            final(self).next_fw_id == old(self).next_fw_id,
            final(self).next_rt_id == old(self).next_rt_id,
    {
        let n = self.fw_rules.len();
        let mut out: Vec<FirewallRuleRow> = Vec::new();
        let mut i: usize = 0;
        while i < n
            invariant
                0 <= i <= n,
                n == self.fw_rules@.len(),
                out@.len() == i,
                forall|k: int|
                    0 <= k < i ==> out@[k] == (if (#[trigger] self.fw_rules@[k]).group_id
                        == group_id {
                        fw_with_applied(self.fw_rules@[k], false, 0)
                    } else {
                        self.fw_rules@[k]
                    }),
            decreases n - i,
        {
            let mut c = self.fw_rules[i].clone();
            if c.group_id == group_id {
                c.applied = false;
                c.nft_handle = 0;
            }
            out.push(c);
            i = i + 1;
        }
        self.fw_rules = out;
        proof {
            assert forall|i: int|
                0 <= i < self.fw_rules@.len() implies (#[trigger] self.fw_rules@[i]).id == old(
                self,
            ).spec_fw_rules()[i].id && self.fw_rules@[i].group_id == old(
                self,
            ).spec_fw_rules()[i].group_id && self.fw_rules@[i].position == old(
                self,
            ).spec_fw_rules()[i].position by {}
            assert forall|i: int, j: int|
                0 <= i < j < self.fw_rules@.len() implies fw_le(
                #[trigger] self.fw_rules@[i],
                #[trigger] self.fw_rules@[j],
            ) && self.fw_rules@[i].id != self.fw_rules@[j].id by {
                assert(fw_le(old(self).spec_fw_rules()[i], old(self).spec_fw_rules()[j]));
                assert(old(self).spec_fw_rules()[i].id != old(self).spec_fw_rules()[j].id);
            }
            assert forall|i: int| 0 <= i < self.fw_rules@.len() implies self.group_id_exists(
                (#[trigger] self.fw_rules@[i]).group_id,
            ) by {
                assert(old(self).group_id_exists(old(self).spec_fw_rules()[i].group_id));
                Self::lemma_gid_exists_same_groups(
                    *old(self),
                    *self,
                    old(self).spec_fw_rules()[i].group_id,
                );
            }
            assert forall|i: int| 0 <= i < self.rt_rules@.len() implies self.group_id_exists(
                (#[trigger] self.rt_rules@[i]).group_id,
            ) by {
                Self::lemma_gid_exists_same_groups(*old(self), *self, self.rt_rules@[i].group_id);
            }
        }
        Ok(())
    }

    /// Reset the applied flag of one group's routing rules.
    pub fn clear_group_rt_applied(&mut self, group_id: i64) -> (r: Result<(), String>)
        requires
            old(self).wf(),
        ensures
            final(self).wf(),
            r is Ok,
            final(self).spec_rt_rules().len() == old(self).spec_rt_rules().len(),
            forall|i: int|
                0 <= i < old(self).spec_rt_rules().len() ==> final(self).spec_rt_rules()[i] == (
                if (#[trigger] old(self).spec_rt_rules()[i]).group_id == group_id {
                    rt_with_applied(old(self).spec_rt_rules()[i], false)
                } else {
                    old(self).spec_rt_rules()[i]
                }),
            final(self).spec_config() == old(self).spec_config(),
            final(self).spec_groups() == old(self).spec_groups(),
            final(self).spec_fw_rules() == old(self).spec_fw_rules(),
            final(self).spec_clock() == old(self).spec_clock(),
            final(self).next_group_id == old(self).next_group_id,
            final(self).next_fw_id == old(self).next_fw_id,
            final(self).next_rt_id == old(self).next_rt_id,
    {
        let n = self.rt_rules.len();
        let mut out: Vec<RoutingRuleRow> = Vec::new();
        let mut i: usize = 0;
        while i < n
            invariant
                0 <= i <= n,
                n == self.rt_rules@.len(),
                out@.len() == i,
                forall|k: int|
                    0 <= k < i ==> out@[k] == (if (#[trigger] self.rt_rules@[k]).group_id
                        == group_id {
                        rt_with_applied(self.rt_rules@[k], false)
                    } else {
                        self.rt_rules@[k]
                    }),
            decreases n - i,
        {
            let mut c = self.rt_rules[i].clone();
            if c.group_id == group_id {
                c.applied = false;
            }
            out.push(c);
            i = i + 1;
        }
        self.rt_rules = out;
        proof {
            assert forall|i: int|
                0 <= i < self.rt_rules@.len() implies (#[trigger] self.rt_rules@[i]).id == old(
                self,
            ).spec_rt_rules()[i].id && self.rt_rules@[i].group_id == old(
                self,
            ).spec_rt_rules()[i].group_id by {}
            assert forall|i: int, j: int|
                0 <= i < j < self.rt_rules@.len() implies rt_le(
                #[trigger] self.rt_rules@[i],
                #[trigger] self.rt_rules@[j],
            ) && self.rt_rules@[i].id != self.rt_rules@[j].id by {
                assert(rt_le(old(self).spec_rt_rules()[i], old(self).spec_rt_rules()[j]));
                assert(old(self).spec_rt_rules()[i].id != old(self).spec_rt_rules()[j].id);
            }
            assert forall|i: int| 0 <= i < self.rt_rules@.len() implies self.group_id_exists(
                (#[trigger] self.rt_rules@[i]).group_id,
            ) by {
                assert(old(self).group_id_exists(old(self).spec_rt_rules()[i].group_id));
                Self::lemma_gid_exists_same_groups(
                    *old(self),
                    *self,
                    old(self).spec_rt_rules()[i].group_id,
                );
            }
            assert forall|i: int| 0 <= i < self.fw_rules@.len() implies self.group_id_exists(
                (#[trigger] self.fw_rules@[i]).group_id,
            ) by {
                Self::lemma_gid_exists_same_groups(*old(self), *self, self.fw_rules@[i].group_id);
            }
        }
        Ok(())
    }

    // ---- Routing rules ----

    /// There is headroom to assign another routing-rule id.
    pub open spec fn can_assign_rt_id(self) -> bool {
        self.next_rt_id < i64::MAX
    }

    /// Insert a routing rule under a group. Fails exactly when the group id
    /// does not exist or the id space is exhausted. The new row is not
    /// applied and is stored in `(group_id, id)` order.
    /// Insert an already-built routing-rule row under its `group_id`. The
    /// store replaces the row's id, applied flag and creation stamp with its
    /// own values and files it in `(group_id, id)` order. Fails exactly when
    /// the group id does not exist or the id space is exhausted.
    pub fn insert_rt_row(&mut self, row: RoutingRuleRow) -> (r: Result<i64, String>)
        requires
            old(self).wf(),
        ensures
            final(self).wf(),
            r is Err <==> (!old(self).group_id_exists(row.group_id) || !old(
                self,
            ).can_assign_rt_id()),
            r is Err ==> *final(self) == *old(self),
            r is Ok ==> ({
                let stamped = rt_stamped(row, old(self).next_rt_id, old(self).spec_clock());
                &&& 0 <= rt_insert_index(old(self).spec_rt_rules(), stamped) <= old(
                    self,
                ).spec_rt_rules().len()
                &&& final(self).spec_rt_rules() == old(self).spec_rt_rules().insert(
                    rt_insert_index(old(self).spec_rt_rules(), stamped),
                    stamped,
                )
            }),
            r matches Ok(id) ==> forall|i: int|
                0 <= i < old(self).spec_rt_rules().len() ==> (#[trigger] old(
                    self,
                ).spec_rt_rules()[i]).id != id,
            final(self).spec_config() == old(self).spec_config(),
            final(self).spec_groups() == old(self).spec_groups(),
            final(self).spec_fw_rules() == old(self).spec_fw_rules(),
            final(self).spec_clock() == old(self).spec_clock(),
            final(self).next_group_id == old(self).next_group_id,
            final(self).next_fw_id == old(self).next_fw_id,
            r matches Ok(id) ==> id == old(self).next_rt_id && final(self).next_rt_id == old(
                self,
            ).next_rt_id + 1,
    {
        if self.find_group_by_id(row.group_id).is_none() {
            return Err(String::from_str("insert_rt_row: FOREIGN KEY constraint failed"));
        }
        if self.next_rt_id == i64::MAX {
            return Err(String::from_str("insert_rt_row: id space exhausted"));
        }
        let group_id = row.group_id;
        let ghost arg = row;
        let mut row = row;
        row.id = self.next_rt_id;
        row.applied = false;
        row.created_at = self.clock;
        let id = row.id;
        let ghost grow = row;
        let mut pos: usize = 0;
        while pos < self.rt_rules.len()
            invariant
                0 <= pos <= self.rt_rules@.len(),
                forall|k: int| 0 <= k < pos ==> rt_le(#[trigger] self.rt_rules@[k], grow),
                row == grow,
            ensures
                0 <= pos <= self.rt_rules@.len(),
                forall|k: int| 0 <= k < pos ==> rt_le(#[trigger] self.rt_rules@[k], grow),
                pos < self.rt_rules@.len() ==> !rt_le(self.rt_rules@[pos as int], grow),
                row == grow,
            decreases self.rt_rules@.len() - pos,
        {
            let keep = {
                let e = &self.rt_rules[pos];
                e.group_id < row.group_id || (e.group_id == row.group_id && e.id <= row.id)
            };
            if !keep {
                break;
            }
            pos = pos + 1;
        }
        let ghost pre = self.rt_rules@;
        self.next_rt_id = self.next_rt_id + 1;
        self.rt_rules.insert(pos, row);
        proof {
            assert(self.rt_rules@ =~= pre.insert(pos as int, grow));
            assert forall|i: int, j: int|
                0 <= i < j < self.rt_rules@.len() implies rt_le(
                #[trigger] self.rt_rules@[i],
                #[trigger] self.rt_rules@[j],
            ) && self.rt_rules@[i].id != self.rt_rules@[j].id by {
                if i < pos && j == pos {
                } else if i == pos && j > pos {
                    assert(!rt_le(pre[pos as int], grow));
                    assert(rt_le(pre[pos as int], pre[j - 1]) || j == pos + 1);
                } else if i < pos && j > pos {
                    assert(rt_le(pre[i], pre[j - 1]));
                    assert(pre[i].id != pre[j - 1].id);
                }
            }
            assert forall|i: int| 0 <= i < self.rt_rules@.len() implies self.group_id_exists(
                (#[trigger] self.rt_rules@[i]).group_id,
            ) by {
                if i != pos {
                    let q: int = if i < pos { i } else { i - 1 };
                    assert(old(self).group_id_exists(pre[q].group_id));
                    Self::lemma_gid_exists_same_groups(*old(self), *self, pre[q].group_id);
                } else {
                    Self::lemma_gid_exists_same_groups(*old(self), *self, group_id);
                }
            }
            assert forall|i: int| 0 <= i < self.fw_rules@.len() implies self.group_id_exists(
                (#[trigger] self.fw_rules@[i]).group_id,
            ) by {
                Self::lemma_gid_exists_same_groups(*old(self), *self, self.fw_rules@[i].group_id);
            }
            assert(pre == old(self).spec_rt_rules());
            assert(grow == rt_stamped(arg, id, old(self).spec_clock()));
            lemma_rt_insert_index_is(pre, grow, pos as int);
            assert(rt_insert_index(old(self).spec_rt_rules(), grow) == pos as int);
            assert(self.rt_rules@ == old(self).spec_rt_rules().insert(
                rt_insert_index(old(self).spec_rt_rules(), grow),
                grow,
            ));
        }
        Ok(id)
    }

    /// Insert a routing rule from its field values. See `insert_rt_row`.
    pub fn insert_routing_rule(
        &mut self,
        group_id: i64,
        rule_type: &str,
        from_network: &str,
        to_network: &str,
        table_name: &str,
        table_id: i32,
        priority: i32,
        destination: &str,
        device: &str,
        fwmark: i32,
    ) -> (r: Result<i64, String>)
        requires
            old(self).wf(),
        ensures
            final(self).wf(),
            r is Err <==> (!old(self).group_id_exists(group_id) || !old(
                self,
            ).can_assign_rt_id()),
            r is Err ==> *final(self) == *old(self),
            r matches Ok(id) ==> rt_inserted(
                *old(self),
                *final(self),
                id,
                group_id,
                rule_type@,
                from_network@,
                to_network@,
                table_name@,
                table_id,
                priority,
                destination@,
                device@,
                fwmark,
            ),
            r matches Ok(id) ==> forall|i: int|
                0 <= i < old(self).spec_rt_rules().len() ==> (#[trigger] old(
                    self,
                ).spec_rt_rules()[i]).id != id,
            final(self).spec_config() == old(self).spec_config(),
            final(self).spec_groups() == old(self).spec_groups(),
            final(self).spec_fw_rules() == old(self).spec_fw_rules(),
            final(self).spec_clock() == old(self).spec_clock(),
            final(self).next_group_id == old(self).next_group_id,
            final(self).next_fw_id == old(self).next_fw_id,
            r matches Ok(id) ==> id == old(self).next_rt_id && final(self).next_rt_id == old(
                self,
            ).next_rt_id + 1,
    {
        let row = RoutingRuleRow {
            id: 0,
            group_id,
            rule_type: String::from_str(rule_type),
            from_network: String::from_str(from_network),
            to_network: String::from_str(to_network),
            table_name: String::from_str(table_name),
            table_id,
            priority,
            destination: String::from_str(destination),
            device: String::from_str(device),
            fwmark,
            applied: false,
            created_at: 0,
        };
        let ghost built = row;
        let r = self.insert_rt_row(row);
        proof {
            if r is Ok {
                let id = r->Ok_0;
                let stamped = rt_stamped(built, old(self).next_rt_id, old(self).spec_clock());
                assert(rt_row_fields(
                    stamped,
                    id,
                    group_id,
                    rule_type@,
                    from_network@,
                    to_network@,
                    table_name@,
                    table_id,
                    priority,
                    destination@,
                    device@,
                    fwmark,
                    old(self).spec_clock(),
                ));
                assert(rt_inserted(
                    *old(self),
                    *self,
                    id,
                    group_id,
                    rule_type@,
                    from_network@,
                    to_network@,
                    table_name@,
                    table_id,
                    priority,
                    destination@,
                    device@,
                    fwmark,
                ));
            }
        }
        r
    }

    /// Set the applied flag of the routing rule with this id; rows with
    /// other ids are untouched.
    pub fn update_rt_rule_applied(&mut self, rule_id: i64, applied: bool) -> (r: Result<
        (),
        String,
    >)
        requires
            old(self).wf(),
        ensures
            final(self).wf(),
            r is Ok,
            final(self).spec_rt_rules().len() == old(self).spec_rt_rules().len(),
            forall|i: int|
                0 <= i < old(self).spec_rt_rules().len() ==> final(self).spec_rt_rules()[i] == (
                if (#[trigger] old(self).spec_rt_rules()[i]).id == rule_id {
                    rt_with_applied(old(self).spec_rt_rules()[i], applied)
                } else {
                    old(self).spec_rt_rules()[i]
                }),
            final(self).spec_config() == old(self).spec_config(),
            final(self).spec_groups() == old(self).spec_groups(),
            final(self).spec_fw_rules() == old(self).spec_fw_rules(),
            final(self).spec_clock() == old(self).spec_clock(),
            final(self).next_group_id == old(self).next_group_id,
            final(self).next_fw_id == old(self).next_fw_id,
            final(self).next_rt_id == old(self).next_rt_id,
    {
        let n = self.rt_rules.len();
        let mut out: Vec<RoutingRuleRow> = Vec::new();
        let mut i: usize = 0;
        while i < n
            invariant
                0 <= i <= n,
                n == self.rt_rules@.len(),
                out@.len() == i,
                forall|k: int|
                    0 <= k < i ==> out@[k] == (if (#[trigger] self.rt_rules@[k]).id == rule_id {
                        rt_with_applied(self.rt_rules@[k], applied)
                    } else {
                        self.rt_rules@[k]
                    }),
            decreases n - i,
        {
            let mut c = self.rt_rules[i].clone();
            if c.id == rule_id {
                c.applied = applied;
            }
            out.push(c);
            i = i + 1;
        }
        self.rt_rules = out;
        proof {
            assert forall|i: int|
                0 <= i < self.rt_rules@.len() implies (#[trigger] self.rt_rules@[i]).id == old(
                self,
            ).spec_rt_rules()[i].id && self.rt_rules@[i].group_id == old(
                self,
            ).spec_rt_rules()[i].group_id by {}
            assert forall|i: int, j: int|
                0 <= i < j < self.rt_rules@.len() implies rt_le(
                #[trigger] self.rt_rules@[i],
                #[trigger] self.rt_rules@[j],
            ) && self.rt_rules@[i].id != self.rt_rules@[j].id by {
                assert(rt_le(old(self).spec_rt_rules()[i], old(self).spec_rt_rules()[j]));
                assert(old(self).spec_rt_rules()[i].id != old(self).spec_rt_rules()[j].id);
            }
            assert forall|i: int| 0 <= i < self.rt_rules@.len() implies self.group_id_exists(
                (#[trigger] self.rt_rules@[i]).group_id,
            ) by {
                assert(old(self).group_id_exists(old(self).spec_rt_rules()[i].group_id));
                Self::lemma_gid_exists_same_groups(
                    *old(self),
                    *self,
                    old(self).spec_rt_rules()[i].group_id,
                );
            }
            assert forall|i: int| 0 <= i < self.fw_rules@.len() implies self.group_id_exists(
                (#[trigger] self.fw_rules@[i]).group_id,
            ) by {
                Self::lemma_gid_exists_same_groups(*old(self), *self, self.fw_rules@[i].group_id);
            }
        }
        Ok(())
    }

    /// Delete the routing rule with this id, if any.
    pub fn delete_routing_rule(&mut self, rule_id: i64) -> (r: Result<(), String>)
        requires
            old(self).wf(),
        ensures
            final(self).wf(),
            r is Ok,
            final(self).spec_rt_rules() == old(self).spec_rt_rules().filter(
                |row: RoutingRuleRow| row.id != rule_id,
            ),
            final(self).spec_config() == old(self).spec_config(),
            final(self).spec_groups() == old(self).spec_groups(),
            final(self).spec_fw_rules() == old(self).spec_fw_rules(),
            final(self).spec_clock() == old(self).spec_clock(),
            final(self).next_group_id == old(self).next_group_id,
            final(self).next_fw_id == old(self).next_fw_id,
            final(self).next_rt_id == old(self).next_rt_id,
    {
        let ghost pred = |row: RoutingRuleRow| row.id != rule_id;
        let mut out: Vec<RoutingRuleRow> = Vec::new();
        let mut i: usize = 0;
        proof {
            assert(self.rt_rules@.subrange(0, 0).filter(pred) =~= Seq::<
                RoutingRuleRow,
            >::empty()) by {
                reveal(Seq::filter);
            }
        }
        while i < self.rt_rules.len()
            invariant
                0 <= i <= self.rt_rules@.len(),
                out@ == self.rt_rules@.subrange(0, i as int).filter(pred),
                pred == (|row: RoutingRuleRow| row.id != rule_id),
            decreases self.rt_rules@.len() - i,
        {
            let ghost prefix = self.rt_rules@.subrange(0, i as int);
            if self.rt_rules[i].id != rule_id {
                out.push(self.rt_rules[i].clone());
            }
            proof {
                lemma_filter_push(prefix, self.rt_rules@[i as int], pred);
                assert(self.rt_rules@.subrange(0, i as int + 1) =~= prefix.push(
                    self.rt_rules@[i as int],
                ));
            }
            i = i + 1;
        }
        proof {
            assert(self.rt_rules@.subrange(0, self.rt_rules@.len() as int) =~= self.rt_rules@);
        }
        self.rt_rules = out;
        proof {
            Self::lemma_rt_filter_wf(old(self).spec_rt_rules(), pred);
            assert forall|i: int| 0 <= i < self.rt_rules@.len() implies self.group_id_exists(
                (#[trigger] self.rt_rules@[i]).group_id,
            ) by {
                assert(old(self).spec_rt_rules().contains(self.rt_rules@[i]));
                let k = choose|k: int|
                    0 <= k < old(self).spec_rt_rules().len() && old(self).spec_rt_rules()[k]
                        == self.rt_rules@[i];
                assert(old(self).group_id_exists(self.rt_rules@[i].group_id));
                Self::lemma_gid_exists_same_groups(
                    *old(self),
                    *self,
                    self.rt_rules@[i].group_id,
                );
            }
            assert forall|i: int| 0 <= i < self.fw_rules@.len() implies self.group_id_exists(
                (#[trigger] self.fw_rules@[i]).group_id,
            ) by {
                Self::lemma_gid_exists_same_groups(*old(self), *self, self.fw_rules@[i].group_id);
            }
        }
        Ok(())
    }

    /// The routing rules of one group, in id (insertion) order.
    pub fn routing_rules_for_group(&self, group_id: i64) -> (r: Result<Vec<RoutingRuleRow>, String>)
        ensures
            r is Ok,
            r matches Ok(v) ==> v@ == rt_of_group(*self, group_id),
    {
        let ghost pred = |row: RoutingRuleRow| row.group_id == group_id;
        let mut out: Vec<RoutingRuleRow> = Vec::new();
        let mut i: usize = 0;
        proof {
            assert(self.rt_rules@.subrange(0, 0).filter(pred) =~= Seq::<
                RoutingRuleRow,
            >::empty()) by {
                reveal(Seq::filter);
            }
        }
        while i < self.rt_rules.len()
            invariant
                0 <= i <= self.rt_rules@.len(),
                out@ == self.rt_rules@.subrange(0, i as int).filter(pred),
                pred == (|row: RoutingRuleRow| row.group_id == group_id),
            decreases self.rt_rules@.len() - i,
        {
            let ghost prefix = self.rt_rules@.subrange(0, i as int);
            if self.rt_rules[i].group_id == group_id {
                out.push(self.rt_rules[i].clone());
            }
            proof {
                lemma_filter_push(prefix, self.rt_rules@[i as int], pred);
                assert(self.rt_rules@.subrange(0, i as int + 1) =~= prefix.push(
                    self.rt_rules@[i as int],
                ));
            }
            i = i + 1;
        }
        proof {
            assert(self.rt_rules@.subrange(0, self.rt_rules@.len() as int) =~= self.rt_rules@);
        }
        Ok(out)
    }

    /// The routing rules the bridge believes are live.
    pub fn applied_routing_rules(&self) -> (r: Result<Vec<RoutingRuleRow>, String>)
        ensures
            r is Ok,
            r matches Ok(v) ==> v@ == applied_rt_of(*self),
    {
        let ghost pred = |row: RoutingRuleRow| row.applied;
        let mut out: Vec<RoutingRuleRow> = Vec::new();
        let mut i: usize = 0;
        proof {
            assert(self.rt_rules@.subrange(0, 0).filter(pred) =~= Seq::<
                RoutingRuleRow,
            >::empty()) by {
                reveal(Seq::filter);
            }
        }
        while i < self.rt_rules.len()
            invariant
                0 <= i <= self.rt_rules@.len(),
                out@ == self.rt_rules@.subrange(0, i as int).filter(pred),
                pred == (|row: RoutingRuleRow| row.applied),
            decreases self.rt_rules@.len() - i,
        {
            let ghost prefix = self.rt_rules@.subrange(0, i as int);
            if self.rt_rules[i].applied {
                out.push(self.rt_rules[i].clone());
            }
            proof {
                lemma_filter_push(prefix, self.rt_rules@[i as int], pred);
                assert(self.rt_rules@.subrange(0, i as int + 1) =~= prefix.push(
                    self.rt_rules@[i as int],
                ));
            }
            i = i + 1;
        }
        proof {
            assert(self.rt_rules@.subrange(0, self.rt_rules@.len() as int) =~= self.rt_rules@);
        }
        Ok(out)
    }

    /// Reset the applied flag of every routing rule.
    pub fn clear_rt_applied_state(&mut self) -> (r: Result<(), String>)
        requires
            old(self).wf(),
        ensures
            final(self).wf(),
            r is Ok,
            final(self).spec_rt_rules().len() == old(self).spec_rt_rules().len(),
            forall|i: int|
                0 <= i < old(self).spec_rt_rules().len() ==> final(self).spec_rt_rules()[i]
                    == rt_with_applied(#[trigger] old(self).spec_rt_rules()[i], false),
            final(self).spec_config() == old(self).spec_config(),
            final(self).spec_groups() == old(self).spec_groups(),
            final(self).spec_fw_rules() == old(self).spec_fw_rules(),
            final(self).spec_clock() == old(self).spec_clock(),
            final(self).next_group_id == old(self).next_group_id,
            final(self).next_fw_id == old(self).next_fw_id,
            final(self).next_rt_id == old(self).next_rt_id,
    {
        let n = self.rt_rules.len();
        let mut out: Vec<RoutingRuleRow> = Vec::new();
        let mut i: usize = 0;
        while i < n
            invariant
                0 <= i <= n,
                n == self.rt_rules@.len(),
                out@.len() == i,
                forall|k: int|
                    0 <= k < i ==> out@[k] == rt_with_applied(
                        #[trigger] self.rt_rules@[k],
                        false,
                    ),
            decreases n - i,
        {
            let mut c = self.rt_rules[i].clone();
            c.applied = false;
            out.push(c);
            i = i + 1;
        }
        self.rt_rules = out;
        proof {
            assert forall|i: int|
                0 <= i < self.rt_rules@.len() implies (#[trigger] self.rt_rules@[i]).id == old(
                self,
            ).spec_rt_rules()[i].id && self.rt_rules@[i].group_id == old(
                self,
            ).spec_rt_rules()[i].group_id by {}
            assert forall|i: int, j: int|
                0 <= i < j < self.rt_rules@.len() implies rt_le(
                #[trigger] self.rt_rules@[i],
                #[trigger] self.rt_rules@[j],
            ) && self.rt_rules@[i].id != self.rt_rules@[j].id by {
                assert(rt_le(old(self).spec_rt_rules()[i], old(self).spec_rt_rules()[j]));
                assert(old(self).spec_rt_rules()[i].id != old(self).spec_rt_rules()[j].id);
            }
            assert forall|i: int| 0 <= i < self.rt_rules@.len() implies self.group_id_exists(
                (#[trigger] self.rt_rules@[i]).group_id,
            ) by {
                assert(old(self).group_id_exists(old(self).spec_rt_rules()[i].group_id));
                Self::lemma_gid_exists_same_groups(
                    *old(self),
                    *self,
                    old(self).spec_rt_rules()[i].group_id,
                );
            }
            assert forall|i: int| 0 <= i < self.fw_rules@.len() implies self.group_id_exists(
                (#[trigger] self.fw_rules@[i]).group_id,
            ) by {
                Self::lemma_gid_exists_same_groups(*old(self), *self, self.fw_rules@[i].group_id);
            }
        }
        Ok(())
    }

    proof fn lemma_gid_exists_same_groups(a: FirewallDB, b: FirewallDB, gid: i64)
        requires
            b.groups@ == a.groups@,
            a.group_id_exists(gid),
        ensures
            b.group_id_exists(gid),
    {
        let k = choose|k: int| 0 <= k < a.groups@.len() && a.groups@[k].id == gid;
        assert(b.groups@[k].id == gid);
    }
}

/// Where a new group lands in `(priority, name)` order: the first index
/// whose row is not at-or-before it.
pub open spec fn group_insert_index(s: Seq<RuleGroupRow>, g: RuleGroupRow) -> int
    decreases s.len(),
{
    if s.len() == 0 {
        0
    } else if group_le(s[0], g) {
        1 + group_insert_index(s.drop_first(), g)
    } else {
        0
    }
}

/// The insertion index is the first position whose row is not at-or-before
/// the new one.
pub proof fn lemma_group_insert_index_is(s: Seq<RuleGroupRow>, g: RuleGroupRow, p: int)
    requires
        0 <= p <= s.len(),
        forall|k: int| 0 <= k < p ==> group_le(#[trigger] s[k], g),
        p < s.len() ==> !group_le(s[p], g),
    ensures
        group_insert_index(s, g) == p,
    decreases s.len(),
{
    if s.len() > 0 {
        if p == 0 {
        } else {
            assert(group_le(s[0], g));
            let t = s.drop_first();
            assert(forall|k: int| 0 <= k < p - 1 ==> #[trigger] t[k] == s[k + 1]);
            lemma_group_insert_index_is(t, g, p - 1);
        }
    }
}


/// The field values `insert_firewall_rule` gives a new row.
pub open spec fn fw_row_fields(
    row: FirewallRuleRow,
    id: i64,
    group_id: i64,
    chain: Seq<char>,
    rule_type: Seq<char>,
    family: i32,
    proto: Seq<char>,
    dport: i32,
    sport: i32,
    source: Seq<char>,
    destination: Seq<char>,
    in_iface: Seq<char>,
    out_iface: Seq<char>,
    state_match: Seq<char>,
    comment: Seq<char>,
    position: i32,
    created_at: i64,
) -> bool {
    &&& row.id == id
    &&& row.group_id == group_id
    &&& row.chain@ == chain
    &&& row.rule_type@ == rule_type
    &&& row.family == family
    &&& row.proto@ == proto
    &&& row.dport == dport
    &&& row.sport == sport
    &&& row.source@ == source
    &&& row.destination@ == destination
    &&& row.in_iface@ == in_iface
    &&& row.out_iface@ == out_iface
    &&& row.state_match@ == state_match
    &&& row.comment@ == comment
    &&& row.position == position
    &&& row.applied == false
    &&& row.nft_handle == 0
    &&& row.created_at == created_at
}

/// One firewall rule was added between two store states: a fresh row with
/// these fields, placed at its `(group_id, position, id)` position.
pub open spec fn fw_inserted(
    pre: FirewallDB,
    post: FirewallDB,
    id: i64,
    group_id: i64,
    chain: Seq<char>,
    rule_type: Seq<char>,
    family: i32,
    proto: Seq<char>,
    dport: i32,
    sport: i32,
    source: Seq<char>,
    destination: Seq<char>,
    in_iface: Seq<char>,
    out_iface: Seq<char>,
    state_match: Seq<char>,
    comment: Seq<char>,
    position: i32,
) -> bool {
    exists|row: FirewallRuleRow|
        {
            &&& #[trigger] fw_row_fields(
                row,
                id,
                group_id,
                chain,
                rule_type,
                family,
                proto,
                dport,
                sport,
                source,
                destination,
                in_iface,
                out_iface,
                state_match,
                comment,
                position,
                pre.spec_clock(),
            )
            &&& 0 <= fw_insert_index(pre.spec_fw_rules(), row) <= pre.spec_fw_rules().len()
            &&& post.spec_fw_rules() == pre.spec_fw_rules().insert(
                fw_insert_index(pre.spec_fw_rules(), row),
                row,
            )
        }
}

/// A firewall-rule row as the store stamps it on insertion: fresh id, not
/// applied, no handle, created now.
pub open spec fn fw_stamped(row: FirewallRuleRow, id: i64, created_at: i64) -> FirewallRuleRow {
    FirewallRuleRow { id, applied: false, nft_handle: 0, created_at, ..row }
}

/// A routing-rule row as the store stamps it on insertion.
pub open spec fn rt_stamped(row: RoutingRuleRow, id: i64, created_at: i64) -> RoutingRuleRow {
    RoutingRuleRow { id, applied: false, created_at, ..row }
}

/// A sequence extended at its end: insertion at the length is a push.
pub proof fn lemma_insert_len_is_push<A>(s: Seq<A>, x: A)
    ensures
        s.insert(s.len() as int, x) == s.push(x),
{
    assert(s.insert(s.len() as int, x) =~= s.push(x));
}

/// A firewall-rule row with its applied flag and handle replaced.
pub open spec fn fw_with_applied(r: FirewallRuleRow, applied: bool, nft_handle: i64) -> FirewallRuleRow {
    FirewallRuleRow { applied, nft_handle, ..r }
}

/// A routing-rule row with its applied flag replaced.
pub open spec fn rt_with_applied(r: RoutingRuleRow, applied: bool) -> RoutingRuleRow {
    RoutingRuleRow { applied, ..r }
}

/// The field values `insert_routing_rule` gives a new row.
pub open spec fn rt_row_fields(
    row: RoutingRuleRow,
    id: i64,
    group_id: i64,
    rule_type: Seq<char>,
    from_network: Seq<char>,
    to_network: Seq<char>,
    table_name: Seq<char>,
    table_id: i32,
    priority: i32,
    destination: Seq<char>,
    device: Seq<char>,
    fwmark: i32,
    created_at: i64,
) -> bool {
    &&& row.id == id
    &&& row.group_id == group_id
    &&& row.rule_type@ == rule_type
    &&& row.from_network@ == from_network
    &&& row.to_network@ == to_network
    &&& row.table_name@ == table_name
    &&& row.table_id == table_id
    &&& row.priority == priority
    &&& row.destination@ == destination
    &&& row.device@ == device
    &&& row.fwmark == fwmark
    &&& row.applied == false
    &&& row.created_at == created_at
}

/// One routing rule was added between two store states.
pub open spec fn rt_inserted(
    pre: FirewallDB,
    post: FirewallDB,
    id: i64,
    group_id: i64,
    rule_type: Seq<char>,
    from_network: Seq<char>,
    to_network: Seq<char>,
    table_name: Seq<char>,
    table_id: i32,
    priority: i32,
    destination: Seq<char>,
    device: Seq<char>,
    fwmark: i32,
) -> bool {
    exists|row: RoutingRuleRow|
        {
            &&& #[trigger] rt_row_fields(
                row,
                id,
                group_id,
                rule_type,
                from_network,
                to_network,
                table_name,
                table_id,
                priority,
                destination,
                device,
                fwmark,
                pre.spec_clock(),
            )
            &&& 0 <= rt_insert_index(pre.spec_rt_rules(), row) <= pre.spec_rt_rules().len()
            &&& post.spec_rt_rules() == pre.spec_rt_rules().insert(
                rt_insert_index(pre.spec_rt_rules(), row),
                row,
            )
        }
}

/// Where a new firewall rule lands in `(group_id, position, id)` order.
pub open spec fn fw_insert_index(s: Seq<FirewallRuleRow>, g: FirewallRuleRow) -> int
    decreases s.len(),
{
    if s.len() == 0 {
        0
    } else if fw_le(s[0], g) {
        1 + fw_insert_index(s.drop_first(), g)
    } else {
        0
    }
}

/// The insertion index is the first position whose row is not at-or-before
/// the new one.
pub proof fn lemma_fw_insert_index_is(s: Seq<FirewallRuleRow>, g: FirewallRuleRow, p: int)
    requires
        0 <= p <= s.len(),
        forall|k: int| 0 <= k < p ==> fw_le(#[trigger] s[k], g),
        p < s.len() ==> !fw_le(s[p], g),
    ensures
        fw_insert_index(s, g) == p,
    decreases s.len(),
{
    if s.len() > 0 {
        if p == 0 {
        } else {
            assert(fw_le(s[0], g));
            let t = s.drop_first();
            assert(forall|k: int| 0 <= k < p - 1 ==> #[trigger] t[k] == s[k + 1]);
            lemma_fw_insert_index_is(t, g, p - 1);
        }
    }
}

/// Where a new routing rule lands in `(group_id, id)` order.
pub open spec fn rt_insert_index(s: Seq<RoutingRuleRow>, g: RoutingRuleRow) -> int
    decreases s.len(),
{
    if s.len() == 0 {
        0
    } else if rt_le(s[0], g) {
        1 + rt_insert_index(s.drop_first(), g)
    } else {
        0
    }
}

/// The insertion index is the first position whose row is not at-or-before
/// the new one.
pub proof fn lemma_rt_insert_index_is(s: Seq<RoutingRuleRow>, g: RoutingRuleRow, p: int)
    requires
        0 <= p <= s.len(),
        forall|k: int| 0 <= k < p ==> rt_le(#[trigger] s[k], g),
        p < s.len() ==> !rt_le(s[p], g),
    ensures
        rt_insert_index(s, g) == p,
    decreases s.len(),
{
    if s.len() > 0 {
        if p == 0 {
        } else {
            assert(rt_le(s[0], g));
            let t = s.drop_first();
            assert(forall|k: int| 0 <= k < p - 1 ==> #[trigger] t[k] == s[k + 1]);
            lemma_rt_insert_index_is(t, g, p - 1);
        }
    }
}

/// Every rule row of a well-formed store carries a group id below the
/// group-id counter, because it references an existing group.
pub proof fn lemma_rule_gids_bounded(db: FirewallDB)
    requires
        db.wf(),
    ensures
        forall|i: int|
            0 <= i < db.spec_fw_rules().len() ==> (#[trigger] db.spec_fw_rules()[i]).group_id
                < db.next_group_id,
        forall|i: int|
            0 <= i < db.spec_rt_rules().len() ==> (#[trigger] db.spec_rt_rules()[i]).group_id
                < db.next_group_id,
{
    assert forall|i: int|
        0 <= i < db.spec_fw_rules().len() implies (#[trigger] db.spec_fw_rules()[i]).group_id
        < db.next_group_id by {
        let k = choose|k: int|
            0 <= k < db.groups@.len() && db.groups@[k].id == db.fw_rules@[i].group_id;
        assert(db.groups@[k].id < db.next_group_id);
    }
    assert forall|i: int|
        0 <= i < db.spec_rt_rules().len() implies (#[trigger] db.spec_rt_rules()[i]).group_id
        < db.next_group_id by {
        let k = choose|k: int|
            0 <= k < db.groups@.len() && db.groups@[k].id == db.rt_rules@[i].group_id;
        assert(db.groups@[k].id < db.next_group_id);
    }
}

/// Deleting a group cascades: after a group is deleted, no rule of that group survives
/// in either rule table.
pub proof fn lemma_delete_group_cascades(pre: FirewallDB, post: FirewallDB, gid: i64)
    requires
        post.spec_fw_rules() == pre.spec_fw_rules().filter(
            |r: FirewallRuleRow| r.group_id != gid,
        ),
        post.spec_rt_rules() == pre.spec_rt_rules().filter(|r: RoutingRuleRow| r.group_id != gid),
    ensures
        forall|i: int|
            0 <= i < post.spec_fw_rules().len() ==> (#[trigger] post.spec_fw_rules()[i]).group_id
                != gid,
        forall|i: int|
            0 <= i < post.spec_rt_rules().len() ==> (#[trigger] post.spec_rt_rules()[i]).group_id
                != gid,
{
    broadcast use vstd::seq_lib::group_filter_ensures;

    let fpred = |r: FirewallRuleRow| r.group_id != gid;
    let rpred = |r: RoutingRuleRow| r.group_id != gid;
    assert forall|i: int|
        0 <= i < post.spec_fw_rules().len() implies (#[trigger] post.spec_fw_rules()[i]).group_id
        != gid by {
        assert(fpred(pre.spec_fw_rules().filter(fpred)[i]));
    }
    assert forall|i: int|
        0 <= i < post.spec_rt_rules().len() implies (#[trigger] post.spec_rt_rules()[i]).group_id
        != gid by {
        assert(rpred(pre.spec_rt_rules().filter(rpred)[i]));
    }
}

/// Listing order: the groups of a well-formed store, which
/// `list_rule_groups` returns unchanged, are sorted by `(priority, name)`.
pub proof fn lemma_list_rule_groups_sorted(db: FirewallDB)
    requires
        db.wf(),
    ensures
        forall|i: int, j: int|
            0 <= i < j < db.spec_groups().len() ==> group_le(
                #[trigger] db.spec_groups()[i],
                #[trigger] db.spec_groups()[j],
            ),
{
}

/// Round trip: after a group is created, a group with its name exists,
/// and any group row carrying that name — in particular the one
/// `get_rule_group` returns — has exactly the fields that were passed in and
/// is enabled.
pub proof fn lemma_create_get_round_trip(
    pre: FirewallDB,
    post: FirewallDB,
    g: RuleGroupRow,
    name: Seq<char>,
    group_type: Seq<char>,
    priority: i32,
)
    requires
        post.wf(),
        g.name@ == name,
        g.group_type@ == group_type,
        g.priority == priority,
        g.enabled,
        0 <= group_insert_index(pre.spec_groups(), g) <= pre.spec_groups().len(),
        post.spec_groups() == pre.spec_groups().insert(group_insert_index(pre.spec_groups(), g), g),
    ensures
        post.group_name_exists(name),
        forall|h: RuleGroupRow|
            post.spec_groups().contains(h) && h.name@ == name ==> h.priority == priority
                && h.group_type@ == group_type && h.enabled,
{
    let idx = group_insert_index(pre.spec_groups(), g);
    assert(post.spec_groups()[idx] == g);
    assert(post.group_name_exists(name));
    assert forall|h: RuleGroupRow|
        post.spec_groups().contains(h) && h.name@ == name implies h.priority == priority
        && h.group_type@ == group_type && h.enabled by {
        let k = choose|k: int| 0 <= k < post.spec_groups().len() && post.spec_groups()[k] == h;
        if k != idx {
            assert(post.spec_groups()[k].name@ != post.spec_groups()[idx].name@);
            assert(false);
        }
    }
}

/// The index of the group that carries a name; names are unique in a
/// well-formed store, so there is at most one.
pub open spec fn group_index_of(db: FirewallDB, name: Seq<char>) -> int {
    choose|i: int| 0 <= i < db.spec_groups().len() && (#[trigger] db.spec_groups()[i]).name@
        == name
}

/// In a well-formed store, any index carrying the name is the one
/// `group_index_of` denotes.
pub proof fn lemma_group_index_of(db: FirewallDB, name: Seq<char>, i: int)
    requires
        db.wf(),
        0 <= i < db.spec_groups().len(),
        db.spec_groups()[i].name@ == name,
    ensures
        group_index_of(db, name) == i,
{
    let j = group_index_of(db, name);
    assert(0 <= j < db.spec_groups().len() && db.spec_groups()[j].name@ == name);
    if i != j {
        assert(db.spec_groups()[i].name@ != db.spec_groups()[j].name@);
        assert(false);
    }
}

/// `filter` over a sequence extended by one element.
pub(crate) proof fn lemma_filter_push<A>(s: Seq<A>, x: A, pred: spec_fn(A) -> bool)
    ensures
        (s.push(x)).filter(pred) == (if pred(x) {
            s.filter(pred).push(x)
        } else {
            s.filter(pred)
        }),
{
    reveal(Seq::filter);
    assert((s.push(x)).drop_last() =~= s);
    assert((s.push(x)).last() == x);
}

/// The schema the unverified persistence shell creates for this store: the
/// four tables, their defaults, the cascading foreign keys, and the
/// secondary indexes. Applying it twice is harmless: every statement is
/// `IF NOT EXISTS`.
pub fn schema_ddl() -> &'static str {
    "
CREATE TABLE IF NOT EXISTS config (
    id INTEGER PRIMARY KEY CHECK (id = 1),
    state TEXT NOT NULL DEFAULT 'initialized',
    ip_forward_enabled INTEGER NOT NULL DEFAULT 0,
    ipv6_blocked INTEGER NOT NULL DEFAULT 0,
    kill_switch_active INTEGER NOT NULL DEFAULT 0,
    updated_at INTEGER NOT NULL DEFAULT 0
);

CREATE TABLE IF NOT EXISTS rule_groups (
    id INTEGER PRIMARY KEY AUTOINCREMENT,
    name TEXT NOT NULL UNIQUE,
    group_type TEXT NOT NULL DEFAULT 'custom',
    enabled INTEGER NOT NULL DEFAULT 1,
    priority INTEGER NOT NULL DEFAULT 100,
    metadata TEXT NOT NULL DEFAULT '{}',
    created_at INTEGER NOT NULL,
    updated_at INTEGER NOT NULL
);

CREATE TABLE IF NOT EXISTS firewall_rules (
    id INTEGER PRIMARY KEY AUTOINCREMENT,
    group_id INTEGER NOT NULL REFERENCES rule_groups(id) ON DELETE CASCADE,
    chain TEXT NOT NULL,
    rule_type TEXT NOT NULL,
    family INTEGER NOT NULL DEFAULT 2,
    proto TEXT NOT NULL DEFAULT '',
    dport INTEGER NOT NULL DEFAULT 0,
    sport INTEGER NOT NULL DEFAULT 0,
    source TEXT NOT NULL DEFAULT '',
    destination TEXT NOT NULL DEFAULT '',
    in_iface TEXT NOT NULL DEFAULT '',
    out_iface TEXT NOT NULL DEFAULT '',
    state_match TEXT NOT NULL DEFAULT '',
    comment TEXT NOT NULL DEFAULT '',
    position INTEGER NOT NULL DEFAULT 0,
    applied INTEGER NOT NULL DEFAULT 0,
    nft_handle INTEGER NOT NULL DEFAULT 0,
    created_at INTEGER NOT NULL
);

CREATE TABLE IF NOT EXISTS routing_rules (
    id INTEGER PRIMARY KEY AUTOINCREMENT,
    group_id INTEGER NOT NULL REFERENCES rule_groups(id) ON DELETE CASCADE,
    rule_type TEXT NOT NULL,
    from_network TEXT NOT NULL DEFAULT '',
    to_network TEXT NOT NULL DEFAULT '',
    table_name TEXT NOT NULL DEFAULT '',
    table_id INTEGER NOT NULL DEFAULT 0,
    priority INTEGER NOT NULL DEFAULT 0,
    destination TEXT NOT NULL DEFAULT '',
    device TEXT NOT NULL DEFAULT '',
    fwmark INTEGER NOT NULL DEFAULT 0,
    applied INTEGER NOT NULL DEFAULT 0,
    created_at INTEGER NOT NULL
);

CREATE INDEX IF NOT EXISTS idx_fw_group ON firewall_rules(group_id);
CREATE INDEX IF NOT EXISTS idx_fw_applied ON firewall_rules(applied);
CREATE INDEX IF NOT EXISTS idx_rt_group ON routing_rules(group_id);
CREATE INDEX IF NOT EXISTS idx_rt_applied ON routing_rules(applied);
CREATE INDEX IF NOT EXISTS idx_rg_enabled ON rule_groups(enabled);
CREATE INDEX IF NOT EXISTS idx_rg_type ON rule_groups(group_type);
"
}

} // verus!

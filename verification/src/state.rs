//! The bridge's lifecycle state machine.
//!
//! Uninitialized → Initialized → Started ⇄ Stopped, with `close` returning
//! any state to Uninitialized. The machine owns the store; the kernel work
//! of each transition is handed out as a plan of commands and datagrams for
//! the unverified shell to perform, and the shell reports each rule's
//! outcome back through the `record_*` methods — a per-rule failure is
//! recorded in `last_error` and never aborts a transition. Whenever the
//! machine is not started, no rule row claims to be applied.

use vstd::prelude::*;

use crate::db::{
    applied_rt_of, enabled_of, fw_inserted, fw_of_group, fw_row_fields, fw_stamped,
    fw_with_applied, group_index_of, lemma_group_index_of, rt_inserted, rt_of_group,
    rt_row_fields, rt_stamped, rt_with_applied, FirewallDB, FirewallRuleRow, RoutingRuleRow,
    RuleGroupRow,
};
use crate::error::ErrorCode;
use crate::text::i64_dec;

verus! {

// ---------------------------------------------------------------------------
// Status
// ---------------------------------------------------------------------------

/// The lifecycle label.
#[derive(Debug, Clone, Copy, PartialEq, Eq, Structural)]
pub enum Status {
    Uninitialized,
    Initialized,
    Started,
    Stopped,
    Error,
}

impl Status {
    /// The label's wire name.
    pub fn as_str(&self) -> (r: &'static str)
        ensures
            *self is Uninitialized ==> r@ == "uninitialized"@,
            *self is Initialized ==> r@ == "initialized"@,
            *self is Started ==> r@ == "started"@,
            *self is Stopped ==> r@ == "stopped"@,
            *self is Error ==> r@ == "error"@,
    {
        match self {
            Status::Uninitialized => "uninitialized",
            Status::Initialized => "initialized",
            Status::Started => "started",
            Status::Stopped => "stopped",
            Status::Error => "error",
        }
    }
}

// ---------------------------------------------------------------------------
// Plans
// ---------------------------------------------------------------------------

/// One group's rules, in the order they are offered to the kernel: filter
/// rules by `(position, id)`, then routing rules by id.
pub struct GroupApply {
    pub group_id: i64,
    pub fw: Vec<FirewallRuleRow>,
    pub rt: Vec<RoutingRuleRow>,
}

/// What a start must do to the kernel: flush the private table, then apply
/// each enabled group's rules, groups in `(priority, name)` order.
pub struct StartPlan {
    pub flush: String,
    pub groups: Vec<GroupApply>,
}

/// What a stop must do to the kernel: flush the private table, then remove
/// each applied routing rule structurally.
pub struct StopPlan {
    pub flush: String,
    pub rt_remove: Vec<RoutingRuleRow>,
}

// ---------------------------------------------------------------------------
// The state machine
// ---------------------------------------------------------------------------

/// No rule row claims to be applied.
pub open spec fn all_unapplied(db: FirewallDB) -> bool {
    &&& forall|i: int|
        0 <= i < db.spec_fw_rules().len() ==> !(#[trigger] db.spec_fw_rules()[i]).applied && (
        db.spec_fw_rules()[i]).nft_handle == 0
    &&& forall|i: int|
        0 <= i < db.spec_rt_rules().len() ==> !(#[trigger] db.spec_rt_rules()[i]).applied
}

/// Every element of a filtered sequence comes from the sequence itself.
proof fn lemma_filter_elem_contained<A>(s: Seq<A>, pred: spec_fn(A) -> bool, i: int)
    requires
        0 <= i < s.filter(pred).len(),
    ensures
        s.contains(s.filter(pred)[i]),
    decreases s.len(),
{
    reveal(Seq::filter);
    s.lemma_filter_len(pred);
    if s.len() > 0 {
        let butlast = s.drop_last();
        let fb = butlast.filter(pred);
        if pred(s.last()) && i == s.filter(pred).len() - 1 {
            assert(s.filter(pred)[i] == s.last());
            assert(s[s.len() - 1] == s.last());
        } else {
            assert(s.filter(pred)[i] == fb[i]);
            lemma_filter_elem_contained(butlast, pred, i);
            let j = choose|j: int| 0 <= j < butlast.len() && butlast[j] == fb[i];
            assert(s[j] == fb[i]);
        }
    }
}

/// The bridge's lifecycle state: the store, the label, and the last error
/// text.
pub struct FirewallState {
    pub db: Option<FirewallDB>,
    pub status: Status,
    pub last_error: String,
}

impl FirewallState {
    /// Machine invariant: a store exists exactly while initialized, it is
    /// well formed, and outside `Started` no rule claims to be applied.
    pub open spec fn wf(self) -> bool {
        &&& self.status is Uninitialized ==> self.db is None
        &&& !(self.status is Uninitialized) ==> self.db is Some && self.db->Some_0.wf()
        &&& (self.status is Initialized || self.status is Stopped) ==> all_unapplied(
            self.db->Some_0,
        )
    }

    /// A fresh machine: uninitialized, no store, no error.
    pub fn new() -> (s: Self)
        ensures
            s.wf(),
            s.status is Uninitialized,
            s.db is None,
            s.last_error@.len() == 0,
    {
        FirewallState { db: None, status: Status::Uninitialized, last_error: String::new() }
    }

    /// The current label.
    pub fn status(&self) -> (r: Status)
        ensures
            r == self.status,
    {
        self.status
    }

    /// The machine is in its started state.
    pub fn is_started(&self) -> (r: bool)
        ensures
            r == (self.status is Started),
    {
        match self.status {
            Status::Started => true,
            _ => false,
        }
    }

    /// Record an error message for the shell to surface.
    pub fn set_last_error(&mut self, msg: &str)
        ensures
            final(self).last_error@ == msg@,
            final(self).db == old(self).db,
            final(self).status == old(self).status,
            old(self).wf() ==> final(self).wf(),
    {
        self.last_error = String::from_str(msg);
    }

    /// The last recorded error message.
    pub fn last_error(&self) -> (r: &str)
        ensures
            r@ == self.last_error@,
    {
        self.last_error.as_str()
    }

    /// The store, when one is open.
    pub fn db(&self) -> (r: Result<&FirewallDB, (ErrorCode, String)>)
        ensures
            r is Ok <==> self.db is Some,
            r matches Ok(d) ==> *d == self.db->Some_0,
            r matches Err((c, m)) ==> c == ErrorCode::NotInitialized,
    {
        match &self.db {
            Some(d) => Ok(d),
            None => Err((ErrorCode::NotInitialized, String::from_str("DB not open"))),
        }
    }

    /// Initialize with a freshly opened store: any previous incarnation is
    /// dropped, the configuration row is created if absent, every applied
    /// flag and handle is cleared — applied claims are never trusted across
    /// a process boundary — and the lifecycle label becomes `initialized`.
    pub fn init(&mut self, store: FirewallDB) -> (r: Result<(), (ErrorCode, String)>)
        requires
            store.wf(),
        ensures
            r is Ok,
            final(self).wf(),
            final(self).status is Initialized,
            final(self).last_error@.len() == 0,
            final(self).db matches Some(d) && ({
                &&& d.wf()
                &&& d.spec_groups() == store.spec_groups()
                &&& d.spec_fw_rules().len() == store.spec_fw_rules().len()
                &&& forall|i: int|
                    0 <= i < store.spec_fw_rules().len() ==> d.spec_fw_rules()[i]
                        == fw_with_applied(#[trigger] store.spec_fw_rules()[i], false, 0)
                &&& d.spec_rt_rules().len() == store.spec_rt_rules().len()
                &&& forall|i: int|
                    0 <= i < store.spec_rt_rules().len() ==> d.spec_rt_rules()[i]
                        == rt_with_applied(#[trigger] store.spec_rt_rules()[i], false)
                &&& d.spec_config() matches Some(c) && c.state@ == "initialized"@
                &&& (store.spec_config() is None ==> !d.spec_config()->Some_0.ip_forward_enabled
                    && !d.spec_config()->Some_0.ipv6_blocked
                    && !d.spec_config()->Some_0.kill_switch_active)
                &&& (store.spec_config() matches Some(c0)
                    ==> d.spec_config()->Some_0.ip_forward_enabled == c0.ip_forward_enabled
                    && d.spec_config()->Some_0.ipv6_blocked == c0.ipv6_blocked
                    && d.spec_config()->Some_0.kill_switch_active == c0.kill_switch_active)
                &&& d.spec_clock() == store.spec_clock()
            }),
    {
        self.db = None;
        self.status = Status::Uninitialized;
        let mut s = store;
        match s.init_config() {
            Ok(()) => {},
            Err(_) => {
                proof {
                    assert(false);
                }
                return Err((ErrorCode::DbWrite, String::from_str("init_config failed")));
            },
        }
        match s.clear_fw_applied_state() {
            Ok(()) => {},
            Err(_) => {
                proof {
                    assert(false);
                }
                return Err((ErrorCode::DbWrite, String::from_str("clear failed")));
            },
        }
        match s.clear_rt_applied_state() {
            Ok(()) => {},
            Err(_) => {
                proof {
                    assert(false);
                }
                return Err((ErrorCode::DbWrite, String::from_str("clear failed")));
            },
        }
        match s.set_state("initialized") {
            Ok(()) => {},
            Err(_) => {
                proof {
                    assert(false);
                }
                return Err((ErrorCode::DbWrite, String::from_str("set_state failed")));
            },
        }
        proof {
            assert forall|i: int|
                0 <= i < s.spec_fw_rules().len() implies !(#[trigger] s.spec_fw_rules()[
                i
            ]).applied && s.spec_fw_rules()[i].nft_handle == 0 by {
                assert(s.spec_fw_rules()[i] == fw_with_applied(
                    store.spec_fw_rules()[i],
                    false,
                    0,
                ));
            }
            assert forall|i: int|
                0 <= i < s.spec_rt_rules().len() implies !(#[trigger] s.spec_rt_rules()[
                i
            ]).applied by {
                assert(s.spec_rt_rules()[i] == rt_with_applied(store.spec_rt_rules()[i], false));
            }
        }
        self.db = Some(s);
        self.status = Status::Initialized;
        self.last_error = String::new();
        Ok(())
    }

    /// Begin a start: allowed from `Initialized` or `Stopped`. The label
    /// becomes `started` at once — a partial application is the declared
    /// contract — and the returned plan lists the kernel work: flush the
    /// private table, then apply every enabled group's rules, groups
    /// ordered by `(priority, name)`, filter rules within a group by
    /// `(position, id)`, routing rules by id. The shell reports outcomes
    /// through the `record_*` methods.
    pub fn start(&mut self) -> (r: Result<StartPlan, (ErrorCode, String)>)
        requires
            old(self).wf(),
        ensures
            final(self).wf(),
            r is Err <==> !(old(self).status is Initialized || old(self).status is Stopped),
            r matches Err((c, m)) ==> c == (if old(self).status is Started {
                ErrorCode::AlreadyStarted
            } else {
                ErrorCode::InvalidState
            }),
            r is Err ==> *final(self) == *old(self),
            r is Ok ==> final(self).status is Started,
            r is Ok ==> final(self).last_error == old(self).last_error,
            r is Ok ==> (final(self).db matches Some(d) && ({
                let d0 = old(self).db->Some_0;
                &&& d.wf()
                &&& d.spec_groups() == d0.spec_groups()
                &&& d.spec_fw_rules() == d0.spec_fw_rules()
                &&& d.spec_rt_rules() == d0.spec_rt_rules()
                &&& d.spec_clock() == d0.spec_clock()
                &&& (d0.spec_config() is None ==> d.spec_config() is None)
                &&& (d0.spec_config() matches Some(c0) ==> (d.spec_config() matches Some(c)
                    && c.state@ == "started"@ && c.ip_forward_enabled == c0.ip_forward_enabled
                    && c.ipv6_blocked == c0.ipv6_blocked && c.kill_switch_active
                    == c0.kill_switch_active))
            })),
            r matches Ok(p) ==> ({
                let d0 = old(self).db->Some_0;
                &&& p.flush@ == "flush table inet phantom"@
                &&& p.groups@.len() == enabled_of(d0).len()
                &&& forall|i: int|
                    0 <= i < p.groups@.len() ==> (#[trigger] p.groups@[i]).group_id == enabled_of(
                        d0,
                    )[i].id
                &&& forall|i: int|
                    0 <= i < p.groups@.len() ==> (#[trigger] p.groups@[i]).fw@ == fw_of_group(
                        d0,
                        enabled_of(d0)[i].id,
                    )
                &&& forall|i: int|
                    0 <= i < p.groups@.len() ==> (#[trigger] p.groups@[i]).rt@ == rt_of_group(
                        d0,
                        enabled_of(d0)[i].id,
                    )
            }),
    {
        match self.status {
            Status::Initialized | Status::Stopped => {},
            Status::Started => {
                return Err((ErrorCode::AlreadyStarted, String::from_str("Already started")));
            },
            _ => {
                return Err(
                    (
                        ErrorCode::InvalidState,
                        String::from_str("Cannot start from this state"),
                    ),
                );
            },
        }
        let mut plan_groups: Vec<GroupApply> = Vec::new();
        match &mut self.db {
            Some(d) => {
                let en = match d.enabled_groups() {
                    Ok(v) => v,
                    Err(_) => {
                        proof {
                            assert(false);
                        }
                        return Err((ErrorCode::DbQuery, String::from_str("query failed")));
                    },
                };
                let mut i: usize = 0;
                while i < en.len()
                    invariant
                        0 <= i <= en@.len(),
                        en@ == enabled_of(*d),
                        plan_groups@.len() == i,
                        forall|k: int|
                            0 <= k < i ==> (#[trigger] plan_groups@[k]).group_id == en@[k].id
                                && plan_groups@[k].fw@ == fw_of_group(*d, en@[k].id)
                                && plan_groups@[k].rt@ == rt_of_group(*d, en@[k].id),
                    decreases en@.len() - i,
                {
                    let gid = en[i].id;
                    let fw = match d.firewall_rules_for_group(gid) {
                        Ok(v) => v,
                        Err(_) => {
                            proof {
                                assert(false);
                            }
                            return Err((ErrorCode::DbQuery, String::from_str("query failed")));
                        },
                    };
                    let rt = match d.routing_rules_for_group(gid) {
                        Ok(v) => v,
                        Err(_) => {
                            proof {
                                assert(false);
                            }
                            return Err((ErrorCode::DbQuery, String::from_str("query failed")));
                        },
                    };
                    plan_groups.push(GroupApply { group_id: gid, fw, rt });
                    i = i + 1;
                }
                match d.set_state("started") {
                    Ok(()) => {},
                    Err(_) => {
                        proof {
                            assert(false);
                        }
                        return Err((ErrorCode::DbWrite, String::from_str("set_state failed")));
                    },
                }
            },
            None => {
                proof {
                    assert(false);
                }
                return Err((ErrorCode::NotInitialized, String::from_str("DB not open")));
            },
        }
        self.status = Status::Started;
        Ok(StartPlan { flush: String::from_str("flush table inet phantom"), groups: plan_groups })
    }

    /// Record a successfully installed filter rule: the kernel handle it
    /// came back with is captured and the row marked applied.
    pub fn record_fw_success(&mut self, rule_id: i64, handle: u64) -> (r: Result<
        (),
        (ErrorCode, String),
    >)
        requires
            old(self).wf(),
            old(self).status is Started,
            1 <= handle <= i64::MAX,
        ensures
            r is Ok,
            final(self).wf(),
            final(self).status == old(self).status,
            final(self).last_error == old(self).last_error,
            final(self).db matches Some(d) && ({
                let d0 = old(self).db->Some_0;
                &&& d.wf()
                &&& d.spec_groups() == d0.spec_groups()
                &&& d.spec_rt_rules() == d0.spec_rt_rules()
                &&& d.spec_config() == d0.spec_config()
                &&& d.spec_fw_rules().len() == d0.spec_fw_rules().len()
                &&& forall|i: int|
                    0 <= i < d0.spec_fw_rules().len() ==> d.spec_fw_rules()[i] == (if (
                    #[trigger] d0.spec_fw_rules()[i]).id == rule_id {
                        fw_with_applied(d0.spec_fw_rules()[i], true, handle as i64)
                    } else {
                        d0.spec_fw_rules()[i]
                    })
            }),
    {
        match &mut self.db {
            Some(d) => {
                match d.update_fw_rule_applied(rule_id, true, handle as i64) {
                    Ok(()) => {},
                    Err(_) => {
                        proof {
                            assert(false);
                        }
                        return Err((ErrorCode::DbWrite, String::from_str("update failed")));
                    },
                }
            },
            None => {
                proof {
                    assert(false);
                }
                return Err((ErrorCode::NotInitialized, String::from_str("DB not open")));
            },
        }
        Ok(())
    }

    /// Record a filter rule the kernel refused: the failure is kept in
    /// `last_error` and the start goes on — a partial application is better
    /// than none.
    pub fn record_fw_failure(&mut self, rule_id: i64, err: &str)
        requires
            old(self).wf(),
        ensures
            final(self).wf(),
            final(self).db == old(self).db,
            final(self).status == old(self).status,
            final(self).last_error@ == "Failed to apply rule "@ + i64_dec(rule_id as int)
                + ": "@ + err@,
    {
        let mut m = String::from_str("Failed to apply rule ");
        let d = crate::text::i64_to_string(rule_id);
        m.append(d.as_str());
        m.append(": ");
        m.append(err);
        self.last_error = m;
    }

    /// Record a successfully installed routing rule.
    pub fn record_rt_success(&mut self, rule_id: i64) -> (r: Result<(), (ErrorCode, String)>)
        requires
            old(self).wf(),
            old(self).status is Started,
        ensures
            r is Ok,
            final(self).wf(),
            final(self).status == old(self).status,
            final(self).last_error == old(self).last_error,
            final(self).db matches Some(d) && ({
                let d0 = old(self).db->Some_0;
                &&& d.wf()
                &&& d.spec_groups() == d0.spec_groups()
                &&& d.spec_fw_rules() == d0.spec_fw_rules()
                &&& d.spec_config() == d0.spec_config()
                &&& d.spec_rt_rules().len() == d0.spec_rt_rules().len()
                &&& forall|i: int|
                    0 <= i < d0.spec_rt_rules().len() ==> d.spec_rt_rules()[i] == (if (
                    #[trigger] d0.spec_rt_rules()[i]).id == rule_id {
                        rt_with_applied(d0.spec_rt_rules()[i], true)
                    } else {
                        d0.spec_rt_rules()[i]
                    })
            }),
    {
        match &mut self.db {
            Some(d) => {
                match d.update_rt_rule_applied(rule_id, true) {
                    Ok(()) => {},
                    Err(_) => {
                        proof {
                            assert(false);
                        }
                        return Err((ErrorCode::DbWrite, String::from_str("update failed")));
                    },
                }
            },
            None => {
                proof {
                    assert(false);
                }
                return Err((ErrorCode::NotInitialized, String::from_str("DB not open")));
            },
        }
        Ok(())
    }

    /// Record a routing rule the kernel refused.
    pub fn record_rt_failure(&mut self, rule_id: i64, err: &str)
        requires
            old(self).wf(),
        ensures
            final(self).wf(),
            final(self).db == old(self).db,
            final(self).status == old(self).status,
            final(self).last_error@ == "Failed to apply routing rule "@ + i64_dec(rule_id as int)
                + ": "@ + err@,
    {
        let mut m = String::from_str("Failed to apply routing rule ");
        let d = crate::text::i64_to_string(rule_id);
        m.append(d.as_str());
        m.append(": ");
        m.append(err);
        self.last_error = m;
    }

    /// Stop: allowed only from `Started`. Every applied flag and handle is
    /// cleared — nothing the bridge claims to own remains applied — the
    /// label becomes `stopped`, and the plan lists the kernel work: flush
    /// the private table and structurally remove each routing rule that was
    /// applied. Removal failures in the shell are swallowed: the cleared
    /// store is the post-condition that matters.
    pub fn stop(&mut self) -> (r: Result<StopPlan, (ErrorCode, String)>)
        requires
            old(self).wf(),
        ensures
            final(self).wf(),
            r is Err <==> !(old(self).status is Started),
            r matches Err((c, m)) ==> c == ErrorCode::NotStarted,
            r is Err ==> *final(self) == *old(self),
            r is Ok ==> final(self).status is Stopped,
            r is Ok ==> final(self).last_error == old(self).last_error,
            r is Ok ==> (final(self).db matches Some(d) && ({
                let d0 = old(self).db->Some_0;
                &&& d.wf()
                &&& all_unapplied(d)
                &&& d.spec_groups() == d0.spec_groups()
                &&& d.spec_clock() == d0.spec_clock()
                &&& d.spec_fw_rules().len() == d0.spec_fw_rules().len()
                &&& forall|i: int|
                    0 <= i < d0.spec_fw_rules().len() ==> d.spec_fw_rules()[i]
                        == fw_with_applied(#[trigger] d0.spec_fw_rules()[i], false, 0)
                &&& d.spec_rt_rules().len() == d0.spec_rt_rules().len()
                &&& forall|i: int|
                    0 <= i < d0.spec_rt_rules().len() ==> d.spec_rt_rules()[i]
                        == rt_with_applied(#[trigger] d0.spec_rt_rules()[i], false)
                &&& (d0.spec_config() is None ==> d.spec_config() is None)
                &&& (d0.spec_config() matches Some(c0) ==> (d.spec_config() matches Some(c)
                    && c.state@ == "stopped"@ && c.ip_forward_enabled == c0.ip_forward_enabled
                    && c.ipv6_blocked == c0.ipv6_blocked && c.kill_switch_active
                    == c0.kill_switch_active))
            })),
            r matches Ok(p) ==> p.flush@ == "flush table inet phantom"@ && p.rt_remove@
                == applied_rt_of(old(self).db->Some_0),
    {
        match self.status {
            Status::Started => {},
            _ => {
                return Err((ErrorCode::NotStarted, String::from_str("Not started")));
            },
        }
        let mut rt_remove: Vec<RoutingRuleRow> = Vec::new();
        match &mut self.db {
            Some(d) => {
                rt_remove = match d.applied_routing_rules() {
                    Ok(v) => v,
                    Err(_) => {
                        proof {
                            assert(false);
                        }
                        return Err((ErrorCode::DbQuery, String::from_str("query failed")));
                    },
                };
                match d.clear_fw_applied_state() {
                    Ok(()) => {},
                    Err(_) => {
                        proof {
                            assert(false);
                        }
                        return Err((ErrorCode::DbWrite, String::from_str("clear failed")));
                    },
                }
                match d.clear_rt_applied_state() {
                    Ok(()) => {},
                    Err(_) => {
                        proof {
                            assert(false);
                        }
                        return Err((ErrorCode::DbWrite, String::from_str("clear failed")));
                    },
                }
                match d.set_state("stopped") {
                    Ok(()) => {},
                    Err(_) => {
                        proof {
                            assert(false);
                        }
                        return Err((ErrorCode::DbWrite, String::from_str("set_state failed")));
                    },
                }
                proof {
                    let d0 = old(self).db->Some_0;
                    assert forall|i: int|
                        0 <= i < d.spec_fw_rules().len() implies !(#[trigger] d.spec_fw_rules()[
                        i
                    ]).applied && d.spec_fw_rules()[i].nft_handle == 0 && d.spec_fw_rules()[i]
                        == fw_with_applied(d0.spec_fw_rules()[i], false, 0) by {
                        assert(d.spec_fw_rules()[i] == fw_with_applied(
                            d0.spec_fw_rules()[i],
                            false,
                            0,
                        ));
                    }
                    assert forall|i: int|
                        0 <= i < d.spec_rt_rules().len() implies !(#[trigger] d.spec_rt_rules()[
                        i
                    ]).applied && d.spec_rt_rules()[i] == rt_with_applied(
                        d0.spec_rt_rules()[i],
                        false,
                    ) by {
                        assert(d.spec_rt_rules()[i] == rt_with_applied(
                            d0.spec_rt_rules()[i],
                            false,
                        ));
                    }
                }
            },
            None => {
                proof {
                    assert(false);
                }
                return Err((ErrorCode::NotInitialized, String::from_str("DB not open")));
            },
        }
        self.status = Status::Stopped;
        Ok(
            StopPlan {
                flush: String::from_str("flush table inet phantom"),
                rt_remove,
            },
        )
    }

    /// Close: stop first when started — handing back that stop's plan for
    /// the shell's best effort — then release the store and return to
    /// `Uninitialized`.
    pub fn close(&mut self) -> (r: Result<Option<StopPlan>, (ErrorCode, String)>)
        requires
            old(self).wf(),
        ensures
            r is Ok,
            final(self).wf(),
            final(self).status is Uninitialized,
            final(self).db is None,
            final(self).last_error@.len() == 0,
            r matches Ok(opt) ==> ({
                &&& (old(self).status is Started ==> (opt matches Some(p) && p.flush@
                    == "flush table inet phantom"@ && p.rt_remove@ == applied_rt_of(
                    old(self).db->Some_0,
                )))
                &&& (!(old(self).status is Started) ==> opt is None)
            }),
    {
        let plan = if self.is_started() {
            match self.stop() {
                Ok(p) => Some(p),
                Err(_) => {
                    proof {
                        assert(false);
                    }
                    None
                },
            }
        } else {
            None
        };
        self.db = None;
        self.status = Status::Uninitialized;
        self.last_error = String::new();
        Ok(plan)
    }

    /// Enable a stored group. When the machine is started the group's rules
    /// are handed back for immediate application, in their stored order.
    /// Fails exactly when no store is open or no group carries the name.
    pub fn enable_rule_group(&mut self, name: &str) -> (r: Result<
        Option<GroupApply>,
        (ErrorCode, String),
    >)
        requires
            old(self).wf(),
        ensures
            final(self).wf(),
            r is Err <==> (old(self).db is None || !old(self).db->Some_0.group_name_exists(
                name@,
            )),
            r matches Err((c, m)) ==> c == (if old(self).db is None {
                ErrorCode::NotInitialized
            } else {
                ErrorCode::GroupNotFound
            }),
            r is Err ==> *final(self) == *old(self),
            r is Ok ==> final(self).status == old(self).status && final(self).last_error == old(
                self,
            ).last_error,
            r is Ok ==> (final(self).db matches Some(d) && ({
                let d0 = old(self).db->Some_0;
                &&& d.wf()
                &&& d.spec_fw_rules() == d0.spec_fw_rules()
                &&& d.spec_rt_rules() == d0.spec_rt_rules()
                &&& d.spec_config() == d0.spec_config()
                &&& d.spec_clock() == d0.spec_clock()
                &&& d.spec_groups().len() == d0.spec_groups().len()
                &&& forall|i: int|
                    0 <= i < d0.spec_groups().len() ==> d.spec_groups()[i] == (if (
                    #[trigger] d0.spec_groups()[i]).name@ == name@ {
                        RuleGroupRow {
                            enabled: true,
                            updated_at: d0.spec_clock(),
                            ..d0.spec_groups()[i]
                        }
                    } else {
                        d0.spec_groups()[i]
                    })
            })),
            r matches Ok(opt) ==> ({
                let d0 = old(self).db->Some_0;
                let gid = d0.spec_groups()[group_index_of(d0, name@)].id;
                &&& (old(self).status is Started ==> (opt matches Some(p) && p.group_id == gid
                    && p.fw@ == fw_of_group(d0, gid) && p.rt@ == rt_of_group(d0, gid)))
                &&& (!(old(self).status is Started) ==> opt is None)
            }),
    {
        let started = match self.status {
            Status::Started => true,
            _ => false,
        };
        match &mut self.db {
            Some(d) => {
                let ghost d0 = *d;
                let g = match d.get_rule_group(name) {
                    Ok(g) => g,
                    Err(e) => {
                        return Err((ErrorCode::GroupNotFound, e));
                    },
                };
                let gid = g.id;
                proof {
                    let k = choose|k: int|
                        0 <= k < d0.spec_groups().len() && d0.spec_groups()[k] == g;
                    lemma_group_index_of(d0, name@, k);
                }
                match d.set_group_enabled(name, true) {
                    Ok(()) => {},
                    Err(e) => {
                        proof {
                            assert(false);
                        }
                        return Err((ErrorCode::GroupNotFound, e));
                    },
                }
                let opt = if started {
                    let fw = match d.firewall_rules_for_group(gid) {
                        Ok(v) => v,
                        Err(_) => {
                            proof {
                                assert(false);
                            }
                            return Err((ErrorCode::DbQuery, String::from_str("query failed")));
                        },
                    };
                    let rt = match d.routing_rules_for_group(gid) {
                        Ok(v) => v,
                        Err(_) => {
                            proof {
                                assert(false);
                            }
                            return Err((ErrorCode::DbQuery, String::from_str("query failed")));
                        },
                    };
                    Some(GroupApply { group_id: gid, fw, rt })
                } else {
                    None
                };
                Ok(opt)
            },
            None => Err((ErrorCode::NotInitialized, String::from_str("DB not open"))),
        }
    }

    /// Disable a stored group. When the machine is started, the group's
    /// rules as stored — handles included — are handed back for removal
    /// from the kernel, and their applied claims are cleared; removal
    /// failures in the shell are swallowed. Fails exactly when no store is
    /// open or no group carries the name.
    pub fn disable_rule_group(&mut self, name: &str) -> (r: Result<
        Option<GroupApply>,
        (ErrorCode, String),
    >)
        requires
            old(self).wf(),
        ensures
            final(self).wf(),
            r is Err <==> (old(self).db is None || !old(self).db->Some_0.group_name_exists(
                name@,
            )),
            r matches Err((c, m)) ==> c == (if old(self).db is None {
                ErrorCode::NotInitialized
            } else {
                ErrorCode::GroupNotFound
            }),
            r is Err ==> *final(self) == *old(self),
            r is Ok ==> final(self).status == old(self).status && final(self).last_error == old(
                self,
            ).last_error,
            r is Ok ==> (final(self).db matches Some(d) && ({
                let d0 = old(self).db->Some_0;
                let gid = d0.spec_groups()[group_index_of(d0, name@)].id;
                &&& d.wf()
                &&& d.spec_config() == d0.spec_config()
                &&& d.spec_clock() == d0.spec_clock()
                &&& d.spec_groups().len() == d0.spec_groups().len()
                &&& forall|i: int|
                    0 <= i < d0.spec_groups().len() ==> d.spec_groups()[i] == (if (
                    #[trigger] d0.spec_groups()[i]).name@ == name@ {
                        RuleGroupRow {
                            enabled: false,
                            updated_at: d0.spec_clock(),
                            ..d0.spec_groups()[i]
                        }
                    } else {
                        d0.spec_groups()[i]
                    })
                &&& d.spec_fw_rules().len() == d0.spec_fw_rules().len()
                &&& (old(self).status is Started ==> forall|i: int|
                    0 <= i < d0.spec_fw_rules().len() ==> d.spec_fw_rules()[i] == (if (
                    #[trigger] d0.spec_fw_rules()[i]).group_id == gid {
                        fw_with_applied(d0.spec_fw_rules()[i], false, 0)
                    } else {
                        d0.spec_fw_rules()[i]
                    }))
                &&& (!(old(self).status is Started) ==> d.spec_fw_rules() == d0.spec_fw_rules())
                &&& d.spec_rt_rules().len() == d0.spec_rt_rules().len()
                &&& (old(self).status is Started ==> forall|i: int|
                    0 <= i < d0.spec_rt_rules().len() ==> d.spec_rt_rules()[i] == (if (
                    #[trigger] d0.spec_rt_rules()[i]).group_id == gid {
                        rt_with_applied(d0.spec_rt_rules()[i], false)
                    } else {
                        d0.spec_rt_rules()[i]
                    }))
                &&& (!(old(self).status is Started) ==> d.spec_rt_rules() == d0.spec_rt_rules())
            })),
            r matches Ok(opt) ==> ({
                let d0 = old(self).db->Some_0;
                let gid = d0.spec_groups()[group_index_of(d0, name@)].id;
                &&& (old(self).status is Started ==> (opt matches Some(p) && p.group_id == gid
                    && p.fw@ == fw_of_group(d0, gid) && p.rt@ == rt_of_group(d0, gid)))
                &&& (!(old(self).status is Started) ==> opt is None)
            }),
    {
        let started = match self.status {
            Status::Started => true,
            _ => false,
        };
        match &mut self.db {
            Some(d) => {
                let ghost d0 = *d;
                let g = match d.get_rule_group(name) {
                    Ok(g) => g,
                    Err(e) => {
                        return Err((ErrorCode::GroupNotFound, e));
                    },
                };
                let gid = g.id;
                proof {
                    let k = choose|k: int|
                        0 <= k < d0.spec_groups().len() && d0.spec_groups()[k] == g;
                    lemma_group_index_of(d0, name@, k);
                }
                let opt = if started {
                    let fw = match d.firewall_rules_for_group(gid) {
                        Ok(v) => v,
                        Err(_) => {
                            proof {
                                assert(false);
                            }
                            return Err((ErrorCode::DbQuery, String::from_str("query failed")));
                        },
                    };
                    let rt = match d.routing_rules_for_group(gid) {
                        Ok(v) => v,
                        Err(_) => {
                            proof {
                                assert(false);
                            }
                            return Err((ErrorCode::DbQuery, String::from_str("query failed")));
                        },
                    };
                    match d.clear_group_fw_applied(gid) {
                        Ok(()) => {},
                        Err(_) => {
                            proof {
                                assert(false);
                            }
                            return Err((ErrorCode::DbWrite, String::from_str("clear failed")));
                        },
                    }
                    match d.clear_group_rt_applied(gid) {
                        Ok(()) => {},
                        Err(_) => {
                            proof {
                                assert(false);
                            }
                            return Err((ErrorCode::DbWrite, String::from_str("clear failed")));
                        },
                    }
                    Some(GroupApply { group_id: gid, fw, rt })
                } else {
                    None
                };
                match d.set_group_enabled(name, false) {
                    Ok(()) => {},
                    Err(e) => {
                        proof {
                            assert(false);
                        }
                        return Err((ErrorCode::GroupNotFound, e));
                    },
                }
                proof {
                    if old(self).status is Initialized || old(self).status is Stopped {
                        assert forall|i: int|
                            0 <= i < d.spec_fw_rules().len() implies !(
                            #[trigger] d.spec_fw_rules()[i]).applied && d.spec_fw_rules()[
                            i
                        ].nft_handle == 0 by {
                            assert(!d0.spec_fw_rules()[i].applied);
                        }
                        assert forall|i: int|
                            0 <= i < d.spec_rt_rules().len() implies !(
                            #[trigger] d.spec_rt_rules()[i]).applied by {
                            assert(!d0.spec_rt_rules()[i].applied);
                        }
                    }
                }
                Ok(opt)
            },
            None => Err((ErrorCode::NotInitialized, String::from_str("DB not open"))),
        }
    }

    /// Delete a stored group and, by cascade, all of its rules. When the
    /// machine is started, the group's rules as stored are first handed
    /// back for removal from the kernel. Fails exactly when no store is
    /// open or no group carries the name.
    pub fn delete_rule_group(&mut self, name: &str) -> (r: Result<
        Option<GroupApply>,
        (ErrorCode, String),
    >)
        requires
            old(self).wf(),
        ensures
            final(self).wf(),
            r is Err <==> (old(self).db is None || !old(self).db->Some_0.group_name_exists(
                name@,
            )),
            r matches Err((c, m)) ==> c == (if old(self).db is None {
                ErrorCode::NotInitialized
            } else {
                ErrorCode::GroupNotFound
            }),
            r is Err ==> *final(self) == *old(self),
            r is Ok ==> final(self).status == old(self).status && final(self).last_error == old(
                self,
            ).last_error,
            r is Ok ==> (final(self).db matches Some(d) && ({
                let d0 = old(self).db->Some_0;
                let k = group_index_of(d0, name@);
                let gid = d0.spec_groups()[k].id;
                &&& d.wf()
                &&& d.spec_config() == d0.spec_config()
                &&& d.spec_clock() == d0.spec_clock()
                &&& d.spec_groups() == d0.spec_groups().remove(k)
                &&& d.spec_fw_rules() == d0.spec_fw_rules().filter(
                    |row: FirewallRuleRow| row.group_id != gid,
                )
                &&& d.spec_rt_rules() == d0.spec_rt_rules().filter(
                    |row: RoutingRuleRow| row.group_id != gid,
                )
                &&& !d.group_name_exists(name@)
            })),
            r matches Ok(opt) ==> ({
                let d0 = old(self).db->Some_0;
                let gid = d0.spec_groups()[group_index_of(d0, name@)].id;
                &&& (old(self).status is Started ==> (opt matches Some(p) && p.group_id == gid
                    && p.fw@ == fw_of_group(d0, gid) && p.rt@ == rt_of_group(d0, gid)))
                &&& (!(old(self).status is Started) ==> opt is None)
            }),
    {
        let started = match self.status {
            Status::Started => true,
            _ => false,
        };
        match &mut self.db {
            Some(d) => {
                let ghost d0 = *d;
                let g = match d.get_rule_group(name) {
                    Ok(g) => g,
                    Err(e) => {
                        return Err((ErrorCode::GroupNotFound, e));
                    },
                };
                let gid = g.id;
                proof {
                    let k = choose|k: int|
                        0 <= k < d0.spec_groups().len() && d0.spec_groups()[k] == g;
                    lemma_group_index_of(d0, name@, k);
                }
                let opt = if started {
                    let fw = match d.firewall_rules_for_group(gid) {
                        Ok(v) => v,
                        Err(_) => {
                            proof {
                                assert(false);
                            }
                            return Err((ErrorCode::DbQuery, String::from_str("query failed")));
                        },
                    };
                    let rt = match d.routing_rules_for_group(gid) {
                        Ok(v) => v,
                        Err(_) => {
                            proof {
                                assert(false);
                            }
                            return Err((ErrorCode::DbQuery, String::from_str("query failed")));
                        },
                    };
                    Some(GroupApply { group_id: gid, fw, rt })
                } else {
                    None
                };
                match d.delete_rule_group(name) {
                    Ok(()) => {},
                    Err(e) => {
                        proof {
                            assert(false);
                        }
                        return Err((ErrorCode::GroupNotFound, e));
                    },
                }
                proof {
                    let k = choose|k: int|
                        {
                            &&& 0 <= k < d0.spec_groups().len()
                            &&& (#[trigger] d0.spec_groups()[k]).name@ == name@
                            &&& d.spec_groups() == d0.spec_groups().remove(k)
                            &&& d.spec_fw_rules() == d0.spec_fw_rules().filter(
                                |row: FirewallRuleRow| row.group_id != d0.spec_groups()[k].id,
                            )
                            &&& d.spec_rt_rules() == d0.spec_rt_rules().filter(
                                |row: RoutingRuleRow| row.group_id != d0.spec_groups()[k].id,
                            )
                        };
                    lemma_group_index_of(d0, name@, k);
                    assert(gid == d0.spec_groups()[k].id);
                    assert forall|i: int|
                        0 <= i < d.spec_groups().len() implies (#[trigger] d.spec_groups()[
                        i
                    ]).name@ != name@ by {
                        let q: int = if i < k {
                            i
                        } else {
                            i + 1
                        };
                        assert(d.spec_groups()[i] == d0.spec_groups()[q]);
                        assert(d0.spec_groups()[q].name@ != d0.spec_groups()[k].name@);
                    }
                    if old(self).status is Initialized || old(self).status is Stopped {
                        broadcast use vstd::seq_lib::group_filter_ensures;

                        let fpred = |row: FirewallRuleRow| row.group_id != d0.spec_groups()[
                            k
                        ].id;
                        let rpred = |row: RoutingRuleRow| row.group_id != d0.spec_groups()[
                            k
                        ].id;
                        assert forall|i: int|
                            0 <= i < d.spec_fw_rules().len() implies !(
                            #[trigger] d.spec_fw_rules()[i]).applied && d.spec_fw_rules()[
                            i
                        ].nft_handle == 0 by {
                            assert(d0.spec_fw_rules().filter(fpred)[i] == d.spec_fw_rules()[i]);
                            lemma_filter_elem_contained(d0.spec_fw_rules(), fpred, i);
                            assert(d0.spec_fw_rules().contains(d.spec_fw_rules()[i]));
                            let j = choose|j: int|
                                0 <= j < d0.spec_fw_rules().len() && d0.spec_fw_rules()[j]
                                    == d.spec_fw_rules()[i];
                            assert(!d0.spec_fw_rules()[j].applied);
                        }
                        assert forall|i: int|
                            0 <= i < d.spec_rt_rules().len() implies !(
                            #[trigger] d.spec_rt_rules()[i]).applied by {
                            assert(d0.spec_rt_rules().filter(rpred)[i] == d.spec_rt_rules()[i]);
                            lemma_filter_elem_contained(d0.spec_rt_rules(), rpred, i);
                            assert(d0.spec_rt_rules().contains(d.spec_rt_rules()[i]));
                            let j = choose|j: int|
                                0 <= j < d0.spec_rt_rules().len() && d0.spec_rt_rules()[j]
                                    == d.spec_rt_rules()[i];
                            assert(!d0.spec_rt_rules()[j].applied);
                        }
                    }
                }
                Ok(opt)
            },
            None => Err((ErrorCode::NotInitialized, String::from_str("DB not open"))),
        }
    }

    /// Insert a filter rule under a named group, at the next position in
    /// that group. When the machine is started and the group is enabled,
    /// the stored row is handed back for immediate application. Fails
    /// exactly when no store is open, no group carries the name, the
    /// group's rule count no longer fits a position, or the id space is
    /// exhausted.
    pub fn add_rule(
        &mut self,
        group_name: &str,
        chain: &str,
        rule_type: &str,
        family: u8,
        proto: &str,
        dport: u16,
        source: &str,
        destination: &str,
        in_iface: &str,
        out_iface: &str,
        state_match: &str,
    ) -> (r: Result<(i64, Option<FirewallRuleRow>), (ErrorCode, String)>)
        requires
            old(self).wf(),
        ensures
            final(self).wf(),
            r is Err <==> (old(self).db is None || !old(self).db->Some_0.group_name_exists(
                group_name@,
            ) || fw_of_group(
                old(self).db->Some_0,
                old(self).db->Some_0.spec_groups()[group_index_of(
                    old(self).db->Some_0,
                    group_name@,
                )].id,
            ).len() > i32::MAX || !old(self).db->Some_0.can_assign_fw_id()),
            r is Err ==> *final(self) == *old(self),
            r is Ok ==> final(self).status == old(self).status && final(self).last_error == old(
                self,
            ).last_error,
            r matches Ok((id, opt)) ==> (final(self).db matches Some(d) && ({
                let d0 = old(self).db->Some_0;
                let gid = d0.spec_groups()[group_index_of(d0, group_name@)].id;
                let pos = fw_of_group(d0, gid).len() as i32;
                &&& d.wf()
                &&& fw_inserted(
                    d0,
                    d,
                    id,
                    gid,
                    chain@,
                    rule_type@,
                    family as i32,
                    proto@,
                    dport as i32,
                    0,
                    source@,
                    destination@,
                    in_iface@,
                    out_iface@,
                    state_match@,
                    ""@,
                    pos,
                )
                &&& d.spec_groups() == d0.spec_groups()
                &&& d.spec_rt_rules() == d0.spec_rt_rules()
                &&& d.spec_config() == d0.spec_config()
                &&& d.spec_clock() == d0.spec_clock()
                &&& ((old(self).status is Started && d0.spec_groups()[group_index_of(
                    d0,
                    group_name@,
                )].enabled) <==> opt is Some)
                &&& (opt matches Some(row) ==> fw_row_fields(
                    row,
                    id,
                    gid,
                    chain@,
                    rule_type@,
                    family as i32,
                    proto@,
                    dport as i32,
                    0,
                    source@,
                    destination@,
                    in_iface@,
                    out_iface@,
                    state_match@,
                    ""@,
                    pos,
                    d0.spec_clock(),
                ))
            })),
    {
        let started = match self.status {
            Status::Started => true,
            _ => false,
        };
        match &mut self.db {
            Some(d) => {
                let ghost d0 = *d;
                let g = match d.get_rule_group(group_name) {
                    Ok(g) => g,
                    Err(e) => {
                        return Err((ErrorCode::GroupNotFound, e));
                    },
                };
                let gid = g.id;
                proof {
                    let k = choose|k: int|
                        0 <= k < d0.spec_groups().len() && d0.spec_groups()[k] == g;
                    lemma_group_index_of(d0, group_name@, k);
                }
                let existing = match d.firewall_rules_for_group(gid) {
                    Ok(v) => v,
                    Err(_) => {
                        proof {
                            assert(false);
                        }
                        return Err((ErrorCode::DbQuery, String::from_str("query failed")));
                    },
                };
                if existing.len() > i32::MAX as usize {
                    return Err(
                        (ErrorCode::DbWrite, String::from_str("group has too many rules")),
                    );
                }
                let position = existing.len() as i32;
                let row = FirewallRuleRow {
                    id: 0,
                    group_id: gid,
                    chain: String::from_str(chain),
                    rule_type: String::from_str(rule_type),
                    family: family as i32,
                    proto: String::from_str(proto),
                    dport: dport as i32,
                    sport: 0,
                    source: String::from_str(source),
                    destination: String::from_str(destination),
                    in_iface: String::from_str(in_iface),
                    out_iface: String::from_str(out_iface),
                    state_match: String::from_str(state_match),
                    comment: String::from_str(""),
                    position,
                    applied: false,
                    nft_handle: 0,
                    created_at: 0,
                };
                let pass = row.clone();
                let ghost built = row;
                let clock = d.clock;
                let ghost next_id = d.next_fw_id;
                let id = match d.insert_fw_row(row) {
                    Ok(id) => id,
                    Err(e) => {
                        return Err((ErrorCode::DbWrite, e));
                    },
                };
                proof {
                    let stamped = fw_stamped(built, next_id, d0.spec_clock());
                    assert(fw_row_fields(
                        stamped,
                        id,
                        gid,
                        chain@,
                        rule_type@,
                        family as i32,
                        proto@,
                        dport as i32,
                        0,
                        source@,
                        destination@,
                        in_iface@,
                        out_iface@,
                        state_match@,
                        ""@,
                        position,
                        d0.spec_clock(),
                    ));
                    assert(fw_inserted(
                        d0,
                        *d,
                        id,
                        gid,
                        chain@,
                        rule_type@,
                        family as i32,
                        proto@,
                        dport as i32,
                        0,
                        source@,
                        destination@,
                        in_iface@,
                        out_iface@,
                        state_match@,
                        ""@,
                        position,
                    ));
                }
                let opt = if started && g.enabled {
                    let mut row2 = pass;
                    row2.id = id;
                    row2.created_at = clock;
                    proof {
                        assert(row2 == fw_stamped(built, next_id, d0.spec_clock()));
                    }
                    Some(row2)
                } else {
                    None
                };
                proof {
                    let k = group_index_of(d0, group_name@);
                    assert(d0.spec_groups()[k].enabled == g.enabled);
                }
                Ok((id, opt))
            },
            None => Err((ErrorCode::NotInitialized, String::from_str("DB not open"))),
        }
    }

    /// A stored filter rule with this id is applied with this captured
    /// handle on this chain: what its removal from the kernel needs.
    pub open spec fn fw_removal_info(
        db: FirewallDB,
        rule_id: i64,
        chain: Seq<char>,
        handle: i64,
    ) -> bool {
        exists|i: int|
            {
                &&& 0 <= i < db.spec_fw_rules().len()
                &&& (#[trigger] db.spec_fw_rules()[i]).id == rule_id
                &&& db.spec_fw_rules()[i].applied
                &&& db.spec_fw_rules()[i].nft_handle == handle
                &&& handle > 0
                &&& db.spec_fw_rules()[i].chain@ == chain
            }
    }

    /// Delete a filter rule by id. If the row was applied with a captured
    /// handle, the chain and handle are handed back so the shell can remove
    /// the rule from the kernel first. Fails exactly when no store is open.
    pub fn remove_rule(&mut self, rule_id: i64) -> (r: Result<
        Option<(String, i64)>,
        (ErrorCode, String),
    >)
        requires
            old(self).wf(),
        ensures
            final(self).wf(),
            r is Err <==> old(self).db is None,
            r is Err ==> *final(self) == *old(self),
            r is Ok ==> final(self).status == old(self).status && final(self).last_error == old(
                self,
            ).last_error,
            r is Ok ==> (final(self).db matches Some(d) && ({
                let d0 = old(self).db->Some_0;
                &&& d.wf()
                &&& d.spec_fw_rules() == d0.spec_fw_rules().filter(
                    |row: FirewallRuleRow| row.id != rule_id,
                )
                &&& d.spec_groups() == d0.spec_groups()
                &&& d.spec_rt_rules() == d0.spec_rt_rules()
                &&& d.spec_config() == d0.spec_config()
                &&& d.spec_clock() == d0.spec_clock()
            })),
            r matches Ok(opt) ==> ({
                let d0 = old(self).db->Some_0;
                &&& (opt matches Some((chain, handle)) ==> Self::fw_removal_info(
                    d0,
                    rule_id,
                    chain@,
                    handle,
                ))
                &&& (opt is None ==> forall|i: int|
                    0 <= i < d0.spec_fw_rules().len() && (#[trigger] d0.spec_fw_rules()[i]).id
                        == rule_id ==> !(d0.spec_fw_rules()[i].applied
                        && d0.spec_fw_rules()[i].nft_handle > 0))
            }),
    {
        match &mut self.db {
            Some(d) => {
                let ghost d0 = *d;
                let rules = match d.all_firewall_rules() {
                    Ok(v) => v,
                    Err(_) => {
                        proof {
                            assert(false);
                        }
                        return Err((ErrorCode::DbQuery, String::from_str("query failed")));
                    },
                };
                let mut opt: Option<(String, i64)> = None;
                let mut i: usize = 0;
                while i < rules.len()
                    invariant
                        0 <= i <= rules@.len(),
                        rules@ == d0.spec_fw_rules(),
                        match opt {
                            Some((chain, handle)) => Self::fw_removal_info(
                                d0,
                                rule_id,
                                chain@,
                                handle,
                            ),
                            None => forall|k: int|
                                0 <= k < i && (#[trigger] rules@[k]).id == rule_id ==> !(
                                rules@[k].applied && rules@[k].nft_handle > 0),
                        },
                    decreases rules@.len() - i,
                {
                    if rules[i].id == rule_id && rules[i].applied && rules[i].nft_handle > 0 {
                        opt = Some((rules[i].chain.clone(), rules[i].nft_handle));
                    }
                    i = i + 1;
                }
                match d.delete_firewall_rule(rule_id) {
                    Ok(()) => {},
                    Err(_) => {
                        proof {
                            assert(false);
                        }
                        return Err((ErrorCode::DbWrite, String::from_str("delete failed")));
                    },
                }
                proof {
                    if old(self).status is Initialized || old(self).status is Stopped {
                        let pred = |row: FirewallRuleRow| row.id != rule_id;
                        assert forall|q: int|
                            0 <= q < d.spec_fw_rules().len() implies !(
                            #[trigger] d.spec_fw_rules()[q]).applied && d.spec_fw_rules()[
                            q
                        ].nft_handle == 0 by {
                            assert(d0.spec_fw_rules().filter(pred)[q] == d.spec_fw_rules()[q]);
                            lemma_filter_elem_contained(d0.spec_fw_rules(), pred, q);
                            let j = choose|j: int|
                                0 <= j < d0.spec_fw_rules().len() && d0.spec_fw_rules()[j]
                                    == d.spec_fw_rules()[q];
                            assert(!d0.spec_fw_rules()[j].applied);
                        }
                    }
                }
                Ok(opt)
            },
            None => Err((ErrorCode::NotInitialized, String::from_str("DB not open"))),
        }
    }

    /// Insert a routing rule under a named group. When the machine is
    /// started and the group is enabled, the stored row is handed back for
    /// immediate application. Fails exactly when no store is open, no group
    /// carries the name, or the id space is exhausted.
    pub fn rt_add_rule(
        &mut self,
        group_name: &str,
        rule_type: &str,
        from_network: &str,
        to_network: &str,
        table_name: &str,
        table_id: u32,
        priority: u32,
        destination: &str,
        device: &str,
        fwmark: u32,
    ) -> (r: Result<(i64, Option<RoutingRuleRow>), (ErrorCode, String)>)
        requires
            old(self).wf(),
        ensures
            final(self).wf(),
            r is Err <==> (old(self).db is None || !old(self).db->Some_0.group_name_exists(
                group_name@,
            ) || !old(self).db->Some_0.can_assign_rt_id()),
            r is Err ==> *final(self) == *old(self),
            r is Ok ==> final(self).status == old(self).status && final(self).last_error == old(
                self,
            ).last_error,
            r matches Ok((id, opt)) ==> (final(self).db matches Some(d) && ({
                let d0 = old(self).db->Some_0;
                let gid = d0.spec_groups()[group_index_of(d0, group_name@)].id;
                &&& d.wf()
                &&& rt_inserted(
                    d0,
                    d,
                    id,
                    gid,
                    rule_type@,
                    from_network@,
                    to_network@,
                    table_name@,
                    table_id as i32,
                    priority as i32,
                    destination@,
                    device@,
                    fwmark as i32,
                )
                &&& d.spec_groups() == d0.spec_groups()
                &&& d.spec_fw_rules() == d0.spec_fw_rules()
                &&& d.spec_config() == d0.spec_config()
                &&& d.spec_clock() == d0.spec_clock()
                &&& ((old(self).status is Started && d0.spec_groups()[group_index_of(
                    d0,
                    group_name@,
                )].enabled) <==> opt is Some)
                &&& (opt matches Some(row) ==> rt_row_fields(
                    row,
                    id,
                    gid,
                    rule_type@,
                    from_network@,
                    to_network@,
                    table_name@,
                    table_id as i32,
                    priority as i32,
                    destination@,
                    device@,
                    fwmark as i32,
                    d0.spec_clock(),
                ))
            })),
    {
        let started = match self.status {
            Status::Started => true,
            _ => false,
        };
        match &mut self.db {
            Some(d) => {
                let ghost d0 = *d;
                let g = match d.get_rule_group(group_name) {
                    Ok(g) => g,
                    Err(e) => {
                        return Err((ErrorCode::GroupNotFound, e));
                    },
                };
                let gid = g.id;
                proof {
                    let k = choose|k: int|
                        0 <= k < d0.spec_groups().len() && d0.spec_groups()[k] == g;
                    lemma_group_index_of(d0, group_name@, k);
                }
                let row = RoutingRuleRow {
                    id: 0,
                    group_id: gid,
                    rule_type: String::from_str(rule_type),
                    from_network: String::from_str(from_network),
                    to_network: String::from_str(to_network),
                    table_name: String::from_str(table_name),
                    table_id: table_id as i32,
                    priority: priority as i32,
                    destination: String::from_str(destination),
                    device: String::from_str(device),
                    fwmark: fwmark as i32,
                    applied: false,
                    created_at: 0,
                };
                let pass = row.clone();
                let ghost built = row;
                let clock = d.clock;
                let ghost next_id = d.next_rt_id;
                let id = match d.insert_rt_row(row) {
                    Ok(id) => id,
                    Err(e) => {
                        return Err((ErrorCode::DbWrite, e));
                    },
                };
                proof {
                    let stamped = rt_stamped(built, next_id, d0.spec_clock());
                    assert(rt_row_fields(
                        stamped,
                        id,
                        gid,
                        rule_type@,
                        from_network@,
                        to_network@,
                        table_name@,
                        table_id as i32,
                        priority as i32,
                        destination@,
                        device@,
                        fwmark as i32,
                        d0.spec_clock(),
                    ));
                    assert(rt_inserted(
                        d0,
                        *d,
                        id,
                        gid,
                        rule_type@,
                        from_network@,
                        to_network@,
                        table_name@,
                        table_id as i32,
                        priority as i32,
                        destination@,
                        device@,
                        fwmark as i32,
                    ));
                }
                let opt = if started && g.enabled {
                    let mut row2 = pass;
                    row2.id = id;
                    row2.created_at = clock;
                    proof {
                        assert(row2 == rt_stamped(built, next_id, d0.spec_clock()));
                    }
                    Some(row2)
                } else {
                    None
                };
                proof {
                    let k = group_index_of(d0, group_name@);
                    assert(d0.spec_groups()[k].enabled == g.enabled);
                }
                Ok((id, opt))
            },
            None => Err((ErrorCode::NotInitialized, String::from_str("DB not open"))),
        }
    }

    /// A stored routing rule with this id is applied: what its structural
    /// removal from the kernel needs is the row itself.
    pub open spec fn rt_removal_info(db: FirewallDB, rule_id: i64, row: RoutingRuleRow) -> bool {
        exists|i: int|
            {
                &&& 0 <= i < db.spec_rt_rules().len()
                &&& #[trigger] db.spec_rt_rules()[i] == row
                &&& row.id == rule_id
                &&& row.applied
            }
    }

    /// Delete a routing rule by id. If the row was applied, it is handed
    /// back so the shell can remove it from the kernel structurally. Fails
    /// exactly when no store is open.
    pub fn rt_remove_rule(&mut self, rule_id: i64) -> (r: Result<
        Option<RoutingRuleRow>,
        (ErrorCode, String),
    >)
        requires
            old(self).wf(),
        ensures
            final(self).wf(),
            r is Err <==> old(self).db is None,
            r is Err ==> *final(self) == *old(self),
            r is Ok ==> final(self).status == old(self).status && final(self).last_error == old(
                self,
            ).last_error,
            r is Ok ==> (final(self).db matches Some(d) && ({
                let d0 = old(self).db->Some_0;
                &&& d.wf()
                &&& d.spec_rt_rules() == d0.spec_rt_rules().filter(
                    |row: RoutingRuleRow| row.id != rule_id,
                )
                &&& d.spec_groups() == d0.spec_groups()
                &&& d.spec_fw_rules() == d0.spec_fw_rules()
                &&& d.spec_config() == d0.spec_config()
                &&& d.spec_clock() == d0.spec_clock()
            })),
            r matches Ok(opt) ==> ({
                let d0 = old(self).db->Some_0;
                &&& (opt matches Some(row) ==> Self::rt_removal_info(d0, rule_id, row))
                &&& (opt is None ==> forall|i: int|
                    0 <= i < d0.spec_rt_rules().len() && (#[trigger] d0.spec_rt_rules()[i]).id
                        == rule_id ==> !d0.spec_rt_rules()[i].applied)
            }),
    {
        match &mut self.db {
            Some(d) => {
                let ghost d0 = *d;
                let rules = match d.applied_routing_rules() {
                    Ok(v) => v,
                    Err(_) => {
                        proof {
                            assert(false);
                        }
                        return Err((ErrorCode::DbQuery, String::from_str("query failed")));
                    },
                };
                let mut opt: Option<RoutingRuleRow> = None;
                let mut i: usize = 0;
                while i < rules.len()
                    invariant
                        0 <= i <= rules@.len(),
                        rules@ == applied_rt_of(d0),
                        match opt {
                            Some(row) => Self::rt_removal_info(d0, rule_id, row),
                            None => forall|k: int|
                                0 <= k < i ==> (#[trigger] rules@[k]).id != rule_id,
                        },
                    decreases rules@.len() - i,
                {
                    if rules[i].id == rule_id {
                        let row = rules[i].clone();
                        proof {
                            let pred = |row: RoutingRuleRow| row.applied;
                            assert(d0.spec_rt_rules().filter(pred)[i as int] == row);
                            lemma_filter_elem_contained(d0.spec_rt_rules(), pred, i as int);
                            let j = choose|j: int|
                                0 <= j < d0.spec_rt_rules().len() && d0.spec_rt_rules()[j]
                                    == row;
                            assert(Self::rt_removal_info(d0, rule_id, row));
                        }
                        opt = Some(row);
                    }
                    i = i + 1;
                }
                proof {
                    if opt is None {
                        assert forall|i2: int|
                            0 <= i2 < d0.spec_rt_rules().len() && (
                            #[trigger] d0.spec_rt_rules()[i2]).id == rule_id implies !d0
                            .spec_rt_rules()[i2].applied by {
                            if d0.spec_rt_rules()[i2].applied {
                                let pred = |row: RoutingRuleRow| row.applied;
                                broadcast use vstd::seq_lib::group_filter_ensures;

                                assert(applied_rt_of(d0).contains(d0.spec_rt_rules()[i2]));
                                let q = choose|q: int|
                                    0 <= q < applied_rt_of(d0).len() && applied_rt_of(d0)[q]
                                        == d0.spec_rt_rules()[i2];
                                assert(rules@[q].id == rule_id);
                                assert(false);
                            }
                        }
                    }
                }
                match d.delete_routing_rule(rule_id) {
                    Ok(()) => {},
                    Err(_) => {
                        proof {
                            assert(false);
                        }
                        return Err((ErrorCode::DbWrite, String::from_str("delete failed")));
                    },
                }
                proof {
                    if old(self).status is Initialized || old(self).status is Stopped {
                        let pred = |row: RoutingRuleRow| row.id != rule_id;
                        assert forall|q: int|
                            0 <= q < d.spec_rt_rules().len() implies !(
                            #[trigger] d.spec_rt_rules()[q]).applied by {
                            assert(d0.spec_rt_rules().filter(pred)[q] == d.spec_rt_rules()[q]);
                            lemma_filter_elem_contained(d0.spec_rt_rules(), pred, q);
                            let j = choose|j: int|
                                0 <= j < d0.spec_rt_rules().len() && d0.spec_rt_rules()[j]
                                    == d.spec_rt_rules()[q];
                            assert(!d0.spec_rt_rules()[j].applied);
                        }
                    }
                }
                Ok(opt)
            },
            None => Err((ErrorCode::NotInitialized, String::from_str("DB not open"))),
        }
    }
}

} // verus!
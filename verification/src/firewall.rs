//! The server's netfilter rules as data: masquerade for the tunnel subnet
//! and the two forward rules for the TUN interface. The planner emits a
//! cleanup pass before the install pass, and that combination is proved
//! idempotent: however often the server is started over a chain that held
//! at most one copy of each rule, exactly one copy of each remains.

use vstd::prelude::*;

verus! {

/// What the server needs to know to plan its rules.
pub struct NatConfig {
    /// The tunnel subnet, in CIDR notation, whose sources are masqueraded.
    pub subnet_cidr: String,
    /// The interface the masqueraded traffic leaves through.
    pub out_iface: String,
    /// The server's TUN interface.
    pub tun_name: String,
}

/// One netfilter rule the server manages.
pub enum NatRule {
    /// `nat POSTROUTING -s <subnet> -o <iface> -j MASQUERADE`
    Masquerade { subnet: String, out_iface: String },
    /// `FORWARD -i <tun> -j ACCEPT`
    ForwardIn { tun: String },
    /// `FORWARD -o <tun> -j ACCEPT`
    ForwardOut { tun: String },
}

/// The mathematical value of a rule.
pub enum RuleView {
    Masquerade { subnet: Seq<char>, out_iface: Seq<char> },
    ForwardIn { tun: Seq<char> },
    ForwardOut { tun: Seq<char> },
}

impl View for NatRule {
    type V = RuleView;

    open spec fn view(&self) -> RuleView {
        match self {
            NatRule::Masquerade { subnet, out_iface } => RuleView::Masquerade {
                subnet: subnet@,
                out_iface: out_iface@,
            },
            NatRule::ForwardIn { tun } => RuleView::ForwardIn { tun: tun@ },
            NatRule::ForwardOut { tun } => RuleView::ForwardOut { tun: tun@ },
        }
    }
}

/// One step of a plan: append a rule to its chain, or delete its first
/// occurrence, as `iptables -A` and `iptables -D` do.
pub enum RuleOp {
    Install(NatRule),
    Remove(NatRule),
}

pub enum OpView {
    Install(RuleView),
    Remove(RuleView),
}

impl View for RuleOp {
    type V = OpView;

    open spec fn view(&self) -> OpView {
        match self {
            RuleOp::Install(r) => OpView::Install(r@),
            RuleOp::Remove(r) => OpView::Remove(r@),
        }
    }
}

/// How many copies of `r` a chain state holds.
pub open spec fn count_rule(s: Seq<RuleView>, r: RuleView) -> nat
    decreases s.len(),
{
    if s.len() == 0 {
        0
    } else {
        ((if s.first() == r {
            1nat
        } else {
            0nat
        }) + count_rule(s.drop_first(), r)) as nat
    }
}

/// What `iptables -D` does: the first occurrence of `r` goes, or nothing.
pub open spec fn delete_first(s: Seq<RuleView>, r: RuleView) -> Seq<RuleView>
    decreases s.len(),
{
    if s.len() == 0 {
        s
    } else if s.first() == r {
        s.drop_first()
    } else {
        seq![s.first()] + delete_first(s.drop_first(), r)
    }
}

pub open spec fn apply_op(s: Seq<RuleView>, op: OpView) -> Seq<RuleView> {
    match op {
        OpView::Install(r) => s.push(r),
        OpView::Remove(r) => delete_first(s, r),
    }
}

pub open spec fn apply_ops(s: Seq<RuleView>, ops: Seq<OpView>) -> Seq<RuleView>
    decreases ops.len(),
{
    if ops.len() == 0 {
        s
    } else {
        apply_ops(apply_op(s, ops.first()), ops.drop_first())
    }
}

pub proof fn lemma_count_push(s: Seq<RuleView>, x: RuleView, r: RuleView)
    ensures
        count_rule(s.push(x), r) == count_rule(s, r) + (if x == r {
            1nat
        } else {
            0nat
        }),
    decreases s.len(),
{
    if s.len() == 0 {
        let e = Seq::<RuleView>::empty();
        assert(s.push(x).drop_first() =~= e);
        assert(s.push(x).first() == x);
        assert(count_rule(e, r) == 0);
        assert(count_rule(s.push(x), r) == (if x == r {
            1nat
        } else {
            0nat
        }) + count_rule(e, r));
    } else {
        assert(s.push(x).drop_first() =~= s.drop_first().push(x));
        assert(s.push(x).first() == s.first());
        lemma_count_push(s.drop_first(), x, r);
        assert(count_rule(s.push(x), r) == (if s.first() == r {
            1nat
        } else {
            0nat
        }) + count_rule(s.drop_first().push(x), r));
    }
}

pub proof fn lemma_count_delete(s: Seq<RuleView>, x: RuleView, r: RuleView)
    ensures
        count_rule(delete_first(s, x), r) == (if x == r && count_rule(s, r) > 0 {
            (count_rule(s, r) - 1) as nat
        } else {
            count_rule(s, r)
        }),
    decreases s.len(),
{
    if s.len() == 0 {
    } else if s.first() == x {
    } else {
        lemma_count_delete(s.drop_first(), x, r);
        let t = seq![s.first()] + delete_first(s.drop_first(), x);
        assert(t.first() == s.first());
        assert(t.drop_first() =~= delete_first(s.drop_first(), x));
    }
}

/// The three rules the server owns, as values.
pub open spec fn spec_rules(subnet: Seq<char>, oif: Seq<char>, tun: Seq<char>) -> Seq<RuleView> {
    seq![
        RuleView::Masquerade { subnet, out_iface: oif },
        RuleView::ForwardIn { tun },
        RuleView::ForwardOut { tun },
    ]
}

/// The cleanup pass: delete each owned rule once, as the signal handler
/// does on shutdown.
pub open spec fn spec_cleanup_plan(subnet: Seq<char>, oif: Seq<char>, tun: Seq<char>) -> Seq<
    OpView,
> {
    seq![
        OpView::Remove(RuleView::Masquerade { subnet, out_iface: oif }),
        OpView::Remove(RuleView::ForwardIn { tun }),
        OpView::Remove(RuleView::ForwardOut { tun }),
    ]
}

/// The startup plan: a cleanup pass, then one append of each owned rule.
pub open spec fn spec_setup_plan(subnet: Seq<char>, oif: Seq<char>, tun: Seq<char>) -> Seq<
    OpView,
> {
    spec_cleanup_plan(subnet, oif, tun) + seq![
        OpView::Install(RuleView::Masquerade { subnet, out_iface: oif }),
        OpView::Install(RuleView::ForwardIn { tun }),
        OpView::Install(RuleView::ForwardOut { tun }),
    ]
}

/// After one run of the startup plan over a chain that held at most one
/// copy of each owned rule, the chain holds exactly one copy of each, and
/// every foreign rule kept its count.
pub proof fn lemma_setup_plan_counts(
    s0: Seq<RuleView>,
    subnet: Seq<char>,
    oif: Seq<char>,
    tun: Seq<char>,
)
    requires
        forall|r: RuleView| spec_rules(subnet, oif, tun).contains(r) ==> count_rule(s0, r) <= 1,
    ensures
        forall|r: RuleView|
            spec_rules(subnet, oif, tun).contains(r) ==> count_rule(
                #[trigger] apply_ops(s0, spec_setup_plan(subnet, oif, tun)),
                r,
            ) == 1,
        forall|r: RuleView|
            !spec_rules(subnet, oif, tun).contains(r) ==> #[trigger] count_rule(
                apply_ops(s0, spec_setup_plan(subnet, oif, tun)),
                r,
            ) == count_rule(s0, r),
{
    let m = RuleView::Masquerade { subnet, out_iface: oif };
    let fi = RuleView::ForwardIn { tun };
    let fo = RuleView::ForwardOut { tun };
    let rules = spec_rules(subnet, oif, tun);
    assert(rules.contains(m) && rules.contains(fi) && rules.contains(fo)) by {
        assert(rules[0] == m && rules[1] == fi && rules[2] == fo);
    }
    let plan = spec_setup_plan(subnet, oif, tun);
    let s1 = delete_first(s0, m);
    let s2 = delete_first(s1, fi);
    let s3 = delete_first(s2, fo);
    let s4 = s3.push(m);
    let s5 = s4.push(fi);
    let s6 = s5.push(fo);
    assert(plan.len() == 6);
    let p1 = plan.drop_first();
    let p2 = p1.drop_first();
    let p3 = p2.drop_first();
    let p4 = p3.drop_first();
    let p5 = p4.drop_first();
    let p6 = p5.drop_first();
    assert(apply_ops(s0, plan) == s6) by {
        assert(plan.first() == OpView::Remove(m));
        assert(p1.first() == OpView::Remove(fi));
        assert(p2.first() == OpView::Remove(fo));
        assert(p3.first() == OpView::Install(m));
        assert(p4.first() == OpView::Install(fi));
        assert(p5.first() == OpView::Install(fo));
        assert(p6 =~= Seq::<OpView>::empty());
        assert(apply_ops(s0, plan) == apply_ops(s1, p1));
        assert(apply_ops(s1, p1) == apply_ops(s2, p2));
        assert(apply_ops(s2, p2) == apply_ops(s3, p3));
        assert(apply_ops(s3, p3) == apply_ops(s4, p4));
        assert(apply_ops(s4, p4) == apply_ops(s5, p5));
        assert(apply_ops(s5, p5) == apply_ops(s6, p6));
        assert(apply_ops(s6, p6) == s6);
    }
    assert forall|r: RuleView| true implies count_rule(s6, r) == (if rules.contains(r) {
        1nat
    } else {
        count_rule(s0, r)
    }) by {
        lemma_count_delete(s0, m, r);
        lemma_count_delete(s1, fi, r);
        lemma_count_delete(s2, fo, r);
        lemma_count_push(s3, m, r);
        lemma_count_push(s4, fi, r);
        lemma_count_push(s5, fo, r);
        if rules.contains(r) {
            assert(r == m || r == fi || r == fo) by {
                assert(rules.len() == 3);
                let j = choose|j: int| 0 <= j < rules.len() && rules[j] == r;
                assert(j == 0 || j == 1 || j == 2);
            }
        }
    }
}

/// Idempotence of server startup: running the startup plan twice over a
/// chain that held at most one copy of each owned rule leaves exactly one
/// copy of each owned rule, never two.
pub proof fn lemma_setup_plan_idempotent(
    s0: Seq<RuleView>,
    subnet: Seq<char>,
    oif: Seq<char>,
    tun: Seq<char>,
)
    requires
        forall|r: RuleView| spec_rules(subnet, oif, tun).contains(r) ==> count_rule(s0, r) <= 1,
    ensures
        forall|r: RuleView|
            spec_rules(subnet, oif, tun).contains(r) ==> count_rule(
                #[trigger] apply_ops(
                    apply_ops(s0, spec_setup_plan(subnet, oif, tun)),
                    spec_setup_plan(subnet, oif, tun),
                ),
                r,
            ) == 1,
{
    let s1 = apply_ops(s0, spec_setup_plan(subnet, oif, tun));
    lemma_setup_plan_counts(s0, subnet, oif, tun);
    lemma_setup_plan_counts(s1, subnet, oif, tun);
}

/// The startup plan for a configuration: cleanup, then install.
pub fn setup_plan(cfg: &NatConfig) -> (v: Vec<RuleOp>)
    ensures
        v@.map_values(|op: RuleOp| op@) == spec_setup_plan(
            cfg.subnet_cidr@,
            cfg.out_iface@,
            cfg.tun_name@,
        ),
{
    let mut v: Vec<RuleOp> = Vec::new();
    v.push(
        RuleOp::Remove(
            NatRule::Masquerade {
                subnet: clone_string(&cfg.subnet_cidr),
                out_iface: clone_string(&cfg.out_iface),
            },
        ),
    );
    v.push(RuleOp::Remove(NatRule::ForwardIn { tun: clone_string(&cfg.tun_name) }));
    v.push(RuleOp::Remove(NatRule::ForwardOut { tun: clone_string(&cfg.tun_name) }));
    v.push(
        RuleOp::Install(
            NatRule::Masquerade {
                subnet: clone_string(&cfg.subnet_cidr),
                out_iface: clone_string(&cfg.out_iface),
            },
        ),
    );
    v.push(RuleOp::Install(NatRule::ForwardIn { tun: clone_string(&cfg.tun_name) }));
    v.push(RuleOp::Install(NatRule::ForwardOut { tun: clone_string(&cfg.tun_name) }));
    proof {
        assert(v@.map_values(|op: RuleOp| op@) =~= spec_setup_plan(
            cfg.subnet_cidr@,
            cfg.out_iface@,
            cfg.tun_name@,
        ));
    }
    v
}

/// The shutdown plan for a configuration: delete each owned rule once.
pub fn cleanup_plan(cfg: &NatConfig) -> (v: Vec<RuleOp>)
    ensures
        v@.map_values(|op: RuleOp| op@) == spec_cleanup_plan(
            cfg.subnet_cidr@,
            cfg.out_iface@,
            cfg.tun_name@,
        ),
{
    let mut v: Vec<RuleOp> = Vec::new();
    v.push(
        RuleOp::Remove(
            NatRule::Masquerade {
                subnet: clone_string(&cfg.subnet_cidr),
                out_iface: clone_string(&cfg.out_iface),
            },
        ),
    );
    v.push(RuleOp::Remove(NatRule::ForwardIn { tun: clone_string(&cfg.tun_name) }));
    v.push(RuleOp::Remove(NatRule::ForwardOut { tun: clone_string(&cfg.tun_name) }));
    proof {
        assert(v@.map_values(|op: RuleOp| op@) =~= spec_cleanup_plan(
            cfg.subnet_cidr@,
            cfg.out_iface@,
            cfg.tun_name@,
        ));
    }
    v
}

/// The argument list of the idempotent route installation:
/// `ip route replace <subnet> dev <tun>`.
pub fn route_replace_args(cfg: &NatConfig) -> (v: Vec<String>)
    ensures
        v@.map_values(|s: String| s@) == seq![
            "route"@,
            "replace"@,
            cfg.subnet_cidr@,
            "dev"@,
            cfg.tun_name@,
        ],
{
    let mut v: Vec<String> = Vec::new();
    v.push("route".to_owned());
    v.push("replace".to_owned());
    v.push(clone_string(&cfg.subnet_cidr));
    v.push("dev".to_owned());
    v.push(clone_string(&cfg.tun_name));
    proof {
        assert(v@.map_values(|s: String| s@) =~= seq![
            "route"@,
            "replace"@,
            cfg.subnet_cidr@,
            "dev"@,
            cfg.tun_name@,
        ]);
    }
    v
}

fn clone_string(s: &String) -> (r: String)
    ensures
        r@ == s@,
{
    s.clone()
}

/// The argument list `iptables` is invoked with for one plan step.
pub fn op_args(op: &RuleOp) -> (v: Vec<String>)
    ensures
        match op {
            RuleOp::Install(r) => v@.map_values(|s: String| s@) == spec_rule_args(r@, false),
            RuleOp::Remove(r) => v@.map_values(|s: String| s@) == spec_rule_args(r@, true),
        },
{
    let (rule, del) = match op {
        RuleOp::Install(r) => (r, false),
        RuleOp::Remove(r) => (r, true),
    };
    let flag = if del {
        "-D"
    } else {
        "-A"
    };
    let mut v: Vec<String> = Vec::new();
    match rule {
        NatRule::Masquerade { subnet, out_iface } => {
            v.push("-t".to_owned());
            v.push("nat".to_owned());
            v.push(flag.to_owned());
            v.push("POSTROUTING".to_owned());
            v.push("-s".to_owned());
            v.push(clone_string(subnet));
            v.push("-o".to_owned());
            v.push(clone_string(out_iface));
            v.push("-j".to_owned());
            v.push("MASQUERADE".to_owned());
            proof {
                assert(v@.map_values(|s: String| s@) =~= spec_rule_args(rule@, del));
            }
        },
        NatRule::ForwardIn { tun } => {
            v.push(flag.to_owned());
            v.push("FORWARD".to_owned());
            v.push("-i".to_owned());
            v.push(clone_string(tun));
            v.push("-j".to_owned());
            v.push("ACCEPT".to_owned());
            proof {
                assert(v@.map_values(|s: String| s@) =~= spec_rule_args(rule@, del));
            }
        },
        NatRule::ForwardOut { tun } => {
            v.push(flag.to_owned());
            v.push("FORWARD".to_owned());
            v.push("-o".to_owned());
            v.push(clone_string(tun));
            v.push("-j".to_owned());
            v.push("ACCEPT".to_owned());
            proof {
                assert(v@.map_values(|s: String| s@) =~= spec_rule_args(rule@, del));
            }
        },
    }
    v
}

/// The exact `iptables` argument list for a rule: `-A` appends it, `-D`
/// deletes it.
pub open spec fn spec_rule_args(r: RuleView, delete: bool) -> Seq<Seq<char>> {
    let flag = if delete {
        "-D"@
    } else {
        "-A"@
    };
    match r {
        RuleView::Masquerade { subnet, out_iface } => seq![
            "-t"@,
            "nat"@,
            flag,
            "POSTROUTING"@,
            "-s"@,
            subnet,
            "-o"@,
            out_iface,
            "-j"@,
            "MASQUERADE"@,
        ],
        RuleView::ForwardIn { tun } => seq![flag, "FORWARD"@, "-i"@, tun, "-j"@, "ACCEPT"@],
        RuleView::ForwardOut { tun } => seq![flag, "FORWARD"@, "-o"@, tun, "-j"@, "ACCEPT"@],
    }
}

} // verus!

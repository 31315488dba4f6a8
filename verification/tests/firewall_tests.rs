use wirecage::firewall::{cleanup_plan, op_args, route_replace_args, setup_plan, NatConfig, NatRule, RuleOp};

fn cfg() -> NatConfig {
    NatConfig {
        subnet_cidr: "10.200.100.0/24".to_string(),
        out_iface: "eth0".to_string(),
        tun_name: "wg-srv".to_string(),
    }
}

fn args_of(op: &RuleOp) -> Vec<String> {
    op_args(op)
}

/// A toy chain with iptables semantics: `-A` appends, `-D` removes the
/// first matching rule.
fn apply(state: &mut Vec<Vec<String>>, plan: &[RuleOp]) {
    for op in plan {
        let argv = args_of(op);
        let is_delete = argv.contains(&"-D".to_string());
        let normalized: Vec<String> = argv
            .iter()
            .map(|a| if a == "-A" || a == "-D" { "#".to_string() } else { a.clone() })
            .collect();
        if is_delete {
            if let Some(pos) = state.iter().position(|r| r == &normalized) {
                state.remove(pos);
            }
        } else {
            state.push(normalized);
        }
    }
}

#[test]
fn setup_plan_is_cleanup_then_install() {
    let plan = setup_plan(&cfg());
    assert_eq!(plan.len(), 6);
    for (i, op) in plan.iter().enumerate() {
        match op {
            RuleOp::Remove(_) => assert!(i < 3),
            RuleOp::Install(_) => assert!(i >= 3),
        }
    }
    let clean = cleanup_plan(&cfg());
    assert_eq!(clean.len(), 3);
    assert!(clean.iter().all(|op| matches!(op, RuleOp::Remove(_))));
}

#[test]
fn masquerade_args_exact() {
    let op = RuleOp::Install(NatRule::Masquerade {
        subnet: "10.200.100.0/24".to_string(),
        out_iface: "eth0".to_string(),
    });
    assert_eq!(
        op_args(&op),
        vec![
            "-t", "nat", "-A", "POSTROUTING", "-s", "10.200.100.0/24", "-o", "eth0", "-j",
            "MASQUERADE"
        ]
        .into_iter()
        .map(String::from)
        .collect::<Vec<_>>()
    );
}

#[test]
fn forward_args_exact() {
    let op = RuleOp::Remove(NatRule::ForwardIn { tun: "wg-srv".to_string() });
    assert_eq!(
        op_args(&op),
        vec!["-D", "FORWARD", "-i", "wg-srv", "-j", "ACCEPT"]
            .into_iter()
            .map(String::from)
            .collect::<Vec<_>>()
    );
    let op = RuleOp::Install(NatRule::ForwardOut { tun: "wg-srv".to_string() });
    assert_eq!(
        op_args(&op),
        vec!["-A", "FORWARD", "-o", "wg-srv", "-j", "ACCEPT"]
            .into_iter()
            .map(String::from)
            .collect::<Vec<_>>()
    );
}

#[test]
fn running_the_setup_plan_twice_leaves_one_copy_of_each_rule() {
    let plan = setup_plan(&cfg());
    let mut chain: Vec<Vec<String>> = Vec::new();
    apply(&mut chain, &plan);
    let after_one = chain.clone();
    apply(&mut chain, &plan);
    assert_eq!(chain.len(), 3);
    assert_eq!(after_one.len(), 3);
    for rule in &after_one {
        assert_eq!(chain.iter().filter(|r| r == &rule).count(), 1);
    }
}

#[test]
fn foreign_rules_survive_the_setup_plan() {
    let plan = setup_plan(&cfg());
    let foreign = vec!["#".to_string(), "INPUT".to_string(), "-j".to_string(), "DROP".to_string()];
    let mut chain = vec![foreign.clone()];
    apply(&mut chain, &plan);
    apply(&mut chain, &plan);
    assert_eq!(chain.iter().filter(|r| r == &&foreign).count(), 1);
}

#[test]
fn route_replace_args_exact() {
    assert_eq!(
        route_replace_args(&cfg()),
        vec!["route", "replace", "10.200.100.0/24", "dev", "wg-srv"]
            .into_iter()
            .map(String::from)
            .collect::<Vec<_>>()
    );
}

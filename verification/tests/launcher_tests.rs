use wirecage::launcher::{exit_code_for, id_map_line, proc_path, setgroups_content, Stage, WaitOutcome};
use wirecage::overlay::{overlay_opts, resolv_conf_contents};
use wirecage::text::parse_ipv4;

#[test]
fn exit_propagates_the_child_code() {
    assert_eq!(exit_code_for(WaitOutcome::Exited(7)), 7);
    assert_eq!(exit_code_for(WaitOutcome::Exited(0)), 0);
}

#[test]
fn signal_becomes_one_twenty_eight_plus_signo() {
    assert_eq!(exit_code_for(WaitOutcome::Signaled(15)), 143);
    assert_eq!(exit_code_for(WaitOutcome::Signaled(9)), 137);
}

#[test]
fn unknown_wait_status_is_one() {
    assert_eq!(exit_code_for(WaitOutcome::Other), 1);
}

#[test]
fn stage_marker_reads_two_only() {
    assert_eq!(Stage::from_marker(Some("2")), Stage::Two);
    assert_eq!(Stage::from_marker(Some("1")), Stage::One);
    assert_eq!(Stage::from_marker(Some("22")), Stage::One);
    assert_eq!(Stage::from_marker(Some("")), Stage::One);
    assert_eq!(Stage::from_marker(None), Stage::One);
}

#[test]
fn id_map_maps_root_to_the_caller() {
    assert_eq!(id_map_line(1000), b"0 1000 1".to_vec());
    assert_eq!(id_map_line(0), b"0 0 1".to_vec());
}

#[test]
fn setgroups_is_denied() {
    assert_eq!(setgroups_content(), b"deny".to_vec());
}

#[test]
fn proc_paths_are_exact() {
    assert_eq!(proc_path(4321, b"uid_map"), b"/proc/4321/uid_map".to_vec());
    assert_eq!(proc_path(4321, b"gid_map"), b"/proc/4321/gid_map".to_vec());
    assert_eq!(proc_path(1, b"setgroups"), b"/proc/1/setgroups".to_vec());
}

#[test]
fn resolv_conf_names_the_gateway_exactly() {
    let gw = parse_ipv4(b"10.1.2.1").unwrap();
    assert_eq!(resolv_conf_contents(gw), b"nameserver 10.1.2.1\n".to_vec());
}

#[test]
fn overlay_opts_are_exact() {
    assert_eq!(
        overlay_opts(b"/tmp/o/layer", b"/tmp/o/work"),
        b"lowerdir=/etc,upperdir=/tmp/o/layer,workdir=/tmp/o/work".to_vec()
    );
}

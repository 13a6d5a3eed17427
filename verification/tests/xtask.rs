//! The command lines of the build tasks.

use netmon::xtask::{
    build_ebpf, build_host, compiled_object, embedded_object, host_binary, profile, run_host,
    steps, workspace_root, Step, Task,
};

#[test]
fn profile_names() {
    assert_eq!(profile(true), "release");
    assert_eq!(profile(false), "debug");
}

#[test]
fn task_steps_in_order() {
    assert_eq!(steps(Task::BuildEbpf), vec![Step::BuildEbpf]);
    assert_eq!(steps(Task::Build), vec![Step::BuildEbpf, Step::BuildHost]);
    assert_eq!(steps(Task::Run), vec![Step::BuildEbpf, Step::BuildHost, Step::RunHost]);
}

#[test]
fn ebpf_command_line() {
    let cmd = build_ebpf(false);
    assert_eq!(cmd.program, "cargo");
    assert_eq!(
        cmd.args.join(" "),
        "+nightly build -p netmon-ebpf --target bpfel-unknown-none -Z build-std=core"
    );
    assert_eq!(cmd.envs, vec![("CARGO_CFG_BPF_TARGET".to_string(), "1".to_string())]);
    assert_eq!(build_ebpf(true).args.last().unwrap(), "--release");
    assert_eq!(build_ebpf(true).args.len(), 9);
}

#[test]
fn host_command_line() {
    assert_eq!(build_host(false).args.join(" "), "build -p netmon");
    assert_eq!(build_host(true).args.join(" "), "build -p netmon --release");
    assert!(build_host(true).envs.is_empty());
}

#[test]
fn run_command_line() {
    let cmd = run_host("/w/target/debug/netmon", &vec!["tui".to_string(), "--ebpf".to_string()]);
    assert_eq!(cmd.program, "sudo");
    assert_eq!(cmd.args.join(" "), "/w/target/debug/netmon tui --ebpf");
}

#[test]
fn paths_below_the_workspace() {
    assert_eq!(compiled_object(true).join("/"), "target/bpfel-unknown-none/release/netmon-ebpf");
    assert_eq!(compiled_object(false).join("/"), "target/bpfel-unknown-none/debug/netmon-ebpf");
    assert_eq!(embedded_object().join("/"), "src/netmon-ebpf.o");
    assert_eq!(host_binary(false).join("/"), "target/debug/netmon");
}

#[test]
fn workspace_lies_three_levels_up() {
    let exe: Vec<String> =
        ["home", "w", "target", "debug", "xtask"].iter().map(|s| s.to_string()).collect();
    assert_eq!(workspace_root(&exe).join("/"), "home/w");
    assert!(workspace_root(&vec!["bin".to_string()]).is_empty());
}

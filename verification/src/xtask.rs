//! The project's build tasks, as the command lines that they run.

use vstd::prelude::*;

verus! {

/// A task that can be asked for.
#[derive(Clone, Copy, Debug, PartialEq, Eq, Structural)]
pub enum Task {
    /// Compile only the kernel program.
    BuildEbpf,
    /// Compile the kernel program, then the host binary.
    Build,
    /// Build everything, then run the monitor.
    Run,
}

/// A part of a task.
#[derive(Clone, Copy, Debug, PartialEq, Eq, Structural)]
pub enum Step {
    BuildEbpf,
    BuildHost,
    RunHost,
}

/// A program, its arguments, and what is set in its environment.
#[derive(Debug)]
pub struct CommandLine {
    pub program: String,
    pub args: Vec<String>,
    pub envs: Vec<(String, String)>,
}

/// What a list of strings says.
pub open spec fn texts(v: Seq<String>) -> Seq<Seq<char>> {
    Seq::new(v.len(), |i: int| v[i]@)
}

/// A list of strings says what each of them says, in their order.
pub proof fn law_texts_are_those_of_the_strings(v: Seq<String>, i: int)
    requires
        0 <= i < v.len(),
    ensures
        texts(v).len() == v.len(),
        texts(v)[i] == v[i]@,
{
}

/// The steps of a task, in order.
pub open spec fn task_steps(task: Task) -> Seq<Step> {
    match task {
        Task::BuildEbpf => seq![Step::BuildEbpf],
        Task::Build => seq![Step::BuildEbpf, Step::BuildHost],
        Task::Run => seq![Step::BuildEbpf, Step::BuildHost, Step::RunHost],
    }
}

/// Arguments with the flag for a release build, where one is wanted.
pub open spec fn with_release(args: Seq<Seq<char>>, release: bool) -> Seq<Seq<char>> {
    if release {
        args.push("--release"@)
    } else {
        args
    }
}

/// A release build differs from another by one flag, behind all other arguments.
pub proof fn law_release_build_has_one_flag_more(args: Seq<Seq<char>>)
    ensures
        with_release(args, false) == args,
        with_release(args, true).len() == args.len() + 1,
        with_release(args, true).last() == "--release"@,
        with_release(args, true).drop_last() == args,
{
    assert(with_release(args, true).drop_last() =~= args);
}

/// A task that does more does first what the lesser one does: the kernel program is
/// compiled before the host binary that embeds it, and that before it is run.
pub proof fn law_tasks_build_on_each_other(task: Task)
    ensures
        task_steps(task).first() == Step::BuildEbpf,
        task_steps(Task::BuildEbpf).len() == 1,
        task_steps(Task::Build).drop_last() == task_steps(Task::BuildEbpf),
        task_steps(Task::Build).last() == Step::BuildHost,
        task_steps(Task::Run).drop_last() == task_steps(Task::Build),
        task_steps(Task::Run).last() == Step::RunHost,
{
    assert(task_steps(Task::Build).drop_last() =~= task_steps(Task::BuildEbpf));
    assert(task_steps(Task::Run).drop_last() =~= task_steps(Task::Build));
}

/// The arguments with which cargo compiles the kernel program.
pub open spec fn ebpf_args() -> Seq<Seq<char>> {
    seq![
        "+nightly"@,
        "build"@,
        "-p"@,
        "netmon-ebpf"@,
        "--target"@,
        "bpfel-unknown-none"@,
        "-Z"@,
        "build-std=core"@,
    ]
}

/// The arguments with which cargo compiles the host binary.
pub open spec fn host_args() -> Seq<Seq<char>> {
    seq!["build"@, "-p"@, "netmon"@]
}

/// The name of a build profile's directory.
pub open spec fn profile_name(release: bool) -> Seq<char> {
    if release {
        "release"@
    } else {
        "debug"@
    }
}

fn push_text(v: &mut Vec<String>, text: &str)
    ensures
        texts(final(v)@) == texts(old(v)@).push(text@),
{
    v.push(text.to_owned());
    assert(texts(v@) =~= texts(old(v)@).push(text@));
}

fn push_release(v: &mut Vec<String>, release: bool)
    ensures
        texts(final(v)@) == with_release(texts(old(v)@), release),
{
    if release {
        push_text(v, "--release");
    }
}

fn no_texts() -> (v: Vec<String>)
    ensures
        texts(v@) == Seq::<Seq<char>>::empty(),
{
    let v: Vec<String> = Vec::new();
    assert(texts(v@) =~= Seq::<Seq<char>>::empty());
    v
}

/// The steps of a task; each is taken only where the one before succeeded.
pub fn steps(task: Task) -> (steps: Vec<Step>)
    ensures
        steps@ == task_steps(task),
{
    let mut steps: Vec<Step> = Vec::new();
    steps.push(Step::BuildEbpf);
    if task != Task::BuildEbpf {
        steps.push(Step::BuildHost);
    }
    if task == Task::Run {
        steps.push(Step::RunHost);
    }
    assert(steps@ =~= task_steps(task));
    steps
}

/// The command line that compiles the kernel program.
pub fn build_ebpf(release: bool) -> (cmd: CommandLine)
    ensures
        cmd.program@ == "cargo"@,
        texts(cmd.args@) == with_release(ebpf_args(), release),
        cmd.envs@.len() == 1,
        cmd.envs@[0].0@ == "CARGO_CFG_BPF_TARGET"@,
        cmd.envs@[0].1@ == "1"@,
{
    let mut args = no_texts();
    push_text(&mut args, "+nightly");
    push_text(&mut args, "build");
    push_text(&mut args, "-p");
    push_text(&mut args, "netmon-ebpf");
    push_text(&mut args, "--target");
    push_text(&mut args, "bpfel-unknown-none");
    push_text(&mut args, "-Z");
    push_text(&mut args, "build-std=core");
    assert(texts(args@) =~= ebpf_args());
    push_release(&mut args, release);
    let mut envs: Vec<(String, String)> = Vec::new();
    envs.push(("CARGO_CFG_BPF_TARGET".to_owned(), "1".to_owned()));
    CommandLine { program: "cargo".to_owned(), args, envs }
}

/// The command line that compiles the host binary.
pub fn build_host(release: bool) -> (cmd: CommandLine)
    ensures
        cmd.program@ == "cargo"@,
        texts(cmd.args@) == with_release(host_args(), release),
        cmd.envs@.len() == 0,
{
    let mut args = no_texts();
    push_text(&mut args, "build");
    push_text(&mut args, "-p");
    push_text(&mut args, "netmon");
    assert(texts(args@) =~= host_args());
    push_release(&mut args, release);
    CommandLine { program: "cargo".to_owned(), args, envs: Vec::new() }
}

/// The command line that runs the monitor as root, with arguments handed on.
pub fn run_host(binary: &str, forwarded: &Vec<String>) -> (cmd: CommandLine)
    ensures
        cmd.program@ == "sudo"@,
        texts(cmd.args@) == seq![binary@] + texts(forwarded@),
        cmd.envs@.len() == 0,
{
    let mut args = no_texts();
    push_text(&mut args, binary);
    assert(texts(args@) =~= seq![binary@] + texts(forwarded@).take(0));
    let mut i: usize = 0;
    while i < forwarded.len()
        invariant
            i <= forwarded@.len(),
            texts(args@) == seq![binary@] + texts(forwarded@).take(i as int),
        decreases forwarded@.len() - i,
    {
        push_text(&mut args, forwarded[i].as_str());
        assert(texts(args@) =~= seq![binary@] + texts(forwarded@).take(i + 1));
        i += 1;
    }
    assert(texts(forwarded@).take(i as int) =~= texts(forwarded@));
    CommandLine { program: "sudo".to_owned(), args, envs: Vec::new() }
}

/// The directory of a build profile.
pub fn profile(release: bool) -> (name: &'static str)
    ensures
        name@ == profile_name(release),
{
    if release {
        "release"
    } else {
        "debug"
    }
}

/// Where the compiled kernel program lies, below the workspace.
pub fn compiled_object(release: bool) -> (path: Vec<String>)
    ensures
        texts(path@) == seq![
            "target"@,
            "bpfel-unknown-none"@,
            profile_name(release),
            "netmon-ebpf"@,
        ],
{
    let mut path = no_texts();
    push_text(&mut path, "target");
    push_text(&mut path, "bpfel-unknown-none");
    push_text(&mut path, profile(release));
    push_text(&mut path, "netmon-ebpf");
    assert(texts(path@) =~= seq![
        "target"@,
        "bpfel-unknown-none"@,
        profile_name(release),
        "netmon-ebpf"@,
    ]);
    path
}

/// Where the kernel program is copied to for the host build, below the
/// workspace.
pub fn embedded_object() -> (path: Vec<String>)
    ensures
        texts(path@) == seq!["src"@, "netmon-ebpf.o"@],
{
    let mut path = no_texts();
    push_text(&mut path, "src");
    push_text(&mut path, "netmon-ebpf.o");
    assert(texts(path@) =~= seq!["src"@, "netmon-ebpf.o"@]);
    path
}

/// Where the host binary lies, below the workspace.
pub fn host_binary(release: bool) -> (path: Vec<String>)
    ensures
        texts(path@) == seq!["target"@, profile_name(release), "netmon"@],
{
    let mut path = no_texts();
    push_text(&mut path, "target");
    push_text(&mut path, profile(release));
    push_text(&mut path, "netmon");
    assert(texts(path@) =~= seq!["target"@, profile_name(release), "netmon"@]);
    path
}

/// The workspace, as the names on its path from the root, given those of this
/// program: target/{debug|release}/xtask lies three levels below it. The path
/// does not go above the root.
pub fn workspace_root(exe: &Vec<String>) -> (root: Vec<String>)
    ensures
        texts(root@) == if exe@.len() >= 3 {
            texts(exe@).take(exe@.len() - 3)
        } else {
            Seq::empty()
        },
{
    let mut root = no_texts();
    let n: usize = if exe.len() >= 3 {
        exe.len() - 3
    } else {
        0
    };
    let mut i: usize = 0;
    assert(texts(exe@).take(0) =~= texts(root@));
    while i < n
        invariant
            i <= n <= exe@.len(),
            texts(root@) == texts(exe@).take(i as int),
        decreases n - i,
    {
        push_text(&mut root, exe[i].as_str());
        assert(texts(root@) =~= texts(exe@).take(i + 1));
        i += 1;
    }
    root
}

} // verus!

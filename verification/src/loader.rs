//! What is loaded into the kernel, and what the user is told of it.

use vstd::prelude::*;

verus! {

/// A probe program and the kernel function that it is attached to.
#[derive(Debug)]
pub struct Attachment {
    pub program: String,
    pub function: String,
}

impl View for Attachment {
    type V = (Seq<char>, Seq<char>);

    open spec fn view(&self) -> (Seq<char>, Seq<char>) {
        (self.program@, self.function@)
    }
}

/// The probes and the functions that they watch, in the order in which they are
/// attached.
pub open spec fn attachment_plan() -> Seq<(Seq<char>, Seq<char>)> {
    seq![
        ("netmon_tcp_sendmsg"@, "tcp_sendmsg"@),
        ("netmon_tcp_recvmsg_ret"@, "tcp_recvmsg"@),
        ("netmon_udp_sendmsg"@, "udp_sendmsg"@),
        ("netmon_udp_recvmsg_ret"@, "udp_recvmsg"@),
        ("netmon_udpv6_sendmsg"@, "udpv6_sendmsg"@),
        ("netmon_udpv6_recvmsg_ret"@, "udpv6_recvmsg"@),
    ]
}

fn attachment(program: &str, function: &str) -> (a: Attachment)
    ensures
        a@ == (program@, function@),
{
    Attachment { program: program.to_owned(), function: function.to_owned() }
}

/// The probes that are to be attached.
pub fn attachments() -> (plan: Vec<Attachment>)
    ensures
        plan@.len() == attachment_plan().len(),
        forall|i: int| 0 <= i < plan@.len() ==> (#[trigger] plan@[i])@ == attachment_plan()[i],
{
    let mut plan: Vec<Attachment> = Vec::new();
    plan.push(attachment("netmon_tcp_sendmsg", "tcp_sendmsg"));
    plan.push(attachment("netmon_tcp_recvmsg_ret", "tcp_recvmsg"));
    plan.push(attachment("netmon_udp_sendmsg", "udp_sendmsg"));
    plan.push(attachment("netmon_udp_recvmsg_ret", "udp_recvmsg"));
    plan.push(attachment("netmon_udpv6_sendmsg", "udpv6_sendmsg"));
    plan.push(attachment("netmon_udpv6_recvmsg_ret", "udpv6_recvmsg"));
    plan
}

/// What the user is told once capture was asked for, or not.
pub fn capture_notice(use_ebpf: bool, active: bool) -> (notice: Option<&'static str>)
    ensures
        match notice {
            Some(text) => use_ebpf && text@ == if active {
                "netmon: eBPF traffic capture active"@
            } else {
                "netmon: eBPF unavailable, using /proc fallback"@
            },
            None => !use_ebpf,
        },
{
    if !use_ebpf {
        None
    } else if active {
        Some("netmon: eBPF traffic capture active")
    } else {
        Some("netmon: eBPF unavailable, using /proc fallback")
    }
}

} // verus!

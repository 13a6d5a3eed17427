//! Network addresses, and the identity of a flow.
//!
//! A flow is what byte totals are kept for: one process talking to one remote
//! address and port.

use vstd::prelude::*;

verus! {

/// An IPv4 or IPv6 address, as its octets in the order they are written.
#[derive(Clone, Copy, Debug, Eq, Hash)]
pub enum IpAddr {
    V4([u8; 4]),
    V6([u8; 16]),
}

/// The process, remote address and remote port that a byte count belongs to.
#[derive(Clone, Copy, Debug, Eq, Hash)]
pub struct FlowKey {
    pub pid: u32,
    pub remote_addr: IpAddr,
    pub remote_port: u16,
}

/// Whether two byte strings hold the same bytes.
pub fn bytes_equal(a: &[u8], b: &[u8]) -> (r: bool)
    ensures
        r == (a@ == b@),
{
    if a.len() != b.len() {
        return false;
    }
    let mut i: usize = 0;
    while i < a.len()
        invariant
            i <= a.len(),
            a.len() == b.len(),
            forall|j: int| 0 <= j < i ==> a@[j] == b@[j],
        decreases a.len() - i,
    {
        if a[i] != b[i] {
            return false;
        }
        i += 1;
    }
    assert(a@ =~= b@);
    true
}

impl PartialEq for IpAddr {
    fn eq(&self, other: &IpAddr) -> (r: bool) {
        match (self, other) {
            (IpAddr::V4(a), IpAddr::V4(b)) => {
                let r = bytes_equal(a.as_slice(), b.as_slice());
                assert(r ==> *a =~= *b);
                r
            },
            (IpAddr::V6(a), IpAddr::V6(b)) => {
                let r = bytes_equal(a.as_slice(), b.as_slice());
                assert(r ==> *a =~= *b);
                r
            },
            _ => false,
        }
    }
}

impl vstd::std_specs::cmp::PartialEqSpecImpl for IpAddr {
    open spec fn obeys_eq_spec() -> bool {
        true
    }

    open spec fn eq_spec(&self, other: &IpAddr) -> bool {
        *self == *other
    }
}

impl PartialEq for FlowKey {
    fn eq(&self, other: &FlowKey) -> (r: bool) {
        self.pid == other.pid && self.remote_addr == other.remote_addr && self.remote_port
            == other.remote_port
    }
}

impl vstd::std_specs::cmp::PartialEqSpecImpl for FlowKey {
    open spec fn obeys_eq_spec() -> bool {
        true
    }

    open spec fn eq_spec(&self, other: &FlowKey) -> bool {
        *self == *other
    }
}

/// A byte string read as a big-endian number.
pub open spec fn be_value(s: Seq<u8>) -> nat
    decreases s.len(),
{
    if s.len() == 0 {
        0
    } else {
        be_value(s.drop_last()) * 256 + s.last() as nat
    }
}

/// How many numbers `n` bytes can hold.
spec fn byte_range(n: nat) -> nat
    decreases n,
{
    if n == 0 {
        1
    } else {
        256 * byte_range((n - 1) as nat)
    }
}

proof fn lemma_be_value_bound(s: Seq<u8>)
    ensures
        be_value(s) < byte_range(s.len()),
    decreases s.len(),
{
    if s.len() > 0 {
        lemma_be_value_bound(s.drop_last());
    }
}

proof fn lemma_byte_range_monotonic(m: nat, n: nat)
    requires
        m <= n,
    ensures
        byte_range(m) <= byte_range(n),
    decreases n,
{
    if m < n {
        lemma_byte_range_monotonic(m, (n - 1) as nat);
    }
}

/// At most sixteen bytes hold a number of 128 bits.
proof fn lemma_be_value_fits(s: Seq<u8>)
    requires
        s.len() <= 16,
    ensures
        be_value(s) <= u128::MAX,
{
    lemma_be_value_bound(s);
    lemma_byte_range_monotonic(s.len(), 16);
    assert(byte_range(16) == u128::MAX + 1) by {
        reveal_with_fuel(byte_range, 17);
    }
}

/// Byte strings of one length that read as the same number are equal.
proof fn lemma_be_value_injective(a: Seq<u8>, b: Seq<u8>)
    requires
        a.len() == b.len(),
        be_value(a) == be_value(b),
    ensures
        a == b,
    decreases a.len(),
{
    if a.len() > 0 {
        lemma_be_value_injective(a.drop_last(), b.drop_last());
        assert(a =~= a.drop_last().push(a.last()));
        assert(b =~= b.drop_last().push(b.last()));
    } else {
        assert(a =~= b);
    }
}

fn be_number(bytes: &[u8]) -> (n: u128)
    requires
        bytes@.len() <= 16,
    ensures
        n == be_value(bytes@),
{
    let mut n: u128 = 0;
    let mut i: usize = 0;
    while i < bytes.len()
        invariant
            i <= bytes@.len() <= 16,
            n == be_value(bytes@.take(i as int)),
        decreases bytes@.len() - i,
    {
        proof {
            let next = bytes@.take(i + 1);
            assert(next.drop_last() =~= bytes@.take(i as int));
            lemma_be_value_fits(next);
        }
        n = n * 256 + bytes[i] as u128;
        i += 1;
    }
    assert(bytes@.take(i as int) =~= bytes@);
    n
}

impl IpAddr {
    pub open spec fn is_v6(self) -> bool {
        self is V6
    }

    pub open spec fn octets(self) -> Seq<u8> {
        match self {
            IpAddr::V4(b) => b@,
            IpAddr::V6(b) => b@,
        }
    }
}

impl FlowKey {
    spec fn rank_high(self) -> int {
        (self.pid * 65536 + self.remote_port) * 2 + if self.remote_addr.is_v6() {
            1int
        } else {
            0int
        }
    }

    spec fn rank_low(self) -> int {
        be_value(self.remote_addr.octets()) as int
    }

    /// The number by which flows are ordered; no two flows share one.
    pub closed spec fn rank(self) -> int {
        self.rank_high() * (u128::MAX + 1) + self.rank_low()
    }

    pub proof fn lemma_rank_injective(a: FlowKey, b: FlowKey)
        requires
            a.rank() == b.rank(),
        ensures
            a == b,
    {
        lemma_be_value_fits(a.remote_addr.octets());
        lemma_be_value_fits(b.remote_addr.octets());
        assert(a.rank_high() == b.rank_high() && a.rank_low() == b.rank_low());
        assert(a.remote_addr.is_v6() == b.remote_addr.is_v6());
        lemma_be_value_injective(a.remote_addr.octets(), b.remote_addr.octets());
        match (a.remote_addr, b.remote_addr) {
            (IpAddr::V4(x), IpAddr::V4(y)) => {
                assert(x =~= y);
            },
            (IpAddr::V6(x), IpAddr::V6(y)) => {
                assert(x =~= y);
            },
            _ => {},
        }
    }

    /// The two halves of the rank, the more significant first.
    fn rank_words(&self) -> (words: (u64, u128))
        ensures
            words.0 == self.rank_high(),
            words.1 == self.rank_low(),
    {
        let upper: u64 = (self.pid as u64 * 65536 + self.remote_port as u64) * 2;
        match &self.remote_addr {
            IpAddr::V4(b) => (upper, be_number(b.as_slice())),
            IpAddr::V6(b) => (upper + 1, be_number(b.as_slice())),
        }
    }

    /// Whether this flow comes before `other` in the order of ranks.
    pub fn precedes(&self, other: &FlowKey) -> (r: bool)
        ensures
            r == (self.rank() < other.rank()),
    {
        let a = self.rank_words();
        let b = other.rank_words();
        a.0 < b.0 || (a.0 == b.0 && a.1 < b.1)
    }
}

/// Flows are equal where process, remote address and remote port are: one byte of
/// an address that differs, or its kind, makes another flow.
pub proof fn law_flows_are_equal_by_their_fields(a: FlowKey, b: FlowKey)
    ensures
        vstd::std_specs::cmp::PartialEqSpec::eq_spec(&a, &b) <==> (a.pid == b.pid && a.remote_port
            == b.remote_port && match (a.remote_addr, b.remote_addr) {
            (IpAddr::V4(x), IpAddr::V4(y)) => x@ == y@,
            (IpAddr::V6(x), IpAddr::V6(y)) => x@ == y@,
            _ => false,
        }),
        vstd::std_specs::cmp::PartialEqSpec::eq_spec(&a.remote_addr, &b.remote_addr) <==> match (
            a.remote_addr,
            b.remote_addr,
        ) {
            (IpAddr::V4(x), IpAddr::V4(y)) => x@ == y@,
            (IpAddr::V6(x), IpAddr::V6(y)) => x@ == y@,
            _ => false,
        },
{
    match (a.remote_addr, b.remote_addr) {
        (IpAddr::V4(x), IpAddr::V4(y)) => {
            if x@ == y@ {
                assert(x =~= y);
            }
        },
        (IpAddr::V6(x), IpAddr::V6(y)) => {
            if x@ == y@ {
                assert(x =~= y);
            }
        },
        _ => {},
    }
}

} // verus!

//! Physical resources that a component claims exclusively: a network port,
//! a systemd-inherited socket, a raw file descriptor, or a named on-disk
//! buffer. The arbiter reports every resource claimed by two or more
//! components, with wildcard-interface semantics for ports.

use vstd::prelude::*;
use crate::id::ComponentKey;
use crate::text::{spec_dec, spec_hex, dec_u64, hex_u64};

verus! {

/// Transport protocol of a port claim. Different protocols on the same
/// port never conflict.
#[derive(Clone, Copy, Debug, PartialEq, Eq, Structural)]
pub enum Protocol {
    Tcp,
    Udp,
}

/// A socket address: an interface plus a port. The wildcard interface
/// (all-zero address) binds every local interface.
#[derive(Clone, Copy, Debug, PartialEq, Eq, Structural)]
pub enum IpAddress {
    V4(u8, u8, u8, u8),
    V6(u128),
}

#[derive(Clone, Copy, Debug, PartialEq, Eq, Structural)]
pub struct SocketAddress {
    pub ip: IpAddress,
    pub port: u16,
}

impl IpAddress {
    /// The wildcard interface: `0.0.0.0` or `::`.
    pub open spec fn spec_is_unspecified(&self) -> bool {
        self == IpAddress::V4(0, 0, 0, 0) || self == IpAddress::V6(0)
    }

    pub fn is_unspecified(&self) -> (r: bool)
        ensures
            r == self.spec_is_unspecified(),
    {
        match self {
            IpAddress::V4(a, b, c, d) => *a == 0 && *b == 0 && *c == 0 && *d == 0,
            IpAddress::V6(v) => *v == 0,
        }
    }
}

impl SocketAddress {
    pub fn new(ip: IpAddress, port: u16) -> (r: Self)
        ensures
            r == (SocketAddress { ip, port }),
    {
        SocketAddress { ip, port }
    }
}

/// `65536` to the `j`th power.
pub open spec fn pow_group(j: nat) -> nat
    decreases j,
{
    if j == 0 {
        1
    } else {
        0x10000 * pow_group((j - 1) as nat)
    }
}

/// One group of an IPv6 address, counted from the right: the sixteen bits
/// starting at bit `16 * j`.
pub open spec fn spec_v6_group_from_right(v: u128, j: nat) -> nat {
    (v as nat / pow_group(j)) % 0x10000
}

/// One group of an IPv6 address, counted from the left as the address is
/// written.
pub open spec fn spec_v6_group(v: u128, i: int) -> nat {
    spec_v6_group_from_right(v, (7 - i) as nat)
}

/// Uncompressed textual form of an IPv6 address: eight hexadecimal groups
/// without leading zeros, separated by colons.
pub open spec fn spec_v6_groups_text(v: u128, upto: int) -> Seq<char>
    decreases upto,
{
    if upto <= 0 {
        Seq::empty()
    } else if upto == 1 {
        spec_hex(spec_v6_group(v, 0))
    } else {
        spec_v6_groups_text(v, upto - 1) + ":"@ + spec_hex(spec_v6_group(v, upto - 1))
    }
}

/// Textual form of a socket address: `a.b.c.d:port` for IPv4,
/// `[groups]:port` for IPv6.
pub open spec fn spec_addr_text(a: SocketAddress) -> Seq<char> {
    match a.ip {
        IpAddress::V4(o1, o2, o3, o4) => spec_dec(o1 as nat) + "."@ + spec_dec(o2 as nat) + "."@
            + spec_dec(o3 as nat) + "."@ + spec_dec(o4 as nat) + ":"@ + spec_dec(a.port as nat),
        IpAddress::V6(v) => "["@ + spec_v6_groups_text(v, 8) + "]:"@ + spec_dec(a.port as nat),
    }
}

/// An exclusive claim on something outside the process.
#[derive(Debug)]
pub enum Resource {
    Port(SocketAddress, Protocol),
    SystemFdOffset(usize),
    Fd(u32),
    DiskBuffer(String),
}

/// The mathematical value of a resource claim.
pub enum ResourceView {
    Port(SocketAddress, Protocol),
    SystemFdOffset(int),
    Fd(int),
    DiskBuffer(Seq<char>),
}

impl View for Resource {
    type V = ResourceView;

    open spec fn view(&self) -> ResourceView {
        match self {
            Resource::Port(a, p) => ResourceView::Port(*a, *p),
            Resource::SystemFdOffset(n) => ResourceView::SystemFdOffset(*n as int),
            Resource::Fd(n) => ResourceView::Fd(*n as int),
            Resource::DiskBuffer(s) => ResourceView::DiskBuffer(s@),
        }
    }
}

impl Clone for Resource {
    fn clone(&self) -> (r: Self)
        ensures
            r@ == self@,
    {
        match self {
            Resource::Port(a, p) => Resource::Port(*a, *p),
            Resource::SystemFdOffset(n) => Resource::SystemFdOffset(*n),
            Resource::Fd(n) => Resource::Fd(*n),
            Resource::DiskBuffer(s) => Resource::DiskBuffer(s.clone()),
        }
    }
}

impl PartialEq for Resource {
    fn eq(&self, other: &Self) -> (r: bool) {
        match (self, other) {
            (Resource::Port(a1, p1), Resource::Port(a2, p2)) => *a1 == *a2 && *p1 == *p2,
            (Resource::SystemFdOffset(n1), Resource::SystemFdOffset(n2)) => *n1 == *n2,
            (Resource::Fd(n1), Resource::Fd(n2)) => *n1 == *n2,
            (Resource::DiskBuffer(s1), Resource::DiskBuffer(s2)) => *s1 == *s2,
            _ => false,
        }
    }
}

impl vstd::std_specs::cmp::PartialEqSpecImpl for Resource {
    open spec fn obeys_eq_spec() -> bool {
        true
    }

    open spec fn eq_spec(&self, other: &Self) -> bool {
        self@ == other@
    }
}

/// One character of a quoted name, with the quote and backslash escaped
/// as `\"` and `\\`. Other characters, control characters included, are
/// carried as written.
pub open spec fn spec_escaped_char(c: char) -> Seq<char> {
    if c == '"' {
        seq!['\\', '"']
    } else if c == '\\' {
        seq!['\\', '\\']
    } else {
        seq![c]
    }
}

/// The quoted-name escaping, from position `i` on.
pub open spec fn spec_escaped_from(s: Seq<char>, i: int) -> Seq<char>
    decreases s.len() - i,
{
    if i < 0 || i >= s.len() {
        Seq::empty()
    } else {
        spec_escaped_char(s[i]) + spec_escaped_from(s, i + 1)
    }
}

fn escaped_text(s: &str) -> (r: String)
    ensures
        r@ == spec_escaped_from(s@, 0),
{
    let n = s.unicode_len();
    let mut acc = String::new();
    let mut i: usize = 0;
    proof {
        assert(acc@ + spec_escaped_from(s@, 0) =~= spec_escaped_from(s@, 0));
    }
    while i < n
        invariant
            0 <= i <= n,
            n == s@.len(),
            spec_escaped_from(s@, 0) == acc@ + spec_escaped_from(s@, i as int),
        decreases n - i,
    {
        let ghost acc0 = acc@;
        let c = s.get_char(i);
        if c == '"' {
            crate::text::push_char(&mut acc, '\\');
            crate::text::push_char(&mut acc, '"');
        } else if c == '\\' {
            crate::text::push_char(&mut acc, '\\');
            crate::text::push_char(&mut acc, '\\');
        } else {
            crate::text::push_char(&mut acc, c);
        }
        proof {
            assert(acc@ =~= acc0 + spec_escaped_char(s@[i as int]));
            assert(acc0 + (spec_escaped_char(s@[i as int]) + spec_escaped_from(s@, i as int + 1))
                =~= (acc0 + spec_escaped_char(s@[i as int])) + spec_escaped_from(
                s@,
                i as int + 1,
            ));
        }
        i += 1;
    }
    proof {
        assert(spec_escaped_from(s@, n as int) =~= Seq::<char>::empty());
        assert(acc@ + Seq::<char>::empty() =~= acc@);
    }
    acc
}

/// Textual form of a protocol, as it appears in diagnostics.
pub open spec fn spec_protocol_text(p: Protocol) -> Seq<char> {
    match p {
        Protocol::Tcp => "tcp"@,
        Protocol::Udp => "udp"@,
    }
}

/// Textual form of a resource, as it appears in diagnostics.
pub open spec fn spec_resource_text(r: ResourceView) -> Seq<char> {
    match r {
        ResourceView::Port(a, p) => spec_protocol_text(p) + " "@ + spec_addr_text(a),
        ResourceView::SystemFdOffset(n) => "systemd "@ + spec_dec((n + 1) as nat) + "th socket"@,
        ResourceView::Fd(n) => "file descriptor: "@ + spec_dec(n as nat),
        ResourceView::DiskBuffer(name) => "disk buffer \""@ + spec_escaped_from(name, 0)
            + "\""@,
    }
}

impl Protocol {
    pub fn text(&self) -> (r: String)
        ensures
            r@ == spec_protocol_text(*self),
    {
        match self {
            Protocol::Tcp => "tcp".to_owned(),
            Protocol::Udp => "udp".to_owned(),
        }
    }
}

fn v6_groups_text(v: u128) -> (r: String)
    ensures
        r@ == spec_v6_groups_text(v, 8),
{
    let mut groups: Vec<u64> = Vec::new();
    let mut cur: u128 = v;
    let mut k: usize = 0;
    proof {
        assert(pow_group(0) == 1);
    }
    while k < 8
        invariant
            0 <= k <= 8,
            groups@.len() == k,
            cur as nat == v as nat / pow_group(k as nat),
            forall|j: int| 0 <= j < k ==> groups@[j] as nat == spec_v6_group_from_right(v, j as nat),
        decreases 8 - k,
    {
        groups.push((cur % 0x10000) as u64);
        proof {
            assert(pow_group(k as nat) > 0) by {
                lemma_pow_group_pos(k as nat);
            }
            assert((cur as nat / 0x10000) == v as nat / pow_group((k + 1) as nat)) by {
                vstd::arithmetic::div_mod::lemma_div_denominator(
                    v as int,
                    pow_group(k as nat) as int,
                    0x10000,
                );
            }
        }
        cur = cur / 0x10000;
        k += 1;
    }
    let mut s = String::new();
    let mut i: usize = 0;
    proof {
        assert(s@ =~= spec_v6_groups_text(v, 0));
    }
    while i < 8
        invariant
            0 <= i <= 8,
            s@ == spec_v6_groups_text(v, i as int),
            groups@.len() == 8,
            forall|j: int| 0 <= j < 8 ==> groups@[j] as nat == spec_v6_group_from_right(v, j as nat),
        decreases 8 - i,
    {
        if i > 0 {
            s.append(":");
        }
        let group: u64 = groups[7 - i];
        s.append(hex_u64(group).as_str());
        proof {
            assert(s@ =~= spec_v6_groups_text(v, i as int + 1));
        }
        i += 1;
    }
    s
}

/// `pow_group` is positive.
proof fn lemma_pow_group_pos(j: nat)
    ensures
        pow_group(j) > 0,
    decreases j,
{
    if j > 0 {
        lemma_pow_group_pos((j - 1) as nat);
    }
}

fn addr_text(a: &SocketAddress) -> (r: String)
    ensures
        r@ == spec_addr_text(*a),
{
    match a.ip {
        IpAddress::V4(o1, o2, o3, o4) => {
            let mut s = dec_u64(o1 as u64);
            s.append(".");
            s.append(dec_u64(o2 as u64).as_str());
            s.append(".");
            s.append(dec_u64(o3 as u64).as_str());
            s.append(".");
            s.append(dec_u64(o4 as u64).as_str());
            s.append(":");
            s.append(dec_u64(a.port as u64).as_str());
            s
        },
        IpAddress::V6(v) => {
            let mut s = "[".to_owned();
            s.append(v6_groups_text(v).as_str());
            s.append("]:");
            s.append(dec_u64(a.port as u64).as_str());
            s
        },
    }
}

impl Resource {
    /// A TCP claim on `addr`.
    pub fn tcp(addr: SocketAddress) -> (r: Self)
        ensures
            r@ == ResourceView::Port(addr, Protocol::Tcp),
    {
        Resource::Port(addr, Protocol::Tcp)
    }

    /// A UDP claim on `addr`.
    pub fn udp(addr: SocketAddress) -> (r: Self)
        ensures
            r@ == ResourceView::Port(addr, Protocol::Udp),
    {
        Resource::Port(addr, Protocol::Udp)
    }

    /// The resource as diagnostics show it.
    pub fn text(&self) -> (r: String)
        ensures
            r@ == spec_resource_text(self@),
    {
        match self {
            Resource::Port(a, p) => {
                let mut s = p.text();
                s.append(" ");
                s.append(addr_text(a).as_str());
                s
            },
            Resource::SystemFdOffset(n) => {
                let mut s = "systemd ".to_owned();
                s.append(crate::text::dec_u128(*n as u128 + 1).as_str());
                s.append("th socket");
                s
            },
            Resource::Fd(n) => {
                let mut s = "file descriptor: ".to_owned();
                s.append(dec_u64(*n as u64).as_str());
                s
            },
            Resource::DiskBuffer(name) => {
                let mut s = "disk buffer \"".to_owned();
                s.append(escaped_text(name.as_str()).as_str());
                s.append("\"");
                s
            },
        }
    }
}

} // verus!

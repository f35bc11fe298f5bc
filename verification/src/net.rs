//! Socket addresses.

use vstd::prelude::*;

use crate::text::{
    bytes_eq, decimal, decimal_is_injective, decimals_are_digits, push_decimal, str_eq,
};

verus! {

/// The address of one end of a connection. An IPv4 address is kept as its
/// octets, an IPv6 address in its textual form (with its scope, where it has
/// one) with its flow label beside it.
#[derive(Debug, PartialEq, Eq, Hash)]
pub enum SocketAddr {
    V4 { octets: [u8; 4], port: u16 },
    V6 { ip: String, port: u16, flowinfo: u32 },
}

/// What an address is.
pub enum AddrView {
    V4 { octets: Seq<u8>, port: u16 },
    V6 { ip: Seq<char>, port: u16, flowinfo: u32 },
}

impl AddrView {
    pub open spec fn port(self) -> u16 {
        match self {
            AddrView::V4 { octets, port } => port,
            AddrView::V6 { ip, port, flowinfo } => port,
        }
    }

    /// `a.b.c.d:port` or `[ip]:port`. The flow label is not written.
    pub open spec fn text(self) -> Seq<char> {
        match self {
            AddrView::V4 { octets, port } => decimal(octets[0] as nat) + seq!['.'] + decimal(
                octets[1] as nat,
            ) + seq!['.'] + decimal(octets[2] as nat) + seq!['.'] + decimal(octets[3] as nat)
                + seq![':'] + decimal(port as nat),
            AddrView::V6 { ip, port, flowinfo } => seq!['['] + ip + seq![']', ':'] + decimal(
                port as nat,
            ),
        }
    }
}

impl View for SocketAddr {
    type V = AddrView;

    open spec fn view(&self) -> AddrView {
        match self {
            SocketAddr::V4 { octets, port } => AddrView::V4 { octets: octets@, port: *port },
            SocketAddr::V6 { ip, port, flowinfo } => AddrView::V6 {
                ip: ip@,
                port: *port,
                flowinfo: *flowinfo,
            },
        }
    }
}

impl SocketAddr {
    pub fn v4(octets: [u8; 4], port: u16) -> (addr: SocketAddr)
        ensures
            addr@ == (AddrView::V4 { octets: octets@, port }),
    {
        SocketAddr::V4 { octets, port }
    }

    /// An IPv6 address without a flow label.
    pub fn v6(ip: String, port: u16) -> (addr: SocketAddr)
        ensures
            addr@ == (AddrView::V6 { ip: ip@, port, flowinfo: 0 }),
    {
        SocketAddr::V6 { ip, port, flowinfo: 0 }
    }

    /// An IPv6 address with a flow label.
    pub fn v6_with_flowinfo(ip: String, port: u16, flowinfo: u32) -> (addr: SocketAddr)
        ensures
            addr@ == (AddrView::V6 { ip: ip@, port, flowinfo }),
    {
        SocketAddr::V6 { ip, port, flowinfo }
    }

    /// The flow label: zero where the address has none.
    pub fn flowinfo(&self) -> (flowinfo: u32)
        ensures
            flowinfo == match self@ {
                AddrView::V4 { octets, port } => 0,
                AddrView::V6 { ip, port, flowinfo: label } => label,
            },
    {
        match self {
            SocketAddr::V4 { octets: _, port: _ } => 0,
            SocketAddr::V6 { ip: _, port: _, flowinfo } => *flowinfo,
        }
    }

    pub fn port(&self) -> (port: u16)
        ensures
            port == self@.port(),
    {
        match self {
            SocketAddr::V4 { octets: _, port } => *port,
            SocketAddr::V6 { ip: _, port, flowinfo: _ } => *port,
        }
    }

    pub fn is_ipv6(&self) -> (v6: bool)
        ensures
            v6 == (self@ is V6),
    {
        match self {
            SocketAddr::V4 { octets: _, port: _ } => false,
            SocketAddr::V6 { ip: _, port: _, flowinfo: _ } => true,
        }
    }

    /// Whether two addresses are the same.
    pub fn same(&self, other: &SocketAddr) -> (same: bool)
        ensures
            same == (self@ == other@),
    {
        match self {
            SocketAddr::V4 { octets, port } => match other {
                SocketAddr::V4 { octets: octets2, port: port2 } => {
                    *port == *port2 && bytes_eq(octets, octets2)
                },
                SocketAddr::V6 { ip: _, port: _, flowinfo: _ } => false,
            },
            SocketAddr::V6 { ip, port, flowinfo } => match other {
                SocketAddr::V4 { octets: _, port: _ } => false,
                SocketAddr::V6 { ip: ip2, port: port2, flowinfo: flowinfo2 } => {
                    *port == *port2 && *flowinfo == *flowinfo2 && str_eq(ip, ip2)
                },
            },
        }
    }

    /// Appends the address in its usual notation.
    pub fn push_text(&self, out: &mut String)
        ensures
            final(out)@ == old(out)@ + self@.text(),
    {
        match self {
            SocketAddr::V4 { octets, port } => {
                push_decimal(out, octets[0] as u64);
                out.push('.');
                push_decimal(out, octets[1] as u64);
                out.push('.');
                push_decimal(out, octets[2] as u64);
                out.push('.');
                push_decimal(out, octets[3] as u64);
                out.push(':');
                push_decimal(out, *port as u64);
            },
            SocketAddr::V6 { ip, port, flowinfo: _ } => {
                out.push('[');
                out.append(ip.as_str());
                out.push(']');
                out.push(':');
                push_decimal(out, *port as u64);
            },
        }
        assert(out@ =~= old(out)@ + self@.text());
    }

    /// The address in its usual notation.
    pub fn to_text(&self) -> (text: String)
        ensures
            text@ == self@.text(),
    {
        let mut text = String::new();
        self.push_text(&mut text);
        assert(text@ =~= self@.text());
        text
    }
}

impl Clone for SocketAddr {
    fn clone(&self) -> (copy: Self)
        ensures
            copy@ == self@,
    {
        match self {
            SocketAddr::V4 { octets, port } => SocketAddr::V4 { octets: *octets, port: *port },
            SocketAddr::V6 { ip, port, flowinfo } => SocketAddr::V6 {
                ip: ip.clone(),
                port: *port,
                flowinfo: *flowinfo,
            },
        }
    }
}

proof fn lemma_split_once(a: Seq<char>, b: Seq<char>, x: Seq<char>, y: Seq<char>, c: char)
    requires
        !a.contains(c),
        !b.contains(c),
        a + seq![c] + x == b + seq![c] + y,
    ensures
        a == b,
        x == y,
{
    let l = a + seq![c] + x;
    let r = b + seq![c] + y;
    if a.len() < b.len() {
        assert(l[a.len() as int] == c);
        assert(r[a.len() as int] == b[a.len() as int]);
    } else if b.len() < a.len() {
        assert(r[b.len() as int] == c);
        assert(l[b.len() as int] == a[b.len() as int]);
    }
    assert(a =~= b) by {
        assert forall|i: int| 0 <= i < a.len() implies a[i] == b[i] by {
            assert(l[i] == a[i] && r[i] == b[i]);
        }
    }
    let n = a.len() as int + 1;
    assert(l.skip(n) =~= x);
    assert(r.skip(n) =~= y);
}

proof fn lemma_decimal_has_no(n: nat, c: char)
    requires
        c < '0' || c > '9',
    ensures
        !decimal(n).contains(c),
{
    decimals_are_digits(n);
}

proof fn lemma_regrouped(
    a: Seq<char>,
    b: Seq<char>,
    c: Seq<char>,
    d: Seq<char>,
    port: Seq<char>,
)
    ensures
        a + seq!['.'] + b + seq!['.'] + c + seq!['.'] + d + seq![':'] + port == a + seq!['.'] + (b
            + seq!['.'] + (c + seq!['.'] + (d + seq![':'] + port))),
{
    assert(a + seq!['.'] + b + seq!['.'] + c + seq!['.'] + d + seq![':'] + port =~= a + seq!['.']
        + (b + seq!['.'] + (c + seq!['.'] + (d + seq![':'] + port))));
}

proof fn lemma_parts_told(
    a: (Seq<char>, Seq<char>, Seq<char>, Seq<char>, Seq<char>),
    b: (Seq<char>, Seq<char>, Seq<char>, Seq<char>, Seq<char>),
)
    requires
        !a.0.contains('.') && !b.0.contains('.'),
        !a.1.contains('.') && !b.1.contains('.'),
        !a.2.contains('.') && !b.2.contains('.'),
        !a.3.contains(':') && !b.3.contains(':'),
        a.0 + seq!['.'] + a.1 + seq!['.'] + a.2 + seq!['.'] + a.3 + seq![':'] + a.4 == b.0 + seq![
            '.',
        ] + b.1 + seq!['.'] + b.2 + seq!['.'] + b.3 + seq![':'] + b.4,
    ensures
        a == b,
{
    lemma_regrouped(a.0, a.1, a.2, a.3, a.4);
    lemma_regrouped(b.0, b.1, b.2, b.3, b.4);
    let a3 = a.3 + seq![':'] + a.4;
    let a2 = a.2 + seq!['.'] + a3;
    let a1 = a.1 + seq!['.'] + a2;
    let b3 = b.3 + seq![':'] + b.4;
    let b2 = b.2 + seq!['.'] + b3;
    let b1 = b.1 + seq!['.'] + b2;
    lemma_split_once(a.0, b.0, a1, b1, '.');
    lemma_split_once(a.1, b.1, a2, b2, '.');
    lemma_split_once(a.2, b.2, a3, b3, '.');
    lemma_split_once(a.3, b.3, a.4, b.4, ':');
}

/// Two IPv4 addresses with the same text are the same: each octet and the port
/// can be told from it.
pub proof fn v4_text_tells_the_address(a: Seq<u8>, p: u16, b: Seq<u8>, q: u16)
    requires
        a.len() == 4,
        b.len() == 4,
        (AddrView::V4 { octets: a, port: p }).text() == (AddrView::V4 {
            octets: b,
            port: q,
        }).text(),
    ensures
        a == b,
        p == q,
{
    lemma_decimal_has_no(a[0] as nat, '.');
    lemma_decimal_has_no(b[0] as nat, '.');
    lemma_decimal_has_no(a[1] as nat, '.');
    lemma_decimal_has_no(b[1] as nat, '.');
    lemma_decimal_has_no(a[2] as nat, '.');
    lemma_decimal_has_no(b[2] as nat, '.');
    lemma_decimal_has_no(a[3] as nat, ':');
    lemma_decimal_has_no(b[3] as nat, ':');
    lemma_parts_told(
        (
            decimal(a[0] as nat),
            decimal(a[1] as nat),
            decimal(a[2] as nat),
            decimal(a[3] as nat),
            decimal(p as nat),
        ),
        (
            decimal(b[0] as nat),
            decimal(b[1] as nat),
            decimal(b[2] as nat),
            decimal(b[3] as nat),
            decimal(q as nat),
        ),
    );
    decimal_is_injective(a[0] as nat, b[0] as nat);
    decimal_is_injective(a[1] as nat, b[1] as nat);
    decimal_is_injective(a[2] as nat, b[2] as nat);
    decimal_is_injective(a[3] as nat, b[3] as nat);
    decimal_is_injective(p as nat, q as nat);
    assert(a =~= b);
}

/// An IPv6 address stands in brackets before its port, and an IPv4 address
/// does not: the family can be told from the first character, and of an IPv6
/// address the rest from the text.
pub proof fn v6_text_stands_in_brackets(
    octets: Seq<u8>,
    ip: Seq<char>,
    port: u16,
    flowinfo: u32,
    other_ip: Seq<char>,
    other_port: u16,
    other_flowinfo: u32,
)
    requires
        !ip.contains(']'),
        !other_ip.contains(']'),
    ensures
        (AddrView::V6 { ip, port, flowinfo }).text()[0] == '[',
        (AddrView::V4 { octets, port }).text()[0] != '[',
        (AddrView::V6 { ip, port, flowinfo }).text() == (AddrView::V6 {
            ip: other_ip,
            port: other_port,
            flowinfo: other_flowinfo,
        }).text() ==> ip == other_ip && port == other_port,
{
    decimals_are_digits(octets[0] as nat);
    let left = (AddrView::V6 { ip, port, flowinfo }).text();
    let right = (AddrView::V6 {
        ip: other_ip,
        port: other_port,
        flowinfo: other_flowinfo,
    }).text();
    let rest = seq![':'] + decimal(port as nat);
    let other_rest = seq![':'] + decimal(other_port as nat);
    if left == right {
        assert(left.skip(1) =~= ip + seq![']'] + rest);
        assert(right.skip(1) =~= other_ip + seq![']'] + other_rest);
        lemma_split_once(ip, other_ip, rest, other_rest, ']');
        assert(rest.skip(1) =~= decimal(port as nat));
        assert(other_rest.skip(1) =~= decimal(other_port as nat));
        decimal_is_injective(port as nat, other_port as nat);
    }
}

} // verus!

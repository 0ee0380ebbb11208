//! UDP endpoints and their textual form.

use vstd::prelude::*;
use crate::text::{decimal, hex_digit, push_decimal};

verus! {

/// A UDP endpoint, with every part of a socket address: an IPv4 or IPv6
/// address (as a number, most significant byte first), a port, and for
/// IPv6 the flow label and the scope id.
#[derive(PartialEq, Eq, Structural, Clone, Copy, Debug)]
pub enum NetAddr {
    V4 { ip4: u32, port: u16 },
    /// An IPv6 address with its flow label and scope id (`SocketAddrV6`).
    V6 { ip6: u128, port: u16, flowinfo: u32, scope_id: u32 },
}

impl NetAddr {
    /// `0.0.0.0:port`.
    pub open spec fn spec_unspecified(port: u16) -> NetAddr {
        NetAddr::V4 { ip4: 0, port }
    }

    /// `0.0.0.0:port`.
    pub fn unspecified(port: u16) -> (a: NetAddr)
        ensures
            a == NetAddr::spec_unspecified(port),
    {
        NetAddr::V4 { ip4: 0, port }
    }
}

/// The dotted-quad text of an IPv4 address: `a.b.c.d`.
pub open spec fn ipv4_text(ip: u32) -> Seq<char> {
    decimal(ip as nat / 0x1000000) + "."@ + decimal((ip as nat / 0x10000) % 256) + "."@ + decimal(
        (ip as nat / 0x100) % 256,
    ) + "."@ + decimal(ip as nat % 256)
}

/// The last `n` base-65536 digits of `x`, most significant first.
pub open spec fn base65536_digits(x: nat, n: nat) -> Seq<u16>
    decreases n,
{
    if n == 0 {
        Seq::empty()
    } else {
        base65536_digits(x / 65536, (n - 1) as nat).push((x % 65536) as u16)
    }
}

/// The eight 16-bit groups of an IPv6 address, most significant first.
pub open spec fn ipv6_groups(ip: u128) -> Seq<u16> {
    base65536_digits(ip as nat, 8)
}

/// Lower-case hexadecimal without leading zeros (`{:x}`).
pub open spec fn hex_text(n: nat) -> Seq<char>
    decreases n,
{
    if n < 16 {
        seq![hex_digit(n as int)]
    } else {
        hex_text(n / 16).push(hex_digit((n % 16) as int))
    }
}

/// Groups written in hexadecimal and separated by colons.
pub open spec fn groups_text(g: Seq<u16>) -> Seq<char>
    decreases g.len(),
{
    if g.len() == 0 {
        Seq::empty()
    } else if g.len() == 1 {
        hex_text(g[0] as nat)
    } else {
        groups_text(g.drop_last()) + ":"@ + hex_text(g.last() as nat)
    }
}

/// The number of zero groups starting at index `i`.
pub open spec fn zero_run(g: Seq<u16>, i: int) -> nat
    decreases g.len() - i,
{
    if 0 <= i < g.len() && g[i] == 0 {
        1 + zero_run(g, i + 1)
    } else {
        0
    }
}

/// The first index from `i` on where the longest run of zero groups (of
/// those starting at `i` or later) begins.
pub open spec fn longest_zero_run_from(g: Seq<u16>, i: int) -> int
    decreases g.len() - i,
{
    if i >= g.len() - 1 {
        if i < 0 { 0 } else { i }
    } else {
        let later = longest_zero_run_from(g, i + 1);
        if zero_run(g, i) >= zero_run(g, later) {
            i
        } else {
            later
        }
    }
}

/// The text of an IPv6 address as std writes it: an IPv4-mapped address
/// as `::ffff:a.b.c.d`; otherwise the groups in hexadecimal, with the first
/// longest run of two or more zero groups written `::`.
pub open spec fn ipv6_text(ip: u128) -> Seq<char> {
    let g = ipv6_groups(ip);
    if g.take(5) == seq![0u16, 0u16, 0u16, 0u16, 0u16] && g[5] == 0xffff {
        "::ffff:"@ + ipv4_text((ip % 0x1_0000_0000) as u32)
    } else {
        let s = longest_zero_run_from(g, 0);
        let l = zero_run(g, s);
        if l > 1 {
            groups_text(g.take(s)) + "::"@ + groups_text(g.skip(s + l))
        } else {
            groups_text(g)
        }
    }
}

/// The text std gives for a socket address: `a.b.c.d:port` or `[v6]:port`.
pub open spec fn addr_text(a: NetAddr) -> Seq<char> {
    match a {
        NetAddr::V4 { ip4, port } => ipv4_text(ip4) + ":"@ + decimal(port as nat),
        NetAddr::V6 { ip6, port, scope_id, .. } => "["@ + ipv6_text(ip6) + (if scope_id == 0 {
            Seq::empty()
        } else {
            "%"@ + decimal(scope_id as nat)
        }) + "]:"@ + decimal(port as nat),
    }
}

fn push_ipv4(out: &mut String, ip: u32)
    ensures
        final(out)@ == old(out)@ + ipv4_text(ip),
{
    push_decimal(out, (ip / 0x1000000) as u64);
    out.append(".");
    push_decimal(out, ((ip / 0x10000) % 256) as u64);
    out.append(".");
    push_decimal(out, ((ip / 0x100) % 256) as u64);
    out.append(".");
    push_decimal(out, (ip % 256) as u64);
    assert(final(out)@ =~= old(out)@ + ipv4_text(ip));
}

fn push_hex(out: &mut String, n: u16)
    ensures
        final(out)@ == old(out)@ + hex_text(n as nat),
    decreases n,
{
    if n >= 16 {
        push_hex(out, n / 16);
    }
    let d = (n % 16) as u8;
    let c = if d < 10 { (d + 48) as char } else { (d + 87) as char };
    crate::text::push_char(out, c);
    assert(final(out)@ =~= old(out)@ + hex_text(n as nat));
}

fn push_groups(out: &mut String, g: &[u16])
    ensures
        final(out)@ == old(out)@ + groups_text(g@),
{
    let n = g.len();
    for i in 0..n
        invariant
            n == g@.len(),
            out@ == old(out)@ + groups_text(g@.take(i as int)),
    {
        assert(g@.take(i + 1).drop_last() =~= g@.take(i as int));
        if i > 0 {
            out.append(":");
        }
        push_hex(out, g[i]);
        assert(out@ =~= old(out)@ + groups_text(g@.take(i + 1)));
    }
    assert(g@.take(n as int) =~= g@);
}

fn groups_of(ip: u128) -> (g: Vec<u16>)
    ensures
        g@ == ipv6_groups(ip),
        g@.len() == 8,
{
    let mut g: Vec<u16> = vec![0u16, 0u16, 0u16, 0u16, 0u16, 0u16, 0u16, 0u16];
    let mut x: u128 = ip;
    let mut m: usize = 8;
    assert(g@.skip(8) =~= Seq::<u16>::empty());
    while m > 0
        invariant
            m <= 8,
            g@.len() == 8,
            ipv6_groups(ip) == base65536_digits(x as nat, m as nat) + g@.skip(m as int),
        decreases m,
    {
        let ghost before = g@;
        g.set(m - 1, (x % 65536) as u16);
        assert(g@.skip(m - 1) =~= seq![(x % 65536) as u16] + before.skip(m as int));
        assert(base65536_digits(x as nat, m as nat) =~= base65536_digits((x / 65536) as nat, (m - 1) as nat).push(
            (x % 65536) as u16,
        ));
        assert(base65536_digits(x as nat, m as nat) + before.skip(m as int) =~= base65536_digits(
            (x / 65536) as nat,
            (m - 1) as nat,
        ) + g@.skip(m - 1));
        x = x / 65536;
        m = m - 1;
    }
    assert(base65536_digits(x as nat, 0) =~= Seq::<u16>::empty());
    assert(g@.skip(0) =~= g@);
    assert(g@ =~= ipv6_groups(ip));
    g
}

/// The number of zero groups starting at `i`.
fn zero_run_exec(g: &[u16], i: usize) -> (r: usize)
    requires
        g@.len() == 8,
        i <= 8,
    ensures
        r == zero_run(g@, i as int),
        r <= 8 - i,
    decreases 8 - i,
{
    if i < 8 && g[i] == 0 {
        1 + zero_run_exec(g, i + 1)
    } else {
        0
    }
}

fn push_ipv6(out: &mut String, ip: u128)
    ensures
        final(out)@ == old(out)@ + ipv6_text(ip),
{
    let g = groups_of(ip);
    if g[0] == 0 && g[1] == 0 && g[2] == 0 && g[3] == 0 && g[4] == 0 && g[5] == 0xffff {
        assert(g@.take(5) =~= seq![0u16, 0u16, 0u16, 0u16, 0u16]);
        out.append("::ffff:");
        push_ipv4(out, (ip % 0x1_0000_0000) as u32);
        return;
    }
    assert(g@.take(5) != seq![0u16, 0u16, 0u16, 0u16, 0u16] || g@[5] != 0xffff) by {
        if g@.take(5) == seq![0u16, 0u16, 0u16, 0u16, 0u16] {
            assert(g@[0] == g@.take(5)[0]);
            assert(g@[1] == g@.take(5)[1]);
            assert(g@[2] == g@.take(5)[2]);
            assert(g@[3] == g@.take(5)[3]);
            assert(g@[4] == g@.take(5)[4]);
        }
    }
    let mut best: usize = 7;
    let mut i: usize = 7;
    while i > 0
        invariant
            0 < i <= 7 || i == 0,
            i <= best <= 7,
            g@.len() == 8,
            best as int == longest_zero_run_from(g@, i as int),
        decreases i,
    {
        i = i - 1;
        if zero_run_exec(g.as_slice(), i) >= zero_run_exec(g.as_slice(), best) {
            best = i;
        }
    }
    let len = zero_run_exec(g.as_slice(), best);
    if len > 1 {
        let mut head: Vec<u16> = Vec::new();
        let mut j: usize = 0;
        while j < best
            invariant
                j <= best <= 7,
                g@.len() == 8,
                head@ == g@.take(j as int),
            decreases best - j,
        {
            head.push(g[j]);
            assert(head@ =~= g@.take(j + 1));
            j = j + 1;
        }
        let mut tail: Vec<u16> = Vec::new();
        let mut k: usize = best + len;
        while k < 8
            invariant
                best + len <= k <= 8,
                g@.len() == 8,
                tail@ == g@.subrange(best + len, k as int),
            decreases 8 - k,
        {
            tail.push(g[k]);
            assert(tail@ =~= g@.subrange(best + len, k + 1));
            k = k + 1;
        }
        assert(tail@ =~= g@.skip(best + len));
        push_groups(out, head.as_slice());
        out.append("::");
        push_groups(out, tail.as_slice());
    } else {
        push_groups(out, g.as_slice());
    }
}

/// Appends the text of a socket address.
pub fn push_addr_text(out: &mut String, a: NetAddr)
    ensures
        final(out)@ == old(out)@ + addr_text(a),
{
    match a {
        NetAddr::V4 { ip4, port } => {
            push_ipv4(out, ip4);
            out.append(":");
            push_decimal(out, port as u64);
        },
        NetAddr::V6 { ip6, port, scope_id, .. } => {
            out.append("[");
            push_ipv6(out, ip6);
            if scope_id != 0 {
                out.append("%");
                push_decimal(out, scope_id as u64);
            }
            out.append("]:");
            push_decimal(out, port as u64);
        },
    }
    assert(final(out)@ =~= old(out)@ + addr_text(a));
}

/// The text of a socket address (`SocketAddr`'s `Display`).
pub fn addr_to_string(a: NetAddr) -> (s: String)
    ensures
        s@ == addr_text(a),
{
    let mut s = String::new();
    push_addr_text(&mut s, a);
    assert(s@ =~= addr_text(a));
    s
}

} // verus!

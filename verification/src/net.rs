//! Internet addresses: their text forms, networks, and which of them are
//! reachable from outside.

use vstd::arithmetic::power2::pow2;
use vstd::prelude::*;

use crate::digits::{lemma_value_grows, parse_number, value};
use crate::text::{chars_of, find, find_in, split, split_at_char, string_of, trim_end, trim_end_of, trim_start, trim_start_of, Class};

verus! {

/// An internet address of either family, by its numeric value.
#[derive(Clone, Copy, Debug, PartialEq, Eq, Structural)]
pub enum IpAddr {
    V4(u32),
    V6(u128),
}

// ---------------------------------------------------------------------------
// Version 4
// ---------------------------------------------------------------------------

/// The value of one part of a dotted address: one to three digits, at most
/// 255, and no leading zero.
pub open spec fn octet(s: Seq<char>) -> Option<int> {
    match value(s, 10) {
        Some(v) => if 1 <= s.len() <= 3 && v <= 255 && !(s.len() > 1 && s[0] == '0') {
            Some(v)
        } else {
            None
        },
        None => None,
    }
}

/// The address that four dotted parts write.
pub open spec fn ipv4(s: Seq<char>) -> Option<int> {
    let p = split(s, '.');
    if p.len() != 4 {
        None
    } else {
        match (octet(p[0]), octet(p[1]), octet(p[2]), octet(p[3])) {
            (Some(a), Some(b), Some(c), Some(d)) => Some(
                a * 0x100_0000 + b * 0x1_0000 + c * 0x100 + d,
            ),
            _ => None,
        }
    }
}

/// A sign in front makes text no run of digits.
proof fn lemma_no_plus(s: Seq<char>, radix: int)
    requires
        s.len() > 0,
        s[0] == '+',
        1 <= radix <= 16,
    ensures
        value(s, radix) is None,
{
    lemma_value_grows(s, 1, radix);
    assert(s.take(1).last() == '+');
}

fn octet_of(s: &str) -> (r: Option<u32>)
    ensures
        match r {
            Some(v) => octet(s@) == Some(v as int) && v <= 255,
            None => octet(s@) is None,
        },
{
    let v = chars_of(s);
    if v.len() == 0 || v.len() > 3 || (v.len() > 1 && v[0] == '0') {
        return None;
    }
    if v[0] == '+' {
        proof {
            lemma_no_plus(s@, 10);
        }
        return None;
    }
    match parse_number(s, 10, 255) {
        Some(n) => Some(n as u32),
        None => None,
    }
}

/// The address that four dotted parts write.
pub fn parse_ipv4(s: &str) -> (r: Option<u32>)
    ensures
        match r {
            Some(v) => ipv4(s@) == Some(v as int),
            None => ipv4(s@) is None,
        },
{
    let p = split_at_char(s, '.');
    let ghost parts = split(s@, '.');
    if p.len() != 4 {
        assert(parts.len() != 4);
        return None;
    }
    assert(parts[0] == p@[0]@ && parts[1] == p@[1]@ && parts[2] == p@[2]@ && parts[3] == p@[3]@);
    match (
        octet_of(p[0].as_str()),
        octet_of(p[1].as_str()),
        octet_of(p[2].as_str()),
        octet_of(p[3].as_str()),
    ) {
        (Some(a), Some(b), Some(c), Some(d)) => Some(
            a * 0x100_0000 + b * 0x1_0000 + c * 0x100 + d,
        ),
        _ => None,
    }
}

// ---------------------------------------------------------------------------
// Version 6
// ---------------------------------------------------------------------------

/// The value of one group: one to four hexadecimal digits.
pub open spec fn group(s: Seq<char>) -> Option<int> {
    if 1 <= s.len() <= 4 {
        value(s, 16)
    } else {
        None
    }
}

/// The values of a list of groups.
pub open spec fn groups(p: Seq<Seq<char>>) -> Option<Seq<int>>
    decreases p.len(),
{
    if p.len() == 0 {
        Some(Seq::empty())
    } else {
        match (groups(p.drop_last()), group(p.last())) {
            (Some(g), Some(v)) => Some(g.push(v)),
            _ => None,
        }
    }
}

/// The groups on one side of a double colon, or of an address without one. The
/// last of them may be a dotted address, which counts for two.
pub open spec fn side(s: Seq<char>, dotted: bool) -> Option<Seq<int>> {
    if s.len() == 0 {
        Some(Seq::empty())
    } else {
        let p = split(s, ':');
        match ipv4(p.last()) {
            Some(a) => if dotted {
                match groups(p.drop_last()) {
                    Some(g) => Some(g.push(a / 0x1_0000).push(a % 0x1_0000)),
                    None => None,
                }
            } else {
                None
            },
            None => groups(p),
        }
    }
}

/// The number that groups of sixteen bits make.
pub open spec fn bits_of(g: Seq<int>) -> int
    decreases g.len(),
{
    if g.len() == 0 {
        0
    } else {
        bits_of(g.drop_last()) * 0x1_0000 + g.last()
    }
}

/// The eight groups of an address: all of them, or fewer with a double colon
/// in the place of at least one group of zero.
pub open spec fn ipv6_groups(s: Seq<char>) -> Option<Seq<int>> {
    match find(s, "::"@, 0) {
        Some(i) => match (side(s.take(i), false), side(s.skip(i + 2), true)) {
            (Some(h), Some(t)) => if h.len() + t.len() <= 7 {
                Some(h + Seq::new((8 - h.len() - t.len()) as nat, |j: int| 0int) + t)
            } else {
                None
            },
            _ => None,
        },
        None => match side(s, true) {
            Some(g) => if g.len() == 8 {
                Some(g)
            } else {
                None
            },
            None => None,
        },
    }
}

/// The address of version 6 that `s` writes.
pub open spec fn ipv6(s: Seq<char>) -> Option<int> {
    match ipv6_groups(s) {
        Some(g) => Some(bits_of(g)),
        None => None,
    }
}

/// The views of groups as integers.
pub open spec fn ints(g: Seq<u32>) -> Seq<int> {
    g.map_values(|x: u32| x as int)
}

fn group_of(s: &str) -> (r: Option<u32>)
    ensures
        match r {
            Some(v) => group(s@) == Some(v as int) && v <= 0xffff,
            None => group(s@) is None,
        },
{
    let v = chars_of(s);
    if v.len() == 0 || v.len() > 4 {
        return None;
    }
    if v[0] == '+' {
        proof {
            lemma_no_plus(s@, 16);
        }
        return None;
    }
    proof {
        lemma_four_digits(s@);
    }
    match parse_number(s, 16, 0xffff) {
        Some(n) => Some(n as u32),
        None => None,
    }
}

/// Four hexadecimal digits write at most 0xffff.
proof fn lemma_four_digits(s: Seq<char>)
    requires
        s.len() <= 4,
    ensures
        value(s, 16) is Some ==> 0 <= value(s, 16)->0 <= 0xffff,
{
    lemma_digits_bound(s, 16);
    assert(0x10 * 0x10 * 0x10 * 0x10 == 0x10000);
    reveal_with_fuel(bound, 5);
}

/// One more than the greatest value of `n` digits.
spec fn bound(n: nat) -> int
    decreases n,
{
    if n == 0 {
        1
    } else {
        16 * bound((n - 1) as nat)
    }
}

proof fn lemma_digits_bound(s: Seq<char>, radix: int)
    requires
        radix == 16,
    ensures
        value(s, radix) is Some ==> 0 <= value(s, radix)->0 < bound(s.len()),
    decreases s.len(),
{
    if s.len() > 0 {
        lemma_digits_bound(s.drop_last(), radix);
    }
}

fn groups_of(p: &Vec<String>, n: usize) -> (r: Option<Vec<u32>>)
    requires
        n <= p.len(),
    ensures
        match r {
            Some(g) => groups(p.deep_view().take(n as int)) == Some(ints(g@)) && forall|j: int|
                0 <= j < g@.len() ==> g@[j] <= 0xffff,
            None => groups(p.deep_view().take(n as int)) is None,
        },
{
    let ghost all = p.deep_view();
    let mut out: Vec<u32> = Vec::new();
    let mut i: usize = 0;
    assert(all.take(0) =~= Seq::<Seq<char>>::empty());
    assert(ints(out@) =~= Seq::<int>::empty());
    while i < n
        invariant
            i <= n <= p.len(),
            all == p.deep_view(),
            groups(all.take(i as int)) == Some(ints(out@)),
            forall|j: int| 0 <= j < out@.len() ==> out@[j] <= 0xffff,
        decreases n - i,
    {
        let ghost q = all.take(i + 1);
        assert(q.drop_last() =~= all.take(i as int));
        assert(q.last() == p@[i as int]@);
        match group_of(p[i].as_str()) {
            Some(v) => {
                let ghost before = out@;
                out.push(v);
                assert(ints(out@) =~= ints(before).push(v as int));
            },
            None => {
                proof {
                    lemma_groups_prefix(all.take(n as int), i + 1);
                    assert(all.take(n as int).take(i + 1) =~= q);
                }
                return None;
            },
        }
        i = i + 1;
    }
    Some(out)
}

/// A list with a part that holds no groups holds no groups.
proof fn lemma_groups_prefix(p: Seq<Seq<char>>, i: int)
    requires
        0 <= i <= p.len(),
        groups(p.take(i)) is None,
    ensures
        groups(p) is None,
    decreases p.len(),
{
    if i == p.len() {
        assert(p.take(i) =~= p);
    } else {
        assert(p.drop_last().take(i) =~= p.take(i));
        lemma_groups_prefix(p.drop_last(), i);
    }
}

fn side_of(s: &str, dotted: bool) -> (r: Option<Vec<u32>>)
    ensures
        match r {
            Some(g) => side(s@, dotted) == Some(ints(g@)) && forall|j: int|
                0 <= j < g@.len() ==> g@[j] <= 0xffff,
            None => side(s@, dotted) is None,
        },
{
    if s.is_empty() {
        let out: Vec<u32> = Vec::new();
        assert(ints(out@) =~= Seq::<int>::empty());
        return Some(out);
    }
    let p = split_at_char(s, ':');
    let ghost all = p.deep_view();
    let n: usize = p.len();
    assert(all.len() > 0);
    assert(all.last() == p@[n - 1]@);
    match parse_ipv4(p[n - 1].as_str()) {
        Some(a) => {
            if !dotted {
                return None;
            }
            assert(all.take(n - 1) =~= all.drop_last());
            match groups_of(&p, n - 1) {
                Some(g) => {
                    let mut g = g;
                    let ghost before = g@;
                    g.push(a / 0x1_0000);
                    g.push(a % 0x1_0000);
                    assert(ints(g@) =~= ints(before).push(a as int / 0x1_0000).push(
                        a as int % 0x1_0000,
                    ));
                    Some(g)
                },
                None => None,
            }
        },
        None => {
            assert(all.take(n as int) =~= all);
            groups_of(&p, n)
        },
    }
}

/// The groups of `g` make a number of as many times sixteen bits.
fn gather(g: &Vec<u32>) -> (r: u128)
    requires
        g@.len() == 8,
        forall|j: int| 0 <= j < g@.len() ==> g@[j] <= 0xffff,
    ensures
        r == bits_of(ints(g@)),
{
    let ghost all = ints(g@);
    let mut acc: u128 = 0;
    let mut i: usize = 0;
    assert(all.take(0) =~= Seq::<int>::empty());
    proof {
        reveal_with_fuel(room, 9);
    }
    while i < 8
        invariant
            i <= 8,
            g@.len() == 8,
            all == ints(g@),
            forall|j: int| 0 <= j < g@.len() ==> g@[j] <= 0xffff,
            acc == bits_of(all.take(i as int)),
            acc < room(i as nat),
            room(8) == 0x1_0000_0000_0000_0000_0000_0000_0000_0000,
        decreases 8 - i,
    {
        assert(all.take(i + 1).drop_last() =~= all.take(i as int));
        proof {
            lemma_room(i as nat + 1);
        }
        acc = acc * 0x1_0000 + g[i] as u128;
        i = i + 1;
    }
    assert(all.take(8) =~= all);
    acc
}

/// One more than the greatest number of `n` groups.
spec fn room(n: nat) -> int
    decreases n,
{
    if n == 0 {
        1
    } else {
        0x1_0000 * room((n - 1) as nat)
    }
}

proof fn lemma_room(n: nat)
    requires
        n <= 8,
    ensures
        0 < room(n) <= room(8),
    decreases 8 - n,
{
    reveal_with_fuel(room, 9);
}

/// The address of version 6 that `s` writes.
pub fn parse_ipv6(s: &str) -> (r: Option<u128>)
    ensures
        match r {
            Some(v) => ipv6(s@) == Some(v as int),
            None => ipv6(s@) is None,
        },
{
    let v = chars_of(s);
    let n: usize = v.len();
    let c = chars_of("::");
    proof {
        reveal_strlit("::");
    }
    match find_in(v.as_slice(), c.as_slice(), 0) {
        Some(i) => {
            let head = string_of(v.as_slice(), 0, i);
            let tail = string_of(v.as_slice(), i + 2, n);
            assert(head@ =~= s@.take(i as int));
            assert(tail@ =~= s@.skip(i + 2));
            match (side_of(head.as_str(), false), side_of(tail.as_str(), true)) {
                (Some(h), Some(t)) => {
                    let hn: usize = h.len();
                    let tn: usize = t.len();
                    if hn > 7 || tn > 7 - hn {
                        return None;
                    }
                    let mut g = h;
                    let ghost hs = ints(h@);
                    let ghost zeros = Seq::new((8 - hn - tn) as nat, |j: int| 0int);
                    let mut k: usize = 0;
                    let gap: usize = 8 - hn - tn;
                    assert(ints(g@) =~= hs + zeros.take(0));
                    while k < gap
                        invariant
                            k <= gap,
                            gap == 8 - hn - tn,
                            hn + tn <= 7,
                            zeros == Seq::new((8 - hn - tn) as nat, |j: int| 0int),
                            ints(g@) == hs + zeros.take(k as int),
                            forall|j: int| 0 <= j < g@.len() ==> g@[j] <= 0xffff,
                        decreases gap - k,
                    {
                        let ghost before = g@;
                        g.push(0);
                        assert(ints(g@) =~= ints(before).push(0));
                        assert(hs + zeros.take(k + 1) =~= (hs + zeros.take(k as int)).push(0));
                        k = k + 1;
                    }
                    assert(zeros.take(gap as int) =~= zeros);
                    let ghost front = ints(g@);
                    let ghost ts = ints(t@);
                    let mut m: usize = 0;
                    assert(ints(g@) =~= front + ts.take(0));
                    while m < tn
                        invariant
                            m <= tn,
                            tn == t@.len(),
                            ts == ints(t@),
                            ints(g@) == front + ts.take(m as int),
                            forall|j: int| 0 <= j < g@.len() ==> g@[j] <= 0xffff,
                            forall|j: int| 0 <= j < t@.len() ==> t@[j] <= 0xffff,
                        decreases tn - m,
                    {
                        let ghost before = g@;
                        g.push(t[m]);
                        assert(ints(g@) =~= ints(before).push(ts[m as int]));
                        assert(front + ts.take(m + 1) =~= (front + ts.take(m as int)).push(
                            ts[m as int],
                        ));
                        m = m + 1;
                    }
                    assert(ts.take(tn as int) =~= ts);
                    assert(ints(g@).len() == 8);
                    Some(gather(&g))
                },
                _ => None,
            }
        },
        None => {
            match side_of(s, true) {
                Some(g) => {
                    assert(ints(g@).len() == g@.len());
                    if g.len() == 8 {
                        Some(gather(&g))
                    } else {
                        None
                    }
                },
                None => None,
            }
        },
    }
}

/// The address that `s` writes, of either family.
pub open spec fn address(s: Seq<char>) -> Option<IpAddr> {
    match ipv4(s) {
        Some(a) => Some(IpAddr::V4(a as u32)),
        None => match ipv6(s) {
            Some(b) => Some(IpAddr::V6(b as u128)),
            None => None,
        },
    }
}

impl IpAddr {
    /// The address that `s` writes, of either family.
    pub fn parse(s: &str) -> (r: Option<IpAddr>)
        ensures
            r == address(s@),
    {
        match parse_ipv4(s) {
            Some(a) => Some(IpAddr::V4(a)),
            None => match parse_ipv6(s) {
                Some(b) => Some(IpAddr::V6(b)),
                None => None,
            },
        }
    }
}

// ---------------------------------------------------------------------------
// Networks
// ---------------------------------------------------------------------------

/// Whether two numbers of `width` bits agree in their first `bits` bits.
pub open spec fn same_start(a: int, b: int, width: int, bits: int) -> bool {
    bits <= 0 || bits < width && a / pow2((width - bits) as nat) as int == b / pow2(
        (width - bits) as nat,
    ) as int || bits >= width && a == b
}

/// Whether `ip` lies in the network of the first `bits` bits of `net`.
pub open spec fn in_network(net: IpAddr, bits: u8, ip: IpAddr) -> bool {
    match (net, ip) {
        (IpAddr::V4(n), IpAddr::V4(i)) => same_start(n as int, i as int, 32, bits as int),
        (IpAddr::V6(n), IpAddr::V6(i)) => same_start(n as int, i as int, 128, bits as int),
        _ => false,
    }
}

/// Whether `ip` lies in the network of the first `bits` bits of `net`.
pub fn cidr_contains(net: IpAddr, bits: u8, ip: IpAddr) -> (r: bool)
    ensures
        r == in_network(net, bits, ip),
{
    match (net, ip) {
        (IpAddr::V4(n), IpAddr::V4(i)) => {
            if bits == 0 {
                true
            } else if bits >= 32 {
                n == i
            } else {
                let shift: u32 = 32 - bits as u32;
                proof {
                    vstd::bits::lemma_u32_shr_is_div(n, shift);
                    vstd::bits::lemma_u32_shr_is_div(i, shift);
                }
                (n >> shift) == (i >> shift)
            }
        },
        (IpAddr::V6(n), IpAddr::V6(i)) => {
            if bits == 0 {
                true
            } else if bits >= 128 {
                n == i
            } else {
                let shift: u128 = 128 - bits as u128;
                proof {
                    vstd::bits::lemma_u128_shr_is_div(n, shift);
                    vstd::bits::lemma_u128_shr_is_div(i, shift);
                }
                (n >> shift) == (i >> shift)
            }
        },
        _ => false,
    }
}

/// Whether an address is the wildcard, or one that is neither of this machine
/// nor of a private or link-local network.
pub open spec fn is_public(ip: IpAddr) -> bool {
    match ip {
        IpAddr::V4(a) => {
            let first = a / 0x100_0000;
            let second = (a / 0x1_0000) % 0x100;
            a == 0 || !(first == 127 || first == 10 || (first == 172 && 16 <= second < 32) || (first
                == 192 && second == 168) || (first == 169 && second == 254))
        },
        IpAddr::V6(b) => {
            let first = b / 0x1_0000_0000_0000_0000_0000_0000_0000;
            b == 0 || !(b == 1 || 0xfc00 <= first < 0xfe00 || 0xfe80 <= first < 0xfec0)
        },
    }
}

/// Whether the listen address `s`, which may stand in square brackets, is one
/// that a public client could reach.
pub open spec fn public_addr(s: Seq<char>) -> bool {
    match address(trim_end(trim_start(s, Class::One('[')), Class::One(']'))) {
        Some(ip) => is_public(ip),
        None => false,
    }
}

/// Whether the listen address `listen` is one that a public client could reach.
pub fn is_public_addr(listen: &str) -> (r: bool)
    ensures
        r == public_addr(listen@),
{
    let open = trim_start_of(listen, Class::One('['));
    let trimmed = trim_end_of(open.as_str(), Class::One(']'));
    match IpAddr::parse(trimmed.as_str()) {
        None => false,
        Some(IpAddr::V4(a)) => {
            let first: u32 = a / 0x100_0000;
            let second: u32 = (a / 0x1_0000) % 0x100;
            a == 0 || !(first == 127 || first == 10 || (first == 172 && 16 <= second && second < 32)
                || (first == 192 && second == 168) || (first == 169 && second == 254))
        },
        Some(IpAddr::V6(b)) => {
            let first: u128 = b / 0x1_0000_0000_0000_0000_0000_0000_0000;
            b == 0 || !(b == 1 || (0xfc00 <= first && first < 0xfe00) || (0xfe80 <= first && first
                < 0xfec0))
        },
    }
}

} // verus!

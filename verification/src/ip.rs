//! Textual IP address parsing and the address classes the relay classifier
//! needs (loopback, IPv4 private ranges).
//!
//! The grammar is the usual one: four decimal octets for IPv4 (no leading
//! zeros, each at most 255), and for IPv6 up to eight groups of at most four
//! hex digits, at most one `::` run, with an optional embedded IPv4 address in
//! the trailing position.

use vstd::prelude::*;

verus! {

/// A parsed IP address, reduced to the numeric form the classifier reads.
#[derive(Clone, Copy, Debug, PartialEq, Eq, Structural)]
pub enum IpParsed {
    V4 { a: u8, b: u8, c: u8, d: u8 },
    V6 { g0: u16, g1: u16, g2: u16, g3: u16, g4: u16, g5: u16, g6: u16, g7: u16 },
}

pub open spec fn spec_is_dec_digit(c: char) -> bool {
    '0' <= c && c <= '9'
}

pub open spec fn spec_dec_val(c: char) -> int {
    c as int - '0' as int
}

pub open spec fn spec_is_hex_digit(c: char) -> bool {
    spec_is_dec_digit(c) || ('a' <= c && c <= 'f') || ('A' <= c && c <= 'F')
}

pub open spec fn spec_hex_val(c: char) -> int {
    if spec_is_dec_digit(c) {
        spec_dec_val(c)
    } else if 'a' <= c && c <= 'f' {
        c as int - 'a' as int + 10
    } else {
        c as int - 'A' as int + 10
    }
}

/// Length of the run of decimal digits starting at `i`.
pub open spec fn dec_run(s: Seq<char>, i: int) -> int
    decreases s.len() - i,
{
    if 0 <= i < s.len() && spec_is_dec_digit(s[i]) {
        1 + dec_run(s, i + 1)
    } else {
        0
    }
}

/// Length of the run of hex digits starting at `i`.
pub open spec fn hex_run(s: Seq<char>, i: int) -> int
    decreases s.len() - i,
{
    if 0 <= i < s.len() && spec_is_hex_digit(s[i]) {
        1 + hex_run(s, i + 1)
    } else {
        0
    }
}

/// Value of the `d` decimal digits starting at `i`.
pub open spec fn dec_val_run(s: Seq<char>, i: int, d: int) -> int
    decreases d,
{
    if d <= 0 {
        0
    } else {
        dec_val_run(s, i, d - 1) * 10 + spec_dec_val(s[i + d - 1])
    }
}

/// Value of the `d` hex digits starting at `i`.
pub open spec fn hex_val_run(s: Seq<char>, i: int, d: int) -> int
    decreases d,
{
    if d <= 0 {
        0
    } else {
        hex_val_run(s, i, d - 1) * 16 + spec_hex_val(s[i + d - 1])
    }
}

pub open spec fn pow_of(base: int, e: int) -> int
    decreases e,
{
    if e <= 0 {
        1
    } else {
        base * pow_of(base, e - 1)
    }
}

proof fn lemma_dec_run_facts(s: Seq<char>, i: int)
    requires
        0 <= i <= s.len(),
    ensures
        0 <= dec_run(s, i),
        i + dec_run(s, i) <= s.len(),
        forall|j: int| i <= j < i + dec_run(s, i) ==> spec_is_dec_digit(s[j]),
        i + dec_run(s, i) == s.len() || !spec_is_dec_digit(s[i + dec_run(s, i)]),
    decreases s.len() - i,
{
    if i < s.len() && spec_is_dec_digit(s[i]) {
        lemma_dec_run_facts(s, i + 1);
    }
}

proof fn lemma_hex_run_facts(s: Seq<char>, i: int)
    requires
        0 <= i <= s.len(),
    ensures
        0 <= hex_run(s, i),
        i + hex_run(s, i) <= s.len(),
        forall|j: int| i <= j < i + hex_run(s, i) ==> spec_is_hex_digit(s[j]),
        i + hex_run(s, i) == s.len() || !spec_is_hex_digit(s[i + hex_run(s, i)]),
    decreases s.len() - i,
{
    if i < s.len() && spec_is_hex_digit(s[i]) {
        lemma_hex_run_facts(s, i + 1);
    }
}

proof fn lemma_dec_run_split(s: Seq<char>, i: int, j: int)
    requires
        0 <= i <= j <= s.len(),
        forall|k: int| i <= k < j ==> spec_is_dec_digit(s[k]),
    ensures
        dec_run(s, i) == (j - i) + dec_run(s, j),
    decreases j - i,
{
    if i < j {
        lemma_dec_run_split(s, i + 1, j);
    }
}

proof fn lemma_hex_run_split(s: Seq<char>, i: int, j: int)
    requires
        0 <= i <= j <= s.len(),
        forall|k: int| i <= k < j ==> spec_is_hex_digit(s[k]),
    ensures
        hex_run(s, i) == (j - i) + hex_run(s, j),
    decreases j - i,
{
    if i < j {
        lemma_hex_run_split(s, i + 1, j);
    }
}

proof fn lemma_dec_val_run_bound(s: Seq<char>, i: int, d: int)
    requires
        0 <= i,
        0 <= d,
        i + d <= s.len(),
        forall|j: int| i <= j < i + d ==> spec_is_dec_digit(s[j]),
    ensures
        0 <= dec_val_run(s, i, d) < pow_of(10, d),
    decreases d,
{
    if d > 0 {
        lemma_dec_val_run_bound(s, i, d - 1);
    }
}

proof fn lemma_hex_val_run_bound(s: Seq<char>, i: int, d: int)
    requires
        0 <= i,
        0 <= d,
        i + d <= s.len(),
        forall|j: int| i <= j < i + d ==> spec_is_hex_digit(s[j]),
    ensures
        0 <= hex_val_run(s, i, d) < pow_of(16, d),
    decreases d,
{
    if d > 0 {
        lemma_hex_val_run_bound(s, i, d - 1);
    }
}

fn is_dec_digit(c: char) -> (r: bool)
    ensures
        r == spec_is_dec_digit(c),
{
    '0' <= c && c <= '9'
}

fn is_hex_digit(c: char) -> (r: bool)
    ensures
        r == spec_is_hex_digit(c),
{
    ('0' <= c && c <= '9') || ('a' <= c && c <= 'f') || ('A' <= c && c <= 'F')
}

fn dec_digit_val(c: char) -> (r: u32)
    requires
        spec_is_dec_digit(c),
    ensures
        r == spec_dec_val(c),
{
    c as u32 - '0' as u32
}

fn hex_digit_val(c: char) -> (r: u32)
    requires
        spec_is_hex_digit(c),
    ensures
        r == spec_hex_val(c),
{
    if '0' <= c && c <= '9' {
        c as u32 - '0' as u32
    } else if 'a' <= c && c <= 'f' {
        c as u32 - 'a' as u32 + 10
    } else {
        c as u32 - 'A' as u32 + 10
    }
}

/// Scan the run of decimal digits starting at `i`.
fn scan_dec_run(s: &str, i: usize, len: usize) -> (r: usize)
    requires
        len == s@.len(),
        i <= len,
    ensures
        r == dec_run(s@, i as int),
{
    let mut j: usize = i;
    while j < len && is_dec_digit(s.get_char(j))
        invariant
            i <= j <= len,
            len == s@.len(),
            forall|k: int| i <= k < j ==> spec_is_dec_digit(s@[k]),
        decreases len - j,
    {
        j += 1;
    }
    proof {
        lemma_dec_run_split(s@, i as int, j as int);
    }
    j - i
}

/// Scan the run of hex digits starting at `i`.
fn scan_hex_run(s: &str, i: usize, len: usize) -> (r: usize)
    requires
        len == s@.len(),
        i <= len,
    ensures
        r == hex_run(s@, i as int),
{
    let mut j: usize = i;
    while j < len && is_hex_digit(s.get_char(j))
        invariant
            i <= j <= len,
            len == s@.len(),
            forall|k: int| i <= k < j ==> spec_is_hex_digit(s@[k]),
        decreases len - j,
    {
        j += 1;
    }
    proof {
        lemma_hex_run_split(s@, i as int, j as int);
    }
    j - i
}

/// A decimal octet as it appears in an IPv4 address: one to three digits, no
/// leading zero, value at most 255. The whole digit run at `i` must fit that
/// shape; a longer run fails rather than stopping early.
pub open spec fn spec_parse_octet(s: Seq<char>, i: int) -> Option<(u8, int)> {
    let d = dec_run(s, i);
    if 1 <= d <= 3 && !(d > 1 && s[i] == '0') && dec_val_run(s, i, d) <= 255 {
        Some((dec_val_run(s, i, d) as u8, i + d))
    } else {
        None
    }
}

fn parse_octet(s: &str, i: usize, len: usize) -> (r: Option<(u8, usize)>)
    requires
        len == s@.len(),
        i <= len,
    ensures
        match r {
            Some((v, j)) => spec_parse_octet(s@, i as int) == Some((v, j as int)) && j <= len,
            None => spec_parse_octet(s@, i as int) is None,
        },
{
    proof {
        lemma_dec_run_facts(s@, i as int);
    }
    let d = scan_dec_run(s, i, len);
    if d < 1 || d > 3 {
        return None;
    }
    if d > 1 && s.get_char(i) == '0' {
        return None;
    }
    let mut v: u32 = 0;
    let mut k: usize = 0;
    while k < d
        invariant
            0 <= k <= d,
            1 <= d <= 3,
            len == s@.len(),
            i + d <= len,
            d == dec_run(s@, i as int),
            forall|j: int| i <= j < i + d ==> spec_is_dec_digit(s@[j]),
            v == dec_val_run(s@, i as int, k as int),
            v < 1000,
        decreases d - k,
    {
        let c = s.get_char(i + k);
        proof {
            lemma_dec_val_run_bound(s@, i as int, (k + 1) as int);
            assert(pow_of(10, 0) == 1);
            assert(pow_of(10, 1) == 10);
            assert(pow_of(10, 2) == 100);
            assert(pow_of(10, 3) == 1000);
        }
        v = v * 10 + dec_digit_val(c);
        k += 1;
    }
    if v <= 255 {
        Some((v as u8, i + d))
    } else {
        None
    }
}

/// A hex group in an IPv6 address: one to four hex digits (leading zeros
/// allowed). The whole run at `i` must be at most four digits.
pub open spec fn spec_parse_group(s: Seq<char>, i: int) -> Option<(u16, int)> {
    let d = hex_run(s, i);
    if 1 <= d <= 4 {
        Some((hex_val_run(s, i, d) as u16, i + d))
    } else {
        None
    }
}

fn parse_group(s: &str, i: usize, len: usize) -> (r: Option<(u16, usize)>)
    requires
        len == s@.len(),
        i <= len,
    ensures
        match r {
            Some((v, j)) => spec_parse_group(s@, i as int) == Some((v, j as int)) && j <= len,
            None => spec_parse_group(s@, i as int) is None,
        },
{
    proof {
        lemma_hex_run_facts(s@, i as int);
    }
    let d = scan_hex_run(s, i, len);
    if d < 1 || d > 4 {
        return None;
    }
    let mut v: u32 = 0;
    let mut k: usize = 0;
    while k < d
        invariant
            0 <= k <= d,
            1 <= d <= 4,
            len == s@.len(),
            i + d <= len,
            d == hex_run(s@, i as int),
            forall|j: int| i <= j < i + d ==> spec_is_hex_digit(s@[j]),
            v == hex_val_run(s@, i as int, k as int),
            v < 0x10000,
        decreases d - k,
    {
        let c = s.get_char(i + k);
        proof {
            lemma_hex_val_run_bound(s@, i as int, (k + 1) as int);
            assert(pow_of(16, 0) == 1);
            assert(pow_of(16, 1) == 16);
            assert(pow_of(16, 2) == 256);
            assert(pow_of(16, 3) == 4096);
            assert(pow_of(16, 4) == 0x10000);
        }
        v = v * 16 + hex_digit_val(c);
        k += 1;
    }
    proof {
        lemma_hex_val_run_bound(s@, i as int, d as int);
    }
    Some((v as u16, i + d))
}

/// Four octets separated by dots, starting at `i`.
pub open spec fn spec_parse_ipv4_at(s: Seq<char>, i: int) -> Option<((u8, u8, u8, u8), int)> {
    match spec_parse_octet(s, i) {
        None => None,
        Some((a, i1)) => if i1 < s.len() && s[i1] == '.' {
            match spec_parse_octet(s, i1 + 1) {
                None => None,
                Some((b, i2)) => if i2 < s.len() && s[i2] == '.' {
                    match spec_parse_octet(s, i2 + 1) {
                        None => None,
                        Some((c, i3)) => if i3 < s.len() && s[i3] == '.' {
                            match spec_parse_octet(s, i3 + 1) {
                                None => None,
                                Some((d, i4)) => Some(((a, b, c, d), i4)),
                            }
                        } else {
                            None
                        },
                    }
                } else {
                    None
                },
            }
        } else {
            None
        },
    }
}

fn parse_ipv4_at(s: &str, i: usize, len: usize) -> (r: Option<((u8, u8, u8, u8), usize)>)
    requires
        len == s@.len(),
        i <= len,
    ensures
        match r {
            Some((oct, n)) => spec_parse_ipv4_at(s@, i as int) == Some((oct, n as int)) && i <= n
                <= len,
            None => spec_parse_ipv4_at(s@, i as int) is None,
        },
{
    let (a, i1) = match parse_octet(s, i, len) {
        Some(p) => p,
        None => {
            return None;
        },
    };
    if !(i1 < len && s.get_char(i1) == '.') {
        return None;
    }
    let (b, i2) = match parse_octet(s, i1 + 1, len) {
        Some(p) => p,
        None => {
            return None;
        },
    };
    if !(i2 < len && s.get_char(i2) == '.') {
        return None;
    }
    let (c, i3) = match parse_octet(s, i2 + 1, len) {
        Some(p) => p,
        None => {
            return None;
        },
    };
    if !(i3 < len && s.get_char(i3) == '.') {
        return None;
    }
    let (d, i4) = match parse_octet(s, i3 + 1, len) {
        Some(p) => p,
        None => {
            return None;
        },
    };
    Some(((a, b, c, d), i4))
}

/// Reads colon-separated groups starting at slot `k` of `limit`, mirroring the
/// usual IPv6 textual grammar: at each slot but the last, an embedded IPv4
/// address may stand instead and fills two groups, ending the list.
/// Returns the groups read, the next position, and whether an embedded IPv4
/// address was read.
pub open spec fn spec_read_groups(s: Seq<char>, i: int, k: int, limit: int) -> (Seq<u16>, int, bool)
    decreases limit - k,
{
    if k >= limit {
        (Seq::<u16>::empty(), i, false)
    } else {
        let j = if k == 0 {
            i
        } else {
            i + 1
        };
        let sep_ok = k == 0 || (0 <= i < s.len() && s[i] == ':');
        if !sep_ok {
            (Seq::<u16>::empty(), i, false)
        } else if k + 1 < limit && spec_parse_ipv4_at(s, j) is Some {
            let (oct, ni) = spec_parse_ipv4_at(s, j).unwrap();
            (
                seq![
                    ((oct.0 as int) * 256 + (oct.1 as int)) as u16,
                    ((oct.2 as int) * 256 + (oct.3 as int)) as u16,
                ],
                ni,
                true,
            )
        } else {
            match spec_parse_group(s, j) {
                Some((g, ni)) => {
                    let rest = spec_read_groups(s, ni, k + 1, limit);
                    (seq![g] + rest.0, rest.1, rest.2)
                },
                None => (Seq::<u16>::empty(), i, false),
            }
        }
    }
}

fn read_groups(s: &str, i: usize, k: usize, limit: usize, len: usize) -> (r: (Vec<u16>, usize, bool))
    requires
        len == s@.len(),
        i <= len,
        k <= limit,
        limit <= 8,
    ensures
        ({
            let sp = spec_read_groups(s@, i as int, k as int, limit as int);
            &&& r.0@ == sp.0
            &&& r.1 as int == sp.1
            &&& r.2 == sp.2
            &&& r.0.len() + k <= limit
            &&& i <= r.1 <= len
        }),
    decreases limit - k,
{
    if k >= limit {
        return (Vec::new(), i, false);
    }
    let sep_ok = k == 0 || (i < len && s.get_char(i) == ':');
    if !sep_ok {
        return (Vec::new(), i, false);
    }
    let j = if k == 0 {
        i
    } else {
        i + 1
    };
    if k + 1 < limit {
        match parse_ipv4_at(s, j, len) {
            Some(((a, b, c, d), ni)) => {
                let mut out: Vec<u16> = Vec::new();
                out.push((a as u16) * 256 + (b as u16));
                out.push((c as u16) * 256 + (d as u16));
                proof {
                    assert(out@ =~= spec_read_groups(s@, i as int, k as int, limit as int).0);
                }
                return (out, ni, true);
            },
            None => {},
        }
    }
    match parse_group(s, j, len) {
        Some((g, ni)) => {
            let rest = read_groups(s, ni, k + 1, limit, len);
            let mut out: Vec<u16> = Vec::new();
            out.push(g);
            let mut rest_groups = rest.0;
            out.append(&mut rest_groups);
            proof {
                assert(out@ =~= spec_read_groups(s@, i as int, k as int, limit as int).0);
            }
            (out, rest.1, rest.2)
        },
        None => (Vec::new(), i, false),
    }
}

pub open spec fn zero_groups(n: int) -> Seq<u16> {
    Seq::new(n as nat, |i: int| 0u16)
}

/// Builds the parsed form from exactly eight groups.
pub open spec fn v6_from_groups(g: Seq<u16>) -> IpParsed {
    IpParsed::V6 {
        g0: g[0],
        g1: g[1],
        g2: g[2],
        g3: g[3],
        g4: g[4],
        g5: g[5],
        g6: g[6],
        g7: g[7],
    }
}

/// The IPv6 grammar: either eight groups, or fewer on each side of one `::`
/// that stands for the missing (all-zero) groups, of which there must be at
/// least one. An embedded IPv4 address may not appear before the `::`.
pub open spec fn spec_parse_ipv6(s: Seq<char>) -> Option<IpParsed> {
    let head = spec_read_groups(s, 0, 0, 8);
    if head.0.len() == 8 {
        if head.1 == s.len() {
            Some(v6_from_groups(head.0))
        } else {
            None
        }
    } else if head.2 {
        None
    } else if head.1 + 2 <= s.len() && s[head.1] == ':' && s[head.1 + 1] == ':' {
        let tail = spec_read_groups(s, head.1 + 2, 0, 8 - head.0.len() - 1);
        if tail.1 == s.len() {
            Some(v6_from_groups(head.0 + zero_groups(8 - head.0.len() - tail.0.len()) + tail.0))
        } else {
            None
        }
    } else {
        None
    }
}

fn parse_ipv6(s: &str, len: usize) -> (r: Option<IpParsed>)
    requires
        len == s@.len(),
    ensures
        r == spec_parse_ipv6(s@),
{
    let (head, hpos, hv4) = read_groups(s, 0, 0, 8, len);
    if head.len() == 8 {
        if hpos == len {
            return Some(
                IpParsed::V6 {
                    g0: head[0],
                    g1: head[1],
                    g2: head[2],
                    g3: head[3],
                    g4: head[4],
                    g5: head[5],
                    g6: head[6],
                    g7: head[7],
                },
            );
        } else {
            return None;
        }
    }
    if hv4 {
        return None;
    }
    if !(hpos < len && hpos + 1 < len && s.get_char(hpos) == ':' && s.get_char(hpos + 1) == ':') {
        return None;
    }
    let hlen = head.len();
    let (tail, tpos, _) = read_groups(s, hpos + 2, 0, 8 - hlen - 1, len);
    if tpos != len {
        return None;
    }
    let mut groups: Vec<u16> = Vec::new();
    let mut idx: usize = 0;
    while idx < hlen
        invariant
            idx <= hlen,
            hlen == head.len(),
            groups@ == head@.take(idx as int),
        decreases hlen - idx,
    {
        groups.push(head[idx]);
        idx += 1;
    }
    let zeros = 8 - hlen - tail.len();
    let mut z: usize = 0;
    while z < zeros
        invariant
            z <= zeros,
            groups@ == head@ + zero_groups(z as int),
        decreases zeros - z,
    {
        groups.push(0u16);
        proof {
            assert(groups@ =~= head@ + zero_groups(z + 1));
        }
        z += 1;
    }
    let mut t: usize = 0;
    while t < tail.len()
        invariant
            t <= tail.len(),
            zeros == 8 - head.len() - tail.len(),
            groups@ == head@ + zero_groups(zeros as int) + tail@.take(t as int),
        decreases tail.len() - t,
    {
        groups.push(tail[t]);
        proof {
            assert(groups@ =~= head@ + zero_groups(zeros as int) + tail@.take(t + 1));
        }
        t += 1;
    }
    proof {
        assert(head@ =~= head@.take(hlen as int));
        assert(tail@ =~= tail@.take(tail@.len() as int));
    }
    Some(
        IpParsed::V6 {
            g0: groups[0],
            g1: groups[1],
            g2: groups[2],
            g3: groups[3],
            g4: groups[4],
            g5: groups[5],
            g6: groups[6],
            g7: groups[7],
        },
    )
}

/// The whole-string grammar: an IPv4 address, or else an IPv6 address. As in
/// the usual parser, a string whose prefix reads as IPv4 but which continues
/// past it is rejected outright rather than re-read as IPv6.
pub open spec fn spec_parse_ip(s: Seq<char>) -> Option<IpParsed> {
    match spec_parse_ipv4_at(s, 0) {
        Some((oct, n)) => if n == s.len() {
            Some(IpParsed::V4 { a: oct.0, b: oct.1, c: oct.2, d: oct.3 })
        } else {
            None
        },
        None => spec_parse_ipv6(s),
    }
}

/// Parses a textual IP address, IPv4 or IPv6.
pub fn parse_ip_addr(s: &str) -> (r: Option<IpParsed>)
    ensures
        r == spec_parse_ip(s@),
{
    let len = s.unicode_len();
    match parse_ipv4_at(s, 0, len) {
        Some(((a, b, c, d), n)) => {
            if n == len {
                Some(IpParsed::V4 { a, b, c, d })
            } else {
                None
            }
        },
        None => parse_ipv6(s, len),
    }
}

/// Loopback: 127.0.0.0/8, or the IPv6 loopback `::1`.
pub open spec fn spec_is_loopback(ip: IpParsed) -> bool {
    match ip {
        IpParsed::V4 { a, .. } => a == 127,
        IpParsed::V6 { g0, g1, g2, g3, g4, g5, g6, g7 } => g0 == 0 && g1 == 0 && g2 == 0 && g3
            == 0 && g4 == 0 && g5 == 0 && g6 == 0 && g7 == 1,
    }
}

/// The IPv4 private ranges: 10.0.0.0/8, 172.16.0.0/12, 192.168.0.0/16.
pub open spec fn spec_is_v4_private(ip: IpParsed) -> bool {
    match ip {
        IpParsed::V4 { a, b, .. } => a == 10 || (a == 172 && 16 <= b <= 31) || (a == 192 && b
            == 168),
        IpParsed::V6 { .. } => false,
    }
}

/// An address the relay classifier treats as server-internal.
pub open spec fn spec_is_internal(ip: IpParsed) -> bool {
    spec_is_loopback(ip) || spec_is_v4_private(ip)
}

pub fn is_loopback(ip: &IpParsed) -> (r: bool)
    ensures
        r == spec_is_loopback(*ip),
{
    match *ip {
        IpParsed::V4 { a, .. } => a == 127,
        IpParsed::V6 { g0, g1, g2, g3, g4, g5, g6, g7 } => g0 == 0 && g1 == 0 && g2 == 0 && g3 == 0
            && g4 == 0 && g5 == 0 && g6 == 0 && g7 == 1,
    }
}

pub fn is_v4_private(ip: &IpParsed) -> (r: bool)
    ensures
        r == spec_is_v4_private(*ip),
{
    match *ip {
        IpParsed::V4 { a, b, .. } => a == 10 || (a == 172 && 16 <= b && b <= 31) || (a == 192 && b
            == 168),
        IpParsed::V6 { .. } => false,
    }
}

pub fn is_internal(ip: &IpParsed) -> (r: bool)
    ensures
        r == spec_is_internal(*ip),
{
    is_loopback(ip) || is_v4_private(ip)
}

} // verus!

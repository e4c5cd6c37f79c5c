//! Internet addresses with a port, and how they are written.
use crate::text;
use crate::text::{chars_of, code_of, parse_number, push_decimal, split, split_once, strip_prefix};
use vstd::prelude::*;

verus! {

/// An internet address with a port.
#[derive(Debug, Clone, Copy, PartialEq, Eq, Structural)]
#[allow(inconsistent_fields)]
pub enum TcpAddress {
    V4 { bits: u32, port: u16 },
    V6 { bits: u128, port: u16, scope_id: u32 },
}

/// The number that digits without a sign write, if it is at most `max`.
pub open spec fn unsigned(s: Seq<char>, max: int) -> Option<int> {
    if s.len() == 0 || s[0] == '+' {
        None
    } else {
        match text::number(s, 10, max) {
            Ok(n) => Some(n),
            Err(_) => None,
        }
    }
}

/// The number that digits without a sign write, if it is at most `max`.
fn read_unsigned(s: &str, max: u32) -> (r: Option<u32>)
    ensures
        match r {
            Some(n) => n <= max && unsigned(s@, max as int) == Some(n as int),
            None => unsigned(s@, max as int) is None,
        },
{
    proof {
        text::numbers_are_bounded(s@, 10, max as int);
    }
    let cs = chars_of(s);
    if cs.len() == 0 || cs[0] == '+' {
        return None;
    }
    match parse_number(s, 10, max) {
        Ok(n) => Some(n),
        Err(_) => None,
    }
}

/// A part of an IPv4 address: a number below 256, of at most three digits,
/// without a leading zero.
pub open spec fn octet(s: Seq<char>) -> Option<int> {
    if s.len() > 3 || (s.len() > 1 && s[0] == '0') {
        None
    } else {
        unsigned(s, 255)
    }
}

fn read_octet(s: &str) -> (r: Option<u32>)
    ensures
        match r {
            Some(n) => n <= 255 && octet(s@) == Some(n as int),
            None => octet(s@) is None,
        },
{
    let cs = chars_of(s);
    if cs.len() > 3 || (cs.len() > 1 && cs[0] == '0') {
        return None;
    }
    read_unsigned(s, 255)
}

/// The IPv4 address that four octets with dots between them write.
pub open spec fn v4_bits(s: Seq<char>) -> Option<int> {
    let p = text::parts(s, '.');
    if p.len() == 4 {
        match (octet(p[0]), octet(p[1]), octet(p[2]), octet(p[3])) {
            (Some(a), Some(b), Some(c), Some(d)) => Some(
                a * 0x100_0000 + b * 0x1_0000 + c * 0x100 + d,
            ),
            _ => None,
        }
    } else {
        None
    }
}

fn read_v4(s: &str) -> (r: Option<u32>)
    ensures
        match r {
            Some(n) => v4_bits(s@) == Some(n as int),
            None => v4_bits(s@) is None,
        },
{
    let p = split(s, '.');
    let ghost views = text::text_views(p@);
    assert(views.len() == p@.len());
    if p.len() != 4 {
        return None;
    }
    assert(views[0] == p@[0]@ && views[1] == p@[1]@ && views[2] == p@[2]@ && views[3] == p@[3]@);
    match (
        read_octet(p[0].as_str()),
        read_octet(p[1].as_str()),
        read_octet(p[2].as_str()),
        read_octet(p[3].as_str()),
    ) {
        (Some(a), Some(b), Some(c), Some(d)) => Some(
            a * 0x100_0000 + b * 0x1_0000 + c * 0x100 + d,
        ),
        _ => None,
    }
}

/// The value of a hexadecimal digit, in either case.
pub open spec fn hex_digit(c: char) -> Option<int> {
    if '0' <= c <= '9' {
        Some((c as int) - 48)
    } else if 'a' <= c <= 'f' {
        Some((c as int) - 87)
    } else if 'A' <= c <= 'F' {
        Some((c as int) - 55)
    } else {
        None
    }
}

/// The number that hexadecimal digits write.
pub open spec fn hex_number(s: Seq<char>) -> Option<int>
    decreases s.len(),
{
    if s.len() == 0 {
        Some(0)
    } else {
        match (hex_number(s.drop_last()), hex_digit(s.last())) {
            (Some(n), Some(d)) => Some(n * 16 + d),
            _ => None,
        }
    }
}

/// A group of an IPv6 address: one to four hexadecimal digits.
pub open spec fn group(s: Seq<char>) -> Option<int> {
    if 1 <= s.len() <= 4 {
        hex_number(s)
    } else {
        None
    }
}

proof fn hex_number_fails_early(s: Seq<char>, n: int)
    requires
        0 <= n <= s.len(),
        hex_number(s.take(n)) is None,
    ensures
        hex_number(s) is None,
    decreases s.len(),
{
    if n == s.len() {
        assert(s.take(n) =~= s);
    } else {
        assert(s.drop_last().take(n) =~= s.take(n));
        hex_number_fails_early(s.drop_last(), n);
    }
}

fn read_group(s: &str) -> (r: Option<u16>)
    ensures
        match r {
            Some(g) => group(s@) == Some(g as int),
            None => group(s@) is None,
        },
{
    let cs = chars_of(s);
    if cs.len() == 0 || cs.len() > 4 {
        return None;
    }
    let mut n: u32 = 0;
    let mut bound: u32 = 1;
    let mut i: usize = 0;
    while i < cs.len()
        invariant
            i <= cs@.len() <= 4,
            cs@ == s@,
            n < bound,
            bound == 1 && i == 0 || bound == 16 && i == 1 || bound == 256 && i == 2 || bound == 4096
                && i == 3 || bound == 65536 && i == 4,
            hex_number(cs@.take(i as int)) == Some(n as int),
        decreases cs@.len() - i,
    {
        let code: u32 = code_of(cs[i]);
        let d: u32 = if 48 <= code && code <= 57 {
            code - 48
        } else if 97 <= code && code <= 102 {
            code - 87
        } else if 65 <= code && code <= 70 {
            code - 55
        } else {
            proof {
                assert(cs@.take(i + 1).drop_last() =~= cs@.take(i as int));
                assert(hex_number(cs@.take(i + 1)) is None);
                hex_number_fails_early(s@, i + 1);
            }
            return None;
        };
        assert(cs@.take(i + 1).drop_last() =~= cs@.take(i as int));
        n = n * 16 + d;
        bound = bound * 16;
        i = i + 1;
    }
    assert(cs@.take(i as int) =~= cs@);
    Some(n as u16)
}

/// The groups that texts write, each one of them a group.
pub open spec fn groups(texts: Seq<Seq<char>>) -> Option<Seq<u16>>
    decreases texts.len(),
{
    if texts.len() == 0 {
        Some(seq![])
    } else {
        match (groups(texts.drop_last()), group(texts.last())) {
            (Some(gs), Some(g)) => Some(gs.push(g as u16)),
            _ => None,
        }
    }
}

/// The groups that a text writes with colons between them. The last of them
/// may be an IPv4 address, which stands for two groups, where that is
/// allowed.
pub open spec fn run(s: Seq<char>, ends_in_v4: bool) -> Option<Seq<u16>> {
    let p = text::parts(s, ':');
    if s.len() == 0 {
        Some(seq![])
    } else {
        match (groups(p.drop_last()), group(p.last()), v4_bits(p.last())) {
            (Some(gs), Some(g), _) => Some(gs.push(g as u16)),
            (Some(gs), None, Some(b)) => if ends_in_v4 {
                Some(gs.push((b / 0x1_0000) as u16).push((b % 0x1_0000) as u16))
            } else {
                None
            },
            _ => None,
        }
    }
}

proof fn groups_fail_early(texts: Seq<Seq<char>>, n: int)
    requires
        0 <= n <= texts.len(),
        groups(texts.take(n)) is None,
    ensures
        groups(texts) is None,
    decreases texts.len(),
{
    if n == texts.len() {
        assert(texts.take(n) =~= texts);
    } else {
        assert(texts.drop_last().take(n) =~= texts.take(n));
        groups_fail_early(texts.drop_last(), n);
    }
}

fn read_run(s: &str, ends_in_v4: bool) -> (r: Option<Vec<u16>>)
    ensures
        match r {
            Some(gs) => run(s@, ends_in_v4) == Some(gs@),
            None => run(s@, ends_in_v4) is None,
        },
{
    let mut gs: Vec<u16> = Vec::new();
    if s.is_empty() {
        assert(gs@ =~= seq![]);
        return Some(gs);
    }
    let p = split(s, ':');
    proof {
        text::parts_is_not_empty(s@, ':');
    }
    let ghost views = text::text_views(p@);
    let ghost front = views.drop_last();
    assert(views.len() == p@.len());
    let last: usize = p.len() - 1;
    let mut i: usize = 0;
    assert(gs@ =~= seq![]);
    while i < last
        invariant
            s@.len() > 0,
            i <= last == p@.len() - 1,
            views == text::text_views(p@),
            views == text::parts(s@, ':'),
            front == views.drop_last(),
            groups(front.take(i as int)) == Some(gs@),
        decreases last - i,
    {
        assert(front[i as int] == p@[i as int]@);
        assert(front.take(i + 1).drop_last() =~= front.take(i as int));
        match read_group(p[i].as_str()) {
            Some(g) => gs.push(g),
            None => {
                proof {
                    groups_fail_early(front, i + 1);
                }
                return None;
            },
        }
        i = i + 1;
    }
    assert(front.take(i as int) =~= front);
    assert(views.last() == p@[last as int]@);
    if let Some(g) = read_group(p[last].as_str()) {
        gs.push(g);
        return Some(gs);
    }
    match read_v4(p[last].as_str()) {
        Some(b) if ends_in_v4 => {
            gs.push((b / 0x1_0000) as u16);
            gs.push((b % 0x1_0000) as u16);
            Some(gs)
        },
        _ => None,
    }
}

/// So many groups of zero.
pub open spec fn zeros(n: int) -> Seq<u16> {
    Seq::new(n as nat, |i: int| 0u16)
}

/// The eight groups that the text of an IPv6 address writes. A double colon
/// stands for the groups of zero, at least one, that are missing.
pub open spec fn v6_groups(s: Seq<char>) -> Option<Seq<u16>> {
    match text::split_at_first(s, "::"@) {
        Some((head, tail)) => match (run(head, false), run(tail, true)) {
            (Some(a), Some(b)) => if a.len() + b.len() < 8 {
                Some(a + zeros(8 - a.len() - b.len()) + b)
            } else {
                None
            },
            _ => None,
        },
        None => match run(s, true) {
            Some(a) => if a.len() == 8 {
                Some(a)
            } else {
                None
            },
            None => None,
        },
    }
}

fn read_v6_groups(s: &str) -> (r: Option<Vec<u16>>)
    ensures
        match r {
            Some(gs) => gs@.len() == 8 && v6_groups(s@) == Some(gs@),
            None => v6_groups(s@) is None,
        },
{
    match split_once(s, "::") {
        Some((head, tail)) => {
            let a = read_run(head.as_str(), false);
            let b = read_run(tail.as_str(), true);
            match (a, b) {
                (Some(mut gs), Some(mut rest)) => {
                    let ghost a = gs@;
                    let ghost b = rest@;
                    if gs.len() > 7 || rest.len() > 7 - gs.len() {
                        return None;
                    }
                    let missing: usize = 8 - gs.len() - rest.len();
                    let mut i: usize = 0;
                    assert(gs@ =~= a + zeros(0));
                    while i < missing
                        invariant
                            i <= missing,
                            gs@ == a + zeros(i as int),
                        decreases missing - i,
                    {
                        gs.push(0);
                        i = i + 1;
                        assert(gs@ =~= a + zeros(i as int));
                    }
                    gs.append(&mut rest);
                    assert(gs@ =~= a + zeros(8 - a.len() - b.len()) + b);
                    Some(gs)
                },
                _ => None,
            }
        },
        None => match read_run(s, true) {
            Some(gs) => {
                if gs.len() == 8 {
                    Some(gs)
                } else {
                    None
                }
            },
            None => None,
        },
    }
}

/// The number that groups make, the first one counting most.
pub open spec fn number_of(gs: Seq<u16>) -> int
    decreases gs.len(),
{
    if gs.len() == 0 {
        0
    } else {
        number_of(gs.drop_last()) * 0x1_0000 + gs.last()
    }
}

proof fn number_is_bounded(gs: Seq<u16>, n: int)
    requires
        0 <= n <= 8,
        n <= gs.len(),
    ensures
        0 <= number_of(gs.take(n)),
        n == 0 ==> number_of(gs.take(n)) < 1,
        n == 1 ==> number_of(gs.take(n)) < 0x1_0000,
        n == 2 ==> number_of(gs.take(n)) < 0x1_0000_0000,
        n == 3 ==> number_of(gs.take(n)) < 0x1_0000_0000_0000,
        n == 4 ==> number_of(gs.take(n)) < 0x1_0000_0000_0000_0000,
        n == 5 ==> number_of(gs.take(n)) < 0x1_0000_0000_0000_0000_0000,
        n == 6 ==> number_of(gs.take(n)) < 0x1_0000_0000_0000_0000_0000_0000,
        n == 7 ==> number_of(gs.take(n)) < 0x1_0000_0000_0000_0000_0000_0000_0000,
        n == 8 ==> number_of(gs.take(n)) <= u128::MAX,
    decreases n,
{
    if n > 0 {
        number_is_bounded(gs, n - 1);
        assert(gs.take(n).drop_last() =~= gs.take(n - 1));
        assert(gs.take(n).last() == gs[n - 1]);
    }
}

fn make_number(gs: &Vec<u16>) -> (n: u128)
    requires
        gs@.len() == 8,
    ensures
        n == number_of(gs@),
{
    let mut n: u128 = 0;
    let mut i: usize = 0;
    while i < 8
        invariant
            i <= 8,
            gs@.len() == 8,
            n == number_of(gs@.take(i as int)),
        decreases 8 - i,
    {
        proof {
            number_is_bounded(gs@, i as int);
            number_is_bounded(gs@, i + 1);
            assert(gs@.take(i + 1).drop_last() =~= gs@.take(i as int));
        }
        n = n * 0x1_0000 + gs[i] as u128;
        i = i + 1;
    }
    assert(gs@.take(8) =~= gs@);
    n
}

/// The port that a text writes behind a colon.
pub open spec fn port_of(s: Seq<char>) -> Option<int> {
    if text::has_prefix(s, ":"@) {
        unsigned(s.skip(1), 0xFFFF)
    } else {
        None
    }
}

/// An IPv4 address with a port: the address, a colon, the port.
pub open spec fn v4_address(s: Seq<char>) -> Option<TcpAddress> {
    match text::split_at_first(s, ":"@) {
        Some((host, port)) => match (v4_bits(host), unsigned(port, 0xFFFF)) {
            (Some(b), Some(p)) => Some(TcpAddress::V4 { bits: b as u32, port: p as u16 }),
            _ => None,
        },
        None => None,
    }
}

/// What stands between the brackets of an IPv6 address with a port: the
/// address, and behind a percent sign the number of its scope, which is zero
/// if it is missing.
pub open spec fn v6_host(s: Seq<char>) -> Option<(int, int)> {
    match text::split_at_first(s, "%"@) {
        Some((host, scope)) => match (v6_groups(host), unsigned(scope, 0xFFFF_FFFF)) {
            (Some(gs), Some(n)) => Some((number_of(gs), n)),
            _ => None,
        },
        None => match v6_groups(s) {
            Some(gs) => Some((number_of(gs), 0)),
            None => None,
        },
    }
}

/// An IPv6 address with a port: the address in brackets, a colon, the port.
pub open spec fn v6_address(s: Seq<char>) -> Option<TcpAddress> {
    if text::has_prefix(s, "["@) {
        match text::split_at_first(s.skip(1), "]"@) {
            Some((inside, after)) => match (v6_host(inside), port_of(after)) {
                (Some((b, n)), Some(p)) => Some(
                    TcpAddress::V6 { bits: b as u128, port: p as u16, scope_id: n as u32 },
                ),
                _ => None,
            },
            None => None,
        }
    } else {
        None
    }
}

/// The address that a text writes.
pub open spec fn address_of(s: Seq<char>) -> Option<TcpAddress> {
    match v4_address(s) {
        Some(a) => Some(a),
        None => v6_address(s),
    }
}

fn read_port(s: &str) -> (r: Option<u16>)
    ensures
        match r {
            Some(n) => port_of(s@) == Some(n as int),
            None => port_of(s@) is None,
        },
{
    proof {
        reveal_strlit(":");
    }
    match strip_prefix(s, ":") {
        Some(rest) => match read_unsigned(rest.as_str(), 0xFFFF) {
            Some(n) => Some(n as u16),
            None => None,
        },
        None => None,
    }
}

fn read_v6_host(s: &str) -> (r: Option<(u128, u32)>)
    ensures
        match r {
            Some((b, n)) => v6_host(s@) == Some((b as int, n as int)),
            None => v6_host(s@) is None,
        },
{
    match split_once(s, "%") {
        Some((host, scope)) => {
            match (read_v6_groups(host.as_str()), read_unsigned(scope.as_str(), 0xFFFF_FFFF)) {
                (Some(gs), Some(n)) => Some((make_number(&gs), n)),
                _ => None,
            }
        },
        None => match read_v6_groups(s) {
            Some(gs) => Some((make_number(&gs), 0)),
            None => None,
        },
    }
}

fn read_v4_address(s: &str) -> (r: Option<TcpAddress>)
    ensures
        r == v4_address(s@),
{
    match split_once(s, ":") {
        Some((host, port)) => {
            match (read_v4(host.as_str()), read_unsigned(port.as_str(), 0xFFFF)) {
                (Some(bits), Some(p)) => Some(TcpAddress::V4 { bits, port: p as u16 }),
                _ => None,
            }
        },
        None => None,
    }
}

fn read_v6_address(s: &str) -> (r: Option<TcpAddress>)
    ensures
        r == v6_address(s@),
{
    proof {
        reveal_strlit("[");
    }
    let rest = match strip_prefix(s, "[") {
        Some(rest) => rest,
        None => return None,
    };
    match split_once(rest.as_str(), "]") {
        Some((inside, after)) => {
            match (read_v6_host(inside.as_str()), read_port(after.as_str())) {
                (Some((bits, scope_id)), Some(port)) => Some(
                    TcpAddress::V6 { bits, port, scope_id },
                ),
                _ => None,
            }
        },
        None => None,
    }
}

impl TcpAddress {
    /// Reads an address with a port.
    pub fn parse(s: &str) -> (r: Option<TcpAddress>)
        ensures
            r == address_of(s@),
    {
        match read_v4_address(s) {
            Some(a) => Some(a),
            None => read_v6_address(s),
        }
    }

    /// Whether the address is one of the host itself: `127.0.0.0/8` or `::1`.
    pub open spec fn loopback(self) -> bool {
        match self {
            TcpAddress::V4 { bits, .. } => bits / 0x100_0000 == 127,
            TcpAddress::V6 { bits, .. } => bits == 1,
        }
    }

    /// Whether the address is one of the host itself.
    pub fn is_loopback(&self) -> (b: bool)
        ensures
            b == self.loopback(),
    {
        match *self {
            TcpAddress::V4 { bits, .. } => bits / 0x100_0000 == 127,
            TcpAddress::V6 { bits, .. } => bits == 1,
        }
    }
}

/// An IPv4 address as it is written: four decimal octets with dots between
/// them.
pub open spec fn v4_text(bits: u32) -> Seq<char> {
    text::decimal((bits / 0x100_0000) as nat) + "."@ + text::decimal(
        ((bits / 0x1_0000) % 0x100) as nat,
    ) + "."@ + text::decimal(((bits / 0x100) % 0x100) as nat) + "."@ + text::decimal(
        (bits % 0x100) as nat,
    )
}

fn push_v4(out: &mut String, bits: u32)
    ensures
        final(out)@ == old(out)@ + v4_text(bits),
{
    push_decimal(out, (bits / 0x100_0000) as u64);
    out.append(".");
    push_decimal(out, ((bits / 0x1_0000) % 0x100) as u64);
    out.append(".");
    push_decimal(out, ((bits / 0x100) % 0x100) as u64);
    out.append(".");
    push_decimal(out, (bits % 0x100) as u64);
    assert(out@ =~= old(out)@ + v4_text(bits));
}

/// `n` written in hexadecimal, without leading zeros.
pub open spec fn hex_text(n: nat) -> Seq<char>
    decreases n,
{
    if n < 16 {
        seq![text::hex_char(n)]
    } else {
        hex_text(n / 16).push(text::hex_char(n % 16))
    }
}

fn push_hex_text(out: &mut String, n: u16)
    ensures
        final(out)@ == old(out)@ + hex_text(n as nat),
    decreases n,
{
    if n >= 16 {
        push_hex_text(out, n / 16);
    }
    let d: u8 = (n % 16) as u8;
    if d < 10 {
        out.push((48 + d) as char);
    } else {
        out.push((87 + d) as char);
    }
    assert(out@ =~= old(out)@ + hex_text(n as nat));
}

/// Groups as they are written, with colons between them.
pub open spec fn groups_text(gs: Seq<u16>) -> Seq<char>
    decreases gs.len(),
{
    if gs.len() == 0 {
        seq![]
    } else if gs.len() == 1 {
        hex_text(gs[0] as nat)
    } else {
        groups_text(gs.drop_last()) + ":"@ + hex_text(gs.last() as nat)
    }
}

fn push_groups(out: &mut String, gs: &Vec<u16>, from: usize, to: usize)
    requires
        from <= to <= gs@.len(),
    ensures
        final(out)@ == old(out)@ + groups_text(gs@.subrange(from as int, to as int)),
{
    let ghost front = out@;
    let mut i: usize = from;
    assert(out@ =~= front + groups_text(gs@.subrange(from as int, from as int)));
    while i < to
        invariant
            from <= i <= to <= gs@.len(),
            out@ == front + groups_text(gs@.subrange(from as int, i as int)),
        decreases to - i,
    {
        if i > from {
            out.append(":");
        }
        push_hex_text(out, gs[i]);
        i = i + 1;
        proof {
            let now = gs@.subrange(from as int, i as int);
            assert(now.drop_last() =~= gs@.subrange(from as int, i - 1));
            assert(out@ =~= front + groups_text(now));
        }
    }
}

/// How many groups are zero from the one at `i` on.
pub open spec fn zeros_at(gs: Seq<u16>, i: int) -> int
    decreases gs.len() - i,
{
    if 0 <= i < gs.len() && gs[i] == 0 {
        1 + zeros_at(gs, i + 1)
    } else {
        0
    }
}

/// Where, from `i` on, the longest stretch of groups of zero is: the place
/// of the first such stretch, and its length.
pub open spec fn longest_zeros(gs: Seq<u16>, i: int) -> (int, int)
    decreases gs.len() - i,
{
    if 0 <= i < gs.len() {
        let later = longest_zeros(gs, i + 1);
        if zeros_at(gs, i) >= later.1 {
            (i, zeros_at(gs, i))
        } else {
            later
        }
    } else {
        (i, 0)
    }
}

fn find_zeros(gs: &Vec<u16>) -> (r: (usize, usize))
    ensures
        (r.0 as int, r.1 as int) == longest_zeros(gs@, 0),
        r.0 + r.1 <= gs@.len(),
{
    let len: usize = gs.len();
    let mut i: usize = len;
    let mut here: usize = 0;
    let mut best: (usize, usize) = (len, 0);
    while i > 0
        invariant
            i <= len == gs@.len(),
            here == zeros_at(gs@, i as int),
            here <= len - i,
            (best.0 as int, best.1 as int) == longest_zeros(gs@, i as int),
            best.0 + best.1 <= len,
        decreases i,
    {
        i = i - 1;
        if gs[i] == 0 {
            here = here + 1;
        } else {
            here = 0;
        }
        if here >= best.1 {
            best = (i, here);
        }
    }
    best
}

/// The last `k` groups of a number.
pub open spec fn groups_in(n: nat, k: nat) -> Seq<u16>
    decreases k,
{
    if k == 0 {
        seq![]
    } else {
        groups_in(n / 0x1_0000, (k - 1) as nat).push((n % 0x1_0000) as u16)
    }
}

fn make_groups(n: u128, k: usize) -> (gs: Vec<u16>)
    ensures
        gs@ == groups_in(n as nat, k as nat),
    decreases k,
{
    if k == 0 {
        let gs: Vec<u16> = Vec::new();
        assert(gs@ =~= seq![]);
        gs
    } else {
        let mut gs = make_groups(n / 0x1_0000, k - 1);
        gs.push((n % 0x1_0000) as u16);
        gs
    }
}

/// An IPv6 address as it is written: one that maps an IPv4 address with that
/// address at its end; any other with a double colon in place of the first
/// of the longest stretches of more than one group of zero.
pub open spec fn v6_text(bits: u128) -> Seq<char> {
    let gs = groups_in(bits as nat, 8);
    let (at, n) = longest_zeros(gs, 0);
    if bits / 0x1_0000_0000 == 0xFFFF {
        "::ffff:"@ + v4_text((bits % 0x1_0000_0000) as u32)
    } else if n > 1 {
        groups_text(gs.take(at)) + "::"@ + groups_text(gs.skip(at + n))
    } else {
        groups_text(gs)
    }
}

proof fn groups_in_len(n: nat, k: nat)
    ensures
        groups_in(n, k).len() == k,
    decreases k,
{
    if k > 0 {
        groups_in_len(n / 0x1_0000, (k - 1) as nat);
    }
}

fn push_v6(out: &mut String, bits: u128)
    ensures
        final(out)@ == old(out)@ + v6_text(bits),
{
    if bits / 0x1_0000_0000 == 0xFFFF {
        out.append("::ffff:");
        push_v4(out, (bits % 0x1_0000_0000) as u32);
        assert(out@ =~= old(out)@ + v6_text(bits));
        return;
    }
    proof {
        groups_in_len(bits as nat, 8);
    }
    let gs = make_groups(bits, 8);
    let (at, n) = find_zeros(&gs);
    if n > 1 {
        assert(gs@.subrange(0, at as int) =~= gs@.take(at as int));
        assert(gs@.subrange(at + n, 8) =~= gs@.skip(at + n));
        push_groups(out, &gs, 0, at);
        out.append("::");
        push_groups(out, &gs, at + n, 8);
    } else {
        assert(gs@.subrange(0, 8) =~= gs@);
        push_groups(out, &gs, 0, 8);
    }
    assert(out@ =~= old(out)@ + v6_text(bits));
}

/// The scope of an address as it is written: nothing for the scope zero.
pub open spec fn scope_text(scope_id: u32) -> Seq<char> {
    if scope_id == 0 {
        seq![]
    } else {
        "%"@ + text::decimal(scope_id as nat)
    }
}

impl TcpAddress {
    /// The address as it is written.
    pub open spec fn shown(self) -> Seq<char> {
        match self {
            TcpAddress::V4 { bits, port } => v4_text(bits) + ":"@ + text::decimal(port as nat),
            TcpAddress::V6 { bits, port, scope_id } => "["@ + v6_text(bits) + scope_text(scope_id)
                + "]:"@ + text::decimal(port as nat),
        }
    }

    /// The address as it is written.
    pub fn to_text(&self) -> (s: String)
        ensures
            s@ == self.shown(),
    {
        let mut s = String::new();
        match *self {
            TcpAddress::V4 { bits, port } => {
                push_v4(&mut s, bits);
                s.append(":");
                push_decimal(&mut s, port as u64);
            },
            TcpAddress::V6 { bits, port, scope_id } => {
                s.append("[");
                push_v6(&mut s, bits);
                if scope_id != 0 {
                    s.append("%");
                    push_decimal(&mut s, scope_id as u64);
                }
                s.append("]:");
                push_decimal(&mut s, port as u64);
            },
        }
        assert(s@ =~= self.shown());
        s
    }
}

proof fn decimal_is_unsigned(n: nat, max: int)
    requires
        n <= max,
    ensures
        unsigned(text::decimal(n), max) == Some(n as int),
{
    text::decimal_is_digits(n);
    text::decimal_reads_back(n, max);
    assert(text::decimal(n)[0] != '+');
}

proof fn decimal_lacks(n: nat, c: char)
    requires
        !('0' <= c <= '9'),
    ensures
        !text::decimal(n).contains(c),
{
    text::decimal_is_digits(n);
}

proof fn decimal_is_octet(n: nat)
    requires
        n < 256,
    ensures
        octet(text::decimal(n)) == Some(n as int),
{
    text::decimal_is_digits(n);
    decimal_is_unsigned(n, 255);
}

proof fn v4_text_reads_back(bits: u32)
    ensures
        v4_bits(v4_text(bits)) == Some(bits as int),
{
    reveal_strlit(".");
    let a = (bits / 0x100_0000) as nat;
    let b = ((bits / 0x1_0000) % 0x100) as nat;
    let c = ((bits / 0x100) % 0x100) as nat;
    let d = (bits % 0x100) as nat;
    let ta = text::decimal(a);
    let tb = text::decimal(b);
    let tc = text::decimal(c);
    let td = text::decimal(d);
    assert("."@ =~= seq!['.']);
    decimal_lacks(a, '.');
    decimal_lacks(b, '.');
    decimal_lacks(c, '.');
    decimal_lacks(d, '.');
    text::text_without_is_one_part(ta, '.');
    text::text_without_is_one_part(tb, '.');
    text::text_without_is_one_part(tc, '.');
    text::text_without_is_one_part(td, '.');
    text::parts_of_joined(ta, tb, '.');
    text::parts_of_joined(ta + seq!['.'] + tb, tc, '.');
    text::parts_of_joined(ta + seq!['.'] + tb + seq!['.'] + tc, td, '.');
    assert(text::parts(v4_text(bits), '.') =~= seq![ta, tb, tc, td]);
    decimal_is_octet(a);
    decimal_is_octet(b);
    decimal_is_octet(c);
    decimal_is_octet(d);
}

/// Whether a text is made of what IPv4 and IPv6 addresses are written with.
spec fn plain(s: Seq<char>) -> bool {
    forall|i: int| 0 <= i < s.len() ==> plain_char(#[trigger] s[i])
}

spec fn plain_char(c: char) -> bool {
    '0' <= c <= '9' || 'a' <= c <= 'f' || c == ':' || c == '.'
}

proof fn v4_text_is_plain(bits: u32)
    ensures
        plain(v4_text(bits)),
        !v4_text(bits).contains(':'),
        v4_text(bits).len() >= 7,
{
    reveal_strlit(".");
    text::decimal_is_digits((bits / 0x100_0000) as nat);
    text::decimal_is_digits(((bits / 0x1_0000) % 0x100) as nat);
    text::decimal_is_digits(((bits / 0x100) % 0x100) as nat);
    text::decimal_is_digits((bits % 0x100) as nat);
}

proof fn split_at_char(a: Seq<char>, b: Seq<char>, c: char)
    requires
        !a.contains(c),
    ensures
        text::split_at_first(a + seq![c] + b, seq![c]) == Some((a, b)),
{
    let s = a + seq![c] + b;
    let n = a.len() as int;
    assert(s.subrange(n, n + 1) =~= seq![c]);
    assert forall|j: int| 0 <= j < n implies !text::stands_at(s, j, seq![c]) by {
        assert(s.subrange(j, j + 1)[0] == a[j]);
    }
    text::first_at_is_unique(s, seq![c], n);
    assert(s.take(n) =~= a);
    assert(s.skip(n + 1) =~= b);
}

proof fn hex_text_reads_back(n: nat)
    ensures
        hex_number(hex_text(n)) == Some(n as int),
        hex_text(n).len() >= 1,
        n < 16 ==> hex_text(n).len() == 1,
        n < 256 ==> hex_text(n).len() <= 2,
        n < 4096 ==> hex_text(n).len() <= 3,
        n < 65536 ==> hex_text(n).len() <= 4,
        plain(hex_text(n)),
        !hex_text(n).contains(':'),
    decreases n,
{
    let s = hex_text(n);
    if n < 16 {
        reveal_with_fuel(hex_number, 2);
        assert(s.last() == text::hex_char(n));
    } else {
        hex_text_reads_back(n / 16);
        assert(s.drop_last() =~= hex_text(n / 16));
        assert(s.last() == text::hex_char(n % 16));
        assert forall|i: int| 0 <= i < s.len() implies plain_char(#[trigger] s[i]) && s[i]
            != ':' by {
            if i < s.len() - 1 {
                assert(s[i] == hex_text(n / 16)[i]);
            }
        }
    }
}

/// The texts of groups, each by itself.
spec fn group_texts(gs: Seq<u16>) -> Seq<Seq<char>> {
    gs.map_values(|g: u16| hex_text(g as nat))
}

proof fn group_texts_read_back(gs: Seq<u16>)
    ensures
        groups(group_texts(gs)) == Some(gs),
    decreases gs.len(),
{
    if gs.len() == 0 {
        assert(gs =~= seq![]);
    } else {
        group_texts_read_back(gs.drop_last());
        hex_text_reads_back(gs.last() as nat);
        assert(group_texts(gs).drop_last() =~= group_texts(gs.drop_last()));
        assert(gs.drop_last().push(gs.last()) =~= gs);
    }
}

proof fn groups_text_splits(gs: Seq<u16>)
    requires
        gs.len() > 0,
    ensures
        groups_text(gs).len() > 0,
        text::parts(groups_text(gs), ':') == group_texts(gs),
        plain(groups_text(gs)),
    decreases gs.len(),
{
    reveal_strlit(":");
    assert(":"@ =~= seq![':']);
    let last = hex_text(gs.last() as nat);
    hex_text_reads_back(gs.last() as nat);
    text::text_without_is_one_part(last, ':');
    if gs.len() == 1 {
        assert(group_texts(gs) =~= seq![last]);
    } else {
        let front = groups_text(gs.drop_last());
        groups_text_splits(gs.drop_last());
        text::parts_of_joined(front, last, ':');
        assert(group_texts(gs) =~= group_texts(gs.drop_last()).push(last));
        assert(text::parts(groups_text(gs), ':') =~= group_texts(gs));
    }
}

proof fn groups_text_reads_back(gs: Seq<u16>, ends_in_v4: bool)
    ensures
        run(groups_text(gs), ends_in_v4) == Some(gs),
        plain(groups_text(gs)),
{
    if gs.len() == 0 {
        assert(gs =~= seq![]);
    } else {
        groups_text_splits(gs);
        group_texts_read_back(gs.drop_last());
        hex_text_reads_back(gs.last() as nat);
        assert(group_texts(gs).drop_last() =~= group_texts(gs.drop_last()));
        assert(group_texts(gs).last() == hex_text(gs.last() as nat));
        assert(gs.drop_last().push(gs.last()) =~= gs);
    }
}

/// Whether a text neither begins nor ends with a colon nor has two of them
/// side by side.
spec fn single_colons(s: Seq<char>) -> bool {
    &&& s.len() > 0 ==> s[0] != ':' && s.last() != ':'
    &&& forall|i: int| 0 <= i < s.len() - 1 ==> !#[trigger] two_colons(s, i)
}

spec fn two_colons(s: Seq<char>, i: int) -> bool {
    s[i] == ':' && s[i + 1] == ':'
}

proof fn groups_text_has_single_colons(gs: Seq<u16>)
    ensures
        single_colons(groups_text(gs)),
    decreases gs.len(),
{
    reveal_strlit(":");
    if gs.len() > 0 {
        let last = hex_text(gs.last() as nat);
        hex_text_reads_back(gs.last() as nat);
        assert forall|i: int| 0 <= i < last.len() implies #[trigger] last[i] != ':' by {
            assert(last.contains(last[i]));
        }
        if gs.len() > 1 {
            let front = groups_text(gs.drop_last());
            let s = groups_text(gs);
            groups_text_has_single_colons(gs.drop_last());
            groups_text_splits(gs.drop_last());
            assert forall|i: int| 0 <= i < s.len() - 1 implies !#[trigger] two_colons(s, i) by {
                if i < front.len() - 1 {
                    assert(!two_colons(front, i));
                }
            }
        }
    }
}

proof fn double_colon_splits(a: Seq<char>, b: Seq<char>)
    requires
        single_colons(a),
    ensures
        text::split_at_first(a + "::"@ + b, "::"@) == Some((a, b)),
{
    reveal_strlit("::");
    let p = "::"@;
    let s = a + p + b;
    let n = a.len() as int;
    assert(s.subrange(n, n + 2) =~= p);
    assert forall|j: int| 0 <= j < n implies !text::stands_at(s, j, p) by {
        if text::stands_at(s, j, p) {
            assert(s.subrange(j, j + 2)[0] == ':' && s.subrange(j, j + 2)[1] == ':');
            if j < n - 1 {
                assert(two_colons(a, j));
            } else {
                assert(a.last() == ':');
            }
        }
    }
    text::first_at_is_unique(s, p, n);
    assert(s.take(n) =~= a);
    assert(s.skip(n + 2) =~= b);
}

proof fn single_colons_do_not_split(s: Seq<char>)
    requires
        single_colons(s),
    ensures
        text::split_at_first(s, "::"@) is None,
{
    reveal_strlit("::");
    if text::contains_text(s, "::"@) {
        let i = choose|i: int| text::stands_at(s, i, "::"@);
        assert(s.subrange(i, i + 2)[0] == ':' && s.subrange(i, i + 2)[1] == ':');
        assert(two_colons(s, i));
    }
}

proof fn zeros_are_there(gs: Seq<u16>, i: int)
    requires
        0 <= i <= gs.len(),
    ensures
        0 <= zeros_at(gs, i) <= gs.len() - i,
        forall|j: int| i <= j < i + zeros_at(gs, i) ==> gs[j] == 0,
    decreases gs.len() - i,
{
    if i < gs.len() {
        zeros_are_there(gs, i + 1);
    }
}

proof fn longest_zeros_are_there(gs: Seq<u16>, i: int)
    requires
        0 <= i <= gs.len(),
    ensures
        ({
            let (at, n) = longest_zeros(gs, i);
            &&& i <= at
            &&& 0 <= n
            &&& at + n <= gs.len()
            &&& forall|j: int| at <= j < at + n ==> gs[j] == 0
        }),
    decreases gs.len() - i,
{
    if i < gs.len() {
        longest_zeros_are_there(gs, i + 1);
        zeros_are_there(gs, i);
    }
}

/// The first number that takes more than `k` groups.
spec fn above(k: nat) -> int
    decreases k,
{
    if k == 0 {
        1
    } else {
        0x1_0000 * above((k - 1) as nat)
    }
}

proof fn groups_make_the_number(n: nat, k: nat)
    requires
        n < above(k),
    ensures
        number_of(groups_in(n, k)) == n,
    decreases k,
{
    if k > 0 {
        groups_make_the_number(n / 0x1_0000, (k - 1) as nat);
        assert(groups_in(n, k).drop_last() =~= groups_in(n / 0x1_0000, (k - 1) as nat));
    }
}

proof fn mapped_text_reads_back(bits: u128)
    requires
        bits / 0x1_0000_0000 == 0xFFFF,
    ensures
        v6_groups(v6_text(bits)) matches Some(gs) && number_of(gs) == bits,
        plain(v6_text(bits)),
{
    reveal_strlit("::ffff:");
    reveal_strlit("::");
    let low = (bits % 0x1_0000_0000) as u32;
    let v4 = v4_text(low);
    let word = seq!['f', 'f', 'f', 'f'];
    let tail = word + seq![':'] + v4;
    let none: Seq<char> = seq![];
    assert(v6_text(bits) =~= none + "::"@ + tail);
    double_colon_splits(none, tail);
    v4_text_reads_back(low);
    v4_text_is_plain(low);
    text::text_without_is_one_part(word, ':');
    text::text_without_is_one_part(v4, ':');
    text::parts_of_joined(word, v4, ':');
    let p = text::parts(tail, ':');
    assert(p =~= seq![word, v4]);
    assert(p.drop_last() =~= seq![word]);
    reveal_with_fuel(hex_number, 5);
    assert(word.drop_last() =~= seq!['f', 'f', 'f']);
    assert(seq!['f', 'f', 'f'].drop_last() =~= seq!['f', 'f']);
    assert(seq!['f', 'f'].drop_last() =~= seq!['f']);
    assert(group(word) == Some(0xFFFFint));
    assert(p.drop_last().drop_last() =~= seq![]);
    reveal_with_fuel(groups, 2);
    let hi = (low as int / 0x1_0000) as u16;
    let lo = (low as int % 0x1_0000) as u16;
    assert(run(tail, true) == Some(seq![0xFFFFu16].push(hi).push(lo)));
    let gs = zeros(5) + seq![0xFFFFu16].push(hi).push(lo);
    assert(run(none, false) == Some(Seq::<u16>::empty()));
    assert(v6_groups(v6_text(bits)) == Some(Seq::<u16>::empty() + gs));
    assert(Seq::<u16>::empty() + gs =~= gs);
    reveal_with_fuel(number_of, 9);
    assert(gs.drop_last() =~= zeros(5) + seq![0xFFFFu16].push(hi));
    assert(gs.drop_last().drop_last() =~= zeros(5) + seq![0xFFFFu16]);
    assert(gs.drop_last().drop_last().drop_last() =~= zeros(5));
    assert(zeros(5).drop_last() =~= zeros(4));
    assert(zeros(4).drop_last() =~= zeros(3));
    assert(zeros(3).drop_last() =~= zeros(2));
    assert(zeros(2).drop_last() =~= zeros(1));
    assert(zeros(1).drop_last() =~= zeros(0));
}

proof fn around_double_colon_is_plain(a: Seq<char>, b: Seq<char>)
    requires
        plain(a),
        plain(b),
    ensures
        plain(a + "::"@ + b),
{
    reveal_strlit("::");
}

proof fn short_text_reads_back(gs: Seq<u16>, at: int, n: int)
    requires
        gs.len() == 8,
        0 <= at,
        0 < n,
        at + n <= 8,
        forall|j: int| at <= j < at + n ==> gs[j] == 0,
    ensures
        v6_groups(groups_text(gs.take(at)) + "::"@ + groups_text(gs.skip(at + n))) == Some(gs),
        plain(groups_text(gs.take(at)) + "::"@ + groups_text(gs.skip(at + n))),
{
    let a = gs.take(at);
    let b = gs.skip(at + n);
    let (head, tail) = (groups_text(a), groups_text(b));
    groups_text_reads_back(a, false);
    groups_text_reads_back(b, true);
    around_double_colon_is_plain(head, tail);
    assert(text::split_at_first(head + "::"@ + tail, "::"@) == Some((head, tail))) by {
        groups_text_has_single_colons(a);
        double_colon_splits(head, tail);
    }
    assert(a + zeros(8 - a.len() - b.len()) + b =~= gs);
}

proof fn full_text_reads_back(gs: Seq<u16>)
    requires
        gs.len() == 8,
    ensures
        v6_groups(groups_text(gs)) == Some(gs),
        plain(groups_text(gs)),
{
    groups_text_reads_back(gs, true);
    groups_text_has_single_colons(gs);
    single_colons_do_not_split(groups_text(gs));
}

proof fn v6_text_reads_back(bits: u128)
    ensures
        v6_groups(v6_text(bits)) matches Some(gs) && number_of(gs) == bits,
        plain(v6_text(bits)),
{
    if bits / 0x1_0000_0000 == 0xFFFF {
        mapped_text_reads_back(bits);
    } else {
        let gs = groups_in(bits as nat, 8);
        groups_in_len(bits as nat, 8);
        assert(above(8) == u128::MAX + 1) by {
            reveal_with_fuel(above, 9);
        }
        groups_make_the_number(bits as nat, 8);
        longest_zeros_are_there(gs, 0);
        let (at, n) = longest_zeros(gs, 0);
        if n > 1 {
            short_text_reads_back(gs, at, n);
        } else {
            full_text_reads_back(gs);
        }
    }
}

proof fn v6_host_reads_back(bits: u128, scope_id: u32)
    ensures
        v6_host(v6_text(bits) + scope_text(scope_id)) == Some((bits as int, scope_id as int)),
        !(v6_text(bits) + scope_text(scope_id)).contains(']'),
{
    reveal_strlit("%");
    assert("%"@ =~= seq!['%']);
    let t = v6_text(bits);
    let n = text::decimal(scope_id as nat);
    v6_text_reads_back(bits);
    text::decimal_is_digits(scope_id as nat);
    assert(!t.contains('%'));
    if scope_id == 0 {
        let s = t + scope_text(scope_id);
        assert(s =~= t);
        if text::contains_text(s, "%"@) {
            let i = choose|i: int| text::stands_at(s, i, "%"@);
            assert(s.subrange(i, i + 1)[0] == '%');
            assert(t[i] == '%');
        }
    } else {
        assert(t + scope_text(scope_id) =~= t + seq!['%'] + n);
        split_at_char(t, n, '%');
        decimal_is_unsigned(scope_id as nat, 0xFFFF_FFFF);
    }
}

proof fn brackets_begin_no_v4(s: Seq<char>)
    requires
        s.len() > 0,
        s[0] == '[',
    ensures
        v4_address(s) is None,
{
    reveal_strlit(":");
    if text::contains_text(s, ":"@) {
        let at = choose|i: int| text::stands_at(s, i, ":"@);
        assert(text::stands_at(s, at, ":"@));
        let host = text::split_at_first(s, ":"@).unwrap().0;
        let i = choose|i: int| text::first_at(s, ":"@, Some(i));
        first_exists(s, ":"@, at);
        assert(text::first_at(s, ":"@, Some(i)));
        assert(s.subrange(i, i + 1)[0] == ':');
        assert(host == s.take(i));
        assert(i > 0);
        text::first_part_begins_the_text(host, '.');
        let p = text::parts(host, '.')[0];
        assert(p[0] == '[');
        reveal_with_fuel(text::digits_value, 2);
        assert(p.take(1).last() == '[');
        text::digits_value_fails_early(p, 1, 10, 255);
        assert(octet(p) is None);
    }
}

proof fn first_exists(s: Seq<char>, p: Seq<char>, at: int)
    requires
        text::stands_at(s, at, p),
    ensures
        exists|i: int| text::first_at(s, p, Some(i)),
    decreases at,
{
    if exists|j: int| 0 <= j < at && text::stands_at(s, j, p) {
        let j = choose|j: int| 0 <= j < at && text::stands_at(s, j, p);
        first_exists(s, p, j);
    } else {
        assert(text::first_at(s, p, Some(at)));
    }
}

/// Every address reads back from the way it is written.
pub proof fn written_address_reads_back(a: TcpAddress)
    ensures
        address_of(a.shown()) == Some(a),
{
    reveal_strlit(":");
    assert(":"@ =~= seq![':']);
    match a {
        TcpAddress::V4 { bits, port } => {
            v4_text_reads_back(bits);
            v4_text_is_plain(bits);
            split_at_char(v4_text(bits), text::decimal(port as nat), ':');
            decimal_is_unsigned(port as nat, 0xFFFF);
        },
        TcpAddress::V6 { bits, port, scope_id } => {
            reveal_strlit("[");
            reveal_strlit("]");
            reveal_strlit("]:");
            let s = a.shown();
            let inside = v6_text(bits) + scope_text(scope_id);
            let digits = text::decimal(port as nat);
            let after = seq![':'] + digits;
            assert(s.take(1) =~= "["@);
            brackets_begin_no_v4(s);
            assert("]"@ =~= seq![']']);
            assert(s.skip(1) =~= inside + seq![']'] + after);
            v6_host_reads_back(bits, scope_id);
            split_at_char(inside, after, ']');
            assert(after.take(1) =~= ":"@);
            assert(after.skip(1) =~= digits);
            decimal_is_unsigned(port as nat, 0xFFFF);
        },
    }
}

#[verifier::spinoff_prover]
proof fn octets_of_bits(a: u8, b: u8, c: u8, d: u8, bits: u32)
    requires
        bits == a * 0x100_0000 + b * 0x1_0000 + c * 0x100 + d,
    ensures
        bits / 0x100_0000 == a,
        (bits / 0x1_0000) % 0x100 == b,
        (bits / 0x100) % 0x100 == c,
        bits % 0x100 == d,
{
    let low: int = c * 0x100 + d;
    let high: int = a * 0x100 + b;
    assert(bits == high * 0x1_0000 + low && 0 <= low < 0x1_0000);
    assert(bits / 0x1_0000 == high);
    assert(bits % 0x1_0000 == low);
    assert(high % 0x100 == b && high / 0x100 == a);
    assert(low % 0x100 == d && low / 0x100 == c);
    assert(bits / 0x100 == high * 0x100 + c);
    assert(bits / 0x100_0000 == a);
}

/// Four numbers below 256 with dots between them are an address, the first of
/// them counting most; behind the colon stands the port.
#[verifier::spinoff_prover]
pub proof fn octets_are_read_in_order(a: u8, b: u8, c: u8, d: u8, port: u16)
    ensures
        ({
            let dot = "."@;
            let host = text::decimal(a as nat) + dot + text::decimal(b as nat) + dot
                + text::decimal(c as nat) + dot + text::decimal(d as nat);
            let bits = (a * 0x100_0000 + b * 0x1_0000 + c * 0x100 + d) as u32;
            let s = host + ":"@ + text::decimal(port as nat);
            let address = TcpAddress::V4 { bits, port };
            &&& address_of(s) == Some(address)
            &&& address.shown() == s
            &&& address.loopback() <==> a == 127
        }),
{
    let bits: u32 = (a * 0x100_0000 + b * 0x1_0000 + c * 0x100 + d) as u32;
    octets_of_bits(a, b, c, d, bits);
    let address = TcpAddress::V4 { bits, port };
    assert(address.shown() == v4_text(bits) + ":"@ + text::decimal(port as nat));
    assert(address_of(address.shown()) == Some(address)) by {
        written_address_reads_back(address);
    }
}

/// A number that is too large is no part of an address, nor one with a zero in
/// front, nor nothing.
pub proof fn bad_octets_are_refused(n: nat)
    ensures
        n < 256 ==> octet(text::decimal(n)) == Some(n as int),
        256 <= n < 1000 ==> octet(text::decimal(n)) is None,
        octet("0"@ + text::decimal(n)) is None,
        octet(seq![]) is None,
{
    reveal_strlit("0");
    text::decimal_is_digits(n);
    let s = text::decimal(n);
    assert(("0"@ + s)[0] == '0');
    if n < 256 {
        decimal_is_octet(n);
    } else if n < 1000 {
        text::decimal_goes_by_tens(n / 10, n % 10);
        text::decimal_reads_back(n / 10, 255);
        assert(text::decimal(n) == text::decimal(n / 10).push(text::digit_char(n % 10)));
        assert(s.drop_last() =~= text::decimal(n / 10));
        assert(text::digits_value(s, 10, 255) is Err);
    }
}

/// Eight groups in brackets are an address; behind the colon stands the port.
pub proof fn groups_are_read_in_order(gs: Seq<u16>, port: u16)
    requires
        gs.len() == 8,
    ensures
        address_of("["@ + groups_text(gs) + "]:"@ + text::decimal(port as nat)) == Some(
            TcpAddress::V6 { bits: number_of(gs) as u128, port, scope_id: 0 },
        ),
        0 <= number_of(gs) <= u128::MAX,
{
    full_text_reads_back(gs);
    assert(gs.take(8) =~= gs);
    number_is_bounded(gs, 8);
    bracketed_text_is_read(groups_text(gs), gs, port);
}

/// A double colon stands for the groups of zero that are left out, wherever
/// they are.
pub proof fn double_colons_stand_for_zeros(gs: Seq<u16>, at: int, n: int, port: u16)
    requires
        gs.len() == 8,
        0 <= at,
        0 < n,
        at + n <= 8,
        forall|j: int| at <= j < at + n ==> gs[j] == 0,
    ensures
        address_of(
            "["@ + (groups_text(gs.take(at)) + "::"@ + groups_text(gs.skip(at + n))) + "]:"@
                + text::decimal(port as nat),
        ) == Some(TcpAddress::V6 { bits: number_of(gs) as u128, port, scope_id: 0 }),
{
    short_text_reads_back(gs, at, n);
    assert(gs.take(8) =~= gs);
    number_is_bounded(gs, 8);
    bracketed_text_is_read(
        groups_text(gs.take(at)) + "::"@ + groups_text(gs.skip(at + n)),
        gs,
        port,
    );
}

proof fn bracketed_text_is_read(t: Seq<char>, gs: Seq<u16>, port: u16)
    requires
        v6_groups(t) == Some(gs),
        plain(t),
        0 <= number_of(gs) <= u128::MAX,
    ensures
        address_of("["@ + t + "]:"@ + text::decimal(port as nat)) == Some(
            TcpAddress::V6 { bits: number_of(gs) as u128, port, scope_id: 0 },
        ),
{
    reveal_strlit("[");
    reveal_strlit("]");
    reveal_strlit("]:");
    reveal_strlit(":");
    reveal_strlit("%");
    let digits = text::decimal(port as nat);
    let s = "["@ + t + "]:"@ + digits;
    let after = seq![':'] + digits;
    assert(s.take(1) =~= "["@);
    brackets_begin_no_v4(s);
    assert("]"@ =~= seq![']']);
    assert(s.skip(1) =~= t + seq![']'] + after);
    assert(!t.contains(']'));
    split_at_char(t, after, ']');
    assert(after.take(1) =~= ":"@);
    assert(after.skip(1) =~= digits);
    decimal_is_unsigned(port as nat, 0xFFFF);
    if text::contains_text(t, "%"@) {
        let i = choose|i: int| text::stands_at(t, i, "%"@);
        assert(t.subrange(i, i + 1)[0] == '%');
        assert(plain_char(t[i]));
    }
}

/// Groups are written in hexadecimal with colons between them, and each counts
/// 65536 times as much as the next.
pub proof fn groups_go_by_their_place(gs: Seq<u16>, g: u16, n: nat, d: nat)
    requires
        d < 16,
    ensures
        number_of(gs.push(g)) == 65536 * number_of(gs) + g,
        number_of(seq![]) == 0,
        groups_text(seq![g]) == hex_text(g as nat),
        gs.len() > 0 ==> groups_text(gs.push(g)) == groups_text(gs) + ":"@ + hex_text(g as nat),
        hex_text(d) == seq![text::hex_char(d)],
        n > 0 ==> hex_text(16 * n + d) == hex_text(n).push(text::hex_char(d)),
{
    assert(gs.push(g).drop_last() =~= gs);
    assert((16 * n + d) / 16 == n && (16 * n + d) % 16 == d);
}

/// Of the long addresses only one is that of the host itself.
pub proof fn one_long_address_is_the_host(bits: u128, port: u16, scope_id: u32)
    ensures
        (TcpAddress::V6 { bits, port, scope_id }).loopback() <==> bits == 1,
{
}

/// What a double colon leaves out is the longest of the stretches of zeros, and
/// the first of those that are as long.
pub proof fn longest_stretch_is_left_out(gs: Seq<u16>, from: int, i: int)
    requires
        0 <= from <= i < gs.len(),
    ensures
        ({
            let (at, n) = longest_zeros(gs, from);
            &&& zeros_at(gs, i) <= n
            &&& zeros_at(gs, i) == n ==> at <= i
        }),
    decreases gs.len() - from,
{
    if from < i {
        longest_stretch_is_left_out(gs, from + 1, i);
    }
    zeros_are_there(gs, from);
}

/// How many zeros there are is counted to the first group that is none.
pub proof fn stretches_end_at_the_first_other(gs: Seq<u16>, i: int)
    requires
        0 <= i <= gs.len(),
    ensures
        ({
            let n = zeros_at(gs, i);
            &&& 0 <= n <= gs.len() - i
            &&& forall|j: int| i <= j < i + n ==> gs[j] == 0
            &&& i + n < gs.len() ==> gs[i + n] != 0
        }),
    decreases gs.len() - i,
{
    if i < gs.len() {
        stretches_end_at_the_first_other(gs, i + 1);
    }
}

/// An address of a scope says so; one of the scope zero does not.
pub proof fn scopes_are_written(bits: u128, port: u16, scope_id: u32)
    requires
        scope_id > 0,
    ensures
        (TcpAddress::V6 { bits, port, scope_id }).shown() == "["@ + v6_text(bits) + ("%"@
            + text::decimal(scope_id as nat)) + "]:"@ + text::decimal(port as nat),
        (TcpAddress::V6 { bits, port, scope_id: 0 }).shown() == "["@ + v6_text(bits) + "]:"@
            + text::decimal(port as nat),
{
    let none: Seq<char> = seq![];
    assert("["@ + v6_text(bits) + none =~= "["@ + v6_text(bits));
}

} // verus!

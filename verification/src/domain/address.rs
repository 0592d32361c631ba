use vstd::prelude::*;

verus! {

/// A socket address: an IP address of either family and a port.
///
/// An IPv6 address is held as its eight groups, first group first, with the scope of the
/// address where the text names one and zero where it names none. Flow information has
/// no place in the text of an address and is not held.
///
/// Two addresses are the same endpoint exactly when they are of one family and all
/// fields agree.
#[derive(Clone, Copy, Debug, PartialEq, Eq, Structural)]
pub enum SocketAddress {
    V4 { a: u8, b: u8, c: u8, d: u8, port: u16 },
    V6 {
        g0: u16,
        g1: u16,
        g2: u16,
        g3: u16,
        g4: u16,
        g5: u16,
        g6: u16,
        g7: u16,
        port: u16,
        scope_id: u32,
    },
}

/// The character is one of `0` to `9`.
pub open spec fn is_digit(c: char) -> bool {
    '0' <= c && c <= '9'
}

/// The number that a digit writes.
pub open spec fn digit_value(c: char) -> nat
    recommends
        is_digit(c),
{
    (c as u32 - '0' as u32) as nat
}

/// The character that writes the digit `d`.
pub open spec fn digit_char(d: nat) -> char
    recommends
        d < 10,
{
    if d == 0 {
        '0'
    } else if d == 1 {
        '1'
    } else if d == 2 {
        '2'
    } else if d == 3 {
        '3'
    } else if d == 4 {
        '4'
    } else if d == 5 {
        '5'
    } else if d == 6 {
        '6'
    } else if d == 7 {
        '7'
    } else if d == 8 {
        '8'
    } else {
        '9'
    }
}

/// Reads the longest run of decimal digits of `s` that starts at `from`, continuing the
/// number `acc`. Gives the number read and the position after the run, or `None` as soon
/// as the number exceeds `limit`.
pub open spec fn scan_digits(s: Seq<char>, from: int, acc: nat, limit: nat) -> Option<(nat, int)>
    decreases s.len() - from,
{
    if 0 <= from < s.len() && is_digit(s[from]) {
        let next = acc * 10 + digit_value(s[from]);
        if next > limit {
            None
        } else {
            scan_digits(s, from + 1, next, limit)
        }
    } else {
        Some((acc, from))
    }
}

/// An octet at `from`: one to three digits, at most 255, and no leading zero unless the
/// octet is the single digit `0`. Gives the octet and the position after it.
pub open spec fn scan_octet(s: Seq<char>, from: int) -> Option<(u8, int)> {
    match scan_digits(s, from, 0, 255) {
        Some((value, end)) => if end == from || (end > from + 1 && s[from] == '0') {
            None
        } else {
            Some((value as u8, end))
        },
        None => None,
    }
}

/// An octet at `from` followed by the separator `sep`. Gives the octet and the position
/// after the separator.
pub open spec fn scan_octet_then(s: Seq<char>, from: int, sep: char) -> Option<(u8, int)> {
    match scan_octet(s, from) {
        Some((value, end)) => if end < s.len() && s[end] == sep {
            Some((value, end + 1))
        } else {
            None
        },
        None => None,
    }
}

/// A port at `from`: one or more digits up to the end of the text, at most 65535.
pub open spec fn scan_port(s: Seq<char>, from: int) -> Option<u16> {
    match scan_digits(s, from, 0, 65535) {
        Some((value, end)) => if end == from || end != s.len() {
            None
        } else {
            Some(value as u16)
        },
        None => None,
    }
}

/// The IPv4 address that the text `s` writes, in the form `a.b.c.d:port`, if it writes
/// one.
pub open spec fn parse_socket_address_v4(s: Seq<char>) -> Option<SocketAddress> {
    match scan_octet_then(s, 0, '.') {
        Some((a, i)) => match scan_octet_then(s, i, '.') {
            Some((b, j)) => match scan_octet_then(s, j, '.') {
                Some((c, k)) => match scan_octet_then(s, k, ':') {
                    Some((d, l)) => match scan_port(s, l) {
                        Some(port) => Some(SocketAddress::V4 { a, b, c, d, port }),
                        None => None,
                    },
                    None => None,
                },
                None => None,
            },
            None => None,
        },
        None => None,
    }
}

/// The character is a hexadecimal digit, in either case.
pub open spec fn is_hex_digit(c: char) -> bool {
    is_digit(c) || ('a' <= c && c <= 'f') || ('A' <= c && c <= 'F')
}

/// The number that a hexadecimal digit writes.
pub open spec fn hex_value(c: char) -> nat
    recommends
        is_hex_digit(c),
{
    if is_digit(c) {
        digit_value(c)
    } else if 'a' <= c && c <= 'f' {
        (c as u32 - 'a' as u32 + 10) as nat
    } else {
        (c as u32 - 'A' as u32 + 10) as nat
    }
}

/// Reads the longest run of hexadecimal digits of `s` that starts at `from`, continuing
/// the number `acc` of `count` digits. Gives the number read and the position after the
/// run, or `None` where the run has more than four digits.
pub open spec fn scan_hex(s: Seq<char>, from: int, acc: nat, count: nat) -> Option<(nat, int)>
    decreases s.len() - from,
{
    if 0 <= from < s.len() && is_hex_digit(s[from]) {
        if count >= 4 {
            None
        } else {
            scan_hex(s, from + 1, acc * 16 + hex_value(s[from]), count + 1)
        }
    } else {
        Some((acc, from))
    }
}

/// A group of an IPv6 address at `from`: one to four hexadecimal digits. Gives the group
/// and the position after it.
pub open spec fn scan_group(s: Seq<char>, from: int) -> Option<(u16, int)> {
    match scan_hex(s, from, 0, 0) {
        Some((value, end)) => if end == from {
            None
        } else {
            Some((value as u16, end))
        },
        None => None,
    }
}

/// Four octets at `from`, written `a.b.c.d`. Gives the octets and the position after
/// them.
pub open spec fn scan_ipv4(s: Seq<char>, from: int) -> Option<((u8, u8, u8, u8), int)> {
    match scan_octet_then(s, from, '.') {
        Some((a, i)) => match scan_octet_then(s, i, '.') {
            Some((b, j)) => match scan_octet_then(s, j, '.') {
                Some((c, k)) => match scan_octet(s, k) {
                    Some((d, l)) => Some(((a, b, c, d), l)),
                    None => None,
                },
                None => None,
            },
            None => None,
        },
        None => None,
    }
}

/// The two groups that two octets make, the first octet in the upper half.
pub open spec fn group_of(high: u8, low: u8) -> u16 {
    (high as int * 256 + low as int) as u16
}

/// Where group `i` of a run of groups begins: at `from` for the first group, and after a
/// colon at `from` for every other.
pub open spec fn group_start(s: Seq<char>, from: int, i: nat) -> Option<int> {
    if i == 0 {
        Some(from)
    } else if 0 <= from < s.len() && s[from] == ':' {
        Some(from + 1)
    } else {
        None
    }
}

/// Reads groups separated by colons from `from` on, group `i` next, up to `limit`
/// groups in all, after the groups `acc`. Where at least two groups are still to come,
/// four octets written `a.b.c.d` stand for the next two groups and end the run. Gives
/// the groups read, the position after them, and whether octets ended the run.
pub open spec fn scan_groups(s: Seq<char>, from: int, i: nat, limit: nat, acc: Seq<u16>) -> (
    Seq<u16>,
    int,
    bool,
)
    decreases limit - i,
{
    if i >= limit {
        (acc, from, false)
    } else {
        match group_start(s, from, i) {
            None => (acc, from, false),
            Some(start) => if i + 1 < limit && scan_ipv4(s, start).is_some() {
                let ((a, b, c, d), end) = scan_ipv4(s, start).unwrap();
                (acc.push(group_of(a, b)).push(group_of(c, d)), end, true)
            } else {
                match scan_group(s, start) {
                    Some((group, end)) => scan_groups(s, end, i + 1, limit, acc.push(group)),
                    None => (acc, from, false),
                }
            },
        }
    }
}

/// That many groups of zero.
pub open spec fn zero_groups(n: int) -> Seq<u16> {
    Seq::new(
        if n >= 0 {
            n as nat
        } else {
            0
        },
        |k: int| 0u16,
    )
}

/// An IPv6 address at `from`: eight groups, or fewer groups around one `::`, which
/// stands for the groups of zero that are missing, at least one. Octets written
/// `a.b.c.d` may stand for the last two groups, but not in front of the `::`. Gives the
/// eight groups and the position after the address.
pub open spec fn scan_ipv6(s: Seq<char>, from: int) -> Option<(Seq<u16>, int)> {
    let (head, p, head_octets) = scan_groups(s, from, 0, 8, Seq::empty());
    if head.len() == 8 {
        Some((head, p))
    } else if head_octets {
        None
    } else if !(0 <= p && p + 1 < s.len() && s[p] == ':' && s[p + 1] == ':') {
        None
    } else {
        let (tail, q, tail_octets) = scan_groups(
            s,
            p + 2,
            0,
            (7 - head.len()) as nat,
            Seq::empty(),
        );
        Some((head + zero_groups(8 - head.len() - tail.len()) + tail, q))
    }
}

/// A scope at `from`: a percent sign and one or more decimal digits, at most
/// 4294967295. Gives the scope and the position after it.
pub open spec fn scan_scope(s: Seq<char>, from: int) -> Option<(u32, int)> {
    if 0 <= from < s.len() && s[from] == '%' {
        match scan_digits(s, from + 1, 0, 0xffff_ffff) {
            Some((value, end)) => if end == from + 1 {
                None
            } else {
                Some((value as u32, end))
            },
            None => None,
        }
    } else {
        None
    }
}

/// The IPv6 address that the text `s` writes, in the form `[address]:port` or
/// `[address%scope]:port`, if it writes one.
pub open spec fn parse_socket_address_v6(s: Seq<char>) -> Option<SocketAddress> {
    if !(s.len() > 0 && s[0] == '[') {
        None
    } else {
        match scan_ipv6(s, 1) {
            None => None,
            Some((groups, p)) => {
                let (scope_id, q) = match scan_scope(s, p) {
                    Some(found) => found,
                    None => (0u32, p),
                };
                if !(0 <= q && q + 1 < s.len() && s[q] == ']' && s[q + 1] == ':') {
                    None
                } else {
                    match scan_port(s, q + 2) {
                        Some(port) => Some(
                            SocketAddress::V6 {
                                g0: groups[0],
                                g1: groups[1],
                                g2: groups[2],
                                g3: groups[3],
                                g4: groups[4],
                                g5: groups[5],
                                g6: groups[6],
                                g7: groups[7],
                                port,
                                scope_id,
                            },
                        ),
                        None => None,
                    }
                }
            },
        }
    }
}

/// The address that the text `s` writes, if it writes one: an IPv4 address as
/// `a.b.c.d:port`, or an IPv6 address as `[address]:port`.
pub open spec fn parse_socket_address(s: Seq<char>) -> Option<SocketAddress> {
    match parse_socket_address_v4(s) {
        Some(addr) => Some(addr),
        None => parse_socket_address_v6(s),
    }
}

/// The decimal digits of `n`, without leading zeros.
pub open spec fn decimal_text(n: nat) -> Seq<char>
    decreases n,
{
    if n < 10 {
        seq![digit_char(n)]
    } else {
        decimal_text(n / 10).push(digit_char(n % 10))
    }
}

/// The character that writes the hexadecimal digit `d`, in lower case.
pub open spec fn hex_char(d: nat) -> char
    recommends
        d < 16,
{
    if d < 10 {
        digit_char(d)
    } else if d == 10 {
        'a'
    } else if d == 11 {
        'b'
    } else if d == 12 {
        'c'
    } else if d == 13 {
        'd'
    } else if d == 14 {
        'e'
    } else {
        'f'
    }
}

/// The hexadecimal digits of `n`, in lower case and without leading zeros.
pub open spec fn hex_text(n: nat) -> Seq<char>
    decreases n,
{
    if n < 16 {
        seq![hex_char(n)]
    } else {
        hex_text(n / 16).push(hex_char(n % 16))
    }
}

/// The groups in hexadecimal, with a colon between each two.
pub open spec fn groups_text(groups: Seq<u16>) -> Seq<char>
    decreases groups.len(),
{
    if groups.len() == 0 {
        Seq::empty()
    } else if groups.len() == 1 {
        hex_text(groups[0] as nat)
    } else {
        groups_text(groups.drop_last()) + seq![':'] + hex_text(groups.last() as nat)
    }
}

/// The number of groups of zero that follow one another from group `i` on.
pub open spec fn zero_run(groups: Seq<u16>, i: int) -> int
    decreases groups.len() - i,
{
    if 0 <= i < groups.len() && groups[i] == 0 {
        1 + zero_run(groups, i + 1)
    } else {
        0
    }
}

/// The first of the groups before `upto` from which the longest run of zeros starts.
pub open spec fn longest_zero_run(groups: Seq<u16>, upto: int) -> int
    decreases upto,
{
    if upto <= 1 {
        0
    } else {
        let before = longest_zero_run(groups, upto - 1);
        if zero_run(groups, upto - 1) > zero_run(groups, before) {
            upto - 1
        } else {
            before
        }
    }
}

/// The text `a.b.c.d` of four octets.
pub open spec fn ipv4_text(a: u8, b: u8, c: u8, d: u8) -> Seq<char> {
    decimal_text(a as nat) + seq!['.'] + decimal_text(b as nat) + seq!['.'] + decimal_text(
        c as nat,
    ) + seq!['.'] + decimal_text(d as nat)
}

/// The groups are those of an IPv4 address mapped into IPv6: five of zero, then `ffff`.
pub open spec fn is_mapped(groups: Seq<u16>) -> bool {
    groups[0] == 0 && groups[1] == 0 && groups[2] == 0 && groups[3] == 0 && groups[4] == 0
        && groups[5] == 0xffff
}

/// The text of an IPv6 address of eight groups. A mapped IPv4 address is written
/// `::ffff:a.b.c.d`. Otherwise the groups are written in hexadecimal with colons
/// between, and the first of the longest runs of two or more groups of zero is written
/// `::`.
pub open spec fn ipv6_text(groups: Seq<u16>) -> Seq<char> {
    if is_mapped(groups) {
        seq![':', ':', 'f', 'f', 'f', 'f', ':'] + ipv4_text(
            (groups[6] / 256) as u8,
            (groups[6] % 256) as u8,
            (groups[7] / 256) as u8,
            (groups[7] % 256) as u8,
        )
    } else {
        let start = longest_zero_run(groups, 8);
        let len = zero_run(groups, start);
        if len > 1 {
            groups_text(groups.subrange(0, start)) + seq![':', ':'] + groups_text(
                groups.subrange(start + len, 8),
            )
        } else {
            groups_text(groups)
        }
    }
}

/// The text of a scope: nothing for the scope zero, else a percent sign and the scope
/// in decimal.
pub open spec fn scope_text(scope_id: u32) -> Seq<char> {
    if scope_id == 0 {
        Seq::empty()
    } else {
        seq!['%'] + decimal_text(scope_id as nat)
    }
}

/// The eight groups of an IPv6 address; none for an IPv4 address.
pub open spec fn address_groups(addr: SocketAddress) -> Seq<u16> {
    match addr {
        SocketAddress::V4 { a, b, c, d, port } => Seq::empty(),
        SocketAddress::V6 { g0, g1, g2, g3, g4, g5, g6, g7, port, scope_id } => seq![
            g0,
            g1,
            g2,
            g3,
            g4,
            g5,
            g6,
            g7,
        ],
    }
}

/// The text of an address: `a.b.c.d:port` for IPv4, `[address]:port` or
/// `[address%scope]:port` for IPv6.
pub open spec fn socket_address_text(addr: SocketAddress) -> Seq<char> {
    match addr {
        SocketAddress::V4 { a, b, c, d, port } => ipv4_text(a, b, c, d) + seq![':']
            + decimal_text(port as nat),
        SocketAddress::V6 { g0, g1, g2, g3, g4, g5, g6, g7, port, scope_id } => seq!['[']
            + ipv6_text(address_groups(addr)) + scope_text(scope_id) + seq![']', ':']
            + decimal_text(port as nat),
    }
}

/// The text `number` stands in `s` from `from` on.
pub open spec fn stands_at(s: Seq<char>, from: int, number: Seq<char>) -> bool {
    &&& 0 <= from
    &&& from + number.len() <= s.len()
    &&& forall|i: int| 0 <= i < number.len() ==> s[from + i] == #[trigger] number[i]
}

/// The decimal digits of a number are digits, at least one of them, and the first is no
/// zero unless the number is zero.
pub proof fn lemma_decimal_text_shape(n: nat)
    ensures
        decimal_text(n).len() >= 1,
        n < 10 ==> decimal_text(n).len() == 1,
        n >= 10 ==> decimal_text(n).len() >= 2,
        n >= 1 ==> decimal_text(n)[0] != '0',
        forall|i: int| 0 <= i < decimal_text(n).len() ==> is_digit(#[trigger] decimal_text(n)[i]),
    decreases n,
{
    if n >= 10 {
        lemma_decimal_text_shape(n / 10);
        let head = decimal_text(n / 10);
        assert(decimal_text(n)[0] == head[0]);
        assert forall|i: int| 0 <= i < decimal_text(n).len() implies is_digit(
            #[trigger] decimal_text(n)[i],
        ) by {
            if i < head.len() {
                assert(decimal_text(n)[i] == head[i]);
            }
        }
    }
}

/// Scanning over the decimal digits of a number from a zero start reads that number.
pub proof fn lemma_scan_decimal_text(s: Seq<char>, from: int, n: nat, limit: nat)
    requires
        stands_at(s, from, decimal_text(n)),
        n <= limit,
    ensures
        scan_digits(s, from, 0, limit) == scan_digits(
            s,
            from + decimal_text(n).len(),
            n,
            limit,
        ),
    decreases n,
{
    lemma_decimal_text_shape(n);
    if n < 10 {
        assert(s[from + 0] == decimal_text(n)[0]);
        assert(digit_value(digit_char(n)) == n);
    } else {
        let head = decimal_text(n / 10);
        let last = digit_char(n % 10);
        lemma_decimal_text_shape(n / 10);
        assert forall|i: int| 0 <= i < head.len() implies s[from + i] == #[trigger] head[i] by {
            assert(decimal_text(n)[i] == head[i]);
        }
        lemma_scan_decimal_text(s, from, n / 10, limit);
        let at = from + head.len();
        assert(s[at] == decimal_text(n)[head.len() as int]);
        assert(s[at] == last);
        assert(digit_value(last) == n % 10);
        assert(is_digit(last));
        assert((n / 10) * 10 + n % 10 == n);
    }
}

/// An octet that stands in `s` in decimal, followed by a separator that is no digit, is
/// read as that octet, up to the position after the separator.
pub proof fn lemma_scan_octet_text(s: Seq<char>, from: int, value: u8, sep: char)
    requires
        stands_at(s, from, decimal_text(value as nat)),
        from + decimal_text(value as nat).len() < s.len(),
        s[from + decimal_text(value as nat).len()] == sep,
        !is_digit(sep),
    ensures
        scan_octet_then(s, from, sep) == Some(
            (value, from + decimal_text(value as nat).len() + 1),
        ),
{
    let text = decimal_text(value as nat);
    lemma_decimal_text_shape(value as nat);
    lemma_scan_decimal_text(s, from, value as nat, 255);
    assert(s[from + 0] == text[0]);
}

/// A port that stands at the end of `s` in decimal is read as that port.
pub proof fn lemma_scan_port_text(s: Seq<char>, from: int, port: u16)
    requires
        stands_at(s, from, decimal_text(port as nat)),
        from + decimal_text(port as nat).len() == s.len(),
    ensures
        scan_port(s, from) == Some(port),
{
    lemma_decimal_text_shape(port as nat);
    lemma_scan_decimal_text(s, from, port as nat, 65535);
}

/// An IPv4 address that was written is read back: `parse` undoes `to_string`.
pub proof fn lemma_written_v4_address_is_read_back(a: u8, b: u8, c: u8, d: u8, port: u16)
    ensures
        parse_socket_address(socket_address_text(SocketAddress::V4 { a, b, c, d, port })) == Some(
            SocketAddress::V4 { a, b, c, d, port },
        ),
{
    let ta = decimal_text(a as nat);
    let tb = decimal_text(b as nat);
    let tc = decimal_text(c as nat);
    let td = decimal_text(d as nat);
    let tp = decimal_text(port as nat);
    let s = socket_address_text(SocketAddress::V4 { a, b, c, d, port });
    let i = ta.len() + 1;
    let j = i + tb.len() + 1;
    let k = j + tc.len() + 1;
    let l = k + td.len() + 1;
    assert(s.len() == l + tp.len());
    assert(stands_at(s, 0, ta));
    assert(s[i - 1] == '.');
    lemma_scan_octet_text(s, 0, a, '.');
    assert(stands_at(s, i as int, tb));
    assert(s[j - 1] == '.');
    lemma_scan_octet_text(s, i as int, b, '.');
    assert(stands_at(s, j as int, tc));
    assert(s[k - 1] == '.');
    lemma_scan_octet_text(s, j as int, c, '.');
    assert(stands_at(s, k as int, td));
    assert(s[l - 1] == ':');
    lemma_scan_octet_text(s, k as int, d, ':');
    assert(stands_at(s, l as int, tp));
    lemma_scan_port_text(s, l as int, port);
}

/// A character that can follow a group: no hexadecimal digit and no dot.
pub open spec fn is_group_end(c: char) -> bool {
    !is_hex_digit(c) && c != '.'
}

/// The hexadecimal digits of a group are digits, one to four of them.
pub proof fn lemma_hex_text_shape(n: nat)
    ensures
        hex_text(n).len() >= 1,
        n < 16 ==> hex_text(n).len() == 1,
        n < 256 ==> hex_text(n).len() <= 2,
        n < 4096 ==> hex_text(n).len() <= 3,
        n < 65536 ==> hex_text(n).len() <= 4,
        forall|i: int| 0 <= i < hex_text(n).len() ==> is_hex_digit(#[trigger] hex_text(n)[i]),
    decreases n,
{
    if n >= 16 {
        lemma_hex_text_shape(n / 16);
        let head = hex_text(n / 16);
        assert forall|i: int| 0 <= i < hex_text(n).len() implies is_hex_digit(
            #[trigger] hex_text(n)[i],
        ) by {
            if i < head.len() {
                assert(hex_text(n)[i] == head[i]);
            }
        }
    }
}

/// Scanning over the hexadecimal digits of a group from a zero start reads that group.
pub proof fn lemma_scan_hex_text(s: Seq<char>, from: int, n: nat)
    requires
        stands_at(s, from, hex_text(n)),
        n < 65536,
    ensures
        scan_hex(s, from, 0, 0) == scan_hex(s, from + hex_text(n).len(), n, hex_text(n).len()),
    decreases n,
{
    lemma_hex_text_shape(n);
    if n < 16 {
        assert(s[from + 0] == hex_text(n)[0]);
        assert(hex_value(hex_char(n)) == n);
    } else {
        let head = hex_text(n / 16);
        let last = hex_char(n % 16);
        lemma_hex_text_shape(n / 16);
        assert forall|i: int| 0 <= i < head.len() implies s[from + i] == #[trigger] head[i] by {
            assert(hex_text(n)[i] == head[i]);
        }
        lemma_scan_hex_text(s, from, n / 16);
        let at = from + head.len();
        assert(s[at] == hex_text(n)[head.len() as int]);
        assert(s[at] == last);
        assert(hex_value(last) == n % 16);
        assert(is_hex_digit(last));
        assert((n / 16) * 16 + n % 16 == n);
    }
}

/// Where a scan of decimal digits ends: after digits alone, and in front of a character
/// that is no digit.
pub proof fn lemma_scan_digits_end(s: Seq<char>, from: int, acc: nat, limit: nat)
    requires
        0 <= from <= s.len(),
    ensures
        match scan_digits(s, from, acc, limit) {
            Some((value, end)) => {
                &&& from <= end <= s.len()
                &&& forall|i: int| from <= i < end ==> is_digit(#[trigger] s[i])
                &&& end < s.len() ==> !is_digit(s[end])
            },
            None => true,
        },
    decreases s.len() - from,
{
    if from < s.len() && is_digit(s[from]) {
        let next = acc * 10 + digit_value(s[from]);
        if next <= limit {
            lemma_scan_digits_end(s, from + 1, next, limit);
        }
    }
}

/// Hexadecimal digits that end in front of a character that can follow a group are not
/// the start of four octets.
pub proof fn lemma_no_octets_in_group(s: Seq<char>, from: int, end: int)
    requires
        0 <= from <= end < s.len(),
        forall|i: int| from <= i < end ==> is_hex_digit(#[trigger] s[i]),
        is_group_end(s[end]),
    ensures
        scan_ipv4(s, from).is_none(),
{
    lemma_scan_digits_end(s, from, 0, 255);
    match scan_digits(s, from, 0, 255) {
        Some((value, stop)) => {
            if stop > end {
                assert(is_digit(s[end]));
            }
            if stop < end {
                assert(is_hex_digit(s[stop]));
            }
            assert(s[stop] != '.');
        },
        None => {},
    }
}

/// A group that stands in `s` in hexadecimal, in front of a character that can follow a
/// group, is read as that group, and is not read as octets.
pub proof fn lemma_scan_group_text(s: Seq<char>, from: int, group: u16)
    requires
        stands_at(s, from, hex_text(group as nat)),
        from + hex_text(group as nat).len() < s.len(),
        is_group_end(s[from + hex_text(group as nat).len()]),
    ensures
        scan_group(s, from) == Some((group, from + hex_text(group as nat).len())),
        scan_ipv4(s, from).is_none(),
{
    let text = hex_text(group as nat);
    lemma_hex_text_shape(group as nat);
    lemma_scan_hex_text(s, from, group as nat);
    assert forall|i: int| from <= i < from + text.len() implies is_hex_digit(#[trigger] s[i]) by {
        assert(s[from + (i - from)] == text[i - from]);
    }
    lemma_no_octets_in_group(s, from, from + text.len());
}

/// Groups that stand in `s` with colons between, in front of a character that can
/// follow a group, are read one after another.
pub proof fn lemma_scan_groups_text(s: Seq<char>, from: int, groups: Seq<u16>, limit: nat)
    requires
        1 <= groups.len() <= limit,
        stands_at(s, from, groups_text(groups)),
        from + groups_text(groups).len() < s.len(),
        is_group_end(s[from + groups_text(groups).len()]),
    ensures
        scan_groups(s, from, 0, limit, Seq::empty()) == scan_groups(
            s,
            from + groups_text(groups).len(),
            groups.len(),
            limit,
            groups,
        ),
    decreases groups.len(),
{
    if groups.len() == 1 {
        lemma_scan_group_text(s, from, groups[0]);
        assert(Seq::<u16>::empty().push(groups[0]) =~= groups);
    } else {
        let prefix = groups.drop_last();
        let front = groups_text(prefix);
        let back = hex_text(groups.last() as nat);
        let whole = groups_text(groups);
        assert(whole == front + seq![':'] + back);
        assert forall|i: int| 0 <= i < front.len() implies s[from + i] == #[trigger] front[i] by {
            assert(whole[i] == front[i]);
        }
        assert(s[from + front.len()] == whole[front.len() as int]);
        assert(s[from + front.len()] == ':');
        assert forall|i: int| 0 <= i < back.len() implies s[from + front.len() + 1 + i]
            == #[trigger] back[i] by {
            assert(whole[front.len() + 1 + i] == back[i]);
        }
        assert(stands_at(s, from + front.len() + 1, back));
        lemma_scan_groups_text(s, from, prefix, limit);
        lemma_scan_group_text(s, from + front.len() + 1, groups.last());
        assert(prefix.push(groups.last()) =~= groups);
    }
}

/// A run of groups ends where no group stands: in front of a character that can follow
/// a group and is no colon, or in front of two colons.
pub proof fn lemma_scan_groups_stop(s: Seq<char>, pos: int, i: nat, limit: nat, acc: Seq<u16>)
    requires
        0 <= pos < s.len(),
        is_group_end(s[pos]),
        s[pos] == ':' ==> pos + 1 < s.len() && s[pos + 1] == ':',
    ensures
        scan_groups(s, pos, i, limit, acc) == (acc, pos, false),
{
    if i < limit {
        if i == 0 {
            lemma_no_octets_in_group(s, pos, pos);
        } else if s[pos] == ':' {
            lemma_no_octets_in_group(s, pos + 1, pos + 1);
        }
    }
}

/// The groups of a run of zeros are zero, and the run ends within the groups.
pub proof fn lemma_zero_run(groups: Seq<u16>, i: int)
    requires
        0 <= i <= groups.len(),
    ensures
        0 <= zero_run(groups, i),
        i + zero_run(groups, i) <= groups.len(),
        forall|k: int| i <= k < i + zero_run(groups, i) ==> #[trigger] groups[k] == 0,
    decreases groups.len() - i,
{
    if i < groups.len() && groups[i] == 0 {
        lemma_zero_run(groups, i + 1);
    }
}

/// The longest run of zeros starts at one of the groups.
pub proof fn lemma_longest_zero_run(groups: Seq<u16>, upto: int)
    requires
        1 <= upto,
    ensures
        0 <= longest_zero_run(groups, upto) < upto,
    decreases upto,
{
    if upto > 1 {
        lemma_longest_zero_run(groups, upto - 1);
    }
}

/// A mapped IPv4 address that stands in `s` as it is written is read as that address.
proof fn lemma_scan_mapped_text(s: Seq<char>, from: int, groups: Seq<u16>)
    requires
        groups.len() == 8,
        stands_at(s, from, ipv6_text(groups)),
        from + ipv6_text(groups).len() < s.len(),
        s[from + ipv6_text(groups).len()] == ']' || s[from + ipv6_text(groups).len()] == '%',
        is_mapped(groups),
    ensures
        scan_ipv6(s, from) == Some((groups, from + ipv6_text(groups).len())),
{
    let text = ipv6_text(groups);
    let after = from + text.len();
    let none = Seq::<u16>::empty();
    assert(is_group_end(s[after]));
    let a = (groups[6] / 256) as u8;
    let b = (groups[6] % 256) as u8;
    let c = (groups[7] / 256) as u8;
    let d = (groups[7] % 256) as u8;
    let lead = seq![':', ':', 'f', 'f', 'f', 'f', ':'];
    let octets = ipv4_text(a, b, c, d);
    assert(text == lead + octets);
    assert forall|i: int| 0 <= i < 7 implies s[from + i] == #[trigger] lead[i] by {
        assert(text[i] == lead[i]);
    }
    assert(s[from + 0] == ':' && s[from + 1] == ':' && s[from + 2] == 'f' && s[from + 3] == 'f'
        && s[from + 4] == 'f' && s[from + 5] == 'f' && s[from + 6] == ':');
    lemma_scan_groups_stop(s, from, 0, 8, none);
    // the group ffff
    assert(hex_text(0xffff) =~= seq!['f', 'f', 'f', 'f']) by {
        reveal_with_fuel(hex_text, 5);
    }
    assert(stands_at(s, from + 2, hex_text(0xffff)));
    lemma_scan_group_text(s, from + 2, 0xffff);
    // the octets
    let ta = decimal_text(a as nat);
    let tb = decimal_text(b as nat);
    let tc = decimal_text(c as nat);
    let td = decimal_text(d as nat);
    let at = from + 7;
    let i = at + ta.len() + 1;
    let j = i + tb.len() + 1;
    let k = j + tc.len() + 1;
    assert(after == k + td.len());
    assert forall|x: int| 0 <= x < octets.len() implies s[at + x] == #[trigger] octets[x] by {
        assert(text[7 + x] == octets[x]);
    }
    assert(stands_at(s, at, ta)) by {
        assert forall|x: int| 0 <= x < ta.len() implies s[at + x] == #[trigger] ta[x] by {
            assert(octets[x] == ta[x]);
        }
    }
    assert(s[i - 1] == '.') by {
        assert(octets[i - 1 - at] == '.');
    }
    lemma_scan_octet_text(s, at, a, '.');
    assert(stands_at(s, i, tb)) by {
        assert forall|x: int| 0 <= x < tb.len() implies s[i + x] == #[trigger] tb[x] by {
            assert(octets[i - at + x] == tb[x]);
        }
    }
    assert(s[j - 1] == '.') by {
        assert(octets[j - 1 - at] == '.');
    }
    lemma_scan_octet_text(s, i, b, '.');
    assert(stands_at(s, j, tc)) by {
        assert forall|x: int| 0 <= x < tc.len() implies s[j + x] == #[trigger] tc[x] by {
            assert(octets[j - at + x] == tc[x]);
        }
    }
    assert(s[k - 1] == '.') by {
        assert(octets[k - 1 - at] == '.');
    }
    lemma_scan_octet_text(s, j, c, '.');
    assert(stands_at(s, k, td)) by {
        assert forall|x: int| 0 <= x < td.len() implies s[k + x] == #[trigger] td[x] by {
            assert(octets[k - at + x] == td[x]);
        }
    }
    lemma_scan_octet_text(s, k, d, s[after]);
    assert(scan_octet(s, k) == Some((d, after)));
    assert(scan_ipv4(s, at) == Some(((a, b, c, d), after)));
    let tail = none.push(0xffffu16).push(group_of(a, b)).push(group_of(c, d));
    assert(scan_groups(s, from + 6, 1, 7, none.push(0xffffu16)) == (tail, after, true));
    assert(scan_groups(s, from + 2, 0, 7, none) == (tail, after, true));
    assert(group_of(a, b) == groups[6]);
    assert(group_of(c, d) == groups[7]);
    assert(none + zero_groups(8 - 0 - 3) + tail =~= groups);
}

/// An IPv6 address that stands in `s` with its longest run of zeros written `::` is read
/// as that address.
proof fn lemma_scan_shortened_text(s: Seq<char>, from: int, groups: Seq<u16>)
    requires
        groups.len() == 8,
        stands_at(s, from, ipv6_text(groups)),
        from + ipv6_text(groups).len() < s.len(),
        s[from + ipv6_text(groups).len()] == ']' || s[from + ipv6_text(groups).len()] == '%',
        !is_mapped(groups),
        zero_run(groups, longest_zero_run(groups, 8)) > 1,
    ensures
        scan_ipv6(s, from) == Some((groups, from + ipv6_text(groups).len())),
{
    let text = ipv6_text(groups);
    let after = from + text.len();
    let none = Seq::<u16>::empty();
    assert(is_group_end(s[after]));
    let start = longest_zero_run(groups, 8);
    let len = zero_run(groups, start);
    lemma_longest_zero_run(groups, 8);
    lemma_zero_run(groups, start);
    let head = groups.subrange(0, start);
    let tail = groups.subrange(start + len, 8);
    let front = groups_text(head);
    let back = groups_text(tail);
    assert(text == front + seq![':', ':'] + back);
    let p: int = from + front.len();
    assert(s[p] == ':' && s[p + 1] == ':') by {
        let fl: int = front.len() as int;
        assert(text[fl] == ':');
        assert(text[fl + 1] == ':');
        assert(s[from + fl] == text[fl]);
        assert(s[from + (fl + 1)] == text[fl + 1]);
    }
    if start > 0 {
        assert(stands_at(s, from, front)) by {
            assert forall|x: int| 0 <= x < front.len() implies s[from + x]
                == #[trigger] front[x] by {
                assert(text[x] == front[x]);
            }
        }
        lemma_scan_groups_text(s, from, head, 8);
    } else {
        assert(front.len() == 0);
    }
    lemma_scan_groups_stop(s, p, head.len(), 8, head);
    assert(scan_groups(s, from, 0, 8, none) == (head, p, false)) by {
        if start == 0 {
            assert(head =~= none);
        }
    }
    let limit = (7 - start) as nat;
    assert(after == p + 2 + back.len());
    if tail.len() > 0 {
        assert(stands_at(s, p + 2, back)) by {
            assert forall|x: int| 0 <= x < back.len() implies s[p + 2 + x]
                == #[trigger] back[x] by {
                assert(text[front.len() + 2 + x] == back[x]);
                assert(s[from + (front.len() + 2 + x)] == text[front.len() + 2 + x]);
            }
        }
        lemma_scan_groups_text(s, p + 2, tail, limit);
    } else {
        assert(back.len() == 0);
    }
    lemma_scan_groups_stop(s, after, tail.len(), limit, tail);
    assert(scan_groups(s, p + 2, 0, limit, none) == (tail, after, false)) by {
        if tail.len() == 0 {
            assert(tail =~= none);
        }
    }
    assert(head + zero_groups(8 - head.len() - tail.len()) + tail =~= groups);
}

/// An IPv6 address that stands in `s` as it is written, in front of a bracket or a
/// percent sign, is read as that address.
pub proof fn lemma_scan_ipv6_text(s: Seq<char>, from: int, groups: Seq<u16>)
    requires
        groups.len() == 8,
        stands_at(s, from, ipv6_text(groups)),
        from + ipv6_text(groups).len() < s.len(),
        s[from + ipv6_text(groups).len()] == ']' || s[from + ipv6_text(groups).len()] == '%',
    ensures
        scan_ipv6(s, from) == Some((groups, from + ipv6_text(groups).len())),
{
    let text = ipv6_text(groups);
    let after = from + text.len();
    assert(is_group_end(s[after]));
    if is_mapped(groups) {
        lemma_scan_mapped_text(s, from, groups);
    } else if zero_run(groups, longest_zero_run(groups, 8)) > 1 {
        lemma_scan_shortened_text(s, from, groups);
    } else {
        lemma_scan_groups_text(s, from, groups, 8);
    }
}

/// An IPv6 address that was written is read back: `parse` undoes `to_string`.
pub proof fn lemma_written_v6_address_is_read_back(
    g0: u16,
    g1: u16,
    g2: u16,
    g3: u16,
    g4: u16,
    g5: u16,
    g6: u16,
    g7: u16,
    port: u16,
    scope_id: u32,
)
    ensures
        parse_socket_address(
            socket_address_text(
                SocketAddress::V6 { g0, g1, g2, g3, g4, g5, g6, g7, port, scope_id },
            ),
        ) == Some(SocketAddress::V6 { g0, g1, g2, g3, g4, g5, g6, g7, port, scope_id }),
{
    let addr = SocketAddress::V6 { g0, g1, g2, g3, g4, g5, g6, g7, port, scope_id };
    let groups = address_groups(addr);
    let s = socket_address_text(addr);
    let ti = ipv6_text(groups);
    let ts = scope_text(scope_id);
    let tp = decimal_text(port as nat);
    assert(s == seq!['['] + ti + ts + seq![']', ':'] + tp);
    let p: int = 1 + ti.len() as int;
    let q: int = p + ts.len();
    assert(s.len() == q + 2 + tp.len());
    assert(s[0] == '[');
    // no IPv4 address starts with a bracket
    assert(parse_socket_address_v4(s).is_none());
    assert(s[q] == ']' && s[q + 1] == ':');
    assert(stands_at(s, 1, ti));
    if scope_id == 0 {
        assert(ts.len() == 0);
        lemma_scan_ipv6_text(s, 1, groups);
        assert(scan_scope(s, p).is_none());
    } else {
        let td = decimal_text(scope_id as nat);
        assert(ts == seq!['%'] + td);
        assert(s[p] == '%') by {
            assert(ts[0] == '%');
        }
        lemma_scan_ipv6_text(s, 1, groups);
        lemma_decimal_text_shape(scope_id as nat);
        assert(stands_at(s, p + 1, td)) by {
            assert forall|x: int| 0 <= x < td.len() implies s[p + 1 + x] == #[trigger] td[x] by {
                assert(ts[1 + x] == td[x]);
                assert(s[1 + ti.len() + (1 + x)] == ts[1 + x]);
            }
        }
        lemma_scan_decimal_text(s, p + 1, scope_id as nat, 0xffff_ffff);
        assert(scan_scope(s, p) == Some((scope_id, q)));
    }
    assert(stands_at(s, q + 2, tp));
    lemma_scan_port_text(s, q + 2, port);
}

/// An address that was written is read back: `parse` undoes `to_string`, for either
/// family.
pub proof fn lemma_written_address_is_read_back(addr: SocketAddress)
    ensures
        parse_socket_address(socket_address_text(addr)) == Some(addr),
{
    match addr {
        SocketAddress::V4 { a, b, c, d, port } => {
            lemma_written_v4_address_is_read_back(a, b, c, d, port);
        },
        SocketAddress::V6 { g0, g1, g2, g3, g4, g5, g6, g7, port, scope_id } => {
            lemma_written_v6_address_is_read_back(
                g0,
                g1,
                g2,
                g3,
                g4,
                g5,
                g6,
                g7,
                port,
                scope_id,
            );
        },
    }
}

/// Exec counterpart of `scan_digits` from a zero start.
fn read_digits(text: &str, len: usize, from: usize, limit: u64) -> (r: Option<(u64, usize)>)
    requires
        len == text@.len(),
        from <= len,
        limit <= 0xffff_ffff,
    ensures
        match r {
            Some((value, end)) => scan_digits(text@, from as int, 0, limit as nat) == Some(
                (value as nat, end as int),
            ) && from <= end <= len && value <= limit,
            None => scan_digits(text@, from as int, 0, limit as nat).is_none(),
        },
{
    let mut pos: usize = from;
    let mut acc: u64 = 0;
    while pos < len
        invariant
            len == text@.len(),
            from <= pos <= len,
            limit <= 0xffff_ffff,
            acc <= limit,
            scan_digits(text@, from as int, 0, limit as nat) == scan_digits(
                text@,
                pos as int,
                acc as nat,
                limit as nat,
            ),
        decreases len - pos,
    {
        let c: char = text.get_char(pos);
        if !('0' <= c && c <= '9') {
            return Some((acc, pos));
        }
        let next: u64 = acc * 10 + (c as u64 - '0' as u64);
        if next > limit {
            return None;
        }
        acc = next;
        pos = pos + 1;
    }
    Some((acc, pos))
}

fn read_octet(text: &str, len: usize, from: usize) -> (r: Option<(u8, usize)>)
    requires
        len == text@.len(),
        from <= len,
    ensures
        match r {
            Some((value, end)) => scan_octet(text@, from as int) == Some((value, end as int))
                && from < end <= len,
            None => scan_octet(text@, from as int).is_none(),
        },
{
    match read_digits(text, len, from, 255) {
        Some((value, end)) => {
            if end == from {
                return None;
            }
            if end > from + 1 && text.get_char(from) == '0' {
                return None;
            }
            Some((value as u8, end))
        },
        None => None,
    }
}

fn read_octet_then(text: &str, len: usize, from: usize, sep: char) -> (r: Option<(u8, usize)>)
    requires
        len == text@.len(),
        from <= len,
    ensures
        match r {
            Some((value, next)) => scan_octet_then(text@, from as int, sep) == Some(
                (value, next as int),
            ) && from < next <= len,
            None => scan_octet_then(text@, from as int, sep).is_none(),
        },
{
    match read_octet(text, len, from) {
        Some((value, end)) => {
            if end < len && text.get_char(end) == sep {
                Some((value, end + 1))
            } else {
                None
            }
        },
        None => None,
    }
}

fn read_port(text: &str, len: usize, from: usize) -> (r: Option<u16>)
    requires
        len == text@.len(),
        from <= len,
    ensures
        r == scan_port(text@, from as int),
{
    match read_digits(text, len, from, 65535) {
        Some((value, end)) => {
            if end == from || end != len {
                None
            } else {
                Some(value as u16)
            }
        },
        None => None,
    }
}

fn read_ipv4(text: &str, len: usize, from: usize) -> (r: Option<((u8, u8, u8, u8), usize)>)
    requires
        len == text@.len(),
        from <= len,
    ensures
        match r {
            Some((octets, end)) => scan_ipv4(text@, from as int) == Some((octets, end as int))
                && from < end <= len,
            None => scan_ipv4(text@, from as int).is_none(),
        },
{
    let (a, i) = match read_octet_then(text, len, from, '.') {
        Some(found) => found,
        None => { return None; },
    };
    let (b, j) = match read_octet_then(text, len, i, '.') {
        Some(found) => found,
        None => { return None; },
    };
    let (c, k) = match read_octet_then(text, len, j, '.') {
        Some(found) => found,
        None => { return None; },
    };
    match read_octet(text, len, k) {
        Some((d, l)) => Some(((a, b, c, d), l)),
        None => None,
    }
}

fn read_v4(text: &str, len: usize) -> (r: Option<SocketAddress>)
    requires
        len == text@.len(),
    ensures
        r == parse_socket_address_v4(text@),
{
    let (a, i) = match read_octet_then(text, len, 0, '.') {
        Some(found) => found,
        None => { return None; },
    };
    let (b, j) = match read_octet_then(text, len, i, '.') {
        Some(found) => found,
        None => { return None; },
    };
    let (c, k) = match read_octet_then(text, len, j, '.') {
        Some(found) => found,
        None => { return None; },
    };
    let (d, l) = match read_octet_then(text, len, k, ':') {
        Some(found) => found,
        None => { return None; },
    };
    match read_port(text, len, l) {
        Some(port) => Some(SocketAddress::V4 { a, b, c, d, port }),
        None => None,
    }
}

/// The number that the character writes as a hexadecimal digit, if it is one.
fn hex_digit(c: char) -> (r: Option<u32>)
    ensures
        match r {
            Some(value) => is_hex_digit(c) && value == hex_value(c) && value < 16,
            None => !is_hex_digit(c),
        },
{
    if '0' <= c && c <= '9' {
        Some(c as u32 - '0' as u32)
    } else if 'a' <= c && c <= 'f' {
        Some(c as u32 - 'a' as u32 + 10)
    } else if 'A' <= c && c <= 'F' {
        Some(c as u32 - 'A' as u32 + 10)
    } else {
        None
    }
}

fn read_group(text: &str, len: usize, from: usize) -> (r: Option<(u16, usize)>)
    requires
        len == text@.len(),
        from <= len,
    ensures
        match r {
            Some((value, end)) => scan_group(text@, from as int) == Some((value, end as int))
                && from < end <= len,
            None => scan_group(text@, from as int).is_none(),
        },
{
    let mut pos: usize = from;
    let mut acc: u32 = 0;
    let mut count: u32 = 0;
    while pos < len
        invariant
            len == text@.len(),
            from <= pos <= len,
            count <= 4,
            count == pos - from,
            count == 0 ==> acc == 0,
            count == 1 ==> acc < 16,
            count == 2 ==> acc < 256,
            count == 3 ==> acc < 4096,
            acc < 65536,
            scan_hex(text@, from as int, 0, 0) == scan_hex(
                text@,
                pos as int,
                acc as nat,
                count as nat,
            ),
        decreases len - pos,
    {
        let digit = match hex_digit(text.get_char(pos)) {
            Some(digit) => digit,
            None => {
                if pos == from {
                    return None;
                }
                return Some((acc as u16, pos));
            },
        };
        if count >= 4 {
            return None;
        }
        acc = acc * 16 + digit;
        count = count + 1;
        pos = pos + 1;
    }
    if pos == from {
        None
    } else {
        Some((acc as u16, pos))
    }
}

/// Exec counterpart of `scan_groups` from the first group on.
fn read_groups(text: &str, len: usize, from: usize, limit: usize) -> (r: (
    Vec<u16>,
    usize,
    bool,
))
    requires
        len == text@.len(),
        from <= len,
        limit <= 8,
    ensures
        scan_groups(text@, from as int, 0, limit as nat, Seq::empty()) == (r.0@, r.1 as int, r.2),
        r.0@.len() <= limit,
        from <= r.1 <= len,
{
    let mut groups: Vec<u16> = Vec::new();
    let mut pos: usize = from;
    while groups.len() < limit
        invariant
            len == text@.len(),
            from <= pos <= len,
            limit <= 8,
            groups@.len() <= limit,
            scan_groups(text@, from as int, 0, limit as nat, Seq::empty()) == scan_groups(
                text@,
                pos as int,
                groups@.len(),
                limit as nat,
                groups@,
            ),
        decreases limit - groups.len(),
    {
        let i: usize = groups.len();
        let mut start: usize = pos;
        if i > 0 {
            if pos < len && text.get_char(pos) == ':' {
                start = pos + 1;
            } else {
                return (groups, pos, false);
            }
        }
        if i + 1 < limit {
            match read_ipv4(text, len, start) {
                Some(((a, b, c, d), end)) => {
                    let high: u16 = (a as u16) * 256 + (b as u16);
                    let low: u16 = (c as u16) * 256 + (d as u16);
                    groups.push(high);
                    groups.push(low);
                    return (groups, end, true);
                },
                None => {},
            }
        }
        match read_group(text, len, start) {
            Some((group, end)) => {
                groups.push(group);
                pos = end;
            },
            None => {
                return (groups, pos, false);
            },
        }
    }
    (groups, pos, false)
}

fn read_ipv6(text: &str, len: usize, from: usize) -> (r: Option<(Vec<u16>, usize)>)
    requires
        len == text@.len(),
        from <= len,
    ensures
        match r {
            Some((groups, end)) => scan_ipv6(text@, from as int) == Some((groups@, end as int))
                && groups@.len() == 8 && from <= end <= len,
            None => scan_ipv6(text@, from as int).is_none(),
        },
{
    let (head, p, head_octets) = read_groups(text, len, from, 8);
    if head.len() == 8 {
        return Some((head, p));
    }
    if head_octets {
        return None;
    }
    if !(len - p >= 2 && text.get_char(p) == ':' && text.get_char(p + 1) == ':') {
        return None;
    }
    let limit: usize = 7 - head.len();
    let (tail, q, _) = read_groups(text, len, p + 2, limit);
    let ghost expected = head@ + zero_groups(8 - head@.len() - tail@.len()) + tail@;
    let mut groups: Vec<u16> = head;
    while groups.len() + tail.len() < 8
        invariant
            groups@.len() + tail@.len() <= 8,
            groups@.len() <= expected.len(),
            expected.len() == 8,
            forall|k: int| 0 <= k < groups@.len() ==> groups@[k] == expected[k],
            forall|k: int| 0 <= k < 8 - tail@.len() && k >= groups@.len() ==> expected[k] == 0,
            forall|k: int| 0 <= k < tail@.len() ==> expected[8 - tail@.len() + k] == tail@[k],
        decreases 8 - groups.len() - tail.len(),
    {
        groups.push(0);
    }
    let mut t: usize = 0;
    while t < tail.len()
        invariant
            t <= tail@.len(),
            groups@.len() == 8 - tail@.len() + t,
            expected.len() == 8,
            forall|k: int| 0 <= k < groups@.len() ==> groups@[k] == expected[k],
            forall|k: int| 0 <= k < tail@.len() ==> expected[8 - tail@.len() + k] == tail@[k],
        decreases tail.len() - t,
    {
        groups.push(tail[t]);
        t = t + 1;
    }
    assert(groups@ =~= expected);
    Some((groups, q))
}

fn read_scope(text: &str, len: usize, from: usize) -> (r: Option<(u32, usize)>)
    requires
        len == text@.len(),
        from <= len,
    ensures
        match r {
            Some((scope_id, end)) => scan_scope(text@, from as int) == Some(
                (scope_id, end as int),
            ) && from < end <= len,
            None => scan_scope(text@, from as int).is_none(),
        },
{
    if !(from < len && text.get_char(from) == '%') {
        return None;
    }
    match read_digits(text, len, from + 1, 0xffff_ffff) {
        Some((value, end)) => {
            if end == from + 1 {
                None
            } else {
                Some((value as u32, end))
            }
        },
        None => None,
    }
}

fn read_v6(text: &str, len: usize) -> (r: Option<SocketAddress>)
    requires
        len == text@.len(),
    ensures
        r == parse_socket_address_v6(text@),
{
    if !(len > 0 && text.get_char(0) == '[') {
        return None;
    }
    let (groups, p) = match read_ipv6(text, len, 1) {
        Some(found) => found,
        None => { return None; },
    };
    let (scope_id, q) = match read_scope(text, len, p) {
        Some(found) => found,
        None => (0u32, p),
    };
    if !(len - q >= 2 && text.get_char(q) == ']' && text.get_char(q + 1) == ':') {
        return None;
    }
    match read_port(text, len, q + 2) {
        Some(port) => Some(
            SocketAddress::V6 {
                g0: groups[0],
                g1: groups[1],
                g2: groups[2],
                g3: groups[3],
                g4: groups[4],
                g5: groups[5],
                g6: groups[6],
                g7: groups[7],
                port,
                scope_id,
            },
        ),
        None => None,
    }
}

/// The one-character text of a digit.
fn digit_str(d: u8) -> (r: &'static str)
    requires
        d < 10,
    ensures
        r@ == seq![digit_char(d as nat)],
{
    proof {
        reveal_strlit("0");
        reveal_strlit("1");
        reveal_strlit("2");
        reveal_strlit("3");
        reveal_strlit("4");
        reveal_strlit("5");
        reveal_strlit("6");
        reveal_strlit("7");
        reveal_strlit("8");
        reveal_strlit("9");
    }
    let r = if d == 0 {
        "0"
    } else if d == 1 {
        "1"
    } else if d == 2 {
        "2"
    } else if d == 3 {
        "3"
    } else if d == 4 {
        "4"
    } else if d == 5 {
        "5"
    } else if d == 6 {
        "6"
    } else if d == 7 {
        "7"
    } else if d == 8 {
        "8"
    } else {
        "9"
    };
    assert(r@ =~= seq![digit_char(d as nat)]);
    r
}

/// The one-character text of a hexadecimal digit.
fn hex_str(d: u8) -> (r: &'static str)
    requires
        d < 16,
    ensures
        r@ == seq![hex_char(d as nat)],
{
    if d < 10 {
        digit_str(d)
    } else {
        proof {
            reveal_strlit("a");
            reveal_strlit("b");
            reveal_strlit("c");
            reveal_strlit("d");
            reveal_strlit("e");
            reveal_strlit("f");
        }
        let r = if d == 10 {
            "a"
        } else if d == 11 {
            "b"
        } else if d == 12 {
            "c"
        } else if d == 13 {
            "d"
        } else if d == 14 {
            "e"
        } else {
            "f"
        };
        assert(r@ =~= seq![hex_char(d as nat)]);
        r
    }
}

/// Appends the decimal digits of `n` to `out`.
fn push_decimal(out: &mut String, n: u32)
    ensures
        final(out)@ == old(out)@ + decimal_text(n as nat),
    decreases n,
{
    if n >= 10 {
        push_decimal(out, n / 10);
    }
    out.append(digit_str((n % 10) as u8));
    proof {
        if n >= 10 {
            assert(old(out)@ + decimal_text((n / 10) as nat) + seq![digit_char((n % 10) as nat)]
                =~= old(out)@ + decimal_text(n as nat));
        }
    }
}

/// Appends the hexadecimal digits of `n` to `out`.
fn push_hex(out: &mut String, n: u16)
    ensures
        final(out)@ == old(out)@ + hex_text(n as nat),
    decreases n,
{
    if n >= 16 {
        push_hex(out, n / 16);
    }
    out.append(hex_str((n % 16) as u8));
    proof {
        if n >= 16 {
            assert(old(out)@ + hex_text((n / 16) as nat) + seq![hex_char((n % 16) as nat)]
                =~= old(out)@ + hex_text(n as nat));
        }
    }
}

/// Appends the text `a.b.c.d` of four octets to `out`.
fn push_ipv4(out: &mut String, a: u8, b: u8, c: u8, d: u8)
    ensures
        final(out)@ == old(out)@ + ipv4_text(a, b, c, d),
{
    push_decimal(out, a as u32);
    out.append(".");
    push_decimal(out, b as u32);
    out.append(".");
    push_decimal(out, c as u32);
    out.append(".");
    push_decimal(out, d as u32);
    proof {
        reveal_strlit(".");
        assert("."@ =~= seq!['.']);
        assert(out@ =~= old(out)@ + ipv4_text(a, b, c, d));
    }
}

/// Appends the groups from `from` up to `to` to `out`, with a colon between each two.
fn push_groups(out: &mut String, groups: &Vec<u16>, from: usize, to: usize)
    requires
        from <= to <= groups@.len(),
    ensures
        final(out)@ == old(out)@ + groups_text(groups@.subrange(from as int, to as int)),
{
    let mut i: usize = from;
    assert(groups@.subrange(from as int, from as int) =~= Seq::<u16>::empty());
    assert(out@ =~= old(out)@ + groups_text(groups@.subrange(from as int, i as int)));
    while i < to
        invariant
            from <= i <= to <= groups@.len(),
            out@ == old(out)@ + groups_text(groups@.subrange(from as int, i as int)),
        decreases to - i,
    {
        let ghost before = out@;
        if i > from {
            out.append(":");
        }
        push_hex(out, groups[i]);
        proof {
            reveal_strlit(":");
            assert(":"@ =~= seq![':']);
            let now = groups@.subrange(from as int, i + 1);
            assert(now.drop_last() =~= groups@.subrange(from as int, i as int));
            assert(now.last() == groups@[i as int]);
            assert(out@ =~= old(out)@ + groups_text(now));
        }
        i = i + 1;
    }
}

/// The number of groups of zero that follow one another from group `i` on.
fn count_zero_run(groups: &Vec<u16>, i: usize) -> (r: usize)
    requires
        i <= groups@.len(),
    ensures
        r == zero_run(groups@, i as int),
        i + r <= groups@.len(),
{
    let mut j: usize = i;
    while j < groups.len() && groups[j] == 0
        invariant
            i <= j <= groups@.len(),
            zero_run(groups@, i as int) == (j - i) + zero_run(groups@, j as int),
        decreases groups@.len() - j,
    {
        j = j + 1;
    }
    j - i
}

/// Appends the text of an IPv6 address of eight groups to `out`.
fn push_ipv6(out: &mut String, groups: &Vec<u16>)
    requires
        groups@.len() == 8,
    ensures
        final(out)@ == old(out)@ + ipv6_text(groups@),
{
    if groups[0] == 0 && groups[1] == 0 && groups[2] == 0 && groups[3] == 0 && groups[4] == 0
        && groups[5] == 0xffff {
        out.append("::ffff:");
        push_ipv4(
            out,
            (groups[6] / 256) as u8,
            (groups[6] % 256) as u8,
            (groups[7] / 256) as u8,
            (groups[7] % 256) as u8,
        );
        proof {
            reveal_strlit("::ffff:");
            assert("::ffff:"@ =~= seq![':', ':', 'f', 'f', 'f', 'f', ':']);
            assert(out@ =~= old(out)@ + ipv6_text(groups@));
        }
        return ;
    }
    let mut start: usize = 0;
    let mut len: usize = count_zero_run(groups, 0);
    let mut k: usize = 1;
    while k < 8
        invariant
            1 <= k <= 8,
            groups@.len() == 8,
            start < k,
            start == longest_zero_run(groups@, k as int),
            len == zero_run(groups@, start as int),
            start + len <= 8,
        decreases 8 - k,
    {
        let run = count_zero_run(groups, k);
        if run > len {
            start = k;
            len = run;
        }
        k = k + 1;
    }
    if len > 1 {
        push_groups(out, groups, 0, start);
        out.append("::");
        push_groups(out, groups, start + len, 8);
        proof {
            reveal_strlit("::");
            assert("::"@ =~= seq![':', ':']);
            assert(out@ =~= old(out)@ + ipv6_text(groups@));
        }
    } else {
        push_groups(out, groups, 0, 8);
        proof {
            assert(groups@.subrange(0, 8) =~= groups@);
        }
    }
}

impl SocketAddress {
    /// Reads an address written as `a.b.c.d:port`, `[address]:port` or
    /// `[address%scope]:port`.
    ///
    /// Each octet is one to three decimal digits with no leading zero and is at most 255.
    /// The port is one or more decimal digits and is at most 65535. An IPv6 address is
    /// eight groups of one to four hexadecimal digits with colons between, or fewer
    /// around one `::`; its last two groups may be written as four octets. Anything else
    /// is rejected.
    pub fn parse(text: &str) -> (r: Option<SocketAddress>)
        ensures
            r == parse_socket_address(text@),
    {
        let len: usize = text.unicode_len();
        match read_v4(text, len) {
            Some(addr) => Some(addr),
            None => read_v6(text, len),
        }
    }

    /// Writes the address: IPv4 as `a.b.c.d:port`, IPv6 as `[address]:port`, with the
    /// scope after a percent sign where it is not zero. Decimal numbers have no leading
    /// zeros; groups are in lower-case hexadecimal without leading zeros.
    pub fn to_string(&self) -> (r: String)
        ensures
            r@ == socket_address_text(*self),
    {
        let mut out = String::new();
        match *self {
            SocketAddress::V4 { a, b, c, d, port } => {
                push_ipv4(&mut out, a, b, c, d);
                out.append(":");
                push_decimal(&mut out, port as u32);
                proof {
                    reveal_strlit(":");
                    assert(":"@ =~= seq![':']);
                    assert(out@ =~= socket_address_text(*self));
                }
            },
            SocketAddress::V6 { g0, g1, g2, g3, g4, g5, g6, g7, port, scope_id } => {
                let mut groups: Vec<u16> = Vec::new();
                groups.push(g0);
                groups.push(g1);
                groups.push(g2);
                groups.push(g3);
                groups.push(g4);
                groups.push(g5);
                groups.push(g6);
                groups.push(g7);
                assert(groups@ =~= address_groups(*self));
                out.append("[");
                push_ipv6(&mut out, &groups);
                if scope_id != 0 {
                    out.append("%");
                    push_decimal(&mut out, scope_id);
                }
                out.append("]:");
                push_decimal(&mut out, port as u32);
                proof {
                    reveal_strlit("[");
                    reveal_strlit("%");
                    reveal_strlit("]:");
                    assert("["@ =~= seq!['[']);
                    assert("%"@ =~= seq!['%']);
                    assert("]:"@ =~= seq![']', ':']);
                    assert(out@ =~= socket_address_text(*self));
                }
            },
        }
        out
    }
}

} // verus!

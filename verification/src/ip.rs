//! IP addresses as text: the grammar of IPv4 and IPv6 addresses, and the
//! canonical form of each.

use vstd::prelude::*;
use vstd::string::*;

use crate::text;

verus! {

// ---------------------------------------------------------------------------
// Numbers in an address
// ---------------------------------------------------------------------------

/// The value of a digit in base ten or sixteen.
pub open spec fn digit_value(c: char, base: nat) -> Option<nat> {
    if '0' <= c && c <= '9' {
        Some((c as nat - '0' as nat) as nat)
    } else if base == 16 && 'a' <= c && c <= 'f' {
        Some((c as nat - 'a' as nat + 10) as nat)
    } else if base == 16 && 'A' <= c && c <= 'F' {
        Some((c as nat - 'A' as nat + 10) as nat)
    } else {
        None
    }
}

/// Every character is a digit.
pub open spec fn all_digits(s: Seq<char>, base: nat) -> bool {
    forall|i: int| 0 <= i < s.len() ==> digit_value(#[trigger] s[i], base) is Some
}

/// The number that a row of digits denotes.
pub open spec fn value_of(s: Seq<char>, base: nat) -> nat
    decreases s.len(),
{
    if s.len() == 0 {
        0
    } else {
        value_of(s.drop_last(), base) * base + digit_value(s.last(), base).unwrap_or(0)
    }
}

/// One part of an IPv4 address: up to three decimal digits, no leading zero,
/// at most 255.
pub open spec fn octet(s: Seq<char>) -> Option<u8> {
    if 1 <= s.len() <= 3 && all_digits(s, 10) && (s.len() == 1 || s[0] != '0') && value_of(s, 10)
        <= 255 {
        Some(value_of(s, 10) as u8)
    } else {
        None
    }
}

/// One group of an IPv6 address: up to four hexadecimal digits.
pub open spec fn hextet(s: Seq<char>) -> Option<u16> {
    if 1 <= s.len() <= 4 && all_digits(s, 16) {
        Some(value_of(s, 16) as u16)
    } else {
        None
    }
}

/// The value of one digit, in base ten or sixteen.
fn read_digit(c: char, base: u32) -> (r: Option<u32>)
    requires
        base == 10 || base == 16,
    ensures
        match r {
            Some(d) => digit_value(c, base as nat) == Some(d as nat) && d < base,
            None => digit_value(c, base as nat) is None,
        },
{
    if '0' <= c && c <= '9' {
        Some((c as u32) - 48)
    } else if base == 16 && 'a' <= c && c <= 'f' {
        Some((c as u32) - 97 + 10)
    } else if base == 16 && 'A' <= c && c <= 'F' {
        Some((c as u32) - 65 + 10)
    } else {
        None
    }
}

/// The number that up to four digits denote.
fn read_number(s: &[char], base: u32) -> (r: Option<u32>)
    requires
        base == 10 || base == 16,
        s@.len() <= 4,
    ensures
        match r {
            Some(n) => all_digits(s@, base as nat) && n == value_of(s@, base as nat) && n
                <= 0xffff,
            None => !all_digits(s@, base as nat),
        },
{
    let mut n: u32 = 0;
    let mut i: usize = 0;
    while i < s.len()
        invariant
            base == 10 || base == 16,
            i <= s@.len() <= 4,
            forall|k: int| 0 <= k < i ==> digit_value(#[trigger] s@[k], base as nat) is Some,
            n == value_of(s@.take(i as int), base as nat),
            i == 0 ==> n == 0,
            i == 1 ==> n < 16,
            i == 2 ==> n < 256,
            i == 3 ==> n < 4096,
            i == 4 ==> n < 65536,
        decreases s@.len() - i,
    {
        match read_digit(s[i], base) {
            Some(d) => {
                proof {
                    assert(s@.take(i + 1).drop_last() =~= s@.take(i as int));
                    assert(s@.take(i + 1).last() == s@[i as int]);
                    if base == 10 {
                        assert(n * base == n * 10);
                    } else {
                        assert(n * base == n * 16);
                    }
                }
                n = n * base + d;
            },
            None => {
                return None;
            },
        }
        i += 1;
    }
    proof {
        assert(s@.take(i as int) =~= s@);
    }
    Some(n)
}

/// Reads one part of an IPv4 address.
fn read_octet(s: &[char]) -> (r: Option<u8>)
    ensures
        r == octet(s@),
{
    if s.len() == 0 || s.len() > 3 || (s.len() > 1 && s[0] == '0') {
        return None;
    }
    match read_number(s, 10) {
        Some(n) => if n <= 255 {
            Some(n as u8)
        } else {
            None
        },
        None => None,
    }
}

/// Reads one group of an IPv6 address.
fn read_hextet(s: &[char]) -> (r: Option<u16>)
    ensures
        r == hextet(s@),
{
    if s.len() == 0 || s.len() > 4 {
        return None;
    }
    match read_number(s, 16) {
        Some(n) => Some(n as u16),
        None => None,
    }
}

// ---------------------------------------------------------------------------
// Addresses
// ---------------------------------------------------------------------------

/// An IP address.
#[derive(Debug, Clone, Copy, PartialEq, Eq)]
pub enum IpAddress {
    V4([u8; 4]),
    V6([u16; 8]),
}

/// The model of [`IpAddress`]: the parts of either kind.
pub enum IpParts {
    V4(Seq<u8>),
    V6(Seq<u16>),
}

impl IpAddress {
    pub open spec fn view(&self) -> IpParts {
        match self {
            IpAddress::V4(o) => IpParts::V4(o@),
            IpAddress::V6(g) => IpParts::V6(g@),
        }
    }
}

/// Four octets with dots between them.
pub open spec fn ipv4(s: Seq<char>) -> Option<Seq<u8>> {
    let p = text::split(s, '.');
    if p.len() == 4 && octet(p[0]) is Some && octet(p[1]) is Some && octet(p[2]) is Some && octet(
        p[3],
    ) is Some {
        Some(seq![octet(p[0])->0, octet(p[1])->0, octet(p[2])->0, octet(p[3])->0])
    } else {
        None
    }
}

/// Groups, one for each piece.
pub open spec fn hextets(p: Seq<Seq<char>>) -> Option<Seq<u16>> {
    if forall|i: int| 0 <= i < p.len() ==> hextet(#[trigger] p[i]) is Some {
        Some(Seq::new(p.len(), |i: int| hextet(p[i])->0))
    } else {
        None
    }
}

/// The two groups that an embedded IPv4 address stands for.
pub open spec fn embedded(o: Seq<u8>) -> Seq<u16> {
    seq![(o[0] * 256 + o[1]) as u16, (o[2] * 256 + o[3]) as u16]
}

/// A possibly empty list of groups with colons between them. Where `dotted`
/// allows it, the list may end in an IPv4 address.
pub open spec fn group_list(s: Seq<char>, dotted: bool) -> Option<Seq<u16>> {
    let p = text::split(s, ':');
    if s.len() == 0 {
        Some(Seq::empty())
    } else if dotted && ipv4(p.last()) is Some {
        match hextets(p.drop_last()) {
            Some(front) => Some(front + embedded(ipv4(p.last())->0)),
            None => None,
        }
    } else {
        hextets(p)
    }
}

/// `i` is the first position in `s` of a double colon.
pub open spec fn double_colon(s: Seq<char>, i: int) -> bool {
    &&& 0 <= i < s.len() - 1
    &&& s[i] == ':' && s[i + 1] == ':'
    &&& forall|j: int| 0 <= j < i ==> !(#[trigger] s[j] == ':' && s[j + 1] == ':')
}

/// Eight groups, or fewer with one double colon in place of at least one zero
/// group.
pub open spec fn ipv6(s: Seq<char>) -> Option<Seq<u16>> {
    if exists|i: int| double_colon(s, i) {
        let i = choose|i: int| double_colon(s, i);
        match (group_list(s.take(i), false), group_list(s.skip(i + 2), true)) {
            (Some(h), Some(t)) => if h.len() + t.len() <= 7 {
                Some(h + Seq::new((8 - h.len() - t.len()) as nat, |k: int| 0u16) + t)
            } else {
                None
            },
            _ => None,
        }
    } else {
        match group_list(s, true) {
            Some(g) => if g.len() == 8 {
                Some(g)
            } else {
                None
            },
            None => None,
        }
    }
}

/// The address that a text denotes.
pub open spec fn ip_address(s: Seq<char>) -> Option<IpParts> {
    match ipv4(s) {
        Some(o) => Some(IpParts::V4(o)),
        None => match ipv6(s) {
            Some(g) => Some(IpParts::V6(g)),
            None => None,
        },
    }
}

/// Reads four octets with dots between them.
fn read_ipv4(s: &[char]) -> (r: Option<[u8; 4]>)
    ensures
        match r {
            Some(o) => ipv4(s@) == Some(o@),
            None => ipv4(s@) is None,
        },
{
    let p = text::split_chars(s, '.');
    if p.len() != 4 {
        return None;
    }
    match (
        read_octet(p[0].as_slice()),
        read_octet(p[1].as_slice()),
        read_octet(p[2].as_slice()),
        read_octet(p[3].as_slice()),
    ) {
        (Some(a), Some(b), Some(c), Some(d)) => {
            let o: [u8; 4] = [a, b, c, d];
            proof {
                assert(o@ =~= seq![a, b, c, d]);
            }
            Some(o)
        },
        _ => None,
    }
}

/// Reads a list of groups with colons between them.
fn read_group_list(s: &[char], dotted: bool) -> (r: Option<Vec<u16>>)
    ensures
        match r {
            Some(g) => group_list(s@, dotted) == Some(g@),
            None => group_list(s@, dotted) is None,
        },
{
    let mut out: Vec<u16> = Vec::new();
    if s.len() == 0 {
        proof {
            assert(out@ =~= Seq::<u16>::empty());
        }
        return Some(out);
    }
    let p = text::split_chars(s, ':');
    proof {
        split_is_never_empty(s@, ':');
    }
    let ghost pieces = text::split(s@, ':');
    let tail: Option<[u8; 4]> = if dotted {
        read_ipv4(p[p.len() - 1].as_slice())
    } else {
        None
    };
    let n: usize = if tail.is_some() {
        p.len() - 1
    } else {
        p.len()
    };
    let ghost front = if tail is Some {
        pieces.drop_last()
    } else {
        pieces
    };
    let mut i: usize = 0;
    while i < n
        invariant
            i <= n <= p@.len(),
            n == front.len(),
            hextets(front) is None ==> group_list(s@, dotted) is None,
            forall|k: int| 0 <= k < n ==> (#[trigger] p@[k])@ == front[k],
            out@.len() == i,
            forall|k: int| 0 <= k < i ==> hextet(#[trigger] front[k]) == Some(out@[k]),
        decreases n - i,
    {
        match read_hextet(p[i].as_slice()) {
            Some(g) => {
                out.push(g);
            },
            None => {
                proof {
                    assert(hextet(front[i as int]) is None);
                    assert(hextets(front) is None);
                }
                return None;
            },
        }
        i += 1;
    }
    proof {
        assert(hextets(front) is Some);
        assert(out@ =~= hextets(front)->0);
    }
    match tail {
        Some(o) => {
            let hi: u16 = o[0] as u16 * 256 + o[1] as u16;
            let lo: u16 = o[2] as u16 * 256 + o[3] as u16;
            out.push(hi);
            out.push(lo);
            proof {
                assert(out@ =~= hextets(front)->0 + embedded(o@));
            }
        },
        None => {},
    }
    Some(out)
}

/// A split has at least one piece.
proof fn split_is_never_empty(s: Seq<char>, c: char)
    ensures
        text::split(s, c).len() >= 1,
    decreases s.len(),
{
}

/// The position of the first double colon, or the length of `s`.
fn find_double_colon(s: &[char]) -> (r: usize)
    ensures
        r <= s@.len(),
        r < s@.len() ==> double_colon(s@, r as int),
        r == s@.len() ==> forall|i: int| !double_colon(s@, i),
{
    let n: usize = s.len();
    let mut i: usize = 0;
    while i < n
        invariant
            n == s@.len(),
            i <= n,
            forall|j: int| 0 <= j < i && j < n - 1 ==> !(#[trigger] s@[j] == ':' && s@[j + 1] == ':'),
        decreases n - i,
    {
        if i + 1 < n && s[i] == ':' && s[i + 1] == ':' {
            return i;
        }
        i += 1;
    }
    n
}

/// `h`, then zero groups up to eight in all, then `t`.
fn fill_zeros(h: Vec<u16>, t: &Vec<u16>) -> (r: Vec<u16>)
    requires
        h@.len() + t@.len() <= 7,
    ensures
        r@ == h@ + Seq::new((8 - h@.len() - t@.len()) as nat, |k: int| 0u16) + t@,
{
    let hn: usize = h.len();
    let tn: usize = t.len();
    let ghost hs = h@;
    let mut all = h;
    while all.len() < 8 - tn
        invariant
            hn + tn <= 7,
            hn == hs.len(),
            hn <= all@.len() <= 8 - tn,
            all@ == hs + Seq::new((all@.len() - hn) as nat, |k: int| 0u16),
        decreases 8 - tn - all@.len(),
    {
        all.push(0);
        proof {
            assert(all@ =~= hs + Seq::new((all@.len() - hn) as nat, |k: int| 0u16));
        }
    }
    all.extend_from_slice(t.as_slice());
    proof {
        assert(all@ =~= hs + Seq::new((8 - hn - tn) as nat, |k: int| 0u16) + t@);
    }
    all
}

/// A text has at most one first double colon.
proof fn double_colon_is_unique(s: Seq<char>, i: int, j: int)
    requires
        double_colon(s, i),
        double_colon(s, j),
    ensures
        i == j,
{
    if i < j {
        assert(s[i] == ':' && s[i + 1] == ':');
    } else if j < i {
        assert(s[j] == ':' && s[j + 1] == ':');
    }
}

/// Reads the groups of an IPv6 address.
fn read_ipv6_groups(s: &[char]) -> (r: Option<Vec<u16>>)
    ensures
        match r {
            Some(g) => ipv6(s@) == Some(g@) && g@.len() == 8,
            None => ipv6(s@) is None,
        },
{
    let n: usize = s.len();
    let at = find_double_colon(s);
    if at < n {
        let ghost i = choose|i: int| double_colon(s@, i);
        proof {
            double_colon_is_unique(s@, i, at as int);
            assert(s@.subrange(0, at as int) =~= s@.take(at as int));
            assert(s@.subrange(at + 2, n as int) =~= s@.skip(at + 2));
        }
        let h = match read_group_list(&s[0..at], false) {
            Some(h) => h,
            None => {
                return None;
            },
        };
        let t = match read_group_list(&s[at + 2..n], true) {
            Some(t) => t,
            None => {
                return None;
            },
        };
        if h.len() > 7 || t.len() > 7 - h.len() {
            return None;
        }
        Some(fill_zeros(h, &t))
    } else {
        match read_group_list(s, true) {
            Some(g) => if g.len() == 8 {
                Some(g)
            } else {
                None
            },
            None => None,
        }
    }
}

/// Reads an IPv6 address.
fn read_ipv6(s: &[char]) -> (r: Option<[u16; 8]>)
    ensures
        match r {
            Some(g) => ipv6(s@) == Some(g@),
            None => ipv6(s@) is None,
        },
{
    match read_ipv6_groups(s) {
        Some(all) => {
            let g: [u16; 8] = [all[0], all[1], all[2], all[3], all[4], all[5], all[6], all[7]];
            proof {
                assert(g@ =~= all@);
            }
            Some(g)
        },
        None => None,
    }
}

/// Reads an IPv4 or IPv6 address.
pub fn read_ip(s: &[char]) -> (r: Option<IpAddress>)
    ensures
        match r {
            Some(a) => ip_address(s@) == Some(a.view()),
            None => ip_address(s@) is None,
        },
{
    match read_ipv4(s) {
        Some(o) => Some(IpAddress::V4(o)),
        None => match read_ipv6(s) {
            Some(g) => Some(IpAddress::V6(g)),
            None => None,
        },
    }
}

// ---------------------------------------------------------------------------
// Canonical text
// ---------------------------------------------------------------------------

/// The `n` groups from position `a` on are zero.
pub open spec fn zero_run(g: Seq<u16>, a: int, n: int) -> bool {
    &&& 0 <= a && 0 <= n && a + n <= g.len()
    &&& forall|i: int| a <= i < a + n ==> #[trigger] g[i] == 0
}

/// `(a, n)` is the longest run of zero groups, the leftmost of several; it is
/// `(0, 0)` where no group is zero.
pub open spec fn longest_zero_run(g: Seq<u16>, a: int, n: int) -> bool {
    &&& zero_run(g, a, n)
    &&& forall|b: int, m: int| zero_run(g, b, m) ==> m <= n
    &&& forall|b: int, m: int| zero_run(g, b, m) && m == n && n > 0 ==> a <= b
    &&& n == 0 ==> a == 0
}

/// Groups in lowercase hexadecimal without leading zeros, colons between
/// them.
pub open spec fn groups_text(g: Seq<u16>) -> Seq<char> {
    text::join(Seq::new(g.len(), |i: int| text::digits(g[i] as nat, 16)), seq![':'])
}

/// The compressed text of an IPv6 address: the longest run of at least two
/// zero groups becomes a double colon. An IPv4-mapped address is written in
/// groups like any other.
pub open spec fn ipv6_text(g: Seq<u16>) -> Seq<char> {
    let (a, n) = choose|a: int, n: int| longest_zero_run(g, a, n);
    if n >= 2 {
        groups_text(g.take(a)) + seq![':', ':'] + groups_text(g.skip(a + n))
    } else {
        groups_text(g)
    }
}

/// The dotted text of an IPv4 address.
pub open spec fn ipv4_text(o: Seq<u8>) -> Seq<char> {
    text::join(Seq::new(o.len(), |i: int| text::decimal(o[i] as nat)), seq!['.'])
}

/// The canonical text of an address.
pub open spec fn ip_text(a: IpParts) -> Seq<char> {
    match a {
        IpParts::V4(o) => ipv4_text(o),
        IpParts::V6(g) => ipv6_text(g),
    }
}

/// The longest run of zero groups, as its start and its length.
pub fn find_longest_zero_run(segments: &[u16; 8]) -> (r: (usize, usize))
    ensures
        longest_zero_run(segments@, r.0 as int, r.1 as int),
{
    let ghost g = segments@;
    let mut best_start: usize = 0;
    let mut best_len: usize = 0;
    let mut cur_len: usize = 0;
    let mut i: usize = 0;
    while i < 8
        invariant
            g == segments@,
            g.len() == 8,
            cur_len <= i <= 8,
            best_start + best_len <= i,
            zero_run(g, best_start as int, best_len as int),
            zero_run(g, i - cur_len, cur_len as int),
            cur_len < i ==> g[i - cur_len - 1] != 0,
            cur_len <= best_len,
            best_len == 0 ==> best_start == 0,
            forall|b: int, m: int| #[trigger] zero_run(g, b, m) && b + m <= i ==> m <= best_len,
            forall|b: int, m: int| #[trigger]
                zero_run(g, b, m) && b + m <= i && m == best_len && m > 0 ==> best_start <= b,
        decreases 8 - i,
    {
        let ghost start = i - cur_len;
        if segments[i] == 0 {
            cur_len = cur_len + 1;
            proof {
                assert(zero_run(g, start, cur_len as int));
                assert forall|b: int, m: int| #[trigger]
                    zero_run(g, b, m) && b + m == i + 1 && m > 0 implies start <= b by {
                    if b < start {
                        assert(g[start - 1] == 0);
                    }
                }
            }
            if cur_len > best_len {
                best_start = i + 1 - cur_len;
                best_len = cur_len;
            }
        } else {
            proof {
                assert forall|b: int, m: int| #[trigger]
                    zero_run(g, b, m) && b + m == i + 1 implies m == 0 by {
                    if m > 0 {
                        assert(g[b + m - 1] == 0);
                    }
                }
            }
            cur_len = 0;
        }
        i += 1;
    }
    (best_start, best_len)
}

/// Appends the groups from position `a` up to `b`, colons between them.
fn push_groups(out: &mut String, segments: &[u16; 8], a: usize, b: usize)
    requires
        a <= b <= 8,
    ensures
        final(out)@ == old(out)@ + groups_text(segments@.subrange(a as int, b as int)),
{
    let ghost g = segments@.subrange(a as int, b as int);
    let ghost parts = Seq::new(g.len(), |i: int| text::digits(g[i] as nat, 16));
    let mut i: usize = a;
    proof {
        assert(parts.take(0) =~= Seq::<Seq<char>>::empty());
        assert(out@ + text::join(parts.take(0), seq![':']) =~= out@);
    }
    while i < b
        invariant
            a <= i <= b <= 8,
            g == segments@.subrange(a as int, b as int),
            parts == Seq::new(g.len(), |i: int| text::digits(g[i] as nat, 16)),
            out@ == old(out)@ + text::join(parts.take(i - a), seq![':']),
        decreases b - i,
    {
        let ghost front = text::join(parts.take(i - a), seq![':']);
        if i > a {
            out.push(':');
        }
        text::push_number(out, segments[i] as u64, 16);
        proof {
            let longer = parts.take(i - a + 1);
            assert(longer.drop_last() =~= parts.take(i - a));
            assert(longer.last() == text::digits(segments@[i as int] as nat, 16));
            if i > a {
                assert(old(out)@ + front + seq![':'] + longer.last() =~= old(out)@ + (front
                    + seq![':'] + longer.last()));
                assert((old(out)@ + front).push(':') =~= old(out)@ + front + seq![':']);
            } else {
                assert(longer =~= seq![longer.last()]);
            }
        }
        i += 1;
    }
    proof {
        assert(parts.take(b - a) =~= parts);
    }
}

/// The compressed text of an IPv6 address.
pub fn format_ipv6(segments: &[u16; 8]) -> (r: String)
    ensures
        r@ == ipv6_text(segments@),
{
    let (start, len) = find_longest_zero_run(segments);
    let ghost g = segments@;
    let mut out = String::new();
    proof {
        let (a, n) = choose|a: int, n: int| longest_zero_run(g, a, n);
        assert(longest_zero_run(g, start as int, len as int));
        assert(longest_zero_run(g, a, n));
        assert(a == start && n == len);
        assert(g.subrange(0, start as int) =~= g.take(start as int));
        assert(g.subrange(start + len, 8) =~= g.skip(start + len));
        assert(g.subrange(0, 8) =~= g);
        assert(out@ =~= Seq::<char>::empty());
    }
    if len >= 2 {
        push_groups(&mut out, segments, 0, start);
        out.push(':');
        out.push(':');
        push_groups(&mut out, segments, start + len, 8);
        proof {
            assert(out@ =~= groups_text(g.take(start as int)) + seq![':', ':'] + groups_text(
                g.skip(start + len),
            ));
        }
    } else {
        push_groups(&mut out, segments, 0, 8);
        proof {
            assert(out@ =~= groups_text(g));
        }
    }
    out
}

/// The dotted text of an IPv4 address.
pub fn format_ipv4(octets: &[u8; 4]) -> (r: String)
    ensures
        r@ == ipv4_text(octets@),
{
    let ghost o = octets@;
    let ghost parts = Seq::new(o.len(), |i: int| text::decimal(o[i] as nat));
    let mut out = String::new();
    let mut i: usize = 0;
    proof {
        assert(parts.take(0) =~= Seq::<Seq<char>>::empty());
    }
    while i < 4
        invariant
            i <= 4,
            o == octets@,
            parts == Seq::new(o.len(), |i: int| text::decimal(o[i] as nat)),
            out@ == text::join(parts.take(i as int), seq!['.']),
        decreases 4 - i,
    {
        let ghost front = out@;
        if i > 0 {
            out.push('.');
        }
        text::push_number(&mut out, octets[i] as u64, 10);
        proof {
            let longer = parts.take(i + 1);
            assert(longer.drop_last() =~= parts.take(i as int));
            assert(longer.last() == text::decimal(octets@[i as int] as nat));
            if i > 0 {
                assert(front.push('.') =~= front + seq!['.']);
            } else {
                assert(longer =~= seq![longer.last()]);
                assert(out@ =~= longer.last());
            }
        }
        i += 1;
    }
    proof {
        assert(parts.take(4) =~= parts);
    }
    out
}

// ---------------------------------------------------------------------------
// Proofs
// ---------------------------------------------------------------------------

/// A lowercase digit in base ten or sixteen.
pub open spec fn lower_digit(c: char, base: nat) -> bool {
    ('0' <= c && c <= '9') || (base == 16 && 'a' <= c && c <= 'f')
}

/// A digit reads as the number that it stands for.
proof fn lemma_digit_reads_back(d: nat, base: nat)
    requires
        base == 10 || base == 16,
        d < base,
    ensures
        digit_value(text::digit_char(d), base) == Some(d),
        lower_digit(text::digit_char(d), base),
        text::digit_char(d) == '0' <==> d == 0,
{
}

/// The digits of a number read as that number, and only those of zero begin
/// with a zero.
proof fn lemma_digits_read_back(n: nat, base: nat)
    requires
        base == 10 || base == 16,
    ensures
        text::digits(n, base).len() >= 1,
        forall|i: int|
            0 <= i < text::digits(n, base).len() ==> lower_digit(
                #[trigger] text::digits(n, base)[i],
                base,
            ),
        all_digits(text::digits(n, base), base),
        value_of(text::digits(n, base), base) == n,
        text::digits(n, base)[0] == '0' ==> n == 0 && text::digits(n, base).len() == 1,
    decreases n,
{
    let s = text::digits(n, base);
    if n < base {
        lemma_digit_reads_back(n, base);
        assert(s =~= seq![text::digit_char(n)]);
        assert(s.drop_last() =~= Seq::<char>::empty());
        assert(value_of(s.drop_last(), base) * base == 0) by (nonlinear_arith)
            requires
                value_of(s.drop_last(), base) == 0,
        ;
    } else {
        let (q, d) = (n / base, n % base);
        assert(q < n && q >= 1 && d < base && q * base + d == n) by (nonlinear_arith)
            requires
                n >= base,
                base >= 2,
                q == n / base,
                d == n % base,
        ;
        lemma_digits_read_back(q, base);
        lemma_digit_reads_back(d, base);
        let front = text::digits(q, base);
        assert(s =~= front.push(text::digit_char(d)));
        assert(s.drop_last() =~= front);
        assert forall|i: int| 0 <= i < s.len() implies lower_digit(#[trigger] s[i], base)
            && digit_value(s[i], base) is Some by {
            if i < front.len() {
                assert(lower_digit(front[i], base) && digit_value(front[i], base) is Some);
            }
        }
        assert(s[0] == front[0]);
    }
}

/// The text of a group reads as that group.
proof fn lemma_hextet_reads_back(n: u16)
    ensures
        hextet(text::digits(n as nat, 16)) == Some(n),
{
    lemma_digits_read_back(n as nat, 16);
    reveal_with_fuel(text::digits, 4);
}

/// The text of an octet reads as that octet.
proof fn lemma_octet_reads_back(n: u8)
    ensures
        octet(text::decimal(n as nat)) == Some(n),
{
    lemma_digits_read_back(n as nat, 10);
    reveal_with_fuel(text::digits, 3);
}

/// A text without a dot is no IPv4 address.
proof fn lemma_no_dot_is_no_ipv4(s: Seq<char>)
    requires
        forall|k: int| 0 <= k < s.len() ==> #[trigger] s[k] != '.',
    ensures
        ipv4(s) is None,
{
    s.index_of_first_ensures('.');
    assert(text::split(s, '.') =~= seq![s]);
}

/// Groups written out: digits and single colons between them, where a group of
/// several digits does not begin with a zero.
pub open spec fn written_groups(s: Seq<char>) -> bool {
    &&& s.len() >= 1 && s[0] != ':' && s.last() != ':'
    &&& forall|k: int| 0 <= k < s.len() ==> lower_digit(#[trigger] s[k], 16) || s[k] == ':'
    &&& forall|k: int| 0 <= k < s.len() - 1 ==> !(#[trigger] s[k] == ':' && s[k + 1] == ':')
    &&& forall|k: int| 0 <= k < s.len() && #[trigger] s[k] == '0' ==> lone_zero(s, k)
}

/// A zero at position `k` that begins a group is the whole group.
pub open spec fn lone_zero(s: Seq<char>, k: int) -> bool {
    (k == 0 || s[k - 1] == ':') ==> (k + 1 == s.len() || s[k + 1] == ':')
}

/// The pieces of a written list of groups.
spec fn group_texts(g: Seq<u16>) -> Seq<Seq<char>> {
    Seq::new(g.len(), |i: int| text::digits(g[i] as nat, 16))
}

/// What a list of groups is written as.
proof fn lemma_groups_are_written(g: Seq<u16>)
    requires
        g.len() >= 1,
    ensures
        written_groups(groups_text(g)),
    decreases g.len(),
{
    let s = groups_text(g);
    let last = text::digits(g.last() as nat, 16);
    lemma_digits_read_back(g.last() as nat, 16);
    if g.len() == 1 {
        assert(s =~= last);
    } else {
        let front = groups_text(g.drop_last());
        lemma_groups_are_written(g.drop_last());
        assert(group_texts(g).drop_last() =~= group_texts(g.drop_last()));
        assert(group_texts(g).last() == last);
        let n = front.len() as int;
        assert(s =~= front + seq![':'] + last);
        assert(s.last() == last.last());
        assert forall|k: int| 0 <= k < s.len() implies lower_digit(#[trigger] s[k], 16) || s[k]
            == ':' by {
            if k < n {
                assert(s[k] == front[k]);
            } else if k > n {
                assert(s[k] == last[k - n - 1]);
            }
        }
        assert forall|k: int| 0 <= k < s.len() - 1 implies !(#[trigger] s[k] == ':' && s[k + 1]
            == ':') by {
            if k < n - 1 {
                assert(!(front[k] == ':' && front[k + 1] == ':'));
            } else if k == n - 1 {
                assert(s[k] == front.last());
            } else {
                assert(s[k + 1] == last[k - n]);
            }
        }
        assert forall|k: int| 0 <= k < s.len() && #[trigger] s[k] == '0' implies lone_zero(s, k) by {
            if k < n {
                assert(front[k] == '0' && lone_zero(front, k));
            } else {
                assert(s[k] == last[k - n - 1]);
                if k > n + 1 {
                    assert(s[k - 1] == last[k - n - 2]);
                }
            }
        }
    }
}

/// A written list of groups reads as those groups.
proof fn lemma_groups_read_back(g: Seq<u16>, dotted: bool)
    ensures
        group_list(groups_text(g), dotted) == Some(g),
{
    let s = groups_text(g);
    if g.len() == 0 {
        assert(s =~= Seq::<char>::empty());
        assert(g =~= Seq::<u16>::empty());
    } else {
        let p = group_texts(g);
        lemma_groups_are_written(g);
        assert forall|i: int| 0 <= i < p.len() implies hextet(#[trigger] p[i]) == Some(g[i]) by {
            lemma_hextet_reads_back(g[i]);
        }
        assert forall|i: int, k: int| 0 <= i < p.len() && 0 <= k < p[i].len() implies #[trigger] p[i][k]
            != ':' && p[i][k] != '.' by {
            lemma_digits_read_back(g[i] as nat, 16);
        }
        text::split_undoes_join(p, ':');
        assert(text::split(s, ':') == p);
        lemma_no_dot_is_no_ipv4(p.last());
        assert(hextets(p)->0 =~= g);
    }
}

/// There is a longest run of zero groups.
proof fn lemma_longest_zero_run_exists(g: Seq<u16>) -> (r: (int, int))
    ensures
        longest_zero_run(g, r.0, r.1),
    decreases g.len(),
{
    if g.len() == 0 {
        assert(zero_run(g, 0, 0));
        (0, 0)
    } else {
        let front = g.drop_last();
        let end = g.len() as int;
        let (a, n) = lemma_longest_zero_run_exists(front);
        let s = lemma_last_run(g);
        assert(zero_run(g, a, n)) by {
            assert forall|i: int| a <= i < a + n implies #[trigger] g[i] == 0 by {
                assert(front[i] == 0);
            }
        }
        assert forall|b: int, m: int| #[trigger] zero_run(g, b, m) && b + m < end implies zero_run(
            front,
            b,
            m,
        ) by {
            assert forall|i: int| b <= i < b + m implies #[trigger] front[i] == 0 by {
                assert(g[i] == 0);
            }
        }
        assert forall|b: int, m: int| #[trigger]
            zero_run(g, b, m) && b + m == end && m > 0 implies s <= b by {
            if b < s {
                assert(g[s - 1] == 0);
            }
        }
        if end - s > n {
            (s, end - s)
        } else {
            (a, n)
        }
    }
}

/// Where the zero groups at the end begin.
proof fn lemma_last_run(g: Seq<u16>) -> (s: int)
    ensures
        0 <= s <= g.len(),
        zero_run(g, s, g.len() - s),
        s > 0 ==> g[s - 1] != 0,
    decreases g.len(),
{
    if g.len() > 0 && g.last() == 0 {
        let s = lemma_last_run(g.drop_last());
        assert forall|i: int| s <= i < g.len() implies #[trigger] g[i] == 0 by {
            if i < g.len() - 1 {
                assert(g.drop_last()[i] == 0);
            }
        }
        if s > 0 {
            assert(g[s - 1] == g.drop_last()[s - 1]);
        }
        s
    } else {
        g.len() as int
    }
}

/// Two lists of groups with a double colon between them.
spec fn shortened(h: Seq<u16>, t: Seq<u16>) -> Seq<char> {
    groups_text(h) + seq![':', ':'] + groups_text(t)
}

/// The text between whose groups a double colon stands has it there and nowhere
/// else.
proof fn lemma_shortened(h: Seq<u16>, t: Seq<u16>)
    ensures
        double_colon(shortened(h, t), groups_text(h).len() as int),
        shortened(h, t).take(groups_text(h).len() as int) == groups_text(h),
        shortened(h, t).skip((groups_text(h).len() + 2) as int) == groups_text(t),
        forall|k: int|
            0 <= k < shortened(h, t).len() - 1 && #[trigger] shortened(h, t)[k] == ':' && shortened(
                h,
                t,
            )[k + 1] == ':' ==> k == groups_text(h).len(),
        forall|k: int|
            0 <= k < shortened(h, t).len() ==> lower_digit(#[trigger] shortened(h, t)[k], 16)
                || shortened(h, t)[k] == ':',
        forall|k: int|
            0 <= k < shortened(h, t).len() && #[trigger] shortened(h, t)[k] == '0' ==> lone_zero(
                shortened(h, t),
                k,
            ),
{
    let (a, b) = (groups_text(h), groups_text(t));
    let s = shortened(h, t);
    let n = a.len() as int;
    if h.len() > 0 {
        lemma_groups_are_written(h);
    } else {
        assert(a =~= Seq::<char>::empty());
    }
    if t.len() > 0 {
        lemma_groups_are_written(t);
    } else {
        assert(b =~= Seq::<char>::empty());
    }
    assert forall|k: int| 0 <= k < n implies #[trigger] s[k] == a[k] by {}
    assert forall|k: int| n + 2 <= k < s.len() implies #[trigger] s[k] == b[k - n - 2] by {}
    assert(s[n] == ':' && s[n + 1] == ':');
    assert forall|k: int|
        0 <= k < s.len() - 1 && #[trigger] s[k] == ':' && s[k + 1] == ':' implies k == n by {
        if k < n - 1 {
            assert(!(a[k] == ':' && a[k + 1] == ':'));
        } else if k == n - 1 {
            assert(a.last() == s[k]);
        } else if k == n + 1 {
            assert(s[k + 1] == b[0]);
        } else if k > n + 1 {
            assert(!(b[k - n - 2] == ':' && b[k - n - 1] == ':'));
        }
    }
    assert forall|k: int| 0 <= k < s.len() && #[trigger] s[k] == '0' implies lone_zero(s, k) by {
        if k < n {
            assert(a[k] == '0' && lone_zero(a, k));
        } else if k >= n + 2 {
            assert(b[k - n - 2] == '0' && lone_zero(b, k - n - 2));
        }
    }
    assert(s.take(n) =~= a);
    assert(s.skip(n + 2) =~= b);
}

// ---------------------------------------------------------------------------
// Laws
// ---------------------------------------------------------------------------

/// The text of an IPv6 address reads back as that address.
pub proof fn law_ipv6_text_reads_back(g: Seq<u16>)
    requires
        g.len() == 8,
    ensures
        ipv6(ipv6_text(g)) == Some(g),
{
    let s = ipv6_text(g);
    let run = lemma_longest_zero_run_exists(g);
    assert(longest_zero_run(g, run.0, run.1));
    let (a, n) = choose|a: int, n: int| longest_zero_run(g, a, n);
    if n >= 2 {
        let (h, t) = (g.take(a), g.skip(a + n));
        lemma_shortened(h, t);
        let at = groups_text(h).len() as int;
        let i = choose|i: int| double_colon(s, i);
        double_colon_is_unique(s, i, at);
        lemma_groups_read_back(h, false);
        lemma_groups_read_back(t, true);
        assert(h + Seq::new((8 - h.len() - t.len()) as nat, |k: int| 0u16) + t =~= g);
    } else {
        lemma_groups_are_written(g);
        assert forall|i: int| !double_colon(s, i) by {
            if double_colon(s, i) {
                assert(s[i] == ':' && s[i + 1] == ':');
            }
        }
        lemma_groups_read_back(g, true);
    }
}

/// The text of an IPv6 address is canonical: it is made of lowercase
/// hexadecimal digits and colons, never of dots; a group of several digits does
/// not begin with a zero; and a double colon stands in it at most once, exactly
/// where the address has two zero groups in a row.
pub proof fn law_ipv6_text_is_canonical(g: Seq<u16>)
    requires
        g.len() == 8,
    ensures
        forall|k: int|
            0 <= k < ipv6_text(g).len() ==> lower_digit(#[trigger] ipv6_text(g)[k], 16)
                || ipv6_text(g)[k] == ':',
        forall|k: int|
            0 <= k < ipv6_text(g).len() && #[trigger] ipv6_text(g)[k] == '0' ==> lone_zero(
                ipv6_text(g),
                k,
            ),
        forall|j: int, k: int|
            text::occurs_at(ipv6_text(g), seq![':', ':'], j) && text::occurs_at(
                ipv6_text(g),
                seq![':', ':'],
                k,
            ) ==> j == k,
        text::contains(ipv6_text(g), seq![':', ':']) <==> exists|b: int| zero_run(g, b, 2),
{
    let s = ipv6_text(g);
    let pair = seq![':', ':'];
    let run = lemma_longest_zero_run_exists(g);
    assert(longest_zero_run(g, run.0, run.1));
    let (a, n) = choose|a: int, n: int| longest_zero_run(g, a, n);
    assert forall|k: int| #[trigger] text::occurs_at(s, pair, k) implies 0 <= k < s.len() - 1
        && s[k] == ':' && s[k + 1] == ':' by {
        assert(s.subrange(k, k + 2)[0] == s[k]);
        assert(s.subrange(k, k + 2)[1] == s[k + 1]);
    }
    if n >= 2 {
        let (h, t) = (g.take(a), g.skip(a + n));
        lemma_shortened(h, t);
        let at = groups_text(h).len() as int;
        assert(s.subrange(at, at + 2) =~= pair);
        assert(text::occurs_at(s, pair, at));
        assert(zero_run(g, a, 2));
    } else {
        lemma_groups_are_written(g);
        assert forall|b: int| !zero_run(g, b, 2) by {}
    }
}

/// The text of an address reads back as that address.
pub proof fn law_ip_text_reads_back(a: IpParts)
    requires
        match a {
            IpParts::V4(o) => o.len() == 4,
            IpParts::V6(g) => g.len() == 8,
        },
    ensures
        ip_address(ip_text(a)) == Some(a),
{
    match a {
        IpParts::V4(o) => {
            let p = Seq::new(o.len(), |i: int| text::decimal(o[i] as nat));
            assert forall|i: int, k: int|
                0 <= i < p.len() && 0 <= k < p[i].len() implies #[trigger] p[i][k] != '.' by {
                lemma_digits_read_back(o[i] as nat, 10);
            }
            text::split_undoes_join(p, '.');
            lemma_octet_reads_back(o[0]);
            lemma_octet_reads_back(o[1]);
            lemma_octet_reads_back(o[2]);
            lemma_octet_reads_back(o[3]);
            assert(ipv4(ip_text(a))->0 =~= o);
        },
        IpParts::V6(g) => {
            law_ipv6_text_reads_back(g);
            law_ipv6_text_is_canonical(g);
            lemma_no_dot_is_no_ipv4(ip_text(a));
        },
    }
}

/// An address that was read has the parts of its kind.
pub proof fn address_has_its_parts(s: Seq<char>)
    ensures
        match ip_address(s) {
            Some(IpParts::V4(o)) => o.len() == 4,
            Some(IpParts::V6(g)) => g.len() == 8,
            None => true,
        },
{
}

/// The text of an address holds no white space and no percent sign.
pub proof fn ip_text_is_plain(a: IpParts)
    requires
        match a {
            IpParts::V4(o) => o.len() == 4,
            IpParts::V6(g) => g.len() == 8,
        },
    ensures
        forall|k: int|
            0 <= k < ip_text(a).len() ==> !text::is_space(#[trigger] ip_text(a)[k]) && ip_text(a)[k]
                != '%',
{
    match a {
        IpParts::V4(o) => {
            let p = Seq::new(o.len(), |i: int| text::decimal(o[i] as nat));
            let plain = |c: char| lower_digit(c, 10) || c == '.';
            assert forall|i: int, k: int|
                0 <= i < p.len() && 0 <= k < p[i].len() implies plain(#[trigger] p[i][k]) by {
                lemma_digits_read_back(o[i] as nat, 10);
            }
            text::join_keeps_characters(p, seq!['.'], plain);
            assert forall|k: int| 0 <= k < ip_text(a).len() implies !text::is_space(
                #[trigger] ip_text(a)[k],
            ) && ip_text(a)[k] != '%' by {
                assert(plain(text::join(p, seq!['.'])[k]));
            }
        },
        IpParts::V6(g) => {
            law_ipv6_text_is_canonical(g);
        },
    }
}

/// A decimal numeral without leading zeros is the one that its value is written
/// as.
proof fn lemma_numeral_is_canonical(s: Seq<char>)
    requires
        s.len() >= 1,
        all_digits(s, 10),
        s.len() == 1 || s[0] != '0',
    ensures
        text::decimal(value_of(s, 10)) == s,
        s[0] != '0' ==> value_of(s, 10) >= 1,
    decreases s.len(),
{
    let front = s.drop_last();
    let c = s.last();
    let d = digit_value(c, 10)->0;
    assert(digit_value(s[s.len() - 1], 10) is Some);
    assert(text::digit_char(d) == c);
    if s.len() == 1 {
        assert(value_of(front, 10) == 0);
        assert(s =~= seq![text::digit_char(d)]);
    } else {
        assert forall|i: int| 0 <= i < front.len() implies digit_value(
            #[trigger] front[i],
            10,
        ) is Some by {
            assert(front[i] == s[i]);
        }
        assert(front[0] == s[0]);
        lemma_numeral_is_canonical(front);
        let v = value_of(front, 10);
        assert((v * 10 + d) / 10 == v && (v * 10 + d) % 10 == d);
        assert(s =~= front.push(c));
    }
}

/// A text is an IPv4 address exactly where it is four numbers from 0 to 255 in
/// plain decimal with dots between them: no leading zeros, no signs, no other
/// number of parts.
pub proof fn law_ipv4_is_dotted_decimal(s: Seq<char>, o: Seq<u8>)
    ensures
        ipv4(s) == Some(o) <==> o.len() == 4 && s == text::decimal(o[0] as nat) + seq!['.']
            + text::decimal(o[1] as nat) + seq!['.'] + text::decimal(o[2] as nat) + seq!['.']
            + text::decimal(o[3] as nat),
{
    if o.len() == 4 {
        let w = Seq::new(o.len(), |i: int| text::decimal(o[i] as nat));
        lemma_four_joined(w);
        if s == ipv4_text(o) {
            law_ip_text_reads_back(IpParts::V4(o));
            if ipv4(s) is None {
                assert(ip_address(s) matches Some(IpParts::V6(_)) || ip_address(s) is None);
            }
        }
    }
    if ipv4(s) == Some(o) {
        let p = text::split(s, '.');
        text::law_split_loses_nothing(s, '.');
        assert forall|i: int| 0 <= i < 4 implies #[trigger] p[i] == text::decimal(o[i] as nat) by {
            assert(octet(p[i]) == Some(o[i]));
            lemma_numeral_is_canonical(p[i]);
        }
        lemma_four_joined(p);
    }
}

/// Four texts joined with dots.
proof fn lemma_four_joined(p: Seq<Seq<char>>)
    requires
        p.len() == 4,
    ensures
        text::join(p, seq!['.']) == p[0] + seq!['.'] + p[1] + seq!['.'] + p[2] + seq!['.'] + p[3],
{
    reveal_with_fuel(text::join, 4);
}

/// A text is a group of an IPv6 address exactly where it is one to four
/// hexadecimal digits, in either case.
pub proof fn law_which_texts_are_groups(s: Seq<char>)
    ensures
        hextet(s) is Some <==> 1 <= s.len() <= 4 && forall|i: int|
            0 <= i < s.len() ==> (0x30 <= #[trigger] s[i] as u32 <= 0x39) || (0x61 <= s[i] as u32
                <= 0x66) || (0x41 <= s[i] as u32 <= 0x46),
        hextet(text::lower(s)) == hextet(s),
        hextet(s) is Some && s.len() < 4 ==> hextet(seq!['0'] + s) == hextet(s),
{
    if hextet(s) is Some {
        assert forall|i: int| 0 <= i < s.len() implies (0x30 <= #[trigger] s[i] as u32 <= 0x39) || (
        0x61 <= s[i] as u32 <= 0x66) || (0x41 <= s[i] as u32 <= 0x46) by {
            assert(digit_value(s[i], 16) is Some);
        }
    }
    lemma_case_of_digits(s);
    lemma_leading_zero(s);
    if all_digits(s, 16) {
        let z = seq!['0'] + s;
        assert forall|i: int| 0 <= i < z.len() implies digit_value(#[trigger] z[i], 16) is Some by {
            if i > 0 {
                assert(z[i] == s[i - 1]);
            }
        }
    }
}

/// The case of hexadecimal digits does not count.
proof fn lemma_case_of_digits(s: Seq<char>)
    ensures
        all_digits(text::lower(s), 16) == all_digits(s, 16),
        value_of(text::lower(s), 16) == value_of(s, 16),
    decreases s.len(),
{
    let t = text::lower(s);
    assert forall|i: int| 0 <= i < s.len() implies digit_value(#[trigger] t[i], 16) == digit_value(
        s[i],
        16,
    ) by {
        text::law_case_is_ascii(s, i);
    }
    if all_digits(t, 16) {
        assert forall|i: int| 0 <= i < s.len() implies digit_value(#[trigger] s[i], 16) is Some by {
            assert(digit_value(t[i], 16) is Some);
        }
    }
    if s.len() > 0 {
        lemma_case_of_digits(s.drop_last());
        assert(t.drop_last() =~= text::lower(s.drop_last()));
        assert(digit_value(t[s.len() - 1], 16) == digit_value(s[s.len() - 1], 16));
    }
}

/// A leading zero does not count.
proof fn lemma_leading_zero(s: Seq<char>)
    ensures
        value_of(seq!['0'] + s, 16) == value_of(s, 16),
    decreases s.len(),
{
    let z = seq!['0'] + s;
    if s.len() > 0 {
        lemma_leading_zero(s.drop_last());
        assert(z.drop_last() =~= seq!['0'] + s.drop_last());
    } else {
        assert(z.drop_last() =~= Seq::<char>::empty());
        assert(digit_value('0', 16) == Some(0nat));
        assert(value_of(z.drop_last(), 16) == 0);
    }
}

/// A double colon stands for the zero groups that are missing, of which there is
/// at least one; without it all eight groups are there.
pub proof fn law_a_double_colon_fills_up(front: Seq<char>, back: Seq<char>, h: Seq<u16>, t: Seq<u16>)
    requires
        group_list(front, false) == Some(h),
        group_list(back, true) == Some(t),
        double_colon(front + seq![':', ':'] + back, front.len() as int),
    ensures
        ipv6(front + seq![':', ':'] + back) is Some <==> h.len() + t.len() < 8,
        ipv6(front + seq![':', ':'] + back) matches Some(g) ==> {
            &&& g.len() == 8
            &&& g.take(h.len() as int) == h
            &&& g.skip(8 - t.len()) == t
            &&& forall|i: int| h.len() <= i < 8 - t.len() ==> #[trigger] g[i] == 0
        },
{
    let s = front + seq![':', ':'] + back;
    let n = front.len() as int;
    let i = choose|i: int| double_colon(s, i);
    double_colon_is_unique(s, i, n);
    assert(s.take(n) =~= front);
    assert(s.skip(n + 2) =~= back);
    if let Some(g) = ipv6(s) {
        assert(g.take(h.len() as int) =~= h);
        assert(g.skip(8 - t.len()) =~= t);
    }
}

/// Without a double colon an IPv6 address has eight groups, the last two of which
/// may be written as an IPv4 address.
pub proof fn law_eight_groups_make_an_address(s: Seq<char>)
    requires
        forall|i: int| !double_colon(s, i),
    ensures
        ipv6(s) is Some ==> ipv6(s) == group_list(s, true),
        ipv6(s) is Some <==> (group_list(s, true) matches Some(g) && g.len() == 8),
{
}

/// A list of groups is read piece by piece, from colon to colon.
pub proof fn law_groups_stand_between_colons(
    front: Seq<char>,
    group: Seq<char>,
    g: Seq<u16>,
    n: u16,
    o: Seq<u8>,
    dotted: Seq<char>,
)
    requires
        front.len() > 0,
        group_list(front, false) == Some(g),
        hextet(group) == Some(n),
        ipv4(dotted) == Some(o),
    ensures
        group_list(Seq::empty(), true) == Some(Seq::<u16>::empty()),
        group_list(front + seq![':'] + group, false) == Some(g.push(n)),
        group_list(front + seq![':'] + dotted, true) == Some(
            g.push((o[0] * 256 + o[1]) as u16).push((o[2] * 256 + o[3]) as u16),
        ),
        group_list(front + seq![':'] + dotted, false) is None,
{
    law_which_texts_are_groups(group);
    lemma_no_colon_in_a_group(group);
    lemma_no_colon_in_ipv4(dotted, o);
    lemma_split_at_the_end(front, group);
    lemma_split_at_the_end(front, dotted);
    let p = text::split(front, ':');
    let a = text::split(front + seq![':'] + group, ':');
    let b = text::split(front + seq![':'] + dotted, ':');
    assert(a.last() == group && a.drop_last() =~= p);
    assert(b.last() == dotted && b.drop_last() =~= p);
    assert forall|i: int| 0 <= i < a.len() implies hextet(#[trigger] a[i]) is Some by {
        if i < p.len() {
            assert(hextet(p[i]) is Some);
        }
    }
    assert(hextets(a)->0 =~= g.push(n));
    lemma_dotted_is_no_group(dotted, o);
    assert(hextet(b[b.len() - 1]) is None);
    assert(g + embedded(o) =~= g.push((o[0] * 256 + o[1]) as u16).push(
        (o[2] * 256 + o[3]) as u16,
    ));
}

/// No group holds a colon.
proof fn lemma_no_colon_in_a_group(s: Seq<char>)
    requires
        hextet(s) is Some,
    ensures
        !s.contains(':'),
{
    assert forall|i: int| 0 <= i < s.len() implies #[trigger] s[i] != ':' by {
        assert(digit_value(s[i], 16) is Some);
    }
}

/// No IPv4 address holds a colon.
proof fn lemma_no_colon_in_ipv4(s: Seq<char>, o: Seq<u8>)
    requires
        ipv4(s) == Some(o),
    ensures
        !s.contains(':'),
{
    law_ipv4_is_dotted_decimal(s, o);
    ip_text_is_plain(IpParts::V4(o));
    lemma_four_joined(Seq::new(o.len(), |i: int| text::decimal(o[i] as nat)));
    lemma_digits_read_back(o[0] as nat, 10);
    lemma_digits_read_back(o[1] as nat, 10);
    lemma_digits_read_back(o[2] as nat, 10);
    lemma_digits_read_back(o[3] as nat, 10);
    let (a, b, c, d) = (
        text::decimal(o[0] as nat),
        text::decimal(o[1] as nat),
        text::decimal(o[2] as nat),
        text::decimal(o[3] as nat),
    );
    assert forall|i: int| 0 <= i < s.len() implies #[trigger] s[i] != ':' by {
        let (x, y, z) = (a.len() as int, b.len() as int, c.len() as int);
        if i < x {
            assert(s[i] == a[i]);
        } else if i == x {
            assert(s[i] == '.');
        } else if i < x + 1 + y {
            assert(s[i] == b[i - x - 1]);
        } else if i == x + 1 + y {
            assert(s[i] == '.');
        } else if i < x + y + z + 2 {
            assert(s[i] == c[i - x - y - 2]);
        } else if i == x + y + z + 2 {
            assert(s[i] == '.');
        } else {
            assert(s[i] == d[i - x - y - z - 3]);
        }
    }
}

/// An IPv4 address is no group.
proof fn lemma_dotted_is_no_group(s: Seq<char>, o: Seq<u8>)
    requires
        ipv4(s) == Some(o),
    ensures
        hextet(s) is None,
{
    law_ipv4_is_dotted_decimal(s, o);
    lemma_digits_read_back(o[0] as nat, 10);
    let i = text::decimal(o[0] as nat).len() as int;
    assert(s[i] == '.');
    assert(digit_value(s[i], 16) is None);
}

/// Splitting at the colon before a last piece.
proof fn lemma_split_at_the_end(front: Seq<char>, piece: Seq<char>)
    requires
        !piece.contains(':'),
    ensures
        text::split(front + seq![':'] + piece, ':') == text::split(front, ':').push(piece),
    decreases front.len(),
{
    let s = front + seq![':'] + piece;
    front.index_of_first_ensures(':');
    s.index_of_first_ensures(':');
    piece.index_of_first_ensures(':');
    assert(s[front.len() as int] == ':');
    assert(s.contains(':'));
    let i = s.index_of_first(':')->0;
    if front.contains(':') {
        let j = front.index_of_first(':')->0;
        assert(s[j] == ':');
        if i < j {
            assert(front[i] == ':');
        }
        assert(i == j);
        lemma_split_at_the_end(front.skip(j + 1), piece);
        assert(s.skip(i + 1) =~= front.skip(j + 1) + seq![':'] + piece);
        assert(s.take(i) =~= front.take(j));
        assert(text::split(s, ':') =~= text::split(front, ':').push(piece));
    } else {
        if i < front.len() {
            assert(front[i] == ':');
        }
        assert(s.take(i) =~= front);
        assert(s.skip(i + 1) =~= piece);
        assert(text::split(piece, ':') =~= seq![piece]);
        assert(text::split(front, ':') =~= seq![front]);
        assert(text::split(s, ':') =~= text::split(front, ':').push(piece));
    }
}

} // verus!

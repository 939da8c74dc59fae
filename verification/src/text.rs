//! Text as a sequence of characters: the vocabulary in which every contract
//! of this crate speaks of strings, and the functions that compute it.

use vstd::prelude::*;
use vstd::string::*;

verus! {

// ---------------------------------------------------------------------------
// Characters
// ---------------------------------------------------------------------------

/// ASCII lowercase of one character; every other character stays as it is.
pub open spec fn lower_char(c: char) -> char {
    if 'A' <= c && c <= 'Z' {
        ((c as u8) + 32) as char
    } else {
        c
    }
}

/// ASCII uppercase of one character; every other character stays as it is.
pub open spec fn upper_char(c: char) -> char {
    if 'a' <= c && c <= 'z' {
        ((c as u8) - 32) as char
    } else {
        c
    }
}

/// The characters with Unicode's `White_Space` property.
pub open spec fn is_space(c: char) -> bool {
    let n = c as u32;
    ||| 0x09 <= n <= 0x0d
    ||| n == 0x20
    ||| n == 0x85
    ||| n == 0xa0
    ||| n == 0x1680
    ||| 0x2000 <= n <= 0x200a
    ||| n == 0x2028
    ||| n == 0x2029
    ||| n == 0x202f
    ||| n == 0x205f
    ||| n == 0x3000
}

/// `char::is_whitespace` tells the characters with Unicode's `White_Space`
/// property, which are those that [`is_space`] lists.
pub assume_specification[ char::is_whitespace ](c: char) -> (r: bool)
    ensures
        r == is_space(c),
;

/// ASCII lowercase of one character.
pub fn char_to_lower(c: char) -> (r: char)
    ensures
        r == lower_char(c),
{
    if 'A' <= c && c <= 'Z' {
        ((c as u8) + 32) as char
    } else {
        c
    }
}

/// ASCII uppercase of one character.
pub fn char_to_upper(c: char) -> (r: char)
    ensures
        r == upper_char(c),
{
    if 'a' <= c && c <= 'z' {
        ((c as u8) - 32) as char
    } else {
        c
    }
}

/// The text of an optional string.
pub open spec fn text_of(s: Option<String>) -> Option<Seq<char>> {
    match s {
        Some(s) => Some(s@),
        None => None,
    }
}

/// The text of an optional string slice.
pub open spec fn str_of(s: Option<&str>) -> Option<Seq<char>> {
    match s {
        Some(s) => Some(s@),
        None => None,
    }
}

/// An optional string as a slice.
pub fn as_text(s: &Option<String>) -> (r: Option<&str>)
    ensures
        str_of(r) == text_of(*s),
{
    match s {
        Some(v) => Some(v.as_str()),
        None => None,
    }
}

/// `String::push` appends one character.
pub assume_specification[ String::push ](s: &mut String, c: char)
    ensures
        final(s)@ == old(s)@.push(c),
;

/// The characters of a string, in order.
pub fn chars_of(s: &str) -> (r: Vec<char>)
    ensures
        r@ == s@,
{
    let mut out: Vec<char> = Vec::new();
    for c in it: s.chars()
        invariant
            out@ == it.seq().take(it.index()),
            it.seq() == s@,
    {
        out.push(c);
    }
    out
}

/// The string made of `chars`.
pub fn string_of(chars: &[char]) -> (r: String)
    ensures
        r@ == chars@,
{
    let mut out = String::new();
    let mut i: usize = 0;
    while i < chars.len()
        invariant
            i <= chars@.len(),
            out@ == chars@.take(i as int),
        decreases chars@.len() - i,
    {
        out.push(chars[i]);
        i += 1;
    }
    proof {
        assert(chars@.take(i as int) =~= chars@);
    }
    out
}

// ---------------------------------------------------------------------------
// Comparing and searching
// ---------------------------------------------------------------------------

/// `p` stands in `s` at position `i`.
pub open spec fn occurs_at(s: Seq<char>, p: Seq<char>, i: int) -> bool {
    0 <= i && i + p.len() <= s.len() && s.subrange(i, i + p.len()) == p
}

/// `p` stands somewhere in `s`.
pub open spec fn contains(s: Seq<char>, p: Seq<char>) -> bool {
    exists|i: int| occurs_at(s, p, i)
}

/// `s` begins with `p`.
pub open spec fn starts_with(s: Seq<char>, p: Seq<char>) -> bool {
    occurs_at(s, p, 0)
}

/// `s` ends with `p`.
pub open spec fn ends_with(s: Seq<char>, p: Seq<char>) -> bool {
    occurs_at(s, p, s.len() - p.len())
}

/// Every character of `s` in ASCII lowercase.
pub open spec fn lower(s: Seq<char>) -> Seq<char> {
    Seq::new(s.len(), |i: int| lower_char(s[i]))
}

/// Whether `p` stands in `s` at position `i`.
pub fn match_at(s: &[char], p: &[char], i: usize) -> (r: bool)
    ensures
        r == occurs_at(s@, p@, i as int),
{
    if i > s.len() || p.len() > s.len() - i {
        return false;
    }
    let n: usize = s.len();
    let mut k: usize = 0;
    while k < p.len()
        invariant
            k <= p@.len(),
            n == s@.len(),
            i + p@.len() <= n,
            forall|j: int| 0 <= j < k ==> s@[i + j] == p@[j],
        decreases p@.len() - k,
    {
        if s[i + k] != p[k] {
            proof {
                assert(s@.subrange(i as int, i + p@.len())[k as int] == s@[i + k]);
            }
            return false;
        }
        k += 1;
    }
    proof {
        assert(s@.subrange(i as int, i + p@.len()) =~= p@);
    }
    true
}

/// Whether `p` stands somewhere in `s`.
pub fn has(s: &[char], p: &[char]) -> (r: bool)
    ensures
        r == contains(s@, p@),
{
    let mut i: usize = 0;
    while i <= s.len()
        invariant
            i <= s@.len() + 1,
            forall|j: int| 0 <= j < i ==> !occurs_at(s@, p@, j),
        decreases s@.len() + 1 - i,
    {
        if match_at(s, p, i) {
            return true;
        }
        if i == s.len() {
            return false;
        }
        i += 1;
    }
    false
}

/// Whether `s` ends with `p`.
pub fn has_suffix(s: &[char], p: &[char]) -> (r: bool)
    ensures
        r == ends_with(s@, p@),
{
    if p.len() > s.len() {
        return false;
    }
    match_at(s, p, s.len() - p.len())
}

/// Whether two strings hold the same characters.
pub fn same(a: &str, b: &str) -> (r: bool)
    ensures
        r == (a@ == b@),
{
    let x = chars_of(a);
    let y = chars_of(b);
    if x.len() != y.len() {
        return false;
    }
    let r = match_at(x.as_slice(), y.as_slice(), 0);
    proof {
        assert(x@.subrange(0, y@.len() as int) =~= x@);
    }
    r
}

/// Whether `names` holds the string `s`.
pub fn listed(names: &[&str], s: &str) -> (r: bool)
    ensures
        r == exists|i: int| 0 <= i < names@.len() && names@[i]@ == s@,
{
    let mut i: usize = 0;
    while i < names.len()
        invariant
            i <= names@.len(),
            forall|j: int| 0 <= j < i ==> names@[j]@ != s@,
        decreases names@.len() - i,
    {
        if same(names[i], s) {
            return true;
        }
        i += 1;
    }
    false
}

/// Whether `names` holds the string `s`.
pub fn holds(names: &Vec<String>, s: &str) -> (r: bool)
    ensures
        r == exists|i: int| 0 <= i < names@.len() && names@[i]@ == s@,
{
    let mut i: usize = 0;
    while i < names.len()
        invariant
            i <= names@.len(),
            forall|j: int| 0 <= j < i ==> names@[j]@ != s@,
        decreases names@.len() - i,
    {
        if same(names[i].as_str(), s) {
            return true;
        }
        i += 1;
    }
    false
}

/// Every character of `s` in ASCII lowercase.
pub fn to_lower(s: &[char]) -> (r: Vec<char>)
    ensures
        r@ == lower(s@),
{
    let mut out: Vec<char> = Vec::new();
    let mut i: usize = 0;
    while i < s.len()
        invariant
            i <= s@.len(),
            out@ == lower(s@).take(i as int),
        decreases s@.len() - i,
    {
        out.push(char_to_lower(s[i]));
        i += 1;
        proof {
            assert(out@ =~= lower(s@).take(i as int));
        }
    }
    proof {
        assert(lower(s@).take(i as int) =~= lower(s@));
    }
    out
}

/// A string in ASCII lowercase.
pub fn lowered(s: &str) -> (r: String)
    ensures
        r@ == lower(s@),
{
    let v = chars_of(s);
    let l = to_lower(v.as_slice());
    string_of(l.as_slice())
}

/// Whether `s`, with its ASCII letters in lowercase, contains `p`.
pub fn lower_has(s: &str, p: &str) -> (r: bool)
    ensures
        r == contains(lower(s@), p@),
{
    let v = chars_of(s);
    let l = to_lower(v.as_slice());
    let q = chars_of(p);
    has(l.as_slice(), q.as_slice())
}

/// Whether `s` equals `p` once its ASCII letters are in lowercase.
pub fn lower_is(s: &str, p: &str) -> (r: bool)
    ensures
        r == (lower(s@) == p@),
{
    let l = lowered(s);
    same(l.as_str(), p)
}

// ---------------------------------------------------------------------------
// Trimming and splitting
// ---------------------------------------------------------------------------

/// `s` without the white space in front.
pub open spec fn trim_start(s: Seq<char>) -> Seq<char>
    decreases s.len(),
{
    if s.len() > 0 && is_space(s[0]) {
        trim_start(s.drop_first())
    } else {
        s
    }
}

/// `s` without the white space at its end.
pub open spec fn trim_end(s: Seq<char>) -> Seq<char>
    decreases s.len(),
{
    if s.len() > 0 && is_space(s.last()) {
        trim_end(s.drop_last())
    } else {
        s
    }
}

/// `s` without surrounding white space.
pub open spec fn trim(s: Seq<char>) -> Seq<char> {
    trim_end(trim_start(s))
}

/// What stands in `s` before the first `c`; all of `s` where there is none.
pub open spec fn before(s: Seq<char>, c: char) -> Seq<char> {
    match s.index_of_first(c) {
        Some(i) => s.take(i),
        None => s,
    }
}

/// The pieces of `s` between the occurrences of `c`.
pub open spec fn split(s: Seq<char>, c: char) -> Seq<Seq<char>>
    decreases s.len(),
{
    match s.index_of_first(c) {
        Some(i) => if 0 <= i < s.len() {
            seq![s.take(i)] + split(s.skip(i + 1), c)
        } else {
            seq![s]
        },
        None => seq![s],
    }
}

/// The pieces one after the other, `sep` between each two.
pub open spec fn join(parts: Seq<Seq<char>>, sep: Seq<char>) -> Seq<char>
    decreases parts.len(),
{
    if parts.len() == 0 {
        Seq::empty()
    } else if parts.len() == 1 {
        parts[0]
    } else {
        join(parts.drop_last(), sep) + sep + parts.last()
    }
}

/// No piece holds the character.
pub open spec fn free_of(parts: Seq<Seq<char>>, c: char) -> bool {
    forall|i: int, k: int|
        0 <= i < parts.len() && 0 <= k < parts[i].len() ==> #[trigger] parts[i][k] != c
}

/// A joined text begins with its first piece.
pub proof fn join_from_the_front(parts: Seq<Seq<char>>, sep: Seq<char>)
    requires
        parts.len() >= 2,
    ensures
        join(parts, sep) == parts[0] + sep + join(parts.drop_first(), sep),
    decreases parts.len(),
{
    let front = parts.drop_last();
    if parts.len() == 2 {
        assert(join(front, sep) == parts[0]);
        assert(join(parts.drop_first(), sep) == parts[1]);
    } else {
        join_from_the_front(front, sep);
        assert(parts.drop_first().drop_last() =~= front.drop_first());
        assert(join(parts, sep) =~= parts[0] + sep + join(parts.drop_first(), sep));
    }
}

/// Splitting undoes joining with a character that no piece holds.
pub proof fn split_undoes_join(parts: Seq<Seq<char>>, c: char)
    requires
        parts.len() >= 1,
        free_of(parts, c),
    ensures
        split(join(parts, seq![c]), c) == parts,
    decreases parts.len(),
{
    let s = join(parts, seq![c]);
    if parts.len() == 1 {
        assert forall|k: int| 0 <= k < s.len() implies s[k] != c by {
            assert(parts[0][k] != c);
        }
        s.index_of_first_ensures(c);
        assert(split(s, c) =~= parts);
    } else {
        let rest = parts.drop_first();
        join_from_the_front(parts, seq![c]);
        let n = parts[0].len() as int;
        assert(s[n] == c);
        assert(s.contains(c));
        let i = s.index_of_first(c)->0;
        s.index_of_first_ensures(c);
        assert(i == n) by {
            if i < n {
                assert(s[i] == parts[0][i]);
            }
        }
        assert(s.take(n) =~= parts[0]);
        assert(s.skip(n + 1) =~= join(rest, seq![c]));
        assert forall|i: int, k: int|
            0 <= i < rest.len() && 0 <= k < rest[i].len() implies #[trigger] rest[i][k] != c by {
            assert(parts[i + 1][k] != c);
        }
        split_undoes_join(rest, c);
        assert(seq![parts[0]] + rest =~= parts);
    }
}

/// What holds of the characters of every piece and of the separator holds of
/// those of the joined text.
pub proof fn join_keeps_characters(
    parts: Seq<Seq<char>>,
    sep: Seq<char>,
    p: spec_fn(char) -> bool,
)
    requires
        forall|i: int, k: int|
            0 <= i < parts.len() && 0 <= k < parts[i].len() ==> p(#[trigger] parts[i][k]),
        forall|k: int| 0 <= k < sep.len() ==> p(#[trigger] sep[k]),
    ensures
        forall|k: int| 0 <= k < join(parts, sep).len() ==> p(#[trigger] join(parts, sep)[k]),
    decreases parts.len(),
{
    if parts.len() >= 1 {
        let front = parts.drop_last();
        assert forall|i: int, k: int|
            0 <= i < front.len() && 0 <= k < front[i].len() implies p(#[trigger] front[i][k]) by {
            assert(p(parts[i][k]));
        }
        join_keeps_characters(front, sep, p);
        let s = join(parts, sep);
        assert forall|k: int| 0 <= k < s.len() implies p(#[trigger] s[k]) by {
            if parts.len() == 1 {
                assert(p(parts[0][k]));
            } else {
                let f = join(front, sep);
                if k < f.len() {
                    assert(p(f[k]));
                } else if k < f.len() + sep.len() {
                    assert(p(sep[k - f.len()]));
                } else {
                    assert(p(parts[parts.len() - 1][k - f.len() - sep.len()]));
                }
            }
        }
    }
}

/// A text without white space is left as it is by trimming.
pub proof fn trim_keeps(s: Seq<char>)
    requires
        forall|k: int| 0 <= k < s.len() ==> !is_space(#[trigger] s[k]),
    ensures
        trim(s) == s,
{
    if s.len() > 0 {
        assert(!is_space(s[0]));
        assert(!is_space(s[s.len() - 1]));
    }
}

/// The position of the first `c` in `s`, or the length of `s`.
pub fn find_char(s: &[char], c: char) -> (r: usize)
    ensures
        r <= s@.len(),
        forall|j: int| 0 <= j < r ==> s@[j] != c,
        r < s@.len() ==> s@[r as int] == c,
        s@.index_of_first(c) == (if r < s@.len() {
            Some(r as int)
        } else {
            None
        }),
{
    let mut i: usize = 0;
    while i < s.len()
        invariant
            i <= s@.len(),
            forall|j: int| 0 <= j < i ==> s@[j] != c,
        decreases s@.len() - i,
    {
        if s[i] == c {
            proof {
                s@.index_of_first_ensures(c);
            }
            return i;
        }
        i += 1;
    }
    proof {
        s@.index_of_first_ensures(c);
    }
    i
}

/// A string without surrounding white space, as characters.
pub fn trim_chars(s: &[char]) -> (r: Vec<char>)
    ensures
        r@ == trim(s@),
{
    let mut a: usize = 0;
    proof {
        assert(s@.skip(0) =~= s@);
    }
    while a < s.len() && s[a].is_whitespace()
        invariant
            a <= s@.len(),
            trim_start(s@) == trim_start(s@.skip(a as int)),
        decreases s@.len() - a,
    {
        proof {
            assert(s@.skip(a as int).drop_first() =~= s@.skip(a + 1));
        }
        a += 1;
    }
    let ghost t = s@.skip(a as int);
    let mut b: usize = s.len();
    proof {
        assert(trim_start(s@) == t);
        assert(s@.subrange(a as int, b as int) =~= t);
    }
    while b > a && s[b - 1].is_whitespace()
        invariant
            a <= b <= s@.len(),
            trim_end(t) == trim_end(s@.subrange(a as int, b as int)),
        decreases b,
    {
        proof {
            assert(s@.subrange(a as int, b as int).drop_last() =~= s@.subrange(a as int, b - 1));
        }
        b -= 1;
    }
    copy_range(s, a, b)
}

/// The characters of `s` from position `a` up to position `b`.
pub fn copy_range(s: &[char], a: usize, b: usize) -> (r: Vec<char>)
    requires
        a <= b <= s@.len(),
    ensures
        r@ == s@.subrange(a as int, b as int),
{
    let mut out: Vec<char> = Vec::new();
    let mut i: usize = a;
    while i < b
        invariant
            a <= i <= b <= s@.len(),
            out@ == s@.subrange(a as int, i as int),
        decreases b - i,
    {
        out.push(s[i]);
        i += 1;
        proof {
            assert(out@ =~= s@.subrange(a as int, i as int));
        }
    }
    out
}

/// A string without surrounding white space.
pub fn trimmed(s: &str) -> (r: String)
    ensures
        r@ == trim(s@),
{
    let v = chars_of(s);
    let t = trim_chars(v.as_slice());
    string_of(t.as_slice())
}

/// What stands before the first `c`; everything where there is none.
pub fn chars_before(s: &[char], c: char) -> (r: Vec<char>)
    ensures
        r@ == before(s@, c),
{
    let i = find_char(s, c);
    proof {
        assert(s@.subrange(0, i as int) =~= s@.take(i as int));
        if i == s@.len() {
            assert(s@.take(i as int) =~= s@);
        }
    }
    copy_range(s, 0, i)
}

/// The pieces of `s` between the occurrences of `c`.
pub fn split_chars(s: &[char], c: char) -> (r: Vec<Vec<char>>)
    ensures
        r@.len() == split(s@, c).len(),
        forall|i: int| 0 <= i < r@.len() ==> (#[trigger] r@[i])@ == split(s@, c)[i],
{
    let mut out: Vec<Vec<char>> = Vec::new();
    let n: usize = s.len();
    let mut from: usize = 0;
    let ghost mut done: Seq<Seq<char>> = Seq::empty();
    proof {
        assert(s@.skip(0) =~= s@);
        assert(done + split(s@, c) =~= split(s@, c));
    }
    loop
        invariant
            n == s@.len(),
            from <= n,
            out@.len() == done.len(),
            forall|i: int| 0 <= i < out@.len() ==> (#[trigger] out@[i])@ == done[i],
            split(s@, c) == done + split(s@.skip(from as int), c),
        decreases s@.len() - from,
    {
        let rest = slice_from(s, from);
        let k = find_char(rest, c);
        let piece = copy_range(rest, 0, k);
        proof {
            assert(piece@ =~= rest@.take(k as int));
        }
        if k == rest.len() {
            proof {
                assert(piece@ =~= rest@);
                assert(split(rest@, c) =~= seq![rest@]);
                done = done.push(piece@);
                assert(done =~= split(s@, c));
            }
            out.push(piece);
            return out;
        }
        proof {
            let tail = split(s@.skip(from + k + 1), c);
            assert(rest@.skip(k + 1) =~= s@.skip(from + k + 1));
            assert(split(rest@, c) =~= seq![piece@] + tail);
            assert(done + (seq![piece@] + tail) =~= done.push(piece@) + tail);
            done = done.push(piece@);
        }
        out.push(piece);
        from = from + k + 1;
    }
}

/// The characters of `s` from position `a` on.
pub fn slice_from(s: &[char], a: usize) -> (r: &[char])
    requires
        a <= s@.len(),
    ensures
        r@ == s@.skip(a as int),
{
    let n: usize = s.len();
    proof {
        assert(s@.subrange(a as int, n as int) =~= s@.skip(a as int));
    }
    &s[a..n]
}

/// The pieces as they stand in a vector of strings.
pub open spec fn views(parts: Seq<String>) -> Seq<Seq<char>> {
    Seq::new(parts.len(), |i: int| parts[i]@)
}

/// The pieces one after the other, `sep` between each two.
pub fn join_with(parts: &Vec<String>, sep: &str) -> (r: String)
    ensures
        r@ == join(views(parts@), sep@),
{
    let mut out = String::new();
    let mut i: usize = 0;
    while i < parts.len()
        invariant
            i <= parts@.len(),
            out@ == join(views(parts@).take(i as int), sep@),
        decreases parts@.len() - i,
    {
        proof {
            let longer = views(parts@).take(i + 1);
            assert(longer.drop_last() =~= views(parts@).take(i as int));
            assert(longer.last() == parts@[i as int]@);
            if i == 0 {
                assert(views(parts@).take(0) =~= Seq::<Seq<char>>::empty());
                assert(out@ + parts@[0]@ =~= parts@[0]@);
                assert(longer =~= seq![parts@[0]@]);
            }
        }
        if i > 0 {
            out.append(sep);
        }
        out.append(parts[i].as_str());
        i += 1;
    }
    proof {
        assert(views(parts@).take(i as int) =~= views(parts@));
    }
    out
}

// ---------------------------------------------------------------------------
// Numbers
// ---------------------------------------------------------------------------

/// The character of one digit, with `a` to `f` for ten to fifteen.
pub open spec fn digit_char(d: nat) -> char {
    if d < 10 {
        (('0' as u8) + d) as char
    } else {
        (('a' as u8) + (d - 10)) as char
    }
}

/// `n` written in base `base`, without leading zeros.
pub open spec fn digits(n: nat, base: nat) -> Seq<char>
    decreases n,
{
    if base < 2 || n < base {
        seq![digit_char(n)]
    } else {
        proof {
            assert(n / base < n) by (nonlinear_arith)
                requires
                    n >= base,
                    base >= 2,
            ;
        }
        digits(n / base, base).push(digit_char(n % base))
    }
}

/// `n` in decimal.
pub open spec fn decimal(n: nat) -> Seq<char> {
    digits(n, 10)
}

/// Different digits have different characters.
pub proof fn digit_char_is_injective(a: nat, b: nat)
    requires
        a < 16,
        b < 16,
        digit_char(a) == digit_char(b),
    ensures
        a == b,
{
}

/// Different numbers have different decimal texts.
pub proof fn decimal_is_injective(m: nat, n: nat)
    requires
        decimal(m) == decimal(n),
    ensures
        m == n,
    decreases m,
{
    let (a, b) = (decimal(m), decimal(n));
    digits_are_not_empty(m / 10, 10);
    digits_are_not_empty(n / 10, 10);
    if m < 10 && n < 10 {
        assert(a[0] == b[0]);
        digit_char_is_injective(m, n);
    } else if m >= 10 && n >= 10 {
        assert(a.last() == b.last());
        digit_char_is_injective(m % 10, n % 10);
        assert(a.drop_last() =~= decimal(m / 10));
        assert(b.drop_last() =~= decimal(n / 10));
        decimal_is_injective(m / 10, n / 10);
    } else {
        assert(a.len() == b.len());
    }
}

/// A number has at least one digit.
pub proof fn digits_are_not_empty(n: nat, base: nat)
    ensures
        digits(n, base).len() >= 1,
{
}

/// Appends `n` in base `base` to `out`.
pub fn push_number(out: &mut String, n: u64, base: u64)
    requires
        2 <= base <= 16,
    ensures
        final(out)@ == old(out)@ + digits(n as nat, base as nat),
    decreases n,
{
    if n >= base {
        proof {
            assert(n / base < n) by (nonlinear_arith)
                requires
                    n >= base,
                    base >= 2,
            ;
        }
        push_number(out, n / base, base);
    }
    let d: u64 = n % base;
    proof {
        assert(d < base) by (nonlinear_arith)
            requires
                d == n % base,
                base >= 2,
        ;
        if n < base {
            assert(d == n) by (nonlinear_arith)
                requires
                    d == n % base,
                    n < base,
            ;
        }
    }
    if d < 10 {
        out.push((48 + (d as u8)) as char);
    } else {
        out.push((97 + ((d - 10) as u8)) as char);
    }
    proof {
        let whole = digits(n as nat, base as nat);
        if n >= base {
            let front = digits((n / base) as nat, base as nat);
            assert(whole == front.push(digit_char(d as nat)));
            assert((old(out)@ + front).push(digit_char(d as nat)) =~= old(out)@ + whole);
        } else {
            assert(old(out)@.push(digit_char(d as nat)) =~= old(out)@ + whole);
        }
    }
}

/// `n` in decimal.
pub fn decimal_text(n: u64) -> (r: String)
    ensures
        r@ == decimal(n as nat),
{
    let mut out = String::new();
    push_number(&mut out, n, 10);
    proof {
        assert(Seq::<char>::empty() + decimal(n as nat) =~= decimal(n as nat));
    }
    out
}

// ---------------------------------------------------------------------------
// Order
// ---------------------------------------------------------------------------

/// `a` stands before `b` in dictionary order: the first position where they
/// differ decides by code point, and a proper prefix comes first.
pub open spec fn precedes(a: Seq<char>, b: Seq<char>) -> bool
    decreases a.len(),
{
    if b.len() == 0 {
        false
    } else if a.len() == 0 {
        true
    } else if a[0] != b[0] {
        a[0] < b[0]
    } else {
        precedes(a.drop_first(), b.drop_first())
    }
}

/// No text stands before itself.
pub proof fn precedes_irreflexive(a: Seq<char>)
    ensures
        !precedes(a, a),
    decreases a.len(),
{
    if a.len() > 0 {
        precedes_irreflexive(a.drop_first());
    }
}

/// The order is transitive.
pub proof fn precedes_transitive(a: Seq<char>, b: Seq<char>, c: Seq<char>)
    requires
        precedes(a, b),
        precedes(b, c),
    ensures
        precedes(a, c),
    decreases a.len(),
{
    if a.len() > 0 && a[0] == b[0] && b[0] == c[0] {
        precedes_transitive(a.drop_first(), b.drop_first(), c.drop_first());
    }
}

/// Of two different texts one stands before the other.
pub proof fn precedes_total(a: Seq<char>, b: Seq<char>)
    ensures
        a == b || precedes(a, b) || precedes(b, a),
    decreases a.len(),
{
    if a.len() > 0 && b.len() > 0 {
        if a[0] == b[0] {
            precedes_total(a.drop_first(), b.drop_first());
            if a.drop_first() == b.drop_first() {
                assert(a =~= seq![a[0]] + a.drop_first());
                assert(b =~= seq![b[0]] + b.drop_first());
            }
        }
    } else if a.len() == 0 && b.len() == 0 {
        assert(a =~= b);
    }
}

/// Two texts are in order where they first differ.
pub proof fn precedes_by_difference(a: Seq<char>, b: Seq<char>, k: int)
    requires
        0 <= k < a.len(),
        k < b.len(),
        forall|i: int| 0 <= i < k ==> a[i] == b[i],
        a[k] < b[k],
    ensures
        precedes(a, b),
    decreases k,
{
    if k > 0 {
        assert(a[0] == b[0]);
        assert forall|i: int| 0 <= i < k - 1 implies a.drop_first()[i] == b.drop_first()[i] by {
            assert(a[i + 1] == b[i + 1]);
        }
        precedes_by_difference(a.drop_first(), b.drop_first(), k - 1);
    }
}

/// Whether `a` stands before `b` in dictionary order.
pub fn is_before(a: &str, b: &str) -> (r: bool)
    ensures
        r == precedes(a@, b@),
{
    let x = chars_of(a);
    let y = chars_of(b);
    let mut i: usize = 0;
    proof {
        assert(x@.skip(0) =~= x@);
        assert(y@.skip(0) =~= y@);
    }
    while i < x.len() && i < y.len() && x[i] == y[i]
        invariant
            i <= x@.len(),
            i <= y@.len(),
            precedes(x@, y@) == precedes(x@.skip(i as int), y@.skip(i as int)),
        decreases x@.len() - i,
    {
        proof {
            assert(x@.skip(i as int).drop_first() =~= x@.skip(i + 1));
            assert(y@.skip(i as int).drop_first() =~= y@.skip(i + 1));
        }
        i += 1;
    }
    if i == y.len() {
        false
    } else if i == x.len() {
        true
    } else {
        x[i] < y[i]
    }
}

// ---------------------------------------------------------------------------
// Replacing
// ---------------------------------------------------------------------------

/// `s` with every occurrence of `needle`, taken from the left and without
/// overlap, replaced by `rep`. An empty needle occurs before every character
/// and at the end.
pub open spec fn replaced(s: Seq<char>, needle: Seq<char>, rep: Seq<char>) -> Seq<char>
    decreases s.len(),
{
    if needle.len() == 0 {
        if s.len() == 0 {
            rep
        } else {
            rep + seq![s[0]] + replaced(s.drop_first(), needle, rep)
        }
    } else if s.len() == 0 {
        s
    } else if starts_with(s, needle) {
        rep + replaced(s.skip(needle.len() as int), needle, rep)
    } else {
        seq![s[0]] + replaced(s.drop_first(), needle, rep)
    }
}

/// Replaces every occurrence of `needle` in `s` by `rep`.
pub fn replace_all(s: &str, needle: &str, rep: &str) -> (r: String)
    ensures
        r@ == replaced(s@, needle@, rep@),
{
    let v = chars_of(s);
    let n = chars_of(needle);
    let mut out = String::new();
    let mut i: usize = 0;
    proof {
        assert(v@.skip(0) =~= v@);
        assert(out@ + replaced(v@, n@, rep@) =~= replaced(v@, n@, rep@));
    }
    while i < v.len()
        invariant
            i <= v@.len(),
            replaced(v@, n@, rep@) == out@ + replaced(v@.skip(i as int), n@, rep@),
        decreases v@.len() - i,
    {
        let ghost rest = v@.skip(i as int);
        let ghost before = out@;
        if n.len() == 0 {
            out.append(rep);
            out.push(v[i]);
            proof {
                let tail = replaced(v@.skip(i + 1), n@, rep@);
                assert(rest.drop_first() =~= v@.skip(i + 1));
                assert(before + (rep@ + seq![rest[0]] + tail) =~= out@ + tail);
            }
            i += 1;
        } else if match_at(v.as_slice(), n.as_slice(), i) {
            out.append(rep);
            proof {
                let tail = replaced(v@.skip(i + n@.len()), n@, rep@);
                assert(rest.subrange(0, n@.len() as int) =~= v@.subrange(i as int, i + n@.len()));
                assert(starts_with(rest, n@));
                assert(rest.skip(n@.len() as int) =~= v@.skip(i + n@.len()));
                assert(before + (rep@ + tail) =~= out@ + tail);
            }
            i += n.len();
        } else {
            out.push(v[i]);
            proof {
                let tail = replaced(v@.skip(i + 1), n@, rep@);
                if starts_with(rest, n@) {
                    assert(rest.subrange(0, n@.len() as int) =~= v@.subrange(
                        i as int,
                        i + n@.len(),
                    ));
                }
                assert(rest.drop_first() =~= v@.skip(i + 1));
                assert(before + (seq![rest[0]] + tail) =~= out@ + tail);
            }
            i += 1;
        }
    }
    proof {
        assert(v@.skip(i as int) =~= Seq::<char>::empty());
    }
    if n.len() == 0 {
        out.append(rep);
    } else {
        proof {
            assert(out@ + Seq::<char>::empty() =~= out@);
        }
    }
    out
}

// ---------------------------------------------------------------------------
// What std computes on text
// ---------------------------------------------------------------------------

/// What `str::to_lowercase` returns.
pub uninterp spec fn unicode_lower(s: Seq<char>) -> Seq<char>;

/// What `str::to_uppercase` returns.
pub uninterp spec fn unicode_upper(s: Seq<char>) -> Seq<char>;

/// What `String::from_utf8_lossy` returns.
pub uninterp spec fn lossy_text(bytes: Seq<u8>) -> Seq<char>;

/// What `{:?}` prints of a string.
pub uninterp spec fn debug_text(s: Seq<char>) -> Seq<char>;

/// Every character of `s` in ASCII uppercase.
pub open spec fn upper(s: Seq<char>) -> Seq<char> {
    Seq::new(s.len(), |i: int| upper_char(s[i]))
}

/// Calls `str::to_lowercase`, Unicode's lowercase. What it does to characters
/// beyond ASCII is left to the name; ASCII text is lowered letter by letter.
#[verifier::external_body]
pub(crate) fn to_unicode_lower(s: &str) -> (r: String)
    ensures
        r@ == unicode_lower(s@),
        vstd::utf8::is_ascii_chars(s@) ==> r@ == lower(s@),
{
    s.to_lowercase()
}

/// Calls `str::to_uppercase`, Unicode's uppercase. What it does to characters
/// beyond ASCII is left to the name; ASCII text is raised letter by letter.
#[verifier::external_body]
pub(crate) fn to_unicode_upper(s: &str) -> (r: String)
    ensures
        r@ == unicode_upper(s@),
        vstd::utf8::is_ascii_chars(s@) ==> r@ == upper(s@),
{
    s.to_uppercase()
}

/// Calls `String::from_utf8_lossy`, which decodes valid UTF-8 as it is and
/// otherwise puts replacement characters where it cannot decode.
#[verifier::external_body]
pub(crate) fn decode_lossy(bytes: &[u8]) -> (r: String)
    ensures
        r@ == lossy_text(bytes@),
        vstd::utf8::valid_utf8(bytes@) ==> r@ == vstd::utf8::decode_utf8(bytes@),
{
    String::from_utf8_lossy(bytes).into_owned()
}

/// Calls `std::str::from_utf8`, which decodes valid UTF-8 and refuses the
/// rest.
#[verifier::external_body]
pub(crate) fn decode_utf8(bytes: &[u8]) -> (r: Option<String>)
    ensures
        r is Some <==> vstd::utf8::valid_utf8(bytes@),
        r matches Some(s) ==> s@ == vstd::utf8::decode_utf8(bytes@),
{
    std::str::from_utf8(bytes).ok().map(|s| s.to_string())
}

/// Formats a string with `{:?}`: quoted, with escapes.
#[verifier::external_body]
pub(crate) fn to_debug(s: &str) -> (r: String)
    ensures
        r@ == debug_text(s@),
{
    format!("{:?}", s)
}

// ---------------------------------------------------------------------------
// Laws
// ---------------------------------------------------------------------------

/// Lowering touches the ASCII capitals, by 32 code points, and nothing else;
/// raising undoes it on the small letters.
pub proof fn law_case_is_ascii(s: Seq<char>, i: int)
    requires
        0 <= i < s.len(),
    ensures
        lower(s).len() == s.len(),
        0x41 <= s[i] as u32 <= 0x5a ==> lower(s)[i] as u32 == s[i] as u32 + 32,
        !(0x41 <= s[i] as u32 <= 0x5a) ==> lower(s)[i] == s[i],
        upper(s).len() == s.len(),
        0x61 <= s[i] as u32 <= 0x7a ==> upper(s)[i] as u32 + 32 == s[i] as u32,
        !(0x61 <= s[i] as u32 <= 0x7a) ==> upper(s)[i] == s[i],
{
}

/// Trimming takes white space off both ends and nothing else, and leaves none
/// there.
pub proof fn law_trim_takes_off_white_space(s: Seq<char>)
    ensures
        exists|a: int, b: int| #[trigger] trims_to(s, a, b) && trim(s) == s.subrange(a, b),
        trim(s).len() > 0 ==> !is_space(trim(s)[0]) && !is_space(trim(s).last()),
{
    let t = trim_start(s);
    let a = lemma_trim_start(s);
    let n = lemma_trim_end(t);
    assert(t.take(n) =~= s.subrange(a, a + n));
    assert forall|k: int| a + n <= k < s.len() implies is_space(#[trigger] s[k]) by {
        assert(t[k - a] == s[k]);
    }
    assert(trims_to(s, a, a + n));
}

/// All that stands in `s` before position `a` and from position `b` on is white
/// space.
pub open spec fn trims_to(s: Seq<char>, a: int, b: int) -> bool {
    &&& 0 <= a <= b <= s.len()
    &&& forall|k: int| 0 <= k < a ==> is_space(#[trigger] s[k])
    &&& forall|k: int| b <= k < s.len() ==> is_space(#[trigger] s[k])
}

/// How much white space stands in front.
proof fn lemma_trim_start(s: Seq<char>) -> (a: int)
    ensures
        0 <= a <= s.len(),
        trim_start(s) == s.skip(a),
        forall|k: int| 0 <= k < a ==> is_space(#[trigger] s[k]),
        a < s.len() ==> !is_space(s[a]),
    decreases s.len(),
{
    if s.len() > 0 && is_space(s[0]) {
        let a = lemma_trim_start(s.drop_first());
        assert(s.drop_first().skip(a) =~= s.skip(a + 1));
        assert forall|k: int| 0 <= k < a + 1 implies is_space(#[trigger] s[k]) by {
            if k > 0 {
                assert(s.drop_first()[k - 1] == s[k]);
            }
        }
        a + 1
    } else {
        assert(s.skip(0) =~= s);
        0
    }
}

/// How much of a text stands before the white space at its end.
proof fn lemma_trim_end(s: Seq<char>) -> (b: int)
    ensures
        0 <= b <= s.len(),
        trim_end(s) == s.take(b),
        forall|k: int| b <= k < s.len() ==> is_space(#[trigger] s[k]),
        b > 0 ==> !is_space(s[b - 1]),
    decreases s.len(),
{
    if s.len() > 0 && is_space(s.last()) {
        let b = lemma_trim_end(s.drop_last());
        assert(s.drop_last().take(b) =~= s.take(b));
        assert forall|k: int| b <= k < s.len() implies is_space(#[trigger] s[k]) by {
            if k < s.len() - 1 {
                assert(s.drop_last()[k] == s[k]);
            }
        }
        b
    } else {
        assert(s.take(s.len() as int) =~= s);
        s.len() as int
    }
}

/// What stands before a character holds none of it, and is all of the text or is
/// followed by it.
pub proof fn law_before_stops_at_the_first(s: Seq<char>, c: char)
    ensures
        !before(s, c).contains(c),
        before(s, c) == s || exists|rest: Seq<char>| s == #[trigger] (before(s, c).push(c) + rest),
{
    s.index_of_first_ensures(c);
    match s.index_of_first(c) {
        Some(i) => {
            assert(s =~= s.take(i).push(c) + s.skip(i + 1));
            if s.take(i).contains(c) {
                let k = choose|k: int| 0 <= k < i && s.take(i)[k] == c;
                assert(s[k] == c);
            }
        },
        None => {},
    }
}

/// Splitting loses nothing: the pieces joined again are the text, and none of
/// them holds the character.
pub proof fn law_split_loses_nothing(s: Seq<char>, c: char)
    ensures
        split(s, c).len() >= 1,
        free_of(split(s, c), c),
        join(split(s, c), seq![c]) == s,
    decreases s.len(),
{
    s.index_of_first_ensures(c);
    let p = split(s, c);
    match s.index_of_first(c) {
        Some(i) => {
            let rest = s.skip(i + 1);
            law_split_loses_nothing(rest, c);
            assert(p =~= seq![s.take(i)] + split(rest, c));
            assert(p.drop_first() =~= split(rest, c));
            join_from_the_front(p, seq![c]);
            assert(s =~= s.take(i) + seq![c] + rest);
            assert forall|k: int, m: int|
                0 <= k < p.len() && 0 <= m < p[k].len() implies #[trigger] p[k][m] != c by {
                if k > 0 {
                    assert(split(rest, c)[k - 1][m] != c);
                } else {
                    assert(p[0][m] == s[m]);
                }
            }
        },
        None => {
            assert(p =~= seq![s]);
            assert forall|k: int, m: int|
                0 <= k < p.len() && 0 <= m < p[k].len() implies #[trigger] p[k][m] != c by {
                assert(s[m] != c);
            }
        },
    }
}

/// A text stands in another where something stands before and behind it; it
/// opens or ends the other where nothing stands on that side.
pub proof fn law_where_a_text_stands(front: Seq<char>, p: Seq<char>, back: Seq<char>)
    ensures
        contains(front + p + back, p),
        starts_with(p + back, p),
        ends_with(front + p, p),
        occurs_at(front + p + back, p, front.len() as int),
{
    let n = front.len() as int;
    assert((front + p + back).subrange(n, n + p.len()) =~= p);
    assert(occurs_at(front + p + back, p, n));
    assert((p + back).subrange(0, p.len() as int) =~= p);
    assert((front + p).subrange(n, n + p.len()) =~= p);
}

/// Where a text stands, its characters stand.
pub proof fn law_standing_text_agrees(s: Seq<char>, p: Seq<char>, i: int, k: int)
    requires
        occurs_at(s, p, i),
        0 <= k < p.len(),
    ensures
        0 <= i + k < s.len(),
        s[i + k] == p[k],
        starts_with(s, p) == occurs_at(s, p, 0),
        ends_with(s, p) == occurs_at(s, p, s.len() - p.len()),
{
    assert(s.subrange(i, i + p.len())[k] == s[i + k]);
}

/// Joining puts the separator between each two pieces and nowhere else.
pub proof fn law_join_separates(parts: Seq<Seq<char>>, last: Seq<char>, sep: Seq<char>)
    ensures
        join(Seq::empty(), sep) == Seq::<char>::empty(),
        parts.len() == 0 ==> join(parts.push(last), sep) == last,
        parts.len() > 0 ==> join(parts.push(last), sep) == join(parts, sep) + sep + last,
{
    assert(parts.push(last).drop_last() =~= parts);
}

/// A text without the needle stays as it is, and the first occurrence of the
/// needle makes room for the replacement.
pub proof fn law_replacing_is_exact(
    front: Seq<char>,
    needle: Seq<char>,
    back: Seq<char>,
    rep: Seq<char>,
)
    requires
        needle.len() > 0,
        forall|i: int| 0 <= i < front.len() ==> !#[trigger] occurs_at(front + needle + back, needle, i),
    ensures
        replaced(front + needle + back, needle, rep) == front + rep + replaced(back, needle, rep),
        !contains(back, needle) ==> replaced(back, needle, rep) == back,
    decreases front.len() + back.len(),
{
    let s = front + needle + back;
    if front.len() == 0 {
        assert(s.subrange(0, needle.len() as int) =~= needle);
        assert(s.skip(needle.len() as int) =~= back);
        assert(front + rep =~= rep);
    } else {
        assert(!occurs_at(s, needle, 0));
        let rest = front.drop_first();
        assert(s.drop_first() =~= rest + needle + back);
        assert forall|i: int| 0 <= i < rest.len() implies !#[trigger] occurs_at(
            rest + needle + back,
            needle,
            i,
        ) by {
            if occurs_at(rest + needle + back, needle, i) {
                assert(s.subrange(i + 1, i + 1 + needle.len()) =~= (rest + needle + back).subrange(
                    i,
                    i + needle.len(),
                ));
                assert(occurs_at(s, needle, i + 1));
            }
        }
        law_replacing_is_exact(rest, needle, back, rep);
        assert(front =~= seq![front[0]] + rest);
        assert(s[0] == front[0]);
        assert(replaced(s, needle, rep) =~= front + rep + replaced(back, needle, rep));
    }
    if !contains(back, needle) {
        lemma_nothing_to_replace(back, needle, rep);
    }
}

/// A text without the needle stays as it is.
proof fn lemma_nothing_to_replace(s: Seq<char>, needle: Seq<char>, rep: Seq<char>)
    requires
        needle.len() > 0,
        !contains(s, needle),
    ensures
        replaced(s, needle, rep) == s,
    decreases s.len(),
{
    if s.len() > 0 {
        assert(!occurs_at(s, needle, 0));
        assert forall|i: int| !occurs_at(s.drop_first(), needle, i) by {
            if occurs_at(s.drop_first(), needle, i) {
                assert(s.subrange(i + 1, i + 1 + needle.len()) =~= s.drop_first().subrange(
                    i,
                    i + needle.len(),
                ));
                assert(occurs_at(s, needle, i + 1));
            }
        }
        lemma_nothing_to_replace(s.drop_first(), needle, rep);
        assert(seq![s[0]] + s.drop_first() =~= s);
    }
}

/// A proper front of a text stands before it in dictionary order.
pub proof fn law_a_front_comes_first(a: Seq<char>, b: Seq<char>)
    requires
        b.len() > 0,
    ensures
        precedes(a, a + b),
        !precedes(a + b, a),
    decreases a.len(),
{
    if a.len() > 0 {
        assert((a + b).drop_first() =~= a.drop_first() + b);
        law_a_front_comes_first(a.drop_first(), b);
    }
}

/// Trimming a trimmed text changes nothing.
pub proof fn law_trimming_is_done_once(s: Seq<char>)
    ensures
        trim(trim(s)) == trim(s),
{
    law_trim_takes_off_white_space(s);
    let t = trim(s);
    if t.len() > 0 {
        assert(trim_start(t) == t);
        assert(trim_end(t) == t);
    }
}

/// A number is written in the digits 0 to 9 and, in base sixteen, a to f, the
/// higher ones first.
pub proof fn law_how_numbers_are_written(n: nat, base: nat, d: nat)
    requires
        base == 10 || base == 16,
        d < base,
    ensures
        d < 10 ==> digit_char(d) as u32 == 0x30 + d,
        d >= 10 ==> digit_char(d) as u32 == 0x61 + d - 10,
        digits(d, base) == seq![digit_char(d)],
        n > 0 ==> digits(n * base + d, base) == digits(n, base).push(digit_char(d)),
{
    if base == 10 {
        assert(n * base == n * 10);
    } else {
        assert(n * base == n * 16);
    }
}

} // verus!

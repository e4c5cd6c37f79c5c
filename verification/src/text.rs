//! Text as sequences of characters.
use vstd::prelude::*;

verus! {

/// `String::push` appends one character.
pub assume_specification[ String::push ](s: &mut String, c: char)
    ensures
        final(s)@ == old(s)@.push(c),
;

/// The decimal digit for `d`.
pub open spec fn digit_char(d: nat) -> char {
    (48 + d) as char
}

/// `n` written in decimal, without leading zeros.
pub open spec fn decimal(n: nat) -> Seq<char>
    decreases n,
{
    if n < 10 {
        seq![digit_char(n)]
    } else {
        decimal(n / 10).push(digit_char(n % 10))
    }
}

/// Appending `n` in decimal.
pub fn push_decimal(out: &mut String, n: u64)
    ensures
        final(out)@ == old(out)@ + decimal(n as nat),
    decreases n,
{
    if n < 10 {
        out.push((48 + n as u8) as char);
        assert(out@ =~= old(out)@ + decimal(n as nat));
    } else {
        push_decimal(out, n / 10);
        out.push((48 + (n % 10) as u8) as char);
        assert(out@ =~= old(out)@ + decimal(n as nat));
    }
}

/// `a` followed by `b`.
pub fn joined(a: &str, b: &str) -> (s: String)
    ensures
        s@ == a@ + b@,
{
    let mut s = a.to_owned();
    s.append(b);
    s
}

/// The characters of `s`.
pub fn chars_of(s: &str) -> (cs: Vec<char>)
    ensures
        cs@ == s@,
{
    let mut cs: Vec<char> = Vec::new();
    for c in it: s.chars()
        invariant
            it.seq() == s@,
            cs@ =~= s@.take(it.index() as int),
            it.index() == s@.len() ==> cs@ =~= s@,
    {
        cs.push(c);
    }
    cs
}

/// The text `cs[from..to]`.
pub fn string_of(cs: &[char], from: usize, to: usize) -> (s: String)
    requires
        from <= to <= cs@.len(),
    ensures
        s@ == cs@.subrange(from as int, to as int),
{
    let mut s = String::new();
    let mut i: usize = from;
    assert(s@ =~= cs@.subrange(from as int, from as int));
    while i < to
        invariant
            from <= i <= to <= cs@.len(),
            s@ == cs@.subrange(from as int, i as int),
        decreases to - i,
    {
        s.push(cs[i]);
        i = i + 1;
        assert(s@ =~= cs@.subrange(from as int, i as int));
    }
    s
}

/// Whether two texts are the same.
pub fn same(a: &str, b: &str) -> (r: bool)
    ensures
        r == (a@ == b@),
{
    a.to_owned() == b.to_owned()
}

/// An optional text as characters.
pub open spec fn opt_view(a: Option<String>) -> Option<Seq<char>> {
    match a {
        Some(s) => Some(s@),
        None => None,
    }
}

/// A copy of an optional text.
pub fn clone_opt(a: &Option<String>) -> (r: Option<String>)
    ensures
        opt_view(r) == opt_view(*a),
{
    match a {
        Some(s) => Some(s.clone()),
        None => None,
    }
}

/// The texts in `v`, in order.
pub open spec fn text_views(v: Seq<String>) -> Seq<Seq<char>> {
    v.map_values(|s: String| s@)
}

/// Whether `c` has Unicode's White_Space property.
pub open spec fn is_space(c: char) -> bool {
    ||| '\u{9}' <= c <= '\u{d}'
    ||| c == ' '
    ||| c == '\u{85}'
    ||| c == '\u{a0}'
    ||| c == '\u{1680}'
    ||| '\u{2000}' <= c <= '\u{200a}'
    ||| c == '\u{2028}'
    ||| c == '\u{2029}'
    ||| c == '\u{202f}'
    ||| c == '\u{205f}'
    ||| c == '\u{3000}'
}

/// The code point of `c`.
pub fn code_of(c: char) -> (n: u32)
    ensures
        n == c as int,
{
    c as u32
}

/// Whether `c` has Unicode's White_Space property.
pub fn is_white(c: char) -> (b: bool)
    ensures
        b == is_space(c),
{
    let n: u32 = c as u32;
    (9 <= n && n <= 13) || n == 0x20 || n == 0x85 || n == 0xA0 || n == 0x1680 || (0x2000 <= n && n
        <= 0x200A) || n == 0x2028 || n == 0x2029 || n == 0x202F || n == 0x205F || n == 0x3000
}

/// `s` without the white space at its front.
pub open spec fn trimmed_front(s: Seq<char>) -> Seq<char>
    decreases s.len(),
{
    if s.len() > 0 && is_space(s[0]) {
        trimmed_front(s.skip(1))
    } else {
        s
    }
}

/// `s` without the white space at its end.
pub open spec fn trimmed_back(s: Seq<char>) -> Seq<char>
    decreases s.len(),
{
    if s.len() > 0 && is_space(s.last()) {
        trimmed_back(s.drop_last())
    } else {
        s
    }
}

/// `s` without the white space at both ends.
pub open spec fn trimmed(s: Seq<char>) -> Seq<char> {
    trimmed_back(trimmed_front(s))
}

/// `s` without white space at both ends.
pub fn trim(s: &str) -> (r: String)
    ensures
        r@ == trimmed(s@),
{
    let cs = chars_of(s);
    let mut from: usize = 0;
    assert(cs@.skip(0) =~= cs@);
    while from < cs.len() && is_white(cs[from])
        invariant
            from <= cs@.len(),
            trimmed_front(cs@.skip(from as int)) == trimmed_front(cs@),
        decreases cs@.len() - from,
    {
        assert(cs@.skip(from as int).skip(1) =~= cs@.skip(from + 1));
        from = from + 1;
    }
    assert(trimmed_front(cs@) == cs@.skip(from as int));
    let mut to: usize = cs.len();
    assert(cs@.subrange(from as int, to as int) =~= cs@.skip(from as int));
    while from < to && is_white(cs[to - 1])
        invariant
            from <= to <= cs@.len(),
            trimmed_back(cs@.subrange(from as int, to as int)) == trimmed(cs@),
        decreases to,
    {
        assert(cs@.subrange(from as int, to as int).drop_last() =~= cs@.subrange(
            from as int,
            to - 1,
        ));
        to = to - 1;
    }
    string_of(cs.as_slice(), from, to)
}

/// `s` without the characters `c` at its end.
pub open spec fn without_back(s: Seq<char>, c: char) -> Seq<char>
    decreases s.len(),
{
    if s.len() > 0 && s.last() == c {
        without_back(s.drop_last(), c)
    } else {
        s
    }
}

/// `s` without the characters `c` at its front.
pub open spec fn without_front(s: Seq<char>, c: char) -> Seq<char>
    decreases s.len(),
{
    if s.len() > 0 && s[0] == c {
        without_front(s.skip(1), c)
    } else {
        s
    }
}

/// `s` without the characters `c` at its end.
pub fn trim_back_char(s: &str, c: char) -> (r: String)
    ensures
        r@ == without_back(s@, c),
{
    let cs = chars_of(s);
    let mut to: usize = cs.len();
    assert(cs@.take(to as int) =~= cs@);
    while to > 0 && cs[to - 1] == c
        invariant
            to <= cs@.len(),
            without_back(cs@.take(to as int), c) == without_back(cs@, c),
        decreases to,
    {
        assert(cs@.take(to as int).drop_last() =~= cs@.take(to - 1));
        to = to - 1;
    }
    assert(cs@.subrange(0, to as int) =~= cs@.take(to as int));
    string_of(cs.as_slice(), 0, to)
}

/// `s` without the characters `c` at its front.
pub fn trim_front_char(s: &str, c: char) -> (r: String)
    ensures
        r@ == without_front(s@, c),
{
    let cs = chars_of(s);
    let mut from: usize = 0;
    assert(cs@.skip(0) =~= cs@);
    while from < cs.len() && cs[from] == c
        invariant
            from <= cs@.len(),
            without_front(cs@.skip(from as int), c) == without_front(cs@, c),
        decreases cs@.len() - from,
    {
        assert(cs@.skip(from as int).skip(1) =~= cs@.skip(from + 1));
        from = from + 1;
    }
    assert(cs@.subrange(from as int, cs@.len() as int) =~= cs@.skip(from as int));
    string_of(cs.as_slice(), from, cs.len())
}

/// Whether `s` begins with `p`.
pub open spec fn has_prefix(s: Seq<char>, p: Seq<char>) -> bool {
    p.len() <= s.len() && s.take(p.len() as int) == p
}

/// Whether `s` ends with `p`.
pub open spec fn has_suffix(s: Seq<char>, p: Seq<char>) -> bool {
    p.len() <= s.len() && s.skip(s.len() - p.len()) == p
}

/// Whether `p` stands in `s` at `i`.
pub open spec fn stands_at(s: Seq<char>, i: int, p: Seq<char>) -> bool {
    0 <= i && i + p.len() <= s.len() && s.subrange(i, i + p.len()) == p
}

/// Whether `p` stands anywhere in `s`.
pub open spec fn contains_text(s: Seq<char>, p: Seq<char>) -> bool {
    exists|i: int| stands_at(s, i, p)
}

/// Whether `p` stands in `s` at `i`.
pub fn matches_at(s: &[char], i: usize, p: &[char]) -> (b: bool)
    ensures
        b == stands_at(s@, i as int, p@),
{
    if p.len() > s.len() || i > s.len() - p.len() {
        return false;
    }
    let mut j: usize = 0;
    while j < p.len()
        invariant
            j <= p@.len(),
            i + p@.len() <= s.len(),
            forall|k: int| 0 <= k < j ==> s@[i + k] == p@[k],
        decreases p@.len() - j,
    {
        if s[i + j] != p[j] {
            assert(s@.subrange(i as int, i + p@.len())[j as int] != p@[j as int]);
            return false;
        }
        j = j + 1;
    }
    assert(s@.subrange(i as int, i + p@.len()) =~= p@);
    true
}

/// Where `p` first stands in `s`.
pub open spec fn first_at(s: Seq<char>, p: Seq<char>, r: Option<int>) -> bool {
    match r {
        Some(i) => stands_at(s, i, p) && forall|j: int| 0 <= j < i ==> !stands_at(s, j, p),
        None => !contains_text(s, p),
    }
}

/// Where `p` first stands in `s`.
pub fn find(s: &[char], p: &[char]) -> (r: Option<usize>)
    ensures
        first_at(
            s@,
            p@,
            match r {
                Some(i) => Some(i as int),
                None => None,
            },
        ),
{
    if p.len() > s.len() {
        return None;
    }
    let mut i: usize = 0;
    let last: usize = s.len() - p.len();
    while i < last
        invariant
            i <= last == s@.len() - p@.len(),
            forall|j: int| 0 <= j < i ==> !stands_at(s@, j, p@),
        decreases last - i,
    {
        if matches_at(s, i, p) {
            return Some(i);
        }
        i = i + 1;
    }
    if matches_at(s, i, p) {
        Some(i)
    } else {
        None
    }
}

/// Whether `p` stands anywhere in `s`.
pub fn contains(s: &str, p: &str) -> (b: bool)
    ensures
        b == contains_text(s@, p@),
{
    let r = find(chars_of(s).as_slice(), chars_of(p).as_slice());
    r.is_some()
}

/// Whether `c` stands anywhere in `s`.
pub fn contains_char(s: &str, c: char) -> (b: bool)
    ensures
        b == s@.contains(c),
{
    let cs = chars_of(s);
    let mut i: usize = 0;
    while i < cs.len()
        invariant
            cs@ == s@,
            i <= cs@.len(),
            forall|j: int| 0 <= j < i ==> cs@[j] != c,
        decreases cs@.len() - i,
    {
        if cs[i] == c {
            assert(s@[i as int] == c);
            return true;
        }
        i = i + 1;
    }
    false
}

/// Whether `s` begins with `p`.
pub fn starts_with(s: &str, p: &str) -> (b: bool)
    ensures
        b == has_prefix(s@, p@),
{
    let cs = chars_of(s);
    let ps = chars_of(p);
    proof {
        if ps@.len() <= cs@.len() {
            assert(cs@.subrange(0, ps@.len() as int) =~= cs@.take(ps@.len() as int));
        }
    }
    matches_at(cs.as_slice(), 0, ps.as_slice())
}

/// What follows `p` at the front of `s`.
pub fn strip_prefix(s: &str, p: &str) -> (r: Option<String>)
    ensures
        match r {
            Some(rest) => has_prefix(s@, p@) && rest@ == s@.skip(p@.len() as int),
            None => !has_prefix(s@, p@),
        },
{
    if !starts_with(s, p) {
        return None;
    }
    let cs = chars_of(s);
    let n: usize = chars_of(p).len();
    assert(cs@.subrange(n as int, cs@.len() as int) =~= cs@.skip(n as int));
    Some(string_of(cs.as_slice(), n, cs.len()))
}

/// `s` without the copies of `p` at its front.
pub open spec fn without_prefixes(s: Seq<char>, p: Seq<char>) -> Seq<char>
    decreases s.len(),
{
    if p.len() > 0 && has_prefix(s, p) {
        without_prefixes(s.skip(p.len() as int), p)
    } else {
        s
    }
}

/// `s` without the copies of `p` at its front.
pub fn trim_prefixes(s: &str, p: &str) -> (r: String)
    ensures
        r@ == without_prefixes(s@, p@),
{
    let cs = chars_of(s);
    let ps = chars_of(p);
    let mut from: usize = 0;
    assert(cs@.skip(0) =~= cs@);
    while ps.len() > 0 && matches_at(cs.as_slice(), from, ps.as_slice())
        invariant
            from <= cs@.len(),
            without_prefixes(cs@.skip(from as int), ps@) == without_prefixes(cs@, ps@),
        decreases cs@.len() - from,
    {
        proof {
            let rest = cs@.skip(from as int);
            assert(rest.take(ps@.len() as int) =~= cs@.subrange(from as int, from + ps@.len()));
            assert(rest.skip(ps@.len() as int) =~= cs@.skip(from + ps@.len()));
        }
        assert(from + ps.len() <= cs.len());
        from = from + ps.len();
    }
    proof {
        let rest = cs@.skip(from as int);
        if ps@.len() > 0 && has_prefix(rest, ps@) {
            assert(rest.take(ps@.len() as int) =~= cs@.subrange(from as int, from + ps@.len()));
        }
        assert(cs@.subrange(from as int, cs@.len() as int) =~= rest);
    }
    string_of(cs.as_slice(), from, cs.len())
}

/// `s` without the copies of `p` at its end.
pub open spec fn without_suffixes(s: Seq<char>, p: Seq<char>) -> Seq<char>
    decreases s.len(),
{
    if p.len() > 0 && has_suffix(s, p) {
        without_suffixes(s.take(s.len() - p.len()), p)
    } else {
        s
    }
}

/// Whether `s` ends with `p`.
pub fn ends_with(s: &str, p: &str) -> (b: bool)
    ensures
        b == has_suffix(s@, p@),
{
    let cs = chars_of(s);
    let ps = chars_of(p);
    if ps.len() > cs.len() {
        return false;
    }
    assert(cs@.subrange(cs@.len() - ps@.len(), cs@.len() as int) =~= cs@.skip(
        cs@.len() - ps@.len(),
    ));
    matches_at(cs.as_slice(), cs.len() - ps.len(), ps.as_slice())
}

/// `s` without the copies of `p` at its end.
pub fn trim_suffixes(s: &str, p: &str) -> (r: String)
    ensures
        r@ == without_suffixes(s@, p@),
{
    let cs = chars_of(s);
    let ps = chars_of(p);
    let n: usize = ps.len();
    let mut to: usize = cs.len();
    assert(cs@.take(to as int) =~= cs@);
    while n > 0 && n <= to && matches_at(cs.as_slice(), to - n, ps.as_slice())
        invariant
            n == ps@.len(),
            to <= cs@.len(),
            without_suffixes(cs@.take(to as int), ps@) == without_suffixes(cs@, ps@),
        decreases to,
    {
        proof {
            let left = cs@.take(to as int);
            assert(left.skip(to - n) =~= cs@.subrange(to - n, to as int));
            assert(left.take(to - n) =~= cs@.take(to - n));
        }
        to = to - n;
    }
    proof {
        let left = cs@.take(to as int);
        if n > 0 && has_suffix(left, ps@) {
            assert(left.skip(to - n) =~= cs@.subrange(to - n, to as int));
        }
        assert(cs@.subrange(0, to as int) =~= left);
    }
    string_of(cs.as_slice(), 0, to)
}

/// What stands before and after the first `p` in `s`.
pub open spec fn split_at_first(s: Seq<char>, p: Seq<char>) -> Option<(Seq<char>, Seq<char>)> {
    if contains_text(s, p) {
        let i = choose|i: int| first_at(s, p, Some(i));
        Some((s.take(i), s.skip(i + p.len())))
    } else {
        None
    }
}

/// A text is split at the place where `p` first stands.
pub proof fn first_at_is_unique(s: Seq<char>, p: Seq<char>, i: int)
    requires
        first_at(s, p, Some(i)),
    ensures
        contains_text(s, p),
        split_at_first(s, p) == Some((s.take(i), s.skip(i + p.len()))),
{
    let j = choose|j: int| first_at(s, p, Some(j));
    assert(first_at(s, p, Some(j)));
    if j < i {
        assert(!stands_at(s, j, p));
    }
    if i < j {
        assert(!stands_at(s, i, p));
    }
}

/// What stands before and after the first `p` in `s`.
pub fn split_once(s: &str, p: &str) -> (r: Option<(String, String)>)
    ensures
        match r {
            Some((a, b)) => split_at_first(s@, p@) == Some((a@, b@)),
            None => split_at_first(s@, p@) is None,
        },
{
    let cs = chars_of(s);
    let ps = chars_of(p);
    match find(cs.as_slice(), ps.as_slice()) {
        Some(i) => {
            proof {
                first_at_is_unique(s@, p@, i as int);
                assert(cs@.subrange(0, i as int) =~= s@.take(i as int));
                assert(cs@.subrange(i + ps@.len(), cs@.len() as int) =~= s@.skip(i + ps@.len()));
            }
            assert(i + ps.len() <= cs.len());
            Some(
                (
                    string_of(cs.as_slice(), 0, i),
                    string_of(cs.as_slice(), i + ps.len(), cs.len()),
                ),
            )
        },
        None => None,
    }
}

/// The parts of `s` between the characters `c`.
pub open spec fn parts(s: Seq<char>, c: char) -> Seq<Seq<char>>
    decreases s.len(),
{
    if s.len() == 0 {
        seq![seq![]]
    } else {
        let before = parts(s.drop_last(), c);
        if s.last() == c {
            before.push(seq![])
        } else {
            before.update(before.len() - 1, before.last().push(s.last()))
        }
    }
}

/// Even the empty text has one part.
pub proof fn parts_is_not_empty(s: Seq<char>, c: char)
    ensures
        parts(s, c).len() >= 1,
    decreases s.len(),
{
    if s.len() > 0 {
        parts_is_not_empty(s.drop_last(), c);
    }
}

/// A text without `c` is one part.
pub proof fn text_without_is_one_part(s: Seq<char>, c: char)
    requires
        !s.contains(c),
    ensures
        parts(s, c) == seq![s],
    decreases s.len(),
{
    if s.len() == 0 {
        assert(s =~= seq![]);
    } else {
        let front = s.drop_last();
        assert forall|i: int| 0 <= i < front.len() implies front[i] != c by {
            assert(front[i] == s[i]);
        }
        text_without_is_one_part(front, c);
        assert(s.last() == s[s.len() - 1]);
        assert(front.push(s.last()) =~= s);
        assert(parts(s, c) =~= seq![s]);
    }
}

/// The parts of two texts with `c` between them are those of the first and
/// then those of the second.
pub proof fn parts_of_joined(a: Seq<char>, b: Seq<char>, c: char)
    ensures
        parts(a + seq![c] + b, c) == parts(a, c) + parts(b, c),
    decreases b.len(),
{
    let s = a + seq![c] + b;
    parts_is_not_empty(a, c);
    if b.len() == 0 {
        assert(s.drop_last() =~= a);
        assert(parts(s, c) =~= parts(a, c) + parts(b, c));
    } else {
        parts_of_joined(a, b.drop_last(), c);
        parts_is_not_empty(b.drop_last(), c);
        assert(s.drop_last() =~= a + seq![c] + b.drop_last());
        assert(parts(s, c) =~= parts(a, c) + parts(b, c));
    }
}

/// The first part of a text that does not begin with `c` begins as the text
/// does.
pub proof fn first_part_begins_the_text(s: Seq<char>, c: char)
    requires
        s.len() > 0,
        s[0] != c,
    ensures
        parts(s, c)[0].len() > 0,
        parts(s, c)[0][0] == s[0],
    decreases s.len(),
{
    let front = s.drop_last();
    parts_is_not_empty(front, c);
    if front.len() > 0 {
        first_part_begins_the_text(front, c);
    } else {
        assert(parts(front, c) =~= seq![seq![]]);
    }
}

/// The parts of `s` between the characters `c`.
pub fn split(s: &str, c: char) -> (r: Vec<String>)
    ensures
        text_views(r@) == parts(s@, c),
{
    let cs = chars_of(s);
    split_chars(cs.as_slice(), c)
}

/// The parts of `cs` between the characters `c`.
fn split_chars(cs: &[char], c: char) -> (r: Vec<String>)
    ensures
        text_views(r@) == parts(cs@, c),
{
    let mut done: Vec<String> = Vec::new();
    let mut last: String = String::new();
    let mut i: usize = 0;
    assert(text_views(done@).push(last@) =~= parts(cs@.take(0), c));
    while i < cs.len()
        invariant
            i <= cs@.len(),
            text_views(done@).push(last@) == parts(cs@.take(i as int), c),
        decreases cs@.len() - i,
    {
        let ghost before = text_views(done@).push(last@);
        assert(cs@.take(i + 1).drop_last() =~= cs@.take(i as int));
        if cs[i] == c {
            done.push(last);
            last = String::new();
            assert(text_views(done@) =~= before);
            assert(last@ =~= seq![]);
        } else {
            last.push(cs[i]);
            assert(text_views(done@).push(last@) =~= before.update(
                before.len() - 1,
                before.last().push(cs@[i as int]),
            ));
        }
        i = i + 1;
    }
    assert(cs@.take(i as int) =~= cs@);
    let ghost d = done@;
    done.push(last);
    assert(text_views(done@) =~= text_views(d).push(last@));
    done
}

/// A line without the carriage return at its end.
pub open spec fn without_cr(line: Seq<char>) -> Seq<char> {
    if line.len() > 0 && line.last() == '\r' {
        line.drop_last()
    } else {
        line
    }
}

/// The lines of `s`: what stands between line feeds, a carriage return
/// before a line feed left out; after the last line feed a line follows only
/// if it has characters.
pub open spec fn lines_of(s: Seq<char>) -> Seq<Seq<char>> {
    let p = parts(s, '\n');
    let closed = p.drop_last().map_values(|line: Seq<char>| without_cr(line));
    if p.last().len() == 0 {
        closed
    } else {
        closed.push(p.last())
    }
}

/// The lines of `s`.
pub fn lines(s: &str) -> (r: Vec<String>)
    ensures
        text_views(r@) == lines_of(s@),
{
    let p = split(s, '\n');
    proof {
        parts_is_not_empty(s@, '\n');
    }
    let mut r: Vec<String> = Vec::new();
    let mut i: usize = 0;
    let ghost closed = parts(s@, '\n').drop_last().map_values(
        |line: Seq<char>| without_cr(line),
    );
    assert(text_views(p@).len() == p@.len());
    assert(text_views(r@) =~= closed.take(0));
    while i < p.len() - 1
        invariant
            p@.len() >= 1,
            i <= p@.len() - 1,
            text_views(p@) == parts(s@, '\n'),
            closed == parts(s@, '\n').drop_last().map_values(
                |line: Seq<char>| without_cr(line),
            ),
            text_views(r@) == closed.take(i as int),
        decreases p@.len() - i,
    {
        let ghost was = text_views(r@);
        assert(p@[i as int]@ == parts(s@, '\n')[i as int]);
        let cs = chars_of(p[i].as_str());
        let n: usize = cs.len();
        let line = if n > 0 && cs[n - 1] == '\r' {
            assert(cs@.subrange(0, n - 1) =~= cs@.drop_last());
            string_of(cs.as_slice(), 0, n - 1)
        } else {
            assert(cs@.subrange(0, n as int) =~= cs@);
            string_of(cs.as_slice(), 0, n)
        };
        let ghost text = line@;
        assert(text == closed[i as int]);
        r.push(line);
        assert(text_views(r@) =~= was.push(text));
        i = i + 1;
        assert(was.push(text) =~= closed.take(i as int));
    }
    assert(closed.take(i as int) =~= closed);
    let last: &String = &p[p.len() - 1];
    assert(last@ == parts(s@, '\n').last());
    if chars_of(last.as_str()).len() > 0 {
        let ghost was = text_views(r@);
        r.push(last.clone());
        assert(text_views(r@) =~= was.push(last@));
    }
    r
}

/// Why a text is not a number.
#[derive(Debug, Clone, Copy, PartialEq, Eq, Structural)]
pub enum NumberFault {
    Empty,
    InvalidDigit,
    TooLarge,
}

impl NumberFault {
    /// The message shown for the fault.
    pub open spec fn message(self) -> Seq<char> {
        match self {
            NumberFault::Empty => "cannot parse integer from empty string"@,
            NumberFault::InvalidDigit => "invalid digit found in string"@,
            NumberFault::TooLarge => "number too large to fit in target type"@,
        }
    }

    /// The message shown for the fault.
    pub fn to_text(&self) -> (s: &'static str)
        ensures
            s@ == self.message(),
    {
        match self {
            NumberFault::Empty => "cannot parse integer from empty string",
            NumberFault::InvalidDigit => "invalid digit found in string",
            NumberFault::TooLarge => "number too large to fit in target type",
        }
    }
}

/// The value of a digit below `radix`, which is at most ten.
pub open spec fn digit_value(c: char, radix: int) -> Option<int> {
    if '0' <= c && (c as int) - 48 < radix {
        Some((c as int) - 48)
    } else {
        None
    }
}

/// The number that the digits write, read from the front: the first
/// character that is no digit, or the first digit at which the number
/// exceeds `max`, makes it fail.
pub open spec fn digits_value(s: Seq<char>, radix: int, max: int) -> Result<int, NumberFault>
    decreases s.len(),
{
    if s.len() == 0 {
        Ok(0)
    } else {
        match digits_value(s.drop_last(), radix, max) {
            Ok(n) => match digit_value(s.last(), radix) {
                Some(d) => if n * radix + d > max {
                    Err(NumberFault::TooLarge)
                } else {
                    Ok(n * radix + d)
                },
                None => Err(NumberFault::InvalidDigit),
            },
            Err(e) => Err(e),
        }
    }
}

/// The number that `s` writes: digits, a plus sign before them allowed.
pub open spec fn number(s: Seq<char>, radix: int, max: int) -> Result<int, NumberFault> {
    if s.len() == 0 {
        Err(NumberFault::Empty)
    } else if s[0] == '+' {
        if s.len() == 1 {
            Err(NumberFault::InvalidDigit)
        } else {
            digits_value(s.skip(1), radix, max)
        }
    } else {
        digits_value(s, radix, max)
    }
}

/// Digits whose beginning fails to be a number fail for that reason.
pub proof fn digits_value_fails_early(s: Seq<char>, n: int, radix: int, max: int)
    requires
        0 <= n <= s.len(),
        digits_value(s.take(n), radix, max) is Err,
    ensures
        digits_value(s, radix, max) == digits_value(s.take(n), radix, max),
    decreases s.len(),
{
    if n == s.len() {
        assert(s.take(n) =~= s);
    } else {
        assert(s.drop_last().take(n) =~= s.take(n));
        digits_value_fails_early(s.drop_last(), n, radix, max);
    }
}

/// A number written in decimal reads as that number.
pub proof fn decimal_reads_back(n: nat, max: int)
    requires
        n <= max,
    ensures
        digits_value(decimal(n), 10, max) == Ok::<int, NumberFault>(n as int),
        number(decimal(n), 10, max) == Ok::<int, NumberFault>(n as int),
{
    decimal_is_digits(n);
    decimal_digits_read_back(n, max);
    assert(decimal(n)[0] != '+');
}

proof fn decimal_digits_read_back(n: nat, max: int)
    requires
        n <= max,
    ensures
        digits_value(decimal(n), 10, max) == Ok::<int, NumberFault>(n as int),
    decreases n,
{
    let s = decimal(n);
    if n < 10 {
        reveal_with_fuel(digits_value, 2);
        assert(s.last() == digit_char(n));
    } else {
        decimal_digits_read_back(n / 10, max);
        assert(s.drop_last() =~= decimal(n / 10));
        assert(s.last() == digit_char(n % 10));
    }
}

/// A number is written in decimal with digits only, at least one, the first
/// of which is no zero if there are more.
pub proof fn decimal_is_digits(n: nat)
    ensures
        decimal(n).len() >= 1,
        forall|i: int| 0 <= i < decimal(n).len() ==> '0' <= #[trigger] decimal(n)[i] <= '9',
        decimal(n).len() > 1 ==> decimal(n)[0] != '0',
        n > 0 ==> decimal(n)[0] != '0',
        n < 10 ==> decimal(n).len() == 1,
        n < 100 ==> decimal(n).len() <= 2,
        n < 1000 ==> decimal(n).len() <= 3,
    decreases n,
{
    if n >= 10 {
        decimal_is_digits(n / 10);
    }
}

/// A number that is read lies within the bound.
pub proof fn numbers_are_bounded(s: Seq<char>, radix: int, max: int)
    requires
        0 <= radix,
        0 <= max,
    ensures
        number(s, radix, max) matches Ok(n) ==> 0 <= n <= max,
{
    digits_are_bounded(s, radix, max);
    if s.len() > 0 {
        digits_are_bounded(s.skip(1), radix, max);
    }
}

proof fn digits_are_bounded(s: Seq<char>, radix: int, max: int)
    requires
        0 <= radix,
        0 <= max,
    ensures
        digits_value(s, radix, max) matches Ok(n) ==> 0 <= n <= max,
    decreases s.len(),
{
    if s.len() > 0 {
        digits_are_bounded(s.drop_last(), radix, max);
        if let Ok(n) = digits_value(s.drop_last(), radix, max) {
            assert(0 <= n * radix) by (nonlinear_arith)
                requires
                    0 <= n,
                    0 <= radix,
            ;
        }
    }
}

/// The number that `s` writes in a radix of up to ten.
pub fn parse_number(s: &str, radix: u32, max: u32) -> (r: Result<u32, NumberFault>)
    requires
        2 <= radix <= 10,
    ensures
        match r {
            Ok(n) => number(s@, radix as int, max as int) == Ok::<int, NumberFault>(n as int),
            Err(e) => number(s@, radix as int, max as int) == Err::<int, NumberFault>(e),
        },
{
    let cs = chars_of(s);
    if cs.len() == 0 {
        return Err(NumberFault::Empty);
    }
    let mut from: usize = 0;
    if cs[0] == '+' {
        if cs.len() == 1 {
            return Err(NumberFault::InvalidDigit);
        }
        from = 1;
    }
    let ghost ds = cs@.skip(from as int);
    assert(cs@.skip(0) =~= cs@);
    let mut n: u32 = 0;
    let mut i: usize = from;
    while i < cs.len()
        invariant
            2 <= radix <= 10,
            from <= i <= cs@.len(),
            ds == cs@.skip(from as int),
            number(cs@, radix as int, max as int) == digits_value(ds, radix as int, max as int),
            cs@ == s@,
            n <= max,
            digits_value(ds.take(i - from), radix as int, max as int) == Ok::<int, NumberFault>(
                n as int,
            ),
        decreases cs@.len() - i,
    {
        let c: char = cs[i];
        proof {
            let next = ds.take(i - from + 1);
            assert(next.drop_last() =~= ds.take(i - from));
            assert(next.last() == c);
            if digits_value(next, radix as int, max as int) is Err {
                digits_value_fails_early(ds, i - from + 1, radix as int, max as int);
            }
        }
        let code: u32 = code_of(c);
        if code < 48 || code - 48 >= radix {
            return Err(NumberFault::InvalidDigit);
        }
        assert(n * radix <= 0xFFFF_FFFF * 10) by (nonlinear_arith)
            requires
                n <= 0xFFFF_FFFF,
                2 <= radix <= 10,
        ;
        let next: u64 = n as u64 * radix as u64 + (code - 48) as u64;
        if next > max as u64 {
            return Err(NumberFault::TooLarge);
        }
        n = next as u32;
        i = i + 1;
    }
    assert(ds.take(i - from) =~= ds);
    Ok(n)
}

/// The number of bytes that `s` has in UTF-8.
pub open spec fn utf8_len(s: Seq<char>) -> nat {
    vstd::utf8::encode_utf8(s).len()
}

/// The number of bytes that `s` has in UTF-8.
pub fn byte_len(s: &str) -> (n: usize)
    ensures
        n == utf8_len(s@),
{
    s.as_bytes().len()
}

/// The digit of a number below sixteen, in lower case.
pub open spec fn hex_char(d: nat) -> char {
    if d < 10 {
        (48 + d) as char
    } else {
        (87 + d) as char
    }
}

/// `n` in hexadecimal, with exactly `width` digits.
pub open spec fn hex(n: nat, width: nat) -> Seq<char>
    decreases width,
{
    if width == 0 {
        seq![]
    } else {
        hex(n / 16, (width - 1) as nat).push(hex_char(n % 16))
    }
}

/// Appending `n` in hexadecimal, with exactly `width` digits.
pub fn push_hex(out: &mut String, n: u64, width: u32)
    ensures
        final(out)@ == old(out)@ + hex(n as nat, width as nat),
    decreases width,
{
    if width == 0 {
        assert(out@ =~= old(out)@ + hex(n as nat, 0));
    } else {
        push_hex(out, n / 16, width - 1);
        let d: u8 = (n % 16) as u8;
        if d < 10 {
            out.push((48 + d) as char);
        } else {
            out.push((87 + d) as char);
        }
        assert(out@ =~= old(out)@ + hex(n as nat, width as nat));
    }
}

/// `n` written in octal, without leading zeros.
pub open spec fn octal(n: nat) -> Seq<char>
    decreases n,
{
    if n < 8 {
        seq![digit_char(n)]
    } else {
        octal(n / 8).push(digit_char(n % 8))
    }
}

/// Appending `n` in octal.
pub fn push_octal(out: &mut String, n: u32)
    ensures
        final(out)@ == old(out)@ + octal(n as nat),
    decreases n,
{
    if n < 8 {
        out.push((48 + n as u8) as char);
        assert(out@ =~= old(out)@ + octal(n as nat));
    } else {
        push_octal(out, n / 8);
        out.push((48 + (n % 8) as u8) as char);
        assert(out@ =~= old(out)@ + octal(n as nat));
    }
}

/// A number in decimal is its tens in decimal and then its last digit.
pub proof fn decimal_goes_by_tens(n: nat, d: nat)
    requires
        d < 10,
    ensures
        decimal(d).len() == 1,
        decimal(d)[0] as nat == 48 + d,
        n > 0 ==> decimal(10 * n + d) == decimal(n) + decimal(d),
{
    if n > 0 {
        assert(decimal(10 * n + d) =~= decimal(n) + decimal(d));
    }
}

/// Digits are read by tens as well: one more digit makes of a number ten times
/// the number and the digit, as long as that is no more than the limit; and a
/// character that is no digit is refused.
pub proof fn digits_are_read_by_tens(s: Seq<char>, c: char, max: int)
    requires
        s.len() > 0,
        s[0] != '+',
    ensures
        ({
            let more = number(s.push(c), 10, max);
            match number(s, 10, max) {
                Ok(n) => if '0' <= c <= '9' {
                    let m = 10 * n + (c as int - 48);
                    if m <= max {
                        more == Ok::<int, NumberFault>(m)
                    } else {
                        more == Err::<int, NumberFault>(NumberFault::TooLarge)
                    }
                } else {
                    more == Err::<int, NumberFault>(NumberFault::InvalidDigit)
                },
                Err(e) => more == Err::<int, NumberFault>(e),
            }
        }),
        number(seq![], 10, max) == Err::<int, NumberFault>(NumberFault::Empty),
        '0' <= c <= '9' && max >= 9 ==> number(seq![c], 10, max) == Ok::<int, NumberFault>(
            c as int - 48,
        ),
{
    assert(s.push(c).drop_last() =~= s);
    assert(seq![c].drop_last() =~= seq![]);
    reveal_with_fuel(digits_value, 2);
}

/// Trimming takes white space away at both ends, all of it, and nothing else.
pub proof fn trimming_takes_white_space_only(s: Seq<char>)
    ensures
        trimmed(s).len() > 0 ==> !is_space(trimmed(s)[0]) && !is_space(trimmed(s).last()),
        exists|i: int|
            {
                &&& 0 <= i
                &&& i + trimmed(s).len() <= s.len()
                &&& #[trigger] s.subrange(i, i + trimmed(s).len()) == trimmed(s)
                &&& forall|j: int|
                    0 <= j < s.len() && !(i <= j < i + trimmed(s).len()) ==> is_space(
                        #[trigger] s[j],
                    )
            },
{
    let f = trimmed_front(s);
    let i = front_is_trimmed(s);
    back_is_trimmed(f);
    let t = trimmed(s);
    assert(s.subrange(i, i + t.len()) =~= t) by {
        assert forall|k: int| 0 <= k < t.len() implies s[i + k] == t[k] by {
            assert(f[k] == s[i + k]);
        }
    }
    assert forall|j: int| 0 <= j < s.len() && !(i <= j < i + t.len()) implies is_space(
        #[trigger] s[j],
    ) by {
        if j >= i {
            assert(s[j] == f[j - i]);
        }
    }
    if t.len() > 0 {
        assert(t[0] == f[0]);
    }
}

proof fn front_is_trimmed(s: Seq<char>) -> (i: int)
    ensures
        0 <= i <= s.len(),
        trimmed_front(s) == s.skip(i),
        forall|j: int| 0 <= j < i ==> is_space(#[trigger] s[j]),
        i < s.len() ==> !is_space(s[i]),
    decreases s.len(),
{
    if s.len() > 0 && is_space(s[0]) {
        let k = front_is_trimmed(s.skip(1));
        assert(s.skip(1).skip(k) =~= s.skip(k + 1));
        assert forall|j: int| 0 <= j < k + 1 implies is_space(#[trigger] s[j]) by {
            if j > 0 {
                assert(s[j] == s.skip(1)[j - 1]);
            }
        }
        k + 1
    } else {
        assert(s.skip(0) =~= s);
        0
    }
}

proof fn back_is_trimmed(s: Seq<char>)
    ensures
        trimmed_back(s).len() <= s.len(),
        trimmed_back(s) == s.take(trimmed_back(s).len() as int),
        forall|j: int| trimmed_back(s).len() <= j < s.len() ==> is_space(#[trigger] s[j]),
        trimmed_back(s).len() > 0 ==> !is_space(trimmed_back(s).last()),
    decreases s.len(),
{
    if s.len() > 0 && is_space(s.last()) {
        back_is_trimmed(s.drop_last());
        let n = trimmed_back(s.drop_last()).len() as int;
        assert(s.drop_last().take(n) =~= s.take(n));
        assert forall|j: int| n <= j < s.len() implies is_space(#[trigger] s[j]) by {
            if j < s.len() - 1 {
                assert(s[j] == s.drop_last()[j]);
            }
        }
    } else {
        assert(s.take(s.len() as int) =~= s);
    }
}

proof fn front_spaces_go(a: Seq<char>, s: Seq<char>)
    requires
        forall|i: int| 0 <= i < a.len() ==> is_space(#[trigger] a[i]),
        s.len() > 0 ==> !is_space(s[0]),
    ensures
        trimmed_front(a + s) == s,
    decreases a.len(),
{
    if a.len() > 0 {
        assert((a + s)[0] == a[0]);
        assert((a + s).skip(1) =~= a.skip(1) + s);
        front_spaces_go(a.skip(1), s);
    } else {
        assert(a + s =~= s);
    }
}

proof fn back_spaces_go(s: Seq<char>, b: Seq<char>)
    requires
        forall|i: int| 0 <= i < b.len() ==> is_space(#[trigger] b[i]),
        s.len() > 0 ==> !is_space(s.last()),
    ensures
        trimmed_back(s + b) == s,
    decreases b.len(),
{
    if b.len() > 0 {
        assert((s + b).last() == b.last());
        assert((s + b).drop_last() =~= s + b.drop_last());
        back_spaces_go(s, b.drop_last());
    } else {
        assert(s + b =~= s);
    }
}

/// White space around a text is all taken away, and nothing of the text.
pub proof fn surrounded_text_is_trimmed(a: Seq<char>, s: Seq<char>, b: Seq<char>)
    requires
        forall|i: int| 0 <= i < a.len() ==> is_space(#[trigger] a[i]),
        forall|i: int| 0 <= i < b.len() ==> is_space(#[trigger] b[i]),
        s.len() > 0,
        !is_space(s[0]),
        !is_space(s.last()),
    ensures
        trimmed(a + s + b) == s,
{
    assert(a + s + b =~= a + (s + b));
    assert((s + b)[0] == s[0]);
    front_spaces_go(a, s + b);
    back_spaces_go(s, b);
}

/// White space is what separates words and lines; what words are made of is
/// none.
pub proof fn words_are_no_white_space(c: char)
    ensures
        is_space(' ') && is_space('\t') && is_space('\n') && is_space('\r'),
        '!' <= c <= '~' ==> !is_space(c),
        c == '\0' ==> !is_space(c),
{
}

/// The parts with the separator between them.
pub open spec fn put_together(parts: Seq<Seq<char>>, c: char) -> Seq<char>
    decreases parts.len(),
{
    if parts.len() == 0 {
        seq![]
    } else if parts.len() == 1 {
        parts[0]
    } else {
        put_together(parts.drop_last(), c) + seq![c] + parts.last()
    }
}

/// A text is split at the separator and nowhere else: put together again the
/// parts are the text, and no part has the separator in it.
pub proof fn parts_make_up_the_text(s: Seq<char>, c: char)
    ensures
        put_together(parts(s, c), c) == s,
        forall|i: int| 0 <= i < parts(s, c).len() ==> !(#[trigger] parts(s, c)[i]).contains(c),
    decreases s.len(),
{
    parts_is_not_empty(s, c);
    if s.len() == 0 {
        assert(!Seq::<char>::empty().contains(c));
    } else {
        let before = parts(s.drop_last(), c);
        let all = parts(s, c);
        parts_is_not_empty(s.drop_last(), c);
        parts_make_up_the_text(s.drop_last(), c);
        assert(s =~= s.drop_last().push(s.last()));
        if s.last() == c {
            assert(all.drop_last() =~= before);
            assert(put_together(all, c) =~= s);
        } else {
            assert(all.drop_last() =~= before.drop_last());
            assert(put_together(all, c) =~= s);
            let last = before.last();
            assert(!last.contains(c)) by {
                assert(!before[before.len() - 1].contains(c));
            }
            assert forall|i: int| 0 <= i < all.len() implies !(#[trigger] all[i]).contains(c) by {
                if i == all.len() - 1 {
                    assert forall|j: int| 0 <= j < all[i].len() implies all[i][j] != c by {
                        if j < last.len() {
                            assert(all[i][j] == last[j]);
                            assert(last.contains(last[j]));
                        }
                    }
                } else {
                    assert(all[i] == before[i]);
                }
            }
        }
    }
}

/// Lines one after the other, each with its end.
pub open spec fn written_lines(lines: Seq<Seq<char>>) -> Seq<char>
    decreases lines.len(),
{
    if lines.len() == 0 {
        seq![]
    } else {
        written_lines(lines.drop_last()) + lines.last() + seq!['\n']
    }
}

proof fn written_lines_are_parted(lines: Seq<Seq<char>>)
    requires
        forall|i: int| 0 <= i < lines.len() ==> !(#[trigger] lines[i]).contains('\n'),
    ensures
        parts(written_lines(lines), '\n') == lines.push(seq![]),
    decreases lines.len(),
{
    if lines.len() == 0 {
        assert(parts(written_lines(lines), '\n') =~= lines.push(seq![]));
    } else {
        let front = lines.drop_last();
        let line = lines.last();
        assert forall|i: int| 0 <= i < front.len() implies !(#[trigger] front[i]).contains('\n') by {
            assert(front[i] == lines[i]);
        }
        written_lines_are_parted(front);
        assert(!lines[lines.len() - 1].contains('\n'));
        last_part_grows(written_lines(front), line, '\n');
        let s = written_lines(lines);
        assert(s.drop_last() =~= written_lines(front) + line);
        assert(parts(s, '\n') =~= lines.push(seq![]));
    }
}

proof fn last_part_grows(s: Seq<char>, t: Seq<char>, c: char)
    requires
        !t.contains(c),
    ensures
        ({
            let p = parts(s, c);
            parts(s + t, c) == p.update(p.len() - 1, p.last() + t)
        }),
    decreases t.len(),
{
    let p = parts(s, c);
    parts_is_not_empty(s, c);
    if t.len() == 0 {
        assert(s + t =~= s);
        assert(p.last() + t =~= p.last());
        assert(p.update(p.len() - 1, p.last() + t) =~= p);
    } else {
        let front = t.drop_last();
        assert(t.contains(t[t.len() - 1]));
        assert(!front.contains(c)) by {
            if front.contains(c) {
                let i = choose|i: int| 0 <= i < front.len() && front[i] == c;
                assert(t[i] == c);
            }
        }
        last_part_grows(s, front, c);
        assert((s + t).drop_last() =~= s + front);
        assert((p.last() + front).push(t.last()) =~= p.last() + t);
        assert(parts(s + t, c) =~= p.update(p.len() - 1, p.last() + t));
    }
}

/// Lines that were written are read back, with or without the carriage return
/// before the end.
pub proof fn written_lines_read_back(lines: Seq<Seq<char>>)
    requires
        forall|i: int|
            0 <= i < lines.len() ==> !(#[trigger] lines[i]).contains('\n') && !lines[i].contains(
                '\r',
            ),
    ensures
        lines_of(written_lines(lines)) == lines,
        lines_of(written_lines(lines.map_values(|l: Seq<char>| l.push('\r')))) == lines,
{
    written_lines_are_parted(lines);
    let p = parts(written_lines(lines), '\n');
    assert(p.drop_last() =~= lines);
    assert(lines_of(written_lines(lines)) =~= lines) by {
        assert forall|i: int| 0 <= i < lines.len() implies without_cr(lines[i]) == lines[i] by {
            if lines[i].len() > 0 {
                assert(lines[i].contains(lines[i].last()));
            }
        }
    }
    let ended = lines.map_values(|l: Seq<char>| l.push('\r'));
    assert forall|i: int| 0 <= i < ended.len() implies !(#[trigger] ended[i]).contains('\n') by {
        assert forall|j: int| 0 <= j < ended[i].len() implies ended[i][j] != '\n' by {
            if j < lines[i].len() {
                assert(ended[i][j] == lines[i][j]);
                assert(lines[i].contains(lines[i][j]));
            }
        }
    }
    written_lines_are_parted(ended);
    let q = parts(written_lines(ended), '\n');
    assert(q.drop_last() =~= ended);
    assert(lines_of(written_lines(ended)) =~= lines) by {
        assert forall|i: int| 0 <= i < lines.len() implies without_cr(ended[i]) == lines[i] by {
            assert(lines[i].push('\r').drop_last() =~= lines[i]);
        }
    }
}

/// Hexadecimal goes by sixteens: the last digit is what is left over.
pub proof fn hexadecimal_goes_by_sixteens(n: nat, d: nat, width: nat)
    requires
        d < 16,
    ensures
        hex(16 * n + d, width + 1) == hex(n, width).push(hex_char(d)),
        hex(n, width).len() == width,
        d < 10 ==> hex_char(d) == ('0' as nat + d) as char,
        10 <= d ==> hex_char(d) == ('a' as nat + (d - 10)) as char,
    decreases width,
{
    assert((16 * n + d) / 16 == n && (16 * n + d) % 16 == d);
    if width > 0 {
        hexadecimal_goes_by_sixteens(n / 16, n % 16, (width - 1) as nat);
    }
}

/// Octal goes by eights: the last digit is what is left over, and no zero is
/// in front.
pub proof fn octal_goes_by_eights(n: nat, d: nat)
    requires
        d < 8,
    ensures
        octal(d) == seq![('0' as nat + d) as char],
        n > 0 ==> octal(8 * n + d) == octal(n).push(('0' as nat + d) as char),
{
    assert((8 * n + d) / 8 == n && (8 * n + d) % 8 == d);
}

/// Suffixes are taken off for as long as there is one, and prefixes too.
pub proof fn affixes_are_taken_off(s: Seq<char>, p: Seq<char>)
    requires
        p.len() > 0,
    ensures
        without_suffixes(s + p, p) == without_suffixes(s, p),
        s.len() < p.len() || s.skip(s.len() - p.len()) != p ==> without_suffixes(s, p) == s,
        without_prefixes(p + s, p) == without_prefixes(s, p),
        s.len() < p.len() || s.take(p.len() as int) != p ==> without_prefixes(s, p) == s,
{
    assert((s + p).skip(s.len() as int) =~= p);
    assert((s + p).take(s.len() as int) =~= s);
    assert((p + s).take(p.len() as int) =~= p);
    assert((p + s).skip(p.len() as int) =~= s);
}

/// A text is split at the first of the separators: what stands before it, and
/// all that comes after.
pub proof fn text_is_split_at_the_first(a: Seq<char>, p: Seq<char>, b: Seq<char>)
    requires
        p.len() > 0,
        forall|j: int| 0 <= j < a.len() ==> (#[trigger] (a + p + b).subrange(j, j + p.len())) != p,
    ensures
        split_at_first(a + p + b, p) == Some((a, b)),
{
    let s = a + p + b;
    let i = a.len() as int;
    assert(s.subrange(i, i + p.len()) =~= p);
    assert forall|j: int| 0 <= j < i implies !stands_at(s, j, p) by {
        assert(s.subrange(j, j + p.len()) != p);
    }
    assert(first_at(s, p, Some(i)));
    first_at_is_unique(s, p, i);
    assert(s.take(i) =~= a);
    assert(s.skip(i + p.len()) =~= b);
}

/// A plus sign before the digits changes nothing; a sign alone, nothing at all
/// and a sign of the other kind are no number.
pub proof fn signs_before_numbers(s: Seq<char>, max: int)
    requires
        s.len() > 0,
        s[0] != '+',
    ensures
        number(seq!['+'] + s, 10, max) == number(s, 10, max),
        number(seq!['+'], 10, max) is Err,
        number(seq![], 10, max) is Err,
        number(seq!['-'], 10, max) is Err,
{
    assert((seq!['+'] + s).skip(1) =~= s);
    assert(seq!['-'].drop_last() =~= seq![]);
    reveal_with_fuel(digits_value, 2);
}

} // verus!

//! Dates in XML property lists.
use vstd::prelude::*;

verus! {

/// Whether `s` stands in `b` at `i`.
pub open spec fn stands_at(b: Seq<u8>, i: int, s: Seq<u8>) -> bool {
    0 <= i && i + s.len() <= b.len() && b.subrange(i, i + s.len()) == s
}

fn matches_at(b: &[u8], i: usize, s: &[u8]) -> (r: bool)
    ensures
        r == stands_at(b@, i as int, s@),
{
    if s.len() > b.len() || i > b.len() - s.len() {
        return false;
    }
    let mut j: usize = 0;
    while j < s.len()
        invariant
            j <= s@.len(),
            i + s@.len() <= b.len(),
            forall|k: int| 0 <= k < j ==> b@[i + k] == s@[k],
        decreases s@.len() - j,
    {
        if b[i + j] != s[j] {
            assert(b@.subrange(i as int, i + s@.len())[j as int] != s@[j as int]);
            return false;
        }
        j = j + 1;
    }
    assert(b@.subrange(i as int, i + s@.len()) =~= s@);
    true
}

/// Whether a byte is white space between the parts of a tag.
pub open spec fn is_blank(c: u8) -> bool {
    c == 0x20 || c == 0x0D || c == 0x0A || c == 0x09
}

fn blank(c: u8) -> (r: bool)
    ensures
        r == is_blank(c),
{
    c == 0x20 || c == 0x0D || c == 0x0A || c == 0x09
}

/// Whether a closing bracket stands at `j`, with the byte `c` before it `n`
/// times.
pub open spec fn closes(b: Seq<u8>, j: int, c: u8, n: int) -> bool {
    &&& b[j] == 0x3E
    &&& n <= j
    &&& forall|k: int| j - n <= k < j ==> #[trigger] b[k] == c
}

/// The first place from `i` on where a closing bracket stands, with the byte
/// `c` before it `n` times.
pub open spec fn closing(b: Seq<u8>, i: int, c: u8, n: int) -> Option<int>
    decreases b.len() - i,
{
    if !(0 <= i < b.len()) {
        None
    } else if closes(b, i, c, n) {
        Some(i)
    } else {
        closing(b, i + 1, c, n)
    }
}

fn find_closing(b: &[u8], from: usize, c: u8, n: usize) -> (r: Option<usize>)
    requires
        n <= 2,
    ensures
        match r {
            Some(j) => from <= j < b@.len() && closing(b@, from as int, c, n as int) == Some(
                j as int,
            ),
            None => closing(b@, from as int, c, n as int) is None,
        },
{
    let mut i: usize = from;
    while i < b.len()
        invariant
            from <= i,
            n <= 2,
            closing(b@, from as int, c, n as int) == closing(b@, i as int, c, n as int),
        decreases b.len() - i,
    {
        if b[i] == 0x3E && n <= i && (n < 1 || b[i - 1] == c) && (n < 2 || b[i - 2] == c) {
            assert(closes(b@, i as int, c, n as int));
            return Some(i);
        }
        proof {
            if closes(b@, i as int, c, n as int) {
                if n >= 1 {
                    assert(b@[i - 1] == c);
                }
                if n >= 2 {
                    assert(b@[i - 2] == c);
                }
            }
        }
        i = i + 1;
    }
    None
}

/// The closing bracket of a tag from `i` on: the first one outside
/// quotations. `quote` is the mark of the quotation at `i`, or zero.
pub open spec fn tag_end(b: Seq<u8>, i: int, quote: u8) -> Option<int>
    decreases b.len() - i,
{
    if !(0 <= i < b.len()) {
        None
    } else if quote != 0 {
        tag_end(
            b,
            i + 1,
            if b[i] == quote {
                0
            } else {
                quote
            },
        )
    } else if b[i] == 0x3E {
        Some(i)
    } else if b[i] == 0x22 || b[i] == 0x27 {
        tag_end(b, i + 1, b[i])
    } else {
        tag_end(b, i + 1, 0)
    }
}

fn find_tag_end(b: &[u8], from: usize) -> (r: Option<usize>)
    ensures
        match r {
            Some(j) => from <= j < b@.len() && tag_end(b@, from as int, 0) == Some(j as int),
            None => tag_end(b@, from as int, 0) is None,
        },
{
    let mut i: usize = from;
    let mut quote: u8 = 0;
    while i < b.len()
        invariant
            from <= i,
            tag_end(b@, from as int, 0) == tag_end(b@, i as int, quote),
        decreases b.len() - i,
    {
        let c: u8 = b[i];
        if quote != 0 {
            if c == quote {
                quote = 0;
            }
        } else if c == 0x3E {
            return Some(i);
        } else if c == 0x22 || c == 0x27 {
            quote = c;
        }
        i = i + 1;
    }
    None
}

/// The text `<!--`, behind the bracket.
pub open spec fn comment_mark() -> Seq<u8> {
    seq![0x21u8, 0x2D, 0x2D]
}

/// The text `<![CDATA[`, behind the bracket.
pub open spec fn cdata_mark() -> Seq<u8> {
    seq![0x21u8, 0x5B, 0x43, 0x44, 0x41, 0x54, 0x41, 0x5B]
}

/// The reader takes its input in blocks of this size.
pub const BLOCK: usize = 8192;

/// How many hyphens the reader takes the blocks before `m` to end in, in a
/// comment among declarations whose text begins at `from`. Of a block that
/// ends in a single hyphen it says two where the block before it ended in one.
pub open spec fn hyphens(b: Seq<u8>, from: int, m: int) -> int
    decreases m - from,
{
    if m <= from {
        0
    } else if b[m - 1] != 0x2D {
        0
    } else if m - 2 >= from && b[m - 2] == 0x2D {
        2
    } else if m - BLOCK > from && hyphens(b, from, m - BLOCK) > 0 {
        2
    } else {
        1
    }
}

/// Whether a comment among declarations, whose text begins at `from`, ends at
/// `j`.
pub open spec fn ends_comment(b: Seq<u8>, from: int, j: int) -> bool {
    &&& b[j] == 0x3E
    &&& {
        ||| j - 2 >= from && b[j - 1] == 0x2D && b[j - 2] == 0x2D
        ||| j % BLOCK as int == 0 && hyphens(b, from, j) == 2
    }
}

/// The first place from `i` on where a comment among declarations ends.
pub open spec fn comment_end(b: Seq<u8>, from: int, i: int) -> Option<int>
    decreases b.len() - i,
{
    if !(0 <= i < b.len()) {
        None
    } else if ends_comment(b, from, i) {
        Some(i)
    } else {
        comment_end(b, from, i + 1)
    }
}

fn find_comment_end(b: &[u8], from: usize) -> (r: Option<usize>)
    ensures
        match r {
            Some(j) => from <= j < b@.len() && comment_end(b@, from as int, from as int) == Some(
                j as int,
            ),
            None => comment_end(b@, from as int, from as int) is None,
        },
{
    let mut i: usize = from;
    let mut held: u8 = 0;
    while i < b.len()
        invariant
            from <= i,
            i == from ==> held == 0,
            i > from ==> held == hyphens(b@, from as int, i - 1 - (i - 1) % BLOCK as int),
            comment_end(b@, from as int, from as int) == comment_end(
                b@,
                from as int,
                i as int,
            ),
        decreases b.len() - i,
    {
        let pair: bool = i - from >= 2 && b[i - 1] == 0x2D && b[i - 2] == 0x2D;
        let mut slip: bool = false;
        if i % BLOCK == 0 && i > from {
            proof {
                let before: int = i - 1 - (i - 1) % BLOCK as int;
                assert(before == i - BLOCK);
            }
            if b[i - 1] != 0x2D {
                held = 0;
            } else if pair || held > 0 {
                held = 2;
            } else {
                held = 1;
            }
            assert(held == hyphens(b@, from as int, i as int));
            slip = held == 2;
        }
        if b[i] == 0x3E && (pair || slip) {
            return Some(i);
        }
        proof {
            assert(i % BLOCK == 0 && i <= from ==> hyphens(b@, from as int, i as int) == 0);
            let last: int = i - (i as int) % (BLOCK as int);
            if i % BLOCK != 0 && i > from {
                assert(last == i - 1 - (i - 1) % BLOCK as int);
            }
            if i == from {
                assert(hyphens(b@, from as int, last) == 0);
            }
        }
        i = i + 1;
    }
    None
}

/// Whether a declaration, by its name, can hold quotations with a bracket in
/// them: of an entity, of attributes or of a notation.
pub open spec fn quotes(b: Seq<u8>, i: int) -> bool {
    ||| stands_at(b, i, seq![0x21u8, 0x45, 0x4E, 0x54, 0x49, 0x54, 0x59])
    ||| stands_at(b, i, seq![0x21u8, 0x41, 0x54, 0x54, 0x4C, 0x49, 0x53, 0x54])
    ||| stands_at(b, i, seq![0x21u8, 0x4E, 0x4F, 0x54, 0x41, 0x54, 0x49, 0x4F, 0x4E])
}

/// The closing bracket of what begins with the bracket before `i` among the
/// declarations of a document type.
pub open spec fn declaration_end(b: Seq<u8>, i: int) -> Option<int> {
    if stands_at(b, i, seq![0x3Fu8]) {
        closing(b, i + 2, 0x3F, 1)
    } else if stands_at(b, i, comment_mark()) {
        comment_end(b, i + 3, i + 3)
    } else if quotes(b, i) {
        tag_end(b, i, 0)
    } else {
        closing(b, i, 0, 0)
    }
}

/// Where a document type is read.
#[derive(Clone, Copy, PartialEq, Eq, Structural)]
pub enum DoctypePlace {
    /// Before the declarations.
    Before,
    /// In a quotation with this mark, before the declarations.
    Quoted(u8),
    /// Among the declarations.
    Inside,
    /// Behind the declarations.
    After,
}

/// The closing bracket of a document type from `i` on.
pub open spec fn doctype_end(b: Seq<u8>, i: int, place: DoctypePlace) -> Option<int>
    decreases b.len() - i,
{
    if !(0 <= i < b.len()) {
        None
    } else {
        match place {
            DoctypePlace::Before => if b[i] == 0x3E {
                Some(i)
            } else if b[i] == 0x22 || b[i] == 0x27 {
                doctype_end(b, i + 1, DoctypePlace::Quoted(b[i]))
            } else if b[i] == 0x5B {
                doctype_end(b, i + 1, DoctypePlace::Inside)
            } else {
                doctype_end(b, i + 1, place)
            },
            DoctypePlace::Quoted(q) => doctype_end(
                b,
                i + 1,
                if b[i] == q {
                    DoctypePlace::Before
                } else {
                    place
                },
            ),
            DoctypePlace::Inside => if b[i] == 0x5D {
                doctype_end(b, i + 1, DoctypePlace::After)
            } else if b[i] == 0x3C {
                match declaration_end(b, i + 1) {
                    Some(j) => if i < j < b.len() {
                        doctype_end(b, j + 1, place)
                    } else {
                        None
                    },
                    None => None,
                }
            } else {
                doctype_end(b, i + 1, place)
            },
            DoctypePlace::After => if b[i] == 0x3E {
                Some(i)
            } else {
                doctype_end(b, i + 1, place)
            },
        }
    }
}

fn find_declaration_end(b: &[u8], i: usize) -> (r: Option<usize>)
    requires
        i <= b.len(),
    ensures
        match r {
            Some(j) => i <= j < b@.len() && declaration_end(b@, i as int) == Some(j as int),
            None => declaration_end(b@, i as int) is None,
        },
{
    let question: [u8; 1] = [0x3F];
    let comment: [u8; 3] = [0x21, 0x2D, 0x2D];
    let entity: [u8; 7] = [0x21, 0x45, 0x4E, 0x54, 0x49, 0x54, 0x59];
    let attributes: [u8; 8] = [0x21, 0x41, 0x54, 0x54, 0x4C, 0x49, 0x53, 0x54];
    let notation: [u8; 9] = [0x21, 0x4E, 0x4F, 0x54, 0x41, 0x54, 0x49, 0x4F, 0x4E];
    assert(question@ =~= seq![0x3Fu8]);
    assert(comment@ =~= comment_mark());
    assert(entity@ =~= seq![0x21u8, 0x45, 0x4E, 0x54, 0x49, 0x54, 0x59]);
    assert(attributes@ =~= seq![0x21u8, 0x41, 0x54, 0x54, 0x4C, 0x49, 0x53, 0x54]);
    assert(notation@ =~= seq![0x21u8, 0x4E, 0x4F, 0x54, 0x41, 0x54, 0x49, 0x4F, 0x4E]);
    if matches_at(b, i, question.as_slice()) {
        if b.len() - i < 2 {
            return None;
        }
        find_closing(b, i + 2, 0x3F, 1)
    } else if matches_at(b, i, comment.as_slice()) {
        find_comment_end(b, i + 3)
    } else if matches_at(b, i, entity.as_slice()) || matches_at(b, i, attributes.as_slice())
        || matches_at(b, i, notation.as_slice()) {
        find_tag_end(b, i)
    } else {
        find_closing(b, i, 0, 0)
    }
}

fn find_doctype_end(b: &[u8], from: usize) -> (r: Option<usize>)
    ensures
        match r {
            Some(j) => from <= j < b@.len() && doctype_end(b@, from as int, DoctypePlace::Before)
                == Some(j as int),
            None => doctype_end(b@, from as int, DoctypePlace::Before) is None,
        },
{
    let mut i: usize = from;
    let mut place: DoctypePlace = DoctypePlace::Before;
    while i < b.len()
        invariant
            from <= i,
            doctype_end(b@, from as int, DoctypePlace::Before) == doctype_end(b@, i as int, place),
        decreases b.len() - i,
    {
        let c: u8 = b[i];
        match place {
            DoctypePlace::Before => {
                if c == 0x3E {
                    return Some(i);
                }
                if c == 0x22 || c == 0x27 {
                    place = DoctypePlace::Quoted(c);
                } else if c == 0x5B {
                    place = DoctypePlace::Inside;
                }
            },
            DoctypePlace::Quoted(q) => {
                if c == q {
                    place = DoctypePlace::Before;
                }
            },
            DoctypePlace::Inside => {
                if c == 0x5D {
                    place = DoctypePlace::After;
                } else if c == 0x3C {
                    match find_declaration_end(b, i + 1) {
                        Some(j) => {
                            i = j;
                        },
                        None => return None,
                    }
                }
            },
            DoctypePlace::After => {
                if c == 0x3E {
                    return Some(i);
                }
            },
        }
        i = i + 1;
    }
    None
}

/// The place behind the markup that begins with the bracket at `i`, or nothing
/// where the markup does not end or is of no kind.
pub open spec fn markup_end(b: Seq<u8>, i: int) -> Option<int> {
    let last: Option<int> = if i + 1 >= b.len() {
        None
    } else if stands_at(b, i + 1, comment_mark()) {
        closing(b, i + 6, 0x2D, 2)
    } else if stands_at(b, i + 1, cdata_mark()) {
        closing(b, i + 9, 0x5D, 2)
    } else if b[i + 1] == 0x21 {
        if i + 2 < b.len() && (b[i + 2] == 0x44 || b[i + 2] == 0x64) {
            doctype_end(b, i + 2, DoctypePlace::Before)
        } else {
            None
        }
    } else if b[i + 1] == 0x3F {
        closing(b, i + 2, 0x3F, 1)
    } else {
        tag_end(b, i + 1, 0)
    };
    match last {
        Some(j) => Some(j + 1),
        None => None,
    }
}

fn find_markup_end(b: &[u8], i: usize) -> (r: Option<usize>)
    requires
        i < b.len(),
    ensures
        match r {
            Some(e) => i + 1 < e <= b@.len() && markup_end(b@, i as int) == Some(e as int),
            None => markup_end(b@, i as int) is None,
        },
{
    let comment: [u8; 3] = [0x21, 0x2D, 0x2D];
    let cdata: [u8; 8] = [0x21, 0x5B, 0x43, 0x44, 0x41, 0x54, 0x41, 0x5B];
    assert(comment@ =~= comment_mark());
    assert(cdata@ =~= cdata_mark());
    let left: usize = b.len() - i;
    if left < 2 {
        return None;
    }
    let last: Option<usize> = if matches_at(b, i + 1, comment.as_slice()) {
        if left < 6 {
            None
        } else {
            find_closing(b, i + 6, 0x2D, 2)
        }
    } else if matches_at(b, i + 1, cdata.as_slice()) {
        find_closing(b, i + 9, 0x5D, 2)
    } else if b[i + 1] == 0x21 {
        if left >= 3 && (b[i + 2] == 0x44 || b[i + 2] == 0x64) {
            find_doctype_end(b, i + 2)
        } else {
            None
        }
    } else if b[i + 1] == 0x3F {
        find_closing(b, i + 2, 0x3F, 1)
    } else {
        find_tag_end(b, i + 1)
    };
    match last {
        Some(j) => Some(j + 1),
        None => None,
    }
}

/// The first place from `i` on, and before `to`, where the byte is `c` or,
/// where `c` is zero, blank; else `to`.
pub open spec fn place_of(b: Seq<u8>, i: int, to: int, c: u8) -> int
    decreases to - i,
{
    if i >= to {
        to
    } else if b[i] == c || c == 0 && is_blank(b[i]) {
        i
    } else {
        place_of(b, i + 1, to, c)
    }
}

fn find_place(b: &[u8], from: usize, to: usize, c: u8) -> (r: usize)
    requires
        from <= to <= b.len(),
    ensures
        from <= r <= to,
        r == place_of(b@, from as int, to as int, c),
{
    let mut i: usize = from;
    while i < to
        invariant
            from <= i <= to <= b.len(),
            place_of(b@, from as int, to as int, c) == place_of(b@, i as int, to as int, c),
        decreases to - i,
    {
        if b[i] == c || c == 0 && blank(b[i]) {
            return i;
        }
        i = i + 1;
    }
    to
}

/// Whether the tag that ends before `end` is closed where it is opened.
pub open spec fn is_empty_tag(b: Seq<u8>, end: int) -> bool {
    b[end - 2] == 0x2F
}

/// The name of the element that the tag between `i` and `end` opens, without
/// a prefix.
pub open spec fn element(b: Seq<u8>, i: int, end: int) -> Seq<u8> {
    let last: int = if is_empty_tag(b, end) {
        end - 2
    } else {
        end - 1
    };
    let to: int = place_of(b, i + 1, last, 0);
    let colon: int = place_of(b, i + 1, to, 0x3A);
    b.subrange(
        if colon < to {
            colon + 1
        } else {
            i + 1
        },
        to,
    )
}

/// What an element of a list holds.
#[derive(Clone, Copy, PartialEq, Eq, Structural)]
pub enum Element {
    /// Other elements, or nothing.
    Outer,
    /// Text.
    Text,
    /// The text of a date.
    Date,
    /// No element of a list.
    Unknown,
}

/// What an element of this name holds.
pub open spec fn element_kind(name: Seq<u8>) -> Element {
    if name == seq![0x64u8, 0x61, 0x74, 0x65] {
        Element::Date
    } else if name == seq![0x6Bu8, 0x65, 0x79] || name == seq![0x64u8, 0x61, 0x74, 0x61] || name
        == seq![0x69u8, 0x6E, 0x74, 0x65, 0x67, 0x65, 0x72] || name == seq![
        0x72u8,
        0x65,
        0x61,
        0x6C,
    ] || name == seq![0x73u8, 0x74, 0x72, 0x69, 0x6E, 0x67] {
        Element::Text
    } else if name == seq![0x70u8, 0x6C, 0x69, 0x73, 0x74] || name == seq![
        0x61u8,
        0x72,
        0x72,
        0x61,
        0x79,
    ] || name == seq![0x64u8, 0x69, 0x63, 0x74] || name == seq![0x74u8, 0x72, 0x75, 0x65] || name
        == seq![0x66u8, 0x61, 0x6C, 0x73, 0x65] {
        Element::Outer
    } else {
        Element::Unknown
    }
}

fn is_word(b: &[u8], from: usize, to: usize, word: &[u8]) -> (r: bool)
    requires
        from <= to <= b.len(),
    ensures
        r == (b@.subrange(from as int, to as int) == word@),
{
    if to - from != word.len() {
        assert(b@.subrange(from as int, to as int).len() != word@.len());
        return false;
    }
    matches_at(b, from, word)
}

fn find_element_kind(b: &[u8], i: usize, end: usize) -> (r: Element)
    requires
        i + 1 < end <= b.len(),
        b@[i as int] == 0x3C,
        b@[i + 1] != 0x2F,
    ensures
        r == element_kind(element(b@, i as int, end as int)),
{
    let mut last: usize = end - 1;
    if b[end - 2] == 0x2F {
        last = end - 2;
    }
    let to: usize = find_place(b, i + 1, last, 0);
    let colon: usize = find_place(b, i + 1, to, 0x3A);
    let mut from: usize = i + 1;
    if colon < to {
        from = colon + 1;
    }
    let ghost name = element(b@, i as int, end as int);
    assert(name == b@.subrange(from as int, to as int));
    let date: [u8; 4] = [0x64, 0x61, 0x74, 0x65];
    let key: [u8; 3] = [0x6B, 0x65, 0x79];
    let data: [u8; 4] = [0x64, 0x61, 0x74, 0x61];
    let integer: [u8; 7] = [0x69, 0x6E, 0x74, 0x65, 0x67, 0x65, 0x72];
    let decimal: [u8; 4] = [0x72, 0x65, 0x61, 0x6C];
    let string: [u8; 6] = [0x73, 0x74, 0x72, 0x69, 0x6E, 0x67];
    let plist: [u8; 5] = [0x70, 0x6C, 0x69, 0x73, 0x74];
    let array: [u8; 5] = [0x61, 0x72, 0x72, 0x61, 0x79];
    let dict: [u8; 4] = [0x64, 0x69, 0x63, 0x74];
    let yes: [u8; 4] = [0x74, 0x72, 0x75, 0x65];
    let no: [u8; 5] = [0x66, 0x61, 0x6C, 0x73, 0x65];
    assert(date@ =~= seq![0x64u8, 0x61, 0x74, 0x65]);
    assert(key@ =~= seq![0x6Bu8, 0x65, 0x79]);
    assert(data@ =~= seq![0x64u8, 0x61, 0x74, 0x61]);
    assert(integer@ =~= seq![0x69u8, 0x6E, 0x74, 0x65, 0x67, 0x65, 0x72]);
    assert(decimal@ =~= seq![0x72u8, 0x65, 0x61, 0x6C]);
    assert(string@ =~= seq![0x73u8, 0x74, 0x72, 0x69, 0x6E, 0x67]);
    assert(plist@ =~= seq![0x70u8, 0x6C, 0x69, 0x73, 0x74]);
    assert(array@ =~= seq![0x61u8, 0x72, 0x72, 0x61, 0x79]);
    assert(dict@ =~= seq![0x64u8, 0x69, 0x63, 0x74]);
    assert(yes@ =~= seq![0x74u8, 0x72, 0x75, 0x65]);
    assert(no@ =~= seq![0x66u8, 0x61, 0x6C, 0x73, 0x65]);
    if is_word(b, from, to, date.as_slice()) {
        Element::Date
    } else if is_word(b, from, to, key.as_slice()) || is_word(b, from, to, data.as_slice())
        || is_word(b, from, to, integer.as_slice()) || is_word(b, from, to, decimal.as_slice())
        || is_word(b, from, to, string.as_slice()) {
        Element::Text
    } else if is_word(b, from, to, plist.as_slice()) || is_word(b, from, to, array.as_slice())
        || is_word(b, from, to, dict.as_slice()) || is_word(b, from, to, yes.as_slice())
        || is_word(b, from, to, no.as_slice()) {
        Element::Outer
    } else {
        Element::Unknown
    }
}

/// The first semicolon from `i` on, if no ampersand or bracket is before it.
pub open spec fn semicolon(b: Seq<u8>, i: int) -> Option<int>
    decreases b.len() - i,
{
    if !(0 <= i < b.len()) || b[i] == 0x26 || b[i] == 0x3C {
        None
    } else if b[i] == 0x3B {
        Some(i)
    } else {
        semicolon(b, i + 1)
    }
}

fn find_semicolon(b: &[u8], from: usize) -> (r: Option<usize>)
    ensures
        match r {
            Some(j) => from <= j < b@.len() && semicolon(b@, from as int) == Some(j as int),
            None => semicolon(b@, from as int) is None,
        },
{
    let mut i: usize = from;
    while i < b.len()
        invariant
            from <= i,
            semicolon(b@, from as int) == semicolon(b@, i as int),
        decreases b.len() - i,
    {
        if b[i] == 0x26 || b[i] == 0x3C {
            return None;
        }
        if b[i] == 0x3B {
            return Some(i);
        }
        i = i + 1;
    }
    None
}

/// What a digit counts for, in decimal or hexadecimal notation.
pub open spec fn digit(c: u8, hex: bool) -> Option<int> {
    if 0x30 <= c <= 0x39 {
        Some(c - 0x30)
    } else if hex && 0x41 <= c <= 0x46 {
        Some(c - 0x37)
    } else if hex && 0x61 <= c <= 0x66 {
        Some(c - 0x57)
    } else {
        None
    }
}

/// The number that the digits from `i` to `to` write, if it is no greater
/// than the greatest code of a character.
pub open spec fn number(b: Seq<u8>, i: int, to: int, hex: bool) -> Option<int>
    decreases to - i,
{
    if to <= i {
        Some(0)
    } else {
        match (number(b, i, to - 1, hex), digit(b[to - 1], hex)) {
            (Some(n), Some(d)) => {
                let m: int = n * (if hex {
                    16int
                } else {
                    10int
                }) + d;
                if m <= 0x10FFFF {
                    Some(m)
                } else {
                    None
                }
            },
            _ => None,
        }
    }
}

/// Numbers that do not fit stay so.
proof fn no_number_stays(b: Seq<u8>, i: int, mid: int, to: int, hex: bool)
    requires
        i <= mid <= to,
        number(b, i, mid, hex) is None,
    ensures
        number(b, i, to, hex) is None,
    decreases to - mid,
{
    if mid < to {
        no_number_stays(b, i, mid, to - 1, hex);
    }
}

fn read_number(b: &[u8], from: usize, to: usize, hex: bool) -> (r: Option<u32>)
    requires
        from <= to <= b.len(),
    ensures
        match r {
            Some(n) => n <= 0x10FFFF && number(b@, from as int, to as int, hex) == Some(n as int),
            None => number(b@, from as int, to as int, hex) is None,
        },
{
    let mut n: u32 = 0;
    let mut i: usize = from;
    while i < to
        invariant
            from <= i <= to <= b.len(),
            n <= 0x10FFFF,
            number(b@, from as int, i as int, hex) == Some(n as int),
        decreases to - i,
    {
        let c: u8 = b[i];
        let mut d: u32 = 16;
        if 0x30 <= c && c <= 0x39 {
            d = (c - 0x30) as u32;
        } else if hex && 0x41 <= c && c <= 0x46 {
            d = (c - 0x37) as u32;
        } else if hex && 0x61 <= c && c <= 0x66 {
            d = (c - 0x57) as u32;
        }
        let mut m: u32 = n * 10 + d;
        if hex {
            m = n * 16 + d;
        }
        if d == 16 || m > 0x10FFFF {
            proof {
                no_number_stays(b@, from as int, i + 1, to as int, hex);
            }
            return None;
        }
        n = m;
        i = i + 1;
    }
    Some(n)
}

/// The code of the character that a reference between `i` and `to` names by
/// number, if there is one.
pub open spec fn coded(b: Seq<u8>, i: int, to: int) -> Option<int> {
    let hex: bool = i < to && b[i] == 0x78;
    let from: int = if hex {
        i + 1
    } else {
        i
    };
    match number(b, from, to, hex) {
        Some(n) => if n == 0 || 0xD800 <= n <= 0xDFFF {
            None
        } else {
            Some(n)
        },
        None => None,
    }
}

/// What a reference by name between `i` and `to` stands for: nothing, where
/// the name is not known.
pub open spec fn named(b: Seq<u8>, i: int, to: int) -> Seq<u32> {
    let name: Seq<u8> = b.subrange(i, to);
    if name == seq![0x6Cu8, 0x74] {
        seq![0x3Cu32]
    } else if name == seq![0x67u8, 0x74] {
        seq![0x3Eu32]
    } else if name == seq![0x61u8, 0x6D, 0x70] {
        seq![0x26u32]
    } else if name == seq![0x61u8, 0x70, 0x6F, 0x73] {
        seq![0x27u32]
    } else if name == seq![0x71u8, 0x75, 0x6F, 0x74] {
        seq![0x22u32]
    } else {
        seq![]
    }
}

/// What the reference that begins with the ampersand at `i` stands for, and
/// the place behind it.
pub open spec fn reference(b: Seq<u8>, i: int) -> Option<(Seq<u32>, int)> {
    match semicolon(b, i + 1) {
        Some(j) => if i + 1 < j && b[i + 1] == 0x23 {
            match coded(b, i + 2, j) {
                Some(n) => Some((seq![n as u32], j + 1)),
                None => None,
            }
        } else {
            Some((named(b, i + 1, j), j + 1))
        },
        None => None,
    }
}

/// A reference as it is read: the code of its character, or nothing, and the
/// place behind it.
struct Reference {
    code: Option<u32>,
    end: usize,
}

/// The codes that a reference adds to a text.
spec fn codes(code: Option<u32>) -> Seq<u32> {
    match code {
        Some(c) => seq![c],
        None => seq![],
    }
}

fn read_named(b: &[u8], from: usize, to: usize) -> (r: Option<u32>)
    requires
        from <= to <= b.len(),
    ensures
        codes(r) == named(b@, from as int, to as int),
{
    let lt: [u8; 2] = [0x6C, 0x74];
    let gt: [u8; 2] = [0x67, 0x74];
    let amp: [u8; 3] = [0x61, 0x6D, 0x70];
    let apos: [u8; 4] = [0x61, 0x70, 0x6F, 0x73];
    let quot: [u8; 4] = [0x71, 0x75, 0x6F, 0x74];
    assert(lt@ =~= seq![0x6Cu8, 0x74]);
    assert(gt@ =~= seq![0x67u8, 0x74]);
    assert(amp@ =~= seq![0x61u8, 0x6D, 0x70]);
    assert(apos@ =~= seq![0x61u8, 0x70, 0x6F, 0x73]);
    assert(quot@ =~= seq![0x71u8, 0x75, 0x6F, 0x74]);
    if is_word(b, from, to, lt.as_slice()) {
        Some(0x3C)
    } else if is_word(b, from, to, gt.as_slice()) {
        Some(0x3E)
    } else if is_word(b, from, to, amp.as_slice()) {
        Some(0x26)
    } else if is_word(b, from, to, apos.as_slice()) {
        Some(0x27)
    } else if is_word(b, from, to, quot.as_slice()) {
        Some(0x22)
    } else {
        None
    }
}

fn read_reference(b: &[u8], i: usize) -> (r: Option<Reference>)
    requires
        i < b.len(),
    ensures
        match r {
            Some(x) => i < x.end <= b@.len() && reference(b@, i as int) == Some(
                (codes(x.code), x.end as int),
            ),
            None => reference(b@, i as int) is None,
        },
{
    match find_semicolon(b, i + 1) {
        Some(j) => {
            if i + 1 < j && b[i + 1] == 0x23 {
                let hex: bool = i + 2 < j && b[i + 2] == 0x78;
                let mut from: usize = i + 2;
                if hex {
                    from = i + 3;
                }
                match read_number(b, from, j, hex) {
                    Some(n) => {
                        if n == 0 || (0xD800 <= n && n <= 0xDFFF) {
                            None
                        } else {
                            Some(Reference { code: Some(n), end: j + 1 })
                        }
                    },
                    None => None,
                }
            } else {
                Some(Reference { code: read_named(b, i + 1, j), end: j + 1 })
            }
        },
        None => None,
    }
}

/// Whether a character is white space, by its code.
pub open spec fn is_space(c: u32) -> bool {
    ||| 0x09 <= c <= 0x0D
    ||| c == 0x20 || c == 0x85 || c == 0xA0 || c == 0x1680
    ||| 0x2000 <= c <= 0x200A
    ||| c == 0x2028 || c == 0x2029 || c == 0x202F || c == 0x205F || c == 0x3000
}

fn space(c: u32) -> (r: bool)
    ensures
        r == is_space(c),
{
    (0x09 <= c && c <= 0x0D) || c == 0x20 || c == 0x85 || c == 0xA0 || c == 0x1680 || (0x2000 <= c
        && c <= 0x200A) || c == 0x2028 || c == 0x2029 || c == 0x202F || c == 0x205F || c == 0x3000
}

/// How many bytes at `i` write a character that is white space; none, where
/// another character or no text is there.
pub open spec fn space_at(b: Seq<u8>, i: int) -> int {
    if i < b.len() && b[i] < 0x80 && is_space(b[i] as u32) {
        1
    } else if i + 1 < b.len() && b[i] == 0xC2 && (b[i + 1] == 0x85 || b[i + 1] == 0xA0) {
        2
    } else if i + 2 < b.len() && (b[i] == 0xE1 && b[i + 1] == 0x9A && b[i + 2] == 0x80 || b[i]
        == 0xE2 && b[i + 1] == 0x80 && (0x80 <= b[i + 2] <= 0x8A || b[i + 2] == 0xA8 || b[i + 2]
        == 0xA9 || b[i + 2] == 0xAF) || b[i] == 0xE2 && b[i + 1] == 0x81 && b[i + 2] == 0x9F || b[i]
        == 0xE3 && b[i + 1] == 0x80 && b[i + 2] == 0x80) {
        3
    } else {
        0
    }
}

fn find_space(b: &[u8], i: usize) -> (r: usize)
    requires
        i < b.len(),
    ensures
        r == space_at(b@, i as int),
        i + r <= b@.len(),
{
    let left: usize = b.len() - i;
    let c: u8 = b[i];
    if c < 0x80 {
        if space(c as u32) {
            return 1;
        }
        return 0;
    }
    if left >= 2 && c == 0xC2 && (b[i + 1] == 0x85 || b[i + 1] == 0xA0) {
        return 2;
    }
    if left >= 3 {
        let d: u8 = b[i + 1];
        let e: u8 = b[i + 2];
        if (c == 0xE1 && d == 0x9A && e == 0x80) || (c == 0xE2 && d == 0x80 && ((0x80 <= e && e
            <= 0x8A) || e == 0xA8 || e == 0xA9 || e == 0xAF)) || (c == 0xE2 && d == 0x81 && e
            == 0x9F) || (c == 0xE3 && d == 0x80 && e == 0x80) {
            return 3;
        }
    }
    0
}

/// The text of the element whose tag ends before `i`, behind what is already
/// read of it, and the place behind the element. Comments and the like are
/// passed over. There is no such text where another element begins in it, or
/// where it does not end.
pub open spec fn content(b: Seq<u8>, i: int, read: Seq<u32>) -> Option<(Seq<u32>, int)>
    decreases b.len() - i,
{
    if !(0 <= i < b.len()) {
        None
    } else if b[i] == 0x3C {
        match markup_end(b, i) {
            Some(e) => if !(i < e <= b.len()) {
                None
            } else if b[i + 1] == 0x2F {
                Some((read, e))
            } else if b[i + 1] == 0x21 || b[i + 1] == 0x3F {
                content(b, e, read)
            } else {
                None
            },
            None => None,
        }
    } else if b[i] == 0x26 {
        match reference(b, i) {
            Some((t, e)) => if i < e <= b.len() {
                content(b, e, read + t)
            } else {
                None
            },
            None => None,
        }
    } else {
        content(b, i + 1, read.push(b[i] as u32))
    }
}

/// The content of an element, as it is read.
struct Content {
    text: Vec<u32>,
    end: usize,
}

fn read_content(b: &[u8], from: usize) -> (r: Option<Content>)
    ensures
        match r {
            Some(x) => from < x.end <= b@.len() && content(b@, from as int, seq![]) == Some(
                (x.text@, x.end as int),
            ),
            None => content(b@, from as int, seq![]) is None,
        },
{
    let mut text: Vec<u32> = Vec::new();
    let mut i: usize = from;
    while i < b.len()
        invariant
            from <= i,
            content(b@, from as int, seq![]) == content(b@, i as int, text@),
        decreases b.len() - i,
    {
        let c: u8 = b[i];
        if c == 0x3C {
            match find_markup_end(b, i) {
                Some(e) => {
                    if b[i + 1] == 0x2F {
                        return Some(Content { text, end: e });
                    }
                    if b[i + 1] != 0x21 && b[i + 1] != 0x3F {
                        return None;
                    }
                    i = e;
                },
                None => return None,
            }
        } else if c == 0x26 {
            match read_reference(b, i) {
                Some(x) => {
                    let ghost before = text@;
                    match x.code {
                        Some(n) => {
                            text.push(n);
                        },
                        None => {},
                    }
                    assert(text@ =~= before + codes(x.code));
                    i = x.end;
                },
                None => return None,
            }
        } else {
            text.push(c as u32);
            i = i + 1;
        }
    }
    None
}

/// The minutes that a time of day, or an offset, counts: two digits for the
/// hours at `i`, and two for the minutes behind a colon.
pub open spec fn minutes(t: Seq<u32>, i: int) -> int {
    (t[i] * 10 + t[i + 1] - 528) * 60 + (t[i + 3] * 10 + t[i + 4] - 528)
}

/// The first day of the year 0.
pub open spec fn first_day() -> Seq<u32> {
    seq![0x30u32, 0x30, 0x30, 0x30, 0x2D, 0x30, 0x31, 0x2D, 0x30, 0x31]
}

/// The last day of the year 9999.
pub open spec fn last_day() -> Seq<u32> {
    seq![0x39u32, 0x39, 0x39, 0x39, 0x2D, 0x31, 0x32, 0x2D, 0x33, 0x31]
}

/// Whether the date that a text writes has a year of four digits in UTC. It
/// has none where the first day is that of a clock ahead of UTC, and in UTC
/// the day before, or the last day that of a clock behind UTC, and in UTC the
/// day after. The offset is written at the end.
pub open spec fn text_fits(t: Seq<u32>) -> bool {
    let n: int = t.len() as int;
    t.len() >= 25 ==> {
        &&& t.take(10) == first_day() && t[n - 6] == 0x2B ==> minutes(t, 11) >= minutes(t, n - 5)
        &&& t.take(10) == last_day() && t[n - 6] == 0x2D ==> minutes(t, 11) + minutes(t, n - 5)
            < 1440
    }
}

fn read_minutes(t: &Vec<u32>, i: usize) -> (r: i64)
    requires
        i + 5 <= t.len(),
    ensures
        r == minutes(t@, i as int),
        -0x1_0000_0000_0000 < r < 0x1_0000_0000_0000,
{
    (t[i] as i64 * 10 + t[i + 1] as i64 - 528) * 60 + (t[i + 3] as i64 * 10 + t[i + 4] as i64 - 528)
}

fn is_day(t: &Vec<u32>, day: &[u32]) -> (r: bool)
    requires
        t@.len() >= 10,
        day@.len() == 10,
    ensures
        r == (t@.take(10) == day@),
{
    let mut i: usize = 0;
    while i < 10
        invariant
            i <= 10,
            t@.len() >= 10,
            day@.len() == 10,
            forall|j: int| 0 <= j < i ==> t@[j] == day@[j],
        decreases 10 - i,
    {
        if t[i] != day[i] {
            assert(t@.take(10)[i as int] != day@[i as int]);
            return false;
        }
        i = i + 1;
    }
    assert(t@.take(10) =~= day@);
    true
}

fn check_text(t: &Vec<u32>) -> (fits: bool)
    ensures
        fits == text_fits(t@),
{
    let n: usize = t.len();
    if n < 25 {
        return true;
    }
    let first: [u32; 10] = [0x30, 0x30, 0x30, 0x30, 0x2D, 0x30, 0x31, 0x2D, 0x30, 0x31];
    let last: [u32; 10] = [0x39, 0x39, 0x39, 0x39, 0x2D, 0x31, 0x32, 0x2D, 0x33, 0x31];
    assert(first@ =~= first_day());
    assert(last@ =~= last_day());
    let time: i64 = read_minutes(t, 11);
    let offset: i64 = read_minutes(t, n - 5);
    if t[n - 6] == 0x2B && is_day(t, first.as_slice()) {
        assert(first_day()[0] != last_day()[0]);
        return time >= offset;
    }
    if t[n - 6] == 0x2D && is_day(t, last.as_slice()) {
        return time + offset < 1440;
    }
    true
}

/// Whether every date that is read from `i` on has a year of four digits.
/// Reading ends at markup that does not end, and at a reference, a text or an
/// element that a list cannot have there. What other faults a list may have,
/// such as end tags without a beginning, makes no difference here: no list is
/// read from it.
pub open spec fn rest_fits(b: Seq<u8>, i: int) -> bool
    decreases b.len() - i,
{
    if !(0 <= i < b.len()) {
        true
    } else if b[i] == 0x3C {
        match markup_end(b, i) {
            Some(e) => if !(i < e <= b.len()) {
                true
            } else if b[i + 1] == 0x2F || b[i + 1] == 0x21 || b[i + 1] == 0x3F {
                rest_fits(b, e)
            } else {
                let kind: Element = element_kind(element(b, i, e));
                if kind == Element::Unknown {
                    true
                } else if kind == Element::Outer || is_empty_tag(b, e) {
                    rest_fits(b, e)
                } else {
                    match content(b, e, seq![]) {
                        Some((t, f)) => if !(e < f <= b.len()) {
                            true
                        } else {
                            (kind == Element::Date ==> text_fits(t)) && rest_fits(b, f)
                        },
                        None => true,
                    }
                }
            },
            None => true,
        }
    } else if b[i] == 0x26 {
        match reference(b, i) {
            Some((t, e)) => if i < e <= b.len() && t.len() == 1 && is_space(t[0]) {
                rest_fits(b, e)
            } else {
                true
            },
            None => true,
        }
    } else if space_at(b, i) > 0 {
        rest_fits(b, i + space_at(b, i))
    } else {
        true
    }
}

/// The mark that a text may begin with, to say that it is UTF-8.
pub open spec fn order_mark() -> Seq<u8> {
    seq![0xEFu8, 0xBB, 0xBF]
}

/// Whether every date that is read in an XML list has a year of four digits.
pub open spec fn fit(b: Seq<u8>) -> bool {
    rest_fits(
        b,
        if stands_at(b, 0, order_mark()) {
            3
        } else {
            0
        },
    )
}

/// Whether every date that is read in an XML list has a year of four digits.
pub fn check(b: &[u8]) -> (fits: bool)
    ensures
        fits == fit(b@),
{
    let mark: [u8; 3] = [0xEF, 0xBB, 0xBF];
    assert(mark@ =~= order_mark());
    let mut i: usize = 0;
    if matches_at(b, 0, mark.as_slice()) {
        i = 3;
    }
    while i < b.len()
        invariant
            fit(b@) == rest_fits(b@, i as int),
        decreases b.len() - i,
    {
        let c: u8 = b[i];
        if c == 0x3C {
            match find_markup_end(b, i) {
                Some(e) => {
                    if b[i + 1] == 0x2F || b[i + 1] == 0x21 || b[i + 1] == 0x3F {
                        i = e;
                    } else {
                        let kind: Element = find_element_kind(b, i, e);
                        if kind == Element::Unknown {
                            return true;
                        }
                        if kind == Element::Outer || b[e - 2] == 0x2F {
                            i = e;
                        } else {
                            match read_content(b, e) {
                                Some(x) => {
                                    if kind == Element::Date && !check_text(&x.text) {
                                        return false;
                                    }
                                    i = x.end;
                                },
                                None => return true,
                            }
                        }
                    }
                },
                None => return true,
            }
        } else if c == 0x26 {
            match read_reference(b, i) {
                Some(x) => match x.code {
                    Some(n) => {
                        if !space(n) {
                            return true;
                        }
                        i = x.end;
                    },
                    None => return true,
                },
                None => return true,
            }
        } else {
            let n: usize = find_space(b, i);
            if n == 0 {
                return true;
            }
            i = i + n;
        }
    }
    true
}

/// A date is in range unless it is that of the first day, by a clock that is
/// further ahead of UTC than the day is old, or that of the last day, by a
/// clock that is further behind than what is left of it.
pub proof fn clocks_decide_at_the_ends(
    t: Seq<u32>,
    hour: u32,
    minute: u32,
    off_hour: u32,
    off_minute: u32,
)
    requires
        t.len() == 25,
        hour < 100 && minute < 100 && off_hour < 100 && off_minute < 100,
        t[11] == 48 + hour / 10 && t[12] == 48 + hour % 10,
        t[14] == 48 + minute / 10 && t[15] == 48 + minute % 10,
        t[20] == 48 + off_hour / 10 && t[21] == 48 + off_hour % 10,
        t[23] == 48 + off_minute / 10 && t[24] == 48 + off_minute % 10,
    ensures
        t.take(10) == seq![48u32, 48, 48, 48, 45, 48, 49, 45, 48, 49] && t[19] == 43
            ==> text_fits(t) == (60 * hour + minute >= 60 * off_hour + off_minute),
        t.take(10) == seq![57u32, 57, 57, 57, 45, 49, 50, 45, 51, 49] && t[19] == 45
            ==> text_fits(t) == (60 * hour + minute + 60 * off_hour + off_minute < 24 * 60),
        t[0] != 48 && t[0] != 57 ==> text_fits(t),
        t[19] != 43 && t[19] != 45 ==> text_fits(t),
{
    assert(t.take(10)[0] == t[0]);
    assert(first_day()[0] == 48 && last_day()[0] == 57);
    assert(minutes(t, 11) == 60 * hour + minute);
    assert(minutes(t, 20) == 60 * off_hour + off_minute);
}

/// A date in UTC is in range.
pub proof fn dates_in_utc_are_in_range(t: Seq<u32>)
    requires
        t.len() < 25,
    ensures
        text_fits(t),
{
}

} // verus!

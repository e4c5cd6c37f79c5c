//! Device identifiers that may become file names, and who may connect.
use crate::text;
use crate::text::{
    byte_len, chars_of, contains_char, joined, lines, parse_number, same, split, trim,
    trim_back_char,
};
use vstd::prelude::*;

verus! {

/// The most bytes that a device identifier may have.
pub const MAX_UDID_LEN: usize = 64;

/// Whether `c` may stand in a device identifier: a hexadecimal digit or a
/// dash.
pub open spec fn is_udid_char(c: char) -> bool {
    '0' <= c <= '9' || 'a' <= c <= 'f' || 'A' <= c <= 'F' || c == '-'
}

/// Whether `c` may stand in a device identifier.
fn udid_char(c: char) -> (b: bool)
    ensures
        b == is_udid_char(c),
{
    let n: u32 = c as u32;
    (48 <= n && n <= 57) || (97 <= n && n <= 102) || (65 <= n && n <= 70) || n == 45
}

/// An identifier as it is meant: without white space around it, and without
/// the zeros that a descriptor can leave at its end.
pub open spec fn udid_core(s: Seq<char>) -> Seq<char> {
    text::without_back(text::trimmed(s), '\0')
}

/// An identifier without white space around it and zeros at its end.
pub fn core_of_udid(s: &str) -> (r: String)
    ensures
        r@ == udid_core(s@),
{
    trim_back_char(trim(s).as_str(), '\0')
}

/// Whether every character may stand in a device identifier.
pub open spec fn all_udid_chars(s: Seq<char>) -> bool {
    forall|i: int| 0 <= i < s.len() ==> is_udid_char(#[trigger] s[i])
}

/// What is wrong with a device identifier.
pub open spec fn udid_fault(s: Seq<char>) -> Option<Seq<char>> {
    let core = udid_core(s);
    if core.len() == 0 {
        Some("UDID is empty"@)
    } else if text::utf8_len(core) > MAX_UDID_LEN {
        Some("UDID too long"@)
    } else if !all_udid_chars(core) {
        Some("UDID contains invalid characters"@)
    } else {
        None
    }
}

/// Checks a device identifier: not empty, not too long, and nothing but
/// hexadecimal digits and dashes, so that nothing in it can lead a file name
/// elsewhere.
pub fn validate_udid(udid: &str) -> (r: Result<(), &'static str>)
    ensures
        match r {
            Ok(_) => udid_fault(udid@) is None,
            Err(m) => udid_fault(udid@) == Some(m@),
        },
{
    let core = core_of_udid(udid);
    if core.as_str().is_empty() {
        return Err("UDID is empty");
    }
    if byte_len(core.as_str()) > MAX_UDID_LEN {
        return Err("UDID too long");
    }
    let cs = chars_of(core.as_str());
    let mut i: usize = 0;
    while i < cs.len()
        invariant
            cs@ == udid_core(udid@),
            cs@.len() > 0,
            text::utf8_len(cs@) <= MAX_UDID_LEN,
            i <= cs@.len(),
            forall|j: int| 0 <= j < i ==> is_udid_char(#[trigger] cs@[j]),
        decreases cs@.len() - i,
    {
        if !udid_char(cs[i]) {
            assert(!is_udid_char(cs@[i as int]));
            return Err("UDID contains invalid characters");
        }
        i = i + 1;
    }
    Ok(())
}

/// The file name that an identifier may be used for, if any.
pub open spec fn safe_name(s: Seq<char>) -> Option<Seq<char>> {
    if udid_fault(s) is None {
        Some(udid_core(s))
    } else {
        None
    }
}

/// An identifier made fit for a file name, or `None` if it is invalid.
pub fn sanitize_udid_for_path(udid: &str) -> (r: Option<String>)
    ensures
        text::opt_view(r) == safe_name(udid@),
{
    match validate_udid(udid) {
        Ok(_) => Some(core_of_udid(udid)),
        Err(_) => None,
    }
}

/// Whether `c` could lead a file name elsewhere.
pub open spec fn is_path_char(c: char) -> bool {
    c == '/' || c == '\\' || c == '.'
}

/// A valid identifier holds nothing that could lead a file name elsewhere:
/// no slash, no backslash and no dot, so no parent directory either.
pub proof fn valid_udid_has_no_path_characters(s: Seq<char>)
    requires
        udid_fault(s) is None,
    ensures
        forall|i: int| 0 <= i < udid_core(s).len() ==> !is_path_char(#[trigger] udid_core(s)[i]),
        !text::contains_text(udid_core(s), ".."@),
{
    reveal_strlit("..");
    let core = udid_core(s);
    assert forall|i: int| 0 <= i < core.len() implies !is_path_char(#[trigger] core[i]) by {
        assert(is_udid_char(core[i]));
    }
    if text::contains_text(core, ".."@) {
        let i = choose|i: int| text::stands_at(core, i, ".."@);
        assert(core.subrange(i, i + 2)[0] == '.');
        assert(!is_path_char(core[i]));
    }
}

/// The name that an identifier is made into has one to 64 bytes, nothing but
/// hexadecimal digits and dashes, and so nothing that could lead it elsewhere.
pub proof fn safe_names_have_no_path_characters(s: Seq<char>)
    requires
        safe_name(s) is Some,
    ensures
        ({
            let name = safe_name(s).unwrap();
            &&& name.len() > 0
            &&& text::utf8_len(name) <= MAX_UDID_LEN
            &&& all_udid_chars(name)
            &&& forall|i: int| 0 <= i < name.len() ==> !is_path_char(#[trigger] name[i])
        }),
{
    valid_udid_has_no_path_characters(s);
}

/// An identifier has a file name if and only if it is valid: itself, without
/// what stands around it.
pub proof fn valid_udid_has_a_safe_name(s: Seq<char>)
    ensures
        safe_name(s) is Some <==> udid_fault(s) is None,
        safe_name(s) is Some ==> safe_name(s) == Some(udid_core(s)),
{
}

/// Whether an identifier is one of 24 bytes written without a dash.
pub open spec fn lacks_dash(core: Seq<char>) -> bool {
    text::utf8_len(core) == 24 && !core.contains('-')
}

/// Whether the dash has a place: after the first eight bytes, where a
/// character must end.
pub open spec fn dash_has_place(core: Seq<char>) -> bool {
    lacks_dash(core) ==> vstd::utf8::is_char_boundary(vstd::utf8::encode_utf8(core), 8)
}

/// The identifier with the dash that newer devices have after the first
/// eight bytes; any other identifier as it is.
pub open spec fn dashed(core: Seq<char>) -> Seq<char> {
    if lacks_dash(core) {
        let b = vstd::utf8::encode_utf8(core);
        vstd::utf8::decode_utf8(b.subrange(0, 8)) + "-"@ + vstd::utf8::decode_utf8(
            b.subrange(8, b.len() as int),
        )
    } else {
        core
    }
}

/// The identifier with the dash that newer devices have.
pub fn dashed_udid(core: &str) -> (r: String)
    requires
        dash_has_place(core@),
    ensures
        r@ == dashed(core@),
{
    if byte_len(core) == 24 && !contains_char(core, '-') {
        let (front, back) = core.split_at(8);
        proof {
            vstd::utf8::encode_utf8_decode_utf8(front@);
            vstd::utf8::encode_utf8_decode_utf8(back@);
        }
        let mut r = joined(front, "-");
        r.append(back);
        r
    } else {
        core.to_owned()
    }
}

/// Whether the identifier can be given its dash.
pub fn can_be_dashed(core: &str) -> (b: bool)
    ensures
        b == dash_has_place(core@),
{
    byte_len(core) != 24 || contains_char(core, '-') || core.is_char_boundary(8)
}

/// A valid identifier has a place for the dash, and of 24 characters without
/// one the first eight come before it.
pub proof fn valid_udid_can_be_dashed(core: Seq<char>)
    requires
        all_udid_chars(core),
    ensures
        dash_has_place(core),
        text::utf8_len(core) == core.len(),
        dashed(core) == if core.len() == 24 && !core.contains('-') {
            core.take(8) + "-"@ + core.skip(8)
        } else {
            core
        },
{
    assert(vstd::utf8::is_ascii_chars(core)) by {
        assert forall|i: int| 0 <= i < core.len() implies '\0' <= #[trigger] core[i] <= '\u{7f}' by {
            assert(is_udid_char(core[i]));
        }
    }
    vstd::utf8::is_ascii_chars_encode_utf8(core);
    if lacks_dash(core) {
        let b = vstd::utf8::encode_utf8(core);
        vstd::utf8::encode_utf8_valid_utf8(core);
        assert(b[8] == core[8] as u8);
        assert(is_udid_char(core[8]));
        vstd::utf8::is_char_boundary_iff_not_is_continuation_byte(b, 8);
        let front = core.take(8);
        let back = core.skip(8);
        assert(vstd::utf8::is_ascii_chars(front)) by {
            assert forall|i: int| 0 <= i < front.len() implies '\0' <= #[trigger] front[i]
                <= '\u{7f}' by {
                assert(front[i] == core[i]);
            }
        }
        assert(vstd::utf8::is_ascii_chars(back)) by {
            assert forall|i: int| 0 <= i < back.len() implies '\0' <= #[trigger] back[i]
                <= '\u{7f}' by {
                assert(back[i] == core[i + 8]);
            }
        }
        vstd::utf8::is_ascii_chars_encode_utf8(front);
        vstd::utf8::is_ascii_chars_encode_utf8(back);
        assert(b.subrange(0, 8) =~= vstd::utf8::encode_utf8(front)) by {
            assert forall|i: int| 0 <= i < 8 implies b.subrange(0, 8)[i]
                == vstd::utf8::encode_utf8(front)[i] by {
                assert(b[i] == core[i] as u8);
                assert(vstd::utf8::encode_utf8(front)[i] == front[i] as u8);
            }
        }
        assert(b.subrange(8, b.len() as int) =~= vstd::utf8::encode_utf8(back)) by {
            assert forall|i: int| 0 <= i < 16 implies b.subrange(8, b.len() as int)[i]
                == vstd::utf8::encode_utf8(back)[i] by {
                assert(b[i + 8] == core[i + 8] as u8);
                assert(vstd::utf8::encode_utf8(back)[i] == back[i] as u8);
            }
        }
        vstd::utf8::encode_utf8_decode_utf8(front);
        vstd::utf8::encode_utf8_decode_utf8(back);
    }
}

/// The group number that a line of the group database gives for `name`.
pub open spec fn group_line_gid(line: Seq<char>, name: Seq<char>) -> Option<int> {
    let fields = text::parts(line, ':');
    if fields.len() >= 3 && fields[0] == name {
        match text::number(fields[2], 10, u32::MAX as int) {
            Ok(n) => Some(n),
            Err(_) => None,
        }
    } else {
        None
    }
}

/// The group number from the first line that gives one for `name`.
pub open spec fn group_gid(lines: Seq<Seq<char>>, name: Seq<char>) -> Option<int>
    decreases lines.len(),
{
    if lines.len() == 0 {
        None
    } else if group_line_gid(lines[0], name) is Some {
        group_line_gid(lines[0], name)
    } else {
        group_gid(lines.skip(1), name)
    }
}

/// Looks a group's number up in the text of the group database.
pub fn find_group_gid(content: &str, name: &str) -> (r: Option<u32>)
    ensures
        match r {
            Some(g) => group_gid(text::lines_of(content@), name@) == Some(g as int),
            None => group_gid(text::lines_of(content@), name@) is None,
        },
{
    let all = lines(content);
    let ghost views = text::text_views(all@);
    let mut i: usize = 0;
    assert(views.skip(0) =~= views);
    while i < all.len()
        invariant
            views == text::text_views(all@),
            views == text::lines_of(content@),
            i <= all@.len(),
            group_gid(views.skip(i as int), name@) == group_gid(views, name@),
        decreases all@.len() - i,
    {
        assert(views[i as int] == all@[i as int]@);
        assert(views.skip(i as int)[0] == views[i as int]);
        assert(views.skip(i as int).skip(1) =~= views.skip(i + 1));
        let fields = split(all[i].as_str(), ':');
        let ghost fv = text::text_views(fields@);
        if fields.len() >= 3 {
            assert(fv[0] == fields@[0]@);
            assert(fv[2] == fields@[2]@);
            if same(fields[0].as_str(), name) {
                if let Ok(gid) = parse_number(fields[2].as_str(), 10, u32::MAX) {
                    return Some(gid);
                }
            }
        }
        i = i + 1;
    }
    None
}

/// Who is at the other end of a unix socket.
#[derive(Debug, Clone, Copy, PartialEq, Eq, Structural)]
pub struct PeerCredentials {
    pub uid: u32,
    pub gid: u32,
    pub pid: Option<u32>,
}

impl PeerCredentials {
    /// The credentials that the kernel reports. A process number of zero or
    /// less means that it is unknown.
    pub fn from_ucred(pid: i32, uid: u32, gid: u32) -> (c: Self)
        ensures
            c.uid == uid,
            c.gid == gid,
            c.pid == (if pid > 0 {
                Some(pid as u32)
            } else {
                None
            }),
    {
        PeerCredentials {
            uid,
            gid,
            pid: if pid > 0 {
                Some(pid as u32)
            } else {
                None
            },
        }
    }

    /// Whether this peer is on the list. An empty list admits everyone.
    pub fn is_allowed(&self, allowed_uids: &[u32]) -> (b: bool)
        ensures
            b == (allowed_uids@.len() == 0 || allowed_uids@.contains(self.uid)),
    {
        if allowed_uids.len() == 0 {
            return true;
        }
        contains_uid(allowed_uids, self.uid)
    }
}

/// Whether `uid` is on the list.
pub fn contains_uid(list: &[u32], uid: u32) -> (b: bool)
    ensures
        b == list@.contains(uid),
{
    let mut i: usize = 0;
    while i < list.len()
        invariant
            i <= list@.len(),
            forall|j: int| 0 <= j < i ==> list@[j] != uid,
        decreases list@.len() - i,
    {
        if list[i] == uid {
            return true;
        }
        i = i + 1;
    }
    false
}

/// A socket file that is to be removed when the daemon ends.
pub struct SocketCleanupGuard {
    path: String,
    remove_on_drop: bool,
}

impl SocketCleanupGuard {
    /// The file's path.
    pub closed spec fn file(&self) -> Seq<char> {
        self.path@
    }

    /// Whether the file is still to be removed.
    pub closed spec fn armed(&self) -> bool {
        self.remove_on_drop
    }

    pub fn new(path: String, remove_on_drop: bool) -> (g: Self)
        ensures
            g.file() == path@,
            g.armed() == remove_on_drop,
    {
        SocketCleanupGuard { path, remove_on_drop }
    }

    /// Leaves the file in place.
    pub fn disarm(&mut self)
        ensures
            final(self).file() == old(self).file(),
            !final(self).armed(),
    {
        self.remove_on_drop = false;
    }

    /// The file to remove at the end, given whether it is there.
    pub fn to_remove(&self, present: bool) -> (r: Option<String>)
        ensures
            text::opt_view(r) == if self.armed() && present {
                Some(self.file())
            } else {
                None
            },
    {
        if self.remove_on_drop && present {
            Some(self.path.clone())
        } else {
            None
        }
    }
}

proof fn zeros_at_the_end_go(s: Seq<char>, n: nat)
    requires
        s.len() > 0 ==> s.last() != '\0',
    ensures
        text::without_back(s + Seq::new(n, |i: int| '\0'), '\0') == s,
    decreases n,
{
    let z = Seq::new(n, |i: int| '\0');
    if n > 0 {
        assert((s + z).drop_last() =~= s + Seq::new((n - 1) as nat, |i: int| '\0'));
        zeros_at_the_end_go(s, (n - 1) as nat);
    } else {
        assert(s + z =~= s);
    }
}

/// One to 64 hexadecimal digits and dashes are an identifier, whatever white
/// space stands around them and however many zeros a descriptor leaves behind
/// them; the file name is they alone.
pub proof fn digits_and_dashes_are_an_identifier(
    a: Seq<char>,
    s: Seq<char>,
    zeros: nat,
    b: Seq<char>,
)
    requires
        forall|i: int| 0 <= i < a.len() ==> text::is_space(#[trigger] a[i]),
        forall|i: int| 0 <= i < b.len() ==> text::is_space(#[trigger] b[i]),
        0 < s.len() <= 64,
        forall|i: int|
            0 <= i < s.len() ==> '0' <= #[trigger] s[i] <= '9' || 'a' <= s[i] <= 'f' || 'A' <= s[i]
                <= 'F' || s[i] == '-',
    ensures
        ({
            let given = a + (s + Seq::new(zeros, |i: int| '\0')) + b;
            &&& udid_core(given) == s
            &&& udid_fault(given) is None
            &&& safe_name(given) == Some(s)
        }),
{
    let z = Seq::new(zeros, |i: int| '\0');
    let first = s[0];
    let last = s[s.len() - 1];
    assert((s + z)[0] == first);
    assert(zeros == 0 ==> (s + z).last() == last);
    assert(zeros > 0 ==> (s + z).last() == '\0');
    text::words_are_no_white_space(first);
    text::words_are_no_white_space(last);
    text::surrounded_text_is_trimmed(a, s + z, b);
    zeros_at_the_end_go(s, zeros);
    assert(all_udid_chars(s));
    valid_udid_can_be_dashed(s);
}

/// Of what stands between white space, a character of another kind is
/// refused, and so is what is too long, and what is not there.
pub proof fn bad_identifiers_are_refused(s: Seq<char>, i: int)
    requires
        s.len() > 0,
        !text::is_space(s[0]),
        !text::is_space(s.last()),
        s.last() != '\0',
    ensures
        text::utf8_len(s) > 64 ==> udid_fault(s) == Some("UDID too long"@),
        text::utf8_len(s) <= 64 && 0 <= i < s.len() && !('0' <= s[i] <= '9' || 'a' <= s[i] <= 'f'
            || 'A' <= s[i] <= 'F' || s[i] == '-') ==> udid_fault(s) == Some(
            "UDID contains invalid characters"@,
        ),
        udid_fault(seq![]) == Some("UDID is empty"@),
        udid_fault(seq![' ']) == Some("UDID is empty"@),
        udid_fault(seq!['\0']) == Some("UDID is empty"@),
        safe_name(seq![]) is None,
        udid_fault(s) is Some ==> safe_name(s) is None,
{
    let none: Seq<char> = seq![];
    text::surrounded_text_is_trimmed(none, s, none);
    assert(none + s + none =~= s);
    assert(udid_core(s) == s);
    assert(seq![' '].skip(1) =~= none);
    assert(seq!['\0'].drop_last() =~= none);
    reveal_with_fuel(text::trimmed_front, 2);
    reveal_with_fuel(text::without_back, 2);
    if 0 <= i < s.len() && all_udid_chars(s) {
        assert(is_udid_char(s[i]));
    }
}

/// An identifier of 24 digits gets a dash after the first eight of them; no
/// other identifier is changed.
pub proof fn newer_identifiers_get_a_dash(s: Seq<char>)
    requires
        all_udid_chars(s),
    ensures
        s.len() == 24 && !s.contains('-') ==> dashed(s) == s.take(8) + "-"@ + s.skip(8),
        s.len() != 24 ==> dashed(s) == s,
        s.contains('-') ==> dashed(s) == s,
        dashed(dashed(s)) == dashed(s),
{
    valid_udid_can_be_dashed(s);
    if s.len() == 24 && !s.contains('-') {
        reveal_strlit("-");
        let d = dashed(s);
        assert(d.len() == 25);
        assert(d[8] == '-');
        assert forall|i: int| 0 <= i < d.len() implies is_udid_char(#[trigger] d[i]) by {
            if i < 8 {
                assert(d[i] == s[i]);
            } else if i > 8 {
                assert(d[i] == s[i - 1]);
            }
        }
        valid_udid_can_be_dashed(d);
    }
}

/// A line of the group database gives the number of the group that it names:
/// the name, a password, the number and the members, with colons between
/// them.
pub proof fn group_lines_give_their_number(
    name: Seq<char>,
    password: Seq<char>,
    gid: u32,
    members: Seq<char>,
    other: Seq<char>,
)
    requires
        !name.contains(':'),
        !password.contains(':'),
    ensures
        ({
            let c: Seq<char> = seq![':'];
            let line = name + c + (password + c + (text::decimal(gid as nat) + c + members));
            &&& group_line_gid(line, name) == Some(gid as int)
            &&& other != name ==> group_line_gid(line, other) is None
        }),
{
    let c: Seq<char> = seq![':'];
    let number = text::decimal(gid as nat);
    text::decimal_is_digits(gid as nat);
    text::decimal_reads_back(gid as nat, u32::MAX as int);
    assert(!number.contains(':')) by {
        if number.contains(':') {
            let i = choose|i: int| 0 <= i < number.len() && number[i] == ':';
            assert('0' <= number[i] <= '9');
        }
    }
    text::text_without_is_one_part(name, ':');
    text::text_without_is_one_part(password, ':');
    text::text_without_is_one_part(number, ':');
    let tail = number + c + members;
    let rest = password + c + tail;
    text::parts_of_joined(number, members, ':');
    text::parts_of_joined(password, tail, ':');
    text::parts_of_joined(name, rest, ':');
    let p = text::parts(name + c + rest, ':');
    assert(p =~= seq![name] + (seq![password] + (seq![number] + text::parts(members, ':'))));
    assert(p[0] == name && p[2] == number);
    text::parts_is_not_empty(members, ':');
}

/// The first line that gives a number for the group decides; what comes after
/// it does not matter, nor do lines for other groups.
pub proof fn first_group_line_decides(lines: Seq<Seq<char>>, name: Seq<char>, i: int)
    requires
        0 <= i < lines.len(),
        group_line_gid(lines[i], name) is Some,
        forall|j: int| 0 <= j < i ==> group_line_gid(#[trigger] lines[j], name) is None,
    ensures
        group_gid(lines, name) == group_line_gid(lines[i], name),
    decreases lines.len(),
{
    if i > 0 {
        assert(group_line_gid(lines[0], name) is None);
        let rest = lines.skip(1);
        assert(rest[i - 1] == lines[i]);
        assert forall|j: int| 0 <= j < i - 1 implies group_line_gid(
            #[trigger] rest[j],
            name,
        ) is None by {
            assert(rest[j] == lines[j + 1]);
        }
        first_group_line_decides(rest, name, i - 1);
    }
}

/// A group that no line gives a number for has none.
pub proof fn unnamed_groups_have_no_number(lines: Seq<Seq<char>>, name: Seq<char>)
    requires
        forall|j: int|
            0 <= j < lines.len() ==> group_line_gid(#[trigger] lines[j], name) is None,
    ensures
        group_gid(lines, name) is None,
    decreases lines.len(),
{
    if lines.len() > 0 {
        assert(group_line_gid(lines[0], name) is None);
        let rest = lines.skip(1);
        assert forall|j: int| 0 <= j < rest.len() implies group_line_gid(
            #[trigger] rest[j],
            name,
        ) is None by {
            assert(rest[j] == lines[j + 1]);
        }
        unnamed_groups_have_no_number(rest, name);
    }
}

} // verus!

//! Where pair records and the host's identifier are kept: names of files in
//! the lockdown directory.
use crate::security;
use crate::security::{core_of_udid, dashed_udid, sanitize_udid_for_path};
use crate::text;
use crate::text::{ends_with, joined, push_hex, same, trim, trim_suffixes};
use vstd::prelude::*;

verus! {

/// The name of the file that holds the record of `id`.
pub open spec fn record_file(id: Seq<char>) -> Seq<char> {
    id + ".plist"@
}

/// The name of the file that holds the record of `id`.
fn file_of(id: &str) -> (s: String)
    ensures
        s@ == record_file(id@),
{
    joined(id, ".plist")
}

/// The two names under which the record of a device may be kept: as the
/// device writes its identifier, and with the dash.
pub open spec fn candidates(udid: Seq<char>) -> (Seq<char>, Seq<char>) {
    let core = security::udid_core(udid);
    (record_file(core), record_file(security::dashed(core)))
}

/// The two names under which the record of a device may be kept.
pub fn candidate_files(udid: &str) -> (r: (String, String))
    requires
        security::dash_has_place(security::udid_core(udid@)),
    ensures
        (r.0@, r.1@) == candidates(udid@),
{
    let core = core_of_udid(udid);
    let with_dash = dashed_udid(core.as_str());
    (file_of(core.as_str()), file_of(with_dash.as_str()))
}

/// Whether a file in the directory is a record of the device: what stands
/// before the extension, however often that is written, is its identifier.
pub open spec fn is_record_of(name: Seq<char>, udid: Seq<char>) -> bool {
    let core = security::udid_core(udid);
    let stem = text::without_suffixes(name, ".plist"@);
    text::has_suffix(name, ".plist"@) && (stem == core || stem == security::dashed(core))
}

/// The file that holds the record of a device: the first candidate that is
/// there, or else the first file in the directory that is a record of it.
pub open spec fn record_location(
    udid: Seq<char>,
    first_there: bool,
    second_there: bool,
    names: Seq<Seq<char>>,
) -> Option<Seq<char>> {
    if first_there {
        Some(candidates(udid).0)
    } else if second_there {
        Some(candidates(udid).1)
    } else {
        first_record(udid, names)
    }
}

/// The first of the names that is a record of the device.
pub open spec fn first_record(udid: Seq<char>, names: Seq<Seq<char>>) -> Option<Seq<char>>
    decreases names.len(),
{
    if names.len() == 0 {
        None
    } else if is_record_of(names[0], udid) {
        Some(names[0])
    } else {
        first_record(udid, names.skip(1))
    }
}

/// Finds the file that holds the record of a device, given which of the
/// candidates are there and the names of the files in the directory.
pub fn locate_record(
    udid: &str,
    first_there: bool,
    second_there: bool,
    names: &[String],
) -> (r: Option<String>)
    requires
        security::dash_has_place(security::udid_core(udid@)),
    ensures
        text::opt_view(r) == record_location(
            udid@,
            first_there,
            second_there,
            text::text_views(names@),
        ),
{
    let (first, second) = candidate_files(udid);
    if first_there {
        return Some(first);
    }
    if second_there {
        return Some(second);
    }
    let core = core_of_udid(udid);
    let with_dash = dashed_udid(core.as_str());
    let ghost views = text::text_views(names@);
    assert(views.skip(0) =~= views);
    let mut i: usize = 0;
    while i < names.len()
        invariant
            views == text::text_views(names@),
            !first_there && !second_there,
            core@ == security::udid_core(udid@),
            with_dash@ == security::dashed(core@),
            i <= names@.len(),
            first_record(udid@, views.skip(i as int)) == first_record(udid@, views),
        decreases names@.len() - i,
    {
        let name: &String = &names[i];
        assert(views[i as int] == name@);
        assert(views.skip(i as int)[0] == name@);
        assert(views.skip(i as int).skip(1) =~= views.skip(i + 1));
        if ends_with(name.as_str(), ".plist") {
            let stem = trim_suffixes(name.as_str(), ".plist");
            if same(stem.as_str(), core.as_str()) || same(stem.as_str(), with_dash.as_str()) {
                return Some(name.clone());
            }
        }
        i = i + 1;
    }
    None
}

/// Whether there is a pair record for a device. Without the directory there
/// is none.
pub fn has_pair_record(
    udid: &str,
    dir_there: bool,
    first_there: bool,
    second_there: bool,
    names: &[String],
) -> (b: bool)
    requires
        security::dash_has_place(security::udid_core(udid@)),
    ensures
        b == (dir_there && record_location(
            udid@,
            first_there,
            second_there,
            text::text_views(names@),
        ) is Some),
{
    if !dir_there {
        return false;
    }
    locate_record(udid, first_there, second_there, names).is_some()
}

/// Why a pair record cannot be read.
pub open spec fn read_fault(udid: Seq<char>, dir_there: bool) -> Seq<char> {
    if dir_there {
        "pair record not found for "@ + udid
    } else {
        "lockdown directory not found"@
    }
}

/// The file from which to read the pair record of a device, or why there is
/// none.
pub fn read_pair_record(
    udid: &str,
    dir_there: bool,
    first_there: bool,
    second_there: bool,
    names: &[String],
) -> (r: Result<String, String>)
    requires
        security::dash_has_place(security::udid_core(udid@)),
    ensures
        ({
            let found = record_location(
                udid@,
                first_there,
                second_there,
                text::text_views(names@),
            );
            match r {
                Ok(f) => dir_there && found == Some(f@),
                Err(m) => (!dir_there || found is None) && m@ == read_fault(udid@, dir_there),
            }
        }),
{
    if !dir_there {
        return Err("lockdown directory not found".to_owned());
    }
    match locate_record(udid, first_there, second_there, names) {
        Some(f) => Ok(f),
        None => Err(joined("pair record not found for ", udid)),
    }
}

/// The file in which to store the pair record of a device, or why it cannot
/// be stored.
pub fn save_pair_record(udid: &str) -> (r: Result<String, String>)
    ensures
        match r {
            Ok(f) => security::safe_name(udid@) is Some && f@ == record_file(
                security::safe_name(udid@).unwrap(),
            ),
            Err(m) => security::safe_name(udid@) is None && m@ == "invalid UDID for path"@,
        },
{
    match sanitize_udid_for_path(udid) {
        Some(name) => Ok(file_of(name.as_str())),
        None => Err("invalid UDID for path".to_owned()),
    }
}

/// The file to remove for a device: the first candidate that is there.
pub fn delete_pair_record(
    udid: &str,
    dir_there: bool,
    first_there: bool,
    second_there: bool,
) -> (r: Option<String>)
    requires
        security::dash_has_place(security::udid_core(udid@)),
    ensures
        text::opt_view(r) == if dir_there && first_there {
            Some(candidates(udid@).0)
        } else if dir_there && second_there {
            Some(candidates(udid@).1)
        } else {
            None
        },
{
    if !dir_there {
        return None;
    }
    let (first, second) = candidate_files(udid);
    if first_there {
        Some(first)
    } else if second_there {
        Some(second)
    } else {
        None
    }
}

/// The host's identifier from the text of its file: what is there, without
/// white space around it, unless that is nothing.
pub open spec fn kept_buid(content: Option<Seq<char>>) -> Option<Seq<char>> {
    match content {
        Some(c) => if text::trimmed(c).len() > 0 {
            Some(text::trimmed(c))
        } else {
            None
        },
        None => None,
    }
}

/// The host's identifier from the text of its file, if there is one.
pub fn existing_buid(content: Option<&str>) -> (r: Option<String>)
    ensures
        text::opt_view(r) == kept_buid(
            match content {
                Some(c) => Some(c@),
                None => None,
            },
        ),
{
    match content {
        Some(c) => {
            let trimmed = trim(c);
            if trimmed.as_str().is_empty() {
                None
            } else {
                Some(trimmed)
            }
        },
        None => None,
    }
}

/// A new identifier for the host, from the time and a random number: sixteen
/// hexadecimal digits of each.
pub fn new_buid(nanos: u64, random: u64) -> (s: String)
    ensures
        s@ == text::hex(nanos as nat, 16) + text::hex(random as nat, 16),
{
    let mut s = String::new();
    push_hex(&mut s, nanos, 16);
    push_hex(&mut s, random, 16);
    assert(s@ =~= text::hex(nanos as nat, 16) + text::hex(random as nat, 16));
    s
}

proof fn hex_has_no_space(n: nat, width: nat)
    ensures
        text::hex(n, width).len() == width,
        forall|i: int| 0 <= i < width ==> !text::is_space(#[trigger] text::hex(n, width)[i]),
    decreases width,
{
    if width > 0 {
        hex_has_no_space(n / 16, (width - 1) as nat);
        let h = text::hex(n, width);
        let before = text::hex(n / 16, (width - 1) as nat);
        assert forall|i: int| 0 <= i < width implies !text::is_space(#[trigger] h[i]) by {
            if i < width - 1 {
                assert(h[i] == before[i]);
            } else {
                let d = n % 16;
                assert(h[i] == text::hex_char(d));
            }
        }
    }
}

/// The host's identifier is stable: one that was made and stored is the one
/// that is read back.
pub proof fn new_buid_is_kept(nanos: nat, random: nat)
    ensures
        kept_buid(Some(text::hex(nanos, 16) + text::hex(random, 16))) == Some(
            text::hex(nanos, 16) + text::hex(random, 16),
        ),
{
    hex_has_no_space(nanos, 16);
    hex_has_no_space(random, 16);
    let s = text::hex(nanos, 16) + text::hex(random, 16);
    assert(s[0] == text::hex(nanos, 16)[0]);
    assert(s.last() == text::hex(random, 16)[15]);
}

/// What is stored for a valid identifier is found again under it, and is what
/// is removed for it: the file is the first of the candidates.
pub proof fn stored_record_is_found(udid: Seq<char>, second_there: bool, names: Seq<Seq<char>>)
    requires
        security::udid_fault(udid) is None,
    ensures
        security::safe_name(udid) is Some,
        record_file(security::safe_name(udid).unwrap()) == candidates(udid).0,
        record_location(udid, true, second_there, names) == Some(
            record_file(security::safe_name(udid).unwrap()),
        ),
        security::dash_has_place(security::udid_core(udid)),
{
    security::valid_udid_has_a_safe_name(udid);
    security::valid_udid_can_be_dashed(security::udid_core(udid));
}

/// The file of a valid identifier lies in the directory itself: no slash and
/// no backslash is in its name, and it is not the parent directory.
pub proof fn record_file_stays_in_directory(udid: Seq<char>)
    requires
        security::udid_fault(udid) is None,
    ensures
        !candidates(udid).0.contains('/'),
        !candidates(udid).0.contains('\\'),
        candidates(udid).0 != ".."@,
{
    reveal_strlit(".plist");
    reveal_strlit("..");
    security::valid_udid_has_no_path_characters(udid);
    let core = security::udid_core(udid);
    let f = candidates(udid).0;
    assert(f.len() == core.len() + 6);
    assert forall|i: int| 0 <= i < f.len() implies f[i] != '/' && f[i] != '\\' by {
        if i < core.len() {
            assert(!security::is_path_char(core[i]));
        } else {
            assert(f[i] == ".plist"@[i - core.len()]);
        }
    }
}

proof fn no_record_among(udid: Seq<char>, names: Seq<Seq<char>>)
    requires
        forall|i: int| 0 <= i < names.len() ==> !is_record_of(#[trigger] names[i], udid),
    ensures
        first_record(udid, names) is None,
    decreases names.len(),
{
    if names.len() > 0 {
        assert(!is_record_of(names[0], udid));
        assert forall|i: int| 0 <= i < names.skip(1).len() implies !is_record_of(
            #[trigger] names.skip(1)[i],
            udid,
        ) by {
            assert(names.skip(1)[i] == names[i + 1]);
        }
        no_record_among(udid, names.skip(1));
    }
}

/// A record that was removed is not found again: where the one file of a
/// device was the only one of its records, none is left, in whatever order
/// the directory is read.
pub proof fn removed_record_is_gone(
    udid: Seq<char>,
    files: Set<Seq<char>>,
    removed: Seq<char>,
    names: Seq<Seq<char>>,
)
    requires
        forall|f: Seq<char>| files.contains(f) && is_record_of(f, udid) ==> f == removed,
        forall|i: int|
            0 <= i < names.len() ==> files.remove(removed).contains(#[trigger] names[i]),
    ensures
        record_location(udid, false, false, names) is None,
{
    no_record_among(udid, names);
}

/// Removal is exact: the files of two identifiers are the same file only if
/// the identifiers are the same, so that no other device loses its record.
pub proof fn record_files_are_distinct(a: Seq<char>, b: Seq<char>)
    requires
        record_file(a) == record_file(b),
    ensures
        a == b,
{
    let fa = record_file(a);
    let fb = record_file(b);
    let n = ".plist"@.len();
    assert(fa.len() == a.len() + n);
    assert(fb.len() == b.len() + n);
    assert(fa.take(a.len() as int) =~= a);
    assert(fb.take(b.len() as int) =~= b);
}

/// The record of a device is kept under its identifier, or under that with a
/// dash after the first eight digits.
pub proof fn records_are_kept_under_the_identifier(udid: Seq<char>)
    requires
        0 < udid.len() <= 64,
        security::all_udid_chars(udid),
    ensures
        candidates(udid).0 == udid + ".plist"@,
        udid.len() == 24 && !udid.contains('-') ==> candidates(udid).1 == udid.take(8) + "-"@
            + udid.skip(8) + ".plist"@,
        udid.len() != 24 || udid.contains('-') ==> candidates(udid).1 == udid + ".plist"@,
{
    plain_identifier_is_its_core(udid);
    security::newer_identifiers_get_a_dash(udid);
}

proof fn plain_identifier_is_its_core(udid: Seq<char>)
    requires
        0 < udid.len() <= 64,
        security::all_udid_chars(udid),
    ensures
        security::udid_core(udid) == udid,
        security::udid_fault(udid) is None,
{
    let none: Seq<char> = seq![];
    assert forall|i: int| 0 <= i < udid.len() implies '0' <= #[trigger] udid[i] <= '9' || 'a'
        <= udid[i] <= 'f' || 'A' <= udid[i] <= 'F' || udid[i] == '-' by {
        assert(security::is_udid_char(udid[i]));
    }
    security::digits_and_dashes_are_an_identifier(none, udid, 0, none);
    assert(none + (udid + Seq::new(0, |i: int| '\0')) + none =~= udid);
}

/// A file under the identifier, with or without the dash, is a record of the
/// device; one under another identifier is not, nor one of another kind.
pub proof fn records_are_told_by_their_names(udid: Seq<char>, other: Seq<char>)
    requires
        0 < udid.len() <= 64,
        security::all_udid_chars(udid),
        0 < other.len() <= 64,
        security::all_udid_chars(other),
    ensures
        is_record_of(udid + ".plist"@, udid),
        is_record_of(security::dashed(udid) + ".plist"@, udid),
        other != udid && other != security::dashed(udid) ==> !is_record_of(
            other + ".plist"@,
            udid,
        ),
        !is_record_of(udid, udid),
{
    plain_identifier_is_its_core(udid);
    security::newer_identifiers_get_a_dash(udid);
    let d = security::dashed(udid);
    assert(security::all_udid_chars(d)) by {
        reveal_strlit("-");
        assert forall|i: int| 0 <= i < d.len() implies security::is_udid_char(
            #[trigger] d[i],
        ) by {
            if d != udid {
                if i < 8 {
                    assert(d[i] == udid[i]);
                } else if i > 8 {
                    assert(d[i] == udid[i - 1]);
                }
            }
        }
    }
    stem_of_a_record(udid);
    stem_of_a_record(d);
    stem_of_a_record(other);
}

proof fn stem_of_a_record(s: Seq<char>)
    requires
        security::all_udid_chars(s),
    ensures
        text::has_suffix(s + ".plist"@, ".plist"@),
        text::without_suffixes(s + ".plist"@, ".plist"@) == s,
        !text::has_suffix(s, ".plist"@),
{
    reveal_strlit(".plist");
    let p = ".plist"@;
    if text::has_suffix(s, p) {
        let i = s.len() - 6;
        assert(s.skip(i)[0] == '.');
        assert(security::is_udid_char(s[i]));
    }
    text::affixes_are_taken_off(s, p);
    assert((s + p).skip(s.len() as int) =~= p);
}

/// Where neither candidate is there, a record in the directory is found still:
/// the first that there is, and a file of the directory.
pub proof fn records_in_the_directory_are_found(udid: Seq<char>, names: Seq<Seq<char>>, i: int)
    requires
        0 <= i < names.len(),
        is_record_of(names[i], udid),
        forall|j: int| 0 <= j < i ==> !is_record_of(#[trigger] names[j], udid),
    ensures
        record_location(udid, false, false, names) == Some(names[i]),
    decreases names.len(),
{
    if i > 0 {
        assert(!is_record_of(names[0], udid));
        let rest = names.skip(1);
        assert(rest[i - 1] == names[i]);
        assert forall|j: int| 0 <= j < i - 1 implies !is_record_of(#[trigger] rest[j], udid) by {
            assert(rest[j] == names[j + 1]);
        }
        records_in_the_directory_are_found(udid, rest, i - 1);
    }
}

/// A candidate that is there comes before all else, the plain one first.
pub proof fn candidates_come_first(udid: Seq<char>, second: bool, names: Seq<Seq<char>>)
    ensures
        record_location(udid, true, second, names) == Some(candidates(udid).0),
        record_location(udid, false, true, names) == Some(candidates(udid).1),
        (forall|i: int| 0 <= i < names.len() ==> !is_record_of(#[trigger] names[i], udid))
            ==> record_location(udid, false, false, names) is None,
        read_fault(udid, true) == "pair record not found for "@ + udid,
        read_fault(udid, false) == "lockdown directory not found"@,
{
    if forall|i: int| 0 <= i < names.len() ==> !is_record_of(#[trigger] names[i], udid) {
        no_record_among(udid, names);
    }
}

/// The host's identifier is what the file says, without the white space around
/// it; a blank file, and none, say nothing.
pub proof fn host_identifier_is_what_the_file_says(a: Seq<char>, s: Seq<char>, b: Seq<char>)
    requires
        forall|i: int| 0 <= i < a.len() ==> text::is_space(#[trigger] a[i]),
        forall|i: int| 0 <= i < b.len() ==> text::is_space(#[trigger] b[i]),
        s.len() > 0,
        !text::is_space(s[0]),
        !text::is_space(s.last()),
    ensures
        kept_buid(Some(a + s + b)) == Some(s),
        kept_buid(None) is None,
        kept_buid(Some(seq![])) is None,
{
    text::surrounded_text_is_trimmed(a, s, b);
}

} // verus!

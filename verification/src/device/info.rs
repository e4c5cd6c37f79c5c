//! What is known of a device beyond its identifier: the names of models, and
//! the report of the `ideviceinfo` tool.
use crate::device;
use crate::device::Device;
use crate::text;
use crate::text::{lines, same, split_once, trim};
use vstd::prelude::*;

verus! {

/// The name of the model with an identifier.
pub open spec fn model_of(id: Seq<char>) -> Option<Seq<char>> {
    if id == "iPhone13,1"@ {
        Some("iPhone 12 mini"@)
    } else if id == "iPhone13,2"@ {
        Some("iPhone 12"@)
    } else if id == "iPhone13,3"@ {
        Some("iPhone 12 Pro"@)
    } else if id == "iPhone13,4"@ {
        Some("iPhone 12 Pro Max"@)
    } else if id == "iPhone14,4"@ {
        Some("iPhone 13 mini"@)
    } else if id == "iPhone14,5"@ {
        Some("iPhone 13"@)
    } else if id == "iPhone14,2"@ {
        Some("iPhone 13 Pro"@)
    } else if id == "iPhone14,3"@ {
        Some("iPhone 13 Pro Max"@)
    } else if id == "iPhone14,7"@ {
        Some("iPhone 14"@)
    } else if id == "iPhone14,8"@ {
        Some("iPhone 14 Plus"@)
    } else if id == "iPhone15,2"@ {
        Some("iPhone 14 Pro"@)
    } else if id == "iPhone15,3"@ {
        Some("iPhone 14 Pro Max"@)
    } else if id == "iPhone15,4"@ {
        Some("iPhone 15"@)
    } else if id == "iPhone15,5"@ {
        Some("iPhone 15 Plus"@)
    } else if id == "iPhone16,1"@ {
        Some("iPhone 15 Pro"@)
    } else if id == "iPhone16,2"@ {
        Some("iPhone 15 Pro Max"@)
    } else if id == "iPhone17,1"@ {
        Some("iPhone 16 Pro"@)
    } else if id == "iPhone17,2"@ {
        Some("iPhone 16 Pro Max"@)
    } else if id == "iPhone17,3"@ {
        Some("iPhone 16"@)
    } else if id == "iPhone17,4"@ {
        Some("iPhone 16 Plus"@)
    } else if id == "iPhone17,5"@ {
        Some("iPhone 16e"@)
    } else if id == "iPad13,18"@ {
        Some("iPad (10th gen)"@)
    } else if id == "iPad13,19"@ {
        Some("iPad (10th gen)"@)
    } else if id == "iPad14,3"@ {
        Some("iPad Pro 11\" (4th gen)"@)
    } else if id == "iPad14,4"@ {
        Some("iPad Pro 11\" (4th gen)"@)
    } else if id == "iPad14,5"@ {
        Some("iPad Pro 12.9\" (6th gen)"@)
    } else if id == "iPad14,6"@ {
        Some("iPad Pro 12.9\" (6th gen)"@)
    } else if id == "iPad14,8"@ {
        Some("iPad Air 11\" (M2)"@)
    } else if id == "iPad14,9"@ {
        Some("iPad Air 11\" (M2)"@)
    } else if id == "iPad14,10"@ {
        Some("iPad Air 13\" (M2)"@)
    } else if id == "iPad14,11"@ {
        Some("iPad Air 13\" (M2)"@)
    } else if id == "iPad15,3"@ {
        Some("iPad Air 11\" (M3)"@)
    } else if id == "iPad15,4"@ {
        Some("iPad Air 11\" (M3)"@)
    } else if id == "iPad15,5"@ {
        Some("iPad Air 13\" (M3)"@)
    } else if id == "iPad15,6"@ {
        Some("iPad Air 13\" (M3)"@)
    } else if id == "iPad15,7"@ {
        Some("iPad mini (A17 Pro)"@)
    } else if id == "iPad15,8"@ {
        Some("iPad mini (A17 Pro)"@)
    } else if id == "iPad16,3"@ {
        Some("iPad Pro 11\" (M4)"@)
    } else if id == "iPad16,4"@ {
        Some("iPad Pro 11\" (M4)"@)
    } else if id == "iPad16,5"@ {
        Some("iPad Pro 13\" (M4)"@)
    } else if id == "iPad16,6"@ {
        Some("iPad Pro 13\" (M4)"@)
    } else if id == "iPod9,1"@ {
        Some("iPod touch (7th gen)"@)
    } else {
        None
    }
}

/// The name of the model with an identifier.
pub fn model_name(identifier: &str) -> (r: Option<&'static str>)
    ensures
        match r {
            Some(s) => model_of(identifier@) == Some(s@),
            None => model_of(identifier@) is None,
        },
{
    if same(identifier, "iPhone13,1") {
        Some("iPhone 12 mini")
    } else if same(identifier, "iPhone13,2") {
        Some("iPhone 12")
    } else if same(identifier, "iPhone13,3") {
        Some("iPhone 12 Pro")
    } else if same(identifier, "iPhone13,4") {
        Some("iPhone 12 Pro Max")
    } else if same(identifier, "iPhone14,4") {
        Some("iPhone 13 mini")
    } else if same(identifier, "iPhone14,5") {
        Some("iPhone 13")
    } else if same(identifier, "iPhone14,2") {
        Some("iPhone 13 Pro")
    } else if same(identifier, "iPhone14,3") {
        Some("iPhone 13 Pro Max")
    } else if same(identifier, "iPhone14,7") {
        Some("iPhone 14")
    } else if same(identifier, "iPhone14,8") {
        Some("iPhone 14 Plus")
    } else if same(identifier, "iPhone15,2") {
        Some("iPhone 14 Pro")
    } else if same(identifier, "iPhone15,3") {
        Some("iPhone 14 Pro Max")
    } else if same(identifier, "iPhone15,4") {
        Some("iPhone 15")
    } else if same(identifier, "iPhone15,5") {
        Some("iPhone 15 Plus")
    } else if same(identifier, "iPhone16,1") {
        Some("iPhone 15 Pro")
    } else if same(identifier, "iPhone16,2") {
        Some("iPhone 15 Pro Max")
    } else if same(identifier, "iPhone17,1") {
        Some("iPhone 16 Pro")
    } else if same(identifier, "iPhone17,2") {
        Some("iPhone 16 Pro Max")
    } else if same(identifier, "iPhone17,3") {
        Some("iPhone 16")
    } else if same(identifier, "iPhone17,4") {
        Some("iPhone 16 Plus")
    } else if same(identifier, "iPhone17,5") {
        Some("iPhone 16e")
    } else if same(identifier, "iPad13,18") {
        Some("iPad (10th gen)")
    } else if same(identifier, "iPad13,19") {
        Some("iPad (10th gen)")
    } else if same(identifier, "iPad14,3") {
        Some("iPad Pro 11\" (4th gen)")
    } else if same(identifier, "iPad14,4") {
        Some("iPad Pro 11\" (4th gen)")
    } else if same(identifier, "iPad14,5") {
        Some("iPad Pro 12.9\" (6th gen)")
    } else if same(identifier, "iPad14,6") {
        Some("iPad Pro 12.9\" (6th gen)")
    } else if same(identifier, "iPad14,8") {
        Some("iPad Air 11\" (M2)")
    } else if same(identifier, "iPad14,9") {
        Some("iPad Air 11\" (M2)")
    } else if same(identifier, "iPad14,10") {
        Some("iPad Air 13\" (M2)")
    } else if same(identifier, "iPad14,11") {
        Some("iPad Air 13\" (M2)")
    } else if same(identifier, "iPad15,3") {
        Some("iPad Air 11\" (M3)")
    } else if same(identifier, "iPad15,4") {
        Some("iPad Air 11\" (M3)")
    } else if same(identifier, "iPad15,5") {
        Some("iPad Air 13\" (M3)")
    } else if same(identifier, "iPad15,6") {
        Some("iPad Air 13\" (M3)")
    } else if same(identifier, "iPad15,7") {
        Some("iPad mini (A17 Pro)")
    } else if same(identifier, "iPad15,8") {
        Some("iPad mini (A17 Pro)")
    } else if same(identifier, "iPad16,3") {
        Some("iPad Pro 11\" (M4)")
    } else if same(identifier, "iPad16,4") {
        Some("iPad Pro 11\" (M4)")
    } else if same(identifier, "iPad16,5") {
        Some("iPad Pro 13\" (M4)")
    } else if same(identifier, "iPad16,6") {
        Some("iPad Pro 13\" (M4)")
    } else if same(identifier, "iPod9,1") {
        Some("iPod touch (7th gen)")
    } else {
        None
    }
}

/// The name of a model, or its identifier where it has none.
pub open spec fn friendly(id: Seq<char>) -> Seq<char> {
    device::or_text(model_of(id), id)
}

/// The name of a model, or its identifier where it has none.
pub fn friendly_model(identifier: &str) -> (s: String)
    ensures
        s@ == friendly(identifier@),
{
    match model_name(identifier) {
        Some(name) => name.to_owned(),
        None => identifier.to_owned(),
    }
}

/// Texts under their keys, in the order in which they came.
pub open spec fn pair_views(v: Seq<(String, String)>) -> Seq<(Seq<char>, Seq<char>)> {
    v.map_values(|p: (String, String)| (p.0@, p.1@))
}

/// The key and the value that a line of the report holds.
pub open spec fn line_pair(line: Seq<char>) -> Option<(Seq<char>, Seq<char>)> {
    match text::split_at_first(line, ": "@) {
        Some((k, v)) => Some((text::trimmed(k), text::trimmed(v))),
        None => None,
    }
}

/// The keys and values of a report, line by line.
pub open spec fn line_pairs(lines: Seq<Seq<char>>) -> Seq<(Seq<char>, Seq<char>)>
    decreases lines.len(),
{
    if lines.len() == 0 {
        seq![]
    } else {
        let front = line_pairs(lines.drop_last());
        match line_pair(lines.last()) {
            Some(p) => front.push(p),
            None => front,
        }
    }
}

/// The value under a key; of several, the last.
pub open spec fn last_value(pairs: Seq<(Seq<char>, Seq<char>)>, key: Seq<char>) -> Option<Seq<char>>
    decreases pairs.len(),
{
    if pairs.len() == 0 {
        None
    } else if pairs.last().0 == key {
        Some(pairs.last().1)
    } else {
        last_value(pairs.drop_last(), key)
    }
}

/// Reads the keys and values of a report.
pub fn parse_ideviceinfo_output(output: &str) -> (pairs: Vec<(String, String)>)
    ensures
        pair_views(pairs@) == line_pairs(text::lines_of(output@)),
{
    let all = lines(output);
    let ghost views = text::text_views(all@);
    let mut pairs: Vec<(String, String)> = Vec::new();
    let mut i: usize = 0;
    assert(views.take(0) =~= seq![]);
    assert(pair_views(pairs@) =~= seq![]);
    while i < all.len()
        invariant
            i <= all@.len(),
            views == text::text_views(all@),
            pair_views(pairs@) == line_pairs(views.take(i as int)),
        decreases all@.len() - i,
    {
        assert(views.take(i + 1).drop_last() =~= views.take(i as int));
        assert(views.take(i + 1).last() == all@[i as int]@);
        if let Some((key, value)) = split_once(all[i].as_str(), ": ") {
            let ghost was = pair_views(pairs@);
            let pair = (trim(key.as_str()), trim(value.as_str()));
            let ghost p = (pair.0@, pair.1@);
            pairs.push(pair);
            assert(pair_views(pairs@) =~= was.push(p));
        }
        i = i + 1;
    }
    assert(views.take(i as int) =~= views);
    pairs
}

/// Finds the value under a key; of several, the last.
pub fn value_under(pairs: &Vec<(String, String)>, key: &str) -> (r: Option<String>)
    ensures
        text::opt_view(r) == last_value(pair_views(pairs@), key@),
{
    let ghost views = pair_views(pairs@);
    let mut n: usize = pairs.len();
    assert(views.take(n as int) =~= views);
    while n > 0
        invariant
            n <= pairs@.len(),
            views == pair_views(pairs@),
            last_value(views.take(n as int), key@) == last_value(views, key@),
        decreases n,
    {
        assert(views.take(n as int).drop_last() =~= views.take(n - 1));
        assert(views.take(n as int).last() == views[n - 1]);
        if same(pairs[n - 1].0.as_str(), key) {
            return Some(pairs[n - 1].1.clone());
        }
        n = n - 1;
    }
    None
}

/// The first of two texts, or else the second.
pub open spec fn first_of(a: Option<Seq<char>>, b: Option<Seq<char>>) -> Option<Seq<char>> {
    match a {
        Some(s) => Some(s),
        None => b,
    }
}

/// The device with its gaps filled from a report.
pub open spec fn filled_from_report(
    d: device::DeviceView,
    pairs: Seq<(Seq<char>, Seq<char>)>,
) -> device::DeviceView {
    device::DeviceView {
        name: first_of(d.name, last_value(pairs, "DeviceName"@)),
        model: first_of(
            d.model,
            match last_value(pairs, "ProductType"@) {
                Some(id) => Some(friendly(id)),
                None => None,
            },
        ),
        ios_version: first_of(d.ios_version, last_value(pairs, "ProductVersion"@)),
        build_version: first_of(d.build_version, last_value(pairs, "BuildVersion"@)),
        ..d
    }
}

/// Fills the gaps in what is known of a device from a report; what is known
/// already stays.
pub fn fill_from_ideviceinfo(device: &mut Device, output: &str)
    ensures
        final(device)@ == filled_from_report(
            old(device)@,
            line_pairs(text::lines_of(output@)),
        ),
{
    let values = parse_ideviceinfo_output(output);
    if device.name.is_none() {
        device.name = value_under(&values, "DeviceName");
    }
    if device.model.is_none() {
        device.model = match value_under(&values, "ProductType") {
            Some(id) => Some(friendly_model(id.as_str())),
            None => None,
        };
    }
    if device.ios_version.is_none() {
        device.ios_version = value_under(&values, "ProductVersion");
    }
    if device.build_version.is_none() {
        device.build_version = value_under(&values, "BuildVersion");
    }
}

/// Whether the report is worth asking for: the name or the version is still
/// missing.
pub fn needs_report(device: &Device) -> (b: bool)
    ensures
        b == (device@.name is None || device@.ios_version is None),
{
    device.name.is_none() || device.ios_version.is_none()
}

/// A report only fills gaps: what was known of a device stays as it was, and
/// so does its identity.
pub proof fn report_fills_gaps_only(
    d: device::DeviceView,
    pairs: Seq<(Seq<char>, Seq<char>)>,
)
    ensures
        ({
            let r = filled_from_report(d, pairs);
            &&& r.udid == d.udid
            &&& r.device_id == d.device_id
            &&& r.connection_type == d.connection_type
            &&& d.name is Some ==> r.name == d.name
            &&& d.model is Some ==> r.model == d.model
            &&& d.ios_version is Some ==> r.ios_version == d.ios_version
            &&& d.build_version is Some ==> r.build_version == d.build_version
        }),
{
}

proof fn identifiers_are_told_apart()
    ensures
        "iPhone13,1"@.len() == 10 && "iPhone13,1"@[0] == 'i' && "iPhone13,1"@[6] == '1' && "iPhone13,1"@[7] == '3' && "iPhone13,1"@[9] == '1',
        "iPhone13,2"@.len() == 10 && "iPhone13,2"@[0] == 'i' && "iPhone13,2"@[6] == '1' && "iPhone13,2"@[7] == '3' && "iPhone13,2"@[9] == '2',
        "iPhone13,3"@.len() == 10 && "iPhone13,3"@[0] == 'i' && "iPhone13,3"@[6] == '1' && "iPhone13,3"@[7] == '3' && "iPhone13,3"@[9] == '3',
        "iPhone13,4"@.len() == 10 && "iPhone13,4"@[0] == 'i' && "iPhone13,4"@[6] == '1' && "iPhone13,4"@[7] == '3' && "iPhone13,4"@[9] == '4',
        "iPhone14,4"@.len() == 10 && "iPhone14,4"@[0] == 'i' && "iPhone14,4"@[6] == '1' && "iPhone14,4"@[7] == '4' && "iPhone14,4"@[9] == '4',
        "iPhone14,5"@.len() == 10 && "iPhone14,5"@[0] == 'i' && "iPhone14,5"@[6] == '1' && "iPhone14,5"@[7] == '4' && "iPhone14,5"@[9] == '5',
        "iPhone14,2"@.len() == 10 && "iPhone14,2"@[0] == 'i' && "iPhone14,2"@[6] == '1' && "iPhone14,2"@[7] == '4' && "iPhone14,2"@[9] == '2',
        "iPhone14,3"@.len() == 10 && "iPhone14,3"@[0] == 'i' && "iPhone14,3"@[6] == '1' && "iPhone14,3"@[7] == '4' && "iPhone14,3"@[9] == '3',
        "iPhone14,7"@.len() == 10 && "iPhone14,7"@[0] == 'i' && "iPhone14,7"@[6] == '1' && "iPhone14,7"@[7] == '4' && "iPhone14,7"@[9] == '7',
        "iPhone14,8"@.len() == 10 && "iPhone14,8"@[0] == 'i' && "iPhone14,8"@[6] == '1' && "iPhone14,8"@[7] == '4' && "iPhone14,8"@[9] == '8',
        "iPhone15,2"@.len() == 10 && "iPhone15,2"@[0] == 'i' && "iPhone15,2"@[6] == '1' && "iPhone15,2"@[7] == '5' && "iPhone15,2"@[9] == '2',
        "iPhone15,3"@.len() == 10 && "iPhone15,3"@[0] == 'i' && "iPhone15,3"@[6] == '1' && "iPhone15,3"@[7] == '5' && "iPhone15,3"@[9] == '3',
        "iPhone15,4"@.len() == 10 && "iPhone15,4"@[0] == 'i' && "iPhone15,4"@[6] == '1' && "iPhone15,4"@[7] == '5' && "iPhone15,4"@[9] == '4',
        "iPhone15,5"@.len() == 10 && "iPhone15,5"@[0] == 'i' && "iPhone15,5"@[6] == '1' && "iPhone15,5"@[7] == '5' && "iPhone15,5"@[9] == '5',
        "iPhone16,1"@.len() == 10 && "iPhone16,1"@[0] == 'i' && "iPhone16,1"@[6] == '1' && "iPhone16,1"@[7] == '6' && "iPhone16,1"@[9] == '1',
        "iPhone16,2"@.len() == 10 && "iPhone16,2"@[0] == 'i' && "iPhone16,2"@[6] == '1' && "iPhone16,2"@[7] == '6' && "iPhone16,2"@[9] == '2',
        "iPhone17,1"@.len() == 10 && "iPhone17,1"@[0] == 'i' && "iPhone17,1"@[6] == '1' && "iPhone17,1"@[7] == '7' && "iPhone17,1"@[9] == '1',
        "iPhone17,2"@.len() == 10 && "iPhone17,2"@[0] == 'i' && "iPhone17,2"@[6] == '1' && "iPhone17,2"@[7] == '7' && "iPhone17,2"@[9] == '2',
        "iPhone17,3"@.len() == 10 && "iPhone17,3"@[0] == 'i' && "iPhone17,3"@[6] == '1' && "iPhone17,3"@[7] == '7' && "iPhone17,3"@[9] == '3',
        "iPhone17,4"@.len() == 10 && "iPhone17,4"@[0] == 'i' && "iPhone17,4"@[6] == '1' && "iPhone17,4"@[7] == '7' && "iPhone17,4"@[9] == '4',
        "iPhone17,5"@.len() == 10 && "iPhone17,5"@[0] == 'i' && "iPhone17,5"@[6] == '1' && "iPhone17,5"@[7] == '7' && "iPhone17,5"@[9] == '5',
        "iPad13,18"@.len() == 9 && "iPad13,18"@[0] == 'i' && "iPad13,18"@[4] == '1' && "iPad13,18"@[5] == '3' && "iPad13,18"@[7] == '1' && "iPad13,18"@[8] == '8',
        "iPad13,19"@.len() == 9 && "iPad13,19"@[0] == 'i' && "iPad13,19"@[4] == '1' && "iPad13,19"@[5] == '3' && "iPad13,19"@[7] == '1' && "iPad13,19"@[8] == '9',
        "iPad14,3"@.len() == 8 && "iPad14,3"@[0] == 'i' && "iPad14,3"@[4] == '1' && "iPad14,3"@[5] == '4' && "iPad14,3"@[7] == '3',
        "iPad14,4"@.len() == 8 && "iPad14,4"@[0] == 'i' && "iPad14,4"@[4] == '1' && "iPad14,4"@[5] == '4' && "iPad14,4"@[7] == '4',
        "iPad14,5"@.len() == 8 && "iPad14,5"@[0] == 'i' && "iPad14,5"@[4] == '1' && "iPad14,5"@[5] == '4' && "iPad14,5"@[7] == '5',
        "iPad14,6"@.len() == 8 && "iPad14,6"@[0] == 'i' && "iPad14,6"@[4] == '1' && "iPad14,6"@[5] == '4' && "iPad14,6"@[7] == '6',
        "iPad14,8"@.len() == 8 && "iPad14,8"@[0] == 'i' && "iPad14,8"@[4] == '1' && "iPad14,8"@[5] == '4' && "iPad14,8"@[7] == '8',
        "iPad14,9"@.len() == 8 && "iPad14,9"@[0] == 'i' && "iPad14,9"@[4] == '1' && "iPad14,9"@[5] == '4' && "iPad14,9"@[7] == '9',
        "iPad14,10"@.len() == 9 && "iPad14,10"@[0] == 'i' && "iPad14,10"@[4] == '1' && "iPad14,10"@[5] == '4' && "iPad14,10"@[7] == '1' && "iPad14,10"@[8] == '0',
        "iPad14,11"@.len() == 9 && "iPad14,11"@[0] == 'i' && "iPad14,11"@[4] == '1' && "iPad14,11"@[5] == '4' && "iPad14,11"@[7] == '1' && "iPad14,11"@[8] == '1',
        "iPad15,3"@.len() == 8 && "iPad15,3"@[0] == 'i' && "iPad15,3"@[4] == '1' && "iPad15,3"@[5] == '5' && "iPad15,3"@[7] == '3',
        "iPad15,4"@.len() == 8 && "iPad15,4"@[0] == 'i' && "iPad15,4"@[4] == '1' && "iPad15,4"@[5] == '5' && "iPad15,4"@[7] == '4',
        "iPad15,5"@.len() == 8 && "iPad15,5"@[0] == 'i' && "iPad15,5"@[4] == '1' && "iPad15,5"@[5] == '5' && "iPad15,5"@[7] == '5',
        "iPad15,6"@.len() == 8 && "iPad15,6"@[0] == 'i' && "iPad15,6"@[4] == '1' && "iPad15,6"@[5] == '5' && "iPad15,6"@[7] == '6',
        "iPad15,7"@.len() == 8 && "iPad15,7"@[0] == 'i' && "iPad15,7"@[4] == '1' && "iPad15,7"@[5] == '5' && "iPad15,7"@[7] == '7',
        "iPad15,8"@.len() == 8 && "iPad15,8"@[0] == 'i' && "iPad15,8"@[4] == '1' && "iPad15,8"@[5] == '5' && "iPad15,8"@[7] == '8',
        "iPad16,3"@.len() == 8 && "iPad16,3"@[0] == 'i' && "iPad16,3"@[4] == '1' && "iPad16,3"@[5] == '6' && "iPad16,3"@[7] == '3',
        "iPad16,4"@.len() == 8 && "iPad16,4"@[0] == 'i' && "iPad16,4"@[4] == '1' && "iPad16,4"@[5] == '6' && "iPad16,4"@[7] == '4',
        "iPad16,5"@.len() == 8 && "iPad16,5"@[0] == 'i' && "iPad16,5"@[4] == '1' && "iPad16,5"@[5] == '6' && "iPad16,5"@[7] == '5',
        "iPad16,6"@.len() == 8 && "iPad16,6"@[0] == 'i' && "iPad16,6"@[4] == '1' && "iPad16,6"@[5] == '6' && "iPad16,6"@[7] == '6',
        "iPod9,1"@.len() == 7 && "iPod9,1"@[0] == 'i' && "iPod9,1"@[4] == '9' && "iPod9,1"@[6] == '1',
{
    reveal_strlit("iPhone13,1");
    reveal_strlit("iPhone13,2");
    reveal_strlit("iPhone13,3");
    reveal_strlit("iPhone13,4");
    reveal_strlit("iPhone14,4");
    reveal_strlit("iPhone14,5");
    reveal_strlit("iPhone14,2");
    reveal_strlit("iPhone14,3");
    reveal_strlit("iPhone14,7");
    reveal_strlit("iPhone14,8");
    reveal_strlit("iPhone15,2");
    reveal_strlit("iPhone15,3");
    reveal_strlit("iPhone15,4");
    reveal_strlit("iPhone15,5");
    reveal_strlit("iPhone16,1");
    reveal_strlit("iPhone16,2");
    reveal_strlit("iPhone17,1");
    reveal_strlit("iPhone17,2");
    reveal_strlit("iPhone17,3");
    reveal_strlit("iPhone17,4");
    reveal_strlit("iPhone17,5");
    reveal_strlit("iPad13,18");
    reveal_strlit("iPad13,19");
    reveal_strlit("iPad14,3");
    reveal_strlit("iPad14,4");
    reveal_strlit("iPad14,5");
    reveal_strlit("iPad14,6");
    reveal_strlit("iPad14,8");
    reveal_strlit("iPad14,9");
    reveal_strlit("iPad14,10");
    reveal_strlit("iPad14,11");
    reveal_strlit("iPad15,3");
    reveal_strlit("iPad15,4");
    reveal_strlit("iPad15,5");
    reveal_strlit("iPad15,6");
    reveal_strlit("iPad15,7");
    reveal_strlit("iPad15,8");
    reveal_strlit("iPad16,3");
    reveal_strlit("iPad16,4");
    reveal_strlit("iPad16,5");
    reveal_strlit("iPad16,6");
    reveal_strlit("iPod9,1");
}

/// How the phones are called.
pub proof fn how_phones_are_called()
    ensures
        model_of("iPhone13,1"@) == Some("iPhone 12 mini"@),
        model_of("iPhone13,2"@) == Some("iPhone 12"@),
        model_of("iPhone13,3"@) == Some("iPhone 12 Pro"@),
        model_of("iPhone13,4"@) == Some("iPhone 12 Pro Max"@),
        model_of("iPhone14,4"@) == Some("iPhone 13 mini"@),
        model_of("iPhone14,5"@) == Some("iPhone 13"@),
        model_of("iPhone14,2"@) == Some("iPhone 13 Pro"@),
        model_of("iPhone14,3"@) == Some("iPhone 13 Pro Max"@),
        model_of("iPhone14,7"@) == Some("iPhone 14"@),
        model_of("iPhone14,8"@) == Some("iPhone 14 Plus"@),
        model_of("iPhone15,2"@) == Some("iPhone 14 Pro"@),
        model_of("iPhone15,3"@) == Some("iPhone 14 Pro Max"@),
        model_of("iPhone15,4"@) == Some("iPhone 15"@),
        model_of("iPhone15,5"@) == Some("iPhone 15 Plus"@),
        model_of("iPhone16,1"@) == Some("iPhone 15 Pro"@),
        model_of("iPhone16,2"@) == Some("iPhone 15 Pro Max"@),
        model_of("iPhone17,1"@) == Some("iPhone 16 Pro"@),
        model_of("iPhone17,2"@) == Some("iPhone 16 Pro Max"@),
        model_of("iPhone17,3"@) == Some("iPhone 16"@),
        model_of("iPhone17,4"@) == Some("iPhone 16 Plus"@),
        model_of("iPhone17,5"@) == Some("iPhone 16e"@),
{
    identifiers_are_told_apart();
}

/// How the tablets are called.
pub proof fn how_tablets_are_called()
    ensures
        model_of("iPad13,18"@) == Some("iPad (10th gen)"@),
        model_of("iPad13,19"@) == Some("iPad (10th gen)"@),
        model_of("iPad14,3"@) == Some("iPad Pro 11\" (4th gen)"@),
        model_of("iPad14,4"@) == Some("iPad Pro 11\" (4th gen)"@),
        model_of("iPad14,5"@) == Some("iPad Pro 12.9\" (6th gen)"@),
        model_of("iPad14,6"@) == Some("iPad Pro 12.9\" (6th gen)"@),
        model_of("iPad14,8"@) == Some("iPad Air 11\" (M2)"@),
        model_of("iPad14,9"@) == Some("iPad Air 11\" (M2)"@),
        model_of("iPad14,10"@) == Some("iPad Air 13\" (M2)"@),
        model_of("iPad14,11"@) == Some("iPad Air 13\" (M2)"@),
        model_of("iPad15,3"@) == Some("iPad Air 11\" (M3)"@),
        model_of("iPad15,4"@) == Some("iPad Air 11\" (M3)"@),
        model_of("iPad15,5"@) == Some("iPad Air 13\" (M3)"@),
        model_of("iPad15,6"@) == Some("iPad Air 13\" (M3)"@),
        model_of("iPad15,7"@) == Some("iPad mini (A17 Pro)"@),
        model_of("iPad15,8"@) == Some("iPad mini (A17 Pro)"@),
        model_of("iPad16,3"@) == Some("iPad Pro 11\" (M4)"@),
        model_of("iPad16,4"@) == Some("iPad Pro 11\" (M4)"@),
        model_of("iPad16,5"@) == Some("iPad Pro 13\" (M4)"@),
        model_of("iPad16,6"@) == Some("iPad Pro 13\" (M4)"@),
        model_of("iPod9,1"@) == Some("iPod touch (7th gen)"@),
{
    identifiers_are_told_apart();
}

/// A model without a name goes by its identifier.
pub proof fn models_without_a_name_keep_their_identifier(id: Seq<char>)
    ensures
        model_of(id) is None ==> friendly(id) == id,
        model_of(id) matches Some(name) ==> friendly(id) == name,
        id.len() == 0 || (id[0] != 'i' && id[0] != 'A') ==> model_of(id) is None,
{
    identifiers_are_told_apart();
}

/// A line of the report is a key and a value with a colon and a space between
/// them, whatever white space stands around either.
pub proof fn lines_are_keys_and_values(
    a: Seq<char>,
    key: Seq<char>,
    value: Seq<char>,
    b: Seq<char>,
)
    requires
        forall|i: int| 0 <= i < a.len() ==> text::is_space(#[trigger] a[i]),
        forall|i: int| 0 <= i < b.len() ==> text::is_space(#[trigger] b[i]),
        !key.contains(':'),
        key.len() > 0,
        !text::is_space(key[0]),
        !text::is_space(key.last()),
        value.len() > 0,
        !text::is_space(value[0]),
        !text::is_space(value.last()),
    ensures
        line_pair(a + key + ": "@ + (value + b)) == Some((key, value)),
        line_pair(key) is None,
{
    reveal_strlit(": ");
    let none: Seq<char> = seq![];
    let k = a + key;
    let p = ": "@;
    let s = k + p + (value + b);
    assert forall|j: int| 0 <= j < k.len() implies (#[trigger] s.subrange(j, j + p.len())) != p by {
        assert(s.subrange(j, j + p.len())[0] == k[j]);
        if j < a.len() {
            assert(k[j] == a[j]);
            text::words_are_no_white_space(':');
        } else {
            assert(k[j] == key[j - a.len()]);
            assert(key.contains(key[j - a.len()]));
        }
    }
    text::text_is_split_at_the_first(k, p, value + b);
    text::surrounded_text_is_trimmed(a, key, none);
    assert(a + key + none =~= a + key);
    text::surrounded_text_is_trimmed(none, value, b);
    assert(none + value + b =~= value + b);
    if text::contains_text(key, p) {
        let i = choose|i: int| text::stands_at(key, i, p);
        assert(key.subrange(i, i + 2)[0] == ':');
        assert(key.contains(key[i]));
    }
}

/// Every line that holds a key and a value is read, in order, and no other.
pub proof fn reports_are_read_line_by_line(lines: Seq<Seq<char>>, line: Seq<char>)
    ensures
        line_pairs(seq![]) == Seq::<(Seq<char>, Seq<char>)>::empty(),
        line_pair(line) matches Some(p) ==> line_pairs(lines.push(line)) == line_pairs(
            lines,
        ).push(p),
        line_pair(line) is None ==> line_pairs(lines.push(line)) == line_pairs(lines),
{
    assert(lines.push(line).drop_last() =~= lines);
}

/// Of the values under a key the last one counts.
pub proof fn last_value_counts(
    pairs: Seq<(Seq<char>, Seq<char>)>,
    key: Seq<char>,
    value: Seq<char>,
    other: Seq<char>,
)
    ensures
        last_value(pairs.push((key, value)), key) == Some(value),
        other != key ==> last_value(pairs.push((other, value)), key) == last_value(pairs, key),
        last_value(seq![], key) is None,
{
    assert(pairs.push((key, value)).drop_last() =~= pairs);
    assert(pairs.push((other, value)).drop_last() =~= pairs);
}

/// What is not known of a device is taken from the report, each from its key.
pub proof fn reports_fill_by_their_keys(
    udid: Seq<char>,
    device_id: u32,
    pairs: Seq<(Seq<char>, Seq<char>)>,
)
    ensures
        ({
            let r = filled_from_report(device::bare_device(udid, device_id), pairs);
            &&& r.name == last_value(pairs, "DeviceName"@)
            &&& (last_value(pairs, "ProductType"@) matches Some(id) ==> r.model == Some(
                friendly(id),
            ))
            &&& (last_value(pairs, "ProductType"@) is None ==> r.model is None)
            &&& r.ios_version == last_value(pairs, "ProductVersion"@)
            &&& r.build_version == last_value(pairs, "BuildVersion"@)
        }),
{
}

} // verus!

//! Dates in property lists.
use std::time::{Duration, SystemTime};

use meridian_relay::daemon::protocol::{parse_body, PacketHeader, RawPacket};
use meridian_relay::dates::check;
use meridian_relay::device::lockdown::{answered_value, encode_request, pair_record, read_answer};
use meridian_relay::plists::{can_be_written, read_value};

const HEADER: PacketHeader = PacketHeader { size: 16, version: 1, message: 8, tag: 1 };

/// A binary list of one entry, a date by its seconds from 2001 on.
fn binary(seconds: f64) -> Vec<u8> {
    let mut b = b"bplist00".to_vec();
    b.extend([0xD1, 1, 2, 0x51, b'a', 0x33]);
    b.extend(seconds.to_bits().to_be_bytes());
    b.extend([8, 11, 13]);
    b.extend([0, 0, 0, 0, 0, 0, 1, 1]);
    b.extend(3u64.to_be_bytes());
    b.extend(0u64.to_be_bytes());
    b.extend(22u64.to_be_bytes());
    b
}

fn xml(element: &str) -> Vec<u8> {
    format!(
        "<?xml version=\"1.0\" encoding=\"UTF-8\"?>\n<plist version=\"1.0\">\n\
         <dict><key>a</key>{element}</dict>\n</plist>\n"
    )
    .into_bytes()
}

fn date(text: &str) -> Vec<u8> {
    xml(&format!("<date>{text}</date>"))
}

fn far_past() -> plist::Value {
    plist::Value::Date((SystemTime::UNIX_EPOCH - Duration::from_secs(100_000_000_000)).into())
}

#[test]
fn binary_dates_in_range_are_read() {
    for seconds in [0.0, -0.0, 1.5, -63145526400.0, 252423993599.0, -978307200.25] {
        let b = binary(seconds);
        assert!(check(&b), "{seconds}");
        let p = parse_body(HEADER, &b).unwrap();
        assert!(p.plist.get("a").unwrap().as_date().is_some(), "{seconds}");
    }
}

#[test]
fn binary_dates_before_the_year_0_are_refused() {
    for seconds in [-1e11, -63145526400.1, -378683424000.0] {
        let b = binary(seconds);
        assert!(!check(&b), "{seconds}");
        let e = parse_body(HEADER, &b).unwrap_err();
        assert!(format!("{e:?}").contains("binary plist parse error: date out of range"), "{e:?}");
        assert_eq!(read_answer(&b).unwrap_err(), "lockdown plist parse failed: date out of range");
    }
}

#[test]
fn binary_dates_that_cannot_be_held_are_left_to_the_reader() {
    for seconds in [
        -378683424000.1,
        252423993600.0,
        1e300,
        f64::INFINITY,
        f64::NEG_INFINITY,
        f64::NAN,
        -f64::NAN,
    ] {
        let b = binary(seconds);
        assert!(check(&b), "{seconds}");
        let e = parse_body(HEADER, &b).unwrap_err();
        assert!(format!("{e:?}").contains("OverflowOrNanDate"), "{e:?}");
    }
}

#[test]
fn binary_dates_that_nothing_refers_to_are_not_read() {
    let list = |second: u8, third: u8| {
        let mut b = b"bplist00".to_vec();
        b.extend([0xD1, second, third, 0x51, b'a', 0x09, 0xA1, 4, 0x33]);
        b.extend((-1e11f64).to_bits().to_be_bytes());
        b.extend([8, 11, 13, 14, 16]);
        b.extend([0, 0, 0, 0, 0, 0, 1, 1]);
        b.extend(5u64.to_be_bytes());
        b.extend(0u64.to_be_bytes());
        b.extend(25u64.to_be_bytes());
        b
    };
    let b = list(1, 2);
    assert!(check(&b));
    assert_eq!(parse_body(HEADER, &b).unwrap().plist.get("a"), Some(&plist::Value::Boolean(true)));
    let b = list(1, 3);
    assert!(!check(&b));
    assert!(parse_body(HEADER, &b).is_err());
    let b = list(1, 0);
    assert!(check(&b));
    assert!(parse_body(HEADER, &b).is_err());
}

#[test]
fn broken_binary_lists_are_left_to_the_reader() {
    for b in [b"bplist00".to_vec(), binary(-1e11)[..40].to_vec(), vec![]] {
        assert!(check(&b));
        assert!(parse_body(HEADER, &b).is_err());
    }
    let mut wide = binary(-1e11);
    let n = wide.len();
    wide[n - 26] = 5;
    assert!(check(&wide));
    assert!(parse_body(HEADER, &wide).is_err());
}

#[test]
fn dates_in_range_are_read() {
    for text in [
        "2024-02-29T12:34:56Z",
        "0001-01-01T00:00:00Z",
        "4001-01-01T00:00:00Z",
        "0000-01-01T00:00:00Z",
        "9999-12-31T23:59:59Z",
        "0000-01-02T00:00:00+23:59",
        "9999-12-30T23:59:59-23:59",
        "0000-01-01T00:00:00.5Z",
        "0000-01-01T01:00:00+01:00",
        "0000-01-01T00:00:00-23:59",
        "0000-01-01T00:00:00.25+00:00",
        "9999-12-31T22:59:59-01:00",
        "9999-12-31T22:59:59.999-01:00",
        "9999-12-31T23:59:59+23:59",
        "2<!-- 0000-01-01 -->024-02-29T12:34:56Z",
        "20&#50;4-0&#x32;-29T12:34:56Z",
        "2024-02-29<![CDATA[x]]>T<?x y?>12:34:56Z",
        "2024&unknown;-02-29T12:34:56Z",
    ] {
        let b = date(text);
        assert!(check(&b), "{text}");
        assert!(parse_body(HEADER, &b).unwrap().plist.get("a").unwrap().as_date().is_some());
    }
    let b = xml("<date x='>' y=\"0000-01-01T00:00:00+01:00\">2024-02-29T12:34:56Z</date >");
    assert!(check(&b));
    assert!(parse_body(HEADER, &b).unwrap().plist.get("a").unwrap().as_date().is_some());
    assert!(check(&xml("<date \n>2024-02-29T12:34:56Z</date>")));
    assert!(check(&xml("<x:date>2024-02-29T12:34:56Z</x:date><key>b</key><true/>")));
}

#[test]
fn dates_out_of_range_are_refused() {
    for element in [
        "<date>0000-01-01T00:00:00+01:00</date>",
        "<date>9999-12-31T23:59:59-01:00</date>",
        "<date\t>9999-12-31T23:59:59-01:00</date>",
        "<x:date>0000-01-01T00:00:00+01:00</x:date>",
        "<date x='>'>0000-01-01T00:00:00+01:00</date>",
        "<date><!-- -->0000-01-01T00:00:00+01:00</date>",
        "<date>0&#48;00-01-01T00:00:00+01:00</date>",
        "<date>9999-12-31<!--aaaaaZ</-->T23:59:59-01:00</date>",
        "<date>0000-01-01T00:59:59.5+01:00</date>",
        "<date>9999-12-31T22:59:00-01:01</date>",
        "<!-- -->\u{2003}&#32;<!-->--><date>0000-01-01T00:00:00+00:01</date>",
        "<string>a &lt; b</string><key>b</key><date>0000-01-01T00:00:00+00:01</date>",
    ] {
        let b = xml(element);
        assert!(!check(&b), "{element}");
        let e = parse_body(HEADER, &b).unwrap_err();
        assert!(format!("{e:?}").contains("xml plist parse error: date out of range"), "{e:?}");
        assert_eq!(read_value(&b).unwrap_err(), "date out of range");
    }
}

#[test]
fn texts_that_speak_of_dates_are_no_dates() {
    let bad = "<date>0000-01-01T00:00:00+01:00</date>";
    for element in [
        "<string>Due:date 0000-01-01T00:00:00+01:00</string>".to_string(),
        "<string>it's:date x</string>".to_string(),
        "<string>&lt;date&gt;0000-01-01T00:00:00+01:00</string>".to_string(),
        format!("<!-- {bad} --><true/>"),
        format!("<string><![CDATA[{bad}]]></string>"),
        format!("<?x {bad}?><true/>"),
        format!("<string x=\"{bad}\">y</string>"),
        format!("<![CDATA[{bad}]]><true/>"),
    ] {
        let b = xml(&element);
        assert!(check(&b), "{element}");
        assert!(parse_body(HEADER, &b).unwrap().plist.contains_key("a"), "{element}");
    }
    for quoted in [
        format!("<!DOCTYPE plist SYSTEM \"]>[{bad}\">"),
        format!("<!doctype plist [<!-- {bad} ]> --><!ENTITY a '{bad}]>'><?a {bad}?>]>"),
    ] {
        let b = format!("{quoted}<plist><dict><key>a</key><true/></dict></plist>").into_bytes();
        assert!(check(&b), "{quoted}");
        assert!(parse_body(HEADER, &b).unwrap().plist.contains_key("a"), "{quoted}");
        let b = format!("{quoted}<plist><dict><key>a</key>{bad}</dict></plist>").into_bytes();
        assert!(!check(&b), "{quoted}");
        assert!(parse_body(HEADER, &b).is_err(), "{quoted}");
    }
    let b = format!("\u{feff}<plist>{bad}</plist>").into_bytes();
    assert!(!check(&b));
}

#[test]
fn lists_that_are_not_xml_have_no_dates() {
    let bad = "<date>0000-01-01T00:00:00+01:00</date>";
    let b = format!("{{ a = \"{bad}\"; }}").into_bytes();
    assert!(check(&b));
    let d = read_value(&b).unwrap();
    assert_eq!(d.as_dictionary().unwrap().get("a").unwrap().as_string(), Some(bad));
    for text in [
        format!("<dates>{bad}</dates>"),
        format!("&amp{bad}"),
        format!("&lt;{bad}"),
        format!("&#0;{bad}"),
        format!("&#x110000;{bad}"),
        format!("<!x>{bad}"),
        format!("<'x:date >'>0000-01-01T00:00:00+01:00</'x:date>"),
    ] {
        assert!(check(text.as_bytes()), "{text}");
        let _ = read_value(text.as_bytes());
    }
}

/// A document type with a comment over two full blocks, the first of which
/// ends in a hyphen and the second in `x-`, and an element behind it.
fn over_blocks(element: &str) -> Vec<u8> {
    let mut b = b"<!DOCTYPE plist [<!-- ".to_vec();
    b.resize(8191, b'x');
    b.push(b'-');
    b.resize(16383, b'x');
    b.push(b'-');
    b.extend(b">]><plist><dict><key>a</key>");
    b.extend(element.as_bytes());
    b.extend(b"</dict></plist>");
    b
}

#[test]
fn comments_over_blocks_end_where_they_are_read_to_end() {
    let b = over_blocks("<true/>");
    assert!(check(&b));
    assert!(parse_body(HEADER, &b).unwrap().plist.contains_key("a"));
    let b = over_blocks("<date>0000-01-01T00:00:00+01:00</date>");
    assert!(!check(&b));
    assert!(parse_body(HEADER, &b).is_err());
}

#[test]
fn dates_that_have_no_text_are_not_written() {
    let now = plist::Value::Date(SystemTime::now().into());
    assert!(can_be_written(&now) && !can_be_written(&far_past()));
    let nested = plist::Value::Array(vec![now.clone(), plist::Value::Real(0.5), far_past()]);
    assert!(!can_be_written(&nested));
    let late = SystemTime::UNIX_EPOCH + Duration::from_secs(253_402_300_800);
    assert!(!can_be_written(&plist::Value::Date(late.into())));
    let early = SystemTime::UNIX_EPOCH - Duration::from_secs(62_167_219_200);
    assert!(can_be_written(&plist::Value::Date(early.into())));
    assert!(!can_be_written(&plist::Value::Date((early - Duration::from_nanos(1)).into())));

    let mut good = plist::Dictionary::new();
    good.insert("a".into(), now.clone());
    good.insert("b".into(), plist::Value::Array(vec![plist::Value::Real(0.5)]));
    assert!(RawPacket::new(good.clone(), 1, 8, 1).to_bytes().is_ok());
    assert!(encode_request(&good).is_ok());
    let mut bad = plist::Dictionary::new();
    bad.insert("a".into(), plist::Value::Dictionary(good));
    bad.insert("Value".into(), nested);
    assert_eq!(answered_value(&bad), None);
    assert_eq!(encode_request(&bad).unwrap_err(), "date out of range");
    assert_eq!(RawPacket::new(bad, 1, 8, 1).to_bytes().unwrap_err(), "date out of range");

    let mut shown = plist::Dictionary::new();
    shown.insert("Value".into(), plist::Value::Boolean(true));
    assert_eq!(answered_value(&shown).unwrap(), "Boolean(true)");
}

#[test]
fn pair_records_with_such_dates_are_refused() {
    let mut d = plist::Dictionary::new();
    d.insert("PairRecordData".into(), plist::Value::Data(binary(-1e11)));
    assert_eq!(pair_record(&RawPacket::new(d, 1, 8, 1)).unwrap_err(), "date out of range");
    let mut d = plist::Dictionary::new();
    d.insert("PairRecordData".into(), plist::Value::Data(binary(1.0)));
    assert!(pair_record(&RawPacket::new(d, 1, 8, 1)).is_ok());
}

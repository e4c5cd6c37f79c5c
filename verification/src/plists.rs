//! Property lists, the values that clients and devices exchange, as the
//! `plist` crate holds, writes and reads them.
use crate::dates;
use vstd::prelude::*;

verus! {

/// `plist::Dictionary`, an ordered map from texts to values.
#[verifier::external_type_specification]
#[verifier::external_body]
pub struct ExDictionary(plist::Dictionary);

/// `plist::Value`, any value of a property list.
#[verifier::external_type_specification]
#[verifier::external_body]
pub struct ExValue(plist::Value);

/// A moment, by its distance from the beginning of 1970 in UTC.
#[derive(Debug, Clone, Copy, PartialEq, Eq, Structural)]
pub struct Moment {
    /// Whether it lies before the beginning of 1970.
    pub before: bool,
    pub secs: u64,
    pub nanos: u32,
}

/// The distance, in seconds, of the end of the year 9999.
pub const LAST_YEAR_ENDS: u64 = 253402300800;

/// The distance, in seconds, of the beginning of the year 0.
pub const FIRST_YEAR_BEGINS: u64 = 62167219200;

impl Moment {
    /// Whether the moment lies in a year from 0 to 9999.
    pub open spec fn has_four_digits(self) -> bool {
        if self.before {
            self.secs < FIRST_YEAR_BEGINS || (self.secs == FIRST_YEAR_BEGINS && self.nanos == 0)
        } else {
            self.secs < LAST_YEAR_ENDS
        }
    }

    /// Whether the moment lies in a year from 0 to 9999.
    pub fn year_has_four_digits(&self) -> (b: bool)
        ensures
            b == self.has_four_digits(),
    {
        if self.before {
            self.secs < FIRST_YEAR_BEGINS || (self.secs == FIRST_YEAR_BEGINS && self.nanos == 0)
        } else {
            self.secs < LAST_YEAR_ENDS
        }
    }
}

/// A value of a property list. Reals and object numbers, which nothing here
/// looks into, stand for themselves.
pub ghost enum Plist {
    Text(Seq<char>),
    Integer(int),
    Data(Seq<u8>),
    Boolean(bool),
    Date(Moment),
    Array(Seq<Plist>),
    Dict(Seq<(Seq<char>, Plist)>),
    Other(plist::Value),
}

/// The entries of a dictionary, in order. No key occurs twice.
pub uninterp spec fn entries(d: plist::Dictionary) -> Seq<(Seq<char>, Plist)>;

/// What a value holds.
pub uninterp spec fn contents(v: plist::Value) -> Plist;

/// The value under key `k`.
pub open spec fn lookup(e: Seq<(Seq<char>, Plist)>, k: Seq<char>) -> Option<Plist>
    decreases e.len(),
{
    if e.len() == 0 {
        None
    } else if e.last().0 == k {
        Some(e.last().1)
    } else {
        lookup(e.drop_last(), k)
    }
}

/// The entries with `v` under key `k`: at the place of the entry that had
/// the key, or at the end.
pub open spec fn inserted(e: Seq<(Seq<char>, Plist)>, k: Seq<char>, v: Plist) -> Seq<
    (Seq<char>, Plist),
> {
    if lookup(e, k) is Some {
        replaced(e, k, v)
    } else {
        e.push((k, v))
    }
}

/// The entries with `v` in place of what stands under key `k`.
pub open spec fn replaced(e: Seq<(Seq<char>, Plist)>, k: Seq<char>, v: Plist) -> Seq<
    (Seq<char>, Plist),
> {
    e.map_values(
        |x: (Seq<char>, Plist)|
            if x.0 == k {
                (k, v)
            } else {
                x
            },
    )
}

/// The text that a value holds.
pub open spec fn text_of(v: Option<Plist>) -> Option<Seq<char>> {
    match v {
        Some(Plist::Text(s)) => Some(s),
        _ => None,
    }
}

/// The number that a value holds, where it fits in 64 bits without a sign.
pub open spec fn unsigned_of(v: Option<Plist>) -> Option<int> {
    match v {
        Some(Plist::Integer(n)) => if 0 <= n <= u64::MAX {
            Some(n)
        } else {
            None
        },
        _ => None,
    }
}

/// The bytes that a value holds.
pub open spec fn data_of(v: Option<Plist>) -> Option<Seq<u8>> {
    match v {
        Some(Plist::Data(b)) => Some(b),
        _ => None,
    }
}

/// The truth value that a value holds.
pub open spec fn boolean_of(v: Option<Plist>) -> Option<bool> {
    match v {
        Some(Plist::Boolean(b)) => Some(b),
        _ => None,
    }
}

/// The items that a value holds.
pub open spec fn array_of(v: Option<Plist>) -> Option<Seq<Plist>> {
    match v {
        Some(Plist::Array(a)) => Some(a),
        _ => None,
    }
}

/// The entries that a value holds.
pub open spec fn dict_of(v: Option<Plist>) -> Option<Seq<(Seq<char>, Plist)>> {
    match v {
        Some(Plist::Dict(e)) => Some(e),
        _ => None,
    }
}

/// The moment that a value holds.
pub open spec fn date_of(v: Option<Plist>) -> Option<Moment> {
    match v {
        Some(Plist::Date(m)) => Some(m),
        _ => None,
    }
}

/// What the values in `v` hold, in order.
pub open spec fn contents_of(v: Seq<plist::Value>) -> Seq<Plist> {
    v.map_values(|x: plist::Value| contents(x))
}

/// `Dictionary::new` makes a dictionary without entries.
pub assume_specification[ plist::Dictionary::new ]() -> (d: plist::Dictionary)
    ensures
        entries(d) == Seq::<(Seq<char>, Plist)>::empty(),
;

/// `Dictionary::insert` puts a value under a key, in the key's place if it
/// was there and at the end otherwise, and returns what was there.
pub assume_specification[ plist::Dictionary::insert ](
    d: &mut plist::Dictionary,
    k: String,
    v: plist::Value,
) -> (before: Option<plist::Value>)
    ensures
        entries(*final(d)) == inserted(entries(*old(d)), k@, contents(v)),
        lookup(entries(*old(d)), k@) == match before {
            Some(b) => Some(contents(b)),
            None => None,
        },
;

/// `Dictionary::get` finds the value under a key.
pub assume_specification<'a>[ plist::Dictionary::get ](d: &'a plist::Dictionary, key: &str) -> (v:
    Option<&'a plist::Value>)
    ensures
        lookup(entries(*d), key@) == match v {
            Some(x) => Some(contents(*x)),
            None => None,
        },
;

/// `Dictionary::clone` copies the entries.
pub assume_specification[ <plist::Dictionary as Clone>::clone ](d: &plist::Dictionary) -> (c:
    plist::Dictionary)
    ensures
        entries(c) == entries(*d),
;

/// `Value::as_string` gives the text of a text.
pub assume_specification[ plist::Value::as_string ](v: &plist::Value) -> (r: Option<&str>)
    ensures
        text_of(Some(contents(*v))) == match r {
            Some(s) => Some(s@),
            None => None,
        },
;

/// `Value::as_unsigned_integer` gives the number of an integer that fits.
pub assume_specification[ plist::Value::as_unsigned_integer ](v: &plist::Value) -> (r: Option<u64>)
    ensures
        unsigned_of(Some(contents(*v))) == match r {
            Some(n) => Some(n as int),
            None => None,
        },
;

/// `Value::as_data` gives the bytes of a datum.
pub assume_specification[ plist::Value::as_data ](v: &plist::Value) -> (r: Option<&[u8]>)
    ensures
        data_of(Some(contents(*v))) == match r {
            Some(b) => Some(b@),
            None => None,
        },
;

/// `Value::as_boolean` gives a truth value.
pub assume_specification[ plist::Value::as_boolean ](v: &plist::Value) -> (r: Option<bool>)
    ensures
        boolean_of(Some(contents(*v))) == r,
;

/// `Value::as_array` gives the items of an array.
pub assume_specification[ plist::Value::as_array ](v: &plist::Value) -> (r: Option<
    &Vec<plist::Value>,
>)
    ensures
        array_of(Some(contents(*v))) == match r {
            Some(a) => Some(contents_of(a@)),
            None => None,
        },
;

/// `Value::as_dictionary` gives the dictionary of a dictionary value.
pub assume_specification[ plist::Value::as_dictionary ](v: &plist::Value) -> (r: Option<
    &plist::Dictionary,
>)
    ensures
        dict_of(Some(contents(*v))) == match r {
            Some(d) => Some(entries(*d)),
            None => None,
        },
;

/// `Value::as_date` gives the moment of a date, here as its distance from the
/// beginning of 1970.
#[verifier::external_body]
fn moment_of(v: &plist::Value) -> (r: Option<Moment>)
    ensures
        date_of(Some(contents(*v))) == r,
{
    match v.as_date() {
        Some(date) => {
            let time = std::time::SystemTime::from(date);
            let (before, d) = match time.duration_since(std::time::UNIX_EPOCH) {
                Ok(d) => (false, d),
                Err(e) => (true, e.duration()),
            };
            Some(Moment { before, secs: d.as_secs(), nanos: d.subsec_nanos() })
        },
        None => None,
    }
}

/// Whether `vs` are the values of the entries, in order.
pub open spec fn values_are(e: Seq<(Seq<char>, Plist)>, vs: Seq<&plist::Value>) -> bool {
    &&& vs.len() == e.len()
    &&& forall|i: int| 0 <= i < e.len() ==> contents(*#[trigger] vs[i]) == e[i].1
}

/// `Dictionary::values` gives the values of the entries, in order.
#[verifier::external_body]
fn values_in<'a>(d: &'a plist::Dictionary) -> (vs: Vec<&'a plist::Value>)
    ensures
        values_are(entries(*d), vs@),
{
    d.values().collect()
}

/// `plist::Value::String` holds a text.
#[verifier::external_body]
pub(crate) fn text_value(s: String) -> (v: plist::Value)
    ensures
        contents(v) == Plist::Text(s@),
{
    plist::Value::String(s)
}

/// `plist::Value::Integer` holds a number.
#[verifier::external_body]
pub(crate) fn integer_value(n: u64) -> (v: plist::Value)
    ensures
        contents(v) == Plist::Integer(n as int),
{
    plist::Value::Integer(n.into())
}

/// `plist::Value::Data` holds bytes.
#[verifier::external_body]
pub(crate) fn data_value(b: Vec<u8>) -> (v: plist::Value)
    ensures
        contents(v) == Plist::Data(b@),
{
    plist::Value::Data(b)
}

/// `plist::Value::Array` holds values in order.
#[verifier::external_body]
pub(crate) fn array_value(a: Vec<plist::Value>) -> (v: plist::Value)
    ensures
        contents(v) == Plist::Array(contents_of(a@)),
{
    plist::Value::Array(a)
}

/// `plist::Value::Dictionary` holds a dictionary.
#[verifier::external_body]
pub(crate) fn dict_value(d: plist::Dictionary) -> (v: plist::Value)
    ensures
        contents(v) == Plist::Dict(entries(d)),
{
    plist::Value::Dictionary(d)
}

/// Whether no key occurs twice.
pub open spec fn distinct_keys(e: Seq<(Seq<char>, Plist)>) -> bool {
    forall|i: int, j: int| 0 <= i < j < e.len() ==> (#[trigger] e[i]).0 != (#[trigger] e[j]).0
}

/// Whether a value is made of texts, integers of 64 bits, data, truth
/// values, arrays and dictionaries alone.
pub open spec fn plain(v: Plist) -> bool
    decreases v,
{
    match v {
        Plist::Text(_) => true,
        Plist::Integer(n) => i64::MIN <= n <= u64::MAX,
        Plist::Data(_) => true,
        Plist::Boolean(_) => true,
        Plist::Array(a) => forall|i: int| 0 <= i < a.len() ==> plain(#[trigger] a[i]),
        Plist::Dict(e) => distinct_keys(e) && forall|i: int|
            0 <= i < e.len() ==> plain((#[trigger] e[i]).1),
        Plist::Date(_) => false,
        Plist::Other(_) => false,
    }
}

/// Whether a value can be written: no date in it lies in a year that has
/// not four digits.
pub open spec fn writable(v: Plist) -> bool
    decreases v,
{
    match v {
        Plist::Date(m) => m.has_four_digits(),
        Plist::Array(a) => forall|i: int| 0 <= i < a.len() ==> writable(#[trigger] a[i]),
        Plist::Dict(e) => forall|i: int| 0 <= i < e.len() ==> writable((#[trigger] e[i]).1),
        _ => true,
    }
}

/// Plain values can be written.
pub proof fn plain_is_writable(v: Plist)
    requires
        plain(v),
    ensures
        writable(v),
    decreases v,
{
    match v {
        Plist::Array(a) => {
            assert forall|i: int| 0 <= i < a.len() implies writable(#[trigger] a[i]) by {
                plain_is_writable(a[i]);
            }
        },
        Plist::Dict(e) => {
            assert forall|i: int| 0 <= i < e.len() implies writable((#[trigger] e[i]).1) by {
                plain_is_writable(e[i].1);
            }
        },
        _ => {},
    }
}

/// Whether a value can be written.
pub fn can_be_written(v: &plist::Value) -> (b: bool)
    ensures
        b == writable(contents(*v)),
    decreases contents(*v), 1int,
{
    if let Some(m) = moment_of(v) {
        return m.year_has_four_digits();
    }
    if let Some(a) = v.as_array() {
        let ghost held = contents_of(a@);
        let mut i: usize = 0;
        while i < a.len()
            invariant
                i <= a@.len(),
                held == contents_of(a@),
                contents(*v) == Plist::Array(held),
                forall|j: int| 0 <= j < i ==> writable(#[trigger] held[j]),
            decreases a@.len() - i,
        {
            proof {
                let whole = contents(*v);
                assert(held[i as int] == contents(a@[i as int]));
                assert(decreases_to!(whole => whole->Array_0));
                assert(decreases_to!(held => held[i as int]));
            }
            if !can_be_written(&a[i]) {
                return false;
            }
            i = i + 1;
        }
        return true;
    }
    if let Some(d) = v.as_dictionary() {
        return dict_can_be_written(d);
    }
    true
}

/// Whether a dictionary can be written.
pub fn dict_can_be_written(d: &plist::Dictionary) -> (b: bool)
    ensures
        b == writable(Plist::Dict(entries(*d))),
    decreases Plist::Dict(entries(*d)), 0int,
{
    let vs = values_in(d);
    let ghost e = entries(*d);
    let mut i: usize = 0;
    while i < vs.len()
        invariant
            i <= vs@.len(),
            e == entries(*d),
            values_are(e, vs@),
            forall|j: int| 0 <= j < i ==> writable((#[trigger] e[j]).1),
        decreases vs@.len() - i,
    {
        proof {
            let whole = Plist::Dict(e);
            assert(contents(*vs@[i as int]) == e[i as int].1);
            assert(decreases_to!(whole => whole->Dict_0));
            assert(decreases_to!(e => e[i as int]));
            assert(decreases_to!(e[i as int] => e[i as int].1));
        }
        if !can_be_written(vs[i]) {
            return false;
        }
        i = i + 1;
    }
    true
}

/// What `plist::to_writer_xml` writes for a dictionary value with these
/// entries: the bytes, or the message of its error.
pub uninterp spec fn packet_xml(e: Seq<(Seq<char>, Plist)>) -> Result<Seq<u8>, Seq<char>>;

/// What `plist::from_bytes` reads as a dictionary: its entries, or the
/// message of its error.
pub uninterp spec fn packet_plist(b: Seq<u8>) -> Result<Seq<(Seq<char>, Plist)>, Seq<char>>;

/// What `plist::Value::to_writer_xml` writes for a dictionary value with
/// these entries: the bytes, or the message of its error.
pub uninterp spec fn value_xml(e: Seq<(Seq<char>, Plist)>) -> Result<Seq<u8>, Seq<char>>;

/// What `plist::from_bytes` reads as a value: what it holds, or the message
/// of its error.
pub uninterp spec fn value_plist(b: Seq<u8>) -> Result<Plist, Seq<char>>;

/// How a value is written by its `Debug`.
pub uninterp spec fn debug_shown(v: Plist) -> Seq<char>;

/// Whether what was read from `b`, whose dates are in range, is what was
/// written, wherever `b` was written for plain entries.
pub open spec fn gives_packet_back(b: Seq<u8>, read: Option<Seq<(Seq<char>, Plist)>>) -> bool {
    dates::fit(b) ==> forall|e: Seq<(Seq<char>, Plist)>|
        plain(Plist::Dict(e)) && #[trigger] packet_xml(e) == Ok::<Seq<u8>, Seq<char>>(b) ==> read
            == Some(e)
}

/// Whether what was read from `b`, whose dates are in range, is what was
/// written, wherever `b` was written for plain entries.
pub open spec fn gives_value_back(b: Seq<u8>, read: Option<Plist>) -> bool {
    dates::fit(b) ==> forall|e: Seq<(Seq<char>, Plist)>|
        plain(Plist::Dict(e)) && #[trigger] value_xml(e) == Ok::<Seq<u8>, Seq<char>>(b) ==> read
            == Some(Plist::Dict(e))
}

/// `plist::to_writer_xml` on a dictionary value, into memory: claims that
/// the outcome is the one named by `packet_xml`, which depends on the entries
/// alone; that plain entries are written, as a document without dates; and
/// that the document begins with an angle bracket. A date is written through
/// its text, which it has only in a year of four digits. It recurses into
/// nested values, and nothing is said of a nesting for which the stack does
/// not suffice.
#[verifier::external_body]
fn write_packet_xml(d: &plist::Dictionary) -> (r: Result<Vec<u8>, String>)
    requires
        writable(Plist::Dict(entries(*d))),
    ensures
        match r {
            Ok(b) => packet_xml(entries(*d)) == Ok::<Seq<u8>, Seq<char>>(b@),
            Err(m) => packet_xml(entries(*d)) == Err::<Seq<u8>, Seq<char>>(m@),
        },
        match r {
            Ok(b) => plain(Plist::Dict(entries(*d))) ==> dates::fit(b@),
            Err(_) => !plain(Plist::Dict(entries(*d))),
        },
        r matches Ok(b) ==> b@.len() > 0 && b@[0] == 0x3C,
{
    let mut out = Vec::new();
    match plist::to_writer_xml(&mut out, &plist::Value::Dictionary(d.clone())) {
        Ok(()) => Ok(out),
        Err(e) => Err(e.to_string()),
    }
}

/// `plist::from_bytes` as a dictionary: claims that the outcome is the one
/// named by `packet_plist`, which depends on the bytes alone; and that the
/// bytes that were written for plain entries give those entries back. A date
/// is read through its text, which it has only in a year of four digits. It
/// recurses into nested values, and nothing is said of a nesting for which
/// the stack does not suffice, nor of a system whose `SystemTime` cannot hold
/// all those years.
#[verifier::external_body]
fn read_packet_plist(b: &[u8]) -> (r: Result<plist::Dictionary, String>)
    requires
        dates::fit(b@),
    ensures
        match r {
            Ok(d) => packet_plist(b@) == Ok::<Seq<(Seq<char>, Plist)>, Seq<char>>(entries(d)),
            Err(m) => packet_plist(b@) == Err::<Seq<(Seq<char>, Plist)>, Seq<char>>(m@),
        },
        gives_packet_back(
            b@,
            match r {
                Ok(d) => Some(entries(d)),
                Err(_) => None,
            },
        ),
{
    match plist::from_bytes(b) {
        Ok(d) => Ok(d),
        Err(e) => {
            let e: plist::Error = e;
            Err(e.to_string())
        },
    }
}

/// `plist::Value::to_writer_xml` on a dictionary value, into memory: claims
/// that the outcome is the one named by `value_xml`, which depends on the
/// entries alone; that plain entries are written, as a document without
/// dates; and that the document begins with an angle bracket. A date is
/// written through its text, which it has only in a year of four digits. It
/// recurses into nested values, and nothing is said of a nesting for which
/// the stack does not suffice.
#[verifier::external_body]
fn write_value_xml(d: &plist::Dictionary) -> (r: Result<Vec<u8>, String>)
    requires
        writable(Plist::Dict(entries(*d))),
    ensures
        match r {
            Ok(b) => value_xml(entries(*d)) == Ok::<Seq<u8>, Seq<char>>(b@),
            Err(m) => value_xml(entries(*d)) == Err::<Seq<u8>, Seq<char>>(m@),
        },
        match r {
            Ok(b) => plain(Plist::Dict(entries(*d))) ==> dates::fit(b@),
            Err(_) => !plain(Plist::Dict(entries(*d))),
        },
        r matches Ok(b) ==> b@.len() > 0 && b@[0] == 0x3C,
{
    let mut out = Vec::new();
    match plist::Value::Dictionary(d.clone()).to_writer_xml(&mut out) {
        Ok(()) => Ok(out),
        Err(e) => Err(e.to_string()),
    }
}

/// `plist::from_bytes` as a value: claims that the outcome is the one named
/// by `value_plist`, which depends on the bytes alone; and that the bytes that
/// were written for plain entries give a dictionary of those entries back. A
/// date is read through its text, which it has only in a year of four digits.
/// It recurses into nested values, and nothing is said of a nesting for which
/// the stack does not suffice, nor of a system whose `SystemTime` cannot hold
/// all those years.
#[verifier::external_body]
fn read_value_plist(b: &[u8]) -> (r: Result<plist::Value, String>)
    requires
        dates::fit(b@),
    ensures
        match r {
            Ok(v) => value_plist(b@) == Ok::<Plist, Seq<char>>(contents(v)),
            Err(m) => value_plist(b@) == Err::<Plist, Seq<char>>(m@),
        },
        gives_value_back(
            b@,
            match r {
                Ok(v) => Some(contents(v)),
                Err(_) => None,
            },
        ),
{
    match plist::from_bytes(b) {
        Ok(v) => Ok(v),
        Err(e) => {
            let e: plist::Error = e;
            Err(e.to_string())
        },
    }
}

/// `plist::Value`'s `Debug`: claims that the text is the one named by
/// `debug_shown`, which depends on what the value holds. A date is shown by
/// its text, which it has only in a year of four digits.
#[verifier::external_body]
fn debug_text(v: &plist::Value) -> (s: String)
    requires
        writable(contents(*v)),
    ensures
        s@ == debug_shown(contents(*v)),
{
    format!("{v:?}")
}

/// The message for a date in a year that has not four digits.
pub open spec fn bad_date_text() -> Seq<char> {
    "date out of range"@
}

/// What is written for a packet's entries: the bytes, or why they cannot be
/// written.
pub open spec fn packet_written(e: Seq<(Seq<char>, Plist)>) -> Result<Seq<u8>, Seq<char>> {
    if writable(Plist::Dict(e)) {
        packet_xml(e)
    } else {
        Err(bad_date_text())
    }
}

/// Writes a packet's entries. Plain entries can always be written, and the
/// dates in what is written for them are in range: there are none.
pub fn write_packet(d: &plist::Dictionary) -> (r: Result<Vec<u8>, String>)
    ensures
        match r {
            Ok(b) => packet_written(entries(*d)) == Ok::<Seq<u8>, Seq<char>>(b@),
            Err(m) => packet_written(entries(*d)) == Err::<Seq<u8>, Seq<char>>(m@),
        },
        plain(Plist::Dict(entries(*d))) ==> (r matches Ok(b) && dates::fit(b@)),
        r matches Ok(b) ==> b@.len() > 0,
{
    proof {
        if plain(Plist::Dict(entries(*d))) {
            plain_is_writable(Plist::Dict(entries(*d)));
        }
    }
    if dict_can_be_written(d) {
        write_packet_xml(d)
    } else {
        Err("date out of range".to_owned())
    }
}

/// What is read as a packet's entries: the entries, or why they cannot be
/// read.
pub open spec fn packet_read(b: Seq<u8>) -> Result<Seq<(Seq<char>, Plist)>, Seq<char>> {
    if dates::fit(b) {
        packet_plist(b)
    } else {
        Err(bad_date_text())
    }
}

/// Reads a packet's entries. Bytes that were written for plain entries give
/// those entries back.
pub fn read_packet(b: &[u8]) -> (r: Result<plist::Dictionary, String>)
    ensures
        match r {
            Ok(d) => packet_read(b@) == Ok::<Seq<(Seq<char>, Plist)>, Seq<char>>(entries(d)),
            Err(m) => packet_read(b@) == Err::<Seq<(Seq<char>, Plist)>, Seq<char>>(m@),
        },
        gives_packet_back(
            b@,
            match r {
                Ok(d) => Some(entries(d)),
                Err(_) => None,
            },
        ),
{
    if dates::check(b) {
        read_packet_plist(b)
    } else {
        Err("date out of range".to_owned())
    }
}

/// What is written for entries on their own: the bytes, or why they cannot
/// be written.
pub open spec fn value_written(e: Seq<(Seq<char>, Plist)>) -> Result<Seq<u8>, Seq<char>> {
    if writable(Plist::Dict(e)) {
        value_xml(e)
    } else {
        Err(bad_date_text())
    }
}

/// Writes entries on their own. Plain entries can always be written, and the
/// dates in what is written for them are in range: there are none.
pub fn write_value(d: &plist::Dictionary) -> (r: Result<Vec<u8>, String>)
    ensures
        match r {
            Ok(b) => value_written(entries(*d)) == Ok::<Seq<u8>, Seq<char>>(b@),
            Err(m) => value_written(entries(*d)) == Err::<Seq<u8>, Seq<char>>(m@),
        },
        plain(Plist::Dict(entries(*d))) ==> (r matches Ok(b) && dates::fit(b@)),
        r matches Ok(b) ==> b@.len() > 0,
{
    proof {
        if plain(Plist::Dict(entries(*d))) {
            plain_is_writable(Plist::Dict(entries(*d)));
        }
    }
    if dict_can_be_written(d) {
        write_value_xml(d)
    } else {
        Err("date out of range".to_owned())
    }
}

/// What is read as a value: what it holds, or why it cannot be read.
pub open spec fn value_read(b: Seq<u8>) -> Result<Plist, Seq<char>> {
    if dates::fit(b) {
        value_plist(b)
    } else {
        Err(bad_date_text())
    }
}

/// Reads a value. Bytes that were written for plain entries give a dictionary
/// of those entries back.
pub fn read_value(b: &[u8]) -> (r: Result<plist::Value, String>)
    ensures
        match r {
            Ok(v) => value_read(b@) == Ok::<Plist, Seq<char>>(contents(v)),
            Err(m) => value_read(b@) == Err::<Plist, Seq<char>>(m@),
        },
        gives_value_back(
            b@,
            match r {
                Ok(v) => Some(contents(v)),
                Err(_) => None,
            },
        ),
{
    if dates::check(b) {
        read_value_plist(b)
    } else {
        Err("date out of range".to_owned())
    }
}

/// How a value is shown; nothing if it has a date that cannot be written.
pub fn shown_value(v: &plist::Value) -> (r: Option<String>)
    ensures
        crate::text::opt_view(r) == if writable(contents(*v)) {
            Some(debug_shown(contents(*v)))
        } else {
            None
        },
{
    if can_be_written(v) {
        Some(debug_text(v))
    } else {
        None
    }
}

/// The text under a key.
pub fn get_text(d: &plist::Dictionary, key: &str) -> (r: Option<String>)
    ensures
        crate::text::opt_view(r) == text_of(lookup(entries(*d), key@)),
{
    match d.get(key) {
        Some(v) => match v.as_string() {
            Some(s) => Some(s.to_owned()),
            None => None,
        },
        None => None,
    }
}

/// The number under a key.
pub fn get_unsigned(d: &plist::Dictionary, key: &str) -> (r: Option<u64>)
    ensures
        unsigned_of(lookup(entries(*d), key@)) == match r {
            Some(n) => Some(n as int),
            None => None,
        },
{
    match d.get(key) {
        Some(v) => v.as_unsigned_integer(),
        None => None,
    }
}

/// The bytes under a key.
pub fn get_data(d: &plist::Dictionary, key: &str) -> (r: Option<Vec<u8>>)
    ensures
        data_of(lookup(entries(*d), key@)) == match r {
            Some(b) => Some(b@),
            None => None,
        },
{
    match d.get(key) {
        Some(v) => match v.as_data() {
            Some(b) => {
                let copy = crate::bytes::copy_range(b, 0, b.len());
                assert(copy@ =~= b@);
                Some(copy)
            },
            None => None,
        },
        None => None,
    }
}

/// The truth value under a key.
pub fn get_boolean(d: &plist::Dictionary, key: &str) -> (r: Option<bool>)
    ensures
        r == boolean_of(lookup(entries(*d), key@)),
{
    match d.get(key) {
        Some(v) => v.as_boolean(),
        None => None,
    }
}

/// Puts a text under a key.
pub fn put_text(d: &mut plist::Dictionary, key: &str, s: &str)
    ensures
        entries(*final(d)) == inserted(entries(*old(d)), key@, Plist::Text(s@)),
{
    d.insert(key.to_owned(), text_value(s.to_owned()));
}

/// Puts a number under a key.
pub fn put_integer(d: &mut plist::Dictionary, key: &str, n: u64)
    ensures
        entries(*final(d)) == inserted(entries(*old(d)), key@, Plist::Integer(n as int)),
{
    d.insert(key.to_owned(), integer_value(n));
}

/// A key that no entry has is not found.
pub proof fn absent_key_is_not_found(e: Seq<(Seq<char>, Plist)>, k: Seq<char>)
    ensures
        lookup(e, k) is None <==> forall|i: int| 0 <= i < e.len() ==> (#[trigger] e[i]).0 != k,
    decreases e.len(),
{
    if e.len() > 0 {
        let rest = e.drop_last();
        absent_key_is_not_found(rest, k);
        if lookup(e, k) is None {
            assert forall|i: int| 0 <= i < e.len() implies (#[trigger] e[i]).0 != k by {
                if i < e.len() - 1 {
                    assert(rest[i].0 != k);
                }
            }
        }
        if forall|i: int| 0 <= i < e.len() ==> (#[trigger] e[i]).0 != k {
            assert(e[e.len() - 1].0 != k);
            assert forall|i: int| 0 <= i < rest.len() implies (#[trigger] rest[i]).0 != k by {
                assert(rest[i] == e[i]);
            }
        }
    }
}

/// What stands under a key is found there, if no later entry has the key.
pub proof fn entry_is_found(e: Seq<(Seq<char>, Plist)>, i: int)
    requires
        0 <= i < e.len(),
        forall|j: int| i < j < e.len() ==> (#[trigger] e[j]).0 != e[i].0,
    ensures
        lookup(e, e[i].0) == Some(e[i].1),
    decreases e.len(),
{
    if i < e.len() - 1 {
        let front = e.drop_last();
        assert(e[e.len() - 1].0 != e[i].0);
        assert(front[i] == e[i]);
        assert forall|j: int| i < j < front.len() implies (#[trigger] front[j]).0 != front[i].0 by {
            assert(front[j] == e[j]);
        }
        entry_is_found(front, i);
    }
}

/// What is put under a key is found there, and what stands under other keys
/// stays.
pub proof fn put_entries_are_found(e: Seq<(Seq<char>, Plist)>, k: Seq<char>, v: Plist, other: Seq<char>)
    ensures
        lookup(inserted(e, k, v), k) == Some(v),
        other != k ==> lookup(inserted(e, k, v), other) == lookup(e, other),
        inserted(e, k, v).len() == if lookup(e, k) is Some {
            e.len()
        } else {
            e.len() + 1
        },
{
    if lookup(e, k) is Some {
        replaced_entries_are_found(e, k, v, other);
    } else {
        assert(e.push((k, v)).drop_last() =~= e);
    }
}

proof fn replaced_entries_are_found(
    e: Seq<(Seq<char>, Plist)>,
    k: Seq<char>,
    v: Plist,
    other: Seq<char>,
)
    ensures
        lookup(e, k) is Some ==> lookup(replaced(e, k, v), k) == Some(v),
        other != k ==> lookup(replaced(e, k, v), other) == lookup(e, other),
    decreases e.len(),
{
    if e.len() > 0 {
        replaced_entries_are_found(e.drop_last(), k, v, other);
        assert(replaced(e, k, v).drop_last() =~= replaced(e.drop_last(), k, v));
    }
}

/// A value is taken for what it holds, and for nothing else.
pub proof fn values_are_what_they_hold(s: Seq<char>, n: int, b: Seq<u8>, t: bool, a: Seq<Plist>)
    ensures
        text_of(Some(Plist::Text(s))) == Some(s),
        text_of(Some(Plist::Integer(n))) is None && text_of(Some(Plist::Data(b))) is None,
        0 <= n < 0x1_0000_0000_0000_0000 ==> unsigned_of(Some(Plist::Integer(n))) == Some(n),
        n < 0 ==> unsigned_of(Some(Plist::Integer(n))) is None,
        unsigned_of(Some(Plist::Text(s))) is None && unsigned_of(Some(Plist::Boolean(t))) is None,
        data_of(Some(Plist::Data(b))) == Some(b),
        data_of(Some(Plist::Text(s))) is None,
        boolean_of(Some(Plist::Boolean(t))) == Some(t),
        boolean_of(Some(Plist::Integer(n))) is None && boolean_of(Some(Plist::Text(s))) is None,
        array_of(Some(Plist::Array(a))) == Some(a),
        array_of(Some(Plist::Text(s))) is None,
        text_of(None) is None && unsigned_of(None) is None && data_of(None) is None
            && boolean_of(None) is None && array_of(None) is None && dict_of(None) is None,
{
}

/// Years have four digits from the beginning of the year 0, 62167219200
/// seconds before that of 1970, to the end of the year 9999, 253402300800
/// seconds after it.
pub proof fn years_of_four_digits(secs: u64, nanos: u32)
    ensures
        (Moment { before: false, secs, nanos }).has_four_digits() <==> secs < 253402300800,
        secs < 62167219200 ==> (Moment { before: true, secs, nanos }).has_four_digits(),
        secs > 62167219200 ==> !(Moment { before: true, secs, nanos }).has_four_digits(),
        (Moment { before: true, secs: 62167219200, nanos }).has_four_digits() <==> nanos == 0,
{
}

/// What cannot be written makes whatever it stands in impossible to write too.
pub proof fn one_item_spoils_the_rest(a: Seq<Plist>, e: Seq<(Seq<char>, Plist)>, i: int)
    ensures
        0 <= i < a.len() && !writable(a[i]) ==> !writable(Plist::Array(a)),
        0 <= i < e.len() && !writable(e[i].1) ==> !writable(Plist::Dict(e)),
{
    if 0 <= i < a.len() && !writable(a[i]) {
        let whole = Plist::Array(a);
        assert(!writable(whole->Array_0[i]));
    }
    if 0 <= i < e.len() && !writable(e[i].1) {
        let whole = Plist::Dict(e);
        assert(!writable(whole->Dict_0[i].1));
    }
}

/// A date out of range cannot be written.
pub proof fn dates_out_of_range_are_not_written(
    m: Moment,
    e: Seq<(Seq<char>, Plist)>,
    k: Seq<char>,
)
    requires
        !m.has_four_digits(),
    ensures
        !writable(Plist::Date(m)),
        packet_written(e.push((k, Plist::Date(m)))) == Err::<Seq<u8>, Seq<char>>(
            "date out of range"@,
        ),
        value_written(e.push((k, Plist::Date(m)))) == Err::<Seq<u8>, Seq<char>>(
            "date out of range"@,
        ),
{
    let all = e.push((k, Plist::Date(m)));
    one_item_spoils_the_rest(seq![], all, all.len() - 1);
}

/// Whatever is plain is written as it is, and what holds a date out of range is
/// not read.
pub proof fn plain_entries_are_written(e: Seq<(Seq<char>, Plist)>, b: Seq<u8>)
    ensures
        plain(Plist::Dict(e)) ==> packet_written(e) == packet_xml(e) && value_written(e)
            == value_xml(e),
        dates::fit(b) ==> packet_read(b) == packet_plist(b) && value_read(b) == value_plist(b),
        !dates::fit(b) ==> packet_read(b) == Err::<Seq<(Seq<char>, Plist)>, Seq<char>>(
            "date out of range"@,
        ),
        !dates::fit(b) ==> value_read(b) == Err::<Plist, Seq<char>>("date out of range"@),
{
    if plain(Plist::Dict(e)) {
        plain_is_writable(Plist::Dict(e));
    }
}

} // verus!

//! Dates in property lists. A date has a text, by which it is handed on and
//! written, if its year has four digits in UTC. Here the bytes of a list are
//! searched for dates that have none, before they are read.
pub mod binary;
pub mod xml;

use vstd::prelude::*;

verus! {

/// The eight bytes that every binary list begins with.
pub open spec fn binary_mark() -> Seq<u8> {
    seq![0x62u8, 0x70, 0x6C, 0x69, 0x73, 0x74, 0x30, 0x30]
}

/// Whether every date that is read in a property list has a text. A list that
/// is not binary is XML, or else of a kind that has no dates.
pub open spec fn fit(b: Seq<u8>) -> bool {
    if b.len() >= 8 && b.take(8) == binary_mark() {
        binary::fit(b)
    } else {
        xml::fit(b)
    }
}

/// Whether every date that is read in a property list has a text.
pub fn check(b: &[u8]) -> (fits: bool)
    ensures
        fits == fit(b@),
{
    let mark: [u8; 8] = [0x62, 0x70, 0x6C, 0x69, 0x73, 0x74, 0x30, 0x30];
    assert(mark@ =~= binary_mark());
    if b.len() < 8 {
        return xml::check(b);
    }
    let mut i: usize = 0;
    while i < 8
        invariant
            i <= 8,
            b@.len() >= 8,
            mark@ == binary_mark(),
            forall|j: int| 0 <= j < i ==> b@[j] == mark@[j],
        decreases 8 - i,
    {
        if b[i] != mark[i] {
            assert(b@.take(8)[i as int] != binary_mark()[i as int]);
            return xml::check(b);
        }
        i = i + 1;
    }
    assert(b@.take(8) =~= binary_mark());
    binary::check(b)
}

} // verus!

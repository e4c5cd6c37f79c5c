//! Fixed-width integers as bytes, in both byte orders.
use vstd::prelude::*;

verus! {

/// The two bytes of `x`, most significant first.
pub open spec fn be16(x: u16) -> Seq<u8> {
    seq![(x / 256) as u8, (x % 256) as u8]
}

/// The four bytes of `x`, most significant first.
pub open spec fn be32(x: u32) -> Seq<u8> {
    seq![
        (x / 0x100_0000) as u8,
        ((x / 0x1_0000) % 256) as u8,
        ((x / 256) % 256) as u8,
        (x % 256) as u8,
    ]
}

/// The four bytes of `x`, least significant first.
pub open spec fn le32(x: u32) -> Seq<u8> {
    seq![
        (x % 256) as u8,
        ((x / 256) % 256) as u8,
        ((x / 0x1_0000) % 256) as u8,
        (x / 0x100_0000) as u8,
    ]
}

/// The number that the two bytes at `i` write, most significant first.
pub open spec fn be16_at(s: Seq<u8>, i: int) -> int {
    s[i] * 256 + s[i + 1]
}

/// The number that the four bytes at `i` write, most significant first.
pub open spec fn be32_at(s: Seq<u8>, i: int) -> int {
    s[i] * 0x100_0000 + s[i + 1] * 0x1_0000 + s[i + 2] * 256 + s[i + 3]
}

/// The number that the four bytes at `i` write, least significant first.
pub open spec fn le32_at(s: Seq<u8>, i: int) -> int {
    s[i] + s[i + 1] * 256 + s[i + 2] * 0x1_0000 + s[i + 3] * 0x100_0000
}

/// A `u16` with its two bytes exchanged.
pub open spec fn swapped16(x: u16) -> int {
    (x % 256) * 256 + x / 256
}

/// In which order a machine holds the bytes of a number.
#[derive(Debug, Clone, Copy, PartialEq, Eq, Structural)]
pub enum ByteOrder {
    /// Least significant first.
    Little,
    /// Most significant first.
    Big,
}

impl ByteOrder {
    /// The number that a machine of this order holds for a `u16` in network
    /// order, and the other way round.
    pub open spec fn network(self, x: u16) -> int {
        match self {
            ByteOrder::Little => swapped16(x),
            ByteOrder::Big => x as int,
        }
    }
}

/// The byte order of a machine, by the number that it holds for 1 in network
/// order.
pub open spec fn order_of(one: u16) -> ByteOrder {
    if one == 1 {
        ByteOrder::Big
    } else {
        ByteOrder::Little
    }
}

/// `u16::to_be` gives a number back unchanged on a big-endian machine, and
/// with its bytes exchanged on a little-endian one. Which of the two the
/// machine is, is not said.
pub assume_specification[ u16::to_be ](x: u16) -> (r: u16)
    ensures
        r == x || r == swapped16(x),
;

/// The byte order of this machine.
pub fn native_order() -> (order: ByteOrder)
    ensures
        exists|one: u16| #[trigger]
            call_ensures(u16::to_be, (1u16,), one) && order == order_of(one),
{
    let one: u16 = 1u16.to_be();
    if one == 1 {
        ByteOrder::Big
    } else {
        ByteOrder::Little
    }
}

/// The number that a machine of this order holds for a `u16` in network order,
/// and the other way round.
pub fn network16(order: ByteOrder, x: u16) -> (r: u16)
    ensures
        r == order.network(x),
{
    match order {
        ByteOrder::Little => swap16(x),
        ByteOrder::Big => x,
    }
}

/// Reading two bytes at `i`, most significant first.
pub fn read_be16(data: &[u8], i: usize) -> (x: u16)
    requires
        i + 2 <= data@.len(),
    ensures
        x == be16_at(data@, i as int),
{
    data[i] as u16 * 256 + data[i + 1] as u16
}

/// Reading four bytes at `i`, most significant first.
pub fn read_be32(data: &[u8], i: usize) -> (x: u32)
    requires
        i + 4 <= data@.len(),
    ensures
        x == be32_at(data@, i as int),
{
    data[i] as u32 * 0x100_0000 + data[i + 1] as u32 * 0x1_0000 + data[i + 2] as u32 * 256 + data[i
        + 3] as u32
}

/// Reading four bytes at `i`, least significant first.
pub fn read_le32(data: &[u8], i: usize) -> (x: u32)
    requires
        i + 4 <= data@.len(),
    ensures
        x == le32_at(data@, i as int),
{
    data[i] as u32 + data[i + 1] as u32 * 256 + data[i + 2] as u32 * 0x1_0000 + data[i + 3] as u32
        * 0x100_0000
}

/// Appending the two bytes of `x`, most significant first.
pub fn push_be16(out: &mut Vec<u8>, x: u16)
    ensures
        final(out)@ == old(out)@ + be16(x),
{
    out.push((x / 256) as u8);
    out.push((x % 256) as u8);
    assert(out@ =~= old(out)@ + be16(x));
}

/// Appending the four bytes of `x`, most significant first.
pub fn push_be32(out: &mut Vec<u8>, x: u32)
    ensures
        final(out)@ == old(out)@ + be32(x),
{
    out.push((x / 0x100_0000) as u8);
    out.push(((x / 0x1_0000) % 256) as u8);
    out.push(((x / 256) % 256) as u8);
    out.push((x % 256) as u8);
    assert(out@ =~= old(out)@ + be32(x));
}

/// Appending the four bytes of `x`, least significant first.
pub fn push_le32(out: &mut Vec<u8>, x: u32)
    ensures
        final(out)@ == old(out)@ + le32(x),
{
    out.push((x % 256) as u8);
    out.push(((x / 256) % 256) as u8);
    out.push(((x / 0x1_0000) % 256) as u8);
    out.push((x / 0x100_0000) as u8);
    assert(out@ =~= old(out)@ + le32(x));
}

/// Exchanging the two bytes of `x`.
fn swap16(x: u16) -> (r: u16)
    ensures
        r == swapped16(x),
{
    (x % 256) * 256 + x / 256
}

/// Appending a slice of bytes.
pub fn push_bytes(out: &mut Vec<u8>, data: &[u8])
    ensures
        final(out)@ == old(out)@ + data@,
{
    out.extend_from_slice(data);
    assert(out@ =~= old(out)@ + data@);
}

/// A copy of `data[from..to]`.
pub fn copy_range(data: &[u8], from: usize, to: usize) -> (r: Vec<u8>)
    requires
        from <= to <= data@.len(),
    ensures
        r@ == data@.subrange(from as int, to as int),
{
    let mut r: Vec<u8> = Vec::new();
    push_bytes(&mut r, &data[from..to]);
    assert(r@ =~= data@.subrange(from as int, to as int));
    r
}

/// Reading at the place where the bytes of `x` stand gives `x` back.
pub proof fn be16_round_trip(prefix: Seq<u8>, x: u16, suffix: Seq<u8>)
    ensures
        be16_at(prefix + be16(x) + suffix, prefix.len() as int) == x,
{
}

/// Reading at the place where the bytes of `x` stand gives `x` back.
pub proof fn be32_round_trip(prefix: Seq<u8>, x: u32, suffix: Seq<u8>)
    ensures
        be32_at(prefix + be32(x) + suffix, prefix.len() as int) == x,
{
}

/// Reading at the place where the bytes of `x` stand gives `x` back.
pub proof fn le32_round_trip(prefix: Seq<u8>, x: u32, suffix: Seq<u8>)
    ensures
        le32_at(prefix + le32(x) + suffix, prefix.len() as int) == x,
{
}

/// What is put into network order and read from it again, on one machine, is
/// unchanged.
pub proof fn network_order_is_undone(order: ByteOrder, x: u16)
    ensures
        0 <= order.network(x) <= u16::MAX,
        order.network(order.network(x) as u16) == x,
{
}

/// The bytes of a number, most significant first, weigh what their place
/// says; the bytes in the other order are the same bytes from behind.
pub proof fn bytes_weigh_by_their_place(x: u16, y: u32)
    ensures
        be16(x).len() == 2,
        be16(x)[0] * 256 + be16(x)[1] == x,
        be32(y).len() == 4,
        be32(y)[0] * 0x100_0000 + be32(y)[1] * 0x1_0000 + be32(y)[2] * 256 + be32(y)[3] == y,
        le32(y) == be32(y).reverse(),
{
    assert(le32(y) =~= be32(y).reverse());
}

/// What is read at a place is what the bytes there weigh.
pub proof fn read_bytes_weigh_by_their_place(s: Seq<u8>, i: int)
    requires
        0 <= i,
        i + 4 <= s.len(),
    ensures
        be16_at(s, i) == 256 * s[i] + s[i + 1],
        be32_at(s, i) == 0x1_0000 * (256 * s[i] + s[i + 1]) + (256 * s[i + 2] + s[i + 3]),
        le32_at(s, i) == 0x1_0000 * (256 * s[i + 3] + s[i + 2]) + (256 * s[i + 1] + s[i]),
{
}

} // verus!

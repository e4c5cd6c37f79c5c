//! Dates in binary property lists.
use vstd::prelude::*;

verus! {

/// The number that bytes write, the highest first.
pub open spec fn be_number(s: Seq<u8>) -> nat
    decreases s.len(),
{
    if s.len() == 0 {
        0
    } else {
        be_number(s.drop_last()) * 256 + s.last() as nat
    }
}

/// The first number that takes more than `n` bytes.
spec fn above(n: nat) -> nat
    decreases n,
{
    if n == 0 {
        1
    } else {
        256 * above((n - 1) as nat)
    }
}

proof fn be_number_is_bounded(s: Seq<u8>)
    ensures
        be_number(s) < above(s.len()),
    decreases s.len(),
{
    if s.len() > 0 {
        be_number_is_bounded(s.drop_last());
    }
}

proof fn eight_bytes_fit(s: Seq<u8>)
    requires
        s.len() <= 8,
    ensures
        be_number(s) <= u64::MAX,
    decreases s.len(),
{
    be_number_is_bounded(s);
    reveal_with_fuel(above, 9);
}

/// The number in the `size` bytes from `at` on.
fn read_be(data: &[u8], at: usize, size: usize) -> (n: u64)
    requires
        size <= 8,
        at + size <= data@.len(),
    ensures
        n == be_number(data@.subrange(at as int, at + size)),
{
    let mut n: u64 = 0;
    let mut i: usize = 0;
    assert(data@.subrange(at as int, at as int) =~= seq![]);
    while i < size
        invariant
            i <= size <= 8,
            at + size <= data.len(),
            n == be_number(data@.subrange(at as int, at + i)),
        decreases size - i,
    {
        proof {
            let next = data@.subrange(at as int, at + i + 1);
            assert(next.drop_last() =~= data@.subrange(at as int, at + i));
            eight_bytes_fit(next);
        }
        n = n * 256 + data[at + i] as u64;
        i = i + 1;
    }
    n
}

/// The bits, without the sign, of the first second of the year 0, counted
/// back from the beginning of 2001 as a double.
pub const FIRST_YEAR: u64 = 0x422D_6788_8900_0000;

/// The bits, without the sign, of the first second of the year -9999, counted
/// back from the beginning of 2001 as a double.
pub const EARLIEST: u64 = 0x4256_0AD2_9F40_0000;

/// The sign bit of a double.
pub const SIGN: u64 = 0x8000_0000_0000_0000;

/// Whether a double, by its bits, counts seconds from the beginning of 2001
/// to no year from -9999 to -1. What lies beyond the years -9999 to 9999, or
/// is no number, is no date to the reader either. Doubles of one sign are in
/// the order of their bits, and what is no number is above all of them.
pub open spec fn seconds_fit(bits: nat) -> bool {
    bits < SIGN || bits - SIGN <= FIRST_YEAR || bits - SIGN > EARLIEST
}

fn check_seconds(bits: u64) -> (fits: bool)
    ensures
        fits == seconds_fit(bits as nat),
{
    bits < SIGN || bits - SIGN <= FIRST_YEAR || bits - SIGN > EARLIEST
}

/// How a binary list is laid out, by its trailer.
#[derive(Clone, Copy, PartialEq, Eq, Structural)]
pub struct Layout {
    /// Where the trailer begins.
    pub end: usize,
    /// How many bytes the offset of an object has.
    pub offset_size: usize,
    /// How many bytes a reference to an object has.
    pub ref_size: usize,
    /// How many objects there are.
    pub count: usize,
    /// The object that all others are in.
    pub root: usize,
    /// Where the offsets of the objects stand.
    pub table: usize,
}

/// Whether a number in a binary list can have so many bytes.
pub open spec fn is_width(n: int) -> bool {
    n == 1 || n == 2 || n == 3 || n == 4 || n == 8
}

/// The layout that the trailer gives, or none where the trailer is unsound,
/// so that no object is read.
pub open spec fn layout(b: Seq<u8>) -> Option<Layout> {
    let end = b.len() - 32;
    let offset_size = b[end + 6] as int;
    let ref_size = b[end + 7] as int;
    let count = be_number(b.subrange(end + 8, end + 16)) as int;
    let root = be_number(b.subrange(end + 16, end + 24)) as int;
    let table = be_number(b.subrange(end + 24, end + 32)) as int;
    if end >= 0 && is_width(offset_size) && is_width(ref_size) && table + count * offset_size <= end
        && root < count {
        Some(
            Layout {
                end: end as usize,
                offset_size: offset_size as usize,
                ref_size: ref_size as usize,
                count: count as usize,
                root: root as usize,
                table: table as usize,
            },
        )
    } else {
        None
    }
}

proof fn layout_is_sound(b: Seq<u8>, l: Layout)
    requires
        b.len() <= usize::MAX,
        layout(b) == Some(l),
    ensures
        l.end + 32 == b.len(),
        is_width(l.offset_size as int),
        is_width(l.ref_size as int),
        l.table + l.count * l.offset_size <= l.end,
        l.root < l.count,
{
    let end = b.len() - 32;
    let offset_size = b[end + 6] as int;
    let count = be_number(b.subrange(end + 8, end + 16)) as int;
    assert(count <= count * offset_size) by (nonlinear_arith)
        requires
            count >= 0,
            offset_size >= 1,
    ;
}

fn read_layout(b: &[u8]) -> (r: Option<Layout>)
    ensures
        r == layout(b@),
{
    if b.len() < 32 {
        return None;
    }
    let end: usize = b.len() - 32;
    let offset_size: usize = b[end + 6] as usize;
    let ref_size: usize = b[end + 7] as usize;
    if !(offset_size == 1 || offset_size == 2 || offset_size == 3 || offset_size == 4 || offset_size
        == 8) {
        return None;
    }
    if !(ref_size == 1 || ref_size == 2 || ref_size == 3 || ref_size == 4 || ref_size == 8) {
        return None;
    }
    let count: u64 = read_be(b, end + 8, 8);
    let root: u64 = read_be(b, end + 16, 8);
    let table: u64 = read_be(b, end + 24, 8);
    if table > end as u64 || count > (end as u64 - table) / offset_size as u64 {
        proof {
            if table <= end {
                let room = end - table;
                assert(count * offset_size > room) by (nonlinear_arith)
                    requires
                        offset_size > 0,
                        room >= 0,
                        count > room / offset_size as int,
                ;
            } else {
                assert(count * offset_size >= 0) by (nonlinear_arith);
            }
        }
        return None;
    }
    proof {
        let room = end - table;
        assert(count * offset_size <= room && count <= count * offset_size) by (nonlinear_arith)
            requires
                offset_size > 0,
                room >= 0,
                count <= room / offset_size as int,
        ;
    }
    if root >= count {
        return None;
    }
    Some(
        Layout {
            end,
            offset_size,
            ref_size,
            count: count as usize,
            root: root as usize,
            table: table as usize,
        },
    )
}

/// The offset of object `x`.
pub open spec fn offset_of(b: Seq<u8>, l: Layout, x: int) -> int {
    let at = l.table + x * l.offset_size;
    be_number(b.subrange(at, at + l.offset_size)) as int
}

/// The references that the object at `o` has: where they stand, and how many
/// they are. Only an array and a dictionary have any, and only where the bytes
/// go so far.
pub open spec fn references(b: Seq<u8>, l: Layout, o: int) -> (int, int) {
    let kind = b[o] / 16;
    let low = b[o] % 16;
    let width = if b[o + 1] % 4 == 0 {
        1int
    } else if b[o + 1] % 4 == 1 {
        2
    } else if b[o + 1] % 4 == 2 {
        4
    } else {
        8
    };
    let at = if low == 15 {
        o + 2 + width
    } else {
        o + 1
    };
    let len = if low == 15 {
        be_number(b.subrange(o + 2, o + 2 + width)) as int
    } else {
        low as int
    };
    let n = if kind == 13 {
        2 * len
    } else {
        len
    };
    if (kind == 10 || kind == 13) && at <= b.len() && at + n * l.ref_size <= b.len() {
        (at, n)
    } else {
        (at, 0)
    }
}

/// Whether object `x` refers to object `y`.
pub open spec fn refers(b: Seq<u8>, l: Layout, x: int, y: int) -> bool {
    let o = offset_of(b, l, x);
    &&& o < l.end
    &&& y < l.count
    &&& exists|k: int|
        0 <= k < references(b, l, o).1 && #[trigger] reference(b, l, references(b, l, o).0, k) == y
}

/// The reference at place `k` of those that stand at `at`.
pub open spec fn reference(b: Seq<u8>, l: Layout, at: int, k: int) -> int {
    be_number(b.subrange(at + k * l.ref_size, at + k * l.ref_size + l.ref_size)) as int
}

/// Whether these objects, each of which refers to the next, lead on from the
/// root.
pub open spec fn leads_on(b: Seq<u8>, l: Layout, path: Seq<int>) -> bool {
    &&& path.len() > 0
    &&& path[0] == l.root
    &&& forall|i: int| 0 <= i < path.len() - 1 ==> #[trigger] steps(b, l, path, i)
}

pub open spec fn steps(b: Seq<u8>, l: Layout, path: Seq<int>, i: int) -> bool {
    refers(b, l, path[i], path[i + 1])
}

/// Whether object `x` is no date, or one that has a text.
pub open spec fn object_fits(b: Seq<u8>, l: Layout, x: int) -> bool {
    let o = offset_of(b, l, x);
    o < l.end && b[o] == 0x33 ==> seconds_fit(be_number(b.subrange(o + 1, o + 9)))
}

/// Whether every object that the root leads to is no date, or one that has a
/// text.
pub open spec fn all_fit(b: Seq<u8>, l: Layout) -> bool {
    forall|path: Seq<int>| #[trigger] leads_on(b, l, path) ==> object_fits(b, l, path.last())
}

/// Whether every date that is read in a binary list has a text.
pub open spec fn fit(b: Seq<u8>) -> bool {
    match layout(b) {
        Some(l) => all_fit(b, l),
        None => true,
    }
}

/// Whether object `x` was looked at: it fits, and all that it refers to is
/// known.
spec fn looked_at(b: Seq<u8>, l: Layout, known: Seq<bool>, x: int) -> bool {
    &&& object_fits(b, l, x)
    &&& forall|y: int| #[trigger] refers(b, l, x, y) ==> 0 <= y < known.len() && known[y]
}

/// Whether the root leads to object `x`.
spec fn led_to(b: Seq<u8>, l: Layout, x: int) -> bool {
    exists|path: Seq<int>| #[trigger] leads_on(b, l, path) && path.last() == x
}

proof fn references_are_led_to(b: Seq<u8>, l: Layout, x: int, y: int)
    requires
        led_to(b, l, x),
        refers(b, l, x, y),
    ensures
        led_to(b, l, y),
{
    let path = choose|path: Seq<int>| #[trigger] leads_on(b, l, path) && path.last() == x;
    let longer = path.push(y);
    assert forall|i: int| 0 <= i < longer.len() - 1 implies #[trigger] steps(b, l, longer, i) by {
        if i < path.len() - 1 {
            assert(steps(b, l, path, i));
        }
    }
    assert(leads_on(b, l, longer));
    assert(longer.last() == y);
}

proof fn known_are_all(b: Seq<u8>, l: Layout, known: Seq<bool>, path: Seq<int>)
    requires
        known.len() == l.count,
        l.root < l.count,
        known[l.root as int],
        forall|x: int| 0 <= x < known.len() && #[trigger] known[x] ==> looked_at(b, l, known, x),
        leads_on(b, l, path),
    ensures
        0 <= path.last() < known.len(),
        known[path.last()],
    decreases path.len(),
{
    if path.len() > 1 {
        let front = path.drop_last();
        assert forall|i: int| 0 <= i < front.len() - 1 implies #[trigger] steps(b, l, front, i) by {
            assert(steps(b, l, path, i));
        }
        known_are_all(b, l, known, front);
        assert(steps(b, l, path, path.len() - 2));
        assert(looked_at(b, l, known, front.last()));
    }
}

fn read_offset(b: &[u8], l: &Layout, x: usize) -> (o: u64)
    requires
        layout(b@) == Some(*l),
        x < l.count,
    ensures
        o == offset_of(b@, *l, x as int),
{
    assert(b.len() <= usize::MAX);
    proof {
        layout_is_sound(b@, *l);
    }
    assert(x * l.offset_size + l.offset_size <= l.count * l.offset_size && 0 <= x
        * l.offset_size) by (nonlinear_arith)
        requires
            x + 1 <= l.count,
            l.offset_size >= 1,
    ;
    read_be(b, l.table + x * l.offset_size, l.offset_size)
}

/// The references that the object at `o` has.
fn read_references(b: &[u8], l: &Layout, o: usize) -> (r: (usize, usize))
    requires
        layout(b@) == Some(*l),
        o < l.end,
    ensures
        r.1 == references(b@, *l, o as int).1,
        r.1 > 0 ==> r.0 == references(b@, *l, o as int).0,
        r.1 > 0 ==> r.0 + r.1 * l.ref_size <= b@.len(),
{
    let kind: u8 = b[o] / 16;
    let low: u8 = b[o] % 16;
    if kind != 10 && kind != 13 {
        return (0, 0);
    }
    let mut at: usize = o + 1;
    let mut len: u64 = low as u64;
    if low == 15 {
        let power: u8 = b[o + 1] % 4;
        let width: usize = if power == 0 {
            1
        } else if power == 1 {
            2
        } else if power == 2 {
            4
        } else {
            8
        };
        at = o + 2 + width;
        len = read_be(b, o + 2, width);
    }
    let room: usize = (b.len() - at) / l.ref_size;
    let n: u128 = if kind == 13 {
        2 * len as u128
    } else {
        len as u128
    };
    if n > room as u128 {
        assert(n * l.ref_size > b.len() - at) by (nonlinear_arith)
            requires
                l.ref_size > 0,
                at <= b.len(),
                room == (b.len() - at) / l.ref_size as int,
                n > room,
        ;
        return (0, 0);
    }
    assert(n * l.ref_size <= b.len() - at) by (nonlinear_arith)
        requires
            l.ref_size > 0,
            at <= b.len(),
            room == (b.len() - at) / l.ref_size as int,
            n <= room,
    ;
    (at, n as usize)
}

/// The objects that are known.
spec fn known_set(known: Seq<bool>) -> Set<int> {
    Set::new(|x: int| 0 <= x < known.len() && known[x])
}

proof fn knowing_more(known: Seq<bool>, y: int)
    requires
        0 <= y < known.len(),
        !known[y],
    ensures
        known_set(known).len() + 1 == known_set(known.update(y, true)).len(),
        known_set(known.update(y, true)).len() <= known.len(),
{
    let all = vstd::set_lib::set_int_range(0, known.len() as int);
    vstd::set_lib::lemma_int_range(0, known.len() as int);
    vstd::set_lib::lemma_len_subset(known_set(known), all);
    vstd::set_lib::lemma_len_subset(known_set(known.update(y, true)), all);
    assert(known_set(known.update(y, true)) =~= known_set(known).insert(y));
}

/// Makes known all that object `x` refers to.
fn follow(
    b: &[u8],
    l: &Layout,
    x: usize,
    o: usize,
    known: &mut Vec<bool>,
    todo: &mut Vec<usize>,
)
    requires
        layout(b@) == Some(*l),
        x < l.count,
        o == offset_of(b@, *l, x as int),
        o < l.end,
        old(known)@.len() == l.count,
        led_to(b@, *l, x as int),
        forall|y: int|
            0 <= y < old(known)@.len() && #[trigger] old(known)@[y] ==> led_to(b@, *l, y),
    ensures
        final(known)@.len() == l.count,
        forall|y: int| #[trigger]
            refers(b@, *l, x as int, y) ==> 0 <= y < final(known)@.len() && final(known)@[y],
        forall|y: int|
            0 <= y < final(known)@.len() && #[trigger] final(known)@[y] ==> led_to(b@, *l, y),
        forall|y: int|
            0 <= y < old(known)@.len() && #[trigger] old(known)@[y] ==> final(known)@[y],
        forall|y: int|
            0 <= y < final(known)@.len() && #[trigger] final(known)@[y] ==> old(known)@[y]
                || final(todo)@.contains(y as usize),
        forall|y: usize| old(todo)@.contains(y) ==> #[trigger] final(todo)@.contains(y),
        forall|i: int|
            0 <= i < final(todo)@.len() ==> (#[trigger] final(todo)@[i] < l.count
                && final(known)@[final(todo)@[i] as int]) || (i < old(todo)@.len()
                && final(todo)@[i] == old(todo)@[i]),
        2 * (l.count - known_set(final(known)@).len()) + final(todo)@.len() <= 2 * (l.count
            - known_set(old(known)@).len()) + old(todo)@.len(),
{
    let (at, n) = read_references(b, l, o);
    let ghost old_known = known@;
    let ghost old_todo = todo@;
    let ghost at0 = references(b@, *l, o as int).0;
    let mut k: usize = 0;
    while k < n
        invariant
            layout(b@) == Some(*l),
            1 <= l.ref_size <= 8,
            n == references(b@, *l, o as int).1,
            n > 0 ==> at == at0,
            n > 0 ==> at + n * l.ref_size <= b.len(),
            at0 == references(b@, *l, o as int).0,
            o == offset_of(b@, *l, x as int),
            o < l.end,
            known@.len() == l.count,
            old_known.len() == l.count,
            led_to(b@, *l, x as int),
            k <= n,
            forall|j: int|
                0 <= j < k && #[trigger] reference(b@, *l, at0, j) < l.count ==> known@[reference(
                    b@,
                    *l,
                    at0,
                    j,
                )],
            forall|y: int| 0 <= y < known@.len() && #[trigger] known@[y] ==> led_to(b@, *l, y),
            forall|y: int| 0 <= y < old_known.len() && #[trigger] old_known[y] ==> known@[y],
            forall|y: int|
                0 <= y < known@.len() && #[trigger] known@[y] ==> old_known[y] || todo@.contains(
                    y as usize,
                ),
            forall|y: usize| old_todo.contains(y) ==> #[trigger] todo@.contains(y),
            todo@.len() >= old_todo.len(),
            forall|i: int|
                0 <= i < todo@.len() ==> (#[trigger] todo@[i] < l.count && known@[todo@[i] as int])
                    || (i < old_todo.len() && todo@[i] == old_todo[i]),
            2 * (l.count - known_set(known@).len()) + todo@.len() <= 2 * (l.count - known_set(
                old_known,
            ).len()) + old_todo.len(),
        decreases n - k,
    {
        assert(k * l.ref_size + l.ref_size <= n * l.ref_size && 0 <= k * l.ref_size)
            by (nonlinear_arith)
            requires
                k + 1 <= n,
                l.ref_size >= 1,
        ;
        let y: u64 = read_be(b, at + k * l.ref_size, l.ref_size);
        assert(y == reference(b@, *l, at0, k as int));
        if y < l.count as u64 && !known[y as usize] {
            let ghost was = known@;
            let ghost before = todo@;
            proof {
                assert(refers(b@, *l, x as int, y as int));
                references_are_led_to(b@, *l, x as int, y as int);
                knowing_more(known@, y as int);
            }
            known.set(y as usize, true);
            todo.push(y as usize);
            proof {
                assert(todo@[before.len() as int] == y as usize);
                assert forall|z: usize| before.contains(z) implies #[trigger] todo@.contains(z) by {
                    let i = choose|i: int| 0 <= i < before.len() && before[i] == z;
                    assert(todo@[i] == z);
                }
                assert forall|z: int| 0 <= z < known@.len() && #[trigger] known@[z] implies old_known[z]
                    || todo@.contains(z as usize) by {
                    if z != y {
                        assert(was[z]);
                        assert(old_known[z] || before.contains(z as usize));
                    }
                }
            }
        }
        k = k + 1;
    }
}

/// Whether every date that is read in a binary list has a text.
pub fn check(b: &[u8]) -> (fits: bool)
    ensures
        fits == fit(b@),
{
    let l = match read_layout(b) {
        Some(l) => l,
        None => return true,
    };
    assert(b.len() <= usize::MAX);
    proof {
        layout_is_sound(b@, l);
    }
    let mut known: Vec<bool> = Vec::new();
    while known.len() < l.count
        invariant
            known@.len() <= l.count,
            forall|y: int| 0 <= y < known@.len() ==> !#[trigger] known@[y],
        decreases l.count - known@.len(),
    {
        known.push(false);
    }
    proof {
        let path = seq![l.root as int];
        assert(leads_on(b@, l, path));
        assert(path.last() == l.root);
        knowing_more(known@, l.root as int);
    }
    known.set(l.root, true);
    let mut todo: Vec<usize> = Vec::new();
    todo.push(l.root);
    assert(todo@[0] == l.root);
    while todo.len() > 0
        invariant
            layout(b@) == Some(l),
            l.root < l.count,
            known@.len() == l.count,
            known@[l.root as int],
            forall|y: int| 0 <= y < known@.len() && #[trigger] known@[y] ==> led_to(b@, l, y),
            forall|y: int|
                0 <= y < known@.len() && #[trigger] known@[y] ==> todo@.contains(y as usize)
                    || looked_at(b@, l, known@, y),
            forall|i: int|
                0 <= i < todo@.len() ==> #[trigger] todo@[i] < l.count && known@[todo@[i] as int],
        decreases 2 * (l.count - known_set(known@).len()) + todo@.len(),
    {
        let ghost before = todo@;
        let ghost was = known@;
        proof {
            let all = vstd::set_lib::set_int_range(0, known@.len() as int);
            vstd::set_lib::lemma_int_range(0, known@.len() as int);
            vstd::set_lib::lemma_len_subset(known_set(known@), all);
        }
        let last: usize = todo.len() - 1;
        let x: usize = todo[last];
        todo.truncate(last);
        let o: u64 = read_offset(b, &l, x);
        let inside: bool = o < l.end as u64;
        if inside && b[o as usize] == 0x33 && !check_seconds(read_be(b, o as usize + 1, 8)) {
            proof {
                assert(led_to(b@, l, x as int));
                let path = choose|path: Seq<int>| #[trigger]
                    leads_on(b@, l, path) && path.last() == x as int;
                assert(leads_on(b@, l, path));
                assert(!object_fits(b@, l, path.last()));
                assert(!all_fit(b@, l));
            }
            return false;
        }
        if inside {
            follow(b, &l, x, o as usize, &mut known, &mut todo);
        }
        proof {
            let all = vstd::set_lib::set_int_range(0, known@.len() as int);
            vstd::set_lib::lemma_int_range(0, known@.len() as int);
            vstd::set_lib::lemma_len_subset(known_set(known@), all);
            let rest = before.drop_last();
            assert(looked_at(b@, l, known@, x as int));
            assert forall|y: int| 0 <= y < known@.len() && #[trigger] known@[y] implies todo@.contains(
                y as usize,
            ) || looked_at(b@, l, known@, y) by {
                if was[y] {
                    if before.contains(y as usize) {
                        let i = choose|i: int| 0 <= i < before.len() && before[i] == y as usize;
                        if i < last {
                            assert(rest[i] == y as usize);
                            assert(rest.contains(y as usize));
                        }
                    } else {
                        assert(looked_at(b@, l, was, y));
                        assert forall|z: int| #[trigger] refers(b@, l, y, z) implies 0 <= z
                            < known@.len() && known@[z] by {
                            assert(was[z]);
                        }
                    }
                }
            }
        }
    }
    proof {
        assert forall|path: Seq<int>| #[trigger] leads_on(b@, l, path) implies object_fits(
            b@,
            l,
            path.last(),
        ) by {
            known_are_all(b@, l, known@, path);
            assert(known@[path.last()]);
        }
    }
    true
}

/// The bounds are those of the years: as doubles, 63145526400 seconds before
/// the beginning of 2001 the year 0 begins, and 378683424000 seconds before it
/// the year -9999.
pub proof fn bounds_are_those_of_years()
    ensures
        FIRST_YEAR / 0x10_0000_0000_0000 == 1058,
        0x10_0000_0000_0000 + FIRST_YEAR % 0x10_0000_0000_0000 == 63145526400int * 0x2_0000,
        EARLIEST / 0x10_0000_0000_0000 == 1061,
        0x10_0000_0000_0000 + EARLIEST % 0x10_0000_0000_0000 == 378683424000int * 0x4000,
{
}

/// A time after the beginning of 2001 is never out of range; one before it is
/// where its bits lie between the bounds.
pub proof fn times_are_told_by_their_bits(bits: nat)
    ensures
        bits < 0x8000_0000_0000_0000 ==> seconds_fit(bits),
        bits <= 0x422D_6788_8900_0000 ==> seconds_fit(0x8000_0000_0000_0000 + bits),
        0x422D_6788_8900_0000 < bits <= 0x4256_0AD2_9F40_0000 ==> !seconds_fit(
            0x8000_0000_0000_0000 + bits,
        ),
        bits > 0x4256_0AD2_9F40_0000 ==> seconds_fit(0x8000_0000_0000_0000 + bits),
{
}

/// A list in which no object is a date out of range is fit; one whose root is
/// such a date is not, nor one whose root refers to it.
pub proof fn dates_are_found_from_the_root(b: Seq<u8>, l: Layout, y: int)
    requires
        layout(b) == Some(l),
    ensures
        (forall|x: int| #[trigger] object_fits(b, l, x)) ==> fit(b),
        !object_fits(b, l, l.root as int) ==> !fit(b),
        refers(b, l, l.root as int, y) && !object_fits(b, l, y) ==> !fit(b),
{
    let here = seq![l.root as int];
    let there = seq![l.root as int, y];
    assert(leads_on(b, l, here));
    assert(here.last() == l.root as int);
    if refers(b, l, l.root as int, y) {
        assert forall|i: int| 0 <= i < there.len() - 1 implies #[trigger] steps(b, l, there, i) by {
            assert(i == 0);
        }
        assert(leads_on(b, l, there));
        assert(there.last() == y);
    }
}

/// An array refers to as many objects as it says, and a dictionary to twice as
/// many: its keys and its values. Nothing else refers to any.
pub proof fn arrays_and_dictionaries_refer(b: Seq<u8>, l: Layout, o: int)
    requires
        0 <= o < b.len(),
    ensures
        b[o] / 16 != 10 && b[o] / 16 != 13 ==> references(b, l, o).1 == 0,
        b[o] / 16 == 10 && b[o] % 16 < 15 && o + 1 + (b[o] % 16) * l.ref_size <= b.len()
            ==> references(b, l, o) == (o + 1, (b[o] % 16) as int),
        b[o] / 16 == 13 && b[o] % 16 < 15 && o + 1 + 2 * (b[o] % 16) * l.ref_size <= b.len()
            ==> references(b, l, o) == (o + 1, 2 * (b[o] % 16)),
{
}

/// Numbers are read with the first byte counting most.
pub proof fn first_byte_counts_most(s: Seq<u8>, x: u8)
    ensures
        be_number(s.push(x)) == 256 * be_number(s) + x,
        be_number(seq![]) == 0,
{
    assert(s.push(x).drop_last() =~= s);
}

} // verus!

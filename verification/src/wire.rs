//! The binary layout of data items on the wire.
//!
//! A data item starts with a head: one byte that holds the major type in its upper three
//! bits and, in its lower five, either a small argument or the width of the argument that
//! follows in big-endian order. A byte string is a head of major type 2 whose argument is
//! the string's length, followed by the string. Arrays (major type 4) and tags (major
//! type 6) are a head followed by the items they hold.

use vstd::prelude::*;

verus! {

/// Major type of a byte string.
pub const MAJOR_BYTES: u8 = 2;

/// Major type of an array.
pub const MAJOR_ARRAY: u8 = 4;

/// Major type of a tag.
pub const MAJOR_TAG: u8 = 6;

/// The head of a data item.
#[derive(Clone, Copy, Debug, PartialEq, Eq, Structural)]
pub struct Head {
    /// The major type, below 8.
    pub major: u8,
    /// The argument: a length, a count or a tag number.
    pub arg: u64,
}

/// `item` stands in `s` from position `pos` on.
pub open spec fn has_at(s: Seq<u8>, pos: int, item: Seq<u8>) -> bool {
    &&& 0 <= pos
    &&& pos + item.len() <= s.len()
    &&& s.subrange(pos, pos + item.len()) == item
}

/// `s` and `t` hold the same first `n` bytes.
pub open spec fn agree(s: Seq<u8>, t: Seq<u8>, n: int) -> bool {
    &&& n <= s.len()
    &&& n <= t.len()
    &&& forall|i: int| 0 <= i < n ==> s[i] == t[i]
}

/// The shortest head for `major` and `arg`.
#[verifier::opaque]
pub open spec fn head_bytes(major: u8, arg: u64) -> Seq<u8> {
    let m = major as int * 32;
    if arg < 24 {
        seq![(m + arg) as u8]
    } else if arg < 0x100 {
        seq![(m + 24) as u8, arg as u8]
    } else if arg < 0x1_0000 {
        seq![(m + 25) as u8, (arg / 0x100) as u8, (arg % 0x100) as u8]
    } else if arg < 0x1_0000_0000 {
        seq![
            (m + 26) as u8,
            (arg / 0x100_0000) as u8,
            (arg / 0x1_0000 % 0x100) as u8,
            (arg / 0x100 % 0x100) as u8,
            (arg % 0x100) as u8,
        ]
    } else {
        seq![
            (m + 27) as u8,
            (arg / 0x100_0000_0000_0000) as u8,
            (arg / 0x1_0000_0000_0000 % 0x100) as u8,
            (arg / 0x100_0000_0000 % 0x100) as u8,
            (arg / 0x1_0000_0000 % 0x100) as u8,
            (arg / 0x100_0000 % 0x100) as u8,
            (arg / 0x1_0000 % 0x100) as u8,
            (arg / 0x100 % 0x100) as u8,
            (arg % 0x100) as u8,
        ]
    }
}

/// The value of the `width` bytes of `s` from `pos` on, read in big-endian order.
pub open spec fn be_value(s: Seq<u8>, pos: int, width: nat) -> nat
    decreases width,
{
    if width == 0 {
        0
    } else {
        be_value(s, pos, (width - 1) as nat) * 256 + s[pos + width - 1] as nat
    }
}

/// How many bytes of argument follow a first byte whose lower five bits are `info`, if
/// `info` announces an argument of definite size.
pub open spec fn arg_width(info: int) -> Option<nat> {
    if 0 <= info < 24 {
        Some(0nat)
    } else if info == 24 {
        Some(1nat)
    } else if info == 25 {
        Some(2nat)
    } else if info == 26 {
        Some(4nat)
    } else if info == 27 {
        Some(8nat)
    } else {
        None
    }
}

/// The head that stands in `s` at `pos`, with the position behind it. A head is accepted
/// in any of the widths that can hold its argument, not only the shortest.
#[verifier::opaque]
pub open spec fn parse_head(s: Seq<u8>, pos: int) -> Option<(Head, int)> {
    if 0 <= pos < s.len() {
        let first = s[pos] as int;
        match arg_width(first % 32) {
            Some(width) => if width == 0 {
                Some((Head { major: (first / 32) as u8, arg: (first % 32) as u64 }, pos + 1))
            } else if pos + 1 + width <= s.len() {
                Some(
                    (
                        Head { major: (first / 32) as u8, arg: be_value(s, pos + 1, width) as u64 },
                        pos + 1 + width,
                    ),
                )
            } else {
                None
            },
            None => None,
        }
    } else {
        None
    }
}

/// `be_value` written out for the widths that a head can have.
pub proof fn lemma_be_value_unfold(s: Seq<u8>, pos: int)
    ensures
        be_value(s, pos, 1) == s[pos] as nat,
        be_value(s, pos, 2) == s[pos] as nat * 256 + s[pos + 1] as nat,
        be_value(s, pos, 4) == ((s[pos] as nat * 256 + s[pos + 1] as nat) * 256 + s[pos
            + 2] as nat) * 256 + s[pos + 3] as nat,
        be_value(s, pos, 8) == ((((((s[pos] as nat * 256 + s[pos + 1] as nat) * 256 + s[pos
            + 2] as nat) * 256 + s[pos + 3] as nat) * 256 + s[pos + 4] as nat) * 256 + s[pos
            + 5] as nat) * 256 + s[pos + 6] as nat) * 256 + s[pos + 7] as nat,
{
    reveal_with_fuel(be_value, 9);
}

/// The four bytes that `head_bytes` writes for an argument below 2 to the 32 give it back.
proof fn lemma_join4(arg: u64)
    requires
        arg < 0x1_0000_0000,
    ensures
        arg / 0x100_0000 < 0x100,
        (((arg / 0x100_0000) * 256 + arg / 0x1_0000 % 0x100) * 256 + arg / 0x100 % 0x100) * 256
            + arg % 0x100 == arg,
{
    let a = arg / 0x100;
    let b = a / 0x100;
    assert(arg == a * 256 + arg % 0x100);
    assert(a == b * 256 + a % 0x100);
    assert(b == (b / 0x100) * 256 + b % 0x100);
    assert(b == arg / 0x1_0000);
    assert(b / 0x100 == arg / 0x100_0000);
}

/// The eight bytes that `head_bytes` writes for an argument give it back.
proof fn lemma_join8(arg: u64)
    ensures
        arg / 0x100_0000_0000_0000 < 0x100,
        (((((((arg / 0x100_0000_0000_0000) * 256 + arg / 0x1_0000_0000_0000 % 0x100) * 256 + arg
            / 0x100_0000_0000 % 0x100) * 256 + arg / 0x1_0000_0000 % 0x100) * 256 + arg
            / 0x100_0000 % 0x100) * 256 + arg / 0x1_0000 % 0x100) * 256 + arg / 0x100 % 0x100)
            * 256 + arg % 0x100 == arg,
{
    let a1 = arg / 0x100;
    let a2 = a1 / 0x100;
    let a3 = a2 / 0x100;
    let a4 = a3 / 0x100;
    let a5 = a4 / 0x100;
    let a6 = a5 / 0x100;
    let a7 = a6 / 0x100;
    assert(arg == a1 * 256 + arg % 0x100);
    assert(a1 == a2 * 256 + a1 % 0x100);
    assert(a2 == a3 * 256 + a2 % 0x100);
    assert(a3 == a4 * 256 + a3 % 0x100);
    assert(a4 == a5 * 256 + a4 % 0x100);
    assert(a5 == a6 * 256 + a5 % 0x100);
    assert(a6 == a7 * 256 + a6 % 0x100);
    assert(a2 == arg / 0x1_0000);
    assert(a3 == arg / 0x100_0000);
    assert(a4 == arg / 0x1_0000_0000);
    assert(a5 == arg / 0x100_0000_0000);
    assert(a6 == arg / 0x1_0000_0000_0000);
    assert(a7 == arg / 0x100_0000_0000_0000);
}

/// A head written in the shortest form is read back as it was written.
pub proof fn lemma_head_round_trip(s: Seq<u8>, pos: int, major: u8, arg: u64)
    requires
        major < 8,
        has_at(s, pos, head_bytes(major, arg)),
    ensures
        parse_head(s, pos) == Some((Head { major, arg }, pos + head_bytes(major, arg).len())),
{
    reveal(head_bytes);
    reveal(parse_head);
    let h = head_bytes(major, arg);
    assert forall|i: int| 0 <= i < h.len() implies s[pos + i] == h[i] by {
        assert(s.subrange(pos, pos + h.len())[i] == s[pos + i]);
    }
    lemma_be_value_unfold(s, pos + 1);
    let first = s[pos] as int;
    assert(first == h[0]);
    if arg < 24 {
        assert(first == major * 32 + arg);
    } else if arg < 0x100 {
        assert(first == major * 32 + 24);
        assert(s[pos + 1] == h[1]);
    } else if arg < 0x1_0000 {
        assert(first == major * 32 + 25);
        assert(s[pos + 1] == h[1] && s[pos + 2] == h[2]);
    } else if arg < 0x1_0000_0000 {
        assert(first == major * 32 + 26);
        assert(s[pos + 1] == h[1] && s[pos + 2] == h[2] && s[pos + 3] == h[3] && s[pos + 4]
            == h[4]);
        lemma_join4(arg);
    } else {
        assert(first == major * 32 + 27);
        assert(s[pos + 1] == h[1] && s[pos + 2] == h[2] && s[pos + 3] == h[3] && s[pos + 4]
            == h[4]);
        assert(s[pos + 5] == h[5] && s[pos + 6] == h[6] && s[pos + 7] == h[7] && s[pos + 8]
            == h[8]);
        lemma_join8(arg);
    }
}

/// A head that is read ends behind where it starts, within the sequence.
pub proof fn lemma_head_advances(s: Seq<u8>, pos: int)
    requires
        parse_head(s, pos) is Some,
    ensures
        0 <= pos < parse_head(s, pos).unwrap().1 <= s.len(),
        parse_head(s, pos).unwrap().0.major < 8,
{
    reveal(parse_head);
}

/// A head that is read is read alike from any sequence that agrees up to its end.
pub proof fn lemma_head_agrees(s: Seq<u8>, t: Seq<u8>, pos: int)
    requires
        parse_head(s, pos) is Some,
        agree(s, t, parse_head(s, pos).unwrap().1),
    ensures
        parse_head(t, pos) == parse_head(s, pos),
{
    reveal(parse_head);
    reveal_with_fuel(be_value, 9);
}

/// Appends the shortest head for `major` and `arg` to `out`.
pub fn write_head(out: &mut Vec<u8>, major: u8, arg: u64)
    requires
        major < 8,
    ensures
        final(out)@ == old(out)@ + head_bytes(major, arg),
{
    proof {
        reveal(head_bytes);
    }
    let m: u8 = major * 32;
    if arg < 24 {
        out.push(m + (arg as u8));
    } else if arg < 0x100 {
        out.push(m + 24);
        out.push(arg as u8);
    } else if arg < 0x1_0000 {
        out.push(m + 25);
        out.push((arg / 0x100) as u8);
        out.push((arg % 0x100) as u8);
    } else if arg < 0x1_0000_0000 {
        out.push(m + 26);
        out.push((arg / 0x100_0000) as u8);
        out.push((arg / 0x1_0000 % 0x100) as u8);
        out.push((arg / 0x100 % 0x100) as u8);
        out.push((arg % 0x100) as u8);
    } else {
        out.push(m + 27);
        out.push((arg / 0x100_0000_0000_0000) as u8);
        out.push((arg / 0x1_0000_0000_0000 % 0x100) as u8);
        out.push((arg / 0x100_0000_0000 % 0x100) as u8);
        out.push((arg / 0x1_0000_0000 % 0x100) as u8);
        out.push((arg / 0x100_0000 % 0x100) as u8);
        out.push((arg / 0x1_0000 % 0x100) as u8);
        out.push((arg / 0x100 % 0x100) as u8);
        out.push((arg % 0x100) as u8);
    }
    assert(out@ =~= old(out)@ + head_bytes(major, arg));
}

/// Reads the head that stands in `bytes` at `pos`.
pub fn read_head(bytes: &[u8], pos: usize) -> (r: Option<(Head, usize)>)
    ensures
        match r {
            Some((head, next)) => parse_head(bytes@, pos as int) == Some((head, next as int)),
            None => parse_head(bytes@, pos as int) is None,
        },
{
    proof {
        reveal(parse_head);
    }
    if pos >= bytes.len() {
        return None;
    }
    let first: u8 = bytes[pos];
    let major: u8 = first / 32;
    let info: u8 = first % 32;
    let rest: usize = bytes.len() - pos - 1;
    proof {
        reveal_with_fuel(be_value, 9);
    }
    let start: usize = pos + 1;
    if info < 24 {
        Some((Head { major, arg: info as u64 }, start))
    } else if info == 24 {
        if rest < 1 {
            return None;
        }
        Some((Head { major, arg: bytes[start] as u64 }, start + 1))
    } else if info == 25 {
        if rest < 2 {
            return None;
        }
        let arg: u64 = (bytes[start] as u64) * 256 + (bytes[start + 1] as u64);
        Some((Head { major, arg }, start + 2))
    } else if info == 26 {
        if rest < 4 {
            return None;
        }
        let hi: u64 = (bytes[start] as u64) * 256 + (bytes[start + 1] as u64);
        let arg: u64 = (hi * 256 + (bytes[start + 2] as u64)) * 256 + (bytes[start + 3] as u64);
        Some((Head { major, arg }, start + 4))
    } else if info == 27 {
        if rest < 8 {
            return None;
        }
        let a: u64 = (bytes[start] as u64) * 256 + (bytes[start + 1] as u64);
        let b: u64 = (a * 256 + (bytes[start + 2] as u64)) * 256 + (bytes[start + 3] as u64);
        let c: u64 = (b * 256 + (bytes[start + 4] as u64)) * 256 + (bytes[start + 5] as u64);
        let arg: u64 = (c * 256 + (bytes[start + 6] as u64)) * 256 + (bytes[start + 7] as u64);
        Some((Head { major, arg }, start + 8))
    } else {
        None
    }
}

/// Where two items stand one behind the other, each of them stands at its place.
pub proof fn lemma_has_at_split(s: Seq<u8>, pos: int, a: Seq<u8>, b: Seq<u8>)
    requires
        has_at(s, pos, a + b),
    ensures
        has_at(s, pos, a),
        has_at(s, pos + a.len(), b),
{
    let whole = s.subrange(pos, pos + (a + b).len());
    assert(s.subrange(pos, pos + a.len()) =~= a) by {
        assert forall|i: int| 0 <= i < a.len() implies s.subrange(pos, pos + a.len())[i]
            == a[i] by {
            assert(whole[i] == (a + b)[i]);
        }
    }
    assert(s.subrange(pos + a.len(), pos + a.len() + b.len()) =~= b) by {
        assert forall|i: int| 0 <= i < b.len() implies s.subrange(
            pos + a.len(),
            pos + a.len() + b.len(),
        )[i] == b[i] by {
            assert(whole[a.len() + i] == (a + b)[a.len() + i]);
        }
    }
}

/// A byte string as a data item: its length in a head, then its bytes.
pub open spec fn bytes_item(b: Seq<u8>) -> Seq<u8> {
    head_bytes(MAJOR_BYTES, b.len() as u64) + b
}

/// The byte string that stands in `s` at `pos`, with the position behind it.
pub open spec fn parse_bytes(s: Seq<u8>, pos: int) -> Option<(Seq<u8>, int)> {
    match parse_head(s, pos) {
        Some((head, start)) => if head.major == MAJOR_BYTES && start + head.arg <= s.len() {
            Some((s.subrange(start, start + head.arg), start + head.arg))
        } else {
            None
        },
        None => None,
    }
}

/// A byte string is read back as it was written.
pub proof fn lemma_bytes_round_trip(s: Seq<u8>, pos: int, b: Seq<u8>)
    requires
        b.len() <= u64::MAX,
        has_at(s, pos, bytes_item(b)),
    ensures
        parse_bytes(s, pos) == Some((b, pos + bytes_item(b).len())),
{
    let head = head_bytes(MAJOR_BYTES, b.len() as u64);
    lemma_has_at_split(s, pos, head, b);
    lemma_head_round_trip(s, pos, MAJOR_BYTES, b.len() as u64);
}

/// A byte string that is read ends behind where it starts, within the sequence.
pub proof fn lemma_bytes_within(s: Seq<u8>, pos: int)
    requires
        parse_bytes(s, pos) is Some,
    ensures
        0 <= pos < parse_bytes(s, pos).unwrap().1 <= s.len(),
{
    lemma_head_advances(s, pos);
}

/// A byte string that is read is read alike from any sequence that agrees up to its end.
pub proof fn lemma_bytes_agrees(s: Seq<u8>, t: Seq<u8>, pos: int)
    requires
        parse_bytes(s, pos) is Some,
        agree(s, t, parse_bytes(s, pos).unwrap().1),
    ensures
        parse_bytes(t, pos) == parse_bytes(s, pos),
{
    let (head, start) = parse_head(s, pos).unwrap();
    lemma_head_advances(s, pos);
    lemma_head_agrees(s, t, pos);
    assert(s.subrange(start, start + head.arg) =~= t.subrange(start, start + head.arg));
}

/// Appends `b` to `out` as a byte string.
pub fn write_bytes(out: &mut Vec<u8>, b: &Vec<u8>)
    ensures
        b@.len() <= u64::MAX,
        final(out)@ == old(out)@ + bytes_item(b@),
{
    write_head(out, MAJOR_BYTES, b.len() as u64);
    let ghost mid = out@;
    out.extend_from_slice(b.as_slice());
    assert(out@ =~= mid + b@);
    assert(out@ =~= old(out)@ + bytes_item(b@));
}

/// Reads the byte string that stands in `bytes` at `pos`.
pub fn read_bytes(bytes: &[u8], pos: usize) -> (r: Option<(Vec<u8>, usize)>)
    ensures
        match r {
            Some((b, next)) => parse_bytes(bytes@, pos as int) == Some((b@, next as int)),
            None => parse_bytes(bytes@, pos as int) is None,
        },
{
    match read_head(bytes, pos) {
        Some((head, start)) => {
            proof {
                lemma_head_advances(bytes@, pos as int);
            }
            if head.major != MAJOR_BYTES || head.arg > (bytes.len() - start) as u64 {
                return None;
            }
            let end: usize = start + head.arg as usize;
            let b = vstd::slice::slice_to_vec(vstd::slice::slice_subrange(bytes, start, end));
            Some((b, end))
        },
        None => None,
    }
}

} // verus!

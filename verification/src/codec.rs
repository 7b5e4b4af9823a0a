//! The envelope codec: every message type is written to bytes and read back through the
//! same two functions, and answers for the frame it is written in.

use crate::error::CodecError;
use crate::types::Bytes;
use crate::wire::{agree, has_at};
use vstd::prelude::*;

verus! {

/// A message that travels between nodes as a frame of bytes.
///
/// A type states what its frame is and how a frame is read, and proves that the two fit:
/// what is written is read back, and what is read does not depend on bytes behind the
/// frame.
pub trait Message: View + Sized {
    /// Every length in `v` can be written in a head.
    spec fn valid(v: Self::V) -> bool;

    /// The frame that `v` is written in.
    spec fn encoding(v: Self::V) -> Seq<u8>;

    /// The value whose frame stands in `s` at `pos`, with the position behind the frame.
    spec fn decoding(s: Seq<u8>, pos: int) -> Option<(Self::V, int)>;

    /// A frame holds at least one byte, and is read back as the value it was written for.
    proof fn lemma_round_trip(v: Self::V, s: Seq<u8>, pos: int)
        requires
            Self::valid(v),
            has_at(s, pos, Self::encoding(v)),
        ensures
            Self::encoding(v).len() > 0,
            Self::decoding(s, pos) == Some((v, pos + Self::encoding(v).len())),
    ;

    /// A frame that is read ends within the sequence.
    proof fn lemma_within(s: Seq<u8>, pos: int)
        requires
            Self::decoding(s, pos) is Some,
        ensures
            Self::decoding(s, pos).unwrap().1 <= s.len(),
    ;

    /// A frame that is read is read alike from any sequence that agrees up to its end.
    proof fn lemma_agrees(s: Seq<u8>, t: Seq<u8>, pos: int)
        requires
            Self::decoding(s, pos) is Some,
            agree(s, t, Self::decoding(s, pos).unwrap().1),
        ensures
            Self::decoding(t, pos) == Self::decoding(s, pos),
    ;

    /// Appends the frame of this message to `out`.
    fn encode(&self, out: &mut Vec<u8>)
        ensures
            Self::valid(self@),
            final(out)@ == old(out)@ + Self::encoding(self@),
    ;

    /// Reads the message whose frame stands in `bytes` at `pos`.
    fn decode(bytes: &[u8], pos: usize) -> (r: Option<(Self, usize)>)
        ensures
            match r {
                Some((message, next)) => Self::decoding(bytes@, pos as int) == Some(
                    (message@, next as int),
                ),
                None => Self::decoding(bytes@, pos as int) is None,
            },
    ;
}

/// What decoding `s` gives: the value whose frame `s` starts with; `UnexpectedEof` where
/// `s` holds no byte at all; `Malformed` where it holds bytes that no frame starts.
pub open spec fn decoded<T: Message>(s: Seq<u8>) -> Result<T::V, CodecError> {
    if s.len() == 0 {
        Err(CodecError::UnexpectedEof)
    } else {
        match T::decoding(s, 0) {
            Some((v, _)) => Ok(v),
            None => Err(CodecError::Malformed),
        }
    }
}

/// Writes `value` into a frame of its own.
pub fn encode<T: Message>(value: &T) -> (r: Result<Bytes, CodecError>)
    ensures
        T::valid(value@),
        r matches Ok(bytes) && bytes@ == T::encoding(value@),
{
    let mut out: Vec<u8> = Vec::new();
    value.encode(&mut out);
    assert(out@ =~= T::encoding(value@));
    Ok(out)
}

/// Reads the message that `bytes` starts with. Bytes behind the frame are left unread.
pub fn decode<T: Message>(bytes: &Bytes) -> (r: Result<T, CodecError>)
    ensures
        match r {
            Ok(message) => decoded::<T>(bytes@) == Ok::<T::V, CodecError>(message@),
            Err(e) => decoded::<T>(bytes@) == Err::<T::V, CodecError>(e),
        },
{
    if bytes.len() == 0 {
        return Err(CodecError::UnexpectedEof);
    }
    match T::decode(bytes.as_slice(), 0) {
        Some((message, _)) => Ok(message),
        None => Err(CodecError::Malformed),
    }
}

/// Round trip: a value that is encoded and then decoded comes back as it was, whatever
/// bytes follow its frame.
pub proof fn law_round_trip<T: Message>(v: T::V, rest: Seq<u8>)
    requires
        T::valid(v),
    ensures
        decoded::<T>(T::encoding(v) + rest) == Ok::<T::V, CodecError>(v),
{
    let s = T::encoding(v) + rest;
    assert(s.subrange(0, T::encoding(v).len() as int) =~= T::encoding(v));
    T::lemma_round_trip(v, s, 0);
}

/// Decoding no bytes at all fails with `UnexpectedEof`.
pub proof fn law_empty_input<T: Message>()
    ensures
        decoded::<T>(Seq::<u8>::empty()) == Err::<T::V, CodecError>(CodecError::UnexpectedEof),
{
}

/// Decoding a frame that was cut short, with at least one byte left of it, fails with
/// `Malformed`.
pub proof fn law_truncated_frame<T: Message>(v: T::V, n: int)
    requires
        T::valid(v),
        0 < n < T::encoding(v).len(),
    ensures
        decoded::<T>(T::encoding(v).take(n)) == Err::<T::V, CodecError>(CodecError::Malformed),
{
    let whole = T::encoding(v);
    let cut = whole.take(n);
    if T::decoding(cut, 0) is Some {
        T::lemma_within(cut, 0);
        T::lemma_agrees(cut, whole, 0);
        assert(whole.subrange(0, whole.len() as int) =~= whole);
        T::lemma_round_trip(v, whole, 0);
    }
}

} // verus!

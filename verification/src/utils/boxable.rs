//! A compact, self-describing binary encoding for heterogeneous values.
//!
//! Every encodable type states its encoding as a spec-level byte sequence
//! (`boxed_of`) over its deep view, and decoding (`unboxed_of`) reads one
//! value back off the front of a buffer. Four laws tie the two together:
//! encodings are never empty, decoding an encoding recovers the value,
//! a successful decode consumes exactly the value's encoding, and no
//! proper prefix of an encoding decodes at all.

use vstd::prelude::*;

verus! {

use vstd::bytes::*;
use vstd::slice::*;
use vstd::utf8::{valid_utf8, decode_utf8, encode_utf8};

/// A flat byte encoding produced by the codec.
pub type Boxed = Vec<u8>;

/// A value that can be encoded into a flat byte buffer.
pub trait Boxable: DeepView {
    /// The byte encoding of a value with deep view `v`.
    spec fn boxed_of(v: <Self as DeepView>::V) -> Seq<u8>;

    /// Whether a value with deep view `v` is small enough to encode:
    /// every length prefix must fit in `u32` and the whole encoding in `usize`.
    spec fn box_wf(v: <Self as DeepView>::V) -> bool;

    /// Encode this value.
    fn boxed(&self) -> (r: Boxed)
        requires
            Self::box_wf(self.deep_view()),
        ensures
            r@ == Self::boxed_of(self.deep_view()),
    ;
}

/// A value that can be decoded back off the front of a flat byte buffer.
pub trait Unboxable: Boxable + Sized {
    /// What decoding reads off the front of `b`, if anything.
    spec fn unboxed_of(b: Seq<u8>) -> Option<<Self as DeepView>::V>;

    /// Decode one value from the front of `boxed`; bytes past the value's
    /// own encoding are ignored. Returns `None` on truncated or malformed
    /// input.
    fn from_boxed(boxed: &Boxed) -> (r: Option<Self>)
        ensures
            (match r {
                Some(v) => Self::unboxed_of(boxed@) == Some(v.deep_view()),
                None => Self::unboxed_of(boxed@) is None,
            }),
    ;

    /// The exact number of bytes `boxed` produces for this value.
    fn size_in_boxed_bytes(&self) -> (r: usize)
        requires
            Self::box_wf(self.deep_view()),
        ensures
            r == Self::boxed_of(self.deep_view()).len(),
    ;

    /// Law: encodings are never empty.
    proof fn lemma_boxed_nonempty(v: <Self as DeepView>::V)
        requires
            Self::box_wf(v),
        ensures
            Self::boxed_of(v).len() > 0,
    ;

    /// Law (round trip): decoding an encoding, whatever follows it,
    /// yields the encoded value.
    proof fn lemma_round_trip(v: <Self as DeepView>::V, rest: Seq<u8>)
        requires
            Self::box_wf(v),
        ensures
            Self::unboxed_of(Self::boxed_of(v) + rest) == Some(v),
    ;

    /// Law: a decoded value is well formed and its encoding is exactly the
    /// prefix of the buffer that the decoder consumed. The buffer is one
    /// that can exist in memory.
    proof fn lemma_unboxed_wf(b: Seq<u8>)
        requires
            b.len() <= usize::MAX,
        ensures
            (match Self::unboxed_of(b) {
                Some(v) => Self::box_wf(v) && Self::boxed_of(v).len() <= b.len()
                    && Self::boxed_of(v) == b.take(Self::boxed_of(v).len() as int),
                None => true,
            }),
    ;

    /// Law (truncation safety): no proper prefix of an encoding decodes.
    proof fn lemma_truncation(v: <Self as DeepView>::V, p: Seq<u8>)
        requires
            Self::box_wf(v),
            p.len() < Self::boxed_of(v).len(),
            p == Self::boxed_of(v).take(p.len() as int),
        ensures
            Self::unboxed_of(p) is None,
    ;
}

impl Boxable for u8 {
    open spec fn boxed_of(v: u8) -> Seq<u8> {
        seq![v]
    }

    open spec fn box_wf(v: u8) -> bool {
        true
    }

    fn boxed(&self) -> (r: Boxed) {
        let mut r: Vec<u8> = Vec::new();
        r.push(*self);
        assert(r@ =~= Self::boxed_of(self.deep_view()));
        r
    }
}

impl Unboxable for u8 {
    open spec fn unboxed_of(b: Seq<u8>) -> Option<u8> {
        if b.len() < 1 {
            None
        } else {
            Some(b[0])
        }
    }

    fn from_boxed(boxed: &Boxed) -> (r: Option<Self>) {
        if boxed.len() < 1 {
            None
        } else {
            Some(boxed[0])
        }
    }

    fn size_in_boxed_bytes(&self) -> (r: usize) {
        1
    }

    proof fn lemma_boxed_nonempty(v: u8) {
    }

    proof fn lemma_round_trip(v: u8, rest: Seq<u8>) {
    }

    proof fn lemma_unboxed_wf(b: Seq<u8>) {
        if b.len() >= 1 {
            assert(Self::boxed_of(b[0]) =~= b.take(1));
        }
    }

    proof fn lemma_truncation(v: u8, p: Seq<u8>) {
    }
}

impl Boxable for u16 {
    open spec fn boxed_of(v: u16) -> Seq<u8> {
        spec_u16_to_le_bytes(v)
    }

    open spec fn box_wf(v: u16) -> bool {
        true
    }

    fn boxed(&self) -> (r: Boxed) {
        u16_to_le_bytes(*self)
    }
}

impl Unboxable for u16 {
    open spec fn unboxed_of(b: Seq<u8>) -> Option<u16> {
        if b.len() < 2 {
            None
        } else {
            Some(spec_u16_from_le_bytes(b.take(2)))
        }
    }

    fn from_boxed(boxed: &Boxed) -> (r: Option<Self>) {
        if boxed.len() < 2 {
            None
        } else {
            let front = slice_subrange(boxed.as_slice(), 0, 2);
            Some(u16_from_le_bytes(front))
        }
    }

    fn size_in_boxed_bytes(&self) -> (r: usize) {
        proof {
            lemma_auto_spec_u16_to_from_le_bytes();
        }
        2
    }

    proof fn lemma_boxed_nonempty(v: u16) {
        lemma_auto_spec_u16_to_from_le_bytes();
    }

    proof fn lemma_round_trip(v: u16, rest: Seq<u8>) {
        lemma_auto_spec_u16_to_from_le_bytes();
        assert((spec_u16_to_le_bytes(v) + rest).take(2) =~= spec_u16_to_le_bytes(v));
    }

    proof fn lemma_unboxed_wf(b: Seq<u8>) {
        lemma_auto_spec_u16_to_from_le_bytes();
    }

    proof fn lemma_truncation(v: u16, p: Seq<u8>) {
        lemma_auto_spec_u16_to_from_le_bytes();
    }
}

impl Boxable for u32 {
    open spec fn boxed_of(v: u32) -> Seq<u8> {
        spec_u32_to_le_bytes(v)
    }

    open spec fn box_wf(v: u32) -> bool {
        true
    }

    fn boxed(&self) -> (r: Boxed) {
        u32_to_le_bytes(*self)
    }
}

impl Unboxable for u32 {
    open spec fn unboxed_of(b: Seq<u8>) -> Option<u32> {
        if b.len() < 4 {
            None
        } else {
            Some(spec_u32_from_le_bytes(b.take(4)))
        }
    }

    fn from_boxed(boxed: &Boxed) -> (r: Option<Self>) {
        if boxed.len() < 4 {
            None
        } else {
            let front = slice_subrange(boxed.as_slice(), 0, 4);
            Some(u32_from_le_bytes(front))
        }
    }

    fn size_in_boxed_bytes(&self) -> (r: usize) {
        proof {
            lemma_auto_spec_u32_to_from_le_bytes();
        }
        4
    }

    proof fn lemma_boxed_nonempty(v: u32) {
        lemma_auto_spec_u32_to_from_le_bytes();
    }

    proof fn lemma_round_trip(v: u32, rest: Seq<u8>) {
        lemma_auto_spec_u32_to_from_le_bytes();
        assert((spec_u32_to_le_bytes(v) + rest).take(4) =~= spec_u32_to_le_bytes(v));
    }

    proof fn lemma_unboxed_wf(b: Seq<u8>) {
        lemma_auto_spec_u32_to_from_le_bytes();
    }

    proof fn lemma_truncation(v: u32, p: Seq<u8>) {
        lemma_auto_spec_u32_to_from_le_bytes();
    }
}

impl Boxable for u64 {
    open spec fn boxed_of(v: u64) -> Seq<u8> {
        spec_u64_to_le_bytes(v)
    }

    open spec fn box_wf(v: u64) -> bool {
        true
    }

    fn boxed(&self) -> (r: Boxed) {
        u64_to_le_bytes(*self)
    }
}

impl Unboxable for u64 {
    open spec fn unboxed_of(b: Seq<u8>) -> Option<u64> {
        if b.len() < 8 {
            None
        } else {
            Some(spec_u64_from_le_bytes(b.take(8)))
        }
    }

    fn from_boxed(boxed: &Boxed) -> (r: Option<Self>) {
        if boxed.len() < 8 {
            None
        } else {
            let front = slice_subrange(boxed.as_slice(), 0, 8);
            Some(u64_from_le_bytes(front))
        }
    }

    fn size_in_boxed_bytes(&self) -> (r: usize) {
        proof {
            lemma_auto_spec_u64_to_from_le_bytes();
        }
        8
    }

    proof fn lemma_boxed_nonempty(v: u64) {
        lemma_auto_spec_u64_to_from_le_bytes();
    }

    proof fn lemma_round_trip(v: u64, rest: Seq<u8>) {
        lemma_auto_spec_u64_to_from_le_bytes();
        assert((spec_u64_to_le_bytes(v) + rest).take(8) =~= spec_u64_to_le_bytes(v));
    }

    proof fn lemma_unboxed_wf(b: Seq<u8>) {
        lemma_auto_spec_u64_to_from_le_bytes();
    }

    proof fn lemma_truncation(v: u64, p: Seq<u8>) {
        lemma_auto_spec_u64_to_from_le_bytes();
    }
}

/// `usize` travels as a fixed eight-byte little-endian quantity, so that an
/// encoding does not depend on the machine's word width; decoding rejects a
/// value too large for this machine's `usize`.
impl Boxable for usize {
    open spec fn boxed_of(v: usize) -> Seq<u8> {
        spec_u64_to_le_bytes(v as u64)
    }

    open spec fn box_wf(v: usize) -> bool {
        v <= u64::MAX
    }

    fn boxed(&self) -> (r: Boxed) {
        u64_to_le_bytes(*self as u64)
    }
}

impl Unboxable for usize {
    open spec fn unboxed_of(b: Seq<u8>) -> Option<usize> {
        if b.len() < 8 {
            None
        } else {
            let x = spec_u64_from_le_bytes(b.take(8));
            if x <= usize::MAX as u64 {
                Some(x as usize)
            } else {
                None
            }
        }
    }

    fn from_boxed(boxed: &Boxed) -> (r: Option<Self>) {
        if boxed.len() < 8 {
            None
        } else {
            let front = slice_subrange(boxed.as_slice(), 0, 8);
            let x = u64_from_le_bytes(front);
            if x <= usize::MAX as u64 {
                Some(x as usize)
            } else {
                None
            }
        }
    }

    fn size_in_boxed_bytes(&self) -> (r: usize) {
        proof {
            lemma_auto_spec_u64_to_from_le_bytes();
        }
        8
    }

    proof fn lemma_boxed_nonempty(v: usize) {
        lemma_auto_spec_u64_to_from_le_bytes();
    }

    proof fn lemma_round_trip(v: usize, rest: Seq<u8>) {
        lemma_auto_spec_u64_to_from_le_bytes();
        assert((spec_u64_to_le_bytes(v as u64) + rest).take(8) =~= spec_u64_to_le_bytes(v as u64));
    }

    proof fn lemma_unboxed_wf(b: Seq<u8>) {
        lemma_auto_spec_u64_to_from_le_bytes();
    }

    proof fn lemma_truncation(v: usize, p: Seq<u8>) {
        lemma_auto_spec_u64_to_from_le_bytes();
    }
}

/// Signed integers travel as the little-endian bytes of their
/// two's-complement reinterpretation.
impl Boxable for i8 {
    open spec fn boxed_of(v: i8) -> Seq<u8> {
        seq![v as u8]
    }

    open spec fn box_wf(v: i8) -> bool {
        true
    }

    fn boxed(&self) -> (r: Boxed) {
        let mut r: Vec<u8> = Vec::new();
        r.push(*self as u8);
        assert(r@ =~= Self::boxed_of(self.deep_view()));
        r
    }
}

impl Unboxable for i8 {
    open spec fn unboxed_of(b: Seq<u8>) -> Option<i8> {
        if b.len() < 1 {
            None
        } else {
            Some(b[0] as i8)
        }
    }

    fn from_boxed(boxed: &Boxed) -> (r: Option<Self>) {
        if boxed.len() < 1 {
            None
        } else {
            Some(boxed[0] as i8)
        }
    }

    fn size_in_boxed_bytes(&self) -> (r: usize) {
        1
    }

    proof fn lemma_boxed_nonempty(v: i8) {
    }

    proof fn lemma_round_trip(v: i8, rest: Seq<u8>) {
        assert((v as u8) as i8 == v) by (bit_vector);
    }

    proof fn lemma_unboxed_wf(b: Seq<u8>) {
        if b.len() >= 1 {
            let x = b[0];
            assert((x as i8) as u8 == x) by (bit_vector);
            assert(Self::boxed_of(x as i8) =~= b.take(1));
        }
    }

    proof fn lemma_truncation(v: i8, p: Seq<u8>) {
    }
}

impl Boxable for i16 {
    open spec fn boxed_of(v: i16) -> Seq<u8> {
        spec_u16_to_le_bytes(v as u16)
    }

    open spec fn box_wf(v: i16) -> bool {
        true
    }

    fn boxed(&self) -> (r: Boxed) {
        u16_to_le_bytes(*self as u16)
    }
}

impl Unboxable for i16 {
    open spec fn unboxed_of(b: Seq<u8>) -> Option<i16> {
        if b.len() < 2 {
            None
        } else {
            Some(spec_u16_from_le_bytes(b.take(2)) as i16)
        }
    }

    fn from_boxed(boxed: &Boxed) -> (r: Option<Self>) {
        if boxed.len() < 2 {
            None
        } else {
            let front = slice_subrange(boxed.as_slice(), 0, 2);
            Some(u16_from_le_bytes(front) as i16)
        }
    }

    fn size_in_boxed_bytes(&self) -> (r: usize) {
        proof {
            lemma_auto_spec_u16_to_from_le_bytes();
        }
        2
    }

    proof fn lemma_boxed_nonempty(v: i16) {
        lemma_auto_spec_u16_to_from_le_bytes();
    }

    proof fn lemma_round_trip(v: i16, rest: Seq<u8>) {
        lemma_auto_spec_u16_to_from_le_bytes();
        assert((spec_u16_to_le_bytes(v as u16) + rest).take(2) =~= spec_u16_to_le_bytes(
            v as u16,
        ));
        assert((v as u16) as i16 == v) by (bit_vector);
    }

    proof fn lemma_unboxed_wf(b: Seq<u8>) {
        lemma_auto_spec_u16_to_from_le_bytes();
        if b.len() >= 2 {
            let x = spec_u16_from_le_bytes(b.take(2));
            assert((x as i16) as u16 == x) by (bit_vector);
        }
    }

    proof fn lemma_truncation(v: i16, p: Seq<u8>) {
        lemma_auto_spec_u16_to_from_le_bytes();
    }
}

impl Boxable for i32 {
    open spec fn boxed_of(v: i32) -> Seq<u8> {
        spec_u32_to_le_bytes(v as u32)
    }

    open spec fn box_wf(v: i32) -> bool {
        true
    }

    fn boxed(&self) -> (r: Boxed) {
        u32_to_le_bytes(*self as u32)
    }
}

impl Unboxable for i32 {
    open spec fn unboxed_of(b: Seq<u8>) -> Option<i32> {
        if b.len() < 4 {
            None
        } else {
            Some(spec_u32_from_le_bytes(b.take(4)) as i32)
        }
    }

    fn from_boxed(boxed: &Boxed) -> (r: Option<Self>) {
        if boxed.len() < 4 {
            None
        } else {
            let front = slice_subrange(boxed.as_slice(), 0, 4);
            Some(u32_from_le_bytes(front) as i32)
        }
    }

    fn size_in_boxed_bytes(&self) -> (r: usize) {
        proof {
            lemma_auto_spec_u32_to_from_le_bytes();
        }
        4
    }

    proof fn lemma_boxed_nonempty(v: i32) {
        lemma_auto_spec_u32_to_from_le_bytes();
    }

    proof fn lemma_round_trip(v: i32, rest: Seq<u8>) {
        lemma_auto_spec_u32_to_from_le_bytes();
        assert((spec_u32_to_le_bytes(v as u32) + rest).take(4) =~= spec_u32_to_le_bytes(
            v as u32,
        ));
        assert((v as u32) as i32 == v) by (bit_vector);
    }

    proof fn lemma_unboxed_wf(b: Seq<u8>) {
        lemma_auto_spec_u32_to_from_le_bytes();
        if b.len() >= 4 {
            let x = spec_u32_from_le_bytes(b.take(4));
            assert((x as i32) as u32 == x) by (bit_vector);
        }
    }

    proof fn lemma_truncation(v: i32, p: Seq<u8>) {
        lemma_auto_spec_u32_to_from_le_bytes();
    }
}

impl Boxable for i64 {
    open spec fn boxed_of(v: i64) -> Seq<u8> {
        spec_u64_to_le_bytes(v as u64)
    }

    open spec fn box_wf(v: i64) -> bool {
        true
    }

    fn boxed(&self) -> (r: Boxed) {
        u64_to_le_bytes(*self as u64)
    }
}

impl Unboxable for i64 {
    open spec fn unboxed_of(b: Seq<u8>) -> Option<i64> {
        if b.len() < 8 {
            None
        } else {
            Some(spec_u64_from_le_bytes(b.take(8)) as i64)
        }
    }

    fn from_boxed(boxed: &Boxed) -> (r: Option<Self>) {
        if boxed.len() < 8 {
            None
        } else {
            let front = slice_subrange(boxed.as_slice(), 0, 8);
            Some(u64_from_le_bytes(front) as i64)
        }
    }

    fn size_in_boxed_bytes(&self) -> (r: usize) {
        proof {
            lemma_auto_spec_u64_to_from_le_bytes();
        }
        8
    }

    proof fn lemma_boxed_nonempty(v: i64) {
        lemma_auto_spec_u64_to_from_le_bytes();
    }

    proof fn lemma_round_trip(v: i64, rest: Seq<u8>) {
        lemma_auto_spec_u64_to_from_le_bytes();
        assert((spec_u64_to_le_bytes(v as u64) + rest).take(8) =~= spec_u64_to_le_bytes(
            v as u64,
        ));
        assert((v as u64) as i64 == v) by (bit_vector);
    }

    proof fn lemma_unboxed_wf(b: Seq<u8>) {
        lemma_auto_spec_u64_to_from_le_bytes();
        if b.len() >= 8 {
            let x = spec_u64_from_le_bytes(b.take(8));
            assert((x as i64) as u64 == x) by (bit_vector);
        }
    }

    proof fn lemma_truncation(v: i64, p: Seq<u8>) {
        lemma_auto_spec_u64_to_from_le_bytes();
    }
}

/// Relies on `core::str::from_utf8`: it succeeds exactly on bytes that are
/// valid UTF-8, returning the string slice that those bytes spell.
#[verifier::external_body]
fn utf8_to_str(bytes: &[u8]) -> (r: Option<&str>)
    ensures
        (match r {
            Some(s) => valid_utf8(bytes@) && encode_utf8(s@) == bytes@,
            None => !valid_utf8(bytes@),
        }),
{
    core::str::from_utf8(bytes).ok()
}

/// Strings travel as a four-byte little-endian byte count followed by the
/// UTF-8 bytes; decoding rejects a count past the end of the buffer and
/// bytes that are not valid UTF-8.
impl Boxable for String {
    open spec fn boxed_of(v: Seq<char>) -> Seq<u8> {
        spec_u32_to_le_bytes(encode_utf8(v).len() as u32) + encode_utf8(v)
    }

    open spec fn box_wf(v: Seq<char>) -> bool {
        encode_utf8(v).len() <= u32::MAX && 4 + encode_utf8(v).len() <= usize::MAX
    }

    fn boxed(&self) -> (r: Boxed) {
        let bytes: &[u8] = self.as_str().as_bytes();
        let mut r = u32_to_le_bytes(bytes.len() as u32);
        r.extend_from_slice(bytes);
        r
    }
}

impl Unboxable for String {
    open spec fn unboxed_of(b: Seq<u8>) -> Option<Seq<char>> {
        if b.len() < 4 {
            None
        } else {
            let l = spec_u32_from_le_bytes(b.take(4)) as int;
            if b.len() - 4 < l {
                None
            } else {
                let payload = b.subrange(4, 4 + l);
                if valid_utf8(payload) {
                    Some(decode_utf8(payload))
                } else {
                    None
                }
            }
        }
    }

    fn from_boxed(boxed: &Boxed) -> (r: Option<Self>) {
        if boxed.len() < 4 {
            return None;
        }
        let front = slice_subrange(boxed.as_slice(), 0, 4);
        let l = u32_from_le_bytes(front) as usize;
        if boxed.len() - 4 < l {
            return None;
        }
        let payload = slice_subrange(boxed.as_slice(), 4, 4 + l);
        match utf8_to_str(payload) {
            Some(s) => {
                proof {
                    vstd::utf8::encode_utf8_decode_utf8(s@);
                }
                Some(s.to_owned())
            },
            None => None,
        }
    }

    fn size_in_boxed_bytes(&self) -> (r: usize) {
        proof {
            lemma_auto_spec_u32_to_from_le_bytes();
        }
        4 + self.as_str().len()
    }

    proof fn lemma_boxed_nonempty(v: Seq<char>) {
        lemma_auto_spec_u32_to_from_le_bytes();
    }

    proof fn lemma_round_trip(v: Seq<char>, rest: Seq<u8>) {
        lemma_auto_spec_u32_to_from_le_bytes();
        let enc = encode_utf8(v);
        let b = Self::boxed_of(v) + rest;
        assert(b.take(4) =~= spec_u32_to_le_bytes(enc.len() as u32));
        assert(b.subrange(4, 4 + enc.len() as int) =~= enc);
        vstd::utf8::encode_utf8_valid_utf8(v);
        vstd::utf8::encode_utf8_decode_utf8(v);
    }

    proof fn lemma_unboxed_wf(b: Seq<u8>) {
        lemma_auto_spec_u32_to_from_le_bytes();
        if b.len() >= 4 {
            let l = spec_u32_from_le_bytes(b.take(4)) as int;
            if b.len() - 4 >= l {
                let payload = b.subrange(4, 4 + l);
                if valid_utf8(payload) {
                    let w = decode_utf8(payload);
                    vstd::utf8::decode_utf8_encode_utf8(payload);
                    assert(Self::boxed_of(w) =~= b.take(4 + l));
                }
            }
        }
    }

    proof fn lemma_truncation(v: Seq<char>, p: Seq<u8>) {
        lemma_auto_spec_u32_to_from_le_bytes();
        let enc = encode_utf8(v);
        if p.len() >= 4 {
            assert(p.take(4) =~= spec_u32_to_le_bytes(enc.len() as u32));
            assert(spec_u32_from_le_bytes(p.take(4)) == enc.len() as u32);
        }
    }
}

/// The concatenation of the encodings of `items`, in order.
pub open spec fn boxed_concat<T: Boxable>(items: Seq<<T as DeepView>::V>) -> Seq<u8>
    decreases items.len(),
{
    if items.len() == 0 {
        Seq::empty()
    } else {
        T::boxed_of(items[0]) + boxed_concat::<T>(items.drop_first())
    }
}

/// Every item is small enough to encode.
pub open spec fn items_wf<T: Boxable>(items: Seq<<T as DeepView>::V>) -> bool {
    forall|i: int| 0 <= i < items.len() ==> T::box_wf(#[trigger] items[i])
}

/// Decoding `n` consecutive values off the front of `b`; each successful
/// decode consumes the decoded value's own encoding.
pub open spec fn unboxed_items<T: Unboxable>(b: Seq<u8>, n: nat) -> Option<
    Seq<<T as DeepView>::V>,
>
    decreases n,
{
    if n == 0 {
        Some(Seq::empty())
    } else {
        match T::unboxed_of(b) {
            None => None,
            Some(v) => match unboxed_items::<T>(
                b.skip(T::boxed_of(v).len() as int),
                (n - 1) as nat,
            ) {
                None => None,
                Some(rest) => Some(Seq::empty().push(v) + rest),
            },
        }
    }
}

/// Appending one item appends its encoding.
pub proof fn lemma_boxed_concat_push<T: Boxable>(
    items: Seq<<T as DeepView>::V>,
    v: <T as DeepView>::V,
)
    ensures
        boxed_concat::<T>(items.push(v)) == boxed_concat::<T>(items) + T::boxed_of(v),
    decreases items.len(),
{
    if items.len() == 0 {
        assert(items.push(v)[0] == v);
        assert(items.push(v).drop_first() =~= Seq::<<T as DeepView>::V>::empty());
        assert(boxed_concat::<T>(items.push(v)) == T::boxed_of(v) + boxed_concat::<T>(
            items.push(v).drop_first(),
        ));
        assert(boxed_concat::<T>(items.push(v).drop_first()) == Seq::<u8>::empty());
        assert(boxed_concat::<T>(items) == Seq::<u8>::empty());
        assert(boxed_concat::<T>(items.push(v)) =~= boxed_concat::<T>(items) + T::boxed_of(v));
    } else {
        assert(items.push(v)[0] == items[0]);
        assert(items.push(v).drop_first() =~= items.drop_first().push(v));
        lemma_boxed_concat_push::<T>(items.drop_first(), v);
        assert(boxed_concat::<T>(items.push(v)) == T::boxed_of(items[0]) + boxed_concat::<T>(
            items.drop_first().push(v),
        ));
        assert(boxed_concat::<T>(items.push(v)) =~= boxed_concat::<T>(items) + T::boxed_of(v));
    }
}

/// The encodings of a front segment form a prefix of the whole concatenation.
pub proof fn lemma_boxed_concat_split<T: Boxable>(items: Seq<<T as DeepView>::V>, k: int)
    requires
        0 <= k <= items.len(),
    ensures
        boxed_concat::<T>(items) == boxed_concat::<T>(items.take(k)) + boxed_concat::<T>(
            items.skip(k),
        ),
    decreases k,
{
    if k == 0 {
        assert(items.take(0) =~= Seq::<<T as DeepView>::V>::empty());
        assert(items.skip(0) =~= items);
        assert(boxed_concat::<T>(items) =~= boxed_concat::<T>(items.take(0)) + boxed_concat::<T>(
            items.skip(0),
        ));
    } else {
        let first = items[0];
        let rest = items.drop_first();
        lemma_boxed_concat_split::<T>(rest, k - 1);
        assert(items.take(k)[0] == first);
        assert(items.take(k).drop_first() =~= rest.take(k - 1));
        assert(items.skip(k) =~= rest.skip(k - 1));
        assert(boxed_concat::<T>(items) =~= boxed_concat::<T>(items.take(k)) + boxed_concat::<T>(
            items.skip(k),
        ));
    }
}

/// Round trip for item sequences: decoding the concatenation of `items`,
/// whatever follows it, yields `items` back.
pub proof fn lemma_unboxed_items_round_trip<T: Unboxable>(
    items: Seq<<T as DeepView>::V>,
    rest: Seq<u8>,
)
    requires
        items_wf::<T>(items),
    ensures
        unboxed_items::<T>(boxed_concat::<T>(items) + rest, items.len() as nat) == Some(items),
    decreases items.len(),
{
    if items.len() == 0 {
        assert(unboxed_items::<T>(boxed_concat::<T>(items) + rest, 0) == Some(
            Seq::<<T as DeepView>::V>::empty(),
        ));
        assert(items =~= Seq::<<T as DeepView>::V>::empty());
    } else {
        let v = items[0];
        let tail_enc = boxed_concat::<T>(items.drop_first());
        let b = boxed_concat::<T>(items) + rest;
        assert(b =~= T::boxed_of(v) + (tail_enc + rest));
        T::lemma_round_trip(v, tail_enc + rest);
        assert(b.skip(T::boxed_of(v).len() as int) =~= tail_enc + rest);
        lemma_unboxed_items_round_trip::<T>(items.drop_first(), rest);
        assert(Seq::empty().push(v) + items.drop_first() =~= items);
    }
}

/// Decoded item sequences are well formed and their concatenated encoding is
/// exactly the consumed prefix of the buffer.
pub proof fn lemma_unboxed_items_wf<T: Unboxable>(b: Seq<u8>, n: nat)
    requires
        b.len() <= usize::MAX,
    ensures
        (match unboxed_items::<T>(b, n) {
            Some(items) => items.len() == n && items_wf::<T>(items) && boxed_concat::<T>(
                items,
            ).len() <= b.len() && boxed_concat::<T>(items) == b.take(
                boxed_concat::<T>(items).len() as int,
            ),
            None => true,
        }),
    decreases n,
{
    if n == 0 {
        assert(boxed_concat::<T>(Seq::<<T as DeepView>::V>::empty()) =~= b.take(0));
    } else {
        match T::unboxed_of(b) {
            None => {},
            Some(v) => {
                T::lemma_unboxed_wf(b);
                let e = T::boxed_of(v);
                let b2 = b.skip(e.len() as int);
                lemma_unboxed_items_wf::<T>(b2, (n - 1) as nat);
                match unboxed_items::<T>(b2, (n - 1) as nat) {
                    None => {},
                    Some(rest) => {
                        let items = Seq::empty().push(v) + rest;
                        assert(items[0] == v);
                        assert(items.drop_first() =~= rest);
                        let c = boxed_concat::<T>(items);
                        assert(c == e + boxed_concat::<T>(rest));
                        assert(c =~= b.take(c.len() as int));
                        assert forall|i: int| 0 <= i < items.len() implies T::box_wf(
                            #[trigger] items[i],
                        ) by {
                            if i > 0 {
                                assert(items[i] == rest[i - 1]);
                            }
                        }
                    },
                }
            },
        }
    }
}

/// Truncation safety for item sequences: a proper prefix of the
/// concatenation never decodes as the same number of items.
pub proof fn lemma_unboxed_items_truncation<T: Unboxable>(
    items: Seq<<T as DeepView>::V>,
    p: Seq<u8>,
)
    requires
        items_wf::<T>(items),
        p.len() < boxed_concat::<T>(items).len(),
        p == boxed_concat::<T>(items).take(p.len() as int),
    ensures
        unboxed_items::<T>(p, items.len() as nat) is None,
    decreases items.len(),
{
    let v = items[0];
    let e = T::boxed_of(v);
    let rest_enc = boxed_concat::<T>(items.drop_first());
    if p.len() < e.len() {
        assert(p =~= e.take(p.len() as int));
        T::lemma_truncation(v, p);
    } else {
        let p2 = p.skip(e.len() as int);
        assert(p =~= e + p2);
        T::lemma_round_trip(v, p2);
        assert(p2 =~= rest_enc.take(p2.len() as int));
        lemma_unboxed_items_truncation::<T>(items.drop_first(), p2);
    }
}

/// A byte buffer that encodable values can be packed onto.
pub trait ByteBox {
    /// The bytes accumulated so far.
    spec fn contents(&self) -> Seq<u8>;

    /// Append the encoding of `data`.
    fn pack<T: Boxable>(&mut self, data: &T)
        requires
            T::box_wf(data.deep_view()),
        ensures
            final(self).contents() == old(self).contents() + T::boxed_of(data.deep_view()),
    ;
}

impl ByteBox for Boxed {
    open spec fn contents(&self) -> Seq<u8> {
        self@
    }

    fn pack<T: Boxable>(&mut self, data: &T) {
        let mut enc = data.boxed();
        self.append(&mut enc);
    }
}

/// A cursor over one encoded buffer, reading one value at a time.
/// A successful read advances the cursor by exactly the size of the value's
/// encoding; a failed read leaves the cursor where it was.
pub struct ByteBoxReader<'a> {
    bytes_box: &'a Boxed,
    offset: usize,
}

impl<'a> ByteBoxReader<'a> {
    /// The cursor sits inside the buffer.
    pub closed spec fn wf(&self) -> bool {
        self.offset <= self.bytes_box@.len()
    }

    /// The bytes not yet consumed.
    pub closed spec fn remaining(&self) -> Seq<u8> {
        self.bytes_box@.skip(self.offset as int)
    }

    pub fn from_boxed(bytes_box: &'a Boxed) -> (r: Self)
        ensures
            r.wf(),
            r.remaining() == bytes_box@,
    {
        let r = Self { bytes_box, offset: 0usize };
        proof {
            assert(r.remaining() =~= bytes_box@);
        }
        r
    }

    pub fn read<T: Unboxable>(&mut self) -> (r: Option<T>)
        requires
            old(self).wf(),
        ensures
            final(self).wf(),
            (match r {
                Some(v) => T::unboxed_of(old(self).remaining()) == Some(v.deep_view())
                    && T::box_wf(v.deep_view()) && final(self).remaining() == old(
                    self,
                ).remaining().skip(T::boxed_of(v.deep_view()).len() as int),
                None => T::unboxed_of(old(self).remaining()) is None && *final(self) == *old(
                    self,
                ),
            }),
    {
        let rest_slice = slice_subrange(self.bytes_box.as_slice(), self.offset, self.bytes_box.len());
        let rest = slice_to_vec(rest_slice);
        proof {
            assert(rest@ =~= self.remaining());
        }
        match T::from_boxed(&rest) {
            None => None,
            Some(v) => {
                proof {
                    T::lemma_unboxed_wf(rest@);
                }
                let sz = v.size_in_boxed_bytes();
                self.offset = self.offset + sz;
                proof {
                    assert(self.remaining() =~= rest@.skip(sz as int));
                }
                Some(v)
            },
        }
    }
}

/// Sequences travel as a four-byte little-endian element count followed by
/// the concatenated element encodings.
impl<T: Boxable> Boxable for Vec<T> {
    open spec fn boxed_of(v: Seq<<T as DeepView>::V>) -> Seq<u8> {
        spec_u32_to_le_bytes(v.len() as u32) + boxed_concat::<T>(v)
    }

    open spec fn box_wf(v: Seq<<T as DeepView>::V>) -> bool {
        v.len() <= u32::MAX && items_wf::<T>(v) && 4 + boxed_concat::<T>(v).len() <= usize::MAX
    }

    fn boxed(&self) -> (r: Boxed) {
        let mut r = u32_to_le_bytes(self.len() as u32);
        let mut i: usize = 0;
        while i < self.len()
            invariant
                i <= self.len(),
                Self::box_wf(self.deep_view()),
                r@ == spec_u32_to_le_bytes(self.deep_view().len() as u32) + boxed_concat::<T>(
                    self.deep_view().take(i as int),
                ),
            decreases self.len() - i,
        {
            proof {
                assert(T::box_wf(self.deep_view()[i as int]));
            }
            let mut enc = self[i].boxed();
            r.append(&mut enc);
            proof {
                lemma_boxed_concat_push::<T>(
                    self.deep_view().take(i as int),
                    self.deep_view()[i as int],
                );
                assert(self.deep_view().take(i + 1) =~= self.deep_view().take(i as int).push(
                    self.deep_view()[i as int],
                ));
            }
            i += 1;
        }
        proof {
            assert(self.deep_view().take(self.len() as int) =~= self.deep_view());
        }
        r
    }
}

impl<T: Unboxable> Unboxable for Vec<T> {
    open spec fn unboxed_of(b: Seq<u8>) -> Option<Seq<<T as DeepView>::V>> {
        if b.len() < 4 {
            None
        } else {
            unboxed_items::<T>(b.skip(4), spec_u32_from_le_bytes(b.take(4)) as nat)
        }
    }

    fn from_boxed(boxed: &Boxed) -> (r: Option<Self>) {
        if boxed.len() < 4 {
            return None;
        }
        let front = slice_subrange(boxed.as_slice(), 0, 4);
        let n = u32_from_le_bytes(front) as usize;
        let tail = slice_to_vec(slice_subrange(boxed.as_slice(), 4, boxed.len()));
        proof {
            assert(front@ =~= boxed@.take(4));
            assert(tail@ =~= boxed@.skip(4));
        }
        let mut reader = ByteBoxReader::from_boxed(&tail);
        let mut items: Vec<T> = Vec::new();
        let mut i: usize = 0;
        while i < n
            invariant
                i <= n,
                reader.wf(),
                items@.len() == i,
                boxed@.len() >= 4,
                tail@ == boxed@.skip(4),
                n as nat == spec_u32_from_le_bytes(boxed@.take(4)) as nat,
                (match unboxed_items::<T>(reader.remaining(), (n - i) as nat) {
                    Some(rest) => unboxed_items::<T>(tail@, n as nat) == Some(
                        items.deep_view() + rest,
                    ),
                    None => unboxed_items::<T>(tail@, n as nat) is None,
                }),
            decreases n - i,
        {
            let ghost pre_remaining = reader.remaining();
            match reader.read::<T>() {
                None => {
                    proof {
                        assert(reader.remaining() == pre_remaining);
                        assert(unboxed_items::<T>(pre_remaining, (n - i) as nat) is None);
                        assert(unboxed_items::<T>(tail@, n as nat) is None);
                        assert(tail@ == boxed@.skip(4));
                        assert(spec_u32_from_le_bytes(boxed@.take(4)) as nat == n as nat);
                        assert(Self::unboxed_of(boxed@) is None);
                    }
                    return None;
                },
                Some(v) => {
                    proof {
                        let rest_n = (n - i - 1) as nat;
                        assert(unboxed_items::<T>(pre_remaining, (n - i) as nat) == (
                        match unboxed_items::<T>(reader.remaining(), rest_n) {
                            None => None::<Seq<<T as DeepView>::V>>,
                            Some(rest) => Some(Seq::empty().push(v.deep_view()) + rest),
                        }));
                    }
                    let ghost old_items = items.deep_view();
                    items.push(v);
                    proof {
                        assert(items.deep_view() =~= old_items.push(v.deep_view()));
                        match unboxed_items::<T>(reader.remaining(), (n - i - 1) as nat) {
                            None => {},
                            Some(rest) => {
                                assert(old_items + (Seq::empty().push(v.deep_view()) + rest)
                                    =~= items.deep_view() + rest);
                            },
                        }
                    }
                    i += 1;
                },
            }
        }
        proof {
            assert(unboxed_items::<T>(reader.remaining(), 0) == Some(
                Seq::<<T as DeepView>::V>::empty(),
            ));
            assert(items.deep_view() + Seq::<<T as DeepView>::V>::empty() =~= items.deep_view());
        }
        Some(items)
    }

    fn size_in_boxed_bytes(&self) -> (r: usize) {
        proof {
            lemma_auto_spec_u32_to_from_le_bytes();
        }
        let mut total: usize = 4;
        let mut i: usize = 0;
        while i < self.len()
            invariant
                i <= self.len(),
                Self::box_wf(self.deep_view()),
                total == 4 + boxed_concat::<T>(self.deep_view().take(i as int)).len(),
            decreases self.len() - i,
        {
            proof {
                lemma_boxed_concat_push::<T>(
                    self.deep_view().take(i as int),
                    self.deep_view()[i as int],
                );
                assert(self.deep_view().take(i + 1) =~= self.deep_view().take(i as int).push(
                    self.deep_view()[i as int],
                ));
                lemma_boxed_concat_split::<T>(self.deep_view(), i + 1);
            }
            let sz = self[i].size_in_boxed_bytes();
            total = total + sz;
            i += 1;
        }
        proof {
            assert(self.deep_view().take(self.len() as int) =~= self.deep_view());
        }
        total
    }

    proof fn lemma_boxed_nonempty(v: Seq<<T as DeepView>::V>) {
        lemma_auto_spec_u32_to_from_le_bytes();
    }

    proof fn lemma_round_trip(v: Seq<<T as DeepView>::V>, rest: Seq<u8>) {
        lemma_auto_spec_u32_to_from_le_bytes();
        let b = Self::boxed_of(v) + rest;
        assert(b.take(4) =~= spec_u32_to_le_bytes(v.len() as u32));
        assert(b.skip(4) =~= boxed_concat::<T>(v) + rest);
        lemma_unboxed_items_round_trip::<T>(v, rest);
    }

    proof fn lemma_unboxed_wf(b: Seq<u8>) {
        lemma_auto_spec_u32_to_from_le_bytes();
        if b.len() >= 4 {
            let n = spec_u32_from_le_bytes(b.take(4)) as nat;
            lemma_unboxed_items_wf::<T>(b.skip(4), n);
            match unboxed_items::<T>(b.skip(4), n) {
                None => {},
                Some(items) => {
                    let c = boxed_concat::<T>(items);
                    assert(b.take(4) =~= spec_u32_to_le_bytes(items.len() as u32));
                    assert(Self::boxed_of(items) =~= b.take(4 + c.len() as int));
                },
            }
        }
    }

    proof fn lemma_truncation(v: Seq<<T as DeepView>::V>, p: Seq<u8>) {
        lemma_auto_spec_u32_to_from_le_bytes();
        if p.len() >= 4 {
            assert(p.take(4) =~= spec_u32_to_le_bytes(v.len() as u32));
            assert(spec_u32_from_le_bytes(p.take(4)) == v.len() as u32);
            let c = boxed_concat::<T>(v);
            assert(p.skip(4) =~= c.take(p.len() - 4));
            lemma_unboxed_items_truncation::<T>(v, p.skip(4));
        }
    }
}

/// One key/value pair of an encoded mapping: the key's encoding followed by
/// the value's encoding.
pub struct DictEntry<K, T> {
    pub key: K,
    pub value: T,
}

impl<K: DeepView, T: DeepView> DeepView for DictEntry<K, T> {
    type V = (<K as DeepView>::V, <T as DeepView>::V);

    open spec fn deep_view(&self) -> Self::V {
        (self.key.deep_view(), self.value.deep_view())
    }
}

impl<K: Boxable, T: Boxable> Boxable for DictEntry<K, T> {
    open spec fn boxed_of(v: (<K as DeepView>::V, <T as DeepView>::V)) -> Seq<u8> {
        K::boxed_of(v.0) + T::boxed_of(v.1)
    }

    open spec fn box_wf(v: (<K as DeepView>::V, <T as DeepView>::V)) -> bool {
        K::box_wf(v.0) && T::box_wf(v.1) && K::boxed_of(v.0).len() + T::boxed_of(v.1).len()
            <= usize::MAX
    }

    fn boxed(&self) -> (r: Boxed) {
        let mut r = self.key.boxed();
        let mut enc = self.value.boxed();
        r.append(&mut enc);
        r
    }
}

impl<K: Unboxable, T: Unboxable> Unboxable for DictEntry<K, T> {
    open spec fn unboxed_of(b: Seq<u8>) -> Option<(<K as DeepView>::V, <T as DeepView>::V)> {
        match K::unboxed_of(b) {
            None => None,
            Some(k) => match T::unboxed_of(b.skip(K::boxed_of(k).len() as int)) {
                None => None,
                Some(v) => Some((k, v)),
            },
        }
    }

    fn from_boxed(boxed: &Boxed) -> (r: Option<Self>) {
        let mut reader = ByteBoxReader::from_boxed(boxed);
        let key = match reader.read::<K>() {
            None => {
                return None;
            },
            Some(k) => k,
        };
        let value = match reader.read::<T>() {
            None => {
                return None;
            },
            Some(v) => v,
        };
        Some(DictEntry { key, value })
    }

    fn size_in_boxed_bytes(&self) -> (r: usize) {
        self.key.size_in_boxed_bytes() + self.value.size_in_boxed_bytes()
    }

    proof fn lemma_boxed_nonempty(v: (<K as DeepView>::V, <T as DeepView>::V)) {
        K::lemma_boxed_nonempty(v.0);
    }

    proof fn lemma_round_trip(v: (<K as DeepView>::V, <T as DeepView>::V), rest: Seq<u8>) {
        let ke = K::boxed_of(v.0);
        let te = T::boxed_of(v.1);
        let b = Self::boxed_of(v) + rest;
        assert(b =~= ke + (te + rest));
        K::lemma_round_trip(v.0, te + rest);
        assert(b.skip(ke.len() as int) =~= te + rest);
        T::lemma_round_trip(v.1, rest);
    }

    proof fn lemma_unboxed_wf(b: Seq<u8>) {
        match K::unboxed_of(b) {
            None => {},
            Some(k) => {
                K::lemma_unboxed_wf(b);
                let ke = K::boxed_of(k);
                let b2 = b.skip(ke.len() as int);
                T::lemma_unboxed_wf(b2);
                match T::unboxed_of(b2) {
                    None => {},
                    Some(v) => {
                        let te = T::boxed_of(v);
                        assert(Self::boxed_of((k, v)) =~= b.take(
                            ke.len() as int + te.len() as int,
                        ));
                    },
                }
            },
        }
    }

    proof fn lemma_truncation(v: (<K as DeepView>::V, <T as DeepView>::V), p: Seq<u8>) {
        let ke = K::boxed_of(v.0);
        let te = T::boxed_of(v.1);
        if p.len() < ke.len() {
            assert(p =~= ke.take(p.len() as int));
            K::lemma_truncation(v.0, p);
        } else {
            let p2 = p.skip(ke.len() as int);
            assert(p =~= ke + p2);
            K::lemma_round_trip(v.0, p2);
            assert(p2 =~= te.take(p2.len() as int));
            T::lemma_truncation(v.1, p2);
        }
    }
}

/// A mapping that travels as a four-byte little-endian pair count followed
/// by the concatenated pair encodings. Pairs keep their insertion order, so
/// encoding is deterministic and re-encoding a decoded mapping reproduces
/// the original bytes. Key uniqueness is the caller's responsibility; the
/// codec neither requires nor enforces it.
pub struct Dict<K, T> {
    entries: Vec<DictEntry<K, T>>,
}

impl<K: DeepView, T: DeepView> DeepView for Dict<K, T> {
    type V = Seq<(<K as DeepView>::V, <T as DeepView>::V)>;

    closed spec fn deep_view(&self) -> Self::V {
        self.entries.deep_view()
    }
}

impl<K: Boxable, T: Boxable> Boxable for Dict<K, T> {
    open spec fn boxed_of(v: Seq<(<K as DeepView>::V, <T as DeepView>::V)>) -> Seq<u8> {
        <Vec<DictEntry<K, T>> as Boxable>::boxed_of(v)
    }

    open spec fn box_wf(v: Seq<(<K as DeepView>::V, <T as DeepView>::V)>) -> bool {
        <Vec<DictEntry<K, T>> as Boxable>::box_wf(v)
    }

    fn boxed(&self) -> (r: Boxed) {
        self.entries.boxed()
    }
}

impl<K: Unboxable, T: Unboxable> Unboxable for Dict<K, T> {
    open spec fn unboxed_of(b: Seq<u8>) -> Option<
        Seq<(<K as DeepView>::V, <T as DeepView>::V)>,
    > {
        <Vec<DictEntry<K, T>> as Unboxable>::unboxed_of(b)
    }

    fn from_boxed(boxed: &Boxed) -> (r: Option<Self>) {
        match <Vec<DictEntry<K, T>> as Unboxable>::from_boxed(boxed) {
            None => None,
            Some(entries) => Some(Dict { entries }),
        }
    }

    fn size_in_boxed_bytes(&self) -> (r: usize) {
        self.entries.size_in_boxed_bytes()
    }

    proof fn lemma_boxed_nonempty(v: Seq<(<K as DeepView>::V, <T as DeepView>::V)>) {
        <Vec<DictEntry<K, T>> as Unboxable>::lemma_boxed_nonempty(v);
    }

    proof fn lemma_round_trip(
        v: Seq<(<K as DeepView>::V, <T as DeepView>::V)>,
        rest: Seq<u8>,
    ) {
        <Vec<DictEntry<K, T>> as Unboxable>::lemma_round_trip(v, rest);
    }

    proof fn lemma_unboxed_wf(b: Seq<u8>) {
        <Vec<DictEntry<K, T>> as Unboxable>::lemma_unboxed_wf(b);
    }

    proof fn lemma_truncation(v: Seq<(<K as DeepView>::V, <T as DeepView>::V)>, p: Seq<u8>) {
        <Vec<DictEntry<K, T>> as Unboxable>::lemma_truncation(v, p);
    }
}

/// The mapping after setting `k` to `w`: the first pair with key `k` is
/// replaced in place, or a new pair is appended at the end.
pub open spec fn insert_pairs<W>(s: Seq<(u64, W)>, k: u64, w: W) -> Seq<(u64, W)>
    decreases s.len(),
{
    if s.len() == 0 {
        seq![(k, w)]
    } else if s[0].0 == k {
        seq![(k, w)] + s.drop_first()
    } else {
        seq![s[0]] + insert_pairs(s.drop_first(), k, w)
    }
}

/// The value of the first pair with key `k`, if any.
pub open spec fn lookup_pairs<W>(s: Seq<(u64, W)>, k: u64) -> Option<W>
    decreases s.len(),
{
    if s.len() == 0 {
        None
    } else if s[0].0 == k {
        Some(s[0].1)
    } else {
        lookup_pairs(s.drop_first(), k)
    }
}

/// Replacing the first matching pair is an in-place update.
proof fn lemma_insert_pairs_at<W>(s: Seq<(u64, W)>, k: u64, w: W, i: int)
    requires
        0 <= i < s.len(),
        s[i].0 == k,
        forall|j: int| 0 <= j < i ==> (#[trigger] s[j]).0 != k,
    ensures
        insert_pairs(s, k, w) == s.update(i, (k, w)),
    decreases i,
{
    if i == 0 {
        assert(insert_pairs(s, k, w) =~= s.update(0, (k, w)));
    } else {
        assert(s[0].0 != k);
        lemma_insert_pairs_at(s.drop_first(), k, w, i - 1);
        assert(seq![s[0]] + s.drop_first().update(i - 1, (k, w)) =~= s.update(i, (k, w)));
    }
}

/// Setting an absent key appends a pair.
proof fn lemma_insert_pairs_missing<W>(s: Seq<(u64, W)>, k: u64, w: W)
    requires
        forall|j: int| 0 <= j < s.len() ==> (#[trigger] s[j]).0 != k,
    ensures
        insert_pairs(s, k, w) == s.push((k, w)),
    decreases s.len(),
{
    if s.len() == 0 {
        assert(insert_pairs(s, k, w) =~= s.push((k, w)));
    } else {
        lemma_insert_pairs_missing(s.drop_first(), k, w);
        assert(seq![s[0]] + s.drop_first().push((k, w)) =~= s.push((k, w)));
    }
}

impl<T: DeepView> Dict<u64, T> {
    pub fn new() -> (r: Self)
        ensures
            r.deep_view() == Seq::<(u64, <T as DeepView>::V)>::empty(),
    {
        let r = Dict { entries: Vec::new() };
        proof {
            assert(r.deep_view() =~= Seq::<(u64, <T as DeepView>::V)>::empty());
        }
        r
    }

    /// The index of the first pair with this key.
    fn index_of_key(&self, key: u64) -> (r: Option<usize>)
        ensures
            (match r {
                Some(i) => i < self.deep_view().len() && self.deep_view()[i as int].0 == key
                    && (forall|j: int|
                    0 <= j < i ==> (#[trigger] self.deep_view()[j]).0 != key),
                None => forall|j: int|
                    0 <= j < self.deep_view().len() ==> (#[trigger] self.deep_view()[j]).0
                        != key,
            }),
    {
        let n = self.entries.len();
        let mut i: usize = 0;
        while i < n
            invariant
                i <= n,
                n == self.entries.len(),
                forall|j: int| 0 <= j < i ==> (#[trigger] self.deep_view()[j]).0 != key,
            decreases n - i,
        {
            if self.entries[i].key == key {
                return Some(i);
            }
            i += 1;
        }
        None
    }

    /// Set `key` to `value`: replace the first pair with this key in place,
    /// or append a new pair.
    pub fn insert(&mut self, key: u64, value: T)
        ensures
            final(self).deep_view() == insert_pairs(
                old(self).deep_view(),
                key,
                value.deep_view(),
            ),
    {
        let ghost old_dv = self.deep_view();
        let ghost value_dv = value.deep_view();
        match self.index_of_key(key) {
            Some(i) => {
                self.entries.remove(i);
                self.entries.insert(i, DictEntry { key, value });
                proof {
                    assert(self.deep_view() =~= old_dv.update(i as int, (key, value_dv)));
                    lemma_insert_pairs_at(old_dv, key, value_dv, i as int);
                }
            },
            None => {
                self.entries.push(DictEntry { key, value });
                proof {
                    assert(self.deep_view() =~= old_dv.push((key, value_dv)));
                    lemma_insert_pairs_missing(old_dv, key, value_dv);
                }
            },
        }
    }

    /// The value stored under `key`, if any.
    pub fn get(&self, key: u64) -> (r: Option<&T>)
        ensures
            (match r {
                Some(v) => lookup_pairs(self.deep_view(), key) == Some(v.deep_view()),
                None => lookup_pairs(self.deep_view(), key) is None,
            }),
    {
        match self.index_of_key(key) {
            Some(i) => {
                proof {
                    lemma_lookup_pairs_at(self.deep_view(), key, i as int);
                }
                Some(&self.entries[i].value)
            },
            None => {
                proof {
                    lemma_lookup_pairs_missing(self.deep_view(), key);
                }
                None
            },
        }
    }

    /// The number of stored pairs.
    pub fn len(&self) -> (r: usize)
        ensures
            r == self.deep_view().len(),
    {
        self.entries.len()
    }
}

impl Clone for Dict<u64, Boxed> {
    /// Cloning preserves the mapping's value.
    fn clone(&self) -> (r: Self)
        ensures
            r.deep_view() == self.deep_view(),
    {
        let mut entries: Vec<DictEntry<u64, Boxed>> = Vec::new();
        let n = self.entries.len();
        let mut i: usize = 0;
        while i < n
            invariant
                i <= n,
                n == self.entries.len(),
                entries.deep_view() == self.deep_view().take(i as int),
            decreases n - i,
        {
            let value = slice_to_vec(self.entries[i].value.as_slice());
            proof {
                assert(value.deep_view() =~= self.entries@[i as int].value.deep_view());
            }
            let ghost pre = entries.deep_view();
            let ghost pair = self.deep_view()[i as int];
            entries.push(DictEntry { key: self.entries[i].key, value });
            proof {
                assert(entries.deep_view() =~= pre.push(pair));
                assert(pre.push(pair) =~= self.deep_view().take(i + 1));
            }
            i += 1;
        }
        let r = Dict { entries };
        proof {
            assert(self.deep_view().take(n as int) =~= self.deep_view());
        }
        r
    }
}

impl<'a> From<&'a Boxed> for ByteBoxReader<'a> {
    fn from(value: &'a Boxed) -> (r: Self) {
        ByteBoxReader { bytes_box: value, offset: 0usize }
    }
}

impl<'a> vstd::std_specs::convert::FromSpecImpl<&'a Boxed> for ByteBoxReader<'a> {
    open spec fn obeys_from_spec() -> bool {
        true
    }

    /// A fresh reader over the whole buffer.
    closed spec fn from_spec(value: &'a Boxed) -> Self {
        ByteBoxReader { bytes_box: value, offset: 0usize }
    }
}

/// Law: setting a key changes what is found under it, and nothing else.
pub proof fn lemma_lookup_insert_pairs<W>(s: Seq<(u64, W)>, k: u64, w: W, k2: u64)
    ensures
        lookup_pairs(insert_pairs(s, k, w), k2) == (if k2 == k {
            Some(w)
        } else {
            lookup_pairs(s, k2)
        }),
    decreases s.len(),
{
    if s.len() == 0 {
        let t = insert_pairs(s, k, w);
        assert(t =~= seq![(k, w)]);
        assert(t[0] == (k, w));
        if k2 != k {
            assert(t.drop_first() =~= Seq::<(u64, W)>::empty());
            assert(lookup_pairs(t, k2) == lookup_pairs(Seq::<(u64, W)>::empty(), k2));
            assert(lookup_pairs(Seq::<(u64, W)>::empty(), k2) is None);
        }
    } else if s[0].0 == k {
        let t = insert_pairs(s, k, w);
        assert(t == seq![(k, w)] + s.drop_first());
        assert(t[0] == (k, w));
        assert(t.len() > 0);
        if k2 != k {
            assert(t.drop_first() =~= s.drop_first());
            assert(lookup_pairs(t, k2) == lookup_pairs(s.drop_first(), k2));
            assert(lookup_pairs(s, k2) == lookup_pairs(s.drop_first(), k2));
        }
    } else {
        let t = insert_pairs(s, k, w);
        assert(t == seq![s[0]] + insert_pairs(s.drop_first(), k, w));
        assert(t[0] == s[0]);
        assert(t.len() > 0);
        assert(t.drop_first() =~= insert_pairs(s.drop_first(), k, w));
        lemma_lookup_insert_pairs(s.drop_first(), k, w, k2);
        if t[0].0 == k2 {
            assert(lookup_pairs(t, k2) == Some(s[0].1));
            assert(lookup_pairs(s, k2) == Some(s[0].1));
        } else {
            assert(lookup_pairs(t, k2) == lookup_pairs(insert_pairs(s.drop_first(), k, w), k2));
            assert(lookup_pairs(s, k2) == lookup_pairs(s.drop_first(), k2));
        }
    }
}

/// Looking up a key finds the first matching pair.
proof fn lemma_lookup_pairs_at<W>(s: Seq<(u64, W)>, k: u64, i: int)
    requires
        0 <= i < s.len(),
        s[i].0 == k,
        forall|j: int| 0 <= j < i ==> (#[trigger] s[j]).0 != k,
    ensures
        lookup_pairs(s, k) == Some(s[i].1),
    decreases i,
{
    if i == 0 {
    } else {
        assert(s[0].0 != k);
        lemma_lookup_pairs_at(s.drop_first(), k, i - 1);
    }
}

/// Looking up an absent key finds nothing.
proof fn lemma_lookup_pairs_missing<W>(s: Seq<(u64, W)>, k: u64)
    requires
        forall|j: int| 0 <= j < s.len() ==> (#[trigger] s[j]).0 != k,
    ensures
        lookup_pairs(s, k) is None,
    decreases s.len(),
{
    if s.len() == 0 {
    } else {
        lemma_lookup_pairs_missing(s.drop_first(), k);
    }
}

} // verus!

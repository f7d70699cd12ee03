use vstd::prelude::*;
use vstd::utf8::{encode_utf8, encode_utf8_decode_utf8, encode_utf8_valid_utf8};

use crate::codec::{lemma_uint_round_trip, round_trips, truncation_detected, Decode, Encode};
use crate::error::Error;
use crate::record::pair_decoding;
use crate::sequence::{decode_many, encode_all};
use crate::text::HEADER_WIDTH;
use crate::variant::{tag_decoding, tag_encoding};
use crate::wire::{be_bytes, lemma_be_bytes_len, lemma_pow256_widths, pow256};

verus! {

/// Every unsigned integer of every supported width decodes back to itself from its
/// encoding, whatever follows it in the stream.
pub proof fn lemma_integers_round_trip(a: u8, b: u16, c: u32, d: u64, e: u128)
    ensures
        round_trips(a),
        round_trips(b),
        round_trips(c),
        round_trips(d),
        round_trips(e),
{
    lemma_pow256_widths();
    lemma_be_bytes_len(a as nat, 1);
    lemma_be_bytes_len(b as nat, 2);
    lemma_be_bytes_len(c as nat, 4);
    lemma_be_bytes_len(d as nat, 8);
    lemma_be_bytes_len(e as nat, 16);
    assert forall|rest: Seq<u8>| #[trigger] u8::decoding(a.encoding() + rest) == Ok::<(u8, nat), Error>((a, 1)) by {
        lemma_uint_round_trip(a as nat, 1, rest);
    }
    assert forall|rest: Seq<u8>| #[trigger] u16::decoding(b.encoding() + rest) == Ok::<(u16, nat), Error>((b, 2)) by {
        lemma_uint_round_trip(b as nat, 2, rest);
    }
    assert forall|rest: Seq<u8>| #[trigger] u32::decoding(c.encoding() + rest) == Ok::<(u32, nat), Error>((c, 4)) by {
        lemma_uint_round_trip(c as nat, 4, rest);
    }
    assert forall|rest: Seq<u8>| #[trigger] u64::decoding(d.encoding() + rest) == Ok::<(u64, nat), Error>((d, 8)) by {
        lemma_uint_round_trip(d as nat, 8, rest);
    }
    assert forall|rest: Seq<u8>| #[trigger] u128::decoding(e.encoding() + rest) == Ok::<(u128, nat), Error>((e, 16)) by {
        lemma_uint_round_trip(e as nat, 16, rest);
    }
}

/// Every text value, the empty one included, decodes back to itself from its
/// encoding, and decoding consumes exactly the bytes that encoding wrote: the
/// header and the UTF-8 bytes.
pub proof fn lemma_text_round_trip(s: String)
    requires
        encode_utf8(s@).len() < pow256(HEADER_WIDTH as nat),
    ensures
        round_trips(s),
        s.encoding().len() == HEADER_WIDTH + encode_utf8(s@).len(),
{
    let body = encode_utf8(s@);
    lemma_pow256_widths();
    lemma_be_bytes_len(body.len(), HEADER_WIDTH as nat);
    encode_utf8_decode_utf8(s@);
    encode_utf8_valid_utf8(s@);
    assert forall|rest: Seq<u8>| #[trigger] String::decoding(s.encoding() + rest) == Ok::<(Seq<char>, nat), Error>((s@, s.encoding().len())) by {
        let bytes = s.encoding() + rest;
        lemma_uint_round_trip(body.len(), HEADER_WIDTH as nat, body + rest);
        assert(bytes =~= be_bytes(body.len(), HEADER_WIDTH as nat) + (body + rest));
        assert(bytes.skip(HEADER_WIDTH as int) =~= body + rest);
        assert((body + rest).take(body.len() as int) =~= body);
    }
}

/// Decoding `count` values from the elements' encodings, followed by anything, gives
/// the elements back in order, taking exactly their encodings.
pub proof fn lemma_decode_many_round_trip<T: Encode + Decode>(s: Seq<T>, rest: Seq<u8>)
    requires
        forall|i: int| 0 <= i < s.len() ==> round_trips(#[trigger] s[i]),
    ensures
        decode_many::<T>(encode_all(s) + rest, s.len()) == Ok::<(Seq<T::V>, nat), Error>(
            (Seq::new(s.len(), |i: int| s[i].deep_view()), encode_all(s).len()),
        ),
    decreases s.len(),
{
    if s.len() == 0 {
        assert(Seq::new(0, |i: int| s[i].deep_view()) =~= Seq::<T::V>::empty());
    } else {
        let tail = s.drop_first();
        let bytes = encode_all(s) + rest;
        assert(round_trips(s[0]));
        assert(bytes =~= s[0].encoding() + (encode_all(tail) + rest));
        assert(T::decoding(s[0].encoding() + (encode_all(tail) + rest)) == Ok::<(T::V, nat), Error>(
            (s[0].deep_view(), s[0].encoding().len()),
        ));
        assert(bytes.skip(s[0].encoding().len() as int) =~= encode_all(tail) + rest);
        assert forall|i: int| 0 <= i < tail.len() implies round_trips(#[trigger] tail[i]) by {
            assert(tail[i] == s[i + 1]);
        }
        lemma_decode_many_round_trip(tail, rest);
        assert(seq![s[0].deep_view()] + Seq::new(tail.len(), |i: int| tail[i].deep_view())
            =~= Seq::new(s.len(), |i: int| s[i].deep_view()));
    }
}

/// Every sequence whose elements each round-trip decodes back to itself, elements
/// in the same order and of the same number, from its encoding.
pub proof fn lemma_sequence_round_trip<T: Encode + Decode>(v: Vec<T>)
    requires
        forall|i: int| 0 <= i < v@.len() ==> round_trips(#[trigger] v@[i]),
        v@.len() < pow256(HEADER_WIDTH as nat),
    ensures
        round_trips(v),
{
    lemma_pow256_widths();
    lemma_be_bytes_len(v@.len(), HEADER_WIDTH as nat);
    assert forall|rest: Seq<u8>| #[trigger] Vec::<T>::decoding(v.encoding() + rest) == Ok::<(Seq<T::V>, nat), Error>((v.deep_view(), v.encoding().len())) by {
        let bytes = v.encoding() + rest;
        let items = encode_all(v@) + rest;
        lemma_uint_round_trip(v@.len(), HEADER_WIDTH as nat, items);
        assert(bytes =~= be_bytes(v@.len(), HEADER_WIDTH as nat) + items);
        assert(bytes.skip(HEADER_WIDTH as int) =~= items);
        lemma_decode_many_round_trip(v@, rest);
        assert(Seq::<T::V>::empty() + Seq::new(v@.len(), |i: int| v@[i].deep_view())
            =~= v.deep_view());
    }
}

/// A record whose fields each round-trip round-trips as a whole, fields coming back
/// in declared order. Records of more fields nest pairs, so this carries over to any
/// number of fields.
pub proof fn lemma_record_round_trip<A: Encode + Decode, B: Encode + Decode>(r: (A, B))
    requires
        round_trips(r.0),
        round_trips(r.1),
    ensures
        round_trips(r),
{
    assert forall|rest: Seq<u8>| #[trigger] <(A, B)>::decoding(r.encoding() + rest) == Ok::<((A::V, B::V), nat), Error>((r.deep_view(), r.encoding().len())) by {
        let bytes = r.encoding() + rest;
        assert(bytes =~= r.0.encoding() + (r.1.encoding() + rest));
        assert(A::decoding(r.0.encoding() + (r.1.encoding() + rest)) == Ok::<(A::V, nat), Error>(
            (r.0.deep_view(), r.0.encoding().len()),
        ));
        assert(bytes.skip(r.0.encoding().len() as int) =~= r.1.encoding() + rest);
        assert(B::decoding(r.1.encoding() + rest) == Ok::<(B::V, nat), Error>(
            (r.1.deep_view(), r.1.encoding().len()),
        ));
        assert(pair_decoding::<A, B>(bytes) == Ok::<((A::V, B::V), nat), Error>(
            (r.deep_view(), r.encoding().len()),
        ));
    }
}

/// A stream shorter than a type's smallest encoding fails to decode with
/// `UnexpectedEnd`: an integer needs its full width, text and sequences their
/// 8-byte header.
pub proof fn lemma_short_stream_fails<T: Decode>(bytes: Seq<u8>)
    ensures
        bytes.len() < 1 ==> u8::decoding(bytes) == Err::<(u8, nat), Error>(Error::UnexpectedEnd),
        bytes.len() < 2 ==> u16::decoding(bytes) == Err::<(u16, nat), Error>(Error::UnexpectedEnd),
        bytes.len() < 4 ==> u32::decoding(bytes) == Err::<(u32, nat), Error>(Error::UnexpectedEnd),
        bytes.len() < 8 ==> u64::decoding(bytes) == Err::<(u64, nat), Error>(Error::UnexpectedEnd),
        bytes.len() < 16 ==> u128::decoding(bytes) == Err::<(u128, nat), Error>(
            Error::UnexpectedEnd,
        ),
        bytes.len() < 8 ==> String::decoding(bytes) == Err::<(Seq<char>, nat), Error>(
            Error::UnexpectedEnd,
        ),
        bytes.len() < 8 ==> Vec::<T>::decoding(bytes) == Err::<(Seq<T::V>, nat), Error>(
            Error::UnexpectedEnd,
        ),
{
}

/// Any strict prefix of an integer's encoding fails to decode with
/// `UnexpectedEnd`, never with a value.
pub proof fn lemma_truncated_integers_fail(a: u8, b: u16, c: u32, d: u64, e: u128)
    ensures
        truncation_detected(a),
        truncation_detected(b),
        truncation_detected(c),
        truncation_detected(d),
        truncation_detected(e),
{
    lemma_be_bytes_len(a as nat, 1);
    lemma_be_bytes_len(b as nat, 2);
    lemma_be_bytes_len(c as nat, 4);
    lemma_be_bytes_len(d as nat, 8);
    lemma_be_bytes_len(e as nat, 16);
}

/// Any strict prefix of a text value's encoding fails to decode with
/// `UnexpectedEnd`, never with a value.
pub proof fn lemma_truncated_text_fails(s: String)
    requires
        encode_utf8(s@).len() < pow256(HEADER_WIDTH as nat),
    ensures
        truncation_detected(s),
{
    let body = encode_utf8(s@);
    lemma_pow256_widths();
    lemma_be_bytes_len(body.len(), HEADER_WIDTH as nat);
    assert forall|k: int| 0 <= k < s.encoding().len() implies #[trigger] String::decoding(
        s.encoding().take(k),
    ) == Err::<(Seq<char>, nat), Error>(Error::UnexpectedEnd) by {
        if k >= HEADER_WIDTH {
            let bytes = s.encoding().take(k);
            let part = body.take(k - HEADER_WIDTH);
            lemma_uint_round_trip(body.len(), HEADER_WIDTH as nat, part);
            assert(bytes =~= be_bytes(body.len(), HEADER_WIDTH as nat) + part);
            assert(bytes.skip(HEADER_WIDTH as int) =~= part);
        }
    }
}

/// A record whose first field round-trips and whose fields each detect truncation
/// detects truncation as a whole.
pub proof fn lemma_truncated_record_fails<A: Encode + Decode, B: Encode + Decode>(r: (A, B))
    requires
        round_trips(r.0),
        truncation_detected(r.0),
        truncation_detected(r.1),
    ensures
        truncation_detected(r),
{
    let ea = r.0.encoding();
    let eb = r.1.encoding();
    assert forall|k: int| 0 <= k < r.encoding().len() implies #[trigger] <(A, B)>::decoding(
        r.encoding().take(k),
    ) == Err::<((A::V, B::V), nat), Error>(Error::UnexpectedEnd) by {
        let bytes = r.encoding().take(k);
        if k < ea.len() {
            assert(bytes =~= ea.take(k));
        } else {
            let part = eb.take(k - ea.len());
            assert(bytes =~= ea + part);
            assert(A::decoding(ea + part) == Ok::<(A::V, nat), Error>(
                (r.0.deep_view(), ea.len()),
            ));
            assert(bytes.skip(ea.len() as int) =~= part);
            assert(B::decoding(eb.take(k - ea.len())) == Err::<(B::V, nat), Error>(
                Error::UnexpectedEnd,
            ));
        }
    }
}

/// Decoding `s.len()` values from a strict prefix of the elements' encodings fails
/// with `UnexpectedEnd`.
pub proof fn lemma_decode_many_truncated<T: Encode + Decode>(s: Seq<T>, k: int)
    requires
        forall|i: int|
            0 <= i < s.len() ==> round_trips(#[trigger] s[i]) && truncation_detected(s[i]),
        0 <= k < encode_all(s).len(),
    ensures
        decode_many::<T>(encode_all(s).take(k), s.len()) == Err::<(Seq<T::V>, nat), Error>(
            Error::UnexpectedEnd,
        ),
    decreases s.len(),
{
    let tail = s.drop_first();
    let e0 = s[0].encoding();
    let bytes = encode_all(s).take(k);
    assert(round_trips(s[0]) && truncation_detected(s[0]));
    if k < e0.len() {
        assert(bytes =~= e0.take(k));
    } else {
        let part = encode_all(tail).take(k - e0.len());
        assert(bytes =~= e0 + part);
        assert(T::decoding(e0 + part) == Ok::<(T::V, nat), Error>((s[0].deep_view(), e0.len())));
        assert(bytes.skip(e0.len() as int) =~= part);
        assert forall|i: int| 0 <= i < tail.len() implies round_trips(#[trigger] tail[i])
            && truncation_detected(tail[i]) by {
            assert(tail[i] == s[i + 1]);
        }
        lemma_decode_many_truncated(tail, k - e0.len());
    }
}

/// A sequence whose elements each round-trip and detect truncation detects
/// truncation as a whole.
pub proof fn lemma_truncated_sequence_fails<T: Encode + Decode>(v: Vec<T>)
    requires
        forall|i: int|
            0 <= i < v@.len() ==> round_trips(#[trigger] v@[i]) && truncation_detected(v@[i]),
        v@.len() < pow256(HEADER_WIDTH as nat),
    ensures
        truncation_detected(v),
{
    lemma_pow256_widths();
    lemma_be_bytes_len(v@.len(), HEADER_WIDTH as nat);
    assert forall|k: int| 0 <= k < v.encoding().len() implies #[trigger] Vec::<T>::decoding(
        v.encoding().take(k),
    ) == Err::<(Seq<T::V>, nat), Error>(Error::UnexpectedEnd) by {
        if k >= HEADER_WIDTH {
            let bytes = v.encoding().take(k);
            let part = encode_all(v@).take(k - HEADER_WIDTH);
            lemma_uint_round_trip(v@.len(), HEADER_WIDTH as nat, part);
            assert(bytes =~= be_bytes(v@.len(), HEADER_WIDTH as nat) + part);
            assert(bytes.skip(HEADER_WIDTH as int) =~= part);
            lemma_decode_many_truncated(v@, k - HEADER_WIDTH);
        }
    }
}

/// A union discriminant at or past the number of declared variants decodes to
/// `KindInvalid` carrying that very value.
pub proof fn lemma_invalid_tag_named(tag: u32, variant_count: u32, rest: Seq<u8>)
    requires
        tag >= variant_count,
    ensures
        tag_decoding(tag_encoding(tag) + rest, variant_count as nat) == Err::<(u32, nat), Error>(
            Error::KindInvalid(tag),
        ),
{
    lemma_pow256_widths();
    lemma_uint_round_trip(tag as nat, 4, rest);
}

/// Every valid discriminant decodes back to the variant position it was written
/// for.
pub proof fn lemma_tag_round_trip(index: u32, variant_count: u32, rest: Seq<u8>)
    requires
        index < variant_count,
    ensures
        tag_decoding(tag_encoding(index) + rest, variant_count as nat) == Ok::<(u32, nat), Error>(
            (index, 4),
        ),
{
    lemma_pow256_widths();
    lemma_uint_round_trip(index as nat, 4, rest);
}

/// An empty sequence encodes to a zero length header and nothing after it, and
/// decodes back to an empty sequence from exactly those bytes.
pub proof fn lemma_empty_sequence<T: Encode + Decode>(v: Vec<T>)
    requires
        v@.len() == 0,
    ensures
        v.encoding() == Seq::new(HEADER_WIDTH as nat, |i: int| 0u8),
        Vec::<T>::decoding(v.encoding()) == Ok::<(Seq<T::V>, nat), Error>(
            (Seq::empty(), HEADER_WIDTH as nat),
        ),
{
    reveal_with_fuel(be_bytes, 9);
    lemma_pow256_widths();
    assert(encode_all(v@) =~= Seq::<u8>::empty());
    assert(v.encoding() =~= Seq::new(HEADER_WIDTH as nat, |i: int| 0u8));
    lemma_sequence_round_trip(v);
    assert(v.deep_view() =~= Seq::<T::V>::empty());
    assert(v.encoding() + Seq::<u8>::empty() =~= v.encoding());
}

} // verus!

use vstd::prelude::*;

use crate::error::Error;
use crate::reader::Reader;
use crate::wire::{
    be_bytes, be_value, lemma_be_bytes_len, lemma_be_round_trip, lemma_pow256_widths, pow256, read_be,
    write_be,
};

verus! {

/// A value that can be written to a byte stream.
pub trait Encode: Sized {
    /// The exact bytes that `encode` appends for this value.
    spec fn encoding(&self) -> Seq<u8>;

    /// Appends this value's encoding to `writer` and returns how many bytes it wrote.
    fn encode(&self, writer: &mut Vec<u8>) -> (r: usize)
        ensures
            final(writer)@ == old(writer)@ + self.encoding(),
            r == self.encoding().len(),
    ;
}

/// A value that can be read back from the front of a byte stream.
pub trait Decode: Sized + DeepView {
    /// What decoding the front of `bytes` gives: the value's deep view and the number
    /// of bytes it takes, or the first error met.
    spec fn decoding(bytes: Seq<u8>) -> Result<(Self::V, nat), Error>;

    /// Decodes one value from the front of `reader`, consuming exactly its bytes.
    fn decode(reader: &mut Reader) -> (r: Result<Self, Error>)
        requires
            old(reader).wf(),
        ensures
            final(reader).wf(),
            decoded_as::<Self>(Self::decoding(old(reader)@), r, old(reader)@, final(reader)@),
    ;
}

/// `r` is what the described result `d` says, and on success the stream went from
/// `before` to `after` by dropping exactly the bytes consumed.
pub open spec fn decoded_as<T: DeepView>(
    d: Result<(T::V, nat), Error>,
    r: Result<T, Error>,
    before: Seq<u8>,
    after: Seq<u8>,
) -> bool {
    match d {
        Ok((v, n)) => r is Ok && r->Ok_0.deep_view() == v && n <= before.len() && after
            == before.skip(n as int),
        Err(e) => r is Err && r->Err_0 == e,
    }
}

/// Decoding `x`'s encoding, followed by any bytes at all, gives back `x` and
/// consumes exactly its encoding.
pub open spec fn round_trips<T: Encode + Decode>(x: T) -> bool {
    forall|rest: Seq<u8>|
        #[trigger] T::decoding(x.encoding() + rest) == Ok::<(T::V, nat), Error>(
            (x.deep_view(), x.encoding().len()),
        )
}

/// Every strict prefix of `x`'s encoding, standing alone, fails to decode with
/// `UnexpectedEnd`.
pub open spec fn truncation_detected<T: Encode + Decode>(x: T) -> bool {
    forall|k: int|
        0 <= k < x.encoding().len() ==> #[trigger] T::decoding(x.encoding().take(k)) == Err::<
            (T::V, nat),
            Error,
        >(Error::UnexpectedEnd)
}

/// What a `width`-byte unsigned integer decodes to, as a number.
pub open spec fn uint_decoding(bytes: Seq<u8>, width: nat) -> Result<(nat, nat), Error> {
    if bytes.len() < width {
        Err(Error::UnexpectedEnd)
    } else {
        Ok((be_value(bytes.take(width as int)), width))
    }
}

/// Integers of `width` bytes round-trip through `be_bytes` and `uint_decoding`.
pub proof fn lemma_uint_round_trip(v: nat, width: nat, rest: Seq<u8>)
    requires
        v < pow256(width),
    ensures
        uint_decoding(be_bytes(v, width) + rest, width) == Ok::<(nat, nat), Error>((v, width)),
{
    lemma_be_round_trip(v, width);
    assert((be_bytes(v, width) + rest).take(width as int) =~= be_bytes(v, width));
}

impl Encode for u8 {
    open spec fn encoding(&self) -> Seq<u8> {
        be_bytes(*self as nat, 1)
    }

    fn encode(&self, writer: &mut Vec<u8>) -> (r: usize) {
        let start = writer.len();
        write_be(*self as u128, 1, writer);
        proof {
            lemma_be_bytes_len(*self as nat, 1);
        }
        writer.len() - start
    }
}

impl Decode for u8 {
    open spec fn decoding(bytes: Seq<u8>) -> Result<(u8, nat), Error> {
        match uint_decoding(bytes, 1) {
            Ok((v, n)) => Ok((v as u8, n)),
            Err(e) => Err(e),
        }
    }

    fn decode(reader: &mut Reader) -> (r: Result<u8, Error>) {
        proof {
            lemma_pow256_widths();
        }
        match read_be(reader, 1) {
            Ok(v) => Ok(v as u8),
            Err(e) => Err(e),
        }
    }
}

impl Encode for u16 {
    open spec fn encoding(&self) -> Seq<u8> {
        be_bytes(*self as nat, 2)
    }

    fn encode(&self, writer: &mut Vec<u8>) -> (r: usize) {
        let start = writer.len();
        write_be(*self as u128, 2, writer);
        proof {
            lemma_be_bytes_len(*self as nat, 2);
        }
        writer.len() - start
    }
}

impl Decode for u16 {
    open spec fn decoding(bytes: Seq<u8>) -> Result<(u16, nat), Error> {
        match uint_decoding(bytes, 2) {
            Ok((v, n)) => Ok((v as u16, n)),
            Err(e) => Err(e),
        }
    }

    fn decode(reader: &mut Reader) -> (r: Result<u16, Error>) {
        proof {
            lemma_pow256_widths();
        }
        match read_be(reader, 2) {
            Ok(v) => Ok(v as u16),
            Err(e) => Err(e),
        }
    }
}

impl Encode for u32 {
    open spec fn encoding(&self) -> Seq<u8> {
        be_bytes(*self as nat, 4)
    }

    fn encode(&self, writer: &mut Vec<u8>) -> (r: usize) {
        let start = writer.len();
        write_be(*self as u128, 4, writer);
        proof {
            lemma_be_bytes_len(*self as nat, 4);
        }
        writer.len() - start
    }
}

impl Decode for u32 {
    open spec fn decoding(bytes: Seq<u8>) -> Result<(u32, nat), Error> {
        match uint_decoding(bytes, 4) {
            Ok((v, n)) => Ok((v as u32, n)),
            Err(e) => Err(e),
        }
    }

    fn decode(reader: &mut Reader) -> (r: Result<u32, Error>) {
        proof {
            lemma_pow256_widths();
        }
        match read_be(reader, 4) {
            Ok(v) => Ok(v as u32),
            Err(e) => Err(e),
        }
    }
}

impl Encode for u64 {
    open spec fn encoding(&self) -> Seq<u8> {
        be_bytes(*self as nat, 8)
    }

    fn encode(&self, writer: &mut Vec<u8>) -> (r: usize) {
        let start = writer.len();
        write_be(*self as u128, 8, writer);
        proof {
            lemma_be_bytes_len(*self as nat, 8);
        }
        writer.len() - start
    }
}

impl Decode for u64 {
    open spec fn decoding(bytes: Seq<u8>) -> Result<(u64, nat), Error> {
        match uint_decoding(bytes, 8) {
            Ok((v, n)) => Ok((v as u64, n)),
            Err(e) => Err(e),
        }
    }

    fn decode(reader: &mut Reader) -> (r: Result<u64, Error>) {
        proof {
            lemma_pow256_widths();
        }
        match read_be(reader, 8) {
            Ok(v) => Ok(v as u64),
            Err(e) => Err(e),
        }
    }
}

impl Encode for u128 {
    open spec fn encoding(&self) -> Seq<u8> {
        be_bytes(*self as nat, 16)
    }

    fn encode(&self, writer: &mut Vec<u8>) -> (r: usize) {
        let start = writer.len();
        write_be(*self as u128, 16, writer);
        proof {
            lemma_be_bytes_len(*self as nat, 16);
        }
        writer.len() - start
    }
}

impl Decode for u128 {
    open spec fn decoding(bytes: Seq<u8>) -> Result<(u128, nat), Error> {
        match uint_decoding(bytes, 16) {
            Ok((v, n)) => Ok((v as u128, n)),
            Err(e) => Err(e),
        }
    }

    fn decode(reader: &mut Reader) -> (r: Result<u128, Error>) {
        proof {
            lemma_pow256_widths();
        }
        match read_be(reader, 16) {
            Ok(v) => Ok(v as u128),
            Err(e) => Err(e),
        }
    }
}

} // verus!

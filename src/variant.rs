use vstd::prelude::*;

use crate::codec::uint_decoding;
use crate::error::Error;
use crate::reader::Reader;
use crate::wire::{be_bytes, lemma_be_bytes_len, lemma_pow256_widths, read_be, write_be};

verus! {

/// Width in bytes of a tagged-union discriminant.
pub const TAG_WIDTH: u64 = 4;

/// The discriminant of the variant at `index`: its position, as 4 bytes.
pub open spec fn tag_encoding(index: u32) -> Seq<u8> {
    be_bytes(index as nat, TAG_WIDTH as nat)
}

/// What a discriminant decodes to for a union of `variant_count` nullary variants:
/// the variant's position, or `KindInvalid` naming a tag past the last variant.
pub open spec fn tag_decoding(bytes: Seq<u8>, variant_count: nat) -> Result<(u32, nat), Error> {
    match uint_decoding(bytes, TAG_WIDTH as nat) {
        Err(e) => Err(e),
        Ok((t, n)) => if t < variant_count {
            Ok((t as u32, n))
        } else {
            Err(Error::KindInvalid(t as u32))
        },
    }
}

/// Writes the discriminant of the variant at `index` and returns the byte count.
pub fn encode_variant(index: u32, writer: &mut Vec<u8>) -> (r: usize)
    ensures
        final(writer)@ == old(writer)@ + tag_encoding(index),
        r == TAG_WIDTH,
{
    write_be(index as u128, TAG_WIDTH as usize, writer);
    proof {
        lemma_be_bytes_len(index as nat, TAG_WIDTH as nat);
    }
    TAG_WIDTH as usize
}

/// Reads a discriminant and returns the position of the variant it names, for a
/// union whose declared variants are `0..variant_count`.
pub fn decode_variant(reader: &mut Reader, variant_count: u32) -> (r: Result<u32, Error>)
    requires
        old(reader).wf(),
    ensures
        final(reader).wf(),
        match tag_decoding(old(reader)@, variant_count as nat) {
            Ok((t, n)) => r == Ok::<u32, Error>(t) && final(reader)@ == old(reader)@.skip(n as int),
            Err(e) => r == Err::<u32, Error>(e),
        },
{
    proof {
        lemma_pow256_widths();
    }
    match read_be(reader, TAG_WIDTH) {
        Ok(t) => {
            let t = t as u32;
            if t < variant_count {
                Ok(t)
            } else {
                Err(Error::KindInvalid(t))
            }
        },
        Err(e) => Err(e),
    }
}

} // verus!

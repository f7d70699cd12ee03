use vstd::prelude::*;
use vstd::utf8::{encode_utf8, encode_utf8_decode_utf8, encode_utf8_valid_utf8, decode_utf8, valid_utf8};

use crate::codec::{Decode, Encode};
use crate::error::Error;
use crate::reader::Reader;
use crate::wire::{be_bytes, be_value, lemma_be_bytes_len, lemma_pow256_widths, read_be, write_be};

verus! {

/// Width in bytes of every length header.
pub const HEADER_WIDTH: u64 = 8;

/// Relies on `String::from_utf8`: it accepts exactly the valid UTF-8 byte strings,
/// and the string it builds holds those bytes unchanged.
#[verifier::external_body]
fn string_from_utf8(bytes: Vec<u8>) -> (r: Option<String>)
    ensures
        r is None ==> !valid_utf8(bytes@),
        r is Some ==> encode_utf8(r->Some_0@) == bytes@,
{
    String::from_utf8(bytes).ok()
}

/// What a text value decodes to: an 8-byte length header, then that many bytes of
/// UTF-8.
pub open spec fn text_decoding(bytes: Seq<u8>) -> Result<(Seq<char>, nat), Error> {
    if bytes.len() < HEADER_WIDTH {
        Err(Error::UnexpectedEnd)
    } else {
        let n = be_value(bytes.take(HEADER_WIDTH as int));
        let body = bytes.skip(HEADER_WIDTH as int);
        if body.len() < n {
            Err(Error::UnexpectedEnd)
        } else if !valid_utf8(body.take(n as int)) {
            Err(Error::InvalidUtf8)
        } else {
            Ok((decode_utf8(body.take(n as int)), (HEADER_WIDTH + n) as nat))
        }
    }
}

impl Encode for String {
    open spec fn encoding(&self) -> Seq<u8> {
        be_bytes(encode_utf8(self@).len(), HEADER_WIDTH as nat) + encode_utf8(self@)
    }

    fn encode(&self, writer: &mut Vec<u8>) -> (r: usize) {
        let start = writer.len();
        let bytes = self.as_str().as_bytes();
        let n = bytes.len();
        write_be(n as u128, HEADER_WIDTH as usize, writer);
        let ghost mid = writer@;
        let mut i: usize = 0;
        while i < n
            invariant
                n == bytes@.len(),
                i <= n,
                writer@ == mid + bytes@.take(i as int),
            decreases n - i,
        {
            writer.push(bytes[i]);
            i = i + 1;
            assert(writer@ =~= mid + bytes@.take(i as int));
        }
        proof {
            assert(bytes@.take(n as int) =~= bytes@);
            lemma_be_bytes_len(n as nat, HEADER_WIDTH as nat);
            assert(writer@ =~= old(writer)@ + self.encoding());
        }
        writer.len() - start
    }
}

impl Decode for String {
    open spec fn decoding(bytes: Seq<u8>) -> Result<(Seq<char>, nat), Error> {
        text_decoding(bytes)
    }

    fn decode(reader: &mut Reader) -> (r: Result<String, Error>) {
        let ghost before = reader@;
        proof {
            lemma_pow256_widths();
        }
        let n = match read_be(reader, HEADER_WIDTH) {
            Ok(n) => n,
            Err(e) => return Err(e),
        };
        proof {
            assert(reader@ =~= before.skip(HEADER_WIDTH as int));
        }
        let body = match reader.read_exact(n as u64) {
            Ok(b) => b,
            Err(e) => return Err(e),
        };
        proof {
            assert(reader@ =~= before.skip(HEADER_WIDTH + n));
        }
        match string_from_utf8(body) {
            Some(s) => {
                proof {
                    encode_utf8_decode_utf8(s@);
                    encode_utf8_valid_utf8(s@);
                }
                Ok(s)
            },
            None => Err(Error::InvalidUtf8),
        }
    }
}

} // verus!

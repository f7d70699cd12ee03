use vstd::prelude::*;

use crate::codec::{Decode, Encode};
use crate::error::Error;
use crate::reader::Reader;

verus! {

/// What a record of two fields decodes to: the first field, then the second from
/// where the first ended. A record of more fields nests pairs.
pub open spec fn pair_decoding<A: Decode, B: Decode>(bytes: Seq<u8>) -> Result<
    ((A::V, B::V), nat),
    Error,
> {
    match A::decoding(bytes) {
        Err(e) => Err(e),
        Ok((a, n)) => match B::decoding(bytes.skip(n as int)) {
            Err(e) => Err(e),
            Ok((b, m)) => Ok(((a, b), n + m)),
        },
    }
}

impl<A: Encode, B: Encode> Encode for (A, B) {
    open spec fn encoding(&self) -> Seq<u8> {
        self.0.encoding() + self.1.encoding()
    }

    fn encode(&self, writer: &mut Vec<u8>) -> (r: usize) {
        let start = writer.len();
        self.0.encode(writer);
        self.1.encode(writer);
        assert(writer@ =~= old(writer)@ + self.encoding());
        writer.len() - start
    }
}

impl<A: Decode, B: Decode> Decode for (A, B) {
    open spec fn decoding(bytes: Seq<u8>) -> Result<((A::V, B::V), nat), Error> {
        pair_decoding::<A, B>(bytes)
    }

    fn decode(reader: &mut Reader) -> (r: Result<(A, B), Error>) {
        let ghost before = reader@;
        let a = match A::decode(reader) {
            Ok(a) => a,
            Err(e) => return Err(e),
        };
        let ghost n = match A::decoding(before) {
            Ok((_, n)) => n,
            Err(_) => 0,
        };
        let b = match B::decode(reader) {
            Ok(b) => b,
            Err(e) => return Err(e),
        };
        assert(reader@ =~= before.skip(
            (n + match B::decoding(before.skip(n as int)) {
                Ok((_, m)) => m,
                Err(_) => 0,
            }) as int,
        ));
        Ok((a, b))
    }
}

} // verus!

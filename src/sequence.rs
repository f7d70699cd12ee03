use vstd::prelude::*;

use crate::codec::{Decode, Encode};
use crate::error::Error;
use crate::reader::Reader;
use crate::text::HEADER_WIDTH;
use crate::wire::{be_bytes, be_value, lemma_be_bytes_len, lemma_pow256_widths, read_be, write_be};

verus! {

/// The elements' encodings, one after another, in order.
pub open spec fn encode_all<T: Encode>(s: Seq<T>) -> Seq<u8>
    decreases s.len(),
{
    if s.len() == 0 {
        Seq::empty()
    } else {
        s[0].encoding() + encode_all(s.drop_first())
    }
}

/// Decodes `count` values one after another from the front of `bytes`: their deep
/// views and the bytes taken in all, or the first error met.
pub open spec fn decode_many<T: Decode>(bytes: Seq<u8>, count: nat) -> Result<
    (Seq<T::V>, nat),
    Error,
>
    decreases count,
{
    if count == 0 {
        Ok((Seq::empty(), 0))
    } else {
        match T::decoding(bytes) {
            Err(e) => Err(e),
            Ok((x, n)) => match decode_many::<T>(bytes.skip(n as int), (count - 1) as nat) {
                Err(e) => Err(e),
                Ok((xs, m)) => Ok((seq![x] + xs, n + m)),
            },
        }
    }
}

/// `d`, with `done` already decoded from `used` bytes before it.
pub open spec fn after<V>(done: Seq<V>, used: nat, d: Result<(Seq<V>, nat), Error>) -> Result<
    (Seq<V>, nat),
    Error,
> {
    match d {
        Ok((xs, m)) => Ok((done + xs, used + m)),
        Err(e) => Err(e),
    }
}

/// What a sequence decodes to: an 8-byte element count, then that many elements.
pub open spec fn sequence_decoding<T: Decode>(bytes: Seq<u8>) -> Result<(Seq<T::V>, nat), Error> {
    if bytes.len() < HEADER_WIDTH {
        Err(Error::UnexpectedEnd)
    } else {
        after(
            Seq::empty(),
            HEADER_WIDTH as nat,
            decode_many::<T>(
                bytes.skip(HEADER_WIDTH as int),
                be_value(bytes.take(HEADER_WIDTH as int)),
            ),
        )
    }
}

pub proof fn lemma_encode_all_push<T: Encode>(s: Seq<T>, x: T)
    ensures
        encode_all(s.push(x)) == encode_all(s) + x.encoding(),
    decreases s.len(),
{
    if s.len() == 0 {
        assert(s.push(x).drop_first() =~= Seq::<T>::empty());
        assert(s.push(x)[0] == x);
        assert(encode_all(Seq::<T>::empty()) == Seq::<u8>::empty());
        assert(encode_all(s.push(x)) =~= encode_all(s) + x.encoding());
    } else {
        assert(s.push(x).drop_first() =~= s.drop_first().push(x));
        lemma_encode_all_push(s.drop_first(), x);
        assert(encode_all(s.push(x)) =~= encode_all(s) + x.encoding());
    }
}

impl<T: Encode> Encode for Vec<T> {
    open spec fn encoding(&self) -> Seq<u8> {
        be_bytes(self@.len(), HEADER_WIDTH as nat) + encode_all(self@)
    }

    fn encode(&self, writer: &mut Vec<u8>) -> (r: usize) {
        let start = writer.len();
        let n = self.len();
        write_be(n as u128, HEADER_WIDTH as usize, writer);
        let ghost mid = writer@;
        let mut i: usize = 0;
        proof {
            assert(self@.take(0) =~= Seq::<T>::empty());
        }
        while i < n
            invariant
                n == self@.len(),
                i <= n,
                writer@ == mid + encode_all(self@.take(i as int)),
            decreases n - i,
        {
            self[i].encode(writer);
            proof {
                assert(self@.take(i as int + 1) =~= self@.take(i as int).push(self@[i as int]));
                lemma_encode_all_push(self@.take(i as int), self@[i as int]);
            }
            i = i + 1;
            assert(writer@ =~= mid + encode_all(self@.take(i as int)));
        }
        proof {
            assert(self@.take(n as int) =~= self@);
            lemma_be_bytes_len(n as nat, HEADER_WIDTH as nat);
            assert(writer@ =~= old(writer)@ + self.encoding());
        }
        writer.len() - start
    }
}

impl<T: Decode> Decode for Vec<T> {
    open spec fn decoding(bytes: Seq<u8>) -> Result<(Seq<T::V>, nat), Error> {
        sequence_decoding::<T>(bytes)
    }

    fn decode(reader: &mut Reader) -> (r: Result<Vec<T>, Error>) {
        let ghost before = reader@;
        proof {
            lemma_pow256_widths();
        }
        let count = match read_be(reader, HEADER_WIDTH) {
            Ok(c) => c as u64,
            Err(e) => return Err(e),
        };
        let ghost body = reader@;
        proof {
            assert(body =~= before.skip(HEADER_WIDTH as int));
            assert(count as nat == be_value(before.take(HEADER_WIDTH as int)));
        }
        let mut out: Vec<T> = Vec::new();
        let mut i: u64 = 0;
        let ghost used: nat = 0;
        proof {
            assert(body.skip(0) =~= body);
            assert(out.deep_view() =~= Seq::<T::V>::empty());
        }
        while i < count
            invariant
                reader.wf(),
                before == old(reader)@,
                before.len() >= HEADER_WIDTH,
                body == before.skip(HEADER_WIDTH as int),
                count as nat == be_value(before.take(HEADER_WIDTH as int)),
                i <= count,
                used <= body.len(),
                reader@ == body.skip(used as int),
                decode_many::<T>(body, count as nat) == after(
                    out.deep_view(),
                    used,
                    decode_many::<T>(reader@, (count - i) as nat),
                ),
            decreases count - i,
        {
            let ghost cur = reader@;
            let ghost rest_count = (count - i - 1) as nat;
            match T::decode(reader) {
                Ok(x) => {
                    let ghost old_out = out.deep_view();
                    let ghost n = match T::decoding(cur) {
                        Ok((_, n)) => n,
                        Err(_) => 0,
                    };
                    out.push(x);
                    proof {
                        assert(out.deep_view() =~= old_out.push(x.deep_view()));
                        assert(reader@ =~= body.skip((used + n) as int));
                        match decode_many::<T>(reader@, rest_count) {
                            Ok((xs, m)) => {
                                assert(old_out + (seq![x.deep_view()] + xs) =~= out.deep_view()
                                    + xs);
                            },
                            Err(_) => {},
                        }
                        used = used + n;
                    }
                    i = i + 1;
                },
                Err(e) => {
                    assert(decode_many::<T>(cur, (count - i) as nat) == Err::<
                        (Seq<T::V>, nat),
                        Error,
                    >(e));
                    assert(decode_many::<T>(body, count as nat) == Err::<
                        (Seq<T::V>, nat),
                        Error,
                    >(e));
                    assert(sequence_decoding::<T>(before) == Err::<(Seq<T::V>, nat), Error>(e));
                    return Err(e);
                },
            }
        }
        proof {
            assert(out.deep_view() + Seq::<T::V>::empty() =~= out.deep_view());
            assert(decode_many::<T>(body, count as nat) == Ok::<(Seq<T::V>, nat), Error>(
                (out.deep_view(), used),
            ));
            assert(reader@ =~= before.skip(HEADER_WIDTH + used));
        }
        Ok(out)
    }
}

} // verus!

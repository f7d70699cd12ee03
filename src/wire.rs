use vstd::prelude::*;

use crate::error::Error;
use crate::reader::Reader;

verus! {

/// 256 to the power `k`: the number of values that `k` bytes can hold.
pub open spec fn pow256(k: nat) -> nat
    decreases k,
{
    if k == 0 {
        1
    } else {
        256 * pow256((k - 1) as nat)
    }
}

/// The `width` low-order bytes of `v`, most significant first.
pub open spec fn be_bytes(v: nat, width: nat) -> Seq<u8>
    decreases width,
{
    if width == 0 {
        Seq::empty()
    } else {
        be_bytes(v / 256, (width - 1) as nat).push((v % 256) as u8)
    }
}

/// The number that `s` spells out, most significant byte first.
pub open spec fn be_value(s: Seq<u8>) -> nat
    decreases s.len(),
{
    if s.len() == 0 {
        0
    } else {
        be_value(s.drop_last()) * 256 + s.last() as nat
    }
}

pub proof fn lemma_be_bytes_len(v: nat, width: nat)
    ensures
        be_bytes(v, width).len() == width,
    decreases width,
{
    if width > 0 {
        lemma_be_bytes_len(v / 256, (width - 1) as nat);
    }
}

pub proof fn lemma_be_value_bound(s: Seq<u8>)
    ensures
        be_value(s) < pow256(s.len()),
    decreases s.len(),
{
    if s.len() > 0 {
        lemma_be_value_bound(s.drop_last());
        let a = be_value(s.drop_last());
        let p = pow256(s.drop_last().len());
        let b = s.last() as nat;
        assert(a * 256 + b < 256 * p) by (nonlinear_arith)
            requires
                a < p,
                b < 256,
        ;
    }
}

/// Spelling a number out in `width` bytes and reading it back gives the number,
/// whenever it fits.
pub proof fn lemma_be_round_trip(v: nat, width: nat)
    requires
        v < pow256(width),
    ensures
        be_bytes(v, width).len() == width,
        be_value(be_bytes(v, width)) == v,
    decreases width,
{
    lemma_be_bytes_len(v, width);
    if width > 0 {
        let w1 = (width - 1) as nat;
        let p = pow256(w1);
        assert(v / 256 < p) by (nonlinear_arith)
            requires
                v < 256 * p,
        ;
        lemma_be_round_trip(v / 256, w1);
        let s = be_bytes(v, width);
        assert(s.drop_last() =~= be_bytes(v / 256, w1));
        assert((v / 256) * 256 + v % 256 == v) by (nonlinear_arith);
    }
}

pub proof fn lemma_pow256_widths()
    ensures
        pow256(1) == 0x100,
        pow256(2) == 0x1_0000,
        pow256(4) == 0x1_0000_0000,
        pow256(8) == 0x1_0000_0000_0000_0000,
        pow256(16) == 0x1_0000_0000_0000_0000_0000_0000_0000_0000,
{
    reveal_with_fuel(pow256, 17);
}

/// Appends the `width` low-order bytes of `v`, most significant first.
pub fn write_be(v: u128, width: usize, writer: &mut Vec<u8>)
    ensures
        final(writer)@ == old(writer)@ + be_bytes(v as nat, width as nat),
    decreases width,
{
    if width == 0 {
        assert(final(writer)@ =~= old(writer)@ + be_bytes(v as nat, 0));
    } else {
        write_be(v / 256, width - 1, writer);
        writer.push((v % 256) as u8);
        assert(writer@ =~= old(writer)@ + be_bytes(v as nat, width as nat));
    }
}

/// Reads `width` bytes and the number they spell, most significant first.
pub fn read_be(reader: &mut Reader, width: u64) -> (r: Result<u128, Error>)
    requires
        old(reader).wf(),
        width <= 16,
    ensures
        final(reader).wf(),
        width <= old(reader)@.len() ==> r == Ok::<u128, Error>(
            be_value(old(reader)@.take(width as int)) as u128,
        ) && be_value(old(reader)@.take(width as int)) < pow256(width as nat)
            && final(reader)@ == old(reader)@.skip(width as int),
        width > old(reader)@.len() ==> r == Err::<u128, Error>(Error::UnexpectedEnd),
{
    let bytes = match reader.read_exact(width) {
        Ok(b) => b,
        Err(e) => return Err(e),
    };
    let mut acc: u128 = 0;
    let mut i: usize = 0;
    proof {
        lemma_pow256_widths();
        assert(bytes@.take(0).len() == 0);
    }
    while i < bytes.len()
        invariant
            bytes@.len() == width,
            width <= 16,
            pow256(16) == 0x1_0000_0000_0000_0000_0000_0000_0000_0000,
            i <= bytes@.len(),
            acc == be_value(bytes@.take(i as int)),
        decreases bytes@.len() - i,
    {
        proof {
            let t = bytes@.take(i as int + 1);
            assert(t.drop_last() =~= bytes@.take(i as int));
            lemma_be_value_bound(bytes@.take(i as int));
            lemma_pow256_mono(i as nat, 15);
            let a = acc as nat;
            let p = pow256(i as nat);
            assert(a * 256 + 255 < 256 * pow256(15)) by (nonlinear_arith)
                requires
                    a < p,
                    p <= pow256(15),
            ;
        }
        acc = acc * 256 + bytes[i] as u128;
        i = i + 1;
    }
    proof {
        assert(bytes@.take(i as int) =~= bytes@);
        lemma_be_value_bound(bytes@);
    }
    Ok(acc)
}

pub proof fn lemma_pow256_mono(a: nat, b: nat)
    requires
        a <= b,
    ensures
        pow256(a) <= pow256(b),
    decreases b,
{
    if a < b {
        lemma_pow256_mono(a, (b - 1) as nat);
    }
}

} // verus!

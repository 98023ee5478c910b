use crate::reader::{chunk_prefix, digits_value, is_digit};
use vstd::prelude::*;

verus! {

/// The decimal digits of `i`, most significant first, without leading zeros.
pub open spec fn decimal(i: nat) -> Seq<u8>
    decreases i,
{
    if i < 10 {
        seq![(0x30 + i) as u8]
    } else {
        decimal(i / 10).push((0x30 + i % 10) as u8)
    }
}

/// The file name `chunk_<i>` of the promoted chunk with id `i`.
pub open spec fn chunk_name(i: nat) -> Seq<u8> {
    chunk_prefix() + decimal(i)
}

/// The file name `_chunk` of the scratch file.
pub open spec fn scratch_name() -> Seq<u8> {
    seq![0x5fu8, 0x63u8, 0x68u8, 0x75u8, 0x6eu8, 0x6bu8]
}

/// The names of the promoted chunks `0 .. n`.
pub open spec fn promoted_names(n: nat) -> Seq<Seq<u8>> {
    Seq::new(n, |i: int| chunk_name(i as nat))
}

/// `decimal(i)` is a nonempty run of digits whose value is `i`.
pub proof fn lemma_decimal(i: nat)
    ensures
        decimal(i).len() > 0,
        forall|k: int| 0 <= k < decimal(i).len() ==> is_digit(#[trigger] decimal(i)[k]),
        digits_value(decimal(i)) == i,
    decreases i,
{
    if i >= 10 {
        lemma_decimal(i / 10);
        let s = decimal(i / 10);
        assert(decimal(i).drop_last() =~= s);
        let c = (0x30 + i % 10) as u8;
        assert(c == 0x30 + i % 10);
        assert(decimal(i).last() == c);
        assert(i == (i / 10) * 10 + i % 10);
        assert(digits_value(decimal(i)) == digits_value(s) * 10 + (c - 0x30) as nat);
        assert(digits_value(s) * 10 + (c - 0x30) as nat == (i / 10) * 10 + i % 10);
    } else {
        assert(((0x30 + i) as u8) == 0x30 + i);
        assert(decimal(i).drop_last() =~= Seq::<u8>::empty());
        assert(digits_value(decimal(i).drop_last()) == 0);
        assert(decimal(i).last() - 0x30 == i);
    }
}

/// `-` then the decimal digits of the magnitude, for a negative value;
/// the decimal digits alone otherwise.
pub open spec fn signed_decimal(v: int) -> Seq<u8> {
    if v < 0 {
        seq![0x2du8] + decimal((-v) as nat)
    } else {
        decimal(v as nat)
    }
}

/// The decimal digits of `v`.
pub fn decimal_bytes(v: u64) -> (r: Vec<u8>)
    ensures
        r@ == decimal(v as nat),
    decreases v,
{
    if v < 10 {
        let d = 0x30u8 + v as u8;
        let r = vec![d];
        assert(r@ =~= decimal(v as nat));
        r
    } else {
        let mut r = decimal_bytes(v / 10);
        r.push(0x30u8 + (v % 10) as u8);
        r
    }
}

/// The decimal form of `v`, with a leading `-` when it is negative.
pub fn signed_decimal_bytes(v: i32) -> (r: Vec<u8>)
    ensures
        r@ == signed_decimal(v as int),
{
    if v < 0 {
        let m: u64 = (0i64 - v as i64) as u64;
        let mut r = vec![0x2du8];
        let mut d = decimal_bytes(m);
        r.append(&mut d);
        assert(r@ =~= signed_decimal(v as int));
        r
    } else {
        decimal_bytes(v as u64)
    }
}

/// The file name of the promoted chunk with id `id`.
pub fn chunk_file_name(id: usize) -> (r: Vec<u8>)
    ensures
        r@ == chunk_name(id as nat),
{
    let mut r: Vec<u8> = vec![0x63u8, 0x68u8, 0x75u8, 0x6eu8, 0x6bu8, 0x5fu8];
    let mut d = decimal_bytes(id as u64);
    r.append(&mut d);
    assert(r@ =~= chunk_name(id as nat));
    r
}

} // verus!

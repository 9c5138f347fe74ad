//! Decoding of single elements from little-endian bytes.

use crate::dtype::{supported_dtype, DtypeKind};
use crate::ndarray::Elem;
use vstd::arithmetic::power2::pow2;
use vstd::prelude::*;

verus! {

broadcast use vstd::seq::group_seq_axioms, vstd::std_specs::vec::group_vec_axioms;

/// Value of a little-endian byte sequence.
pub open spec fn le_bytes_to_nat(s: Seq<u8>) -> nat
    decreases s.len(),
{
    if s.len() == 0 {
        0
    } else {
        s[0] as nat + 256 * le_bytes_to_nat(s.skip(1))
    }
}

/// A sequence of `n` bytes encodes a value below `2^(8n)`.
pub proof fn lemma_le_bytes_bound(s: Seq<u8>)
    ensures
        le_bytes_to_nat(s) < pow2(8 * s.len()),
    decreases s.len(),
{
    if s.len() == 0 {
        vstd::arithmetic::power2::lemma_pow2_pos(0);
        assert(pow2(0) == 1) by {
            vstd::arithmetic::power2::lemma2_to64();
        }
    } else {
        lemma_le_bytes_bound(s.skip(1));
        let rest = le_bytes_to_nat(s.skip(1));
        let p = pow2(8 * (s.len() - 1) as nat);
        assert(pow2(8 * s.len()) == pow2(8) * p) by {
            vstd::arithmetic::power2::lemma_pow2_adds(8, 8 * (s.len() - 1) as nat);
        }
        assert(pow2(8) == 256) by {
            vstd::arithmetic::power2::lemma2_to64();
        }
        assert(s[0] as nat + 256 * rest < 256 * p) by (nonlinear_arith)
            requires
                s[0] < 256,
                rest < p,
        ;
    }
}

/// The element denoted by an `itemsize`-wide little-endian chunk for a
/// dtype: two's-complement for signed kinds, raw bits for floats, and
/// nonzero-is-true for booleans.
pub open spec fn decode_elem(kind: DtypeKind, itemsize: usize, chunk: Seq<u8>) -> Elem {
    let u = le_bytes_to_nat(chunk) as int;
    match kind {
        DtypeKind::Int => {
            if itemsize == 1 {
                Elem::I8((if u < 0x80 { u } else { u - 0x100 }) as i8)
            } else if itemsize == 2 {
                Elem::I16((if u < 0x8000 { u } else { u - 0x10000 }) as i16)
            } else if itemsize == 4 {
                Elem::I32((if u < 0x8000_0000 { u } else { u - 0x1_0000_0000 }) as i32)
            } else {
                Elem::I64(
                    (if u < 0x8000_0000_0000_0000 {
                        u
                    } else {
                        u - 0x1_0000_0000_0000_0000
                    }) as i64,
                )
            }
        },
        DtypeKind::UInt => {
            if itemsize == 1 {
                Elem::U8(u as u8)
            } else if itemsize == 2 {
                Elem::U16(u as u16)
            } else if itemsize == 4 {
                Elem::U32(u as u32)
            } else {
                Elem::U64(u as u64)
            }
        },
        DtypeKind::Float => {
            if itemsize == 4 {
                Elem::F32Bits(u as u32)
            } else {
                Elem::F64Bits(u as u64)
            }
        },
        DtypeKind::Bool => Elem::Bool(chunk.len() > 0 && chunk[0] != 0),
    }
}

/// Value of the `len` little-endian bytes at `off`.
fn le_value_at(data: &Vec<u8>, off: usize, len: usize) -> (r: u64)
    requires
        len <= 8,
        off + len <= data@.len(),
    ensures
        r == le_bytes_to_nat(data@.subrange(off as int, off + len)),
{
    let mut i: usize = len;
    let mut acc: u64 = 0;
    proof {
        assert(data@.subrange(off + len, off + len) =~= Seq::<u8>::empty());
    }
    while i > 0
        invariant
            i <= len,
            len <= 8,
            off + len <= data@.len(),
            acc == le_bytes_to_nat(data@.subrange(off + i, off + len)),
        decreases i,
    {
        let ghost chunk = data@.subrange(off + i - 1, off + len);
        proof {
            lemma_le_bytes_bound(data@.subrange(off + i, off + len));
            let rest = le_bytes_to_nat(data@.subrange(off + i, off + len));
            let e = (8 * (len - i)) as nat;
            assert(pow2(e) <= pow2(56)) by {
                if e < 56 {
                    vstd::arithmetic::power2::lemma_pow2_strictly_increases(e, 56);
                }
            }
            assert(pow2(56) == 0x100_0000_0000_0000) by {
                vstd::arithmetic::power2::lemma2_to64_rest();
            }
            assert(data.len() == data@.len());
            assert(256 * rest + 255 < 0x1_0000_0000_0000_0000) by (nonlinear_arith)
                requires
                    rest < 0x100_0000_0000_0000,
            ;
            assert(chunk[0] == data@[off + i - 1]);
            assert(chunk.skip(1) =~= data@.subrange(off + i, off + len));
        }
        acc = 256 * acc + (data[off + i - 1] as u64);
        i = i - 1;
    }
    acc
}

/// Decodes the `itemsize` little-endian bytes at `off` as one element
/// of the given kind.
pub fn decode_elem_at(data: &Vec<u8>, off: usize, kind: DtypeKind, itemsize: usize) -> (r: Elem)
    requires
        supported_dtype(kind, itemsize),
        off + itemsize <= data@.len(),
    ensures
        r == decode_elem(kind, itemsize, data@.subrange(off as int, off + itemsize)),
{
    let ghost chunk = data@.subrange(off as int, off + itemsize);
    let v = le_value_at(data, off, itemsize);
    proof {
        lemma_le_bytes_bound(chunk);
        vstd::arithmetic::power2::lemma2_to64();
    }
    match kind {
        DtypeKind::Int => {
            if itemsize == 1 {
                if v < 0x80 {
                    Elem::I8(v as i8)
                } else {
                    Elem::I8((v as i64 - 0x100) as i8)
                }
            } else if itemsize == 2 {
                if v < 0x8000 {
                    Elem::I16(v as i16)
                } else {
                    Elem::I16((v as i64 - 0x10000) as i16)
                }
            } else if itemsize == 4 {
                if v < 0x8000_0000 {
                    Elem::I32(v as i32)
                } else {
                    Elem::I32((v as i64 - 0x1_0000_0000) as i32)
                }
            } else {
                if v < 0x8000_0000_0000_0000 {
                    Elem::I64(v as i64)
                } else {
                    let m = u64::MAX - v;
                    Elem::I64(-(m as i64) - 1)
                }
            }
        },
        DtypeKind::UInt => {
            if itemsize == 1 {
                Elem::U8(v as u8)
            } else if itemsize == 2 {
                Elem::U16(v as u16)
            } else if itemsize == 4 {
                Elem::U32(v as u32)
            } else {
                Elem::U64(v)
            }
        },
        DtypeKind::Float => {
            if itemsize == 4 {
                Elem::F32Bits(v as u32)
            } else {
                Elem::F64Bits(v)
            }
        },
        DtypeKind::Bool => {
            proof {
                assert(chunk[0] == data@[off as int]);
            }
            Elem::Bool(data[off] != 0)
        },
    }
}

} // verus!

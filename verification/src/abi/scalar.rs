//! Fixed-width leaf values: booleans, integers, float bit patterns,
//! characters, bit sets and handles, to and from their bits.

use crate::abi::bytes::zeros;
use crate::abi::model::{scalar_bits, scalar_val, two_pow};
use crate::types::Ty;
use crate::value::Value;
use vstd::prelude::*;
use vstd::utf8::{decode_utf8, is_scalar, valid_utf8};

verus! {

/// The powers of 2 that bit sets of the widths in use need.
pub proof fn lemma_two_pow_values()
    ensures
        two_pow(0) == 1,
        two_pow(8) == 0x100,
        two_pow(16) == 0x1_0000,
        two_pow(32) == 0x1_0000_0000,
        two_pow(63) == 0x8000_0000_0000_0000,
        two_pow(64) == 0x1_0000_0000_0000_0000,
{
    reveal_with_fuel(two_pow, 9);
    assert(two_pow(8) == 0x100);
    assert(two_pow(16) == 0x100 * two_pow(8));
    assert(two_pow(24) == 0x100 * two_pow(16));
    assert(two_pow(32) == 0x100 * two_pow(24));
    assert(two_pow(40) == 0x100 * two_pow(32));
    assert(two_pow(48) == 0x100 * two_pow(40));
    assert(two_pow(56) == 0x100 * two_pow(48));
    assert(two_pow(63) == 0x80 * two_pow(56));
    assert(two_pow(64) == 2 * two_pow(63));
}

/// A larger exponent has a larger power of 2.
pub proof fn lemma_two_pow_monotonic(a: nat, b: nat)
    requires
        a <= b,
    ensures
        two_pow(a) <= two_pow(b),
    decreases b,
{
    if a < b {
        lemma_two_pow_monotonic(a, (b - 1) as nat);
    }
}

/// Whether `bits` sets none but the lowest `n` bits.
pub fn fits_flags(bits: u64, n: u32) -> (ok: bool)
    requires
        n <= 64,
    ensures
        ok == ((bits as nat) < two_pow(n as nat)),
{
    proof {
        lemma_two_pow_values();
    }
    if n >= 64 {
        return true;
    }
    let mut bound: u64 = 1;
    let mut i: u32 = 0;
    while i < n
        invariant
            i <= n < 64,
            bound as nat == two_pow(i as nat),
            two_pow(63) == 0x8000_0000_0000_0000,
        decreases n - i,
    {
        proof {
            lemma_two_pow_monotonic((i + 1) as nat, 63);
        }
        bound = bound * 2;
        i = i + 1;
    }
    bits < bound
}

/// The bits of a value of a fixed-width leaf type.
pub fn scalar_to_bits(ty: &Ty, value: &Value) -> (bits: Option<u64>)
    requires
        ty matches Ty::Flags(n) ==> n <= 64,
    ensures
        match scalar_bits(*ty, value@) {
            Some(b) => bits == Some(b as u64) && b <= u64::MAX,
            None => bits is None,
        },
{
    match (ty, value) {
        (Ty::Bool, Value::Bool(b)) => Some(
            if *b {
                1
            } else {
                0
            },
        ),
        (Ty::U8, Value::U8(x)) => Some(*x as u64),
        (Ty::U16, Value::U16(x)) => Some(*x as u64),
        (Ty::U32, Value::U32(x)) => Some(*x as u64),
        (Ty::U64, Value::U64(x)) => Some(*x),
        (Ty::S8, Value::S8(x)) => Some(
            if *x < 0 {
                (*x as i64 + 0x100) as u64
            } else {
                *x as u64
            },
        ),
        (Ty::S16, Value::S16(x)) => Some(
            if *x < 0 {
                (*x as i64 + 0x1_0000) as u64
            } else {
                *x as u64
            },
        ),
        (Ty::S32, Value::S32(x)) => Some(
            if *x < 0 {
                (*x as i64 + 0x1_0000_0000) as u64
            } else {
                *x as u64
            },
        ),
        (Ty::S64, Value::S64(x)) => Some(
            if *x < 0 {
                (*x as i128 + 0x1_0000_0000_0000_0000) as u64
            } else {
                *x as u64
            },
        ),
        (Ty::F32, Value::F32(x)) => Some(*x as u64),
        (Ty::F64, Value::F64(x)) => Some(*x),
        (Ty::Char, Value::Char(c)) => Some(*c as u32 as u64),
        (Ty::Flags(n), Value::Flags(bits)) => if fits_flags(*bits, *n) {
            Some(*bits)
        } else {
            None
        },
        (Ty::Handle(_, _), Value::Handle(h)) => Some(*h as u64),
        _ => None,
    }
}

/// Appends `n` zero bytes.
pub fn pad_zeros(out: &mut Vec<u8>, n: usize)
    ensures
        final(out)@ == old(out)@ + zeros(n as int),
{
    let mut i: usize = 0;
    assert(out@ =~= old(out)@ + zeros(0));
    while i < n
        invariant
            i <= n,
            out@ == old(out)@ + zeros(i as int),
        decreases n - i,
    {
        out.push(0u8);
        i = i + 1;
        assert(out@ =~= old(out)@ + zeros(i as int));
    }
}

/// `char::from_u32` of the standard library: a code point that is a Unicode
/// scalar value gives that character, any other number gives `None`.
pub assume_specification[ char::from_u32 ](i: u32) -> (c: Option<char>)
    ensures
        c == if is_scalar(i) {
            Some(i as char)
        } else {
            None::<char>
        },
;

/// `String::from_utf8` of the standard library: bytes that are well-formed
/// UTF-8 give the string they encode, any other bytes give `None`.
#[verifier::external_body]
pub(crate) fn string_from_utf8(bytes: Vec<u8>) -> (text: Option<String>)
    ensures
        match text {
            Some(s) => valid_utf8(bytes@) && s@ == decode_utf8(bytes@),
            None => !valid_utf8(bytes@),
        },
{
    String::from_utf8(bytes).ok()
}

/// The widest number that the bytes of a leaf type can spell.
pub open spec fn scalar_limit(ty: Ty) -> nat {
    match ty {
        Ty::Bool | Ty::U8 | Ty::S8 => 0x100,
        Ty::U16 | Ty::S16 => 0x1_0000,
        Ty::U32 | Ty::S32 | Ty::F32 | Ty::Char | Ty::Handle(_, _) => 0x1_0000_0000,
        Ty::Flags(n) => if n <= 8 {
            0x100
        } else if n <= 16 {
            0x1_0000
        } else if n <= 32 {
            0x1_0000_0000
        } else {
            0x1_0000_0000_0000_0000
        },
        _ => 0x1_0000_0000_0000_0000,
    }
}

/// The value of a fixed-width leaf type that `bits` encode.
pub fn scalar_from_bits(ty: &Ty, bits: u64) -> (value: Option<Value>)
    requires
        ty matches Ty::Flags(n) ==> n <= 64,
        bits < scalar_limit(*ty),
    ensures
        match scalar_val(*ty, bits as nat) {
            Some(v) => value is Some && value->Some_0@ == v,
            None => value is None,
        },
{
    match ty {
        Ty::Bool => if bits == 0 {
            Some(Value::Bool(false))
        } else if bits == 1 {
            Some(Value::Bool(true))
        } else {
            None
        },
        Ty::U8 => Some(Value::U8(bits as u8)),
        Ty::U16 => Some(Value::U16(bits as u16)),
        Ty::U32 => Some(Value::U32(bits as u32)),
        Ty::U64 => Some(Value::U64(bits)),
        Ty::S8 => Some(
            Value::S8(
                if bits >= 0x80 {
                    (bits as i64 - 0x100) as i8
                } else {
                    bits as i8
                },
            ),
        ),
        Ty::S16 => Some(
            Value::S16(
                if bits >= 0x8000 {
                    (bits as i64 - 0x1_0000) as i16
                } else {
                    bits as i16
                },
            ),
        ),
        Ty::S32 => Some(
            Value::S32(
                if bits >= 0x8000_0000 {
                    (bits as i64 - 0x1_0000_0000) as i32
                } else {
                    bits as i32
                },
            ),
        ),
        Ty::S64 => Some(
            Value::S64(
                if bits >= 0x8000_0000_0000_0000 {
                    (bits as i128 - 0x1_0000_0000_0000_0000) as i64
                } else {
                    bits as i64
                },
            ),
        ),
        Ty::F32 => Some(Value::F32(bits as u32)),
        Ty::F64 => Some(Value::F64(bits)),
        Ty::Char => match char::from_u32(bits as u32) {
            Some(c) => Some(Value::Char(c)),
            None => None,
        },
        Ty::Flags(n) => if fits_flags(bits, *n) {
            Some(Value::Flags(bits))
        } else {
            None
        },
        Ty::Handle(_, _) => Some(Value::Handle(bits as u32)),
        _ => None,
    }
}

} // verus!

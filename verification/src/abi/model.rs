//! What lowering and lifting mean, as mathematical functions on values,
//! bytes and linear memory.
//!
//! Lowering appends to linear memory and never rewrites it: what a string or
//! a list points to is written first, then the bytes that point to it. Lifting
//! follows pointers only downwards, below a limit that starts at the end of
//! memory and drops to the start of each list it enters.

use crate::abi::bytes::{le_bytes, le_value, zeros};
use crate::types::{
    align_of, align_up, disc_width, field_offset, is_align, payload_offset, size_of, Field,
    Layout, Ty, MAX_FLAGS,
};
use crate::value::Val;
use vstd::prelude::*;
use vstd::utf8::*;

verus! {

/// Why a value could not be lowered.
#[derive(Clone, Copy, Debug, PartialEq, Eq, Structural)]
pub enum LowerError {
    /// The value is not of the type it was to be lowered as.
    TypeMismatch,
    /// Linear memory has no room for a string or a list.
    OutOfMemory,
}

/// Why bytes could not be lifted.
#[derive(Clone, Copy, Debug, PartialEq, Eq, Structural)]
pub enum LiftError {
    /// A string or a list reaches beyond the memory it may lie in.
    OutOfBounds,
    /// A list does not start at a multiple of its elements' alignment.
    Misaligned,
    /// A string's bytes are not UTF-8.
    InvalidUtf8,
    /// A discriminant names no case of its variant.
    InvalidDiscriminant,
    /// A boolean, a character or a bit set holds bits that no value has.
    InvalidScalar,
}

/// The flat bytes of a lowered value, and linear memory after lowering it.
pub ghost struct Lowered {
    pub flat: Seq<u8>,
    pub mem: Seq<u8>,
}

/// The definitions a type may refer to by position, with the order that
/// rules out a type containing itself, and each definition's layout.
pub ghost struct Types {
    pub defs: Seq<Ty>,
    pub rank: Seq<usize>,
    pub layouts: Seq<Layout>,
}

impl Types {
    /// A bound above every rank: what a type that stands alone may refer to.
    pub open spec fn top(self) -> nat {
        self.defs.len()
    }

    /// Each definition is well formed below its own rank and has the layout
    /// that its body gives.
    pub open spec fn wf(self) -> bool {
        &&& self.rank.len() == self.defs.len()
        &&& self.layouts.len() == self.defs.len()
        &&& forall|j: int|
            0 <= j < self.defs.len() ==> {
                &&& (#[trigger] self.rank[j]) < self.defs.len()
                &&& ty_wf(self, self.rank[j] as nat, self.defs[j])
            }
        &&& forall|j: int|
            0 <= j < self.defs.len() ==> {
                &&& (#[trigger] self.layouts[j]).size >= 1
                &&& is_align(self.layouts[j].align as nat)
                &&& self.layouts[j].size as nat == size_of(self.layouts, self.defs[j])
                &&& self.layouts[j].align as nat == align_of(self.layouts, self.defs[j])
            }
    }
}

/// A type is well formed below rank `r`: outside a list it refers only to
/// definitions of a smaller rank, it has no empty record, no variant without
/// cases, no more flags than fit, and its encoding fits 32-bit memory.
pub open spec fn ty_wf(t: Types, r: nat, ty: Ty) -> bool
    decreases ty,
{
    &&& size_of(t.layouts, ty) <= u32::MAX
    &&& match ty {
        Ty::List(elem) => ty_wf(t, t.top(), *elem),
        Ty::Record(fields) => fields@.len() >= 1 && forall|i: int|
            0 <= i < fields@.len() ==> ty_wf(t, r, (#[trigger] fields@[i]).ty),
        Ty::Variant(cases) => 1 <= cases@.len() <= 0x1_0000_0000 && forall|i: int|
            0 <= i < cases@.len() ==> match (#[trigger] cases@[i]).payload {
                Some(payload) => ty_wf(t, r, payload),
                None => true,
            },
        Ty::Flags(n) => n <= MAX_FLAGS,
        Ty::Ref(j) => j < t.defs.len() && t.rank[j as int] < r,
        _ => true,
    }
}

/// 2 to the power `n`.
pub open spec fn two_pow(n: nat) -> nat
    decreases n,
{
    if n == 0 {
        1
    } else {
        2 * two_pow((n - 1) as nat)
    }
}

/// The bits that encode a value of a fixed-width leaf type, or `None` where
/// the value is not of that type.
pub open spec fn scalar_bits(ty: Ty, v: Val) -> Option<nat> {
    match (ty, v) {
        (Ty::Bool, Val::Bool(b)) => Some(
            if b {
                1nat
            } else {
                0nat
            },
        ),
        (Ty::U8, Val::U8(x)) => Some(x as nat),
        (Ty::U16, Val::U16(x)) => Some(x as nat),
        (Ty::U32, Val::U32(x)) => Some(x as nat),
        (Ty::U64, Val::U64(x)) => Some(x as nat),
        (Ty::S8, Val::S8(x)) => Some(
            if x < 0 {
                (x + 0x100) as nat
            } else {
                x as nat
            },
        ),
        (Ty::S16, Val::S16(x)) => Some(
            if x < 0 {
                (x + 0x1_0000) as nat
            } else {
                x as nat
            },
        ),
        (Ty::S32, Val::S32(x)) => Some(
            if x < 0 {
                (x + 0x1_0000_0000) as nat
            } else {
                x as nat
            },
        ),
        (Ty::S64, Val::S64(x)) => Some(
            if x < 0 {
                (x + 0x1_0000_0000_0000_0000) as nat
            } else {
                x as nat
            },
        ),
        (Ty::F32, Val::F32(x)) => Some(x as nat),
        (Ty::F64, Val::F64(x)) => Some(x as nat),
        (Ty::Char, Val::Char(c)) => Some(c as u32 as nat),
        (Ty::Flags(n), Val::Flags(bits)) => if (bits as nat) < two_pow(n as nat) {
            Some(bits as nat)
        } else {
            None
        },
        (Ty::Handle(_, _), Val::Handle(h)) => Some(h as nat),
        _ => None,
    }
}

/// The value of a fixed-width leaf type that `bits` encode, or `None` where
/// no value of the type has these bits.
pub open spec fn scalar_val(ty: Ty, bits: nat) -> Option<Val> {
    match ty {
        Ty::Bool => if bits == 0 {
            Some(Val::Bool(false))
        } else if bits == 1 {
            Some(Val::Bool(true))
        } else {
            None
        },
        Ty::U8 => Some(Val::U8(bits as u8)),
        Ty::U16 => Some(Val::U16(bits as u16)),
        Ty::U32 => Some(Val::U32(bits as u32)),
        Ty::U64 => Some(Val::U64(bits as u64)),
        Ty::S8 => Some(
            Val::S8(
                if bits >= 0x80 {
                    (bits - 0x100) as i8
                } else {
                    bits as i8
                },
            ),
        ),
        Ty::S16 => Some(
            Val::S16(
                if bits >= 0x8000 {
                    (bits - 0x1_0000) as i16
                } else {
                    bits as i16
                },
            ),
        ),
        Ty::S32 => Some(
            Val::S32(
                if bits >= 0x8000_0000 {
                    (bits - 0x1_0000_0000) as i32
                } else {
                    bits as i32
                },
            ),
        ),
        Ty::S64 => Some(
            Val::S64(
                if bits >= 0x8000_0000_0000_0000 {
                    (bits - 0x1_0000_0000_0000_0000) as i64
                } else {
                    bits as i64
                },
            ),
        ),
        Ty::F32 => Some(Val::F32(bits as u32)),
        Ty::F64 => Some(Val::F64(bits as u64)),
        Ty::Char => if is_scalar(bits as u32) {
            Some(Val::Char(bits as u32 as char))
        } else {
            None
        },
        Ty::Flags(n) => if bits < two_pow(n as nat) {
            Some(Val::Flags(bits as u64))
        } else {
            None
        },
        Ty::Handle(_, _) => Some(Val::Handle(bits as u32)),
        _ => None,
    }
}

/// Puts `data` into linear memory at the next multiple of `align` and gives
/// the pointer and `count` that refer to it. Nothing is written for a count
/// of zero, which is encoded as a null pointer.
pub open spec fn place(data: Seq<u8>, align: nat, count: nat, mem: Seq<u8>, cap: nat) -> Result<
    Lowered,
    LowerError,
> {
    let ptr = align_up(mem.len(), align);
    if count == 0 {
        Ok(Lowered { flat: le_bytes(0, 4) + le_bytes(0, 4), mem })
    } else if ptr + data.len() > cap {
        Err(LowerError::OutOfMemory)
    } else {
        Ok(
            Lowered {
                flat: le_bytes(ptr, 4) + le_bytes(count, 4),
                mem: mem + zeros(ptr - mem.len()) + data,
            },
        )
    }
}

/// The flat bytes of `v` as a value of type `ty`, and linear memory after
/// the strings and lists inside it were appended to `mem`, which holds at
/// most `cap` bytes.
pub open spec fn lower_spec(t: Types, r: nat, ty: Ty, v: Val, mem: Seq<u8>, cap: nat) -> Result<
    Lowered,
    LowerError,
>
    decreases v, r,
{
    match ty {
        Ty::Ref(j) => if j < t.defs.len() && t.rank[j as int] < r {
            lower_spec(t, t.rank[j as int] as nat, t.defs[j as int], v, mem, cap)
        } else {
            Err(LowerError::TypeMismatch)
        },
        Ty::Str => match v {
            Val::Str(chars) => place(encode_utf8(chars), 1, encode_utf8(chars).len(), mem, cap),
            _ => Err(LowerError::TypeMismatch),
        },
        Ty::List(elem) => match v {
            Val::List(items) => match lower_items(t, *elem, items, items.len(), mem, cap) {
                Ok(all) => place(all.flat, align_of(t.layouts, *elem), items.len(), all.mem, cap),
                Err(e) => Err(e),
            },
            _ => Err(LowerError::TypeMismatch),
        },
        Ty::Record(fields) => match v {
            Val::Record(vals) => if vals.len() != fields@.len() {
                Err(LowerError::TypeMismatch)
            } else {
                match lower_fields(t, r, fields@, vals, vals.len(), mem, cap) {
                    Ok(all) => Ok(
                        Lowered {
                            flat: all.flat + zeros(size_of(t.layouts, ty) - all.flat.len()),
                            mem: all.mem,
                        },
                    ),
                    Err(e) => Err(e),
                }
            },
            _ => Err(LowerError::TypeMismatch),
        },
        Ty::Variant(cases) => match v {
            Val::Variant(case, payload) => if case >= cases@.len() {
                Err(LowerError::TypeMismatch)
            } else {
                let disc = le_bytes(case as nat, disc_width(cases@.len()));
                let start = payload_offset(t.layouts, cases@);
                let size = size_of(t.layouts, ty);
                match (cases@[case as int].payload, payload) {
                    (None, None) => Ok(Lowered { flat: disc + zeros(size - disc.len()), mem }),
                    (Some(inner_ty), Some(inner)) => match lower_spec(
                        t,
                        r,
                        inner_ty,
                        *inner,
                        mem,
                        cap,
                    ) {
                        Ok(low) => Ok(
                            Lowered {
                                flat: disc + zeros(start - disc.len()) + low.flat + zeros(
                                    size - start - low.flat.len(),
                                ),
                                mem: low.mem,
                            },
                        ),
                        Err(e) => Err(e),
                    },
                    _ => Err(LowerError::TypeMismatch),
                }
            },
            _ => Err(LowerError::TypeMismatch),
        },
        _ => match scalar_bits(ty, v) {
            Some(bits) => Ok(Lowered { flat: le_bytes(bits, size_of(t.layouts, ty)), mem }),
            None => Err(LowerError::TypeMismatch),
        },
    }
}

/// The first `n` elements of a list lowered one after the other: their flat
/// bytes side by side, and memory after the last of them.
pub open spec fn lower_items(t: Types, elem: Ty, items: Seq<Val>, n: nat, mem: Seq<u8>, cap: nat)
    -> Result<Lowered, LowerError>
    decreases items, n,
{
    if n == 0 || n > items.len() {
        Ok(Lowered { flat: Seq::empty(), mem })
    } else {
        match lower_items(t, elem, items, (n - 1) as nat, mem, cap) {
            Ok(before) => match lower_spec(t, t.top(), elem, items[n - 1], before.mem, cap) {
                Ok(low) => Ok(Lowered { flat: before.flat + low.flat, mem: low.mem }),
                Err(e) => Err(e),
            },
            Err(e) => Err(e),
        }
    }
}

/// The first `n` fields of a record lowered one after the other, each at its
/// offset, with zero bytes between them.
pub open spec fn lower_fields(
    t: Types,
    r: nat,
    fields: Seq<Field>,
    vals: Seq<Val>,
    n: nat,
    mem: Seq<u8>,
    cap: nat,
) -> Result<Lowered, LowerError>
    decreases vals, n,
{
    if n == 0 || n > vals.len() || n > fields.len() {
        Ok(Lowered { flat: Seq::empty(), mem })
    } else {
        match lower_fields(t, r, fields, vals, (n - 1) as nat, mem, cap) {
            Ok(before) => match lower_spec(t, r, fields[n - 1].ty, vals[n - 1], before.mem, cap) {
                Ok(low) => Ok(
                    Lowered {
                        flat: before.flat + zeros(
                            field_offset(t.layouts, fields, (n - 1) as nat) - before.flat.len(),
                        ) + low.flat,
                        mem: low.mem,
                    },
                ),
                Err(e) => Err(e),
            },
            Err(e) => Err(e),
        }
    }
}

/// Whether `ptr` is a multiple of `align`, for the alignments in use.
pub open spec fn is_aligned(ptr: nat, align: nat) -> bool {
    align_up(ptr, align) == ptr
}

/// The value of type `ty` that the bytes `flat` encode, with the strings and
/// lists they point to read from `mem` below `limit`.
pub open spec fn lift_spec(t: Types, r: nat, ty: Ty, flat: Seq<u8>, mem: Seq<u8>, limit: nat)
    -> Result<Val, LiftError>
    decreases limit, r, ty, 0nat,
{
    match ty {
        Ty::Ref(j) => if j < t.defs.len() && t.rank[j as int] < r {
            lift_spec(t, t.rank[j as int] as nat, t.defs[j as int], flat, mem, limit)
        } else {
            Err(LiftError::InvalidScalar)
        },
        Ty::Str => {
            let ptr = le_value(flat.subrange(0, 4));
            let len = le_value(flat.subrange(4, 8));
            if len == 0 {
                Ok(Val::Str(Seq::empty()))
            } else if ptr + len > limit {
                Err(LiftError::OutOfBounds)
            } else if !valid_utf8(mem.subrange(ptr as int, (ptr + len) as int)) {
                Err(LiftError::InvalidUtf8)
            } else {
                Ok(Val::Str(decode_utf8(mem.subrange(ptr as int, (ptr + len) as int))))
            }
        },
        Ty::List(elem) => {
            let ptr = le_value(flat.subrange(0, 4));
            let count = le_value(flat.subrange(4, 8));
            let size = size_of(t.layouts, *elem);
            if count == 0 {
                Ok(Val::List(Seq::empty()))
            } else if ptr + count * size > limit || ptr >= limit {
                Err(LiftError::OutOfBounds)
            } else if !is_aligned(ptr, align_of(t.layouts, *elem)) {
                Err(LiftError::Misaligned)
            } else {
                match lift_items(t, *elem, mem, ptr, count, ptr) {
                    Ok(items) => Ok(Val::List(items)),
                    Err(e) => Err(e),
                }
            }
        },
        Ty::Record(fields) => match lift_fields(t, r, fields@, fields@.len(), flat, mem, limit) {
            Ok(vals) => Ok(Val::Record(vals)),
            Err(e) => Err(e),
        },
        Ty::Variant(cases) => {
            let case = le_value(flat.subrange(0, disc_width(cases@.len()) as int));
            if case >= cases@.len() {
                Err(LiftError::InvalidDiscriminant)
            } else {
                match cases@[case as int].payload {
                    None => Ok(Val::Variant(case as u32, None)),
                    Some(inner_ty) => {
                        let start = payload_offset(t.layouts, cases@);
                        match lift_spec(
                            t,
                            r,
                            inner_ty,
                            flat.subrange(start as int, (start + size_of(t.layouts, inner_ty)) as int),
                            mem,
                            limit,
                        ) {
                            Ok(inner) => Ok(Val::Variant(case as u32, Some(Box::new(inner)))),
                            Err(e) => Err(e),
                        }
                    },
                }
            }
        },
        _ => match scalar_val(ty, le_value(flat.subrange(0, size_of(t.layouts, ty) as int))) {
            Some(v) => Ok(v),
            None => Err(LiftError::InvalidScalar),
        },
    }
}

/// The first `n` elements of the list that starts at `base` in `mem`; what
/// they point to lies below `base`.
pub open spec fn lift_items(t: Types, elem: Ty, mem: Seq<u8>, base: nat, n: nat, limit: nat)
    -> Result<Seq<Val>, LiftError>
    decreases limit, t.top() + 1, elem, n,
{
    if n == 0 {
        Ok(Seq::empty())
    } else {
        let size = size_of(t.layouts, elem);
        match lift_items(t, elem, mem, base, (n - 1) as nat, limit) {
            Ok(before) => match lift_spec(
                t,
                t.top(),
                elem,
                mem.subrange(base + (n - 1) * size, (base + n * size) as int),
                mem,
                limit,
            ) {
                Ok(v) => Ok(before.push(v)),
                Err(e) => Err(e),
            },
            Err(e) => Err(e),
        }
    }
}

/// The first `n` fields of the record that `flat` encodes.
pub open spec fn lift_fields(
    t: Types,
    r: nat,
    fields: Seq<Field>,
    n: nat,
    flat: Seq<u8>,
    mem: Seq<u8>,
    limit: nat,
) -> Result<Seq<Val>, LiftError>
    decreases limit, r, fields, n,
{
    if n == 0 || n > fields.len() {
        Ok(Seq::empty())
    } else {
        match lift_fields(t, r, fields, (n - 1) as nat, flat, mem, limit) {
            Ok(before) => {
                let start = field_offset(t.layouts, fields, (n - 1) as nat);
                match lift_spec(
                    t,
                    r,
                    fields[n - 1].ty,
                    flat.subrange(start as int, (start + size_of(t.layouts, fields[n - 1].ty)) as int),
                    mem,
                    limit,
                ) {
                    Ok(v) => Ok(before.push(v)),
                    Err(e) => Err(e),
                }
            },
            Err(e) => Err(e),
        }
    }
}

/// A value is of a type: a leaf value has bits under the type, a string is a
/// string, a list holds elements of the element type, a record holds one
/// value of each field's type, and a variant names a case and carries a
/// payload exactly where the case has one, of the payload's type.
pub open spec fn has_type(t: Types, r: nat, ty: Ty, v: Val) -> bool
    decreases v, r,
{
    match ty {
        Ty::Ref(j) => j < t.defs.len() && t.rank[j as int] < r && has_type(
            t,
            t.rank[j as int] as nat,
            t.defs[j as int],
            v,
        ),
        Ty::Str => v is Str,
        Ty::List(elem) => v is List && forall|i: int|
            0 <= i < v->List_0.len() ==> has_type(t, t.top(), *elem, #[trigger] v->List_0[i]),
        Ty::Record(fields) => v is Record && v->Record_0.len() == fields@.len() && forall|i: int|
            0 <= i < v->Record_0.len() ==> has_type(
                t,
                r,
                fields@[i].ty,
                #[trigger] v->Record_0[i],
            ),
        Ty::Variant(cases) => v is Variant && v->Variant_0 < cases@.len() && match (
            cases@[v->Variant_0 as int].payload,
            v->Variant_1,
        ) {
            (None, None) => true,
            (Some(inner_ty), Some(inner)) => has_type(t, r, inner_ty, *inner),
            _ => false,
        },
        _ => scalar_bits(ty, v) is Some,
    }
}

} // verus!

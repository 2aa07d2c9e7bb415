//! Lifting: from flat bytes and linear memory back to a logical value.

use crate::abi::bytes::{get_le, lemma_le_value_bound, lemma_pow256_values};
use crate::abi::layout::{
    disc_bytes, layout, lemma_case_within, lemma_def_wf, lemma_fields_prefix,
    lemma_layout_facts, lemma_ty_wf_mono,
};
use crate::abi::lower::payload_align;
use crate::abi::memory::Memory;
use crate::abi::model::{lift_fields, lift_items, lift_spec, ty_wf, LiftError, Types};
use crate::abi::scalar::{scalar_from_bits, string_from_utf8};
use crate::schema::Schema;
use crate::types::{fields_layout, round_up, size_of, Case, Field, Ty};
use crate::value::{view_all, Val, Value};
use vstd::prelude::*;
use vstd::slice::{slice_subrange, slice_to_vec};

verus! {

/// Once an element fails to lift, so does every longer run of elements.
pub proof fn lemma_lift_items_error(
    t: Types,
    elem: Ty,
    mem: Seq<u8>,
    base: nat,
    i: nat,
    n: nat,
    limit: nat,
)
    requires
        i <= n,
        lift_items(t, elem, mem, base, i, limit) is Err,
    ensures
        lift_items(t, elem, mem, base, n, limit) == lift_items(t, elem, mem, base, i, limit),
    decreases n,
{
    if i < n {
        lemma_lift_items_error(t, elem, mem, base, i, (n - 1) as nat, limit);
    }
}

/// Once a field fails to lift, so does every longer run of fields.
pub proof fn lemma_lift_fields_error(
    t: Types,
    r: nat,
    fields: Seq<Field>,
    i: nat,
    n: nat,
    flat: Seq<u8>,
    mem: Seq<u8>,
    limit: nat,
)
    requires
        i <= n <= fields.len(),
        lift_fields(t, r, fields, i, flat, mem, limit) is Err,
    ensures
        lift_fields(t, r, fields, n, flat, mem, limit) == lift_fields(
            t,
            r,
            fields,
            i,
            flat,
            mem,
            limit,
        ),
    decreases n,
{
    if i < n {
        lemma_lift_fields_error(t, r, fields, i, (n - 1) as nat, flat, mem, limit);
    }
}

/// How the outcome of lifting relates to its model.
pub open spec fn lifted_as(model: Result<Val, LiftError>, res: Result<Value, LiftError>) -> bool {
    match model {
        Ok(v) => res is Ok && res->Ok_0@ == v,
        Err(e) => res == Err::<Value, LiftError>(e),
    }
}

/// Lifts the value of type `ty` whose flat bytes start at `off` in `buf`.
fn lift_from(
    schema: &Schema,
    Ghost(r): Ghost<nat>,
    ty: &Ty,
    buf: &[u8],
    off: usize,
    mem: &[u8],
    limit: usize,
) -> (res: Result<Value, LiftError>)
    requires
        schema.wf(),
        ty_wf(schema@, r, *ty),
        r <= schema@.top(),
        off + size_of(schema@.layouts, *ty) <= buf@.len(),
        limit <= mem@.len(),
    ensures
        lifted_as(
            lift_spec(
                schema@,
                r,
                *ty,
                buf@.subrange(off as int, off + size_of(schema@.layouts, *ty)),
                mem@,
                limit as nat,
            ),
            res,
        ),
    decreases limit, r, ty, 1nat,
{
    let ghost t = schema@;
    let ghost flat = buf@.subrange(off as int, off + size_of(t.layouts, *ty));
    let buf_len: usize = buf.len();
    proof {
        schema.lemma_wf();
        lemma_ty_wf_mono(t, r, t.top(), *ty);
        lemma_layout_facts(t, r, *ty);
    }
    match ty {
        Ty::Ref(j) => {
            proof {
                lemma_def_wf(t, *j as int);
            }
            lift_from(
                schema,
                Ghost(t.rank[*j as int] as nat),
                schema.def(*j),
                buf,
                off,
                mem,
                limit,
            )
        },
        Ty::Str => {
            let ptr: u64 = get_le(buf, off, 4);
            let len: u64 = get_le(buf, off + 4, 4);
            proof {
                assert(flat.subrange(0, 4) =~= buf@.subrange(off as int, off + 4));
                assert(flat.subrange(4, 8) =~= buf@.subrange(off + 4, off + 8));
                lemma_le_value_bound(flat.subrange(0, 4));
                lemma_le_value_bound(flat.subrange(4, 8));
                lemma_pow256_values();
            }
            if len == 0 {
                let empty = String::new();
                assert(empty@ =~= Seq::<char>::empty());
                Ok(Value::Str(empty))
            } else if ptr + len > limit as u64 {
                Err(LiftError::OutOfBounds)
            } else {
                let bytes = slice_to_vec(slice_subrange(mem, ptr as usize, (ptr + len) as usize));
                match string_from_utf8(bytes) {
                    Some(s) => Ok(Value::Str(s)),
                    None => Err(LiftError::InvalidUtf8),
                }
            }
        },
        Ty::List(elem) => lift_list(schema, Ghost(r), ty, &**elem, buf, off, mem, limit),
        Ty::Record(fields) => lift_record(schema, Ghost(r), ty, fields, buf, off, mem, limit),
        Ty::Variant(cases) => lift_variant(schema, Ghost(r), ty, cases, buf, off, mem, limit),
        _ => {
            let own = layout(schema, ty);
            let bits: u64 = get_le(buf, off, own.size as usize);
            proof {
                assert(flat.subrange(0, own.size as int) =~= flat);
                lemma_le_value_bound(flat);
                lemma_pow256_values();
            }
            match scalar_from_bits(ty, bits) {
                Some(v) => Ok(v),
                None => Err(LiftError::InvalidScalar),
            }
        },
    }
}

/// Lifts a list: reads the pointer and the number of elements, then each
/// element from linear memory; what the elements point to must lie below
/// the list itself.
#[verifier::loop_isolation(false)]
fn lift_list(
    schema: &Schema,
    Ghost(r): Ghost<nat>,
    ty: &Ty,
    elem: &Ty,
    buf: &[u8],
    off: usize,
    mem: &[u8],
    limit: usize,
) -> (res: Result<Value, LiftError>)
    requires
        schema.wf(),
        *ty is List,
        *(ty->List_0) == *elem,
        ty_wf(schema@, schema@.top(), *elem),
        off + 8 <= buf@.len(),
        limit <= mem@.len(),
    ensures
        lifted_as(
            lift_spec(schema@, r, *ty, buf@.subrange(off as int, off + 8), mem@, limit as nat),
            res,
        ),
    decreases limit, r, ty, 0nat,
{
    let ghost t = schema@;
    let ghost flat = buf@.subrange(off as int, off + 8);
    let buf_len: usize = buf.len();
    let ptr: u64 = get_le(buf, off, 4);
    let count: u64 = get_le(buf, off + 4, 4);
    proof {
        schema.lemma_wf();
        assert(flat.subrange(0, 4) =~= buf@.subrange(off as int, off + 4));
        assert(flat.subrange(4, 8) =~= buf@.subrange(off + 4, off + 8));
        lemma_le_value_bound(flat.subrange(0, 4));
        lemma_le_value_bound(flat.subrange(4, 8));
        lemma_pow256_values();
    }
    let own = layout(schema, elem);
    let mut items: Vec<Value> = Vec::new();
    if count == 0 {
        assert(view_all(items@) =~= Seq::<Val>::empty());
        return Ok(Value::List(items));
    }
    let size: u64 = own.size as u64;
    assert(count * size <= 0xffff_ffff * 0xffff_ffff && count * size >= 1) by (nonlinear_arith)
        requires
            1 <= count <= 0xffff_ffff,
            1 <= size <= 0xffff_ffff,
    ;
    let total: u64 = count * size;
    if total > limit as u64 || ptr > limit as u64 - total {
        return Err(LiftError::OutOfBounds);
    }
    if round_up(ptr, own.align) != ptr {
        return Err(LiftError::Misaligned);
    }
    let base: usize = ptr as usize;
    let mut at: usize = base;
    let mut i: u64 = 0;
    assert(view_all(items@) =~= Seq::<Val>::empty());
    while i < count
        invariant
            i <= count,
            at == base + i * size,
            at + (count - i) * size == base + total,
            lift_items(t, *elem, mem@, base as nat, i as nat, base as nat) == Ok::<
                Seq<Val>,
                LiftError,
            >(view_all(items@)),
        decreases count - i,
    {
        proof {
            assert((i + 1) * size == i * size + size) by (nonlinear_arith);
            assert((count - i) * size == (count - i - 1) * size + size) by (nonlinear_arith);
            assert((count - i - 1) * size >= 0) by (nonlinear_arith)
                requires
                    i < count,
                    size >= 1,
            ;
        }
        let ghost before = view_all(items@);
        let res = lift_from(schema, Ghost(t.top()), elem, mem, at, mem, base);
        match res {
            Err(e) => {
                proof {
                    lemma_lift_items_error(
                        t,
                        *elem,
                        mem@,
                        base as nat,
                        (i + 1) as nat,
                        count as nat,
                        base as nat,
                    );
                }
                return Err(e);
            },
            Ok(v) => {
                items.push(v);
                assert(view_all(items@) =~= before.push(v@));
            },
        }
        at = at + size as usize;
        i = i + 1;
    }
    Ok(Value::List(items))
}

/// Lifts a record: each field from its offset.
#[verifier::loop_isolation(false)]
#[verifier::rlimit(60)]
fn lift_record(
    schema: &Schema,
    Ghost(r): Ghost<nat>,
    ty: &Ty,
    fields: &Vec<Field>,
    buf: &[u8],
    off: usize,
    mem: &[u8],
    limit: usize,
) -> (res: Result<Value, LiftError>)
    requires
        schema.wf(),
        *ty is Record,
        ty->Record_0 == *fields,
        ty_wf(schema@, r, *ty),
        r <= schema@.top(),
        off + size_of(schema@.layouts, *ty) <= buf@.len(),
        limit <= mem@.len(),
    ensures
        lifted_as(
            lift_spec(
                schema@,
                r,
                *ty,
                buf@.subrange(off as int, off + size_of(schema@.layouts, *ty)),
                mem@,
                limit as nat,
            ),
            res,
        ),
    decreases limit, r, ty, 0nat,
{
    let ghost t = schema@;
    let ghost flat = buf@.subrange(off as int, off + size_of(t.layouts, *ty));
    let buf_len: usize = buf.len();
    proof {
        schema.lemma_wf();
        lemma_ty_wf_mono(t, r, t.top(), *ty);
        lemma_layout_facts(t, r, *ty);
    }
    let mut vals: Vec<Value> = Vec::new();
    let mut end: u64 = 0;
    let mut i: usize = 0;
    assert(view_all(vals@) =~= Seq::<Val>::empty());
    while i < fields.len()
        invariant
            i <= fields@.len(),
            end as nat == fields_layout(t.layouts, fields@, i as nat).size,
            lift_fields(t, r, fields@, i as nat, flat, mem@, limit as nat) == Ok::<
                Seq<Val>,
                LiftError,
            >(view_all(vals@)),
        decreases fields@.len() - i,
    {
        proof {
            assert(decreases_to!(*fields => fields[i as int]));
            assert(ty_wf(t, r, fields@[i as int].ty));
            lemma_ty_wf_mono(t, r, t.top(), fields@[i as int].ty);
            lemma_fields_prefix(t.layouts, fields@, (i + 1) as nat, fields@.len());
        }
        let own = layout(schema, &fields[i].ty);
        let start: u64 = round_up(end, own.align);
        let ghost before = view_all(vals@);
        proof {
            assert(flat.subrange(start as int, start + own.size) =~= buf@.subrange(
                off + start,
                off + start + own.size,
            ));
        }
        let res = lift_from(
            schema,
            Ghost(r),
            &fields[i].ty,
            buf,
            off + start as usize,
            mem,
            limit,
        );
        match res {
            Err(e) => {
                proof {
                    lemma_lift_fields_error(
                        t,
                        r,
                        fields@,
                        (i + 1) as nat,
                        fields@.len(),
                        flat,
                        mem@,
                        limit as nat,
                    );
                }
                return Err(e);
            },
            Ok(v) => {
                vals.push(v);
                assert(view_all(vals@) =~= before.push(v@));
            },
        }
        end = start + own.size as u64;
        i = i + 1;
    }
    Ok(Value::Record(vals))
}

/// Lifts a variant: the discriminant, then the payload of the case it names.
fn lift_variant(
    schema: &Schema,
    Ghost(r): Ghost<nat>,
    ty: &Ty,
    cases: &Vec<Case>,
    buf: &[u8],
    off: usize,
    mem: &[u8],
    limit: usize,
) -> (res: Result<Value, LiftError>)
    requires
        schema.wf(),
        *ty is Variant,
        ty->Variant_0 == *cases,
        ty_wf(schema@, r, *ty),
        r <= schema@.top(),
        off + size_of(schema@.layouts, *ty) <= buf@.len(),
        limit <= mem@.len(),
    ensures
        lifted_as(
            lift_spec(
                schema@,
                r,
                *ty,
                buf@.subrange(off as int, off + size_of(schema@.layouts, *ty)),
                mem@,
                limit as nat,
            ),
            res,
        ),
    decreases limit, r, ty, 0nat,
{
    let ghost t = schema@;
    let ghost flat = buf@.subrange(off as int, off + size_of(t.layouts, *ty));
    let buf_len: usize = buf.len();
    proof {
        schema.lemma_wf();
        lemma_ty_wf_mono(t, r, t.top(), *ty);
        lemma_layout_facts(t, r, *ty);
    }
    let width: u32 = disc_bytes(cases.len());
    let case: u64 = get_le(buf, off, width as usize);
    proof {
        assert(flat.subrange(0, width as int) =~= buf@.subrange(off as int, off + width));
    }
    if case >= cases.len() as u64 {
        return Err(LiftError::InvalidDiscriminant);
    }
    let c: usize = case as usize;
    proof {
        assert(decreases_to!(*cases => cases[c as int]));
    }
    match &cases[c].payload {
        None => Ok(Value::Variant(case as u32, None)),
        Some(inner_ty) => {
            proof {
                assert(ty_wf(t, r, cases@[c as int].payload->Some_0));
                lemma_ty_wf_mono(t, r, t.top(), *inner_ty);
                lemma_case_within(t.layouts, cases@, c as int);
                assert forall|k: int| 0 <= k < cases@.len() implies match (
                #[trigger] cases@[k]).payload {
                    Some(p) => ty_wf(t, t.top(), p),
                    None => true,
                } by {
                    match cases@[k].payload {
                        Some(p) => {
                            lemma_ty_wf_mono(t, r, t.top(), p);
                        },
                        None => {},
                    }
                }
            }
            let start: u64 = round_up(width as u64, payload_align(schema, cases));
            let own = layout(schema, inner_ty);
            proof {
                assert(flat.subrange(start as int, start + own.size) =~= buf@.subrange(
                    off + start,
                    off + start + own.size,
                ));
            }
            match lift_from(schema, Ghost(r), inner_ty, buf, off + start as usize, mem, limit) {
                Ok(v) => Ok(Value::Variant(case as u32, Some(Box::new(v)))),
                Err(e) => Err(e),
            }
        },
    }
}

/// Lifts the value of type `ty` that the bytes `flat` encode, reading the
/// strings and lists they point to from `mem`.
///
/// Bytes of `flat` beyond the size of `ty` are not looked at; fewer than
/// that size are out of bounds.
pub fn lift(schema: &Schema, ty: &Ty, flat: &[u8], mem: &Memory) -> (res: Result<Value, LiftError>)
    requires
        schema.wf(),
        ty_wf(schema@, schema@.top(), *ty),
        mem.wf(),
    ensures
        flat@.len() < size_of(schema@.layouts, *ty) ==> res == Err::<Value, LiftError>(
            LiftError::OutOfBounds,
        ),
        flat@.len() >= size_of(schema@.layouts, *ty) ==> lifted_as(
            lift_spec(
                schema@,
                schema@.top(),
                *ty,
                flat@.subrange(0, size_of(schema@.layouts, *ty) as int),
                mem@,
                mem@.len(),
            ),
            res,
        ),
{
    let own = layout(schema, ty);
    if flat.len() < own.size as usize {
        return Err(LiftError::OutOfBounds);
    }
    let bytes = mem.as_slice();
    lift_from(schema, Ghost(schema@.top()), ty, flat, 0, bytes, bytes.len())
}

} // verus!

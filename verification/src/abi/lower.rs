//! Lowering: from a logical value to its flat bytes, with strings and lists
//! appended to linear memory.

use crate::abi::bytes::{le_bytes, lemma_le_bytes_len, put_le, zeros};
use crate::abi::layout::{
    disc_bytes, layout, lemma_case_within, lemma_def_wf, lemma_fields_prefix,
    lemma_layout_facts, lemma_ty_wf_mono,
};
use crate::abi::memory::Memory;
use crate::abi::model::{
    lower_fields, lower_items, lower_spec, ty_wf, LowerError, Lowered, Types,
};
use crate::abi::scalar::{pad_zeros, scalar_to_bits};
use crate::schema::Schema;
use crate::types::{cases_layout, fields_layout, is_align, round_up, size_of, Case, Field, Ty};
use crate::value::{view_all, Val, Value};
use vstd::prelude::*;
use vstd::string::StringSliceAdditionalSpecFns;

verus! {

/// Once an element fails to lower, so does every longer run of elements.
pub proof fn lemma_items_error(
    t: Types,
    elem: Ty,
    items: Seq<Val>,
    i: nat,
    n: nat,
    mem: Seq<u8>,
    cap: nat,
)
    requires
        i <= n <= items.len(),
        lower_items(t, elem, items, i, mem, cap) is Err,
    ensures
        lower_items(t, elem, items, n, mem, cap) == lower_items(t, elem, items, i, mem, cap),
    decreases n,
{
    if i < n {
        lemma_items_error(t, elem, items, i, (n - 1) as nat, mem, cap);
    }
}

/// Once a field fails to lower, so does every longer run of fields.
pub proof fn lemma_fields_error(
    t: Types,
    r: nat,
    fields: Seq<Field>,
    vals: Seq<Val>,
    i: nat,
    n: nat,
    mem: Seq<u8>,
    cap: nat,
)
    requires
        i <= n <= vals.len(),
        n <= fields.len(),
        lower_fields(t, r, fields, vals, i, mem, cap) is Err,
    ensures
        lower_fields(t, r, fields, vals, n, mem, cap) == lower_fields(
            t,
            r,
            fields,
            vals,
            i,
            mem,
            cap,
        ),
    decreases n,
{
    if i < n {
        lemma_fields_error(t, r, fields, vals, i, (n - 1) as nat, mem, cap);
    }
}

/// An extension of an extension of a memory extends that memory.
pub proof fn lemma_prefix_trans(a: Seq<u8>, b: Seq<u8>, c: Seq<u8>)
    requires
        a.is_prefix_of(b),
        b.is_prefix_of(c),
    ensures
        a.is_prefix_of(c),
{
    assert(a =~= c.subrange(0, a.len() as int));
}

/// The alignment of the widest payload of a variant.
pub fn payload_align(schema: &Schema, cases: &Vec<Case>) -> (align: u32)
    requires
        schema.wf(),
        forall|k: int|
            0 <= k < cases@.len() ==> match (#[trigger] cases@[k]).payload {
                Some(payload) => ty_wf(schema@, schema@.top(), payload),
                None => true,
            },
    ensures
        align as nat == cases_layout(schema@.layouts, cases@, cases@.len()).align,
        is_align(align as nat),
{
    let mut align: u32 = 1;
    let mut i: usize = 0;
    while i < cases.len()
        invariant
            schema.wf(),
            i <= cases@.len(),
            forall|k: int|
                0 <= k < cases@.len() ==> match (#[trigger] cases@[k]).payload {
                    Some(payload) => ty_wf(schema@, schema@.top(), payload),
                    None => true,
                },
            align as nat == cases_layout(schema@.layouts, cases@, i as nat).align,
            is_align(align as nat),
        decreases cases@.len() - i,
    {
        match &cases[i].payload {
            Some(payload) => {
                let own = layout(schema, payload);
                if own.align > align {
                    align = own.align;
                }
            },
            None => {},
        }
        i = i + 1;
    }
    align
}

/// How the outcome of lowering relates to its model: on success the flat
/// bytes were appended to the output and memory is as the model says.
pub open spec fn lowered_as(
    model: Result<Lowered, LowerError>,
    res: Result<(), LowerError>,
    out0: Seq<u8>,
    out1: Seq<u8>,
    mem1: Seq<u8>,
    size: nat,
) -> bool {
    match model {
        Ok(low) => res is Ok && out1 == out0 + low.flat && mem1 == low.mem && low.flat.len()
            == size,
        Err(e) => res == Err::<(), LowerError>(e),
    }
}

/// Lowers `value` as a `ty`, appending its flat bytes to `out`.
fn lower_into(
    schema: &Schema,
    Ghost(r): Ghost<nat>,
    ty: &Ty,
    value: &Value,
    mem: &mut Memory,
    out: &mut Vec<u8>,
) -> (res: Result<(), LowerError>)
    requires
        schema.wf(),
        ty_wf(schema@, r, *ty),
        r <= schema@.top(),
        old(mem).wf(),
    ensures
        final(mem).wf(),
        final(mem).capacity() == old(mem).capacity(),
        old(mem)@.is_prefix_of(final(mem)@),
        lowered_as(
            lower_spec(schema@, r, *ty, value@, old(mem)@, old(mem).capacity()),
            res,
            old(out)@,
            final(out)@,
            final(mem)@,
            size_of(schema@.layouts, *ty),
        ),
    decreases value, r, 1nat,
{
    let ghost t = schema@;
    let ghost out0 = out@;
    proof {
        schema.lemma_wf();
        lemma_ty_wf_mono(t, r, t.top(), *ty);
        lemma_layout_facts(t, r, *ty);
    }
    match ty {
        Ty::Ref(j) => {
            proof {
                lemma_def_wf(t, *j as int);
            }
            lower_into(schema, Ghost(t.rank[*j as int] as nat), schema.def(*j), value, mem, out)
        },
        Ty::Str => match value {
            Value::Str(s) => {
                let bytes = s.as_str().as_bytes();
                match mem.place(bytes, 1, bytes.len()) {
                    Ok(ptr) => {
                        put_le(out, ptr as u64, 4);
                        put_le(out, bytes.len() as u64, 4);
                        proof {
                            let a = le_bytes(ptr as nat, 4);
                            let b = le_bytes(bytes@.len(), 4);
                            lemma_le_bytes_len(ptr as nat, 4);
                            lemma_le_bytes_len(bytes@.len(), 4);
                            assert(out@ =~= out0 + (a + b));
                        }
                        Ok(())
                    },
                    Err(e) => Err(e),
                }
            },
            _ => Err(LowerError::TypeMismatch),
        },
        Ty::List(elem) => match value {
            Value::List(items) => lower_list(schema, Ghost(r), ty, &**elem, value, items, mem, out),
            _ => Err(LowerError::TypeMismatch),
        },
        Ty::Record(fields) => match value {
            Value::Record(vals) => lower_record(schema, Ghost(r), ty, fields, value, vals, mem, out),
            _ => Err(LowerError::TypeMismatch),
        },
        Ty::Variant(cases) => match value {
            Value::Variant(case, payload) => lower_variant(
                schema,
                Ghost(r),
                ty,
                cases,
                value,
                *case,
                payload,
                mem,
                out,
            ),
            _ => Err(LowerError::TypeMismatch),
        },
        _ => match scalar_to_bits(ty, value) {
            Some(bits) => {
                let own = layout(schema, ty);
                put_le(out, bits, own.size as usize);
                proof {
                    lemma_le_bytes_len(bits as nat, own.size as nat);
                }
                Ok(())
            },
            None => Err(LowerError::TypeMismatch),
        },
    }
}

/// Lowers a list: its elements side by side into linear memory, then the
/// pointer to them and their number.
#[verifier::loop_isolation(false)]
fn lower_list(
    schema: &Schema,
    Ghost(r): Ghost<nat>,
    ty: &Ty,
    elem: &Ty,
    value: &Value,
    items: &Vec<Value>,
    mem: &mut Memory,
    out: &mut Vec<u8>,
) -> (res: Result<(), LowerError>)
    requires
        schema.wf(),
        *ty is List,
        *(ty->List_0) == *elem,
        *value is List,
        value->List_0 == *items,
        ty_wf(schema@, schema@.top(), *elem),
        old(mem).wf(),
    ensures
        final(mem).wf(),
        final(mem).capacity() == old(mem).capacity(),
        old(mem)@.is_prefix_of(final(mem)@),
        lowered_as(
            lower_spec(schema@, r, *ty, value@, old(mem)@, old(mem).capacity()),
            res,
            old(out)@,
            final(out)@,
            final(mem)@,
            8,
        ),
    decreases value, r, 0nat,
{
    let ghost t = schema@;
    let ghost cap = mem.capacity();
    let ghost mem0 = mem@;
    let ghost out0 = out@;
    let ghost vals = view_all(items@);
    let own = layout(schema, elem);
    let mut region: Vec<u8> = Vec::new();
    let mut i: usize = 0;
    while i < items.len()
        invariant
            mem.wf(),
            mem.capacity() == cap,
            mem0.is_prefix_of(mem@),
            i <= items@.len(),
            out@ == out0,
            lower_items(t, *elem, vals, i as nat, mem0, cap) == Ok::<Lowered, LowerError>(
                Lowered { flat: region@, mem: mem@ },
            ),
        decreases items@.len() - i,
    {
        proof {
            assert(decreases_to!(*items => items[i as int]));
            assert(vals[i as int] == items[i as int]@);
        }
        let ghost mem_before = mem@;
        let res = lower_into(schema, Ghost(t.top()), elem, &items[i], mem, &mut region);
        proof {
            lemma_prefix_trans(mem0, mem_before, mem@);
        }
        match res {
            Err(e) => {
                proof {
                    lemma_items_error(t, *elem, vals, (i + 1) as nat, vals.len(), mem0, cap);
                }
                return Err(e);
            },
            Ok(_) => {},
        }
        i = i + 1;
    }
    let ghost mem_before = mem@;
    match mem.place(region.as_slice(), own.align, items.len()) {
        Ok(ptr) => {
            put_le(out, ptr as u64, 4);
            put_le(out, items.len() as u64, 4);
            proof {
                let a = le_bytes(ptr as nat, 4);
                let b = le_bytes(items@.len(), 4);
                lemma_le_bytes_len(ptr as nat, 4);
                lemma_le_bytes_len(items@.len(), 4);
                assert(out@ =~= out0 + (a + b));
                assert(mem_before.is_prefix_of(mem@));
                lemma_prefix_trans(mem0, mem_before, mem@);
            }
            Ok(())
        },
        Err(e) => Err(e),
    }
}

/// Lowers a record: each field at its offset, zero bytes in between and
/// behind the last one up to the record's size.
#[verifier::loop_isolation(false)]
fn lower_record(
    schema: &Schema,
    Ghost(r): Ghost<nat>,
    ty: &Ty,
    fields: &Vec<Field>,
    value: &Value,
    vals: &Vec<Value>,
    mem: &mut Memory,
    out: &mut Vec<u8>,
) -> (res: Result<(), LowerError>)
    requires
        schema.wf(),
        *ty is Record,
        ty->Record_0 == *fields,
        *value is Record,
        value->Record_0 == *vals,
        ty_wf(schema@, r, *ty),
        r <= schema@.top(),
        old(mem).wf(),
    ensures
        final(mem).wf(),
        final(mem).capacity() == old(mem).capacity(),
        old(mem)@.is_prefix_of(final(mem)@),
        lowered_as(
            lower_spec(schema@, r, *ty, value@, old(mem)@, old(mem).capacity()),
            res,
            old(out)@,
            final(out)@,
            final(mem)@,
            size_of(schema@.layouts, *ty),
        ),
    decreases value, r, 0nat,
{
    let ghost t = schema@;
    let ghost cap = mem.capacity();
    let ghost mem0 = mem@;
    let ghost out0 = out@;
    let ghost vs = view_all(vals@);
    proof {
        schema.lemma_wf();
        lemma_ty_wf_mono(t, r, t.top(), *ty);
    }
    if vals.len() != fields.len() {
        return Err(LowerError::TypeMismatch);
    }
    let whole = layout(schema, ty);
    let ghost mut acc: Seq<u8> = Seq::empty();
    let mut end: u64 = 0;
    let mut i: usize = 0;
    assert(out@ =~= out0 + acc);
    while i < fields.len()
        invariant
            mem.wf(),
            mem.capacity() == cap,
            mem0.is_prefix_of(mem@),
            i <= fields@.len(),
            out@ == out0 + acc,
            acc.len() == end,
            end as nat == fields_layout(t.layouts, fields@, i as nat).size,
            lower_fields(t, r, fields@, vs, i as nat, mem0, cap) == Ok::<Lowered, LowerError>(
                Lowered { flat: acc, mem: mem@ },
            ),
        decreases fields@.len() - i,
    {
        proof {
            assert(decreases_to!(*vals => vals[i as int]));
            assert(vs[i as int] == vals[i as int]@);
            assert(ty_wf(t, r, fields@[i as int].ty));
            lemma_ty_wf_mono(t, r, t.top(), fields@[i as int].ty);
            lemma_fields_prefix(t.layouts, fields@, (i + 1) as nat, fields@.len());
        }
        let own = layout(schema, &fields[i].ty);
        let start: u64 = round_up(end, own.align);
        pad_zeros(out, (start - end) as usize);
        let ghost mem_before = mem@;
        let res = lower_into(schema, Ghost(r), &fields[i].ty, &vals[i], mem, out);
        proof {
            lemma_prefix_trans(mem0, mem_before, mem@);
        }
        match res {
            Err(e) => {
                proof {
                    lemma_fields_error(t, r, fields@, vs, (i + 1) as nat, vs.len(), mem0, cap);
                }
                return Err(e);
            },
            Ok(_) => {},
        }
        proof {
            let low = lower_spec(t, r, fields@[i as int].ty, vs[i as int], mem_before, cap)->Ok_0;
            let next = acc + zeros(start - end) + low.flat;
            assert(out@ =~= out0 + next);
            acc = next;
        }
        end = start + own.size as u64;
        i = i + 1;
    }
    pad_zeros(out, (whole.size as u64 - end) as usize);
    proof {
        assert(out@ =~= out0 + (acc + zeros(whole.size - end)));
    }
    Ok(())
}

/// Lowers a variant: the discriminant, then the payload of the case at the
/// offset that suits every case, zero bytes elsewhere.
fn lower_variant(
    schema: &Schema,
    Ghost(r): Ghost<nat>,
    ty: &Ty,
    cases: &Vec<Case>,
    value: &Value,
    case: u32,
    payload: &Option<Box<Value>>,
    mem: &mut Memory,
    out: &mut Vec<u8>,
) -> (res: Result<(), LowerError>)
    requires
        schema.wf(),
        *ty is Variant,
        ty->Variant_0 == *cases,
        *value is Variant,
        value->Variant_0 == case,
        value->Variant_1 == *payload,
        ty_wf(schema@, r, *ty),
        r <= schema@.top(),
        old(mem).wf(),
    ensures
        final(mem).wf(),
        final(mem).capacity() == old(mem).capacity(),
        old(mem)@.is_prefix_of(final(mem)@),
        lowered_as(
            lower_spec(schema@, r, *ty, value@, old(mem)@, old(mem).capacity()),
            res,
            old(out)@,
            final(out)@,
            final(mem)@,
            size_of(schema@.layouts, *ty),
        ),
    decreases value, r, 0nat,
{
    let ghost t = schema@;
    let ghost cap = mem.capacity();
    let ghost mem0 = mem@;
    let ghost out0 = out@;
    proof {
        schema.lemma_wf();
        lemma_ty_wf_mono(t, r, t.top(), *ty);
    }
    let c: usize = case as usize;
    if c >= cases.len() {
        return Err(LowerError::TypeMismatch);
    }
    let whole = layout(schema, ty);
    let width: u32 = disc_bytes(cases.len());
    let ghost disc = le_bytes(c as nat, width as nat);
    proof {
        lemma_le_bytes_len(c as nat, width as nat);
    }
    match (&cases[c].payload, payload) {
        (None, None) => {
            put_le(out, c as u64, width as usize);
            pad_zeros(out, (whole.size - width) as usize);
            proof {
                assert(out@ =~= out0 + (disc + zeros(whole.size - width)));
            }
            Ok(())
        },
        (Some(inner_ty), Some(inner)) => {
            proof {
                assert(ty_wf(t, r, cases@[c as int].payload->Some_0));
                lemma_ty_wf_mono(t, r, t.top(), *inner_ty);
                lemma_case_within(t.layouts, cases@, c as int);
                assert forall|k: int| 0 <= k < cases@.len() implies match (
                #[trigger] cases@[k]).payload {
                    Some(p) => ty_wf(t, t.top(), p),
                    None => true,
                } by {
                    match cases@[k].payload {
                        Some(p) => {
                            lemma_ty_wf_mono(t, r, t.top(), p);
                        },
                        None => {},
                    }
                }
            }
            let start: u64 = round_up(width as u64, payload_align(schema, cases));
            let own = layout(schema, inner_ty);
            put_le(out, c as u64, width as usize);
            pad_zeros(out, (start - width as u64) as usize);
            let ghost head = out@;
            match lower_into(schema, Ghost(r), inner_ty, inner, mem, out) {
                Ok(_) => {
                    let ghost low = lower_spec(t, r, *inner_ty, (**inner)@, mem0, cap)->Ok_0;
                    pad_zeros(out, (whole.size as u64 - start - own.size as u64) as usize);
                    proof {
                        assert(head =~= out0 + (disc + zeros(start - width)));
                        assert(out@ =~= out0 + (disc + zeros(start - width) + low.flat + zeros(
                            whole.size - start - own.size,
                        )));
                    }
                    Ok(())
                },
                Err(e) => Err(e),
            }
        },
        _ => Err(LowerError::TypeMismatch),
    }
}

/// Lowers `value` as a `ty`: returns its flat bytes and appends the strings
/// and lists inside it to `mem`. On failure `mem` is left as it was.
pub fn lower(schema: &Schema, ty: &Ty, value: &Value, mem: &mut Memory) -> (res: Result<
    Vec<u8>,
    LowerError,
>)
    requires
        schema.wf(),
        ty_wf(schema@, schema@.top(), *ty),
        old(mem).wf(),
    ensures
        final(mem).wf(),
        final(mem).capacity() == old(mem).capacity(),
        match lower_spec(
            schema@,
            schema@.top(),
            *ty,
            value@,
            old(mem)@,
            old(mem).capacity(),
        ) {
            Ok(low) => res is Ok && res->Ok_0@ == low.flat && final(mem)@ == low.mem,
            Err(e) => res == Err::<Vec<u8>, LowerError>(e) && final(mem)@ == old(mem)@,
        },
{
    let mut out: Vec<u8> = Vec::new();
    let used: usize = mem.len();
    match lower_into(schema, Ghost(schema@.top()), ty, value, mem, &mut out) {
        Ok(_) => {
            assert(out@ =~= lower_spec(
                schema@,
                schema@.top(),
                *ty,
                value@,
                old(mem)@,
                old(mem).capacity(),
            )->Ok_0.flat);
            Ok(out)
        },
        Err(e) => {
            mem.truncate(used);
            Err(e)
        },
    }
}

} // verus!

//! What holds of lowering and lifting together: a lowered value is lifted
//! back unchanged, and lowering it again gives the same bytes.

use crate::abi::bytes::{
    le_bytes, le_value, lemma_le_bytes_len, lemma_le_value_of_bytes, lemma_pow256_values, pow256,
    zeros,
};
use crate::abi::layout::{lemma_case_within, lemma_def_wf, lemma_fields_prefix, lemma_layout_facts};
use crate::abi::model::{
    has_type, is_aligned, lift_fields, lift_items, lift_spec, lower_fields, lower_items,
    lower_spec, place, scalar_bits, scalar_val, ty_wf, LiftError, LowerError, Lowered, Types,
};
use crate::abi::scalar::{lemma_two_pow_monotonic, lemma_two_pow_values};
use crate::types::{
    align_of, align_up, disc_width, field_offset, fields_layout, payload_offset, size_of, Field,
    Ty,
};
use crate::value::Val;
use vstd::prelude::*;
use vstd::utf8::{
    char_is_scalar, char_u32_cast, decode_utf8, encode_utf8, encode_utf8_decode_utf8,
    encode_utf8_valid_utf8,
};

verus! {

/// Two memories hold the same bytes below `upto`.
pub open spec fn agree(a: Seq<u8>, b: Seq<u8>, upto: nat) -> bool {
    &&& upto <= a.len()
    &&& upto <= b.len()
    &&& a.subrange(0, upto as int) == b.subrange(0, upto as int)
}

/// Memories that agree below a bound agree on every range below it.
pub proof fn lemma_agree_slice(a: Seq<u8>, b: Seq<u8>, upto: nat, i: int, j: int)
    requires
        agree(a, b, upto),
        0 <= i <= j <= upto,
    ensures
        a.subrange(i, j) == b.subrange(i, j),
{
    assert(a.subrange(i, j) =~= a.subrange(0, upto as int).subrange(i, j));
    assert(b.subrange(i, j) =~= b.subrange(0, upto as int).subrange(i, j));
}

/// Memories that agree below a bound agree below any smaller one.
pub proof fn lemma_agree_shrink(a: Seq<u8>, b: Seq<u8>, upto: nat, less: nat)
    requires
        agree(a, b, upto),
        less <= upto,
    ensures
        agree(a, b, less),
{
    lemma_agree_slice(a, b, upto, 0, less as int);
}

/// A memory agrees with each of its extensions on all it holds.
pub proof fn lemma_prefix_agree(a: Seq<u8>, b: Seq<u8>)
    requires
        a.is_prefix_of(b),
    ensures
        agree(a, b, a.len()),
{
    assert(a.subrange(0, a.len() as int) =~= b.subrange(0, a.len() as int));
}

/// A value of a leaf type is read back from its bits, which fit the type's
/// width.
pub proof fn lemma_scalar_roundtrip(t: Types, ty: Ty, v: Val)
    requires
        scalar_bits(ty, v) is Some,
        ty matches Ty::Flags(n) ==> n <= 64,
    ensures
        scalar_bits(ty, v)->Some_0 < pow256(size_of(t.layouts, ty)),
        scalar_val(ty, scalar_bits(ty, v)->Some_0) == Some(v),
{
    lemma_pow256_values();
    lemma_two_pow_values();
    match (ty, v) {
        (Ty::Char, Val::Char(c)) => {
            char_is_scalar(c);
            char_u32_cast(c, c as u32);
        },
        (Ty::Flags(n), Val::Flags(bits)) => {
            if n <= 8 {
                lemma_two_pow_monotonic(n as nat, 8);
            } else if n <= 16 {
                lemma_two_pow_monotonic(n as nat, 16);
            } else if n <= 32 {
                lemma_two_pow_monotonic(n as nat, 32);
            } else {
                lemma_two_pow_monotonic(n as nat, 64);
            }
        },
        _ => {},
    }
}

/// What `place` returns: eight flat bytes, and memory that starts with the
/// memory given and stays within the capacity.
pub proof fn lemma_place_facts(data: Seq<u8>, align: nat, count: nat, mem: Seq<u8>, cap: nat)
    requires
        place(data, align, count, mem, cap) is Ok,
    ensures
        place(data, align, count, mem, cap)->Ok_0.flat.len() == 8,
        mem.is_prefix_of(place(data, align, count, mem, cap)->Ok_0.mem),
        mem.len() <= cap ==> place(data, align, count, mem, cap)->Ok_0.mem.len() <= cap,
{
    let ptr = align_up(mem.len(), align);
    lemma_le_bytes_len(0, 4);
    lemma_le_bytes_len(ptr, 4);
    lemma_le_bytes_len(count, 4);
    let low = place(data, align, count, mem, cap)->Ok_0;
    assert(mem =~= low.mem.subrange(0, mem.len() as int));
}

/// A lowered value takes as many flat bytes as its type's size, and lowering
/// only appends to memory, within its capacity.
pub proof fn lemma_lower_facts(t: Types, r: nat, ty: Ty, v: Val, mem: Seq<u8>, cap: nat)
    requires
        t.wf(),
        ty_wf(t, r, ty),
        lower_spec(t, r, ty, v, mem, cap) is Ok,
    ensures
        lower_spec(t, r, ty, v, mem, cap)->Ok_0.flat.len() == size_of(t.layouts, ty),
        mem.is_prefix_of(lower_spec(t, r, ty, v, mem, cap)->Ok_0.mem),
        mem.len() <= cap ==> lower_spec(t, r, ty, v, mem, cap)->Ok_0.mem.len() <= cap,
    decreases v, r,
{
    lemma_layout_facts(t, r, ty);
    match ty {
        Ty::Ref(j) => {
            lemma_def_wf(t, j as int);
            lemma_lower_facts(t, t.rank[j as int] as nat, t.defs[j as int], v, mem, cap);
        },
        Ty::Str => {
            let data = encode_utf8(v->Str_0);
            lemma_place_facts(data, 1, data.len(), mem, cap);
        },
        Ty::List(elem) => {
            let items = v->List_0;
            lemma_items_facts(t, *elem, items, items.len(), mem, cap);
            let all = lower_items(t, *elem, items, items.len(), mem, cap)->Ok_0;
            lemma_place_facts(all.flat, align_of(t.layouts, *elem), items.len(), all.mem, cap);
            let low = place(all.flat, align_of(t.layouts, *elem), items.len(), all.mem, cap)->Ok_0;
            assert(mem =~= low.mem.subrange(0, mem.len() as int));
        },
        Ty::Record(fields) => {
            let vals = v->Record_0;
            lemma_fields_lower_facts(t, r, fields@, vals, vals.len(), mem, cap);
        },
        Ty::Variant(cases) => {
            let case = v->Variant_0;
            lemma_le_bytes_len(case as nat, disc_width(cases@.len()));
            match (cases@[case as int].payload, v->Variant_1) {
                (Some(inner_ty), Some(inner)) => {
                    assert(ty_wf(t, r, cases@[case as int].payload->Some_0));
                    lemma_lower_facts(t, r, inner_ty, *inner, mem, cap);
                    lemma_case_within(t.layouts, cases@, case as int);
                },
                _ => {},
            }
        },
        _ => {
            lemma_le_bytes_len(scalar_bits(ty, v)->Some_0, size_of(t.layouts, ty));
        },
    }
}

/// A lowered run of elements takes the elements' sizes side by side, and lowering it only
/// appends to memory, within its capacity.
pub proof fn lemma_items_facts(t: Types, elem: Ty, items: Seq<Val>, n: nat, mem: Seq<u8>, cap: nat)
    requires
        t.wf(),
        ty_wf(t, t.top(), elem),
        n <= items.len(),
        lower_items(t, elem, items, n, mem, cap) is Ok,
    ensures
        lower_items(t, elem, items, n, mem, cap)->Ok_0.flat.len() == n * size_of(t.layouts, elem),
        mem.is_prefix_of(lower_items(t, elem, items, n, mem, cap)->Ok_0.mem),
        mem.len() <= cap ==> lower_items(t, elem, items, n, mem, cap)->Ok_0.mem.len() <= cap,
        n >= 1 ==> lower_items(t, elem, items, (n - 1) as nat, mem, cap) is Ok,
    decreases items, n,
{
    let size = size_of(t.layouts, elem);
    if n > 0 {
        lemma_items_facts(t, elem, items, (n - 1) as nat, mem, cap);
        let before = lower_items(t, elem, items, (n - 1) as nat, mem, cap)->Ok_0;
        lemma_lower_facts(t, t.top(), elem, items[n - 1], before.mem, cap);
        let low = lower_spec(t, t.top(), elem, items[n - 1], before.mem, cap)->Ok_0;
        assert(mem =~= low.mem.subrange(0, mem.len() as int));
        assert(n * size == (n - 1) * size + size) by (nonlinear_arith);
    } else {
        assert(n * size == 0) by (nonlinear_arith)
            requires
                n == 0,
        ;
    }
}

/// A lowered run of fields ends where the layout of the fields says, and lowering it only
/// appends to memory, within its capacity.
pub proof fn lemma_fields_lower_facts(
    t: Types,
    r: nat,
    fields: Seq<Field>,
    vals: Seq<Val>,
    n: nat,
    mem: Seq<u8>,
    cap: nat,
)
    requires
        t.wf(),
        forall|i: int| 0 <= i < fields.len() ==> ty_wf(t, r, (#[trigger] fields[i]).ty),
        n <= vals.len(),
        n <= fields.len(),
        lower_fields(t, r, fields, vals, n, mem, cap) is Ok,
    ensures
        lower_fields(t, r, fields, vals, n, mem, cap)->Ok_0.flat.len() == fields_layout(
            t.layouts,
            fields,
            n,
        ).size,
        mem.is_prefix_of(lower_fields(t, r, fields, vals, n, mem, cap)->Ok_0.mem),
        mem.len() <= cap ==> lower_fields(t, r, fields, vals, n, mem, cap)->Ok_0.mem.len() <= cap,
        n >= 1 ==> lower_fields(t, r, fields, vals, (n - 1) as nat, mem, cap) is Ok,
    decreases vals, n,
{
    if n > 0 {
        lemma_fields_lower_facts(t, r, fields, vals, (n - 1) as nat, mem, cap);
        let before = lower_fields(t, r, fields, vals, (n - 1) as nat, mem, cap)->Ok_0;
        assert(ty_wf(t, r, fields[n - 1].ty));
        lemma_lower_facts(t, r, fields[n - 1].ty, vals[n - 1], before.mem, cap);
        let low = lower_spec(t, r, fields[n - 1].ty, vals[n - 1], before.mem, cap)->Ok_0;
        assert(mem =~= low.mem.subrange(0, mem.len() as int));
    }
}

/// Lifting looks only at memory below its limit: with the same bytes there
/// and a limit that is no smaller, it gives the same value.
pub proof fn lemma_lift_stable(
    t: Types,
    r: nat,
    ty: Ty,
    flat: Seq<u8>,
    mem: Seq<u8>,
    limit: nat,
    mem2: Seq<u8>,
    limit2: nat,
)
    requires
        agree(mem, mem2, limit),
        limit <= limit2,
        lift_spec(t, r, ty, flat, mem, limit) is Ok,
    ensures
        lift_spec(t, r, ty, flat, mem2, limit2) == lift_spec(t, r, ty, flat, mem, limit),
    decreases limit, r, ty, 0nat,
{
    match ty {
        Ty::Ref(j) => {
            lemma_lift_stable(
                t,
                t.rank[j as int] as nat,
                t.defs[j as int],
                flat,
                mem,
                limit,
                mem2,
                limit2,
            );
        },
        Ty::Str => {
            let ptr = le_value(flat.subrange(0, 4));
            let len = le_value(flat.subrange(4, 8));
            if len != 0 {
                lemma_agree_slice(mem, mem2, limit, ptr as int, (ptr + len) as int);
            }
        },
        Ty::List(elem) => {
            let ptr = le_value(flat.subrange(0, 4));
            let count = le_value(flat.subrange(4, 8));
            if count != 0 {
                lemma_lift_items_stable(t, *elem, mem, ptr, count, mem2, limit);
            }
        },
        Ty::Record(fields) => {
            lemma_lift_fields_stable(t, r, fields@, fields@.len(), flat, mem, limit, mem2, limit2);
        },
        Ty::Variant(cases) => {
            let case = le_value(flat.subrange(0, disc_width(cases@.len()) as int));
            match cases@[case as int].payload {
                Some(inner_ty) => {
                    let start = payload_offset(t.layouts, cases@);
                    lemma_lift_stable(
                        t,
                        r,
                        inner_ty,
                        flat.subrange(start as int, (start + size_of(t.layouts, inner_ty)) as int),
                        mem,
                        limit,
                        mem2,
                        limit2,
                    );
                },
                None => {},
            }
        },
        _ => {},
    }
}

/// Lifting the elements of a list looks only at memory below the end of the list.
pub proof fn lemma_lift_items_stable(
    t: Types,
    elem: Ty,
    mem: Seq<u8>,
    base: nat,
    n: nat,
    mem2: Seq<u8>,
    upto: nat,
)
    requires
        agree(mem, mem2, upto),
        base + n * size_of(t.layouts, elem) <= upto,
        lift_items(t, elem, mem, base, n, base) is Ok,
    ensures
        lift_items(t, elem, mem2, base, n, base) == lift_items(t, elem, mem, base, n, base),
    decreases base, t.top() + 1, elem, n,
{
    let size = size_of(t.layouts, elem);
    if n > 0 {
        assert((n - 1) * size + size == n * size) by (nonlinear_arith);
        assert((n - 1) * size >= 0) by (nonlinear_arith)
            requires
                n >= 1,
                size >= 0,
        ;
        lemma_lift_items_stable(t, elem, mem, base, (n - 1) as nat, mem2, upto);
        lemma_agree_slice(mem, mem2, upto, base + (n - 1) * size, (base + n * size) as int);
        lemma_agree_shrink(mem, mem2, upto, base);
        lemma_lift_stable(
            t,
            t.top(),
            elem,
            mem.subrange(base + (n - 1) * size, (base + n * size) as int),
            mem,
            base,
            mem2,
            base,
        );
    }
}

/// Lifting the fields of a record looks only at memory below its limit.
pub proof fn lemma_lift_fields_stable(
    t: Types,
    r: nat,
    fields: Seq<Field>,
    n: nat,
    flat: Seq<u8>,
    mem: Seq<u8>,
    limit: nat,
    mem2: Seq<u8>,
    limit2: nat,
)
    requires
        agree(mem, mem2, limit),
        limit <= limit2,
        lift_fields(t, r, fields, n, flat, mem, limit) is Ok,
    ensures
        lift_fields(t, r, fields, n, flat, mem2, limit2) == lift_fields(
            t,
            r,
            fields,
            n,
            flat,
            mem,
            limit,
        ),
    decreases limit, r, fields, n,
{
    if n > 0 && n <= fields.len() {
        lemma_lift_fields_stable(t, r, fields, (n - 1) as nat, flat, mem, limit, mem2, limit2);
        let start = field_offset(t.layouts, fields, (n - 1) as nat);
        lemma_lift_stable(
            t,
            r,
            fields[n - 1].ty,
            flat.subrange(start as int, (start + size_of(t.layouts, fields[n - 1].ty)) as int),
            mem,
            limit,
            mem2,
            limit2,
        );
    }
}

/// The flat bytes of element `k` among elements of `size` bytes each.
pub open spec fn chunk(flat: Seq<u8>, size: nat, k: int) -> Seq<u8> {
    flat.subrange(k * size, (k + 1) * size)
}

/// The flat bytes of field `k` inside the flat bytes of its record.
pub open spec fn field_flat(named: Seq<crate::types::Layout>, fields: Seq<Field>, flat: Seq<u8>, k: int)
    -> Seq<u8> {
    flat.subrange(
        field_offset(named, fields, k as nat) as int,
        (field_offset(named, fields, k as nat) + size_of(named, fields[k].ty)) as int,
    )
}

/// Products with a common factor keep the order of the other factors.
pub proof fn lemma_mul_le(a: int, b: int, s: nat)
    requires
        a <= b,
    ensures
        a * s <= b * s,
        (a + 1) * s == a * s + s,
{
    assert(a * s <= b * s) by (nonlinear_arith)
        requires
            a <= b,
            s >= 0,
    ;
    assert((a + 1) * s == a * s + s) by (nonlinear_arith);
}

/// A pointer and a count below 2^32 are read back from their eight bytes.
pub proof fn lemma_pair_roundtrip(ptr: nat, count: nat)
    requires
        ptr <= u32::MAX,
        count <= u32::MAX,
    ensures
        le_value((le_bytes(ptr, 4) + le_bytes(count, 4)).subrange(0, 4)) == ptr,
        le_value((le_bytes(ptr, 4) + le_bytes(count, 4)).subrange(4, 8)) == count,
{
    let flat = le_bytes(ptr, 4) + le_bytes(count, 4);
    lemma_pow256_values();
    lemma_le_bytes_len(ptr, 4);
    lemma_le_bytes_len(count, 4);
    lemma_le_value_of_bytes(ptr, 4);
    lemma_le_value_of_bytes(count, 4);
    assert(flat.subrange(0, 4) =~= le_bytes(ptr, 4));
    assert(flat.subrange(4, 8) =~= le_bytes(count, 4));
}

/// Elements that each lift from their chunk of `flat` lift as a list, once
/// `flat` lies in memory at `base` above everything they point to.
pub proof fn lemma_items_lifted(
    t: Types,
    elem: Ty,
    items: Seq<Val>,
    flat: Seq<u8>,
    src: Seq<u8>,
    mem2: Seq<u8>,
    base: nat,
    n: nat,
)
    requires
        n <= items.len(),
        forall|k: int|
            0 <= k < n ==> lift_spec(
                t,
                t.top(),
                elem,
                #[trigger] chunk(flat, size_of(t.layouts, elem), k),
                src,
                src.len(),
            ) == Ok::<Val, LiftError>(items[k]),
        agree(src, mem2, src.len()),
        src.len() <= base,
        base + n * size_of(t.layouts, elem) <= mem2.len(),
        n * size_of(t.layouts, elem) <= flat.len(),
        mem2.subrange(base as int, (base + n * size_of(t.layouts, elem)) as int) == flat.subrange(
            0,
            (n * size_of(t.layouts, elem)) as int,
        ),
    ensures
        lift_items(t, elem, mem2, base, n, base) == Ok::<Seq<Val>, LiftError>(items.take(n as int)),
    decreases n,
{
    let size = size_of(t.layouts, elem);
    if n == 0 {
        assert(items.take(0) =~= Seq::<Val>::empty());
    } else {
        lemma_mul_le(n - 1, n as int, size);
        lemma_mul_le(0, n - 1, size);
        let whole = mem2.subrange(base as int, (base + n * size) as int);
        assert(mem2.subrange(base as int, (base + (n - 1) * size) as int) =~= whole.subrange(
            0,
            (n - 1) * size,
        ));
        assert(flat.subrange(0, (n - 1) * size) =~= flat.subrange(0, (n * size) as int).subrange(
            0,
            (n - 1) * size,
        ));
        lemma_items_lifted(t, elem, items, flat, src, mem2, base, (n - 1) as nat);
        let slice = mem2.subrange(base + (n - 1) * size, (base + n * size) as int);
        assert(slice =~= whole.subrange((n - 1) * size, (n * size) as int));
        assert(chunk(flat, size, n - 1) =~= flat.subrange(0, (n * size) as int).subrange(
            (n - 1) * size,
            (n * size) as int,
        ));
        assert(slice == chunk(flat, size, n - 1));
        lemma_lift_stable(t, t.top(), elem, slice, src, src.len(), mem2, base);
        assert(items.take(n as int) =~= items.take(n - 1).push(items[n - 1]));
    }
}

/// Fields that each lift from their place in `flat` lift as a record.
pub proof fn lemma_fields_lifted(
    t: Types,
    r: nat,
    fields: Seq<Field>,
    vals: Seq<Val>,
    flat: Seq<u8>,
    mem: Seq<u8>,
    limit: nat,
    n: nat,
)
    requires
        n <= vals.len(),
        n <= fields.len(),
        forall|k: int|
            0 <= k < n ==> lift_spec(
                t,
                r,
                fields[k].ty,
                #[trigger] field_flat(t.layouts, fields, flat, k),
                mem,
                limit,
            ) == Ok::<Val, LiftError>(vals[k]),
    ensures
        lift_fields(t, r, fields, n, flat, mem, limit) == Ok::<Seq<Val>, LiftError>(
            vals.take(n as int),
        ),
    decreases n,
{
    if n == 0 {
        assert(vals.take(0) =~= Seq::<Val>::empty());
    } else {
        lemma_fields_lifted(t, r, fields, vals, flat, mem, limit, (n - 1) as nat);
        assert(lift_spec(
            t,
            r,
            fields[n - 1].ty,
            field_flat(t.layouts, fields, flat, n - 1),
            mem,
            limit,
        ) == Ok::<Val, LiftError>(vals[n - 1]));
        assert(vals.take(n as int) =~= vals.take(n - 1).push(vals[n - 1]));
    }
}

/// The value that was lowered is the value that is lifted.
pub proof fn lemma_roundtrip(t: Types, r: nat, ty: Ty, v: Val, mem: Seq<u8>, cap: nat)
    requires
        t.wf(),
        ty_wf(t, r, ty),
        mem.len() <= cap <= u32::MAX,
        lower_spec(t, r, ty, v, mem, cap) is Ok,
    ensures
        lift_spec(
            t,
            r,
            ty,
            lower_spec(t, r, ty, v, mem, cap)->Ok_0.flat,
            lower_spec(t, r, ty, v, mem, cap)->Ok_0.mem,
            lower_spec(t, r, ty, v, mem, cap)->Ok_0.mem.len(),
        ) == Ok::<Val, LiftError>(v),
    decreases v, r, 1nat,
{
    match ty {
        Ty::Ref(j) => {
            lemma_def_wf(t, j as int);
            lemma_roundtrip(t, t.rank[j as int] as nat, t.defs[j as int], v, mem, cap);
        },
        Ty::Str => {
            lemma_roundtrip_str(t, r, ty, v, mem, cap);
        },
        Ty::List(_) => {
            lemma_roundtrip_list(t, r, ty, v, mem, cap);
        },
        Ty::Record(_) => {
            lemma_roundtrip_record(t, r, ty, v, mem, cap);
        },
        Ty::Variant(_) => {
            lemma_roundtrip_variant(t, r, ty, v, mem, cap);
        },
        _ => {
            let low = lower_spec(t, r, ty, v, mem, cap)->Ok_0;
            let bits = scalar_bits(ty, v)->Some_0;
            lemma_scalar_roundtrip(t, ty, v);
            lemma_le_value_of_bytes(bits, size_of(t.layouts, ty));
            lemma_le_bytes_len(bits, size_of(t.layouts, ty));
            assert(low.flat.subrange(0, size_of(t.layouts, ty) as int) =~= low.flat);
        },
    }
}

proof fn lemma_roundtrip_str(t: Types, r: nat, ty: Ty, v: Val, mem: Seq<u8>, cap: nat)
    requires
        ty is Str,
        mem.len() <= cap <= u32::MAX,
        lower_spec(t, r, ty, v, mem, cap) is Ok,
    ensures
        lift_spec(
            t,
            r,
            ty,
            lower_spec(t, r, ty, v, mem, cap)->Ok_0.flat,
            lower_spec(t, r, ty, v, mem, cap)->Ok_0.mem,
            lower_spec(t, r, ty, v, mem, cap)->Ok_0.mem.len(),
        ) == Ok::<Val, LiftError>(v),
{
    let low = lower_spec(t, r, ty, v, mem, cap)->Ok_0;
    let chars = v->Str_0;
    let data = encode_utf8(chars);
    encode_utf8_valid_utf8(chars);
    encode_utf8_decode_utf8(chars);
    if data.len() == 0 {
        lemma_pair_roundtrip(0, 0);
        assert(data =~= Seq::<u8>::empty());
        assert(decode_utf8(Seq::<u8>::empty()) =~= Seq::<char>::empty());
        assert(chars =~= Seq::<char>::empty());
    } else {
        let ptr = mem.len();
        lemma_pair_roundtrip(ptr, data.len());
        assert(low.mem.subrange(ptr as int, (ptr + data.len()) as int) =~= data);
    }
}

proof fn lemma_roundtrip_list(t: Types, r: nat, ty: Ty, v: Val, mem: Seq<u8>, cap: nat)
    requires
        ty is List,
        t.wf(),
        ty_wf(t, r, ty),
        mem.len() <= cap <= u32::MAX,
        lower_spec(t, r, ty, v, mem, cap) is Ok,
    ensures
        lift_spec(
            t,
            r,
            ty,
            lower_spec(t, r, ty, v, mem, cap)->Ok_0.flat,
            lower_spec(t, r, ty, v, mem, cap)->Ok_0.mem,
            lower_spec(t, r, ty, v, mem, cap)->Ok_0.mem.len(),
        ) == Ok::<Val, LiftError>(v),
    decreases v, r, 0nat,
{
    let low = lower_spec(t, r, ty, v, mem, cap)->Ok_0;
    let elem = *(ty->List_0);
    let items = v->List_0;
    let n = items.len();
    let a = align_of(t.layouts, elem);
    let all = lower_items(t, elem, items, n, mem, cap)->Ok_0;
    assert(lower_items(t, elem, items, n, mem, cap) is Ok);
    assert(low == place(all.flat, a, n, all.mem, cap)->Ok_0);
    if n == 0 {
        lemma_pair_roundtrip(0, 0);
        assert(items =~= Seq::<Val>::empty());
    } else {
        let ptr = align_up(all.mem.len(), a);
        lemma_items_roundtrip(t, elem, items, n, mem, cap);
        lemma_placed_items_lift(t, elem, items, mem, cap);
        lemma_pair_roundtrip(ptr, n);
        lemma_list_lifts(t, r, ty, low.flat, low.mem, ptr, n, items);
    }
}

/// Once the bytes of lowered elements are placed in memory, the elements
/// lift from there.
proof fn lemma_placed_items_lift(t: Types, elem: Ty, items: Seq<Val>, mem: Seq<u8>, cap: nat)
    requires
        t.wf(),
        ty_wf(t, t.top(), elem),
        mem.len() <= cap <= u32::MAX,
        items.len() >= 1,
        lower_items(t, elem, items, items.len(), mem, cap) is Ok,
        place(
            lower_items(t, elem, items, items.len(), mem, cap)->Ok_0.flat,
            align_of(t.layouts, elem),
            items.len(),
            lower_items(t, elem, items, items.len(), mem, cap)->Ok_0.mem,
            cap,
        ) is Ok,
        forall|k: int|
            0 <= k < items.len() ==> lift_spec(
                t,
                t.top(),
                elem,
                #[trigger] chunk(
                    lower_items(t, elem, items, items.len(), mem, cap)->Ok_0.flat,
                    size_of(t.layouts, elem),
                    k,
                ),
                lower_items(t, elem, items, items.len(), mem, cap)->Ok_0.mem,
                lower_items(t, elem, items, items.len(), mem, cap)->Ok_0.mem.len(),
            ) == Ok::<Val, LiftError>(items[k]),
    ensures
        ({
            let all = lower_items(t, elem, items, items.len(), mem, cap)->Ok_0;
            let low = place(all.flat, align_of(t.layouts, elem), items.len(), all.mem, cap)->Ok_0;
            let ptr = align_up(all.mem.len(), align_of(t.layouts, elem));
            &&& ptr <= u32::MAX
            &&& items.len() <= u32::MAX
            &&& size_of(t.layouts, elem) >= 1
            &&& low.flat == le_bytes(ptr, 4) + le_bytes(items.len(), 4)
            &&& ptr + items.len() * size_of(t.layouts, elem) == low.mem.len()
            &&& is_aligned(ptr, align_of(t.layouts, elem))
            &&& lift_items(t, elem, low.mem, ptr, items.len(), ptr) == Ok::<Seq<Val>, LiftError>(
                items,
            )
        }),
{
    let n = items.len();
    let size = size_of(t.layouts, elem);
    let a = align_of(t.layouts, elem);
    let all = lower_items(t, elem, items, n, mem, cap)->Ok_0;
    let low = place(all.flat, a, n, all.mem, cap)->Ok_0;
    let ptr = align_up(all.mem.len(), a);
    let total = n * size;
    lemma_items_facts(t, elem, items, n, mem, cap);
    lemma_layout_facts(t, t.top(), elem);
    assert(total >= n && total >= 1) by (nonlinear_arith)
        requires
            total == n * size,
            size >= 1,
            n >= 1,
    ;
    assert(all.flat.len() == total);
    assert(low.mem == all.mem + zeros(ptr - all.mem.len()) + all.flat);
    assert(low.mem.len() == ptr + total);
    assert(is_aligned(ptr, a));
    assert(agree(all.mem, low.mem, all.mem.len())) by {
        assert(all.mem.subrange(0, all.mem.len() as int) =~= low.mem.subrange(
            0,
            all.mem.len() as int,
        ));
    }
    assert(low.mem.subrange(ptr as int, (ptr + total) as int) =~= all.flat.subrange(
        0,
        total as int,
    ));
    lemma_items_lifted(t, elem, items, all.flat, all.mem, low.mem, ptr, n);
    assert(items.take(n as int) =~= items);
}

/// A list lifts to the elements that its region lifts to.
proof fn lemma_list_lifts(
    t: Types,
    r: nat,
    ty: Ty,
    flat: Seq<u8>,
    mem: Seq<u8>,
    ptr: nat,
    n: nat,
    items: Seq<Val>,
)
    requires
        ty is List,
        n >= 1,
        le_value(flat.subrange(0, 4)) == ptr,
        le_value(flat.subrange(4, 8)) == n,
        size_of(t.layouts, *(ty->List_0)) >= 1,
        ptr + n * size_of(t.layouts, *(ty->List_0)) == mem.len(),
        is_aligned(ptr, align_of(t.layouts, *(ty->List_0))),
        lift_items(t, *(ty->List_0), mem, ptr, n, ptr) == Ok::<Seq<Val>, LiftError>(items),
    ensures
        lift_spec(t, r, ty, flat, mem, mem.len()) == Ok::<Val, LiftError>(Val::List(items)),
{
    let size = size_of(t.layouts, *(ty->List_0));
    assert(n * size >= 1) by (nonlinear_arith)
        requires
            n >= 1,
            size >= 1,
    ;
}

proof fn lemma_roundtrip_record(t: Types, r: nat, ty: Ty, v: Val, mem: Seq<u8>, cap: nat)
    requires
        ty is Record,
        t.wf(),
        ty_wf(t, r, ty),
        mem.len() <= cap <= u32::MAX,
        lower_spec(t, r, ty, v, mem, cap) is Ok,
    ensures
        lift_spec(
            t,
            r,
            ty,
            lower_spec(t, r, ty, v, mem, cap)->Ok_0.flat,
            lower_spec(t, r, ty, v, mem, cap)->Ok_0.mem,
            lower_spec(t, r, ty, v, mem, cap)->Ok_0.mem.len(),
        ) == Ok::<Val, LiftError>(v),
    decreases v, r, 0nat,
{
    let low = lower_spec(t, r, ty, v, mem, cap)->Ok_0;
    let fields = ty->Record_0@;
    let vals = v->Record_0;
    let n = vals.len();
    let acc = lower_fields(t, r, fields, vals, n, mem, cap)->Ok_0;
    lemma_fields_lower_facts(t, r, fields, vals, n, mem, cap);
    lemma_fields_roundtrip(t, r, fields, vals, n, mem, cap);
    assert forall|k: int| 0 <= k < n implies lift_spec(
        t,
        r,
        fields[k].ty,
        #[trigger] field_flat(t.layouts, fields, low.flat, k),
        low.mem,
        low.mem.len(),
    ) == Ok::<Val, LiftError>(vals[k]) by {
        lemma_fields_prefix(t.layouts, fields, (k + 1) as nat, n);
        assert(field_flat(t.layouts, fields, low.flat, k) =~= field_flat(
            t.layouts,
            fields,
            acc.flat,
            k,
        ));
    }
    lemma_fields_lifted(t, r, fields, vals, low.flat, low.mem, low.mem.len(), n);
    assert(vals.take(n as int) =~= vals);
}

proof fn lemma_roundtrip_variant(t: Types, r: nat, ty: Ty, v: Val, mem: Seq<u8>, cap: nat)
    requires
        ty is Variant,
        t.wf(),
        ty_wf(t, r, ty),
        mem.len() <= cap <= u32::MAX,
        lower_spec(t, r, ty, v, mem, cap) is Ok,
    ensures
        lift_spec(
            t,
            r,
            ty,
            lower_spec(t, r, ty, v, mem, cap)->Ok_0.flat,
            lower_spec(t, r, ty, v, mem, cap)->Ok_0.mem,
            lower_spec(t, r, ty, v, mem, cap)->Ok_0.mem.len(),
        ) == Ok::<Val, LiftError>(v),
    decreases v, r, 0nat,
{
    let low = lower_spec(t, r, ty, v, mem, cap)->Ok_0;
    let cases = ty->Variant_0@;
    let case = v->Variant_0;
    let width = disc_width(cases.len());
    let disc = le_bytes(case as nat, width);
    lemma_pow256_values();
    lemma_lower_facts(t, r, ty, v, mem, cap);
    lemma_le_bytes_len(case as nat, width);
    lemma_le_value_of_bytes(case as nat, width);
    assert(low.flat.subrange(0, width as int) =~= disc);
    match (cases[case as int].payload, v->Variant_1) {
        (Some(inner_ty), Some(inner)) => {
            assert(ty_wf(t, r, cases[case as int].payload->Some_0));
            lemma_roundtrip(t, r, inner_ty, *inner, mem, cap);
            lemma_lower_facts(t, r, inner_ty, *inner, mem, cap);
            lemma_case_within(t.layouts, cases, case as int);
            let inner_low = lower_spec(t, r, inner_ty, *inner, mem, cap)->Ok_0;
            let start = payload_offset(t.layouts, cases);
            assert(low.flat.subrange(start as int, (start + size_of(t.layouts, inner_ty)) as int)
                =~= inner_low.flat);
        },
        _ => {},
    }
}

/// Each element of a lowered run lifts from its chunk of the run's bytes.
pub proof fn lemma_items_roundtrip(
    t: Types,
    elem: Ty,
    items: Seq<Val>,
    n: nat,
    mem: Seq<u8>,
    cap: nat,
)
    requires
        t.wf(),
        ty_wf(t, t.top(), elem),
        mem.len() <= cap <= u32::MAX,
        n <= items.len(),
        lower_items(t, elem, items, n, mem, cap) is Ok,
    ensures
        forall|k: int|
            0 <= k < n ==> lift_spec(
                t,
                t.top(),
                elem,
                #[trigger] chunk(
                    lower_items(t, elem, items, n, mem, cap)->Ok_0.flat,
                    size_of(t.layouts, elem),
                    k,
                ),
                lower_items(t, elem, items, n, mem, cap)->Ok_0.mem,
                lower_items(t, elem, items, n, mem, cap)->Ok_0.mem.len(),
            ) == Ok::<Val, LiftError>(items[k]),
    decreases items, n, 0nat,
{
    let size = size_of(t.layouts, elem);
    if n > 0 {
        let all = lower_items(t, elem, items, n, mem, cap)->Ok_0;
        lemma_items_facts(t, elem, items, n, mem, cap);
        lemma_items_facts(t, elem, items, (n - 1) as nat, mem, cap);
        let before = lower_items(t, elem, items, (n - 1) as nat, mem, cap)->Ok_0;
        lemma_items_roundtrip(t, elem, items, (n - 1) as nat, mem, cap);
        lemma_roundtrip(t, t.top(), elem, items[n - 1], before.mem, cap);
        lemma_lower_facts(t, t.top(), elem, items[n - 1], before.mem, cap);
        let low = lower_spec(t, t.top(), elem, items[n - 1], before.mem, cap)->Ok_0;
        lemma_prefix_agree(before.mem, low.mem);
        lemma_mul_le(n - 1, n as int, size);
        assert forall|k: int| 0 <= k < n implies lift_spec(
            t,
            t.top(),
            elem,
            #[trigger] chunk(all.flat, size, k),
            all.mem,
            all.mem.len(),
        ) == Ok::<Val, LiftError>(items[k]) by {
            if k < n - 1 {
                lemma_mul_le(k + 1, n - 1, size);
                lemma_mul_le(k, n - 1, size);
                lemma_mul_le(0, k, size);
                assert(all.flat =~= before.flat + low.flat);
                assert(0 <= k * size <= (k + 1) * size <= before.flat.len());
                assert(chunk(all.flat, size, k) =~= chunk(before.flat, size, k));
                lemma_lift_stable(
                    t,
                    t.top(),
                    elem,
                    chunk(before.flat, size, k),
                    before.mem,
                    before.mem.len(),
                    low.mem,
                    low.mem.len(),
                );
            } else {
                assert(chunk(all.flat, size, k) =~= low.flat);
            }
        }
    }
}

/// Each field of a lowered run lifts from its place in the run's bytes.
pub proof fn lemma_fields_roundtrip(
    t: Types,
    r: nat,
    fields: Seq<Field>,
    vals: Seq<Val>,
    n: nat,
    mem: Seq<u8>,
    cap: nat,
)
    requires
        t.wf(),
        forall|i: int| 0 <= i < fields.len() ==> ty_wf(t, r, (#[trigger] fields[i]).ty),
        mem.len() <= cap <= u32::MAX,
        n <= vals.len(),
        n <= fields.len(),
        lower_fields(t, r, fields, vals, n, mem, cap) is Ok,
    ensures
        forall|k: int|
            0 <= k < n ==> lift_spec(
                t,
                r,
                fields[k].ty,
                #[trigger] field_flat(
                    t.layouts,
                    fields,
                    lower_fields(t, r, fields, vals, n, mem, cap)->Ok_0.flat,
                    k,
                ),
                lower_fields(t, r, fields, vals, n, mem, cap)->Ok_0.mem,
                lower_fields(t, r, fields, vals, n, mem, cap)->Ok_0.mem.len(),
            ) == Ok::<Val, LiftError>(vals[k]),
    decreases vals, n, 0nat,
{
    if n > 0 {
        let acc = lower_fields(t, r, fields, vals, n, mem, cap)->Ok_0;
        lemma_fields_lower_facts(t, r, fields, vals, n, mem, cap);
        lemma_fields_lower_facts(t, r, fields, vals, (n - 1) as nat, mem, cap);
        let before = lower_fields(t, r, fields, vals, (n - 1) as nat, mem, cap)->Ok_0;
        lemma_fields_roundtrip(t, r, fields, vals, (n - 1) as nat, mem, cap);
        assert(ty_wf(t, r, fields[n - 1].ty));
        lemma_roundtrip(t, r, fields[n - 1].ty, vals[n - 1], before.mem, cap);
        lemma_lower_facts(t, r, fields[n - 1].ty, vals[n - 1], before.mem, cap);
        let low = lower_spec(t, r, fields[n - 1].ty, vals[n - 1], before.mem, cap)->Ok_0;
        lemma_prefix_agree(before.mem, low.mem);
        assert forall|k: int| 0 <= k < n implies lift_spec(
            t,
            r,
            fields[k].ty,
            #[trigger] field_flat(t.layouts, fields, acc.flat, k),
            acc.mem,
            acc.mem.len(),
        ) == Ok::<Val, LiftError>(vals[k]) by {
            if k < n - 1 {
                lemma_fields_prefix(t.layouts, fields, (k + 1) as nat, (n - 1) as nat);
                assert(field_flat(t.layouts, fields, acc.flat, k) =~= field_flat(
                    t.layouts,
                    fields,
                    before.flat,
                    k,
                ));
                lemma_lift_stable(
                    t,
                    r,
                    fields[k].ty,
                    field_flat(t.layouts, fields, before.flat, k),
                    before.mem,
                    before.mem.len(),
                    low.mem,
                    low.mem.len(),
                );
            } else {
                assert(field_flat(t.layouts, fields, acc.flat, k) =~= low.flat);
            }
        }
    }
}

/// Round trip: whatever value of a well-formed type was lowered, lifting its
/// flat bytes from the memory that lowering left gives that value back.
pub proof fn law_lift_of_lowered(t: Types, ty: Ty, v: Val, mem: Seq<u8>, cap: nat)
    requires
        t.wf(),
        ty_wf(t, t.top(), ty),
        mem.len() <= cap <= u32::MAX,
        lower_spec(t, t.top(), ty, v, mem, cap) is Ok,
    ensures
        lift_spec(
            t,
            t.top(),
            ty,
            lower_spec(t, t.top(), ty, v, mem, cap)->Ok_0.flat,
            lower_spec(t, t.top(), ty, v, mem, cap)->Ok_0.mem,
            lower_spec(t, t.top(), ty, v, mem, cap)->Ok_0.mem.len(),
        ) == Ok::<Val, LiftError>(v),
{
    lemma_roundtrip(t, t.top(), ty, v, mem, cap);
}

/// Re-lowering: lifting a flat encoding that lowering produced and lowering
/// the result again, into the memory the first lowering started from, gives
/// the same flat bytes and the same memory, byte for byte.
pub proof fn law_lower_of_lifted(t: Types, ty: Ty, v: Val, mem: Seq<u8>, cap: nat)
    requires
        t.wf(),
        ty_wf(t, t.top(), ty),
        mem.len() <= cap <= u32::MAX,
        lower_spec(t, t.top(), ty, v, mem, cap) is Ok,
    ensures
        ({
            let low = lower_spec(t, t.top(), ty, v, mem, cap)->Ok_0;
            let back = lift_spec(t, t.top(), ty, low.flat, low.mem, low.mem.len());
            &&& back is Ok
            &&& lower_spec(t, t.top(), ty, back->Ok_0, mem, cap) == Ok::<Lowered, LowerError>(low)
        }),
{
    lemma_roundtrip(t, t.top(), ty, v, mem, cap);
}

/// Typing: only a value of the type is lowered, and a value of the type is
/// never refused as a mismatch: it is lowered, or linear memory has no room
/// for it.
pub proof fn law_lowering_of_typed(t: Types, r: nat, ty: Ty, v: Val, mem: Seq<u8>, cap: nat)
    ensures
        lower_spec(t, r, ty, v, mem, cap) is Ok ==> has_type(t, r, ty, v),
        has_type(t, r, ty, v) ==> lower_spec(t, r, ty, v, mem, cap) is Ok || lower_spec(
            t,
            r,
            ty,
            v,
            mem,
            cap,
        ) == Err::<Lowered, LowerError>(LowerError::OutOfMemory),
    decreases v, r, 1nat,
{
    match ty {
        Ty::Ref(j) => {
            if j < t.defs.len() && t.rank[j as int] < r {
                law_lowering_of_typed(t, t.rank[j as int] as nat, t.defs[j as int], v, mem, cap);
            }
        },
        Ty::List(elem) => {
            if v is List {
                lemma_items_typed(t, *elem, v->List_0, v->List_0.len(), mem, cap);
            }
        },
        Ty::Record(fields) => {
            if v is Record && v->Record_0.len() == fields@.len() {
                lemma_fields_typed(t, r, fields@, v->Record_0, v->Record_0.len(), mem, cap);
            }
        },
        Ty::Variant(cases) => {
            if v is Variant && v->Variant_0 < cases@.len() {
                match (cases@[v->Variant_0 as int].payload, v->Variant_1) {
                    (Some(inner_ty), Some(inner)) => {
                        law_lowering_of_typed(t, r, inner_ty, *inner, mem, cap);
                    },
                    _ => {},
                }
            }
        },
        _ => {},
    }
}

/// A run of elements is lowered only where each is of the element type, and
/// is never refused as a mismatch where each is.
pub proof fn lemma_items_typed(t: Types, elem: Ty, items: Seq<Val>, n: nat, mem: Seq<u8>, cap: nat)
    requires
        n <= items.len(),
    ensures
        lower_items(t, elem, items, n, mem, cap) is Ok ==> forall|i: int|
            0 <= i < n ==> has_type(t, t.top(), elem, #[trigger] items[i]),
        (forall|i: int| 0 <= i < n ==> has_type(t, t.top(), elem, #[trigger] items[i]))
            ==> lower_items(t, elem, items, n, mem, cap) is Ok || lower_items(
            t,
            elem,
            items,
            n,
            mem,
            cap,
        ) == Err::<Lowered, LowerError>(LowerError::OutOfMemory),
    decreases items, n, 0nat,
{
    if n > 0 {
        lemma_items_typed(t, elem, items, (n - 1) as nat, mem, cap);
        match lower_items(t, elem, items, (n - 1) as nat, mem, cap) {
            Ok(before) => {
                law_lowering_of_typed(t, t.top(), elem, items[n - 1], before.mem, cap);
            },
            Err(_) => {},
        }
    }
}

/// A run of fields is lowered only where each value is of its field's type,
/// and is never refused as a mismatch where each is.
pub proof fn lemma_fields_typed(
    t: Types,
    r: nat,
    fields: Seq<Field>,
    vals: Seq<Val>,
    n: nat,
    mem: Seq<u8>,
    cap: nat,
)
    requires
        n <= vals.len(),
        n <= fields.len(),
    ensures
        lower_fields(t, r, fields, vals, n, mem, cap) is Ok ==> forall|i: int|
            0 <= i < n ==> has_type(t, r, fields[i].ty, #[trigger] vals[i]),
        (forall|i: int| 0 <= i < n ==> has_type(t, r, fields[i].ty, #[trigger] vals[i]))
            ==> lower_fields(t, r, fields, vals, n, mem, cap) is Ok || lower_fields(
            t,
            r,
            fields,
            vals,
            n,
            mem,
            cap,
        ) == Err::<Lowered, LowerError>(LowerError::OutOfMemory),
    decreases vals, n, 0nat,
{
    if n > 0 {
        lemma_fields_typed(t, r, fields, vals, (n - 1) as nat, mem, cap);
        match lower_fields(t, r, fields, vals, (n - 1) as nat, mem, cap) {
            Ok(before) => {
                law_lowering_of_typed(t, r, fields[n - 1].ty, vals[n - 1], before.mem, cap);
            },
            Err(_) => {},
        }
    }
}

} // verus!

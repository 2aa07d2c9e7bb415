//! Writing a type out: replacing each reference to a definition by the body
//! of that definition. A type and what it is written out as have one layout
//! and one encoding: values lower alike under both, and bytes lift alike.

use crate::abi::bytes::le_value;
use crate::abi::model::{
    lift_fields, lift_items, lift_spec, lower_fields, lower_items, lower_spec, Types,
};
use crate::types::{
    cases_layout, disc_width, field_offset, fields_layout, layout_of, payload_offset, size_of,
    Case, Field, Ty,
};
use crate::value::Val;
use vstd::prelude::*;

verus! {

/// `b` is `a` written out: where `a`, read under the definitions `t` below
/// the rank `r`, refers to a definition, `b` holds that definition's body,
/// written out in turn. The names of fields and cases are free to differ.
pub open spec fn unfolds_to(t: Types, r: nat, a: Ty, b: Ty) -> bool
    decreases b, r,
{
    match a {
        Ty::Ref(j) => j < t.defs.len() && t.rank[j as int] < r && unfolds_to(
            t,
            t.rank[j as int] as nat,
            t.defs[j as int],
            b,
        ),
        _ => match b {
            Ty::List(inner) => a is List && unfolds_to(t, t.top(), *a->List_0, *inner),
            Ty::Record(fields) => a is Record && a->Record_0@.len() == fields@.len() && forall|
                i: int,
            |
                0 <= i < fields@.len() ==> unfolds_to(
                    t,
                    r,
                    a->Record_0@[i].ty,
                    (#[trigger] fields@[i]).ty,
                ),
            Ty::Variant(cases) => a is Variant && a->Variant_0@.len() == cases@.len() && forall|
                i: int,
            |
                0 <= i < cases@.len() ==> match (#[trigger] cases@[i]).payload {
                    Some(payload) => a->Variant_0@[i].payload is Some && unfolds_to(
                        t,
                        r,
                        a->Variant_0@[i].payload->Some_0,
                        payload,
                    ),
                    None => a->Variant_0@[i].payload is None,
                },
            _ => a == b,
        },
    }
}

/// A type and what it is written out as have the same size and alignment.
pub proof fn lemma_unfolded_layout(t: Types, r: nat, a: Ty, u: Types, b: Ty)
    requires
        t.wf(),
        unfolds_to(t, r, a, b),
    ensures
        layout_of(t.layouts, a) == layout_of(u.layouts, b),
    decreases b, r,
{
    match a {
        Ty::Ref(j) => {
            lemma_unfolded_layout(t, t.rank[j as int] as nat, t.defs[j as int], u, b);
            assert(t.layouts[j as int].size as nat == layout_of(t.layouts, t.defs[j as int]).size);
        },
        _ => match b {
            Ty::Record(fields) => {
                lemma_unfolded_fields(t, r, a->Record_0@, u, fields@, fields@.len());
            },
            Ty::Variant(cases) => {
                lemma_unfolded_cases(t, r, a->Variant_0@, u, cases@, cases@.len());
            },
            _ => {},
        },
    }
}

proof fn lemma_unfolded_fields(t: Types, r: nat, fa: Seq<Field>, u: Types, fb: Seq<Field>, n: nat)
    requires
        t.wf(),
        fa.len() == fb.len(),
        n <= fb.len(),
        forall|i: int| 0 <= i < fb.len() ==> unfolds_to(t, r, fa[i].ty, (#[trigger] fb[i]).ty),
    ensures
        fields_layout(t.layouts, fa, n) == fields_layout(u.layouts, fb, n),
    decreases fb, n,
{
    if n > 0 {
        lemma_unfolded_fields(t, r, fa, u, fb, (n - 1) as nat);
        assert(unfolds_to(t, r, fa[n - 1].ty, fb[n - 1].ty));
        lemma_unfolded_layout(t, r, fa[n - 1].ty, u, fb[n - 1].ty);
    }
}

proof fn lemma_unfolded_cases(t: Types, r: nat, ca: Seq<Case>, u: Types, cb: Seq<Case>, n: nat)
    requires
        t.wf(),
        ca.len() == cb.len(),
        n <= cb.len(),
        forall|i: int|
            0 <= i < cb.len() ==> match (#[trigger] cb[i]).payload {
                Some(payload) => ca[i].payload is Some && unfolds_to(
                    t,
                    r,
                    ca[i].payload->Some_0,
                    payload,
                ),
                None => ca[i].payload is None,
            },
    ensures
        cases_layout(t.layouts, ca, n) == cases_layout(u.layouts, cb, n),
    decreases cb, n,
{
    if n > 0 {
        lemma_unfolded_cases(t, r, ca, u, cb, (n - 1) as nat);
        match cb[n - 1].payload {
            Some(payload) => {
                lemma_unfolded_layout(t, r, ca[n - 1].payload->Some_0, u, payload);
            },
            None => {},
        }
    }
}

/// Writing a type out changes the encoding of no value: whatever lowering
/// gives for a value under the type, the flat bytes and the memory or the
/// refusal, it gives under what the type is written out as, read under any
/// definitions and below any rank.
pub proof fn law_unfolded_lowers_alike(
    t: Types,
    r: nat,
    a: Ty,
    u: Types,
    q: nat,
    b: Ty,
    v: Val,
    mem: Seq<u8>,
    cap: nat,
)
    requires
        t.wf(),
        unfolds_to(t, r, a, b),
    ensures
        lower_spec(t, r, a, v, mem, cap) == lower_spec(u, q, b, v, mem, cap),
    decreases b, r, 0nat,
{
    lemma_unfolded_layout(t, r, a, u, b);
    match a {
        Ty::Ref(j) => {
            lemma_unfolded_layout(t, t.rank[j as int] as nat, t.defs[j as int], u, b);
            law_unfolded_lowers_alike(
                t,
                t.rank[j as int] as nat,
                t.defs[j as int],
                u,
                q,
                b,
                v,
                mem,
                cap,
            );
        },
        _ => match b {
            Ty::List(inner) => {
                if v is List {
                    lemma_unfolded_layout(t, t.top(), *a->List_0, u, *inner);
                    lemma_unfolded_items(
                        t,
                        *a->List_0,
                        u,
                        *inner,
                        v->List_0,
                        v->List_0.len(),
                        mem,
                        cap,
                    );
                }
            },
            Ty::Record(fields) => {
                if v is Record && v->Record_0.len() == fields@.len() {
                    lemma_unfolded_record(
                        t,
                        r,
                        a->Record_0@,
                        u,
                        q,
                        fields@,
                        v->Record_0,
                        v->Record_0.len(),
                        mem,
                        cap,
                    );
                }
            },
            Ty::Variant(cases) => {
                lemma_unfolded_cases(t, r, a->Variant_0@, u, cases@, cases@.len());
                if v is Variant && v->Variant_0 < cases@.len() {
                    let c = v->Variant_0 as int;
                    match (cases@[c].payload, v->Variant_1) {
                        (Some(payload), Some(inner)) => {
                            law_unfolded_lowers_alike(
                                t,
                                r,
                                a->Variant_0@[c].payload->Some_0,
                                u,
                                q,
                                payload,
                                *inner,
                                mem,
                                cap,
                            );
                        },
                        _ => {},
                    }
                }
            },
            _ => {},
        },
    }
}

proof fn lemma_unfolded_items(
    t: Types,
    ea: Ty,
    u: Types,
    eb: Ty,
    items: Seq<Val>,
    n: nat,
    mem: Seq<u8>,
    cap: nat,
)
    requires
        t.wf(),
        unfolds_to(t, t.top(), ea, eb),
        n <= items.len(),
    ensures
        lower_items(t, ea, items, n, mem, cap) == lower_items(u, eb, items, n, mem, cap),
    decreases eb, t.top() + 1, n,
{
    if n > 0 {
        lemma_unfolded_items(t, ea, u, eb, items, (n - 1) as nat, mem, cap);
        match lower_items(t, ea, items, (n - 1) as nat, mem, cap) {
            Ok(before) => {
                law_unfolded_lowers_alike(
                    t,
                    t.top(),
                    ea,
                    u,
                    u.top(),
                    eb,
                    items[n - 1],
                    before.mem,
                    cap,
                );
            },
            Err(_) => {},
        }
    }
}

proof fn lemma_unfolded_record(
    t: Types,
    r: nat,
    fa: Seq<Field>,
    u: Types,
    q: nat,
    fb: Seq<Field>,
    vals: Seq<Val>,
    n: nat,
    mem: Seq<u8>,
    cap: nat,
)
    requires
        t.wf(),
        fa.len() == fb.len(),
        n <= vals.len() == fb.len(),
        forall|i: int| 0 <= i < fb.len() ==> unfolds_to(t, r, fa[i].ty, (#[trigger] fb[i]).ty),
    ensures
        lower_fields(t, r, fa, vals, n, mem, cap) == lower_fields(u, q, fb, vals, n, mem, cap),
    decreases fb, n,
{
    if n > 0 {
        lemma_unfolded_record(t, r, fa, u, q, fb, vals, (n - 1) as nat, mem, cap);
        assert(unfolds_to(t, r, fa[n - 1].ty, fb[n - 1].ty));
        lemma_unfolded_fields(t, r, fa, u, fb, (n - 1) as nat);
        lemma_unfolded_layout(t, r, fa[n - 1].ty, u, fb[n - 1].ty);
        match lower_fields(t, r, fa, vals, (n - 1) as nat, mem, cap) {
            Ok(before) => {
                law_unfolded_lowers_alike(
                    t,
                    r,
                    fa[n - 1].ty,
                    u,
                    q,
                    fb[n - 1].ty,
                    vals[n - 1],
                    before.mem,
                    cap,
                );
            },
            Err(_) => {},
        }
    }
}

/// Writing a type out changes the reading of no bytes: whatever lifting
/// gives for flat bytes and a memory under the type, the value or the
/// refusal, it gives under what the type is written out as, read under any
/// definitions and below any rank.
pub proof fn law_unfolded_lifts_alike(
    t: Types,
    r: nat,
    a: Ty,
    u: Types,
    q: nat,
    b: Ty,
    flat: Seq<u8>,
    mem: Seq<u8>,
    limit: nat,
)
    requires
        t.wf(),
        unfolds_to(t, r, a, b),
    ensures
        lift_spec(t, r, a, flat, mem, limit) == lift_spec(u, q, b, flat, mem, limit),
    decreases b, r, 0nat,
{
    lemma_unfolded_layout(t, r, a, u, b);
    match a {
        Ty::Ref(j) => {
            law_unfolded_lifts_alike(
                t,
                t.rank[j as int] as nat,
                t.defs[j as int],
                u,
                q,
                b,
                flat,
                mem,
                limit,
            );
        },
        _ => match b {
            Ty::List(inner) => {
                let ptr = le_value(flat.subrange(0, 4));
                let count = le_value(flat.subrange(4, 8));
                lemma_unfolded_layout(t, t.top(), *a->List_0, u, *inner);
                lemma_unfolded_lifted_items(t, *a->List_0, u, *inner, mem, ptr, count, ptr);
            },
            Ty::Record(fields) => {
                lemma_unfolded_lifted_record(
                    t,
                    r,
                    a->Record_0@,
                    u,
                    q,
                    fields@,
                    fields@.len(),
                    flat,
                    mem,
                    limit,
                );
            },
            Ty::Variant(cases) => {
                lemma_unfolded_cases(t, r, a->Variant_0@, u, cases@, cases@.len());
                let case = le_value(
                    flat.subrange(0, disc_width(cases@.len()) as int),
                );
                if case < cases@.len() {
                    match cases@[case as int].payload {
                        Some(payload) => {
                            let own = a->Variant_0@[case as int].payload->Some_0;
                            let start = payload_offset(u.layouts, cases@);
                            lemma_unfolded_layout(t, r, own, u, payload);
                            law_unfolded_lifts_alike(
                                t,
                                r,
                                own,
                                u,
                                q,
                                payload,
                                flat.subrange(
                                    start as int,
                                    (start + size_of(u.layouts, payload)) as int,
                                ),
                                mem,
                                limit,
                            );
                        },
                        None => {},
                    }
                }
            },
            _ => {},
        },
    }
}

proof fn lemma_unfolded_lifted_items(
    t: Types,
    ea: Ty,
    u: Types,
    eb: Ty,
    mem: Seq<u8>,
    base: nat,
    n: nat,
    limit: nat,
)
    requires
        t.wf(),
        unfolds_to(t, t.top(), ea, eb),
    ensures
        lift_items(t, ea, mem, base, n, limit) == lift_items(u, eb, mem, base, n, limit),
    decreases eb, t.top() + 1, n,
{
    if n > 0 {
        lemma_unfolded_layout(t, t.top(), ea, u, eb);
        lemma_unfolded_lifted_items(t, ea, u, eb, mem, base, (n - 1) as nat, limit);
        let size = size_of(u.layouts, eb);
        law_unfolded_lifts_alike(
            t,
            t.top(),
            ea,
            u,
            u.top(),
            eb,
            mem.subrange(base + (n - 1) * size, (base + n * size) as int),
            mem,
            limit,
        );
    }
}

proof fn lemma_unfolded_lifted_record(
    t: Types,
    r: nat,
    fa: Seq<Field>,
    u: Types,
    q: nat,
    fb: Seq<Field>,
    n: nat,
    flat: Seq<u8>,
    mem: Seq<u8>,
    limit: nat,
)
    requires
        t.wf(),
        fa.len() == fb.len(),
        n <= fb.len(),
        forall|i: int| 0 <= i < fb.len() ==> unfolds_to(t, r, fa[i].ty, (#[trigger] fb[i]).ty),
    ensures
        lift_fields(t, r, fa, n, flat, mem, limit) == lift_fields(u, q, fb, n, flat, mem, limit),
    decreases fb, n,
{
    if n > 0 {
        lemma_unfolded_lifted_record(t, r, fa, u, q, fb, (n - 1) as nat, flat, mem, limit);
        assert(unfolds_to(t, r, fa[n - 1].ty, fb[n - 1].ty));
        lemma_unfolded_fields(t, r, fa, u, fb, (n - 1) as nat);
        lemma_unfolded_layout(t, r, fa[n - 1].ty, u, fb[n - 1].ty);
        let start = field_offset(u.layouts, fb, (n - 1) as nat);
        law_unfolded_lifts_alike(
            t,
            r,
            fa[n - 1].ty,
            u,
            q,
            fb[n - 1].ty,
            flat.subrange(
                start as int,
                (start + size_of(u.layouts, fb[n - 1].ty)) as int,
            ),
            mem,
            limit,
        );
    }
}

} // verus!

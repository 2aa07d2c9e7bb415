//! Computing the layout of a well-formed type, and the facts about layouts
//! that lowering and lifting rest on.

use crate::abi::model::{ty_wf, Types};
use crate::schema::Schema;
use crate::types::{
    align_of, align_up, cases_layout, disc_width, fields_layout, is_align, round_up, size_of,
    Case, Field, Layout, Ty,
};
use vstd::prelude::*;

verus! {

/// A type that is well formed below one rank is well formed below any
/// larger one.
pub proof fn lemma_ty_wf_mono(t: Types, r: nat, r2: nat, ty: Ty)
    requires
        ty_wf(t, r, ty),
        r <= r2,
    ensures
        ty_wf(t, r2, ty),
    decreases ty,
{
    match ty {
        Ty::Record(fields) => {
            assert forall|i: int| 0 <= i < fields@.len() implies ty_wf(
                t,
                r2,
                (#[trigger] fields@[i]).ty,
            ) by {
                lemma_ty_wf_mono(t, r, r2, fields@[i].ty);
            }
        },
        Ty::Variant(cases) => {
            assert forall|i: int| 0 <= i < cases@.len() implies match (#[trigger] cases@[i]).payload {
                Some(payload) => ty_wf(t, r2, payload),
                None => true,
            } by {
                match cases@[i].payload {
                    Some(payload) => {
                        lemma_ty_wf_mono(t, r, r2, payload);
                    },
                    None => {},
                }
            }
        },
        _ => {},
    }
}

/// The body of a definition is well formed as a type that stands alone.
pub proof fn lemma_def_wf(t: Types, j: int)
    requires
        t.wf(),
        0 <= j < t.defs.len(),
    ensures
        ty_wf(t, t.top(), t.defs[j]),
        ty_wf(t, t.rank[j] as nat, t.defs[j]),
        t.rank[j] < t.top(),
{
    lemma_ty_wf_mono(t, t.rank[j] as nat, t.top(), t.defs[j]);
}

/// The extent of a record's fields only grows with each field.
pub proof fn lemma_fields_prefix(named: Seq<Layout>, fields: Seq<Field>, i: nat, n: nat)
    requires
        i <= n <= fields.len(),
    ensures
        fields_layout(named, fields, i).size <= fields_layout(named, fields, n).size,
        fields_layout(named, fields, i).align <= fields_layout(named, fields, n).align,
    decreases n,
{
    if i < n {
        lemma_fields_prefix(named, fields, i, (n - 1) as nat);
    }
}

/// The widest payload only grows with each case.
pub proof fn lemma_cases_prefix(named: Seq<Layout>, cases: Seq<Case>, i: nat, n: nat)
    requires
        i <= n <= cases.len(),
    ensures
        cases_layout(named, cases, i).size <= cases_layout(named, cases, n).size,
        cases_layout(named, cases, i).align <= cases_layout(named, cases, n).align,
    decreases n,
{
    if i < n {
        lemma_cases_prefix(named, cases, i, (n - 1) as nat);
    }
}

/// No payload is larger or more strictly aligned than the widest.
pub proof fn lemma_case_within(named: Seq<Layout>, cases: Seq<Case>, c: int)
    requires
        0 <= c < cases.len(),
        cases[c].payload is Some,
    ensures
        size_of(named, cases[c].payload->Some_0) <= cases_layout(named, cases, cases.len()).size,
        align_of(named, cases[c].payload->Some_0) <= cases_layout(
            named,
            cases,
            cases.len(),
        ).align,
{
    lemma_cases_prefix(named, cases, (c + 1) as nat, cases.len());
}

/// A well-formed type has one of the four alignments and at least one byte.
pub proof fn lemma_layout_facts(t: Types, r: nat, ty: Ty)
    requires
        t.wf(),
        ty_wf(t, r, ty),
    ensures
        is_align(align_of(t.layouts, ty)),
        size_of(t.layouts, ty) >= 1,
        size_of(t.layouts, ty) <= u32::MAX,
    decreases ty, 0nat,
{
    match ty {
        Ty::Record(fields) => {
            lemma_fields_facts(t, r, fields@, fields@.len());
        },
        Ty::Variant(cases) => {
            lemma_cases_facts(t, r, cases@, cases@.len());
        },
        Ty::Ref(j) => {
            assert(is_align(t.layouts[j as int].align as nat));
        },
        _ => {},
    }
}

/// The fields of a well-formed record have one of the four alignments between them and
/// take at least one byte.
pub proof fn lemma_fields_facts(t: Types, r: nat, fields: Seq<Field>, n: nat)
    requires
        t.wf(),
        n <= fields.len(),
        forall|i: int| 0 <= i < fields.len() ==> ty_wf(t, r, (#[trigger] fields[i]).ty),
    ensures
        is_align(fields_layout(t.layouts, fields, n).align),
        n >= 1 ==> fields_layout(t.layouts, fields, n).size >= 1,
    decreases fields, n,
{
    if n > 0 {
        lemma_fields_facts(t, r, fields, (n - 1) as nat);
        lemma_layout_facts(t, r, fields[n - 1].ty);
    }
}

/// The payloads of a well-formed variant have one of the four alignments between them.
pub proof fn lemma_cases_facts(t: Types, r: nat, cases: Seq<Case>, n: nat)
    requires
        t.wf(),
        n <= cases.len(),
        forall|i: int|
            0 <= i < cases.len() ==> match (#[trigger] cases[i]).payload {
                Some(payload) => ty_wf(t, r, payload),
                None => true,
            },
    ensures
        is_align(cases_layout(t.layouts, cases, n).align),
    decreases cases, n,
{
    if n > 0 {
        lemma_cases_facts(t, r, cases, (n - 1) as nat);
        match cases[n - 1].payload {
            Some(payload) => {
                lemma_layout_facts(t, r, payload);
            },
            None => {},
        }
    }
}

/// Bytes of the discriminant of a variant with `n` cases.
pub fn disc_bytes(n: usize) -> (w: u32)
    ensures
        w == disc_width(n as nat),
{
    if n <= 0x100 {
        1
    } else if n <= 0x1_0000 {
        2
    } else {
        4
    }
}

/// Size and alignment of a well-formed type.
pub fn layout(schema: &Schema, ty: &Ty) -> (l: Layout)
    requires
        schema.wf(),
        ty_wf(schema@, schema@.top(), *ty),
    ensures
        l.size as nat == size_of(schema@.layouts, *ty),
        l.align as nat == align_of(schema@.layouts, *ty),
        is_align(l.align as nat),
        l.size >= 1,
    decreases ty,
{
    proof {
        schema.lemma_wf();
        lemma_layout_facts(schema@, schema@.top(), *ty);
    }
    let ghost named = schema@.layouts;
    match ty {
        Ty::Bool | Ty::U8 | Ty::S8 => Layout { size: 1, align: 1 },
        Ty::U16 | Ty::S16 => Layout { size: 2, align: 2 },
        Ty::U32 | Ty::S32 | Ty::F32 | Ty::Char => Layout { size: 4, align: 4 },
        Ty::U64 | Ty::S64 | Ty::F64 => Layout { size: 8, align: 8 },
        Ty::Str | Ty::List(_) => Layout { size: 8, align: 4 },
        Ty::Handle(_, _) => Layout { size: 4, align: 4 },
        Ty::Flags(n) => {
            if *n <= 8 {
                Layout { size: 1, align: 1 }
            } else if *n <= 16 {
                Layout { size: 2, align: 2 }
            } else if *n <= 32 {
                Layout { size: 4, align: 4 }
            } else {
                Layout { size: 8, align: 4 }
            }
        },
        Ty::Record(fields) => {
            let mut end: u64 = 0;
            let mut align: u32 = 1;
            let mut i: usize = 0;
            while i < fields.len()
                invariant
                    schema.wf(),
                    named == schema@.layouts,
                    i <= fields@.len(),
                    *ty is Record,
                    ty->Record_0 == *fields,
                    forall|k: int|
                        0 <= k < fields@.len() ==> ty_wf(
                            schema@,
                            schema@.top(),
                            (#[trigger] fields@[k]).ty,
                        ),
                    end as nat == fields_layout(named, fields@, i as nat).size,
                    align as nat == fields_layout(named, fields@, i as nat).align,
                    is_align(align as nat),
                    align_up(
                        fields_layout(named, fields@, fields@.len()).size,
                        fields_layout(named, fields@, fields@.len()).align,
                    ) <= u32::MAX,
                decreases fields@.len() - i,
            {
                proof {
                    assert(decreases_to!(*fields => fields[i as int]));
                }
                let own = layout(schema, &fields[i].ty);
                proof {
                    lemma_fields_prefix(named, fields@, (i + 1) as nat, fields@.len());
                    lemma_fields_prefix(named, fields@, i as nat, fields@.len());
                }
                end = round_up(end, own.align) + own.size as u64;
                if own.align > align {
                    align = own.align;
                }
                i = i + 1;
            }
            Layout { size: round_up(end, align) as u32, align }
        },
        Ty::Variant(cases) => {
            let mut size: u32 = 0;
            let mut align: u32 = 1;
            let mut i: usize = 0;
            while i < cases.len()
                invariant
                    schema.wf(),
                    named == schema@.layouts,
                    i <= cases@.len(),
                    *ty is Variant,
                    ty->Variant_0 == *cases,
                    forall|k: int|
                        0 <= k < cases@.len() ==> match (#[trigger] cases@[k]).payload {
                            Some(payload) => ty_wf(schema@, schema@.top(), payload),
                            None => true,
                        },
                    size as nat == cases_layout(named, cases@, i as nat).size,
                    align as nat == cases_layout(named, cases@, i as nat).align,
                    is_align(align as nat),
                decreases cases@.len() - i,
            {
                proof {
                    assert(decreases_to!(*cases => cases[i as int]));
                }
                match &cases[i].payload {
                    Some(payload) => {
                        let own = layout(schema, payload);
                        if own.size > size {
                            size = own.size;
                        }
                        if own.align > align {
                            align = own.align;
                        }
                    },
                    None => {},
                }
                i = i + 1;
            }
            let disc: u32 = disc_bytes(cases.len());
            let start: u64 = round_up(disc as u64, align);
            let whole: u32 = if disc > align {
                disc
            } else {
                align
            };
            Layout { size: round_up(start + size as u64, whole) as u32, align: whole }
        },
        Ty::Ref(j) => schema.def_layout(*j),
    }
}

} // verus!

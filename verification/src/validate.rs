//! What a schema's types are checked for before they are laid out: that
//! every reference names a definition, that no aggregate is empty, that no
//! definition contains itself other than through a list, and that every
//! encoding fits 32-bit memory.

use crate::abi::layout::disc_bytes;
use crate::abi::model::{ty_wf, Types};
use crate::types::{
    align_of, cases_layout, fields_layout, is_align, layout_of, round_up, size_of, Case, Field,
    Layout, Ty, MAX_FLAGS,
};
use vstd::prelude::*;

verus! {

/// Every reference inside `ty` names one of `n` definitions.
pub open spec fn refs_defined(n: nat, ty: Ty) -> bool
    decreases ty,
{
    match ty {
        Ty::List(elem) => refs_defined(n, *elem),
        Ty::Record(fields) => forall|i: int|
            0 <= i < fields@.len() ==> refs_defined(n, (#[trigger] fields@[i]).ty),
        Ty::Variant(cases) => forall|i: int|
            0 <= i < cases@.len() ==> match (#[trigger] cases@[i]).payload {
                Some(payload) => refs_defined(n, payload),
                None => true,
            },
        Ty::Ref(j) => j < n,
        _ => true,
    }
}

/// No record inside `ty` is empty, no variant is without cases or has more
/// than a discriminant can tell apart, and no flags type names more bits
/// than fit.
pub open spec fn shape_ok(ty: Ty) -> bool
    decreases ty,
{
    match ty {
        Ty::List(elem) => shape_ok(*elem),
        Ty::Record(fields) => fields@.len() >= 1 && forall|i: int|
            0 <= i < fields@.len() ==> shape_ok((#[trigger] fields@[i]).ty),
        Ty::Variant(cases) => 1 <= cases@.len() <= 0x1_0000_0000 && forall|i: int|
            0 <= i < cases@.len() ==> match (#[trigger] cases@[i]).payload {
                Some(payload) => shape_ok(payload),
                None => true,
            },
        Ty::Flags(n) => n <= MAX_FLAGS,
        _ => true,
    }
}

/// Outside a list, `ty` refers only to definitions ranked below `r`.
pub open spec fn ranked_below(rank: Seq<usize>, r: nat, ty: Ty) -> bool
    decreases ty,
{
    match ty {
        Ty::Record(fields) => forall|i: int|
            0 <= i < fields@.len() ==> ranked_below(rank, r, (#[trigger] fields@[i]).ty),
        Ty::Variant(cases) => forall|i: int|
            0 <= i < cases@.len() ==> match (#[trigger] cases@[i]).payload {
                Some(payload) => ranked_below(rank, r, payload),
                None => true,
            },
        Ty::Ref(j) => j < rank.len() && rank[j as int] < r,
        _ => true,
    }
}

/// The encoding of `ty` and of every type inside it fits 32-bit memory;
/// with `deep` unset, the elements of lists are not looked at.
pub open spec fn fits(named: Seq<Layout>, ty: Ty, deep: bool) -> bool
    decreases ty,
{
    &&& size_of(named, ty) <= u32::MAX
    &&& match ty {
        Ty::List(elem) => deep ==> fits(named, *elem, deep),
        Ty::Record(fields) => forall|i: int|
            0 <= i < fields@.len() ==> fits(named, (#[trigger] fields@[i]).ty, deep),
        Ty::Variant(cases) => forall|i: int|
            0 <= i < cases@.len() ==> match (#[trigger] cases@[i]).payload {
                Some(payload) => fits(named, payload, deep),
                None => true,
            },
        _ => true,
    }
}

/// Definitions can be ranked so that each one, outside its lists, refers
/// only to definitions of a smaller rank: none contains itself.
pub open spec fn acyclic(defs: Seq<Ty>) -> bool {
    exists|rank: Seq<usize>| is_ranking(defs, rank)
}

/// Each definition refers, outside its lists, only to definitions that the ranking puts
/// below it.
pub open spec fn is_ranking(defs: Seq<Ty>, rank: Seq<usize>) -> bool {
    &&& rank.len() == defs.len()
    &&& forall|j: int|
        0 <= j < defs.len() ==> ranked_below(rank, (#[trigger] rank[j]) as nat, defs[j])
}

/// A type whose references are all defined is ranked below a bound on
/// every rank.
pub proof fn lemma_defined_ranked(rank: Seq<usize>, n: nat, ty: Ty)
    requires
        refs_defined(n, ty),
        rank.len() == n,
        forall|j: int| 0 <= j < n ==> (#[trigger] rank[j]) < n,
    ensures
        ranked_below(rank, n, ty),
    decreases ty,
{
    match ty {
        Ty::Record(fields) => {
            assert forall|i: int| 0 <= i < fields@.len() implies ranked_below(
                rank,
                n,
                (#[trigger] fields@[i]).ty,
            ) by {
                lemma_defined_ranked(rank, n, fields@[i].ty);
            }
        },
        Ty::Variant(cases) => {
            assert forall|i: int| 0 <= i < cases@.len() implies match (
            #[trigger] cases@[i]).payload {
                Some(payload) => ranked_below(rank, n, payload),
                None => true,
            } by {
                match cases@[i].payload {
                    Some(payload) => {
                        lemma_defined_ranked(rank, n, payload);
                    },
                    None => {},
                }
            }
        },
        _ => {},
    }
}

/// A type that passed every check is well formed.
pub proof fn lemma_checked_wf(t: Types, r: nat, ty: Ty)
    requires
        t.rank.len() == t.defs.len(),
        forall|j: int| 0 <= j < t.defs.len() ==> (#[trigger] t.rank[j]) < t.defs.len(),
        refs_defined(t.defs.len(), ty),
        shape_ok(ty),
        ranked_below(t.rank, r, ty),
        fits(t.layouts, ty, true),
    ensures
        ty_wf(t, r, ty),
    decreases ty,
{
    match ty {
        Ty::List(elem) => {
            lemma_defined_ranked(t.rank, t.defs.len(), *elem);
            lemma_checked_wf(t, t.top(), *elem);
        },
        Ty::Record(fields) => {
            assert forall|i: int| 0 <= i < fields@.len() implies ty_wf(
                t,
                r,
                (#[trigger] fields@[i]).ty,
            ) by {
                lemma_checked_wf(t, r, fields@[i].ty);
            }
        },
        Ty::Variant(cases) => {
            assert forall|i: int| 0 <= i < cases@.len() implies match (
            #[trigger] cases@[i]).payload {
                Some(payload) => ty_wf(t, r, payload),
                None => true,
            } by {
                match cases@[i].payload {
                    Some(payload) => {
                        lemma_checked_wf(t, r, payload);
                    },
                    None => {},
                }
            }
        },
        _ => {},
    }
}

/// A ranking below `r` still holds once ranks that were not below `r`
/// change.
pub proof fn lemma_ranked_stable(rank: Seq<usize>, after: Seq<usize>, r: nat, ty: Ty)
    requires
        ranked_below(rank, r, ty),
        after.len() == rank.len(),
        forall|k: int| 0 <= k < rank.len() && rank[k] < r ==> after[k] == rank[k],
    ensures
        ranked_below(after, r, ty),
    decreases ty,
{
    match ty {
        Ty::Record(fields) => {
            assert forall|i: int| 0 <= i < fields@.len() implies ranked_below(
                after,
                r,
                (#[trigger] fields@[i]).ty,
            ) by {
                lemma_ranked_stable(rank, after, r, fields@[i].ty);
            }
        },
        Ty::Variant(cases) => {
            assert forall|i: int| 0 <= i < cases@.len() implies match (
            #[trigger] cases@[i]).payload {
                Some(payload) => ranked_below(after, r, payload),
                None => true,
            } by {
                match cases@[i].payload {
                    Some(payload) => {
                        lemma_ranked_stable(rank, after, r, payload);
                    },
                    None => {},
                }
            }
        },
        _ => {},
    }
}

/// The layout of a type depends on the layouts of the definitions it
/// refers to outside its lists, and on no other.
pub proof fn lemma_layout_local(
    named: Seq<Layout>,
    after: Seq<Layout>,
    rank: Seq<usize>,
    r: nat,
    ty: Ty,
)
    requires
        ranked_below(rank, r, ty),
        after.len() == named.len(),
        forall|k: int| 0 <= k < rank.len() && rank[k] < r && k < named.len() ==> after[k] == named[k],
    ensures
        layout_of(after, ty) == layout_of(named, ty),
    decreases ty, 0nat,
{
    match ty {
        Ty::Record(fields) => {
            lemma_fields_local(named, after, rank, r, fields@, fields@.len());
        },
        Ty::Variant(cases) => {
            lemma_cases_local(named, after, rank, r, cases@, cases@.len());
        },
        _ => {},
    }
}

/// The extent of a record's fields depends only on the layouts of the definitions that the
/// fields refer to outside their lists.
pub proof fn lemma_fields_local(
    named: Seq<Layout>,
    after: Seq<Layout>,
    rank: Seq<usize>,
    r: nat,
    fields: Seq<Field>,
    n: nat,
)
    requires
        n <= fields.len(),
        forall|i: int| 0 <= i < fields.len() ==> ranked_below(rank, r, (#[trigger] fields[i]).ty),
        after.len() == named.len(),
        forall|k: int| 0 <= k < rank.len() && rank[k] < r && k < named.len() ==> after[k] == named[k],
    ensures
        fields_layout(after, fields, n) == fields_layout(named, fields, n),
    decreases fields, n,
{
    if n > 0 {
        lemma_fields_local(named, after, rank, r, fields, (n - 1) as nat);
        lemma_layout_local(named, after, rank, r, fields[n - 1].ty);
    }
}

/// The widest payload of a variant depends only on the layouts of the definitions that the
/// payloads refer to outside their lists.
pub proof fn lemma_cases_local(
    named: Seq<Layout>,
    after: Seq<Layout>,
    rank: Seq<usize>,
    r: nat,
    cases: Seq<Case>,
    n: nat,
)
    requires
        n <= cases.len(),
        forall|i: int|
            0 <= i < cases.len() ==> match (#[trigger] cases[i]).payload {
                Some(payload) => ranked_below(rank, r, payload),
                None => true,
            },
        after.len() == named.len(),
        forall|k: int| 0 <= k < rank.len() && rank[k] < r && k < named.len() ==> after[k] == named[k],
    ensures
        cases_layout(after, cases, n) == cases_layout(named, cases, n),
    decreases cases, n,
{
    if n > 0 {
        lemma_cases_local(named, after, rank, r, cases, (n - 1) as nat);
        match cases[n - 1].payload {
            Some(payload) => {
                lemma_layout_local(named, after, rank, r, payload);
            },
            None => {},
        }
    }
}

/// Whether a type fits, without looking at the elements of its lists,
/// depends on the layouts of the definitions it refers to outside its
/// lists, and on no other.
pub proof fn lemma_fits_local(
    named: Seq<Layout>,
    after: Seq<Layout>,
    rank: Seq<usize>,
    r: nat,
    ty: Ty,
)
    requires
        ranked_below(rank, r, ty),
        after.len() == named.len(),
        forall|k: int| 0 <= k < rank.len() && rank[k] < r && k < named.len() ==> after[k] == named[k],
    ensures
        fits(after, ty, false) == fits(named, ty, false),
    decreases ty,
{
    lemma_layout_local(named, after, rank, r, ty);
    match ty {
        Ty::Record(fields) => {
            assert forall|i: int| 0 <= i < fields@.len() implies fits(
                after,
                (#[trigger] fields@[i]).ty,
                false,
            ) == fits(named, fields@[i].ty, false) by {
                lemma_fits_local(named, after, rank, r, fields@[i].ty);
            }
        },
        Ty::Variant(cases) => {
            assert forall|i: int| 0 <= i < cases@.len() implies (match (
            #[trigger] cases@[i]).payload {
                Some(payload) => fits(after, payload, false),
                None => true,
            }) == (match cases@[i].payload {
                Some(payload) => fits(named, payload, false),
                None => true,
            }) by {
                match cases@[i].payload {
                    Some(payload) => {
                        lemma_fits_local(named, after, rank, r, payload);
                    },
                    None => {},
                }
            }
        },
        _ => {},
    }
}

/// A type that fits with the elements of its lists fits without them.
pub proof fn lemma_fits_shallow(named: Seq<Layout>, ty: Ty)
    requires
        fits(named, ty, true),
    ensures
        fits(named, ty, false),
    decreases ty,
{
    match ty {
        Ty::Record(fields) => {
            assert forall|i: int| 0 <= i < fields@.len() implies fits(
                named,
                (#[trigger] fields@[i]).ty,
                false,
            ) by {
                lemma_fits_shallow(named, fields@[i].ty);
            }
        },
        Ty::Variant(cases) => {
            assert forall|i: int| 0 <= i < cases@.len() implies match (
            #[trigger] cases@[i]).payload {
                Some(payload) => fits(named, payload, false),
                None => true,
            } by {
                match cases@[i].payload {
                    Some(payload) => {
                        lemma_fits_shallow(named, payload);
                    },
                    None => {},
                }
            }
        },
        _ => {},
    }
}

/// Each definition has the layout that its body gives under these layouts.
pub open spec fn consistent(tys: Seq<Ty>, layouts: Seq<Layout>) -> bool {
    &&& layouts.len() == tys.len()
    &&& forall|j: int|
        0 <= j < tys.len() ==> (#[trigger] layouts[j]).size as nat == size_of(layouts, tys[j])
            && layouts[j].align as nat == align_of(layouts, tys[j])
}

/// Layouts exist under which every definition has the layout that its body
/// gives and fits 32-bit memory.
pub open spec fn laid(tys: Seq<Ty>) -> bool {
    exists|layouts: Seq<Layout>| consistent(tys, layouts) && defs_fit(tys, layouts)
}

/// Every definition fits 32-bit memory under these layouts.
pub open spec fn defs_fit(tys: Seq<Ty>, layouts: Seq<Layout>) -> bool {
    forall|j: int| 0 <= j < tys.len() ==> fits(layouts, #[trigger] tys[j], true)
}

/// Layouts are determined by the definitions: two ways to lay out the
/// definitions agree on every definition that has a rank.
pub proof fn lemma_unique(
    tys: Seq<Ty>,
    rank: Seq<usize>,
    unset: nat,
    ours: Seq<Layout>,
    theirs: Seq<Layout>,
    r: nat,
)
    requires
        rank.len() == tys.len(),
        ours.len() == tys.len(),
        consistent(tys, theirs),
        r <= unset,
        forall|k: int|
            0 <= k < tys.len() && (#[trigger] rank[k]) < unset ==> ranked_below(
                rank,
                rank[k] as nat,
                tys[k],
            ) && ours[k].size as nat == size_of(ours, tys[k]) && ours[k].align as nat == align_of(
                ours,
                tys[k],
            ),
    ensures
        forall|k: int| 0 <= k < tys.len() && (#[trigger] rank[k]) < r ==> ours[k] == theirs[k],
    decreases r,
{
    if r > 0 {
        lemma_unique(tys, rank, unset, ours, theirs, (r - 1) as nat);
        assert forall|k: int| 0 <= k < tys.len() && (#[trigger] rank[k]) < r implies ours[k]
            == theirs[k] by {
            if rank[k] == r - 1 {
                lemma_layout_local(ours, theirs, rank, rank[k] as nat, tys[k]);
                assert(theirs[k].size as nat == size_of(theirs, tys[k]));
            }
        }
    }
}

/// Whether every reference inside `ty` names one of `n` definitions.
pub fn refs_checked(ty: &Ty, n: usize) -> (ok: bool)
    ensures
        ok == refs_defined(n as nat, *ty),
    decreases ty,
{
    match ty {
        Ty::List(elem) => refs_checked(elem, n),
        Ty::Record(fields) => {
            let mut i: usize = 0;
            while i < fields.len()
                invariant
                    i <= fields@.len(),
                    *ty is Record,
                    ty->Record_0 == *fields,
                    forall|k: int| 0 <= k < i ==> refs_defined(n as nat, (#[trigger] fields@[k]).ty),
                decreases fields@.len() - i,
            {
                proof {
                    assert(decreases_to!(*fields => fields[i as int]));
                }
                if !refs_checked(&fields[i].ty, n) {
                    return false;
                }
                i = i + 1;
            }
            true
        },
        Ty::Variant(cases) => {
            let mut i: usize = 0;
            while i < cases.len()
                invariant
                    i <= cases@.len(),
                    *ty is Variant,
                    ty->Variant_0 == *cases,
                    forall|k: int|
                        0 <= k < i ==> match (#[trigger] cases@[k]).payload {
                            Some(payload) => refs_defined(n as nat, payload),
                            None => true,
                        },
                decreases cases@.len() - i,
            {
                proof {
                    assert(decreases_to!(*cases => cases[i as int]));
                }
                match &cases[i].payload {
                    Some(payload) => {
                        if !refs_checked(payload, n) {
                            return false;
                        }
                    },
                    None => {},
                }
                i = i + 1;
            }
            true
        },
        Ty::Ref(j) => *j < n,
        _ => true,
    }
}

/// Whether `ty` has the shape that can be laid out.
pub fn shape_checked(ty: &Ty) -> (ok: bool)
    ensures
        ok == shape_ok(*ty),
    decreases ty,
{
    match ty {
        Ty::List(elem) => shape_checked(elem),
        Ty::Record(fields) => {
            if fields.len() == 0 {
                return false;
            }
            let mut i: usize = 0;
            while i < fields.len()
                invariant
                    i <= fields@.len(),
                    *ty is Record,
                    ty->Record_0 == *fields,
                    forall|k: int| 0 <= k < i ==> shape_ok((#[trigger] fields@[k]).ty),
                decreases fields@.len() - i,
            {
                proof {
                    assert(decreases_to!(*fields => fields[i as int]));
                }
                if !shape_checked(&fields[i].ty) {
                    return false;
                }
                i = i + 1;
            }
            true
        },
        Ty::Variant(cases) => {
            if cases.len() == 0 || cases.len() as u64 > 0x1_0000_0000 {
                return false;
            }
            let mut i: usize = 0;
            while i < cases.len()
                invariant
                    i <= cases@.len(),
                    *ty is Variant,
                    ty->Variant_0 == *cases,
                    forall|k: int|
                        0 <= k < i ==> match (#[trigger] cases@[k]).payload {
                            Some(payload) => shape_ok(payload),
                            None => true,
                        },
                decreases cases@.len() - i,
            {
                proof {
                    assert(decreases_to!(*cases => cases[i as int]));
                }
                match &cases[i].payload {
                    Some(payload) => {
                        if !shape_checked(payload) {
                            return false;
                        }
                    },
                    None => {},
                }
                i = i + 1;
            }
            true
        },
        Ty::Flags(n) => *n <= MAX_FLAGS,
        _ => true,
    }
}

/// Whether every definition that `ty` refers to outside its lists has a
/// rank yet; `unset` marks those that have none.
pub fn ready(ty: &Ty, rank: &Vec<usize>, unset: usize) -> (ok: bool)
    requires
        refs_defined(rank@.len(), *ty),
        forall|k: int| 0 <= k < rank@.len() ==> (#[trigger] rank@[k]) <= unset,
    ensures
        ok == ranked_below(rank@, unset as nat, *ty),
    decreases ty,
{
    match ty {
        Ty::Record(fields) => {
            let mut i: usize = 0;
            while i < fields.len()
                invariant
                    i <= fields@.len(),
                    *ty is Record,
                    ty->Record_0 == *fields,
                    refs_defined(rank@.len(), *ty),
                    forall|k: int| 0 <= k < rank@.len() ==> (#[trigger] rank@[k]) <= unset,
                    forall|k: int|
                        0 <= k < i ==> ranked_below(rank@, unset as nat, (#[trigger] fields@[k]).ty),
                decreases fields@.len() - i,
            {
                proof {
                    assert(decreases_to!(*fields => fields[i as int]));
                    assert(refs_defined(rank@.len(), fields@[i as int].ty));
                }
                if !ready(&fields[i].ty, rank, unset) {
                    return false;
                }
                i = i + 1;
            }
            true
        },
        Ty::Variant(cases) => {
            let mut i: usize = 0;
            while i < cases.len()
                invariant
                    i <= cases@.len(),
                    *ty is Variant,
                    ty->Variant_0 == *cases,
                    refs_defined(rank@.len(), *ty),
                    forall|k: int| 0 <= k < rank@.len() ==> (#[trigger] rank@[k]) <= unset,
                    forall|k: int|
                        0 <= k < i ==> match (#[trigger] cases@[k]).payload {
                            Some(payload) => ranked_below(rank@, unset as nat, payload),
                            None => true,
                        },
                decreases cases@.len() - i,
            {
                proof {
                    assert(decreases_to!(*cases => cases[i as int]));
                    assert(match cases@[i as int].payload {
                        Some(payload) => refs_defined(rank@.len(), payload),
                        None => true,
                    });
                }
                match &cases[i].payload {
                    Some(payload) => {
                        if !ready(payload, rank, unset) {
                            return false;
                        }
                    },
                    None => {},
                }
                i = i + 1;
            }
            true
        },
        Ty::Ref(j) => rank[*j] < unset,
        _ => true,
    }
}

/// The layout of `ty`, or `None` where its encoding, or that of a type
/// inside it, does not fit 32-bit memory; with `deep` unset, the elements
/// of lists are not looked at.
pub fn fitted(named: &Vec<Layout>, ty: &Ty, deep: bool) -> (l: Option<Layout>)
    requires
        refs_defined(named@.len(), *ty),
        forall|k: int| 0 <= k < named@.len() ==> is_align((#[trigger] named@[k]).align as nat),
    ensures
        l is Some == fits(named@, *ty, deep),
        l matches Some(own) ==> own.size as nat == size_of(named@, *ty) && own.align as nat
            == align_of(named@, *ty),
        is_align(align_of(named@, *ty)),
    decreases ty,
{
    match ty {
        Ty::Bool | Ty::U8 | Ty::S8 => Some(Layout { size: 1, align: 1 }),
        Ty::U16 | Ty::S16 => Some(Layout { size: 2, align: 2 }),
        Ty::U32 | Ty::S32 | Ty::F32 | Ty::Char => Some(Layout { size: 4, align: 4 }),
        Ty::U64 | Ty::S64 | Ty::F64 => Some(Layout { size: 8, align: 8 }),
        Ty::Str => Some(Layout { size: 8, align: 4 }),
        Ty::List(elem) => {
            if deep {
                match fitted(named, elem, deep) {
                    Some(_) => Some(Layout { size: 8, align: 4 }),
                    None => None,
                }
            } else {
                Some(Layout { size: 8, align: 4 })
            }
        },
        Ty::Handle(_, _) => Some(Layout { size: 4, align: 4 }),
        Ty::Flags(n) => {
            if *n <= 8 {
                Some(Layout { size: 1, align: 1 })
            } else if *n <= 16 {
                Some(Layout { size: 2, align: 2 })
            } else if *n <= 32 {
                Some(Layout { size: 4, align: 4 })
            } else {
                Some(Layout { size: 8, align: 4 })
            }
        },
        Ty::Record(fields) => fitted_record(named, ty, fields, deep),
        Ty::Variant(cases) => fitted_variant(named, ty, cases, deep),
        Ty::Ref(j) => Some(named[*j]),
    }
}

#[verifier::loop_isolation(false)]
fn fitted_record(named: &Vec<Layout>, ty: &Ty, fields: &Vec<Field>, deep: bool) -> (l: Option<
    Layout,
>)
    requires
        *ty is Record,
        ty->Record_0 == *fields,
        refs_defined(named@.len(), *ty),
        forall|k: int| 0 <= k < named@.len() ==> is_align((#[trigger] named@[k]).align as nat),
    ensures
        l is Some == fits(named@, *ty, deep),
        l matches Some(own) ==> own.size as nat == size_of(named@, *ty) && own.align as nat
            == align_of(named@, *ty),
        is_align(align_of(named@, *ty)),
    decreases ty, 0nat,
{
    let mut end: u64 = 0;
    let mut align: u32 = 1;
    let mut good: bool = true;
    let mut i: usize = 0;
    while i < fields.len()
        invariant
            i <= fields@.len(),
            is_align(align as nat),
            align as nat == fields_layout(named@, fields@, i as nat).align,
            good ==> end as nat == fields_layout(named@, fields@, i as nat).size && end
                <= u32::MAX,
            good ==> forall|k: int| 0 <= k < i ==> fits(named@, (#[trigger] fields@[k]).ty, deep),
            !good ==> !fits(named@, *ty, deep),
        decreases fields@.len() - i,
    {
        proof {
            assert(decreases_to!(*fields => fields[i as int]));
            assert(refs_defined(named@.len(), fields@[i as int].ty));
            crate::abi::layout::lemma_fields_prefix(
                named@,
                fields@,
                (i + 1) as nat,
                fields@.len(),
            );
        }
        let own = fitted(named, &fields[i].ty, deep);
        let ghost spec_align = align_of(named@, fields@[i as int].ty);
        match own {
            Some(own) => {
                if good {
                    let next: u64 = round_up(end, own.align) + own.size as u64;
                    if next > u32::MAX as u64 {
                        good = false;
                    } else {
                        end = next;
                    }
                }
                if own.align > align {
                    align = own.align;
                }
            },
            None => {
                good = false;
                align = self::wider(align, named, &fields[i].ty);
            },
        }
        i = i + 1;
    }
    if !good {
        return None;
    }
    let size: u64 = round_up(end, align);
    if size > u32::MAX as u64 {
        None
    } else {
        Some(Layout { size: size as u32, align })
    }
}

/// The larger of `align` and the alignment of `ty`.
fn wider(align: u32, named: &Vec<Layout>, ty: &Ty) -> (out: u32)
    requires
        is_align(align as nat),
        refs_defined(named@.len(), *ty),
        forall|k: int| 0 <= k < named@.len() ==> is_align((#[trigger] named@[k]).align as nat),
    ensures
        out as nat == crate::types::max_nat(align as nat, align_of(named@, *ty)),
        is_align(out as nat),
    decreases ty, 1nat,
{
    let own = alignment(named, ty);
    if own > align {
        own
    } else {
        align
    }
}

/// The alignment of `ty`, whatever its size.
#[verifier::loop_isolation(false)]
fn alignment(named: &Vec<Layout>, ty: &Ty) -> (align: u32)
    requires
        refs_defined(named@.len(), *ty),
        forall|k: int| 0 <= k < named@.len() ==> is_align((#[trigger] named@[k]).align as nat),
    ensures
        align as nat == align_of(named@, *ty),
        is_align(align as nat),
    decreases ty, 0nat,
{
    match ty {
        Ty::Bool | Ty::U8 | Ty::S8 => 1,
        Ty::U16 | Ty::S16 => 2,
        Ty::U32 | Ty::S32 | Ty::F32 | Ty::Char => 4,
        Ty::U64 | Ty::S64 | Ty::F64 => 8,
        Ty::Str | Ty::List(_) | Ty::Handle(_, _) => 4,
        Ty::Flags(n) => {
            if *n <= 8 {
                1
            } else if *n <= 16 {
                2
            } else {
                4
            }
        },
        Ty::Record(fields) => {
            let mut align: u32 = 1;
            let mut i: usize = 0;
            while i < fields.len()
                invariant
                    i <= fields@.len(),
                    is_align(align as nat),
                    align as nat == fields_layout(named@, fields@, i as nat).align,
                decreases fields@.len() - i,
            {
                proof {
                    assert(decreases_to!(*fields => fields[i as int]));
                    assert(refs_defined(named@.len(), fields@[i as int].ty));
                }
                let own = alignment(named, &fields[i].ty);
                if own > align {
                    align = own;
                }
                i = i + 1;
            }
            align
        },
        Ty::Variant(cases) => {
            let mut align: u32 = 1;
            let mut i: usize = 0;
            while i < cases.len()
                invariant
                    i <= cases@.len(),
                    is_align(align as nat),
                    align as nat == cases_layout(named@, cases@, i as nat).align,
                decreases cases@.len() - i,
            {
                proof {
                    assert(decreases_to!(*cases => cases[i as int]));
                    assert(match cases@[i as int].payload {
                        Some(payload) => refs_defined(named@.len(), payload),
                        None => true,
                    });
                }
                match &cases[i].payload {
                    Some(payload) => {
                        let own = alignment(named, payload);
                        if own > align {
                            align = own;
                        }
                    },
                    None => {},
                }
                i = i + 1;
            }
            let disc: u32 = disc_bytes(cases.len());
            if disc > align {
                disc
            } else {
                align
            }
        },
        Ty::Ref(j) => named[*j].align,
    }
}

#[verifier::loop_isolation(false)]
fn fitted_variant(named: &Vec<Layout>, ty: &Ty, cases: &Vec<Case>, deep: bool) -> (l: Option<
    Layout,
>)
    requires
        *ty is Variant,
        ty->Variant_0 == *cases,
        refs_defined(named@.len(), *ty),
        forall|k: int| 0 <= k < named@.len() ==> is_align((#[trigger] named@[k]).align as nat),
    ensures
        l is Some == fits(named@, *ty, deep),
        l matches Some(own) ==> own.size as nat == size_of(named@, *ty) && own.align as nat
            == align_of(named@, *ty),
        is_align(align_of(named@, *ty)),
    decreases ty, 0nat,
{
    let mut size: u32 = 0;
    let mut align: u32 = 1;
    let mut good: bool = true;
    let mut i: usize = 0;
    while i < cases.len()
        invariant
            i <= cases@.len(),
            is_align(align as nat),
            align as nat == cases_layout(named@, cases@, i as nat).align,
            good ==> size as nat == cases_layout(named@, cases@, i as nat).size,
            good ==> forall|k: int|
                0 <= k < i ==> match (#[trigger] cases@[k]).payload {
                    Some(payload) => fits(named@, payload, deep),
                    None => true,
                },
            !good ==> !fits(named@, *ty, deep),
        decreases cases@.len() - i,
    {
        proof {
            assert(decreases_to!(*cases => cases[i as int]));
            assert(match cases@[i as int].payload {
                Some(payload) => refs_defined(named@.len(), payload),
                None => true,
            });
        }
        match &cases[i].payload {
            Some(payload) => {
                match fitted(named, payload, deep) {
                    Some(own) => {
                        if own.size > size {
                            size = own.size;
                        }
                        if own.align > align {
                            align = own.align;
                        }
                    },
                    None => {
                        good = false;
                        align = self::wider(align, named, payload);
                    },
                }
            },
            None => {},
        }
        i = i + 1;
    }
    let disc: u32 = disc_bytes(cases.len());
    let whole: u32 = if disc > align {
        disc
    } else {
        align
    };
    if !good {
        return None;
    }
    let start: u64 = round_up(disc as u64, align);
    let total: u64 = round_up(start + size as u64, whole);
    if total > u32::MAX as u64 {
        None
    } else {
        Some(Layout { size: total as u32, align: whole })
    }
}

} // verus!
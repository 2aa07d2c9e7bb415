//! Instantiation: the export section that a guest artifact carries is held
//! against the host's schema before the guest is entered.

use crate::schema::{Func, Interface, Schema};
use crate::types::{Case, Field, Ty};
use vstd::prelude::*;

verus! {

/// Why a guest could not be instantiated.
#[derive(Clone, Copy, Debug, PartialEq, Eq, Structural)]
pub enum InstantiateError {
    /// The exports that the artifact carries are not those of the schema.
    SchemaMismatch,
}

/// Two types are written alike: the same constructors, the same names of
/// fields and cases, the same references.
pub open spec fn same_ty(a: Ty, b: Ty) -> bool
    decreases a,
{
    match (a, b) {
        (Ty::Bool, Ty::Bool) => true,
        (Ty::U8, Ty::U8) => true,
        (Ty::U16, Ty::U16) => true,
        (Ty::U32, Ty::U32) => true,
        (Ty::U64, Ty::U64) => true,
        (Ty::S8, Ty::S8) => true,
        (Ty::S16, Ty::S16) => true,
        (Ty::S32, Ty::S32) => true,
        (Ty::S64, Ty::S64) => true,
        (Ty::F32, Ty::F32) => true,
        (Ty::F64, Ty::F64) => true,
        (Ty::Char, Ty::Char) => true,
        (Ty::Str, Ty::Str) => true,
        (Ty::List(x), Ty::List(y)) => same_ty(*x, *y),
        (Ty::Record(f), Ty::Record(g)) => f@.len() == g@.len() && forall|i: int|
            0 <= i < f@.len() ==> (#[trigger] f@[i]).name@ == g@[i].name@ && same_ty(
                f@[i].ty,
                g@[i].ty,
            ),
        (Ty::Variant(c), Ty::Variant(d)) => c@.len() == d@.len() && forall|i: int|
            0 <= i < c@.len() ==> (#[trigger] c@[i]).name@ == d@[i].name@ && match (
                c@[i].payload,
                d@[i].payload,
            ) {
                (None, None) => true,
                (Some(x), Some(y)) => same_ty(x, y),
                _ => false,
            },
        (Ty::Flags(n), Ty::Flags(m)) => n == m,
        (Ty::Handle(t, p), Ty::Handle(u, q)) => t == u && p == q,
        (Ty::Ref(i), Ty::Ref(j)) => i == j,
        _ => false,
    }
}

/// Two functions have the same name and the same signature.
pub open spec fn same_func(f: Func, g: Func) -> bool {
    &&& f.name@ == g.name@
    &&& f.params@.len() == g.params@.len()
    &&& forall|i: int|
        0 <= i < f.params@.len() ==> (#[trigger] f.params@[i]).name@ == g.params@[i].name@
            && same_ty(f.params@[i].ty, g.params@[i].ty)
    &&& match (f.result, g.result) {
        (None, None) => true,
        (Some(x), Some(y)) => same_ty(x, y),
        _ => false,
    }
}

/// Two export sections name the same interfaces with the same functions,
/// in the same order.
pub open spec fn same_exports(host: Seq<Interface>, embedded: Seq<Interface>) -> bool {
    &&& host.len() == embedded.len()
    &&& forall|k: int|
        0 <= k < host.len() ==> (#[trigger] host[k]).name@ == embedded[k].name@
            && host[k].funcs@.len() == embedded[k].funcs@.len()
    &&& forall|k: int, f: int|
        0 <= k < host.len() && 0 <= f < host[k].funcs@.len() && f < embedded[k].funcs@.len()
            ==> same_func(#[trigger] host[k].funcs@[f], embedded[k].funcs@[f])
}

#[verifier::loop_isolation(false)]
fn fields_alike(ty: &Ty, f: &Vec<Field>, g: &Vec<Field>) -> (eq: bool)
    requires
        *ty is Record,
        ty->Record_0 == *f,
    ensures
        eq == same_ty(*ty, Ty::Record(*g)),
    decreases ty, 0nat,
{
    if f.len() != g.len() {
        return false;
    }
    let mut i: usize = 0;
    while i < f.len()
        invariant
            i <= f@.len() == g@.len(),
            forall|k: int|
                0 <= k < i ==> (#[trigger] f@[k]).name@ == g@[k].name@ && same_ty(
                    f@[k].ty,
                    g@[k].ty,
                ),
        decreases f@.len() - i,
    {
        proof {
            assert(decreases_to!(*f => f[i as int]));
        }
        if !(f[i].name == g[i].name && f[i].ty.alike(&g[i].ty)) {
            return false;
        }
        i = i + 1;
    }
    true
}

#[verifier::loop_isolation(false)]
fn cases_alike(ty: &Ty, c: &Vec<Case>, d: &Vec<Case>) -> (eq: bool)
    requires
        *ty is Variant,
        ty->Variant_0 == *c,
    ensures
        eq == same_ty(*ty, Ty::Variant(*d)),
    decreases ty, 0nat,
{
    if c.len() != d.len() {
        return false;
    }
    let mut i: usize = 0;
    while i < c.len()
        invariant
            i <= c@.len() == d@.len(),
            forall|k: int|
                0 <= k < i ==> (#[trigger] c@[k]).name@ == d@[k].name@ && match (
                    c@[k].payload,
                    d@[k].payload,
                ) {
                    (None, None) => true,
                    (Some(x), Some(y)) => same_ty(x, y),
                    _ => false,
                },
        decreases c@.len() - i,
    {
        proof {
            assert(decreases_to!(*c => c[i as int]));
        }
        if !(c[i].name == d[i].name) {
            return false;
        }
        let same = match (&c[i].payload, &d[i].payload) {
            (None, None) => true,
            (Some(x), Some(y)) => x.alike(y),
            _ => false,
        };
        if !same {
            return false;
        }
        i = i + 1;
    }
    true
}

impl Ty {
    /// Whether `self` and `other` are written alike.
    pub fn alike(&self, other: &Ty) -> (eq: bool)
        ensures
            eq == same_ty(*self, *other),
        decreases self, 1nat,
    {
        match (self, other) {
            (Ty::Bool, Ty::Bool) => true,
            (Ty::U8, Ty::U8) => true,
            (Ty::U16, Ty::U16) => true,
            (Ty::U32, Ty::U32) => true,
            (Ty::U64, Ty::U64) => true,
            (Ty::S8, Ty::S8) => true,
            (Ty::S16, Ty::S16) => true,
            (Ty::S32, Ty::S32) => true,
            (Ty::S64, Ty::S64) => true,
            (Ty::F32, Ty::F32) => true,
            (Ty::F64, Ty::F64) => true,
            (Ty::Char, Ty::Char) => true,
            (Ty::Str, Ty::Str) => true,
            (Ty::List(x), Ty::List(y)) => (**x).alike(&**y),
            (Ty::Record(f), Ty::Record(g)) => fields_alike(self, f, g),
            (Ty::Variant(c), Ty::Variant(d)) => cases_alike(self, c, d),
            (Ty::Flags(n), Ty::Flags(m)) => *n == *m,
            (Ty::Handle(t, p), Ty::Handle(u, q)) => *t == *u && *p == *q,
            (Ty::Ref(i), Ty::Ref(j)) => *i == *j,
            _ => false,
        }
    }
}

/// Whether two functions have the same name and the same signature.
#[verifier::loop_isolation(false)]
pub fn funcs_alike(f: &Func, g: &Func) -> (eq: bool)
    ensures
        eq == same_func(*f, *g),
{
    if !(f.name == g.name) || f.params.len() != g.params.len() {
        return false;
    }
    let mut i: usize = 0;
    while i < f.params.len()
        invariant
            i <= f.params@.len() == g.params@.len(),
            forall|k: int|
                0 <= k < i ==> (#[trigger] f.params@[k]).name@ == g.params@[k].name@ && same_ty(
                    f.params@[k].ty,
                    g.params@[k].ty,
                ),
        decreases f.params@.len() - i,
    {
        if !(f.params[i].name == g.params[i].name && f.params[i].ty.alike(&g.params[i].ty)) {
            return false;
        }
        i = i + 1;
    }
    match (&f.result, &g.result) {
        (None, None) => true,
        (Some(x), Some(y)) => x.alike(y),
        _ => false,
    }
}

impl Schema {
    /// Holds the export section that a guest artifact carries against the
    /// exports of this schema: instantiation goes on only where they name
    /// the same interfaces with the same functions.
    #[verifier::loop_isolation(false)]
    pub fn verify_exports(&self, embedded: &Vec<Interface>) -> (res: Result<(), InstantiateError>)
        ensures
            res is Ok == same_exports(self.world().exports@, embedded@),
    {
        let host = &self.signatures().exports;
        if host.len() != embedded.len() {
            return Err(InstantiateError::SchemaMismatch);
        }
        let mut k: usize = 0;
        while k < host.len()
            invariant
                k <= host@.len() == embedded@.len(),
                forall|q: int|
                    0 <= q < k ==> (#[trigger] host@[q]).name@ == embedded@[q].name@
                        && host@[q].funcs@.len() == embedded@[q].funcs@.len(),
                forall|q: int, f: int|
                    0 <= q < k && 0 <= f < host@[q].funcs@.len() && f < embedded@[q].funcs@.len()
                        ==> same_func(#[trigger] host@[q].funcs@[f], embedded@[q].funcs@[f]),
            decreases host@.len() - k,
        {
            let ours = &host[k];
            let theirs = &embedded[k];
            if !(ours.name == theirs.name) || ours.funcs.len() != theirs.funcs.len() {
                return Err(InstantiateError::SchemaMismatch);
            }
            let mut f: usize = 0;
            while f < ours.funcs.len()
                invariant
                    f <= ours.funcs@.len() == theirs.funcs@.len(),
                    forall|p: int|
                        0 <= p < f ==> same_func(#[trigger] ours.funcs@[p], theirs.funcs@[p]),
                decreases ours.funcs@.len() - f,
            {
                if !funcs_alike(&ours.funcs[f], &theirs.funcs[f]) {
                    assert(!same_func(host@[k as int].funcs@[f as int], embedded@[k as int].funcs@[f as int]));
                    return Err(InstantiateError::SchemaMismatch);
                }
                f = f + 1;
            }
            k = k + 1;
        }
        Ok(())
    }
}

} // verus!

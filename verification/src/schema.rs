//! The schema: the named types of a world and the functions it imports and
//! exports, checked once and laid out in an order that puts every
//! definition behind the ones it contains.

use crate::abi::model::{ty_wf, Types};
use crate::types::{Field, Layout, Ty};
use crate::validate::{acyclic, consistent, defs_fit, fits, lemma_unique, refs_defined, shape_ok};
use vstd::prelude::*;

verus! {

/// A named type definition.
#[derive(Debug)]
pub struct TypeDef {
    pub name: String,
    pub ty: Ty,
}

/// A function of an interface: named parameters and at most one result.
#[derive(Debug)]
pub struct Func {
    pub name: String,
    pub params: Vec<Field>,
    pub result: Option<Ty>,
}

/// A named set of functions.
#[derive(Debug)]
pub struct Interface {
    pub name: String,
    pub funcs: Vec<Func>,
}

/// What an instance imports and what it exports.
#[derive(Debug)]
pub struct World {
    pub name: String,
    pub imports: Vec<Interface>,
    pub exports: Vec<Interface>,
}

/// Why a schema was refused.
#[derive(Clone, Copy, Debug, PartialEq, Eq, Structural)]
pub enum SchemaError {
    /// A type refers to a definition that does not exist.
    UndefinedType,
    /// A record is empty, a variant has no case or too many, or a flags
    /// type names more bits than fit.
    Malformed,
    /// Two functions of one interface share a name.
    DuplicateFunction,
    /// A definition contains itself other than through a list.
    Cycle,
    /// An encoding does not fit 32-bit memory.
    TooLarge,
}

/// What a type is checked for.
pub enum Check {
    /// Every reference names one of this many definitions.
    Refs(usize),
    /// No aggregate is empty or too wide.
    Shape,
    /// Every encoding fits 32-bit memory.
    Fits,
}

/// What a check asks of a type, with the layouts it is made against.
pub ghost enum Rule {
    Refs(nat),
    Shape,
    Fits(Seq<Layout>),
}

/// The rule that a check stands for, against the given layouts.
pub open spec fn rule_of(check: Check, named: Seq<Layout>) -> Rule {
    match check {
        Check::Refs(n) => Rule::Refs(n as nat),
        Check::Shape => Rule::Shape,
        Check::Fits => Rule::Fits(named),
    }
}

/// Whether a type meets a rule.
pub open spec fn passes(rule: Rule, ty: Ty) -> bool {
    match rule {
        Rule::Refs(n) => refs_defined(n, ty),
        Rule::Shape => shape_ok(ty),
        Rule::Fits(named) => fits(named, ty, true),
    }
}

/// Every parameter and the result of a function meet a rule.
pub open spec fn func_passes(rule: Rule, func: Func) -> bool {
    &&& forall|i: int|
        0 <= i < func.params@.len() ==> passes(rule, (#[trigger] func.params@[i]).ty)
    &&& match func.result {
        Some(ty) => passes(rule, ty),
        None => true,
    }
}

/// Every function of a run meets a rule.
pub open spec fn funcs_pass(rule: Rule, funcs: Seq<Func>) -> bool {
    forall|k: int| 0 <= k < funcs.len() ==> func_passes(rule, #[trigger] funcs[k])
}

/// Every function of every interface meets a rule.
pub open spec fn ifaces_pass(rule: Rule, ifaces: Seq<Interface>) -> bool {
    forall|k: int| 0 <= k < ifaces.len() ==> funcs_pass(rule, (#[trigger] ifaces[k]).funcs@)
}

/// Every type in a signature of the world passes the check.
pub open spec fn world_passes(rule: Rule, world: World) -> bool {
    ifaces_pass(rule, world.imports@) && ifaces_pass(rule, world.exports@)
}

/// Every definition passes the check.
pub open spec fn defs_pass(rule: Rule, defs: Seq<TypeDef>) -> bool {
    forall|j: int| 0 <= j < defs.len() ==> passes(rule, (#[trigger] defs[j]).ty)
}

/// No two functions share a name.
pub open spec fn distinct_names(funcs: Seq<Func>) -> bool {
    forall|i: int, j: int| 0 <= i < j < funcs.len() ==> funcs[i].name@ != funcs[j].name@
}

/// In none of the interfaces do two functions share a name.
pub open spec fn ifaces_distinct(ifaces: Seq<Interface>) -> bool {
    forall|k: int| 0 <= k < ifaces.len() ==> distinct_names((#[trigger] ifaces[k]).funcs@)
}

/// In no interface of the world do two functions share a name.
pub open spec fn world_distinct(world: World) -> bool {
    ifaces_distinct(world.imports@) && ifaces_distinct(world.exports@)
}

/// The bodies of definitions.
pub open spec fn tys_of(defs: Seq<TypeDef>) -> Seq<Ty> {
    Seq::new(defs.len(), |j: int| defs[j].ty)
}

/// The names of definitions.
pub open spec fn names_of(defs: Seq<TypeDef>) -> Seq<Seq<char>> {
    Seq::new(defs.len(), |j: int| defs[j].name@)
}

/// Every parameter and the result of a function are well formed.
pub open spec fn func_wf(t: Types, func: Func) -> bool {
    &&& forall|i: int|
        0 <= i < func.params@.len() ==> ty_wf(t, t.top(), (#[trigger] func.params@[i]).ty)
    &&& match func.result {
        Some(ty) => ty_wf(t, t.top(), ty),
        None => true,
    }
}

/// Every type in a signature of the interfaces is well formed.
pub open spec fn ifaces_wf(t: Types, ifaces: Seq<Interface>) -> bool {
    forall|k: int, f: int|
        0 <= k < ifaces.len() && 0 <= f < ifaces[k].funcs@.len() ==> func_wf(
            t,
            #[trigger] ifaces[k].funcs@[f],
        )
}

/// Every type in a signature of the world is well formed.
pub open spec fn world_wf(t: Types, world: World) -> bool {
    ifaces_wf(t, world.imports@) && ifaces_wf(t, world.exports@)
}

/// Whether a type passes a check.
pub fn check_ty(check: &Check, named: &Vec<Layout>, ty: &Ty) -> (ok: bool)
    requires
        *check is Fits ==> refs_defined(named@.len(), *ty) && forall|k: int|
            0 <= k < named@.len() ==> crate::types::is_align((#[trigger] named@[k]).align as nat),
    ensures
        ok == passes(rule_of(*check, named@), *ty),
{
    match check {
        Check::Refs(n) => crate::validate::refs_checked(ty, *n),
        Check::Shape => crate::validate::shape_checked(ty),
        Check::Fits => crate::validate::fitted(named, ty, true).is_some(),
    }
}

/// Whether every type in the signatures of `funcs` passes a check.
#[verifier::loop_isolation(false)]
pub fn check_funcs(check: &Check, named: &Vec<Layout>, funcs: &Vec<Func>) -> (ok: bool)
    requires
        *check is Fits ==> funcs_pass(Rule::Refs(named@.len()), funcs@)
            && named@.len() <= usize::MAX && forall|k: int|
            0 <= k < named@.len() ==> crate::types::is_align((#[trigger] named@[k]).align as nat),
    ensures
        ok == funcs_pass(rule_of(*check, named@), funcs@),
{
    let mut k: usize = 0;
    while k < funcs.len()
        invariant
            k <= funcs@.len(),
            forall|q: int| 0 <= q < k ==> func_passes(rule_of(*check, named@), #[trigger] funcs@[q]),
        decreases funcs@.len() - k,
    {
        let func = &funcs[k];
        proof {
            if *check is Fits {
                assert(func_passes(Rule::Refs(named@.len()), funcs@[k as int]));
            }
        }
        let mut i: usize = 0;
        while i < func.params.len()
            invariant
                i <= func.params@.len(),
                forall|q: int|
                    0 <= q < i ==> passes(rule_of(*check, named@), (#[trigger] func.params@[q]).ty),
            decreases func.params@.len() - i,
        {
            proof {
                if *check is Fits {
                    assert(passes(
                        Rule::Refs(named@.len()),
                        func.params@[i as int].ty,
                    ));
                }
            }
            if !check_ty(check, named, &func.params[i].ty) {
                assert(!func_passes(rule_of(*check, named@), funcs@[k as int]));
                return false;
            }
            i = i + 1;
        }
        match &func.result {
            Some(ty) => {
                if !check_ty(check, named, ty) {
                    assert(!func_passes(rule_of(*check, named@), funcs@[k as int]));
                    return false;
                }
            },
            None => {},
        }
        k = k + 1;
    }
    true
}

/// Whether every type in the signatures of `ifaces` passes a check.
#[verifier::loop_isolation(false)]
pub fn check_ifaces(check: &Check, named: &Vec<Layout>, ifaces: &Vec<Interface>) -> (ok: bool)
    requires
        *check is Fits ==> ifaces_pass(Rule::Refs(named@.len()), ifaces@)
            && named@.len() <= usize::MAX && forall|k: int|
            0 <= k < named@.len() ==> crate::types::is_align((#[trigger] named@[k]).align as nat),
    ensures
        ok == ifaces_pass(rule_of(*check, named@), ifaces@),
{
    let mut k: usize = 0;
    while k < ifaces.len()
        invariant
            k <= ifaces@.len(),
            forall|q: int|
                0 <= q < k ==> funcs_pass(rule_of(*check, named@), (#[trigger] ifaces@[q]).funcs@),
        decreases ifaces@.len() - k,
    {
        proof {
            if *check is Fits {
                assert(funcs_pass(
                    Rule::Refs(named@.len()),
                    ifaces@[k as int].funcs@,
                ));
            }
        }
        if !check_funcs(check, named, &ifaces[k].funcs) {
            return false;
        }
        k = k + 1;
    }
    true
}

/// Whether every definition passes a check.
#[verifier::loop_isolation(false)]
pub fn check_defs(check: &Check, named: &Vec<Layout>, defs: &Vec<TypeDef>) -> (ok: bool)
    requires
        *check is Fits ==> defs_pass(Rule::Refs(named@.len()), defs@)
            && named@.len() <= usize::MAX && forall|k: int|
            0 <= k < named@.len() ==> crate::types::is_align((#[trigger] named@[k]).align as nat),
    ensures
        ok == defs_pass(rule_of(*check, named@), defs@),
{
    let mut j: usize = 0;
    while j < defs.len()
        invariant
            j <= defs@.len(),
            forall|q: int| 0 <= q < j ==> passes(rule_of(*check, named@), (#[trigger] defs@[q]).ty),
        decreases defs@.len() - j,
    {
        proof {
            if *check is Fits {
                assert(passes(Rule::Refs(named@.len()), defs@[j as int].ty));
            }
        }
        if !check_ty(check, named, &defs[j].ty) {
            return false;
        }
        j = j + 1;
    }
    true
}

/// Whether no two of `funcs` share a name.
#[verifier::loop_isolation(false)]
pub fn names_distinct(funcs: &Vec<Func>) -> (ok: bool)
    ensures
        ok == distinct_names(funcs@),
{
    let mut j: usize = 0;
    while j < funcs.len()
        invariant
            j <= funcs@.len(),
            forall|a: int, b: int| 0 <= a < b < j ==> funcs@[a].name@ != funcs@[b].name@,
        decreases funcs@.len() - j,
    {
        let mut i: usize = 0;
        while i < j
            invariant
                i <= j < funcs@.len(),
                forall|a: int| 0 <= a < i ==> funcs@[a].name@ != funcs@[j as int].name@,
            decreases j - i,
        {
            if funcs[i].name == funcs[j].name {
                return false;
            }
            i = i + 1;
        }
        j = j + 1;
    }
    true
}

/// Whether in none of `ifaces` two functions share a name.
#[verifier::loop_isolation(false)]
pub fn ifaces_names_distinct(ifaces: &Vec<Interface>) -> (ok: bool)
    ensures
        ok == ifaces_distinct(ifaces@),
{
    let mut k: usize = 0;
    while k < ifaces.len()
        invariant
            k <= ifaces@.len(),
            forall|q: int| 0 <= q < k ==> distinct_names((#[trigger] ifaces@[q]).funcs@),
        decreases ifaces@.len() - k,
    {
        if !names_distinct(&ifaces[k].funcs) {
            return false;
        }
        k = k + 1;
    }
    true
}

/// The named types of a world, with each one's rank and layout, and the
/// world's signatures.
pub struct Schema {
    defs: Vec<TypeDef>,
    rank: Vec<usize>,
    layouts: Vec<Layout>,
    world: World,
}

impl View for Schema {
    type V = Types;

    closed spec fn view(&self) -> Types {
        Types { defs: tys_of(self.defs@), rank: self.rank@, layouts: self.layouts@ }
    }
}

impl Schema {
    /// The named types and the types of every signature are well formed.
    pub closed spec fn wf(&self) -> bool {
        &&& self@.wf()
        &&& world_wf(self@, self.world)
    }

    /// The names of the definitions, by position.
    pub closed spec fn names(&self) -> Seq<Seq<char>> {
        names_of(self.defs@)
    }

    /// The imports and exports.
    pub closed spec fn world(&self) -> World {
        self.world
    }

    /// What a well-formed schema gives to those who use its types.
    pub proof fn lemma_wf(&self)
        requires
            self.wf(),
        ensures
            self@.wf(),
            world_wf(self@, self.world()),
            self.names().len() == self@.defs.len(),
    {
    }

    /// A schema without named types, for a world without signatures.
    pub fn empty() -> (schema: Schema)
        ensures
            schema.wf(),
            schema@.defs.len() == 0,
            schema@ == (Types {
                defs: Seq::<Ty>::empty(),
                rank: Seq::<usize>::empty(),
                layouts: Seq::<Layout>::empty(),
            }),
            schema.names() == Seq::<Seq<char>>::empty(),
            schema.world().name@ == Seq::<char>::empty(),
            schema.world().imports@ == Seq::<Interface>::empty(),
            schema.world().exports@ == Seq::<Interface>::empty(),
    {
        let schema = Schema {
            defs: Vec::new(),
            rank: Vec::new(),
            layouts: Vec::new(),
            world: World { name: String::new(), imports: Vec::new(), exports: Vec::new() },
        };
        proof {
            assert(schema@.defs =~= Seq::<Ty>::empty());
            assert(schema.names() =~= Seq::<Seq<char>>::empty());
        }
        schema
    }

    /// How many named types the schema defines.
    pub fn type_count(&self) -> (n: usize)
        ensures
            n == self@.defs.len(),
    {
        self.defs.len()
    }

    /// The body of the definition at position `j`.
    pub fn def(&self, j: usize) -> (ty: &Ty)
        requires
            j < self@.defs.len(),
        ensures
            *ty == self@.defs[j as int],
    {
        &self.defs[j].ty
    }

    /// The layout of the definition at position `j`.
    pub fn def_layout(&self, j: usize) -> (l: Layout)
        requires
            self.wf(),
            j < self@.defs.len(),
        ensures
            l == self@.layouts[j as int],
    {
        self.layouts[j]
    }

    /// The imports and exports of the world.
    pub fn signatures(&self) -> (world: &World)
        ensures
            *world == self.world(),
    {
        &self.world
    }

    /// The position of the first definition named `name`, if there is one.
    pub fn type_index(&self, name: &str) -> (found: Option<usize>)
        ensures
            match found {
                Some(j) => j < self.names().len() && self.names()[j as int] == name@ && forall|
                    k: int,
                | 0 <= k < j ==> self.names()[k] != name@,
                None => forall|k: int| 0 <= k < self.names().len() ==> self.names()[k] != name@,
            },
    {
        let wanted = name.to_owned();
        let mut j: usize = 0;
        while j < self.defs.len()
            invariant
                j <= self.defs@.len(),
                wanted@ == name@,
                forall|k: int| 0 <= k < j ==> self.names()[k] != name@,
            decreases self.defs@.len() - j,
        {
            if self.defs[j].name == wanted {
                return Some(j);
            }
            j = j + 1;
        }
        None
    }
}

/// Every reference in a definition or a signature names a definition.
pub open spec fn declared(defs: Seq<TypeDef>, world: World) -> bool {
    defs_pass(Rule::Refs(defs.len()), defs) && world_passes(Rule::Refs(defs.len()), world)
}

/// Every definition and every type of a signature has a shape that can be
/// laid out.
pub open spec fn shaped(defs: Seq<TypeDef>, world: World) -> bool {
    defs_pass(Rule::Shape, defs) && world_passes(Rule::Shape, world)
}

/// Layouts exist under which every definition has the layout that its body
/// gives, and every definition and every type of a signature fits 32-bit
/// memory.
pub open spec fn laid_out(defs: Seq<TypeDef>, world: World) -> bool {
    exists|layouts: Seq<Layout>|
        consistent(tys_of(defs), layouts) && defs_fit(tys_of(defs), layouts) && world_passes(
            Rule::Fits(layouts),
            world,
        )
}

proof fn lemma_ifaces_wf(t: Types, ifaces: Seq<Interface>)
    requires
        t.rank.len() == t.defs.len(),
        forall|j: int| 0 <= j < t.defs.len() ==> (#[trigger] t.rank[j]) < t.defs.len(),
        ifaces_pass(Rule::Refs(t.defs.len()), ifaces),
        ifaces_pass(Rule::Shape, ifaces),
        ifaces_pass(Rule::Fits(t.layouts), ifaces),
    ensures
        ifaces_wf(t, ifaces),
{
    assert forall|k: int, f: int|
        0 <= k < ifaces.len() && 0 <= f < ifaces[k].funcs@.len() implies func_wf(
        t,
        #[trigger] ifaces[k].funcs@[f],
    ) by {
        let func = ifaces[k].funcs@[f];
        assert(funcs_pass(Rule::Refs(t.defs.len()), ifaces[k].funcs@));
        assert(funcs_pass(Rule::Shape, ifaces[k].funcs@));
        assert(funcs_pass(Rule::Fits(t.layouts), ifaces[k].funcs@));
        assert(func_passes(Rule::Refs(t.defs.len()), func));
        assert(func_passes(Rule::Shape, func));
        assert(func_passes(Rule::Fits(t.layouts), func));
        assert forall|i: int| 0 <= i < func.params@.len() implies ty_wf(
            t,
            t.top(),
            (#[trigger] func.params@[i]).ty,
        ) by {
            let ty = func.params@[i].ty;
            assert(passes(Rule::Refs(t.defs.len()), ty));
            assert(passes(Rule::Shape, ty));
            assert(passes(Rule::Fits(t.layouts), ty));
            crate::validate::lemma_defined_ranked(t.rank, t.defs.len(), ty);
            crate::validate::lemma_checked_wf(t, t.top(), ty);
        }
        match func.result {
            Some(ty) => {
                crate::validate::lemma_defined_ranked(t.rank, t.defs.len(), ty);
                crate::validate::lemma_checked_wf(t, t.top(), ty);
            },
            None => {},
        }
    }
}

impl Schema {
    /// Checks the definitions and the signatures of a world and lays the
    /// definitions out.
    ///
    /// The checks are made in this order, and the first that fails decides
    /// the error: every reference names a definition; every aggregate has a
    /// shape that can be laid out; no interface has two functions of one
    /// name; no definition contains itself other than through a list; every
    /// encoding fits 32-bit memory.
    pub fn build(defs: Vec<TypeDef>, world: World) -> (result: Result<Schema, SchemaError>)
        ensures
            match result {
                Ok(schema) => {
                    &&& schema.wf()
                    &&& schema@.defs == tys_of(defs@)
                    &&& schema.names() == names_of(defs@)
                    &&& schema.world() == world
                    &&& declared(defs@, world)
                    &&& shaped(defs@, world)
                    &&& world_distinct(world)
                    &&& acyclic(tys_of(defs@))
                    &&& laid_out(defs@, world)
                },
                Err(SchemaError::UndefinedType) => !declared(defs@, world),
                Err(SchemaError::Malformed) => declared(defs@, world) && !shaped(defs@, world),
                Err(SchemaError::DuplicateFunction) => declared(defs@, world) && shaped(
                    defs@,
                    world,
                ) && !world_distinct(world),
                Err(SchemaError::Cycle) => declared(defs@, world) && shaped(defs@, world)
                    && world_distinct(world) && !acyclic(tys_of(defs@)),
                Err(SchemaError::TooLarge) => declared(defs@, world) && shaped(defs@, world)
                    && world_distinct(world) && acyclic(tys_of(defs@)) && !laid_out(defs@, world),
            },
    {
        let n: usize = defs.len();
        let none: Vec<Layout> = Vec::new();
        let refs = Check::Refs(n);
        if !(check_defs(&refs, &none, &defs) && check_ifaces(&refs, &none, &world.imports)
            && check_ifaces(&refs, &none, &world.exports)) {
            return Err(SchemaError::UndefinedType);
        }
        let shape = Check::Shape;
        if !(check_defs(&shape, &none, &defs) && check_ifaces(&shape, &none, &world.imports)
            && check_ifaces(&shape, &none, &world.exports)) {
            return Err(SchemaError::Malformed);
        }
        if !(ifaces_names_distinct(&world.imports) && ifaces_names_distinct(&world.exports)) {
            return Err(SchemaError::DuplicateFunction);
        }
        proof {
            assert forall|q: int| 0 <= q < defs@.len() implies refs_defined(
                defs@.len(),
                #[trigger] tys_of(defs@)[q],
            ) && shape_ok(tys_of(defs@)[q]) by {
                assert(passes(Rule::Refs(defs@.len()), defs@[q].ty));
                assert(passes(Rule::Shape, defs@[q].ty));
            }
        }
        let ranked = crate::ranking::rank_defs(&defs);
        if !ranked.complete {
            return Err(SchemaError::Cycle);
        }
        if !ranked.sound {
            return Err(SchemaError::TooLarge);
        }
        let fit = Check::Fits;
        if !(check_defs(&fit, &ranked.layouts, &defs) && check_ifaces(
            &fit,
            &ranked.layouts,
            &world.imports,
        ) && check_ifaces(&fit, &ranked.layouts, &world.exports)) {
            proof {
                let tys = tys_of(defs@);
                let ours = ranked.layouts@;
                assert forall|theirs: Seq<Layout>|
                    !(consistent(tys, theirs) && defs_fit(tys, theirs) && world_passes(
                        Rule::Fits(theirs),
                        world,
                    )) by {
                    if consistent(tys, theirs) && defs_fit(tys, theirs) && world_passes(
                        Rule::Fits(theirs),
                        world,
                    ) {
                        lemma_unique(tys, ranked.rank@, tys.len(), ours, theirs, tys.len());
                        assert forall|k: int| 0 <= k < tys.len() implies ours[k] == theirs[k] by {
                            assert(ranked.rank@[k] < tys.len());
                        }
                        assert(ours =~= theirs);
                        assert forall|j: int| 0 <= j < defs@.len() implies passes(
                            Rule::Fits(ours),
                            (#[trigger] defs@[j]).ty,
                        ) by {
                            assert(fits(theirs, tys[j], true));
                        }
                    }
                }
            }
            return Err(SchemaError::TooLarge);
        }
        let schema = Schema { defs, rank: ranked.rank, layouts: ranked.layouts, world };
        proof {
            let t = schema@;
            assert(t.defs =~= tys_of(defs@));
            assert forall|j: int| 0 <= j < t.defs.len() implies (#[trigger] t.rank[j])
                < t.defs.len() && ty_wf(t, t.rank[j] as nat, t.defs[j]) by {
                assert(passes(Rule::Fits(t.layouts), defs@[j].ty));
                crate::validate::lemma_checked_wf(t, t.rank[j] as nat, t.defs[j]);
            }
            lemma_ifaces_wf(t, world.imports@);
            lemma_ifaces_wf(t, world.exports@);
            assert forall|j: int| 0 <= j < t.defs.len() implies fits(
                t.layouts,
                #[trigger] t.defs[j],
                true,
            ) by {
                assert(passes(Rule::Fits(t.layouts), defs@[j].ty));
            }
            assert(consistent(tys_of(defs@), t.layouts) && defs_fit(tys_of(defs@), t.layouts));
        }
        Ok(schema)
    }
}

} // verus!

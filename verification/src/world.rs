//! The reactor world as a schema: its named types, what it imports from the
//! host's capabilities, and what it exports.

use crate::abi::model::{lift_spec, lower_spec, ty_wf, Types};
use crate::abi::unfold::{law_unfolded_lifts_alike, law_unfolded_lowers_alike, unfolds_to};
use crate::convert::{
    datetime_ty, descriptor_type_ty, is_datetime_ty, is_plain_variant, is_stat_ty, is_strings_ty,
    strings_ty, OUTPUT_STREAM,
};
use crate::schema::{Func, Interface, TypeDef, World};
use crate::types::{Field, Passing, Ty};
use crate::value::Val;
use vstd::prelude::*;

verus! {

/// The position of `datetime` among the world's definitions.
pub const DATETIME: usize = 0;

/// The position of `descriptor-type` among the world's definitions.
pub const DESCRIPTOR_TYPE: usize = 1;

/// The position of `descriptor-stat` among the world's definitions.
pub const DESCRIPTOR_STAT: usize = 2;

/// The type is the record `descriptor-stat`, written with references to
/// the definitions of its enumeration and its timestamps.
pub open spec fn is_stat_def(ty: Ty) -> bool {
    &&& ty is Record
    &&& ty->Record_0@.len() == 8
    &&& ty->Record_0@[0].ty == Ty::U64
    &&& ty->Record_0@[1].ty == Ty::U64
    &&& ty->Record_0@[2].ty == Ty::Ref(DESCRIPTOR_TYPE)
    &&& ty->Record_0@[3].ty == Ty::U64
    &&& ty->Record_0@[4].ty == Ty::U64
    &&& ty->Record_0@[5].ty == Ty::Ref(DATETIME)
    &&& ty->Record_0@[6].ty == Ty::Ref(DATETIME)
    &&& ty->Record_0@[7].ty == Ty::Ref(DATETIME)
}

/// The type is `result` with these payloads on success and on failure.
pub open spec fn is_result_ty(ty: Ty, ok: Option<Ty>, err: Option<Ty>) -> bool {
    &&& ty is Variant
    &&& ty->Variant_0@.len() == 2
    &&& ty->Variant_0@[0].payload == ok
    &&& ty->Variant_0@[1].payload == err
}

/// The type is `list<tuple<string, string>>`.
pub open spec fn is_string_pairs_ty(ty: Ty) -> bool {
    &&& ty is List
    &&& *ty->List_0 is Record
    &&& (*ty->List_0)->Record_0@.len() == 2
    &&& (*ty->List_0)->Record_0@[0].ty == Ty::Str
    &&& (*ty->List_0)->Record_0@[1].ty == Ty::Str
}

/// The interface is `test-reactor`, with its four functions in the order
/// of their declaration, each with the parameters and the result it is
/// declared with.
pub open spec fn is_reactor_exports(iface: Interface) -> bool {
    let funcs = iface.funcs@;
    &&& iface.name@ == "test-reactor"@
    &&& funcs.len() == 4
    &&& funcs[0].name@ == "add-strings"@
    &&& funcs[0].params@.len() == 1
    &&& funcs[0].params@[0].name@ == "ss"@
    &&& is_strings_ty(funcs[0].params@[0].ty)
    &&& funcs[0].result == Some(Ty::U32)
    &&& funcs[1].name@ == "get-strings"@
    &&& funcs[1].params@.len() == 0
    &&& funcs[1].result is Some
    &&& is_strings_ty(funcs[1].result->Some_0)
    &&& funcs[2].name@ == "write-strings-to"@
    &&& funcs[2].params@.len() == 1
    &&& funcs[2].params@[0].name@ == "o"@
    &&& funcs[2].params@[0].ty == Ty::Handle(OUTPUT_STREAM, Passing::Borrowed)
    &&& funcs[2].result is Some
    &&& is_result_ty(funcs[2].result->Some_0, None, None)
    &&& funcs[3].name@ == "pass-an-imported-record"@
    &&& funcs[3].params@.len() == 1
    &&& funcs[3].params@[0].name@ == "stat"@
    &&& funcs[3].params@[0].ty == Ty::Ref(DESCRIPTOR_STAT)
    &&& funcs[3].result == Some(Ty::Str)
}

/// The interfaces are the two that the reactor imports: the environment,
/// which hands out its bindings, and the streams, whose `write` takes a
/// borrowed output stream and bytes and gives the count written.
pub open spec fn is_reactor_imports(ifaces: Seq<Interface>) -> bool {
    &&& ifaces.len() == 2
    &&& ifaces[0].name@ == "wasi:cli-base/environment"@
    &&& ifaces[0].funcs@.len() == 1
    &&& ifaces[0].funcs@[0].name@ == "get-environment"@
    &&& ifaces[0].funcs@[0].params@.len() == 0
    &&& ifaces[0].funcs@[0].result is Some
    &&& is_string_pairs_ty(ifaces[0].funcs@[0].result->Some_0)
    &&& ifaces[1].name@ == "wasi:io/streams"@
    &&& ifaces[1].funcs@.len() == 1
    &&& ifaces[1].funcs@[0].name@ == "write"@
    &&& ifaces[1].funcs@[0].params@.len() == 2
    &&& ifaces[1].funcs@[0].params@[0].name@ == "this"@
    &&& ifaces[1].funcs@[0].params@[0].ty == Ty::Handle(OUTPUT_STREAM, Passing::Borrowed)
    &&& ifaces[1].funcs@[0].params@[1].name@ == "buf"@
    &&& ifaces[1].funcs@[0].params@[1].ty == Ty::List(Box::new(Ty::U8))
    &&& ifaces[1].funcs@[0].result is Some
    &&& is_result_ty(ifaces[1].funcs@[0].result->Some_0, Some(Ty::U64), None)
}

/// The definitions are those of the reactor world: `datetime`,
/// `descriptor-type` and `descriptor-stat`, each at its position.
pub open spec fn is_reactor_defs(defs: Seq<Ty>) -> bool {
    &&& defs.len() == 3
    &&& is_datetime_ty(defs[DATETIME as int])
    &&& is_plain_variant(defs[DESCRIPTOR_TYPE as int], 8)
    &&& is_stat_def(defs[DESCRIPTOR_STAT as int])
}

/// Under the definitions of the reactor world, the reference to
/// `descriptor-stat` is written out as the record that holds its
/// enumeration and its timestamps in place.
pub proof fn lemma_stat_unfolds(t: Types, stat: Ty)
    requires
        t.wf(),
        is_reactor_defs(t.defs),
        is_stat_ty(stat),
    ensures
        unfolds_to(t, t.top(), Ty::Ref(DESCRIPTOR_STAT), stat),
{
    let def = t.defs[DESCRIPTOR_STAT as int];
    let r = t.rank[DESCRIPTOR_STAT as int] as nat;
    let fields = stat->Record_0@;
    assert(ty_wf(t, r, def));
    assert(ty_wf(t, r, def->Record_0@[2].ty));
    assert(ty_wf(t, r, def->Record_0@[5].ty));
    assert(ty_wf(t, r, def->Record_0@[6].ty));
    assert(ty_wf(t, r, def->Record_0@[7].ty));
    let at = t.rank[DATETIME as int] as nat;
    let moment = t.defs[DATETIME as int];
    assert forall|k: int| 5 <= k < 8 implies unfolds_to(t, at, moment, (#[trigger] fields[k]).ty) by {
        let inner = fields[k].ty->Record_0@;
        assert forall|i: int| 0 <= i < inner.len() implies unfolds_to(
            t,
            at,
            moment->Record_0@[i].ty,
            (#[trigger] inner[i]).ty,
        ) by {
            if i == 0 {
            } else {
                assert(i == 1);
            }
        }
    }
    assert(unfolds_to(
        t,
        t.rank[DESCRIPTOR_TYPE as int] as nat,
        t.defs[DESCRIPTOR_TYPE as int],
        fields[2].ty,
    ));
    assert forall|i: int| 0 <= i < fields.len() implies unfolds_to(
        t,
        r,
        def->Record_0@[i].ty,
        (#[trigger] fields[i]).ty,
    ) by {
        if i == 0 {
        } else if i == 1 {
        } else if i == 2 {
        } else if i == 3 {
        } else if i == 4 {
        } else if i == 5 {
        } else if i == 6 {
        } else {
            assert(i == 7);
        }
    }
    assert(unfolds_to(t, r, def, stat));
}

/// Under the definitions of the reactor world, each type of a parameter or
/// a result of an export is written out as the type that a host hands
/// across for it.
pub proof fn lemma_exports_unfold(t: Types, iface: Interface, stat: Ty, verdict: Ty)
    requires
        t.wf(),
        is_reactor_defs(t.defs),
        is_reactor_exports(iface),
        is_stat_ty(stat),
        is_plain_variant(verdict, 2),
    ensures
        unfolds_to(t, t.top(), iface.funcs@[0].params@[0].ty, Ty::List(Box::new(Ty::Str))),
        unfolds_to(t, t.top(), iface.funcs@[0].result->Some_0, Ty::U32),
        unfolds_to(t, t.top(), iface.funcs@[1].result->Some_0, Ty::List(Box::new(Ty::Str))),
        unfolds_to(
            t,
            t.top(),
            iface.funcs@[2].params@[0].ty,
            Ty::Handle(OUTPUT_STREAM, Passing::Borrowed),
        ),
        unfolds_to(t, t.top(), iface.funcs@[2].result->Some_0, verdict),
        unfolds_to(t, t.top(), iface.funcs@[3].params@[0].ty, stat),
        unfolds_to(t, t.top(), iface.funcs@[3].result->Some_0, Ty::Str),
{
    let r = t.top();
    let strings = Ty::List(Box::new(Ty::Str));
    assert(unfolds_to(t, r, Ty::Str, Ty::Str));
    assert(unfolds_to(t, r, strings, strings));
    let declared = iface.funcs@[2].result->Some_0;
    assert forall|i: int| 0 <= i < verdict->Variant_0@.len() implies match (
    #[trigger] verdict->Variant_0@[i]).payload {
        Some(payload) => false,
        None => declared->Variant_0@[i].payload is None,
    } by {
        if i == 0 {
        } else {
            assert(i == 1);
        }
    }
    assert(unfolds_to(t, r, declared, verdict));
    lemma_stat_unfolds(t, stat);
}

/// The types that a host hands across for the exports of `test-reactor`
/// encode as the types of the world's signatures do. Under the definitions
/// of the reactor world, whatever lowering gives for a value under the type
/// of a parameter or a result of an export, it gives under the type that is
/// handed across for it: the list of strings, the `u32`, the borrowed
/// output stream, the `result` without payloads, the string, and for
/// `descriptor-stat` the record written out, read under any definitions.
pub proof fn law_exports_lower_alike(
    t: Types,
    iface: Interface,
    u: Types,
    q: nat,
    stat: Ty,
    verdict: Ty,
    v: Val,
    mem: Seq<u8>,
    cap: nat,
)
    requires
        t.wf(),
        is_reactor_defs(t.defs),
        is_reactor_exports(iface),
        is_stat_ty(stat),
        is_plain_variant(verdict, 2),
    ensures
        lower_spec(t, t.top(), iface.funcs@[0].params@[0].ty, v, mem, cap) == lower_spec(
            u,
            q,
            Ty::List(Box::new(Ty::Str)),
            v,
            mem,
            cap,
        ),
        lower_spec(t, t.top(), iface.funcs@[0].result->Some_0, v, mem, cap) == lower_spec(
            u,
            q,
            Ty::U32,
            v,
            mem,
            cap,
        ),
        lower_spec(t, t.top(), iface.funcs@[1].result->Some_0, v, mem, cap) == lower_spec(
            u,
            q,
            Ty::List(Box::new(Ty::Str)),
            v,
            mem,
            cap,
        ),
        lower_spec(t, t.top(), iface.funcs@[2].params@[0].ty, v, mem, cap) == lower_spec(
            u,
            q,
            Ty::Handle(OUTPUT_STREAM, Passing::Borrowed),
            v,
            mem,
            cap,
        ),
        lower_spec(t, t.top(), iface.funcs@[2].result->Some_0, v, mem, cap) == lower_spec(
            u,
            q,
            verdict,
            v,
            mem,
            cap,
        ),
        lower_spec(t, t.top(), iface.funcs@[3].params@[0].ty, v, mem, cap) == lower_spec(
            u,
            q,
            stat,
            v,
            mem,
            cap,
        ),
        lower_spec(t, t.top(), iface.funcs@[3].result->Some_0, v, mem, cap) == lower_spec(
            u,
            q,
            Ty::Str,
            v,
            mem,
            cap,
        ),
{
    let funcs = iface.funcs@;
    let r = t.top();
    let strings = Ty::List(Box::new(Ty::Str));
    let stream = Ty::Handle(OUTPUT_STREAM, Passing::Borrowed);
    lemma_exports_unfold(t, iface, stat, verdict);
    law_unfolded_lowers_alike(t, r, funcs[0].params@[0].ty, u, q, strings, v, mem, cap);
    law_unfolded_lowers_alike(t, r, funcs[0].result->Some_0, u, q, Ty::U32, v, mem, cap);
    law_unfolded_lowers_alike(t, r, funcs[1].result->Some_0, u, q, strings, v, mem, cap);
    law_unfolded_lowers_alike(t, r, funcs[2].params@[0].ty, u, q, stream, v, mem, cap);
    law_unfolded_lowers_alike(t, r, funcs[2].result->Some_0, u, q, verdict, v, mem, cap);
    law_unfolded_lowers_alike(t, r, funcs[3].params@[0].ty, u, q, stat, v, mem, cap);
    law_unfolded_lowers_alike(t, r, funcs[3].result->Some_0, u, q, Ty::Str, v, mem, cap);
}

/// The types that a host hands across for the exports of `test-reactor`
/// read bytes as the types of the world's signatures do. Under the
/// definitions of the reactor world, whatever lifting gives for flat bytes
/// and a memory under the type of a parameter or a result of an export, it
/// gives under the type that is handed across for it.
pub proof fn law_exports_lift_alike(
    t: Types,
    iface: Interface,
    u: Types,
    q: nat,
    stat: Ty,
    verdict: Ty,
    flat: Seq<u8>,
    mem: Seq<u8>,
    limit: nat,
)
    requires
        t.wf(),
        is_reactor_defs(t.defs),
        is_reactor_exports(iface),
        is_stat_ty(stat),
        is_plain_variant(verdict, 2),
    ensures
        lift_spec(t, t.top(), iface.funcs@[0].params@[0].ty, flat, mem, limit) == lift_spec(
            u,
            q,
            Ty::List(Box::new(Ty::Str)),
            flat,
            mem,
            limit,
        ),
        lift_spec(t, t.top(), iface.funcs@[0].result->Some_0, flat, mem, limit) == lift_spec(
            u,
            q,
            Ty::U32,
            flat,
            mem,
            limit,
        ),
        lift_spec(t, t.top(), iface.funcs@[1].result->Some_0, flat, mem, limit) == lift_spec(
            u,
            q,
            Ty::List(Box::new(Ty::Str)),
            flat,
            mem,
            limit,
        ),
        lift_spec(t, t.top(), iface.funcs@[2].params@[0].ty, flat, mem, limit) == lift_spec(
            u,
            q,
            Ty::Handle(OUTPUT_STREAM, Passing::Borrowed),
            flat,
            mem,
            limit,
        ),
        lift_spec(t, t.top(), iface.funcs@[2].result->Some_0, flat, mem, limit) == lift_spec(
            u,
            q,
            verdict,
            flat,
            mem,
            limit,
        ),
        lift_spec(t, t.top(), iface.funcs@[3].params@[0].ty, flat, mem, limit) == lift_spec(
            u,
            q,
            stat,
            flat,
            mem,
            limit,
        ),
        lift_spec(t, t.top(), iface.funcs@[3].result->Some_0, flat, mem, limit) == lift_spec(
            u,
            q,
            Ty::Str,
            flat,
            mem,
            limit,
        ),
{
    let funcs = iface.funcs@;
    let r = t.top();
    let strings = Ty::List(Box::new(Ty::Str));
    let stream = Ty::Handle(OUTPUT_STREAM, Passing::Borrowed);
    lemma_exports_unfold(t, iface, stat, verdict);
    law_unfolded_lifts_alike(t, r, funcs[0].params@[0].ty, u, q, strings, flat, mem, limit);
    law_unfolded_lifts_alike(t, r, funcs[0].result->Some_0, u, q, Ty::U32, flat, mem, limit);
    law_unfolded_lifts_alike(t, r, funcs[1].result->Some_0, u, q, strings, flat, mem, limit);
    law_unfolded_lifts_alike(t, r, funcs[2].params@[0].ty, u, q, stream, flat, mem, limit);
    law_unfolded_lifts_alike(t, r, funcs[2].result->Some_0, u, q, verdict, flat, mem, limit);
    law_unfolded_lifts_alike(t, r, funcs[3].params@[0].ty, u, q, stat, flat, mem, limit);
    law_unfolded_lifts_alike(t, r, funcs[3].result->Some_0, u, q, Ty::Str, flat, mem, limit);
}

fn named(name: &str, ty: Ty) -> (f: Field)
    ensures
        f.ty == ty,
        f.name@ == name@,
{
    Field { name: name.to_owned(), ty }
}

/// The named types of the reactor world: `datetime`, `descriptor-type` and
/// `descriptor-stat`, in this order.
pub fn reactor_defs() -> (defs: Vec<TypeDef>)
    ensures
        defs@.len() == 3,
        defs@[0].name@ == "datetime"@,
        is_datetime_ty(defs@[0].ty),
        defs@[1].name@ == "descriptor-type"@,
        is_plain_variant(defs@[1].ty, 8),
        defs@[2].name@ == "descriptor-stat"@,
        is_stat_def(defs@[2].ty),
{
    let mut fields: Vec<Field> = Vec::new();
    fields.push(named("device", Ty::U64));
    fields.push(named("inode", Ty::U64));
    fields.push(named("type", Ty::Ref(DESCRIPTOR_TYPE)));
    fields.push(named("link-count", Ty::U64));
    fields.push(named("size", Ty::U64));
    fields.push(named("data-access-timestamp", Ty::Ref(DATETIME)));
    fields.push(named("data-modification-timestamp", Ty::Ref(DATETIME)));
    fields.push(named("status-change-timestamp", Ty::Ref(DATETIME)));
    let mut defs: Vec<TypeDef> = Vec::new();
    defs.push(TypeDef { name: "datetime".to_owned(), ty: datetime_ty() });
    defs.push(TypeDef { name: "descriptor-type".to_owned(), ty: descriptor_type_ty() });
    defs.push(TypeDef { name: "descriptor-stat".to_owned(), ty: Ty::Record(fields) });
    defs
}

fn func(name: &str, params: Vec<Field>, result: Option<Ty>) -> (f: Func)
    ensures
        f.name@ == name@,
        f.params == params,
        f.result == result,
{
    Func { name: name.to_owned(), params, result }
}

/// What the reactor exports: the four functions of `test-reactor`.
pub fn reactor_exports() -> (iface: Interface)
    ensures
        is_reactor_exports(iface),
{
    let mut funcs: Vec<Func> = Vec::new();
    let mut params: Vec<Field> = Vec::new();
    params.push(named("ss", strings_ty()));
    funcs.push(func("add-strings", params, Some(Ty::U32)));
    funcs.push(func("get-strings", Vec::new(), Some(strings_ty())));
    let mut params: Vec<Field> = Vec::new();
    params.push(named("o", Ty::Handle(OUTPUT_STREAM, Passing::Borrowed)));
    funcs.push(func("write-strings-to", params, Some(Ty::result(None, None))));
    let mut params: Vec<Field> = Vec::new();
    params.push(named("stat", Ty::Ref(DESCRIPTOR_STAT)));
    funcs.push(func("pass-an-imported-record", params, Some(Ty::Str)));
    Interface { name: "test-reactor".to_owned(), funcs }
}

/// What the reactor imports from the host: the environment and the write
/// to an output stream.
pub fn reactor_imports() -> (ifaces: Vec<Interface>)
    ensures
        is_reactor_imports(ifaces@),
{
    let mut pair: Vec<Ty> = Vec::new();
    pair.push(Ty::Str);
    pair.push(Ty::Str);
    let mut funcs: Vec<Func> = Vec::new();
    funcs.push(func("get-environment", Vec::new(), Some(Ty::List(Box::new(Ty::tuple(pair))))));
    let environment = Interface { name: "wasi:cli-base/environment".to_owned(), funcs };
    let mut params: Vec<Field> = Vec::new();
    params.push(named("this", Ty::Handle(OUTPUT_STREAM, Passing::Borrowed)));
    params.push(named("buf", Ty::List(Box::new(Ty::U8))));
    let mut funcs: Vec<Func> = Vec::new();
    funcs.push(func("write", params, Some(Ty::result(Some(Ty::U64), None))));
    let streams = Interface { name: "wasi:io/streams".to_owned(), funcs };
    let mut ifaces: Vec<Interface> = Vec::new();
    ifaces.push(environment);
    ifaces.push(streams);
    ifaces
}

/// The reactor world.
pub fn reactor_world() -> (world: World)
    ensures
        world.name@ == "test-reactor"@,
        is_reactor_imports(world.imports@),
        world.exports@.len() == 1,
        is_reactor_exports(world.exports@[0]),
{
    let mut exports: Vec<Interface> = Vec::new();
    exports.push(reactor_exports());
    World { name: "test-reactor".to_owned(), imports: reactor_imports(), exports }
}

} // verus!

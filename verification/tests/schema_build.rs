use test_reactor::abi::lift::lift;
use test_reactor::abi::lower::lower;
use test_reactor::abi::memory::Memory;
use test_reactor::convert::{
    stat_to_value, stat_ty, stream_ty, strings_to_value, strings_ty, unit_result_ty, OUTPUT_STREAM,
};
use test_reactor::instantiate::InstantiateError;
use test_reactor::schema::{Func, Interface, Schema, SchemaError, TypeDef, World};
use test_reactor::stat::{Datetime, DescriptorStat, DescriptorType};
use test_reactor::types::{Case, Field, Layout, Passing, Ty};
use test_reactor::value::Value;
use test_reactor::world::{
    reactor_defs, reactor_exports, reactor_imports, reactor_world, DESCRIPTOR_STAT,
};

fn def(name: &str, ty: Ty) -> TypeDef {
    TypeDef { name: name.to_string(), ty }
}

fn field(name: &str, ty: Ty) -> Field {
    Field { name: name.to_string(), ty }
}

fn no_world() -> World {
    World { name: "w".to_string(), imports: vec![], exports: vec![] }
}

fn world_of(funcs: Vec<Func>) -> World {
    World {
        name: "w".to_string(),
        imports: vec![],
        exports: vec![Interface { name: "i".to_string(), funcs }],
    }
}

fn func(name: &str, params: Vec<Field>, result: Option<Ty>) -> Func {
    Func { name: name.to_string(), params, result }
}

#[test]
fn reactor_world_is_a_schema() {
    let schema = Schema::build(reactor_defs(), reactor_world()).ok().unwrap();
    assert_eq!(schema.type_count(), 3);
    assert_eq!(schema.type_index("descriptor-stat"), Some(DESCRIPTOR_STAT));
    assert_eq!(schema.type_index("datetime"), Some(0));
    assert_eq!(schema.type_index("nope"), None);
    assert_eq!(schema.def_layout(0), Layout { size: 16, align: 8 });
    assert_eq!(schema.def_layout(1), Layout { size: 1, align: 1 });
    assert_eq!(schema.def_layout(2), Layout { size: 88, align: 8 });
    assert_eq!(schema.signatures().exports[0].funcs.len(), 4);
    assert_eq!(schema.signatures().exports[0].funcs[2].name, "write-strings-to");
}

#[test]
fn record_round_trip_through_named_types() {
    let schema = Schema::build(reactor_defs(), reactor_world()).ok().unwrap();
    let stat = DescriptorStat {
        device: 1,
        inode: 2,
        type_: DescriptorType::Directory,
        link_count: 3,
        size: 4,
        data_access_timestamp: Datetime { seconds: 45, nanoseconds: 123 },
        data_modification_timestamp: Datetime { seconds: 10, nanoseconds: 789 },
        status_change_timestamp: Datetime { seconds: 1, nanoseconds: 0 },
    };
    let ty = Ty::Ref(DESCRIPTOR_STAT);
    let value = stat_to_value(&stat);
    let mut mem = Memory::new(64);
    let flat = lower(&schema, &ty, &value, &mut mem).unwrap();
    assert_eq!(flat.len(), 88);
    assert_eq!(&flat[0..8], &[1, 0, 0, 0, 0, 0, 0, 0]);
    assert_eq!(&flat[8..16], &[2, 0, 0, 0, 0, 0, 0, 0]);
    assert_eq!(&flat[16..24], &[3, 0, 0, 0, 0, 0, 0, 0]);
    assert_eq!(&flat[24..32], &[3, 0, 0, 0, 0, 0, 0, 0]);
    assert_eq!(&flat[32..40], &[4, 0, 0, 0, 0, 0, 0, 0]);
    assert_eq!(&flat[40..56], &[45, 0, 0, 0, 0, 0, 0, 0, 123, 0, 0, 0, 0, 0, 0, 0]);
    assert_eq!(&flat[56..72], &[10, 0, 0, 0, 0, 0, 0, 0, 0x15, 3, 0, 0, 0, 0, 0, 0]);
    assert_eq!(&flat[72..88], &[1, 0, 0, 0, 0, 0, 0, 0, 0, 0, 0, 0, 0, 0, 0, 0]);
    assert!(mem.as_slice().is_empty());
    assert!(lift(&schema, &ty, &flat, &mem).unwrap().same(&value));
}

#[test]
fn forward_references_are_resolved() {
    let defs = vec![
        def("outer", Ty::Record(vec![field("a", Ty::U8), field("b", Ty::Ref(2))])),
        def("alias", Ty::Ref(0)),
        def("inner", Ty::Record(vec![field("x", Ty::U16), field("y", Ty::U64)])),
    ];
    let schema = Schema::build(defs, no_world()).ok().unwrap();
    assert_eq!(schema.def_layout(2), Layout { size: 16, align: 8 });
    assert_eq!(schema.def_layout(0), Layout { size: 24, align: 8 });
    assert_eq!(schema.def_layout(1), Layout { size: 24, align: 8 });
    let value = Value::Record(vec![
        Value::U8(1),
        Value::Record(vec![Value::U16(2), Value::U64(3)]),
    ]);
    let mut mem = Memory::new(0);
    let flat = lower(&schema, &Ty::Ref(1), &value, &mut mem).unwrap();
    let mut expected = vec![1u8, 0, 0, 0, 0, 0, 0, 0, 2, 0, 0, 0, 0, 0, 0, 0];
    expected.extend_from_slice(&[3, 0, 0, 0, 0, 0, 0, 0]);
    assert_eq!(flat, expected);
    assert!(lift(&schema, &Ty::Ref(1), &flat, &mem).unwrap().same(&value));
}

#[test]
fn undefined_type_reference_is_refused() {
    let defs = vec![def("a", Ty::Record(vec![field("x", Ty::Ref(1))]))];
    assert_eq!(Schema::build(defs, no_world()).err(), Some(SchemaError::UndefinedType));
    let defs = vec![def("a", Ty::List(Box::new(Ty::Ref(7))))];
    assert_eq!(Schema::build(defs, no_world()).err(), Some(SchemaError::UndefinedType));
    let world = world_of(vec![func("f", vec![field("p", Ty::Ref(0))], None)]);
    assert_eq!(Schema::build(vec![], world).err(), Some(SchemaError::UndefinedType));
    let world = world_of(vec![func("f", vec![], Some(Ty::option(Ty::Ref(1))))]);
    assert_eq!(
        Schema::build(vec![def("a", Ty::U8)], world).err(),
        Some(SchemaError::UndefinedType)
    );
}

#[test]
fn undefined_reference_is_found_before_other_faults() {
    let defs = vec![
        def("a", Ty::Record(vec![])),
        def("b", Ty::Ref(1)),
        def("c", Ty::Ref(9)),
    ];
    let world = world_of(vec![func("f", vec![], None), func("f", vec![], None)]);
    assert_eq!(Schema::build(defs, world).err(), Some(SchemaError::UndefinedType));
}

#[test]
fn empty_aggregates_are_refused() {
    for ty in [
        Ty::Record(vec![]),
        Ty::Variant(vec![]),
        Ty::Flags(65),
        Ty::List(Box::new(Ty::Record(vec![]))),
        Ty::option(Ty::Record(vec![])),
    ] {
        assert_eq!(
            Schema::build(vec![def("a", ty)], no_world()).err(),
            Some(SchemaError::Malformed)
        );
    }
    let world = world_of(vec![func("f", vec![field("p", Ty::Flags(100))], None)]);
    assert_eq!(Schema::build(vec![], world).err(), Some(SchemaError::Malformed));
    assert!(Schema::build(vec![def("a", Ty::Flags(64))], no_world()).is_ok());
}

#[test]
fn duplicate_function_name_is_refused() {
    let world = world_of(vec![
        func("f", vec![], None),
        func("g", vec![], None),
        func("f", vec![field("x", Ty::U8)], None),
    ]);
    assert_eq!(Schema::build(vec![], world).err(), Some(SchemaError::DuplicateFunction));
    let world = World {
        name: "w".to_string(),
        imports: vec![Interface { name: "a".to_string(), funcs: vec![func("f", vec![], None)] }],
        exports: vec![Interface { name: "b".to_string(), funcs: vec![func("f", vec![], None)] }],
    };
    assert!(Schema::build(vec![], world).is_ok());
    let cyclic = vec![def("a", Ty::Ref(0))];
    let world = world_of(vec![func("f", vec![], None), func("f", vec![], None)]);
    assert_eq!(Schema::build(cyclic, world).err(), Some(SchemaError::DuplicateFunction));
}

#[test]
fn cycle_through_an_aggregate_is_refused() {
    let defs = vec![
        def("a", Ty::Record(vec![field("b", Ty::Ref(1))])),
        def("b", Ty::Record(vec![field("a", Ty::Ref(0))])),
    ];
    assert_eq!(Schema::build(defs, no_world()).err(), Some(SchemaError::Cycle));
    assert_eq!(
        Schema::build(vec![def("a", Ty::Ref(0))], no_world()).err(),
        Some(SchemaError::Cycle)
    );
    let defs = vec![
        def("fine", Ty::U8),
        def("a", Ty::option(Ty::Ref(2))),
        def("b", Ty::Variant(vec![Case { name: "c".to_string(), payload: Some(Ty::Ref(1)) }])),
    ];
    assert_eq!(Schema::build(defs, no_world()).err(), Some(SchemaError::Cycle));
}

#[test]
fn cycle_through_a_list_is_a_schema() {
    let defs = vec![def(
        "tree",
        Ty::Record(vec![field("label", Ty::U8), field("kids", Ty::List(Box::new(Ty::Ref(0))))]),
    )];
    let schema = Schema::build(defs, no_world()).ok().unwrap();
    assert_eq!(schema.def_layout(0), Layout { size: 12, align: 4 });
    let leaf = |n: u8| Value::Record(vec![Value::U8(n), Value::List(vec![])]);
    let tree = Value::Record(vec![
        Value::U8(1),
        Value::List(vec![
            Value::Record(vec![Value::U8(2), Value::List(vec![leaf(4), leaf(5)])]),
            leaf(3),
        ]),
    ]);
    let mut mem = Memory::new(4096);
    let flat = lower(&schema, &Ty::Ref(0), &tree, &mut mem).unwrap();
    assert_eq!(flat.len(), 12);
    assert_eq!(mem.len(), 48);
    assert!(lift(&schema, &Ty::Ref(0), &flat, &mem).unwrap().same(&tree));
    assert!(!lift(&schema, &Ty::Ref(0), &flat, &mem).unwrap().same(&leaf(1)));
}

#[test]
fn encoding_beyond_32_bits_is_refused() {
    let mut defs = vec![def("d0", Ty::tuple(vec![Ty::U64, Ty::U64]))];
    for k in 1..=28usize {
        defs.push(def(&format!("d{k}"), Ty::tuple(vec![Ty::Ref(k - 1), Ty::Ref(k - 1)])));
    }
    assert_eq!(Schema::build(defs, no_world()).err(), Some(SchemaError::TooLarge));
    let mut defs = vec![def("d0", Ty::tuple(vec![Ty::U64, Ty::U64]))];
    for k in 1..=27usize {
        defs.push(def(&format!("d{k}"), Ty::tuple(vec![Ty::Ref(k - 1), Ty::Ref(k - 1)])));
    }
    let schema = Schema::build(defs, no_world()).ok().unwrap();
    assert_eq!(schema.def_layout(27), Layout { size: 1 << 31, align: 8 });
    let mut defs = vec![def("d0", Ty::tuple(vec![Ty::U64, Ty::U64]))];
    for k in 1..=27usize {
        defs.push(def(&format!("d{k}"), Ty::tuple(vec![Ty::Ref(k - 1), Ty::Ref(k - 1)])));
    }
    defs.push(def("l", Ty::List(Box::new(Ty::tuple(vec![Ty::Ref(27), Ty::Ref(27)])))));
    assert_eq!(Schema::build(defs, no_world()).err(), Some(SchemaError::TooLarge));
}

#[test]
fn exports_of_the_artifact_must_be_those_of_the_schema() {
    let schema = Schema::build(reactor_defs(), reactor_world()).ok().unwrap();
    assert_eq!(schema.verify_exports(&vec![reactor_exports()]), Ok(()));
    assert_eq!(schema.verify_exports(&vec![]), Err(InstantiateError::SchemaMismatch));
    assert_eq!(
        schema.verify_exports(&vec![reactor_exports(), reactor_exports()]),
        Err(InstantiateError::SchemaMismatch)
    );
    let mut renamed = reactor_exports();
    renamed.funcs[1].name = "get-string".to_string();
    assert_eq!(schema.verify_exports(&vec![renamed]), Err(InstantiateError::SchemaMismatch));
    let mut retyped = reactor_exports();
    retyped.funcs[0].params[0].ty = Ty::List(Box::new(Ty::U8));
    assert_eq!(schema.verify_exports(&vec![retyped]), Err(InstantiateError::SchemaMismatch));
    let mut shorter = reactor_exports();
    shorter.funcs.pop();
    assert_eq!(schema.verify_exports(&vec![shorter]), Err(InstantiateError::SchemaMismatch));
    let mut no_result = reactor_exports();
    no_result.funcs[3].result = None;
    assert_eq!(schema.verify_exports(&vec![no_result]), Err(InstantiateError::SchemaMismatch));
    let mut other_case = reactor_exports();
    other_case.funcs[2].result = Some(Ty::result(None, Some(Ty::U8)));
    assert_eq!(schema.verify_exports(&vec![other_case]), Err(InstantiateError::SchemaMismatch));
    let mut other_stat = reactor_exports();
    other_stat.funcs[3].params[0].ty = Ty::Ref(0);
    assert_eq!(schema.verify_exports(&vec![other_stat]), Err(InstantiateError::SchemaMismatch));
}

#[test]
fn types_written_alike_are_alike() {
    let a = Ty::Record(vec![field("x", Ty::option(Ty::Str)), field("y", Ty::Flags(3))]);
    let b = Ty::Record(vec![field("x", Ty::option(Ty::Str)), field("y", Ty::Flags(3))]);
    let c = Ty::Record(vec![field("x", Ty::option(Ty::Str)), field("z", Ty::Flags(3))]);
    let d = Ty::Record(vec![field("x", Ty::option(Ty::Str)), field("y", Ty::Flags(4))]);
    assert!(a.alike(&b));
    assert!(!a.alike(&c));
    assert!(!a.alike(&d));
    assert!(!Ty::U8.alike(&Ty::S8));
    assert!(Ty::tuple(vec![Ty::U8]).alike(&Ty::tuple(vec![Ty::U8])));
    assert!(!Ty::tuple(vec![Ty::U8]).alike(&Ty::tuple(vec![Ty::U8, Ty::U8])));
}

#[test]
fn signatures_of_the_world_use_the_types_of_the_invokers() {
    let exports = reactor_exports();
    assert!(exports.funcs[0].params[0].ty.alike(&strings_ty()));
    assert!(exports.funcs[0].result.as_ref().unwrap().alike(&Ty::U32));
    assert!(exports.funcs[1].params.is_empty());
    assert!(exports.funcs[1].result.as_ref().unwrap().alike(&strings_ty()));
    assert!(exports.funcs[2].params[0].ty.alike(&stream_ty()));
    assert!(exports.funcs[2].result.as_ref().unwrap().alike(&unit_result_ty()));
    assert!(exports.funcs[3].params[0].ty.alike(&Ty::Ref(DESCRIPTOR_STAT)));
    assert!(exports.funcs[3].result.as_ref().unwrap().alike(&Ty::Str));
}

#[test]
fn empty_schema_has_no_types_and_no_signatures() {
    let schema = Schema::empty();
    assert_eq!(schema.type_count(), 0);
    assert_eq!(schema.type_index("datetime"), None);
    assert!(schema.signatures().name.is_empty());
    assert!(schema.signatures().imports.is_empty());
    assert!(schema.signatures().exports.is_empty());
    assert_eq!(schema.verify_exports(&vec![]), Ok(()));
    assert_eq!(
        schema.verify_exports(&vec![reactor_exports()]),
        Err(InstantiateError::SchemaMismatch)
    );
}

fn lowered_under(schema: &Schema, ty: &Ty, value: &Value) -> (Vec<u8>, Vec<u8>) {
    let mut mem = Memory::new(1 << 12);
    let flat = lower(schema, ty, value, &mut mem).unwrap();
    (flat, mem.as_slice().to_vec())
}

#[test]
fn types_handed_across_encode_as_the_signatures_of_the_world() {
    let world = Schema::build(reactor_defs(), reactor_world()).ok().unwrap();
    let bare = Schema::empty();
    let exports = reactor_exports();
    let stat = stat_to_value(&DescriptorStat {
        device: 9,
        inode: 8,
        type_: DescriptorType::Socket,
        link_count: 7,
        size: 6,
        data_access_timestamp: Datetime { seconds: 5, nanoseconds: 4 },
        data_modification_timestamp: Datetime { seconds: 3, nanoseconds: 2 },
        status_change_timestamp: Datetime { seconds: 1, nanoseconds: 999_999_999 },
    });
    let by_reference = lowered_under(&world, &exports.funcs[3].params[0].ty, &stat);
    let written_out = lowered_under(&bare, &stat_ty(), &stat);
    assert_eq!(by_reference, written_out);
    assert_eq!(by_reference.0.len(), 88);
    assert_eq!(by_reference.0[16], 7);
    assert_eq!(&by_reference.0[80..84], &[0xff, 0xc9, 0x9a, 0x3b]);

    let strings = strings_to_value(&vec!["hello".to_string(), "gussie".to_string()]);
    assert_eq!(
        lowered_under(&world, &exports.funcs[0].params[0].ty, &strings),
        lowered_under(&bare, &strings_ty(), &strings)
    );
    assert_eq!(
        lowered_under(&world, exports.funcs[2].result.as_ref().unwrap(), &Value::err(None)),
        lowered_under(&bare, &unit_result_ty(), &Value::err(None))
    );
    assert_eq!(
        lowered_under(&world, exports.funcs[2].result.as_ref().unwrap(), &Value::err(None)).0,
        vec![1]
    );
    assert!(lower(&world, &stat_ty(), &Value::U32(1), &mut Memory::new(64)).is_err());
    assert!(lower(&world, &Ty::Ref(DESCRIPTOR_STAT), &Value::U32(1), &mut Memory::new(64)).is_err());
}

#[test]
fn world_declares_each_parameter_and_result() {
    let exports = reactor_exports();
    assert_eq!(exports.name, "test-reactor");
    let names: Vec<&str> = exports.funcs.iter().map(|f| f.name.as_str()).collect();
    assert_eq!(
        names,
        vec!["add-strings", "get-strings", "write-strings-to", "pass-an-imported-record"]
    );
    assert_eq!(exports.funcs[0].params.len(), 1);
    assert_eq!(exports.funcs[0].params[0].name, "ss");
    assert_eq!(exports.funcs[2].params.len(), 1);
    assert_eq!(exports.funcs[2].params[0].name, "o");
    assert!(exports.funcs[2].params[0].ty.alike(&Ty::Handle(OUTPUT_STREAM, Passing::Borrowed)));
    assert_eq!(exports.funcs[3].params.len(), 1);
    assert_eq!(exports.funcs[3].params[0].name, "stat");

    let imports = reactor_imports();
    assert_eq!(imports.len(), 2);
    assert_eq!(imports[0].name, "wasi:cli-base/environment");
    assert_eq!(imports[0].funcs.len(), 1);
    assert_eq!(imports[0].funcs[0].name, "get-environment");
    assert!(imports[0].funcs[0].params.is_empty());
    assert!(imports[0].funcs[0]
        .result
        .as_ref()
        .unwrap()
        .alike(&Ty::List(Box::new(Ty::tuple(vec![Ty::Str, Ty::Str])))));
    assert_eq!(imports[1].name, "wasi:io/streams");
    assert_eq!(imports[1].funcs[0].name, "write");
    assert_eq!(imports[1].funcs[0].params.len(), 2);
    assert!(imports[1].funcs[0].params[0].ty.alike(&Ty::Handle(OUTPUT_STREAM, Passing::Borrowed)));
    assert!(imports[1].funcs[0].params[1].ty.alike(&Ty::List(Box::new(Ty::U8))));
    assert!(imports[1].funcs[0]
        .result
        .as_ref()
        .unwrap()
        .alike(&Ty::result(Some(Ty::U64), None)));

    let world = reactor_world();
    assert_eq!(world.name, "test-reactor");
    assert_eq!(world.imports.len(), 2);
    assert_eq!(world.exports.len(), 1);
    assert_eq!(world.exports[0].funcs.len(), 4);
}

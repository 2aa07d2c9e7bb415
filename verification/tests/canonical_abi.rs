use test_reactor::abi::cross::cross;
use test_reactor::abi::lift::lift;
use test_reactor::abi::lower::lower;
use test_reactor::abi::memory::Memory;
use test_reactor::abi::model::{LiftError, LowerError};
use test_reactor::schema::Schema;
use test_reactor::types::{Case, Field, Passing, Ty};
use test_reactor::value::Value;

fn field(name: &str, ty: Ty) -> Field {
    Field { name: name.to_string(), ty }
}

fn lowered(ty: &Ty, value: &Value) -> (Vec<u8>, Vec<u8>) {
    let schema = Schema::empty();
    let mut mem = Memory::new(1 << 16);
    let flat = lower(&schema, ty, value, &mut mem).unwrap();
    (flat, mem.as_slice().to_vec())
}

fn round_trip(ty: &Ty, value: &Value) {
    let schema = Schema::empty();
    let mut mem = Memory::new(1 << 16);
    let flat = lower(&schema, ty, value, &mut mem).unwrap();
    assert!(lift(&schema, ty, &flat, &mem).unwrap().same(value));
    let lifted = lift(&schema, ty, &flat, &mem).unwrap();
    let mut again = Memory::new(1 << 16);
    assert_eq!(lower(&schema, ty, &lifted, &mut again), Ok(flat));
    assert_eq!(again.as_slice(), mem.as_slice());
}

fn memory_with(bytes: &[u8]) -> Memory {
    let mut mem = Memory::new(1 << 16);
    if !bytes.is_empty() {
        assert_eq!(mem.place(bytes, 1, bytes.len()), Ok(0));
    }
    mem
}

#[test]
fn integers_are_little_endian() {
    assert_eq!(lowered(&Ty::U32, &Value::U32(0x0102_0304)).0, vec![4, 3, 2, 1]);
    assert_eq!(lowered(&Ty::U16, &Value::U16(0x0102)).0, vec![2, 1]);
    assert_eq!(lowered(&Ty::U8, &Value::U8(200)).0, vec![200]);
    assert_eq!(
        lowered(&Ty::U64, &Value::U64(0x0102_0304_0506_0708)).0,
        vec![8, 7, 6, 5, 4, 3, 2, 1]
    );
}

#[test]
fn signed_integers_are_twos_complement() {
    assert_eq!(lowered(&Ty::S8, &Value::S8(-1)).0, vec![0xff]);
    assert_eq!(lowered(&Ty::S8, &Value::S8(i8::MIN)).0, vec![0x80]);
    assert_eq!(lowered(&Ty::S16, &Value::S16(-2)).0, vec![0xfe, 0xff]);
    assert_eq!(lowered(&Ty::S32, &Value::S32(i32::MIN)).0, vec![0, 0, 0, 0x80]);
    assert_eq!(lowered(&Ty::S64, &Value::S64(-1)).0, vec![0xff; 8]);
    assert_eq!(lowered(&Ty::S64, &Value::S64(i64::MIN)).0, vec![0, 0, 0, 0, 0, 0, 0, 0x80]);
    assert_eq!(lowered(&Ty::S64, &Value::S64(5)).0, vec![5, 0, 0, 0, 0, 0, 0, 0]);
}

#[test]
fn leaf_values_round_trip() {
    round_trip(&Ty::Bool, &Value::Bool(true));
    round_trip(&Ty::Bool, &Value::Bool(false));
    round_trip(&Ty::S8, &Value::S8(-128));
    round_trip(&Ty::S16, &Value::S16(i16::MIN));
    round_trip(&Ty::S32, &Value::S32(-7));
    round_trip(&Ty::S64, &Value::S64(i64::MAX));
    round_trip(&Ty::U64, &Value::U64(u64::MAX));
    round_trip(&Ty::F32, &Value::F32(1.5f32.to_bits()));
    round_trip(&Ty::F64, &Value::F64((-0.25f64).to_bits()));
    round_trip(&Ty::Char, &Value::Char('\u{10FFFF}'));
    round_trip(&Ty::Char, &Value::Char('é'));
    round_trip(&Ty::Handle(3, Passing::Owning), &Value::Handle(u32::MAX));
    round_trip(&Ty::Flags(64), &Value::Flags(u64::MAX));
}

#[test]
fn bool_and_char_bytes() {
    assert_eq!(lowered(&Ty::Bool, &Value::Bool(true)).0, vec![1]);
    assert_eq!(lowered(&Ty::Bool, &Value::Bool(false)).0, vec![0]);
    assert_eq!(lowered(&Ty::Char, &Value::Char('é')).0, vec![0xe9, 0, 0, 0]);
    assert_eq!(lowered(&Ty::F32, &Value::F32(1.0f32.to_bits())).0, vec![0, 0, 0x80, 0x3f]);
    assert_eq!(lowered(&Ty::Handle(1, Passing::Borrowed), &Value::Handle(7)).0, vec![7, 0, 0, 0]);
}

#[test]
fn string_is_utf8_bytes_with_byte_count() {
    let (flat, mem) = lowered(&Ty::Str, &Value::Str("hi".to_string()));
    assert_eq!(flat, vec![0, 0, 0, 0, 2, 0, 0, 0]);
    assert_eq!(mem, b"hi".to_vec());
    let (flat, mem) = lowered(&Ty::Str, &Value::Str("é!".to_string()));
    assert_eq!(flat, vec![0, 0, 0, 0, 3, 0, 0, 0]);
    assert_eq!(mem, vec![0xc3, 0xa9, b'!']);
    round_trip(&Ty::Str, &Value::Str("grüße, 世界".to_string()));
}

#[test]
fn empty_string_and_empty_list_are_null() {
    let (flat, mem) = lowered(&Ty::Str, &Value::Str(String::new()));
    assert_eq!(flat, vec![0; 8]);
    assert!(mem.is_empty());
    let list = Ty::List(Box::new(Ty::U32));
    let (flat, mem) = lowered(&list, &Value::List(vec![]));
    assert_eq!(flat, vec![0; 8]);
    assert!(mem.is_empty());
    round_trip(&list, &Value::List(vec![]));
    round_trip(&Ty::Str, &Value::Str(String::new()));
}

#[test]
fn list_stores_count_and_pointer_to_elements() {
    let list = Ty::List(Box::new(Ty::U32));
    let (flat, mem) = lowered(&list, &Value::List(vec![Value::U32(1), Value::U32(2)]));
    assert_eq!(flat, vec![0, 0, 0, 0, 2, 0, 0, 0]);
    assert_eq!(mem, vec![1, 0, 0, 0, 2, 0, 0, 0]);
}

#[test]
fn list_elements_are_aligned_in_memory() {
    let ty = Ty::Record(vec![
        field("s", Ty::Str),
        field("l", Ty::List(Box::new(Ty::U16))),
    ]);
    let value = Value::Record(vec![
        Value::Str("abc".to_string()),
        Value::List(vec![Value::U16(7)]),
    ]);
    let (flat, mem) = lowered(&ty, &value);
    assert_eq!(flat, vec![0, 0, 0, 0, 3, 0, 0, 0, 4, 0, 0, 0, 1, 0, 0, 0]);
    assert_eq!(mem, vec![b'a', b'b', b'c', 0, 7, 0]);
    round_trip(&ty, &value);
}

#[test]
fn list_of_strings_points_below_itself() {
    let ty = Ty::List(Box::new(Ty::Str));
    let value = Value::List(vec![
        Value::Str("hello".to_string()),
        Value::Str("$GOOD_DOG".to_string()),
    ]);
    let (flat, mem) = lowered(&ty, &value);
    let mut expected = b"hello$GOOD_DOG".to_vec();
    expected.extend_from_slice(&[0, 0]);
    expected.extend_from_slice(&[0, 0, 0, 0, 5, 0, 0, 0, 5, 0, 0, 0, 9, 0, 0, 0]);
    assert_eq!(mem, expected);
    assert_eq!(flat, vec![16, 0, 0, 0, 2, 0, 0, 0]);
    round_trip(&ty, &value);
}

#[test]
fn record_fields_lie_at_their_alignment() {
    let ty = Ty::Record(vec![field("a", Ty::U8), field("b", Ty::U32), field("c", Ty::U16)]);
    let value = Value::Record(vec![Value::U8(1), Value::U32(2), Value::U16(3)]);
    assert_eq!(lowered(&ty, &value).0, vec![1, 0, 0, 0, 2, 0, 0, 0, 3, 0, 0, 0]);
    round_trip(&ty, &value);
    let ty = Ty::tuple(vec![Ty::U8, Ty::U64]);
    let value = Value::Record(vec![Value::U8(9), Value::U64(1)]);
    assert_eq!(
        lowered(&ty, &value).0,
        vec![9, 0, 0, 0, 0, 0, 0, 0, 1, 0, 0, 0, 0, 0, 0, 0]
    );
}

#[test]
fn absent_option_is_zero_filled() {
    let ty = Ty::option(Ty::U32);
    assert_eq!(lowered(&ty, &Value::none()).0, vec![0; 8]);
    assert_eq!(lowered(&ty, &Value::some(Value::U32(5))).0, vec![1, 0, 0, 0, 5, 0, 0, 0]);
    round_trip(&ty, &Value::none());
    round_trip(&ty, &Value::some(Value::U32(u32::MAX)));
    let ty = Ty::option(Ty::U8);
    assert_eq!(lowered(&ty, &Value::some(Value::U8(5))).0, vec![1, 5]);
}

#[test]
fn result_pads_to_the_larger_alignment() {
    let ty = Ty::result(Some(Ty::U64), Some(Ty::U8));
    assert_eq!(
        lowered(&ty, &Value::ok(Some(Value::U64(9)))).0,
        vec![0, 0, 0, 0, 0, 0, 0, 0, 9, 0, 0, 0, 0, 0, 0, 0]
    );
    assert_eq!(
        lowered(&ty, &Value::err(Some(Value::U8(3)))).0,
        vec![1, 0, 0, 0, 0, 0, 0, 0, 3, 0, 0, 0, 0, 0, 0, 0]
    );
    round_trip(&ty, &Value::err(Some(Value::U8(3))));
    let unit = Ty::result(None, None);
    assert_eq!(lowered(&unit, &Value::ok(None)).0, vec![0]);
    assert_eq!(lowered(&unit, &Value::err(None)).0, vec![1]);
    round_trip(&unit, &Value::err(None));
}

#[test]
fn variant_uses_the_smallest_discriminant_that_fits() {
    let names: Vec<String> = (0..257).map(|i| format!("c{i}")).collect();
    let wide = Ty::enumeration(names);
    assert_eq!(lowered(&wide, &Value::Variant(256, None)).0, vec![0, 1]);
    round_trip(&wide, &Value::Variant(256, None));
    let names: Vec<String> = (0..256).map(|i| format!("c{i}")).collect();
    let narrow = Ty::enumeration(names);
    assert_eq!(lowered(&narrow, &Value::Variant(255, None)).0, vec![255]);
    let mixed = Ty::Variant(vec![
        Case { name: "a".to_string(), payload: Some(Ty::U16) },
        Case { name: "b".to_string(), payload: None },
        Case { name: "c".to_string(), payload: Some(Ty::Str) },
    ]);
    let (flat, _) = lowered(&mixed, &Value::Variant(0, Some(Box::new(Value::U16(0x0201)))));
    assert_eq!(flat, vec![0, 0, 0, 0, 1, 2, 0, 0, 0, 0, 0, 0]);
    round_trip(&mixed, &Value::Variant(2, Some(Box::new(Value::Str("x".to_string())))));
    round_trip(&mixed, &Value::Variant(1, None));
}

#[test]
fn flags_are_a_bit_set() {
    assert_eq!(lowered(&Ty::Flags(3), &Value::Flags(0b101)).0, vec![5]);
    assert_eq!(lowered(&Ty::Flags(9), &Value::Flags(0x101)).0, vec![1, 1]);
    assert_eq!(lowered(&Ty::Flags(17), &Value::Flags(1 << 16)).0, vec![0, 0, 1, 0]);
    assert_eq!(
        lowered(&Ty::Flags(40), &Value::Flags(1 << 39)).0,
        vec![0, 0, 0, 0, 0x80, 0, 0, 0]
    );
    let schema = Schema::empty();
    let mut mem = Memory::new(16);
    assert_eq!(
        lower(&schema, &Ty::Flags(3), &Value::Flags(0b1000), &mut mem),
        Err(LowerError::TypeMismatch)
    );
    assert_eq!(lift(&schema, &Ty::Flags(3), &[8], &mem).err(), Some(LiftError::InvalidScalar));
    assert!(lift(&schema, &Ty::Flags(3), &[7], &mem).unwrap().same(&Value::Flags(7)));
}

#[test]
fn nested_values_round_trip() {
    let person = Ty::Record(vec![
        field("name", Ty::Str),
        field("age", Ty::option(Ty::U8)),
        field("tags", Ty::List(Box::new(Ty::Str))),
        field("score", Ty::result(Some(Ty::S64), Some(Ty::Str))),
    ]);
    let ty = Ty::List(Box::new(person));
    let value = Value::List(vec![
        Value::Record(vec![
            Value::Str("gussie".to_string()),
            Value::some(Value::U8(7)),
            Value::List(vec![Value::Str("good".to_string()), Value::Str(String::new())]),
            Value::ok(Some(Value::S64(-12))),
        ]),
        Value::Record(vec![
            Value::Str("willa".to_string()),
            Value::none(),
            Value::List(vec![]),
            Value::err(Some(Value::Str("pouty".to_string()))),
        ]),
    ]);
    round_trip(&ty, &value);
    let schema = Schema::empty();
    let mut mem = Memory::new(1 << 12);
    assert!(cross(&schema, &ty, &value, &mut mem).unwrap().same(&value));
}

#[test]
fn memory_too_small_is_out_of_memory() {
    let schema = Schema::empty();
    let mut mem = Memory::new(1);
    assert_eq!(
        lower(&schema, &Ty::Str, &Value::Str("hi".to_string()), &mut mem),
        Err(LowerError::OutOfMemory)
    );
    assert!(mem.as_slice().is_empty());
    let mut mem = Memory::new(11);
    let ty = Ty::List(Box::new(Ty::Str));
    let value = Value::List(vec![Value::Str("abc".to_string())]);
    assert_eq!(lower(&schema, &ty, &value, &mut mem), Err(LowerError::OutOfMemory));
    assert!(mem.as_slice().is_empty());
    let mut mem = Memory::new(12);
    assert!(lower(&schema, &ty, &value, &mut mem).is_ok());
    assert_eq!(mem.len(), 12);
}

#[test]
fn value_of_another_type_is_a_mismatch() {
    let schema = Schema::empty();
    let mut mem = Memory::new(64);
    assert_eq!(lower(&schema, &Ty::U32, &Value::U8(1), &mut mem), Err(LowerError::TypeMismatch));
    assert_eq!(
        lower(&schema, &Ty::Str, &Value::List(vec![]), &mut mem),
        Err(LowerError::TypeMismatch)
    );
    let ty = Ty::Record(vec![field("a", Ty::U8), field("b", Ty::U8)]);
    assert_eq!(
        lower(&schema, &ty, &Value::Record(vec![Value::U8(1)]), &mut mem),
        Err(LowerError::TypeMismatch)
    );
    let ty = Ty::option(Ty::U8);
    assert_eq!(
        lower(&schema, &ty, &Value::Variant(2, None), &mut mem),
        Err(LowerError::TypeMismatch)
    );
    assert_eq!(
        lower(&schema, &ty, &Value::Variant(1, None), &mut mem),
        Err(LowerError::TypeMismatch)
    );
    assert_eq!(
        lower(&schema, &ty, &Value::Variant(0, Some(Box::new(Value::U8(1)))), &mut mem),
        Err(LowerError::TypeMismatch)
    );
    assert!(mem.as_slice().is_empty());
}

#[test]
fn lifting_rejects_bytes_that_are_not_utf8() {
    let schema = Schema::empty();
    let mem = memory_with(&[0xff]);
    assert_eq!(lift(&schema, &Ty::Str, &[0, 0, 0, 0, 1, 0, 0, 0], &mem).err(), Some(LiftError::InvalidUtf8));
    let mem = memory_with(&[0xc3, 0xa9]);
    assert!(lift(&schema, &Ty::Str, &[0, 0, 0, 0, 2, 0, 0, 0], &mem).unwrap().same(&Value::Str("é".to_string())));
    assert_eq!(lift(&schema, &Ty::Str, &[0, 0, 0, 0, 1, 0, 0, 0], &mem).err(), Some(LiftError::InvalidUtf8));
}

#[test]
fn lifting_rejects_pointers_out_of_bounds() {
    let schema = Schema::empty();
    let mem = memory_with(b"abcd");
    assert_eq!(lift(&schema, &Ty::Str, &[1, 0, 0, 0, 4, 0, 0, 0], &mem).err(), Some(LiftError::OutOfBounds));
    assert!(lift(&schema, &Ty::Str, &[1, 0, 0, 0, 3, 0, 0, 0], &mem).unwrap().same(&Value::Str("bcd".to_string())));
    assert_eq!(lift(&schema, &Ty::Str, &[0, 0, 0, 0, 1, 0, 0], &mem).err(), Some(LiftError::OutOfBounds));
    assert_eq!(lift(&schema, &Ty::U32, &[1, 2, 3], &mem).err(), Some(LiftError::OutOfBounds));
    let list = Ty::List(Box::new(Ty::U16));
    assert_eq!(lift(&schema, &list, &[0, 0, 0, 0, 3, 0, 0, 0], &mem).err(), Some(LiftError::OutOfBounds));
    assert_eq!(lift(&schema, &list, &[0, 0, 0, 0, 0xff, 0xff, 0xff, 0xff], &mem).err(), Some(LiftError::OutOfBounds));
}

#[test]
fn lifting_rejects_a_list_that_points_at_itself() {
    let schema = Schema::empty();
    let ty = Ty::List(Box::new(Ty::List(Box::new(Ty::U8))));
    let mem = memory_with(&[0, 0, 0, 0, 1, 0, 0, 0]);
    assert_eq!(lift(&schema, &ty, &[0, 0, 0, 0, 1, 0, 0, 0], &mem).err(), Some(LiftError::OutOfBounds));
}

#[test]
fn lifting_rejects_a_misaligned_list() {
    let schema = Schema::empty();
    let list = Ty::List(Box::new(Ty::U32));
    let mem = memory_with(&[0, 1, 0, 0, 0, 0, 0, 0]);
    assert_eq!(lift(&schema, &list, &[1, 0, 0, 0, 1, 0, 0, 0], &mem).err(), Some(LiftError::Misaligned));
    assert!(lift(&schema, &list, &[4, 0, 0, 0, 1, 0, 0, 0], &mem).unwrap().same(&Value::List(vec![Value::U32(0)])));
}

#[test]
fn lifting_rejects_bits_that_no_value_has() {
    let schema = Schema::empty();
    let mem = Memory::new(0);
    assert_eq!(lift(&schema, &Ty::Bool, &[2], &mem).err(), Some(LiftError::InvalidScalar));
    assert_eq!(lift(&schema, &Ty::Char, &[0, 0xd8, 0, 0], &mem).err(), Some(LiftError::InvalidScalar));
    assert_eq!(lift(&schema, &Ty::Char, &[0, 0, 0x11, 0], &mem).err(), Some(LiftError::InvalidScalar));
    assert!(lift(&schema, &Ty::Char, &[0x41, 0, 0, 0], &mem).unwrap().same(&Value::Char('A')));
    let ty = Ty::option(Ty::U8);
    assert_eq!(lift(&schema, &ty, &[2, 0], &mem).err(), Some(LiftError::InvalidDiscriminant));
    assert!(lift(&schema, &ty, &[0, 9], &mem).unwrap().same(&Value::none()));
}

#[test]
fn lifting_ignores_bytes_behind_the_value() {
    let schema = Schema::empty();
    let mem = Memory::new(0);
    assert!(lift(&schema, &Ty::U16, &[1, 2, 3, 4], &mem).unwrap().same(&Value::U16(0x0201)));
}

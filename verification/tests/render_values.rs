use std::collections::HashMap;
use step_debugger::machine::Machine;
use step_debugger::render::locals::{
    pp_operand, print_operand, print_scalar, print_scalar_maybe_undef, variant_index,
};
use step_debugger::render::memory::{AllocKind, Allocation, Memory};
use step_debugger::render::value::{
    Abi, AdtDef, FloatTy, MemPlace, OpTy, Operand, Pointer, PrettyError, Scalar, ScalarMaybeUndef,
    TyKind, Value, VariantDef,
};

const ERR: &str = "<span style='color: red;'>&lt;err&gt;</span>";

fn bits(size: u8, bits: u128) -> ScalarMaybeUndef {
    ScalarMaybeUndef::Scalar(Scalar::Bits { size, bits })
}

fn pointer(alloc_id: u64, offset: u64) -> ScalarMaybeUndef {
    ScalarMaybeUndef::Scalar(Scalar::Ptr(Pointer { alloc_id, offset }))
}

/// An immediate scalar of a primitive type, read back as it stands.
fn immediate(ty: TyKind, size: u8, value: u128) -> OpTy {
    OpTy {
        op: Operand::Immediate(Value::Scalar(bits(size, value))),
        ty,
        size: size as u64,
        abi: Abi::Scalar,
        scalar: Some(bits(size, value)),
        discriminant: None,
        fields: Vec::new(),
        float: String::new(),
        place_debug: String::new(),
    }
}

fn float(ty: FloatTy, size: u8, value: u128, text: &str) -> OpTy {
    let mut op = immediate(TyKind::Float(ty), size, value);
    op.float = text.to_string();
    op
}

fn fat_pointer(alloc_id: u64, offset: u64, len: u128) -> OpTy {
    OpTy {
        op: Operand::Immediate(Value::ScalarPair(pointer(alloc_id, offset), bits(8, len))),
        ty: TyKind::Str,
        size: 16,
        abi: Abi::ScalarPair,
        scalar: None,
        discriminant: None,
        fields: Vec::new(),
        float: String::new(),
        place_debug: String::new(),
    }
}

fn variant(name: &str, fields: &[&str]) -> VariantDef {
    VariantDef { name: name.to_string(), fields: fields.iter().map(|f| f.to_string()).collect() }
}

fn aggregate(def: AdtDef, discriminant: Option<usize>, fields: Vec<Option<OpTy>>) -> OpTy {
    OpTy {
        op: Operand::Indirect(MemPlace {
            ptr: Scalar::Ptr(Pointer { alloc_id: 1, offset: 0 }),
            meta: None,
        }),
        ty: TyKind::Adt(def),
        size: 8,
        abi: Abi::Aggregate,
        scalar: None,
        discriminant,
        fields,
        float: String::new(),
        place_debug: String::new(),
    }
}

fn strukt(path: &str, names: &[&str], fields: Vec<Option<OpTy>>) -> OpTy {
    let def = AdtDef { path: path.to_string(), is_enum: false, variants: vec![variant("", names)] };
    aggregate(def, None, fields)
}

fn data(bytes: &[u8]) -> AllocKind {
    AllocKind::Data(Allocation {
        bytes: bytes.to_vec(),
        defined: vec![true; bytes.len()],
        relocations: HashMap::new(),
    })
}

fn machine_with(allocs: Vec<(u64, AllocKind)>) -> Machine {
    Machine {
        stack: Vec::new(),
        memory: Memory { pointer_size: 8, allocs: allocs.into_iter().collect() },
    }
}

fn empty_machine() -> Machine {
    machine_with(Vec::new())
}

fn pretty(op: &OpTy) -> Result<String, PrettyError> {
    pp_operand(&empty_machine(), op)
}

#[test]
fn raw_scalar_of_bits_is_hexadecimal_of_its_byte_width() {
    assert_eq!(print_scalar(Scalar::Bits { size: 1, bits: 2 }), "0x02");
    assert_eq!(print_scalar(Scalar::Bits { size: 1, bits: 0xab }), "0xAB");
    assert_eq!(print_scalar(Scalar::Bits { size: 2, bits: 0x2a }), "0x002A");
    assert_eq!(print_scalar(Scalar::Bits { size: 4, bits: 0x2a }), "0x0000002A");
    assert_eq!(print_scalar(Scalar::Bits { size: 8, bits: 0 }), "0x0000000000000000");
    assert_eq!(
        print_scalar(Scalar::Bits { size: 16, bits: u128::MAX }),
        "0xFFFFFFFFFFFFFFFFFFFFFFFFFFFFFFFF"
    );
}

#[test]
fn raw_scalar_of_bits_wider_than_its_size_keeps_every_digit() {
    assert_eq!(print_scalar(Scalar::Bits { size: 2, bits: 0xabcde }), "0xABCDE");
}

#[test]
fn raw_scalar_agrees_with_the_formatter() {
    for (size, bits) in [(1u8, 0u128), (1, 0x7f), (2, 0x1234), (3, 5), (8, 0xdead_beef), (16, 1)] {
        assert_eq!(
            print_scalar(Scalar::Bits { size, bits }),
            format!("0x{:0width$X}", bits, width = 2 * size as usize)
        );
    }
}

#[test]
fn raw_scalar_without_size_is_zst() {
    assert_eq!(print_scalar(Scalar::Bits { size: 0, bits: 0 }), "&lt;zst&gt;");
    assert_eq!(print_scalar(Scalar::Bits { size: 0, bits: 5 }), "&lt;zst&gt;");
}

#[test]
fn raw_scalar_of_a_pointer_is_a_link() {
    assert_eq!(
        print_scalar(Scalar::Ptr(Pointer { alloc_id: 5, offset: 3 })),
        "<a href=\"/ptr/5/3\">Pointer(5)[3]</a>"
    );
    assert_eq!(
        print_scalar(Scalar::Ptr(Pointer { alloc_id: 1234, offset: 0 })),
        "<a href=\"/ptr/1234/0\">Pointer(1234)[0]</a>"
    );
}

#[test]
fn raw_undefined_scalar() {
    assert_eq!(print_scalar_maybe_undef(ScalarMaybeUndef::Undef), "&lt;undef&gt;");
    assert_eq!(print_scalar_maybe_undef(bits(1, 0x10)), "0x10");
}

#[test]
fn boolean_zero_is_false_and_one_is_true() {
    assert_eq!(pretty(&immediate(TyKind::Bool, 1, 0)), Ok("false".to_string()));
    assert_eq!(pretty(&immediate(TyKind::Bool, 1, 1)), Ok("true".to_string()));
}

#[test]
fn boolean_two_fails_and_falls_back_to_raw_hex() {
    let op = immediate(TyKind::Bool, 1, 2);
    assert_eq!(pretty(&op), Err(PrettyError::AssumptionNotHeld));
    assert_eq!(print_operand(&empty_machine(), &op), Ok((None, "0x02".to_string())));
}

#[test]
fn pretty_text_stands_before_the_raw_text() {
    let op = immediate(TyKind::Bool, 1, 0);
    assert_eq!(print_operand(&empty_machine(), &op), Ok((None, "false (0x00)".to_string())));
    let op = immediate(TyKind::Bool, 1, 1);
    assert_eq!(print_operand(&empty_machine(), &op), Ok((None, "true (0x01)".to_string())));
}

#[test]
fn ascii_characters_are_quoted() {
    assert_eq!(pretty(&immediate(TyKind::Char, 4, 97)), Ok("'a'".to_string()));
    assert_eq!(pretty(&immediate(TyKind::Char, 4, 0)), Ok("'\0'".to_string()));
    assert_eq!(pretty(&immediate(TyKind::Char, 4, 127)), Ok("'\u{7f}'".to_string()));
}

#[test]
fn other_characters_fail() {
    assert_eq!(pretty(&immediate(TyKind::Char, 4, 128)), Err(PrettyError::AssumptionNotHeld));
    assert_eq!(pretty(&immediate(TyKind::Char, 4, 0xe9)), Err(PrettyError::AssumptionNotHeld));
    assert_eq!(pretty(&immediate(TyKind::Char, 4, 0xd800)), Err(PrettyError::AssumptionNotHeld));
    assert_eq!(pretty(&immediate(TyKind::Char, 4, 0x10ffff)), Err(PrettyError::AssumptionNotHeld));
    assert_eq!(pretty(&immediate(TyKind::Char, 4, 0x110000)), Err(PrettyError::AssumptionNotHeld));
}

#[test]
fn unsigned_integers_are_printed_verbatim() {
    assert_eq!(pretty(&immediate(TyKind::Uint, 1, 255)), Ok("255".to_string()));
    assert_eq!(pretty(&immediate(TyKind::Uint, 8, 0)), Ok("0".to_string()));
    assert_eq!(
        pretty(&immediate(TyKind::Uint, 16, u128::MAX)),
        Ok("340282366920938463463374607431768211455".to_string())
    );
}

#[test]
fn signed_integers_are_sign_extended_from_their_width() {
    assert_eq!(pretty(&immediate(TyKind::Int, 1, 0xff)), Ok("-1".to_string()));
    assert_eq!(pretty(&immediate(TyKind::Int, 1, 0x7f)), Ok("127".to_string()));
    assert_eq!(pretty(&immediate(TyKind::Int, 1, 0x80)), Ok("-128".to_string()));
    assert_eq!(pretty(&immediate(TyKind::Int, 2, 0xff)), Ok("255".to_string()));
    assert_eq!(pretty(&immediate(TyKind::Int, 4, 0xffff_fffe)), Ok("-2".to_string()));
    assert_eq!(pretty(&immediate(TyKind::Int, 8, 5)), Ok("5".to_string()));
    assert_eq!(
        pretty(&immediate(TyKind::Int, 8, 0x8000_0000_0000_0000)),
        Ok("-9223372036854775808".to_string())
    );
    assert_eq!(pretty(&immediate(TyKind::Int, 16, u128::MAX)), Ok("-1".to_string()));
    assert_eq!(
        pretty(&immediate(TyKind::Int, 16, 1 << 127)),
        Ok("-170141183460469231731687303715884105728".to_string())
    );
    assert_eq!(
        pretty(&immediate(TyKind::Int, 16, (1 << 127) - 1)),
        Ok("170141183460469231731687303715884105727".to_string())
    );
}

#[test]
fn signed_integers_read_the_low_bytes_only() {
    assert_eq!(pretty(&immediate(TyKind::Int, 1, 0x1ff)), Ok("-1".to_string()));
    assert_eq!(pretty(&immediate(TyKind::Int, 2, 0x1_0005)), Ok("5".to_string()));
}

#[test]
fn signed_integer_wider_than_sixteen_bytes_fails() {
    assert_eq!(pretty(&immediate(TyKind::Int, 17, 1)), Err(PrettyError::AssumptionNotHeld));
}

#[test]
fn floats_show_the_text_of_their_bits() {
    assert_eq!(pretty(&float(FloatTy::F32, 4, 0x3f80_0000, "1")), Ok("1".to_string()));
    assert_eq!(pretty(&float(FloatTy::F32, 4, 0xffff_fffe, "NaN")), Ok("NaN".to_string()));
    assert_eq!(pretty(&float(FloatTy::F32, 4, 0xffff_ffff, "NaN")), Ok("NaN".to_string()));
    assert_eq!(
        pretty(&float(FloatTy::F64, 8, 0xffff_ffff_ffff_ffff, "NaN")),
        Ok("NaN".to_string())
    );
    assert_eq!(
        pretty(&float(FloatTy::F64, 8, 0x4009_21fb_5444_2d18, "3.141592653589793")),
        Ok("3.141592653589793".to_string())
    );
    assert_eq!(pretty(&float(FloatTy::F64, 8, 0xffff_ffff, "x")), Ok("x".to_string()));
}

#[test]
fn float_bits_out_of_range_fail() {
    assert_eq!(
        pretty(&float(FloatTy::F32, 4, 0x1_0000_0000, "0")),
        Err(PrettyError::AssumptionNotHeld)
    );
    assert_eq!(
        pretty(&float(FloatTy::F32, 4, u128::MAX, "0")),
        Err(PrettyError::AssumptionNotHeld)
    );
    assert_eq!(
        pretty(&float(FloatTy::F64, 8, 0x1_0000_0000_0000_0000, "0")),
        Err(PrettyError::AssumptionNotHeld)
    );
}

#[test]
fn other_primitive_kinds_fail() {
    assert_eq!(pretty(&immediate(TyKind::Other, 4, 1)), Err(PrettyError::AssumptionNotHeld));
}

#[test]
fn zero_sized_values_fail_whatever_their_kind() {
    for ty in [
        TyKind::Bool,
        TyKind::Char,
        TyKind::Uint,
        TyKind::Int,
        TyKind::Float(FloatTy::F32),
        TyKind::Float(FloatTy::F64),
        TyKind::Other,
        TyKind::Str,
    ] {
        assert_eq!(pretty(&immediate(ty, 0, 0)), Err(PrettyError::AssumptionNotHeld));
    }
    let mut sized_scalar = immediate(TyKind::Uint, 1, 1);
    sized_scalar.size = 0;
    assert_eq!(pretty(&sized_scalar), Err(PrettyError::AssumptionNotHeld));
    let mut pointer_scalar = immediate(TyKind::Uint, 8, 0);
    pointer_scalar.size = 0;
    pointer_scalar.scalar = Some(pointer(1, 0));
    assert_eq!(pretty(&pointer_scalar), Err(PrettyError::AssumptionNotHeld));
}

#[test]
fn zero_sized_value_shows_its_raw_text_only() {
    let op = immediate(TyKind::Uint, 0, 0);
    assert_eq!(print_operand(&empty_machine(), &op), Ok((None, "&lt;zst&gt;".to_string())));
}

#[test]
fn layouts_other_than_one_scalar_fail() {
    for abi in [Abi::Uninhabited, Abi::ScalarPair, Abi::Vector, Abi::Aggregate] {
        let mut op = immediate(TyKind::Uint, 4, 1);
        op.abi = abi;
        assert_eq!(pretty(&op), Err(PrettyError::AssumptionNotHeld));
    }
}

#[test]
fn failed_scalar_read_is_unreadable() {
    let mut op = immediate(TyKind::Uint, 4, 1);
    op.scalar = None;
    assert_eq!(pretty(&op), Err(PrettyError::Unreadable));
}

#[test]
fn undefined_scalar_is_unreadable() {
    let mut op = immediate(TyKind::Uint, 4, 1);
    op.scalar = Some(ScalarMaybeUndef::Undef);
    assert_eq!(pretty(&op), Err(PrettyError::Unreadable));
}

#[test]
fn scalar_of_another_size_than_the_type_fails() {
    let mut op = immediate(TyKind::Uint, 4, 1);
    op.scalar = Some(bits(2, 1));
    assert_eq!(pretty(&op), Err(PrettyError::AssumptionNotHeld));
    op.scalar = Some(bits(8, 1));
    assert_eq!(pretty(&op), Err(PrettyError::AssumptionNotHeld));
}

#[test]
fn pointer_scalar_is_a_link_whatever_the_type() {
    for ty in [TyKind::Bool, TyKind::Uint, TyKind::Other] {
        let mut op = immediate(ty, 8, 0);
        op.scalar = Some(pointer(3, 16));
        assert_eq!(pretty(&op), Ok("<a href=\"/ptr/3/16\">Pointer(3)[16]</a>".to_string()));
    }
}

#[test]
fn string_is_read_from_its_allocation() {
    let machine = machine_with(vec![(3, data(b"hello world"))]);
    assert_eq!(pp_operand(&machine, &fat_pointer(3, 6, 5)), Ok("\"world\"".to_string()));
    assert_eq!(pp_operand(&machine, &fat_pointer(3, 0, 11)), Ok("\"hello world\"".to_string()));
    assert_eq!(pp_operand(&machine, &fat_pointer(3, 4, 0)), Ok("\"\"".to_string()));
}

#[test]
fn string_shows_pretty_and_raw_text() {
    let machine = machine_with(vec![(3, data(b"hello world"))]);
    assert_eq!(
        print_operand(&machine, &fat_pointer(3, 6, 5)),
        Ok((
            None,
            "\"world\" (<a href=\"/ptr/3/6\">Pointer(3)[6]</a>, 0x0000000000000005)".to_string()
        ))
    );
}

#[test]
fn string_with_invalid_bytes_is_decoded_with_replacements() {
    let machine = machine_with(vec![(3, data(&[b'o', b'k', 0xff, b'!']))]);
    assert_eq!(pp_operand(&machine, &fat_pointer(3, 0, 4)), Ok("\"ok\u{fffd}!\"".to_string()));
}

#[test]
fn string_beyond_the_allocation_fails() {
    let machine = machine_with(vec![(3, data(b"hello"))]);
    assert_eq!(pp_operand(&machine, &fat_pointer(3, 2, 4)), Err(PrettyError::AssumptionNotHeld));
    assert_eq!(
        pp_operand(&machine, &fat_pointer(3, 0, u128::MAX)),
        Err(PrettyError::AssumptionNotHeld)
    );
    assert_eq!(
        pp_operand(&machine, &fat_pointer(3, 4, u64::MAX as u128)),
        Err(PrettyError::AssumptionNotHeld)
    );
}

#[test]
fn string_at_an_invalid_offset_is_left_to_the_scalar_path() {
    let machine = machine_with(vec![(3, data(b"hello"))]);
    // a fat pointer is no single scalar
    assert_eq!(pp_operand(&machine, &fat_pointer(3, 5, 0)), Err(PrettyError::AssumptionNotHeld));
    assert_eq!(pp_operand(&machine, &fat_pointer(3, 9, 1)), Err(PrettyError::AssumptionNotHeld));
}

#[test]
fn string_in_an_unknown_allocation_is_left_to_the_scalar_path() {
    let machine = machine_with(vec![(3, data(b"hello")), (4, AllocKind::Function)]);
    assert_eq!(pp_operand(&machine, &fat_pointer(7, 0, 1)), Err(PrettyError::AssumptionNotHeld));
    assert_eq!(pp_operand(&machine, &fat_pointer(4, 0, 1)), Err(PrettyError::AssumptionNotHeld));
}

#[test]
fn string_type_that_is_one_scalar_is_read_as_a_scalar() {
    let mut thin = immediate(TyKind::Str, 8, 0);
    thin.scalar = Some(pointer(3, 1));
    assert_eq!(pretty(&thin), Ok("<a href=\"/ptr/3/1\">Pointer(3)[1]</a>".to_string()));
}

#[test]
fn struct_with_a_failing_field_keeps_the_others() {
    let mut unreadable = immediate(TyKind::Uint, 4, 0);
    unreadable.scalar = None;
    let op = strukt(
        "TypeName",
        &["field0", "field1", "field2"],
        vec![
            Some(immediate(TyKind::Uint, 1, 1)),
            Some(unreadable),
            Some(immediate(TyKind::Bool, 1, 1)),
        ],
    );
    let expected = format!(
        "TypeName {{ <details>field0: 1, <br>field1: {}, <br>field2: true, <br></details>}}",
        ERR
    );
    assert_eq!(pretty(&op), Ok(expected));
}

#[test]
fn struct_with_an_unresolved_field_keeps_the_others() {
    let op = strukt(
        "a::B",
        &["x", "y"],
        vec![None, Some(immediate(TyKind::Int, 1, 0xfe))],
    );
    assert_eq!(
        pretty(&op),
        Ok(format!("a::B {{ <details>x: {}, <br>y: -2, <br></details>}}", ERR))
    );
}

#[test]
fn struct_with_fewer_resolved_fields_than_names_marks_the_rest() {
    let op = strukt("a::B", &["x", "y"], vec![Some(immediate(TyKind::Uint, 1, 9))]);
    assert_eq!(
        pretty(&op),
        Ok(format!("a::B {{ <details>x: 9, <br>y: {}, <br></details>}}", ERR))
    );
}

#[test]
fn struct_with_one_field_is_not_folded() {
    let op = strukt("Wrapper", &["inner"], vec![Some(immediate(TyKind::Uint, 1, 1))]);
    assert_eq!(pretty(&op), Ok("Wrapper { inner: 1, }".to_string()));
}

#[test]
fn struct_without_fields() {
    let op = strukt("Unit", &[], vec![]);
    assert_eq!(pretty(&op), Ok("Unit { }".to_string()));
}

#[test]
fn type_path_has_its_angle_brackets_escaped() {
    let op = strukt("std::vec::Vec<T>", &[], vec![]);
    assert_eq!(pretty(&op), Ok("std::vec::Vec&lt;T&gt; { }".to_string()));
}

#[test]
fn struct_field_failing_on_its_bits_is_marked() {
    let op = strukt("S", &["flag"], vec![Some(immediate(TyKind::Bool, 1, 2))]);
    assert_eq!(pretty(&op), Ok(format!("S {{ flag: {}, }}", ERR)));
}

#[test]
fn nested_structs_are_printed_in_place() {
    let inner = strukt("Inner", &["a", "b"], vec![Some(immediate(TyKind::Uint, 1, 1)), None]);
    let outer = strukt("Outer", &["inner"], vec![Some(inner)]);
    assert_eq!(
        pretty(&outer),
        Ok(format!("Outer {{ inner: Inner {{ <details>a: 1, <br>b: {}, <br></details>}}, }}", ERR))
    );
}

fn option_like() -> AdtDef {
    AdtDef {
        path: "core::option::Option<u8>".to_string(),
        is_enum: true,
        variants: vec![variant("None", &[]), variant("Some", &["0"])],
    }
}

#[test]
fn variant_index_of_a_single_variant_is_zero() {
    let def = AdtDef { path: "S".to_string(), is_enum: false, variants: vec![variant("", &[])] };
    assert_eq!(variant_index(&def, None), Ok(0));
    assert_eq!(variant_index(&def, Some(5)), Ok(0));
}

#[test]
fn variant_index_follows_the_discriminant() {
    assert_eq!(variant_index(&option_like(), Some(0)), Ok(0));
    assert_eq!(variant_index(&option_like(), Some(1)), Ok(1));
    assert_eq!(variant_index(&option_like(), Some(2)), Err(PrettyError::AssumptionNotHeld));
    assert_eq!(variant_index(&option_like(), None), Err(PrettyError::Unreadable));
}

#[test]
fn enum_shows_the_active_variant() {
    let some = aggregate(option_like(), Some(1), vec![Some(immediate(TyKind::Uint, 1, 7))]);
    assert_eq!(pretty(&some), Ok("core::option::Option&lt;u8&gt;::Some { 0: 7, }".to_string()));
    let none = aggregate(option_like(), Some(0), vec![]);
    assert_eq!(pretty(&none), Ok("core::option::Option&lt;u8&gt;::None { }".to_string()));
}

#[test]
fn enum_with_one_variant_does_not_read_the_discriminant() {
    let def = AdtDef {
        path: "Single".to_string(),
        is_enum: true,
        variants: vec![variant("Only", &["a", "b"])],
    };
    let op = aggregate(
        def,
        None,
        vec![Some(immediate(TyKind::Uint, 1, 1)), Some(immediate(TyKind::Uint, 1, 2))],
    );
    assert_eq!(
        pretty(&op),
        Ok("Single::Only { <details>a: 1, <br>b: 2, <br></details>}".to_string())
    );
}

#[test]
fn enum_without_a_readable_discriminant_fails() {
    let op = aggregate(option_like(), None, vec![]);
    assert_eq!(pretty(&op), Err(PrettyError::Unreadable));
}

#[test]
fn enum_with_a_discriminant_out_of_range_fails() {
    let op = aggregate(option_like(), Some(2), vec![]);
    assert_eq!(pretty(&op), Err(PrettyError::AssumptionNotHeld));
}

#[test]
fn type_without_variants_fails() {
    let def = AdtDef { path: "Never".to_string(), is_enum: true, variants: vec![] };
    assert_eq!(pretty(&aggregate(def, Some(0), vec![])), Err(PrettyError::AssumptionNotHeld));
}

#[test]
fn undefined_aggregate_fails() {
    let mut op = strukt("S", &[], vec![]);
    op.op = Operand::Immediate(Value::Scalar(ScalarMaybeUndef::Undef));
    assert_eq!(pretty(&op), Err(PrettyError::AssumptionNotHeld));
    assert_eq!(print_operand(&empty_machine(), &op), Ok((None, "&lt;undef&gt;".to_string())));
}

#[test]
fn immediate_aggregate_is_printed() {
    let mut op = strukt("S", &["a"], vec![Some(immediate(TyKind::Uint, 1, 3))]);
    op.op = Operand::Immediate(Value::Scalar(bits(1, 3)));
    assert_eq!(print_operand(&empty_machine(), &op), Ok((None, "S { a: 3, } (0x03)".to_string())));
}

#[test]
fn scalar_pair_shows_both_halves() {
    let op = OpTy {
        op: Operand::Immediate(Value::ScalarPair(bits(2, 0xab), ScalarMaybeUndef::Undef)),
        ty: TyKind::Other,
        size: 4,
        abi: Abi::ScalarPair,
        scalar: None,
        discriminant: None,
        fields: Vec::new(),
        float: String::new(),
        place_debug: String::new(),
    };
    assert_eq!(print_operand(&empty_machine(), &op), Ok((None, "0x00AB, &lt;undef&gt;".to_string())));
}

fn indirect(alloc_id: u64, offset: u64, size: u64, ty: TyKind, scalar: Option<ScalarMaybeUndef>) -> OpTy {
    OpTy {
        op: Operand::Indirect(MemPlace { ptr: Scalar::Ptr(Pointer { alloc_id, offset }), meta: None }),
        ty,
        size,
        abi: Abi::Scalar,
        scalar,
        discriminant: None,
        fields: Vec::new(),
        float: String::new(),
        place_debug: String::new(),
    }
}

#[test]
fn value_in_memory_shows_its_bytes_and_its_allocation() {
    let machine = machine_with(vec![(5, data(&[0x01, 0x02, 0x03, 0x04]))]);
    let op = indirect(5, 1, 2, TyKind::Uint, Some(bits(2, 0x0302)));
    assert_eq!(print_operand(&machine, &op), Ok((Some(5), "770 (0203)".to_string())));
}

#[test]
fn value_in_memory_without_pretty_text_shows_its_bytes() {
    let machine = machine_with(vec![(5, data(&[0x01, 0x02, 0x03, 0x04]))]);
    let op = indirect(5, 0, 4, TyKind::Other, None);
    assert_eq!(print_operand(&machine, &op), Ok((Some(5), "01020304".to_string())));
}

#[test]
fn value_in_unknown_memory_fails() {
    let machine = machine_with(vec![(5, data(&[0x01]))]);
    let op = indirect(6, 0, 1, TyKind::Uint, Some(bits(1, 1)));
    assert_eq!(print_operand(&machine, &op), Err(()));
}

#[test]
fn value_in_memory_whose_place_is_no_pointer_fails() {
    let mut op = indirect(5, 0, 1, TyKind::Uint, Some(bits(1, 1)));
    op.op = Operand::Indirect(MemPlace { ptr: Scalar::Bits { size: 8, bits: 64 }, meta: None });
    assert_eq!(print_operand(&machine_with(vec![(5, data(&[0x01]))]), &op), Err(()));
}

#[test]
fn value_in_a_function_shows_a_note() {
    let machine = machine_with(vec![(8, AllocKind::Function)]);
    let op = indirect(8, 0, 8, TyKind::Other, None);
    assert_eq!(print_operand(&machine, &op), Ok((None, "function pointer".to_string())));
}

#[test]
fn unsized_value_shows_the_text_of_its_place() {
    let mut op = indirect(5, 2, 0, TyKind::Other, None);
    op.op = Operand::Indirect(MemPlace {
        ptr: Scalar::Ptr(Pointer { alloc_id: 5, offset: 2 }),
        meta: Some(Scalar::Bits { size: 8, bits: 3 }),
    });
    op.place_debug = "MemPlace { ptr: Ptr(..), meta: Some(..) }".to_string();
    assert_eq!(
        print_operand(&empty_machine(), &op),
        Ok((None, "MemPlace { ptr: Ptr(..), meta: Some(..) }".to_string()))
    );
    // the place is not looked up: an unknown allocation is no error here
    assert_eq!(
        print_operand(&machine_with(vec![(5, data(&[1, 2, 3]))]), &op),
        Ok((None, "MemPlace { ptr: Ptr(..), meta: Some(..) }".to_string()))
    );
}

#[test]
fn sized_value_in_memory_does_not_show_the_text_of_its_place() {
    let machine = machine_with(vec![(5, data(&[0x01, 0x02]))]);
    let mut op = indirect(5, 0, 2, TyKind::Other, None);
    op.place_debug = "MemPlace".to_string();
    assert_eq!(print_operand(&machine, &op), Ok((Some(5), "0102".to_string())));
}

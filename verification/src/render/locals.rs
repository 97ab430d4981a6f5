//! Text for scalars, values, memory and the locals of a frame.

use crate::machine::{Frame, LocalValue, Machine};
use crate::render::memory::{Allocation, Memory};
use crate::render::value::{
    Abi, AdtDef, FloatTy, OpTy, Operand, Pointer, PrettyError, Scalar, ScalarMaybeUndef, TyKind,
    Value,
};
use crate::text::{
    decimal, escape_angle, escape_angle_brackets, escape_markup, escape_text, hex_byte, hex_padded, push_decimal,
    push_hex_byte, push_hex_padded, push_repeat, push_signed_decimal, quote_lossy, quoted, repeat,
    signed_decimal, utf8_lossy,
};
use vstd::slice::slice_subrange;
use vstd::utf8::{decode_utf8, valid_utf8};
use vstd::prelude::*;
use vstd::string::StringExecFns;

verus! {

/// A pointer as a link to the page of its allocation.
pub open spec fn pointer_text(ptr: Pointer) -> Seq<char> {
    "<a href=\"/ptr/"@ + decimal(ptr.alloc_id as nat) + "/"@ + decimal(ptr.offset as nat)
        + "\">Pointer("@ + decimal(ptr.alloc_id as nat) + ")["@ + decimal(ptr.offset as nat)
        + "]</a>"@
}

/// The raw text of a scalar: a link for a pointer, a marker for a value
/// without size, and otherwise the bits in hexadecimal, zero-filled to the
/// width of the value, two digits for each of its bytes.
pub open spec fn scalar_text(val: Scalar) -> Seq<char> {
    match val {
        Scalar::Ptr(ptr) => pointer_text(ptr),
        Scalar::Bits { size, bits } => if size == 0 {
            "&lt;zst&gt;"@
        } else {
            "0x"@ + hex_padded(bits as nat, 2 * size as nat)
        },
    }
}

/// The raw text of a scalar that may be undefined.
pub open spec fn scalar_maybe_undef_text(val: ScalarMaybeUndef) -> Seq<char> {
    match val {
        ScalarMaybeUndef::Undef => "&lt;undef&gt;"@,
        ScalarMaybeUndef::Scalar(val) => scalar_text(val),
    }
}

fn push_scalar(out: &mut String, val: Scalar)
    ensures
        final(out)@ == old(out)@ + scalar_text(val),
{
    match val {
        Scalar::Ptr(ptr) => {
            out.append("<a href=\"/ptr/");
            push_decimal(out, ptr.alloc_id as u128);
            out.append("/");
            push_decimal(out, ptr.offset as u128);
            out.append("\">Pointer(");
            push_decimal(out, ptr.alloc_id as u128);
            out.append(")[");
            push_decimal(out, ptr.offset as u128);
            out.append("]</a>");
            assert(out@ =~= old(out)@ + pointer_text(ptr));
        },
        Scalar::Bits { size, bits } => {
            if size == 0 {
                out.append("&lt;zst&gt;");
            } else {
                out.append("0x");
                push_hex_padded(out, bits, 2 * (size as usize));
                assert(out@ =~= old(out)@ + scalar_text(val));
            }
        },
    }
}

fn push_scalar_maybe_undef(out: &mut String, val: ScalarMaybeUndef)
    ensures
        final(out)@ == old(out)@ + scalar_maybe_undef_text(val),
{
    match val {
        ScalarMaybeUndef::Undef => out.append("&lt;undef&gt;"),
        ScalarMaybeUndef::Scalar(val) => push_scalar(out, val),
    }
}

/// Renders a scalar in its raw form.
pub fn print_scalar(val: Scalar) -> (text: String)
    ensures
        text@ == scalar_text(val),
{
    let mut out = String::new();
    push_scalar(&mut out, val);
    out
}

/// Renders a scalar that may be undefined in its raw form.
pub fn print_scalar_maybe_undef(val: ScalarMaybeUndef) -> (text: String)
    ensures
        text@ == scalar_maybe_undef_text(val),
{
    let mut out = String::new();
    push_scalar_maybe_undef(&mut out, val);
    out
}

/// Two hundred and fifty-six to the power `size`: the number of values that
/// `size` bytes can hold.
pub open spec fn byte_modulus(size: nat) -> nat
    decreases size,
{
    if size == 0 {
        1
    } else {
        256 * byte_modulus((size - 1) as nat)
    }
}

/// The low `size` bytes of `bits` read as a signed number in two's
/// complement.
pub open spec fn sign_extend(bits: u128, size: nat) -> int {
    let modulus = byte_modulus(size) as int;
    let low = bits as int % modulus;
    if 2 * low >= modulus {
        low - modulus
    } else {
        low
    }
}

proof fn lemma_byte_modulus_values()
    ensures
        byte_modulus(1) == 0x100,
        byte_modulus(2) == 0x1_0000,
        byte_modulus(3) == 0x100_0000,
        byte_modulus(4) == 0x1_0000_0000,
        byte_modulus(5) == 0x100_0000_0000,
        byte_modulus(6) == 0x1_0000_0000_0000,
        byte_modulus(7) == 0x100_0000_0000_0000,
        byte_modulus(8) == 0x1_0000_0000_0000_0000,
        byte_modulus(9) == 0x100_0000_0000_0000_0000,
        byte_modulus(10) == 0x1_0000_0000_0000_0000_0000,
        byte_modulus(11) == 0x100_0000_0000_0000_0000_0000,
        byte_modulus(12) == 0x1_0000_0000_0000_0000_0000_0000,
        byte_modulus(13) == 0x100_0000_0000_0000_0000_0000_0000,
        byte_modulus(14) == 0x1_0000_0000_0000_0000_0000_0000_0000,
        byte_modulus(15) == 0x100_0000_0000_0000_0000_0000_0000_0000,
        byte_modulus(16) == 0x1_0000_0000_0000_0000_0000_0000_0000_0000,
{
    reveal_with_fuel(byte_modulus, 17);
}

fn sign_extended(bits: u128, size: u8) -> (value: i128)
    requires
        1 <= size <= 16,
    ensures
        value == sign_extend(bits, size as nat),
{
    proof {
        lemma_byte_modulus_values();
    }
    if size == 16 {
        if bits >= 0x8000_0000_0000_0000_0000_0000_0000_0000u128 {
            let low: u128 = bits - 0x8000_0000_0000_0000_0000_0000_0000_0000u128;
            (low as i128) + i128::MIN
        } else {
            bits as i128
        }
    } else {
        let modulus: u128 = match size {
            1 => 0x100,
            2 => 0x1_0000,
            3 => 0x100_0000,
            4 => 0x1_0000_0000,
            5 => 0x100_0000_0000,
            6 => 0x1_0000_0000_0000,
            7 => 0x100_0000_0000_0000,
            8 => 0x1_0000_0000_0000_0000,
            9 => 0x100_0000_0000_0000_0000,
            10 => 0x1_0000_0000_0000_0000_0000,
            11 => 0x100_0000_0000_0000_0000_0000,
            12 => 0x1_0000_0000_0000_0000_0000_0000,
            13 => 0x100_0000_0000_0000_0000_0000_0000,
            14 => 0x1_0000_0000_0000_0000_0000_0000_0000,
            _ => 0x100_0000_0000_0000_0000_0000_0000_0000,
        };
        let low: u128 = bits % modulus;
        if low >= modulus / 2 {
            (low as i128) - (modulus as i128)
        } else {
            low as i128
        }
    }
}

/// The text of a value of a primitive type whose bits are `bits`, read from
/// a scalar of `size` bytes. `float` is the text that the snapshot holds
/// for a floating-point value.
pub open spec fn primitive_text(ty: TyKind, bits: u128, size: u8, float: Seq<char>) -> Result<
    Seq<char>,
    PrettyError,
> {
    match ty {
        TyKind::Bool => if bits == 0 {
            Ok("false"@)
        } else if bits == 1 {
            Ok("true"@)
        } else {
            Err(PrettyError::AssumptionNotHeld)
        },
        TyKind::Char => if bits < 128 {
            Ok(seq!['\'', bits as u8 as char, '\''])
        } else {
            Err(PrettyError::AssumptionNotHeld)
        },
        TyKind::Uint => Ok(decimal(bits as nat)),
        TyKind::Int => if 1 <= size <= 16 {
            Ok(signed_decimal(sign_extend(bits, size as nat)))
        } else {
            Err(PrettyError::AssumptionNotHeld)
        },
        TyKind::Float(FloatTy::F32) => if bits <= u32::MAX {
            Ok(float)
        } else {
            Err(PrettyError::AssumptionNotHeld)
        },
        TyKind::Float(FloatTy::F64) => if bits <= u64::MAX {
            Ok(float)
        } else {
            Err(PrettyError::AssumptionNotHeld)
        },
        _ => Err(PrettyError::AssumptionNotHeld),
    }
}

/// The pretty text of a value taken as one scalar of a primitive type.
///
/// A value without size fails, and so does one that is not laid out as a
/// single scalar. A pointer is shown as a link whatever its type. Bits are
/// read by the declared type, and only if the scalar has the size of the
/// type.
pub open spec fn scalar_pretty(op: &OpTy) -> Result<Seq<char>, PrettyError> {
    if op.size == 0 {
        Err(PrettyError::AssumptionNotHeld)
    } else if !(op.abi is Scalar) {
        Err(PrettyError::AssumptionNotHeld)
    } else {
        match op.scalar {
            None => Err(PrettyError::Unreadable),
            Some(ScalarMaybeUndef::Undef) => Err(PrettyError::Unreadable),
            Some(ScalarMaybeUndef::Scalar(Scalar::Ptr(ptr))) => Ok(pointer_text(ptr)),
            Some(ScalarMaybeUndef::Scalar(Scalar::Bits { size, bits })) => if size as u64
                != op.size {
                Err(PrettyError::AssumptionNotHeld)
            } else {
                primitive_text(op.ty, bits, size, op.float@)
            },
        }
    }
}

/// The bytes that a string value spans: `Some` where the value is a
/// defined pointer and length whose pointer leads into a data allocation,
/// `None` where the value is left to the scalar path. A span that reaches
/// beyond the allocation is an error.
pub open spec fn str_span(memory: &Memory, op: &OpTy) -> Option<Result<Seq<u8>, PrettyError>> {
    match op.op {
        Operand::Immediate(
            Value::ScalarPair(
                ScalarMaybeUndef::Scalar(Scalar::Ptr(ptr)),
                ScalarMaybeUndef::Scalar(Scalar::Bits { size, bits }),
            ),
        ) => match memory.data(ptr.alloc_id) {
            Some(allocation) => if ptr.offset < allocation.bytes.len() {
                if ptr.offset + bits <= allocation.bytes.len() {
                    Some(Ok(allocation.bytes@.subrange(ptr.offset as int, ptr.offset + bits)))
                } else {
                    Some(Err(PrettyError::AssumptionNotHeld))
                }
            } else {
                None
            },
            None => None,
        },
        _ => None,
    }
}

/// The bytes of a string value that can be read.
pub open spec fn str_bytes(memory: &Memory, op: &OpTy) -> Option<Seq<u8>> {
    match str_span(memory, op) {
        Some(Ok(bytes)) => Some(bytes),
        _ => None,
    }
}

/// The pretty text of a string: the bytes it spans, decoded as text and
/// put in quotes.
pub open spec fn str_pretty(memory: &Memory, op: &OpTy) -> Option<Result<Seq<char>, PrettyError>> {
    match str_span(memory, op) {
        Some(Ok(bytes)) => Some(Ok(quoted(utf8_lossy(bytes)))),
        Some(Err(error)) => Some(Err(error)),
        None => None,
    }
}

/// The variant that a value of the type `def` is in: the only one there
/// is, or the one that the discriminant read from the value names.
pub open spec fn active_variant(def: &AdtDef, discriminant: Option<usize>) -> Result<
    int,
    PrettyError,
> {
    if def.variants.len() == 1 {
        Ok(0)
    } else {
        match discriminant {
            None => Err(PrettyError::Unreadable),
            Some(index) => if index < def.variants.len() {
                Ok(index as int)
            } else {
                Err(PrettyError::AssumptionNotHeld)
            },
        }
    }
}

/// Finds the variant that a value of the type `def` is in. Whoever takes a
/// snapshot of a value resolves the fields of this variant.
pub fn variant_index(def: &AdtDef, discriminant: Option<usize>) -> (found: Result<
    usize,
    PrettyError,
>)
    ensures
        match found {
            Ok(index) => index < def.variants.len() && active_variant(def, discriminant) == Ok::<
                int,
                PrettyError,
            >(index as int),
            Err(error) => active_variant(def, discriminant) == Err::<int, PrettyError>(error),
        },
{
    if def.variants.len() == 1 {
        Ok(0)
    } else {
        match discriminant {
            None => Err(PrettyError::Unreadable),
            Some(index) => {
                if index < def.variants.len() {
                    Ok(index)
                } else {
                    Err(PrettyError::AssumptionNotHeld)
                }
            },
        }
    }
}

/// What stands in place of a field that could not be printed.
pub open spec fn field_error_text() -> Seq<char> {
    "<span style='color: red;'>&lt;err&gt;</span>"@
}

/// The text that stands for field `i` of a value: its pretty text, or the
/// error marker where the field cannot be resolved or printed.
pub open spec fn field_value_text(memory: &Memory, op: &OpTy, i: int) -> Seq<char>
    decreases op, 0nat, 0nat,
{
    if 0 <= i < op.fields.len() {
        match op.fields[i] {
            Some(field) => match pretty_text(memory, &field) {
                Ok(text) => text,
                Err(_) => field_error_text(),
            },
            None => field_error_text(),
        }
    } else {
        field_error_text()
    }
}

/// One field in the list of a value's fields.
pub open spec fn entry_text(name: Seq<char>, value: Seq<char>, collapse: bool) -> Seq<char> {
    name + ": "@ + value + ", "@ + if collapse {
        "<br>"@
    } else {
        Seq::empty()
    }
}

/// The text of the first `count` fields of a struct or enum value, each as
/// its name, a colon and its pretty text. A field that fails shows the error
/// marker and leaves the others as they are.
pub open spec fn fields_text(
    memory: &Memory,
    op: &OpTy,
    names: Seq<String>,
    collapse: bool,
    count: nat,
) -> Seq<char>
    decreases op, 1nat, count,
{
    if count == 0 {
        Seq::empty()
    } else {
        let i = (count - 1) as int;
        fields_text(memory, op, names, collapse, (count - 1) as nat) + entry_text(
            names[i]@,
            field_value_text(memory, op, i),
            collapse,
        )
    }
}

/// What stands before the fields of a struct or enum value: the escaped
/// path of the type, for an enum the name of the variant, and the opening
/// brace, with the start of a fold where there is more than one field.
pub open spec fn adt_head_text(def: &AdtDef, variant: int) -> Seq<char> {
    escape_angle(def.path@) + if def.is_enum {
        "::"@ + escape_angle(def.variants[variant].name@)
    } else {
        Seq::empty()
    } + " { "@ + if def.variants[variant].fields.len() > 1 {
        "<details>"@
    } else {
        Seq::empty()
    }
}

/// What stands behind the fields: the end of the fold, if there is one, and
/// the closing brace.
pub open spec fn adt_tail_text(collapse: bool) -> Seq<char> {
    if collapse {
        "</details>}"@
    } else {
        "}"@
    }
}

/// The text of a struct or enum value in the variant `variant`: the head,
/// the fields of the variant, and the tail. The fields are folded away where
/// there is more than one.
pub open spec fn adt_text(memory: &Memory, op: &OpTy, def: &AdtDef, variant: int) -> Seq<char>
    decreases op, 2nat, 0nat,
{
    let names = def.variants[variant].fields@;
    let collapse = names.len() > 1;
    adt_head_text(def, variant) + fields_text(memory, op, names, collapse, names.len())
        + adt_tail_text(collapse)
}

/// The pretty text of a value of the struct or enum type `def`. An
/// undefined immediate has none, nor has a value whose variant cannot be
/// told.
pub open spec fn adt_pretty(memory: &Memory, op: &OpTy, def: &AdtDef) -> Result<
    Seq<char>,
    PrettyError,
>
    decreases op, 2nat, 1nat,
{
    if op.op matches Operand::Immediate(Value::Scalar(ScalarMaybeUndef::Undef)) {
        Err(PrettyError::AssumptionNotHeld)
    } else {
        match active_variant(def, op.discriminant) {
            Ok(variant) => Ok(adt_text(memory, op, def, variant)),
            Err(error) => Err(error),
        }
    }
}

/// The pretty text of a value, or the reason why it has none.
pub open spec fn pretty_text(memory: &Memory, op: &OpTy) -> Result<Seq<char>, PrettyError>
    decreases op, 3nat, 0nat,
{
    match op.ty {
        TyKind::Str => match str_pretty(memory, op) {
            Some(outcome) => outcome,
            None => scalar_pretty(op),
        },
        TyKind::Adt(def) => adt_pretty(memory, op, &def),
        _ => scalar_pretty(op),
    }
}

/// A value without size has no text as a scalar, whatever its type and
/// whatever the interpreter read of it. So it has no pretty text at all,
/// unless it is a struct, an enum or a string that could be read.
pub proof fn lemma_zero_sized_is_no_scalar(memory: &Memory, op: &OpTy)
    requires
        op.size == 0,
    ensures
        scalar_pretty(op) == Err::<Seq<char>, PrettyError>(PrettyError::AssumptionNotHeld),
        !(op.ty is Adt) && !(op.ty is Str && str_pretty(memory, op) is Some) ==> pretty_text(
            memory,
            op,
        ) == Err::<Seq<char>, PrettyError>(PrettyError::AssumptionNotHeld),
{
}

/// The characters of a printed text, or the error in its place.
pub open spec fn text_of(outcome: Result<String, PrettyError>) -> Result<Seq<char>, PrettyError> {
    match outcome {
        Ok(text) => Ok(text@),
        Err(error) => Err(error),
    }
}

fn pp_primitive(ty: &TyKind, bits: u128, size: u8, float: &String) -> (pretty: Result<
    String,
    PrettyError,
>)
    ensures
        text_of(pretty) == primitive_text(*ty, bits, size, float@),
{
    match ty {
        TyKind::Bool => {
            if bits == 0 {
                Ok(String::from_str("false"))
            } else if bits == 1 {
                Ok(String::from_str("true"))
            } else {
                Err(PrettyError::AssumptionNotHeld)
            }
        },
        TyKind::Char => {
            if bits < 128 {
                let mut out = String::new();
                out.push('\'');
                out.push(bits as u8 as char);
                out.push('\'');
                assert(out@ =~= seq!['\'', bits as u8 as char, '\'']);
                Ok(out)
            } else {
                Err(PrettyError::AssumptionNotHeld)
            }
        },
        TyKind::Uint => {
            let mut out = String::new();
            push_decimal(&mut out, bits);
            assert(out@ =~= decimal(bits as nat));
            Ok(out)
        },
        TyKind::Int => {
            if 1 <= size && size <= 16 {
                let mut out = String::new();
                push_signed_decimal(&mut out, sign_extended(bits, size));
                assert(out@ =~= signed_decimal(sign_extend(bits, size as nat)));
                Ok(out)
            } else {
                Err(PrettyError::AssumptionNotHeld)
            }
        },
        TyKind::Float(FloatTy::F32) => {
            if bits <= 0xffff_ffffu128 {
                Ok(float.clone())
            } else {
                Err(PrettyError::AssumptionNotHeld)
            }
        },
        TyKind::Float(FloatTy::F64) => {
            if bits <= 0xffff_ffff_ffff_ffffu128 {
                Ok(float.clone())
            } else {
                Err(PrettyError::AssumptionNotHeld)
            }
        },
        _ => Err(PrettyError::AssumptionNotHeld),
    }
}

fn pp_scalar(op_ty: &OpTy) -> (pretty: Result<String, PrettyError>)
    ensures
        text_of(pretty) == scalar_pretty(op_ty),
{
    if op_ty.size == 0 {
        return Err(PrettyError::AssumptionNotHeld);
    }
    match op_ty.abi {
        Abi::Scalar => {},
        _ => {
            return Err(PrettyError::AssumptionNotHeld);
        },
    }
    match op_ty.scalar {
        None => Err(PrettyError::Unreadable),
        Some(ScalarMaybeUndef::Undef) => Err(PrettyError::Unreadable),
        Some(ScalarMaybeUndef::Scalar(Scalar::Ptr(ptr))) => Ok(print_scalar(Scalar::Ptr(ptr))),
        Some(ScalarMaybeUndef::Scalar(Scalar::Bits { size, bits })) => {
            if size as u64 != op_ty.size {
                Err(PrettyError::AssumptionNotHeld)
            } else {
                pp_primitive(&op_ty.ty, bits, size, &op_ty.float)
            }
        },
    }
}

fn pp_str(machine: &Machine, op_ty: &OpTy) -> (pretty: Option<Result<String, PrettyError>>)
    ensures
        match pretty {
            Some(outcome) => str_pretty(&machine.memory, op_ty) == Some(text_of(outcome)),
            None => str_pretty(&machine.memory, op_ty) is None,
        },
        str_bytes(&machine.memory, op_ty) matches Some(bytes) ==> (valid_utf8(bytes) ==> pretty
            is Some && text_of(pretty->Some_0) == Ok::<Seq<char>, PrettyError>(
            quoted(decode_utf8(bytes)),
        )),
{
    match op_ty.op {
        Operand::Immediate(
            Value::ScalarPair(
                ScalarMaybeUndef::Scalar(Scalar::Ptr(ptr)),
                ScalarMaybeUndef::Scalar(Scalar::Bits { size, bits }),
            ),
        ) => {
            match machine.memory.get(ptr.alloc_id) {
                Some(allocation) => {
                    let total: usize = allocation.bytes.len();
                    if (ptr.offset as u128) < (total as u128) {
                        let start: usize = ptr.offset as usize;
                        if bits <= ((total - start) as u128) {
                            let end: usize = start + (bits as usize);
                            let bytes = slice_subrange(allocation.bytes.as_slice(), start, end);
                            Some(Ok(quote_lossy(bytes)))
                        } else {
                            Some(Err(PrettyError::AssumptionNotHeld))
                        }
                    } else {
                        None
                    }
                },
                None => None,
            }
        },
        _ => None,
    }
}

fn push_entry(out: &mut String, name: &str, value: &str, collapse: bool)
    ensures
        final(out)@ == old(out)@ + entry_text(name@, value@, collapse),
{
    out.append(name);
    out.append(": ");
    out.append(value);
    out.append(", ");
    if collapse {
        out.append("<br>");
    }
    assert(out@ =~= old(out)@ + entry_text(name@, value@, collapse));
}

fn pp_field(machine: &Machine, op_ty: &OpTy, i: usize) -> (text: String)
    ensures
        text@ == field_value_text(&machine.memory, op_ty, i as int),
    decreases op_ty, 0nat,
{
    if i < op_ty.fields.len() {
        match &op_ty.fields[i] {
            Some(field) => match pp_operand(machine, field) {
                Ok(text) => text,
                Err(_) => String::from_str("<span style='color: red;'>&lt;err&gt;</span>"),
            },
            None => String::from_str("<span style='color: red;'>&lt;err&gt;</span>"),
        }
    } else {
        String::from_str("<span style='color: red;'>&lt;err&gt;</span>")
    }
}

fn adt_head(def: &AdtDef, variant: usize) -> (head: String)
    requires
        variant < def.variants.len(),
    ensures
        head@ == adt_head_text(def, variant as int),
{
    let mut head = escape_angle_brackets(def.path.as_str());
    if def.is_enum {
        head.append("::");
        let name = escape_angle_brackets(def.variants[variant].name.as_str());
        head.append(name.as_str());
    }
    head.append(" { ");
    if def.variants[variant].fields.len() > 1 {
        head.append("<details>");
    }
    assert(head@ =~= adt_head_text(def, variant as int));
    head
}

fn pp_adt(machine: &Machine, op_ty: &OpTy, def: &AdtDef) -> (pretty: Result<String, PrettyError>)
    ensures
        text_of(pretty) == adt_pretty(&machine.memory, op_ty, def),
    decreases op_ty, 1nat,
{
    match op_ty.op {
        Operand::Immediate(Value::Scalar(ScalarMaybeUndef::Undef)) => {
            return Err(PrettyError::AssumptionNotHeld);
        },
        _ => {},
    }
    let variant: usize = match variant_index(def, op_ty.discriminant) {
        Ok(index) => index,
        Err(error) => {
            return Err(error);
        },
    };
    let names = &def.variants[variant].fields;
    let collapse = names.len() > 1;
    let mut pretty = adt_head(def, variant);
    let ghost head = pretty@;
    let mut i: usize = 0;
    while i < names.len()
        invariant
            i <= names.len(),
            pretty@ == head + fields_text(&machine.memory, op_ty, names@, collapse, i as nat),
        decreases names.len() - i,
    {
        let value = pp_field(machine, op_ty, i);
        push_entry(&mut pretty, names[i].as_str(), value.as_str(), collapse);
        i = i + 1;
        assert(pretty@ =~= head + fields_text(&machine.memory, op_ty, names@, collapse, i as nat));
    }
    if collapse {
        pretty.append("</details>}");
    } else {
        pretty.append("}");
    }
    Ok(pretty)
}

/// Pretty-prints a value by its type: a string in quotes, a struct or enum
/// with its fields, anything else as one scalar.
pub fn pp_operand(machine: &Machine, op_ty: &OpTy) -> (pretty: Result<String, PrettyError>)
    ensures
        text_of(pretty) == pretty_text(&machine.memory, op_ty),
        op_ty.ty is Str ==> (str_bytes(&machine.memory, op_ty) matches Some(bytes) ==> (valid_utf8(
            bytes,
        ) ==> text_of(pretty) == Ok::<Seq<char>, PrettyError>(quoted(decode_utf8(bytes))))),
    decreases op_ty, 2nat,
{
    match &op_ty.ty {
        TyKind::Str => {
            match pp_str(machine, op_ty) {
                Some(outcome) => {
                    return outcome;
                },
                None => {},
            }
        },
        TyKind::Adt(def) => {
            return pp_adt(machine, op_ty, def);
        },
        _ => {},
    }
    pp_scalar(op_ty)
}

/// One piece of the dump of an allocation.
pub enum DumpToken {
    /// A stored pointer to the allocation `target`, as wide as a pointer.
    Pointer { target: u64 },
    /// A byte that has been written.
    Byte(u8),
    /// The byte at `offset`, which has not been written or does not exist.
    Undefined { offset: nat },
}

/// The pieces of the dump of `alloc` from `start` up to `end`.
///
/// At an offset where a pointer is stored the pointer is shown and the scan
/// goes on behind it. Every other offset shows one byte.
pub open spec fn dump_tokens(alloc: &Allocation, ptr_size: nat, start: int, end: int) -> Seq<
    DumpToken,
>
    decreases
        (if start < end {
            end - start
        } else {
            0
        }),
{
    if start >= end || ptr_size == 0 {
        Seq::empty()
    } else {
        match alloc.relocation_at(start) {
            Some(target) => seq![DumpToken::Pointer { target }] + dump_tokens(
                alloc,
                ptr_size,
                start + ptr_size,
                end,
            ),
            None => if alloc.is_defined(start) {
                seq![DumpToken::Byte(alloc.bytes[start])] + dump_tokens(
                    alloc,
                    ptr_size,
                    start + 1,
                    end,
                )
            } else {
                seq![DumpToken::Undefined { offset: start as nat }] + dump_tokens(
                    alloc,
                    ptr_size,
                    start + 1,
                    end,
                )
            },
        }
    }
}

/// The symbols that stand for undefined bytes.
pub open spec fn glyph(index: int) -> char {
    if index == 0 {
        '\u{2205}'
    } else if index == 1 {
        '\u{2206}'
    } else if index == 2 {
        '\u{2207}'
    } else if index == 3 {
        '\u{2213}'
    } else if index == 4 {
        '\u{221e}'
    } else if index == 5 {
        '\u{2299}'
    } else if index == 6 {
        '\u{22a0}'
    } else if index == 7 {
        '\u{2298}'
    } else if index == 8 {
        '\u{2297}'
    } else if index == 9 {
        '\u{229b}'
    } else if index == 10 {
        '\u{229d}'
    } else if index == 11 {
        '\u{22a1}'
    } else {
        '\u{22a0}'
    }
}

/// The two symbols of an undefined byte. They depend on the allocation
/// and the offset alone, so the same byte always looks the same.
pub open spec fn undefined_text(alloc_id: u64, offset: nat) -> Seq<char> {
    "<mark>"@ + seq![
        glyph((alloc_id * 769 + offset * 5689) % 13),
        glyph((alloc_id * 997 + offset * 7193) % 13),
    ] + "</mark>"@
}

/// A stored pointer as a bar that is as wide as the bytes it covers, linked
/// to the allocation it leads to.
pub open spec fn pointer_span_text(target: u64, origin: u64, ptr_size: nat) -> Seq<char> {
    "<a style=\"text-decoration: none\" href=\"/ptr/"@ + decimal(target as nat) + "/"@ + decimal(
        origin as nat,
    ) + "\">\u{2520}"@ + repeat('\u{2500}', (2 * ptr_size - 2) as nat) + "\u{2528}</a>"@
}

/// The text of one piece of a dump of the allocation `alloc_id` that
/// started at the offset `origin`.
pub open spec fn token_text(token: DumpToken, alloc_id: u64, origin: u64, ptr_size: nat) -> Seq<
    char,
> {
    match token {
        DumpToken::Pointer { target } => pointer_span_text(target, origin, ptr_size),
        DumpToken::Byte(byte) => hex_byte(byte),
        DumpToken::Undefined { offset } => undefined_text(alloc_id, offset),
    }
}

/// The texts of the pieces, one after the other.
pub open spec fn tokens_text(tokens: Seq<DumpToken>, alloc_id: u64, origin: u64, ptr_size: nat) -> Seq<
    char,
>
    decreases tokens.len(),
{
    if tokens.len() == 0 {
        Seq::empty()
    } else {
        token_text(tokens.first(), alloc_id, origin, ptr_size) + tokens_text(
            tokens.drop_first(),
            alloc_id,
            origin,
            ptr_size,
        )
    }
}

/// Where a dump that starts at `ptr` ends: `size` bytes on, or at the end of
/// the allocation where no size is given.
pub open spec fn dump_end(ptr: Pointer, alloc: &Allocation, size: Option<u64>) -> int {
    match size {
        Some(size) => size + ptr.offset,
        None => alloc.bytes.len() as int,
    }
}

/// The dump of `alloc` from `ptr` on.
pub open spec fn alloc_text(ptr_size: u64, ptr: Pointer, alloc: &Allocation, size: Option<u64>) -> Seq<
    char,
> {
    tokens_text(
        dump_tokens(alloc, ptr_size as nat, ptr.offset as int, dump_end(ptr, alloc, size)),
        ptr.alloc_id,
        ptr.offset,
        ptr_size as nat,
    )
}

fn glyph_at(index: u128) -> (c: char)
    requires
        index < 13,
    ensures
        c == glyph(index as int),
{
    match index {
        0 => '\u{2205}',
        1 => '\u{2206}',
        2 => '\u{2207}',
        3 => '\u{2213}',
        4 => '\u{221e}',
        5 => '\u{2299}',
        6 => '\u{22a0}',
        7 => '\u{2298}',
        8 => '\u{2297}',
        9 => '\u{229b}',
        10 => '\u{229d}',
        11 => '\u{22a1}',
        _ => '\u{22a0}',
    }
}

fn push_undefined(out: &mut String, alloc_id: u64, offset: u128)
    requires
        offset <= 0x4_0000_0000_0000_0000,
    ensures
        final(out)@ == old(out)@ + undefined_text(alloc_id, offset as nat),
{
    let first: u128 = ((alloc_id as u128) * 769 + offset * 5689) % 13;
    let second: u128 = ((alloc_id as u128) * 997 + offset * 7193) % 13;
    out.append("<mark>");
    out.push(glyph_at(first));
    out.push(glyph_at(second));
    out.append("</mark>");
    assert(out@ =~= old(out)@ + undefined_text(alloc_id, offset as nat));
}

fn push_pointer_span(out: &mut String, target: u64, origin: u64, ptr_size: u64)
    requires
        ptr_size >= 1,
    ensures
        final(out)@ == old(out)@ + pointer_span_text(target, origin, ptr_size as nat),
{
    out.append("<a style=\"text-decoration: none\" href=\"/ptr/");
    push_decimal(out, target as u128);
    out.append("/");
    push_decimal(out, origin as u128);
    out.append("\">\u{2520}");
    push_repeat(out, '\u{2500}', 2 * (ptr_size as u128) - 2);
    out.append("\u{2528}</a>");
    assert(out@ =~= old(out)@ + pointer_span_text(target, origin, ptr_size as nat));
}

proof fn lemma_tokens_text_cons(
    token: DumpToken,
    rest: Seq<DumpToken>,
    alloc_id: u64,
    origin: u64,
    ptr_size: nat,
)
    ensures
        tokens_text(seq![token] + rest, alloc_id, origin, ptr_size) == token_text(
            token,
            alloc_id,
            origin,
            ptr_size,
        ) + tokens_text(rest, alloc_id, origin, ptr_size),
{
    assert((seq![token] + rest).drop_first() =~= rest);
}

/// Dumps the bytes of `alloc` from the offset of `ptr` on, `size` of them or
/// up to the end of the allocation: stored pointers as linked bars, written
/// bytes as two hexadecimal digits, the others as two symbols.
pub fn print_alloc(ptr_size: u64, ptr: Pointer, alloc: &Allocation, size: Option<u64>) -> (text:
    String)
    requires
        ptr_size >= 1,
    ensures
        text@ == alloc_text(ptr_size, ptr, alloc, size),
{
    broadcast use vstd::std_specs::hash::group_hash_axioms;

    let end: u128 = match size {
        Some(size) => size as u128 + ptr.offset as u128,
        None => alloc.bytes.len() as u128,
    };
    let mut out = String::new();
    let mut i: u128 = ptr.offset as u128;
    while i < end
        invariant
            ptr_size >= 1,
            end <= 0x2_0000_0000_0000_0000,
            alloc_text(ptr_size, ptr, alloc, size) == out@ + tokens_text(
                dump_tokens(alloc, ptr_size as nat, i as int, end as int),
                ptr.alloc_id,
                ptr.offset,
                ptr_size as nat,
            ),
            end == dump_end(ptr, alloc, size),
        decreases end + ptr_size - i,
    {
        let ghost before = out@;
        let ghost rest_before = dump_tokens(alloc, ptr_size as nat, i as int, end as int);
        let relocation: Option<&u64> = if i <= 0xffff_ffff_ffff_ffffu128 {
            alloc.relocations.get(&(i as u64))
        } else {
            None
        };
        match relocation {
            Some(target) => {
                proof {
                    lemma_tokens_text_cons(
                        DumpToken::Pointer { target: *target },
                        dump_tokens(alloc, ptr_size as nat, i + ptr_size, end as int),
                        ptr.alloc_id,
                        ptr.offset,
                        ptr_size as nat,
                    );
                }
                push_pointer_span(&mut out, *target, ptr.offset, ptr_size);
                i = i + ptr_size as u128;
            },
            None => {
                if i < alloc.bytes.len() as u128 && i < alloc.defined.len() as u128
                    && alloc.defined[i as usize] {
                    proof {
                        lemma_tokens_text_cons(
                            DumpToken::Byte(alloc.bytes[i as int]),
                            dump_tokens(alloc, ptr_size as nat, i + 1, end as int),
                            ptr.alloc_id,
                            ptr.offset,
                            ptr_size as nat,
                        );
                    }
                    push_hex_byte(&mut out, alloc.bytes[i as usize]);
                } else {
                    proof {
                        lemma_tokens_text_cons(
                            DumpToken::Undefined { offset: i as nat },
                            dump_tokens(alloc, ptr_size as nat, i + 1, end as int),
                            ptr.alloc_id,
                            ptr.offset,
                            ptr_size as nat,
                        );
                    }
                    push_undefined(&mut out, ptr.alloc_id, i);
                }
                i = i + 1;
            },
        }
        assert(before + tokens_text(rest_before, ptr.alloc_id, ptr.offset, ptr_size as nat)
            =~= out@ + tokens_text(
            dump_tokens(alloc, ptr_size as nat, i as int, end as int),
            ptr.alloc_id,
            ptr.offset,
            ptr_size as nat,
        ));
    }
    assert(out@ =~= alloc_text(ptr_size, ptr, alloc, size));
    out
}

/// In a stretch of written bytes that holds no pointer, the dump shows
/// each byte by itself: as many pieces as the stretch has bytes, the piece at
/// `j` being the byte at `start + j`, and two digits of text for each.
pub proof fn lemma_dump_of_written_bytes(
    alloc: &Allocation,
    alloc_id: u64,
    origin: u64,
    ptr_size: nat,
    start: int,
    end: int,
)
    requires
        ptr_size >= 1,
        0 <= start <= end,
        forall|i: int| start <= i < end ==> alloc.relocation_at(i) is None,
        forall|i: int| start <= i < end ==> alloc.is_defined(i),
    ensures
        dump_tokens(alloc, ptr_size, start, end) == Seq::new(
            (end - start) as nat,
            |j: int| DumpToken::Byte(alloc.bytes[start + j]),
        ),
        tokens_text(dump_tokens(alloc, ptr_size, start, end), alloc_id, origin, ptr_size).len()
            == 2 * (end - start),
    decreases end - start,
{
    if start < end {
        lemma_dump_of_written_bytes(alloc, alloc_id, origin, ptr_size, start + 1, end);
        assert(alloc.relocation_at(start) is None);
        assert(alloc.is_defined(start));
        lemma_tokens_text_cons(
            DumpToken::Byte(alloc.bytes[start]),
            dump_tokens(alloc, ptr_size, start + 1, end),
            alloc_id,
            origin,
            ptr_size,
        );
    }
    assert(dump_tokens(alloc, ptr_size, start, end) =~= Seq::new(
        (end - start) as nat,
        |j: int| DumpToken::Byte(alloc.bytes[start + j]),
    ));
}

proof fn lemma_text_of_bytes(tokens: Seq<DumpToken>, alloc_id: u64, origin: u64, ptr_size: nat)
    requires
        forall|j: int| 0 <= j < tokens.len() ==> tokens[j] is Byte,
    ensures
        tokens_text(tokens, alloc_id, origin, ptr_size).len() == 2 * tokens.len(),
        forall|j: int|
            0 <= j < tokens.len() ==> #[trigger] tokens_text(
                tokens,
                alloc_id,
                origin,
                ptr_size,
            ).subrange(2 * j, 2 * j + 2) == hex_byte(tokens[j]->Byte_0),
    decreases tokens.len(),
{
    if tokens.len() > 0 {
        let rest = tokens.drop_first();
        lemma_text_of_bytes(rest, alloc_id, origin, ptr_size);
        let text = tokens_text(tokens, alloc_id, origin, ptr_size);
        let rest_text = tokens_text(rest, alloc_id, origin, ptr_size);
        assert(text == hex_byte(tokens[0]->Byte_0) + rest_text);
        assert forall|j: int| 0 <= j < tokens.len() implies #[trigger] text.subrange(
            2 * j,
            2 * j + 2,
        ) == hex_byte(tokens[j]->Byte_0) by {
            if j == 0 {
                assert(text.subrange(0, 2) =~= hex_byte(tokens[0]->Byte_0));
            } else {
                assert(rest[j - 1] == tokens[j]);
                assert(rest_text.subrange(2 * (j - 1), 2 * (j - 1) + 2) == hex_byte(
                    rest[j - 1]->Byte_0,
                ));
                assert(text.subrange(2 * j, 2 * j + 2) =~= rest_text.subrange(
                    2 * (j - 1),
                    2 * (j - 1) + 2,
                ));
            }
        }
    }
}

/// The dump of written bytes in an allocation that stores no pointer is
/// two hexadecimal digits for each byte and nothing else: it is twice as long
/// as the span, and the two characters at `2 * j` are the digits of the byte
/// `j` places behind the pointer.
pub proof fn lemma_dump_of_written_allocation(
    ptr_size: u64,
    ptr: Pointer,
    alloc: &Allocation,
    size: Option<u64>,
)
    requires
        ptr_size >= 1,
        forall|offset: u64| !alloc.relocations@.contains_key(offset),
        ptr.offset <= dump_end(ptr, alloc, size) <= alloc.bytes.len(),
        forall|i: int| ptr.offset <= i < dump_end(ptr, alloc, size) ==> alloc.is_defined(i),
    ensures
        alloc_text(ptr_size, ptr, alloc, size).len() == 2 * (dump_end(ptr, alloc, size)
            - ptr.offset),
        forall|j: int|
            0 <= j < dump_end(ptr, alloc, size) - ptr.offset ==> #[trigger] alloc_text(
                ptr_size,
                ptr,
                alloc,
                size,
            ).subrange(2 * j, 2 * j + 2) == hex_byte(alloc.bytes[ptr.offset + j]),
{
    let end = dump_end(ptr, alloc, size);
    lemma_dump_of_written_bytes(
        alloc,
        ptr.alloc_id,
        ptr.offset,
        ptr_size as nat,
        ptr.offset as int,
        end,
    );
    lemma_text_of_bytes(
        dump_tokens(alloc, ptr_size as nat, ptr.offset as int, end),
        ptr.alloc_id,
        ptr.offset,
        ptr_size as nat,
    );
}

/// Where the first pointer after `start` is stored at `k`, the dump shows
/// one piece for each byte before `k`, then the pointer, and goes on at
/// `k + ptr_size`.
pub proof fn lemma_dump_resumes_behind_pointer(
    alloc: &Allocation,
    ptr_size: nat,
    start: int,
    k: int,
    end: int,
)
    requires
        ptr_size >= 1,
        0 <= start <= k < end,
        alloc.relocation_at(k) is Some,
        forall|i: int| start <= i < k ==> alloc.relocation_at(i) is None,
    ensures
        dump_tokens(alloc, ptr_size, start, k).len() == k - start,
        forall|j: int|
            0 <= j < k - start ==> !(#[trigger] dump_tokens(alloc, ptr_size, start, k)[j]
                is Pointer),
        dump_tokens(alloc, ptr_size, start, end) == dump_tokens(alloc, ptr_size, start, k)
            + seq![DumpToken::Pointer { target: alloc.relocation_at(k)->Some_0 }] + dump_tokens(
            alloc,
            ptr_size,
            k + ptr_size,
            end,
        ),
    decreases k - start,
{
    if start < k {
        lemma_dump_resumes_behind_pointer(alloc, ptr_size, start + 1, k, end);
        assert(alloc.relocation_at(start) is None);
        let head = dump_tokens(alloc, ptr_size, start, k);
        let tail = dump_tokens(alloc, ptr_size, start + 1, k);
        assert(head =~= seq![head[0]] + tail);
        assert forall|j: int| 0 <= j < k - start implies !(#[trigger] head[j] is Pointer) by {
            if j > 0 {
                assert(head[j] == tail[j - 1]);
            }
        }
        assert(dump_tokens(alloc, ptr_size, start, end) =~= head + seq![
            DumpToken::Pointer { target: alloc.relocation_at(k)->Some_0 },
        ] + dump_tokens(alloc, ptr_size, k + ptr_size, end));
    } else {
        assert(dump_tokens(alloc, ptr_size, start, end) =~= dump_tokens(alloc, ptr_size, start, k)
            + seq![DumpToken::Pointer { target: alloc.relocation_at(k)->Some_0 }] + dump_tokens(
            alloc,
            ptr_size,
            k + ptr_size,
            end,
        ));
    }
}

/// What a pointer leads to: the id of its allocation where that holds
/// data, the text shown for it, and its length in bytes. A scalar that is
/// no pointer leads nowhere, nor does a pointer whose allocation is unknown.
pub open spec fn ptr_text(memory: &Memory, ptr: Scalar, size: Option<u64>) -> Result<
    (Option<u64>, Seq<char>, u64),
    (),
> {
    match ptr {
        Scalar::Bits { size: _, bits: _ } => Err(()),
        Scalar::Ptr(ptr) => match memory.data(ptr.alloc_id) {
            Some(alloc) => Ok(
                (
                    Some(ptr.alloc_id),
                    alloc_text(memory.pointer_size, ptr, &alloc, size),
                    alloc.bytes.len() as u64,
                ),
            ),
            None => if memory.is_function(ptr.alloc_id) {
                Ok((None, "function pointer"@, 16u64))
            } else {
                Err(())
            },
        },
    }
}

/// Follows a pointer and renders what it leads to: the dump of a data
/// allocation from the pointer on, or a note for a function.
pub fn print_ptr(machine: &Machine, ptr: Scalar, size: Option<u64>) -> (found: Result<
    (Option<u64>, String, u64),
    (),
>)
    requires
        machine.memory.pointer_size >= 1,
    ensures
        match found {
            Ok((alloc, text, len)) => ptr_text(&machine.memory, ptr, size) == Ok::<
                (Option<u64>, Seq<char>, u64),
                (),
            >((alloc, text@, len)),
            Err(_) => ptr_text(&machine.memory, ptr, size) is Err,
        },
{
    let ptr = match ptr {
        Scalar::Ptr(ptr) => ptr,
        Scalar::Bits { size: _, bits: _ } => {
            return Err(());
        },
    };
    match machine.memory.get(ptr.alloc_id) {
        Some(alloc) => {
            let text = print_alloc(machine.memory.pointer_size, ptr, alloc, size);
            Ok((Some(ptr.alloc_id), text, alloc.bytes.len() as u64))
        },
        None => {
            if machine.memory.get_fn(ptr.alloc_id) {
                Ok((None, String::from_str("function pointer"), 16))
            } else {
                Err(())
            }
        },
    }
}

/// The raw text of a value and the allocation behind it: the dump of its
/// bytes for a sized value in memory, the scalars of an immediate. A value
/// in memory whose size is not known from its type shows the interpreter's
/// own text of its place.
pub open spec fn raw_text(memory: &Memory, op: &OpTy) -> Result<(Option<u64>, Seq<char>), ()> {
    match op.op {
        Operand::Indirect(place) => if place.meta is None {
            match ptr_text(memory, place.ptr, Some(op.size)) {
                Ok((alloc, text, _)) => Ok((alloc, text)),
                Err(_) => Err(()),
            }
        } else {
            Ok((None, op.place_debug@))
        },
        Operand::Immediate(Value::Scalar(scalar)) => Ok((None, scalar_maybe_undef_text(scalar))),
        Operand::Immediate(Value::ScalarPair(first, second)) => Ok(
            (None, scalar_maybe_undef_text(first) + ", "@ + scalar_maybe_undef_text(second)),
        ),
    }
}

/// What is shown for a value: its pretty text with the raw text in
/// brackets behind it, or the raw text alone where it has no pretty text.
pub open spec fn operand_text(memory: &Memory, op: &OpTy) -> Result<(Option<u64>, Seq<char>), ()> {
    match raw_text(memory, op) {
        Ok((alloc, raw)) => Ok(
            (
                alloc,
                match pretty_text(memory, op) {
                    Ok(pretty) => pretty + " ("@ + raw + ")"@,
                    Err(_) => raw,
                },
            ),
        ),
        Err(_) => Err(()),
    }
}

/// Whether `op` is a boolean held as an immediate scalar of one byte with
/// the bits `bits`, and read back as it stands.
pub open spec fn is_immediate_bool(op: &OpTy, bits: u128) -> bool {
    &&& op.ty is Bool
    &&& op.size == 1
    &&& op.abi is Scalar
    &&& op.op == Operand::Immediate(
        Value::Scalar(ScalarMaybeUndef::Scalar(Scalar::Bits { size: 1, bits })),
    )
    &&& op.scalar == Some(ScalarMaybeUndef::Scalar(Scalar::Bits { size: 1, bits }))
}

/// A boolean shows as `false` or `true` with its raw text in brackets
/// where its bits are 0 or 1. With any other bits it has no pretty text and
/// shows its raw text alone. It is never an error and has no allocation.
pub proof fn lemma_boolean_text(memory: &Memory, op: &OpTy, bits: u128)
    requires
        is_immediate_bool(op, bits),
    ensures
        bits == 0 ==> operand_text(memory, op) == Ok::<(Option<u64>, Seq<char>), ()>(
            (None, "false"@ + " ("@ + scalar_text(Scalar::Bits { size: 1, bits }) + ")"@),
        ),
        bits == 1 ==> operand_text(memory, op) == Ok::<(Option<u64>, Seq<char>), ()>(
            (None, "true"@ + " ("@ + scalar_text(Scalar::Bits { size: 1, bits }) + ")"@),
        ),
        bits > 1 ==> pretty_text(memory, op) is Err && operand_text(memory, op) == Ok::<
            (Option<u64>, Seq<char>),
            (),
        >((None, scalar_text(Scalar::Bits { size: 1, bits }))),
{
}

fn print_raw(machine: &Machine, op_ty: &OpTy) -> (shown: Result<(Option<u64>, String), ()>)
    requires
        machine.memory.pointer_size >= 1,
    ensures
        match shown {
            Ok((alloc, text)) => raw_text(&machine.memory, op_ty) == Ok::<
                (Option<u64>, Seq<char>),
                (),
            >((alloc, text@)),
            Err(_) => raw_text(&machine.memory, op_ty) is Err,
        },
{
    match op_ty.op {
        Operand::Indirect(place) => {
            match place.meta {
                None => match print_ptr(machine, place.ptr, Some(op_ty.size)) {
                    Ok((alloc, text, _)) => Ok((alloc, text)),
                    Err(_) => Err(()),
                },
                Some(_) => Ok((None, op_ty.place_debug.clone())),
            }
        },
        Operand::Immediate(Value::Scalar(scalar)) => Ok((None, print_scalar_maybe_undef(scalar))),
        Operand::Immediate(Value::ScalarPair(first, second)) => {
            let mut text = String::new();
            push_scalar_maybe_undef(&mut text, first);
            text.append(", ");
            push_scalar_maybe_undef(&mut text, second);
            assert(text@ =~= scalar_maybe_undef_text(first) + ", "@ + scalar_maybe_undef_text(
                second,
            ));
            Ok((None, text))
        },
    }
}

/// Renders a value for display and names the allocation behind it. Fails
/// only where the value lies in memory and its pointer leads nowhere.
pub fn print_operand(machine: &Machine, op_ty: &OpTy) -> (shown: Result<
    (Option<u64>, String),
    (),
>)
    requires
        machine.memory.pointer_size >= 1,
    ensures
        match shown {
            Ok((alloc, text)) => operand_text(&machine.memory, op_ty) == Ok::<
                (Option<u64>, Seq<char>),
                (),
            >((alloc, text@)),
            Err(_) => operand_text(&machine.memory, op_ty) is Err,
        },
{
    let pretty = pp_operand(machine, op_ty);
    let (alloc, raw) = match print_raw(machine, op_ty) {
        Ok(shown) => shown,
        Err(_) => {
            return Err(());
        },
    };
    match pretty {
        Ok(pretty) => {
            let mut text = pretty;
            text.append(" (");
            text.append(raw.as_str());
            text.append(")");
            assert(text@ =~= pretty@ + " ("@ + raw@ + ")"@);
            Ok((alloc, text))
        },
        Err(_) => Ok((alloc, raw)),
    }
}

/// The value that local `i` of the frame at `index` resolves to. The
/// return slot resolves to the frame's return value. A dead local resolves
/// to nothing, and neither does a live local of a frame below the top of the
/// stack: only the executing frame can have its locals read. A live local
/// of the executing frame resolves to what the interpreter read of it.
pub open spec fn local_value(machine: &Machine, index: int, i: int) -> Option<OpTy> {
    let frame = machine.stack[index];
    if i == 0 {
        frame.return_place
    } else {
        match frame.locals[i].value {
            LocalValue::Dead => None,
            LocalValue::Live(read) => if index == machine.stack.len() - 1 {
                read
            } else {
                None
            },
        }
    }
}

/// What the table shows for a local: the allocation behind it, its text
/// and the style of its row. A local without a value shows as
/// uninitialised in a row of its own style, one that cannot be rendered as
/// an error.
pub open spec fn local_cells(machine: &Machine, index: int, i: int) -> (
    Option<u64>,
    Seq<char>,
    Seq<char>,
) {
    match local_value(machine, index, i) {
        None => (None, "&lt;uninit&gt;"@, "font-size: 0;"@),
        Some(op) => match operand_text(&machine.memory, &op) {
            Ok((alloc, text)) => (alloc, text, ""@),
            Err(_) => (None, "&lt;error&gt;"@, "color: red;"@),
        },
    }
}

/// The heading cell that opens a band of rows.
pub open spec fn band_heading_text(rows: nat, label: Seq<char>) -> Seq<char> {
    "<th rowspan=\""@ + decimal(rows) + "\"><span class=\"vertical\">"@ + label
        + "</span></th>"@
}

/// The heading cell of row `i`, if the row opens a band: the return slot
/// at the top, then the arguments, the variables and the temporaries, each
/// band as long as the frame's count says. A band without rows has no
/// heading.
pub open spec fn band_text(frame: &Frame, i: int) -> Seq<char> {
    if i == 0 {
        band_heading_text(1, "Return"@)
    } else if i == 1 && frame.arg_count != 0 {
        band_heading_text(frame.arg_count as nat, "Arguments"@)
    } else if i == frame.arg_count + 1 && frame.var_count != 0 {
        band_heading_text(frame.var_count as nat, "Variables"@)
    } else if i == frame.arg_count + frame.var_count + 1 && frame.tmp_count != 0 {
        band_heading_text(frame.tmp_count as nat, "Temporaries"@)
    } else {
        Seq::empty()
    }
}

/// The cell that names the allocation behind a local.
pub open spec fn alloc_cell_text(alloc: Option<u64>) -> Seq<char> {
    match alloc {
        Some(id) => "<td>"@ + decimal(id as nat) + "</td>"@,
        None => "<td />"@,
    }
}

/// The cells of a row behind the heading of its band: the index of the
/// local, its name, the allocation behind it, its value and its type.
pub open spec fn cells_text(
    i: nat,
    name: Seq<char>,
    alloc: Option<u64>,
    text: Seq<char>,
    ty: Seq<char>,
) -> Seq<char> {
    "<td>_"@ + decimal(i) + "</td><td>"@ + name + "</td>"@ + alloc_cell_text(alloc) + "<td>"@
        + text + "</td><td>"@ + ty + "</td></tr>"@
}

/// The name under which a local is shown: its own, escaped, or none.
pub open spec fn local_name_text(name: Option<String>) -> Seq<char> {
    match name {
        Some(name) => escape_markup(name@),
        None => Seq::empty(),
    }
}

/// The row of local `i`: the style of the row, the heading of its band
/// where it opens one, and its cells.
pub open spec fn row_text(machine: &Machine, index: int, i: int) -> Seq<char> {
    let frame = machine.stack[index];
    let (alloc, text, style) = local_cells(machine, index, i);
    "<tr style=\""@ + style + "\">"@ + band_text(&frame, i) + cells_text(
        i as nat,
        local_name_text(frame.locals[i].name),
        alloc,
        text,
        escape_markup(frame.locals[i].ty@),
    )
}

/// The rows of the first `count` locals.
pub open spec fn rows_text(machine: &Machine, index: int, count: nat) -> Seq<char>
    decreases count,
{
    if count == 0 {
        Seq::empty()
    } else {
        rows_text(machine, index, (count - 1) as nat) + row_text(machine, index, count - 1)
    }
}

/// The line of column headings.
pub open spec fn table_head_text() -> Seq<char> {
    "<table border=\"1\"><tr><td width=\"20px\" /><th>id</th><th>name</th><th>alloc</th><th>memory</th><th>type</th></tr>"@
}

/// The table of the locals of the frame at `index`, one row for each.
pub open spec fn locals_table_text(machine: &Machine, index: int) -> Seq<char> {
    table_head_text() + rows_text(machine, index, machine.stack[index].locals.len() as nat)
        + "</table>"@
}

/// The row of a dead local shows it as uninitialised, whatever its
/// declared type: no allocation, the marker in place of a value, and the
/// style that sets such rows apart.
pub proof fn lemma_dead_local_row(machine: &Machine, index: int, i: int)
    requires
        0 <= index < machine.stack.len(),
        0 < i < machine.stack[index].locals.len(),
        machine.stack[index].locals[i].value is Dead,
    ensures
        local_cells(machine, index, i) == (None::<u64>, "&lt;uninit&gt;"@, "font-size: 0;"@),
        row_text(machine, index, i) == "<tr style=\""@ + "font-size: 0;"@ + "\">"@ + band_text(
            &machine.stack[index],
            i,
        ) + cells_text(
            i as nat,
            local_name_text(machine.stack[index].locals[i].name),
            None,
            "&lt;uninit&gt;"@,
            escape_markup(machine.stack[index].locals[i].ty@),
        ),
{
}

fn push_band_heading(out: &mut String, rows: usize, label: &str)
    ensures
        final(out)@ == old(out)@ + band_heading_text(rows as nat, label@),
{
    out.append("<th rowspan=\"");
    push_decimal(out, rows as u128);
    out.append("\"><span class=\"vertical\">");
    out.append(label);
    out.append("</span></th>");
    assert(out@ =~= old(out)@ + band_heading_text(rows as nat, label@));
}

fn push_band(out: &mut String, frame: &Frame, i: usize)
    ensures
        final(out)@ == old(out)@ + band_text(frame, i as int),
{
    if i == 0 {
        push_band_heading(out, 1, "Return");
    } else if i == 1 && frame.arg_count != 0 {
        push_band_heading(out, frame.arg_count, "Arguments");
    } else if i - 1 == frame.arg_count && frame.var_count != 0 {
        push_band_heading(out, frame.var_count, "Variables");
    } else if i - 1 >= frame.arg_count && i - 1 - frame.arg_count == frame.var_count
        && frame.tmp_count != 0 {
        push_band_heading(out, frame.tmp_count, "Temporaries");
    } else {
        assert(out@ =~= old(out)@ + band_text(frame, i as int));
    }
}

fn push_alloc_cell(out: &mut String, alloc: Option<u64>)
    ensures
        final(out)@ == old(out)@ + alloc_cell_text(alloc),
{
    match alloc {
        Some(id) => {
            out.append("<td>");
            push_decimal(out, id as u128);
            out.append("</td>");
            assert(out@ =~= old(out)@ + alloc_cell_text(alloc));
        },
        None => {
            out.append("<td />");
        },
    }
}

/// Resolves a local to what its row shows.
fn show_local(machine: &Machine, index: usize, i: usize) -> (cells: (
    Option<u64>,
    String,
    &'static str,
))
    requires
        index < machine.stack.len(),
        i < machine.stack[index as int].locals.len(),
        machine.memory.pointer_size >= 1,
    ensures
        (cells.0, cells.1@, cells.2@) == local_cells(machine, index as int, i as int),
{
    let frame = &machine.stack[index];
    let resolved: Option<&OpTy> = if i == 0 {
        frame.return_place.as_ref()
    } else {
        match &frame.locals[i].value {
            LocalValue::Dead => None,
            LocalValue::Live(read) => {
                if index == machine.stack.len() - 1 {
                    read.as_ref()
                } else {
                    None
                }
            },
        }
    };
    match resolved {
        None => (None, String::from_str("&lt;uninit&gt;"), "font-size: 0;"),
        Some(op) => match print_operand(machine, op) {
            Ok((alloc, text)) => (alloc, text, ""),
            Err(_) => (None, String::from_str("&lt;error&gt;"), "color: red;"),
        },
    }
}

fn push_cells(out: &mut String, i: usize, name: &str, alloc: Option<u64>, text: &str, ty: &str)
    ensures
        final(out)@ == old(out)@ + cells_text(i as nat, name@, alloc, text@, ty@),
{
    out.append("<td>_");
    push_decimal(out, i as u128);
    out.append("</td><td>");
    out.append(name);
    out.append("</td>");
    push_alloc_cell(out, alloc);
    out.append("<td>");
    out.append(text);
    out.append("</td><td>");
    out.append(ty);
    out.append("</td></tr>");
    assert(out@ =~= old(out)@ + cells_text(i as nat, name@, alloc, text@, ty@));
}

fn push_row(out: &mut String, machine: &Machine, index: usize, i: usize)
    requires
        index < machine.stack.len(),
        i < machine.stack[index as int].locals.len(),
        machine.memory.pointer_size >= 1,
    ensures
        final(out)@ == old(out)@ + row_text(machine, index as int, i as int),
{
    let frame = &machine.stack[index];
    let (alloc, text, style) = show_local(machine, index, i);
    let name = match &frame.locals[i].name {
        Some(name) => escape_text(name.as_str()),
        None => String::new(),
    };
    let ty = escape_text(frame.locals[i].ty.as_str());
    out.append("<tr style=\"");
    out.append(style);
    out.append("\">");
    push_band(out, frame, i);
    let ghost opened = out@;
    assert(opened =~= old(out)@ + ("<tr style=\""@ + style@ + "\">"@ + band_text(frame, i as int)));
    push_cells(out, i, name.as_str(), alloc, text.as_str(), ty.as_str());
    assert(out@ =~= old(out)@ + row_text(machine, index as int, i as int));
}

/// Renders the locals of the frame at `index` of the stack as a table: a row
/// for each local in declaration order, in four bands.
pub fn render_locals(machine: &Machine, index: usize) -> (table: String)
    requires
        index < machine.stack.len(),
        machine.memory.pointer_size >= 1,
    ensures
        table@ == locals_table_text(machine, index as int),
{
    let count = machine.stack[index].locals.len();
    let mut out = String::from_str(
        "<table border=\"1\"><tr><td width=\"20px\" /><th>id</th><th>name</th><th>alloc</th><th>memory</th><th>type</th></tr>",
    );
    let mut i: usize = 0;
    while i < count
        invariant
            index < machine.stack.len(),
            machine.memory.pointer_size >= 1,
            count == machine.stack[index as int].locals.len(),
            i <= count,
            out@ == table_head_text() + rows_text(machine, index as int, i as nat),
        decreases count - i,
    {
        push_row(&mut out, machine, index, i);
        i = i + 1;
        assert(out@ =~= table_head_text() + rows_text(machine, index as int, i as nat));
    }
    out.append("</table>");
    out
}

} // verus!

use vstd::prelude::*;
use vstd::endian::{endianness, Endian};

use crate::error::{outcome_of, too_small, Outcome, ReadFromBytesError};
use crate::FromBytes;

verus! {

/// The value of bytes read with the first byte least significant.
pub open spec fn le_uint(b: Seq<u8>) -> nat
    decreases b.len(),
{
    if b.len() == 0 {
        0
    } else {
        b[0] as nat + 256 * le_uint(b.drop_first())
    }
}

/// The value of bytes read in the byte order of the machine.
pub open spec fn native_uint(b: Seq<u8>) -> nat {
    match endianness() {
        Endian::Little => le_uint(b),
        Endian::Big => le_uint(b.reverse()),
    }
}

/// A single byte reads the same in either byte order.
proof fn lemma_single_byte(b: Seq<u8>)
    requires
        b.len() == 1,
    ensures
        native_uint(b) == b[0] as nat,
{
    assert(b.reverse() =~= b);
    assert(b.drop_first().len() == 0);
    assert(le_uint(b) == b[0] as nat + 256 * le_uint(b.drop_first()));
}

/// Two's complement reading of `u`, where `half` is the weight of the sign bit.
pub open spec fn signed(u: nat, half: nat) -> int {
    if u >= half {
        u - 2 * half
    } else {
        u as int
    }
}

/// The fixed-width integer types that decode from bytes.
pub enum IntKind {
    U8,
    U16,
    U32,
    U64,
    U128,
    I8,
    I16,
    I32,
    I64,
    I128,
    Usize,
    Isize,
}

/// Width in bytes of each integer type.
pub open spec fn width(k: IntKind) -> nat {
    match k {
        IntKind::U8 | IntKind::I8 => 1,
        IntKind::U16 | IntKind::I16 => 2,
        IntKind::U32 | IntKind::I32 => 4,
        IntKind::U64 | IntKind::I64 => 8,
        IntKind::U128 | IntKind::I128 => 16,
        IntKind::Usize | IntKind::Isize => vstd::layout::size_of::<usize>(),
    }
}

pub open spec fn is_signed(k: IntKind) -> bool {
    match k {
        IntKind::I8 | IntKind::I16 | IntKind::I32 | IntKind::I64 | IntKind::I128 | IntKind::Isize => true,
        _ => false,
    }
}

/// The integer of kind `k` that the leading `width(k)` bytes of `b` hold.
pub open spec fn int_of_bytes(k: IntKind, b: Seq<u8>) -> int {
    let w = width(k);
    let u = native_uint(b.subrange(0, w as int));
    if is_signed(k) {
        signed(u, pow2_bytes((w - 1) as nat) * 128)
    } else {
        u as int
    }
}

/// 256 to the power `n`.
pub open spec fn pow2_bytes(n: nat) -> nat
    decreases n,
{
    if n == 0 {
        1
    } else {
        256 * pow2_bytes((n - 1) as nat)
    }
}

/// `x` lies within the range of the integer type of kind `k`.
pub open spec fn in_range(k: IntKind, x: int) -> bool {
    match k {
        IntKind::U8 => u8::MIN <= x <= u8::MAX,
        IntKind::U16 => u16::MIN <= x <= u16::MAX,
        IntKind::U32 => u32::MIN <= x <= u32::MAX,
        IntKind::U64 => u64::MIN <= x <= u64::MAX,
        IntKind::U128 => u128::MIN <= x <= u128::MAX,
        IntKind::I8 => i8::MIN <= x <= i8::MAX,
        IntKind::I16 => i16::MIN <= x <= i16::MAX,
        IntKind::I32 => i32::MIN <= x <= i32::MAX,
        IntKind::I64 => i64::MIN <= x <= i64::MAX,
        IntKind::I128 => i128::MIN <= x <= i128::MAX,
        IntKind::Usize => usize::MIN <= x <= usize::MAX,
        IntKind::Isize => isize::MIN <= x <= isize::MAX,
    }
}

proof fn lemma_le_uint_bound(b: Seq<u8>)
    ensures
        le_uint(b) < pow2_bytes(b.len()),
    decreases b.len(),
{
    if b.len() > 0 {
        lemma_le_uint_bound(b.drop_first());
        assert(pow2_bytes(b.len()) == 256 * pow2_bytes((b.len() - 1) as nat));
    }
}

/// The integer that `int_of_bytes` reads lies within the range of its type.
pub proof fn lemma_int_of_bytes_range(k: IntKind, b: Seq<u8>)
    requires
        b.len() >= width(k),
    ensures
        in_range(k, int_of_bytes(k, b)),
{
    let w = width(k);
    let s = b.subrange(0, w as int);
    lemma_le_uint_bound(s);
    lemma_le_uint_bound(s.reverse());
    broadcast use vstd::layout::layout_of_primitives;
    reveal_with_fuel(pow2_bytes, 17);
    assert(usize::BITS == 32 || usize::BITS == 64);
    assert(vstd::layout::size_of::<usize>() == 4 || vstd::layout::size_of::<usize>() == 8);
    assert(pow2_bytes(w) == 256 * pow2_bytes((w - 1) as nat));
}

/// What decoding `b` into an integer of kind `k` yields: the new value and the outcome.
/// A slice shorter than the width leaves the value as it was.
pub open spec fn load_int(k: IntKind, old_value: int, b: Seq<u8>) -> (int, Outcome) {
    if b.len() < width(k) {
        (old_value, Outcome::TooSmall(width(k), b.len()))
    } else {
        (int_of_bytes(k, b), Outcome::Done)
    }
}


/// Relies on `u16::from_ne_bytes`: the bytes read in the machine's byte order.
#[verifier::external_body]
fn u16_from_ne(bytes: [u8; 2]) -> (r: u16)
    ensures
        r as int == int_of_bytes(IntKind::U16, bytes@),
{
    u16::from_ne_bytes(bytes)
}

/// Relies on `u32::from_ne_bytes`: the bytes read in the machine's byte order.
#[verifier::external_body]
fn u32_from_ne(bytes: [u8; 4]) -> (r: u32)
    ensures
        r as int == int_of_bytes(IntKind::U32, bytes@),
{
    u32::from_ne_bytes(bytes)
}

/// Relies on `u64::from_ne_bytes`: the bytes read in the machine's byte order.
#[verifier::external_body]
fn u64_from_ne(bytes: [u8; 8]) -> (r: u64)
    ensures
        r as int == int_of_bytes(IntKind::U64, bytes@),
{
    u64::from_ne_bytes(bytes)
}

/// Relies on `u128::from_ne_bytes`: the bytes read in the machine's byte order.
#[verifier::external_body]
fn u128_from_ne(bytes: [u8; 16]) -> (r: u128)
    ensures
        r as int == int_of_bytes(IntKind::U128, bytes@),
{
    u128::from_ne_bytes(bytes)
}


/// Relies on `i16::from_ne_bytes`: the bytes read in the machine's byte order.
#[verifier::external_body]
fn i16_from_ne(bytes: [u8; 2]) -> (r: i16)
    ensures
        r as int == int_of_bytes(IntKind::I16, bytes@),
{
    i16::from_ne_bytes(bytes)
}

/// Relies on `i32::from_ne_bytes`: the bytes read in the machine's byte order.
#[verifier::external_body]
fn i32_from_ne(bytes: [u8; 4]) -> (r: i32)
    ensures
        r as int == int_of_bytes(IntKind::I32, bytes@),
{
    i32::from_ne_bytes(bytes)
}

/// Relies on `i64::from_ne_bytes`: the bytes read in the machine's byte order.
#[verifier::external_body]
fn i64_from_ne(bytes: [u8; 8]) -> (r: i64)
    ensures
        r as int == int_of_bytes(IntKind::I64, bytes@),
{
    i64::from_ne_bytes(bytes)
}

/// Relies on `i128::from_ne_bytes`: the bytes read in the machine's byte order.
#[verifier::external_body]
fn i128_from_ne(bytes: [u8; 16]) -> (r: i128)
    ensures
        r as int == int_of_bytes(IntKind::I128, bytes@),
{
    i128::from_ne_bytes(bytes)
}

impl FromBytes for u8 {
    open spec fn spec_size(v: u8) -> nat {
        width(IntKind::U8)
    }

    open spec fn spec_load(v: u8, bytes: Seq<u8>) -> (u8, Outcome) {
        let (x, o) = load_int(IntKind::U8, v as int, bytes);
        (x as u8, o)
    }

    fn load_from_bytes(&mut self, bytes: &[u8]) -> (r: Result<(), ReadFromBytesError>) {
        if bytes.len() < 1 {
            return too_small(1, bytes.len());
        }
        proof {
            lemma_single_byte(bytes@.subrange(0, 1));
        }
        *self = bytes[0];
        Ok(())
    }

    fn bytes_size(&self) -> (r: usize) {
        1
    }
}

impl FromBytes for u16 {
    open spec fn spec_size(v: u16) -> nat {
        width(IntKind::U16)
    }

    open spec fn spec_load(v: u16, bytes: Seq<u8>) -> (u16, Outcome) {
        let (x, o) = load_int(IntKind::U16, v as int, bytes);
        (x as u16, o)
    }

    fn load_from_bytes(&mut self, bytes: &[u8]) -> (r: Result<(), ReadFromBytesError>) {
        if bytes.len() < 2 {
            return too_small(2, bytes.len());
        }
        let arr: [u8; 2] = [bytes[0], bytes[1]];
        assert(arr@.subrange(0, 2) =~= bytes@.subrange(0, 2));
        *self = u16_from_ne(arr);
        Ok(())
    }

    fn bytes_size(&self) -> (r: usize) {
        2
    }
}

impl FromBytes for u32 {
    open spec fn spec_size(v: u32) -> nat {
        width(IntKind::U32)
    }

    open spec fn spec_load(v: u32, bytes: Seq<u8>) -> (u32, Outcome) {
        let (x, o) = load_int(IntKind::U32, v as int, bytes);
        (x as u32, o)
    }

    fn load_from_bytes(&mut self, bytes: &[u8]) -> (r: Result<(), ReadFromBytesError>) {
        if bytes.len() < 4 {
            return too_small(4, bytes.len());
        }
        let arr: [u8; 4] = [bytes[0], bytes[1], bytes[2], bytes[3]];
        assert(arr@.subrange(0, 4) =~= bytes@.subrange(0, 4));
        *self = u32_from_ne(arr);
        Ok(())
    }

    fn bytes_size(&self) -> (r: usize) {
        4
    }
}

impl FromBytes for u64 {
    open spec fn spec_size(v: u64) -> nat {
        width(IntKind::U64)
    }

    open spec fn spec_load(v: u64, bytes: Seq<u8>) -> (u64, Outcome) {
        let (x, o) = load_int(IntKind::U64, v as int, bytes);
        (x as u64, o)
    }

    fn load_from_bytes(&mut self, bytes: &[u8]) -> (r: Result<(), ReadFromBytesError>) {
        if bytes.len() < 8 {
            return too_small(8, bytes.len());
        }
        let arr: [u8; 8] = [bytes[0], bytes[1], bytes[2], bytes[3], bytes[4], bytes[5], bytes[6], bytes[7]];
        assert(arr@.subrange(0, 8) =~= bytes@.subrange(0, 8));
        *self = u64_from_ne(arr);
        Ok(())
    }

    fn bytes_size(&self) -> (r: usize) {
        8
    }
}

impl FromBytes for u128 {
    open spec fn spec_size(v: u128) -> nat {
        width(IntKind::U128)
    }

    open spec fn spec_load(v: u128, bytes: Seq<u8>) -> (u128, Outcome) {
        let (x, o) = load_int(IntKind::U128, v as int, bytes);
        (x as u128, o)
    }

    fn load_from_bytes(&mut self, bytes: &[u8]) -> (r: Result<(), ReadFromBytesError>) {
        if bytes.len() < 16 {
            return too_small(16, bytes.len());
        }
        let arr: [u8; 16] = [bytes[0], bytes[1], bytes[2], bytes[3], bytes[4], bytes[5], bytes[6], bytes[7], bytes[8], bytes[9], bytes[10], bytes[11], bytes[12], bytes[13], bytes[14], bytes[15]];
        assert(arr@.subrange(0, 16) =~= bytes@.subrange(0, 16));
        *self = u128_from_ne(arr);
        Ok(())
    }

    fn bytes_size(&self) -> (r: usize) {
        16
    }
}

impl FromBytes for i8 {
    open spec fn spec_size(v: i8) -> nat {
        width(IntKind::I8)
    }

    open spec fn spec_load(v: i8, bytes: Seq<u8>) -> (i8, Outcome) {
        let (x, o) = load_int(IntKind::I8, v as int, bytes);
        (x as i8, o)
    }

    fn load_from_bytes(&mut self, bytes: &[u8]) -> (r: Result<(), ReadFromBytesError>) {
        if bytes.len() < 1 {
            return too_small(1, bytes.len());
        }
        proof {
            lemma_single_byte(bytes@.subrange(0, 1));
        }
        let u = bytes[0];
        *self = if u < 128 {
            u as i8
        } else {
            (u as i16 - 256) as i8
        };
        Ok(())
    }

    fn bytes_size(&self) -> (r: usize) {
        1
    }
}

impl FromBytes for i16 {
    open spec fn spec_size(v: i16) -> nat {
        width(IntKind::I16)
    }

    open spec fn spec_load(v: i16, bytes: Seq<u8>) -> (i16, Outcome) {
        let (x, o) = load_int(IntKind::I16, v as int, bytes);
        (x as i16, o)
    }

    fn load_from_bytes(&mut self, bytes: &[u8]) -> (r: Result<(), ReadFromBytesError>) {
        if bytes.len() < 2 {
            return too_small(2, bytes.len());
        }
        let arr: [u8; 2] = [bytes[0], bytes[1]];
        assert(arr@.subrange(0, 2) =~= bytes@.subrange(0, 2));
        *self = i16_from_ne(arr);
        Ok(())
    }

    fn bytes_size(&self) -> (r: usize) {
        2
    }
}

impl FromBytes for i32 {
    open spec fn spec_size(v: i32) -> nat {
        width(IntKind::I32)
    }

    open spec fn spec_load(v: i32, bytes: Seq<u8>) -> (i32, Outcome) {
        let (x, o) = load_int(IntKind::I32, v as int, bytes);
        (x as i32, o)
    }

    fn load_from_bytes(&mut self, bytes: &[u8]) -> (r: Result<(), ReadFromBytesError>) {
        if bytes.len() < 4 {
            return too_small(4, bytes.len());
        }
        let arr: [u8; 4] = [bytes[0], bytes[1], bytes[2], bytes[3]];
        assert(arr@.subrange(0, 4) =~= bytes@.subrange(0, 4));
        *self = i32_from_ne(arr);
        Ok(())
    }

    fn bytes_size(&self) -> (r: usize) {
        4
    }
}

impl FromBytes for i64 {
    open spec fn spec_size(v: i64) -> nat {
        width(IntKind::I64)
    }

    open spec fn spec_load(v: i64, bytes: Seq<u8>) -> (i64, Outcome) {
        let (x, o) = load_int(IntKind::I64, v as int, bytes);
        (x as i64, o)
    }

    fn load_from_bytes(&mut self, bytes: &[u8]) -> (r: Result<(), ReadFromBytesError>) {
        if bytes.len() < 8 {
            return too_small(8, bytes.len());
        }
        let arr: [u8; 8] = [bytes[0], bytes[1], bytes[2], bytes[3], bytes[4], bytes[5], bytes[6], bytes[7]];
        assert(arr@.subrange(0, 8) =~= bytes@.subrange(0, 8));
        *self = i64_from_ne(arr);
        Ok(())
    }

    fn bytes_size(&self) -> (r: usize) {
        8
    }
}

impl FromBytes for i128 {
    open spec fn spec_size(v: i128) -> nat {
        width(IntKind::I128)
    }

    open spec fn spec_load(v: i128, bytes: Seq<u8>) -> (i128, Outcome) {
        let (x, o) = load_int(IntKind::I128, v as int, bytes);
        (x as i128, o)
    }

    fn load_from_bytes(&mut self, bytes: &[u8]) -> (r: Result<(), ReadFromBytesError>) {
        if bytes.len() < 16 {
            return too_small(16, bytes.len());
        }
        let arr: [u8; 16] = [bytes[0], bytes[1], bytes[2], bytes[3], bytes[4], bytes[5], bytes[6], bytes[7], bytes[8], bytes[9], bytes[10], bytes[11], bytes[12], bytes[13], bytes[14], bytes[15]];
        assert(arr@.subrange(0, 16) =~= bytes@.subrange(0, 16));
        *self = i128_from_ne(arr);
        Ok(())
    }

    fn bytes_size(&self) -> (r: usize) {
        16
    }
}

/// Relies on `usize::from_ne_bytes`: the bytes read in the machine's byte order.
#[verifier::external_body]
fn usize_from_ne(bytes: &[u8]) -> (r: usize)
    requires
        bytes@.len() == vstd::layout::size_of::<usize>(),
    ensures
        r as int == int_of_bytes(IntKind::Usize, bytes@),
{
    usize::from_ne_bytes(bytes.try_into().unwrap())
}

/// Relies on `isize::from_ne_bytes`: the bytes read in the machine's byte order.
#[verifier::external_body]
fn isize_from_ne(bytes: &[u8]) -> (r: isize)
    requires
        bytes@.len() == vstd::layout::size_of::<isize>(),
    ensures
        r as int == int_of_bytes(IntKind::Isize, bytes@),
{
    isize::from_ne_bytes(bytes.try_into().unwrap())
}

impl FromBytes for usize {
    open spec fn spec_size(v: usize) -> nat {
        width(IntKind::Usize)
    }

    open spec fn spec_load(v: usize, bytes: Seq<u8>) -> (usize, Outcome) {
        let (x, o) = load_int(IntKind::Usize, v as int, bytes);
        (x as usize, o)
    }

    fn load_from_bytes(&mut self, bytes: &[u8]) -> (r: Result<(), ReadFromBytesError>) {
        broadcast use vstd::layout::layout_of_primitives;

        let w = core::mem::size_of::<usize>();
        if bytes.len() < w {
            return too_small(w, bytes.len());
        }
        let sub = vstd::slice::slice_subrange(bytes, 0, w);
        assert(sub@.subrange(0, w as int) =~= bytes@.subrange(0, w as int));
        *self = usize_from_ne(sub);
        Ok(())
    }

    fn bytes_size(&self) -> (r: usize) {
        broadcast use vstd::layout::layout_of_primitives;

        core::mem::size_of::<usize>()
    }
}

impl FromBytes for isize {
    open spec fn spec_size(v: isize) -> nat {
        width(IntKind::Isize)
    }

    open spec fn spec_load(v: isize, bytes: Seq<u8>) -> (isize, Outcome) {
        let (x, o) = load_int(IntKind::Isize, v as int, bytes);
        (x as isize, o)
    }

    fn load_from_bytes(&mut self, bytes: &[u8]) -> (r: Result<(), ReadFromBytesError>) {
        broadcast use vstd::layout::layout_of_primitives;

        let w = core::mem::size_of::<isize>();
        if bytes.len() < w {
            return too_small(w, bytes.len());
        }
        let sub = vstd::slice::slice_subrange(bytes, 0, w);
        assert(sub@.subrange(0, w as int) =~= bytes@.subrange(0, w as int));
        *self = isize_from_ne(sub);
        Ok(())
    }

    fn bytes_size(&self) -> (r: usize) {
        broadcast use vstd::layout::layout_of_primitives;

        core::mem::size_of::<isize>()
    }
}

} // verus!

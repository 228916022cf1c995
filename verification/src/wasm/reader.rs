//! Reading the binary format.
//!
//! The bytes are decoded by the `wasmparser` crate.

use vstd::prelude::*;
use vstd::slice::slice_subrange;

verus! {

/// A type in the binary format.
#[derive(Clone, Copy, Debug, PartialEq, Eq, Structural)]
pub enum WasmType {
    /// A 32-bit integer.
    I32,
    /// A 64-bit integer.
    I64,
    /// A 32-bit floating point number.
    F32,
    /// A 64-bit floating point number.
    F64,
    /// Any function.
    AnyFunc,
    /// A function type.
    Func,
    /// A control block that leaves no value.
    EmptyBlockType,
}

/// The most local variables that a function may declare in the binary format, and the most
/// declarations that it may have: the limit that `wasmparser` imposes.
pub const MAX_DECLARED_LOCALS: usize = 50_000;

/// An operator of the WebAssembly code.
#[verifier::external_type_specification]
#[verifier::external_body]
pub struct ExOperator<'a>(wasmparser::Operator<'a>);

/// The reason why something could not be decoded.
#[verifier::external_type_specification]
#[verifier::external_body]
pub struct ExBinaryReaderError(wasmparser::BinaryReaderError);

/// The number of bytes in the LEB128 number that `bytes` starts with: up to the first byte without
/// the continuation bit.
pub open spec fn leb128_len(bytes: Seq<u8>) -> Option<int>
    decreases bytes.len(),
{
    if bytes.len() == 0 {
        None
    } else if bytes[0] < 0x80 {
        Some(1)
    } else {
        match leb128_len(bytes.skip(1)) {
            Some(n) => Some(n + 1),
            None => None,
        }
    }
}

/// The LEB128 number in the first `n` bytes: seven bits from each, the lowest first.
pub open spec fn leb128_value(bytes: Seq<u8>, n: int) -> nat
    decreases n,
{
    if n <= 0 {
        0
    } else {
        (bytes[0] % 0x80) as nat + 0x80 * leb128_value(bytes.skip(1), n - 1)
    }
}

/// The 32-bit number that `bytes` starts with, and the number of bytes that it takes: at most
/// five. Bits above the 32nd are dropped.
pub open spec fn var_u32(bytes: Seq<u8>) -> Option<(u32, int)> {
    match leb128_len(bytes) {
        Some(n) => if n <= 5 {
            Some(((leb128_value(bytes, n) % 0x1_0000_0000) as u32, n))
        } else {
            None
        },
        None => None,
    }
}

/// The type that a byte stands for.
pub open spec fn type_of_byte(byte: u8) -> Option<WasmType> {
    if byte == 0x7f {
        Some(WasmType::I32)
    } else if byte == 0x7e {
        Some(WasmType::I64)
    } else if byte == 0x7d {
        Some(WasmType::F32)
    } else if byte == 0x7c {
        Some(WasmType::F64)
    } else if byte == 0x70 {
        Some(WasmType::AnyFunc)
    } else if byte == 0x60 {
        Some(WasmType::Func)
    } else if byte == 0x40 {
        Some(WasmType::EmptyBlockType)
    } else {
        None
    }
}

/// The number of local declarations that `bytes` starts with, and the number of bytes read.
pub open spec fn local_count_at(bytes: Seq<u8>) -> Option<(u32, int)> {
    match var_u32(bytes) {
        Some((count, n)) => if count <= MAX_DECLARED_LOCALS {
            Some((count, n))
        } else {
            None
        },
        None => None,
    }
}

/// The local declaration that `bytes` starts with: how many variables of which type, and the
/// number of bytes read. With those declared before, there may not be too many variables.
pub open spec fn local_decl_at(bytes: Seq<u8>, locals_total: int) -> Option<
    (u32, WasmType, int),
> {
    match var_u32(bytes) {
        Some((count, n)) => if n < bytes.len() && locals_total + count <= MAX_DECLARED_LOCALS {
            match type_of_byte(bytes[n]) {
                Some(ty) => Some((count, ty, n + 1)),
                None => None,
            }
        } else {
            None
        },
        None => None,
    }
}

/// A number takes at least one byte and at most those that there are.
pub proof fn lemma_leb128_len(bytes: Seq<u8>)
    ensures
        leb128_len(bytes) matches Some(n) ==> 0 < n <= bytes.len(),
    decreases bytes.len(),
{
    if bytes.len() > 0 {
        lemma_leb128_len(bytes.skip(1));
    }
}

/// A number ends with the first byte that has no continuation bit, and there is none where all
/// have it.
pub proof fn law_number_ends(bytes: Seq<u8>)
    ensures
        match leb128_len(bytes) {
            Some(n) => {
                &&& 0 < n <= bytes.len()
                &&& bytes[n - 1] < 0x80
                &&& forall|i: int| 0 <= i < n - 1 ==> #[trigger] bytes[i] >= 0x80
            },
            None => forall|i: int| 0 <= i < bytes.len() ==> #[trigger] bytes[i] >= 0x80,
        },
    decreases bytes.len(),
{
    if bytes.len() > 0 && bytes[0] >= 0x80 {
        let less = bytes.skip(1);
        law_number_ends(less);
        match leb128_len(bytes) {
            Some(n) => {
                assert(less[n - 2] == bytes[n - 1]);
                assert forall|i: int| 0 <= i < n - 1 implies #[trigger] bytes[i] >= 0x80 by {
                    if i > 0 {
                        assert(less[i - 1] == bytes[i]);
                    }
                }
            },
            None => {
                assert forall|i: int| 0 <= i < bytes.len() implies #[trigger] bytes[i] >= 0x80 by {
                    if i > 0 {
                        assert(less[i - 1] == bytes[i]);
                    }
                }
            },
        }
    }
}

/// A number is made up of seven bits from each of its bytes, the lowest first.
pub proof fn law_number_value(bytes: Seq<u8>, n: int)
    requires
        0 <= n <= bytes.len(),
    ensures
        leb128_value(bytes, n) == bytes.take(n).fold_right(
            |byte: u8, high: int| (byte as int) % 0x80 + 0x80 * high,
            0int,
        ),
{
    let f = |byte: u8, high: int| (byte as int) % 0x80 + 0x80 * high;
    lemma_number_value(bytes, n, f);
    bytes.take(n).lemma_fold_right_alt(f, 0int);
}

/// What the bytes of a number make up, from the first one on.
proof fn lemma_number_value(bytes: Seq<u8>, n: int, f: spec_fn(u8, int) -> int)
    requires
        0 <= n <= bytes.len(),
        forall|byte: u8, high: int| #[trigger]
            f(byte, high) == (byte as int) % 0x80 + 0x80 * high,
    ensures
        leb128_value(bytes, n) == bytes.take(n).fold_right_alt(f, 0int),
    decreases n,
{
    if n > 0 {
        let all = bytes.take(n);
        lemma_number_value(bytes.skip(1), n - 1, f);
        assert(all.subrange(1, all.len() as int) =~= bytes.skip(1).take(n - 1));
    }
}

/// A 32-bit number is there exactly if one of the first five bytes ends it. It takes the bytes up
/// to that one, and its value is that of those modulo two to the 32nd.
pub proof fn law_var_u32(bytes: Seq<u8>)
    ensures
        var_u32(bytes) is Some <==> exists|i: int|
            0 <= i < 5 && i < bytes.len() && #[trigger] bytes[i] < 0x80,
        var_u32(bytes) matches Some((number, n)) ==> {
            &&& 0 < n <= 5
            &&& n <= bytes.len()
            &&& bytes[n - 1] < 0x80
            &&& forall|i: int| 0 <= i < n - 1 ==> #[trigger] bytes[i] >= 0x80
            &&& number == bytes.take(n).fold_right(
                |byte: u8, high: int| (byte as int) % 0x80 + 0x80 * high,
                0int,
            ) % 0x1_0000_0000
        },
{
    law_number_ends(bytes);
    if let Some((number, n)) = var_u32(bytes) {
        law_number_value(bytes, n);
        assert(bytes[n - 1] < 0x80);
    }
}

/// Each type has its byte, and no other byte stands for a type.
pub proof fn law_type_bytes(byte: u8)
    ensures
        type_of_byte(byte) == Some(WasmType::I32) <==> byte == 0x7f,
        type_of_byte(byte) == Some(WasmType::I64) <==> byte == 0x7e,
        type_of_byte(byte) == Some(WasmType::F32) <==> byte == 0x7d,
        type_of_byte(byte) == Some(WasmType::F64) <==> byte == 0x7c,
        type_of_byte(byte) == Some(WasmType::AnyFunc) <==> byte == 0x70,
        type_of_byte(byte) == Some(WasmType::Func) <==> byte == 0x60,
        type_of_byte(byte) == Some(WasmType::EmptyBlockType) <==> byte == 0x40,
{
}

/// The number of declarations is the 32-bit number that there is, up to fifty thousand.
pub proof fn law_local_count(bytes: Seq<u8>, count: u32, n: int)
    ensures
        local_count_at(bytes) == Some((count, n)) <==> var_u32(bytes) == Some((count, n)) && count
            <= 50_000,
{
}

/// A declaration is a 32-bit number and the byte of a type after it, and with it no more than fifty
/// thousand variables may be declared.
pub proof fn law_local_decl(
    bytes: Seq<u8>,
    locals_total: int,
    count: u32,
    ty: WasmType,
    n: int,
)
    ensures
        local_decl_at(bytes, locals_total) == Some((count, ty, n)) <==> {
            &&& var_u32(bytes) == Some((count, n - 1))
            &&& n <= bytes.len()
            &&& type_of_byte(bytes[n - 1]) == Some(ty)
            &&& locals_total + count <= 50_000
        },
{
}

/// The operator that `bytes` starts with, and the number of bytes that it takes, if there is one:
/// what `wasmparser::BinaryReader::read_operator` decodes.
pub uninterp spec fn operator_at(bytes: Seq<u8>) -> Option<
    (wasmparser::Operator<'static>, int),
>;

/// Read a number of local declarations by `wasmparser::BinaryReader::read_local_count`.
///
/// The count is a variable-length 32-bit number, and the call fails if there is none or if it is
/// above the limit. The second number returned is that of the bytes read. What the error says is
/// left open.
#[verifier::external_body]
fn decode_local_count(bytes: &[u8]) -> (decoded: Result<
    (usize, usize),
    wasmparser::BinaryReaderError,
>)
    ensures
        match local_count_at(bytes@) {
            Some((count, n)) => decoded matches Ok((c, read)) && c == count && read == n,
            None => decoded is Err,
        },
{
    let mut reader = wasmparser::BinaryReader::new(bytes);
    let count: usize = reader.read_local_count()?;
    Ok((count, reader.current_position()))
}

/// Read a local declaration by `wasmparser::BinaryReader::read_local_decl`.
///
/// A declaration is a variable-length 32-bit number, of variables, and a byte for their type. The
/// call fails if there is none, if the byte stands for no type, or if the variables are too many
/// together with the `locals_total` declared before. Returned are the number of variables, their
/// type, the new total, and the number of bytes read. What the error says is left open.
#[verifier::external_body]
fn decode_local_decl(bytes: &[u8], locals_total: usize) -> (decoded: Result<
    (u32, WasmType, usize, usize),
    wasmparser::BinaryReaderError,
>)
    ensures
        match local_decl_at(bytes@, locals_total as int) {
            Some((count, ty, n)) => {
                &&& decoded matches Ok((c, t, total, read))
                &&& c == count && t == ty && total == locals_total + count && read == n
            },
            None => decoded is Err,
        },
{
    let mut reader = wasmparser::BinaryReader::new(bytes);
    let mut total: usize = locals_total;
    let (count, wasm_type) = reader.read_local_decl(&mut total)?;
    let ty = match wasm_type {
        wasmparser::Type::I32 => WasmType::I32,
        wasmparser::Type::I64 => WasmType::I64,
        wasmparser::Type::F32 => WasmType::F32,
        wasmparser::Type::F64 => WasmType::F64,
        wasmparser::Type::AnyFunc => WasmType::AnyFunc,
        wasmparser::Type::Func => WasmType::Func,
        wasmparser::Type::EmptyBlockType => WasmType::EmptyBlockType,
    };
    Ok((count, ty, total, reader.current_position()))
}

/// Read an operator by `wasmparser::BinaryReader::read_operator`.
///
/// What is decoded depends on the bytes alone, and goes by the name `operator_at`. An operator
/// takes at least one byte and at most those that there are. What the error says is left open.
#[verifier::external_body]
fn decode_operator<'a>(bytes: &'a [u8]) -> (decoded: Result<
    (wasmparser::Operator<'a>, usize),
    wasmparser::BinaryReaderError,
>)
    ensures
        match operator_at(bytes@) {
            Some((op, n)) => {
                &&& decoded matches Ok((o, read))
                &&& o == op && read == n
                &&& 0 < read <= bytes@.len()
            },
            None => decoded is Err,
        },
{
    let mut reader = wasmparser::BinaryReader::new(bytes);
    let op = reader.read_operator()?;
    Ok((op, reader.current_position()))
}

/// A reader of the binary format.
#[derive(Clone, Copy, Debug)]
pub struct BinaryReader<'a> {
    /// The bytes that have not been read yet.
    pub bytes: &'a [u8],
}

impl<'a> BinaryReader<'a> {
    /// Create a reader of `bytes`.
    pub fn new(bytes: &'a [u8]) -> (reader: BinaryReader<'a>)
        ensures
            reader.bytes@ == bytes@,
    {
        BinaryReader { bytes }
    }

    /// Leave `n` bytes behind.
    fn advance(&mut self, n: usize)
        requires
            n <= old(self).bytes@.len(),
        ensures
            final(self).bytes@ == old(self).bytes@.skip(n as int),
    {
        self.bytes = slice_subrange(self.bytes, n, self.bytes.len());
    }

    /// Read a `count` indicating the number of times to call `read_local_decl`.
    ///
    /// Where a reader that failed goes on is left open.
    pub fn read_local_count(&mut self) -> (count: Result<usize, wasmparser::BinaryReaderError>)
        ensures
            match local_count_at(old(self).bytes@) {
                Some((c, n)) => {
                    &&& count == Ok::<usize, wasmparser::BinaryReaderError>(c as usize)
                    &&& final(self).bytes@ == old(self).bytes@.skip(n)
                },
                None => count is Err,
            },
    {
        proof {
            lemma_leb128_len(self.bytes@);
        }
        match decode_local_count(self.bytes) {
            Ok((count, n)) => {
                self.advance(n);
                Ok(count)
            },
            Err(error) => Err(error),
        }
    }

    /// Read a `(count, type)` declaration of local variables of the same type.
    ///
    /// Where a reader that failed goes on, and with how many locals, is left open.
    pub fn read_local_decl(&mut self, locals_total: &mut usize) -> (decl: Result<
        (u32, WasmType),
        wasmparser::BinaryReaderError,
    >)
        ensures
            match local_decl_at(old(self).bytes@, *old(locals_total) as int) {
                Some((count, ty, n)) => {
                    &&& decl == Ok::<(u32, WasmType), wasmparser::BinaryReaderError>((count, ty))
                    &&& final(self).bytes@ == old(self).bytes@.skip(n)
                    &&& *final(locals_total) == *old(locals_total) + count
                },
                None => decl is Err,
            },
    {
        proof {
            lemma_leb128_len(self.bytes@);
        }
        match decode_local_decl(self.bytes, *locals_total) {
            Ok((count, ty, total, n)) => {
                self.advance(n);
                *locals_total = total;
                Ok((count, ty))
            },
            Err(error) => Err(error),
        }
    }

    /// Read an operator.
    ///
    /// Where a reader that failed goes on is left open.
    pub fn read_operator(&mut self) -> (op: Result<
        wasmparser::Operator<'a>,
        wasmparser::BinaryReaderError,
    >)
        ensures
            match operator_at(old(self).bytes@) {
                Some((o, n)) => {
                    &&& op == Ok::<wasmparser::Operator<'a>, wasmparser::BinaryReaderError>(o)
                    &&& final(self).bytes@ == old(self).bytes@.skip(n)
                    &&& final(self).bytes@.len() < old(self).bytes@.len()
                },
                None => op is Err,
            },
    {
        match decode_operator(self.bytes) {
            Ok((op, n)) => {
                self.advance(n);
                Ok(op)
            },
            Err(error) => Err(error),
        }
    }
}

} // verus!

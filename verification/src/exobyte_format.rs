//! The EXObyte container format: magic, little-endian readers, opcodes.
use vstd::prelude::*;
use vstd::utf8::valid_utf8;

verus! {

/// Magic of the first format revision: `EXOBYTE0`.
pub open spec fn spec_magic0() -> Seq<u8> { seq![69u8, 88u8, 79u8, 66u8, 89u8, 84u8, 69u8, 48u8] }
/// Magic of the current format revision: `EXOBYTE1`.
pub open spec fn spec_magic1() -> Seq<u8> { seq![69u8, 88u8, 79u8, 66u8, 89u8, 84u8, 69u8, 49u8] }

pub fn magic0() -> (m: [u8; 8])
    ensures
        m@ == spec_magic0(),
{
    let m = [69u8, 88u8, 79u8, 66u8, 89u8, 84u8, 69u8, 48u8];
    assert(m@ =~= spec_magic0());
    m
}

pub fn magic1() -> (m: [u8; 8])
    ensures
        m@ == spec_magic1(),
{
    let m = [69u8, 88u8, 79u8, 66u8, 89u8, 84u8, 69u8, 49u8];
    assert(m@ =~= spec_magic1());
    m
}

#[derive(Clone, Copy, PartialEq, Eq, Structural, Debug)]
pub enum ExobyteFormatError {
    UnexpectedEof,
    InvalidUtf8,
    UnknownOpcode(u8),
}

#[derive(Clone, Copy, PartialEq, Eq, Structural, Debug)]
pub enum Opcode {
    LoadQ,
    LoadBool,
    LoadI32,
    LoadF64,
    LoadVar,
    StoreVar,
    QAnd,
    QOr,
    QNot,
    QImpl,
    BoolAnd,
    BoolOr,
    BoolNot,
    CmpEq,
    CmpNe,
    AddF64,
    SubF64,
    MulF64,
    DivF64,
    Jmp,
    JmpIf,
    Call,
    Ret,
}

/// The opcode a byte encodes, if any.
pub open spec fn spec_opcode(b: u8) -> Option<Opcode> {
    if b == 0x01 { Some(Opcode::LoadQ) }
    else if b == 0x02 { Some(Opcode::LoadBool) }
    else if b == 0x03 { Some(Opcode::LoadI32) }
    else if b == 0x04 { Some(Opcode::LoadF64) }
    else if b == 0x05 { Some(Opcode::LoadVar) }
    else if b == 0x06 { Some(Opcode::StoreVar) }
    else if b == 0x10 { Some(Opcode::QAnd) }
    else if b == 0x11 { Some(Opcode::QOr) }
    else if b == 0x12 { Some(Opcode::QNot) }
    else if b == 0x13 { Some(Opcode::QImpl) }
    else if b == 0x14 { Some(Opcode::BoolAnd) }
    else if b == 0x15 { Some(Opcode::BoolOr) }
    else if b == 0x16 { Some(Opcode::BoolNot) }
    else if b == 0x17 { Some(Opcode::CmpEq) }
    else if b == 0x18 { Some(Opcode::CmpNe) }
    else if b == 0x20 { Some(Opcode::AddF64) }
    else if b == 0x21 { Some(Opcode::SubF64) }
    else if b == 0x22 { Some(Opcode::MulF64) }
    else if b == 0x23 { Some(Opcode::DivF64) }
    else if b == 0x30 { Some(Opcode::Jmp) }
    else if b == 0x31 { Some(Opcode::JmpIf) }
    else if b == 0x40 { Some(Opcode::Call) }
    else if b == 0x41 { Some(Opcode::Ret) }
    else { None }
}

impl Opcode {
    pub fn from_byte(b: u8) -> (r: Result<Opcode, ExobyteFormatError>)
        ensures
            match spec_opcode(b) {
                Some(op) => r == Ok::<Opcode, ExobyteFormatError>(op),
                None => r == Err::<Opcode, ExobyteFormatError>(ExobyteFormatError::UnknownOpcode(b)),
            },
    {
        match b {
            0x01 => Ok(Opcode::LoadQ),
            0x02 => Ok(Opcode::LoadBool),
            0x03 => Ok(Opcode::LoadI32),
            0x04 => Ok(Opcode::LoadF64),
            0x05 => Ok(Opcode::LoadVar),
            0x06 => Ok(Opcode::StoreVar),
            0x10 => Ok(Opcode::QAnd),
            0x11 => Ok(Opcode::QOr),
            0x12 => Ok(Opcode::QNot),
            0x13 => Ok(Opcode::QImpl),
            0x14 => Ok(Opcode::BoolAnd),
            0x15 => Ok(Opcode::BoolOr),
            0x16 => Ok(Opcode::BoolNot),
            0x17 => Ok(Opcode::CmpEq),
            0x18 => Ok(Opcode::CmpNe),
            0x20 => Ok(Opcode::AddF64),
            0x21 => Ok(Opcode::SubF64),
            0x22 => Ok(Opcode::MulF64),
            0x23 => Ok(Opcode::DivF64),
            0x30 => Ok(Opcode::Jmp),
            0x31 => Ok(Opcode::JmpIf),
            0x40 => Ok(Opcode::Call),
            0x41 => Ok(Opcode::Ret),
            _ => Err(ExobyteFormatError::UnknownOpcode(b)),
        }
    }

    /// The byte that encodes the opcode.
    pub fn to_byte(self) -> (b: u8)
        ensures
            spec_opcode(b) == Some(self),
    {
        match self {
            Opcode::LoadQ => 0x01,
            Opcode::LoadBool => 0x02,
            Opcode::LoadI32 => 0x03,
            Opcode::LoadF64 => 0x04,
            Opcode::LoadVar => 0x05,
            Opcode::StoreVar => 0x06,
            Opcode::QAnd => 0x10,
            Opcode::QOr => 0x11,
            Opcode::QNot => 0x12,
            Opcode::QImpl => 0x13,
            Opcode::BoolAnd => 0x14,
            Opcode::BoolOr => 0x15,
            Opcode::BoolNot => 0x16,
            Opcode::CmpEq => 0x17,
            Opcode::CmpNe => 0x18,
            Opcode::AddF64 => 0x20,
            Opcode::SubF64 => 0x21,
            Opcode::MulF64 => 0x22,
            Opcode::DivF64 => 0x23,
            Opcode::Jmp => 0x30,
            Opcode::JmpIf => 0x31,
            Opcode::Call => 0x40,
            Opcode::Ret => 0x41,
        }
    }
}

/// Little-endian value of `n` bytes of `b` from `i`.
pub open spec fn spec_le(b: Seq<u8>, i: int, n: nat) -> nat
    decreases n,
{
    if n == 0 { 0 } else { b[i] as nat + 256 * spec_le(b, i + 1, (n - 1) as nat) }
}

pub fn read_u8(bytes: &[u8], i: &mut usize) -> (r: Result<u8, ExobyteFormatError>)
    ensures
        *old(i) + 1 <= bytes@.len() ==> r == Ok::<u8, ExobyteFormatError>(bytes@[*old(i) as int]) && *final(i) == *old(i) + 1,
        *old(i) + 1 > bytes@.len() ==> r == Err::<u8, ExobyteFormatError>(ExobyteFormatError::UnexpectedEof) && *final(i) == *old(i),
{
    if *i >= bytes.len() {
        return Err(ExobyteFormatError::UnexpectedEof);
    }
    let v = bytes[*i];
    *i = *i + 1;
    Ok(v)
}

pub fn read_u16_le(bytes: &[u8], i: &mut usize) -> (r: Result<u16, ExobyteFormatError>)
    ensures
        *old(i) + 2 <= bytes@.len() ==> r == Ok::<u16, ExobyteFormatError>(spec_le(bytes@, *old(i) as int, 2) as u16)
            && *final(i) == *old(i) + 2,
        *old(i) + 2 > bytes@.len() ==> r == Err::<u16, ExobyteFormatError>(ExobyteFormatError::UnexpectedEof) && *final(i) == *old(i),
{
    if *i >= bytes.len() || bytes.len() - *i < 2 {
        return Err(ExobyteFormatError::UnexpectedEof);
    }
    let k = *i;
    let v = bytes[k] as u16 + (bytes[k + 1] as u16) * 256;
    assert(spec_le(bytes@, k as int, 2) == bytes@[k as int] + 256 * (bytes@[k + 1] + 256 * spec_le(bytes@, k + 2, 0))) by {
        reveal_with_fuel(spec_le, 3);
    }
    *i = k + 2;
    Ok(v)
}

pub fn read_u32_le(bytes: &[u8], i: &mut usize) -> (r: Result<u32, ExobyteFormatError>)
    ensures
        *old(i) + 4 <= bytes@.len() ==> r == Ok::<u32, ExobyteFormatError>(spec_le(bytes@, *old(i) as int, 4) as u32)
            && *final(i) == *old(i) + 4,
        *old(i) + 4 > bytes@.len() ==> r == Err::<u32, ExobyteFormatError>(ExobyteFormatError::UnexpectedEof) && *final(i) == *old(i),
{
    if *i >= bytes.len() || bytes.len() - *i < 4 {
        return Err(ExobyteFormatError::UnexpectedEof);
    }
    let k = *i;
    let b0 = bytes[k] as u32;
    let b1 = bytes[k + 1] as u32;
    let b2 = bytes[k + 2] as u32;
    let b3 = bytes[k + 3] as u32;
    let v = b0 + b1 * 0x100 + b2 * 0x1_0000 + b3 * 0x100_0000;
    assert(spec_le(bytes@, k as int, 4) == b0 + 256 * (b1 + 256 * (b2 + 256 * (b3 + 256 * spec_le(bytes@, k + 4, 0))))) by {
        reveal_with_fuel(spec_le, 5);
    }
    *i = k + 4;
    Ok(v)
}

pub fn read_i32_le(bytes: &[u8], i: &mut usize) -> (r: Result<i32, ExobyteFormatError>)
    ensures
        *old(i) + 4 <= bytes@.len() ==> r == Ok::<i32, ExobyteFormatError>(spec_le(bytes@, *old(i) as int, 4) as u32 as i32)
            && *final(i) == *old(i) + 4,
        *old(i) + 4 > bytes@.len() ==> r == Err::<i32, ExobyteFormatError>(ExobyteFormatError::UnexpectedEof) && *final(i) == *old(i),
{
    match read_u32_le(bytes, i) {
        Ok(v) => Ok(v as i32),
        Err(e) => Err(e),
    }
}

/// Reads the eight little-endian bytes of an IEEE-754 double, as its bit pattern.
pub fn read_f64_bits_le(bytes: &[u8], i: &mut usize) -> (r: Result<u64, ExobyteFormatError>)
    ensures
        *old(i) + 8 <= bytes@.len() ==> r == Ok::<u64, ExobyteFormatError>(spec_le(bytes@, *old(i) as int, 8) as u64)
            && *final(i) == *old(i) + 8,
        *old(i) + 8 > bytes@.len() ==> r == Err::<u64, ExobyteFormatError>(ExobyteFormatError::UnexpectedEof) && *final(i) == *old(i),
{
    if *i >= bytes.len() || bytes.len() - *i < 8 {
        return Err(ExobyteFormatError::UnexpectedEof);
    }
    let k = *i;
    let mut v: u64 = 0;
    let mut j: usize = 8;
    while j > 0
        invariant
            j <= 8,
            k + 8 <= bytes.len(),
            v as nat == spec_le(bytes@, k + j, (8 - j) as nat),
            (v as nat) < pow256(8 - j),
        decreases j,
    {
        j = j - 1;
        assert(pow256(8 - j) == 256 * pow256((8 - (j + 1)) as int));
        assert(spec_le(bytes@, k + j, (8 - j) as nat) == bytes@[k + j] + 256 * spec_le(bytes@, k + j + 1, (8 - (j + 1)) as nat));
        assert(256 * (v as nat) + 255 < pow256(8 - j)) by (nonlinear_arith)
            requires (v as nat) < pow256(8 - (j + 1)), pow256(8 - j) == 256 * pow256((8 - (j + 1)) as int);
        assert(pow256(8 - j) <= 0x1_0000_0000_0000_0000) by {
            lemma_pow256_mono(8 - j, 8);
        }
        v = v * 256 + bytes[k + j] as u64;
    }
    *i = k + 8;
    Ok(v)
}

pub open spec fn pow256(n: int) -> nat
    decreases n,
{
    if n <= 0 { 1 } else { 256 * pow256(n - 1) }
}

proof fn lemma_pow256_mono(a: int, b: int)
    requires
        0 <= a <= b,
    ensures
        pow256(a) <= pow256(b),
        pow256(8) == 0x1_0000_0000_0000_0000,
    decreases b - a,
{
    reveal_with_fuel(pow256, 9);
    if a < b {
        lemma_pow256_mono(a, b - 1);
    }
}

/// A little-endian value of `n` bytes is below `256^n`.
pub proof fn lemma_le_bound(b: Seq<u8>, i: int, n: nat)
    ensures
        spec_le(b, i, n) < pow256(n as int),
        pow256(2) == 0x1_0000,
        pow256(4) == 0x1_0000_0000,
    decreases n,
{
    reveal_with_fuel(pow256, 5);
    if n > 0 {
        lemma_le_bound(b, i + 1, (n - 1) as nat);
        let r = spec_le(b, i + 1, (n - 1) as nat);
        assert(b[i] as nat + 256 * r < 256 * pow256(n - 1)) by (nonlinear_arith)
            requires r < pow256(n - 1), b[i] < 256;
    }
}

/// Whether a byte sequence is well-formed UTF-8, as `core::str::from_utf8`
/// decides it.
#[verifier::external_body]
fn utf8_is_valid(bytes: &[u8]) -> (r: bool)
    ensures
        r == valid_utf8(bytes@),
{
    core::str::from_utf8(bytes).is_ok()
}

/// Copies `bytes[from..to]` into a new vector.
pub fn copy_range(bytes: &[u8], from: usize, to: usize) -> (r: Vec<u8>)
    requires
        from <= to <= bytes@.len(),
    ensures
        r@ == bytes@.subrange(from as int, to as int),
{
    let mut r: Vec<u8> = Vec::new();
    let mut k = from;
    while k < to
        invariant
            from <= k <= to,
            to <= bytes@.len(),
            r@ == bytes@.subrange(from as int, k as int),
        decreases to - k,
    {
        r.push(bytes[k]);
        k += 1;
        assert(r@ =~= bytes@.subrange(from as int, k as int));
    }
    r
}

/// Reads `len` bytes that must form valid UTF-8.
pub fn read_utf8(bytes: &[u8], i: &mut usize, len: usize) -> (r: Result<Vec<u8>, ExobyteFormatError>)
    ensures
        *old(i) + len > bytes@.len() ==> r == Err::<Vec<u8>, ExobyteFormatError>(ExobyteFormatError::UnexpectedEof)
            && *final(i) == *old(i),
        *old(i) + len <= bytes@.len() ==> {
            let s = bytes@.subrange(*old(i) as int, *old(i) + len);
            &&& valid_utf8(s) ==> r is Ok && r->Ok_0@ == s && *final(i) == *old(i) + len
            &&& !valid_utf8(s) ==> r == Err::<Vec<u8>, ExobyteFormatError>(ExobyteFormatError::InvalidUtf8)
        },
{
    if *i > bytes.len() || bytes.len() - *i < len {
        return Err(ExobyteFormatError::UnexpectedEof);
    }
    let k = *i;
    let v = copy_range(bytes, k, k + len);
    if !utf8_is_valid(v.as_slice()) {
        return Err(ExobyteFormatError::InvalidUtf8);
    }
    *i = k + len;
    Ok(v)
}

} // verus!

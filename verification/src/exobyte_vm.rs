//! The EXObyte reference VM: container parsing, a register machine with a
//! bounded call stack, and a disassembler. Floating-point arithmetic is not
//! performed here: the machine stops at each floating-point operation and
//! hands a request to its driver, which supplies the result.
use vstd::prelude::*;
use vstd::utf8::{valid_utf8, decode_utf8, encode_utf8, pop_first_scalar, encode_utf8_valid_utf8, valid_utf8_concat};
use crate::text::{text, bytes_to_string, lit_name_lit, spec_lit_name_lit, spec_dec, push_dec, lemma_dec_ascii, lemma_ascii_valid};
use vstd::string::StringExecFns;
use crate::exobyte_format::{
    ExobyteFormatError, Opcode, spec_opcode, spec_le, spec_magic0, spec_magic1, magic0, magic1,
    read_u8, read_u16_le, read_u32_le, read_i32_le, read_f64_bits_le, read_utf8, copy_range,
    lemma_le_bound,
};

verus! {

pub const MAX_STACK_DEPTH: usize = 256;

#[derive(Clone, Copy, PartialEq, Eq, Structural, Debug)]
pub enum QuadVal {
    N,
    F,
    T,
    S,
}

/// A runtime value. Doubles are carried as their IEEE-754 bit pattern.
#[derive(Clone, Copy, PartialEq, Eq, Structural, Debug)]
pub enum Value {
    Quad(QuadVal),
    Bool(bool),
    I32(i32),
    F64(u64),
    U32(u32),
    Fx(i32),
    Unit,
}

#[derive(Clone, Debug, PartialEq, Eq)]
pub enum RuntimeError {
    BadHeader,
    BadFormat(String),
    UnknownFunction(String),
    InvalidJumpAddress { func: String, addr: usize },
    TypeMismatchRuntime(String),
    StackUnderflow,
    StackOverflow,
    UnknownVariable(String),
    InvalidStringId(u16),
}

/// A runtime error as a mathematical value: messages and names as text.
pub enum Fault {
    BadHeader,
    BadFormat(Seq<char>),
    UnknownFunction(Seq<char>),
    InvalidJumpAddress(Seq<char>, int),
    TypeMismatchRuntime(Seq<char>),
    StackUnderflow,
    StackOverflow,
    UnknownVariable(Seq<char>),
    InvalidStringId(u16),
}

impl View for RuntimeError {
    type V = Fault;

    open spec fn view(&self) -> Fault {
        match self {
            RuntimeError::BadHeader => Fault::BadHeader,
            RuntimeError::BadFormat(m) => Fault::BadFormat(m@),
            RuntimeError::UnknownFunction(n) => Fault::UnknownFunction(n@),
            RuntimeError::InvalidJumpAddress { func, addr } => Fault::InvalidJumpAddress(func@, *addr as int),
            RuntimeError::TypeMismatchRuntime(m) => Fault::TypeMismatchRuntime(m@),
            RuntimeError::StackUnderflow => Fault::StackUnderflow,
            RuntimeError::StackOverflow => Fault::StackOverflow,
            RuntimeError::UnknownVariable(n) => Fault::UnknownVariable(n@),
            RuntimeError::InvalidStringId(id) => Fault::InvalidStringId(*id),
        }
    }
}

/// The decimal digits of `n` as text.
pub open spec fn dec_text(n: nat) -> Seq<char> {
    decode_utf8(spec_dec(n))
}

fn dec_string(n: u64) -> (s: String)
    ensures
        s@ == dec_text(n as nat),
{
    let mut b: Vec<u8> = Vec::new();
    push_dec(&mut b, n);
    proof {
        assert(b@ =~= spec_dec(n as nat));
        lemma_dec_ascii(n as nat);
        lemma_ascii_valid(spec_dec(n as nat));
    }
    bytes_to_string(b.as_slice())
}

/// How an error reads.
pub open spec fn spec_describe(f: Fault) -> Seq<char> {
    match f {
        Fault::BadHeader => "bad EXObyte header"@,
        Fault::BadFormat(m) => "bad EXObyte format: "@ + m,
        Fault::UnknownFunction(n) => "unknown function '"@ + n + "'"@,
        Fault::InvalidJumpAddress(func, addr) => "invalid jump address "@ + dec_text(addr as nat) + " in '"@ + func + "'"@,
        Fault::TypeMismatchRuntime(m) => "runtime type mismatch: "@ + m,
        Fault::StackUnderflow => "stack underflow"@,
        Fault::StackOverflow => "stack overflow"@,
        Fault::UnknownVariable(n) => "unknown variable '"@ + n + "'"@,
        Fault::InvalidStringId(id) => "invalid string id "@ + dec_text(id as nat),
    }
}

impl RuntimeError {
    /// The error as a message.
    pub fn describe(&self) -> (s: String)
        ensures
            s@ == spec_describe(self@),
    {
        match self {
            RuntimeError::BadHeader => String::from_str("bad EXObyte header"),
            RuntimeError::BadFormat(m) => String::from_str("bad EXObyte format: ").concat(m.as_str()),
            RuntimeError::UnknownFunction(n) => String::from_str("unknown function '").concat(n.as_str()).concat("'"),
            RuntimeError::InvalidJumpAddress { func, addr } => {
                let d = dec_string(*addr as u64);
                String::from_str("invalid jump address ").concat(d.as_str()).concat(" in '").concat(func.as_str()).concat("'")
            },
            RuntimeError::TypeMismatchRuntime(m) => String::from_str("runtime type mismatch: ").concat(m.as_str()),
            RuntimeError::StackUnderflow => String::from_str("stack underflow"),
            RuntimeError::StackOverflow => String::from_str("stack overflow"),
            RuntimeError::UnknownVariable(n) => String::from_str("unknown variable '").concat(n.as_str()).concat("'"),
            RuntimeError::InvalidStringId(id) => {
                let d = dec_string(*id as u64);
                String::from_str("invalid string id ").concat(d.as_str())
            },
        }
    }
}

pub struct FunctionBytecode {
    pub name: Vec<u8>,
    pub strings: Vec<Vec<u8>>,
    pub code: Vec<u8>,
    pub instr_start: usize,
}

pub struct ParsedExobyte {
    pub magic: [u8; 8],
    pub functions: Vec<FunctionBytecode>,
}

/// The abstract function: name, string table, code and instruction start.
pub struct FnView {
    pub name: Seq<u8>,
    pub strings: Seq<Seq<u8>>,
    pub code: Seq<u8>,
    pub instr_start: int,
}

impl FunctionBytecode {
    pub open spec fn view_fn(&self) -> FnView {
        FnView {
            name: self.name@,
            strings: Seq::new(self.strings@.len(), |k: int| self.strings@[k]@),
            code: self.code@,
            instr_start: self.instr_start as int,
        }
    }
}

pub open spec fn fns_view(fs: Seq<FunctionBytecode>) -> Seq<FnView> {
    Seq::new(fs.len(), |k: int| fs[k].view_fn())
}

/// Message text of a format error.
pub open spec fn spec_format_msg(e: ExobyteFormatError) -> Seq<char> {
    match e {
        ExobyteFormatError::UnexpectedEof => "unexpected EOF"@,
        ExobyteFormatError::InvalidUtf8 => "invalid utf8"@,
        ExobyteFormatError::UnknownOpcode(op) => decode_utf8(encode_utf8("unknown opcode 0x"@) + spec_hex2(op)),
    }
}

/// Two lowercase hex digits of a byte.
pub open spec fn spec_hex_digit(d: u8) -> u8 {
    if d < 10 { (48 + d) as u8 } else { (87 + d) as u8 }
}

pub open spec fn spec_hex2(b: u8) -> Seq<u8> {
    seq![spec_hex_digit(b / 16), spec_hex_digit(b % 16)]
}

fn hex_digit(d: u8) -> (r: u8)
    requires
        d < 16,
    ensures
        r == spec_hex_digit(d),
{
    if d < 10 { 48 + d } else { 87 + d }
}

/// Two bytes below 0x80 form valid UTF-8.
proof fn lemma_ascii2_valid(a: u8, b: u8)
    requires
        a < 0x80,
        b < 0x80,
    ensures
        valid_utf8(seq![a, b]),
{
    reveal_with_fuel(valid_utf8, 3);
    let s = seq![a, b];
    assert(pop_first_scalar(s) =~= seq![b]);
    assert(pop_first_scalar(seq![b]) =~= Seq::<u8>::empty());
}

pub fn map_format_err(err: ExobyteFormatError) -> (r: RuntimeError)
    ensures
        r matches RuntimeError::BadFormat(m) && m@ == spec_format_msg(err),
{
    match err {
        ExobyteFormatError::UnexpectedEof => {
            let m = text("unexpected EOF");
            RuntimeError::BadFormat(m)
        },
        ExobyteFormatError::InvalidUtf8 => {
            let m = text("invalid utf8");
            RuntimeError::BadFormat(m)
        },
        ExobyteFormatError::UnknownOpcode(op) => {
            let mut b: Vec<u8> = Vec::new();
            b.extend_from_slice("unknown opcode 0x".as_bytes());
            b.push(hex_digit(op / 16));
            b.push(hex_digit(op % 16));
            proof {
                let lit = encode_utf8("unknown opcode 0x"@);
                assert(b@ =~= lit + spec_hex2(op));
                encode_utf8_valid_utf8("unknown opcode 0x"@);
                lemma_ascii2_valid(spec_hex_digit(op / 16), spec_hex_digit(op % 16));
                valid_utf8_concat(lit, spec_hex2(op));
            }
            RuntimeError::BadFormat(bytes_to_string(b.as_slice()))
        },
    }
}

/// Whether two byte strings are equal.
pub fn bytes_eq(a: &[u8], b: &[u8]) -> (r: bool)
    ensures
        r == (a@ == b@),
{
    if a.len() != b.len() {
        return false;
    }
    let mut k: usize = 0;
    while k < a.len()
        invariant
            a@.len() == b@.len(),
            k <= a@.len(),
            a@.subrange(0, k as int) == b@.subrange(0, k as int),
        decreases a.len() - k,
    {
        if a[k] != b[k] {
            assert(a@[k as int] != b@[k as int]);
            return false;
        }
        k += 1;
        assert(a@.subrange(0, k as int) =~= a@.subrange(0, k - 1).push(a@[k - 1]));
        assert(b@.subrange(0, k as int) =~= b@.subrange(0, k - 1).push(b@[k - 1]));
    }
    assert(a@ =~= a@.subrange(0, a@.len() as int));
    assert(b@ =~= b@.subrange(0, b@.len() as int));
    true
}

/// Index of the first function named `name`, or -1.
pub open spec fn spec_find_fn(fs: Seq<FnView>, name: Seq<u8>, k: nat) -> int
    decreases fs.len() - k,
{
    if k >= fs.len() { -1 } else if fs[k as int].name == name { k as int } else { spec_find_fn(fs, name, k + 1) }
}

/// The search from `k` finds a function of that name, the first one, or
/// reports that none from `k` on has it.
pub proof fn lemma_find_fn(fs: Seq<FnView>, name: Seq<u8>, k: nat)
    ensures
        spec_find_fn(fs, name, k) == -1 || (k <= spec_find_fn(fs, name, k) < fs.len()
            && fs[spec_find_fn(fs, name, k)].name == name),
        spec_find_fn(fs, name, k) == -1 ==> forall|j: int| k <= j < fs.len() ==> (#[trigger] fs[j]).name != name,
    decreases fs.len() - k,
{
    if k < fs.len() {
        lemma_find_fn(fs, name, k + 1);
    }
}

pub fn find_fn(fs: &Vec<FunctionBytecode>, name: &[u8]) -> (r: Option<usize>)
    ensures
        r is None <==> spec_find_fn(fns_view(fs@), name@, 0) == -1,
        r matches Some(i) ==> i < fs@.len() && spec_find_fn(fns_view(fs@), name@, 0) == i as int,
{
    let mut k: usize = 0;
    proof { lemma_find_fn(fns_view(fs@), name@, 0); }
    while k < fs.len()
        invariant
            k <= fs@.len(),
            spec_find_fn(fns_view(fs@), name@, 0) == spec_find_fn(fns_view(fs@), name@, k as nat),
        decreases fs.len() - k,
    {
        if bytes_eq(fs[k].name.as_slice(), name) {
            return Some(k);
        }
        k += 1;
    }
    None
}

/// The string table at the start of a function's code: a count, then
/// length-prefixed UTF-8 strings. Yields the strings and where the
/// instructions start, or the format error met.
pub open spec fn spec_string_table(code: Seq<u8>, count: nat, i: int) -> Result<(Seq<Seq<u8>>, int), ExobyteFormatError>
    decreases count,
{
    if count == 0 {
        Ok((Seq::empty(), i))
    } else {
        match spec_string_table(code, (count - 1) as nat, i) {
            Err(e) => Err(e),
            Ok((ss, j)) => {
                if j + 2 > code.len() {
                    Err(ExobyteFormatError::UnexpectedEof)
                } else {
                    let len = spec_le(code, j, 2);
                    if j + 2 + len > code.len() {
                        Err(ExobyteFormatError::UnexpectedEof)
                    } else if !valid_utf8(code.subrange(j + 2, j + 2 + len)) {
                        Err(ExobyteFormatError::InvalidUtf8)
                    } else {
                        Ok((ss.push(code.subrange(j + 2, j + 2 + len)), j + 2 + len))
                    }
                }
            },
        }
    }
}

pub open spec fn spec_parse_string_table(code: Seq<u8>) -> Result<(Seq<Seq<u8>>, int), ExobyteFormatError> {
    if code.len() < 2 {
        Err(ExobyteFormatError::UnexpectedEof)
    } else {
        spec_string_table(code, spec_le(code, 0, 2), 2)
    }
}

pub open spec fn strings_view(v: Seq<Vec<u8>>) -> Seq<Seq<u8>> {
    Seq::new(v.len(), |k: int| v[k]@)
}

proof fn lemma_table_err(code: Seq<u8>, m: nat, m2: nat, i: int)
    requires
        m <= m2,
        spec_string_table(code, m, i) is Err,
    ensures
        spec_string_table(code, m2, i) == spec_string_table(code, m, i),
    decreases m2,
{
    if m2 > m {
        lemma_table_err(code, m, (m2 - 1) as nat, i);
    }
}

fn parse_string_table(code: &[u8]) -> (r: Result<(Vec<Vec<u8>>, usize), RuntimeError>)
    ensures
        match spec_parse_string_table(code@) {
            Ok((ss, start)) => r is Ok && strings_view(r->Ok_0.0@) == ss && r->Ok_0.1 == start,
            Err(e) => r matches Err(RuntimeError::BadFormat(m)) && m@ == spec_format_msg(e),
        },
{
    let mut i: usize = 0;
    proof { lemma_le_bound(code@, 0, 2); }
    let count = match read_u16_le(code, &mut i) {
        Ok(c) => c as usize,
        Err(e) => return Err(map_format_err(e)),
    };
    let mut strings: Vec<Vec<u8>> = Vec::new();
    let mut n: usize = 0;
    assert(strings_view(strings@) =~= Seq::<Seq<u8>>::empty());
    while n < count
        invariant
            n <= count,
            count == spec_le(code@, 0, 2),
            code@.len() >= 2,
            spec_parse_string_table(code@) == spec_string_table(code@, count as nat, 2),
            spec_string_table(code@, n as nat, 2) == Ok::<(Seq<Seq<u8>>, int), ExobyteFormatError>((strings_view(strings@), i as int)),
            i <= code@.len(),
        decreases count - n,
    {
        let ghost i0 = i as int;
        proof { lemma_le_bound(code@, i0, 2); }
        let len = match read_u16_le(code, &mut i) {
            Ok(l) => l as usize,
            Err(e) => {
                proof { lemma_table_err(code@, (n + 1) as nat, count as nat, 2); }
                return Err(map_format_err(e));
            },
        };
        let s = match read_utf8(code, &mut i, len) {
            Ok(s) => s,
            Err(e) => {
                proof { lemma_table_err(code@, (n + 1) as nat, count as nat, 2); }
                return Err(map_format_err(e));
            },
        };
        let ghost prev = strings@;
        let ghost sv = s@;
        strings.push(s);
        n += 1;
        proof {
            assert(strings_view(strings@) =~= strings_view(prev).push(sv));
        }
    }
    Ok((strings, i))
}

/// Why a container is rejected.
pub enum ParseFail {
    Header,
    Format(ExobyteFormatError),
    CodeBounds,
    Duplicate(Seq<u8>),
}

/// The functions of a container body from offset `i`, appended to `acc`:
/// each is a length-prefixed UTF-8 name, a length-prefixed code block
/// (which opens with its string table); names must be unique.
pub open spec fn spec_parse_fns(bytes: Seq<u8>, i: int, acc: Seq<FnView>) -> Result<Seq<FnView>, ParseFail>
    decreases bytes.len() - i,
{
    if i >= bytes.len() || i < 0 {
        Ok(acc)
    } else if i + 2 > bytes.len() {
        Err(ParseFail::Format(ExobyteFormatError::UnexpectedEof))
    } else {
        let name_len = spec_le(bytes, i, 2);
        let j = i + 2;
        if j + name_len > bytes.len() {
            Err(ParseFail::Format(ExobyteFormatError::UnexpectedEof))
        } else if !valid_utf8(bytes.subrange(j, j + name_len)) {
            Err(ParseFail::Format(ExobyteFormatError::InvalidUtf8))
        } else {
            let name = bytes.subrange(j, j + name_len);
            let j2 = j + name_len;
            if j2 + 4 > bytes.len() {
                Err(ParseFail::Format(ExobyteFormatError::UnexpectedEof))
            } else {
                let code_len = spec_le(bytes, j2, 4);
                let j3 = j2 + 4;
                if j3 + code_len > bytes.len() {
                    Err(ParseFail::CodeBounds)
                } else {
                    let code = bytes.subrange(j3, j3 + code_len);
                    match spec_parse_string_table(code) {
                        Err(e) => Err(ParseFail::Format(e)),
                        Ok((ss, start)) => {
                            if spec_find_fn(acc, name, 0) != -1 {
                                Err(ParseFail::Duplicate(name))
                            } else {
                                spec_parse_fns(bytes, j3 + code_len,
                                    acc.push(FnView { name, strings: ss, code, instr_start: start }))
                            }
                        },
                    }
                }
            }
        }
    }
}

/// A function whose name and strings are UTF-8 and whose instructions start
/// inside its code.
pub open spec fn fn_wf(f: FnView) -> bool {
    &&& valid_utf8(f.name)
    &&& forall|j: int| 0 <= j < f.strings.len() ==> valid_utf8(#[trigger] f.strings[j])
    &&& 0 <= f.instr_start <= f.code.len()
}

pub open spec fn fns_wf(fs: Seq<FnView>) -> bool {
    forall|k: int| 0 <= k < fs.len() ==> fn_wf(#[trigger] fs[k])
}

proof fn lemma_string_table_wf(code: Seq<u8>, count: nat, i: int)
    requires
        0 <= i <= code.len(),
        spec_string_table(code, count, i) is Ok,
    ensures
        ({
            let (ss, j) = spec_string_table(code, count, i)->Ok_0;
            &&& i <= j <= code.len()
            &&& forall|k: int| 0 <= k < ss.len() ==> valid_utf8(#[trigger] ss[k])
        }),
    decreases count,
{
    if count > 0 {
        lemma_string_table_wf(code, (count - 1) as nat, i);
    }
}

/// No two functions share a name.
pub open spec fn names_unique(fs: Seq<FnView>) -> bool {
    forall|a: int, b: int| 0 <= a < fs.len() && 0 <= b < fs.len() && a != b ==> #[trigger] fs[a].name != #[trigger] fs[b].name
}

proof fn lemma_parse_fns_wf(bytes: Seq<u8>, i: int, acc: Seq<FnView>)
    requires
        fns_wf(acc),
        names_unique(acc),
        spec_parse_fns(bytes, i, acc) is Ok,
    ensures
        fns_wf(spec_parse_fns(bytes, i, acc)->Ok_0),
        names_unique(spec_parse_fns(bytes, i, acc)->Ok_0),
    decreases bytes.len() - i,
{
    if i >= bytes.len() || i < 0 {
    } else {
        let name_len = spec_le(bytes, i, 2);
        let j = i + 2;
        let name = bytes.subrange(j, j + name_len);
        let j2 = j + name_len;
        let code_len = spec_le(bytes, j2, 4);
        let j3 = j2 + 4;
        let code = bytes.subrange(j3, j3 + code_len);
        let (ss, start) = spec_parse_string_table(code)->Ok_0;
        lemma_string_table_wf(code, spec_le(code, 0, 2), 2);
        let fv = FnView { name, strings: ss, code, instr_start: start };
        assert(fn_wf(fv));
        let acc2 = acc.push(fv);
        assert(fns_wf(acc2)) by {
            assert forall|k: int| 0 <= k < acc2.len() implies fn_wf(#[trigger] acc2[k]) by {
                if k < acc.len() {
                    assert(acc2[k] == acc[k]);
                }
            }
        }
        lemma_find_fn(acc, name, 0);
        assert(names_unique(acc2)) by {
            assert forall|a: int, b: int| 0 <= a < acc2.len() && 0 <= b < acc2.len() && a != b
                implies #[trigger] acc2[a].name != #[trigger] acc2[b].name by {
                if a < acc.len() && b < acc.len() {
                    assert(acc2[a] == acc[a] && acc2[b] == acc[b]);
                } else if a < acc.len() {
                    assert(acc2[a] == acc[a]);
                } else {
                    assert(acc2[b] == acc[b]);
                }
            }
        }
        lemma_parse_fns_wf(bytes, j3 + code_len, acc2);
    }
}

/// The functions of an accepted container are well formed.
pub proof fn lemma_parse_wf(bytes: Seq<u8>)
    requires
        spec_parse(bytes) is Ok,
    ensures
        fns_wf(spec_parse(bytes)->Ok_0),
        names_unique(spec_parse(bytes)->Ok_0),
{
    lemma_parse_fns_wf(bytes, 8, Seq::empty());
}

/// The magic a container opens with, if it is one of the two known ones.
pub open spec fn spec_magic(bytes: Seq<u8>) -> Option<Seq<u8>> {
    if bytes.len() < 8 {
        None
    } else if bytes.subrange(0, 8) == spec_magic0() {
        Some(spec_magic0())
    } else if bytes.subrange(0, 8) == spec_magic1() {
        Some(spec_magic1())
    } else {
        None
    }
}

pub open spec fn spec_parse(bytes: Seq<u8>) -> Result<Seq<FnView>, ParseFail> {
    match spec_magic(bytes) {
        None => Err(ParseFail::Header),
        Some(_) => spec_parse_fns(bytes, 8, Seq::empty()),
    }
}

/// The error a rejection is reported as.
pub open spec fn spec_parse_fault(f: ParseFail) -> Fault {
    match f {
        ParseFail::Header => Fault::BadHeader,
        ParseFail::Format(fe) => Fault::BadFormat(spec_format_msg(fe)),
        ParseFail::CodeBounds => Fault::BadFormat("function code out of bounds"@),
        ParseFail::Duplicate(name) => Fault::BadFormat(decode_utf8(spec_lit_name_lit("duplicate function '"@, name, "'"@))),
    }
}

pub fn parse_exobyte(bytes: &[u8]) -> (r: Result<ParsedExobyte, RuntimeError>)
    ensures
        match spec_parse(bytes@) {
            Ok(fs) => r is Ok && fns_view(r->Ok_0.functions@) == fs && Some(r->Ok_0.magic@) == spec_magic(bytes@),
            Err(f) => r is Err && r->Err_0@ == spec_parse_fault(f),
        },
{
    if bytes.len() < 8 {
        return Err(RuntimeError::BadHeader);
    }
    let head = copy_range(bytes, 0, 8);
    let m0 = magic0();
    let m1 = magic1();
    let magic = if bytes_eq(head.as_slice(), m0.as_slice()) {
        m0
    } else if bytes_eq(head.as_slice(), m1.as_slice()) {
        m1
    } else {
        return Err(RuntimeError::BadHeader);
    };
    let mut i: usize = 8;
    let mut out: Vec<FunctionBytecode> = Vec::new();
    assert(fns_view(out@) =~= Seq::<FnView>::empty());
    while i < bytes.len()
        invariant
            8 <= i <= bytes@.len(),
            spec_parse(bytes@) == spec_parse_fns(bytes@, i as int, fns_view(out@)),
            spec_magic(bytes@) == Some(magic@),
        decreases bytes.len() - i,
    {
        let ghost i0 = i as int;
        let ghost acc = fns_view(out@);
        proof {
            lemma_le_bound(bytes@, i0, 2);
        }
        let name_len = match read_u16_le(bytes, &mut i) {
            Ok(v) => v as usize,
            Err(e) => return Err(map_format_err(e)),
        };
        let name = match read_utf8(bytes, &mut i, name_len) {
            Ok(v) => v,
            Err(e) => return Err(map_format_err(e)),
        };
        let ghost j2 = i as int;
        proof { lemma_le_bound(bytes@, j2, 4); }
        let code_len = match read_u32_le(bytes, &mut i) {
            Ok(v) => v as usize,
            Err(e) => return Err(map_format_err(e)),
        };
        if code_len > bytes.len() - i {
            return Err(RuntimeError::BadFormat(text("function code out of bounds")));
        }
        let code = copy_range(bytes, i, i + code_len);
        i = i + code_len;

        let (strings, instr_start) = match parse_string_table(code.as_slice()) {
            Ok(v) => v,
            Err(e) => return Err(e),
        };
        proof { lemma_find_fn(acc, name@, 0); }
        if find_fn(&out, name.as_slice()).is_some() {
            return Err(RuntimeError::BadFormat(lit_name_lit("duplicate function '", name.as_slice(), "'")));
        }
        let ghost prev = fns_view(out@);
        let f = FunctionBytecode { name, strings, code, instr_start };
        let ghost fv = f.view_fn();
        out.push(f);
        proof {
            assert(fns_view(out@) =~= prev.push(fv));
        }
    }
    Ok(ParsedExobyte { magic, functions: out })
}

} // verus!

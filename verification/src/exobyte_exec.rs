//! Executing EXObyte: frames, registers, locals, and one instruction at a
//! time. Floating-point arithmetic and the floating-point builtins are not
//! computed here: a step that meets one yields a request, and the driver
//! supplies the result through `complete_float`.
use vstd::prelude::*;
use vstd::utf8::{valid_utf8, decode_utf8, encode_utf8, encode_utf8_valid_utf8};
use crate::text::{
    text, name_string, lit_dec, spec_lit_dec, lit_name_lit, spec_lit_name_lit, lit_name_lit_dec,
    spec_lit_name_lit_dec, name_two_dec, spec_name_two_dec,
};
use crate::exobyte_format::{
    ExobyteFormatError, Opcode, spec_opcode, spec_le, read_u8, read_u16_le, read_u32_le,
    read_i32_le, read_f64_bits_le, lemma_le_bound, copy_range,
};
use crate::exobyte_vm::{
    parse_exobyte, spec_parse, spec_parse_fault, lemma_parse_wf, spec_magic, spec_parse_fns, ParseFail,
    QuadVal, Value, RuntimeError, Fault, FunctionBytecode, FnView, fns_view, fn_wf, fns_wf,
    spec_find_fn, lemma_find_fn, find_fn, bytes_eq, spec_format_msg, map_format_err,
    MAX_STACK_DEPTH,
};

verus! {

/// A named local variable of a frame.
pub struct Local {
    pub name: Vec<u8>,
    pub value: Value,
}

pub struct Frame {
    pub pc: usize,
    pub regs: Vec<Value>,
    pub locals: Vec<Local>,
    pub func: Vec<u8>,
    pub return_dst: Option<u16>,
}

/// A frame as a mathematical value.
pub struct FrameView {
    pub pc: int,
    pub regs: Seq<Value>,
    pub locals: Seq<(Seq<u8>, Value)>,
    pub func: Seq<u8>,
    pub ret: Option<u16>,
}

pub open spec fn locals_view(ls: Seq<Local>) -> Seq<(Seq<u8>, Value)> {
    Seq::new(ls.len(), |k: int| (ls[k].name@, ls[k].value))
}

impl View for Frame {
    type V = FrameView;

    open spec fn view(&self) -> FrameView {
        FrameView {
            pc: self.pc as int,
            regs: self.regs@,
            locals: locals_view(self.locals@),
            func: self.func@,
            ret: self.return_dst,
        }
    }
}

pub struct VM {
    pub functions: Vec<FunctionBytecode>,
    pub callstack: Vec<Frame>,
}

/// The machine as a mathematical value: its functions and its call stack,
/// innermost frame last.
pub struct VmView {
    pub fns: Seq<FnView>,
    pub stack: Seq<FrameView>,
}

impl View for VM {
    type V = VmView;

    open spec fn view(&self) -> VmView {
        VmView {
            fns: fns_view(self.functions@),
            stack: Seq::new(self.callstack@.len(), |k: int| self.callstack@[k]@),
        }
    }
}

/// Well-formed functions, a stack no deeper than the limit, and UTF-8
/// function names in every frame.
pub open spec fn vm_wf(v: VmView) -> bool {
    &&& fns_wf(v.fns)
    &&& v.stack.len() <= MAX_STACK_DEPTH
    &&& forall|k: int| 0 <= k < v.stack.len() ==> valid_utf8(#[trigger] v.stack[k].func)
}

/// The floating-point operations a step can request.
#[derive(Clone, Copy, PartialEq, Eq, Structural, Debug)]
pub enum FloatOp {
    Add,
    Sub,
    Mul,
    Div,
    Sin,
    Cos,
    Tan,
    Sqrt,
    Abs,
    Pow,
}

/// A floating-point operation on IEEE-754 bit patterns (`rhs` is 0 for the
/// one-argument builtins) and the register, if any, that takes its result.
#[derive(Clone, Copy, PartialEq, Eq, Structural, Debug)]
pub struct FloatRequest {
    pub op: FloatOp,
    pub lhs: u64,
    pub rhs: u64,
    pub has_dst: bool,
    pub dst: u16,
}

/// What one step did.
#[derive(Clone, Copy, PartialEq, Eq, Structural, Debug)]
pub enum Step {
    Running,
    Finished,
    Float(FloatRequest),
}

/// The result of an executable step agrees with its specification.
pub open spec fn agrees<T>(r: Result<T, RuntimeError>, s: Result<T, Fault>) -> bool {
    match s {
        Ok(v) => r == Ok::<T, RuntimeError>(v),
        Err(f) => r is Err && r->Err_0@ == f,
    }
}

pub open spec fn eof() -> Fault {
    Fault::BadFormat(spec_format_msg(ExobyteFormatError::UnexpectedEof))
}

/// The byte at `c`, if any.
pub open spec fn rd8(code: Seq<u8>, c: int) -> Option<nat> {
    if 0 <= c < code.len() { Some(code[c] as nat) } else { None }
}

/// The little-endian value of the `n` bytes at `c`, if all are there.
pub open spec fn rd(code: Seq<u8>, c: int, n: nat) -> Option<nat> {
    if 0 <= c && c + n <= code.len() { Some(spec_le(code, c, n)) } else { None }
}

pub fn take_u8(code: &[u8], cur: &mut usize) -> (r: Result<u8, RuntimeError>)
    ensures
        match rd8(code@, *old(cur) as int) {
            Some(x) => r == Ok::<u8, RuntimeError>(x as u8) && *final(cur) == *old(cur) + 1,
            None => r is Err && r->Err_0@ == eof(),
        },
{
    match read_u8(code, cur) {
        Ok(v) => Ok(v),
        Err(e) => Err(map_format_err(e)),
    }
}

pub fn take16(code: &[u8], cur: &mut usize) -> (r: Result<u16, RuntimeError>)
    ensures
        match rd(code@, *old(cur) as int, 2) {
            Some(x) => r == Ok::<u16, RuntimeError>(x as u16) && x < 0x1_0000 && *final(cur) == *old(cur) + 2,
            None => r is Err && r->Err_0@ == eof(),
        },
{
    proof { lemma_le_bound(code@, *cur as int, 2); }
    match read_u16_le(code, cur) {
        Ok(v) => Ok(v),
        Err(e) => Err(map_format_err(e)),
    }
}

pub fn take32(code: &[u8], cur: &mut usize) -> (r: Result<u32, RuntimeError>)
    ensures
        match rd(code@, *old(cur) as int, 4) {
            Some(x) => r == Ok::<u32, RuntimeError>(x as u32) && x < 0x1_0000_0000 && *final(cur) == *old(cur) + 4,
            None => r is Err && r->Err_0@ == eof(),
        },
{
    proof { lemma_le_bound(code@, *cur as int, 4); }
    match read_u32_le(code, cur) {
        Ok(v) => Ok(v),
        Err(e) => Err(map_format_err(e)),
    }
}

pub fn takei32(code: &[u8], cur: &mut usize) -> (r: Result<i32, RuntimeError>)
    ensures
        match rd(code@, *old(cur) as int, 4) {
            Some(x) => r == Ok::<i32, RuntimeError>(x as u32 as i32) && *final(cur) == *old(cur) + 4,
            None => r is Err && r->Err_0@ == eof(),
        },
{
    match read_i32_le(code, cur) {
        Ok(v) => Ok(v),
        Err(e) => Err(map_format_err(e)),
    }
}

pub fn take64(code: &[u8], cur: &mut usize) -> (r: Result<u64, RuntimeError>)
    ensures
        match rd(code@, *old(cur) as int, 8) {
            Some(x) => r == Ok::<u64, RuntimeError>(x as u64) && *final(cur) == *old(cur) + 8,
            None => r is Err && r->Err_0@ == eof(),
        },
{
    match read_f64_bits_le(code, cur) {
        Ok(v) => Ok(v),
        Err(e) => Err(map_format_err(e)),
    }
}

/// The fault for reading a register that does not exist.
pub open spec fn reg_fault(r: nat) -> Fault {
    Fault::BadFormat(decode_utf8(spec_lit_dec("read invalid reg r"@, r)))
}

pub open spec fn spec_get_reg(regs: Seq<Value>, r: nat) -> Result<Value, Fault> {
    if r < regs.len() { Ok(regs[r as int]) } else { Err(reg_fault(r)) }
}

/// Writing a register grows the file with `Unit` up to it when needed.
pub open spec fn spec_write_reg(regs: Seq<Value>, r: nat, v: Value) -> Seq<Value> {
    if r < regs.len() {
        regs.update(r as int, v)
    } else {
        (regs + Seq::new((r - regs.len()) as nat, |_i: int| Value::Unit)).push(v)
    }
}

fn get_reg(regs: &Vec<Value>, r: u16) -> (res: Result<Value, RuntimeError>)
    ensures
        agrees(res, spec_get_reg(regs@, r as nat)),
{
    if (r as usize) < regs.len() {
        Ok(regs[r as usize])
    } else {
        Err(RuntimeError::BadFormat(lit_dec("read invalid reg r", r as u64)))
    }
}

fn write_reg(regs: &mut Vec<Value>, r: u16, v: Value)
    ensures
        final(regs)@ == spec_write_reg(old(regs)@, r as nat, v),
{
    let idx = r as usize;
    if idx < regs.len() {
        regs.set(idx, v);
    } else {
        let ghost base = regs@;
        while regs.len() < idx
            invariant
                base.len() <= regs@.len() <= idx,
                regs@ == base + Seq::new((regs@.len() - base.len()) as nat, |_i: int| Value::Unit),
            decreases idx - regs@.len(),
        {
            regs.push(Value::Unit);
            assert(regs@ =~= base + Seq::new((regs@.len() - base.len()) as nat, |_i: int| Value::Unit));
        }
        regs.push(v);
        assert(regs@ =~= spec_write_reg(base, r as nat, v));
    }
}

/// Index of the first local named `name` from `k` on, or -1.
pub open spec fn local_index(ls: Seq<(Seq<u8>, Value)>, name: Seq<u8>, k: nat) -> int
    decreases ls.len() - k,
{
    if k >= ls.len() {
        -1
    } else if ls[k as int].0 == name {
        k as int
    } else {
        local_index(ls, name, k + 1)
    }
}

proof fn lemma_local_index(ls: Seq<(Seq<u8>, Value)>, name: Seq<u8>, k: nat)
    ensures
        local_index(ls, name, k) == -1 || (k <= local_index(ls, name, k) < ls.len()
            && ls[local_index(ls, name, k)].0 == name),
    decreases ls.len() - k,
{
    if k < ls.len() {
        lemma_local_index(ls, name, k + 1);
    }
}

pub open spec fn spec_local_get(ls: Seq<(Seq<u8>, Value)>, name: Seq<u8>) -> Option<Value> {
    let i = local_index(ls, name, 0);
    if i < 0 { None } else { Some(ls[i].1) }
}

/// Binding a local replaces the value of an existing one, else appends it.
pub open spec fn spec_local_set(ls: Seq<(Seq<u8>, Value)>, name: Seq<u8>, v: Value) -> Seq<(Seq<u8>, Value)> {
    let i = local_index(ls, name, 0);
    if i < 0 { ls.push((name, v)) } else { ls.update(i, (name, v)) }
}

fn find_local(ls: &Vec<Local>, name: &[u8]) -> (r: Option<usize>)
    ensures
        r is None <==> local_index(locals_view(ls@), name@, 0) == -1,
        r matches Some(i) ==> i < ls@.len() && local_index(locals_view(ls@), name@, 0) == i as int,
{
    let ghost lv = locals_view(ls@);
    proof { lemma_local_index(lv, name@, 0); }
    let mut k: usize = 0;
    while k < ls.len()
        invariant
            k <= ls@.len(),
            lv == locals_view(ls@),
            local_index(lv, name@, 0) == local_index(lv, name@, k as nat),
        decreases ls.len() - k,
    {
        if bytes_eq(ls[k].name.as_slice(), name) {
            return Some(k);
        }
        k += 1;
    }
    None
}

fn set_local(ls: &mut Vec<Local>, name: &[u8], v: Value)
    ensures
        locals_view(final(ls)@) == spec_local_set(locals_view(old(ls)@), name@, v),
{
    let ghost before = locals_view(ls@);
    proof { lemma_local_index(before, name@, 0); }
    let owned = copy_range(name, 0, name.len());
    assert(owned@ =~= name@);
    match find_local(ls, name) {
        Some(i) => {
            ls.set(i, Local { name: owned, value: v });
            assert(locals_view(ls@) =~= spec_local_set(before, name@, v));
        },
        None => {
            ls.push(Local { name: owned, value: v });
            assert(locals_view(ls@) =~= spec_local_set(before, name@, v));
        },
    }
}

fn get_local(ls: &Vec<Local>, name: &[u8]) -> (r: Option<Value>)
    ensures
        r == spec_local_get(locals_view(ls@), name@),
{
    proof { lemma_local_index(locals_view(ls@), name@, 0); }
    match find_local(ls, name) {
        Some(i) => {
            assert(locals_view(ls@)[i as int].1 == ls@[i as int].value);
            Some(ls[i].value)
        },
        None => None,
    }
}


/// The two-bit code of a quad: N, F, T, S are 0, 1, 2, 3 (bit 0 "false",
/// bit 1 "true").
pub open spec fn quad_code(q: QuadVal) -> u8 {
    match q {
        QuadVal::N => 0,
        QuadVal::F => 1,
        QuadVal::T => 2,
        QuadVal::S => 3,
    }
}

/// The quad of the low two bits of a byte.
pub open spec fn quad_of(b: u8) -> QuadVal {
    let x = b & 3;
    if x == 0 {
        QuadVal::N
    } else if x == 1 {
        QuadVal::F
    } else if x == 2 {
        QuadVal::T
    } else {
        QuadVal::S
    }
}

pub open spec fn spec_qand(a: QuadVal, b: QuadVal) -> QuadVal {
    quad_of(quad_code(a) & quad_code(b))
}

pub open spec fn spec_qor(a: QuadVal, b: QuadVal) -> QuadVal {
    quad_of(quad_code(a) | quad_code(b))
}

/// Swapping the "true" and "false" bits of a code.
pub open spec fn swap_bits(v: u8) -> u8 {
    ((v & 2) >> 1) | ((v & 1) << 1)
}

/// Negation swaps the "true" and "false" bits.
pub open spec fn spec_qnot(a: QuadVal) -> QuadVal {
    quad_of(swap_bits(quad_code(a)))
}

pub fn quad_to_u8(q: QuadVal) -> (r: u8)
    ensures
        r == quad_code(q),
{
    match q {
        QuadVal::N => 0,
        QuadVal::F => 1,
        QuadVal::T => 2,
        QuadVal::S => 3,
    }
}

pub fn u8_to_quad(v: u8) -> (r: QuadVal)
    ensures
        r == quad_of(v),
{
    let x = v & 3;
    if x == 0 {
        QuadVal::N
    } else if x == 1 {
        QuadVal::F
    } else if x == 2 {
        QuadVal::T
    } else {
        QuadVal::S
    }
}

pub fn quad_and(a: QuadVal, b: QuadVal) -> (r: QuadVal)
    ensures
        r == spec_qand(a, b),
{
    u8_to_quad(quad_to_u8(a) & quad_to_u8(b))
}

pub fn quad_or(a: QuadVal, b: QuadVal) -> (r: QuadVal)
    ensures
        r == spec_qor(a, b),
{
    u8_to_quad(quad_to_u8(a) | quad_to_u8(b))
}

pub fn quad_not(a: QuadVal) -> (r: QuadVal)
    ensures
        r == spec_qnot(a),
{
    let v = quad_to_u8(a);
    let r = ((v & 0b10) >> 1) | ((v & 0b01) << 1);
    u8_to_quad(r)
}

/// Quad negation is an involution that swaps F and T and fixes N and S;
/// conjunction and disjunction are commutative, have N and S as their
/// identities, and negation distributes over both.
pub proof fn lemma_quad_laws(a: QuadVal, b: QuadVal)
    ensures
        spec_qnot(spec_qnot(a)) == a,
        spec_qnot(QuadVal::F) == QuadVal::T,
        spec_qnot(QuadVal::T) == QuadVal::F,
        spec_qnot(QuadVal::N) == QuadVal::N,
        spec_qnot(QuadVal::S) == QuadVal::S,
        spec_qand(a, b) == spec_qand(b, a),
        spec_qor(a, b) == spec_qor(b, a),
        spec_qand(a, QuadVal::S) == a,
        spec_qor(a, QuadVal::N) == a,
        spec_qnot(spec_qand(a, b)) == spec_qand(spec_qnot(a), spec_qnot(b)),
        spec_qnot(spec_qor(a, b)) == spec_qor(spec_qnot(a), spec_qnot(b)),
{
    let x = quad_code(a);
    let y = quad_code(b);
    assert(x < 4 && y < 4);
    assert(x & 3 == x && y & 3 == y && (x & y) & 3 == (x & y) && (x | y) & 3 == (x | y)
        && x & y == y & x && x | y == y | x && x | 0 == x && (x & y) < 4 && (x | y) < 4) by (bit_vector)
        requires x < 4, y < 4;
    assert(swap_bits(x) < 4 && swap_bits(y) < 4 && swap_bits(x) & 3 == swap_bits(x)
        && swap_bits(swap_bits(x)) == x && swap_bits(x & y) == swap_bits(x) & swap_bits(y)
        && swap_bits(x | y) == swap_bits(x) | swap_bits(y)
        && (swap_bits(x) & swap_bits(y)) & 3 == (swap_bits(x) & swap_bits(y))
        && (swap_bits(x) | swap_bits(y)) & 3 == (swap_bits(x) | swap_bits(y)))
        by (bit_vector)
        requires x < 4, y < 4;
    let nx = swap_bits(x);
    assert(swap_bits(0) == 0 && swap_bits(1) == 2 && swap_bits(2) == 1 && swap_bits(3) == 3
        && 0u8 & 3 == 0 && 1u8 & 3 == 1 && 2u8 & 3 == 2 && 3u8 & 3 == 3) by (bit_vector);
    assert(quad_of(x) == a);
    assert(quad_code(quad_of(nx)) == nx);
    assert(quad_code(quad_of(x & y)) == x & y);
    assert(quad_code(quad_of(x | y)) == x | y);
}

pub open spec fn spec_as_quad(v: Value) -> Result<QuadVal, Fault> {
    match v {
        Value::Quad(q) => Ok(q),
        _ => Err(Fault::TypeMismatchRuntime("expected quad"@)),
    }
}

pub open spec fn spec_as_bool(v: Value) -> Result<bool, Fault> {
    match v {
        Value::Bool(b) => Ok(b),
        _ => Err(Fault::TypeMismatchRuntime("expected bool"@)),
    }
}

pub open spec fn spec_as_f64(v: Value) -> Result<u64, Fault> {
    match v {
        Value::F64(x) => Ok(x),
        _ => Err(Fault::TypeMismatchRuntime("expected f64"@)),
    }
}

fn as_quad(v: Value) -> (r: Result<QuadVal, RuntimeError>)
    ensures
        agrees(r, spec_as_quad(v)),
{
    match v {
        Value::Quad(q) => Ok(q),
        _ => Err(RuntimeError::TypeMismatchRuntime(text("expected quad"))),
    }
}

fn as_bool(v: Value) -> (r: Result<bool, RuntimeError>)
    ensures
        agrees(r, spec_as_bool(v)),
{
    match v {
        Value::Bool(b) => Ok(b),
        _ => Err(RuntimeError::TypeMismatchRuntime(text("expected bool"))),
    }
}

fn as_f64(v: Value) -> (r: Result<u64, RuntimeError>)
    ensures
        agrees(r, spec_as_f64(v)),
{
    match v {
        Value::F64(x) => Ok(x),
        _ => Err(RuntimeError::TypeMismatchRuntime(text("expected f64"))),
    }
}

/// An IEEE-754 double is NaN when its exponent is all ones and its
/// fraction is not zero.
pub open spec fn f64_is_nan(x: u64) -> bool {
    (x >> 52) & 0x7ff == 0x7ff && x & 0xf_ffff_ffff_ffff != 0
}

/// IEEE-754 equality of two doubles: no NaN equals anything, and the two
/// zeros are equal; otherwise equal bit patterns.
pub open spec fn f64_eq(x: u64, y: u64) -> bool {
    !f64_is_nan(x) && !f64_is_nan(y) && (x == y || (x | y) & 0x7fff_ffff_ffff_ffff == 0)
}

/// IEEE-754 equality of two doubles given by their bit patterns.
pub fn f64_bits_eq(x: u64, y: u64) -> (r: bool)
    ensures
        r == f64_eq(x, y),
{
    let x_nan = (x >> 52) & 0x7ff == 0x7ff && x & 0xf_ffff_ffff_ffff != 0;
    let y_nan = (y >> 52) & 0x7ff == 0x7ff && y & 0xf_ffff_ffff_ffff != 0;
    !x_nan && !y_nan && (x == y || (x | y) & 0x7fff_ffff_ffff_ffff == 0)
}

pub open spec fn eq_fault() -> Fault {
    Fault::TypeMismatchRuntime("CmpEq/CmpNe operands must have same runtime type"@)
}

/// Equality of two runtime values of the same kind; doubles compare as
/// IEEE-754 numbers.
pub open spec fn spec_value_eq(a: Value, b: Value) -> Result<bool, Fault> {
    match (a, b) {
        (Value::Quad(x), Value::Quad(y)) => Ok(x == y),
        (Value::Bool(x), Value::Bool(y)) => Ok(x == y),
        (Value::I32(x), Value::I32(y)) => Ok(x == y),
        (Value::F64(x), Value::F64(y)) => Ok(f64_eq(x, y)),
        (Value::U32(x), Value::U32(y)) => Ok(x == y),
        (Value::Fx(x), Value::Fx(y)) => Ok(x == y),
        (Value::Unit, Value::Unit) => Ok(true),
        _ => Err(eq_fault()),
    }
}

pub fn value_eq(a: &Value, b: &Value) -> (r: Result<bool, RuntimeError>)
    ensures
        agrees(r, spec_value_eq(*a, *b)),
{
    match (a, b) {
        (Value::Quad(x), Value::Quad(y)) => Ok(*x == *y),
        (Value::Bool(x), Value::Bool(y)) => Ok(*x == *y),
        (Value::I32(x), Value::I32(y)) => Ok(*x == *y),
        (Value::F64(x), Value::F64(y)) => Ok(f64_bits_eq(*x, *y)),
        (Value::U32(x), Value::U32(y)) => Ok(*x == *y),
        (Value::Fx(x), Value::Fx(y)) => Ok(*x == *y),
        (Value::Unit, Value::Unit) => Ok(true),
        _ => Err(RuntimeError::TypeMismatchRuntime(text("CmpEq/CmpNe operands must have same runtime type"))),
    }
}

/// The floating-point builtin a callee name denotes, with its arity.
pub open spec fn spec_builtin(name: Seq<u8>) -> Option<(FloatOp, nat)> {
    if name == encode_utf8("sin"@) {
        Some((FloatOp::Sin, 1))
    } else if name == encode_utf8("cos"@) {
        Some((FloatOp::Cos, 1))
    } else if name == encode_utf8("tan"@) {
        Some((FloatOp::Tan, 1))
    } else if name == encode_utf8("sqrt"@) {
        Some((FloatOp::Sqrt, 1))
    } else if name == encode_utf8("abs"@) {
        Some((FloatOp::Abs, 1))
    } else if name == encode_utf8("pow"@) {
        Some((FloatOp::Pow, 2))
    } else {
        None
    }
}

fn builtin_of(name: &[u8]) -> (r: Option<(FloatOp, usize)>)
    ensures
        match spec_builtin(name@) {
            Some((op, n)) => r == Some((op, n as usize)),
            None => r is None,
        },
{
    if bytes_eq(name, "sin".as_bytes()) {
        Some((FloatOp::Sin, 1))
    } else if bytes_eq(name, "cos".as_bytes()) {
        Some((FloatOp::Cos, 1))
    } else if bytes_eq(name, "tan".as_bytes()) {
        Some((FloatOp::Tan, 1))
    } else if bytes_eq(name, "sqrt".as_bytes()) {
        Some((FloatOp::Sqrt, 1))
    } else if bytes_eq(name, "abs".as_bytes()) {
        Some((FloatOp::Abs, 1))
    } else if bytes_eq(name, "pow".as_bytes()) {
        Some((FloatOp::Pow, 2))
    } else {
        None
    }
}

pub open spec fn builtin_type_fault(name: Seq<u8>) -> Fault {
    Fault::TypeMismatchRuntime(decode_utf8(spec_lit_name_lit("builtin '"@, name, "' expects f64 args"@)))
}

/// The operands of a builtin call: the argument count must match, then each
/// argument must be a double.
pub open spec fn spec_builtin_args(name: Seq<u8>, arity: nat, args: Seq<Value>) -> Result<(u64, u64), Fault> {
    if args.len() != arity {
        Err(Fault::BadFormat(decode_utf8(spec_name_two_dec("builtin '"@, name, "' expects "@, arity, " args, got "@, args.len()))))
    } else {
        match args[0] {
            Value::F64(a) => {
                if arity == 2 {
                    match args[1] {
                        Value::F64(b) => Ok((a, b)),
                        _ => Err(builtin_type_fault(name)),
                    }
                } else {
                    Ok((a, 0))
                }
            },
            _ => Err(builtin_type_fault(name)),
        }
    }
}

fn builtin_args(name: &[u8], arity: usize, args: &Vec<Value>) -> (r: Result<(u64, u64), RuntimeError>)
    requires
        valid_utf8(name@),
        arity == 1 || arity == 2,
    ensures
        agrees(r, spec_builtin_args(name@, arity as nat, args@)),
{
    if args.len() != arity {
        return Err(RuntimeError::BadFormat(
            name_two_dec("builtin '", name, "' expects ", arity as u64, " args, got ", args.len() as u64),
        ));
    }
    let a = match args[0] {
        Value::F64(x) => x,
        _ => return Err(RuntimeError::TypeMismatchRuntime(lit_name_lit("builtin '", name, "' expects f64 args"))),
    };
    if arity == 2 {
        match args[1] {
            Value::F64(b) => Ok((a, b)),
            _ => Err(RuntimeError::TypeMismatchRuntime(lit_name_lit("builtin '", name, "' expects f64 args"))),
        }
    } else {
        Ok((a, 0))
    }
}


/// The frame with new registers and program counter.
pub open spec fn moved(fr: FrameView, regs: Seq<Value>, pc: int) -> FrameView {
    FrameView { pc, regs, locals: fr.locals, func: fr.func, ret: fr.ret }
}

/// Count of instruction bytes of a function.
pub open spec fn instr_len(f: FnView) -> int {
    if f.code.len() >= f.instr_start { f.code.len() - f.instr_start } else { 0 }
}

pub open spec fn spec_lookup_str(f: FnView, sid: nat) -> Result<Seq<u8>, Fault> {
    if sid < f.strings.len() { Ok(f.strings[sid as int]) } else { Err(Fault::InvalidStringId(sid as u16)) }
}

/// Loading a literal into a register. `c` is the position after the opcode.
pub open spec fn spec_exec_load(f: FnView, fr: FrameView, op: Opcode, c: int) -> Result<(Step, FrameView), Fault> {
    let code = f.code;
    match rd(code, c, 2) {
        None => Err(eof()),
        Some(d) => match op {
            Opcode::LoadQ => match rd8(code, c + 2) {
                None => Err(eof()),
                Some(q) => if q > 3 {
                    Err(Fault::BadFormat(decode_utf8(spec_lit_dec("invalid quad literal "@, q))))
                } else {
                    Ok((Step::Running, moved(fr, spec_write_reg(fr.regs, d, Value::Quad(quad_of(q as u8))), c + 3 - f.instr_start)))
                },
            },
            Opcode::LoadBool => match rd8(code, c + 2) {
                None => Err(eof()),
                Some(b) => Ok((Step::Running, moved(fr, spec_write_reg(fr.regs, d, Value::Bool(b != 0)), c + 3 - f.instr_start))),
            },
            Opcode::LoadI32 => match rd(code, c + 2, 4) {
                None => Err(eof()),
                Some(x) => Ok((Step::Running, moved(fr, spec_write_reg(fr.regs, d, Value::I32(x as u32 as i32)), c + 6 - f.instr_start))),
            },
            _ => match rd(code, c + 2, 8) {
                None => Err(eof()),
                Some(x) => Ok((Step::Running, moved(fr, spec_write_reg(fr.regs, d, Value::F64(x as u64)), c + 10 - f.instr_start))),
            },
        },
    }
}

/// Reading and writing named locals.
pub open spec fn spec_exec_var(f: FnView, fr: FrameView, op: Opcode, c: int) -> Result<(Step, FrameView), Fault> {
    let code = f.code;
    match (rd(code, c, 2), rd(code, c + 2, 2)) {
        (None, _) => Err(eof()),
        (_, None) => Err(eof()),
        (Some(a), Some(b)) => {
            let next = c + 4 - f.instr_start;
            if op == Opcode::LoadVar {
                match spec_lookup_str(f, b) {
                    Err(e) => Err(e),
                    Ok(name) => match spec_local_get(fr.locals, name) {
                        None => Err(Fault::UnknownVariable(decode_utf8(name))),
                        Some(val) => Ok((Step::Running, moved(fr, spec_write_reg(fr.regs, a, val), next))),
                    },
                }
            } else {
                match spec_lookup_str(f, a) {
                    Err(e) => Err(e),
                    Ok(name) => match spec_get_reg(fr.regs, b) {
                        Err(e) => Err(e),
                        Ok(val) => Ok((Step::Running, FrameView {
                            pc: next,
                            regs: fr.regs,
                            locals: spec_local_set(fr.locals, name, val),
                            func: fr.func,
                            ret: fr.ret,
                        })),
                    },
                }
            }
        },
    }
}

/// The three register operands of a binary instruction, if all are there.
pub open spec fn rd3(code: Seq<u8>, c: int) -> Option<(nat, nat, nat)> {
    match (rd(code, c, 2), rd(code, c + 2, 2), rd(code, c + 4, 2)) {
        (Some(d), Some(l), Some(r)) => Some((d, l, r)),
        _ => None,
    }
}

/// Quad and boolean connectives.
pub open spec fn spec_exec_logic(f: FnView, fr: FrameView, op: Opcode, c: int) -> Result<(Step, FrameView), Fault> {
    let code = f.code;
    if op == Opcode::QNot || op == Opcode::BoolNot {
        match (rd(code, c, 2), rd(code, c + 2, 2)) {
            (None, _) => Err(eof()),
            (_, None) => Err(eof()),
            (Some(d), Some(sr)) => match spec_get_reg(fr.regs, sr) {
                Err(e) => Err(e),
                Ok(v) => if op == Opcode::QNot {
                    match spec_as_quad(v) {
                        Err(e) => Err(e),
                        Ok(q) => Ok((Step::Running, moved(fr, spec_write_reg(fr.regs, d, Value::Quad(spec_qnot(q))), c + 4 - f.instr_start))),
                    }
                } else {
                    match spec_as_bool(v) {
                        Err(e) => Err(e),
                        Ok(b) => Ok((Step::Running, moved(fr, spec_write_reg(fr.regs, d, Value::Bool(!b)), c + 4 - f.instr_start))),
                    }
                },
            },
        }
    } else {
        match rd3(code, c) {
            None => Err(eof()),
            Some((d, l, r)) => {
                let next = c + 6 - f.instr_start;
                if op == Opcode::BoolAnd || op == Opcode::BoolOr {
                    match spec_get_reg(fr.regs, l) {
                        Err(e) => Err(e),
                        Ok(lv) => match spec_as_bool(lv) {
                            Err(e) => Err(e),
                            Ok(lb) => match spec_get_reg(fr.regs, r) {
                                Err(e) => Err(e),
                                Ok(rv) => match spec_as_bool(rv) {
                                    Err(e) => Err(e),
                                    Ok(rb) => Ok((Step::Running, moved(fr, spec_write_reg(fr.regs, d,
                                        Value::Bool(if op == Opcode::BoolAnd { lb && rb } else { lb || rb })), next))),
                                },
                            },
                        },
                    }
                } else {
                    match spec_get_reg(fr.regs, l) {
                        Err(e) => Err(e),
                        Ok(lv) => match spec_as_quad(lv) {
                            Err(e) => Err(e),
                            Ok(lq) => match spec_get_reg(fr.regs, r) {
                                Err(e) => Err(e),
                                Ok(rv) => match spec_as_quad(rv) {
                                    Err(e) => Err(e),
                                    Ok(rq) => {
                                        let out = if op == Opcode::QAnd {
                                            spec_qand(lq, rq)
                                        } else if op == Opcode::QOr {
                                            spec_qor(lq, rq)
                                        } else {
                                            spec_qor(spec_qnot(lq), rq)
                                        };
                                        Ok((Step::Running, moved(fr, spec_write_reg(fr.regs, d, Value::Quad(out)), next)))
                                    },
                                },
                            },
                        },
                    }
                }
            },
        }
    }
}

/// Equality tests.
pub open spec fn spec_exec_compare(f: FnView, fr: FrameView, op: Opcode, c: int) -> Result<(Step, FrameView), Fault> {
    match rd3(f.code, c) {
        None => Err(eof()),
        Some((d, l, r)) => match spec_get_reg(fr.regs, l) {
            Err(e) => Err(e),
            Ok(lv) => match spec_get_reg(fr.regs, r) {
                Err(e) => Err(e),
                Ok(rv) => match spec_value_eq(lv, rv) {
                    Err(e) => Err(e),
                    Ok(eq) => Ok((Step::Running, moved(fr, spec_write_reg(fr.regs, d,
                        Value::Bool(if op == Opcode::CmpEq { eq } else { !eq })), c + 6 - f.instr_start))),
                },
            },
        },
    }
}

pub open spec fn arith_op(op: Opcode) -> FloatOp {
    if op == Opcode::AddF64 {
        FloatOp::Add
    } else if op == Opcode::SubF64 {
        FloatOp::Sub
    } else if op == Opcode::MulF64 {
        FloatOp::Mul
    } else {
        FloatOp::Div
    }
}

/// Double arithmetic: the operands are checked, the operation requested.
pub open spec fn spec_exec_arith(f: FnView, fr: FrameView, op: Opcode, c: int) -> Result<(Step, FrameView), Fault> {
    match rd3(f.code, c) {
        None => Err(eof()),
        Some((d, l, r)) => match spec_get_reg(fr.regs, l) {
            Err(e) => Err(e),
            Ok(lv) => match spec_as_f64(lv) {
                Err(e) => Err(e),
                Ok(a) => match spec_get_reg(fr.regs, r) {
                    Err(e) => Err(e),
                    Ok(rv) => match spec_as_f64(rv) {
                        Err(e) => Err(e),
                        Ok(b) => Ok((
                            Step::Float(FloatRequest { op: arith_op(op), lhs: a, rhs: b, has_dst: true, dst: d as u16 }),
                            moved(fr, fr.regs, c + 6 - f.instr_start),
                        )),
                    },
                },
            },
        },
    }
}

pub open spec fn jump_fault(fr: FrameView, addr: nat) -> Fault {
    Fault::InvalidJumpAddress(decode_utf8(fr.func), addr as int)
}

/// Jumps; a target must lie inside the function's instructions.
pub open spec fn spec_exec_jump(f: FnView, fr: FrameView, op: Opcode, c: int) -> Result<(Step, FrameView), Fault> {
    let code = f.code;
    if op == Opcode::Jmp {
        match rd(code, c, 4) {
            None => Err(eof()),
            Some(addr) => if addr >= instr_len(f) {
                Err(jump_fault(fr, addr))
            } else {
                Ok((Step::Running, moved(fr, fr.regs, addr as int)))
            },
        }
    } else {
        match (rd(code, c, 2), rd(code, c + 2, 4)) {
            (None, _) => Err(eof()),
            (_, None) => Err(eof()),
            (Some(cond), Some(addr)) => match spec_get_reg(fr.regs, cond) {
                Err(e) => Err(e),
                Ok(v) => match spec_as_bool(v) {
                    Err(e) => Err(e),
                    Ok(b) => if !b {
                        Ok((Step::Running, moved(fr, fr.regs, c + 6 - f.instr_start)))
                    } else if addr >= instr_len(f) {
                        Err(jump_fault(fr, addr))
                    } else {
                        Ok((Step::Running, moved(fr, fr.regs, addr as int)))
                    },
                },
            },
        }
    }
}

/// An instruction that acts on the current frame alone.
#[verifier::opaque]
pub open spec fn spec_exec_frame(f: FnView, fr: FrameView, op: Opcode, c: int) -> Result<(Step, FrameView), Fault> {
    match op {
        Opcode::LoadQ | Opcode::LoadBool | Opcode::LoadI32 | Opcode::LoadF64 => spec_exec_load(f, fr, op, c),
        Opcode::LoadVar | Opcode::StoreVar => spec_exec_var(f, fr, op, c),
        Opcode::QAnd | Opcode::QOr | Opcode::QImpl | Opcode::QNot
        | Opcode::BoolAnd | Opcode::BoolOr | Opcode::BoolNot => spec_exec_logic(f, fr, op, c),
        Opcode::CmpEq | Opcode::CmpNe => spec_exec_compare(f, fr, op, c),
        Opcode::AddF64 | Opcode::SubF64 | Opcode::MulF64 | Opcode::DivF64 => spec_exec_arith(f, fr, op, c),
        _ => spec_exec_jump(f, fr, op, c),
    }
}

/// A frame operation's result, with the frame left alone on failure.
pub open spec fn frame_agrees(r: Result<Step, RuntimeError>, s: Result<(Step, FrameView), Fault>, before: FrameView, after: FrameView) -> bool {
    match s {
        Ok((st, fr2)) => r == Ok::<Step, RuntimeError>(st) && after == fr2,
        Err(e) => r is Err && r->Err_0@ == e && after == before,
    }
}


fn lookup_str(f: &FunctionBytecode, sid: u16) -> (r: Result<usize, RuntimeError>)
    ensures
        match spec_lookup_str(f.view_fn(), sid as nat) {
            Ok(name) => r matches Ok(k) && k < f.strings@.len() && f.strings@[k as int]@ == name,
            Err(e) => r is Err && r->Err_0@ == e,
        },
{
    let k = sid as usize;
    if k < f.strings.len() {
        assert(f.view_fn().strings[k as int] == f.strings@[k as int]@);
        Ok(k)
    } else {
        Err(RuntimeError::InvalidStringId(sid))
    }
}

fn exec_load(f: &FunctionBytecode, fr: &mut Frame, op: Opcode, c: usize) -> (r: Result<Step, RuntimeError>)
    requires
        op is LoadQ || op is LoadBool || op is LoadI32 || op is LoadF64,
        f.instr_start <= c,
    ensures
        frame_agrees(r, spec_exec_load(f.view_fn(), old(fr)@, op, c as int), old(fr)@, final(fr)@),
{
    let code = f.code.as_slice();
    let mut cur = c;
    let d = match take16(code, &mut cur) {
        Ok(v) => v,
        Err(e) => return Err(e),
    };
    let v = match op {
        Opcode::LoadQ => {
            let q = match take_u8(code, &mut cur) {
                Ok(v) => v,
                Err(e) => return Err(e),
            };
            if q > 3 {
                return Err(RuntimeError::BadFormat(lit_dec("invalid quad literal ", q as u64)));
            }
            Value::Quad(u8_to_quad(q))
        },
        Opcode::LoadBool => {
            let b = match take_u8(code, &mut cur) {
                Ok(v) => v,
                Err(e) => return Err(e),
            };
            Value::Bool(b != 0)
        },
        Opcode::LoadI32 => {
            let x = match takei32(code, &mut cur) {
                Ok(v) => v,
                Err(e) => return Err(e),
            };
            Value::I32(x)
        },
        _ => {
            let x = match take64(code, &mut cur) {
                Ok(v) => v,
                Err(e) => return Err(e),
            };
            Value::F64(x)
        },
    };
    write_reg(&mut fr.regs, d, v);
    fr.pc = cur - f.instr_start;
    Ok(Step::Running)
}

fn exec_var(f: &FunctionBytecode, fr: &mut Frame, op: Opcode, c: usize) -> (r: Result<Step, RuntimeError>)
    requires
        op is LoadVar || op is StoreVar,
        fn_wf(f.view_fn()),
        f.instr_start <= c,
    ensures
        frame_agrees(r, spec_exec_var(f.view_fn(), old(fr)@, op, c as int), old(fr)@, final(fr)@),
{
    let code = f.code.as_slice();
    let mut cur = c;
    let a = match take16(code, &mut cur) {
        Ok(v) => v,
        Err(e) => return Err(e),
    };
    let b = match take16(code, &mut cur) {
        Ok(v) => v,
        Err(e) => return Err(e),
    };
    let next = cur - f.instr_start;
    if op == Opcode::LoadVar {
        let k = match lookup_str(f, b) {
            Ok(k) => k,
            Err(e) => return Err(e),
        };
        let name = f.strings[k].as_slice();
        assert(valid_utf8(f.view_fn().strings[k as int]));
        match get_local(&fr.locals, name) {
            None => Err(RuntimeError::UnknownVariable(name_string(name))),
            Some(v) => {
                write_reg(&mut fr.regs, a, v);
                fr.pc = next;
                Ok(Step::Running)
            },
        }
    } else {
        let k = match lookup_str(f, a) {
            Ok(k) => k,
            Err(e) => return Err(e),
        };
        let name = f.strings[k].as_slice();
        let v = match get_reg(&fr.regs, b) {
            Ok(v) => v,
            Err(e) => return Err(e),
        };
        set_local(&mut fr.locals, name, v);
        fr.pc = next;
        Ok(Step::Running)
    }
}

fn exec_logic(f: &FunctionBytecode, fr: &mut Frame, op: Opcode, c: usize) -> (r: Result<Step, RuntimeError>)
    requires
        op is QAnd || op is QOr || op is QImpl || op is QNot || op is BoolAnd || op is BoolOr || op is BoolNot,
        f.instr_start <= c,
    ensures
        frame_agrees(r, spec_exec_logic(f.view_fn(), old(fr)@, op, c as int), old(fr)@, final(fr)@),
{
    let code = f.code.as_slice();
    let mut cur = c;
    let d = match take16(code, &mut cur) {
        Ok(v) => v,
        Err(e) => return Err(e),
    };
    let l = match take16(code, &mut cur) {
        Ok(v) => v,
        Err(e) => return Err(e),
    };
    let out = if op == Opcode::QNot || op == Opcode::BoolNot {
        let v = match get_reg(&fr.regs, l) {
            Ok(v) => v,
            Err(e) => return Err(e),
        };
        if op == Opcode::QNot {
            match as_quad(v) {
                Ok(q) => Value::Quad(quad_not(q)),
                Err(e) => return Err(e),
            }
        } else {
            match as_bool(v) {
                Ok(b) => Value::Bool(!b),
                Err(e) => return Err(e),
            }
        }
    } else {
        let r = match take16(code, &mut cur) {
            Ok(v) => v,
            Err(e) => return Err(e),
        };
        if op == Opcode::BoolAnd || op == Opcode::BoolOr {
            let lb = match get_reg(&fr.regs, l) {
                Ok(v) => match as_bool(v) {
                    Ok(b) => b,
                    Err(e) => return Err(e),
                },
                Err(e) => return Err(e),
            };
            let rb = match get_reg(&fr.regs, r) {
                Ok(v) => match as_bool(v) {
                    Ok(b) => b,
                    Err(e) => return Err(e),
                },
                Err(e) => return Err(e),
            };
            Value::Bool(if op == Opcode::BoolAnd { lb && rb } else { lb || rb })
        } else {
            let lq = match get_reg(&fr.regs, l) {
                Ok(v) => match as_quad(v) {
                    Ok(q) => q,
                    Err(e) => return Err(e),
                },
                Err(e) => return Err(e),
            };
            let rq = match get_reg(&fr.regs, r) {
                Ok(v) => match as_quad(v) {
                    Ok(q) => q,
                    Err(e) => return Err(e),
                },
                Err(e) => return Err(e),
            };
            let q = if op == Opcode::QAnd {
                quad_and(lq, rq)
            } else if op == Opcode::QOr {
                quad_or(lq, rq)
            } else {
                quad_or(quad_not(lq), rq)
            };
            Value::Quad(q)
        }
    };
    write_reg(&mut fr.regs, d, out);
    fr.pc = cur - f.instr_start;
    Ok(Step::Running)
}

fn exec_compare(f: &FunctionBytecode, fr: &mut Frame, op: Opcode, c: usize) -> (r: Result<Step, RuntimeError>)
    requires
        op is CmpEq || op is CmpNe,
        f.instr_start <= c,
    ensures
        frame_agrees(r, spec_exec_compare(f.view_fn(), old(fr)@, op, c as int), old(fr)@, final(fr)@),
{
    let code = f.code.as_slice();
    let mut cur = c;
    let d = match take16(code, &mut cur) {
        Ok(v) => v,
        Err(e) => return Err(e),
    };
    let l = match take16(code, &mut cur) {
        Ok(v) => v,
        Err(e) => return Err(e),
    };
    let r = match take16(code, &mut cur) {
        Ok(v) => v,
        Err(e) => return Err(e),
    };
    let lv = match get_reg(&fr.regs, l) {
        Ok(v) => v,
        Err(e) => return Err(e),
    };
    let rv = match get_reg(&fr.regs, r) {
        Ok(v) => v,
        Err(e) => return Err(e),
    };
    let eq = match value_eq(&lv, &rv) {
        Ok(b) => b,
        Err(e) => return Err(e),
    };
    write_reg(&mut fr.regs, d, Value::Bool(if op == Opcode::CmpEq { eq } else { !eq }));
    fr.pc = cur - f.instr_start;
    Ok(Step::Running)
}

fn exec_arith(f: &FunctionBytecode, fr: &mut Frame, op: Opcode, c: usize) -> (r: Result<Step, RuntimeError>)
    requires
        op is AddF64 || op is SubF64 || op is MulF64 || op is DivF64,
        f.instr_start <= c,
    ensures
        frame_agrees(r, spec_exec_arith(f.view_fn(), old(fr)@, op, c as int), old(fr)@, final(fr)@),
{
    let code = f.code.as_slice();
    let mut cur = c;
    let d = match take16(code, &mut cur) {
        Ok(v) => v,
        Err(e) => return Err(e),
    };
    let l = match take16(code, &mut cur) {
        Ok(v) => v,
        Err(e) => return Err(e),
    };
    let r = match take16(code, &mut cur) {
        Ok(v) => v,
        Err(e) => return Err(e),
    };
    let a = match get_reg(&fr.regs, l) {
        Ok(v) => match as_f64(v) {
            Ok(x) => x,
            Err(e) => return Err(e),
        },
        Err(e) => return Err(e),
    };
    let b = match get_reg(&fr.regs, r) {
        Ok(v) => match as_f64(v) {
            Ok(x) => x,
            Err(e) => return Err(e),
        },
        Err(e) => return Err(e),
    };
    let fop = match op {
        Opcode::AddF64 => FloatOp::Add,
        Opcode::SubF64 => FloatOp::Sub,
        Opcode::MulF64 => FloatOp::Mul,
        _ => FloatOp::Div,
    };
    fr.pc = cur - f.instr_start;
    Ok(Step::Float(FloatRequest { op: fop, lhs: a, rhs: b, has_dst: true, dst: d }))
}

fn exec_jump(f: &FunctionBytecode, fr: &mut Frame, op: Opcode, c: usize) -> (r: Result<Step, RuntimeError>)
    requires
        op is Jmp || op is JmpIf,
        fn_wf(f.view_fn()),
        valid_utf8(old(fr).func@),
        f.instr_start <= c,
    ensures
        frame_agrees(r, spec_exec_jump(f.view_fn(), old(fr)@, op, c as int), old(fr)@, final(fr)@),
{
    let code = f.code.as_slice();
    let rel = f.code.len() - f.instr_start;
    let mut cur = c;
    if op == Opcode::Jmp {
        let addr = match take32(code, &mut cur) {
            Ok(v) => v as usize,
            Err(e) => return Err(e),
        };
        if addr >= rel {
            return Err(RuntimeError::InvalidJumpAddress { func: name_string(fr.func.as_slice()), addr });
        }
        fr.pc = addr;
        Ok(Step::Running)
    } else {
        let cond = match take16(code, &mut cur) {
            Ok(v) => v,
            Err(e) => return Err(e),
        };
        let addr = match take32(code, &mut cur) {
            Ok(v) => v as usize,
            Err(e) => return Err(e),
        };
        let b = match get_reg(&fr.regs, cond) {
            Ok(v) => match as_bool(v) {
                Ok(b) => b,
                Err(e) => return Err(e),
            },
            Err(e) => return Err(e),
        };
        if b {
            if addr >= rel {
                return Err(RuntimeError::InvalidJumpAddress { func: name_string(fr.func.as_slice()), addr });
            }
            fr.pc = addr;
        } else {
            fr.pc = cur - f.instr_start;
        }
        Ok(Step::Running)
    }
}

fn exec_frame(f: &FunctionBytecode, fr: &mut Frame, op: Opcode, c: usize) -> (r: Result<Step, RuntimeError>)
    requires
        !(op is Call) && !(op is Ret),
        fn_wf(f.view_fn()),
        valid_utf8(old(fr).func@),
        f.instr_start <= c,
    ensures
        frame_agrees(r, spec_exec_frame(f.view_fn(), old(fr)@, op, c as int), old(fr)@, final(fr)@),
        final(fr)@.func == old(fr)@.func,
{
    reveal(spec_exec_frame);
    match op {
        Opcode::LoadQ | Opcode::LoadBool | Opcode::LoadI32 | Opcode::LoadF64 => exec_load(f, fr, op, c),
        Opcode::LoadVar | Opcode::StoreVar => exec_var(f, fr, op, c),
        Opcode::QAnd | Opcode::QOr | Opcode::QImpl | Opcode::QNot
        | Opcode::BoolAnd | Opcode::BoolOr | Opcode::BoolNot => exec_logic(f, fr, op, c),
        Opcode::CmpEq | Opcode::CmpNe => exec_compare(f, fr, op, c),
        Opcode::AddF64 | Opcode::SubF64 | Opcode::MulF64 | Opcode::DivF64 => exec_arith(f, fr, op, c),
        _ => exec_jump(f, fr, op, c),
    }
}


pub open spec fn with_top(v: VmView, fr: FrameView) -> VmView {
    VmView { fns: v.fns, stack: v.stack.update(v.stack.len() - 1, fr) }
}

/// Returning `val` pops the current frame and writes the value into the
/// caller's destination register, if the call named one.
pub open spec fn spec_ret_to(v: VmView, val: Value) -> VmView {
    let fr = v.stack.last();
    let rest = v.stack.drop_last();
    if rest.len() == 0 {
        VmView { fns: v.fns, stack: rest }
    } else {
        match fr.ret {
            None => VmView { fns: v.fns, stack: rest },
            Some(d) => {
                let caller = rest.last();
                VmView {
                    fns: v.fns,
                    stack: rest.update(rest.len() - 1, moved(caller, spec_write_reg(caller.regs, d as nat, val), caller.pc)),
                }
            },
        }
    }
}

#[verifier::opaque]
pub open spec fn spec_exec_ret(v: VmView, f: FnView, c: int) -> Result<(Step, VmView), Fault> {
    let fr = v.stack.last();
    match rd8(f.code, c) {
        None => Err(eof()),
        Some(h) => if h != 0 {
            match rd(f.code, c + 1, 2) {
                None => Err(eof()),
                Some(sr) => match spec_get_reg(fr.regs, sr) {
                    Err(e) => Err(e),
                    Ok(val) => Ok((Step::Running, spec_ret_to(v, val))),
                },
            }
        } else {
            Ok((Step::Running, spec_ret_to(v, Value::Unit)))
        },
    }
}

/// The first `n` call arguments: register operands read one at a time from
/// `c`, each register read as soon as its operand is.
pub open spec fn spec_args(code: Seq<u8>, c: int, n: nat, regs: Seq<Value>) -> Result<(Seq<Value>, int), Fault>
    decreases n,
{
    if n == 0 {
        Ok((Seq::empty(), c))
    } else {
        match spec_args(code, c, (n - 1) as nat, regs) {
            Err(e) => Err(e),
            Ok((vs, c2)) => match rd(code, c2, 2) {
                None => Err(eof()),
                Some(r) => match spec_get_reg(regs, r) {
                    Err(e) => Err(e),
                    Ok(v) => Ok((vs.push(v), c2 + 2)),
                },
            },
        }
    }
}

proof fn lemma_args_err(code: Seq<u8>, c: int, m: nat, m2: nat, regs: Seq<Value>)
    requires
        m <= m2,
        spec_args(code, c, m, regs) is Err,
    ensures
        spec_args(code, c, m2, regs) == spec_args(code, c, m, regs),
    decreases m2,
{
    if m2 > m {
        lemma_args_err(code, c, m, (m2 - 1) as nat, regs);
    }
}

/// A new frame's registers: the arguments, then `Unit` up to sixteen.
pub open spec fn frame_regs(args: Seq<Value>) -> Seq<Value> {
    if args.len() >= 16 {
        args
    } else {
        args + Seq::new((16 - args.len()) as nat, |_i: int| Value::Unit)
    }
}

pub open spec fn new_frame(name: Seq<u8>, args: Seq<Value>, ret: Option<u16>) -> FrameView {
    FrameView { pc: 0, regs: frame_regs(args), locals: Seq::empty(), func: name, ret }
}

/// Entering a function: it must exist and the stack must have room.
pub open spec fn spec_push_frame(v: VmView, name: Seq<u8>, args: Seq<Value>, ret: Option<u16>) -> Result<VmView, Fault> {
    if spec_find_fn(v.fns, name, 0) < 0 {
        Err(Fault::UnknownFunction(decode_utf8(name)))
    } else if v.stack.len() >= MAX_STACK_DEPTH {
        Err(Fault::StackOverflow)
    } else {
        Ok(VmView { fns: v.fns, stack: v.stack.push(new_frame(name, args, ret)) })
    }
}

/// A call: a floating-point builtin becomes a request, any other callee
/// gets a new frame.
#[verifier::opaque]
pub open spec fn spec_exec_call(v: VmView, f: FnView, c: int) -> Result<(Step, VmView), Fault> {
    let fr = v.stack.last();
    let code = f.code;
    match (rd8(code, c), rd(code, c + 1, 2), rd(code, c + 3, 2), rd(code, c + 5, 2)) {
        (Some(h), Some(d), Some(sid), Some(argc)) => match spec_lookup_str(f, sid) {
            Err(e) => Err(e),
            Ok(callee) => match spec_args(code, c + 7, argc, fr.regs) {
                Err(e) => Err(e),
                Ok((args, c2)) => {
                    let v1 = with_top(v, moved(fr, fr.regs, c2 - f.instr_start));
                    match spec_builtin(callee) {
                        Some((op, arity)) => match spec_builtin_args(callee, arity, args) {
                            Err(e) => Err(e),
                            Ok((a, b)) => Ok((
                                Step::Float(FloatRequest { op, lhs: a, rhs: b, has_dst: h != 0, dst: d as u16 }),
                                v1,
                            )),
                        },
                        None => match spec_push_frame(v1, callee, args, if h != 0 { Some(d as u16) } else { None }) {
                            Err(e) => Err(e),
                            Ok(v2) => Ok((Step::Running, v2)),
                        },
                    }
                },
            },
        },
        _ => Err(eof()),
    }
}

pub open spec fn pc_fault(fr: FrameView) -> Fault {
    Fault::BadFormat(decode_utf8(spec_lit_name_lit_dec("pc out of range in '"@, fr.func, "': "@, fr.pc as nat)))
}

/// One instruction of the innermost frame. An empty stack has finished.
pub open spec fn spec_step(v: VmView) -> Result<(Step, VmView), Fault> {
    if v.stack.len() == 0 {
        Ok((Step::Finished, v))
    } else {
        let fr = v.stack.last();
        let k = spec_find_fn(v.fns, fr.func, 0);
        if k < 0 {
            Err(Fault::UnknownFunction(decode_utf8(fr.func)))
        } else {
            let f = v.fns[k];
            if fr.pc >= instr_len(f) {
                Err(pc_fault(fr))
            } else {
                let c = f.instr_start + fr.pc;
                let b = f.code[c];
                match spec_opcode(b) {
                    None => Err(Fault::BadFormat(spec_format_msg(ExobyteFormatError::UnknownOpcode(b)))),
                    Some(op) => if op == Opcode::Call {
                        spec_exec_call(v, f, c + 1)
                    } else if op == Opcode::Ret {
                        spec_exec_ret(v, f, c + 1)
                    } else {
                        match spec_exec_frame(f, fr, op, c + 1) {
                            Err(e) => Err(e),
                            Ok((st, fr2)) => Ok((st, with_top(v, fr2))),
                        }
                    },
                }
            }
        }
    }
}

/// Writing a requested floating-point result into its register.
pub open spec fn spec_complete_float(v: VmView, req: FloatRequest, bits: u64) -> VmView {
    if v.stack.len() == 0 || !req.has_dst {
        v
    } else {
        let fr = v.stack.last();
        with_top(v, moved(fr, spec_write_reg(fr.regs, req.dst as nat, Value::F64(bits)), fr.pc))
    }
}

fn frame_regs_of(args: Vec<Value>) -> (r: Vec<Value>)
    ensures
        r@ == frame_regs(args@),
{
    let mut regs = args;
    if regs.len() >= 16 {
        return regs;
    }
    let ghost base = regs@;
    assert(regs@ =~= base + Seq::new(0, |_i: int| Value::Unit));
    while regs.len() < 16
        invariant
            base.len() <= regs@.len(),
            regs@.len() <= 16,
            regs@ == base + Seq::new((regs@.len() - base.len()) as nat, |_i: int| Value::Unit),
        decreases 16 - regs@.len(),
    {
        regs.push(Value::Unit);
        assert(regs@ =~= base + Seq::new((regs@.len() - base.len()) as nat, |_i: int| Value::Unit));
    }
    regs
}

proof fn lemma_stack_view_push(cs: Seq<Frame>, fr: Frame)
    ensures
        Seq::new(cs.push(fr).len(), |k: int| cs.push(fr)[k]@) =~= Seq::new(cs.len(), |k: int| cs[k]@).push(fr@),
{
}

proof fn lemma_stack_view_pop(cs: Seq<Frame>)
    requires
        cs.len() > 0,
    ensures
        Seq::new(cs.drop_last().len(), |k: int| cs.drop_last()[k]@) =~= Seq::new(cs.len(), |k: int| cs[k]@).drop_last(),
        Seq::new(cs.len(), |k: int| cs[k]@).last() == cs.last()@,
{
}

impl VM {
    /// Enters function `name` with `args`; the result of its return goes to
    /// register `ret` of the current frame, if given.
    pub fn push_frame(&mut self, name: &[u8], args: Vec<Value>, ret: Option<u16>) -> (r: Result<(), RuntimeError>)
        requires
            vm_wf(old(self)@),
            valid_utf8(name@),
        ensures
            vm_wf(final(self)@),
            match spec_push_frame(old(self)@, name@, args@, ret) {
                Ok(v2) => r is Ok && final(self)@ == v2,
                Err(e) => r is Err && r->Err_0@ == e && final(self)@ == old(self)@,
            },
    {
        proof { lemma_find_fn(fns_view(self.functions@), name@, 0); }
        if find_fn(&self.functions, name).is_none() {
            return Err(RuntimeError::UnknownFunction(name_string(name)));
        }
        if self.callstack.len() >= MAX_STACK_DEPTH {
            return Err(RuntimeError::StackOverflow);
        }
        let regs = frame_regs_of(args);
        let func = copy_range(name, 0, name.len());
        assert(func@ =~= name@);
        let fr = Frame { pc: 0, regs, locals: Vec::new(), func, return_dst: ret };
        assert(locals_view(fr.locals@) =~= Seq::<(Seq<u8>, Value)>::empty());
        let ghost cs = self.callstack@;
        self.callstack.push(fr);
        proof {
            lemma_stack_view_push(cs, fr);
        }
        Ok(())
    }
}


/// The machine with `fr` back on top of its stack.
pub open spec fn with_frame(v: VmView, fr: FrameView) -> VmView {
    VmView { fns: v.fns, stack: v.stack.push(fr) }
}

/// A step's result, with the machine left alone on failure.
pub open spec fn step_agrees(r: Result<Step, RuntimeError>, s: Result<(Step, VmView), Fault>, before: VmView, after: VmView) -> bool {
    match s {
        Ok((st, v2)) => r == Ok::<Step, RuntimeError>(st) && after == v2,
        Err(e) => r is Err && r->Err_0@ == e && after == before,
    }
}

impl VM {
    fn exec_ret(&mut self, fr: Frame, k: usize, c: usize) -> (r: Result<Step, RuntimeError>)
        requires
            vm_wf(with_frame(old(self)@, fr@)),
            k < old(self).functions@.len(),
        ensures
            vm_wf(final(self)@),
            step_agrees(r, spec_exec_ret(with_frame(old(self)@, fr@), old(self)@.fns[k as int], c as int),
                with_frame(old(self)@, fr@), final(self)@),
    {
        reveal(spec_exec_ret);
        let ghost full = with_frame(self@, fr@);
        let ghost cs0 = self.callstack@;
        proof {
            lemma_stack_view_push(cs0, fr);
            assert(full.stack.last() == fr@);
        }
        let code = self.functions[k].code.as_slice();
        assert(code@ == full.fns[k as int].code);
        let mut cur = c;
        let h = match take_u8(code, &mut cur) {
            Ok(h) => h,
            Err(e) => {
                self.callstack.push(fr);
                return Err(e);
            },
        };
        let val = if h != 0 {
            let sr = match take16(code, &mut cur) {
                Ok(v) => v,
                Err(e) => {
                    self.callstack.push(fr);
                    return Err(e);
                },
            };
            match get_reg(&fr.regs, sr) {
                Ok(v) => v,
                Err(e) => {
                    self.callstack.push(fr);
                    return Err(e);
                },
            }
        } else {
            Value::Unit
        };
        assert(full.stack.drop_last() =~= self@.stack);
        if self.callstack.len() > 0 {
            match fr.return_dst {
                Some(d) => {
                    let ghost cs1 = self.callstack@;
                    let mut caller = self.callstack.pop().unwrap();
                    proof { lemma_stack_view_pop(cs1); }
                    write_reg(&mut caller.regs, d, val);
                    let ghost cs2 = self.callstack@;
                    self.callstack.push(caller);
                    proof {
                        lemma_stack_view_push(cs2, caller);
                        assert(self@.stack =~= full.stack.drop_last().update(full.stack.drop_last().len() - 1, caller@));
                    }
                },
                None => {},
            }
        }
        Ok(Step::Running)
    }
}


impl VM {
    #[verifier::loop_isolation(false)]
    fn exec_call(&mut self, fr: Frame, k: usize, c: usize) -> (r: Result<Step, RuntimeError>)
        requires
            vm_wf(with_frame(old(self)@, fr@)),
            k < old(self).functions@.len(),
            old(self).functions@[k as int].instr_start <= c,
        ensures
            vm_wf(final(self)@),
            step_agrees(r, spec_exec_call(with_frame(old(self)@, fr@), old(self)@.fns[k as int], c as int),
                with_frame(old(self)@, fr@), final(self)@),
    {
        reveal(spec_exec_call);
        let mut fr = fr;
        let ghost full = with_frame(self@, fr@);
        let ghost cs0 = self.callstack@;
        let ghost fv = full.fns[k as int];
        proof {
            lemma_stack_view_push(cs0, fr);
            assert(full.stack.last() == fr@);
            assert(fn_wf(fv));
        }
        let code = self.functions[k].code.as_slice();
        assert(code@ == fv.code);
        let mut cur = c;
        let h = match take_u8(code, &mut cur) {
            Ok(v) => v,
            Err(e) => {
                self.callstack.push(fr);
                return Err(e);
            },
        };
        let d = match take16(code, &mut cur) {
            Ok(v) => v,
            Err(e) => {
                self.callstack.push(fr);
                return Err(e);
            },
        };
        let sid = match take16(code, &mut cur) {
            Ok(v) => v,
            Err(e) => {
                self.callstack.push(fr);
                return Err(e);
            },
        };
        let argc = match take16(code, &mut cur) {
            Ok(v) => v,
            Err(e) => {
                self.callstack.push(fr);
                return Err(e);
            },
        };
        let sk = match lookup_str(&self.functions[k], sid) {
            Ok(sk) => sk,
            Err(e) => {
                self.callstack.push(fr);
                return Err(e);
            },
        };
        let mut args: Vec<Value> = Vec::new();
        let mut n: u16 = 0;
        assert(args@ =~= Seq::<Value>::empty());
        while n < argc
            invariant
                n <= argc,
                code@ == fv.code,
                self.functions@ == old(self).functions@,
                self.callstack@ == cs0,
                c + 7 <= cur,
                spec_args(fv.code, c + 7, n as nat, fr@.regs) == Ok::<(Seq<Value>, int), Fault>((args@, cur as int)),
            decreases argc - n,
        {
            let reg = match take16(code, &mut cur) {
                Ok(v) => v,
                Err(e) => {
                    proof { lemma_args_err(fv.code, c + 7, (n + 1) as nat, argc as nat, fr@.regs); }
                    self.callstack.push(fr);
                    return Err(e);
                },
            };
            let v = match get_reg(&fr.regs, reg) {
                Ok(v) => v,
                Err(e) => {
                    proof { lemma_args_err(fv.code, c + 7, (n + 1) as nat, argc as nat, fr@.regs); }
                    self.callstack.push(fr);
                    return Err(e);
                },
            };
            args.push(v);
            n = n + 1;
        }
        let callee = copy_range(self.functions[k].strings[sk].as_slice(), 0, self.functions[k].strings[sk].len());
        assert(callee@ =~= fv.strings[sk as int]);
        assert(valid_utf8(callee@));
        let next = cur - self.functions[k].instr_start;
        let ghost v1 = with_top(full, moved(fr@, fr@.regs, next as int));
        match builtin_of(callee.as_slice()) {
            Some((op, arity)) => {
                match builtin_args(callee.as_slice(), arity, &args) {
                    Err(e) => {
                        self.callstack.push(fr);
                        Err(e)
                    },
                    Ok((a, b)) => {
                        fr.pc = next;
                        let ghost cs1 = self.callstack@;
                        self.callstack.push(fr);
                        proof {
                            lemma_stack_view_push(cs1, fr);
                            assert(self@.stack =~= v1.stack);
                        }
                        Ok(Step::Float(FloatRequest { op, lhs: a, rhs: b, has_dst: h != 0, dst: d }))
                    },
                }
            },
            None => {
                proof { lemma_find_fn(full.fns, callee@, 0); }
                if find_fn(&self.functions, callee.as_slice()).is_none() {
                    self.callstack.push(fr);
                    return Err(RuntimeError::UnknownFunction(name_string(callee.as_slice())));
                }
                if self.callstack.len() + 1 >= MAX_STACK_DEPTH {
                    self.callstack.push(fr);
                    return Err(RuntimeError::StackOverflow);
                }
                fr.pc = next;
                let ghost cs1 = self.callstack@;
                self.callstack.push(fr);
                proof {
                    lemma_stack_view_push(cs1, fr);
                    assert(self@.stack =~= v1.stack);
                }
                let ret = if h != 0 { Some(d) } else { None };
                match self.push_frame(callee.as_slice(), args, ret) {
                    Ok(()) => Ok(Step::Running),
                    Err(e) => Err(e),
                }
            },
        }
    }
}


impl VM {
    fn put_back(&mut self, fr: Frame)
        ensures
            final(self)@ == with_frame(old(self)@, fr@),
    {
        let ghost cs = self.callstack@;
        self.callstack.push(fr);
        proof {
            lemma_stack_view_push(cs, fr);
        }
    }

    /// Executes one instruction of the innermost frame.
    #[verifier::rlimit(30)]
    pub fn step(&mut self) -> (r: Result<Step, RuntimeError>)
        requires
            vm_wf(old(self)@),
        ensures
            vm_wf(final(self)@),
            step_agrees(r, spec_step(old(self)@), old(self)@, final(self)@),
    {
        if self.callstack.len() == 0 {
            return Ok(Step::Finished);
        }
        let ghost v0 = self@;
        let ghost cs0 = self.callstack@;
        let mut fr = self.callstack.pop().unwrap();
        proof {
            lemma_stack_view_pop(cs0);
            assert(self@.stack =~= v0.stack.drop_last());
            assert(v0.stack =~= self@.stack.push(fr@));
            assert(v0 == with_frame(self@, fr@));
            lemma_find_fn(v0.fns, fr@.func, 0);
            assert(valid_utf8(v0.stack[v0.stack.len() - 1].func));
        }
        let k = match find_fn(&self.functions, fr.func.as_slice()) {
            Some(k) => k,
            None => {
                let e = RuntimeError::UnknownFunction(name_string(fr.func.as_slice()));
                self.put_back(fr);
                return Err(e);
            },
        };
        let ghost fv = v0.fns[k as int];
        assert(fn_wf(fv));
        assert(fv == self.functions@[k as int].view_fn());
        let start = self.functions[k].instr_start;
        let rel = self.functions[k].code.len() - start;
        if fr.pc >= rel {
            let e = RuntimeError::BadFormat(lit_name_lit_dec("pc out of range in '", fr.func.as_slice(), "': ", fr.pc as u64));
            self.put_back(fr);
            return Err(e);
        }
        let c = start + fr.pc;
        let b = self.functions[k].code[c];
        let op = match Opcode::from_byte(b) {
            Ok(op) => op,
            Err(e) => {
                self.put_back(fr);
                return Err(map_format_err(e));
            },
        };
        if op == Opcode::Call {
            return self.exec_call(fr, k, c + 1);
        }
        if op == Opcode::Ret {
            return self.exec_ret(fr, k, c + 1);
        }
        let r = exec_frame(&self.functions[k], &mut fr, op, c + 1);
        let ghost cs1 = self.callstack@;
        self.callstack.push(fr);
        proof {
            lemma_stack_view_push(cs1, fr);
            assert(self@.stack =~= v0.stack.update(v0.stack.len() - 1, fr@));
            assert(self@.stack =~= v0.stack.drop_last().push(fr@));
        }
        r
    }

    /// Delivers the result of a floating-point request.
    pub fn complete_float(&mut self, req: FloatRequest, bits: u64)
        requires
            vm_wf(old(self)@),
        ensures
            vm_wf(final(self)@),
            final(self)@ == spec_complete_float(old(self)@, req, bits),
    {
        if self.callstack.len() == 0 || !req.has_dst {
            return;
        }
        let ghost cs0 = self.callstack@;
        let mut fr = self.callstack.pop().unwrap();
        proof { lemma_stack_view_pop(cs0); }
        assert(fr@.func == old(self)@.stack.last().func);
        write_reg(&mut fr.regs, req.dst, Value::F64(bits));
        let ghost cs1 = self.callstack@;
        self.callstack.push(fr);
        proof {
            lemma_stack_view_push(cs1, fr);
            assert(self@.stack =~= old(self)@.stack.update(old(self)@.stack.len() - 1, fr@));
        }
    }
}


/// The machine that a container starts as: its functions, and a frame for
/// `entry` with no arguments.
pub open spec fn spec_load(bytes: Seq<u8>, entry: Seq<u8>) -> Result<VmView, Fault> {
    match spec_parse(bytes) {
        Err(f) => Err(spec_parse_fault(f)),
        Ok(fs) => spec_push_frame(VmView { fns: fs, stack: Seq::empty() }, entry, Seq::empty(), None),
    }
}

proof fn lemma_parse_fns_not_header(bytes: Seq<u8>, i: int, acc: Seq<FnView>)
    ensures
        !(spec_parse_fns(bytes, i, acc) matches Err(ParseFail::Header)),
    decreases bytes.len() - i,
{
    if !(i >= bytes.len() || i < 0) && i + 2 <= bytes.len() {
        let name_len = spec_le(bytes, i, 2);
        let j = i + 2;
        if j + name_len <= bytes.len() && valid_utf8(bytes.subrange(j, j + name_len)) {
            let name = bytes.subrange(j, j + name_len);
            let j2 = j + name_len;
            if j2 + 4 <= bytes.len() {
                let code_len = spec_le(bytes, j2, 4);
                let j3 = j2 + 4;
                if j3 + code_len <= bytes.len() {
                    let code = bytes.subrange(j3, j3 + code_len);
                    match crate::exobyte_vm::spec_parse_string_table(code) {
                        Err(e) => {},
                        Ok((ss, start)) => {
                            if spec_find_fn(acc, name, 0) == -1 {
                                lemma_parse_fns_not_header(bytes, j3 + code_len,
                                    acc.push(FnView { name, strings: ss, code, instr_start: start }));
                            }
                        },
                    }
                }
            }
        }
    }
}

/// Loading fails before any instruction runs, in this order: a container
/// shorter than its magic or with an unknown magic is `BadHeader`; a
/// malformed function table is `BadFormat`; a missing entry function is
/// `UnknownFunction`. Otherwise the machine holds the container's functions
/// and one fresh frame for the entry, and nothing has run.
pub proof fn lemma_load_rule(bytes: Seq<u8>, entry: Seq<u8>)
    ensures
        spec_magic(bytes) is None ==> spec_load(bytes, entry) == Err::<VmView, Fault>(Fault::BadHeader),
        spec_magic(bytes) is Some && spec_parse(bytes) is Err ==>
            spec_load(bytes, entry) matches Err(Fault::BadFormat(_)),
        match spec_parse(bytes) {
            Ok(fs) => if spec_find_fn(fs, entry, 0) < 0 {
                spec_load(bytes, entry) == Err::<VmView, Fault>(Fault::UnknownFunction(decode_utf8(entry)))
            } else {
                spec_load(bytes, entry) == Ok::<VmView, Fault>(VmView { fns: fs, stack: seq![new_frame(entry, Seq::empty(), None)] })
            },
            Err(_) => true,
        },
{
    if spec_magic(bytes) is Some {
        lemma_parse_fns_not_header(bytes, 8, Seq::empty());
    }
    assert(Seq::<FrameView>::empty().push(new_frame(entry, Seq::empty(), None)) =~= seq![new_frame(entry, Seq::empty(), None)]);
}

/// A quad value admits truth: `T` or `S`.
pub open spec fn may_be_true(q: QuadVal) -> bool {
    q == QuadVal::T || q == QuadVal::S
}

/// A quad value admits falsity: `F` or `S`.
pub open spec fn may_be_false(q: QuadVal) -> bool {
    q == QuadVal::F || q == QuadVal::S
}

proof fn lemma_impl_bits(x: u8, y: u8)
    by (bit_vector)
    requires
        x < 4,
        y < 4,
    ensures
        ((((x & 2) >> 1) | ((x & 1) << 1)) | y) & 3 == ((((x & 2) >> 1) | ((x & 1) << 1)) | y),
        (((((x & 2) >> 1) | ((x & 1) << 1)) | y) == 2 || ((((x & 2) >> 1) | ((x & 1) << 1)) | y) == 3)
            == ((x == 1 || x == 3) || (y == 2 || y == 3)),
        (((((x & 2) >> 1) | ((x & 1) << 1)) | y) == 1 || ((((x & 2) >> 1) | ((x & 1) << 1)) | y) == 3)
            == ((x == 2 || x == 3) || (y == 1 || y == 3)),
        ((((x & 2) >> 1) | ((x & 1) << 1)) | y) < 4,
        (((x & 2) >> 1) | ((x & 1) << 1)) & 3 == (((x & 2) >> 1) | ((x & 1) << 1)),
        (((x & 2) >> 1) | ((x & 1) << 1)) < 4,
{
}

/// Quad implication `a -> b` admits truth exactly when `a` admits falsity
/// or `b` admits truth, and admits falsity exactly when `a` admits truth
/// or `b` admits falsity (so `T -> F` is `F`, `F -> F` is `T`).
pub proof fn lemma_implication_meaning(a: QuadVal, b: QuadVal)
    ensures
        may_be_true(spec_qor(spec_qnot(a), b)) == (may_be_false(a) || may_be_true(b)),
        may_be_false(spec_qor(spec_qnot(a), b)) == (may_be_true(a) || may_be_false(b)),
{
    let x = quad_code(a);
    let y = quad_code(b);
    lemma_impl_bits(x, y);
    let sw = swap_bits(x);
    assert(quad_code(quad_of(sw)) == sw);
    let z = sw | y;
    assert(spec_qor(spec_qnot(a), b) == quad_of(z));
    assert(may_be_true(quad_of(z)) == (z == 2 || z == 3));
    assert(may_be_false(quad_of(z)) == (z == 1 || z == 3));
}

/// What `Q_IMPL d, l, r` does: when registers `l` and `r` hold quads `a`
/// and `b`, it writes into register `d` the quad that admits truth exactly
/// when `a` admits falsity or `b` admits truth, and falsity exactly when
/// `a` admits truth or `b` admits falsity, and moves to the next
/// instruction. It agrees with `Q_NOT` followed by `Q_OR`.
pub proof fn lemma_q_impl(f: FnView, fr: FrameView, c: int, d: nat, l: nat, r: nat, a: QuadVal, b: QuadVal)
    requires
        rd3(f.code, c) == Some((d, l, r)),
        spec_get_reg(fr.regs, l) == Ok::<Value, Fault>(Value::Quad(a)),
        spec_get_reg(fr.regs, r) == Ok::<Value, Fault>(Value::Quad(b)),
    ensures
        exists|x: QuadVal| {
            &&& spec_exec_logic(f, fr, Opcode::QImpl, c)
                == Ok::<(Step, FrameView), Fault>((Step::Running, moved(fr, spec_write_reg(fr.regs, d, Value::Quad(x)), c + 6 - f.instr_start)))
            &&& may_be_true(x) == (may_be_false(a) || may_be_true(b))
            &&& may_be_false(x) == (may_be_true(a) || may_be_false(b))
        },
        exists|n: QuadVal| {
            &&& spec_qnot(a) == n
            &&& spec_exec_logic(f, fr, Opcode::QImpl, c)
                == Ok::<(Step, FrameView), Fault>((Step::Running, moved(fr, spec_write_reg(fr.regs, d, Value::Quad(spec_qor(n, b))), c + 6 - f.instr_start)))
        },
{
    lemma_implication_meaning(a, b);
    let x = spec_qor(spec_qnot(a), b);
    assert(spec_exec_logic(f, fr, Opcode::QImpl, c)
        == Ok::<(Step, FrameView), Fault>((Step::Running, moved(fr, spec_write_reg(fr.regs, d, Value::Quad(x)), c + 6 - f.instr_start))));
}

proof fn lemma_and_or_bits(x: u8, y: u8)
    by (bit_vector)
    requires
        x < 4,
        y < 4,
    ensures
        (x & y) < 4, (x & y) & 3 == (x & y), (x | y) < 4, (x | y) & 3 == (x | y),
        ((x & y) == 2 || (x & y) == 3) == ((x == 2 || x == 3) && (y == 2 || y == 3)),
        ((x & y) == 1 || (x & y) == 3) == ((x == 1 || x == 3) && (y == 1 || y == 3)),
        ((x | y) == 2 || (x | y) == 3) == ((x == 2 || x == 3) || (y == 2 || y == 3)),
        ((x | y) == 1 || (x | y) == 3) == ((x == 1 || x == 3) || (y == 1 || y == 3)),
        ((((x & 2) >> 1) | ((x & 1) << 1)) == 2 || (((x & 2) >> 1) | ((x & 1) << 1)) == 3) == (x == 1 || x == 3),
        ((((x & 2) >> 1) | ((x & 1) << 1)) == 1 || (((x & 2) >> 1) | ((x & 1) << 1)) == 3) == (x == 2 || x == 3),
        (((x & 2) >> 1) | ((x & 1) << 1)) & 3 == (((x & 2) >> 1) | ((x & 1) << 1)),
        (((x & 2) >> 1) | ((x & 1) << 1)) < 4,
{
}

/// The meaning of the quad connectives: conjunction admits truth when both
/// sides do and falsity when both sides do; disjunction admits each when
/// either side does; negation exchanges truth and falsity.
pub proof fn lemma_connective_meaning(a: QuadVal, b: QuadVal)
    ensures
        may_be_true(spec_qand(a, b)) == (may_be_true(a) && may_be_true(b)),
        may_be_false(spec_qand(a, b)) == (may_be_false(a) && may_be_false(b)),
        may_be_true(spec_qor(a, b)) == (may_be_true(a) || may_be_true(b)),
        may_be_false(spec_qor(a, b)) == (may_be_false(a) || may_be_false(b)),
        may_be_true(spec_qnot(a)) == may_be_false(a),
        may_be_false(spec_qnot(a)) == may_be_true(a),
{
    let x = quad_code(a);
    let y = quad_code(b);
    lemma_and_or_bits(x, y);
    let z1 = x & y;
    let z2 = x | y;
    let z3 = swap_bits(x);
    assert(may_be_true(quad_of(z1)) == (z1 == 2 || z1 == 3) && may_be_false(quad_of(z1)) == (z1 == 1 || z1 == 3));
    assert(may_be_true(quad_of(z2)) == (z2 == 2 || z2 == 3) && may_be_false(quad_of(z2)) == (z2 == 1 || z2 == 3));
    assert(may_be_true(quad_of(z3)) == (z3 == 2 || z3 == 3) && may_be_false(quad_of(z3)) == (z3 == 1 || z3 == 3));
}

/// What `Q_AND` and `Q_OR` with operands `d, l, r` do: read the left
/// quad from register `l` and the right one from `r`, write into `d` the
/// quad their meaning gives, and move to the next instruction.
pub proof fn lemma_quad_connectives(f: FnView, fr: FrameView, c: int, d: nat, l: nat, r: nat, qa: QuadVal, qb: QuadVal)
    requires
        rd3(f.code, c) == Some((d, l, r)),
        spec_get_reg(fr.regs, l) == Ok::<Value, Fault>(Value::Quad(qa)),
        spec_get_reg(fr.regs, r) == Ok::<Value, Fault>(Value::Quad(qb)),
    ensures
        exists|x: QuadVal| {
            &&& spec_exec_logic(f, fr, Opcode::QAnd, c)
                == Ok::<(Step, FrameView), Fault>((Step::Running, moved(fr, spec_write_reg(fr.regs, d, Value::Quad(x)), c + 6 - f.instr_start)))
            &&& may_be_true(x) == (may_be_true(qa) && may_be_true(qb))
            &&& may_be_false(x) == (may_be_false(qa) && may_be_false(qb))
        },
        exists|x: QuadVal| {
            &&& spec_exec_logic(f, fr, Opcode::QOr, c)
                == Ok::<(Step, FrameView), Fault>((Step::Running, moved(fr, spec_write_reg(fr.regs, d, Value::Quad(x)), c + 6 - f.instr_start)))
            &&& may_be_true(x) == (may_be_true(qa) || may_be_true(qb))
            &&& may_be_false(x) == (may_be_false(qa) || may_be_false(qb))
        },
{
    lemma_connective_meaning(qa, qb);
    let x1 = spec_qand(qa, qb);
    let x2 = spec_qor(qa, qb);
    assert(spec_exec_logic(f, fr, Opcode::QAnd, c)
        == Ok::<(Step, FrameView), Fault>((Step::Running, moved(fr, spec_write_reg(fr.regs, d, Value::Quad(x1)), c + 6 - f.instr_start))));
    assert(spec_exec_logic(f, fr, Opcode::QOr, c)
        == Ok::<(Step, FrameView), Fault>((Step::Running, moved(fr, spec_write_reg(fr.regs, d, Value::Quad(x2)), c + 6 - f.instr_start))));
}

/// What `BOOL_AND` and `BOOL_OR` with operands `d, l, r` do: write the
/// conjunction (or disjunction) of the booleans in `l` and `r` into `d`.
pub proof fn lemma_bool_connectives(f: FnView, fr: FrameView, c: int, d: nat, l: nat, r: nat, ba: bool, bb: bool)
    requires
        rd3(f.code, c) == Some((d, l, r)),
        spec_get_reg(fr.regs, l) == Ok::<Value, Fault>(Value::Bool(ba)),
        spec_get_reg(fr.regs, r) == Ok::<Value, Fault>(Value::Bool(bb)),
    ensures
        spec_exec_logic(f, fr, Opcode::BoolAnd, c)
            == Ok::<(Step, FrameView), Fault>((Step::Running, moved(fr, spec_write_reg(fr.regs, d, Value::Bool(ba && bb)), c + 6 - f.instr_start))),
        spec_exec_logic(f, fr, Opcode::BoolOr, c)
            == Ok::<(Step, FrameView), Fault>((Step::Running, moved(fr, spec_write_reg(fr.regs, d, Value::Bool(ba || bb)), c + 6 - f.instr_start))),
{
}

/// Parses a container and enters its function `entry`.
pub fn load_exobyte(bytes: &[u8], entry: &str) -> (r: Result<VM, RuntimeError>)
    ensures
        match spec_load(bytes@, encode_utf8(entry@)) {
            Ok(v) => r is Ok && r->Ok_0@ == v && vm_wf(v),
            Err(e) => r is Err && r->Err_0@ == e,
        },
{
    let parsed = match parse_exobyte(bytes) {
        Ok(p) => p,
        Err(e) => return Err(e),
    };
    proof {
        lemma_parse_wf(bytes@);
    }
    let mut vm = VM { functions: parsed.functions, callstack: Vec::new() };
    assert(vm@.stack =~= Seq::<FrameView>::empty());
    proof {
        encode_utf8_valid_utf8(entry@);
    }
    match vm.push_frame(entry.as_bytes(), Vec::new(), None) {
        Ok(()) => Ok(vm),
        Err(e) => Err(e),
    }
}

} // verus!

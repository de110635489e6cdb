//! Disassembling EXObyte: one line per instruction, functions in name order.
//! The operand of `LOAD_F64` is a double whose decimal rendering is left to
//! the caller: such a line carries the double's bit pattern.
use vstd::prelude::*;
use vstd::utf8::{valid_utf8, decode_utf8, encode_utf8};
use crate::text::{
    spec_dec, spec_idec, spec_hex4, push_lit, push_name, push_num, push_inum, push_hex4_num,
    bytes_to_string, lemma_empty_valid, is_ascii_bytes, lemma_ascii_valid,
};
use crate::exobyte_format::{ExobyteFormatError, Opcode, spec_opcode};
use crate::exobyte_vm::{parse_exobyte, spec_parse, spec_parse_fault, spec_magic, lemma_parse_wf, RuntimeError, Fault, FunctionBytecode, FnView, fns_view, fn_wf, fns_wf, spec_format_msg, map_format_err};
use crate::exobyte_exec::{rd8, rd, rd3, eof, agrees, take16, take32, takei32, take64};

verus! {

/// A line of disassembly: its text, then, for `LOAD_F64`, the double to be
/// rendered after it.
pub struct DisasmLine {
    pub text: String,
    pub float_bits: Option<u64>,
}

impl View for DisasmLine {
    type V = (Seq<char>, Option<u64>);

    open spec fn view(&self) -> (Seq<char>, Option<u64>) {
        (self.text@, self.float_bits)
    }
}

pub open spec fn lit(s: Seq<char>) -> Seq<u8> {
    encode_utf8(s)
}

/// The mnemonic of a three-register or two-register instruction.
pub open spec fn mnemonic(op: Opcode) -> Seq<char> {
    match op {
        Opcode::QAnd => "Q_AND"@,
        Opcode::QOr => "Q_OR"@,
        Opcode::QImpl => "Q_IMPL"@,
        Opcode::BoolAnd => "BOOL_AND"@,
        Opcode::BoolOr => "BOOL_OR"@,
        Opcode::CmpEq => "CMP_EQ"@,
        Opcode::CmpNe => "CMP_NE"@,
        Opcode::AddF64 => "ADD_F64"@,
        Opcode::SubF64 => "SUB_F64"@,
        Opcode::MulF64 => "MUL_F64"@,
        Opcode::QNot => "Q_NOT"@,
        Opcode::BoolNot => "BOOL_NOT"@,
        _ => "DIV_F64"@,
    }
}

fn mnemonic_of(op: Opcode) -> (r: &'static str)
    ensures
        r@ == mnemonic(op),
{
    match op {
        Opcode::QAnd => "Q_AND",
        Opcode::QOr => "Q_OR",
        Opcode::QImpl => "Q_IMPL",
        Opcode::BoolAnd => "BOOL_AND",
        Opcode::BoolOr => "BOOL_OR",
        Opcode::CmpEq => "CMP_EQ",
        Opcode::CmpNe => "CMP_NE",
        Opcode::AddF64 => "ADD_F64",
        Opcode::SubF64 => "SUB_F64",
        Opcode::MulF64 => "MUL_F64",
        Opcode::QNot => "Q_NOT",
        Opcode::BoolNot => "BOOL_NOT",
        _ => "DIV_F64",
    }
}

/// The text of the instruction whose operands start at `c`, the double it
/// loads if any, and the position of the next instruction relative to the
/// first.
#[verifier::opaque]
pub open spec fn spec_disasm_op(f: FnView, op: Opcode, c: int) -> Result<(Seq<u8>, Option<u64>, int), Fault> {
    let code = f.code;
    let st = f.instr_start;
    match op {
        Opcode::LoadQ | Opcode::LoadBool => match (rd(code, c, 2), rd8(code, c + 2)) {
            (Some(d), Some(q)) => Ok((
                lit(if op == Opcode::LoadQ { "LOAD_Q r"@ } else { "LOAD_BOOL r"@ }) + spec_dec(d) + lit(", "@) + spec_dec(q),
                None,
                c + 3 - st,
            )),
            _ => Err(eof()),
        },
        Opcode::LoadI32 => match (rd(code, c, 2), rd(code, c + 2, 4)) {
            (Some(d), Some(x)) => Ok((lit("LOAD_I32 r"@) + spec_dec(d) + lit(", "@) + spec_idec((x as u32 as i32) as int), None, c + 6 - st)),
            _ => Err(eof()),
        },
        Opcode::LoadF64 => match (rd(code, c, 2), rd(code, c + 2, 8)) {
            (Some(d), Some(x)) => Ok((lit("LOAD_F64 r"@) + spec_dec(d) + lit(", "@), Some(x as u64), c + 10 - st)),
            _ => Err(eof()),
        },
        Opcode::LoadVar => match (rd(code, c, 2), rd(code, c + 2, 2)) {
            (Some(d), Some(sid)) => Ok((lit("LOAD_VAR r"@) + spec_dec(d) + lit(", s"@) + spec_dec(sid), None, c + 4 - st)),
            _ => Err(eof()),
        },
        Opcode::StoreVar => match (rd(code, c, 2), rd(code, c + 2, 2)) {
            (Some(sid), Some(r)) => Ok((lit("STORE_VAR s"@) + spec_dec(sid) + lit(", r"@) + spec_dec(r), None, c + 4 - st)),
            _ => Err(eof()),
        },
        Opcode::QNot | Opcode::BoolNot => match (rd(code, c, 2), rd(code, c + 2, 2)) {
            (Some(d), Some(r)) => Ok((lit(mnemonic(op)) + lit(" r"@) + spec_dec(d) + lit(", r"@) + spec_dec(r), None, c + 4 - st)),
            _ => Err(eof()),
        },
        Opcode::Jmp => match rd(code, c, 4) {
            Some(a) => Ok((lit("JMP "@) + spec_dec(a), None, c + 4 - st)),
            None => Err(eof()),
        },
        Opcode::JmpIf => match (rd(code, c, 2), rd(code, c + 2, 4)) {
            (Some(cond), Some(a)) => Ok((lit("JMP_IF r"@) + spec_dec(cond) + lit(", "@) + spec_dec(a), None, c + 6 - st)),
            _ => Err(eof()),
        },
        Opcode::Call => match (rd8(code, c), rd(code, c + 1, 2), rd(code, c + 3, 2), rd(code, c + 5, 2)) {
            (Some(h), Some(d), Some(n), Some(argc)) => if c + 7 + 2 * argc <= code.len() {
                Ok((
                    lit("CALL dst?"@) + spec_dec(h) + lit(" r"@) + spec_dec(d) + lit(" fn#"@) + spec_dec(n) + lit(" argc="@) + spec_dec(argc),
                    None,
                    c + 7 + 2 * argc - st,
                ))
            } else {
                Err(eof())
            },
            _ => Err(eof()),
        },
        Opcode::Ret => match rd8(code, c) {
            None => Err(eof()),
            Some(h) => if h != 0 {
                match rd(code, c + 1, 2) {
                    Some(r) => Ok((lit("RET r"@) + spec_dec(r), None, c + 3 - st)),
                    None => Err(eof()),
                }
            } else {
                Ok((lit("RET"@), None, c + 1 - st))
            },
        },
        _ => match rd3(code, c) {
            Some((d, l, r)) => Ok((
                lit(mnemonic(op)) + lit(" r"@) + spec_dec(d) + lit(", r"@) + spec_dec(l) + lit(", r"@) + spec_dec(r),
                None,
                c + 6 - st,
            )),
            None => Err(eof()),
        },
    }
}

/// The instruction at relative position `pc`.
pub open spec fn spec_disasm_one(f: FnView, pc: int) -> Result<(Seq<u8>, Option<u64>, int), Fault> {
    let c = f.instr_start + pc;
    match rd8(f.code, c) {
        None => Err(eof()),
        Some(b) => match spec_opcode(b as u8) {
            None => Err(Fault::BadFormat(spec_format_msg(ExobyteFormatError::UnknownOpcode(b as u8)))),
            Some(op) => spec_disasm_op(f, op, c + 1),
        },
    }
}


fn take8(code: &[u8], cur: &mut usize) -> (r: Result<u8, RuntimeError>)
    ensures
        match rd8(code@, *old(cur) as int) {
            Some(x) => r == Ok::<u8, RuntimeError>(x as u8) && *final(cur) == *old(cur) + 1,
            None => r is Err && r->Err_0@ == eof(),
        },
{
    if *cur < code.len() {
        let v = code[*cur];
        *cur = *cur + 1;
        Ok(v)
    } else {
        Err(map_format_err(ExobyteFormatError::UnexpectedEof))
    }
}

/// The executable result agrees with the specification of an instruction's
/// text.
pub open spec fn dis_agrees(r: Result<(Vec<u8>, Option<u64>, usize), RuntimeError>, s: Result<(Seq<u8>, Option<u64>, int), Fault>) -> bool {
    match s {
        Ok((t, fl, next)) => r matches Ok((b, fl2, n)) && b@ == t && valid_utf8(b@) && fl2 == fl && n == next,
        Err(e) => r is Err && r->Err_0@ == e,
    }
}

fn dis_load(f: &FunctionBytecode, op: Opcode, c: usize) -> (r: Result<(Vec<u8>, Option<u64>, usize), RuntimeError>)
    requires
        op is LoadQ || op is LoadBool || op is LoadI32 || op is LoadF64,
        f.instr_start <= c,
    ensures
        dis_agrees(r, spec_disasm_op(f.view_fn(), op, c as int)),
{
    reveal(spec_disasm_op);
    let code = f.code.as_slice();
    let mut cur = c;
    let mut t: Vec<u8> = Vec::new();
    proof { lemma_empty_valid(); }
    assert(t@ =~= Seq::<u8>::empty());
    let mut fl: Option<u64> = None;
    let d = match take16(code, &mut cur) { Ok(v) => v, Err(e) => return Err(e) };
    if op == Opcode::LoadQ || op == Opcode::LoadBool {
        let q = match take8(code, &mut cur) { Ok(v) => v, Err(e) => return Err(e) };
        push_lit(&mut t, if op == Opcode::LoadQ { "LOAD_Q r" } else { "LOAD_BOOL r" });
        push_num(&mut t, d as u64);
        push_lit(&mut t, ", ");
        push_num(&mut t, q as u64);
    } else if op == Opcode::LoadI32 {
        let x = match takei32(code, &mut cur) { Ok(v) => v, Err(e) => return Err(e) };
        push_lit(&mut t, "LOAD_I32 r");
        push_num(&mut t, d as u64);
        push_lit(&mut t, ", ");
        push_inum(&mut t, x);
    } else {
        let x = match take64(code, &mut cur) { Ok(v) => v, Err(e) => return Err(e) };
        push_lit(&mut t, "LOAD_F64 r");
        push_num(&mut t, d as u64);
        push_lit(&mut t, ", ");
        fl = Some(x);
    }
    Ok((t, fl, cur - f.instr_start))
}

fn dis_two(f: &FunctionBytecode, op: Opcode, c: usize) -> (r: Result<(Vec<u8>, Option<u64>, usize), RuntimeError>)
    requires
        op is LoadVar || op is StoreVar || op is QNot || op is BoolNot || op is JmpIf || op is Jmp,
        f.instr_start <= c,
    ensures
        dis_agrees(r, spec_disasm_op(f.view_fn(), op, c as int)),
{
    reveal(spec_disasm_op);
    let code = f.code.as_slice();
    let mut cur = c;
    let mut t: Vec<u8> = Vec::new();
    proof { lemma_empty_valid(); }
    assert(t@ =~= Seq::<u8>::empty());
    if op == Opcode::Jmp {
        let x = match take32(code, &mut cur) { Ok(v) => v, Err(e) => return Err(e) };
        push_lit(&mut t, "JMP ");
        push_num(&mut t, x as u64);
        return Ok((t, None, cur - f.instr_start));
    }
    let a = match take16(code, &mut cur) { Ok(v) => v, Err(e) => return Err(e) };
    if op == Opcode::JmpIf {
        let x = match take32(code, &mut cur) { Ok(v) => v, Err(e) => return Err(e) };
        push_lit(&mut t, "JMP_IF r");
        push_num(&mut t, a as u64);
        push_lit(&mut t, ", ");
        push_num(&mut t, x as u64);
    } else {
        let x = match take16(code, &mut cur) { Ok(v) => v, Err(e) => return Err(e) };
        if op == Opcode::LoadVar {
            push_lit(&mut t, "LOAD_VAR r");
            push_num(&mut t, a as u64);
            push_lit(&mut t, ", s");
        } else if op == Opcode::StoreVar {
            push_lit(&mut t, "STORE_VAR s");
            push_num(&mut t, a as u64);
            push_lit(&mut t, ", r");
        } else {
            push_lit(&mut t, mnemonic_of(op));
            push_lit(&mut t, " r");
            push_num(&mut t, a as u64);
            push_lit(&mut t, ", r");
        }
        push_num(&mut t, x as u64);
    }
    Ok((t, None, cur - f.instr_start))
}

fn dis_three(f: &FunctionBytecode, op: Opcode, c: usize) -> (r: Result<(Vec<u8>, Option<u64>, usize), RuntimeError>)
    requires
        op is QAnd || op is QOr || op is QImpl || op is BoolAnd || op is BoolOr || op is CmpEq || op is CmpNe
            || op is AddF64 || op is SubF64 || op is MulF64 || op is DivF64,
        f.instr_start <= c,
    ensures
        dis_agrees(r, spec_disasm_op(f.view_fn(), op, c as int)),
{
    reveal(spec_disasm_op);
    let code = f.code.as_slice();
    let mut cur = c;
    let mut t: Vec<u8> = Vec::new();
    proof { lemma_empty_valid(); }
    assert(t@ =~= Seq::<u8>::empty());
    let d = match take16(code, &mut cur) { Ok(v) => v, Err(e) => return Err(e) };
    let l = match take16(code, &mut cur) { Ok(v) => v, Err(e) => return Err(e) };
    let x = match take16(code, &mut cur) { Ok(v) => v, Err(e) => return Err(e) };
    push_lit(&mut t, mnemonic_of(op));
    push_lit(&mut t, " r");
    push_num(&mut t, d as u64);
    push_lit(&mut t, ", r");
    push_num(&mut t, l as u64);
    push_lit(&mut t, ", r");
    push_num(&mut t, x as u64);
    Ok((t, None, cur - f.instr_start))
}

fn dis_ret(f: &FunctionBytecode, c: usize) -> (r: Result<(Vec<u8>, Option<u64>, usize), RuntimeError>)
    requires
        f.instr_start <= c,
    ensures
        dis_agrees(r, spec_disasm_op(f.view_fn(), Opcode::Ret, c as int)),
{
    reveal(spec_disasm_op);
    let code = f.code.as_slice();
    let mut cur = c;
    let mut t: Vec<u8> = Vec::new();
    proof { lemma_empty_valid(); }
    assert(t@ =~= Seq::<u8>::empty());
    let h = match take8(code, &mut cur) { Ok(v) => v, Err(e) => return Err(e) };
    if h != 0 {
        let x = match take16(code, &mut cur) { Ok(v) => v, Err(e) => return Err(e) };
        push_lit(&mut t, "RET r");
        push_num(&mut t, x as u64);
    } else {
        push_lit(&mut t, "RET");
    }
    Ok((t, None, cur - f.instr_start))
}

/// Moves past `n` register operands, if they are all there.
fn skip_regs(code: &[u8], cur: &mut usize, n: u16) -> (ok: bool)
    ensures
        ok == (*old(cur) + 2 * n <= code@.len()),
        ok ==> *final(cur) == *old(cur) + 2 * n,
{
    if *cur > code.len() {
        return false;
    }
    let mut i: u16 = 0;
    while i < n
        invariant
            i <= n,
            *cur == *old(cur) + 2 * i,
            *cur <= code@.len(),
        decreases n - i,
    {
        if code.len() - *cur < 2 {
            return false;
        }
        *cur = *cur + 2;
        i = i + 1;
    }
    true
}

fn dis_call(f: &FunctionBytecode, c: usize) -> (r: Result<(Vec<u8>, Option<u64>, usize), RuntimeError>)
    requires
        f.instr_start <= c,
    ensures
        dis_agrees(r, spec_disasm_op(f.view_fn(), Opcode::Call, c as int)),
{
    reveal(spec_disasm_op);
    let code = f.code.as_slice();
    let mut cur = c;
    let h = match take8(code, &mut cur) { Ok(v) => v, Err(e) => return Err(e) };
    let d = match take16(code, &mut cur) { Ok(v) => v, Err(e) => return Err(e) };
    let n = match take16(code, &mut cur) { Ok(v) => v, Err(e) => return Err(e) };
    let argc = match take16(code, &mut cur) { Ok(v) => v, Err(e) => return Err(e) };
    if !skip_regs(code, &mut cur, argc) {
        return Err(map_format_err(ExobyteFormatError::UnexpectedEof));
    }
    let mut t: Vec<u8> = Vec::new();
    proof { lemma_empty_valid(); }
    assert(t@ =~= Seq::<u8>::empty());
    push_lit(&mut t, "CALL dst?");
    push_num(&mut t, h as u64);
    push_lit(&mut t, " r");
    push_num(&mut t, d as u64);
    push_lit(&mut t, " fn#");
    push_num(&mut t, n as u64);
    push_lit(&mut t, " argc=");
    push_num(&mut t, argc as u64);
    Ok((t, None, cur - f.instr_start))
}

fn disasm_one_bytes(f: &FunctionBytecode, pc: usize) -> (r: Result<(Vec<u8>, Option<u64>, usize), RuntimeError>)
    requires
        fn_wf(f.view_fn()),
        pc < f.code@.len() - f.instr_start,
    ensures
        dis_agrees(r, spec_disasm_one(f.view_fn(), pc as int)),
{
    let len = f.code.len();
    let c = f.instr_start + pc;
    let b = f.code[c];
    let op = match Opcode::from_byte(b) {
        Ok(op) => op,
        Err(e) => return Err(map_format_err(e)),
    };
    match op {
        Opcode::LoadQ | Opcode::LoadBool | Opcode::LoadI32 | Opcode::LoadF64 => dis_load(f, op, c + 1),
        Opcode::LoadVar | Opcode::StoreVar | Opcode::QNot | Opcode::BoolNot | Opcode::JmpIf | Opcode::Jmp => dis_two(f, op, c + 1),
        Opcode::Call => dis_call(f, c + 1),
        Opcode::Ret => dis_ret(f, c + 1),
        _ => dis_three(f, op, c + 1),
    }
}

/// Disassembles the instruction at `pc`, relative to the first instruction:
/// its line and the position of the next one.
pub fn disasm_one(f: &FunctionBytecode, pc: usize) -> (r: Result<(DisasmLine, usize), RuntimeError>)
    requires
        fn_wf(f.view_fn()),
        pc < f.code@.len() - f.instr_start,
    ensures
        match spec_disasm_one(f.view_fn(), pc as int) {
            Ok((t, fl, next)) => r matches Ok((line, n)) && line.text@ == decode_utf8(t) && line.float_bits == fl
                && n == next,
            Err(e) => r is Err && r->Err_0@ == e,
        },
{
    match disasm_one_bytes(f, pc) {
        Ok((t, fl, next)) => Ok((DisasmLine { text: bytes_to_string(t.as_slice()), float_bits: fl }, next)),
        Err(e) => Err(e),
    }
}

/// Byte-wise lexicographic order, shorter prefix first: the order of
/// strings.
pub open spec fn lex_lt(a: Seq<u8>, b: Seq<u8>) -> bool
    decreases a.len(),
{
    if a.len() == 0 {
        b.len() > 0
    } else if b.len() == 0 {
        false
    } else if a[0] != b[0] {
        a[0] < b[0]
    } else {
        lex_lt(a.drop_first(), b.drop_first())
    }
}

/// Of two different byte strings, one comes before the other.
pub proof fn lemma_lex_total(a: Seq<u8>, b: Seq<u8>)
    requires
        a != b,
    ensures
        lex_lt(a, b) || lex_lt(b, a),
    decreases a.len(),
{
    if a.len() > 0 && b.len() > 0 && a[0] == b[0] {
        if a.drop_first() == b.drop_first() {
            assert(a =~= seq![a[0]] + a.drop_first());
            assert(b =~= seq![b[0]] + b.drop_first());
        }
        lemma_lex_total(a.drop_first(), b.drop_first());
    } else if a.len() == 0 && b.len() == 0 {
        assert(a =~= b);
    }
}

/// Whether `a` comes before `b` in byte-wise lexicographic order.
pub fn bytes_lt(a: &[u8], b: &[u8]) -> (r: bool)
    ensures
        r == lex_lt(a@, b@),
{
    let mut i: usize = 0;
    assert(a@.skip(0) =~= a@ && b@.skip(0) =~= b@);
    while i < a.len() && i < b.len()
        invariant
            i <= a@.len(),
            i <= b@.len(),
            lex_lt(a@, b@) == lex_lt(a@.skip(i as int), b@.skip(i as int)),
        decreases a.len() - i,
    {
        if a[i] != b[i] {
            return a[i] < b[i];
        }
        assert(a@.skip(i as int).drop_first() =~= a@.skip(i + 1));
        assert(b@.skip(i as int).drop_first() =~= b@.skip(i + 1));
        i += 1;
    }
    i == a.len() && i < b.len()
}

/// `order` lists every function exactly once, in increasing name order.
#[verifier::opaque]
pub open spec fn is_name_order(fs: Seq<FnView>, order: Seq<int>) -> bool {
    &&& order.len() == fs.len()
    &&& forall|i: int| 0 <= i < order.len() ==> 0 <= #[trigger] order[i] < fs.len()
    &&& forall|i: int, j: int| 0 <= i < order.len() && 0 <= j < order.len() && i != j ==> #[trigger] order[i] != #[trigger] order[j]
    &&& forall|i: int| 0 <= i < order.len() - 1 ==> lex_lt(fs[#[trigger] order[i]].name, fs[order[i + 1]].name)
}

pub open spec fn order_view(o: Seq<usize>) -> Seq<int> {
    Seq::new(o.len(), |i: int| o[i] as int)
}

/// Indices of the functions in increasing name order.
fn name_order(fs: &Vec<FunctionBytecode>) -> (order: Vec<usize>)
    requires
        crate::exobyte_vm::names_unique(fns_view(fs@)),
    ensures
        is_name_order(fns_view(fs@), order_view(order@)),
{
    reveal(is_name_order);
    let ghost fv = fns_view(fs@);
    let mut order: Vec<usize> = Vec::new();
    let mut k: usize = 0;
    while k < fs.len()
        invariant
            k <= fs@.len(),
            fv == fns_view(fs@),
            crate::exobyte_vm::names_unique(fv),
            order@.len() == k,
            forall|i: int| 0 <= i < order@.len() ==> #[trigger] order@[i] < k,
            forall|i: int, j: int| 0 <= i < order@.len() && 0 <= j < order@.len() && i != j ==> #[trigger] order@[i] != #[trigger] order@[j],
            forall|i: int| 0 <= i < order@.len() - 1 ==> lex_lt(fv[#[trigger] order@[i] as int].name, fv[order@[i + 1] as int].name),
        decreases fs.len() - k,
    {
        let mut p: usize = 0;
        while p < order.len() && !bytes_lt(fs[k].name.as_slice(), fs[order[p]].name.as_slice())
            invariant
                p <= order@.len(),
                k < fs@.len(),
                forall|i: int| 0 <= i < order@.len() ==> #[trigger] order@[i] < k,
                forall|q: int| 0 <= q < p ==> !lex_lt(fv[k as int].name, fv[#[trigger] order@[q] as int].name),
                fv == fns_view(fs@),
            decreases order@.len() - p,
        {
            assert(fs@[order@[p as int] as int].name@ == fv[order@[p as int] as int].name);
            p += 1;
        }
        proof {
            assert(fs@[k as int].name@ == fv[k as int].name);
            if p < order@.len() {
                assert(fs@[order@[p as int] as int].name@ == fv[order@[p as int] as int].name);
            }
            if p > 0 {
                let prev = order@[p - 1] as int;
                assert(prev != k);
                assert(fv[prev].name != fv[k as int].name);
                lemma_lex_total(fv[prev].name, fv[k as int].name);
            }
        }
        let ghost old_order = order@;
        order.insert(p, k);
        proof {
            assert forall|i: int| 0 <= i < order@.len() - 1 implies lex_lt(fv[#[trigger] order@[i] as int].name, fv[order@[i + 1] as int].name) by {
                if i < p as int - 1 {
                    assert(order@[i] == old_order[i] && order@[i + 1] == old_order[i + 1]);
                } else if i == p as int - 1 {
                    assert(order@[i] == old_order[i] && order@[i + 1] == k);
                } else if i == p as int {
                    assert(order@[i] == k && order@[i + 1] == old_order[i]);
                } else {
                    assert(order@[i] == old_order[i - 1] && order@[i + 1] == old_order[i]);
                }
            }
            assert forall|i: int, j: int| 0 <= i < order@.len() && 0 <= j < order@.len() && i != j implies #[trigger] order@[i] != #[trigger] order@[j] by {
                let oi = if i < p { i } else if i == p { -1 } else { i - 1 };
                let oj = if j < p { j } else if j == p { -1 } else { j - 1 };
                if oi >= 0 && oj >= 0 {
                    assert(order@[i] == old_order[oi] && order@[j] == old_order[oj]);
                } else if oi >= 0 {
                    assert(order@[i] == old_order[oi]);
                } else if oj >= 0 {
                    assert(order@[j] == old_order[oj]);
                }
            }
            assert forall|i: int| 0 <= i < order@.len() implies #[trigger] order@[i] < k + 1 by {
                if i < p {
                    assert(order@[i] == old_order[i]);
                } else if i > p {
                    assert(order@[i] == old_order[i - 1]);
                }
            }
        }
        k += 1;
    }
    proof {
        let ov = order_view(order@);
        assert forall|i: int| 0 <= i < ov.len() - 1 implies lex_lt(fv[#[trigger] ov[i]].name, fv[ov[i + 1]].name) by {
            assert(ov[i] == order@[i] as int && ov[i + 1] == order@[i + 1] as int);
        }
        assert forall|i: int, j: int| 0 <= i < ov.len() && 0 <= j < ov.len() && i != j implies #[trigger] ov[i] != #[trigger] ov[j] by {
            assert(ov[i] == order@[i] as int && ov[j] == order@[j] as int);
        }
    }
    order
}


/// Each instruction moves past its opcode.
pub proof fn lemma_disasm_advances(f: FnView, pc: int)
    requires
        spec_disasm_one(f, pc) is Ok,
        0 <= f.instr_start <= f.code.len(),
    ensures
        pc < spec_disasm_one(f, pc)->Ok_0.2 <= f.code.len() - f.instr_start,
{
    reveal(spec_disasm_op);
}

/// The instruction lines of a function from relative position `pc`:
/// two spaces, the position in four or more hex digits, a colon, the text.
pub open spec fn spec_code_lines(f: FnView, pc: int) -> Result<Seq<(Seq<u8>, Option<u64>)>, Fault>
    decreases instr_len_of(f) - pc,
{
    if pc < 0 || pc >= instr_len_of(f) {
        Ok(Seq::empty())
    } else {
        match spec_disasm_one(f, pc) {
            Err(e) => Err(e),
            Ok((t, fl, next)) => {
                let rest = if next <= pc || next >= instr_len_of(f) { Ok(Seq::empty()) } else { spec_code_lines(f, next) };
                match rest {
                    Err(e) => Err(e),
                    Ok(rest) => Ok(seq![(lit("  "@) + spec_hex4(pc as nat) + lit(": "@) + t, fl)] + rest),
                }
            },
        }
    }
}

pub open spec fn instr_len_of(f: FnView) -> int {
    if f.code.len() >= f.instr_start { f.code.len() - f.instr_start } else { 0 }
}

/// The header line of a function.
pub open spec fn fn_header(f: FnView) -> Seq<u8> {
    lit("fn "@) + f.name + lit(": code="@) + spec_dec(f.code.len()) + lit(" bytes, strings="@) + spec_dec(f.strings.len())
}

#[verifier::opaque]
pub open spec fn spec_fn_lines(f: FnView) -> Result<Seq<(Seq<u8>, Option<u64>)>, Fault> {
    match spec_code_lines(f, 0) {
        Err(e) => Err(e),
        Ok(ls) => Ok(seq![(fn_header(f), None::<u64>)] + ls),
    }
}

/// The lines of the functions `order[k..]`, in that order.
pub open spec fn spec_all_lines(fs: Seq<FnView>, order: Seq<int>, k: nat) -> Result<Seq<(Seq<u8>, Option<u64>)>, Fault>
    decreases order.len() - k,
{
    if k >= order.len() {
        Ok(Seq::empty())
    } else {
        match spec_fn_lines(fs[order[k as int]]) {
            Err(e) => Err(e),
            Ok(ls) => match spec_all_lines(fs, order, k + 1) {
                Err(e) => Err(e),
                Ok(rest) => Ok(ls + rest),
            },
        }
    }
}

/// The lines as text.
pub open spec fn decode_lines(ls: Seq<(Seq<u8>, Option<u64>)>) -> Seq<(Seq<char>, Option<u64>)> {
    Seq::new(ls.len(), |i: int| (decode_utf8(ls[i].0), ls[i].1))
}

pub open spec fn lines_view(v: Seq<DisasmLine>) -> Seq<(Seq<char>, Option<u64>)> {
    Seq::new(v.len(), |i: int| v[i]@)
}

/// Lines `done`, then whatever the rest gives.
pub open spec fn after(done: Seq<(Seq<u8>, Option<u64>)>, rest: Result<Seq<(Seq<u8>, Option<u64>)>, Fault>) -> Result<Seq<(Seq<u8>, Option<u64>)>, Fault> {
    match rest {
        Err(e) => Err(e),
        Ok(r) => Ok(done + r),
    }
}

proof fn lemma_push_line(out: Seq<DisasmLine>, line: DisasmLine, t: Seq<u8>, fl: Option<u64>)
    requires
        line@ == (decode_utf8(t), fl),
    ensures
        lines_view(out.push(line)) =~= lines_view(out) + decode_lines(seq![(t, fl)]),
{
}

/// Appends the disassembly of one function.
fn fn_lines(f: &FunctionBytecode, out: &mut Vec<DisasmLine>) -> (r: Result<(), RuntimeError>)
    requires
        fn_wf(f.view_fn()),
    ensures
        match spec_fn_lines(f.view_fn()) {
            Ok(ls) => r is Ok && lines_view(final(out)@) == lines_view(old(out)@) + decode_lines(ls),
            Err(e) => r is Err && r->Err_0@ == e,
        },
{
    reveal(spec_fn_lines);
    let ghost fv = f.view_fn();
    let mut h: Vec<u8> = Vec::new();
    proof { lemma_empty_valid(); }
    assert(h@ =~= Seq::<u8>::empty());
    push_lit(&mut h, "fn ");
    push_name(&mut h, f.name.as_slice());
    push_lit(&mut h, ": code=");
    push_num(&mut h, f.code.len() as u64);
    push_lit(&mut h, " bytes, strings=");
    push_num(&mut h, f.strings.len() as u64);
    assert(h@ == fn_header(fv));
    let ghost start = out@;
    let hl = DisasmLine { text: bytes_to_string(h.as_slice()), float_bits: None };
    out.push(hl);
    proof { lemma_push_line(start, hl, h@, None); }
    let ghost mut done: Seq<(Seq<u8>, Option<u64>)> = seq![(fn_header(fv), None::<u64>)];
    let rel = f.code.len() - f.instr_start;
    let mut pc: usize = 0;
    assert(spec_fn_lines(fv) == after(done, spec_code_lines(fv, 0)));
    while pc < rel
        invariant
            fv == f.view_fn(),
            fn_wf(fv),
            rel == instr_len_of(fv),
            pc <= rel,
            spec_fn_lines(fv) == after(done, spec_code_lines(fv, pc as int)),
            lines_view(out@) == lines_view(start) + decode_lines(done),
        decreases rel - pc,
    {
        let (t, fl, next) = match disasm_one_bytes(f, pc) {
            Ok(v) => v,
            Err(e) => return Err(e),
        };
        proof { lemma_disasm_advances(fv, pc as int); }
        let mut l: Vec<u8> = Vec::new();
        proof { lemma_empty_valid(); }
        assert(l@ =~= Seq::<u8>::empty());
        push_lit(&mut l, "  ");
        push_hex4_num(&mut l, pc as u64);
        push_lit(&mut l, ": ");
        push_name(&mut l, t.as_slice());
        let ghost entry = (lit("  "@) + spec_hex4(pc as nat) + lit(": "@) + t@, fl);
        assert(l@ =~= entry.0);
        let full = DisasmLine { text: bytes_to_string(l.as_slice()), float_bits: fl };
        let ghost before = out@;
        out.push(full);
        proof {
            lemma_push_line(before, full, entry.0, entry.1);
            assert(decode_lines(done.push(entry)) =~= decode_lines(done) + decode_lines(seq![entry]));
            match spec_code_lines(fv, next as int) {
                Ok(rest) => {
                    assert(done + (seq![entry] + rest) =~= done.push(entry) + rest);
                },
                Err(_) => {},
            }
            done = done.push(entry);
        }
        pc = next;
    }
    Ok(())
}


proof fn lemma_magic_valid(bytes: Seq<u8>)
    requires
        spec_magic(bytes) is Some,
    ensures
        valid_utf8(spec_magic(bytes)->Some_0),
{
    let m = spec_magic(bytes)->Some_0;
    assert(is_ascii_bytes(m));
    lemma_ascii_valid(m);
}

/// The instructions with a destination and two source registers.
pub open spec fn three_register(op: Opcode) -> bool {
    op is QAnd || op is QOr || op is QImpl || op is BoolAnd || op is BoolOr || op is CmpEq || op is CmpNe
        || op is AddF64 || op is SubF64 || op is MulF64 || op is DivF64
}

/// A three-register instruction is shown as its mnemonic and its three
/// registers in encoding order, `r<d>, r<l>, r<r>`: the operands are the
/// ones the machine decodes (`rd3`), the left one second and the right one
/// third, and the instruction is seven bytes long.
pub proof fn lemma_three_register_text(f: FnView, pc: int, b: nat, op: Opcode, d: nat, l: nat, r: nat)
    requires
        three_register(op),
        rd8(f.code, f.instr_start + pc) == Some(b),
        spec_opcode(b as u8) == Some(op),
        rd3(f.code, f.instr_start + pc + 1) == Some((d, l, r)),
    ensures
        spec_disasm_one(f, pc) == Ok::<(Seq<u8>, Option<u64>, int), Fault>((
            lit(mnemonic(op)) + lit(" r"@) + spec_dec(d) + lit(", r"@) + spec_dec(l) + lit(", r"@) + spec_dec(r),
            None,
            pc + 7,
        )),
{
    reveal(spec_disasm_op);
}

/// Appends the lines of the functions in `order`, in that order.
fn all_fn_lines(fns: &Vec<FunctionBytecode>, order: &Vec<usize>, out: &mut Vec<DisasmLine>) -> (r: Result<(), RuntimeError>)
    requires
        fns_wf(fns_view(fns@)),
        forall|i: int| 0 <= i < order@.len() ==> #[trigger] order@[i] < fns@.len(),
    ensures
        match spec_all_lines(fns_view(fns@), order_view(order@), 0) {
            Ok(ls) => r is Ok && lines_view(final(out)@) == lines_view(old(out)@) + decode_lines(ls),
            Err(e) => r is Err && r->Err_0@ == e,
        },
{
    let ghost fs = fns_view(fns@);
    let ghost ov = order_view(order@);
    let ghost start = out@;
    let ghost mut done: Seq<(Seq<u8>, Option<u64>)> = Seq::empty();
    let mut i: usize = 0;
    assert(lines_view(out@) =~= lines_view(start) + decode_lines(done));
    assert(spec_all_lines(fs, ov, 0) == after(done, spec_all_lines(fs, ov, 0))) by {
        match spec_all_lines(fs, ov, 0) {
            Ok(r) => { assert(done + r =~= r); },
            Err(_) => {},
        }
    }
    while i < order.len()
        invariant
            i <= order@.len(),
            ov == order_view(order@),
            fs == fns_view(fns@),
            fns_wf(fs),
            forall|j: int| 0 <= j < order@.len() ==> #[trigger] order@[j] < fns@.len(),
            spec_all_lines(fs, ov, 0) == after(done, spec_all_lines(fs, ov, i as nat)),
            lines_view(out@) == lines_view(start) + decode_lines(done),
        decreases order@.len() - i,
    {
        let k = order[i];
        assert(ov[i as int] == k as int);
        assert(fs[k as int] == fns@[k as int].view_fn());
        match fn_lines(&fns[k], out) {
            Ok(()) => {},
            Err(e) => return Err(e),
        }
        proof {
            let ls = spec_fn_lines(fs[k as int])->Ok_0;
            assert(decode_lines(done + ls) =~= decode_lines(done) + decode_lines(ls));
            match spec_all_lines(fs, ov, (i + 1) as nat) {
                Ok(rest) => {
                    assert(done + (ls + rest) =~= (done + ls) + rest);
                },
                Err(_) => {},
            }
            done = done + ls;
        }
        i += 1;
    }
    Ok(())
}

/// The disassembly of a container: its magic, then each function in name
/// order, as lines.
pub fn disasm_exobyte(bytes: &[u8]) -> (r: Result<Vec<DisasmLine>, RuntimeError>)
    ensures
        match spec_parse(bytes@) {
            Err(f) => r is Err && r->Err_0@ == spec_parse_fault(f),
            Ok(fs) => exists|order: Seq<int>| #[trigger] is_name_order(fs, order) &&
                match after(seq![(spec_magic(bytes@)->Some_0, None::<u64>)], spec_all_lines(fs, order, 0)) {
                    Ok(ls) => r is Ok && lines_view(r->Ok_0@) == decode_lines(ls),
                    Err(e) => r is Err && r->Err_0@ == e,
                },
        },
{
    let parsed = match parse_exobyte(bytes) {
        Ok(p) => p,
        Err(e) => return Err(e),
    };
    proof {
        lemma_parse_wf(bytes@);
        lemma_magic_valid(bytes@);
    }
    let ghost fs = fns_view(parsed.functions@);
    let order = name_order(&parsed.functions);
    let ghost ov = order_view(order@);
    assert forall|i: int| 0 <= i < order@.len() implies #[trigger] order@[i] < parsed.functions@.len() by {
        reveal(is_name_order);
        assert(ov[i] == order@[i] as int);
    }
    let mut out: Vec<DisasmLine> = Vec::new();
    let hl = DisasmLine { text: bytes_to_string(&parsed.magic), float_bits: None };
    let ghost hdr = (parsed.magic@, None::<u64>);
    out.push(hl);
    proof {
        lemma_push_line(Seq::empty(), hl, hdr.0, hdr.1);
        assert(Seq::<DisasmLine>::empty().push(hl) =~= out@);
        assert(lines_view(Seq::<DisasmLine>::empty()) =~= Seq::<(Seq<char>, Option<u64>)>::empty());
        assert(decode_lines(seq![hdr]) =~= lines_view(out@));
    }
    let res = all_fn_lines(&parsed.functions, &order, &mut out);
    proof {
        assert(seq![(spec_magic(bytes@)->Some_0, None::<u64>)] == seq![hdr]);
        match spec_all_lines(fs, ov, 0) {
            Ok(ls) => {
                assert(decode_lines(seq![hdr] + ls) =~= decode_lines(seq![hdr]) + decode_lines(ls));
            },
            Err(_) => {},
        }
        assert(is_name_order(fs, ov));
    }
    match res {
        Ok(()) => Ok(out),
        Err(e) => Err(e),
    }
}

} // verus!

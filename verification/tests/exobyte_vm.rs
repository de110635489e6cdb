use vectoros::exobyte_disasm::disasm_exobyte;
use vectoros::exobyte_exec::{load_exobyte, FloatOp, Step};
use vectoros::exobyte_format::magic1;
use vectoros::exobyte_vm::RuntimeError;

// Opcode bytes of the container format.
const LOAD_Q: u8 = 0x01;
const LOAD_BOOL: u8 = 0x02;
const LOAD_I32: u8 = 0x03;
const LOAD_F64: u8 = 0x04;
const LOAD_VAR: u8 = 0x05;
const STORE_VAR: u8 = 0x06;
const Q_AND: u8 = 0x10;
const BOOL_AND: u8 = 0x14;
const CMP_EQ: u8 = 0x17;
const ADD_F64: u8 = 0x20;
const MUL_F64: u8 = 0x22;
const JMP_IF: u8 = 0x31;
const CALL: u8 = 0x40;
const RET: u8 = 0x41;

/// A small assembler for one function body.
struct Asm {
    code: Vec<u8>,
}

impl Asm {
    fn new() -> Asm {
        Asm { code: Vec::new() }
    }
    fn pc(&self) -> u32 {
        self.code.len() as u32
    }
    fn u16(&mut self, v: u16) {
        self.code.extend_from_slice(&v.to_le_bytes());
    }
    fn load_q(&mut self, dst: u16, q: u8) {
        self.code.push(LOAD_Q);
        self.u16(dst);
        self.code.push(q);
    }
    fn load_bool(&mut self, dst: u16, b: bool) {
        self.code.push(LOAD_BOOL);
        self.u16(dst);
        self.code.push(b as u8);
    }
    fn load_i32(&mut self, dst: u16, v: i32) {
        self.code.push(LOAD_I32);
        self.u16(dst);
        self.code.extend_from_slice(&v.to_le_bytes());
    }
    fn load_f64(&mut self, dst: u16, v: f64) {
        self.code.push(LOAD_F64);
        self.u16(dst);
        self.code.extend_from_slice(&v.to_bits().to_le_bytes());
    }
    fn load_var(&mut self, dst: u16, sid: u16) {
        self.code.push(LOAD_VAR);
        self.u16(dst);
        self.u16(sid);
    }
    fn store_var(&mut self, sid: u16, src: u16) {
        self.code.push(STORE_VAR);
        self.u16(sid);
        self.u16(src);
    }
    fn binop(&mut self, op: u8, dst: u16, lhs: u16, rhs: u16) {
        self.code.push(op);
        self.u16(dst);
        self.u16(lhs);
        self.u16(rhs);
    }
    fn jmp_if(&mut self, cond: u16, addr: u32) {
        self.code.push(JMP_IF);
        self.u16(cond);
        self.code.extend_from_slice(&addr.to_le_bytes());
    }
    fn call(&mut self, dst: Option<u16>, callee_sid: u16, args: &[u16]) {
        self.code.push(CALL);
        self.code.push(dst.is_some() as u8);
        self.u16(dst.unwrap_or(0));
        self.u16(callee_sid);
        self.u16(args.len() as u16);
        for a in args {
            self.u16(*a);
        }
    }
    fn ret(&mut self) {
        self.code.push(RET);
        self.code.push(0);
    }
    fn ret_reg(&mut self, src: u16) {
        self.code.push(RET);
        self.code.push(1);
        self.u16(src);
    }
    /// `if cond { return; } else { return; }` at the end of a body.
    fn branch_and_return(&mut self, cond: u16) {
        // JMP_IF (7 bytes) and RET (2 bytes) come before the target.
        let target = self.pc() + 7 + 2;
        self.jmp_if(cond, target);
        self.ret();
        self.ret();
    }
}

/// A function's code: its string table, then its instructions.
fn function_code(strings: &[&str], body: &Asm) -> Vec<u8> {
    let mut code = Vec::new();
    code.extend_from_slice(&(strings.len() as u16).to_le_bytes());
    for s in strings {
        code.extend_from_slice(&(s.len() as u16).to_le_bytes());
        code.extend_from_slice(s.as_bytes());
    }
    code.extend_from_slice(&body.code);
    code
}

/// A container holding the given functions.
fn container(fns: &[(&str, Vec<u8>)]) -> Vec<u8> {
    let mut bytes = Vec::new();
    bytes.extend_from_slice(&magic1());
    for (name, code) in fns {
        bytes.extend_from_slice(&(name.len() as u16).to_le_bytes());
        bytes.extend_from_slice(name.as_bytes());
        bytes.extend_from_slice(&(code.len() as u32).to_le_bytes());
        bytes.extend_from_slice(code);
    }
    bytes
}

fn float_result(op: FloatOp, lhs: u64, rhs: u64) -> u64 {
    let a = f64::from_bits(lhs);
    let b = f64::from_bits(rhs);
    let r = match op {
        FloatOp::Add => a + b,
        FloatOp::Sub => a - b,
        FloatOp::Mul => a * b,
        FloatOp::Div => a / b,
        FloatOp::Sin => a.sin(),
        FloatOp::Cos => a.cos(),
        FloatOp::Tan => a.tan(),
        FloatOp::Sqrt => a.sqrt(),
        FloatOp::Abs => a.abs(),
        FloatOp::Pow => a.powf(b),
    };
    r.to_bits()
}

/// Runs `main` to completion, doing the floating-point work the machine
/// asks for; returns the float results in the order they were computed.
fn run_exobyte(bytes: &[u8]) -> Result<Vec<f64>, RuntimeError> {
    let mut vm = load_exobyte(bytes, "main")?;
    let mut floats = Vec::new();
    for _ in 0..1_000_000 {
        match vm.step()? {
            Step::Running => {}
            Step::Finished => return Ok(floats),
            Step::Float(req) => {
                let bits = float_result(req.op, req.lhs, req.rhs);
                floats.push(f64::from_bits(bits));
                vm.complete_float(req, bits);
            }
        }
    }
    panic!("program did not finish");
}

fn disasm_text(bytes: &[u8]) -> Result<String, RuntimeError> {
    let lines = disasm_exobyte(bytes)?;
    let mut out = String::new();
    for l in lines {
        out.push_str(&l.text);
        if let Some(bits) = l.float_bits {
            out.push_str(&format!("{}", f64::from_bits(bits)));
        }
        out.push('\n');
    }
    Ok(out)
}

#[test]
fn vm_runs_empty_main() {
    // fn main() { return; }
    let mut main = Asm::new();
    main.ret();
    let bytes = container(&[("main", function_code(&[], &main))]);
    run_exobyte(&bytes).expect("run");
}

#[test]
fn vm_runs_bool_ops() {
    // let a: bool = true; let b: bool = false; let c = a && b;
    // if c == false { return; } else { return; }
    let mut m = Asm::new();
    m.load_bool(0, true);
    m.store_var(0, 0);
    m.load_bool(1, false);
    m.store_var(1, 1);
    m.load_var(2, 0);
    m.load_var(3, 1);
    m.binop(BOOL_AND, 4, 2, 3);
    m.store_var(2, 4);
    m.load_var(5, 2);
    m.load_bool(6, false);
    m.binop(CMP_EQ, 7, 5, 6);
    m.branch_and_return(7);
    let bytes = container(&[("main", function_code(&["a", "b", "c"], &m))]);
    run_exobyte(&bytes).expect("run");
}

#[test]
fn vm_runs_quad_ops() {
    // let a: quad = T; let b: quad = S; let c = a && b;
    // if c == T { return; } else { return; }
    let mut m = Asm::new();
    m.load_q(0, 2);
    m.store_var(0, 0);
    m.load_q(1, 3);
    m.store_var(1, 1);
    m.load_var(2, 0);
    m.load_var(3, 1);
    m.binop(Q_AND, 4, 2, 3);
    m.store_var(2, 4);
    m.load_var(5, 2);
    m.load_q(6, 2);
    m.binop(CMP_EQ, 7, 5, 6);
    m.branch_and_return(7);
    let bytes = container(&[("main", function_code(&["a", "b", "c"], &m))]);
    run_exobyte(&bytes).expect("run");
}

#[test]
fn vm_runs_call_ret() {
    // fn one() -> i32 { return 1; }
    // fn main() { let x: i32 = one(); return; }
    let mut one = Asm::new();
    one.load_i32(0, 1);
    one.ret_reg(0);
    let mut m = Asm::new();
    m.call(Some(0), 0, &[]);
    m.store_var(1, 0);
    m.ret();
    let bytes = container(&[
        ("one", function_code(&[], &one)),
        ("main", function_code(&["one", "x"], &m)),
    ]);
    run_exobyte(&bytes).expect("run");
}

#[test]
fn vm_runs_f64_math_and_builtins() {
    // let a: f64 = 1.5 + 2.25 * 2.0;
    // let b: f64 = sqrt(9.0);
    // let c: f64 = sin(0.0) + cos(0.0) + abs(-1.0) + pow(2.0, 3.0);
    // if a == 6.0 { return; } else { return; }
    let strings = ["a", "b", "c", "sqrt", "sin", "cos", "abs", "pow"];
    let mut m = Asm::new();
    m.load_f64(0, 1.5);
    m.load_f64(1, 2.25);
    m.load_f64(2, 2.0);
    m.binop(MUL_F64, 3, 1, 2);
    m.binop(ADD_F64, 4, 0, 3);
    m.store_var(0, 4);
    m.load_f64(5, 9.0);
    m.call(Some(6), 3, &[5]);
    m.store_var(1, 6);
    m.load_f64(7, 0.0);
    m.call(Some(8), 4, &[7]);
    m.call(Some(9), 5, &[7]);
    m.binop(ADD_F64, 8, 8, 9);
    m.load_f64(10, -1.0);
    m.call(Some(11), 6, &[10]);
    m.binop(ADD_F64, 8, 8, 11);
    m.load_f64(12, 2.0);
    m.load_f64(13, 3.0);
    m.call(Some(14), 7, &[12, 13]);
    m.binop(ADD_F64, 8, 8, 14);
    m.store_var(2, 8);
    m.load_var(0, 0);
    m.load_f64(1, 6.0);
    m.binop(CMP_EQ, 2, 0, 1);
    m.branch_and_return(2);
    let bytes = container(&[("main", function_code(&strings, &m))]);
    let dis = disasm_text(&bytes).expect("disasm");
    assert!(dis.contains("EXOBYTE1"));
    assert!(dis.contains("ADD_F64"));
    run_exobyte(&bytes).expect("run");
}

#[test]
fn vm_rejects_bad_header() {
    let bytes = b"NOTBYTE1";
    let err = run_exobyte(bytes).expect_err("must fail on invalid magic");
    assert_eq!(err, RuntimeError::BadHeader);
}

#[test]
fn vm_rejects_truncated_function_code() {
    let mut bytes = Vec::new();
    bytes.extend_from_slice(&magic1());
    bytes.extend_from_slice(&(4u16).to_le_bytes());
    bytes.extend_from_slice(b"main");
    bytes.extend_from_slice(&(10u32).to_le_bytes());
    bytes.extend_from_slice(&[0u8; 2]);

    let err = run_exobyte(&bytes).expect_err("must fail on truncated function body");
    assert!(matches!(err, RuntimeError::BadFormat(_)));
}

#[test]
fn vm_reports_stack_overflow_on_unbounded_recursion() {
    // fn recur() { recur(); return; }
    // fn main() { recur(); return; }
    let mut recur = Asm::new();
    recur.call(None, 0, &[]);
    recur.ret();
    let mut m = Asm::new();
    m.call(None, 0, &[]);
    m.ret();
    let bytes = container(&[
        ("recur", function_code(&["recur"], &recur)),
        ("main", function_code(&["recur"], &m)),
    ]);
    let err = run_exobyte(&bytes).expect_err("must overflow call stack");
    assert_eq!(err, RuntimeError::StackOverflow);
}

#[test]
fn vm_float_work_is_handed_out_in_program_order() {
    // The same program as the builtins test: 2.25 * 2.0, 1.5 + 4.5, sqrt(9.0),
    // sin(0.0), cos(0.0), their sum, abs(-1.0), the sum, pow(2.0, 3.0), the sum.
    let strings = ["a", "b", "c", "sqrt", "sin", "cos", "abs", "pow"];
    let mut m = Asm::new();
    m.load_f64(0, 1.5);
    m.load_f64(1, 2.25);
    m.load_f64(2, 2.0);
    m.binop(MUL_F64, 3, 1, 2);
    m.binop(ADD_F64, 4, 0, 3);
    m.load_f64(5, 9.0);
    m.call(Some(6), 3, &[5]);
    m.load_f64(7, 2.0);
    m.load_f64(8, 3.0);
    m.call(Some(9), 7, &[7, 8]);
    m.ret();
    let bytes = container(&[("main", function_code(&strings, &m))]);
    let floats = run_exobyte(&bytes).expect("run");
    assert_eq!(floats, vec![4.5, 6.0, 3.0, 8.0]);
}

#[test]
fn vm_reports_unknown_entry_function() {
    let mut m = Asm::new();
    m.ret();
    let bytes = container(&[("start", function_code(&[], &m))]);
    let err = run_exobyte(&bytes).expect_err("no main");
    assert_eq!(err, RuntimeError::UnknownFunction("main".to_string()));
}

#[test]
fn vm_rejects_duplicate_function_names() {
    let mut m = Asm::new();
    m.ret();
    let code = function_code(&[], &m);
    let bytes = container(&[("main", code.clone()), ("main", code)]);
    let err = run_exobyte(&bytes).expect_err("duplicate");
    assert_eq!(err, RuntimeError::BadFormat("duplicate function 'main'".to_string()));
}

#[test]
fn vm_reports_unknown_variable() {
    let mut m = Asm::new();
    m.load_var(0, 0);
    m.ret();
    let bytes = container(&[("main", function_code(&["ghost"], &m))]);
    let err = run_exobyte(&bytes).expect_err("unknown variable");
    assert_eq!(err, RuntimeError::UnknownVariable("ghost".to_string()));
}

#[test]
fn vm_reports_invalid_jump() {
    let mut m = Asm::new();
    m.load_bool(0, true);
    m.jmp_if(0, 1000);
    m.ret();
    let bytes = container(&[("main", function_code(&[], &m))]);
    let err = run_exobyte(&bytes).expect_err("bad jump");
    assert_eq!(err, RuntimeError::InvalidJumpAddress { func: "main".to_string(), addr: 1000 });
}

#[test]
fn vm_reports_quad_type_mismatch() {
    let mut m = Asm::new();
    m.load_bool(0, true);
    m.load_q(1, 2);
    m.binop(Q_AND, 2, 0, 1);
    m.ret();
    let bytes = container(&[("main", function_code(&[], &m))]);
    let err = run_exobyte(&bytes).expect_err("type mismatch");
    assert!(matches!(err, RuntimeError::TypeMismatchRuntime(_)));
}

#[test]
fn vm_rejects_unknown_opcode() {
    let mut m = Asm::new();
    m.code.push(0x7f);
    let bytes = container(&[("main", function_code(&[], &m))]);
    let err = run_exobyte(&bytes).expect_err("unknown opcode");
    assert_eq!(err, RuntimeError::BadFormat("unknown opcode 0x7f".to_string()));
}

#[test]
fn vm_disassembles_functions_in_name_order() {
    let mut a = Asm::new();
    a.ret();
    let mut b = Asm::new();
    b.load_i32(0, 7);
    b.ret_reg(0);
    let bytes = container(&[
        ("zeta", function_code(&[], &b)),
        ("alpha", function_code(&[], &a)),
    ]);
    let dis = disasm_text(&bytes).expect("disasm");
    let alpha = dis.find("fn alpha").expect("alpha listed");
    let zeta = dis.find("fn zeta").expect("zeta listed");
    assert!(dis.starts_with("EXOBYTE1\n"));
    assert!(alpha < zeta);
}

#[test]
fn vm_errors_read_as_messages() {
    assert_eq!(RuntimeError::BadHeader.describe(), "bad EXObyte header");
    assert_eq!(RuntimeError::BadFormat("unexpected EOF".to_string()).describe(), "bad EXObyte format: unexpected EOF");
    assert_eq!(
        RuntimeError::InvalidJumpAddress { func: "main".to_string(), addr: 1000 }.describe(),
        "invalid jump address 1000 in 'main'"
    );
    assert_eq!(RuntimeError::InvalidStringId(7).describe(), "invalid string id 7");
    assert_eq!(RuntimeError::UnknownVariable("x".to_string()).describe(), "unknown variable 'x'");
    assert_eq!(RuntimeError::StackOverflow.describe(), "stack overflow");
}

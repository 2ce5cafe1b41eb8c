use std::rc::Rc;

use luavm::chunk::{ChunkHeader, FunctionBlock, LuaChunk, LuaConstant};
use luavm::instruction::{VMInst, VMOpcode};
use luavm::stream::InstStream;
use luavm::vm::{GCLuaValue, LuaVM, LuaValue, RunState};

fn abc(op: u32, a: u32, b: u32, c: u32) -> u32 {
    op | (a << 6) | (c << 14) | (b << 23)
}

fn abx(op: u32, a: u32, bx: u32) -> u32 {
    op | (a << 6) | (bx << 14)
}

const MOVE: u32 = 0;
const LOADK: u32 = 1;
const GETUPVAL: u32 = 4;
const GETGLOBAL: u32 = 5;
const SETGLOBAL: u32 = 7;
const SETUPVAL: u32 = 8;
const ADD: u32 = 12;
const SUB: u32 = 13;
const MUL: u32 = 14;
const DIV: u32 = 15;
const MOD: u32 = 16;
const POW: u32 = 17;
const JMP: u32 = 22;
const CALL: u32 = 28;
const TAILCALL: u32 = 29;
const RETURN: u32 = 30;
const CLOSURE: u32 = 36;
const K: u32 = 0x100;

fn num(x: f64) -> LuaConstant {
    LuaConstant::LUA_TNUMBER(x.to_bits())
}

fn text(s: &str) -> LuaConstant {
    LuaConstant::LUA_TSTRING(s.to_string())
}

fn proto(words: &[u32], consts: Vec<LuaConstant>, nested: Vec<FunctionBlock>) -> FunctionBlock {
    FunctionBlock {
        source_name: String::new(),
        line_def: 0,
        last_line_def: 0,
        num_upval: 0,
        num_param: 0,
        is_vararg: 0,
        max_stack_size: 8,
        list_instructions: words.iter().map(|w| VMInst::from_u32(*w).unwrap()).collect(),
        list_const: consts,
        list_fnproto: nested.into_iter().map(Rc::new).collect(),
    }
}

fn chunk(func: FunctionBlock) -> LuaChunk {
    LuaChunk {
        header: ChunkHeader {
            version: 81,
            format_version: 0,
            endianness: 1,
            size_int: 4,
            size_t: 8,
            size_Inst: 4,
            size_luaNum: 8,
            integral_flag: 0,
        },
        func,
    }
}

fn float_arith(op: VMOpcode, x: u64, y: u64) -> u64 {
    let (a, b) = (f64::from_bits(x), f64::from_bits(y));
    let r = match op {
        VMOpcode::ADD => a + b,
        VMOpcode::SUB => a - b,
        VMOpcode::MUL => a * b,
        VMOpcode::DIV => a / b,
        VMOpcode::MOD => a % b,
        _ => a.powf(b),
    };
    r.to_bits()
}

fn number_at(vm: &LuaVM, h: GCLuaValue) -> Option<f64> {
    match vm.borrow(h) {
        Some(LuaValue::Number(n)) => Some(f64::from_bits(*n)),
        _ => None,
    }
}

fn reg_number(vm: &LuaVM, idx: u32) -> Option<f64> {
    number_at(vm, vm.register(idx)?)
}

fn run_to_end(vm: &mut LuaVM, func: FunctionBlock) -> RunState {
    vm.start(func);
    vm.run(&float_arith, 1000)
}

#[test]
fn add_register_and_constant() {
    let f = proto(
        &[abx(LOADK, 0, 1), abc(ADD, 1, 0, K | 0)],
        vec![num(3.0), num(2.0)],
        vec![],
    );
    let mut vm = LuaVM::new();
    assert_eq!(run_to_end(&mut vm, f), RunState::Exhausted);
    assert_eq!(reg_number(&vm, 0), Some(2.0));
    assert_eq!(reg_number(&vm, 1), Some(5.0));
}

#[test]
fn each_arithmetic_opcode_applies_its_operation() {
    let f = proto(
        &[
            abc(SUB, 0, K | 0, K | 1),
            abc(MUL, 1, K | 0, K | 1),
            abc(DIV, 2, K | 0, K | 1),
            abc(MOD, 3, K | 0, K | 1),
            abc(POW, 4, K | 0, K | 1),
        ],
        vec![num(7.0), num(2.0)],
        vec![],
    );
    let mut vm = LuaVM::new();
    assert_eq!(run_to_end(&mut vm, f), RunState::Exhausted);
    assert_eq!(reg_number(&vm, 0), Some(5.0));
    assert_eq!(reg_number(&vm, 1), Some(14.0));
    assert_eq!(reg_number(&vm, 2), Some(3.5));
    assert_eq!(reg_number(&vm, 3), Some(1.0));
    assert_eq!(reg_number(&vm, 4), Some(49.0));
}

#[test]
fn arithmetic_on_non_numbers_is_skipped() {
    let f = proto(&[abc(ADD, 1, K | 0, K | 1), abx(LOADK, 2, 1)], vec![text("a"), num(1.0)], vec![]);
    let mut vm = LuaVM::new();
    assert_eq!(run_to_end(&mut vm, f), RunState::Exhausted);
    assert!(vm.register(1).is_none());
    assert_eq!(reg_number(&vm, 2), Some(1.0));
}

#[test]
fn call_returns_into_call_register() {
    let callee = proto(&[abx(LOADK, 0, 0), abc(RETURN, 0, 2, 0)], vec![num(42.0)], vec![]);
    let main = proto(
        &[abx(CLOSURE, 0, 0), abc(CALL, 0, 1, 2), abc(RETURN, 0, 2, 0)],
        vec![],
        vec![callee],
    );
    let mut vm = LuaVM::new();
    let out = vm.process_chunk(chunk(main), &float_arith).unwrap();
    assert_eq!(out.len(), 1);
    assert_eq!(number_at(&vm, out[0]), Some(42.0));
    assert_eq!(reg_number(&vm, 0), Some(42.0));
}

#[test]
fn call_with_arguments_shifts_the_window() {
    let callee = proto(&[abc(ADD, 1, 0, K | 0), abc(RETURN, 1, 2, 0)], vec![num(1.0)], vec![]);
    let main = proto(
        &[abx(CLOSURE, 0, 0), abx(LOADK, 1, 0), abc(CALL, 0, 2, 2), abc(RETURN, 0, 2, 0)],
        vec![num(10.0)],
        vec![callee],
    );
    let mut vm = LuaVM::new();
    let out = vm.process_chunk(chunk(main), &float_arith).unwrap();
    assert_eq!(number_at(&vm, out[0]), Some(11.0));
    // the callee's register 1 is absolute register 2
    assert_eq!(reg_number(&vm, 2), Some(11.0));
}

#[test]
fn open_call_sets_top_for_return_all() {
    let callee = proto(
        &[abx(LOADK, 0, 0), abx(LOADK, 1, 1), abc(RETURN, 0, 3, 0)],
        vec![num(1.0), num(2.0)],
        vec![],
    );
    let main = proto(
        &[abx(CLOSURE, 0, 0), abc(CALL, 0, 1, 0), abc(RETURN, 0, 0, 0)],
        vec![],
        vec![callee],
    );
    let mut vm = LuaVM::new();
    let out = vm.process_chunk(chunk(main), &float_arith).unwrap();
    let values: Vec<Option<f64>> = out.iter().map(|h| number_at(&vm, *h)).collect();
    assert_eq!(values, vec![Some(1.0), Some(2.0)]);
}

#[test]
fn tailcall_runs_as_a_nested_call() {
    let callee = proto(&[abx(LOADK, 0, 0), abc(RETURN, 0, 2, 0)], vec![num(8.0)], vec![]);
    let main = proto(
        &[abx(CLOSURE, 0, 0), abc(TAILCALL, 0, 1, 0), abc(RETURN, 0, 0, 0)],
        vec![],
        vec![callee],
    );
    let mut vm = LuaVM::new();
    let out = vm.process_chunk(chunk(main), &float_arith).unwrap();
    assert_eq!(out.len(), 1);
    assert_eq!(number_at(&vm, out[0]), Some(8.0));
}

#[test]
fn return_with_b_one_returns_nothing() {
    let main = proto(&[abc(RETURN, 0, 1, 0), abx(LOADK, 0, 0)], vec![num(1.0)], vec![]);
    let mut vm = LuaVM::new();
    let out = vm.process_chunk(chunk(main), &float_arith).unwrap();
    assert!(out.is_empty());
    assert!(vm.register(0).is_none());
}

#[test]
fn running_off_the_end_returns_no_values() {
    let main = proto(&[abx(LOADK, 0, 0), abx(JMP, 0, 131071)], vec![num(1.0)], vec![]);
    let mut vm = LuaVM::new();
    let out = vm.process_chunk(chunk(main), &float_arith).unwrap();
    assert!(out.is_empty());
    assert_eq!(vm.run_state(), RunState::Exhausted);
}

#[test]
fn calling_a_non_function_faults() {
    let main = proto(&[abx(LOADK, 0, 0), abc(CALL, 0, 1, 2), abc(RETURN, 0, 2, 0)], vec![num(4.0)], vec![]);
    let mut vm = LuaVM::new();
    let r = vm.process_chunk(chunk(main), &float_arith);
    assert!(matches!(r, Err(RunState::Faulted(VMOpcode::CALL))));
}

#[test]
fn open_call_without_results_sets_top_to_call_register() {
    let callee = proto(&[abc(RETURN, 0, 1, 0)], vec![], vec![]);
    let main = proto(
        &[abx(LOADK, 0, 0), abx(LOADK, 1, 0), abx(CLOSURE, 2, 0), abc(CALL, 2, 1, 0), abc(RETURN, 0, 0, 0)],
        vec![num(5.0)],
        vec![callee],
    );
    let mut vm = LuaVM::new();
    let out = vm.process_chunk(chunk(main), &float_arith).unwrap();
    let values: Vec<Option<f64>> = out.iter().map(|h| number_at(&vm, *h)).collect();
    assert_eq!(values, vec![Some(5.0), Some(5.0)]);
}

#[test]
fn closure_captures_upvalue_by_move() {
    let callee = proto(&[abc(GETUPVAL, 4, 0, 0), abc(RETURN, 4, 2, 0)], vec![], vec![]);
    let main = proto(
        &[
            abx(LOADK, 3, 0),
            abx(CLOSURE, 2, 0),
            abc(MOVE, 0, 3, 0),
            abc(CALL, 2, 1, 2),
            abc(RETURN, 2, 2, 0),
        ],
        vec![text("V")],
        vec![callee],
    );
    let mut vm = LuaVM::new();
    vm.start(main);
    for _ in 0..3 {
        vm.step(&float_arith);
    }
    // the MOVE right after CLOSURE bound the upvalue instead of writing register 0
    assert!(vm.register(0).is_none());
    let v = vm.register(3).unwrap();
    let f = match vm.borrow(vm.register(2).unwrap()) {
        Some(LuaValue::Function(f)) => *f,
        _ => panic!("register 2 holds no function"),
    };
    assert_eq!(vm.upvalue(f, 0), Some(v));
    vm.step(&float_arith);
    assert_eq!(vm.depth(), 2);
    vm.step(&float_arith);
    assert_eq!(vm.register(4), Some(v));
    assert!(matches!(vm.borrow(v), Some(LuaValue::String(s)) if s == "V"));
    assert_eq!(vm.run(&float_arith, 100), RunState::Returned);
}

#[test]
fn setupval_rebinds_the_slot() {
    let callee = proto(
        &[abx(LOADK, 5, 0), abc(SETUPVAL, 5, 0, 0), abc(GETUPVAL, 6, 0, 0), abc(RETURN, 6, 2, 0)],
        vec![num(9.0)],
        vec![],
    );
    let main = proto(
        &[abx(LOADK, 3, 0), abx(CLOSURE, 2, 0), abc(MOVE, 0, 3, 0), abc(CALL, 2, 1, 2), abc(RETURN, 2, 2, 0)],
        vec![num(1.0)],
        vec![callee],
    );
    let mut vm = LuaVM::new();
    let out = vm.process_chunk(chunk(main), &float_arith).unwrap();
    assert_eq!(number_at(&vm, out[0]), Some(9.0));
    assert_eq!(reg_number(&vm, 3), Some(1.0));
}

#[test]
fn plain_move_aliases_the_cell() {
    let main = proto(&[abx(LOADK, 0, 0), abc(MOVE, 1, 0, 0)], vec![num(6.0)], vec![]);
    let mut vm = LuaVM::new();
    assert_eq!(run_to_end(&mut vm, main), RunState::Exhausted);
    assert_eq!(vm.register(0), vm.register(1));
}

#[test]
fn globals_are_keyed_by_constant_index() {
    let main = proto(
        &[
            abx(LOADK, 0, 2),
            abx(SETGLOBAL, 0, 0),
            abx(LOADK, 1, 3),
            abx(SETGLOBAL, 1, 1),
            abx(GETGLOBAL, 2, 0),
            abx(GETGLOBAL, 3, 1),
            abc(RETURN, 2, 3, 0),
        ],
        vec![text("x"), text("x"), num(1.0), num(2.0)],
        vec![],
    );
    let mut vm = LuaVM::new();
    let out = vm.process_chunk(chunk(main), &float_arith).unwrap();
    let values: Vec<Option<f64>> = out.iter().map(|h| number_at(&vm, *h)).collect();
    assert_eq!(values, vec![Some(1.0), Some(2.0)]);
    assert_eq!(vm.global(0), vm.register(0));
    assert_eq!(vm.global(1), vm.register(1));
}

#[test]
fn global_write_is_seen_by_later_read() {
    let main = proto(
        &[abx(LOADK, 0, 0), abx(SETGLOBAL, 0, 1), abx(LOADK, 0, 2), abx(SETGLOBAL, 0, 1), abx(GETGLOBAL, 4, 1)],
        vec![num(1.0), text("g"), num(3.0)],
        vec![],
    );
    let mut vm = LuaVM::new();
    assert_eq!(run_to_end(&mut vm, main), RunState::Exhausted);
    assert_eq!(reg_number(&vm, 4), Some(3.0));
}

#[test]
fn fault_stops_the_whole_run() {
    let main = proto(
        &[abx(LOADK, 0, 0), abx(GETGLOBAL, 1, 5), abx(LOADK, 2, 0)],
        vec![num(1.0)],
        vec![],
    );
    let mut vm = LuaVM::new();
    assert_eq!(run_to_end(&mut vm, main), RunState::Faulted(VMOpcode::GETGLOBAL));
    assert!(vm.register(2).is_none());
    vm.step(&float_arith);
    assert!(vm.register(2).is_none());
    assert_eq!(vm.run_state(), RunState::Faulted(VMOpcode::GETGLOBAL));
}

#[test]
fn fault_in_callee_stops_the_caller() {
    let callee = proto(&[abc(MOVE, 0, 7, 0), abc(RETURN, 0, 2, 0)], vec![], vec![]);
    let main = proto(
        &[abx(CLOSURE, 0, 0), abc(CALL, 0, 1, 2), abx(LOADK, 5, 0)],
        vec![num(1.0)],
        vec![callee],
    );
    let mut vm = LuaVM::new();
    let r = vm.process_chunk(chunk(main), &float_arith);
    assert!(matches!(r, Err(RunState::Faulted(VMOpcode::MOVE))));
    assert!(vm.register(5).is_none());
}

#[test]
fn loadk_out_of_pool_faults() {
    let main = proto(&[abx(LOADK, 0, 3)], vec![], vec![]);
    let mut vm = LuaVM::new();
    assert_eq!(run_to_end(&mut vm, main), RunState::Faulted(VMOpcode::LOADK));
}

#[test]
fn return_all_without_top_faults() {
    let main = proto(&[abc(RETURN, 0, 0, 0)], vec![], vec![]);
    let mut vm = LuaVM::new();
    assert_eq!(run_to_end(&mut vm, main), RunState::Faulted(VMOpcode::RETURN));
}

#[test]
fn idle_machine_does_not_run() {
    let mut vm = LuaVM::new();
    assert_eq!(vm.run(&float_arith, 10), RunState::Idle);
    let h = vm.new_value(LuaValue::Boolean(true));
    assert!(matches!(vm.borrow(h), Some(LuaValue::Boolean(true))));
}

#[test]
fn constants_become_values() {
    assert!(matches!(LuaConstant::LUA_TNIL.non_gc_asvalue(), LuaValue::Nil));
    assert!(matches!(LuaConstant::LUA_TBOOLEAN(true).non_gc_asvalue(), LuaValue::Boolean(true)));
    assert!(matches!(num(1.5).non_gc_asvalue(), LuaValue::Number(n) if n == 1.5f64.to_bits()));
    assert!(matches!(text("s").non_gc_asvalue(), LuaValue::String(s) if s == "s"));
}

#[test]
fn inst_stream_walks_and_peeks() {
    let f = proto(&[abx(LOADK, 0, 0), abx(SETGLOBAL, 0, 1), abc(RETURN, 0, 1, 0)], vec![num(1.0), text("a")], vec![]);
    let mut s = InstStream::new(f);
    assert_eq!(s.next().unwrap().opcode, VMOpcode::LOADK);
    assert!(s.next_inst_is(VMOpcode::SETGLOBAL));
    assert!(!s.next_inst_is(VMOpcode::RETURN));
    assert_eq!(s.peek_ahead(2).unwrap().opcode, VMOpcode::RETURN);
    assert!(s.peek_ahead(3).is_none());
    assert!(matches!(s.get_const(1), Some(LuaConstant::LUA_TSTRING(t)) if t == "a"));
    assert!(s.get_const(2).is_none());
    assert_eq!(s.next().unwrap().opcode, VMOpcode::SETGLOBAL);
    assert_eq!(s.next().unwrap().opcode, VMOpcode::RETURN);
    assert!(s.next().is_none());
}

#[test]
fn functions_live_in_the_arena() {
    let mut vm = LuaVM::new();
    let p = Rc::new(proto(&[abc(RETURN, 0, 1, 0)], vec![], vec![]));
    let f = vm.new_function(luavm::vm::LuaFunction::new(p, std::collections::HashMap::new()));
    let g = vm.function(f).unwrap();
    assert_eq!(g.idx, 0);
    assert!(g.upvalues.is_empty());
    assert_eq!(g.prototype.list_instructions.len(), 1);
    assert!(vm.function(luavm::vm::GCLuaFunction { closure: f.closure + 1 }).is_none());
    assert!(vm.upvalue(f, 0).is_none());
}

//! The register machine that runs decoded prototypes.
//!
//! Every slot that holds a value (register, global, upvalue) holds the index of a cell
//! in the machine's cell arena, so that several slots can alias one value. Closures live
//! in an arena too; a value refers to a closure by index, which makes cycles harmless.
use ahash::AHashMap;
use std::collections::HashMap;
use std::rc::Rc;
use vstd::prelude::*;

use crate::chunk::{FunctionBlock, LuaChunk, LuaConstant};
use crate::instruction::{InstParam, VMInst, VMOpcode, MASK_CBIT};
use crate::table::{slot_table, table_get, table_insert, table_new};

verus! {

broadcast use vstd::std_specs::hash::group_hash_axioms;

/// What a value is, with strings as sequences of characters.
pub enum ValueModel {
    Nil,
    Number(u64),
    Boolean(bool),
    Str(Seq<char>),
    Function(usize),
}

/// Handle to a closure of the machine's closure arena.
#[derive(Clone, Copy, Debug, PartialEq, Eq, Structural)]
pub struct GCLuaFunction {
    pub closure: usize,
}

/// Handle to a value cell of the machine's cell arena.
#[derive(Clone, Copy, Debug, PartialEq, Eq, Structural)]
pub struct GCLuaValue {
    pub cell: usize,
}

/// A runtime value. A number is held as the bit pattern of its 64-bit float.
#[derive(Debug)]
pub enum LuaValue {
    Nil,
    Number(u64),
    Boolean(bool),
    String(String),
    Function(GCLuaFunction),
}

impl View for LuaValue {
    type V = ValueModel;

    open spec fn view(&self) -> ValueModel {
        match self {
            LuaValue::Nil => ValueModel::Nil,
            LuaValue::Number(n) => ValueModel::Number(*n),
            LuaValue::Boolean(b) => ValueModel::Boolean(*b),
            LuaValue::String(s) => ValueModel::Str(s@),
            LuaValue::Function(f) => ValueModel::Function(f.closure),
        }
    }
}

/// The value that a constant stands for.
pub open spec fn const_model(c: LuaConstant) -> ValueModel {
    match c {
        LuaConstant::LUA_TNIL => ValueModel::Nil,
        LuaConstant::LUA_TBOOLEAN(b) => ValueModel::Boolean(b),
        LuaConstant::LUA_TNUMBER(n) => ValueModel::Number(n),
        LuaConstant::LUA_TSTRING(s) => ValueModel::Str(s@),
    }
}

impl LuaConstant {
    /// A fresh value equal to the constant.
    pub fn non_gc_asvalue(&self) -> (r: LuaValue)
        ensures
            r@ == const_model(*self),
    {
        match self {
            LuaConstant::LUA_TNIL => LuaValue::Nil,
            LuaConstant::LUA_TBOOLEAN(v) => LuaValue::Boolean(*v),
            LuaConstant::LUA_TNUMBER(v) => LuaValue::Number(*v),
            LuaConstant::LUA_TSTRING(v) => LuaValue::String(v.clone()),
        }
    }
}

/// A function value: a shared prototype and the cells its upvalue slots are bound to.
pub struct LuaFunction {
    pub prototype: Rc<FunctionBlock>,
    pub upvalues: HashMap<u32, usize>,
    pub idx: usize,
}

impl LuaFunction {
    /// A closure over `prototype` that starts at its first instruction.
    pub fn new(prototype: Rc<FunctionBlock>, upvalues: HashMap<u32, usize>) -> (r: LuaFunction)
        ensures
            r.prototype == prototype,
            r.upvalues@ == upvalues@,
            r.idx == 0,
    {
        LuaFunction { prototype, idx: 0, upvalues }
    }
}

/// One active call: the closure that runs, its register window and its cursor, and
/// where its results go in the caller.
#[derive(Clone, Copy, Debug, PartialEq, Eq, Structural)]
pub struct Frame {
    pub closure: usize,
    pub base: u32,
    pub pc: usize,
    pub call_a: u32,
    pub call_c: u32,
    pub tail: bool,
}

/// Whether the machine runs, and how it stopped.
#[derive(Clone, Copy, Debug, PartialEq, Eq, Structural)]
pub enum RunState {
    Running,
    /// The top-level function executed a RETURN.
    Returned,
    /// The top-level function ran past its last instruction.
    Exhausted,
    /// An instruction failed; the run is over.
    Faulted(VMOpcode),
    /// The machine holds no call to run.
    Idle,
}

/// The operand at position `i` when it is an unsigned one.
pub open spec fn operand(ps: Seq<InstParam>, i: int) -> Option<u32> {
    if 0 <= i < ps.len() && ps[i].is_unsigned() {
        Some(ps[i].num())
    } else {
        None
    }
}

/// Absolute index of relative register `r` in the window at `base`, if it fits.
pub open spec fn abs_index(base: u32, r: u32) -> Option<u32> {
    if base as int + r as int <= u32::MAX as int {
        Some((base + r) as u32)
    } else {
        None
    }
}

/// The cell that relative register `r` of the window at `base` holds.
pub open spec fn reg_of(regs: Map<u32, usize>, base: u32, r: u32) -> Option<usize> {
    match abs_index(base, r) {
        Some(i) => if regs.contains_key(i) {
            Some(regs[i])
        } else {
            None
        },
        None => None,
    }
}

/// The cells of the `n` registers from absolute index `start` on, if all are bound.
pub open spec fn reg_span(regs: Map<u32, usize>, start: int, n: nat) -> Option<Seq<usize>>
    decreases n,
{
    if n == 0 {
        Some(Seq::empty())
    } else {
        match reg_span(regs, start, (n - 1) as nat) {
            Some(s) => {
                let i = start + n - 1;
                if 0 <= i <= u32::MAX as int && regs.contains_key(i as u32) {
                    Some(s.push(regs[i as u32]))
                } else {
                    None
                }
            },
            None => None,
        }
    }
}

/// `regs` with `vals` written to the registers from absolute index `start` on.
pub open spec fn splice(regs: Map<u32, usize>, start: int, vals: Seq<usize>) -> Map<u32, usize>
    decreases vals.len(),
{
    if vals.len() == 0 {
        regs
    } else {
        splice(regs, start, vals.drop_last()).insert(
            (start + vals.len() - 1) as u32,
            vals.last(),
        )
    }
}

/// Globals table after SETGLOBAL stores `cell` under constant-pool index `k`.
pub open spec fn set_global(g: Map<u32, usize>, k: u32, cell: usize) -> Map<u32, usize> {
    g.insert(k, cell)
}

/// The cell that GETGLOBAL with constant-pool index `k` reads.
pub open spec fn get_global(g: Map<u32, usize>, k: u32) -> Option<usize> {
    if g.contains_key(k) {
        Some(g[k])
    } else {
        None
    }
}

/// The machine: a flat register space addressed through the window of the active call,
/// a globals table keyed by constant-pool index, the cell and closure arenas, and the
/// stack of active calls.
pub struct LuaVM {
    registers: AHashMap<u32, usize>,
    globals: AHashMap<u32, usize>,
    cells: Vec<LuaValue>,
    closures: Vec<LuaFunction>,
    frames: Vec<Frame>,
    top: Option<u32>,
    last_op: Option<(VMOpcode, u32)>,
    state: RunState,
    results: Vec<usize>,
}

impl LuaVM {
    /// Absolute register index to cell.
    pub closed spec fn regs(&self) -> Map<u32, usize> {
        slot_table(self.registers)
    }

    /// Constant-pool index to cell.
    pub closed spec fn globs(&self) -> Map<u32, usize> {
        slot_table(self.globals)
    }

    /// The values of the cells.
    pub closed spec fn cells(&self) -> Seq<ValueModel> {
        self.cells@.map_values(|v: LuaValue| v@)
    }

    /// The closures.
    pub closed spec fn closures(&self) -> Seq<LuaFunction> {
        self.closures@
    }

    /// The active calls, innermost last.
    pub closed spec fn frames(&self) -> Seq<Frame> {
        self.frames@
    }

    /// One past the last register filled by an open-ended call, relative to the window.
    pub closed spec fn top(&self) -> Option<u32> {
        self.top
    }

    /// Opcode and first operand of the last instruction that completed.
    pub closed spec fn last_op(&self) -> Option<(VMOpcode, u32)> {
        self.last_op
    }

    /// Whether the machine runs.
    pub closed spec fn state(&self) -> RunState {
        self.state
    }

    /// The cells returned by the top-level function.
    pub closed spec fn results(&self) -> Seq<usize> {
        self.results@
    }

    pub open spec fn running(&self) -> bool {
        self.state() == RunState::Running
    }

    /// The innermost active call.
    pub open spec fn frame(&self) -> Frame {
        self.frames().last()
    }

    /// There is an active call, and its closure exists.
    pub open spec fn has_frame(&self) -> bool {
        self.frames().len() > 0 && self.frame().closure < self.closures().len()
    }

    /// The prototype of the active call.
    pub open spec fn proto(&self) -> FunctionBlock {
        *self.closures()[self.frame().closure as int].prototype
    }

    /// The active call has run past its last instruction.
    pub open spec fn at_end(&self) -> bool {
        self.frame().pc >= self.proto().list_instructions@.len()
    }

    /// The instruction of the active call under its cursor.
    pub open spec fn inst(&self) -> (VMOpcode, Seq<InstParam>) {
        self.proto().list_instructions@[self.frame().pc as int].spec_view()
    }

    /// The cell of relative register `r` in the active window.
    pub open spec fn reg(&self, r: u32) -> Option<usize> {
        reg_of(self.regs(), self.frame().base, r)
    }

    /// The value of a cell.
    pub open spec fn value_at(&self, cell: usize) -> Option<ValueModel> {
        if cell < self.cells().len() {
            Some(self.cells()[cell as int])
        } else {
            None
        }
    }

    /// A B or C operand: a constant when the constant bit is set, else a register.
    pub open spec fn rk(&self, x: u32) -> Option<ValueModel> {
        if x & MASK_CBIT != 0 {
            let k = x & !MASK_CBIT;
            if k < self.proto().list_const@.len() {
                Some(const_model(self.proto().list_const@[k as int]))
            } else {
                None
            }
        } else {
            match self.reg(x) {
                Some(c) => self.value_at(c),
                None => None,
            }
        }
    }
}

/// The first operand as a number, or zero where there is none.
pub open spec fn first_num(ps: Seq<InstParam>) -> u32 {
    match operand(ps, 0) {
        Some(a) => a,
        None => 0,
    }
}

/// `f` with its cursor one instruction further.
pub open spec fn stepped(f: Frame) -> Frame {
    Frame {
        closure: f.closure,
        base: f.base,
        pc: (f.pc + 1) as usize,
        call_a: f.call_a,
        call_c: f.call_c,
        tail: f.tail,
    }
}

/// `post` goes on with the instruction after the one `pre` executes.
pub open spec fn moves_on(pre: LuaVM, post: LuaVM) -> bool {
    &&& post.frames() == pre.frames().update(pre.frames().len() - 1, stepped(pre.frame()))
    &&& post.last_op() == Some((pre.inst().0, first_num(pre.inst().1)))
    &&& post.state() == RunState::Running
    &&& post.results() == pre.results()
}

/// Globals, closures and the top marker are as before.
pub open spec fn keeps_tables(pre: LuaVM, post: LuaVM) -> bool {
    &&& post.globs() == pre.globs()
    &&& post.closures() == pre.closures()
    &&& post.top() == pre.top()
}

/// The instruction failed: the run is over.
pub open spec fn faults(pre: LuaVM, post: LuaVM) -> bool {
    post.state() == RunState::Faulted(pre.inst().0)
}

/// Relative register `a` of the active window now holds `cell`; no other register changed.
pub open spec fn writes_reg(pre: LuaVM, post: LuaVM, a: u32, cell: usize) -> bool {
    match abs_index(pre.frame().base, a) {
        Some(i) => post.regs() == pre.regs().insert(i, cell),
        None => false,
    }
}

/// Closure `ci` has upvalue slot `slot` bound to `cell`; nothing else of the closures changed.
pub open spec fn binds_upvalue(pre: LuaVM, post: LuaVM, ci: usize, slot: u32, cell: usize) -> bool {
    &&& post.closures().len() == pre.closures().len()
    &&& forall|j: int|
        0 <= j < pre.closures().len() && j != ci ==> #[trigger] post.closures()[j]
            == pre.closures()[j]
    &&& post.closures()[ci as int].prototype == pre.closures()[ci as int].prototype
    &&& post.closures()[ci as int].idx == pre.closures()[ci as int].idx
    &&& post.closures()[ci as int].upvalues@ == pre.closures()[ci as int].upvalues@.insert(
        slot,
        cell,
    )
}

/// A register write of `cell` into `a` that leaves all else but the cursor as it was.
pub open spec fn reg_write_post(pre: LuaVM, post: LuaVM, a: u32, cell: usize) -> bool {
    &&& writes_reg(pre, post, a, cell)
    &&& post.cells() == pre.cells()
    &&& keeps_tables(pre, post)
    &&& moves_on(pre, post)
}

/// LOADK A Bx: a fresh cell holding constant Bx goes into register A.
pub open spec fn loadk_post(pre: LuaVM, post: LuaVM) -> bool {
    let ps = pre.inst().1;
    match (operand(ps, 0), operand(ps, 1)) {
        (Some(a), Some(bx)) => if bx < pre.proto().list_const@.len() && abs_index(
            pre.frame().base,
            a,
        ) is Some {
            &&& post.cells() == pre.cells().push(const_model(pre.proto().list_const@[bx as int]))
            &&& writes_reg(pre, post, a, pre.cells().len() as usize)
            &&& keeps_tables(pre, post)
            &&& moves_on(pre, post)
        } else {
            faults(pre, post)
        },
        _ => faults(pre, post),
    }
}

/// Ordinary MOVE A B: register A gets the cell of register B.
pub open spec fn plain_move_post(pre: LuaVM, post: LuaVM, a: u32, b: u32) -> bool {
    match pre.reg(b) {
        Some(c) => if abs_index(pre.frame().base, a) is Some {
            reg_write_post(pre, post, a, c)
        } else {
            faults(pre, post)
        },
        None => faults(pre, post),
    }
}

/// MOVE A B right after CLOSURE into register `ca`: upvalue slot A of that closure is
/// bound to the cell of register B, and no register changes.
pub open spec fn capture_post(pre: LuaVM, post: LuaVM, ca: u32, a: u32, b: u32) -> bool {
    match pre.reg(ca) {
        Some(fc) => match pre.value_at(fc) {
            Some(ValueModel::Function(ci)) => if ci < pre.closures().len() {
                match pre.reg(b) {
                    Some(c) => {
                        &&& binds_upvalue(pre, post, ci, a, c)
                        &&& post.regs() == pre.regs()
                        &&& post.cells() == pre.cells()
                        &&& post.globs() == pre.globs()
                        &&& post.top() == pre.top()
                        &&& moves_on(pre, post)
                    },
                    None => faults(pre, post),
                }
            } else {
                faults(pre, post)
            },
            Some(_) => plain_move_post(pre, post, a, b),
            None => faults(pre, post),
        },
        None => faults(pre, post),
    }
}

/// MOVE A B.
pub open spec fn move_post(pre: LuaVM, post: LuaVM) -> bool {
    let ps = pre.inst().1;
    match (operand(ps, 0), operand(ps, 1)) {
        (Some(a), Some(b)) => match pre.last_op() {
            Some((VMOpcode::CLOSURE, ca)) => capture_post(pre, post, ca, a, b),
            _ => plain_move_post(pre, post, a, b),
        },
        _ => faults(pre, post),
    }
}

/// GETUPVAL A B: register A gets the cell bound to upvalue slot B of the running closure.
pub open spec fn getupval_post(pre: LuaVM, post: LuaVM) -> bool {
    let ps = pre.inst().1;
    let ups = pre.closures()[pre.frame().closure as int].upvalues@;
    match (operand(ps, 0), operand(ps, 1)) {
        (Some(a), Some(b)) => if ups.contains_key(b) && abs_index(pre.frame().base, a) is Some {
            reg_write_post(pre, post, a, ups[b])
        } else {
            faults(pre, post)
        },
        _ => faults(pre, post),
    }
}

/// SETUPVAL A B: upvalue slot B of the running closure is bound to the cell of register A.
pub open spec fn setupval_post(pre: LuaVM, post: LuaVM) -> bool {
    let ps = pre.inst().1;
    match (operand(ps, 0), operand(ps, 1)) {
        (Some(a), Some(b)) => match pre.reg(a) {
            Some(c) => {
                &&& binds_upvalue(pre, post, pre.frame().closure, b, c)
                &&& post.regs() == pre.regs()
                &&& post.cells() == pre.cells()
                &&& post.globs() == pre.globs()
                &&& post.top() == pre.top()
                &&& moves_on(pre, post)
            },
            None => faults(pre, post),
        },
        _ => faults(pre, post),
    }
}

/// GETGLOBAL A Bx: register A gets the cell stored under constant-pool index Bx.
pub open spec fn getglobal_post(pre: LuaVM, post: LuaVM) -> bool {
    let ps = pre.inst().1;
    match (operand(ps, 0), operand(ps, 1)) {
        (Some(a), Some(bx)) => match get_global(pre.globs(), bx) {
            Some(c) => if abs_index(pre.frame().base, a) is Some {
                reg_write_post(pre, post, a, c)
            } else {
                faults(pre, post)
            },
            None => faults(pre, post),
        },
        _ => faults(pre, post),
    }
}

/// SETGLOBAL A Bx: the cell of register A is stored under constant-pool index Bx.
pub open spec fn setglobal_post(pre: LuaVM, post: LuaVM) -> bool {
    let ps = pre.inst().1;
    match (operand(ps, 0), operand(ps, 1)) {
        (Some(a), Some(bx)) => match pre.reg(a) {
            Some(c) => {
                &&& post.globs() == set_global(pre.globs(), bx, c)
                &&& post.regs() == pre.regs()
                &&& post.cells() == pre.cells()
                &&& post.closures() == pre.closures()
                &&& post.top() == pre.top()
                &&& moves_on(pre, post)
            },
            None => faults(pre, post),
        },
        _ => faults(pre, post),
    }
}

/// CLOSURE A Bx: a new closure over nested prototype Bx, with no upvalues bound, goes
/// into register A.
pub open spec fn closure_post(pre: LuaVM, post: LuaVM) -> bool {
    let ps = pre.inst().1;
    let n = pre.closures().len();
    match (operand(ps, 0), operand(ps, 1)) {
        (Some(a), Some(bx)) => if bx < pre.proto().list_fnproto@.len() && abs_index(
            pre.frame().base,
            a,
        ) is Some {
            &&& post.closures().len() == n + 1
            &&& post.closures().subrange(0, n as int) == pre.closures()
            &&& post.closures()[n as int].prototype == pre.proto().list_fnproto@[bx as int]
            &&& post.closures()[n as int].upvalues@ == Map::<u32, usize>::empty()
            &&& post.closures()[n as int].idx == 0
            &&& post.cells() == pre.cells().push(ValueModel::Function(n as usize))
            &&& writes_reg(pre, post, a, pre.cells().len() as usize)
            &&& post.globs() == pre.globs()
            &&& post.top() == pre.top()
            &&& moves_on(pre, post)
        } else {
            faults(pre, post)
        },
        _ => faults(pre, post),
    }
}

/// ADD, SUB, MUL, DIV, MOD, POW A B C: where both operands are numbers, register A gets a
/// fresh cell holding what `arith` gives for them; otherwise nothing is written.
pub open spec fn arith_post<F: Fn(VMOpcode, u64, u64) -> u64>(
    pre: LuaVM,
    post: LuaVM,
    arith: F,
) -> bool {
    let ps = pre.inst().1;
    match (operand(ps, 0), operand(ps, 1), operand(ps, 2)) {
        (Some(a), Some(b), Some(c)) => match (pre.rk(b), pre.rk(c)) {
            (Some(ValueModel::Number(x)), Some(ValueModel::Number(y))) => if abs_index(
                pre.frame().base,
                a,
            ) is Some {
                &&& post.cells() == pre.cells().push(post.cells().last())
                &&& post.cells().last() matches ValueModel::Number(r) && arith.ensures(
                    (pre.inst().0, x, y),
                    r,
                )
                &&& writes_reg(pre, post, a, pre.cells().len() as usize)
                &&& keeps_tables(pre, post)
                &&& moves_on(pre, post)
            } else {
                faults(pre, post)
            },
            (Some(_), Some(_)) => {
                &&& post.regs() == pre.regs()
                &&& post.cells() == pre.cells()
                &&& keeps_tables(pre, post)
                &&& moves_on(pre, post)
            },
            _ => faults(pre, post),
        },
        _ => faults(pre, post),
    }
}

/// Base of the window of a call made by CALL or TAILCALL A B from window `base`.
pub open spec fn call_base(base: u32, a: u32, b: u32) -> int {
    if b >= 2 {
        base + a + 1
    } else {
        base as int
    }
}

/// CALL or TAILCALL A B C: register A must hold a function; a new call of it starts.
pub open spec fn call_post(pre: LuaVM, post: LuaVM) -> bool {
    let ps = pre.inst().1;
    let op = pre.inst().0;
    match (operand(ps, 0), operand(ps, 1), operand(ps, 2)) {
        (Some(a), Some(b), Some(c)) => match pre.reg(a) {
            Some(fc) => match pre.value_at(fc) {
                Some(ValueModel::Function(ci)) => {
                    let nb = call_base(pre.frame().base, a, b);
                    if ci < pre.closures().len() && nb <= u32::MAX as int {
                        &&& post.frames() == pre.frames().push(
                            Frame {
                                closure: ci,
                                base: nb as u32,
                                pc: pre.closures()[ci as int].idx,
                                call_a: a,
                                call_c: c,
                                tail: op == VMOpcode::TAILCALL,
                            },
                        )
                        &&& post.state() == RunState::Running
                        &&& post.regs() == pre.regs()
                        &&& post.cells() == pre.cells()
                        &&& keeps_tables(pre, post)
                        &&& post.last_op() == pre.last_op()
                        &&& post.results() == pre.results()
                    } else {
                        faults(pre, post)
                    }
                },
                Some(_) => faults(pre, post),
                None => faults(pre, post),
            },
            None => faults(pre, post),
        },
        _ => faults(pre, post),
    }
}

/// The cells that RETURN A B hands back: B-1 registers from A on; for B = 0, the
/// registers from A up to the top marker.
pub open spec fn return_span(pre: LuaVM, a: u32, b: u32) -> Option<Seq<usize>> {
    let start = pre.frame().base + a;
    if b >= 2 {
        reg_span(pre.regs(), start, (b - 1) as nat)
    } else if b == 1 {
        Some(Seq::empty())
    } else {
        match pre.top() {
            Some(t) => reg_span(
                pre.regs(),
                start,
                if t > a {
                    (t - a) as nat
                } else {
                    0
                },
            ),
            None => None,
        }
    }
}

/// The active call ends with `vals`. At top level the run stops; otherwise the values
/// go to the caller's registers from the call register on, and the caller goes on.
pub open spec fn finish_post(pre: LuaVM, post: LuaVM, vals: Seq<usize>, returned: bool) -> bool {
    let callee = pre.frame();
    let rest = pre.frames().drop_last();
    if pre.frames().len() == 1 {
        &&& post.frames() == rest
        &&& post.state() == (if returned {
            RunState::Returned
        } else {
            RunState::Exhausted
        })
        &&& post.results() == vals
        &&& post.regs() == pre.regs()
        &&& post.cells() == pre.cells()
        &&& keeps_tables(pre, post)
    } else {
        let caller = rest.last();
        let start = caller.base + callee.call_a;
        let op = if callee.tail {
            VMOpcode::TAILCALL
        } else {
            VMOpcode::CALL
        };
        if start + vals.len() <= u32::MAX as int && caller.pc < usize::MAX {
            &&& post.regs() == splice(pre.regs(), start, vals)
            &&& post.frames() == rest.update(rest.len() - 1, stepped(caller))
            &&& post.top() == (if callee.call_c == 0 || callee.tail {
                Some((callee.call_a + vals.len()) as u32)
            } else {
                pre.top()
            })
            &&& post.last_op() == Some((op, callee.call_a))
            &&& post.state() == RunState::Running
            &&& post.cells() == pre.cells()
            &&& post.globs() == pre.globs()
            &&& post.closures() == pre.closures()
            &&& post.results() == pre.results()
        } else {
            post.state() == RunState::Faulted(op)
        }
    }
}

/// RETURN A B.
pub open spec fn return_post(pre: LuaVM, post: LuaVM) -> bool {
    let ps = pre.inst().1;
    match (operand(ps, 0), operand(ps, 1)) {
        (Some(a), Some(b)) => match return_span(pre, a, b) {
            Some(vals) => finish_post(pre, post, vals, true),
            None => faults(pre, post),
        },
        _ => faults(pre, post),
    }
}

/// An opcode that is decoded but not executed: only the cursor moves.
pub open spec fn noop_post(pre: LuaVM, post: LuaVM) -> bool {
    &&& post.regs() == pre.regs()
    &&& post.cells() == pre.cells()
    &&& keeps_tables(pre, post)
    &&& moves_on(pre, post)
}

/// What executing the current instruction of `pre` leads to.
pub open spec fn inst_post<F: Fn(VMOpcode, u64, u64) -> u64>(
    pre: LuaVM,
    post: LuaVM,
    arith: F,
) -> bool {
    match pre.inst().0 {
        VMOpcode::LOADK => loadk_post(pre, post),
        VMOpcode::MOVE => move_post(pre, post),
        VMOpcode::GETUPVAL => getupval_post(pre, post),
        VMOpcode::SETUPVAL => setupval_post(pre, post),
        VMOpcode::GETGLOBAL => getglobal_post(pre, post),
        VMOpcode::SETGLOBAL => setglobal_post(pre, post),
        VMOpcode::CLOSURE => closure_post(pre, post),
        VMOpcode::ADD | VMOpcode::SUB | VMOpcode::MUL | VMOpcode::DIV | VMOpcode::MOD
        | VMOpcode::POW => arith_post(pre, post, arith),
        VMOpcode::CALL | VMOpcode::TAILCALL => call_post(pre, post),
        VMOpcode::RETURN => return_post(pre, post),
        _ => noop_post(pre, post),
    }
}

/// What one step of `pre` leads to.
pub open spec fn step_post<F: Fn(VMOpcode, u64, u64) -> u64>(
    pre: LuaVM,
    post: LuaVM,
    arith: F,
) -> bool {
    if !pre.running() {
        post == pre
    } else if !pre.has_frame() {
        post.state() == RunState::Idle
    } else if pre.at_end() {
        finish_post(pre, post, Seq::empty(), false)
    } else {
        inst_post(pre, post, arith)
    }
}

/// `post` is reached from `pre` by exactly `n` steps.
pub open spec fn runs<F: Fn(VMOpcode, u64, u64) -> u64>(
    pre: LuaVM,
    post: LuaVM,
    arith: F,
    n: nat,
) -> bool
    decreases n,
{
    if n == 0 {
        post == pre
    } else {
        exists|mid: LuaVM| #[trigger] step_post(pre, mid, arith) && runs(mid, post, arith, (n - 1) as nat)
    }
}

/// `post` is `pre` with a closure over `func` as its one active call, about to run its
/// first instruction.
pub open spec fn started(pre: LuaVM, post: LuaVM, func: FunctionBlock) -> bool {
    let n = pre.closures().len();
    &&& post.closures().len() == n + 1
    &&& post.closures().subrange(0, n as int) == pre.closures()
    &&& *post.closures()[n as int].prototype == func
    &&& post.closures()[n as int].upvalues@ == Map::<u32, usize>::empty()
    &&& post.closures()[n as int].idx == 0
    &&& post.frames() == seq![
        Frame { closure: n as usize, base: 0, pc: 0, call_a: 0, call_c: 1, tail: false },
    ]
    &&& post.state() == RunState::Running
    &&& post.top() is None
    &&& post.last_op() is None
    &&& post.regs() == pre.regs()
    &&& post.globs() == pre.globs()
    &&& post.cells() == pre.cells()
}

/// A machine that ran past the end of its top-level function holds no results, provided
/// the run began from a state that held none or was still running.
proof fn lemma_exhausted_has_no_results<F: Fn(VMOpcode, u64, u64) -> u64>(
    pre: LuaVM,
    post: LuaVM,
    arith: F,
    n: nat,
)
    requires
        pre.running(),
        runs(pre, post, arith, n),
    ensures
        post.state() == RunState::Exhausted ==> post.results().len() == 0,
    decreases n,
{
    if n > 0 {
        let mid = choose|mid: LuaVM| #[trigger] step_post(pre, mid, arith) && runs(mid, post, arith, (n - 1) as nat);
        if mid.running() {
            lemma_exhausted_has_no_results(mid, post, arith, (n - 1) as nat);
        } else {
            lemma_stopped_stays(mid, post, arith, (n - 1) as nat);
        }
    }
}

/// A stopped machine stays as it is, however many steps follow; in particular no
/// instruction of any call runs after a fault.
pub proof fn lemma_stopped_stays<F: Fn(VMOpcode, u64, u64) -> u64>(
    pre: LuaVM,
    post: LuaVM,
    arith: F,
    n: nat,
)
    requires
        !pre.running(),
        runs(pre, post, arith, n),
    ensures
        post == pre,
    decreases n,
{
    if n > 0 {
        let mid = choose|mid: LuaVM| #[trigger] step_post(pre, mid, arith) && runs(mid, post, arith, (n - 1) as nat);
        lemma_stopped_stays(mid, post, arith, (n - 1) as nat);
    }
}

/// One more step extends a run.
proof fn lemma_runs_append<F: Fn(VMOpcode, u64, u64) -> u64>(
    a: LuaVM,
    b: LuaVM,
    c: LuaVM,
    arith: F,
    n: nat,
)
    requires
        runs(a, b, arith, n),
        step_post(b, c, arith),
    ensures
        runs(a, c, arith, n + 1),
    decreases n,
{
    if n == 0 {
        assert(runs(c, c, arith, 0));
        assert(step_post(a, c, arith) && runs(c, c, arith, 0));
    } else {
        let mid = choose|mid: LuaVM| #[trigger] step_post(a, mid, arith) && runs(mid, b, arith, (n - 1) as nat);
        lemma_runs_append(mid, b, c, arith, (n - 1) as nat);
        assert(step_post(a, mid, arith) && runs(mid, c, arith, n));
    }
}

/// `vm` is running `inst`, the instruction under the cursor of its active call `fr`.
pub open spec fn ready(vm: LuaVM, fr: Frame, inst: VMInst) -> bool {
    &&& vm.running()
    &&& vm.has_frame()
    &&& !vm.at_end()
    &&& fr == vm.frame()
    &&& fr.pc < usize::MAX
    &&& inst.spec_view() == vm.inst()
}

/// An unsigned operand of the instruction, by position.
fn operand_at(inst: &VMInst, i: usize) -> (r: Option<u32>)
    ensures
        r == operand(inst.params@, i as int),
{
    if i < inst.params.len() {
        match inst.params[i] {
            InstParam::sBx(_) => None,
            p => Some(p.get_num_val()),
        }
    } else {
        None
    }
}

/// Once `reg_span` finds an unbound register, every longer span fails too.
proof fn lemma_reg_span_none(regs: Map<u32, usize>, start: int, m: nat, n: nat)
    requires
        m <= n,
        reg_span(regs, start, m) is None,
    ensures
        reg_span(regs, start, n) is None,
    decreases n,
{
    if m < n {
        lemma_reg_span_none(regs, start, m, (n - 1) as nat);
    }
}

impl LuaVM {
    /// A machine with no calls, registers, globals, cells or closures.
    pub fn new() -> (r: LuaVM)
        ensures
            r.regs().dom() == Set::<u32>::empty(),
            r.globs().dom() == Set::<u32>::empty(),
            r.cells().len() == 0,
            r.closures().len() == 0,
            r.frames().len() == 0,
            r.top() is None,
            r.last_op() is None,
            r.state() == RunState::Idle,
    {
        LuaVM {
            registers: table_new(),
            globals: table_new(),
            cells: Vec::new(),
            closures: Vec::new(),
            frames: Vec::new(),
            top: None,
            last_op: None,
            state: RunState::Idle,
            results: Vec::new(),
        }
    }

    fn fault(&mut self, op: VMOpcode)
        ensures
            final(self).state() == RunState::Faulted(op),
    {
        self.state = RunState::Faulted(op);
    }

    fn get_reg(&self, base: u32, r: u32) -> (res: Option<usize>)
        ensures
            res == reg_of(self.regs(), base, r),
    {
        if r > u32::MAX - base {
            None
        } else {
            table_get(&self.registers, base + r)
        }
    }

    fn set_reg(&mut self, base: u32, r: u32, cell: usize)
        requires
            abs_index(base, r) is Some,
        ensures
            final(self).regs() == old(self).regs().insert((base + r) as u32, cell),
            *final(self) == (LuaVM { registers: final(self).registers, ..*old(self) }),
    {
        table_insert(&mut self.registers, base + r, cell);
    }

    fn new_cell(&mut self, v: LuaValue) -> (r: usize)
        ensures
            r == old(self).cells().len(),
            final(self).cells() == old(self).cells().push(v@),
            *final(self) == (LuaVM { cells: final(self).cells, ..*old(self) }),
    {
        let r = self.cells.len();
        self.cells.push(v);
        assert(self.cells() =~= old(self).cells().push(v@));
        r
    }

    fn move_on(&mut self, op: VMOpcode, a0: u32)
        requires
            old(self).frames().len() > 0,
            old(self).frame().pc < usize::MAX,
        ensures
            final(self).frames() == old(self).frames().update(
                old(self).frames().len() - 1,
                stepped(old(self).frame()),
            ),
            final(self).last_op() == Some((op, a0)),
            *final(self) == (LuaVM {
                frames: final(self).frames,
                last_op: final(self).last_op,
                ..*old(self)
            }),
    {
        let n = self.frames.len();
        let f = self.frames[n - 1];
        self.frames.set(
            n - 1,
            Frame {
                closure: f.closure,
                base: f.base,
                pc: f.pc + 1,
                call_a: f.call_a,
                call_c: f.call_c,
                tail: f.tail,
            },
        );
        self.last_op = Some((op, a0));
    }

    fn bind_upvalue(&mut self, ci: usize, slot: u32, cell: usize)
        requires
            ci < old(self).closures().len(),
        ensures
            binds_upvalue(*old(self), *final(self), ci, slot, cell),
            *final(self) == (LuaVM { closures: final(self).closures, ..*old(self) }),
    {
        let f = &self.closures[ci];
        let mut ups = f.upvalues.clone();
        ups.insert(slot, cell);
        let nf = LuaFunction { prototype: f.prototype.clone(), upvalues: ups, idx: f.idx };
        self.closures.set(ci, nf);
    }

    fn exec_loadk(&mut self, fr: Frame, proto: &FunctionBlock, inst: &VMInst)
        requires
            ready(*old(self), fr, *inst),
            *proto == old(self).proto(),
        ensures
            loadk_post(*old(self), *final(self)),
    {
        let op = inst.opcode;
        let (a, bx) = match (operand_at(inst, 0), operand_at(inst, 1)) {
            (Some(a), Some(bx)) => (a, bx),
            _ => {
                self.fault(op);
                return ;
            },
        };
        if bx as usize >= proto.list_const.len() || a > u32::MAX - fr.base {
            self.fault(op);
            return ;
        }
        let v = proto.list_const[bx as usize].non_gc_asvalue();
        let cell = self.new_cell(v);
        self.set_reg(fr.base, a, cell);
        self.move_on(op, a);
    }

    fn plain_move(&mut self, fr: Frame, inst: &VMInst, a: u32, b: u32)
        requires
            ready(*old(self), fr, *inst),
            operand(inst.params@, 0) == Some(a),
        ensures
            plain_move_post(*old(self), *final(self), a, b),
    {
        match self.get_reg(fr.base, b) {
            Some(c) => {
                if a > u32::MAX - fr.base {
                    self.fault(inst.opcode);
                } else {
                    self.set_reg(fr.base, a, c);
                    self.move_on(inst.opcode, a);
                }
            },
            None => self.fault(inst.opcode),
        }
    }

    fn exec_move(&mut self, fr: Frame, inst: &VMInst)
        requires
            ready(*old(self), fr, *inst),
            inst.opcode == VMOpcode::MOVE,
        ensures
            move_post(*old(self), *final(self)),
    {
        let op = inst.opcode;
        let (a, b) = match (operand_at(inst, 0), operand_at(inst, 1)) {
            (Some(a), Some(b)) => (a, b),
            _ => {
                self.fault(op);
                return ;
            },
        };
        match self.last_op {
            Some((VMOpcode::CLOSURE, ca)) => {
                let fc = match self.get_reg(fr.base, ca) {
                    Some(c) => c,
                    None => {
                        self.fault(op);
                        return ;
                    },
                };
                if fc >= self.cells.len() {
                    self.fault(op);
                    return ;
                }
                let target = match &self.cells[fc] {
                    LuaValue::Function(f) => Some(f.closure),
                    _ => None,
                };
                match target {
                    Some(ci) => {
                        if ci >= self.closures.len() {
                            self.fault(op);
                            return ;
                        }
                        let c = match self.get_reg(fr.base, b) {
                            Some(c) => c,
                            None => {
                                self.fault(op);
                                return ;
                            },
                        };
                        self.bind_upvalue(ci, a, c);
                        self.move_on(op, a);
                    },
                    None => self.plain_move(fr, inst, a, b),
                }
            },
            _ => self.plain_move(fr, inst, a, b),
        }
    }

    fn exec_getupval(&mut self, fr: Frame, inst: &VMInst)
        requires
            ready(*old(self), fr, *inst),
        ensures
            getupval_post(*old(self), *final(self)),
    {
        let op = inst.opcode;
        let (a, b) = match (operand_at(inst, 0), operand_at(inst, 1)) {
            (Some(a), Some(b)) => (a, b),
            _ => {
                self.fault(op);
                return ;
            },
        };
        let c = match self.closures[fr.closure].upvalues.get(&b) {
            Some(c) => *c,
            None => {
                self.fault(op);
                return ;
            },
        };
        if a > u32::MAX - fr.base {
            self.fault(op);
            return ;
        }
        self.set_reg(fr.base, a, c);
        self.move_on(op, a);
    }

    fn exec_setupval(&mut self, fr: Frame, inst: &VMInst)
        requires
            ready(*old(self), fr, *inst),
        ensures
            setupval_post(*old(self), *final(self)),
    {
        let op = inst.opcode;
        let (a, b) = match (operand_at(inst, 0), operand_at(inst, 1)) {
            (Some(a), Some(b)) => (a, b),
            _ => {
                self.fault(op);
                return ;
            },
        };
        let c = match self.get_reg(fr.base, a) {
            Some(c) => c,
            None => {
                self.fault(op);
                return ;
            },
        };
        self.bind_upvalue(fr.closure, b, c);
        self.move_on(op, a);
    }

    fn exec_getglobal(&mut self, fr: Frame, inst: &VMInst)
        requires
            ready(*old(self), fr, *inst),
        ensures
            getglobal_post(*old(self), *final(self)),
    {
        let op = inst.opcode;
        let (a, bx) = match (operand_at(inst, 0), operand_at(inst, 1)) {
            (Some(a), Some(bx)) => (a, bx),
            _ => {
                self.fault(op);
                return ;
            },
        };
        let c = match table_get(&self.globals, bx) {
            Some(c) => c,
            None => {
                self.fault(op);
                return ;
            },
        };
        if a > u32::MAX - fr.base {
            self.fault(op);
            return ;
        }
        self.set_reg(fr.base, a, c);
        self.move_on(op, a);
    }

    fn exec_setglobal(&mut self, fr: Frame, inst: &VMInst)
        requires
            ready(*old(self), fr, *inst),
        ensures
            setglobal_post(*old(self), *final(self)),
    {
        let op = inst.opcode;
        let (a, bx) = match (operand_at(inst, 0), operand_at(inst, 1)) {
            (Some(a), Some(bx)) => (a, bx),
            _ => {
                self.fault(op);
                return ;
            },
        };
        let c = match self.get_reg(fr.base, a) {
            Some(c) => c,
            None => {
                self.fault(op);
                return ;
            },
        };
        table_insert(&mut self.globals, bx, c);
        self.move_on(op, a);
    }

    fn exec_closure(&mut self, fr: Frame, proto: &FunctionBlock, inst: &VMInst)
        requires
            ready(*old(self), fr, *inst),
            *proto == old(self).proto(),
        ensures
            closure_post(*old(self), *final(self)),
    {
        let op = inst.opcode;
        let (a, bx) = match (operand_at(inst, 0), operand_at(inst, 1)) {
            (Some(a), Some(bx)) => (a, bx),
            _ => {
                self.fault(op);
                return ;
            },
        };
        if bx as usize >= proto.list_fnproto.len() || a > u32::MAX - fr.base {
            self.fault(op);
            return ;
        }
        let p = proto.list_fnproto[bx as usize].clone();
        let n = self.closures.len();
        self.closures.push(LuaFunction::new(p, HashMap::new()));
        let cell = self.new_cell(LuaValue::Function(GCLuaFunction { closure: n }));
        self.set_reg(fr.base, a, cell);
        self.move_on(op, a);
        assert(self.closures().subrange(0, n as int) =~= old(self).closures());
    }

    /// The number a B or C operand resolves to: `None` where it resolves to nothing,
    /// `Some(None)` where it resolves to a value that is not a number.
    fn resolve(&self, fr: Frame, proto: &FunctionBlock, x: u32) -> (r: Option<Option<u64>>)
        requires
            self.has_frame(),
            fr == self.frame(),
            *proto == self.proto(),
        ensures
            r is None <==> self.rk(x) is None,
            r matches Some(Some(n)) ==> self.rk(x) == Some(ValueModel::Number(n)),
            r matches Some(None) ==> self.rk(x) matches Some(v) && !(v is Number),
    {
        if x & MASK_CBIT != 0 {
            let k = x & !MASK_CBIT;
            if k as usize >= proto.list_const.len() {
                return None;
            }
            match &proto.list_const[k as usize] {
                LuaConstant::LUA_TNUMBER(n) => Some(Some(*n)),
                _ => Some(None),
            }
        } else {
            match self.get_reg(fr.base, x) {
                Some(c) => {
                    if c < self.cells.len() {
                        match &self.cells[c] {
                            LuaValue::Number(n) => Some(Some(*n)),
                            _ => Some(None),
                        }
                    } else {
                        None
                    }
                },
                None => None,
            }
        }
    }

    fn exec_arith<F: Fn(VMOpcode, u64, u64) -> u64>(
        &mut self,
        fr: Frame,
        proto: &FunctionBlock,
        inst: &VMInst,
        arith: &F,
    )
        requires
            ready(*old(self), fr, *inst),
            *proto == old(self).proto(),
            forall|op: VMOpcode, x: u64, y: u64| arith.requires((op, x, y)),
        ensures
            arith_post(*old(self), *final(self), *arith),
    {
        let op = inst.opcode;
        let (a, b, c) = match (operand_at(inst, 0), operand_at(inst, 1), operand_at(inst, 2)) {
            (Some(a), Some(b), Some(c)) => (a, b, c),
            _ => {
                self.fault(op);
                return ;
            },
        };
        let x = self.resolve(fr, proto, b);
        let y = self.resolve(fr, proto, c);
        match (x, y) {
            (Some(Some(x)), Some(Some(y))) => {
                if a > u32::MAX - fr.base {
                    self.fault(op);
                    return ;
                }
                let r = arith(op, x, y);
                let cell = self.new_cell(LuaValue::Number(r));
                self.set_reg(fr.base, a, cell);
                self.move_on(op, a);
            },
            (Some(_), Some(_)) => self.move_on(op, a),
            _ => self.fault(op),
        }
    }

    fn exec_call(&mut self, fr: Frame, inst: &VMInst)
        requires
            ready(*old(self), fr, *inst),
            inst.opcode == VMOpcode::CALL || inst.opcode == VMOpcode::TAILCALL,
        ensures
            call_post(*old(self), *final(self)),
    {
        let op = inst.opcode;
        let (a, b, c) = match (operand_at(inst, 0), operand_at(inst, 1), operand_at(inst, 2)) {
            (Some(a), Some(b), Some(c)) => (a, b, c),
            _ => {
                self.fault(op);
                return ;
            },
        };
        let fc = match self.get_reg(fr.base, a) {
            Some(c) => c,
            None => {
                self.fault(op);
                return ;
            },
        };
        if fc >= self.cells.len() {
            self.fault(op);
            return ;
        }
        let target = match &self.cells[fc] {
            LuaValue::Function(f) => Some(f.closure),
            _ => None,
        };
        let tail = op == VMOpcode::TAILCALL;
        match target {
            Some(ci) => {
                let nb: u64 = if b >= 2 {
                    fr.base as u64 + a as u64 + 1
                } else {
                    fr.base as u64
                };
                if ci >= self.closures.len() || nb > u32::MAX as u64 {
                    self.fault(op);
                    return ;
                }
                let pc = self.closures[ci].idx;
                self.frames.push(
                    Frame { closure: ci, base: nb as u32, pc, call_a: a, call_c: c, tail },
                );
            },
            None => self.fault(op),
        }
    }

    /// The cells of `n` registers from absolute index `start` on, if all are bound.
    fn collect(&self, start: u64, n: u64) -> (r: Option<Vec<usize>>)
        requires
            start + n <= u64::MAX,
        ensures
            r is None <==> reg_span(self.regs(), start as int, n as nat) is None,
            r matches Some(v) ==> reg_span(self.regs(), start as int, n as nat) == Some(v@),
    {
        let mut out: Vec<usize> = Vec::new();
        let mut k: u64 = 0;
        while k < n
            invariant
                k <= n,
                start + n <= u64::MAX,
                reg_span(self.regs(), start as int, k as nat) == Some(out@),
            decreases n - k,
        {
            let i = start + k;
            if i > u32::MAX as u64 {
                proof {
                    lemma_reg_span_none(self.regs(), start as int, (k + 1) as nat, n as nat);
                }
                return None;
            }
            match table_get(&self.registers, i as u32) {
                Some(c) => out.push(c),
                None => {
                    proof {
                        lemma_reg_span_none(self.regs(), start as int, (k + 1) as nat, n as nat);
                    }
                    return None;
                },
            }
            k += 1;
        }
        Some(out)
    }

    /// Ends the active call with `vals` as its results.
    fn finish(&mut self, vals: Vec<usize>, returned: bool)
        requires
            old(self).running(),
            old(self).frames().len() > 0,
        ensures
            finish_post(*old(self), *final(self), vals@, returned),
    {
        let n = self.frames.len();
        let callee = self.frames[n - 1];
        if n == 1 {
            self.frames.pop();
            self.state = if returned {
                RunState::Returned
            } else {
                RunState::Exhausted
            };
            self.results = vals;
            assert(self.frames() =~= old(self).frames().drop_last());
            return ;
        }
        let caller = self.frames[n - 2];
        let start: u64 = caller.base as u64 + callee.call_a as u64;
        let op = if callee.tail {
            VMOpcode::TAILCALL
        } else {
            VMOpcode::CALL
        };
        if start > u32::MAX as u64 || vals.len() as u64 > u32::MAX as u64 - start
            || caller.pc == usize::MAX {
            self.fault(op);
            return ;
        }
        let ghost regs0 = self.regs();
        let mut k: usize = 0;
        while k < vals.len()
            invariant
                k <= vals@.len(),
                start + vals@.len() <= u32::MAX,
                self.regs() == splice(regs0, start as int, vals@.subrange(0, k as int)),
                *self == (LuaVM { registers: self.registers, ..*old(self) }),
            decreases vals@.len() - k,
        {
            table_insert(&mut self.registers, (start + k as u64) as u32, vals[k]);
            k += 1;
            assert(vals@.subrange(0, k as int).drop_last() =~= vals@.subrange(0, k - 1));
        }
        assert(vals@.subrange(0, k as int) =~= vals@);
        self.frames.pop();
        self.frames.set(
            n - 2,
            Frame {
                closure: caller.closure,
                base: caller.base,
                pc: caller.pc + 1,
                call_a: caller.call_a,
                call_c: caller.call_c,
                tail: caller.tail,
            },
        );
        assert(self.frames() =~= old(self).frames().drop_last().update(n - 2, stepped(caller)));
        if callee.call_c == 0 || callee.tail {
            self.top = Some((callee.call_a as u64 + vals.len() as u64) as u32);
        }
        self.last_op = Some((op, callee.call_a));
    }

    fn exec_return(&mut self, fr: Frame, inst: &VMInst)
        requires
            ready(*old(self), fr, *inst),
        ensures
            return_post(*old(self), *final(self)),
    {
        let op = inst.opcode;
        let (a, b) = match (operand_at(inst, 0), operand_at(inst, 1)) {
            (Some(a), Some(b)) => (a, b),
            _ => {
                self.fault(op);
                return ;
            },
        };
        let start: u64 = fr.base as u64 + a as u64;
        let count: u64 = if b >= 2 {
            b as u64 - 1
        } else if b == 1 {
            0
        } else {
            match self.top {
                Some(t) => if t > a {
                    (t - a) as u64
                } else {
                    0
                },
                None => {
                    self.fault(op);
                    return ;
                },
            }
        };
        match self.collect(start, count) {
            Some(vals) => self.finish(vals, true),
            None => self.fault(op),
        }
    }

    /// Executes one instruction of the active call, or ends the call where its
    /// instructions are used up. A stopped machine is left as it is.
    pub fn step<F: Fn(VMOpcode, u64, u64) -> u64>(&mut self, arith: &F)
        requires
            forall|op: VMOpcode, x: u64, y: u64| arith.requires((op, x, y)),
        ensures
            step_post(*old(self), *final(self), *arith),
    {
        match self.state {
            RunState::Running => {},
            _ => return ,
        }
        let n = self.frames.len();
        if n == 0 {
            self.state = RunState::Idle;
            return ;
        }
        let fr = self.frames[n - 1];
        if fr.closure >= self.closures.len() {
            self.state = RunState::Idle;
            return ;
        }
        let proto = self.closures[fr.closure].prototype.clone();
        if fr.pc >= proto.list_instructions.len() {
            self.finish(Vec::new(), false);
            return ;
        }
        let inst = &proto.list_instructions[fr.pc];
        match inst.opcode {
            VMOpcode::LOADK => self.exec_loadk(fr, &proto, inst),
            VMOpcode::MOVE => self.exec_move(fr, inst),
            VMOpcode::GETUPVAL => self.exec_getupval(fr, inst),
            VMOpcode::SETUPVAL => self.exec_setupval(fr, inst),
            VMOpcode::GETGLOBAL => self.exec_getglobal(fr, inst),
            VMOpcode::SETGLOBAL => self.exec_setglobal(fr, inst),
            VMOpcode::CLOSURE => self.exec_closure(fr, &proto, inst),
            VMOpcode::ADD | VMOpcode::SUB | VMOpcode::MUL | VMOpcode::DIV | VMOpcode::MOD
            | VMOpcode::POW => self.exec_arith(fr, &proto, inst, arith),
            VMOpcode::CALL | VMOpcode::TAILCALL => self.exec_call(fr, inst),
            VMOpcode::RETURN => self.exec_return(fr, inst),
            _ => {
                let a0 = match operand_at(inst, 0) {
                    Some(a) => a,
                    None => 0,
                };
                self.move_on(inst.opcode, a0);
            },
        }
    }

    /// Makes a closure over `func` the one active call, at the bottom of the register space.
    pub fn start(&mut self, func: FunctionBlock)
        ensures
            started(*old(self), *final(self), func),
    {
        let n = self.closures.len();
        self.closures.push(LuaFunction::new(Rc::new(func), HashMap::new()));
        self.frames = Vec::new();
        self.frames.push(Frame { closure: n, base: 0, pc: 0, call_a: 0, call_c: 1, tail: false });
        self.state = RunState::Running;
        self.top = None;
        self.last_op = None;
        self.results = Vec::new();
        assert(self.closures().subrange(0, n as int) =~= old(self).closures());
        assert(self.frames() =~= seq![
            Frame { closure: n, base: 0, pc: 0, call_a: 0, call_c: 1, tail: false },
        ]);
    }

    fn is_running(&self) -> (r: bool)
        ensures
            r == self.running(),
    {
        match self.state {
            RunState::Running => true,
            _ => false,
        }
    }

    /// Steps while the machine runs, at most `max_steps` times; returns how it stands.
    pub fn run<F: Fn(VMOpcode, u64, u64) -> u64>(&mut self, arith: &F, max_steps: u64) -> (r:
        RunState)
        requires
            forall|op: VMOpcode, x: u64, y: u64| arith.requires((op, x, y)),
        ensures
            r == final(self).state(),
            !old(self).running() ==> *final(self) == *old(self),
            exists|k: nat|
                k <= max_steps && #[trigger] runs(*old(self), *final(self), *arith, k) && (k
                    == max_steps || !final(self).running()),
    {
        let mut k: u64 = 0;
        while k < max_steps && self.is_running()
            invariant
                forall|op: VMOpcode, x: u64, y: u64| arith.requires((op, x, y)),
                k <= max_steps,
                runs(*old(self), *self, *arith, k as nat),
                !old(self).running() ==> k == 0 && *self == *old(self),
            decreases max_steps - k,
        {
            let ghost cur = *self;
            self.step(arith);
            proof {
                lemma_runs_append(*old(self), cur, *self, *arith, k as nat);
            }
            k += 1;
        }
        self.state
    }

    /// Starts the chunk's top-level function and steps until the run stops: the cells of
    /// the values it returned (none where it ran past its last instruction), or the state
    /// in which the run stopped.
    pub fn process_chunk<F: Fn(VMOpcode, u64, u64) -> u64>(
        &mut self,
        chunk: LuaChunk,
        arith: &F,
    ) -> (r: Result<Vec<GCLuaValue>, RunState>)
        requires
            forall|op: VMOpcode, x: u64, y: u64| arith.requires((op, x, y)),
        ensures
            exists|s0: LuaVM, k: nat|
                started(*old(self), s0, chunk.func) && #[trigger] runs(s0, *final(self), *arith, k)
                    && (k == u64::MAX || !final(self).running()),
            r is Ok <==> (final(self).state() == RunState::Returned || final(self).state()
                == RunState::Exhausted),
            r matches Ok(v) ==> v@.map_values(|h: GCLuaValue| h.cell) == final(self).results(),
            final(self).state() == RunState::Exhausted ==> final(self).results().len() == 0,
            r matches Err(s) ==> s == final(self).state(),
    {
        self.start(chunk.func);
        let ghost s0 = *self;
        let st = self.run(arith, u64::MAX);
        proof {
            let k = choose|k: nat|
                k <= u64::MAX && #[trigger] runs(s0, *self, *arith, k) && (k == u64::MAX
                    || !self.running());
            assert(started(*old(self), s0, chunk.func) && runs(s0, *self, *arith, k));
            lemma_exhausted_has_no_results(s0, *self, *arith, k);
        }
        match st {
            RunState::Returned | RunState::Exhausted => {
                let mut out: Vec<GCLuaValue> = Vec::new();
                let mut k: usize = 0;
                while k < self.results.len()
                    invariant
                        k <= self.results@.len(),
                        out@.map_values(|h: GCLuaValue| h.cell) == self.results@.subrange(
                            0,
                            k as int,
                        ),
                    decreases self.results@.len() - k,
                {
                    let ghost prev = out@;
                    out.push(GCLuaValue { cell: self.results[k] });
                    k += 1;
                    assert(out@.map_values(|h: GCLuaValue| h.cell) =~= prev.map_values(
                        |h: GCLuaValue| h.cell,
                    ).push(self.results@[k - 1]));
                    assert(self.results@.subrange(0, k as int) =~= self.results@.subrange(
                        0,
                        k - 1,
                    ).push(self.results@[k - 1]));
                }
                assert(self.results@.subrange(0, k as int) =~= self.results@);
                Ok(out)
            },
            _ => Err(st),
        }
    }

    /// How the machine stands.
    pub fn run_state(&self) -> (r: RunState)
        ensures
            r == self.state(),
    {
        self.state
    }

    /// Number of active calls.
    pub fn depth(&self) -> (r: usize)
        ensures
            r == self.frames().len(),
    {
        self.frames.len()
    }

    /// The cell that absolute register `idx` holds.
    pub fn register(&self, idx: u32) -> (r: Option<GCLuaValue>)
        ensures
            self.regs().contains_key(idx) ==> r == Some(GCLuaValue { cell: self.regs()[idx] }),
            !self.regs().contains_key(idx) ==> r is None,
    {
        match table_get(&self.registers, idx) {
            Some(c) => Some(GCLuaValue { cell: c }),
            None => None,
        }
    }

    /// The cell stored under constant-pool index `k` of the globals table.
    pub fn global(&self, k: u32) -> (r: Option<GCLuaValue>)
        ensures
            self.globs().contains_key(k) ==> r == Some(GCLuaValue { cell: self.globs()[k] }),
            !self.globs().contains_key(k) ==> r is None,
    {
        match table_get(&self.globals, k) {
            Some(c) => Some(GCLuaValue { cell: c }),
            None => None,
        }
    }

    /// The value a cell holds.
    pub fn borrow(&self, h: GCLuaValue) -> (r: Option<&LuaValue>)
        ensures
            h.cell < self.cells().len() ==> (r matches Some(v) && v@ == self.cells()[h.cell as int]),
            h.cell >= self.cells().len() ==> r is None,
    {
        if h.cell < self.cells.len() {
            Some(&self.cells[h.cell])
        } else {
            None
        }
    }

    /// A fresh cell holding `v`.
    pub fn new_value(&mut self, v: LuaValue) -> (r: GCLuaValue)
        ensures
            r.cell == old(self).cells().len(),
            final(self).cells() == old(self).cells().push(v@),
            final(self).regs() == old(self).regs(),
            final(self).globs() == old(self).globs(),
            final(self).closures() == old(self).closures(),
            final(self).frames() == old(self).frames(),
            final(self).state() == old(self).state(),
    {
        GCLuaValue { cell: self.new_cell(v) }
    }

    /// Adds `f` to the closure arena.
    pub fn new_function(&mut self, f: LuaFunction) -> (r: GCLuaFunction)
        ensures
            r.closure == old(self).closures().len(),
            final(self).closures() == old(self).closures().push(f),
            final(self).regs() == old(self).regs(),
            final(self).globs() == old(self).globs(),
            final(self).cells() == old(self).cells(),
            final(self).frames() == old(self).frames(),
            final(self).state() == old(self).state(),
    {
        let n = self.closures.len();
        self.closures.push(f);
        GCLuaFunction { closure: n }
    }

    /// The closure a handle refers to.
    pub fn function(&self, f: GCLuaFunction) -> (r: Option<&LuaFunction>)
        ensures
            f.closure < self.closures().len() ==> r == Some(&self.closures()[f.closure as int]),
            f.closure >= self.closures().len() ==> r is None,
    {
        if f.closure < self.closures.len() {
            Some(&self.closures[f.closure])
        } else {
            None
        }
    }

    /// The cell bound to upvalue slot `slot` of closure `f`.
    pub fn upvalue(&self, f: GCLuaFunction, slot: u32) -> (r: Option<GCLuaValue>)
        ensures
            f.closure < self.closures().len() && self.closures()[f.closure as int].upvalues@.contains_key(slot)
                ==> r == Some(GCLuaValue { cell: self.closures()[f.closure as int].upvalues@[slot] }),
            !(f.closure < self.closures().len() && self.closures()[f.closure as int].upvalues@.contains_key(slot))
                ==> r is None,
    {
        if f.closure >= self.closures.len() {
            return None;
        }
        match self.closures[f.closure].upvalues.get(&slot) {
            Some(c) => Some(GCLuaValue { cell: *c }),
            None => None,
        }
    }
}

/// Once an instruction has failed, a further step changes nothing: no instruction of any
/// call runs after a fault.
pub proof fn lemma_fault_ends_run<F: Fn(VMOpcode, u64, u64) -> u64>(
    pre: LuaVM,
    mid: LuaVM,
    post: LuaVM,
    arith: F,
)
    requires
        step_post(pre, mid, arith),
        mid.state() is Faulted,
        step_post(mid, post, arith),
    ensures
        post == mid,
        post.state() is Faulted,
{
}

/// Globals are keyed by constant-pool index: a GETGLOBAL right after a SETGLOBAL in the
/// same call reads the cell just stored when both name the same index, and reads what the
/// table held before when the indices differ, whatever constants sit at them.
pub proof fn lemma_globals_by_index<F: Fn(VMOpcode, u64, u64) -> u64>(
    pre: LuaVM,
    mid: LuaVM,
    post: LuaVM,
    arith: F,
    a: u32,
    k: u32,
    a2: u32,
    k2: u32,
)
    requires
        pre.running(),
        pre.has_frame(),
        !pre.at_end(),
        pre.inst().0 == VMOpcode::SETGLOBAL,
        operand(pre.inst().1, 0) == Some(a),
        operand(pre.inst().1, 1) == Some(k),
        step_post(pre, mid, arith),
        mid.running(),
        mid.has_frame(),
        !mid.at_end(),
        mid.inst().0 == VMOpcode::GETGLOBAL,
        operand(mid.inst().1, 0) == Some(a2),
        operand(mid.inst().1, 1) == Some(k2),
        step_post(mid, post, arith),
        post.running(),
    ensures
        k2 == k ==> post.reg(a2) == pre.reg(a),
        k2 != k ==> post.reg(a2) == get_global(pre.globs(), k2),
{
    let c = pre.reg(a).unwrap();
    assert(mid.globs() == set_global(pre.globs(), k, c));
    assert(mid.frame() == stepped(pre.frame()));
    assert(post.frame().base == mid.frame().base);
    assert(get_global(mid.globs(), k2) is Some);
}


/// SETGLOBAL A Bx stores the cell of register A under pool index Bx and under no other
/// index, leaving the registers as they were: the last write to an index wins, and
/// indices are positions, whatever constants sit at them.
pub proof fn lemma_setglobal_writes_index<F: Fn(VMOpcode, u64, u64) -> u64>(
    pre: LuaVM,
    post: LuaVM,
    arith: F,
    a: u32,
    k: u32,
)
    requires
        pre.running(),
        pre.has_frame(),
        !pre.at_end(),
        pre.inst().0 == VMOpcode::SETGLOBAL,
        operand(pre.inst().1, 0) == Some(a),
        operand(pre.inst().1, 1) == Some(k),
        step_post(pre, post, arith),
        post.running(),
    ensures
        pre.reg(a) is Some,
        get_global(post.globs(), k) == pre.reg(a),
        forall|j: u32| j != k ==> get_global(post.globs(), j) == get_global(pre.globs(), j),
        post.regs() == pre.regs(),
{
}

/// CLOSURE A Bx followed at once by MOVE S B: the new closure is over nested prototype
/// Bx, sits in register A, and has exactly upvalue slot S bound, to the cell of register B.
pub proof fn lemma_closure_capture<F: Fn(VMOpcode, u64, u64) -> u64>(
    pre: LuaVM,
    mid: LuaVM,
    post: LuaVM,
    arith: F,
    a: u32,
    bx: u32,
    slot: u32,
    b: u32,
)
    requires
        pre.running(),
        pre.has_frame(),
        !pre.at_end(),
        pre.inst().0 == VMOpcode::CLOSURE,
        operand(pre.inst().1, 0) == Some(a),
        operand(pre.inst().1, 1) == Some(bx),
        pre.cells().len() < usize::MAX,
        pre.closures().len() < usize::MAX,
        step_post(pre, mid, arith),
        mid.running(),
        mid.has_frame(),
        !mid.at_end(),
        mid.inst().0 == VMOpcode::MOVE,
        operand(mid.inst().1, 0) == Some(slot),
        operand(mid.inst().1, 1) == Some(b),
        step_post(mid, post, arith),
        post.running(),
    ensures
        ({
            let n = pre.closures().len() as int;
            &&& post.closures().len() == n + 1
            &&& post.closures()[n].prototype == pre.proto().list_fnproto@[bx as int]
            &&& mid.reg(b) is Some
            &&& post.closures()[n].upvalues@ == Map::<u32, usize>::empty().insert(
                slot,
                mid.reg(b).unwrap(),
            )
            &&& post.reg(a) == Some(pre.cells().len() as usize)
            &&& post.cells()[pre.cells().len() as int] == ValueModel::Function(n as usize)
        }),
{
    let n = pre.closures().len() as int;
    assert(mid.frame().base == pre.frame().base);
    assert(mid.last_op() == Some((VMOpcode::CLOSURE, a)));
    assert(mid.reg(a) == Some(pre.cells().len() as usize));
    assert(mid.cells() == pre.cells().push(ValueModel::Function(n as usize)));
    assert(mid.value_at(pre.cells().len() as usize) == Some(ValueModel::Function(n as usize)));
    assert(mid.closures().len() == n + 1);
    assert(capture_post(mid, post, a, slot, b));
    assert(mid.reg(b) is Some);
    assert(binds_upvalue(mid, post, n as usize, slot, mid.reg(b).unwrap()));
    assert(post.closures()[n].upvalues@ == mid.closures()[n].upvalues@.insert(slot, mid.reg(b).unwrap()));
    assert(post.frames().len() == mid.frames().len());
    assert(post.frame().base == mid.frame().base);
}

} // verus!

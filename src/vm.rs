//! The virtual machine: executes compiled code.
//!
//! State: an instruction pointer, an operand stack, the active variable
//! environment, call frames (return address, the caller's environment and how
//! many loop frames it had) and loop frames (where the body starts and how many
//! iterations are left). A call swaps in a fresh environment holding only the
//! parameters; a name not bound there is looked up among the globals, the
//! environment of the outermost caller. `print` appends a line to the output.
//!
//! Every failure is a reported error: a type mismatch, division by zero,
//! arithmetic overflow, an undefined variable or function, a wrong argument
//! count, an empty stack, a constant index out of range, or a `RepeatEnd`
//! without a loop frame.

use crate::compiler::{
    FnInfo, FunctionEntry, Op, Opcode, Val, Value, find_fn, fns_of, lemma_find_fn_prefix, ops_of, vals_of,
};
use crate::parser::names_of;
use crate::text::{decimal, decimal_string};
use vstd::prelude::*;

verus! {

/// A variable and its value.
#[derive(Debug, Clone)]
pub struct Binding {
    pub name: String,
    pub value: Value,
}

#[derive(Debug, Clone)]
pub struct CallFrame {
    pub return_ip: usize,
    pub env: Vec<Binding>,
    pub loop_depth: usize,
}

#[derive(Debug, Clone, Copy)]
pub struct LoopFrame {
    pub start: usize,
    pub remaining: i64,
}

/// A runtime error and the index of the instruction that raised it.
#[derive(Debug, Clone)]
pub enum RuntimeError {
    TypeMismatch { ip: usize },
    DivisionByZero { ip: usize },
    Overflow { ip: usize },
    UndefinedVariable { name: String, ip: usize },
    UndefinedFunction { name: String, ip: usize },
    ArgumentCount { name: String, expected: usize, found: usize, ip: usize },
    StackUnderflow { ip: usize },
    BadConstant { ip: usize },
    UnmatchedRepeatEnd { ip: usize },
    /// The step budget of the run was used up.
    StepLimit,
}

pub enum RuntimeErrorView {
    TypeMismatch { ip: nat },
    DivisionByZero { ip: nat },
    Overflow { ip: nat },
    UndefinedVariable { name: Seq<char>, ip: nat },
    UndefinedFunction { name: Seq<char>, ip: nat },
    ArgumentCount { name: Seq<char>, expected: nat, found: nat, ip: nat },
    StackUnderflow { ip: nat },
    BadConstant { ip: nat },
    UnmatchedRepeatEnd { ip: nat },
    StepLimit,
}

impl View for RuntimeError {
    type V = RuntimeErrorView;

    open spec fn view(&self) -> RuntimeErrorView {
        match self {
            RuntimeError::TypeMismatch { ip } => RuntimeErrorView::TypeMismatch { ip: *ip as nat },
            RuntimeError::DivisionByZero { ip } => RuntimeErrorView::DivisionByZero { ip: *ip as nat },
            RuntimeError::Overflow { ip } => RuntimeErrorView::Overflow { ip: *ip as nat },
            RuntimeError::UndefinedVariable { name, ip } => RuntimeErrorView::UndefinedVariable {
                name: name@,
                ip: *ip as nat,
            },
            RuntimeError::UndefinedFunction { name, ip } => RuntimeErrorView::UndefinedFunction {
                name: name@,
                ip: *ip as nat,
            },
            RuntimeError::ArgumentCount { name, expected, found, ip } => RuntimeErrorView::ArgumentCount {
                name: name@,
                expected: *expected as nat,
                found: *found as nat,
                ip: *ip as nat,
            },
            RuntimeError::StackUnderflow { ip } => RuntimeErrorView::StackUnderflow { ip: *ip as nat },
            RuntimeError::BadConstant { ip } => RuntimeErrorView::BadConstant { ip: *ip as nat },
            RuntimeError::UnmatchedRepeatEnd { ip } => RuntimeErrorView::UnmatchedRepeatEnd { ip: *ip as nat },
            RuntimeError::StepLimit => RuntimeErrorView::StepLimit,
        }
    }
}

// ---------------------------------------------------------------------------
// The machine as a state transition function.

pub type Env = Seq<(Seq<char>, Val)>;

pub struct FrameV {
    pub return_ip: nat,
    pub env: Env,
    pub loop_depth: nat,
}

pub struct LoopV {
    pub start: nat,
    pub remaining: i64,
}

pub struct MState {
    pub ip: nat,
    pub stack: Seq<Val>,
    pub env: Env,
    pub calls: Seq<FrameV>,
    pub loops: Seq<LoopV>,
    pub output: Seq<Seq<char>>,
    pub halted: bool,
}

/// A compiled program: constant pool, code and function table.
pub struct Prog {
    pub consts: Seq<Val>,
    pub code: Seq<Op>,
    pub funcs: Seq<FnInfo>,
}

pub open spec fn initial_state() -> MState {
    MState {
        ip: 0,
        stack: Seq::empty(),
        env: Seq::empty(),
        calls: Seq::empty(),
        loops: Seq::empty(),
        output: Seq::empty(),
        halted: false,
    }
}

/// The index of the binding of `name`.
pub open spec fn env_find(env: Env, name: Seq<char>) -> Option<nat>
    decreases env.len(),
{
    if env.len() == 0 {
        None
    } else {
        match env_find(env.drop_last(), name) {
            Some(i) => Some(i),
            None => if env.last().0 == name {
                Some((env.len() - 1) as nat)
            } else {
                None
            },
        }
    }
}

pub open spec fn env_get(env: Env, name: Seq<char>) -> Option<Val> {
    match env_find(env, name) {
        Some(i) => Some(env[i as int].1),
        None => None,
    }
}

/// `env` with `name` bound to `v`: the binding replaced, or a new one added.
pub open spec fn env_store(env: Env, name: Seq<char>, v: Val) -> Env {
    match env_find(env, name) {
        Some(i) => env.update(i as int, (name, v)),
        None => env.push((name, v)),
    }
}

/// The environment of a call: each parameter bound to its argument, in order.
pub open spec fn bind(params: Seq<Seq<char>>, args: Seq<Val>) -> Env
    decreases params.len(),
{
    if params.len() == 0 || args.len() == 0 {
        Seq::empty()
    } else {
        env_store(bind(params.drop_last(), args.drop_last()), params.last(), args.last())
    }
}

/// The value of a variable: the active environment first, then the globals.
pub open spec fn var_get(s: MState, name: Seq<char>) -> Option<Val> {
    match env_get(s.env, name) {
        Some(v) => Some(v),
        None => if s.calls.len() > 0 {
            env_get(s.calls[0].env, name)
        } else {
            None
        },
    }
}

/// How `print` renders a value: numbers in decimal, strings as they are.
pub open spec fn render(v: Val) -> Seq<char> {
    match v {
        Val::Number(n) => decimal(n as int),
        Val::Str(s) => s,
    }
}

/// A binary operation on numbers.
pub open spec fn binary(op: Op, a: i64, b: i64, ip: nat) -> Result<i64, RuntimeErrorView> {
    match op {
        Op::Add => match a.checked_add(b) {
            Some(r) => Ok(r),
            None => Err(RuntimeErrorView::Overflow { ip }),
        },
        Op::Sub => match a.checked_sub(b) {
            Some(r) => Ok(r),
            None => Err(RuntimeErrorView::Overflow { ip }),
        },
        Op::Mul => match a.checked_mul(b) {
            Some(r) => Ok(r),
            None => Err(RuntimeErrorView::Overflow { ip }),
        },
        Op::Div => if b == 0 {
            Err(RuntimeErrorView::DivisionByZero { ip })
        } else {
            match a.checked_div(b) {
                Some(r) => Ok(r),
                None => Err(RuntimeErrorView::Overflow { ip }),
            }
        },
        Op::And => Ok(if a != 0 && b != 0 { 1 } else { 0 }),
        _ => Ok(if a != 0 || b != 0 { 1 } else { 0 }),
    }
}

pub open spec fn is_binary(op: Op) -> bool {
    op is Add || op is Sub || op is Mul || op is Div || op is And || op is Or
}

/// One instruction, at `s.ip`.
pub open spec fn step(p: Prog, s: MState) -> Result<MState, RuntimeErrorView> {
    let ip = s.ip;
    let next = MState { ip: ip + 1, ..s };
    let under = RuntimeErrorView::StackUnderflow { ip };
    let mismatch = RuntimeErrorView::TypeMismatch { ip };
    let top = s.stack.last();
    let popped = s.stack.drop_last();
    match p.code[ip as int] {
        Op::LoadConst(i) => if i < p.consts.len() {
            Ok(MState { stack: s.stack.push(p.consts[i as int]), ..next })
        } else {
            Err(RuntimeErrorView::BadConstant { ip })
        },
        Op::LoadVar(name) => match var_get(s, name) {
            Some(v) => Ok(MState { stack: s.stack.push(v), ..next }),
            None => Err(RuntimeErrorView::UndefinedVariable { name, ip }),
        },
        Op::StoreVar(name) => if s.stack.len() == 0 {
            Err(under)
        } else {
            Ok(MState { stack: popped, env: env_store(s.env, name, top), ..next })
        },
        Op::Not => if s.stack.len() == 0 {
            Err(under)
        } else {
            match top {
                Val::Number(n) => Ok(MState { stack: popped.push(Val::Number(if n == 0 { 1 } else { 0 })), ..next }),
                Val::Str(_) => Err(mismatch),
            }
        },
        Op::Print => if s.stack.len() == 0 {
            Err(under)
        } else {
            Ok(MState { stack: popped, output: s.output.push(render(top)), ..next })
        },
        Op::JumpIfFalse(t) => if s.stack.len() == 0 {
            Err(under)
        } else {
            match top {
                Val::Number(n) => if n == 0 {
                    Ok(MState { ip: t, stack: popped, ..s })
                } else {
                    Ok(MState { stack: popped, ..next })
                },
                Val::Str(_) => Err(mismatch),
            }
        },
        Op::Jump(t) => Ok(MState { ip: t, ..s }),
        Op::RepeatStart(t) => if s.stack.len() == 0 {
            Err(under)
        } else {
            match top {
                Val::Number(n) => if n <= 0 {
                    Ok(MState { ip: t, stack: popped, ..s })
                } else {
                    Ok(MState { stack: popped, loops: s.loops.push(LoopV { start: ip + 1, remaining: n }), ..next })
                },
                Val::Str(_) => Err(mismatch),
            }
        },
        Op::RepeatEnd => if s.loops.len() == 0 {
            Err(RuntimeErrorView::UnmatchedRepeatEnd { ip })
        } else {
            let l = s.loops.last();
            if l.remaining > 1 {
                Ok(MState {
                    ip: l.start,
                    loops: s.loops.update(s.loops.len() - 1, LoopV { remaining: (l.remaining - 1) as i64, ..l }),
                    ..s
                })
            } else {
                Ok(MState { loops: s.loops.drop_last(), ..next })
            }
        },
        Op::Call(name, argc) => match find_fn(p.funcs, name) {
            None => Err(RuntimeErrorView::UndefinedFunction { name, ip }),
            Some(i) => {
                let f = p.funcs[i as int];
                if f.params.len() != argc {
                    Err(RuntimeErrorView::ArgumentCount { name, expected: f.params.len(), found: argc, ip })
                } else if s.stack.len() < argc {
                    Err(under)
                } else {
                    let base = s.stack.len() - argc;
                    Ok(MState {
                        ip: f.start,
                        stack: s.stack.subrange(0, base),
                        env: bind(f.params, s.stack.subrange(base, s.stack.len() as int)),
                        calls: s.calls.push(FrameV { return_ip: ip + 1, env: s.env, loop_depth: s.loops.len() }),
                        ..s
                    })
                }
            },
        },
        Op::Return => if s.calls.len() == 0 {
            Ok(MState { halted: true, ..s })
        } else {
            let f = s.calls.last();
            Ok(MState {
                ip: f.return_ip,
                env: f.env,
                calls: s.calls.drop_last(),
                loops: if f.loop_depth < s.loops.len() {
                    s.loops.subrange(0, f.loop_depth as int)
                } else {
                    s.loops
                },
                ..s
            })
        },
        op => if s.stack.len() < 2 {
            Err(under)
        } else {
            let a = s.stack[s.stack.len() - 2];
            let rest = s.stack.subrange(0, s.stack.len() - 2);
            match (a, top) {
                (Val::Number(x), Val::Number(y)) => match binary(op, x, y, ip) {
                    Ok(v) => Ok(MState { stack: rest.push(Val::Number(v)), ..next }),
                    Err(e) => Err(e),
                },
                _ => Err(mismatch),
            }
        },
    }
}

/// The machine has stopped: an unframed `Return`, or the end of the code.
pub open spec fn stopped(p: Prog, s: MState) -> bool {
    s.halted || s.ip >= p.code.len()
}

/// Runs at most `fuel` instructions: the output, and the error if one stopped
/// the run.
pub open spec fn run_steps(p: Prog, s: MState, fuel: nat) -> (Seq<Seq<char>>, Option<RuntimeErrorView>)
    decreases fuel,
{
    if stopped(p, s) {
        (s.output, None)
    } else if fuel == 0 {
        (s.output, Some(RuntimeErrorView::StepLimit))
    } else {
        match step(p, s) {
            Ok(s2) => run_steps(p, s2, (fuel - 1) as nat),
            Err(e) => (s.output, Some(e)),
        }
    }
}

/// What running a program from its start prints, and how it ends.
pub open spec fn run_program(p: Prog) -> (Seq<Seq<char>>, Option<RuntimeErrorView>) {
    run_steps(p, initial_state(), u64::MAX as nat)
}

} // verus!

verus! {

pub open spec fn env_of(v: Seq<Binding>) -> Env {
    v.map_values(|b: Binding| (b.name@, b.value@))
}

pub open spec fn frame_of(f: CallFrame) -> FrameV {
    FrameV { return_ip: f.return_ip as nat, env: env_of(f.env@), loop_depth: f.loop_depth as nat }
}

pub open spec fn frames_of(v: Seq<CallFrame>) -> Seq<FrameV> {
    v.map_values(|f: CallFrame| frame_of(f))
}

pub open spec fn loops_of(v: Seq<LoopFrame>) -> Seq<LoopV> {
    v.map_values(|l: LoopFrame| LoopV { start: l.start as nat, remaining: l.remaining })
}

pub open spec fn lines_of(v: Seq<String>) -> Seq<Seq<char>> {
    v.map_values(|s: String| s@)
}

/// The step's outcome as the machine shows it: the next state, or the error
/// with the output left as it was.
pub open spec fn stepped(
    r: Result<(), RuntimeError>,
    before: MState,
    after: MState,
    res: Result<MState, RuntimeErrorView>,
) -> bool {
    match res {
        Ok(s2) => r is Ok && after == s2,
        Err(e) => r matches Err(x) && x@ == e && after.output == before.output,
    }
}

proof fn lemma_env_find_prefix(env: Env, n: int, name: Seq<char>)
    requires
        0 <= n <= env.len(),
        env_find(env.subrange(0, n), name) is Some,
    ensures
        env_find(env, name) == env_find(env.subrange(0, n), name),
    decreases env.len() - n,
{
    if n < env.len() {
        assert(env.subrange(0, n + 1).drop_last() =~= env.subrange(0, n));
        lemma_env_find_prefix(env, n + 1, name);
    } else {
        assert(env.subrange(0, n) =~= env);
    }
}

/// The index of the binding of `name` in `env`.
fn env_index(env: &Vec<Binding>, name: &String) -> (r: Option<usize>)
    ensures
        match env_find(env_of(env@), name@) {
            Some(i) => r matches Some(j) && j as nat == i && j < env@.len(),
            None => r is None,
        },
{
    let mut i: usize = 0;
    while i < env.len()
        invariant
            i <= env@.len(),
            env_find(env_of(env@).subrange(0, i as int), name@) is None,
        decreases env@.len() - i,
    {
        let ghost pre = env_of(env@).subrange(0, i + 1 as int);
        assert(pre.drop_last() =~= env_of(env@).subrange(0, i as int));
        if env[i].name == *name {
            proof {
                lemma_env_find_prefix(env_of(env@), i + 1, name@);
            }
            return Some(i);
        }
        i = i + 1;
    }
    assert(env_of(env@).subrange(0, i as int) =~= env_of(env@));
    None
}

fn env_lookup(env: &Vec<Binding>, name: &String) -> (r: Option<Value>)
    ensures
        match env_get(env_of(env@), name@) {
            Some(v) => r matches Some(x) && x@ == v,
            None => r is None,
        },
{
    match env_index(env, name) {
        Some(i) => Some(env[i].value.copied()),
        None => None,
    }
}

fn env_set(env: &mut Vec<Binding>, name: String, value: Value)
    ensures
        env_of(final(env)@) == env_store(env_of(old(env)@), name@, value@),
{
    let ghost before = env_of(env@);
    match env_index(env, &name) {
        Some(i) => {
            env.set(i, Binding { name, value });
            assert(env_of(env@) =~= before.update(i as int, (name@, value@)));
        },
        None => {
            env.push(Binding { name, value });
            assert(env_of(env@) =~= before.push((name@, value@)));
        },
    }
}

/// How `print` renders `v`.
pub fn render_value(v: &Value) -> (r: String)
    ensures
        r@ == render(v@),
{
    match v {
        Value::Number(n) => decimal_string(*n),
        Value::Str(s) => s.clone(),
    }
}

fn arith(op: &Opcode, x: i64, y: i64, ip: usize) -> (r: Result<i64, RuntimeError>)
    requires
        is_binary(op@),
    ensures
        match binary(op@, x, y, ip as nat) {
            Ok(v) => r matches Ok(z) && z == v,
            Err(e) => r matches Err(z) && z@ == e,
        },
{
    match op {
        Opcode::Add => match x.checked_add(y) {
            Some(v) => Ok(v),
            None => Err(RuntimeError::Overflow { ip }),
        },
        Opcode::Sub => match x.checked_sub(y) {
            Some(v) => Ok(v),
            None => Err(RuntimeError::Overflow { ip }),
        },
        Opcode::Mul => match x.checked_mul(y) {
            Some(v) => Ok(v),
            None => Err(RuntimeError::Overflow { ip }),
        },
        Opcode::Div => if y == 0 {
            Err(RuntimeError::DivisionByZero { ip })
        } else {
            match x.checked_div(y) {
                Some(v) => Ok(v),
                None => Err(RuntimeError::Overflow { ip }),
            }
        },
        Opcode::And => Ok(if x != 0 && y != 0 { 1 } else { 0 }),
        _ => Ok(if x != 0 || y != 0 { 1 } else { 0 }),
    }
}

/// A virtual machine loaded with one compiled program.
pub struct VM {
    constants: Vec<Value>,
    code: Vec<Opcode>,
    functions: Vec<FunctionEntry>,
    ip: usize,
    stack: Vec<Value>,
    env: Vec<Binding>,
    calls: Vec<CallFrame>,
    loops: Vec<LoopFrame>,
    output: Vec<String>,
    halted: bool,
}

impl VM {
    /// The program loaded.
    pub closed spec fn prog(&self) -> Prog {
        Prog { consts: vals_of(self.constants@), code: ops_of(self.code@), funcs: fns_of(self.functions@) }
    }

    /// The machine state.
    pub closed spec fn state(&self) -> MState {
        MState {
            ip: self.ip as nat,
            stack: vals_of(self.stack@),
            env: env_of(self.env@),
            calls: frames_of(self.calls@),
            loops: loops_of(self.loops@),
            output: lines_of(self.output@),
            halted: self.halted,
        }
    }

    /// A fresh machine at the start of the program: nothing on the stack, no
    /// variables, no frames, no output.
    pub fn new(constants: Vec<Value>, code: Vec<Opcode>, functions: Vec<FunctionEntry>) -> (r: VM)
        ensures
            r.prog() == (Prog { consts: vals_of(constants@), code: ops_of(code@), funcs: fns_of(functions@) }),
            r.state() == initial_state(),
    {
        let r = VM {
            constants,
            code,
            functions,
            ip: 0,
            stack: Vec::new(),
            env: Vec::new(),
            calls: Vec::new(),
            loops: Vec::new(),
            output: Vec::new(),
            halted: false,
        };
        assert(r.state().stack =~= Seq::<Val>::empty());
        assert(r.state().env =~= Seq::<(Seq<char>, Val)>::empty());
        assert(r.state().calls =~= Seq::<FrameV>::empty());
        assert(r.state().loops =~= Seq::<LoopV>::empty());
        assert(r.state().output =~= Seq::<Seq<char>>::empty());
        r
    }

    /// The lines printed so far.
    pub fn output(&self) -> (r: &Vec<String>)
        ensures
            lines_of(r@) == self.state().output,
    {
        &self.output
    }

    /// Runs the program until it stops or fails.
    pub fn run(&mut self) -> (r: Result<(), RuntimeError>)
        ensures
            final(self).prog() == old(self).prog(),
            (final(self).state().output, match r {
                Ok(_) => None,
                Err(e) => Some(e@),
            }) == run_steps(old(self).prog(), old(self).state(), u64::MAX as nat),
    {
        self.run_with_limit(u64::MAX)
    }

    /// Runs at most `max_steps` instructions.
    pub fn run_with_limit(&mut self, max_steps: u64) -> (r: Result<(), RuntimeError>)
        ensures
            final(self).prog() == old(self).prog(),
            (final(self).state().output, match r {
                Ok(_) => None,
                Err(e) => Some(e@),
            }) == run_steps(old(self).prog(), old(self).state(), max_steps as nat),
    {
        let mut fuel = max_steps;
        loop
            invariant
                self.prog() == old(self).prog(),
                run_steps(old(self).prog(), old(self).state(), max_steps as nat) == run_steps(
                    self.prog(),
                    self.state(),
                    fuel as nat,
                ),
            decreases fuel,
        {
            if self.halted || self.ip >= self.code.len() {
                return Ok(());
            }
            if fuel == 0 {
                return Err(RuntimeError::StepLimit);
            }
            match self.step() {
                Ok(()) => {},
                Err(e) => {
                    return Err(e);
                },
            }
            fuel = fuel - 1;
        }
    }

    fn advance(&mut self)
        requires
            old(self).ip < old(self).code@.len(),
        ensures
            final(self).ip == old(self).ip + 1,
            final(self).constants == old(self).constants,
            final(self).code == old(self).code,
            final(self).functions == old(self).functions,
            final(self).stack == old(self).stack,
            final(self).env == old(self).env,
            final(self).calls == old(self).calls,
            final(self).loops == old(self).loops,
            final(self).output == old(self).output,
            final(self).halted == old(self).halted,
    {
        self.ip = self.next_ip();
    }

    fn next_ip(&self) -> (r: usize)
        requires
            self.ip < self.code@.len(),
        ensures
            r == self.ip + 1,
    {
        assert(self.ip < self.code.len());
        self.ip + 1
    }

    fn push(&mut self, v: Value)
        ensures
            final(self).state() == (MState { stack: old(self).state().stack.push(v@), ..old(self).state() }),
            final(self).prog() == old(self).prog(),
            final(self).ip == old(self).ip,
            final(self).code == old(self).code,
    {
        let ghost before = self.stack@;
        self.stack.push(v);
        assert(vals_of(self.stack@) =~= vals_of(before).push(v@));
    }

    fn pop(&mut self) -> (r: Option<Value>)
        ensures
            final(self).prog() == old(self).prog(),
            final(self).ip == old(self).ip,
            final(self).code == old(self).code,
            final(self).output == old(self).output,
            old(self).stack@.len() == 0 ==> r is None,
            old(self).stack@.len() > 0 ==> (r matches Some(v) && v@ == old(self).state().stack.last()
                && final(self).state() == (MState { stack: old(self).state().stack.drop_last(), ..old(self).state() })),
    {
        let ghost before = self.stack@;
        let r = self.stack.pop();
        proof {
            if before.len() > 0 {
                assert(vals_of(self.stack@) =~= vals_of(before).drop_last());
            }
        }
        r
    }

    /// One instruction.
    fn step(&mut self) -> (r: Result<(), RuntimeError>)
        requires
            !stopped(old(self).prog(), old(self).state()),
        ensures
            final(self).prog() == old(self).prog(),
            stepped(r, old(self).state(), final(self).state(), step(old(self).prog(), old(self).state())),
    {
        let op = self.code[self.ip].copied();
        match op {
            Opcode::LoadConst(i) => self.exec_load_const(i),
            Opcode::LoadVar(name) => self.exec_load_var(name),
            Opcode::StoreVar(name) => self.exec_store_var(name),
            Opcode::Print => self.exec_print(),
            Opcode::Not => self.exec_not(),
            Opcode::JumpIfFalse(t) => self.exec_branch(t),
            Opcode::Jump(t) => {
                self.ip = t;
                Ok(())
            },
            Opcode::RepeatStart(t) => self.exec_repeat_start(t),
            Opcode::RepeatEnd => self.exec_repeat_end(),
            Opcode::Call(name, argc) => self.exec_call(name, argc),
            Opcode::Return => self.exec_return(),
            _ => self.exec_binary(&op),
        }
    }

    fn exec_load_const(&mut self, i: usize) -> (r: Result<(), RuntimeError>)
        requires
            !stopped(old(self).prog(), old(self).state()),
            old(self).prog().code[old(self).ip as int] == Op::LoadConst(i as nat),
        ensures
            final(self).prog() == old(self).prog(),
            stepped(r, old(self).state(), final(self).state(), step(old(self).prog(), old(self).state())),
    {
        if i >= self.constants.len() {
            return Err(RuntimeError::BadConstant { ip: self.ip });
        }
        let v = self.constants[i].copied();
        self.push(v);
        self.advance();
        Ok(())
    }

    fn exec_load_var(&mut self, name: String) -> (r: Result<(), RuntimeError>)
        requires
            !stopped(old(self).prog(), old(self).state()),
            old(self).prog().code[old(self).ip as int] == Op::LoadVar(name@),
        ensures
            final(self).prog() == old(self).prog(),
            stepped(r, old(self).state(), final(self).state(), step(old(self).prog(), old(self).state())),
    {
        let found = match env_lookup(&self.env, &name) {
            Some(v) => Some(v),
            None => if self.calls.len() > 0 {
                env_lookup(&self.calls[0].env, &name)
            } else {
                None
            },
        };
        match found {
            Some(v) => {
                self.push(v);
                self.advance();
                Ok(())
            },
            None => Err(RuntimeError::UndefinedVariable { name, ip: self.ip }),
        }
    }

    fn exec_store_var(&mut self, name: String) -> (r: Result<(), RuntimeError>)
        requires
            !stopped(old(self).prog(), old(self).state()),
            old(self).prog().code[old(self).ip as int] == Op::StoreVar(name@),
        ensures
            final(self).prog() == old(self).prog(),
            stepped(r, old(self).state(), final(self).state(), step(old(self).prog(), old(self).state())),
    {
        let ip = self.ip;
        match self.pop() {
            Some(v) => {
                env_set(&mut self.env, name, v);
                self.advance();
                Ok(())
            },
            None => Err(RuntimeError::StackUnderflow { ip }),
        }
    }

    fn exec_print(&mut self) -> (r: Result<(), RuntimeError>)
        requires
            !stopped(old(self).prog(), old(self).state()),
            old(self).prog().code[old(self).ip as int] == Op::Print,
        ensures
            final(self).prog() == old(self).prog(),
            stepped(r, old(self).state(), final(self).state(), step(old(self).prog(), old(self).state())),
    {
        let ip = self.ip;
        match self.pop() {
            Some(v) => {
                let line = render_value(&v);
                let ghost before = self.output@;
                self.output.push(line);
                assert(lines_of(self.output@) =~= lines_of(before).push(line@));
                self.advance();
                Ok(())
            },
            None => Err(RuntimeError::StackUnderflow { ip }),
        }
    }

    fn exec_not(&mut self) -> (r: Result<(), RuntimeError>)
        requires
            !stopped(old(self).prog(), old(self).state()),
            old(self).prog().code[old(self).ip as int] == Op::Not,
        ensures
            final(self).prog() == old(self).prog(),
            stepped(r, old(self).state(), final(self).state(), step(old(self).prog(), old(self).state())),
    {
        let ip = self.ip;
        match self.pop() {
            Some(Value::Number(n)) => {
                self.push(Value::Number(if n == 0 { 1 } else { 0 }));
                self.advance();
                Ok(())
            },
            Some(Value::Str(_)) => Err(RuntimeError::TypeMismatch { ip }),
            None => Err(RuntimeError::StackUnderflow { ip }),
        }
    }

    fn exec_branch(&mut self, t: usize) -> (r: Result<(), RuntimeError>)
        requires
            !stopped(old(self).prog(), old(self).state()),
            old(self).prog().code[old(self).ip as int] == Op::JumpIfFalse(t as nat),
        ensures
            final(self).prog() == old(self).prog(),
            stepped(r, old(self).state(), final(self).state(), step(old(self).prog(), old(self).state())),
    {
        let ip = self.ip;
        match self.pop() {
            Some(Value::Number(n)) => {
                if n == 0 {
                    self.ip = t;
                } else {
                    self.advance();
                }
                Ok(())
            },
            Some(Value::Str(_)) => Err(RuntimeError::TypeMismatch { ip }),
            None => Err(RuntimeError::StackUnderflow { ip }),
        }
    }

    fn exec_repeat_start(&mut self, t: usize) -> (r: Result<(), RuntimeError>)
        requires
            !stopped(old(self).prog(), old(self).state()),
            old(self).prog().code[old(self).ip as int] == Op::RepeatStart(t as nat),
        ensures
            final(self).prog() == old(self).prog(),
            stepped(r, old(self).state(), final(self).state(), step(old(self).prog(), old(self).state())),
    {
        let ip = self.ip;
        match self.pop() {
            Some(Value::Number(n)) => {
                if n <= 0 {
                    self.ip = t;
                } else {
                    let ghost before = self.loops@;
                    let start = self.next_ip();
                    self.loops.push(LoopFrame { start, remaining: n });
                    assert(loops_of(self.loops@) =~= loops_of(before).push(LoopV { start: (ip + 1) as nat, remaining: n }));
                    self.advance();
                }
                Ok(())
            },
            Some(Value::Str(_)) => Err(RuntimeError::TypeMismatch { ip }),
            None => Err(RuntimeError::StackUnderflow { ip }),
        }
    }

    fn exec_repeat_end(&mut self) -> (r: Result<(), RuntimeError>)
        requires
            !stopped(old(self).prog(), old(self).state()),
            old(self).prog().code[old(self).ip as int] == Op::RepeatEnd,
        ensures
            final(self).prog() == old(self).prog(),
            stepped(r, old(self).state(), final(self).state(), step(old(self).prog(), old(self).state())),
    {
        let n = self.loops.len();
        if n == 0 {
            return Err(RuntimeError::UnmatchedRepeatEnd { ip: self.ip });
        }
        let l = self.loops[n - 1];
        let ghost before = self.loops@;
        if l.remaining > 1 {
            self.loops.set(n - 1, LoopFrame { start: l.start, remaining: l.remaining - 1 });
            assert(loops_of(self.loops@) =~= loops_of(before).update(
                n - 1,
                LoopV { start: l.start as nat, remaining: (l.remaining - 1) as i64 },
            ));
            self.ip = l.start;
        } else {
            self.loops.pop();
            assert(loops_of(self.loops@) =~= loops_of(before).drop_last());
            self.advance();
        }
        Ok(())
    }

    fn exec_binary(&mut self, op: &Opcode) -> (r: Result<(), RuntimeError>)
        requires
            !stopped(old(self).prog(), old(self).state()),
            old(self).prog().code[old(self).ip as int] == op@,
            is_binary(op@),
        ensures
            final(self).prog() == old(self).prog(),
            stepped(r, old(self).state(), final(self).state(), step(old(self).prog(), old(self).state())),
    {
        let ip = self.ip;
        if self.stack.len() < 2 {
            return Err(RuntimeError::StackUnderflow { ip });
        }
        let ghost s0 = self.state();
        let right = self.pop();
        let left = self.pop();
        assert(s0.stack.drop_last().drop_last() =~= s0.stack.subrange(0, s0.stack.len() - 2));
        match (left, right) {
            (Some(Value::Number(x)), Some(Value::Number(y))) => match arith(op, x, y, ip) {
                Ok(v) => {
                    self.push(Value::Number(v));
                    self.advance();
                    Ok(())
                },
                Err(e) => Err(e),
            },
            _ => Err(RuntimeError::TypeMismatch { ip }),
        }
    }

    /// The index of the function named `name`.
    fn function_index(&self, name: &String) -> (r: Option<usize>)
        ensures
            match find_fn(self.prog().funcs, name@) {
                Some(i) => r matches Some(j) && j as nat == i && j < self.functions@.len(),
                None => r is None,
            },
    {
        let mut i: usize = 0;
        while i < self.functions.len()
            invariant
                i <= self.functions@.len(),
                find_fn(self.prog().funcs.subrange(0, i as int), name@) is None,
            decreases self.functions@.len() - i,
        {
            let ghost pre = self.prog().funcs.subrange(0, i + 1 as int);
            assert(pre.drop_last() =~= self.prog().funcs.subrange(0, i as int));
            if self.functions[i].name == *name {
                proof {
                    lemma_find_fn_prefix(self.prog().funcs, i + 1, name@);
                }
                return Some(i);
            }
            i = i + 1;
        }
        assert(self.prog().funcs.subrange(0, i as int) =~= self.prog().funcs);
        None
    }

    fn exec_call(&mut self, name: String, argc: usize) -> (r: Result<(), RuntimeError>)
        requires
            !stopped(old(self).prog(), old(self).state()),
            old(self).prog().code[old(self).ip as int] == Op::Call(name@, argc as nat),
        ensures
            final(self).prog() == old(self).prog(),
            stepped(r, old(self).state(), final(self).state(), step(old(self).prog(), old(self).state())),
    {
        let ip = self.ip;
        let fi = match self.function_index(&name) {
            Some(fi) => fi,
            None => {
                return Err(RuntimeError::UndefinedFunction { name, ip });
            },
        };
        let ghost f = self.prog().funcs[fi as int];
        let nparams = self.functions[fi].params.len();
        if nparams != argc {
            return Err(RuntimeError::ArgumentCount { name, expected: nparams, found: argc, ip });
        }
        if self.stack.len() < argc {
            return Err(RuntimeError::StackUnderflow { ip });
        }
        let base = self.stack.len() - argc;
        let ghost s0 = self.state();
        let ghost args = s0.stack.subrange(base as int, s0.stack.len() as int);
        let mut fresh: Vec<Binding> = Vec::new();
        let mut k: usize = 0;
        while k < argc
            invariant
                self.state() == s0,
                self.prog() == old(self).prog(),
                fi < self.functions@.len(),
                f == self.prog().funcs[fi as int],
                f.params.len() == argc,
                base + argc == self.stack.len(),
                args == s0.stack.subrange(base as int, s0.stack.len() as int),
                k <= argc,
                env_of(fresh@) == bind(f.params.subrange(0, k as int), args.subrange(0, k as int)),
            decreases argc - k,
        {
            let pname = self.functions[fi].params[k].clone();
            let v = self.stack[base + k].copied();
            assert(f.params.subrange(0, k + 1 as int).drop_last() =~= f.params.subrange(0, k as int));
            assert(args.subrange(0, k + 1 as int).drop_last() =~= args.subrange(0, k as int));
            env_set(&mut fresh, pname, v);
            k = k + 1;
        }
        assert(f.params.subrange(0, argc as int) =~= f.params);
        assert(args.subrange(0, argc as int) =~= args);
        let ghost before_stack = self.stack@;
        self.stack.truncate(base);
        assert(vals_of(self.stack@) =~= vals_of(before_stack).subrange(0, base as int));
        std::mem::swap(&mut self.env, &mut fresh);
        let depth = self.loops.len();
        let ghost before_calls = self.calls@;
        let return_ip = self.next_ip();
        let frame = CallFrame { return_ip, env: fresh, loop_depth: depth };
        self.calls.push(frame);
        assert(frames_of(self.calls@) =~= frames_of(before_calls).push(frame_of(frame)));
        self.ip = self.functions[fi].start;
        Ok(())
    }

    fn exec_return(&mut self) -> (r: Result<(), RuntimeError>)
        requires
            !stopped(old(self).prog(), old(self).state()),
            old(self).prog().code[old(self).ip as int] == Op::Return,
        ensures
            final(self).prog() == old(self).prog(),
            stepped(r, old(self).state(), final(self).state(), step(old(self).prog(), old(self).state())),
    {
        let ghost before_calls = self.calls@;
        match self.calls.pop() {
            None => {
                self.halted = true;
                Ok(())
            },
            Some(frame) => {
                assert(frames_of(self.calls@) =~= frames_of(before_calls).drop_last());
                let ghost before_loops = self.loops@;
                self.env = frame.env;
                self.loops.truncate(frame.loop_depth);
                assert(loops_of(self.loops@) =~= if (frame.loop_depth as int) < before_loops.len() {
                    loops_of(before_loops).subrange(0, frame.loop_depth as int)
                } else {
                    loops_of(before_loops)
                });
                self.ip = frame.return_ip;
                Ok(())
            },
        }
    }
}

} // verus!

verus! {

/// A call with the wrong number of arguments, a read of a variable bound
/// nowhere, and a division by zero each stop the run with their own error,
/// and the output printed before stays as it was.
pub proof fn lemma_runtime_errors_reported(p: Prog, s: MState, fuel: nat)
    requires
        !stopped(p, s),
        fuel > 0,
    ensures
        ({
            let op = p.code[s.ip as int];
            op is Call && find_fn(p.funcs, op->Call_0) is Some
                && p.funcs[find_fn(p.funcs, op->Call_0)->Some_0 as int].params.len() != op->Call_1
            ==> run_steps(p, s, fuel) == (s.output, Some(RuntimeErrorView::ArgumentCount {
                name: op->Call_0,
                expected: p.funcs[find_fn(p.funcs, op->Call_0)->Some_0 as int].params.len(),
                found: op->Call_1,
                ip: s.ip,
            }))
        }),
        ({
            let op = p.code[s.ip as int];
            op is LoadVar && var_get(s, op->LoadVar_0) is None ==> run_steps(p, s, fuel) == (
                s.output,
                Some(RuntimeErrorView::UndefinedVariable { name: op->LoadVar_0, ip: s.ip }),
            )
        }),
        ({
            let op = p.code[s.ip as int];
            op is Div && s.stack.len() >= 2 && s.stack[s.stack.len() - 2] is Number
                && s.stack.last() == Val::Number(0) ==> run_steps(p, s, fuel) == (
                s.output,
                Some(RuntimeErrorView::DivisionByZero { ip: s.ip }),
            )
        }),
{
}

} // verus!

verus! {

/// A call saves the caller's environment, return address and loop frames, and
/// the matching return restores exactly those: whatever the body did to its
/// own variables, the caller's are as they were before the call.
pub proof fn lemma_call_return_restores(p: Prog, s: MState, t: MState)
    requires
        !stopped(p, s),
        p.code[s.ip as int] is Call,
        step(p, s) is Ok,
        !stopped(p, t),
        p.code[t.ip as int] is Return,
        t.calls == step(p, s)->Ok_0.calls,
        s.loops.len() <= t.loops.len(),
        t.loops.subrange(0, s.loops.len() as int) == s.loops,
    ensures
        step(p, t) matches Ok(u) && u.env == s.env && u.ip == s.ip + 1 && u.calls == s.calls && u.loops
            == s.loops && u.stack == t.stack && u.output == t.output,
{
    let s1 = step(p, s)->Ok_0;
    assert(s1.calls.drop_last() =~= s.calls);
    if s.loops.len() == t.loops.len() {
        assert(t.loops.subrange(0, s.loops.len() as int) =~= t.loops);
    }
}

} // verus!

//! The compiler: statements to bytecode, in one pass.
//!
//! Literals go to the constant pool and are loaded by index. Forward jumps are
//! emitted with a placeholder target and patched once the target is known.
//! A function body is emitted where it is defined, behind a jump that skips
//! it, and ends with a `Return`; the function table records where it starts.
//! A whole program ends with a `Return`.

use crate::lexer::{Kind, TokenType};
use crate::parser::{Ast, Expr, asts_of, lemma_expr_view, names_of};
use vstd::prelude::*;

verus! {

/// A runtime value, and a literal of the constant pool.
#[derive(Debug, Clone, PartialEq)]
pub enum Value {
    Number(i64),
    Str(String),
}

/// A value as a mathematical value.
pub enum Val {
    Number(i64),
    Str(Seq<char>),
}

impl View for Value {
    type V = Val;

    open spec fn view(&self) -> Val {
        match self {
            Value::Number(n) => Val::Number(*n),
            Value::Str(s) => Val::Str(s@),
        }
    }
}

impl Value {
    /// A copy of this value.
    pub fn copied(&self) -> (r: Value)
        ensures
            r@ == self@,
    {
        match self {
            Value::Number(n) => Value::Number(*n),
            Value::Str(s) => Value::Str(s.clone()),
        }
    }
}

/// One instruction. Jump targets are absolute instruction indices.
#[derive(Debug, Clone, PartialEq)]
pub enum Opcode {
    LoadConst(usize),
    LoadVar(String),
    StoreVar(String),
    Add,
    Sub,
    Mul,
    Div,
    And,
    Or,
    Not,
    Print,
    JumpIfFalse(usize),
    Jump(usize),
    /// Pops the iteration count; with a count of zero or less, jumps to the
    /// target, the instruction after the matching `RepeatEnd`.
    RepeatStart(usize),
    RepeatEnd,
    /// A call of the named function with the given number of arguments.
    Call(String, usize),
    Return,
}

/// An instruction as a mathematical value.
pub enum Op {
    LoadConst(nat),
    LoadVar(Seq<char>),
    StoreVar(Seq<char>),
    Add,
    Sub,
    Mul,
    Div,
    And,
    Or,
    Not,
    Print,
    JumpIfFalse(nat),
    Jump(nat),
    RepeatStart(nat),
    RepeatEnd,
    Call(Seq<char>, nat),
    Return,
}

impl View for Opcode {
    type V = Op;

    open spec fn view(&self) -> Op {
        match self {
            Opcode::LoadConst(i) => Op::LoadConst(*i as nat),
            Opcode::LoadVar(s) => Op::LoadVar(s@),
            Opcode::StoreVar(s) => Op::StoreVar(s@),
            Opcode::Add => Op::Add,
            Opcode::Sub => Op::Sub,
            Opcode::Mul => Op::Mul,
            Opcode::Div => Op::Div,
            Opcode::And => Op::And,
            Opcode::Or => Op::Or,
            Opcode::Not => Op::Not,
            Opcode::Print => Op::Print,
            Opcode::JumpIfFalse(t) => Op::JumpIfFalse(*t as nat),
            Opcode::Jump(t) => Op::Jump(*t as nat),
            Opcode::RepeatStart(t) => Op::RepeatStart(*t as nat),
            Opcode::RepeatEnd => Op::RepeatEnd,
            Opcode::Call(s, n) => Op::Call(s@, *n as nat),
            Opcode::Return => Op::Return,
        }
    }
}

impl Opcode {
    /// A copy of this instruction.
    pub fn copied(&self) -> (r: Opcode)
        ensures
            r@ == self@,
    {
        match self {
            Opcode::LoadConst(i) => Opcode::LoadConst(*i),
            Opcode::LoadVar(s) => Opcode::LoadVar(s.clone()),
            Opcode::StoreVar(s) => Opcode::StoreVar(s.clone()),
            Opcode::Add => Opcode::Add,
            Opcode::Sub => Opcode::Sub,
            Opcode::Mul => Opcode::Mul,
            Opcode::Div => Opcode::Div,
            Opcode::And => Opcode::And,
            Opcode::Or => Opcode::Or,
            Opcode::Not => Opcode::Not,
            Opcode::Print => Opcode::Print,
            Opcode::JumpIfFalse(t) => Opcode::JumpIfFalse(*t),
            Opcode::Jump(t) => Opcode::Jump(*t),
            Opcode::RepeatStart(t) => Opcode::RepeatStart(*t),
            Opcode::RepeatEnd => Opcode::RepeatEnd,
            Opcode::Call(s, n) => Opcode::Call(s.clone(), *n),
            Opcode::Return => Opcode::Return,
        }
    }
}

/// A function of the program: its parameters and where its body starts.
#[derive(Debug, Clone)]
pub struct FunctionEntry {
    pub name: String,
    pub params: Vec<String>,
    pub start: usize,
}

pub struct FnInfo {
    pub name: Seq<char>,
    pub params: Seq<Seq<char>>,
    pub start: nat,
}

impl View for FunctionEntry {
    type V = FnInfo;

    open spec fn view(&self) -> FnInfo {
        FnInfo { name: self.name@, params: names_of(self.params@), start: self.start as nat }
    }
}

pub open spec fn vals_of(v: Seq<Value>) -> Seq<Val> {
    v.map_values(|x: Value| x@)
}

pub open spec fn ops_of(v: Seq<Opcode>) -> Seq<Op> {
    v.map_values(|x: Opcode| x@)
}

pub open spec fn fns_of(v: Seq<FunctionEntry>) -> Seq<FnInfo> {
    v.map_values(|x: FunctionEntry| x@)
}

#[derive(Debug, Clone)]
pub enum CompileError {
    /// A binary operator that has no instruction.
    UnsupportedOperator(TokenType),
    /// `network.scan`, which is a host built-in and not compiled here.
    UnsupportedNetworkScan,
    /// A second function of a name already defined.
    DuplicateFunction(String),
}

pub enum CompileErrorView {
    UnsupportedOperator(Kind),
    UnsupportedNetworkScan,
    DuplicateFunction(Seq<char>),
}

impl View for CompileError {
    type V = CompileErrorView;

    open spec fn view(&self) -> CompileErrorView {
        match self {
            CompileError::UnsupportedOperator(k) => CompileErrorView::UnsupportedOperator(k@),
            CompileError::UnsupportedNetworkScan => CompileErrorView::UnsupportedNetworkScan,
            CompileError::DuplicateFunction(s) => CompileErrorView::DuplicateFunction(s@),
        }
    }
}

// ---------------------------------------------------------------------------
// Compilation as a function on the compiler's state.

/// What the compiler has produced so far.
pub struct CState {
    pub consts: Seq<Val>,
    pub code: Seq<Op>,
    pub funcs: Seq<FnInfo>,
}

pub open spec fn emit(st: CState, op: Op) -> CState {
    CState { code: st.code.push(op), ..st }
}

/// The code of `st` with the instruction at `i` replaced by `op`.
pub open spec fn patch(st: CState, i: int, op: Op) -> CState {
    CState { code: st.code.update(i, op), ..st }
}

pub open spec fn load_const(st: CState, v: Val) -> CState {
    emit(CState { consts: st.consts.push(v), ..st }, Op::LoadConst(st.consts.len()))
}

/// The index of the first function named `name`.
pub open spec fn find_fn(funcs: Seq<FnInfo>, name: Seq<char>) -> Option<nat>
    decreases funcs.len(),
{
    if funcs.len() == 0 {
        None
    } else {
        match find_fn(funcs.drop_last(), name) {
            Some(i) => Some(i),
            None => if funcs.last().name == name {
                Some((funcs.len() - 1) as nat)
            } else {
                None
            },
        }
    }
}

/// The instruction of a binary operator.
pub open spec fn binary_op(k: Kind) -> Option<Op> {
    match k {
        Kind::Plus => Some(Op::Add),
        Kind::Minus => Some(Op::Sub),
        Kind::Star => Some(Op::Mul),
        Kind::Slash => Some(Op::Div),
        _ => None,
    }
}

pub type Compiled = Result<CState, CompileErrorView>;

pub open spec fn c_expr(e: Ast, st: CState) -> Compiled
    decreases e,
{
    match e {
        Ast::Number(n) => Ok(load_const(st, Val::Number(n))),
        Ast::Str(s) => Ok(load_const(st, Val::Str(s))),
        Ast::Identifier(name) => Ok(emit(st, Op::LoadVar(name))),
        Ast::Binary { left, op, right } => match c_expr(*left, st) {
            Ok(s1) => match c_expr(*right, s1) {
                Ok(s2) => match binary_op(op) {
                    Some(o) => Ok(emit(s2, o)),
                    None => Err(CompileErrorView::UnsupportedOperator(op)),
                },
                Err(err) => Err(err),
            },
            Err(err) => Err(err),
        },
        Ast::Let { name, value, .. } => match c_expr(*value, st) {
            Ok(s1) => Ok(emit(s1, Op::StoreVar(name))),
            Err(err) => Err(err),
        },
        Ast::Print { expr } => match c_expr(*expr, st) {
            Ok(s1) => Ok(emit(s1, Op::Print)),
            Err(err) => Err(err),
        },
        Ast::If { condition, then_branch, else_branch } => match c_expr(*condition, st) {
            Ok(s1) => {
                let j1 = s1.code.len();
                match c_block(then_branch, emit(s1, Op::JumpIfFalse(0))) {
                    Ok(s2) => {
                        let j2 = s2.code.len();
                        let els = match else_branch {
                            Some(b) => c_block(b, emit(s2, Op::Jump(0))),
                            None => Ok(emit(s2, Op::Jump(0))),
                        };
                        match els {
                            Ok(s3) => Ok(patch(
                                patch(s3, j1 as int, Op::JumpIfFalse(j2 + 1)),
                                j2 as int,
                                Op::Jump(s3.code.len()),
                            )),
                            Err(err) => Err(err),
                        }
                    },
                    Err(err) => Err(err),
                }
            },
            Err(err) => Err(err),
        },
        Ast::Repeat { times, body } => match c_expr(*times, st) {
            Ok(s1) => {
                let j = s1.code.len();
                match c_block(body, emit(s1, Op::RepeatStart(0))) {
                    Ok(s2) => {
                        let s3 = emit(s2, Op::RepeatEnd);
                        Ok(patch(s3, j as int, Op::RepeatStart(s3.code.len())))
                    },
                    Err(err) => Err(err),
                }
            },
            Err(err) => Err(err),
        },
        Ast::FnDef { name, params, body } => if find_fn(st.funcs, name) is Some {
            Err(CompileErrorView::DuplicateFunction(name))
        } else {
            let j = st.code.len();
            let s1 = emit(st, Op::Jump(0));
            let s1 = CState { funcs: s1.funcs.push(FnInfo { name, params, start: j + 1 }), ..s1 };
            match c_block(body, s1) {
                Ok(s2) => {
                    let s3 = emit(s2, Op::Return);
                    Ok(patch(s3, j as int, Op::Jump(s3.code.len())))
                },
                Err(err) => Err(err),
            }
        },
        Ast::Return { value } => match value {
            Some(v) => match c_expr(*v, st) {
                Ok(s1) => Ok(emit(s1, Op::Return)),
                Err(err) => Err(err),
            },
            None => Ok(emit(st, Op::Return)),
        },
        Ast::NetworkScan { .. } => Err(CompileErrorView::UnsupportedNetworkScan),
        Ast::Call { name, args } => match c_block(args, st) {
            Ok(s1) => Ok(emit(s1, Op::Call(name, args.len()))),
            Err(err) => Err(err),
        },
    }
}

/// The nodes of `b` compiled in order.
pub open spec fn c_block(b: Seq<Ast>, st: CState) -> Compiled
    decreases b,
{
    if b.len() == 0 {
        Ok(st)
    } else {
        match c_block(b.drop_last(), st) {
            Ok(s1) => c_expr(b.last(), s1),
            Err(err) => Err(err),
        }
    }
}

/// A whole program: its statements, then a final `Return`.
pub open spec fn c_program(b: Seq<Ast>, st: CState) -> Compiled {
    match c_block(b, st) {
        Ok(s1) => Ok(emit(s1, Op::Return)),
        Err(err) => Err(err),
    }
}

pub open spec fn empty_state() -> CState {
    CState { consts: Seq::empty(), code: Seq::empty(), funcs: Seq::empty() }
}

} // verus!

verus! {

pub open spec fn compiled_to(r: Result<(), CompileError>, after: CState, s: Compiled) -> bool {
    match s {
        Ok(st) => r is Ok && after == st,
        Err(err) => r matches Err(x) && x@ == err,
    }
}

/// The compiler's output: a constant pool, the code and the function table.
pub struct Compiler {
    constants: Vec<Value>,
    code: Vec<Opcode>,
    functions: Vec<FunctionEntry>,
}

impl View for Compiler {
    type V = CState;

    closed spec fn view(&self) -> CState {
        CState { consts: vals_of(self.constants@), code: ops_of(self.code@), funcs: fns_of(self.functions@) }
    }
}

impl Compiler {
    pub fn new() -> (r: Compiler)
        ensures
            r@ == empty_state(),
    {
        let r = Compiler { constants: Vec::new(), code: Vec::new(), functions: Vec::new() };
        assert(r@.consts =~= Seq::<Val>::empty());
        assert(r@.code =~= Seq::<Op>::empty());
        assert(r@.funcs =~= Seq::<FnInfo>::empty());
        r
    }

    /// Compiles a program: its statements in order, then a final `Return`.
    pub fn compile(&mut self, ast: Vec<Expr>) -> (r: Result<(), CompileError>)
        ensures
            compiled_to(r, final(self)@, c_program(asts_of(ast@), old(self)@)),
    {
        match self.compile_block(&ast) {
            Ok(()) => {},
            Err(e) => {
                return Err(e);
            },
        }
        self.emit(Opcode::Return);
        Ok(())
    }

    /// The constant pool, the code and the function table, in that order.
    pub fn into_parts(self) -> (r: (Vec<Value>, Vec<Opcode>, Vec<FunctionEntry>))
        ensures
            vals_of(r.0@) == self@.consts,
            ops_of(r.1@) == self@.code,
            fns_of(r.2@) == self@.funcs,
    {
        (self.constants, self.code, self.functions)
    }

    pub fn get_code(&self) -> (r: &Vec<Opcode>)
        ensures
            ops_of(r@) == self@.code,
    {
        &self.code
    }

    pub fn get_constants(&self) -> (r: &Vec<Value>)
        ensures
            vals_of(r@) == self@.consts,
    {
        &self.constants
    }

    pub fn get_functions(&self) -> (r: &Vec<FunctionEntry>)
        ensures
            fns_of(r@) == self@.funcs,
    {
        &self.functions
    }

    fn emit(&mut self, op: Opcode)
        ensures
            final(self)@ == emit(old(self)@, op@),
    {
        let ghost before = self.code@;
        self.code.push(op);
        assert(ops_of(self.code@) =~= ops_of(before).push(op@));
    }

    fn patch(&mut self, i: usize, op: Opcode)
        requires
            i < old(self)@.code.len(),
        ensures
            final(self)@ == patch(old(self)@, i as int, op@),
    {
        let ghost before = self.code@;
        self.code.set(i, op);
        assert(ops_of(self.code@) =~= ops_of(before).update(i as int, op@));
    }

    fn load_const(&mut self, v: Value)
        ensures
            final(self)@ == load_const(old(self)@, v@),
    {
        let idx = self.constants.len();
        let ghost before = self.constants@;
        self.constants.push(v);
        assert(vals_of(self.constants@) =~= vals_of(before).push(v@));
        self.emit(Opcode::LoadConst(idx));
    }

    fn find_function(&self, name: &String) -> (r: bool)
        ensures
            r == find_fn(self@.funcs, name@) is Some,
    {
        let mut i: usize = 0;
        while i < self.functions.len()
            invariant
                i <= self.functions@.len(),
                find_fn(fns_of(self.functions@.subrange(0, i as int)), name@) is None,
            decreases self.functions@.len() - i,
        {
            let ghost pre = fns_of(self.functions@.subrange(0, i + 1 as int));
            assert(pre.drop_last() =~= fns_of(self.functions@.subrange(0, i as int)));
            if self.functions[i].name == *name {
                proof {
                    lemma_find_fn_prefix(fns_of(self.functions@), i + 1, name@);
                }
                return true;
            }
            i = i + 1;
        }
        assert(self.functions@.subrange(0, i as int) =~= self.functions@);
        false
    }

    fn compile_block(&mut self, b: &Vec<Expr>) -> (r: Result<(), CompileError>)
        ensures
            compiled_to(r, final(self)@, c_block(asts_of(b@), old(self)@)),
            old(self)@.code.len() <= final(self)@.code.len(),
        decreases b, 0nat,
    {
        let ghost st0 = self@;
        let mut i: usize = 0;
        while i < b.len()
            invariant
                i <= b@.len(),
                st0 == old(self)@,
                c_block(asts_of(b@.subrange(0, i as int)), st0) == Ok::<CState, CompileErrorView>(self@),
                st0.code.len() <= self@.code.len(),
            decreases b@.len() - i,
        {
            let ghost pre = asts_of(b@.subrange(0, i + 1 as int));
            assert(pre.drop_last() =~= asts_of(b@.subrange(0, i as int)));
            assert(pre.last() == b@[i as int]@);
            match self.compile_expr(&b[i]) {
                Ok(()) => {},
                Err(e) => {
                    proof {
                        assert(asts_of(b@).subrange(0, i + 1 as int) =~= pre);
                        assert(c_block(pre, st0) is Err);
                        lemma_c_block_err(asts_of(b@), i + 1, st0);
                    }
                    return Err(e);
                },
            }
            i = i + 1;
        }
        assert(b@.subrange(0, i as int) =~= b@);
        Ok(())
    }

    fn compile_expr(&mut self, expr: &Expr) -> (r: Result<(), CompileError>)
        ensures
            compiled_to(r, final(self)@, c_expr(expr@, old(self)@)),
            old(self)@.code.len() <= final(self)@.code.len(),
        decreases expr, 2nat,
    {
        proof {
            lemma_expr_view(*expr);
        }
        match expr {
            Expr::Number(n) => {
                self.load_const(Value::Number(*n));
                Ok(())
            },
            Expr::String(s) => {
                self.load_const(Value::Str(s.clone()));
                Ok(())
            },
            Expr::Identifier(name) => {
                self.emit(Opcode::LoadVar(name.clone()));
                Ok(())
            },
            Expr::Binary { left, op, right } => {
                match self.compile_expr(left) {
                    Ok(()) => {},
                    Err(e) => {
                        return Err(e);
                    },
                }
                match self.compile_expr(right) {
                    Ok(()) => {},
                    Err(e) => {
                        return Err(e);
                    },
                }
                match op {
                    TokenType::Plus => self.emit(Opcode::Add),
                    TokenType::Minus => self.emit(Opcode::Sub),
                    TokenType::Star => self.emit(Opcode::Mul),
                    TokenType::Slash => self.emit(Opcode::Div),
                    _ => {
                        return Err(CompileError::UnsupportedOperator(op.copied()));
                    },
                }
                Ok(())
            },
            Expr::Let { name, value, .. } => {
                match self.compile_expr(value) {
                    Ok(()) => {},
                    Err(e) => {
                        return Err(e);
                    },
                }
                self.emit(Opcode::StoreVar(name.clone()));
                Ok(())
            },
            Expr::Print { expr } => {
                match self.compile_expr(expr) {
                    Ok(()) => {},
                    Err(e) => {
                        return Err(e);
                    },
                }
                self.emit(Opcode::Print);
                Ok(())
            },
            Expr::If { .. } => self.compile_if(expr),
            Expr::Repeat { times, body } => {
                match self.compile_expr(times) {
                    Ok(()) => {},
                    Err(e) => {
                        return Err(e);
                    },
                }
                let j = self.code.len();
                self.emit(Opcode::RepeatStart(0));
                match self.compile_block(body) {
                    Ok(()) => {},
                    Err(e) => {
                        return Err(e);
                    },
                }
                self.emit(Opcode::RepeatEnd);
                let end = self.code.len();
                self.patch(j, Opcode::RepeatStart(end));
                Ok(())
            },
            Expr::FnDef { name, params, body } => {
                if self.find_function(name) {
                    return Err(CompileError::DuplicateFunction(name.clone()));
                }
                let j = self.code.len();
                self.emit(Opcode::Jump(0));
                let entry = FunctionEntry { name: name.clone(), params: params.clone(), start: self.code.len() };
                let ghost before = self.functions@;
                self.functions.push(entry);
                assert(fns_of(self.functions@) =~= fns_of(before).push(entry@));
                match self.compile_block(body) {
                    Ok(()) => {},
                    Err(e) => {
                        return Err(e);
                    },
                }
                self.emit(Opcode::Return);
                let end = self.code.len();
                self.patch(j, Opcode::Jump(end));
                Ok(())
            },
            Expr::Return { value } => {
                match value {
                    Some(v) => match self.compile_expr(v) {
                        Ok(()) => {},
                        Err(e) => {
                            return Err(e);
                        },
                    },
                    None => {},
                }
                self.emit(Opcode::Return);
                Ok(())
            },
            Expr::NetworkScan { .. } => Err(CompileError::UnsupportedNetworkScan),
            Expr::Call { name, args } => {
                match self.compile_block(args) {
                    Ok(()) => {},
                    Err(e) => {
                        return Err(e);
                    },
                }
                self.emit(Opcode::Call(name.clone(), args.len()));
                Ok(())
            },
        }
    }

    fn compile_if(&mut self, expr: &Expr) -> (r: Result<(), CompileError>)
        requires
            expr is If,
        ensures
            compiled_to(r, final(self)@, c_expr(expr@, old(self)@)),
            old(self)@.code.len() <= final(self)@.code.len(),
        decreases expr, 1nat,
    {
        proof {
            lemma_expr_view(*expr);
        }
        let (condition, then_branch, else_branch) = match expr {
            Expr::If { condition, then_branch, else_branch } => (condition, then_branch, else_branch),
            _ => {
                return Ok(());
            },
        };
        match self.compile_expr(condition) {
            Ok(()) => {},
            Err(e) => {
                return Err(e);
            },
        }
        let j1 = self.code.len();
        self.emit(Opcode::JumpIfFalse(0));
        match self.compile_block(then_branch) {
            Ok(()) => {},
            Err(e) => {
                return Err(e);
            },
        }
        let j2 = self.code.len();
        self.emit(Opcode::Jump(0));
        let after_jump = self.code.len();
        match else_branch {
            Some(b) => match self.compile_block(b) {
                Ok(()) => {},
                Err(e) => {
                    return Err(e);
                },
            },
            None => {},
        }
        let end = self.code.len();
        self.patch(j1, Opcode::JumpIfFalse(after_jump));
        self.patch(j2, Opcode::Jump(end));
        Ok(())
    }
}

/// Once a prefix of a block fails, the whole block fails the same way.
proof fn lemma_c_block_err(b: Seq<Ast>, n: int, st: CState)
    requires
        0 <= n <= b.len(),
        c_block(b.subrange(0, n), st) is Err,
    ensures
        c_block(b, st) == c_block(b.subrange(0, n), st),
    decreases b.len() - n,
{
    if n < b.len() {
        assert(b.subrange(0, n + 1).drop_last() =~= b.subrange(0, n));
        lemma_c_block_err(b, n + 1, st);
    } else {
        assert(b.subrange(0, n) =~= b);
    }
}

/// Once a prefix of the table has a function of a name, the whole table
/// finds the same one.
pub proof fn lemma_find_fn_prefix(funcs: Seq<FnInfo>, n: int, name: Seq<char>)
    requires
        0 <= n <= funcs.len(),
        find_fn(funcs.subrange(0, n), name) is Some,
    ensures
        find_fn(funcs, name) == find_fn(funcs.subrange(0, n), name),
    decreases funcs.len() - n,
{
    if n < funcs.len() {
        assert(funcs.subrange(0, n + 1).drop_last() =~= funcs.subrange(0, n));
        lemma_find_fn_prefix(funcs, n + 1, name);
    } else {
        assert(funcs.subrange(0, n) =~= funcs);
    }
}

} // verus!

verus! {

/// Compiling is deterministic: equal syntax trees compiled from equal states
/// give equal constant pools, code and function tables, or the same error.
pub proof fn lemma_compile_deterministic(a: Seq<Ast>, b: Seq<Ast>, sa: CState, sb: CState)
    requires
        a == b,
        sa == sb,
    ensures
        c_program(a, sa) == c_program(b, sb),
{
}

} // verus!

verus! {

/// The target of a jump-like instruction is at most `bound`.
pub open spec fn target_within(op: Op, bound: nat) -> bool {
    match op {
        Op::JumpIfFalse(t) => t <= bound,
        Op::Jump(t) => t <= bound,
        Op::RepeatStart(t) => t <= bound,
        _ => true,
    }
}

/// Every jump target and every function start is at most `bound`.
pub open spec fn targets_within(st: CState, bound: nat) -> bool {
    &&& forall|i: int| 0 <= i < st.code.len() ==> target_within(#[trigger] st.code[i], bound)
    &&& forall|i: int| 0 <= i < st.funcs.len() ==> (#[trigger] st.funcs[i]).start <= bound
}

proof fn lemma_emit_within(st: CState, op: Op)
    requires
        targets_within(st, st.code.len()),
        target_within(op, st.code.len() + 1),
    ensures
        targets_within(emit(st, op), emit(st, op).code.len()),
{
    let s2 = emit(st, op);
    assert forall|i: int| 0 <= i < s2.code.len() implies target_within(#[trigger] s2.code[i], s2.code.len()) by {
        if i < st.code.len() {
            assert(s2.code[i] == st.code[i]);
            assert(target_within(st.code[i], st.code.len()));
        }
    }
}

proof fn lemma_patch_within(st: CState, j: int, op: Op)
    requires
        targets_within(st, st.code.len()),
        0 <= j < st.code.len(),
        target_within(op, st.code.len()),
    ensures
        targets_within(patch(st, j, op), st.code.len()),
        patch(st, j, op).code.len() == st.code.len(),
{
    let s2 = patch(st, j, op);
    assert forall|i: int| 0 <= i < s2.code.len() implies target_within(#[trigger] s2.code[i], s2.code.len()) by {
        if i != j {
            assert(s2.code[i] == st.code[i]);
        }
    }
}

proof fn lemma_c_expr_within(e: Ast, st: CState)
    requires
        targets_within(st, st.code.len()),
    ensures
        c_expr(e, st) matches Ok(s2) ==> targets_within(s2, s2.code.len()) && st.code.len() <= s2.code.len(),
    decreases e,
{
    match e {
        Ast::Number(n) => {
            lemma_emit_within(CState { consts: st.consts.push(Val::Number(n)), ..st }, Op::LoadConst(st.consts.len()));
        },
        Ast::Str(t) => {
            lemma_emit_within(CState { consts: st.consts.push(Val::Str(t)), ..st }, Op::LoadConst(st.consts.len()));
        },
        Ast::Identifier(name) => {
            lemma_emit_within(st, Op::LoadVar(name));
        },
        Ast::Binary { left, op, right } => {
            lemma_c_expr_within(*left, st);
            if let Ok(s1) = c_expr(*left, st) {
                lemma_c_expr_within(*right, s1);
                if let Ok(s2) = c_expr(*right, s1) {
                    if let Some(o) = binary_op(op) {
                        lemma_emit_within(s2, o);
                    }
                }
            }
        },
        Ast::Let { name, value, .. } => {
            lemma_c_expr_within(*value, st);
            if let Ok(s1) = c_expr(*value, st) {
                lemma_emit_within(s1, Op::StoreVar(name));
            }
        },
        Ast::Print { expr } => {
            lemma_c_expr_within(*expr, st);
            if let Ok(s1) = c_expr(*expr, st) {
                lemma_emit_within(s1, Op::Print);
            }
        },
        Ast::If { condition, then_branch, else_branch } => {
            lemma_c_expr_within(*condition, st);
            if let Ok(s1) = c_expr(*condition, st) {
                let j1 = s1.code.len();
                let e1 = emit(s1, Op::JumpIfFalse(0));
                lemma_emit_within(s1, Op::JumpIfFalse(0));
                lemma_c_block_within(then_branch, e1);
                if let Ok(s2) = c_block(then_branch, e1) {
                    let j2 = s2.code.len();
                    let e2 = emit(s2, Op::Jump(0));
                    lemma_emit_within(s2, Op::Jump(0));
                    match else_branch {
                        Some(b) => lemma_c_block_within(b, e2),
                        None => {},
                    }
                    let els = match else_branch {
                        Some(b) => c_block(b, e2),
                        None => Ok(e2),
                    };
                    if let Ok(s3) = els {
                        lemma_patch_within(s3, j1 as int, Op::JumpIfFalse(j2 + 1));
                        let patched = patch(s3, j1 as int, Op::JumpIfFalse(j2 + 1));
                        lemma_patch_within(patched, j2 as int, Op::Jump(s3.code.len()));
                    }
                }
            }
        },
        Ast::Repeat { times, body } => {
            lemma_c_expr_within(*times, st);
            if let Ok(s1) = c_expr(*times, st) {
                let j = s1.code.len();
                let e1 = emit(s1, Op::RepeatStart(0));
                lemma_emit_within(s1, Op::RepeatStart(0));
                lemma_c_block_within(body, e1);
                if let Ok(s2) = c_block(body, e1) {
                    lemma_emit_within(s2, Op::RepeatEnd);
                    let s3 = emit(s2, Op::RepeatEnd);
                    lemma_patch_within(s3, j as int, Op::RepeatStart(s3.code.len()));
                }
            }
        },
        Ast::FnDef { name, params, body } => {
            if find_fn(st.funcs, name) is None {
                let j = st.code.len();
                let s0 = emit(st, Op::Jump(0));
                lemma_emit_within(st, Op::Jump(0));
                let s1 = CState { funcs: s0.funcs.push(FnInfo { name, params, start: j + 1 }), ..s0 };
                assert forall|i: int| 0 <= i < s1.funcs.len() implies (#[trigger] s1.funcs[i]).start <= s1.code.len() by {
                    if i < s0.funcs.len() {
                        assert(s1.funcs[i] == s0.funcs[i]);
                    }
                }
                lemma_c_block_within(body, s1);
                if let Ok(s2) = c_block(body, s1) {
                    lemma_emit_within(s2, Op::Return);
                    let s3 = emit(s2, Op::Return);
                    lemma_patch_within(s3, j as int, Op::Jump(s3.code.len()));
                }
            }
        },
        Ast::Return { value } => {
            match value {
                Some(v) => {
                    lemma_c_expr_within(*v, st);
                    if let Ok(s1) = c_expr(*v, st) {
                        lemma_emit_within(s1, Op::Return);
                    }
                },
                None => lemma_emit_within(st, Op::Return),
            }
        },
        Ast::NetworkScan { .. } => {},
        Ast::Call { name, args } => {
            lemma_c_block_within(args, st);
            if let Ok(s1) = c_block(args, st) {
                lemma_emit_within(s1, Op::Call(name, args.len()));
            }
        },
    }
}

proof fn lemma_c_block_within(b: Seq<Ast>, st: CState)
    requires
        targets_within(st, st.code.len()),
    ensures
        c_block(b, st) matches Ok(s2) ==> targets_within(s2, s2.code.len()) && st.code.len() <= s2.code.len(),
    decreases b,
{
    if b.len() > 0 {
        lemma_c_block_within(b.drop_last(), st);
        if let Ok(s1) = c_block(b.drop_last(), st) {
            lemma_c_expr_within(b.last(), s1);
        }
    }
}

/// Every jump target and every function start of a compiled program is the
/// index of one of its instructions.
pub proof fn lemma_compiled_targets_valid(ast: Seq<Ast>)
    ensures
        c_program(ast, empty_state()) matches Ok(st) ==> st.code.len() > 0 && targets_within(
            st,
            (st.code.len() - 1) as nat,
        ),
{
    lemma_c_block_within(ast, empty_state());
    if let Ok(s1) = c_block(ast, empty_state()) {
        let st = emit(s1, Op::Return);
        assert forall|i: int| 0 <= i < st.code.len() implies target_within(#[trigger] st.code[i], (st.code.len() - 1) as nat) by {
            if i < s1.code.len() {
                assert(st.code[i] == s1.code[i]);
                assert(target_within(s1.code[i], s1.code.len()));
            }
        }
    }
}

} // verus!

//! The evaluator: a machine that walks the syntax tree one transition at a
//! time. What is left to do after the piece in hand is kept on a stack of
//! continuations, so that a step never recurses and the host may stop
//! between any two steps.
use vstd::prelude::*;
use crate::ast::{BinOp, Block, Exp_, FunctionCall, Stat_, UnOp, Var};
use crate::env::{Env, EnvView, GEnv};
use crate::host::{Action, ActionView, Reply, Request};
use crate::value::{
    chain_ok, error_ok, lemma_list_grow, lemma_list_values, list_ok, value_ok, Chain, Error,
    Function, Value, ValueList,
};

verus! {

/// What is left to do once a value comes back.
#[derive(Debug)]
pub enum Kont<'ast> {
    /// Leave a scope: make this chain current again and pass the value on.
    Restore(Chain),
    /// The statements of the block are done: evaluate its result.
    BlockRet(&'ast Block),
    /// The first statement of a sequence is done: run the second.
    SeqNext(&'ast Stat_),
    /// Assign the value to this name.
    Assign(&'ast String),
    /// A call used as a statement: its value must be `Nil`.
    Discard,
    /// The value is the condition of this loop.
    WhileTest(&'ast Exp_, &'ast Block),
    /// The body of this loop is done: test the condition again.
    WhileBody(&'ast Exp_, &'ast Block),
    /// The value is the condition that chooses between the two branches.
    IfTest(&'ast Block, &'ast Block),
    /// The value is the callee of this call.
    Callee(&'ast FunctionCall),
    /// The value is an argument of this call to this function; the list holds
    /// the arguments before it, the last first, and the number is the index
    /// of the argument to evaluate next.
    Args(&'ast FunctionCall, Function<'ast>, ValueList<'ast>, usize),
    /// The value is the left operand; the right one is still to evaluate.
    BinLeft(BinOp, &'ast Exp_),
    /// The value is the right operand; this is the left one.
    BinRight(BinOp, Value<'ast>),
    /// The value is the operand.
    Un(UnOp),
}

/// The piece of work in hand.
#[derive(Debug)]
pub enum Control<'ast> {
    /// Enter this block.
    Block(&'ast Block),
    /// Run this statement.
    Stat(&'ast Stat_),
    /// Evaluate this expression.
    Exp(&'ast Exp_),
    /// Hand this value to the topmost continuation.
    Return(Value<'ast>),
    /// Waiting for the number that the host was asked for.
    Arith(Request),
    /// Printing: the arguments still to render, the last first, and those
    /// rendered, the first first. A rendered number is the string of its
    /// text.
    Print(ValueList<'ast>, ValueList<'ast>),
    /// Printing, and waiting for the text of this number.
    Text(u64, ValueList<'ast>, ValueList<'ast>),
    /// The program has ended with this value.
    Done(Value<'ast>),
    /// The program has failed.
    Failed(Error<'ast>),
}

/// The machine as plain data.
pub struct State<'ast> {
    pub env: EnvView<'ast>,
    pub kont: Seq<Kont<'ast>>,
    pub control: Control<'ast>,
}

/// The evaluator of one program.
pub struct Machine<'ast> {
    env: Env<'ast>,
    kont: Vec<Kont<'ast>>,
    control: Control<'ast>,
}

/// Whether every chain held in a continuation points into an arena of `n`
/// frames.
pub open spec fn kont_ok(k: Kont, n: nat) -> bool {
    match k {
        Kont::Restore(c) => chain_ok(c, n),
        Kont::Args(_, f, args, _) => value_ok(Value::Function(f), n) && list_ok(args, n),
        Kont::BinRight(_, v) => value_ok(v, n),
        _ => true,
    }
}

/// Whether every chain held in the piece of work points into an arena of
/// `n` frames.
pub open spec fn control_ok(c: Control, n: nat) -> bool {
    match c {
        Control::Return(v) => value_ok(v, n),
        Control::Done(v) => value_ok(v, n),
        Control::Print(pending, rendered) => list_ok(pending, n) && list_ok(rendered, n),
        Control::Text(_, pending, rendered) => list_ok(pending, n) && list_ok(rendered, n),
        Control::Failed(e) => error_ok(e, n),
        _ => true,
    }
}

/// Continuations that point into an arena still do when it has grown.
pub proof fn lemma_konts_grow(kont: Seq<Kont>, n: nat, m: nat)
    requires
        forall|i: int| 0 <= i < kont.len() ==> kont_ok(#[trigger] kont[i], n),
        n <= m,
    ensures
        forall|i: int| 0 <= i < kont.len() ==> kont_ok(#[trigger] kont[i], m),
{
    assert forall|i: int| 0 <= i < kont.len() implies kont_ok(#[trigger] kont[i], m) by {
        assert(kont_ok(kont[i], n));
        if let Kont::Args(_, _, args, _) = kont[i] {
            lemma_list_grow(args, n, m);
        }
    }
}

/// The piece of work that a comparison or a logical operand leads to: the
/// boolean, negated where asked, or the failure.
pub open spec fn verdict<'ast>(r: Result<bool, Error<'ast>>, negate: bool) -> Control<'ast> {
    match r {
        Ok(b) => Control::Return(Value::Bool(b != negate)),
        Err(e) => Control::Failed(e),
    }
}

/// The piece of work that an arithmetic operator leads to: the request to
/// wait for, or the failure.
pub open spec fn arith<'ast>(r: Result<Request, Error<'ast>>) -> Control<'ast> {
    match r {
        Ok(request) => Control::Arith(request),
        Err(e) => Control::Failed(e),
    }
}

/// What a binary operator makes of its two operands. Both operands have
/// been evaluated; of a logical operator the right one is coerced only
/// where the left one does not decide.
pub open spec fn binop<'ast>(op: BinOp, l: Value<'ast>, r: Value<'ast>) -> Control<'ast> {
    match op {
        BinOp::Addition => arith(
            match l.operands(r) {
                Ok((a, b)) => Ok(Request::Add(a, b)),
                Err(e) => Err(e),
            },
        ),
        BinOp::Subtraction => arith(
            match l.operands(r) {
                Ok((a, b)) => Ok(Request::Sub(a, b)),
                Err(e) => Err(e),
            },
        ),
        BinOp::Multiplication => arith(
            match l.operands(r) {
                Ok((a, b)) => Ok(Request::Mul(a, b)),
                Err(e) => Err(e),
            },
        ),
        BinOp::Equality => Control::Return(Value::Bool(l.equals(r))),
        BinOp::Inequality => Control::Return(Value::Bool(!l.equals(r))),
        BinOp::Less => verdict(l.less(r), false),
        BinOp::Greater => verdict(l.less_eq(r), true),
        BinOp::LessEq => verdict(l.less_eq(r), false),
        BinOp::GreaterEq => verdict(l.less(r), true),
        BinOp::LogicalAnd => match l.truth() {
            Ok(true) => verdict(r.truth(), false),
            Ok(false) => Control::Return(Value::Bool(false)),
            Err(e) => Control::Failed(e),
        },
        BinOp::LogicalOr => match l.truth() {
            Ok(true) => Control::Return(Value::Bool(true)),
            Ok(false) => verdict(r.truth(), false),
            Err(e) => Control::Failed(e),
        },
    }
}

/// What a unary operator makes of its operand.
pub open spec fn unop<'ast>(op: UnOp, v: Value<'ast>) -> Control<'ast> {
    match op {
        UnOp::UnaryMinus => match v.negated() {
            Ok(n) => Control::Return(n),
            Err(e) => Control::Failed(e),
        },
        UnOp::Not => verdict(v.truth(), true),
    }
}

impl<'ast> State<'ast> {
    /// The environment is in order, and every chain held on the stack or in
    /// the piece of work points into the arena.
    pub open spec fn wf(self) -> bool {
        &&& self.env.wf()
        &&& forall|i: int|
            0 <= i < self.kont.len() ==> kont_ok(#[trigger] self.kont[i], self.env.frames.len())
        &&& control_ok(self.control, self.env.frames.len())
    }

    /// The state at the start of a program: `print` is the one global,
    /// there is no frame, and the top-level block is in hand.
    pub open spec fn start(ast: &'ast Block) -> State<'ast> {
        State {
            env: EnvView {
                locals: None,
                frames: Seq::empty(),
                globals: Map::empty().insert("print"@, Value::Function(Function::Print)),
            },
            kont: Seq::empty(),
            control: Control::Block(ast),
        }
    }

    /// This state with another piece of work.
    pub open spec fn at(self, control: Control<'ast>) -> State<'ast> {
        State { control, ..self }
    }

    /// This state with one more continuation.
    pub open spec fn push(self, k: Kont<'ast>) -> State<'ast> {
        State { kont: self.kont.push(k), ..self }
    }

    /// Entering a block: a new frame on the current chain with one `Nil`
    /// slot for each declared name becomes current; once the statements
    /// are done the result is evaluated in it, and then the chain of
    /// before is current again.
    pub open spec fn block(self, b: &'ast Block) -> State<'ast> {
        State {
            env: self.env.extend(self.env.locals, b.locals@, Seq::empty()).enter(
                Some(self.env.frames.len() as usize),
            ),
            kont: self.kont.push(Kont::Restore(self.env.locals)).push(Kont::BlockRet(b)),
            control: Control::Stat(&b.body),
        }
    }

    /// Starting on a statement.
    pub open spec fn stat(self, s: &'ast Stat_) -> State<'ast> {
        match *s {
            Stat_::Nop => self.at(Control::Return(Value::Nil)),
            Stat_::Sequence(first, second) => self.push(Kont::SeqNext(&second)).at(
                Control::Stat(&first),
            ),
            Stat_::Assign(Var::Name(name), e) => self.push(Kont::Assign(&name)).at(
                Control::Exp(&e),
            ),
            Stat_::Assign(Var::IndexTable(_, _), _) => self.at(
                Control::Failed(Error::Unsupported),
            ),
            Stat_::StatFunctionCall(call) => self.push(Kont::Discard).call(&call),
            Stat_::WhileDoEnd(cond, body) => self.push(Kont::WhileTest(&cond, &body)).at(
                Control::Exp(&cond),
            ),
            Stat_::If(cond, yes, no) => self.push(Kont::IfTest(&yes, &no)).at(
                Control::Exp(&cond),
            ),
        }
    }

    /// Starting on a call: the callee comes first.
    pub open spec fn call(self, c: &'ast FunctionCall) -> State<'ast> {
        self.push(Kont::Callee(c)).at(Control::Exp(&c.0))
    }

    /// Starting on an expression.
    pub open spec fn exp(self, e: &'ast Exp_) -> State<'ast> {
        match *e {
            Exp_::Nil => self.at(Control::Return(Value::Nil)),
            Exp_::False => self.at(Control::Return(Value::Bool(false))),
            Exp_::True => self.at(Control::Return(Value::Bool(true))),
            Exp_::Number(n) => self.at(Control::Return(Value::Number(n))),
            Exp_::LiteralString(s) => self.at(Control::Return(Value::String(s))),
            Exp_::Var(Var::Name(name)) => match self.env.lookup(name) {
                Ok(v) => self.at(Control::Return(v)),
                Err(e) => self.at(Control::Failed(e)),
            },
            Exp_::Var(Var::IndexTable(_, _)) => self.at(Control::Failed(Error::Unsupported)),
            Exp_::ExpFunctionCall(call) => self.call(&call),
            Exp_::FunctionDef(f) => self.at(
                Control::Return(
                    Value::Function(Function::Closure(&f.0, self.env.locals, &f.1)),
                ),
            ),
            Exp_::BinOp(op, l, r) => self.push(Kont::BinLeft(op, &r)).at(Control::Exp(&l)),
            Exp_::UnOp(op, operand) => self.push(Kont::Un(op)).at(Control::Exp(&operand)),
            Exp_::Table(_) => self.at(Control::Failed(Error::Unsupported)),
        }
    }

    /// Going on with a call whose callee is `f` and whose arguments before
    /// index `next` are `args`, the last first: the next argument is
    /// evaluated in the caller's environment, or, when there is none left,
    /// the function is invoked.
    pub open spec fn arguments(
        self,
        c: &'ast FunctionCall,
        f: Function<'ast>,
        args: ValueList<'ast>,
        next: usize,
    ) -> State<'ast> {
        if next < c.1@.len() {
            self.push(Kont::Args(c, f, args, (next + 1) as usize)).at(
                Control::Exp(&c.1@[next as int]),
            )
        } else {
            self.invoke(f, args)
        }
    }

    /// Invoking a function on its arguments, the last first. The built-in
    /// starts printing. A closure gets one new frame on the chain that it
    /// captured, not on the caller's: each parameter holds the argument at
    /// its place, `Nil` where the arguments run out, and arguments beyond
    /// the parameters are dropped. Its body runs as a block on that frame,
    /// and then the caller's chain is current again.
    pub open spec fn invoke(self, f: Function<'ast>, args: ValueList<'ast>) -> State<'ast> {
        match f {
            Function::Print => self.at(Control::Print(args, ValueList::Empty)),
            Function::Closure(params, captured, body) => State {
                env: self.env.extend(captured, params@, args.in_order()).enter(
                    Some(self.env.frames.len() as usize),
                ),
                kont: self.kont.push(Kont::Restore(self.env.locals)),
                control: Control::Block(body),
            },
        }
    }

    /// Handing the value `v` to the continuation `k`, which has been taken
    /// off the stack.
    pub open spec fn resume(self, k: Kont<'ast>, v: Value<'ast>) -> State<'ast> {
        match k {
            Kont::Restore(chain) => State { env: self.env.enter(chain), ..self }.at(
                Control::Return(v),
            ),
            Kont::BlockRet(b) => self.at(Control::Exp(&b.ret)),
            Kont::SeqNext(s) => self.at(Control::Stat(s)),
            Kont::Assign(name) => State { env: self.env.set(*name, v), ..self }.at(
                Control::Return(Value::Nil),
            ),
            Kont::Discard => if v is Nil {
                self.at(Control::Return(Value::Nil))
            } else {
                self.at(Control::Failed(Error::NonNilDiscarded(v)))
            },
            Kont::WhileTest(cond, body) => match v.truth() {
                Ok(true) => self.push(Kont::WhileBody(cond, body)).at(Control::Block(body)),
                Ok(false) => self.at(Control::Return(Value::Nil)),
                Err(e) => self.at(Control::Failed(e)),
            },
            Kont::WhileBody(cond, body) => self.push(Kont::WhileTest(cond, body)).at(
                Control::Exp(cond),
            ),
            Kont::IfTest(yes, no) => match v.truth() {
                Ok(true) => self.at(Control::Block(yes)),
                Ok(false) => self.at(Control::Block(no)),
                Err(e) => self.at(Control::Failed(e)),
            },
            Kont::Callee(c) => match v {
                Value::Function(f) => self.arguments(c, f, ValueList::Empty, 0),
                _ => self.at(Control::Failed(Error::NotCallable(v))),
            },
            Kont::Args(c, f, args, next) => self.arguments(
                c,
                f,
                ValueList::Cons(v, Box::new(args)),
                next,
            ),
            Kont::BinLeft(op, r) => self.push(Kont::BinRight(op, v)).at(Control::Exp(r)),
            Kont::BinRight(op, l) => self.at(binop(op, l, v)),
            Kont::Un(op) => self.at(unop(op, v)),
        }
    }

    /// The state after one transition that writes no line.
    pub open spec fn advance(self, reply: Reply) -> State<'ast> {
        match self.control {
            Control::Block(b) => self.block(b),
            Control::Stat(s) => self.stat(s),
            Control::Exp(e) => self.exp(e),
            Control::Return(v) => if self.kont.len() == 0 {
                self.at(Control::Done(v))
            } else {
                State { kont: self.kont.drop_last(), ..self }.resume(self.kont.last(), v)
            },
            Control::Arith(request) => match reply {
                Reply::Number(n) => self.at(Control::Return(Value::Number(n))),
                _ => self,
            },
            Control::Print(ValueList::Cons(v, rest), rendered) => match v {
                Value::Number(bits) => self.at(Control::Text(bits, *rest, rendered)),
                _ => self.at(Control::Print(*rest, ValueList::Cons(v, Box::new(rendered)))),
            },
            Control::Print(ValueList::Empty, _) => self.at(Control::Return(Value::Nil)),
            Control::Text(bits, rest, rendered) => match reply {
                Reply::Text(s) => self.at(
                    Control::Print(rest, ValueList::Cons(Value::String(s), Box::new(rendered))),
                ),
                _ => self,
            },
            Control::Done(_) => self,
            Control::Failed(_) => self,
        }
    }

    /// What the piece of work in hand asks of the host.
    pub open spec fn signal(self) -> ActionView<'ast> {
        match self.control {
            Control::Arith(request) => ActionView::Ask(request),
            Control::Text(bits, _, _) => ActionView::Ask(Request::Text(bits)),
            Control::Done(v) => ActionView::Done(v),
            Control::Failed(e) => ActionView::Fail(e),
            _ => ActionView::Continue,
        }
    }

    /// One step: the state after it and what the host has to do. When all
    /// arguments of a `print` are rendered, the step hands out the line and
    /// the call yields `Nil`; every other step hands out what the new piece
    /// of work asks for.
    pub open spec fn step(self, reply: Reply) -> (State<'ast>, ActionView<'ast>) {
        match self.control {
            Control::Print(ValueList::Empty, rendered) => (
                self.advance(reply),
                ActionView::Print(rendered.line()),
            ),
            _ => (self.advance(reply), self.advance(reply).signal()),
        }
    }
}

impl<'ast> View for Machine<'ast> {
    type V = State<'ast>;

    closed spec fn view(&self) -> State<'ast> {
        State { env: self.env@, kont: self.kont@, control: self.control }
    }
}

/// The boolean of a comparison or of a logical operand as a piece of work.
fn conclude<'ast>(r: Result<bool, Error<'ast>>, negate: bool) -> (c: Control<'ast>)
    ensures
        c == verdict(r, negate),
{
    match r {
        Ok(b) => Control::Return(Value::Bool(b != negate)),
        Err(e) => Control::Failed(e),
    }
}

/// The request of an arithmetic operator as a piece of work.
fn await_number<'ast>(r: Result<Request, Error<'ast>>) -> (c: Control<'ast>)
    ensures
        c == arith(r),
{
    match r {
        Ok(request) => Control::Arith(request),
        Err(e) => Control::Failed(e),
    }
}

/// Applies a binary operator to its two operands.
pub fn apply_binop<'ast>(op: BinOp, l: Value<'ast>, r: Value<'ast>) -> (c: Control<'ast>)
    ensures
        c == binop(op, l, r),
{
    match op {
        BinOp::Addition => await_number(l.add(&r)),
        BinOp::Subtraction => await_number(l.sub(&r)),
        BinOp::Multiplication => await_number(l.mul(&r)),
        BinOp::Equality => Control::Return(Value::Bool(l.eq(&r))),
        BinOp::Inequality => Control::Return(Value::Bool(l.ne(&r))),
        BinOp::Less => conclude(l.lt(&r), false),
        BinOp::Greater => conclude(l.le(&r), true),
        BinOp::LessEq => conclude(l.le(&r), false),
        BinOp::GreaterEq => conclude(l.lt(&r), true),
        BinOp::LogicalAnd => match l.as_bool() {
            Ok(true) => conclude(r.as_bool(), false),
            Ok(false) => Control::Return(Value::Bool(false)),
            Err(e) => Control::Failed(e),
        },
        BinOp::LogicalOr => match l.as_bool() {
            Ok(true) => Control::Return(Value::Bool(true)),
            Ok(false) => conclude(r.as_bool(), false),
            Err(e) => Control::Failed(e),
        },
    }
}

/// Applies a unary operator to its operand.
pub fn apply_unop<'ast>(op: UnOp, v: Value<'ast>) -> (c: Control<'ast>)
    ensures
        c == unop(op, v),
{
    match op {
        UnOp::UnaryMinus => match v.neg() {
            Ok(n) => Control::Return(n),
            Err(e) => Control::Failed(e),
        },
        UnOp::Not => conclude(v.as_bool(), true),
    }
}

impl Block {
    /// Enters the block.
    pub fn interp<'ast>(&'ast self, m: &mut Machine<'ast>)
        requires
            old(m)@.wf(),
        ensures
            final(m)@ == old(m)@.block(self),
            final(m)@.wf(),
    {
        let saved = m.env.current();
        let chain = m.env.extend(saved, &self.locals, Vec::new());
        m.env.enter(chain);
        m.kont.push(Kont::Restore(saved));
        m.kont.push(Kont::BlockRet(self));
        m.control = Control::Stat(&self.body);
        proof {
            let n = old(m)@.env.frames.len();
            lemma_konts_grow(old(m)@.kont, n, n + 1);
        }
    }
}

impl Stat_ {
    /// Starts on the statement.
    pub fn interp<'ast>(&'ast self, m: &mut Machine<'ast>)
        requires
            old(m)@.wf(),
        ensures
            final(m)@ == old(m)@.stat(self),
            final(m)@.wf(),
    {
        match self {
            Stat_::Nop => {
                m.control = Control::Return(Value::Nil);
            },
            Stat_::Sequence(first, second) => {
                m.kont.push(Kont::SeqNext(second));
                m.control = Control::Stat(first);
            },
            Stat_::Assign(Var::Name(name), e) => {
                m.kont.push(Kont::Assign(name));
                m.control = Control::Exp(e);
            },
            Stat_::Assign(Var::IndexTable(_, _), _) => {
                m.control = Control::Failed(Error::Unsupported);
            },
            Stat_::StatFunctionCall(call) => {
                m.kont.push(Kont::Discard);
                call.interp(m);
            },
            Stat_::WhileDoEnd(cond, body) => {
                m.kont.push(Kont::WhileTest(cond, body));
                m.control = Control::Exp(cond);
            },
            Stat_::If(cond, yes, no) => {
                m.kont.push(Kont::IfTest(yes, no));
                m.control = Control::Exp(cond);
            },
        }
    }
}

impl FunctionCall {
    /// Starts on the call.
    pub fn interp<'ast>(&'ast self, m: &mut Machine<'ast>)
        requires
            old(m)@.wf(),
        ensures
            final(m)@ == old(m)@.call(self),
            final(m)@.wf(),
    {
        m.kont.push(Kont::Callee(self));
        m.control = Control::Exp(&self.0);
    }
}

impl Exp_ {
    /// Starts on the expression.
    pub fn interp<'ast>(&'ast self, m: &mut Machine<'ast>)
        requires
            old(m)@.wf(),
        ensures
            final(m)@ == old(m)@.exp(self),
            final(m)@.wf(),
    {
        match self {
            Exp_::Nil => {
                m.control = Control::Return(Value::Nil);
            },
            Exp_::False => {
                m.control = Control::Return(Value::Bool(false));
            },
            Exp_::True => {
                m.control = Control::Return(Value::Bool(true));
            },
            Exp_::Number(n) => {
                m.control = Control::Return(Value::Number(*n));
            },
            Exp_::LiteralString(s) => {
                m.control = Control::Return(Value::String(s.clone()));
            },
            Exp_::Var(Var::Name(name)) => {
                match m.env.lookup(name) {
                    Ok(v) => {
                        proof {
                            m.env@.lemma_lookup_ok(*name);
                        }
                        m.control = Control::Return(v);
                    },
                    Err(e) => {
                        m.control = Control::Failed(e);
                    },
                }
            },
            Exp_::Var(Var::IndexTable(_, _)) => {
                m.control = Control::Failed(Error::Unsupported);
            },
            Exp_::ExpFunctionCall(call) => {
                call.interp(m);
            },
            Exp_::FunctionDef(f) => {
                m.control = Control::Return(
                    Value::Function(Function::Closure(&f.0, m.env.current(), &f.1)),
                );
            },
            Exp_::BinOp(op, l, r) => {
                m.kont.push(Kont::BinLeft(*op, r));
                m.control = Control::Exp(l);
            },
            Exp_::UnOp(op, operand) => {
                m.kont.push(Kont::Un(*op));
                m.control = Control::Exp(operand);
            },
            Exp_::Table(_) => {
                m.control = Control::Failed(Error::Unsupported);
            },
        }
    }
}

impl<'ast> Machine<'ast> {
    /// Goes on with a call after its callee or one of its arguments.
    fn arguments(
        &mut self,
        c: &'ast FunctionCall,
        f: Function<'ast>,
        args: ValueList<'ast>,
        next: usize,
    )
        requires
            old(self)@.wf(),
            value_ok(Value::Function(f), old(self)@.env.frames.len()),
            list_ok(args, old(self)@.env.frames.len()),
        ensures
            final(self)@ == old(self)@.arguments(c, f, args, next),
            final(self)@.wf(),
    {
        if next < c.1.len() {
            self.kont.push(Kont::Args(c, f, args, next + 1));
            self.control = Control::Exp(&c.1[next]);
        } else {
            self.invoke(f, args);
        }
    }

    /// Invokes a function on its arguments.
    fn invoke(&mut self, f: Function<'ast>, args: ValueList<'ast>)
        requires
            old(self)@.wf(),
            value_ok(Value::Function(f), old(self)@.env.frames.len()),
            list_ok(args, old(self)@.env.frames.len()),
        ensures
            final(self)@ == old(self)@.invoke(f, args),
            final(self)@.wf(),
    {
        match f {
            Function::Print => {
                self.control = Control::Print(args, ValueList::Empty);
            },
            Function::Closure(params, captured, body) => {
                proof {
                    lemma_list_values(args, old(self)@.env.frames.len());
                }
                let values = args.into_vec();
                let saved = self.env.current();
                let chain = self.env.extend(captured, params, values);
                self.env.enter(chain);
                self.kont.push(Kont::Restore(saved));
                self.control = Control::Block(body);
                proof {
                    let n = old(self)@.env.frames.len();
                    lemma_konts_grow(old(self)@.kont, n, n + 1);
                }
            },
        }
    }

    /// Hands a value to a continuation that was taken off the stack.
    fn resume(&mut self, k: Kont<'ast>, v: Value<'ast>)
        requires
            old(self)@.wf(),
            kont_ok(k, old(self)@.env.frames.len()),
            value_ok(v, old(self)@.env.frames.len()),
        ensures
            final(self)@ == old(self)@.resume(k, v),
            final(self)@.wf(),
    {
        match k {
            Kont::Restore(chain) => {
                self.env.enter(chain);
                self.control = Control::Return(v);
            },
            Kont::BlockRet(b) => {
                self.control = Control::Exp(&b.ret);
            },
            Kont::SeqNext(s) => {
                self.control = Control::Stat(s);
            },
            Kont::Assign(name) => {
                self.env.set(name, v);
                self.control = Control::Return(Value::Nil);
            },
            Kont::Discard => {
                match v {
                    Value::Nil => {
                        self.control = Control::Return(Value::Nil);
                    },
                    other => {
                        self.control = Control::Failed(Error::NonNilDiscarded(other));
                    },
                }
            },
            Kont::WhileTest(cond, body) => {
                match v.as_bool() {
                    Ok(true) => {
                        self.kont.push(Kont::WhileBody(cond, body));
                        self.control = Control::Block(body);
                    },
                    Ok(false) => {
                        self.control = Control::Return(Value::Nil);
                    },
                    Err(e) => {
                        self.control = Control::Failed(e);
                    },
                }
            },
            Kont::WhileBody(cond, body) => {
                self.kont.push(Kont::WhileTest(cond, body));
                self.control = Control::Exp(cond);
            },
            Kont::IfTest(yes, no) => {
                match v.as_bool() {
                    Ok(true) => {
                        self.control = Control::Block(yes);
                    },
                    Ok(false) => {
                        self.control = Control::Block(no);
                    },
                    Err(e) => {
                        self.control = Control::Failed(e);
                    },
                }
            },
            Kont::Callee(c) => {
                match v {
                    Value::Function(f) => {
                        self.arguments(c, f, ValueList::Empty, 0);
                    },
                    other => {
                        self.control = Control::Failed(Error::NotCallable(other));
                    },
                }
            },
            Kont::Args(c, f, args, next) => {
                self.arguments(c, f, ValueList::Cons(v, Box::new(args)), next);
            },
            Kont::BinLeft(op, r) => {
                self.kont.push(Kont::BinRight(op, v));
                self.control = Control::Exp(r);
            },
            Kont::BinRight(op, l) => {
                self.control = apply_binop(op, l, v);
            },
            Kont::Un(op) => {
                self.control = apply_unop(op, v);
            },
        }
    }

    /// What the piece of work in hand asks of the host.
    fn signal(&self) -> (a: Action<'ast>)
        ensures
            a@ == self@.signal(),
    {
        match &self.control {
            Control::Arith(request) => Action::Ask(*request),
            Control::Text(bits, _, _) => Action::Ask(Request::Text(*bits)),
            Control::Done(v) => Action::Done(v.clone()),
            Control::Failed(e) => Action::Fail(e.clone()),
            _ => Action::Continue,
        }
    }

    /// Performs one transition and says what the host has to do next. The
    /// reply is the host's answer to the request of the step before, and
    /// `Reply::Nothing` after any other action; while a request stands
    /// unanswered the machine stays where it is and asks again.
    pub fn step(self, reply: Reply) -> (r: (Machine<'ast>, Action<'ast>))
        requires
            self@.wf(),
        ensures
            r.0@.wf(),
            (r.0@, r.1@) == self@.step(reply),
    {
        let Machine { env, kont, control } = self;
        let mut m = Machine { env, kont, control: Control::Return(Value::Nil) };
        assert(m@.kont == self@.kont);
        match control {
            Control::Block(b) => {
                b.interp(&mut m);
            },
            Control::Stat(s) => {
                s.interp(&mut m);
            },
            Control::Exp(e) => {
                e.interp(&mut m);
            },
            Control::Return(v) => {
                match m.kont.pop() {
                    Some(k) => {
                        m.resume(k, v);
                    },
                    None => {
                        m.control = Control::Done(v);
                    },
                }
            },
            Control::Arith(request) => {
                match reply {
                    Reply::Number(n) => {
                        m.control = Control::Return(Value::Number(n));
                    },
                    _ => {
                        m.control = Control::Arith(request);
                    },
                }
            },
            Control::Print(pending, rendered) => {
                match pending {
                    ValueList::Empty => {
                        let line = rendered.joined();
                        return (m, Action::Print(line));
                    },
                    ValueList::Cons(v, rest) => {
                        match v {
                            Value::Number(bits) => {
                                m.control = Control::Text(bits, *rest, rendered);
                            },
                            other => {
                                m.control = Control::Print(
                                    *rest,
                                    ValueList::Cons(other, Box::new(rendered)),
                                );
                            },
                        }
                    },
                }
            },
            Control::Text(bits, rest, rendered) => {
                match reply {
                    Reply::Text(s) => {
                        m.control = Control::Print(
                            rest,
                            ValueList::Cons(Value::String(s), Box::new(rendered)),
                        );
                    },
                    _ => {
                        m.control = Control::Text(bits, rest, rendered);
                    },
                }
            },
            Control::Done(v) => {
                m.control = Control::Done(v);
            },
            Control::Failed(e) => {
                m.control = Control::Failed(e);
            },
        }
        let action = m.signal();
        (m, action)
    }
}

/// Sets up the evaluation of a program: the global table with the built-in
/// `print` in it, no local frame, and the top-level block in hand.
pub fn run<'ast>(ast: &'ast Block) -> (m: Machine<'ast>)
    ensures
        m@ == State::start(ast),
        m@.wf(),
{
    let mut globals = GEnv::new();
    let printid = "print".to_owned();
    globals.set(&printid, Value::Function(Function::Print));
    let env = Env::new(globals);
    Machine { env, kont: Vec::new(), control: Control::Block(ast) }
}

} // verus!

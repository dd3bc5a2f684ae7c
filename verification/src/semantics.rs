//! What a program means, told as a tree walk: the value of an expression
//! is made of the values of its parts, a sequence runs its first statement
//! to the end and then its second, a loop runs its body while its
//! condition holds. A walk that does not end has no meaning, so every
//! function here counts down a budget and yields `None` when it runs out.
use vstd::prelude::*;
use crate::ast::{BinOp, Block, Exp_, FunctionCall, Stat_, UnOp, Var};
use crate::env::EnvView;
use crate::host::{Reply, Request};
use crate::value::{Error, Function, Value, ValueList};

verus! {

/// A host as the evaluator sees it: what it answers to each request.
pub struct Host {
    pub add: spec_fn(u64, u64) -> u64,
    pub sub: spec_fn(u64, u64) -> u64,
    pub mul: spec_fn(u64, u64) -> u64,
    pub text: spec_fn(u64) -> String,
}

/// The environment together with the lines printed so far.
pub struct World<'ast> {
    pub env: EnvView<'ast>,
    pub out: Seq<Seq<char>>,
}

impl Host {
    /// The number that the host answers to an arithmetic request.
    pub open spec fn number(self, request: Request) -> u64 {
        match request {
            Request::Add(a, b) => (self.add)(a, b),
            Request::Sub(a, b) => (self.sub)(a, b),
            Request::Mul(a, b) => (self.mul)(a, b),
            Request::Text(_) => 0,
        }
    }

    /// The host's answer to a request.
    pub open spec fn answer(self, request: Request) -> Reply {
        match request {
            Request::Text(a) => Reply::Text((self.text)(a)),
            _ => Reply::Number(self.number(request)),
        }
    }

    /// A value as `print` takes it: a number gives way to the string of
    /// its text.
    pub open spec fn render<'ast>(self, v: Value<'ast>) -> Value<'ast> {
        match v {
            Value::Number(bits) => Value::String((self.text)(bits)),
            _ => v,
        }
    }

    /// The values of `pending`, rendered and put in front of `done` one by
    /// one, so that the order turns round.
    pub open spec fn rendered<'ast>(self, pending: ValueList<'ast>, done: ValueList<'ast>) -> ValueList<'ast>
        decreases pending,
    {
        match pending {
            ValueList::Empty => done,
            ValueList::Cons(v, rest) => self.rendered(
                *rest,
                ValueList::Cons(self.render(v), Box::new(done)),
            ),
        }
    }

    /// The line that `print` writes for its arguments, given the last
    /// first: their texts in the order of the call, with a tab between
    /// each two.
    pub open spec fn line(self, args: ValueList) -> Seq<char> {
        self.rendered(args, ValueList::Empty).line()
    }

    /// The value of an arithmetic operator on two operands.
    pub open spec fn sum<'ast>(self, l: Value<'ast>, r: Value<'ast>, op: BinOp) -> Result<Value<'ast>, Error<'ast>> {
        match l.operands(r) {
            Ok((a, b)) => Ok(
                Value::Number(
                    match op {
                        BinOp::Addition => (self.add)(a, b),
                        BinOp::Subtraction => (self.sub)(a, b),
                        _ => (self.mul)(a, b),
                    },
                ),
            ),
            Err(e) => Err(e),
        }
    }

    /// The value of a binary operator on two operands. `>` is the negation
    /// of `<=` and `>=` that of `<`; of a logical operator the right
    /// operand is coerced only where the left one does not decide.
    pub open spec fn binary<'ast>(self, op: BinOp, l: Value<'ast>, r: Value<'ast>) -> Result<Value<'ast>, Error<'ast>> {
        match op {
            BinOp::Addition => self.sum(l, r, op),
            BinOp::Subtraction => self.sum(l, r, op),
            BinOp::Multiplication => self.sum(l, r, op),
            BinOp::Equality => Ok(Value::Bool(l.equals(r))),
            BinOp::Inequality => Ok(Value::Bool(!l.equals(r))),
            BinOp::Less => boolean(l.less(r), false),
            BinOp::Greater => boolean(l.less_eq(r), true),
            BinOp::LessEq => boolean(l.less_eq(r), false),
            BinOp::GreaterEq => boolean(l.less(r), true),
            BinOp::LogicalAnd => match l.truth() {
                Ok(true) => boolean(r.truth(), false),
                Ok(false) => Ok(Value::Bool(false)),
                Err(e) => Err(e),
            },
            BinOp::LogicalOr => match l.truth() {
                Ok(true) => Ok(Value::Bool(true)),
                Ok(false) => boolean(r.truth(), false),
                Err(e) => Err(e),
            },
        }
    }
}

/// A boolean as a value, negated where asked.
pub open spec fn boolean<'ast>(r: Result<bool, Error<'ast>>, negate: bool) -> Result<Value<'ast>, Error<'ast>> {
    match r {
        Ok(b) => Ok(Value::Bool(b != negate)),
        Err(e) => Err(e),
    }
}

/// The value of a unary operator on its operand.
pub open spec fn unary<'ast>(op: UnOp, v: Value<'ast>) -> Result<Value<'ast>, Error<'ast>> {
    match op {
        UnOp::UnaryMinus => v.negated(),
        UnOp::Not => boolean(v.truth(), true),
    }
}

/// The world on entering a scope: one more frame on `parent`, and that
/// frame current.
pub open spec fn scope<'ast>(
    w: World<'ast>,
    parent: Option<usize>,
    names: Seq<String>,
    values: Seq<Value<'ast>>,
) -> World<'ast> {
    World {
        env: w.env.extend(parent, names, values).enter(Some(w.env.frames.len() as usize)),
        ..w
    }
}

/// The value of an expression. An error in a part is the error of the
/// whole, and nothing after it is evaluated.
pub open spec fn eval_exp<'ast>(h: Host, e: &'ast Exp_, w: World<'ast>, fuel: nat) -> Option<
    (World<'ast>, Result<Value<'ast>, Error<'ast>>),
>
    decreases fuel,
{
    if fuel == 0 {
        None
    } else {
        let fuel = (fuel - 1) as nat;
        match *e {
            Exp_::Nil => Some((w, Ok(Value::Nil))),
            Exp_::False => Some((w, Ok(Value::Bool(false)))),
            Exp_::True => Some((w, Ok(Value::Bool(true)))),
            Exp_::Number(n) => Some((w, Ok(Value::Number(n)))),
            Exp_::LiteralString(s) => Some((w, Ok(Value::String(s)))),
            Exp_::Var(Var::Name(name)) => Some((w, w.env.lookup(name))),
            Exp_::Var(Var::IndexTable(_, _)) => Some((w, Err(Error::Unsupported))),
            Exp_::ExpFunctionCall(c) => eval_call(h, &c, w, fuel),
            Exp_::FunctionDef(f) => Some(
                (w, Ok(Value::Function(Function::Closure(&f.0, w.env.locals, &f.1)))),
            ),
            Exp_::BinOp(op, l, r) => match eval_exp(h, &l, w, fuel) {
                Some((w1, Ok(vl))) => match eval_exp(h, &r, w1, fuel) {
                    Some((w2, Ok(vr))) => Some((w2, h.binary(op, vl, vr))),
                    other => other,
                },
                other => other,
            },
            Exp_::UnOp(op, operand) => match eval_exp(h, &operand, w, fuel) {
                Some((w1, Ok(v))) => Some((w1, unary(op, v))),
                other => other,
            },
            Exp_::Table(_) => Some((w, Err(Error::Unsupported))),
        }
    }
}

/// The value of a call: the callee first, which must be a function, then
/// the arguments from left to right, all in the caller's world, then the
/// function on them.
pub open spec fn eval_call<'ast>(h: Host, c: &'ast FunctionCall, w: World<'ast>, fuel: nat) -> Option<
    (World<'ast>, Result<Value<'ast>, Error<'ast>>),
>
    decreases fuel,
{
    if fuel == 0 {
        None
    } else {
        let fuel = (fuel - 1) as nat;
        match eval_exp(h, &c.0, w, fuel) {
            Some((w1, Ok(Value::Function(f)))) => match eval_args(
                h,
                c,
                0,
                ValueList::Empty,
                w1,
                fuel,
            ) {
                Some((w2, Ok(args))) => invoke(h, f, args, w2, fuel),
                Some((w2, Err(e))) => Some((w2, Err(e))),
                None => None,
            },
            Some((w1, Ok(v))) => Some((w1, Err(Error::NotCallable(v)))),
            other => other,
        }
    }
}

/// The values of the arguments from index `next` on, put in front of
/// `before` one by one.
pub open spec fn eval_args<'ast>(
    h: Host,
    c: &'ast FunctionCall,
    next: nat,
    before: ValueList<'ast>,
    w: World<'ast>,
    fuel: nat,
) -> Option<(World<'ast>, Result<ValueList<'ast>, Error<'ast>>)>
    decreases fuel,
{
    if fuel == 0 {
        None
    } else if next >= c.1@.len() {
        Some((w, Ok(before)))
    } else {
        let fuel = (fuel - 1) as nat;
        match eval_exp(h, &c.1@[next as int], w, fuel) {
            Some((w1, Ok(v))) => eval_args(
                h,
                c,
                next + 1,
                ValueList::Cons(v, Box::new(before)),
                w1,
                fuel,
            ),
            Some((w1, Err(e))) => Some((w1, Err(e))),
            None => None,
        }
    }
}

/// A function on its arguments, given the last first. The built-in writes
/// one line and yields `Nil`. A closure runs its body in a new frame on
/// the chain that it captured, each parameter bound to the argument at its
/// place; after it the caller's chain is current again.
pub open spec fn invoke<'ast>(
    h: Host,
    f: Function<'ast>,
    args: ValueList<'ast>,
    w: World<'ast>,
    fuel: nat,
) -> Option<(World<'ast>, Result<Value<'ast>, Error<'ast>>)>
    decreases fuel,
{
    if fuel == 0 {
        None
    } else {
        let fuel = (fuel - 1) as nat;
        match f {
            Function::Print => Some((World { out: w.out.push(h.line(args)), ..w }, Ok(Value::Nil))),
            Function::Closure(params, captured, body) => match exec_block(
                h,
                body,
                scope(w, captured, params@, args.in_order()),
                fuel,
            ) {
                Some((w1, Ok(v))) => Some(
                    (World { env: w1.env.enter(w.env.locals), ..w1 }, Ok(v)),
                ),
                other => other,
            },
        }
    }
}

/// The value of a block: in a new frame on the current chain with every
/// declared name bound to `Nil`, the statements run and then the result is
/// evaluated; after it the chain of before is current again.
pub open spec fn exec_block<'ast>(h: Host, b: &'ast Block, w: World<'ast>, fuel: nat) -> Option<
    (World<'ast>, Result<Value<'ast>, Error<'ast>>),
>
    decreases fuel,
{
    if fuel == 0 {
        None
    } else {
        let fuel = (fuel - 1) as nat;
        match exec_stat(h, &b.body, scope(w, w.env.locals, b.locals@, Seq::empty()), fuel) {
            Some((w1, Ok(_))) => match eval_exp(h, &b.ret, w1, fuel) {
                Some((w2, Ok(v))) => Some(
                    (World { env: w2.env.enter(w.env.locals), ..w2 }, Ok(v)),
                ),
                other => other,
            },
            Some((w1, Err(e))) => Some((w1, Err(e))),
            None => None,
        }
    }
}

/// The effect of a statement.
pub open spec fn exec_stat<'ast>(h: Host, s: &'ast Stat_, w: World<'ast>, fuel: nat) -> Option<
    (World<'ast>, Result<(), Error<'ast>>),
>
    decreases fuel,
{
    if fuel == 0 {
        None
    } else {
        let fuel = (fuel - 1) as nat;
        match *s {
            Stat_::Nop => Some((w, Ok(()))),
            Stat_::Sequence(first, second) => match exec_stat(h, &first, w, fuel) {
                Some((w1, Ok(_))) => exec_stat(h, &second, w1, fuel),
                other => other,
            },
            Stat_::Assign(Var::Name(name), e) => match eval_exp(h, &e, w, fuel) {
                Some((w1, Ok(v))) => Some((World { env: w1.env.set(name, v), ..w1 }, Ok(()))),
                Some((w1, Err(e))) => Some((w1, Err(e))),
                None => None,
            },
            Stat_::Assign(Var::IndexTable(_, _), _) => Some((w, Err(Error::Unsupported))),
            Stat_::StatFunctionCall(c) => match eval_call(h, &c, w, fuel) {
                Some((w1, Ok(Value::Nil))) => Some((w1, Ok(()))),
                Some((w1, Ok(v))) => Some((w1, Err(Error::NonNilDiscarded(v)))),
                Some((w1, Err(e))) => Some((w1, Err(e))),
                None => None,
            },
            Stat_::WhileDoEnd(cond, body) => exec_while(h, &cond, &body, w, fuel),
            Stat_::If(cond, yes, no) => match eval_exp(h, &cond, w, fuel) {
                Some((w1, Ok(v))) => match v.truth() {
                    Ok(b) => match exec_block(
                        h,
                        if b {
                            &yes
                        } else {
                            &no
                        },
                        w1,
                        fuel,
                    ) {
                        Some((w2, Ok(_))) => Some((w2, Ok(()))),
                        Some((w2, Err(e))) => Some((w2, Err(e))),
                        None => None,
                    },
                    Err(e) => Some((w1, Err(e))),
                },
                Some((w1, Err(e))) => Some((w1, Err(e))),
                None => None,
            },
        }
    }
}

/// The effect of a loop: the condition is evaluated and must be a boolean;
/// while it is true the body runs as a block, whose value is dropped, and
/// the loop starts over.
pub open spec fn exec_while<'ast>(
    h: Host,
    cond: &'ast Exp_,
    body: &'ast Block,
    w: World<'ast>,
    fuel: nat,
) -> Option<(World<'ast>, Result<(), Error<'ast>>)>
    decreases fuel,
{
    if fuel == 0 {
        None
    } else {
        let fuel = (fuel - 1) as nat;
        match eval_exp(h, cond, w, fuel) {
            Some((w1, Ok(v))) => match v.truth() {
                Ok(true) => match exec_block(h, body, w1, fuel) {
                    Some((w2, Ok(_))) => exec_while(h, cond, body, w2, fuel),
                    Some((w2, Err(e))) => Some((w2, Err(e))),
                    None => None,
                },
                Ok(false) => Some((w1, Ok(()))),
                Err(e) => Some((w1, Err(e))),
            },
            Some((w1, Err(e))) => Some((w1, Err(e))),
            None => None,
        }
    }
}

/// A walk of an expression that ends within a budget ends the same way
/// within a larger one.
pub proof fn lemma_exp_budget<'ast>(h: Host, e: &'ast Exp_, w: World<'ast>, fuel: nat)
    requires
        eval_exp(h, e, w, fuel) is Some,
    ensures
        eval_exp(h, e, w, fuel + 1) == eval_exp(h, e, w, fuel),
    decreases fuel, 0nat,
{
    let f1 = (fuel - 1) as nat;
    match *e {
        Exp_::ExpFunctionCall(c) => {
            lemma_call_budget(h, &c, w, f1);
        },
        Exp_::BinOp(_, l, r) => {
            lemma_exp_budget(h, &l, w, f1);
            if let Some((w1, Ok(_))) = eval_exp(h, &l, w, f1) {
                lemma_exp_budget(h, &r, w1, f1);
            }
        },
        Exp_::UnOp(_, operand) => {
            lemma_exp_budget(h, &operand, w, f1);
        },
        _ => {},
    }
}

/// A walk of a call that ends within a budget ends the same way within a
/// larger one.
pub proof fn lemma_call_budget<'ast>(h: Host, c: &'ast FunctionCall, w: World<'ast>, fuel: nat)
    requires
        eval_call(h, c, w, fuel) is Some,
    ensures
        eval_call(h, c, w, fuel + 1) == eval_call(h, c, w, fuel),
    decreases fuel, 0nat,
{
    let f1 = (fuel - 1) as nat;
    lemma_exp_budget(h, &c.0, w, f1);
    if let Some((w1, Ok(Value::Function(f)))) = eval_exp(h, &c.0, w, f1) {
        lemma_args_budget(h, c, 0, ValueList::Empty, w1, f1);
        if let Some((w2, Ok(args))) = eval_args(h, c, 0, ValueList::Empty, w1, f1) {
            lemma_invoke_budget(h, f, args, w2, f1);
        }
    }
}

/// A walk of arguments that ends within a budget ends the same way within
/// a larger one.
pub proof fn lemma_args_budget<'ast>(
    h: Host,
    c: &'ast FunctionCall,
    next: nat,
    before: ValueList<'ast>,
    w: World<'ast>,
    fuel: nat,
)
    requires
        eval_args(h, c, next, before, w, fuel) is Some,
    ensures
        eval_args(h, c, next, before, w, fuel + 1) == eval_args(h, c, next, before, w, fuel),
    decreases fuel, 0nat,
{
    if next < c.1@.len() {
        let f1 = (fuel - 1) as nat;
        lemma_exp_budget(h, &c.1@[next as int], w, f1);
        if let Some((w1, Ok(v))) = eval_exp(h, &c.1@[next as int], w, f1) {
            lemma_args_budget(h, c, next + 1, ValueList::Cons(v, Box::new(before)), w1, f1);
        }
    }
}

/// An invocation that ends within a budget ends the same way within a
/// larger one.
pub proof fn lemma_invoke_budget<'ast>(
    h: Host,
    f: Function<'ast>,
    args: ValueList<'ast>,
    w: World<'ast>,
    fuel: nat,
)
    requires
        invoke(h, f, args, w, fuel) is Some,
    ensures
        invoke(h, f, args, w, fuel + 1) == invoke(h, f, args, w, fuel),
    decreases fuel, 0nat,
{
    if let Function::Closure(params, captured, body) = f {
        lemma_block_budget(
            h,
            body,
            scope(w, captured, params@, args.in_order()),
            (fuel - 1) as nat,
        );
    }
}

/// A walk of a block that ends within a budget ends the same way within a
/// larger one.
pub proof fn lemma_block_budget<'ast>(h: Host, b: &'ast Block, w: World<'ast>, fuel: nat)
    requires
        exec_block(h, b, w, fuel) is Some,
    ensures
        exec_block(h, b, w, fuel + 1) == exec_block(h, b, w, fuel),
    decreases fuel, 0nat,
{
    let f1 = (fuel - 1) as nat;
    let inside = scope(w, w.env.locals, b.locals@, Seq::empty());
    lemma_stat_budget(h, &b.body, inside, f1);
    if let Some((w1, Ok(_))) = exec_stat(h, &b.body, inside, f1) {
        lemma_exp_budget(h, &b.ret, w1, f1);
    }
}

/// A walk of a statement that ends within a budget ends the same way
/// within a larger one.
pub proof fn lemma_stat_budget<'ast>(h: Host, s: &'ast Stat_, w: World<'ast>, fuel: nat)
    requires
        exec_stat(h, s, w, fuel) is Some,
    ensures
        exec_stat(h, s, w, fuel + 1) == exec_stat(h, s, w, fuel),
    decreases fuel, 0nat,
{
    let f1 = (fuel - 1) as nat;
    match *s {
        Stat_::Sequence(first, second) => {
            lemma_stat_budget(h, &first, w, f1);
            if let Some((w1, Ok(_))) = exec_stat(h, &first, w, f1) {
                lemma_stat_budget(h, &second, w1, f1);
            }
        },
        Stat_::Assign(Var::Name(_), e) => {
            lemma_exp_budget(h, &e, w, f1);
        },
        Stat_::StatFunctionCall(c) => {
            lemma_call_budget(h, &c, w, f1);
        },
        Stat_::WhileDoEnd(cond, body) => {
            lemma_while_budget(h, &cond, &body, w, f1);
        },
        Stat_::If(cond, yes, no) => {
            lemma_exp_budget(h, &cond, w, f1);
            if let Some((w1, Ok(v))) = eval_exp(h, &cond, w, f1) {
                if let Ok(b) = v.truth() {
                    lemma_block_budget(
                        h,
                        if b {
                            &yes
                        } else {
                            &no
                        },
                        w1,
                        f1,
                    );
                }
            }
        },
        _ => {},
    }
}

/// A walk of a loop that ends within a budget ends the same way within a
/// larger one.
pub proof fn lemma_while_budget<'ast>(
    h: Host,
    cond: &'ast Exp_,
    body: &'ast Block,
    w: World<'ast>,
    fuel: nat,
)
    requires
        exec_while(h, cond, body, w, fuel) is Some,
    ensures
        exec_while(h, cond, body, w, fuel + 1) == exec_while(h, cond, body, w, fuel),
    decreases fuel, 0nat,
{
    let f1 = (fuel - 1) as nat;
    lemma_exp_budget(h, cond, w, f1);
    if let Some((w1, Ok(v))) = eval_exp(h, cond, w, f1) {
        if v.truth() == Ok::<bool, Error>(true) {
            lemma_block_budget(h, body, w1, f1);
            if let Some((w2, Ok(_))) = exec_block(h, body, w1, f1) {
                lemma_while_budget(h, cond, body, w2, f1);
            }
        }
    }
}

/// The meaning of a program does not depend on the budget: two walks of a
/// block that both end, end the same way.
pub proof fn lemma_meaning_is_one<'ast>(h: Host, b: &'ast Block, w: World<'ast>, one: nat, other: nat)
    requires
        exec_block(h, b, w, one) is Some,
        exec_block(h, b, w, other) is Some,
    ensures
        exec_block(h, b, w, one) == exec_block(h, b, w, other),
    decreases
            if one <= other {
                other - one
            } else {
                one - other
            },
{
    if one < other {
        lemma_block_budget(h, b, w, one);
        lemma_meaning_is_one(h, b, w, one + 1, other);
    } else if other < one {
        lemma_block_budget(h, b, w, other);
        lemma_meaning_is_one(h, b, w, one, other + 1);
    }
}

} // verus!

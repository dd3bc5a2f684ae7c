//! The machine agrees with the tree walk. With a host that answers as the
//! walk assumes, whatever the walk says a program prints and yields, the
//! machine arrives at step by step; and wherever the machine comes to an
//! end, the walk ends too, within a budget of two units for each step, and
//! ends the same way.
use vstd::prelude::*;
use crate::ast::{BinOp, Block, Exp_, FunctionCall, Stat_, UnOp, Var};
use crate::host::{ActionView, Reply, Request};
use crate::interp::{binop, unop, Control, Kont, State};
use crate::semantics::{
    eval_args, eval_call, eval_exp, exec_block, exec_stat, exec_while, invoke, unary, Host,
    World,
};
use crate::value::{Error, Function, Value, ValueList};

verus! {

/// A machine on its way, with the lines that it has handed out.
pub struct Running<'ast> {
    pub state: State<'ast>,
    pub out: Seq<Seq<char>>,
}

impl<'ast> Running<'ast> {
    /// The environment and the lines.
    pub open spec fn world(self) -> World<'ast> {
        World { env: self.state.env, out: self.out }
    }
}

/// What the host hands to the next step: the answer to the request that
/// stands open, and nothing otherwise.
pub open spec fn reply_to(h: Host, s: State) -> Reply {
    match s.control {
        Control::Arith(request) => h.answer(request),
        Control::Text(bits, _, _) => h.answer(Request::Text(bits)),
        _ => Reply::Nothing,
    }
}

/// One step with the host `h`.
pub open spec fn next<'ast>(h: Host, r: Running<'ast>) -> Running<'ast> {
    let (state, action) = r.state.step(reply_to(h, r.state));
    Running {
        state,
        out: match action {
            ActionView::Print(line) => r.out.push(line),
            _ => r.out,
        },
    }
}

/// `n` steps with the host `h`.
pub open spec fn run<'ast>(h: Host, r: Running<'ast>, n: nat) -> Running<'ast>
    decreases n,
{
    if n == 0 {
        r
    } else {
        run(h, next(h, r), (n - 1) as nat)
    }
}

/// Where the machine stands when a piece of work is done as the walk says:
/// the lines are those of the walk; on success the value is handed to the
/// stack `kont` in the walk's environment, on failure the machine has
/// failed with the walk's error.
pub open spec fn arrived<'ast, T>(
    t: Running<'ast>,
    kont: Seq<Kont<'ast>>,
    w: World<'ast>,
    result: Result<T, Error<'ast>>,
) -> bool {
    &&& t.out == w.out
    &&& match result {
        Ok(_) => t.state.env == w.env && t.state.kont == kont && t.state.control is Return,
        Err(e) => t.state.control == Control::Failed(e),
    }
}

/// As [`arrived`], with the value that is handed over.
pub open spec fn arrived_with<'ast>(
    t: Running<'ast>,
    kont: Seq<Kont<'ast>>,
    w: World<'ast>,
    result: Result<Value<'ast>, Error<'ast>>,
) -> bool {
    &&& arrived(t, kont, w, result)
    &&& result matches Ok(v) ==> t.state.control == Control::Return(v)
}

/// Whether the machine has come to its end, one way or the other.
pub open spec fn ended(s: State) -> bool {
    s.control is Done || s.control is Failed
}

/// Whether the machine has not come to its end before any of the next `n`
/// steps.
pub open spec fn alive(h: Host, r: Running, n: nat) -> bool
    decreases n,
{
    n == 0 || (!ended(r.state) && alive(h, next(h, r), (n - 1) as nat))
}

/// Steps add up.
pub proof fn lemma_run_add(h: Host, r: Running, a: nat, b: nat)
    ensures
        run(h, r, a + b) == run(h, run(h, r, a), b),
        alive(h, r, a) && alive(h, run(h, r, a), b) ==> alive(h, r, a + b),
    decreases a,
{
    if a > 0 {
        lemma_run_add(h, next(h, r), (a - 1) as nat, b);
    }
}

/// One step more.
pub proof fn lemma_run_more(h: Host, r: Running, a: nat)
    ensures
        run(h, r, a + 1) == next(h, run(h, r, a)),
        alive(h, r, a) && !ended(run(h, r, a).state) ==> alive(h, r, a + 1),
{
    lemma_run_add(h, r, a, 1);
    reveal_with_fuel(run, 2);
    reveal_with_fuel(alive, 2);
}

/// The first step.
pub proof fn lemma_run_one(h: Host, r: Running)
    ensures
        run(h, r, 1) == next(h, r),
        !ended(r.state) ==> alive(h, r, 1),
{
    reveal_with_fuel(run, 2);
    reveal_with_fuel(alive, 2);
}

/// A machine that has come to its end stays where it is.
pub proof fn lemma_ended_stays(h: Host, r: Running, n: nat)
    requires
        ended(r.state),
    ensures
        run(h, r, n) == r,
    decreases n,
{
    if n > 0 {
        assert(next(h, r) == r);
        lemma_ended_stays(h, r, (n - 1) as nat);
    }
}

/// A machine that is alive for `m` steps has not come to its end after
/// fewer.
pub proof fn lemma_alive_before(h: Host, r: Running, m: nat, n: nat)
    requires
        alive(h, r, m),
        n < m,
    ensures
        !ended(run(h, r, n).state),
    decreases n,
{
    if n > 0 {
        lemma_alive_before(h, next(h, r), (m - 1) as nat, (n - 1) as nat);
    }
}

/// What was put on a stack last comes off first.
pub proof fn lemma_pop<'ast>(kont: Seq<Kont<'ast>>, k: Kont<'ast>)
    ensures
        kont.push(k).len() > 0,
        kont.push(k).last() == k,
        kont.push(k).drop_last() == kont,
{
    assert(kont.push(k).drop_last() =~= kont);
}

/// What the machine makes of a binary operator is what the walk says,
/// once the host has answered.
pub proof fn lemma_binop_agrees(h: Host, op: BinOp, l: Value, r: Value)
    ensures
        match binop(op, l, r) {
            Control::Return(v) => h.binary(op, l, r) == Ok::<Value, Error>(v),
            Control::Failed(e) => h.binary(op, l, r) == Err::<Value, Error>(e),
            Control::Arith(request) => !(request is Text) && h.binary(op, l, r) == Ok::<
                Value,
                Error,
            >(Value::Number(h.number(request))),
            _ => false,
        },
{
}

/// What the machine makes of a unary operator is what the walk says.
pub proof fn lemma_unop_agrees(op: UnOp, v: Value)
    ensures
        match unop(op, v) {
            Control::Return(x) => unary(op, v) == Ok::<Value, Error>(x),
            Control::Failed(e) => unary(op, v) == Err::<Value, Error>(e),
            _ => false,
        },
{
}

/// Printing renders the pending arguments one by one, asking the host for
/// the text of each number.
pub proof fn lemma_print<'ast>(
    h: Host,
    pending: ValueList<'ast>,
    done: ValueList<'ast>,
    s: State<'ast>,
    out: Seq<Seq<char>>,
) -> (n: nat)
    ensures
        run(h, Running { state: s.at(Control::Print(pending, done)), out }, n) == (Running {
            state: s.at(Control::Print(ValueList::Empty, h.rendered(pending, done))),
            out,
        }),
        alive(h, Running { state: s.at(Control::Print(pending, done)), out }, n),
    decreases pending,
{
    let r = Running { state: s.at(Control::Print(pending, done)), out };
    match pending {
        ValueList::Empty => 0,
        ValueList::Cons(v, rest) => {
            let r1 = next(h, r);
            let after = ValueList::Cons(h.render(v), Box::new(done));
            match v {
                Value::Number(bits) => {
                    assert(r1 == Running { state: s.at(Control::Text(bits, *rest, done)), out });
                    let r2 = next(h, r1);
                    assert(r2 == Running { state: s.at(Control::Print(*rest, after)), out });
                    let n = lemma_print(h, *rest, after, s, out);
                    reveal_with_fuel(run, 3);
                    reveal_with_fuel(alive, 3);
                    n + 2
                },
                _ => {
                    assert(r1 == Running { state: s.at(Control::Print(*rest, after)), out });
                    let n = lemma_print(h, *rest, after, s, out);
                    n + 1
                },
            }
        },
    }
}

/// The machine evaluates an expression as the walk does.
pub proof fn lemma_exp<'ast>(h: Host, e: &'ast Exp_, r: Running<'ast>, fuel: nat) -> (n: nat)
    requires
        r.state.control == Control::Exp(e),
        eval_exp(h, e, r.world(), fuel) is Some,
    ensures
        arrived_with(
            run(h, r, n),
            r.state.kont,
            eval_exp(h, e, r.world(), fuel).unwrap().0,
            eval_exp(h, e, r.world(), fuel).unwrap().1,
        ),
        alive(h, r, n),
    decreases fuel, 0nat,
{
    let k = r.state.kont;
    let w = r.world();
    let f1 = (fuel - 1) as nat;
    let r1 = next(h, r);
    lemma_run_one(h, r);
    match *e {
        Exp_::ExpFunctionCall(c) => {
            lemma_pop(k, Kont::Callee(&c));
            let n1 = lemma_call(h, &c, r1, f1);
            lemma_run_add(h, r, 1, n1);
            1 + n1
        },
        Exp_::BinOp(op, l, right) => {
            let n1 = lemma_exp(h, &l, r1, f1);
            lemma_run_add(h, r, 1, n1);
            let r2 = run(h, r1, n1);
            match eval_exp(h, &l, w, f1) {
                Some((w1, Ok(vl))) => {
                    lemma_pop(k, Kont::BinLeft(op, &right));
                    let r3 = next(h, r2);
                    lemma_run_more(h, r, 1 + n1);
                    assert(r3 == Running {
                        state: State {
                            env: w1.env,
                            kont: k.push(Kont::BinRight(op, vl)),
                            control: Control::Exp(&right),
                        },
                        out: w1.out,
                    });
                    let n2 = lemma_exp(h, &right, r3, f1);
                    lemma_run_add(h, r, 1 + n1 + 1, n2);
                    let r4 = run(h, r3, n2);
                    match eval_exp(h, &right, w1, f1) {
                        Some((w2, Ok(vr))) => {
                            lemma_pop(k, Kont::BinRight(op, vl));
                            lemma_binop_agrees(h, op, vl, vr);
                            let r5 = next(h, r4);
                            lemma_run_more(h, r, 1 + n1 + 1 + n2);
                            assert(r5 == Running {
                                state: State { env: w2.env, kont: k, control: binop(op, vl, vr) },
                                out: w2.out,
                            });
                            if binop(op, vl, vr) is Arith {
                                lemma_run_more(h, r, 1 + n1 + 1 + n2 + 1);
                                1 + n1 + 1 + n2 + 1 + 1
                            } else {
                                1 + n1 + 1 + n2 + 1
                            }
                        },
                        _ => 1 + n1 + 1 + n2,
                    }
                },
                _ => 1 + n1,
            }
        },
        Exp_::UnOp(op, operand) => {
            let n1 = lemma_exp(h, &operand, r1, f1);
            lemma_run_add(h, r, 1, n1);
            let r2 = run(h, r1, n1);
            match eval_exp(h, &operand, w, f1) {
                Some((w1, Ok(v))) => {
                    lemma_pop(k, Kont::Un(op));
                    lemma_unop_agrees(op, v);
                    lemma_run_more(h, r, 1 + n1);
                    1 + n1 + 1
                },
                _ => 1 + n1,
            }
        },
        _ => 1,
    }
}

/// The machine performs a call as the walk does, from the callee on.
pub proof fn lemma_call<'ast>(h: Host, c: &'ast FunctionCall, r: Running<'ast>, fuel: nat) -> (n:
    nat)
    requires
        r.state.control == Control::Exp(&c.0),
        r.state.kont.len() > 0,
        r.state.kont.last() == Kont::Callee(c),
        eval_call(h, c, r.world(), fuel) is Some,
    ensures
        arrived_with(
            run(h, r, n),
            r.state.kont.drop_last(),
            eval_call(h, c, r.world(), fuel).unwrap().0,
            eval_call(h, c, r.world(), fuel).unwrap().1,
        ),
        alive(h, r, n),
    decreases fuel, 0nat,
{
    let k = r.state.kont.drop_last();
    let w = r.world();
    let f1 = (fuel - 1) as nat;
    let n1 = lemma_exp(h, &c.0, r, f1);
    let r2 = run(h, r, n1);
    match eval_exp(h, &c.0, w, f1) {
        Some((w1, Ok(v))) => {
            let r3 = next(h, r2);
            lemma_run_more(h, r, n1);
            match v {
                Value::Function(f) => {
                    let base = State { env: w1.env, kont: k, control: r2.state.control };
                    assert(r3 == Running {
                        state: base.arguments(c, f, ValueList::Empty, 0),
                        out: w1.out,
                    });
                    let n2 = lemma_args(h, c, f, 0, ValueList::Empty, base, w1.out, f1, f1);
                    lemma_run_add(h, r, n1 + 1, n2);
                    n1 + 1 + n2
                },
                _ => n1 + 1,
            }
        },
        _ => n1,
    }
}

/// The machine evaluates the arguments from `next` on and then invokes the
/// function, as the walk does.
pub proof fn lemma_args<'ast>(
    h: Host,
    c: &'ast FunctionCall,
    f: Function<'ast>,
    next_arg: usize,
    before: ValueList<'ast>,
    s: State<'ast>,
    out: Seq<Seq<char>>,
    fuel: nat,
    then: nat,
) -> (n: nat)
    requires
        fuel <= then,
        eval_args(h, c, next_arg as nat, before, World { env: s.env, out }, fuel) is Some,
        eval_args(h, c, next_arg as nat, before, World { env: s.env, out }, fuel)
            matches Some((w1, Ok(args))) ==> invoke(h, f, args, w1, then) is Some,
    ensures
        match eval_args(h, c, next_arg as nat, before, World { env: s.env, out }, fuel) {
            Some((w1, Ok(args))) => arrived_with(
                run(h, Running { state: s.arguments(c, f, before, next_arg), out }, n),
                s.kont,
                invoke(h, f, args, w1, then).unwrap().0,
                invoke(h, f, args, w1, then).unwrap().1,
            ),
            Some((w1, Err(e))) => arrived_with(
                run(h, Running { state: s.arguments(c, f, before, next_arg), out }, n),
                s.kont,
                w1,
                Err(e),
            ),
            None => false,
        },
        alive(h, Running { state: s.arguments(c, f, before, next_arg), out }, n),
    decreases then, fuel,
{
    let w = World { env: s.env, out };
    let start = Running { state: s.arguments(c, f, before, next_arg), out };
    if next_arg < c.1@.len() {
        assert(c.1@.len() == c.1.len());
        let f1 = (fuel - 1) as nat;
        let frame = Kont::Args(c, f, before, (next_arg + 1) as usize);
        let n1 = lemma_exp(h, &c.1@[next_arg as int], start, f1);
        let r2 = run(h, start, n1);
        match eval_exp(h, &c.1@[next_arg as int], w, f1) {
            Some((w1, Ok(v))) => {
                lemma_pop(s.kont, frame);
                let r3 = next(h, r2);
                lemma_run_more(h, start, n1);
                let s1 = State { env: w1.env, kont: s.kont, control: s.control };
                let more = ValueList::Cons(v, Box::new(before));
                assert(r3 == Running {
                    state: s1.arguments(c, f, more, (next_arg + 1) as usize),
                    out: w1.out,
                });
                let n2 = lemma_args(h, c, f, (next_arg + 1) as usize, more, s1, w1.out, f1, then);
                lemma_run_add(h, start, n1 + 1, n2);
                n1 + 1 + n2
            },
            _ => n1,
        }
    } else {
        lemma_invoke(h, f, before, s, out, then)
    }
}

/// The machine invokes a function as the walk does.
pub proof fn lemma_invoke<'ast>(
    h: Host,
    f: Function<'ast>,
    args: ValueList<'ast>,
    s: State<'ast>,
    out: Seq<Seq<char>>,
    fuel: nat,
) -> (n: nat)
    requires
        invoke(h, f, args, World { env: s.env, out }, fuel) is Some,
    ensures
        arrived_with(
            run(h, Running { state: s.invoke(f, args), out }, n),
            s.kont,
            invoke(h, f, args, World { env: s.env, out }, fuel).unwrap().0,
            invoke(h, f, args, World { env: s.env, out }, fuel).unwrap().1,
        ),
        alive(h, Running { state: s.invoke(f, args), out }, n),
    decreases fuel, 0nat,
{
    let start = Running { state: s.invoke(f, args), out };
    let f1 = (fuel - 1) as nat;
    match f {
        Function::Print => {
            let n1 = lemma_print(h, args, ValueList::Empty, s, out);
            lemma_run_more(h, start, n1);
            n1 + 1
        },
        Function::Closure(params, captured, body) => {
            let n1 = lemma_block(h, body, start, f1);
            match exec_block(h, body, start.world(), f1) {
                Some((w1, Ok(v))) => {
                    lemma_pop(s.kont, Kont::Restore(s.env.locals));
                    lemma_run_more(h, start, n1);
                    n1 + 1
                },
                _ => n1,
            }
        },
    }
}

/// The machine runs a block as the walk does.
pub proof fn lemma_block<'ast>(h: Host, b: &'ast Block, r: Running<'ast>, fuel: nat) -> (n: nat)
    requires
        r.state.control == Control::Block(b),
        exec_block(h, b, r.world(), fuel) is Some,
    ensures
        arrived_with(
            run(h, r, n),
            r.state.kont,
            exec_block(h, b, r.world(), fuel).unwrap().0,
            exec_block(h, b, r.world(), fuel).unwrap().1,
        ),
        alive(h, r, n),
    decreases fuel, 0nat,
{
    let k = r.state.kont;
    let inner = k.push(Kont::Restore(r.state.env.locals));
    let f1 = (fuel - 1) as nat;
    let r1 = next(h, r);
    lemma_run_one(h, r);
    let n1 = lemma_stat(h, &b.body, r1, f1);
    lemma_run_add(h, r, 1, n1);
    let r2 = run(h, r1, n1);
    match exec_stat(h, &b.body, r1.world(), f1) {
        Some((w1, Ok(_))) => {
            lemma_pop(inner, Kont::BlockRet(b));
            let r3 = next(h, r2);
            lemma_run_more(h, r, 1 + n1);
            assert(r3 == Running {
                state: State { env: w1.env, kont: inner, control: Control::Exp(&b.ret) },
                out: w1.out,
            });
            let n2 = lemma_exp(h, &b.ret, r3, f1);
            lemma_run_add(h, r, 1 + n1 + 1, n2);
            match eval_exp(h, &b.ret, w1, f1) {
                Some((w2, Ok(v))) => {
                    lemma_pop(k, Kont::Restore(r.state.env.locals));
                    lemma_run_more(h, r, 1 + n1 + 1 + n2);
                    1 + n1 + 1 + n2 + 1
                },
                _ => 1 + n1 + 1 + n2,
            }
        },
        _ => 1 + n1,
    }
}

/// The machine runs a statement as the walk does.
pub proof fn lemma_stat<'ast>(h: Host, s: &'ast Stat_, r: Running<'ast>, fuel: nat) -> (n: nat)
    requires
        r.state.control == Control::Stat(s),
        exec_stat(h, s, r.world(), fuel) is Some,
    ensures
        arrived(
            run(h, r, n),
            r.state.kont,
            exec_stat(h, s, r.world(), fuel).unwrap().0,
            exec_stat(h, s, r.world(), fuel).unwrap().1,
        ),
        alive(h, r, n),
    decreases fuel, 0nat,
{
    let k = r.state.kont;
    let w = r.world();
    let f1 = (fuel - 1) as nat;
    let r1 = next(h, r);
    lemma_run_one(h, r);
    match *s {
        Stat_::Sequence(first, second) => {
            let n1 = lemma_stat(h, &first, r1, f1);
            lemma_run_add(h, r, 1, n1);
            let r2 = run(h, r1, n1);
            match exec_stat(h, &first, w, f1) {
                Some((w1, Ok(_))) => {
                    lemma_pop(k, Kont::SeqNext(&second));
                    let r3 = next(h, r2);
                    lemma_run_more(h, r, 1 + n1);
                    assert(r3 == Running {
                        state: State { env: w1.env, kont: k, control: Control::Stat(&second) },
                        out: w1.out,
                    });
                    let n2 = lemma_stat(h, &second, r3, f1);
                    lemma_run_add(h, r, 1 + n1 + 1, n2);
                    1 + n1 + 1 + n2
                },
                _ => 1 + n1,
            }
        },
        Stat_::Assign(Var::Name(name), e) => {
            let n1 = lemma_exp(h, &e, r1, f1);
            lemma_run_add(h, r, 1, n1);
            match eval_exp(h, &e, w, f1) {
                Some((w1, Ok(v))) => {
                    lemma_pop(k, Kont::Assign(&name));
                    lemma_run_more(h, r, 1 + n1);
                    1 + n1 + 1
                },
                _ => 1 + n1,
            }
        },
        Stat_::StatFunctionCall(c) => {
            let outer = k.push(Kont::<'_>::Discard);
            lemma_pop(outer, Kont::Callee(&c));
            let n1 = lemma_call(h, &c, r1, f1);
            lemma_run_add(h, r, 1, n1);
            match eval_call(h, &c, w, f1) {
                Some((w1, Ok(v))) => {
                    lemma_pop(k, Kont::<'_>::Discard);
                    lemma_run_more(h, r, 1 + n1);
                    1 + n1 + 1
                },
                _ => 1 + n1,
            }
        },
        Stat_::WhileDoEnd(cond, body) => {
            lemma_pop(k, Kont::WhileTest(&cond, &body));
            let n1 = lemma_while(h, &cond, &body, r1, f1);
            lemma_run_add(h, r, 1, n1);
            1 + n1
        },
        Stat_::If(cond, yes, no) => {
            let n1 = lemma_exp(h, &cond, r1, f1);
            lemma_run_add(h, r, 1, n1);
            let r2 = run(h, r1, n1);
            match eval_exp(h, &cond, w, f1) {
                Some((w1, Ok(v))) => {
                    lemma_pop(k, Kont::IfTest(&yes, &no));
                    let r3 = next(h, r2);
                    lemma_run_more(h, r, 1 + n1);
                    match v.truth() {
                        Ok(b) => {
                            let chosen: &Block = if b {
                                &yes
                            } else {
                                &no
                            };
                            assert(r3 == Running {
                                state: State { env: w1.env, kont: k, control: Control::Block(chosen) },
                                out: w1.out,
                            });
                            let n2 = lemma_block(h, chosen, r3, f1);
                            lemma_run_add(h, r, 1 + n1 + 1, n2);
                            1 + n1 + 1 + n2
                        },
                        Err(_) => 1 + n1 + 1,
                    }
                },
                _ => 1 + n1,
            }
        },
        _ => 1,
    }
}

/// The machine runs a loop as the walk does, from the test on.
pub proof fn lemma_while<'ast>(
    h: Host,
    cond: &'ast Exp_,
    body: &'ast Block,
    r: Running<'ast>,
    fuel: nat,
) -> (n: nat)
    requires
        r.state.control == Control::Exp(cond),
        r.state.kont.len() > 0,
        r.state.kont.last() == Kont::WhileTest(cond, body),
        exec_while(h, cond, body, r.world(), fuel) is Some,
    ensures
        arrived(
            run(h, r, n),
            r.state.kont.drop_last(),
            exec_while(h, cond, body, r.world(), fuel).unwrap().0,
            exec_while(h, cond, body, r.world(), fuel).unwrap().1,
        ),
        alive(h, r, n),
    decreases fuel, 0nat,
{
    let k = r.state.kont.drop_last();
    let w = r.world();
    let f1 = (fuel - 1) as nat;
    let n1 = lemma_exp(h, cond, r, f1);
    let r2 = run(h, r, n1);
    match eval_exp(h, cond, w, f1) {
        Some((w1, Ok(v))) => {
            let r3 = next(h, r2);
            lemma_run_more(h, r, n1);
            match v.truth() {
                Ok(true) => {
                    assert(r3 == Running {
                        state: State {
                            env: w1.env,
                            kont: k.push(Kont::WhileBody(cond, body)),
                            control: Control::Block(body),
                        },
                        out: w1.out,
                    });
                    let n2 = lemma_block(h, body, r3, f1);
                    lemma_run_add(h, r, n1 + 1, n2);
                    let r4 = run(h, r3, n2);
                    match exec_block(h, body, w1, f1) {
                        Some((w2, Ok(_))) => {
                            lemma_pop(k, Kont::WhileBody(cond, body));
                            let r5 = next(h, r4);
                            lemma_run_more(h, r, n1 + 1 + n2);
                            assert(r5 == Running {
                                state: State {
                                    env: w2.env,
                                    kont: k.push(Kont::WhileTest(cond, body)),
                                    control: Control::Exp(cond),
                                },
                                out: w2.out,
                            });
                            lemma_pop(k, Kont::WhileTest(cond, body));
                            let n3 = lemma_while(h, cond, body, r5, f1);
                            lemma_run_add(h, r, n1 + 1 + n2 + 1, n3);
                            n1 + 1 + n2 + 1 + n3
                        },
                        _ => n1 + 1 + n2,
                    }
                },
                _ => n1 + 1,
            }
        },
        _ => n1,
    }
}

/// The machine is still at work on an expression when the walk runs out
/// of budget: two units of budget buy at least one step.
pub proof fn lemma_exp_stalls<'ast>(h: Host, e: &'ast Exp_, r: Running<'ast>, fuel: nat) -> (m:
    nat)
    requires
        r.state.control == Control::Exp(e),
        eval_exp(h, e, r.world(), fuel) is None,
    ensures
        alive(h, r, m),
        2 * m >= fuel,
    decreases fuel, 0nat,
{
    if fuel == 0 {
        0
    } else {
        let k = r.state.kont;
        let w = r.world();
        let f1 = (fuel - 1) as nat;
        let r1 = next(h, r);
        lemma_run_one(h, r);
        match *e {
            Exp_::ExpFunctionCall(c) => {
                lemma_pop(k, Kont::Callee(&c));
                let m1 = lemma_call_stalls(h, &c, r1, f1);
                lemma_run_add(h, r, 1, m1);
                1 + m1
            },
            Exp_::BinOp(op, l, right) => {
                match eval_exp(h, &l, w, f1) {
                    None => {
                        let m1 = lemma_exp_stalls(h, &l, r1, f1);
                        lemma_run_add(h, r, 1, m1);
                        1 + m1
                    },
                    Some((w1, Ok(vl))) => {
                        let n1 = lemma_exp(h, &l, r1, f1);
                        lemma_run_add(h, r, 1, n1);
                        let r2 = run(h, r1, n1);
                        lemma_pop(k, Kont::BinLeft(op, &right));
                        let r3 = next(h, r2);
                        lemma_run_more(h, r, 1 + n1);
                        assert(r3 == Running {
                            state: State {
                                env: w1.env,
                                kont: k.push(Kont::BinRight(op, vl)),
                                control: Control::Exp(&right),
                            },
                            out: w1.out,
                        });
                        let m2 = lemma_exp_stalls(h, &right, r3, f1);
                        lemma_run_add(h, r, 1 + n1 + 1, m2);
                        1 + n1 + 1 + m2
                    },
                    _ => 0,
                }
            },
            Exp_::UnOp(op, operand) => {
                let m1 = lemma_exp_stalls(h, &operand, r1, f1);
                lemma_run_add(h, r, 1, m1);
                1 + m1
            },
            _ => 0,
        }
    }
}

/// The machine is still at work on a call when the walk runs out of
/// budget.
pub proof fn lemma_call_stalls<'ast>(
    h: Host,
    c: &'ast FunctionCall,
    r: Running<'ast>,
    fuel: nat,
) -> (m: nat)
    requires
        r.state.control == Control::Exp(&c.0),
        r.state.kont.len() > 0,
        r.state.kont.last() == Kont::Callee(c),
        eval_call(h, c, r.world(), fuel) is None,
    ensures
        alive(h, r, m),
        2 * m + 1 >= fuel,
    decreases fuel, 0nat,
{
    if fuel == 0 {
        0
    } else {
        let k = r.state.kont.drop_last();
        let w = r.world();
        let f1 = (fuel - 1) as nat;
        match eval_exp(h, &c.0, w, f1) {
            None => lemma_exp_stalls(h, &c.0, r, f1),
            Some((w1, Ok(Value::Function(f)))) => {
                let n1 = lemma_exp(h, &c.0, r, f1);
                let r2 = run(h, r, n1);
                let r3 = next(h, r2);
                lemma_run_more(h, r, n1);
                let base = State { env: w1.env, kont: k, control: r2.state.control };
                assert(r3 == Running {
                    state: base.arguments(c, f, ValueList::Empty, 0),
                    out: w1.out,
                });
                let m2 = lemma_args_stalls(h, c, f, 0, ValueList::Empty, base, w1.out, f1, f1);
                lemma_run_add(h, r, n1 + 1, m2);
                n1 + 1 + m2
            },
            _ => 0,
        }
    }
}

/// The machine is still at work on the arguments or on the function when
/// the walk runs out of budget.
pub proof fn lemma_args_stalls<'ast>(
    h: Host,
    c: &'ast FunctionCall,
    f: Function<'ast>,
    next_arg: usize,
    before: ValueList<'ast>,
    s: State<'ast>,
    out: Seq<Seq<char>>,
    fuel: nat,
    then: nat,
) -> (m: nat)
    requires
        fuel <= then,
        match eval_args(h, c, next_arg as nat, before, World { env: s.env, out }, fuel) {
            Some((w1, Ok(args))) => invoke(h, f, args, w1, then) is None,
            Some((w1, Err(e))) => false,
            None => true,
        },
    ensures
        alive(h, Running { state: s.arguments(c, f, before, next_arg), out }, m),
        2 * m + 1 >= fuel,
    decreases then, fuel,
{
    let w = World { env: s.env, out };
    let start = Running { state: s.arguments(c, f, before, next_arg), out };
    if fuel == 0 {
        0
    } else if next_arg < c.1@.len() {
        assert(c.1@.len() == c.1.len());
        let f1 = (fuel - 1) as nat;
        let frame = Kont::Args(c, f, before, (next_arg + 1) as usize);
        match eval_exp(h, &c.1@[next_arg as int], w, f1) {
            None => lemma_exp_stalls(h, &c.1@[next_arg as int], start, f1),
            Some((w1, Ok(v))) => {
                let n1 = lemma_exp(h, &c.1@[next_arg as int], start, f1);
                let r2 = run(h, start, n1);
                lemma_pop(s.kont, frame);
                let r3 = next(h, r2);
                lemma_run_more(h, start, n1);
                let s1 = State { env: w1.env, kont: s.kont, control: s.control };
                let more = ValueList::Cons(v, Box::new(before));
                assert(r3 == Running {
                    state: s1.arguments(c, f, more, (next_arg + 1) as usize),
                    out: w1.out,
                });
                let m2 = lemma_args_stalls(
                    h,
                    c,
                    f,
                    (next_arg + 1) as usize,
                    more,
                    s1,
                    w1.out,
                    f1,
                    then,
                );
                lemma_run_add(h, start, n1 + 1, m2);
                n1 + 1 + m2
            },
            _ => 0,
        }
    } else {
        lemma_invoke_stalls(h, f, before, s, out, then)
    }
}

/// The machine is still at work in a function when the walk runs out of
/// budget.
pub proof fn lemma_invoke_stalls<'ast>(
    h: Host,
    f: Function<'ast>,
    args: ValueList<'ast>,
    s: State<'ast>,
    out: Seq<Seq<char>>,
    fuel: nat,
) -> (m: nat)
    requires
        invoke(h, f, args, World { env: s.env, out }, fuel) is None,
    ensures
        alive(h, Running { state: s.invoke(f, args), out }, m),
        2 * m + 1 >= fuel,
    decreases fuel, 0nat,
{
    if fuel == 0 {
        0
    } else {
        match f {
            Function::Closure(params, captured, body) => lemma_block_stalls(
                h,
                body,
                Running { state: s.invoke(f, args), out },
                (fuel - 1) as nat,
            ),
            _ => 0,
        }
    }
}

/// The machine is still at work in a block when the walk runs out of
/// budget.
pub proof fn lemma_block_stalls<'ast>(h: Host, b: &'ast Block, r: Running<'ast>, fuel: nat) -> (m:
    nat)
    requires
        r.state.control == Control::Block(b),
        exec_block(h, b, r.world(), fuel) is None,
    ensures
        alive(h, r, m),
        2 * m >= fuel,
    decreases fuel, 0nat,
{
    if fuel == 0 {
        0
    } else {
        let k = r.state.kont;
        let inner = k.push(Kont::Restore(r.state.env.locals));
        let f1 = (fuel - 1) as nat;
        let r1 = next(h, r);
        lemma_run_one(h, r);
        match exec_stat(h, &b.body, r1.world(), f1) {
            None => {
                let m1 = lemma_stat_stalls(h, &b.body, r1, f1);
                lemma_run_add(h, r, 1, m1);
                1 + m1
            },
            Some((w1, Ok(_))) => {
                let n1 = lemma_stat(h, &b.body, r1, f1);
                lemma_run_add(h, r, 1, n1);
                let r2 = run(h, r1, n1);
                lemma_pop(inner, Kont::BlockRet(b));
                let r3 = next(h, r2);
                lemma_run_more(h, r, 1 + n1);
                assert(r3 == Running {
                    state: State { env: w1.env, kont: inner, control: Control::Exp(&b.ret) },
                    out: w1.out,
                });
                let m2 = lemma_exp_stalls(h, &b.ret, r3, f1);
                lemma_run_add(h, r, 1 + n1 + 1, m2);
                1 + n1 + 1 + m2
            },
            _ => 0,
        }
    }
}

/// The machine is still at work on a statement when the walk runs out of
/// budget.
pub proof fn lemma_stat_stalls<'ast>(h: Host, s: &'ast Stat_, r: Running<'ast>, fuel: nat) -> (m:
    nat)
    requires
        r.state.control == Control::Stat(s),
        exec_stat(h, s, r.world(), fuel) is None,
    ensures
        alive(h, r, m),
        2 * m >= fuel,
    decreases fuel, 0nat,
{
    if fuel == 0 {
        0
    } else {
        let k = r.state.kont;
        let w = r.world();
        let f1 = (fuel - 1) as nat;
        let r1 = next(h, r);
        lemma_run_one(h, r);
        match *s {
            Stat_::Sequence(first, second) => {
                match exec_stat(h, &first, w, f1) {
                    None => {
                        let m1 = lemma_stat_stalls(h, &first, r1, f1);
                        lemma_run_add(h, r, 1, m1);
                        1 + m1
                    },
                    Some((w1, Ok(_))) => {
                        let n1 = lemma_stat(h, &first, r1, f1);
                        lemma_run_add(h, r, 1, n1);
                        let r2 = run(h, r1, n1);
                        lemma_pop(k, Kont::SeqNext(&second));
                        let r3 = next(h, r2);
                        lemma_run_more(h, r, 1 + n1);
                        assert(r3 == Running {
                            state: State { env: w1.env, kont: k, control: Control::Stat(&second) },
                            out: w1.out,
                        });
                        let m2 = lemma_stat_stalls(h, &second, r3, f1);
                        lemma_run_add(h, r, 1 + n1 + 1, m2);
                        1 + n1 + 1 + m2
                    },
                    _ => 0,
                }
            },
            Stat_::Assign(Var::Name(name), e) => {
                let m1 = lemma_exp_stalls(h, &e, r1, f1);
                lemma_run_add(h, r, 1, m1);
                1 + m1
            },
            Stat_::StatFunctionCall(c) => {
                let outer = k.push(Kont::<'_>::Discard);
                lemma_pop(outer, Kont::Callee(&c));
                let m1 = lemma_call_stalls(h, &c, r1, f1);
                lemma_run_add(h, r, 1, m1);
                1 + m1
            },
            Stat_::WhileDoEnd(cond, body) => {
                lemma_pop(k, Kont::WhileTest(&cond, &body));
                let m1 = lemma_while_stalls(h, &cond, &body, r1, f1);
                lemma_run_add(h, r, 1, m1);
                1 + m1
            },
            Stat_::If(cond, yes, no) => {
                match eval_exp(h, &cond, w, f1) {
                    None => {
                        let m1 = lemma_exp_stalls(h, &cond, r1, f1);
                        lemma_run_add(h, r, 1, m1);
                        1 + m1
                    },
                    Some((w1, Ok(v))) => {
                        let n1 = lemma_exp(h, &cond, r1, f1);
                        lemma_run_add(h, r, 1, n1);
                        let r2 = run(h, r1, n1);
                        lemma_pop(k, Kont::IfTest(&yes, &no));
                        let r3 = next(h, r2);
                        lemma_run_more(h, r, 1 + n1);
                        match v.truth() {
                            Ok(b) => {
                                let chosen: &Block = if b {
                                    &yes
                                } else {
                                    &no
                                };
                                assert(r3 == Running {
                                    state: State {
                                        env: w1.env,
                                        kont: k,
                                        control: Control::Block(chosen),
                                    },
                                    out: w1.out,
                                });
                                let m2 = lemma_block_stalls(h, chosen, r3, f1);
                                lemma_run_add(h, r, 1 + n1 + 1, m2);
                                1 + n1 + 1 + m2
                            },
                            Err(_) => 0,
                        }
                    },
                    _ => 0,
                }
            },
            _ => 0,
        }
    }
}

/// The machine is still at work in a loop when the walk runs out of
/// budget.
pub proof fn lemma_while_stalls<'ast>(
    h: Host,
    cond: &'ast Exp_,
    body: &'ast Block,
    r: Running<'ast>,
    fuel: nat,
) -> (m: nat)
    requires
        r.state.control == Control::Exp(cond),
        r.state.kont.len() > 0,
        r.state.kont.last() == Kont::WhileTest(cond, body),
        exec_while(h, cond, body, r.world(), fuel) is None,
    ensures
        alive(h, r, m),
        2 * m + 1 >= fuel,
    decreases fuel, 0nat,
{
    if fuel == 0 {
        0
    } else {
        let k = r.state.kont.drop_last();
        let w = r.world();
        let f1 = (fuel - 1) as nat;
        match eval_exp(h, cond, w, f1) {
            None => lemma_exp_stalls(h, cond, r, f1),
            Some((w1, Ok(v))) => {
                let n1 = lemma_exp(h, cond, r, f1);
                let r2 = run(h, r, n1);
                let r3 = next(h, r2);
                lemma_run_more(h, r, n1);
                assert(r3 == Running {
                    state: State {
                        env: w1.env,
                        kont: k.push(Kont::WhileBody(cond, body)),
                        control: Control::Block(body),
                    },
                    out: w1.out,
                });
                match exec_block(h, body, w1, f1) {
                    None => {
                        let m2 = lemma_block_stalls(h, body, r3, f1);
                        lemma_run_add(h, r, n1 + 1, m2);
                        n1 + 1 + m2
                    },
                    Some((w2, Ok(_))) => {
                        let n2 = lemma_block(h, body, r3, f1);
                        lemma_run_add(h, r, n1 + 1, n2);
                        let r4 = run(h, r3, n2);
                        lemma_pop(k, Kont::WhileBody(cond, body));
                        let r5 = next(h, r4);
                        lemma_run_more(h, r, n1 + 1 + n2);
                        assert(r5 == Running {
                            state: State {
                                env: w2.env,
                                kont: k.push(Kont::WhileTest(cond, body)),
                                control: Control::Exp(cond),
                            },
                            out: w2.out,
                        });
                        lemma_pop(k, Kont::WhileTest(cond, body));
                        let m3 = lemma_while_stalls(h, cond, body, r5, f1);
                        lemma_run_add(h, r, n1 + 1 + n2 + 1, m3);
                        n1 + 1 + n2 + 1 + m3
                    },
                    _ => 0,
                }
            },
            _ => 0,
        }
    }
}

/// The machine at the start of a program, with nothing printed.
pub open spec fn launch<'ast>(ast: &'ast Block) -> Running<'ast> {
    Running { state: State::start(ast), out: Seq::empty() }
}

/// Whether a machine has ended as a walk did: the same lines in the same
/// order, and then either the walk's value, with the walk's environment,
/// or the walk's error.
pub open spec fn agrees<'ast>(
    end: Running<'ast>,
    walk: (World<'ast>, Result<Value<'ast>, Error<'ast>>),
) -> bool {
    &&& end.out == walk.0.out
    &&& match walk.1 {
        Ok(v) => end.state.control == Control::Done(v) && end.state.env == walk.0.env,
        Err(e) => end.state.control == Control::Failed(e),
    }
}

/// A program whose walk ends is run by the machine to the same end, in
/// the number of steps handed back.
pub proof fn lemma_program<'ast>(h: Host, ast: &'ast Block, fuel: nat) -> (n: nat)
    requires
        exec_block(h, ast, launch(ast).world(), fuel) is Some,
    ensures
        agrees(run(h, launch(ast), n), exec_block(h, ast, launch(ast).world(), fuel).unwrap()),
{
    let start = launch(ast);
    let n1 = lemma_block(h, ast, start, fuel);
    match exec_block(h, ast, start.world(), fuel) {
        Some((w, Ok(v))) => {
            lemma_run_more(h, start, n1);
            n1 + 1
        },
        _ => n1,
    }
}

/// A program that the machine runs to an end has a walk that ends, within
/// the budget handed back, and the two ends are the same. So the machine
/// ends exactly where the walk does, and runs on for ever exactly where no
/// budget is enough for the walk.
pub proof fn lemma_end_is_walk<'ast>(h: Host, ast: &'ast Block, n: nat) -> (fuel: nat)
    requires
        ended(run(h, launch(ast), n).state),
    ensures
        exec_block(h, ast, launch(ast).world(), fuel) is Some,
        agrees(run(h, launch(ast), n), exec_block(h, ast, launch(ast).world(), fuel).unwrap()),
{
    let start = launch(ast);
    let fuel = 2 * n + 2;
    if exec_block(h, ast, start.world(), fuel) is None {
        let m = lemma_block_stalls(h, ast, start, fuel);
        lemma_alive_before(h, start, m, n);
    }
    let n2 = lemma_program(h, ast, fuel);
    if n <= n2 {
        lemma_run_add(h, start, n, (n2 - n) as nat);
        lemma_ended_stays(h, run(h, start, n), (n2 - n) as nat);
    } else {
        lemma_run_add(h, start, n2, (n - n2) as nat);
        lemma_ended_stays(h, run(h, start, n2), (n - n2) as nat);
    }
    fuel
}

} // verus!

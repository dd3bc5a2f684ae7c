use minilua::ast::{BinOp, Block, Exp_, FunctionBody, FunctionCall, Stat_, UnOp, Var};
use minilua::host::{Action, Reply, Request};
use minilua::interp::run;
use minilua::value::{Error, Value};

fn num(x: f64) -> Exp_ {
    Exp_::Number(x.to_bits())
}

fn text(s: &str) -> Exp_ {
    Exp_::LiteralString(s.to_string())
}

fn var(s: &str) -> Exp_ {
    Exp_::Var(Var::Name(s.to_string()))
}

fn call(f: Exp_, args: Vec<Exp_>) -> FunctionCall {
    FunctionCall(Box::new(f), args)
}

fn call_exp(f: Exp_, args: Vec<Exp_>) -> Exp_ {
    Exp_::ExpFunctionCall(call(f, args))
}

fn call_stat(f: Exp_, args: Vec<Exp_>) -> Stat_ {
    Stat_::StatFunctionCall(call(f, args))
}

fn bin(op: BinOp, l: Exp_, r: Exp_) -> Exp_ {
    Exp_::BinOp(op, Box::new(l), Box::new(r))
}

fn un(op: UnOp, e: Exp_) -> Exp_ {
    Exp_::UnOp(op, Box::new(e))
}

fn assign(name: &str, e: Exp_) -> Stat_ {
    Stat_::Assign(Var::Name(name.to_string()), Box::new(e))
}

fn seq(stats: Vec<Stat_>) -> Stat_ {
    let mut out = Stat_::Nop;
    for s in stats.into_iter().rev() {
        out = match out {
            Stat_::Nop => s,
            rest => Stat_::Sequence(Box::new(s), Box::new(rest)),
        };
    }
    out
}

fn block(locals: &[&str], body: Stat_, ret: Exp_) -> Block {
    Block {
        locals: locals.iter().map(|s| s.to_string()).collect(),
        body: Box::new(body),
        ret: Box::new(ret),
    }
}

fn function(params: &[&str], body: Block) -> Exp_ {
    Exp_::FunctionDef(FunctionBody(params.iter().map(|s| s.to_string()).collect(), body))
}

fn answer(request: Request) -> Reply {
    match request {
        Request::Add(a, b) => Reply::Number((f64::from_bits(a) + f64::from_bits(b)).to_bits()),
        Request::Sub(a, b) => Reply::Number((f64::from_bits(a) - f64::from_bits(b)).to_bits()),
        Request::Mul(a, b) => Reply::Number((f64::from_bits(a) * f64::from_bits(b)).to_bits()),
        Request::Text(a) => Reply::Text(format!("{}", f64::from_bits(a))),
    }
}

fn drive<'a>(ast: &'a Block) -> (Vec<String>, Result<Value<'a>, Error<'a>>) {
    let mut m = run(ast);
    let mut reply = Reply::Nothing;
    let mut lines = Vec::new();
    for _ in 0..1_000_000 {
        let (next, action) = m.step(reply);
        m = next;
        reply = Reply::Nothing;
        match action {
            Action::Continue => {}
            Action::Ask(request) => reply = answer(request),
            Action::Print(line) => lines.push(line),
            Action::Done(v) => return (lines, Ok(v)),
            Action::Fail(e) => return (lines, Err(e)),
        }
    }
    panic!("the program did not end");
}

fn is_number(v: &Result<Value, Error>, x: f64) -> bool {
    matches!(v, Ok(Value::Number(b)) if *b == x.to_bits())
}

#[test]
fn print_writes_one_tabbed_line_and_yields_nil() {
    let ast = block(&[], Stat_::Nop, call_exp(var("print"), vec![num(1.0), num(2.0), num(3.0)]));
    let (lines, result) = drive(&ast);
    assert_eq!(lines, vec!["1\t2\t3".to_string()]);
    assert!(matches!(result, Ok(Value::Nil)));
}

#[test]
fn print_as_a_statement_is_accepted() {
    let ast = block(&[], call_stat(var("print"), vec![num(1.0), num(2.0), num(3.0)]), Exp_::Nil);
    let (lines, result) = drive(&ast);
    assert_eq!(lines, vec!["1\t2\t3".to_string()]);
    assert!(matches!(result, Ok(Value::Nil)));
}

#[test]
fn print_without_arguments_writes_an_empty_line() {
    let ast = block(&[], call_stat(var("print"), vec![]), Exp_::Nil);
    let (lines, result) = drive(&ast);
    assert_eq!(lines, vec![String::new()]);
    assert!(matches!(result, Ok(Value::Nil)));
}

#[test]
fn print_renders_every_variant() {
    let ast = block(
        &[],
        call_stat(
            var("print"),
            vec![
                Exp_::Nil,
                Exp_::True,
                Exp_::False,
                num(0.5),
                text("a b"),
                var("print"),
                function(&[], block(&[], Stat_::Nop, Exp_::Nil)),
                num(-2.0),
            ],
        ),
        Exp_::Nil,
    );
    let (lines, _) = drive(&ast);
    assert_eq!(lines, vec!["nil\ttrue\tfalse\t0.5\ta b\t<function>\t<function>\t-2".to_string()]);
}

#[test]
fn print_of_one_number_asks_for_its_text() {
    let ast = block(&[], call_stat(var("print"), vec![num(1.5)]), Exp_::Nil);
    let mut m = run(&ast);
    let mut asked = Vec::new();
    let mut reply = Reply::Nothing;
    let mut lines = Vec::new();
    loop {
        let (next, action) = m.step(reply);
        m = next;
        reply = Reply::Nothing;
        match action {
            Action::Ask(Request::Text(bits)) => {
                asked.push(bits);
                reply = Reply::Text("one and a half".to_string());
            }
            Action::Print(line) => lines.push(line),
            Action::Done(_) => break,
            Action::Continue => {}
            other => panic!("unexpected action {:?}", other),
        }
    }
    assert_eq!(asked, vec![1.5f64.to_bits()]);
    assert_eq!(lines, vec!["one and a half".to_string()]);
}

#[test]
fn local_is_assigned_and_read_back() {
    let ast = block(
        &["x"],
        seq(vec![assign("x", num(1.0)), assign("x", bin(BinOp::Addition, var("x"), num(1.0)))]),
        var("x"),
    );
    let (lines, result) = drive(&ast);
    assert!(lines.is_empty());
    assert!(is_number(&result, 2.0));
}

#[test]
fn while_false_never_runs_its_body() {
    let ast = block(
        &[],
        Stat_::WhileDoEnd(
            Box::new(Exp_::False),
            block(&[], call_stat(var("print"), vec![text("never")]), Exp_::Nil),
        ),
        num(1.0),
    );
    let (lines, result) = drive(&ast);
    assert!(lines.is_empty());
    assert!(is_number(&result, 1.0));
}

#[test]
fn while_counts_to_ten() {
    let ast = block(
        &["i", "sum"],
        seq(vec![
            assign("i", num(0.0)),
            assign("sum", num(0.0)),
            Stat_::WhileDoEnd(
                Box::new(bin(BinOp::Less, var("i"), num(10.0))),
                block(
                    &[],
                    seq(vec![
                        assign("i", bin(BinOp::Addition, var("i"), num(1.0))),
                        assign("sum", bin(BinOp::Addition, var("sum"), var("i"))),
                    ]),
                    Exp_::Nil,
                ),
            ),
        ]),
        var("sum"),
    );
    let (_, result) = drive(&ast);
    assert!(is_number(&result, 55.0));
}

#[test]
fn closure_sees_a_later_assignment() {
    let ast = block(
        &["x", "f"],
        seq(vec![
            assign("x", num(1.0)),
            assign("f", function(&[], block(&[], Stat_::Nop, var("x")))),
            assign("x", num(2.0)),
        ]),
        call_exp(var("f"), vec![]),
    );
    let (_, result) = drive(&ast);
    assert!(is_number(&result, 2.0));
}

#[test]
fn closure_outlives_the_scope_that_made_it() {
    // make = function() local n; n = 0; return function() n = n + 1; return n end end
    let counter = function(
        &[],
        block(&[], assign("n", bin(BinOp::Addition, var("n"), num(1.0))), var("n")),
    );
    let make = function(&[], block(&["n"], assign("n", num(0.0)), counter));
    let ast = block(
        &["make", "a", "b", "t"],
        seq(vec![
            assign("make", make),
            assign("a", call_exp(var("make"), vec![])),
            assign("b", call_exp(var("make"), vec![])),
            assign("t", call_exp(var("a"), vec![])),
            assign("t", call_exp(var("a"), vec![])),
            call_stat(var("print"), vec![call_exp(var("a"), vec![]), call_exp(var("b"), vec![])]),
        ]),
        Exp_::Nil,
    );
    let (lines, _) = drive(&ast);
    assert_eq!(lines, vec!["3\t1".to_string()]);
}

#[test]
fn call_is_scoped_by_definition_not_by_caller() {
    let ast = block(
        &["x", "f", "g"],
        seq(vec![
            assign("x", num(1.0)),
            assign("f", function(&[], block(&[], Stat_::Nop, var("x")))),
            assign(
                "g",
                function(&[], block(&["x"], assign("x", num(2.0)), call_exp(var("f"), vec![]))),
            ),
        ]),
        call_exp(var("g"), vec![]),
    );
    let (_, result) = drive(&ast);
    assert!(is_number(&result, 1.0));
}

#[test]
fn inner_declaration_shadows_and_ends_with_its_block() {
    let ast = block(
        &["x", "seen"],
        seq(vec![
            assign("x", num(1.0)),
            Stat_::If(
                Box::new(Exp_::True),
                block(&["x"], seq(vec![assign("x", num(5.0)), assign("seen", var("x"))]), Exp_::Nil),
                block(&[], Stat_::Nop, Exp_::Nil),
            ),
            call_stat(var("print"), vec![var("seen"), var("x")]),
        ]),
        Exp_::Nil,
    );
    let (lines, _) = drive(&ast);
    assert_eq!(lines, vec!["5\t1".to_string()]);
}

#[test]
fn declared_local_is_nil_before_assignment() {
    let ast = block(&["x"], Stat_::Nop, var("x"));
    let (_, result) = drive(&ast);
    assert!(matches!(result, Ok(Value::Nil)));
}

#[test]
fn undeclared_assignment_makes_a_global() {
    let ast = block(
        &["f"],
        seq(vec![
            assign("f", function(&[], block(&[], assign("g", num(7.0)), Exp_::Nil))),
            call_stat(var("f"), vec![]),
        ]),
        var("g"),
    );
    let (_, result) = drive(&ast);
    assert!(is_number(&result, 7.0));
}

#[test]
fn unknown_name_is_undefined() {
    let ast = block(&[], Stat_::Nop, var("nowhere"));
    let (_, result) = drive(&ast);
    assert!(matches!(result, Err(Error::UndefinedVariable(ref n)) if n == "nowhere"));
}

#[test]
fn calling_a_number_is_not_callable() {
    let ast = block(&[], Stat_::Nop, call_exp(num(1.0), vec![]));
    let (_, result) = drive(&ast);
    assert!(matches!(result, Err(Error::NotCallable(Value::Number(b))) if b == 1.0f64.to_bits()));
}

#[test]
fn callee_is_checked_before_arguments_run() {
    let ast = block(
        &[],
        Stat_::Nop,
        call_exp(Exp_::Nil, vec![call_exp(var("print"), vec![text("argument")])]),
    );
    let (lines, result) = drive(&ast);
    assert!(lines.is_empty());
    assert!(matches!(result, Err(Error::NotCallable(Value::Nil))));
}

#[test]
fn if_runs_exactly_one_branch() {
    let program = |cond: Exp_| {
        block(
            &["r"],
            Stat_::If(
                Box::new(cond),
                block(&[], assign("r", num(1.0)), num(1.0)),
                block(&[], assign("r", num(2.0)), num(2.0)),
            ),
            var("r"),
        )
    };
    let yes = program(Exp_::True);
    let (_, result) = drive(&yes);
    assert!(is_number(&result, 1.0));
    let no = program(Exp_::False);
    let (_, result) = drive(&no);
    assert!(is_number(&result, 2.0));
}

#[test]
fn condition_must_be_a_boolean() {
    let ast = block(
        &[],
        Stat_::If(
            Box::new(Exp_::Nil),
            block(&[], Stat_::Nop, Exp_::Nil),
            block(&[], Stat_::Nop, Exp_::Nil),
        ),
        Exp_::Nil,
    );
    let (_, result) = drive(&ast);
    assert!(matches!(result, Err(Error::TypeError)));
    let ast = block(
        &[],
        Stat_::WhileDoEnd(Box::new(num(1.0)), block(&[], Stat_::Nop, Exp_::Nil)),
        Exp_::Nil,
    );
    let (_, result) = drive(&ast);
    assert!(matches!(result, Err(Error::TypeError)));
}

#[test]
fn statement_call_must_yield_nil() {
    let ast = block(
        &["f"],
        seq(vec![
            assign("f", function(&[], block(&[], Stat_::Nop, num(1.0)))),
            call_stat(var("f"), vec![]),
        ]),
        Exp_::Nil,
    );
    let (_, result) = drive(&ast);
    assert!(matches!(result, Err(Error::NonNilDiscarded(Value::Number(b))) if b == 1.0f64.to_bits()));
}

#[test]
fn tables_and_indexing_are_unsupported() {
    let ast = block(&[], Stat_::Nop, Exp_::Table(vec![]));
    let (_, result) = drive(&ast);
    assert!(matches!(result, Err(Error::Unsupported)));
    let ast = block(
        &[],
        Stat_::Nop,
        Exp_::Var(Var::IndexTable(Box::new(var("t")), Box::new(num(1.0)))),
    );
    let (_, result) = drive(&ast);
    assert!(matches!(result, Err(Error::Unsupported)));
    let ast = block(
        &[],
        Stat_::Assign(Var::IndexTable(Box::new(var("t")), Box::new(num(1.0))), Box::new(num(2.0))),
        Exp_::Nil,
    );
    let (_, result) = drive(&ast);
    assert!(matches!(result, Err(Error::Unsupported)));
}

#[test]
fn arithmetic_goes_through_the_host() {
    let ast = block(
        &[],
        Stat_::Nop,
        bin(
            BinOp::Subtraction,
            bin(BinOp::Multiplication, num(1.5), num(4.0)),
            un(UnOp::UnaryMinus, num(0.25)),
        ),
    );
    let (_, result) = drive(&ast);
    assert!(is_number(&result, 6.25));
}

#[test]
fn arithmetic_on_a_string_is_a_type_error() {
    for op in [BinOp::Addition, BinOp::Subtraction, BinOp::Multiplication, BinOp::Less, BinOp::GreaterEq] {
        let ast = block(&[], Stat_::Nop, bin(op, num(1.0), text("1")));
        let (_, result) = drive(&ast);
        assert!(matches!(result, Err(Error::TypeError)));
    }
    let ast = block(&[], Stat_::Nop, un(UnOp::UnaryMinus, Exp_::True));
    let (_, result) = drive(&ast);
    assert!(matches!(result, Err(Error::TypeError)));
    let ast = block(&[], Stat_::Nop, un(UnOp::Not, num(0.0)));
    let (_, result) = drive(&ast);
    assert!(matches!(result, Err(Error::TypeError)));
}

#[test]
fn comparisons_yield_booleans() {
    let cases = [
        (BinOp::Less, 1.0, 2.0, true),
        (BinOp::Less, 2.0, 2.0, false),
        (BinOp::LessEq, 2.0, 2.0, true),
        (BinOp::Greater, 3.0, 2.0, true),
        (BinOp::Greater, 2.0, 2.0, false),
        (BinOp::GreaterEq, 2.0, 2.0, true),
        (BinOp::GreaterEq, 1.0, 2.0, false),
        (BinOp::Equality, 0.0, -0.0, true),
        (BinOp::Inequality, 1.0, 1.0, false),
        (BinOp::Equality, f64::NAN, f64::NAN, false),
        (BinOp::Inequality, f64::NAN, f64::NAN, true),
        (BinOp::Less, f64::NAN, 1.0, false),
        // `>` is the negation of `<=`, and `>=` that of `<`
        (BinOp::Greater, f64::NAN, 1.0, true),
        (BinOp::GreaterEq, f64::NAN, 1.0, true),
    ];
    for (op, a, b, expected) in cases {
        let ast = block(&[], Stat_::Nop, bin(op, num(a), num(b)));
        let (_, result) = drive(&ast);
        assert!(matches!(result, Ok(Value::Bool(r)) if r == expected), "{:?} {} {}", op, a, b);
    }
}

#[test]
fn equality_across_variants_is_false() {
    let ast = block(&[], Stat_::Nop, bin(BinOp::Equality, num(1.0), text("1")));
    let (_, result) = drive(&ast);
    assert!(matches!(result, Ok(Value::Bool(false))));
    let ast = block(&[], Stat_::Nop, bin(BinOp::Inequality, Exp_::Nil, Exp_::False));
    let (_, result) = drive(&ast);
    assert!(matches!(result, Ok(Value::Bool(true))));
    let ast = block(&[], Stat_::Nop, bin(BinOp::Equality, text("ab"), text("ab")));
    let (_, result) = drive(&ast);
    assert!(matches!(result, Ok(Value::Bool(true))));
}

#[test]
fn logical_operators_evaluate_both_operands() {
    // `false and print("right")`: the right operand runs, and its value is
    // not coerced because the left one decides.
    let ast = block(
        &[],
        Stat_::Nop,
        bin(BinOp::LogicalAnd, Exp_::False, call_exp(var("print"), vec![text("right")])),
    );
    let (lines, result) = drive(&ast);
    assert_eq!(lines, vec!["right".to_string()]);
    assert!(matches!(result, Ok(Value::Bool(false))));
    let ast = block(
        &[],
        Stat_::Nop,
        bin(BinOp::LogicalOr, Exp_::True, call_exp(var("print"), vec![text("right")])),
    );
    let (lines, result) = drive(&ast);
    assert_eq!(lines, vec!["right".to_string()]);
    assert!(matches!(result, Ok(Value::Bool(true))));
}

#[test]
fn logical_operators_coerce_strictly() {
    let cases = [
        (BinOp::LogicalAnd, Exp_::True, Exp_::True, Some(true)),
        (BinOp::LogicalAnd, Exp_::True, Exp_::False, Some(false)),
        (BinOp::LogicalAnd, Exp_::True, Exp_::Nil, None),
        (BinOp::LogicalAnd, Exp_::Nil, Exp_::True, None),
        (BinOp::LogicalOr, Exp_::False, Exp_::True, Some(true)),
        (BinOp::LogicalOr, Exp_::False, Exp_::False, Some(false)),
        (BinOp::LogicalOr, Exp_::False, num(1.0), None),
        (BinOp::LogicalOr, text("x"), Exp_::True, None),
    ];
    for (op, l, r, expected) in cases {
        let ast = block(&[], Stat_::Nop, bin(op, l, r));
        let (_, result) = drive(&ast);
        match expected {
            Some(b) => assert!(matches!(result, Ok(Value::Bool(r)) if r == b)),
            None => assert!(matches!(result, Err(Error::TypeError))),
        }
    }
    let ast = block(&[], Stat_::Nop, un(UnOp::Not, Exp_::False));
    let (_, result) = drive(&ast);
    assert!(matches!(result, Ok(Value::Bool(true))));
}

#[test]
fn arguments_bind_by_position() {
    let ast = block(
        &["f"],
        seq(vec![
            assign(
                "f",
                function(
                    &["a", "b", "c"],
                    block(&[], call_stat(var("print"), vec![var("a"), var("b"), var("c")]), Exp_::Nil),
                ),
            ),
            call_stat(var("f"), vec![num(1.0), num(2.0), num(3.0)]),
            // a missing argument is nil, an extra one is dropped
            call_stat(var("f"), vec![num(1.0)]),
            call_stat(var("f"), vec![num(1.0), num(2.0), num(3.0), num(4.0)]),
        ]),
        Exp_::Nil,
    );
    let (lines, result) = drive(&ast);
    assert_eq!(
        lines,
        vec!["1\t2\t3".to_string(), "1\tnil\tnil".to_string(), "1\t2\t3".to_string()]
    );
    assert!(matches!(result, Ok(Value::Nil)));
}

#[test]
fn arguments_are_evaluated_in_the_callers_scope_in_order() {
    let ast = block(
        &["a", "f"],
        seq(vec![
            assign("a", num(10.0)),
            assign("f", function(&["a", "b"], block(&[], Stat_::Nop, bin(BinOp::Subtraction, var("a"), var("b"))))),
        ]),
        call_exp(
            var("f"),
            vec![bin(BinOp::Addition, var("a"), num(1.0)), var("a")],
        ),
    );
    let (_, result) = drive(&ast);
    assert!(is_number(&result, 1.0));
    let ast = block(
        &["f"],
        assign("f", function(&["a", "b"], block(&[], Stat_::Nop, Exp_::Nil))),
        call_exp(
            var("f"),
            vec![call_exp(var("print"), vec![text("first")]), call_exp(var("print"), vec![text("second")])],
        ),
    );
    let (lines, _) = drive(&ast);
    assert_eq!(lines, vec!["first".to_string(), "second".to_string()]);
}

#[test]
fn recursion_through_a_global() {
    // fact = function(n) local r; if n <= 0 then r = 1 else r = n * fact(n - 1) end; return r end
    let body = block(
        &["r"],
        Stat_::If(
            Box::new(bin(BinOp::LessEq, var("n"), num(0.0))),
            block(&[], assign("r", num(1.0)), Exp_::Nil),
            block(
                &[],
                assign(
                    "r",
                    bin(
                        BinOp::Multiplication,
                        var("n"),
                        call_exp(var("fact"), vec![bin(BinOp::Subtraction, var("n"), num(1.0))]),
                    ),
                ),
                Exp_::Nil,
            ),
        ),
        var("r"),
    );
    let ast = block(&[], assign("fact", function(&["n"], body)), call_exp(var("fact"), vec![num(5.0)]));
    let (_, result) = drive(&ast);
    assert!(is_number(&result, 120.0));
}

#[test]
fn the_last_of_two_equal_names_wins() {
    let ast = block(
        &["f"],
        assign("f", function(&["a", "a"], block(&[], Stat_::Nop, var("a")))),
        call_exp(var("f"), vec![num(1.0), num(2.0)]),
    );
    let (_, result) = drive(&ast);
    assert!(is_number(&result, 2.0));
}

#[test]
fn an_unanswered_request_is_asked_again() {
    let ast = block(&[], Stat_::Nop, bin(BinOp::Addition, num(1.0), num(2.0)));
    let mut m = run(&ast);
    let mut asked = 0;
    let mut reply = Reply::Nothing;
    let result;
    loop {
        let (next, action) = m.step(reply);
        m = next;
        reply = Reply::Nothing;
        match action {
            Action::Ask(Request::Add(a, b)) => {
                assert_eq!((a, b), (1.0f64.to_bits(), 2.0f64.to_bits()));
                asked += 1;
                if asked == 2 {
                    reply = Reply::Text("not a number".to_string());
                }
                if asked == 3 {
                    reply = Reply::Number(3.0f64.to_bits());
                }
            }
            Action::Done(v) => {
                result = v;
                break;
            }
            Action::Continue => {}
            other => panic!("unexpected action {:?}", other),
        }
    }
    assert_eq!(asked, 3);
    assert!(matches!(result, Value::Number(b) if b == 3.0f64.to_bits()));
}

#[test]
fn a_finished_machine_stays_finished() {
    let ast = block(&[], Stat_::Nop, num(4.0));
    let mut m = run(&ast);
    let mut done = 0;
    for _ in 0..50 {
        let (next, action) = m.step(Reply::Nothing);
        m = next;
        if let Action::Done(v) = action {
            assert!(matches!(v, Value::Number(b) if b == 4.0f64.to_bits()));
            done += 1;
        }
    }
    assert!(done > 1);
    let ast = block(&[], Stat_::Nop, var("nowhere"));
    let mut m = run(&ast);
    let mut failed = 0;
    for _ in 0..50 {
        let (next, action) = m.step(Reply::Nothing);
        m = next;
        if let Action::Fail(e) = action {
            assert!(matches!(e, Error::UndefinedVariable(_)));
            failed += 1;
        }
    }
    assert!(failed > 1);
}

#[test]
fn a_long_loop_runs_in_constant_depth() {
    let ast = block(
        &["i"],
        seq(vec![
            assign("i", num(0.0)),
            Stat_::WhileDoEnd(
                Box::new(bin(BinOp::Less, var("i"), num(5000.0))),
                block(&["t"], assign("i", bin(BinOp::Addition, var("i"), num(1.0))), Exp_::Nil),
            ),
        ]),
        var("i"),
    );
    let (lines, result) = drive(&ast);
    assert!(lines.is_empty());
    assert!(is_number(&result, 5000.0));
}

#[test]
fn deep_recursion_needs_no_host_stack() {
    // down = function(n) local r; if n <= 0 then r = 0 else r = down(n - 1) end; return r end
    let body = block(
        &["r"],
        Stat_::If(
            Box::new(bin(BinOp::LessEq, var("n"), num(0.0))),
            block(&[], assign("r", num(0.0)), Exp_::Nil),
            block(
                &[],
                assign("r", call_exp(var("down"), vec![bin(BinOp::Subtraction, var("n"), num(1.0))])),
                Exp_::Nil,
            ),
        ),
        var("r"),
    );
    let ast = block(&[], assign("down", function(&["n"], body)), call_exp(var("down"), vec![num(3000.0)]));
    let (_, result) = drive(&ast);
    assert!(is_number(&result, 0.0));
}

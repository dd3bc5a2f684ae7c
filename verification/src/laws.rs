//! What holds of name resolution and of the machine's transitions, whatever
//! the program.
use vstd::prelude::*;
use crate::ast::{Block, FunctionCall};
use crate::env::{
    chain_rank, fill, find_local, frame_ok, frames_ok, lemma_find_local_in_bounds,
    lemma_slot_of_in_bounds, slot_of, EnvView, FrameView,
};
use crate::host::{ActionView, Reply};
use crate::interp::{Control, Kont, State};
use crate::semantics::Host;
use crate::value::{
    chain_ok, is_nan, number_eq, number_le, number_lt, number_neg, Chain, Error, Function, Value,
    ValueList,
};

verus! {

/// `Nil`, `true` and `false` are written as exactly those words.
pub proof fn lemma_tokens()
    ensures
        Value::Nil.text() == seq!['n', 'i', 'l'],
        Value::Bool(true).text() == seq!['t', 'r', 'u', 'e'],
        Value::Bool(false).text() == seq!['f', 'a', 'l', 's', 'e'],
{
    reveal_strlit("nil");
    reveal_strlit("true");
    reveal_strlit("false");
    assert(Value::Nil.text() =~= seq!['n', 'i', 'l']);
    assert(Value::Bool(true).text() =~= seq!['t', 'r', 'u', 'e']);
    assert(Value::Bool(false).text() =~= seq!['f', 'a', 'l', 's', 'e']);
}

/// Where a name resolves to along a chain depends on the names and the
/// links of the frames only, not on what the slots hold.
pub proof fn lemma_find_local_same_shape(
    a: Seq<FrameView>,
    b: Seq<FrameView>,
    chain: Chain,
    name: Seq<char>,
)
    requires
        a.len() == b.len(),
        forall|k: int|
            0 <= k < a.len() ==> (#[trigger] a[k]).names == b[k].names && a[k].parent
                == b[k].parent,
    ensures
        find_local(a, chain, name) == find_local(b, chain, name),
    decreases chain_rank(chain),
{
    if let Some(i) = chain {
        if i < a.len() {
            assert(a[i as int].names == b[i as int].names);
            if slot_of(a[i as int].names, name) is None && chain_rank(a[i as int].parent)
                < chain_rank(chain) {
                lemma_find_local_same_shape(a, b, a[i as int].parent, name);
            }
        }
    }
}

/// A frame added to the arena changes nothing along a chain that was there
/// before.
pub proof fn lemma_find_local_push(
    frames: Seq<FrameView>,
    f: FrameView,
    chain: Chain,
    name: Seq<char>,
)
    requires
        frames_ok(frames),
        chain_ok(chain, frames.len()),
    ensures
        find_local(frames.push(f), chain, name) == find_local(frames, chain, name),
    decreases chain_rank(chain),
{
    if let Some(i) = chain {
        assert(frames.push(f)[i as int] == frames[i as int]);
        assert(frame_ok(frames[i as int], i as int, frames.len()));
        if slot_of(frames[i as int].names, name) is None {
            lemma_find_local_push(frames, f, frames[i as int].parent, name);
        }
    }
}

/// An assignment is seen through every chain that resolves the name to the
/// same binding: a closure that captured the frame reads the new value.
pub proof fn lemma_assignment_is_shared(env: EnvView, other: Chain, name: String, v: Value)
    requires
        env.wf(),
        chain_ok(other, env.frames.len()),
        find_local(env.frames, other, name@) == find_local(env.frames, env.locals, name@),
    ensures
        env.set(name, v).enter(other).lookup(name) == Ok::<Value, Error>(v),
{
    lemma_find_local_in_bounds(env.frames, env.locals, name@);
    lemma_find_local_same_shape(env.frames, env.set(name, v).frames, other, name@);
}

/// An assignment to one name leaves every other name as it was.
pub proof fn lemma_assignment_keeps_other_names(
    env: EnvView,
    name: String,
    v: Value,
    other: String,
)
    requires
        env.wf(),
        other@ != name@,
    ensures
        env.set(name, v).lookup(other) == env.lookup(other),
{
    lemma_find_local_in_bounds(env.frames, env.locals, name@);
    lemma_find_local_in_bounds(env.frames, env.locals, other@);
    lemma_find_local_same_shape(env.frames, env.set(name, v).frames, env.locals, other@);
    if let Some((i, j)) = find_local(env.frames, env.locals, name@) {
        lemma_find_local_slot(env.frames, env.locals, name@);
        lemma_find_local_slot(env.frames, env.locals, other@);
    }
}

/// The slot that a name resolves to holds that name.
pub proof fn lemma_find_local_slot(frames: Seq<FrameView>, chain: Chain, name: Seq<char>)
    requires
        frames_ok(frames),
        chain_ok(chain, frames.len()),
    ensures
        find_local(frames, chain, name) matches Some((i, j)) ==> 0 <= i < frames.len() && 0 <= j
            < frames[i].names.len() && frames[i].names[j]@ == name,
    decreases chain_rank(chain),
{
    if let Some(i) = chain {
        lemma_slot_of_in_bounds(frames[i as int].names, name);
        assert(frame_ok(frames[i as int], i as int, frames.len()));
        if slot_of(frames[i as int].names, name) is None {
            lemma_find_local_slot(frames, frames[i as int].parent, name);
        }
    }
}

/// Lexical resolution: under a new frame, a name of the frame resolves to
/// its slot, the last of that name, and shadows whatever lies below; any
/// other name resolves as it does along the chain that the frame was put
/// on.
pub proof fn lemma_new_frame_resolves(
    env: EnvView,
    parent: Chain,
    names: Seq<String>,
    values: Seq<Value>,
    name: String,
)
    requires
        env.wf(),
        chain_ok(parent, env.frames.len()),
        env.frames.len() <= usize::MAX,
    ensures
        env.extend(parent, names, values).enter(Some(env.frames.len() as usize)).lookup(name)
            == match slot_of(names, name@) {
            Some(j) => Ok::<Value, Error>(fill(names.len(), values)[j]),
            None => env.enter(parent).lookup(name),
        },
{
    let f = FrameView { names, slots: fill(names.len(), values), parent };
    let after = env.extend(parent, names, values).enter(Some(env.frames.len() as usize));
    lemma_slot_of_in_bounds(names, name@);
    lemma_find_local_push(env.frames, f, parent, name@);
    lemma_find_local_in_bounds(env.frames, parent, name@);
    assert(after.frames[env.frames.len() as int] == f);
    if slot_of(names, name@) is None {
        if let Some((i, j)) = find_local(env.frames, parent, name@) {
            assert(after.frames[i] == env.frames[i]);
        }
    }
}

/// Every name that a block declares is bound to `Nil` when its statements
/// start.
pub proof fn lemma_block_locals_are_nil(s: State, b: &Block, name: String)
    requires
        s.wf(),
        s.env.frames.len() <= usize::MAX,
        exists|j: int| 0 <= j < b.locals@.len() && b.locals@[j]@ == name@,
    ensures
        s.block(b).env.lookup(name) == Ok::<Value, Error>(Value::Nil),
{
    lemma_new_frame_resolves(s.env, s.env.locals, b.locals@, Seq::empty(), name);
    lemma_slot_of_in_bounds(b.locals@, name@);
}

/// A call is scoped by where the function was written: in the body of a
/// closure a parameter resolves to its argument, `Nil` where there is
/// none, and any other name resolves along the chain that the closure
/// captured, whatever the caller's chain is.
pub proof fn lemma_call_is_lexical(
    s: State,
    params: &Vec<String>,
    captured: Chain,
    body: &Block,
    args: ValueList,
    name: String,
)
    requires
        s.wf(),
        chain_ok(captured, s.env.frames.len()),
        s.env.frames.len() <= usize::MAX,
    ensures
        s.invoke(Function::Closure(params, captured, body), args).control == Control::Block(body),
        s.invoke(Function::Closure(params, captured, body), args).env.lookup(name)
            == match slot_of(params@, name@) {
            Some(j) => Ok::<Value, Error>(fill(params@.len(), args.in_order())[j]),
            None => s.env.enter(captured).lookup(name),
        },
{
    lemma_new_frame_resolves(s.env, captured, params@, args.in_order(), name);
}

/// A callee that is no function ends the program with `NotCallable` and
/// that value.
pub proof fn lemma_callee_must_be_function(s: State, c: &FunctionCall, v: Value, reply: Reply)
    requires
        s.control == Control::Return(v),
        s.kont.len() > 0,
        s.kont.last() == Kont::Callee(c),
        !(v is Function),
    ensures
        s.step(reply).0.control == Control::Failed(Error::NotCallable(v)),
        s.step(reply).1 == ActionView::Fail(Error::NotCallable(v)),
{
}

/// A call used as a statement goes on where its value is `Nil`, and ends
/// the program with `NonNilDiscarded` and the value where it is not.
pub proof fn lemma_statement_call_yields_nil(s: State, v: Value, reply: Reply)
    requires
        s.control == Control::Return(v),
        s.kont.len() > 0,
        s.kont.last() == Kont::<'_>::Discard,
    ensures
        v is Nil ==> s.step(reply).0.control == Control::Return(Value::Nil) && s.step(reply).1
            == ActionView::<'_>::Continue,
        !(v is Nil) ==> s.step(reply).0.control == Control::Failed(Error::NonNilDiscarded(v))
            && s.step(reply).1 == ActionView::Fail(Error::NonNilDiscarded(v)),
{
}

/// A machine that has ended stays where it is and says so again.
pub proof fn lemma_end_is_final(s: State, reply: Reply)
    ensures
        s.control matches Control::Done(v) ==> s.step(reply) == (s, ActionView::Done(v)),
        s.control matches Control::Failed(e) ==> s.step(reply) == (s, ActionView::Fail(e)),
{
}

/// Two numbers of which none is a NaN stand in exactly one of the three
/// orders, and `<=` is `<` or `==`.
pub proof fn lemma_numbers_are_ordered(a: u64, b: u64)
    requires
        !is_nan(a),
        !is_nan(b),
    ensures
        number_lt(a, b) || number_eq(a, b) || number_lt(b, a),
        !(number_lt(a, b) && number_eq(a, b)),
        !(number_lt(a, b) && number_lt(b, a)),
        number_le(a, b) == (number_lt(a, b) || number_eq(a, b)),
        !number_le(a, b) == number_lt(b, a),
{
}

/// A NaN is neither below, nor equal to, nor above any number, itself
/// included; so `>` and `>=`, the negations of `<=` and `<`, hold of it.
pub proof fn lemma_nan_is_unordered(a: u64, b: u64)
    requires
        is_nan(a) || is_nan(b),
    ensures
        !number_lt(a, b),
        !number_le(a, b),
        !number_eq(a, b),
{
}

/// Negating twice gives the number back, and negation turns the order
/// round.
pub proof fn lemma_negation(a: u64, b: u64)
    ensures
        number_neg(number_neg(a)) == a,
        is_nan(number_neg(a)) == is_nan(a),
        number_lt(number_neg(a), number_neg(b)) == number_lt(b, a),
        number_eq(number_neg(a), number_neg(b)) == number_eq(a, b),
{
}

/// The line of rendered values that were put in front of others: the
/// line of the first, a tab, and the line of the others.
pub proof fn lemma_rendered_line(h: Host, pending: ValueList, done: ValueList)
    ensures
        h.rendered(pending, done).line() == if pending is Empty {
            done.line()
        } else if done is Empty {
            h.line(pending)
        } else {
            h.line(pending) + "\t"@ + done.line()
        },
    decreases pending,
{
    if let ValueList::Cons(v, rest) = pending {
        let one = ValueList::Cons(h.render(v), Box::new(ValueList::Empty));
        let more = ValueList::Cons(h.render(v), Box::new(done));
        lemma_rendered_line(h, *rest, one);
        lemma_rendered_line(h, *rest, more);
        if !(*rest is Empty) && !(done is Empty) {
            assert(h.line(*rest) + "\t"@ + (h.render(v).text() + "\t"@ + done.line()) =~= (h.line(
                *rest,
            ) + "\t"@ + h.render(v).text()) + "\t"@ + done.line());
        }
    }
}

/// What `print` writes: nothing for no argument, the text of the argument
/// for one, and for each further argument a tab and its text at the end
/// of the line. The text of a number is that of the host.
pub proof fn lemma_print_line(h: Host, args: ValueList, last: Value)
    ensures
        h.line(ValueList::Empty) == Seq::<char>::empty(),
        h.line(ValueList::Cons(last, Box::new(args))) == if args is Empty {
            h.render(last).text()
        } else {
            h.line(args) + "\t"@ + h.render(last).text()
        },
        h.render(last).text() == match last {
            Value::Number(bits) => (h.text)(bits)@,
            _ => last.text(),
        },
{
    lemma_rendered_line(h, args, ValueList::Cons(h.render(last), Box::new(ValueList::Empty)));
}

} // verus!

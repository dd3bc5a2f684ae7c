//! What passes between the evaluator and its host.
use vstd::prelude::*;
use crate::value::{Error, Value};

verus! {

/// Work on numbers that the evaluator leaves to the host. Every number is
/// the bit pattern of an IEEE-754 double.
#[derive(Debug, Clone, Copy)]
pub enum Request {
    /// The rounded sum of the two numbers.
    Add(u64, u64),
    /// The rounded difference, first minus second.
    Sub(u64, u64),
    /// The rounded product.
    Mul(u64, u64),
    /// The decimal text of the number.
    Text(u64),
}

/// The host's answer to the last action.
#[derive(Debug)]
pub enum Reply {
    /// Nothing was asked.
    Nothing,
    /// The number that an arithmetic request asked for.
    Number(u64),
    /// The text that a text request asked for.
    Text(String),
}

/// What the host has to do after a step.
#[derive(Debug)]
pub enum Action<'ast> {
    /// Step again.
    Continue,
    /// Compute this and hand the answer to the next step.
    Ask(Request),
    /// Write this line, followed by a newline, to standard output.
    Print(String),
    /// The program has run to its end with this value.
    Done(Value<'ast>),
    /// The program has failed; there is no recovery.
    Fail(Error<'ast>),
}

/// An [`Action`] with its text taken as a sequence of characters.
pub enum ActionView<'ast> {
    Continue,
    Ask(Request),
    Print(Seq<char>),
    Done(Value<'ast>),
    Fail(Error<'ast>),
}

impl<'ast> View for Action<'ast> {
    type V = ActionView<'ast>;

    open spec fn view(&self) -> ActionView<'ast> {
        match *self {
            Action::Continue => ActionView::Continue,
            Action::Ask(r) => ActionView::Ask(r),
            Action::Print(line) => ActionView::Print(line@),
            Action::Done(v) => ActionView::Done(v),
            Action::Fail(e) => ActionView::Fail(e),
        }
    }
}

} // verus!

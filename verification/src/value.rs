//! Runtime values and their primitive operations.
use vstd::prelude::*;
use crate::ast::Block;
use crate::host::Request;

verus! {

/// A handle on a chain of local frames: `None` is the empty chain, `Some(i)`
/// is frame `i` of the arena together with everything that it links to.
pub type Chain = Option<usize>;

/// A callable value.
#[derive(Debug, Clone, Copy)]
pub enum Function<'ast> {
    /// The built-in print routine.
    Print,
    /// A user function: parameter names, the local chain that was current
    /// where the literal was evaluated, and the body.
    Closure(&'ast Vec<String>, Chain, &'ast Block),
}

/// A runtime value. A number is the bit pattern of an IEEE-754 double.
#[derive(Debug)]
pub enum Value<'ast> {
    Nil,
    Bool(bool),
    Number(u64),
    String(String),
    Function(Function<'ast>),
}

/// Why a program stopped. Every error ends the whole evaluation.
#[derive(Debug)]
pub enum Error<'ast> {
    /// An operand of the wrong variant.
    TypeError,
    /// The name is bound neither in the local chain nor in the global table.
    UndefinedVariable(String),
    /// The callee of a call is this value, which is no function.
    NotCallable(Value<'ast>),
    /// A call used as a statement returned this value, which is not `Nil`.
    NonNilDiscarded(Value<'ast>),
    /// Table construction or indexed access.
    Unsupported,
}

/// Values in a row, the most recent first.
#[derive(Debug)]
pub enum ValueList<'ast> {
    Empty,
    Cons(Value<'ast>, Box<ValueList<'ast>>),
}

/// Whether a chain handle points into an arena of `n` frames.
pub open spec fn chain_ok(c: Chain, n: nat) -> bool {
    c matches Some(i) ==> i < n
}

/// Whether the chain that a value holds, if it is a closure, points into an
/// arena of `n` frames.
pub open spec fn value_ok(v: Value, n: nat) -> bool {
    v matches Value::Function(Function::Closure(_, c, _)) ==> chain_ok(c, n)
}

/// The sign bit of a double.
pub const SIGN_BIT: u64 = 0x8000_0000_0000_0000;

/// The bits of positive infinity: every larger magnitude is a NaN.
pub const INFINITY_BITS: u64 = 0x7ff0_0000_0000_0000;

/// The bits without the sign.
pub open spec fn magnitude(bits: u64) -> int {
    if bits >= SIGN_BIT {
        bits - SIGN_BIT
    } else {
        bits as int
    }
}

/// Whether the bits are those of a NaN.
pub open spec fn is_nan(bits: u64) -> bool {
    magnitude(bits) > INFINITY_BITS
}

/// The place of a number that is no NaN on the number line: doubles with
/// the same sign are ordered as their magnitudes are, and the two zeros
/// share one place.
pub open spec fn rank(bits: u64) -> int {
    if bits >= SIGN_BIT {
        -magnitude(bits)
    } else {
        magnitude(bits)
    }
}

/// IEEE-754 equality: a NaN equals nothing, the two zeros are equal.
pub open spec fn number_eq(a: u64, b: u64) -> bool {
    !is_nan(a) && !is_nan(b) && rank(a) == rank(b)
}

/// IEEE-754 `<`: false as soon as one side is a NaN.
pub open spec fn number_lt(a: u64, b: u64) -> bool {
    !is_nan(a) && !is_nan(b) && rank(a) < rank(b)
}

/// IEEE-754 `<=`: false as soon as one side is a NaN.
pub open spec fn number_le(a: u64, b: u64) -> bool {
    !is_nan(a) && !is_nan(b) && rank(a) <= rank(b)
}

/// IEEE-754 negation: the same bits with the sign flipped.
pub open spec fn number_neg(a: u64) -> u64 {
    if a >= SIGN_BIT {
        (a - SIGN_BIT) as u64
    } else {
        (a + SIGN_BIT) as u64
    }
}

/// The magnitude and the sign of a double.
fn split(bits: u64) -> (r: (u64, bool))
    ensures
        r.0 == magnitude(bits),
        r.1 == (bits >= SIGN_BIT),
{
    if bits >= SIGN_BIT {
        (bits - SIGN_BIT, true)
    } else {
        (bits, false)
    }
}

/// Compares two doubles as IEEE-754 `==` does.
pub fn num_eq(a: u64, b: u64) -> (r: bool)
    ensures
        r == number_eq(a, b),
{
    let (ma, na) = split(a);
    let (mb, nb) = split(b);
    if ma > INFINITY_BITS || mb > INFINITY_BITS {
        false
    } else if na == nb {
        ma == mb
    } else {
        ma == 0 && mb == 0
    }
}

/// Compares two doubles as IEEE-754 `<` does.
pub fn num_lt(a: u64, b: u64) -> (r: bool)
    ensures
        r == number_lt(a, b),
{
    let (ma, na) = split(a);
    let (mb, nb) = split(b);
    if ma > INFINITY_BITS || mb > INFINITY_BITS {
        false
    } else if na {
        if nb {
            mb < ma
        } else {
            ma != 0 || mb != 0
        }
    } else {
        !nb && ma < mb
    }
}

/// Compares two doubles as IEEE-754 `<=` does.
pub fn num_le(a: u64, b: u64) -> (r: bool)
    ensures
        r == number_le(a, b),
{
    let (ma, na) = split(a);
    let (mb, nb) = split(b);
    if ma > INFINITY_BITS || mb > INFINITY_BITS {
        false
    } else if na {
        !nb || mb <= ma
    } else if nb {
        ma == 0 && mb == 0
    } else {
        ma <= mb
    }
}

/// Negates a double.
pub fn num_neg(a: u64) -> (r: u64)
    ensures
        r == number_neg(a),
{
    if a >= SIGN_BIT {
        a - SIGN_BIT
    } else {
        a + SIGN_BIT
    }
}

impl<'ast> Clone for Value<'ast> {
    fn clone(&self) -> (r: Self)
        ensures
            r == *self,
    {
        match self {
            Value::Nil => Value::Nil,
            Value::Bool(b) => Value::Bool(*b),
            Value::Number(n) => Value::Number(*n),
            Value::String(s) => Value::String(s.clone()),
            Value::Function(f) => Value::Function(*f),
        }
    }
}

impl<'ast> Value<'ast> {
    /// Equality of the language: values of different variants are never
    /// equal, numbers compare as doubles, strings by content. The built-in is
    /// equal to itself; a closure is equal to nothing.
    pub open spec fn equals(self, other: Value<'ast>) -> bool {
        match (self, other) {
            (Value::Nil, Value::Nil) => true,
            (Value::Bool(a), Value::Bool(b)) => a == b,
            (Value::Number(a), Value::Number(b)) => number_eq(a, b),
            (Value::String(a), Value::String(b)) => a@ == b@,
            (Value::Function(Function::Print), Value::Function(Function::Print)) => true,
            _ => false,
        }
    }

    /// What `<` yields: numbers are ordered as doubles, anything else is a
    /// type error.
    pub open spec fn less(self, other: Value<'ast>) -> Result<bool, Error<'ast>> {
        match (self, other) {
            (Value::Number(a), Value::Number(b)) => Ok(number_lt(a, b)),
            _ => Err(Error::TypeError),
        }
    }

    /// What `<=` yields.
    pub open spec fn less_eq(self, other: Value<'ast>) -> Result<bool, Error<'ast>> {
        match (self, other) {
            (Value::Number(a), Value::Number(b)) => Ok(number_le(a, b)),
            _ => Err(Error::TypeError),
        }
    }

    /// The boolean that a condition or a logical operand stands for: only a
    /// `Bool` has one.
    pub open spec fn truth(self) -> Result<bool, Error<'ast>> {
        match self {
            Value::Bool(b) => Ok(b),
            _ => Err(Error::TypeError),
        }
    }

    /// What unary minus yields.
    pub open spec fn negated(self) -> Result<Value<'ast>, Error<'ast>> {
        match self {
            Value::Number(a) => Ok(Value::Number(number_neg(a))),
            _ => Err(Error::TypeError),
        }
    }

    /// The two numbers of an arithmetic operation, where both operands are
    /// numbers.
    pub open spec fn operands(self, other: Value<'ast>) -> Result<(u64, u64), Error<'ast>> {
        match (self, other) {
            (Value::Number(a), Value::Number(b)) => Ok((a, b)),
            _ => Err(Error::TypeError),
        }
    }

    /// The text that `print` writes for a value. The text of a number is the
    /// host's to make: here it is empty.
    pub open spec fn text(self) -> Seq<char> {
        match self {
            Value::Nil => "nil"@,
            Value::Bool(true) => "true"@,
            Value::Bool(false) => "false"@,
            Value::Number(_) => Seq::empty(),
            Value::String(s) => s@,
            Value::Function(_) => "<function>"@,
        }
    }

    /// Language equality.
    pub fn eq(&self, other: &Value<'ast>) -> (r: bool)
        ensures
            r == self.equals(*other),
    {
        match (self, other) {
            (Value::Nil, Value::Nil) => true,
            (Value::Bool(a), Value::Bool(b)) => *a == *b,
            (Value::Number(a), Value::Number(b)) => num_eq(*a, *b),
            (Value::String(a), Value::String(b)) => *a == *b,
            (Value::Function(Function::Print), Value::Function(Function::Print)) => true,
            _ => false,
        }
    }

    /// Language inequality: the negation of [`Value::eq`].
    pub fn ne(&self, other: &Value<'ast>) -> (r: bool)
        ensures
            r == !self.equals(*other),
    {
        !self.eq(other)
    }

    /// `self < other`, for two numbers.
    pub fn lt(&self, other: &Value<'ast>) -> (r: Result<bool, Error<'ast>>)
        ensures
            r == self.less(*other),
    {
        match (self, other) {
            (Value::Number(a), Value::Number(b)) => Ok(num_lt(*a, *b)),
            _ => Err(Error::TypeError),
        }
    }

    /// `self <= other`, for two numbers.
    pub fn le(&self, other: &Value<'ast>) -> (r: Result<bool, Error<'ast>>)
        ensures
            r == self.less_eq(*other),
    {
        match (self, other) {
            (Value::Number(a), Value::Number(b)) => Ok(num_le(*a, *b)),
            _ => Err(Error::TypeError),
        }
    }

    /// Strict coercion to a boolean.
    pub fn as_bool(&self) -> (r: Result<bool, Error<'ast>>)
        ensures
            r == self.truth(),
    {
        match self {
            Value::Bool(b) => Ok(*b),
            _ => Err(Error::TypeError),
        }
    }

    /// Unary minus.
    pub fn neg(&self) -> (r: Result<Value<'ast>, Error<'ast>>)
        ensures
            r == self.negated(),
    {
        match self {
            Value::Number(a) => Ok(Value::Number(num_neg(*a))),
            _ => Err(Error::TypeError),
        }
    }

    /// Addition: the sum to ask the host for, or a type error.
    pub fn add(&self, other: &Value<'ast>) -> (r: Result<Request, Error<'ast>>)
        ensures
            r == match self.operands(*other) {
                Ok((a, b)) => Ok(Request::Add(a, b)),
                Err(e) => Err(e),
            },
    {
        match (self, other) {
            (Value::Number(a), Value::Number(b)) => Ok(Request::Add(*a, *b)),
            _ => Err(Error::TypeError),
        }
    }

    /// Subtraction: the difference to ask the host for, or a type error.
    pub fn sub(&self, other: &Value<'ast>) -> (r: Result<Request, Error<'ast>>)
        ensures
            r == match self.operands(*other) {
                Ok((a, b)) => Ok(Request::Sub(a, b)),
                Err(e) => Err(e),
            },
    {
        match (self, other) {
            (Value::Number(a), Value::Number(b)) => Ok(Request::Sub(*a, *b)),
            _ => Err(Error::TypeError),
        }
    }

    /// Multiplication: the product to ask the host for, or a type error.
    pub fn mul(&self, other: &Value<'ast>) -> (r: Result<Request, Error<'ast>>)
        ensures
            r == match self.operands(*other) {
                Ok((a, b)) => Ok(Request::Mul(a, b)),
                Err(e) => Err(e),
            },
    {
        match (self, other) {
            (Value::Number(a), Value::Number(b)) => Ok(Request::Mul(*a, *b)),
            _ => Err(Error::TypeError),
        }
    }

    /// The text of a value that is no number; `None` for a number, whose
    /// text the host makes.
    pub fn display(&self) -> (r: Option<String>)
        ensures
            r is None <==> *self is Number,
            r matches Some(s) ==> s@ == self.text(),
    {
        match self {
            Value::Nil => Some("nil".to_owned()),
            Value::Bool(true) => Some("true".to_owned()),
            Value::Bool(false) => Some("false".to_owned()),
            Value::Number(_) => None,
            Value::String(s) => Some(s.clone()),
            Value::Function(_) => Some("<function>".to_owned()),
        }
    }
}

impl<'ast> Clone for Error<'ast> {
    fn clone(&self) -> (r: Self)
        ensures
            r == *self,
    {
        match self {
            Error::TypeError => Error::TypeError,
            Error::UndefinedVariable(name) => Error::UndefinedVariable(name.clone()),
            Error::NotCallable(v) => Error::NotCallable(v.clone()),
            Error::NonNilDiscarded(v) => Error::NonNilDiscarded(v.clone()),
            Error::Unsupported => Error::Unsupported,
        }
    }
}

/// Whether every chain held in an error's value points into an arena of
/// `n` frames.
pub open spec fn error_ok(e: Error, n: nat) -> bool {
    match e {
        Error::NotCallable(v) => value_ok(v, n),
        Error::NonNilDiscarded(v) => value_ok(v, n),
        _ => true,
    }
}

/// Whether every chain held in the list points into an arena of `n` frames.
pub open spec fn list_ok(l: ValueList, n: nat) -> bool
    decreases l,
{
    match l {
        ValueList::Empty => true,
        ValueList::Cons(v, rest) => value_ok(v, n) && list_ok(*rest, n),
    }
}

/// A list that points into an arena still does when the arena has grown.
pub proof fn lemma_list_grow(l: ValueList, n: nat, m: nat)
    requires
        list_ok(l, n),
        n <= m,
    ensures
        list_ok(l, m),
    decreases l,
{
    if let ValueList::Cons(_, rest) = l {
        lemma_list_grow(*rest, n, m);
    }
}

/// What holds of a list holds of each value of it.
pub proof fn lemma_list_values(l: ValueList, n: nat)
    requires
        list_ok(l, n),
    ensures
        forall|j: int| 0 <= j < l.in_order().len() ==> value_ok(#[trigger] l.in_order()[j], n),
    decreases l,
{
    if let ValueList::Cons(v, rest) = l {
        lemma_list_values(*rest, n);
        assert forall|j: int| 0 <= j < l.in_order().len() implies value_ok(
            #[trigger] l.in_order()[j],
            n,
        ) by {
            if j < rest.in_order().len() {
                assert(l.in_order()[j] == rest.in_order()[j]);
            } else {
                assert(l.in_order()[j] == v);
            }
        }
    }
}

impl<'ast> ValueList<'ast> {
    /// The values from the oldest to the most recent.
    pub open spec fn in_order(self) -> Seq<Value<'ast>>
        decreases self,
    {
        match self {
            ValueList::Empty => Seq::empty(),
            ValueList::Cons(v, rest) => rest.in_order().push(v),
        }
    }

    /// The texts of the values from the head on, with a tab between each
    /// two.
    pub open spec fn line(self) -> Seq<char>
        decreases self,
    {
        match self {
            ValueList::Empty => Seq::empty(),
            ValueList::Cons(v, rest) => if *rest is Empty {
                v.text()
            } else {
                v.text() + "\t"@ + rest.line()
            },
        }
    }

    /// The values from the oldest to the most recent.
    pub fn into_vec(self) -> (r: Vec<Value<'ast>>)
        ensures
            r@ == self.in_order(),
        decreases self,
    {
        match self {
            ValueList::Empty => Vec::new(),
            ValueList::Cons(v, rest) => {
                let mut r = (*rest).into_vec();
                r.push(v);
                r
            },
        }
    }

    /// One line of output: the texts of the values from the head on, with a
    /// tab between each two.
    pub fn joined(&self) -> (r: String)
        ensures
            r@ == self.line(),
        decreases self,
    {
        match self {
            ValueList::Empty => String::new(),
            ValueList::Cons(v, rest) => {
                let mut out = match v.display() {
                    Some(s) => s,
                    None => String::new(),
                };
                match &**rest {
                    ValueList::Empty => out,
                    _ => {
                        let tail = rest.joined();
                        out.append("\t");
                        out.append(tail.as_str());
                        out
                    },
                }
            },
        }
    }
}

} // verus!

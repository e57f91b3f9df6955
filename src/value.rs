//! Runtime values and evaluation errors.
use vstd::prelude::*;
use crate::ast::{AstView, AST, names_view, copy_names};

verus! {

/// A runtime value as a mathematical value.
pub enum ValueView {
    Number(int),
    Str(Seq<char>),
    Option(Option<Box<ValueView>>),
    List(Seq<ValueView>),
    Function { params: Seq<Seq<char>>, body: AstView },
    Native { params: Seq<Seq<char>>, key: Seq<char> },
}

/// A runtime value.
///
/// `RustFunction` stands for a natively implemented function; `body` is the
/// key under which the host runs it.
#[derive(Debug)]
pub enum Value {
    Number(i64),
    String(String),
    Option(Option<Box<Value>>),
    List(Vec<Value>),
    Function { args: Vec<String>, body: Box<AST> },
    RustFunction { args: Vec<String>, body: String },
}

/// The views of a sequence of values.
pub open spec fn value_views(s: Seq<Value>) -> Seq<ValueView>
    decreases s,
{
    Seq::new(
        s.len(),
        |i: int|
            if 0 <= i < s.len() {
                value_view(s[i])
            } else {
                ValueView::Option(None)
            },
    )
}

pub open spec fn value_view(v: Value) -> ValueView
    decreases v,
{
    match v {
        Value::Number(n) => ValueView::Number(n as int),
        Value::String(s) => ValueView::Str(s@),
        Value::Option(o) => match o {
            Some(b) => ValueView::Option(Some(Box::new(value_view(*b)))),
            None => ValueView::Option(None),
        },
        Value::List(l) => ValueView::List(value_views(l@)),
        Value::Function { args, body } => ValueView::Function {
            params: names_view(args@),
            body: body@,
        },
        Value::RustFunction { args, body } => ValueView::Native {
            params: names_view(args@),
            key: body@,
        },
    }
}

impl View for Value {
    type V = ValueView;

    open spec fn view(&self) -> ValueView {
        value_view(*self)
    }
}

/// The "no value" result of definitions, comments and empty blocks.
pub open spec fn absent() -> ValueView {
    ValueView::Option(None)
}

proof fn lemma_list_views(a: Vec<Value>, b: Vec<Value>)
    requires
        a@.len() == b@.len(),
        forall|i: int| 0 <= i < a@.len() ==> #[trigger] a@[i]@ == b@[i]@,
    ensures
        value_view(Value::List(a)) == value_view(Value::List(b)),
{
    assert forall|i: int| 0 <= i < a@.len() implies value_view(a@[i]) == value_view(b@[i]) by {
        assert(a@[i]@ == b@[i]@);
    }
    assert(value_views(a@) =~= value_views(b@));
}

/// Pushing a value adds its view.
pub proof fn lemma_value_views_push(s: Seq<Value>, v: Value)
    ensures
        value_views(s.push(v)) == value_views(s).push(v@),
{
    assert(value_views(s.push(v)) =~= value_views(s).push(v@));
}

impl Value {
    /// The absent value.
    pub fn none() -> (r: Value)
        ensures
            r@ == absent(),
    {
        Value::Option(None)
    }

    /// A copy of this value.
    pub fn duplicate(&self) -> (r: Value)
        ensures
            r@ == self@,
        decreases self,
    {
        match self {
            Value::Number(n) => Value::Number(*n),
            Value::String(s) => Value::String(s.clone()),
            Value::Option(o) => match o {
                Some(b) => Value::Option(Some(Box::new(b.duplicate()))),
                None => Value::Option(None),
            },
            Value::List(l) => {
                let out = copy_values(l);
                proof {
                    lemma_list_views(out, *l);
                }
                Value::List(out)
            },
            Value::Function { args, body } => Value::Function {
                args: copy_names(args),
                body: Box::new(body.duplicate()),
            },
            Value::RustFunction { args, body } => Value::RustFunction {
                args: copy_names(args),
                body: body.clone(),
            },
        }
    }
}

/// A copy of a list of values.
pub fn copy_values(items: &Vec<Value>) -> (r: Vec<Value>)
    ensures
        r@.len() == items@.len(),
        forall|i: int| 0 <= i < items@.len() ==> #[trigger] r@[i]@ == items@[i]@,
    decreases items,
{
    let mut out: Vec<Value> = Vec::new();
    let mut i: usize = 0;
    while i < items.len()
        invariant
            i <= items@.len(),
            out@.len() == i,
            forall|j: int| 0 <= j < i ==> #[trigger] out@[j]@ == items@[j]@,
        decreases items@.len() - i,
    {
        out.push(items[i].duplicate());
        i = i + 1;
    }
    out
}

/// Why evaluation stopped.
#[derive(Debug, Clone, PartialEq, Eq)]
pub enum ExecError {
    /// An identifier, or the target of an assignment, is bound in no frame.
    UndefinedVariable(String),
    /// A called name is bound in no frame.
    UndefinedFunction(String),
    /// A called name is bound to something that is not a function.
    NotCallable(String),
    /// A call passes more arguments than the function declares.
    TooManyArguments(String),
    /// `+` on operands that are not both numbers or both strings.
    CannotAdd,
    /// `-` on operands that are not both numbers.
    CannotSubtract,
    /// Unary `+` or `-` on something that is not a number.
    CannotNegate,
    /// The result of an arithmetic operation does not fit in 64 bits.
    Overflow,
    /// A multiplication, a division or a parenthesized group: these are
    /// parsed but have no evaluation.
    Unevaluated,
    /// Calls nested deeper than the evaluator allows.
    TooDeep,
    /// A native function left the frame stack at another depth.
    FrameStackChanged,
}

} // verus!

verus! {

/// An evaluation error as a mathematical value.
pub enum ErrorView {
    UndefinedVariable(Seq<char>),
    UndefinedFunction(Seq<char>),
    NotCallable(Seq<char>),
    TooManyArguments(Seq<char>),
    CannotAdd,
    CannotSubtract,
    CannotNegate,
    Overflow,
    Unevaluated,
    TooDeep,
    FrameStackChanged,
}

impl View for ExecError {
    type V = ErrorView;

    open spec fn view(&self) -> ErrorView {
        match self {
            ExecError::UndefinedVariable(n) => ErrorView::UndefinedVariable(n@),
            ExecError::UndefinedFunction(n) => ErrorView::UndefinedFunction(n@),
            ExecError::NotCallable(n) => ErrorView::NotCallable(n@),
            ExecError::TooManyArguments(n) => ErrorView::TooManyArguments(n@),
            ExecError::CannotAdd => ErrorView::CannotAdd,
            ExecError::CannotSubtract => ErrorView::CannotSubtract,
            ExecError::CannotNegate => ErrorView::CannotNegate,
            ExecError::Overflow => ErrorView::Overflow,
            ExecError::Unevaluated => ErrorView::Unevaluated,
            ExecError::TooDeep => ErrorView::TooDeep,
            ExecError::FrameStackChanged => ErrorView::FrameStackChanged,
        }
    }
}

} // verus!

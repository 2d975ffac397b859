//! The facts name resolution records about a source file, as later passes
//! look them up by source range: resolved symbols, local bindings, calls and
//! callbacks.

use crate::ast::Span;
use crate::interop::model::{CallStyle, Receiver, TypeRef};
use vstd::prelude::*;

verus! {

/// A resolved parameter.
pub struct ParameterSymbol {
    /// Declared type.
    pub ty: TypeRef,
}

/// The receiver of a resolved method.
pub struct ReceiverSymbol {
    /// Whether the method may mutate its receiver.
    pub mutable: bool,
}

/// A resolved function or method.
pub struct FunctionSymbol {
    /// Parameters in declaration order.
    pub parameters: Vec<ParameterSymbol>,
    /// Declared return type.
    pub return_type: TypeRef,
    /// The receiver, for a method.
    pub receiver: Option<ReceiverSymbol>,
}

/// A resolved constructor.
pub struct ConstructorSymbol {
    /// Parameters in declaration order.
    pub parameters: Vec<ParameterSymbol>,
}

/// A resolved local binding: a local, a loop variable or a caught exception.
pub struct BindingResolution {
    /// Source name.
    pub name: String,
    /// Declared type.
    pub ty: TypeRef,
    /// Range of the declaration.
    pub span: Span,
}

/// A resolved field access.
pub struct FieldResolution {
    /// Field names from the receiver to the accessed field.
    pub access_path: Vec<String>,
}

/// What an expression was resolved to.
pub struct ExpressionResolution {
    /// The expression's type.
    pub ty: TypeRef,
    /// The call the expression makes, for a call.
    pub call: Option<ResolvedCall>,
    /// The field it reads, for a field access of a declared structure.
    pub field: Option<FieldResolution>,
}

/// A resolved call.
pub struct ResolvedCall {
    /// What is called.
    pub target: CallTarget,
    /// The exception types the call may throw.
    pub throws: Vec<TypeRef>,
}

/// The callee of a resolved call.
pub enum CallTarget {
    /// An operation the compiler implements itself.
    Intrinsic(Intrinsic),
    /// A Stainless function, by id.
    Stainless(usize),
    /// A Stainless constructor, by id.
    Constructor(usize),
    /// A native Rust callable.
    Native(NativeCall),
}

/// A call of a native Rust callable.
pub struct NativeCall {
    /// How the call is written.
    pub style: CallStyle,
    /// The receiver mode, for a method.
    pub receiver: Option<Receiver>,
    /// Parameter types, receiver excluded.
    pub parameter_types: Vec<TypeRef>,
}

/// Operations the compiler implements itself.
pub enum Intrinsic {
    /// `std::move(binding)`.
    Move,
    /// `std::make_unique<T>(...)`, with the construction it performs.
    MakeUnique { construction: Box<ResolvedCall> },
    /// A call of a stored function value.
    StoredFunctionCall { mutable: bool },
    /// Unwrapping a native `Result`.
    UnwrapRustResult,
    /// A cast between primitive types.
    PrimitiveCast { target: TypeRef },
    /// A cast of a JSON value.
    JsonCast { target: TypeRef },
    /// Wrapping a value as JSON.
    JsonWrap,
    /// The root exception constructor of a structure, by id.
    ExceptionRoot { structure: usize },
    /// Value initialization of `target`.
    ValueInitialization { target: TypeRef },
    /// Aggregate initialization of a structure, by id.
    StructAggregate { structure: usize },
}

/// How a lambda captures a name.
#[derive(Clone, Copy, Debug, PartialEq, Eq, Structural)]
pub enum LambdaCaptureMode {
    /// By copy of a copyable value.
    Copy,
    /// By an initializer expression.
    Initialize,
    /// By reference.
    Borrow { mutable: bool },
}

/// A resolved lambda capture.
pub struct ResolvedLambdaCapture {
    /// Captured name.
    pub name: String,
    /// Capture mode.
    pub mode: LambdaCaptureMode,
}

/// What a callback argument refers to.
pub enum CallbackTarget {
    /// A Stainless function, by id.
    Function(usize),
    /// A lambda with its resolved captures, in source order.
    Lambda { captures: Vec<ResolvedLambdaCapture> },
}

/// A resolved callback argument.
pub struct CallbackResolution {
    /// The callback's type.
    pub ty: TypeRef,
    /// What it refers to.
    pub target: CallbackTarget,
}

/// The facts resolution recorded about one file.
pub struct SemanticModel {
    /// Functions by id.
    pub functions: Vec<FunctionSymbol>,
    /// Constructors by id.
    pub constructors: Vec<ConstructorSymbol>,
    /// The function id declared at each declaration range.
    pub function_declarations: Vec<(Span, usize)>,
    /// The constructor id declared at each declaration range.
    pub constructor_declarations: Vec<(Span, usize)>,
    /// Local bindings by declaration range.
    pub bindings: Vec<(Span, BindingResolution)>,
    /// Resolved expressions by range.
    pub expressions: Vec<(Span, ExpressionResolution)>,
    /// Implicit calls, such as a default construction, by range.
    pub calls: Vec<(Span, ResolvedCall)>,
    /// Callback arguments by range.
    pub callbacks: Vec<(Span, CallbackResolution)>,
    /// Ranges of expressions whose native `Result` is unwrapped in place.
    pub rust_result_adaptations: Vec<Span>,
}

/// The index of the first entry recorded for `span`.
pub open spec fn first_entry<T>(entries: Seq<(Span, T)>, span: Span) -> Option<int>
    decreases entries.len(),
{
    if entries.len() == 0 {
        None
    } else {
        match first_entry(entries.drop_last(), span) {
            Some(i) => Some(i),
            None => if entries.last().0 == span {
                Some(entries.len() - 1)
            } else {
                None
            },
        }
    }
}

/// The value of the first entry recorded for `span`.
pub open spec fn entry_for<T>(entries: Seq<(Span, T)>, span: Span) -> Option<T> {
    match first_entry(entries, span) {
        Some(i) => Some(entries[i].1),
        None => None,
    }
}

proof fn lemma_first_entry<T>(entries: Seq<(Span, T)>, span: Span, k: int)
    requires
        0 <= k <= entries.len(),
        forall|j: int| 0 <= j < k ==> (#[trigger] entries[j]).0 != span,
    ensures
        match first_entry(entries, span) {
            Some(i) => k <= i < entries.len() && entries[i].0 == span
                && forall|j: int| k <= j < i ==> (#[trigger] entries[j]).0 != span,
            None => forall|j: int| 0 <= j < entries.len() ==> (#[trigger] entries[j]).0 != span,
        },
    decreases entries.len(),
{
    if entries.len() > 0 {
        let prefix = entries.drop_last();
        if k == entries.len() {
            lemma_first_entry(prefix, span, k - 1);
        } else {
            lemma_first_entry(prefix, span, k);
        }
        match first_entry(prefix, span) {
            Some(i) => {
                assert(prefix[i] == entries[i]);
                assert forall|j: int| k <= j < i implies (#[trigger] entries[j]).0 != span by {
                    assert(prefix[j] == entries[j]);
                }
            },
            None => {
                assert forall|j: int| 0 <= j < entries.len() - 1 implies (#[trigger] entries[j]).0 != span by {
                    assert(prefix[j] == entries[j]);
                }
            },
        }
    }
}

/// Finds the index of the first entry recorded for `span`.
fn find_entry<T>(entries: &Vec<(Span, T)>, span: Span) -> (r: Option<usize>)
    ensures
        match r {
            Some(i) => i < entries@.len() && first_entry(entries@, span) == Some(i as int),
            None => first_entry(entries@, span) is None,
        },
{
    let mut i: usize = 0;
    while i < entries.len()
        invariant
            i <= entries@.len(),
            forall|j: int| 0 <= j < i ==> (#[trigger] entries@[j]).0 != span,
        decreases entries@.len() - i,
    {
        if entries[i].0.start == span.start && entries[i].0.end == span.end {
            proof {
                lemma_first_entry(entries@, span, i as int);
            }
            return Some(i);
        }
        i = i + 1;
    }
    proof {
        lemma_first_entry(entries@, span, i as int);
    }
    None
}

/// Looks up the value recorded for `span`.
pub(crate) fn entry_at<T>(entries: &Vec<(Span, T)>, span: Span) -> (r: Option<&T>)
    ensures
        match r {
            Some(v) => entry_for(entries@, span) == Some(*v),
            None => entry_for(entries@, span) is None,
        },
{
    match find_entry(entries, span) {
        Some(i) => Some(&entries[i].1),
        None => None,
    }
}

impl SemanticModel {
    /// The function with id `id`.
    pub fn function(&self, id: usize) -> (r: Option<&FunctionSymbol>)
        ensures
            match r {
                Some(f) => id < self.functions@.len() && *f == self.functions@[id as int],
                None => id >= self.functions@.len(),
            },
    {
        if id < self.functions.len() {
            Some(&self.functions[id])
        } else {
            None
        }
    }

    /// The constructor with id `id`.
    pub fn constructor(&self, id: usize) -> (r: Option<&ConstructorSymbol>)
        ensures
            match r {
                Some(c) => id < self.constructors@.len() && *c == self.constructors@[id as int],
                None => id >= self.constructors@.len(),
            },
    {
        if id < self.constructors.len() {
            Some(&self.constructors[id])
        } else {
            None
        }
    }

    /// The function declared at `span`.
    pub fn function_at(&self, span: Span) -> (r: Option<&FunctionSymbol>)
        ensures
            match r {
                Some(v) => entry_for(self.function_declarations@, span) matches Some(id)
                    && id < self.functions@.len() && *v == self.functions@[id as int],
                None => match entry_for(self.function_declarations@, span) {
                    Some(id) => id >= self.functions@.len(),
                    None => true,
                },
            },
    {
        match entry_at(&self.function_declarations, span) {
            Some(id) => self.function(*id),
            None => None,
        }
    }

    /// The constructor declared at `span`.
    pub fn constructor_at(&self, span: Span) -> (r: Option<&ConstructorSymbol>)
        ensures
            match r {
                Some(v) => entry_for(self.constructor_declarations@, span) matches Some(id)
                    && id < self.constructors@.len() && *v == self.constructors@[id as int],
                None => match entry_for(self.constructor_declarations@, span) {
                    Some(id) => id >= self.constructors@.len(),
                    None => true,
                },
            },
    {
        match entry_at(&self.constructor_declarations, span) {
            Some(id) => self.constructor(*id),
            None => None,
        }
    }

    /// The binding declared at `span`.
    pub fn binding(&self, span: Span) -> (r: Option<&BindingResolution>)
        ensures
            match r {
                Some(v) => entry_for(self.bindings@, span) == Some(*v),
                None => entry_for(self.bindings@, span) is None,
            },
    {
        entry_at(&self.bindings, span)
    }

    /// What the expression at `span` was resolved to.
    pub fn expression(&self, span: Span) -> (r: Option<&ExpressionResolution>)
        ensures
            match r {
                Some(v) => entry_for(self.expressions@, span) == Some(*v),
                None => entry_for(self.expressions@, span) is None,
            },
    {
        entry_at(&self.expressions, span)
    }

    /// The implicit call made at `span`.
    pub fn call(&self, span: Span) -> (r: Option<&ResolvedCall>)
        ensures
            match r {
                Some(v) => entry_for(self.calls@, span) == Some(*v),
                None => entry_for(self.calls@, span) is None,
            },
    {
        entry_at(&self.calls, span)
    }

    /// The callback argument at `span`.
    pub fn callback(&self, span: Span) -> (r: Option<&CallbackResolution>)
        ensures
            match r {
                Some(v) => entry_for(self.callbacks@, span) == Some(*v),
                None => entry_for(self.callbacks@, span) is None,
            },
    {
        entry_at(&self.callbacks, span)
    }

    /// Whether the native `Result` of the expression at `span` is unwrapped
    /// in place.
    pub fn rust_result_adaptation(&self, span: Span) -> (r: bool)
        ensures
            r == self.rust_result_adaptations@.contains(span),
    {
        let mut i: usize = 0;
        while i < self.rust_result_adaptations.len()
            invariant
                i <= self.rust_result_adaptations@.len(),
                forall|j: int| 0 <= j < i ==> self.rust_result_adaptations@[j] != span,
            decreases self.rust_result_adaptations@.len() - i,
        {
            let s = self.rust_result_adaptations[i];
            if s.start == span.start && s.end == span.end {
                return true;
            }
            i = i + 1;
        }
        false
    }
}

} // verus!

//! The native binding registry: types, callables, and registry invariants.

use crate::text::{
    is_prefix, lemma_lex_asymmetric, lemma_lex_total, lemma_lex_transitive, lex_lt, str_eq,
    str_has_prefix, str_lt,
};
use vstd::prelude::*;

verus! {

/// Callable trait family of a callback parameter.
#[derive(Clone, Copy, Debug, PartialEq, Eq, Structural)]
pub enum CallbackKind {
    /// `impl Fn`.
    Fn,
    /// `impl FnMut`.
    FnMut,
    /// `impl FnOnce`.
    FnOnce,
    /// A plain `fn` pointer.
    FunctionPointer,
}

/// How long a callback may outlive the call that receives it.
#[derive(Clone, Copy, Debug, PartialEq, Eq, Structural)]
pub enum CallbackEscape {
    /// The callback is only used during the call.
    Call,
}

/// A callback parameter type.
#[derive(Debug, PartialEq, Eq)]
pub struct CallbackType {
    /// Callable trait family.
    pub kind: CallbackKind,
    /// Escape behaviour.
    pub escape: CallbackEscape,
    /// Exact parameter types.
    pub parameters: Vec<TypeRef>,
    /// Exact return type.
    pub return_type: Box<TypeRef>,
}

/// A type as seen by Stainless semantic analysis.
#[derive(Debug, PartialEq, Eq)]
pub enum TypeRef {
    /// The absence of a return value.
    Void,
    /// Stainless `bool`.
    Bool,
    /// Stainless `char`, which is a Rust Unicode scalar value.
    Char,
    I8,
    I16,
    I32,
    I64,
    I128,
    Isize,
    U8,
    U16,
    U32,
    U64,
    U128,
    Usize,
    F32,
    F64,
    /// A generic type parameter declared by the native type.
    Parameter(String),
    /// A native Rust type under the reserved Stainless `rust::` namespace.
    Native {
        /// Canonical Stainless path, such as `rust::Vec`.
        path: String,
        /// Explicit generic arguments.
        arguments: Vec<TypeRef>,
    },
    /// A non-escaping function parameter borrow.
    Reference {
        /// Whether the borrowed value may be mutated.
        mutable: bool,
        /// Borrowed type.
        target: Box<TypeRef>,
    },
    /// A callback parameter.
    Callback(CallbackType),
}

/// Structural equality of types, comparing strings by their characters.
pub open spec fn type_eq(a: TypeRef, b: TypeRef) -> bool
    decreases a,
{
    match a {
        TypeRef::Parameter(p) => b is Parameter && p@ == b->Parameter_0@,
        TypeRef::Native { path, arguments } => match b {
            TypeRef::Native { path: other_path, arguments: other_arguments } => path@
                == other_path@ && type_list_eq(arguments@, other_arguments@),
            _ => false,
        },
        TypeRef::Reference { mutable, target } => match b {
            TypeRef::Reference { mutable: other_mutable, target: other_target } => mutable
                == other_mutable && type_eq(*target, *other_target),
            _ => false,
        },
        TypeRef::Callback(callback) => match b {
            TypeRef::Callback(other) => callback.kind == other.kind && callback.escape
                == other.escape && type_list_eq(callback.parameters@, other.parameters@) && type_eq(
                *callback.return_type,
                *other.return_type,
            ),
            _ => false,
        },
        _ => a == b,
    }
}

/// Element-wise [`type_eq`] of two type lists.
pub open spec fn type_list_eq(a: Seq<TypeRef>, b: Seq<TypeRef>) -> bool
    decreases a,
{
    if a.len() == 0 {
        b.len() == 0
    } else {
        b.len() != 0 && type_eq(a[0], b[0]) && type_list_eq(a.drop_first(), b.drop_first())
    }
}

} // verus!

verus! {

/// Whether `t` is a reference or holds one anywhere inside it.
pub open spec fn mentions_reference(t: TypeRef) -> bool
    decreases t,
{
    match t {
        TypeRef::Reference { .. } => true,
        TypeRef::Native { arguments, .. } => list_mentions_reference(arguments@),
        TypeRef::Callback(callback) => list_mentions_reference(callback.parameters@)
            || mentions_reference(*callback.return_type),
        _ => false,
    }
}

/// Whether `t` holds a reference type strictly inside it: as a generic
/// argument, a reference target, or a callback parameter or return type.
pub open spec fn nests_reference(t: TypeRef) -> bool {
    match t {
        TypeRef::Native { arguments, .. } => list_mentions_reference(arguments@),
        TypeRef::Reference { target, .. } => mentions_reference(*target),
        TypeRef::Callback(callback) => list_mentions_reference(callback.parameters@)
            || mentions_reference(*callback.return_type),
        _ => false,
    }
}

/// Whether some type of the list mentions a reference.
pub open spec fn list_mentions_reference(ts: Seq<TypeRef>) -> bool
    decreases ts,
{
    if ts.len() == 0 {
        false
    } else {
        mentions_reference(ts[0]) || list_mentions_reference(ts.drop_first())
    }
}

/// [`type_list_eq`] holds exactly when the lists agree element-wise.
pub proof fn lemma_type_list_eq_pointwise(a: Seq<TypeRef>, b: Seq<TypeRef>)
    ensures
        type_list_eq(a, b) <==> (a.len() == b.len() && forall|k: int|
            0 <= k < a.len() ==> #[trigger] type_eq(a[k], b[k])),
    decreases a.len(),
{
    if a.len() != 0 && b.len() != 0 {
        let (ta, tb) = (a.drop_first(), b.drop_first());
        lemma_type_list_eq_pointwise(ta, tb);
        if a.len() == b.len() && forall|k: int| 0 <= k < a.len() ==> #[trigger] type_eq(a[k], b[k]) {
            assert forall|k: int| 0 <= k < ta.len() implies #[trigger] type_eq(ta[k], tb[k]) by {
                assert(ta[k] == a[k + 1] && tb[k] == b[k + 1]);
                assert(type_eq(a[k + 1], b[k + 1]));
            }
            assert(type_eq(a[0], b[0]));
            assert(type_list_eq(ta, tb));
            assert(type_list_eq(a, b));
        }
        if type_list_eq(a, b) {
            assert(type_eq(a[0], b[0]));
            assert(type_list_eq(ta, tb));
            assert forall|k: int| 0 <= k < a.len() implies #[trigger] type_eq(a[k], b[k]) by {
                if k > 0 {
                    assert(ta[k - 1] == a[k] && tb[k - 1] == b[k]);
                    assert(type_eq(ta[k - 1], tb[k - 1]));
                }
            }
        }
    }
}

/// [`list_mentions_reference`] holds exactly when some element mentions one.
pub proof fn lemma_list_mentions_reference_exists(ts: Seq<TypeRef>)
    ensures
        list_mentions_reference(ts) <==> exists|k: int|
            0 <= k < ts.len() && #[trigger] mentions_reference(ts[k]),
    decreases ts.len(),
{
    if ts.len() != 0 {
        let rest = ts.drop_first();
        lemma_list_mentions_reference_exists(rest);
        if list_mentions_reference(ts) {
            if mentions_reference(ts[0]) {
                assert(mentions_reference(ts[0]));
            } else {
                assert(list_mentions_reference(rest));
                let k = choose|k: int| 0 <= k < rest.len() && #[trigger] mentions_reference(rest[k]);
                assert(rest[k] == ts[k + 1]);
                assert(mentions_reference(ts[k + 1]));
            }
        }
        if exists|k: int| 0 <= k < ts.len() && #[trigger] mentions_reference(ts[k]) {
            let k = choose|k: int| 0 <= k < ts.len() && #[trigger] mentions_reference(ts[k]);
            if k > 0 {
                assert(rest[k - 1] == ts[k]);
                assert(mentions_reference(rest[k - 1]));
            }
        }
    }
}

/// Every type equals itself.
pub proof fn lemma_type_eq_reflexive(a: TypeRef)
    ensures
        type_eq(a, a),
    decreases a,
{
    match a {
        TypeRef::Native { arguments, .. } => {
            lemma_type_list_eq_reflexive(arguments@);
        },
        TypeRef::Reference { target, .. } => {
            lemma_type_eq_reflexive(*target);
        },
        TypeRef::Callback(callback) => {
            lemma_type_list_eq_reflexive(callback.parameters@);
            lemma_type_eq_reflexive(*callback.return_type);
        },
        _ => {},
    }
}

/// Every type list equals itself.
pub proof fn lemma_type_list_eq_reflexive(a: Seq<TypeRef>)
    ensures
        type_list_eq(a, a),
    decreases a,
{
    if a.len() != 0 {
        lemma_type_eq_reflexive(a[0]);
        lemma_type_list_eq_reflexive(a.drop_first());
    }
}

/// [`type_eq`] is symmetric and transitive.
pub proof fn lemma_type_eq_symmetric_transitive(a: TypeRef, b: TypeRef, c: TypeRef)
    ensures
        type_eq(a, b) ==> type_eq(b, a),
        type_eq(a, b) && type_eq(b, c) ==> type_eq(a, c),
    decreases a,
{
    match (a, b, c) {
        (
            TypeRef::Native { arguments: x, .. },
            TypeRef::Native { arguments: y, .. },
            TypeRef::Native { arguments: z, .. },
        ) => {
            lemma_type_list_eq_symmetric_transitive(x@, y@, z@);
        },
        (TypeRef::Native { arguments: x, .. }, TypeRef::Native { arguments: y, .. }, _) => {
            lemma_type_list_eq_symmetric_transitive(x@, y@, y@);
        },
        (
            TypeRef::Reference { target: x, .. },
            TypeRef::Reference { target: y, .. },
            TypeRef::Reference { target: z, .. },
        ) => {
            lemma_type_eq_symmetric_transitive(*x, *y, *z);
        },
        (TypeRef::Reference { target: x, .. }, TypeRef::Reference { target: y, .. }, _) => {
            lemma_type_eq_symmetric_transitive(*x, *y, *y);
        },
        (TypeRef::Callback(x), TypeRef::Callback(y), TypeRef::Callback(z)) => {
            lemma_type_list_eq_symmetric_transitive(x.parameters@, y.parameters@, z.parameters@);
            lemma_type_eq_symmetric_transitive(*x.return_type, *y.return_type, *z.return_type);
        },
        (TypeRef::Callback(x), TypeRef::Callback(y), _) => {
            lemma_type_list_eq_symmetric_transitive(x.parameters@, y.parameters@, y.parameters@);
            lemma_type_eq_symmetric_transitive(*x.return_type, *y.return_type, *y.return_type);
        },
        _ => {},
    }
}

/// [`type_list_eq`] is symmetric and transitive.
pub proof fn lemma_type_list_eq_symmetric_transitive(a: Seq<TypeRef>, b: Seq<TypeRef>, c: Seq<TypeRef>)
    ensures
        type_list_eq(a, b) ==> type_list_eq(b, a),
        type_list_eq(a, b) && type_list_eq(b, c) ==> type_list_eq(a, c),
    decreases a,
{
    if a.len() != 0 && b.len() != 0 {
        if c.len() != 0 {
            lemma_type_eq_symmetric_transitive(a[0], b[0], c[0]);
            lemma_type_list_eq_symmetric_transitive(a.drop_first(), b.drop_first(), c.drop_first());
        } else {
            lemma_type_eq_symmetric_transitive(a[0], b[0], b[0]);
            lemma_type_list_eq_symmetric_transitive(a.drop_first(), b.drop_first(), b.drop_first());
        }
    }
}

/// Decides [`type_eq`].
pub fn types_equal(a: &TypeRef, b: &TypeRef) -> (r: bool)
    ensures
        r == type_eq(*a, *b),
    decreases a,
{
    match a {
        TypeRef::Parameter(p) => match b {
            TypeRef::Parameter(q) => *p == *q,
            _ => false,
        },
        TypeRef::Native { path, arguments } => match b {
            TypeRef::Native { path: other_path, arguments: other_arguments } => {
                *path == *other_path && type_lists_equal(arguments, other_arguments)
            },
            _ => false,
        },
        TypeRef::Reference { mutable, target } => match b {
            TypeRef::Reference { mutable: other_mutable, target: other_target } => {
                *mutable == *other_mutable && types_equal(target, other_target)
            },
            _ => false,
        },
        TypeRef::Callback(callback) => match b {
            TypeRef::Callback(other) => {
                callback.kind == other.kind && callback.escape == other.escape
                    && type_lists_equal(&callback.parameters, &other.parameters) && types_equal(
                    &callback.return_type,
                    &other.return_type,
                )
            },
            _ => false,
        },
        TypeRef::Void => matches!(b, TypeRef::Void),
        TypeRef::Bool => matches!(b, TypeRef::Bool),
        TypeRef::Char => matches!(b, TypeRef::Char),
        TypeRef::I8 => matches!(b, TypeRef::I8),
        TypeRef::I16 => matches!(b, TypeRef::I16),
        TypeRef::I32 => matches!(b, TypeRef::I32),
        TypeRef::I64 => matches!(b, TypeRef::I64),
        TypeRef::I128 => matches!(b, TypeRef::I128),
        TypeRef::Isize => matches!(b, TypeRef::Isize),
        TypeRef::U8 => matches!(b, TypeRef::U8),
        TypeRef::U16 => matches!(b, TypeRef::U16),
        TypeRef::U32 => matches!(b, TypeRef::U32),
        TypeRef::U64 => matches!(b, TypeRef::U64),
        TypeRef::U128 => matches!(b, TypeRef::U128),
        TypeRef::Usize => matches!(b, TypeRef::Usize),
        TypeRef::F32 => matches!(b, TypeRef::F32),
        TypeRef::F64 => matches!(b, TypeRef::F64),
    }
}

/// Decides [`type_list_eq`].
pub fn type_lists_equal(a: &Vec<TypeRef>, b: &Vec<TypeRef>) -> (r: bool)
    ensures
        r == type_list_eq(a@, b@),
    decreases a,
{
    proof {
        lemma_type_list_eq_pointwise(a@, b@);
    }
    if a.len() != b.len() {
        return false;
    }
    let mut i: usize = 0;
    while i < a.len()
        invariant
            a.len() == b.len(),
            i <= a.len(),
            forall|k: int| 0 <= k < i ==> #[trigger] type_eq(a@[k], b@[k]),
        decreases a.len() - i,
    {
        proof {
            broadcast use vstd::std_specs::vec::axiom_vec_index_decreases;
            assert(decreases_to!(a => a@[i as int]));
        }
        if !types_equal(&a[i], &b[i]) {
            proof {
                lemma_type_list_eq_pointwise(a@, b@);
            }
            assert(!type_eq(a@[i as int], b@[i as int]));
            return false;
        }
        i = i + 1;
    }
    true
}

} // verus!

verus! {

impl TypeRef {
    /// Creates a native type with explicit type arguments.
    pub fn native(path: String, arguments: Vec<TypeRef>) -> (r: Self)
        ensures
            r == (TypeRef::Native { path, arguments }),
    {
        TypeRef::Native { path, arguments }
    }

    /// Creates an immutable parameter reference.
    pub fn shared_ref(target: TypeRef) -> (r: Self)
        ensures
            r == (TypeRef::Reference { mutable: false, target: Box::new(target) }),
    {
        TypeRef::Reference { mutable: false, target: Box::new(target) }
    }

    /// Creates a mutable parameter reference.
    pub fn mutable_ref(target: TypeRef) -> (r: Self)
        ensures
            r == (TypeRef::Reference { mutable: true, target: Box::new(target) }),
    {
        TypeRef::Reference { mutable: true, target: Box::new(target) }
    }

    /// Creates a callback parameter type.
    pub fn callback(
        kind: CallbackKind,
        escape: CallbackEscape,
        parameters: Vec<TypeRef>,
        return_type: TypeRef,
    ) -> (r: Self)
        ensures
            r == TypeRef::Callback(
                CallbackType { kind, escape, parameters, return_type: Box::new(return_type) },
            ),
    {
        TypeRef::Callback(CallbackType { kind, escape, parameters, return_type: Box::new(return_type) })
    }

    /// Returns whether this type contains a reference at its outermost level.
    pub fn is_reference(&self) -> (r: bool)
        ensures
            r == (*self is Reference),
    {
        matches!(self, TypeRef::Reference { .. })
    }

    /// Returns whether this is a callback parameter type.
    pub fn is_callback(&self) -> (r: bool)
        ensures
            r == (*self is Callback),
    {
        matches!(self, TypeRef::Callback(_))
    }

    /// Returns whether a reference occurs strictly inside this type.
    pub fn contains_reference(&self) -> (r: bool)
        ensures
            r == nests_reference(*self),
    {
        match self {
            TypeRef::Native { arguments, .. } => any_mentions_reference(arguments),
            TypeRef::Reference { target, .. } => mentions_reference_exec(target),
            TypeRef::Callback(callback) => any_mentions_reference(&callback.parameters)
                || mentions_reference_exec(&callback.return_type),
            _ => false,
        }
    }

    /// A structurally equal copy of this type.
    pub fn copy(&self) -> (r: Self)
        ensures
            type_eq(r, *self),
        decreases self,
    {
        match self {
            TypeRef::Parameter(p) => TypeRef::Parameter(p.clone()),
            TypeRef::Native { path, arguments } => TypeRef::Native {
                path: path.clone(),
                arguments: copy_types(arguments),
            },
            TypeRef::Reference { mutable, target } => TypeRef::Reference {
                mutable: *mutable,
                target: Box::new((**target).copy()),
            },
            TypeRef::Callback(callback) => TypeRef::Callback(
                CallbackType {
                    kind: callback.kind,
                    escape: callback.escape,
                    parameters: copy_types(&callback.parameters),
                    return_type: Box::new((*callback.return_type).copy()),
                },
            ),
            TypeRef::Void => TypeRef::Void,
            TypeRef::Bool => TypeRef::Bool,
            TypeRef::Char => TypeRef::Char,
            TypeRef::I8 => TypeRef::I8,
            TypeRef::I16 => TypeRef::I16,
            TypeRef::I32 => TypeRef::I32,
            TypeRef::I64 => TypeRef::I64,
            TypeRef::I128 => TypeRef::I128,
            TypeRef::Isize => TypeRef::Isize,
            TypeRef::U8 => TypeRef::U8,
            TypeRef::U16 => TypeRef::U16,
            TypeRef::U32 => TypeRef::U32,
            TypeRef::U64 => TypeRef::U64,
            TypeRef::U128 => TypeRef::U128,
            TypeRef::Usize => TypeRef::Usize,
            TypeRef::F32 => TypeRef::F32,
            TypeRef::F64 => TypeRef::F64,
        }
    }
}

/// Decides [`mentions_reference`].
fn mentions_reference_exec(t: &TypeRef) -> (r: bool)
    ensures
        r == mentions_reference(*t),
    decreases t,
{
    match t {
        TypeRef::Reference { .. } => true,
        TypeRef::Native { arguments, .. } => any_mentions_reference(arguments),
        TypeRef::Callback(callback) => any_mentions_reference(&callback.parameters)
            || mentions_reference_exec(&callback.return_type),
        _ => false,
    }
}

/// Decides [`list_mentions_reference`].
fn any_mentions_reference(ts: &Vec<TypeRef>) -> (r: bool)
    ensures
        r == list_mentions_reference(ts@),
    decreases ts,
{
    proof {
        lemma_list_mentions_reference_exists(ts@);
    }
    let mut i: usize = 0;
    while i < ts.len()
        invariant
            i <= ts.len(),
            forall|k: int| 0 <= k < i ==> !#[trigger] mentions_reference(ts@[k]),
        decreases ts.len() - i,
    {
        proof {
            broadcast use vstd::std_specs::vec::axiom_vec_index_decreases;
            assert(decreases_to!(ts => ts@[i as int]));
        }
        if mentions_reference_exec(&ts[i]) {
            proof {
                lemma_list_mentions_reference_exists(ts@);
            }
            return true;
        }
        i = i + 1;
    }
    false
}

/// Copies a type list element by element.
pub fn copy_types(ts: &Vec<TypeRef>) -> (r: Vec<TypeRef>)
    ensures
        type_list_eq(r@, ts@),
    decreases ts,
{
    let mut out: Vec<TypeRef> = Vec::new();
    let mut i: usize = 0;
    while i < ts.len()
        invariant
            i <= ts.len(),
            out@.len() == i,
            forall|k: int| 0 <= k < i ==> #[trigger] type_eq(out@[k], ts@[k]),
        decreases ts.len() - i,
    {
        proof {
            broadcast use vstd::std_specs::vec::axiom_vec_index_decreases;
            assert(decreases_to!(ts => ts@[i as int]));
        }
        out.push(ts[i].copy());
        i = i + 1;
    }
    proof {
        lemma_type_list_eq_pointwise(out@, ts@);
    }
    out
}

} // verus!

verus! {

/// How a callable is written in Stainless source.
#[derive(Clone, Copy, Debug, PartialEq, Eq, Structural)]
pub enum CallStyle {
    /// C++ constructor syntax, such as `Vec()`.
    Constructor,
    /// An associated Rust function, such as `Vec::with_capacity(16)`.
    AssociatedFunction,
    /// Receiver syntax, such as `values.push(value)`.
    Method,
}

/// Ownership representation of a compiler-known pointer.
#[derive(Clone, Copy, Debug, PartialEq, Eq, Structural)]
pub enum PointerKind {
    /// A non-null unique owner.
    Unique,
    /// A nullable unique owner.
    UniqueNullable,
    /// A non-null shared owner.
    Shared,
    /// A nullable shared owner.
    SharedNullable,
    /// A non-owning observer of a shared owner.
    Weak,
    /// An atomic slot holding a non-null shared owner.
    Atomic,
    /// An atomic slot holding a nullable shared owner.
    AtomicNullable,
}

/// Conversion applied to the value a wrapped native call returns.
#[derive(Clone, Copy, Debug, PartialEq, Eq, Structural)]
pub enum ReturnAdaptation {
    /// The value is returned unchanged.
    Identity,
    /// The value is converted with `Into`.
    Into,
}

/// Storage of a callable held as a value.
#[derive(Clone, Copy, Debug, PartialEq, Eq, Structural)]
pub enum StoredFunctionKind {
    /// Shared `Fn` storage.
    Shared,
    /// Unique `FnMut` storage.
    Mutable,
}

/// Ownership and mutability of a native method receiver.
#[derive(Clone, Copy, Debug, PartialEq, Eq, Structural)]
pub enum Receiver {
    /// Rust `&self`; does not consume or mutate the binding.
    Shared,
    /// Rust `&mut self`; mutates the existing binding.
    Mutable,
    /// Rust `self`; consumes and invalidates a named Stainless binding.
    Value,
}

/// Per-argument conversion performed after exact Stainless call resolution.
#[derive(Clone, Copy, Debug, PartialEq, Eq, Structural)]
pub enum ArgumentAdaptation {
    /// Pass the resolved argument without an interop representation change.
    Identity,
    /// Borrow a Stainless `rust::String` as Rust `&str`.
    StringRefToStr,
}

/// How a native error value is rendered into a Stainless exception message.
#[derive(Clone, Copy, Debug, PartialEq, Eq, Structural)]
pub enum NativeErrorFormat {
    /// Rust `Display`.
    Display,
    /// Rust `Debug`.
    Debug,
}

/// One callable parameter.
#[derive(Debug, PartialEq, Eq)]
pub struct Parameter {
    /// Diagnostic/source name.
    pub name: String,
    /// Stainless-visible type.
    pub ty: TypeRef,
    /// Rust-boundary conversion applied after call resolution.
    pub adaptation: ArgumentAdaptation,
}

impl Parameter {
    /// Creates an identity-lowered parameter.
    pub fn new(name: String, ty: TypeRef) -> (r: Self)
        ensures
            r == (Parameter { name, ty, adaptation: ArgumentAdaptation::Identity }),
    {
        Parameter { name, ty, adaptation: ArgumentAdaptation::Identity }
    }

    /// Creates a parameter with an explicit Rust-boundary adaptation.
    pub fn adapted(name: String, ty: TypeRef, adaptation: ArgumentAdaptation) -> (r: Self)
        ensures
            r == (Parameter { name, ty, adaptation }),
    {
        Parameter { name, ty, adaptation }
    }
}

/// A Rust trait that must hold for a generic native call.
#[derive(Clone, Debug, PartialEq, Eq)]
pub struct TraitRequirement {
    /// Generic parameter constrained by the call.
    pub parameter: String,
    /// Fully qualified Rust trait path checked again by rustc.
    pub rust_trait: String,
}

/// The Rust item a generated wrapper forwards to.
#[derive(Clone, Debug, PartialEq, Eq)]
pub enum WrapperTarget {
    /// A free or associated function path.
    Function {
        /// Absolute Rust path.
        rust_path: String,
    },
    /// A method on the receiver.
    Method {
        /// Rust method name.
        rust_name: String,
    },
}

/// Code-generation strategy for a resolved callable.
#[derive(Clone, Debug, PartialEq, Eq)]
pub enum RustLowering {
    /// Call a fully qualified Rust associated function.
    AssociatedFunction { rust_path: String },
    /// Invoke a Rust method on the lowered receiver.
    Method { rust_name: String },
    /// Clone a constructor argument without exposing Rust `From` details.
    CloneArgument { index: usize },
    /// Call a Rust function that takes the receiver as its first argument.
    FunctionWithReceiver { rust_path: String },
    /// Call a generated wrapper around a user-declared Rust item.
    GeneratedWrapper {
        /// Generated wrapper identifier.
        wrapper_name: String,
        /// Wrapped Rust item.
        target: WrapperTarget,
    },
}

/// A constructor, associated function, or method exposed to Stainless.
#[derive(Debug, PartialEq, Eq)]
pub struct CallableBinding {
    /// Stainless source name. Constructors use their type's short name.
    pub source_name: String,
    /// Source call form.
    pub style: CallStyle,
    /// Method receiver, absent for constructors and associated functions.
    pub receiver: Option<Receiver>,
    /// Exact Stainless-visible parameters.
    pub parameters: Vec<Parameter>,
    /// Whether the Rust callable is `async`.
    pub is_async: bool,
    /// Stainless-visible return type.
    pub return_type: TypeRef,
    /// Error type of a Rust `Result` return that becomes a Stainless exception.
    pub rust_result_error: Option<TypeRef>,
    /// Rust trait requirements attached to this call.
    pub requirements: Vec<TraitRequirement>,
    /// Rust code-generation operation.
    pub lowering: RustLowering,
}

/// The types of a parameter list, in order.
pub open spec fn param_types(ps: Seq<Parameter>) -> Seq<TypeRef> {
    ps.map_values(|p: Parameter| p.ty)
}

/// Two callables have the same exact Stainless signature: style, source name
/// and parameter types.
pub open spec fn same_signature(a: CallableBinding, b: CallableBinding) -> bool {
    &&& a.style == b.style
    &&& a.source_name@ == b.source_name@
    &&& type_list_eq(param_types(a.parameters@), param_types(b.parameters@))
}

/// Decides whether two parameter lists have equal types.
pub fn parameter_types_equal(a: &Vec<Parameter>, b: &Vec<Parameter>) -> (r: bool)
    ensures
        r == type_list_eq(param_types(a@), param_types(b@)),
{
    proof {
        lemma_type_list_eq_pointwise(param_types(a@), param_types(b@));
    }
    if a.len() != b.len() {
        return false;
    }
    let mut i: usize = 0;
    while i < a.len()
        invariant
            a.len() == b.len(),
            i <= a.len(),
            forall|k: int| 0 <= k < i ==> #[trigger] type_eq(a@[k].ty, b@[k].ty),
        decreases a.len() - i,
    {
        if !types_equal(&a[i].ty, &b[i].ty) {
            proof {
                lemma_type_list_eq_pointwise(param_types(a@), param_types(b@));
                assert(param_types(a@)[i as int] == a@[i as int].ty);
                assert(param_types(b@)[i as int] == b@[i as int].ty);
            }
            return false;
        }
        i = i + 1;
    }
    assert forall|k: int| 0 <= k < a@.len() implies #[trigger] type_eq(
        param_types(a@)[k],
        param_types(b@)[k],
    ) by {
        assert(type_eq(a@[k].ty, b@[k].ty));
    }
    true
}

/// Decides whether the parameter types of `parameters` equal `types`.
fn parameters_have_types(parameters: &Vec<Parameter>, types: &[TypeRef]) -> (r: bool)
    ensures
        r == type_list_eq(param_types(parameters@), types@),
{
    proof {
        lemma_type_list_eq_pointwise(param_types(parameters@), types@);
    }
    if parameters.len() != types.len() {
        return false;
    }
    let mut i: usize = 0;
    while i < parameters.len()
        invariant
            parameters.len() == types.len(),
            i <= parameters.len(),
            forall|k: int| 0 <= k < i ==> #[trigger] type_eq(parameters@[k].ty, types@[k]),
        decreases parameters.len() - i,
    {
        if !types_equal(&parameters[i].ty, &types[i]) {
            proof {
                lemma_type_list_eq_pointwise(param_types(parameters@), types@);
                assert(param_types(parameters@)[i as int] == parameters@[i as int].ty);
                assert(!type_eq(param_types(parameters@)[i as int], types@[i as int]));
            }
            return false;
        }
        i = i + 1;
    }
    assert forall|k: int| 0 <= k < parameters@.len() implies #[trigger] type_eq(
        param_types(parameters@)[k],
        types@[k],
    ) by {
        assert(type_eq(parameters@[k].ty, types@[k]));
    }
    true
}

impl CallableBinding {
    /// Returns the exact parameter types used during Stainless call matching.
    pub fn parameter_types(&self) -> (r: Vec<TypeRef>)
        ensures
            type_list_eq(r@, param_types(self.parameters@)),
    {
        let mut out: Vec<TypeRef> = Vec::new();
        let mut i: usize = 0;
        while i < self.parameters.len()
            invariant
                i <= self.parameters.len(),
                out@.len() == i,
                forall|k: int| 0 <= k < i ==> #[trigger] type_eq(out@[k], self.parameters@[k].ty),
            decreases self.parameters.len() - i,
        {
            out.push(self.parameters[i].ty.copy());
            i = i + 1;
        }
        proof {
            lemma_type_list_eq_pointwise(out@, param_types(self.parameters@));
        }
        out
    }
}

/// Whether `c` answers a lookup by style, name, and exact parameter types.
pub open spec fn callable_matches(
    c: CallableBinding,
    style: CallStyle,
    source_name: Seq<char>,
    parameter_types: Seq<TypeRef>,
) -> bool {
    c.style == style && c.source_name@ == source_name && type_list_eq(
        param_types(c.parameters@),
        parameter_types,
    )
}

/// All built-in call metadata for one native Rust type.
#[derive(Debug, PartialEq, Eq)]
pub struct NativeTypeBinding {
    /// Canonical source path below the reserved `rust::` namespace.
    pub stainless_path: String,
    /// Canonical generated Rust type path.
    pub rust_path: String,
    /// Generic type parameters in declaration order.
    pub type_parameters: Vec<String>,
    /// How values of this type render as exception messages, when they can.
    pub error_format: Option<NativeErrorFormat>,
    /// Constructors, associated functions, and methods.
    pub callables: Vec<CallableBinding>,
}

impl NativeTypeBinding {
    /// Finds the first callable with the given style, name, and exact
    /// parameter types.
    pub fn find_callable(&self, style: CallStyle, source_name: &str, parameter_types: &[TypeRef]) -> (r: Option<&CallableBinding>)
        ensures
            match r {
                Some(c) => exists|i: int|
                    0 <= i < self.callables@.len() && self.callables@[i] == *c && callable_matches(
                        *c,
                        style,
                        source_name@,
                        parameter_types@,
                    ) && forall|k: int|
                        0 <= k < i ==> !#[trigger] callable_matches(
                            self.callables@[k],
                            style,
                            source_name@,
                            parameter_types@,
                        ),
                None => forall|k: int|
                    0 <= k < self.callables@.len() ==> !#[trigger] callable_matches(
                        self.callables@[k],
                        style,
                        source_name@,
                        parameter_types@,
                    ),
            },
    {
        let mut i: usize = 0;
        while i < self.callables.len()
            invariant
                i <= self.callables.len(),
                forall|k: int|
                    0 <= k < i ==> !#[trigger] callable_matches(
                        self.callables@[k],
                        style,
                        source_name@,
                        parameter_types@,
                    ),
            decreases self.callables.len() - i,
        {
            let c = &self.callables[i];
            if c.style == style && str_eq(c.source_name.as_str(), source_name)
                && parameters_have_types(&c.parameters, parameter_types) {
                assert(self.callables@[i as int] == *c);
                return Some(c);
            }
            i = i + 1;
        }
        None
    }
}

} // verus!

verus! {

/// Position at which a binding with path `key` is inserted into `s`: after
/// every binding whose path is not greater than `key`.
pub open spec fn insert_position(s: Seq<NativeTypeBinding>, key: Seq<char>) -> nat
    decreases s.len(),
{
    if s.len() == 0 {
        0
    } else if lex_lt(key, s[0].stainless_path@) {
        0
    } else {
        1 + insert_position(s.drop_first(), key)
    }
}

/// Stable insertion of `x` into `s` by path.
pub open spec fn insert_by_path(s: Seq<NativeTypeBinding>, x: NativeTypeBinding) -> Seq<
    NativeTypeBinding,
> {
    s.insert(insert_position(s, x.stainless_path@) as int, x)
}

/// Stable sort of bindings by their Stainless path.
pub open spec fn sort_by_path(s: Seq<NativeTypeBinding>) -> Seq<NativeTypeBinding>
    decreases s.len(),
{
    if s.len() == 0 {
        s
    } else {
        insert_by_path(sort_by_path(s.drop_last()), s.last())
    }
}

/// Paths never decrease along `s`.
pub open spec fn sorted_by_path(s: Seq<NativeTypeBinding>) -> bool {
    forall|i: int, j: int|
        0 <= i < j < s.len() ==> !lex_lt(#[trigger] s[j].stainless_path@, #[trigger] s[i].stainless_path@)
}

/// Paths strictly increase along `s`.
pub open spec fn strictly_sorted_by_path(s: Seq<NativeTypeBinding>) -> bool {
    forall|i: int, j: int|
        0 <= i < j < s.len() ==> lex_lt(#[trigger] s[i].stainless_path@, #[trigger] s[j].stainless_path@)
}

/// The insertion position is the first index whose path exceeds `key`.
proof fn lemma_insert_position(s: Seq<NativeTypeBinding>, key: Seq<char>, p: int)
    requires
        0 <= p <= s.len(),
        forall|q: int| 0 <= q < p ==> !lex_lt(key, #[trigger] s[q].stainless_path@),
        p < s.len() ==> lex_lt(key, s[p].stainless_path@),
    ensures
        insert_position(s, key) == p,
    decreases s.len(),
{
    if s.len() != 0 && p != 0 {
        assert forall|q: int| 0 <= q < p - 1 implies !lex_lt(
            key,
            #[trigger] s.drop_first()[q].stainless_path@,
        ) by {
            assert(s.drop_first()[q] == s[q + 1]);
        }
        assert(!lex_lt(key, s[0].stainless_path@));
        lemma_insert_position(s.drop_first(), key, p - 1);
    }
}

/// What bounds the insertion position.
proof fn lemma_insert_position_bounds(s: Seq<NativeTypeBinding>, key: Seq<char>)
    ensures
        insert_position(s, key) <= s.len(),
        forall|q: int|
            0 <= q < insert_position(s, key) ==> !lex_lt(key, #[trigger] s[q].stainless_path@),
        insert_position(s, key) < s.len() ==> lex_lt(
            key,
            s[insert_position(s, key) as int].stainless_path@,
        ),
    decreases s.len(),
{
    if s.len() != 0 && !lex_lt(key, s[0].stainless_path@) {
        let t = s.drop_first();
        lemma_insert_position_bounds(t, key);
        assert forall|q: int| 0 <= q < insert_position(s, key) implies !lex_lt(
            key,
            #[trigger] s[q].stainless_path@,
        ) by {
            if q > 0 {
                assert(s[q] == t[q - 1]);
            }
        }
    }
}

/// Stable insertion keeps a sorted sequence sorted and adds `x` once.
proof fn lemma_insert_by_path(s: Seq<NativeTypeBinding>, x: NativeTypeBinding)
    requires
        sorted_by_path(s),
    ensures
        sorted_by_path(insert_by_path(s, x)),
        insert_by_path(s, x).to_multiset() == s.to_multiset().insert(x),
{
    let key = x.stainless_path@;
    let p = insert_position(s, key) as int;
    lemma_insert_position_bounds(s, key);
    let t = insert_by_path(s, x);
    s.insert_ensures(p, x);
    vstd::seq_lib::to_multiset_insert(s, p, x);
    assert forall|i: int, j: int| 0 <= i < j < t.len() implies !lex_lt(
        #[trigger] t[j].stainless_path@,
        #[trigger] t[i].stainless_path@,
    ) by {
        if j < p {
            assert(t[i] == s[i] && t[j] == s[j]);
        } else if j == p {
            assert(t[i] == s[i]);
            assert(!lex_lt(key, s[i].stainless_path@));
        } else if i < p {
            assert(t[i] == s[i] && t[j] == s[j - 1]);
        } else if i == p {
            assert(t[j] == s[j - 1]);
            assert(lex_lt(key, s[p].stainless_path@));
            if j - 1 == p {
                lemma_lex_asymmetric(s[p].stainless_path@, s[p].stainless_path@);
            }
            assert(!lex_lt(s[j - 1].stainless_path@, s[p].stainless_path@));
            if lex_lt(s[j - 1].stainless_path@, key) {
                lemma_lex_transitive(s[j - 1].stainless_path@, key, s[p].stainless_path@);
            }
        } else {
            assert(t[i] == s[i - 1] && t[j] == s[j - 1]);
        }
    }
}

/// Law: sorting by path yields a path-sorted permutation of its input.
pub proof fn lemma_sort_by_path(s: Seq<NativeTypeBinding>)
    ensures
        sorted_by_path(sort_by_path(s)),
        sort_by_path(s).to_multiset() == s.to_multiset(),
        sort_by_path(s).len() == s.len(),
    decreases s.len(),
{
    if s.len() != 0 {
        lemma_sort_by_path(s.drop_last());
        lemma_insert_by_path(sort_by_path(s.drop_last()), s.last());
        vstd::seq_lib::to_multiset_build(s.drop_last(), s.last());
        assert(s.drop_last().push(s.last()) =~= s);
        vstd::seq_lib::to_multiset_len(sort_by_path(s));
        vstd::seq_lib::to_multiset_len(s);
    }
}

/// Sorts bindings stably by Stainless path.
fn sort_bindings(types: Vec<NativeTypeBinding>) -> (r: Vec<NativeTypeBinding>)
    ensures
        r@ == sort_by_path(types@),
{
    let ghost input = types@;
    let mut rest = types;
    let mut sorted: Vec<NativeTypeBinding> = Vec::new();
    let mut i: usize = 0;
    let n = rest.len();
    assert(input.take(0) =~= Seq::<NativeTypeBinding>::empty());
    while i < n
        invariant
            n == input.len(),
            i <= n,
            rest@ == input.skip(i as int),
            sorted@ == sort_by_path(input.take(i as int)),
        decreases n - i,
    {
        let x = rest.remove(0);
        let ghost key = x.stainless_path@;
        proof {
            lemma_sort_by_path(input.take(i as int));
        }
        let mut p: usize = 0;
        while p < sorted.len() && !str_lt(x.stainless_path.as_str(), sorted[p].stainless_path.as_str())
            invariant
                p <= sorted.len(),
                key == x.stainless_path@,
                forall|q: int| 0 <= q < p ==> !lex_lt(key, #[trigger] sorted@[q].stainless_path@),
            decreases sorted.len() - p,
        {
            p = p + 1;
        }
        proof {
            lemma_insert_position(sorted@, key, p as int);
            assert(input.take(i + 1).drop_last() =~= input.take(i as int));
            assert(input.take(i + 1).last() == x);
            assert(rest@ =~= input.skip(i + 1));
        }
        sorted.insert(p, x);
        i = i + 1;
    }
    assert(input.take(n as int) =~= input);
    sorted
}

} // verus!

verus! {

/// Invalid native binding metadata.
#[derive(Clone, Debug, PartialEq, Eq)]
pub enum BindingError {
    /// Native type path did not enter through `rust::`.
    InvalidNativePath(String),
    /// Two type bindings used the same canonical source path.
    DuplicateNativeType(String),
    /// Two callable bindings had the same exact Stainless signature.
    DuplicateCallable {
        /// Containing type.
        type_path: String,
        /// Duplicated source name.
        callable: String,
    },
    /// A method omitted its receiver metadata.
    MissingReceiver {
        /// Containing type.
        type_path: String,
        /// Invalid method.
        callable: String,
    },
    /// A non-method declared receiver metadata.
    UnexpectedReceiver {
        /// Containing type.
        type_path: String,
        /// Invalid callable.
        callable: String,
    },
    /// A binding attempted to expose a forbidden reference return.
    ReferenceReturn {
        /// Containing type.
        type_path: String,
        /// Invalid callable.
        callable: String,
    },
}

/// The invariant violated by callable `j` of `t`, given the callables before it.
pub open spec fn callable_error(t: NativeTypeBinding, j: int) -> Option<BindingError> {
    let c = t.callables@[j];
    if c.return_type is Reference {
        Some(BindingError::ReferenceReturn { type_path: t.stainless_path, callable: c.source_name })
    } else if exists|k: int| 0 <= k < j && #[trigger] same_signature(t.callables@[k], c) {
        Some(BindingError::DuplicateCallable { type_path: t.stainless_path, callable: c.source_name })
    } else if c.style == CallStyle::Method && c.receiver is None {
        Some(BindingError::MissingReceiver { type_path: t.stainless_path, callable: c.source_name })
    } else if c.style != CallStyle::Method && c.receiver is Some {
        Some(
            BindingError::UnexpectedReceiver { type_path: t.stainless_path, callable: c.source_name },
        )
    } else {
        None
    }
}

/// The first violation among the first `n` callables of `t`.
pub open spec fn first_callable_error(t: NativeTypeBinding, n: int) -> Option<BindingError>
    decreases n,
{
    if n <= 0 {
        None
    } else {
        match first_callable_error(t, n - 1) {
            Some(e) => Some(e),
            None => callable_error(t, n - 1),
        }
    }
}

/// The invariant violated by type `i` of `types`, given the types before it.
pub open spec fn type_error(types: Seq<NativeTypeBinding>, i: int) -> Option<BindingError> {
    let t = types[i];
    if !is_prefix("rust::"@, t.stainless_path@) {
        Some(BindingError::InvalidNativePath(t.stainless_path))
    } else if exists|k: int| 0 <= k < i && #[trigger] types[k].stainless_path@ == t.stainless_path@ {
        Some(BindingError::DuplicateNativeType(t.stainless_path))
    } else {
        first_callable_error(t, t.callables@.len() as int)
    }
}

/// The first violation among the first `n` types.
pub open spec fn first_type_error(types: Seq<NativeTypeBinding>, n: int) -> Option<BindingError>
    decreases n,
{
    if n <= 0 {
        None
    } else {
        match first_type_error(types, n - 1) {
            Some(e) => Some(e),
            None => type_error(types, n - 1),
        }
    }
}

/// The first registry invariant that `types`, in this order, violates.
pub open spec fn registry_error(types: Seq<NativeTypeBinding>) -> Option<BindingError> {
    first_type_error(types, types.len() as int)
}

/// No violation among the first `n` means no violation at any of them.
proof fn lemma_first_type_error_none(types: Seq<NativeTypeBinding>, n: int)
    requires
        first_type_error(types, n) is None,
    ensures
        forall|i: int| 0 <= i < n ==> #[trigger] type_error(types, i) is None,
    decreases n,
{
    if n > 0 {
        lemma_first_type_error_none(types, n - 1);
    }
}

/// A sorted registry without duplicate paths is strictly sorted.
proof fn lemma_valid_sorted_is_strict(types: Seq<NativeTypeBinding>)
    requires
        sorted_by_path(types),
        registry_error(types) is None,
    ensures
        strictly_sorted_by_path(types),
{
    lemma_first_type_error_none(types, types.len() as int);
    assert forall|i: int, j: int| 0 <= i < j < types.len() implies lex_lt(
        #[trigger] types[i].stainless_path@,
        #[trigger] types[j].stainless_path@,
    ) by {
        assert(type_error(types, j) is None);
        assert(types[i].stainless_path@ != types[j].stainless_path@);
        lemma_lex_total(types[i].stainless_path@, types[j].stainless_path@);
    }
}

/// Registry of compiler-provided native Rust type bindings.
#[derive(Debug, PartialEq, Eq)]
pub struct NativeBindings {
    types: Vec<NativeTypeBinding>,
}

impl View for NativeBindings {
    type V = Seq<NativeTypeBinding>;

    /// The registered types in path order.
    closed spec fn view(&self) -> Seq<NativeTypeBinding> {
        self.types@
    }
}

impl NativeBindings {
    #[verifier::type_invariant]
    spec fn well_formed(self) -> bool {
        &&& strictly_sorted_by_path(self.types@)
        &&& registry_error(self.types@) is None
    }

    /// Creates a registry: sorts the types stably by path, then validates
    /// the invariants needed by semantic analysis in that order.
    pub fn new(types: Vec<NativeTypeBinding>) -> (r: Result<Self, BindingError>)
        ensures
            match registry_error(sort_by_path(types@)) {
                None => r matches Ok(b) && b@ == sort_by_path(types@),
                Some(e) => r == Err::<Self, BindingError>(e),
            },
    {
        let sorted = sort_bindings(types);
        match validate_types(&sorted) {
            Ok(()) => {
                proof {
                    lemma_sort_by_path(types@);
                    lemma_valid_sorted_is_strict(sorted@);
                }
                Ok(NativeBindings { types: sorted })
            },
            Err(e) => Err(e),
        }
    }

    /// Combines two registries into one and validates the combination as
    /// [`NativeBindings::new`] does.
    pub fn merge(self, other: NativeBindings) -> (r: Result<NativeBindings, BindingError>)
        ensures
            match registry_error(sort_by_path(self@ + other@)) {
                None => r matches Ok(b) && b@ == sort_by_path(self@ + other@),
                Some(e) => r == Err::<NativeBindings, BindingError>(e),
            },
    {
        let NativeBindings { types: mut combined } = self;
        let NativeBindings { types: mut others } = other;
        combined.append(&mut others);
        NativeBindings::new(combined)
    }

    /// An empty registry.
    pub fn empty() -> (r: Self)
        ensures
            r@ == Seq::<NativeTypeBinding>::empty(),
    {
        NativeBindings { types: Vec::new() }
    }

    /// Returns every registered type in strictly increasing path order; no
    /// type or callable among them violates the registry invariants.
    pub fn types(&self) -> (r: &Vec<NativeTypeBinding>)
        ensures
            r@ == self@,
            strictly_sorted_by_path(self@),
            registry_error(self@) is None,
    {
        proof {
            use_type_invariant(self);
        }
        &self.types
    }

    /// Finds a native type by its canonical Stainless path.
    pub fn type_by_path(&self, path: &str) -> (r: Option<&NativeTypeBinding>)
        ensures
            match r {
                Some(t) => exists|i: int|
                    0 <= i < self@.len() && self@[i] == *t && t.stainless_path@ == path@,
                None => forall|i: int|
                    0 <= i < self@.len() ==> #[trigger] self@[i].stainless_path@ != path@,
            },
    {
        proof {
            use_type_invariant(self);
        }
        let mut lo: usize = 0;
        let mut hi: usize = self.types.len();
        while lo < hi
            invariant
                lo <= hi <= self.types@.len(),
                strictly_sorted_by_path(self.types@),
                forall|k: int| 0 <= k < lo ==> lex_lt(#[trigger] self.types@[k].stainless_path@, path@),
                forall|k: int|
                    hi <= k < self.types@.len() ==> lex_lt(path@, #[trigger] self.types@[k].stainless_path@),
            decreases hi - lo,
        {
            let mid = lo + (hi - lo) / 2;
            let candidate = self.types[mid].stainless_path.as_str();
            if str_eq(path, candidate) {
                return Some(&self.types[mid]);
            } else if str_lt(path, candidate) {
                proof {
                    assert forall|k: int| mid <= k < self.types@.len() implies lex_lt(
                        path@,
                        #[trigger] self.types@[k].stainless_path@,
                    ) by {
                        if k > mid {
                            lemma_lex_transitive(
                                path@,
                                self.types@[mid as int].stainless_path@,
                                self.types@[k].stainless_path@,
                            );
                        }
                    }
                }
                hi = mid;
            } else {
                proof {
                    lemma_lex_total(path@, candidate@);
                    assert forall|k: int| 0 <= k < mid + 1 implies lex_lt(
                        #[trigger] self.types@[k].stainless_path@,
                        path@,
                    ) by {
                        if k < mid {
                            lemma_lex_transitive(
                                self.types@[k].stainless_path@,
                                self.types@[mid as int].stainless_path@,
                                path@,
                            );
                        }
                    }
                }
                lo = mid + 1;
            }
        }
        proof {
            assert forall|i: int| 0 <= i < self@.len() implies #[trigger] self@[i].stainless_path@
                != path@ by {
                lemma_lex_asymmetric(path@, path@);
            }
        }
        None
    }
}

/// Whether some callable before `j` has the signature of callable `j`.
fn has_earlier_signature(t: &NativeTypeBinding, j: usize) -> (r: bool)
    requires
        j < t.callables@.len(),
    ensures
        r == exists|k: int| 0 <= k < j && #[trigger] same_signature(t.callables@[k], t.callables@[j as int]),
{
    let c = &t.callables[j];
    let mut k: usize = 0;
    while k < j
        invariant
            j < t.callables@.len(),
            *c == t.callables@[j as int],
            k <= j,
            forall|q: int| 0 <= q < k ==> !#[trigger] same_signature(t.callables@[q], *c),
        decreases j - k,
    {
        let d = &t.callables[k];
        if d.style == c.style && d.source_name == c.source_name && parameter_types_equal(
            &d.parameters,
            &c.parameters,
        ) {
            assert(same_signature(t.callables@[k as int], *c));
            return true;
        }
        k = k + 1;
    }
    false
}

/// Checks every callable of `t`, returning the first violation.
fn validate_callables(t: &NativeTypeBinding) -> (r: Result<(), BindingError>)
    ensures
        r == match first_callable_error(*t, t.callables@.len() as int) {
            Some(e) => Err::<(), BindingError>(e),
            None => Ok(()),
        },
{
    let mut j: usize = 0;
    while j < t.callables.len()
        invariant
            j <= t.callables@.len(),
            first_callable_error(*t, j as int) is None,
        decreases t.callables@.len() - j,
    {
        let c = &t.callables[j];
        let err = if c.return_type.is_reference() {
            Some(BindingError::ReferenceReturn { type_path: t.stainless_path.clone(), callable: c.source_name.clone() })
        } else if has_earlier_signature(t, j) {
            Some(BindingError::DuplicateCallable { type_path: t.stainless_path.clone(), callable: c.source_name.clone() })
        } else if c.style == CallStyle::Method && c.receiver.is_none() {
            Some(BindingError::MissingReceiver { type_path: t.stainless_path.clone(), callable: c.source_name.clone() })
        } else if c.style != CallStyle::Method && c.receiver.is_some() {
            Some(BindingError::UnexpectedReceiver { type_path: t.stainless_path.clone(), callable: c.source_name.clone() })
        } else {
            None
        };
        assert(err == callable_error(*t, j as int));
        if let Some(e) = err {
            proof {
                lemma_first_callable_error_from(*t, j as int + 1);
            }
            return Err(e);
        }
        j = j + 1;
    }
    Ok(())
}

/// Checks the registry invariants over `types` in order, returning the first
/// violation.
fn validate_types(types: &Vec<NativeTypeBinding>) -> (r: Result<(), BindingError>)
    ensures
        r == match registry_error(types@) {
            Some(e) => Err::<(), BindingError>(e),
            None => Ok(()),
        },
{
    let mut i: usize = 0;
    while i < types.len()
        invariant
            i <= types@.len(),
            first_type_error(types@, i as int) is None,
        decreases types@.len() - i,
    {
        let t = &types[i];
        if !str_has_prefix(t.stainless_path.as_str(), "rust::") {
            assert(type_error(types@, i as int) == Some(BindingError::InvalidNativePath(t.stainless_path)));
            proof {
                lemma_first_type_error_from(types@, i as int + 1);
            }
            return Err(BindingError::InvalidNativePath(t.stainless_path.clone()));
        }
        let mut k: usize = 0;
        while k < i
            invariant
                i < types@.len(),
                *t == types@[i as int],
                k <= i,
                is_prefix("rust::"@, t.stainless_path@),
                first_type_error(types@, i as int) is None,
                forall|q: int| 0 <= q < k ==> #[trigger] types@[q].stainless_path@ != t.stainless_path@,
            decreases i - k,
        {
            if types[k].stainless_path == t.stainless_path {
                assert(types@[k as int].stainless_path@ == t.stainless_path@);
                assert(type_error(types@, i as int) == Some(BindingError::DuplicateNativeType(t.stainless_path)));
                proof {
                    lemma_first_type_error_from(types@, i as int + 1);
                }
                return Err(BindingError::DuplicateNativeType(t.stainless_path.clone()));
            }
            k = k + 1;
        }
        match validate_callables(t) {
            Ok(()) => {},
            Err(e) => {
                proof {
                    lemma_first_type_error_from(types@, i as int + 1);
                }
                return Err(e);
            },
        }
        i = i + 1;
    }
    Ok(())
}

/// Once a violation is found within the first `n` callables, it is the
/// type's first callable violation.
proof fn lemma_first_callable_error_from(t: NativeTypeBinding, n: int)
    requires
        0 <= n <= t.callables@.len(),
        first_callable_error(t, n) is Some,
    ensures
        first_callable_error(t, t.callables@.len() as int) == first_callable_error(t, n),
    decreases t.callables@.len() - n,
{
    if n < t.callables@.len() {
        lemma_first_callable_error_from(t, n + 1);
    }
}

/// Once a violation is found within the first `n` types, it is the
/// registry's first violation.
proof fn lemma_first_type_error_from(types: Seq<NativeTypeBinding>, n: int)
    requires
        0 <= n <= types.len(),
        first_type_error(types, n) is Some,
    ensures
        registry_error(types) == first_type_error(types, n),
    decreases types.len() - n,
{
    if n < types.len() {
        lemma_first_type_error_from(types, n + 1);
    }
}

} // verus!

verus! {

/// The human-readable text of a [`BindingError`].
pub open spec fn binding_error_text(e: BindingError) -> Seq<char> {
    match e {
        BindingError::InvalidNativePath(path) => "native type path `"@ + path@
            + "` must start with `rust::`"@,
        BindingError::DuplicateNativeType(path) => "duplicate native type binding for `"@ + path@
            + "`"@,
        BindingError::DuplicateCallable { type_path, callable } => "duplicate callable `"@
            + callable@ + "` on native type `"@ + type_path@ + "`"@,
        BindingError::MissingReceiver { type_path, callable } => "method `"@ + type_path@ + "::"@
            + callable@ + "` is missing receiver metadata"@,
        BindingError::UnexpectedReceiver { type_path, callable } => "non-method `"@ + type_path@
            + "::"@ + callable@ + "` has receiver metadata"@,
        BindingError::ReferenceReturn { type_path, callable } => "native callable `"@
            + type_path@ + "::"@ + callable@ + "` cannot return a reference"@,
    }
}

impl BindingError {
    /// Renders the error for diagnostics.
    pub fn message(&self) -> (r: String)
        ensures
            r@ == binding_error_text(*self),
    {
        match self {
            BindingError::InvalidNativePath(path) => {
                let mut s = String::from_str("native type path `");
                s.append(path.as_str());
                s.append("` must start with `rust::`");
                s
            },
            BindingError::DuplicateNativeType(path) => {
                let mut s = String::from_str("duplicate native type binding for `");
                s.append(path.as_str());
                s.append("`");
                s
            },
            BindingError::DuplicateCallable { type_path, callable } => {
                let mut s = String::from_str("duplicate callable `");
                s.append(callable.as_str());
                s.append("` on native type `");
                s.append(type_path.as_str());
                s.append("`");
                s
            },
            BindingError::MissingReceiver { type_path, callable } => {
                let mut s = String::from_str("method `");
                s.append(type_path.as_str());
                s.append("::");
                s.append(callable.as_str());
                s.append("` is missing receiver metadata");
                s
            },
            BindingError::UnexpectedReceiver { type_path, callable } => {
                let mut s = String::from_str("non-method `");
                s.append(type_path.as_str());
                s.append("::");
                s.append(callable.as_str());
                s.append("` has receiver metadata");
                s
            },
            BindingError::ReferenceReturn { type_path, callable } => {
                let mut s = String::from_str("native callable `");
                s.append(type_path.as_str());
                s.append("::");
                s.append(callable.as_str());
                s.append("` cannot return a reference");
                s
            },
        }
    }
}

impl Default for NativeBindings {
    fn default() -> (r: Self)
        ensures
            r@ == Seq::<NativeTypeBinding>::empty(),
    {
        NativeBindings::empty()
    }
}

} // verus!

verus! {

/// A callable's own invariants: it returns a value rather than a reference,
/// and it has a receiver exactly when it is a method.
pub open spec fn callable_well_formed(c: CallableBinding) -> bool {
    &&& !(c.return_type is Reference)
    &&& (c.style == CallStyle::Method <==> c.receiver is Some)
}

/// No two callables of `cs` share an exact signature.
pub open spec fn distinct_signatures(cs: Seq<CallableBinding>) -> bool {
    forall|i: int, j: int| 0 <= i < j < cs.len() ==> !same_signature(#[trigger] cs[i], #[trigger] cs[j])
}

/// Every callable of `cs` is well formed and no signature repeats.
pub open spec fn callables_valid(cs: Seq<CallableBinding>) -> bool {
    &&& forall|i: int| 0 <= i < cs.len() ==> callable_well_formed(#[trigger] cs[i])
    &&& distinct_signatures(cs)
}

/// A type binding's callables pass validation exactly when they are valid.
pub proof fn lemma_callables_valid(t: NativeTypeBinding, n: int)
    requires
        0 <= n <= t.callables@.len(),
    ensures
        first_callable_error(t, n) is None <==> callables_valid(t.callables@.take(n)),
    decreases n,
{
    if n > 0 {
        lemma_callables_valid(t, n - 1);
        let cs = t.callables@.take(n);
        let ps = t.callables@.take(n - 1);
        assert(cs.drop_last() =~= ps);
        if callables_valid(cs) {
            assert(callables_valid(ps)) by {
                assert forall|i: int, j: int| 0 <= i < j < ps.len() implies !same_signature(
                    #[trigger] ps[i],
                    #[trigger] ps[j],
                ) by {
                    assert(ps[i] == cs[i] && ps[j] == cs[j]);
                }
                assert forall|i: int| 0 <= i < ps.len() implies callable_well_formed(#[trigger] ps[i]) by {
                    assert(ps[i] == cs[i]);
                }
            }
            assert(callable_well_formed(cs[n - 1]));
            assert forall|k: int| 0 <= k < n - 1 implies !#[trigger] same_signature(
                t.callables@[k],
                t.callables@[n - 1],
            ) by {
                assert(cs[k] == t.callables@[k] && cs[n - 1] == t.callables@[n - 1]);
            }
        }
        if first_callable_error(t, n) is None {
            assert(callable_error(t, n - 1) is None);
            assert forall|i: int, j: int| 0 <= i < j < cs.len() implies !same_signature(
                #[trigger] cs[i],
                #[trigger] cs[j],
            ) by {
                if j < n - 1 {
                    assert(ps[i] == cs[i] && ps[j] == cs[j]);
                } else {
                    assert(cs[i] == t.callables@[i] && cs[j] == t.callables@[n - 1]);
                }
            }
            assert forall|i: int| 0 <= i < cs.len() implies callable_well_formed(#[trigger] cs[i]) by {
                if i < n - 1 {
                    assert(ps[i] == cs[i]);
                }
            }
        }
    }
}

} // verus!

verus! {

/// Every element of the sorted sequence comes from the input.
proof fn lemma_sort_elements(s: Seq<NativeTypeBinding>)
    ensures
        sort_by_path(s).len() == s.len(),
        forall|j: int|
            0 <= j < s.len() ==> exists|i: int| 0 <= i < s.len() && #[trigger] sort_by_path(s)[j] == s[i],
    decreases s.len(),
{
    if s.len() != 0 {
        let u = sort_by_path(s.drop_last());
        let x = s.last();
        lemma_sort_elements(s.drop_last());
        let p = insert_position(u, x.stainless_path@) as int;
        lemma_insert_position_bounds(u, x.stainless_path@);
        u.insert_ensures(p, x);
        let t = sort_by_path(s);
        assert forall|j: int| 0 <= j < s.len() implies exists|i: int|
            0 <= i < s.len() && #[trigger] t[j] == s[i] by {
            if j == p {
                assert(t[j] == s[s.len() - 1]);
            } else {
                let k = if j < p { j } else { j - 1 };
                assert(t[j] == u[k]);
                let i = choose|i: int| 0 <= i < s.len() - 1 && #[trigger] u[k] == s.drop_last()[i];
                assert(s.drop_last()[i] == s[i]);
            }
        }
    }
}

/// Sorting keeps paths pairwise distinct.
proof fn lemma_sort_distinct(s: Seq<NativeTypeBinding>)
    requires
        forall|i: int, j: int|
            0 <= i < j < s.len() ==> #[trigger] s[i].stainless_path@ != #[trigger] s[j].stainless_path@,
    ensures
        forall|i: int, j: int|
            0 <= i < j < s.len() ==> #[trigger] sort_by_path(s)[i].stainless_path@
                != #[trigger] sort_by_path(s)[j].stainless_path@,
    decreases s.len(),
{
    if s.len() != 0 {
        let d = s.drop_last();
        let u = sort_by_path(d);
        let x = s.last();
        assert forall|i: int, j: int| 0 <= i < j < d.len() implies #[trigger] d[i].stainless_path@
            != #[trigger] d[j].stainless_path@ by {
            assert(d[i] == s[i] && d[j] == s[j]);
        }
        lemma_sort_distinct(d);
        lemma_sort_elements(d);
        let p = insert_position(u, x.stainless_path@) as int;
        lemma_insert_position_bounds(u, x.stainless_path@);
        u.insert_ensures(p, x);
        let t = sort_by_path(s);
        assert forall|k: int| 0 <= k < u.len() implies #[trigger] u[k].stainless_path@
            != x.stainless_path@ by {
            let i = choose|i: int| 0 <= i < d.len() && #[trigger] u[k] == d[i];
            assert(d[i] == s[i]);
            assert(s[i].stainless_path@ != s[s.len() - 1].stainless_path@);
        }
        assert forall|i: int, j: int| 0 <= i < j < s.len() implies #[trigger] t[i].stainless_path@
            != #[trigger] t[j].stainless_path@ by {
            if i == p {
                assert(t[j] == u[j - 1]);
            } else if j == p {
                assert(t[i] == u[i]);
            } else {
                let a = if i < p { i } else { i - 1 };
                let b = if j < p { j } else { j - 1 };
                assert(t[i] == u[a] && t[j] == u[b]);
            }
        }
    }
}

/// Law: types that all live under `rust::`, have pairwise distinct paths, and
/// each have valid callables form a valid registry, whatever their order.
pub proof fn lemma_registry_valid(s: Seq<NativeTypeBinding>)
    requires
        forall|i: int| 0 <= i < s.len() ==> is_prefix("rust::"@, (#[trigger] s[i]).stainless_path@),
        forall|i: int| 0 <= i < s.len() ==> callables_valid((#[trigger] s[i]).callables@),
        forall|i: int, j: int|
            0 <= i < j < s.len() ==> #[trigger] s[i].stainless_path@ != #[trigger] s[j].stainless_path@,
    ensures
        registry_error(sort_by_path(s)) is None,
{
    let t = sort_by_path(s);
    lemma_sort_elements(s);
    lemma_sort_distinct(s);
    assert forall|n: int| 0 <= n <= t.len() implies #[trigger] first_type_error(t, n) is None by {
        lemma_first_type_error_none_upto(s, t, n);
    }
}

/// Helper for [`lemma_registry_valid`]: no violation among the first `n`.
proof fn lemma_first_type_error_none_upto(s: Seq<NativeTypeBinding>, t: Seq<NativeTypeBinding>, n: int)
    requires
        t == sort_by_path(s),
        0 <= n <= t.len(),
        t.len() == s.len(),
        forall|i: int| 0 <= i < s.len() ==> is_prefix("rust::"@, (#[trigger] s[i]).stainless_path@),
        forall|i: int| 0 <= i < s.len() ==> callables_valid((#[trigger] s[i]).callables@),
        forall|j: int| 0 <= j < s.len() ==> exists|i: int| 0 <= i < s.len() && #[trigger] t[j] == s[i],
        forall|i: int, j: int|
            0 <= i < j < s.len() ==> #[trigger] t[i].stainless_path@ != #[trigger] t[j].stainless_path@,
    ensures
        first_type_error(t, n) is None,
    decreases n,
{
    if n > 0 {
        lemma_first_type_error_none_upto(s, t, n - 1);
        let k = n - 1;
        let i = choose|i: int| 0 <= i < s.len() && #[trigger] t[k] == s[i];
        assert(is_prefix("rust::"@, s[i].stainless_path@));
        assert(callables_valid(s[i].callables@));
        assert(!exists|q: int| 0 <= q < k && #[trigger] t[q].stainless_path@ == t[k].stainless_path@);
        lemma_callables_valid(t[k], t[k].callables@.len() as int);
        assert(t[k].callables@.take(t[k].callables@.len() as int) =~= t[k].callables@);
    }
}

} // verus!

verus! {

/// Every element of the input appears in the sorted sequence.
pub proof fn lemma_sort_elements_exist(s: Seq<NativeTypeBinding>)
    ensures
        forall|i: int|
            #![trigger s[i]]
            0 <= i < s.len() ==> exists|j: int|
                0 <= j < s.len() && #[trigger] sort_by_path(s)[j] == s[i],
{
    lemma_sort_by_path(s);
    assert forall|i: int| #![trigger s[i]] 0 <= i < s.len() implies exists|j: int|
        0 <= j < s.len() && #[trigger] sort_by_path(s)[j] == s[i] by {
        assert(s.to_multiset().count(s[i]) > 0) by {
            vstd::seq_lib::to_multiset_contains(s, s[i]);
        }
        assert(sort_by_path(s).to_multiset().count(s[i]) > 0);
        vstd::seq_lib::to_multiset_contains(sort_by_path(s), s[i]);
    }
}

/// Every element of a sorted sequence comes from its input.
pub proof fn lemma_sort_elements_from(s: Seq<NativeTypeBinding>)
    ensures
        forall|j: int|
            #![trigger sort_by_path(s)[j]]
            0 <= j < s.len() ==> exists|i: int| 0 <= i < s.len() && #[trigger] s[i] == sort_by_path(s)[j],
{
    lemma_sort_by_path(s);
    assert forall|j: int| #![trigger sort_by_path(s)[j]] 0 <= j < s.len() implies exists|i: int|
        0 <= i < s.len() && #[trigger] s[i] == sort_by_path(s)[j] by {
        let x = sort_by_path(s)[j];
        assert(sort_by_path(s).contains(x));
        vstd::seq_lib::to_multiset_contains(sort_by_path(s), x);
        vstd::seq_lib::to_multiset_contains(s, x);
    }
}

} // verus!

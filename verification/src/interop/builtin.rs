//! Compiler-provided bindings for native Rust standard-library and runtime
//! types.

use super::model::{
    ArgumentAdaptation, BindingError, CallStyle, CallableBinding, CallbackEscape, CallbackKind,
    NativeBindings, NativeErrorFormat, NativeTypeBinding, Parameter, Receiver, RustLowering,
    lemma_registry_valid, lemma_sort_by_path, lemma_sort_elements_exist, sort_by_path,
    TraitRequirement, TypeRef, callable_well_formed, callables_valid, same_signature, type_eq,
    lemma_type_eq_symmetric_transitive, lemma_type_list_eq_pointwise, param_types, type_list_eq,
    types_equal,
};
use crate::text::is_prefix;
use vstd::prelude::*;

verus! {

/// Generic parameter name of single-parameter containers.
pub const T: &'static str = "T";

/// Generic key parameter name of maps.
pub const K: &'static str = "K";

/// Generic value parameter name of maps.
pub const V: &'static str = "V";

/// Path of the dynamically typed JSON value type.
pub const VAR_TYPE_PATH: &'static str = "rust::stainless_runtime::Var";

/// Path of the JSON error type.
pub const JSON_ERROR_TYPE_PATH: &'static str = "rust::stainless_runtime::JsonError";

/// Path of the I/O error type.
pub const IO_ERROR_TYPE_PATH: &'static str = "rust::std::io::Error";

/// Path of the positioned file type.
pub const FILE_TYPE_PATH: &'static str = "rust::std::fs::File";

/// Path of the file-opening options type.
pub const OPEN_OPTIONS_TYPE_PATH: &'static str = "rust::std::fs::OpenOptions";

/// Whether `t` is a generic-free native type with path `path`.
pub open spec fn is_plain_native(t: TypeRef, path: Seq<char>) -> bool {
    t matches TypeRef::Native { path: p, arguments } && p@ == path && arguments@.len() == 0
}

/// Whether `t` is a native type with path `path` and exactly the arguments
/// `arguments`.
pub open spec fn is_native_of(t: TypeRef, path: Seq<char>, arguments: Seq<TypeRef>) -> bool {
    t matches TypeRef::Native { path: p, arguments: a } && p@ == path && a@ == arguments
}

/// A constructor binding.
pub fn constructor(
    source_name: &str,
    parameters: Vec<Parameter>,
    return_type: TypeRef,
    lowering: RustLowering,
) -> (r: CallableBinding)
    ensures
        r.source_name@ == source_name@,
        r.style == CallStyle::Constructor,
        r.receiver is None,
        r.parameters == parameters,
        !r.is_async,
        r.return_type == return_type,
        r.rust_result_error is None,
        r.requirements@.len() == 0,
        r.lowering == lowering,
{
    CallableBinding {
        source_name: String::from_str(source_name),
        style: CallStyle::Constructor,
        receiver: None,
        parameters,
        is_async: false,
        return_type,
        rust_result_error: None,
        requirements: Vec::new(),
        lowering,
    }
}

/// An infallible associated-function binding lowered to `rust_path`.
pub fn associated(
    source_name: &str,
    parameters: Vec<Parameter>,
    return_type: TypeRef,
    rust_path: &str,
) -> (r: CallableBinding)
    ensures
        r.source_name@ == source_name@,
        r.style == CallStyle::AssociatedFunction,
        r.receiver is None,
        r.parameters == parameters,
        !r.is_async,
        r.return_type == return_type,
        r.rust_result_error is None,
        r.requirements@.len() == 0,
        r.lowering matches RustLowering::AssociatedFunction { rust_path: p } && p@ == rust_path@,
{
    CallableBinding {
        source_name: String::from_str(source_name),
        style: CallStyle::AssociatedFunction,
        receiver: None,
        parameters,
        is_async: false,
        return_type,
        rust_result_error: None,
        requirements: Vec::new(),
        lowering: RustLowering::AssociatedFunction { rust_path: String::from_str(rust_path) },
    }
}

/// An associated-function binding whose Rust `Result` error becomes a
/// Stainless exception.
pub fn fallible_associated(
    source_name: &str,
    parameters: Vec<Parameter>,
    return_type: TypeRef,
    error_type: TypeRef,
    rust_path: &str,
) -> (r: CallableBinding)
    ensures
        r.source_name@ == source_name@,
        r.style == CallStyle::AssociatedFunction,
        r.receiver is None,
        r.parameters == parameters,
        !r.is_async,
        r.return_type == return_type,
        r.rust_result_error == Some(error_type),
        r.requirements@.len() == 0,
        r.lowering matches RustLowering::AssociatedFunction { rust_path: p } && p@ == rust_path@,
{
    CallableBinding {
        source_name: String::from_str(source_name),
        style: CallStyle::AssociatedFunction,
        receiver: None,
        parameters,
        is_async: false,
        return_type,
        rust_result_error: Some(error_type),
        requirements: Vec::new(),
        lowering: RustLowering::AssociatedFunction { rust_path: String::from_str(rust_path) },
    }
}

/// A method binding lowered to the Rust method of the same name.
pub fn method(
    source_name: &str,
    receiver: Receiver,
    parameters: Vec<Parameter>,
    return_type: TypeRef,
) -> (r: CallableBinding)
    ensures
        r.source_name@ == source_name@,
        r.style == CallStyle::Method,
        r.receiver == Some(receiver),
        r.parameters == parameters,
        !r.is_async,
        r.return_type == return_type,
        r.rust_result_error is None,
        r.requirements@.len() == 0,
        r.lowering matches RustLowering::Method { rust_name: n } && n@ == source_name@,
{
    method_with_requirements(source_name, receiver, parameters, return_type, Vec::new())
}

/// A method binding with Rust trait requirements.
pub fn method_with_requirements(
    source_name: &str,
    receiver: Receiver,
    parameters: Vec<Parameter>,
    return_type: TypeRef,
    requirements: Vec<TraitRequirement>,
) -> (r: CallableBinding)
    ensures
        r.source_name@ == source_name@,
        r.style == CallStyle::Method,
        r.receiver == Some(receiver),
        r.parameters == parameters,
        !r.is_async,
        r.return_type == return_type,
        r.rust_result_error is None,
        r.requirements == requirements,
        r.lowering matches RustLowering::Method { rust_name: n } && n@ == source_name@,
{
    CallableBinding {
        source_name: String::from_str(source_name),
        style: CallStyle::Method,
        receiver: Some(receiver),
        parameters,
        is_async: false,
        return_type,
        rust_result_error: None,
        requirements,
        lowering: RustLowering::Method { rust_name: String::from_str(source_name) },
    }
}

/// A method binding whose Rust `Result` error becomes a Stainless exception.
pub fn fallible_method(
    source_name: &str,
    rust_name: &str,
    receiver: Receiver,
    parameters: Vec<Parameter>,
    return_type: TypeRef,
    error_type: TypeRef,
) -> (r: CallableBinding)
    ensures
        r.source_name@ == source_name@,
        r.style == CallStyle::Method,
        r.receiver == Some(receiver),
        r.parameters == parameters,
        !r.is_async,
        r.return_type == return_type,
        r.rust_result_error == Some(error_type),
        r.requirements@.len() == 0,
        r.lowering matches RustLowering::Method { rust_name: n } && n@ == rust_name@,
{
    CallableBinding {
        source_name: String::from_str(source_name),
        style: CallStyle::Method,
        receiver: Some(receiver),
        parameters,
        is_async: false,
        return_type,
        rust_result_error: Some(error_type),
        requirements: Vec::new(),
        lowering: RustLowering::Method { rust_name: String::from_str(rust_name) },
    }
}

/// A trait requirement on a generic parameter.
pub fn requirement(parameter: &str, rust_trait: &str) -> (r: TraitRequirement)
    ensures
        r.parameter@ == parameter@,
        r.rust_trait@ == rust_trait@,
{
    TraitRequirement { parameter: String::from_str(parameter), rust_trait: String::from_str(rust_trait) }
}

/// `rust::String`.
pub fn string_type() -> (r: TypeRef)
    ensures
        is_plain_native(r, "rust::String"@),
{
    TypeRef::native(String::from_str("rust::String"), Vec::new())
}

/// A native type with one generic argument.
fn native_of(path: &str, element: TypeRef) -> (r: TypeRef)
    ensures
        is_native_of(r, path@, seq![element]),
{
    let mut arguments = Vec::new();
    arguments.push(element);
    TypeRef::native(String::from_str(path), arguments)
}

/// `rust::Vec<element>`.
pub fn vec_of(element: TypeRef) -> (r: TypeRef)
    ensures
        is_native_of(r, "rust::Vec"@, seq![element]),
{
    native_of("rust::Vec", element)
}

/// `rust::List<element>`.
pub fn list_of(element: TypeRef) -> (r: TypeRef)
    ensures
        is_native_of(r, "rust::List"@, seq![element]),
{
    native_of("rust::List", element)
}

/// `rust::Queue<element>`.
pub fn queue_of(element: TypeRef) -> (r: TypeRef)
    ensures
        is_native_of(r, "rust::Queue"@, seq![element]),
{
    native_of("rust::Queue", element)
}

/// `rust::Set<element>`.
pub fn set_of(element: TypeRef) -> (r: TypeRef)
    ensures
        is_native_of(r, "rust::Set"@, seq![element]),
{
    native_of("rust::Set", element)
}

/// `rust::Option<value>`.
pub fn option_of(value: TypeRef) -> (r: TypeRef)
    ensures
        is_native_of(r, "rust::Option"@, seq![value]),
{
    native_of("rust::Option", value)
}

/// `rust::Map<key, value>`.
pub fn map_of(key: TypeRef, value: TypeRef) -> (r: TypeRef)
    ensures
        is_native_of(r, "rust::Map"@, seq![key, value]),
{
    let ghost pair = seq![key, value];
    let mut arguments = Vec::new();
    arguments.push(key);
    arguments.push(value);
    assert(arguments@ =~= pair);
    TypeRef::native(String::from_str("rust::Map"), arguments)
}

/// A filesystem path parameter, borrowed from a `rust::String` as `&str`.
pub fn fs_path_parameter(name: &str, string_ref: &TypeRef) -> (r: Parameter)
    ensures
        r.name@ == name@,
        type_eq(r.ty, *string_ref),
        r.adaptation == ArgumentAdaptation::StringRefToStr,
{
    Parameter::adapted(String::from_str(name), string_ref.copy(), ArgumentAdaptation::StringRefToStr)
}

} // verus!

verus! {

/// Whether two names visibly differ: in length, or at one of their first
/// sixteen characters or their last.
pub open spec fn names_differ(a: Seq<char>, b: Seq<char>) -> bool {
    a.len() != b.len() || a[0] != b[0] || a[1] != b[1] || a[2] != b[2] || a[3] != b[3] || a[4]
        != b[4] || a[5] != b[5] || a[6] != b[6] || a[7] != b[7] || a[8] != b[8] || a[9] != b[9]
        || a[10] != b[10] || a[11] != b[11] || a[12] != b[12] || a[13] != b[13] || a[14] != b[14]
        || a[15] != b[15] || a.last() != b.last()
}

/// Callables named by `names`, each well formed, whose signatures differ
/// pairwise by name, style, or parameters, are valid.
proof fn lemma_valid_from_names(cs: Seq<CallableBinding>, names: Seq<Seq<char>>)
    requires
        cs.len() == names.len(),
        forall|i: int| 0 <= i < cs.len() ==> #[trigger] cs[i].source_name@ == names[i],
        forall|i: int| 0 <= i < cs.len() ==> callable_well_formed(#[trigger] cs[i]),
        forall|i: int, j: int|
            0 <= i < j < cs.len() ==> names_differ(#[trigger] names[i], #[trigger] names[j])
                || !same_signature(cs[i], cs[j]),
    ensures
        callables_valid(cs),
{
    assert forall|i: int, j: int| 0 <= i < j < cs.len() implies !same_signature(
        #[trigger] cs[i],
        #[trigger] cs[j],
    ) by {
        if names_differ(names[i], names[j]) {
            assert(names[i] != names[j]);
        }
    }
}

/// A one-element parameter list.
fn one_parameter(name: &str, ty: TypeRef) -> (r: Vec<Parameter>)
    ensures
        r@.len() == 1,
        r@[0] == (Parameter { name: r@[0].name, ty, adaptation: ArgumentAdaptation::Identity }),
        r@[0].name@ == name@,
{
    let mut v = Vec::new();
    v.push(Parameter::new(String::from_str(name), ty));
    v
}

/// A two-element parameter list without adaptations.
fn two_parameters(first: &str, first_ty: TypeRef, second: &str, second_ty: TypeRef) -> (r: Vec<
    Parameter,
>)
    ensures
        r@.len() == 2,
        r@[0].name@ == first@,
        r@[0].ty == first_ty,
        r@[0].adaptation == ArgumentAdaptation::Identity,
        r@[1].name@ == second@,
        r@[1].ty == second_ty,
        r@[1].adaptation == ArgumentAdaptation::Identity,
{
    let mut v = Vec::new();
    v.push(Parameter::new(String::from_str(first), first_ty));
    v.push(Parameter::new(String::from_str(second), second_ty));
    v
}

/// A parameter of type `&rust::String` passed to Rust as `&str`.
fn str_parameter(name: &str, string_ref: &TypeRef) -> (r: Parameter)
    ensures
        r.name@ == name@,
        type_eq(r.ty, *string_ref),
        r.adaptation == ArgumentAdaptation::StringRefToStr,
{
    Parameter::adapted(String::from_str(name), string_ref.copy(), ArgumentAdaptation::StringRefToStr)
}

/// `&rust::String`.
pub(crate) fn string_ref_type() -> (r: TypeRef)
    ensures
        r matches TypeRef::Reference { mutable, target } && !mutable && is_plain_native(
            *target,
            "rust::String"@,
        ),
{
    TypeRef::shared_ref(string_type())
}

/// A plain generic parameter type.
fn generic(name: &str) -> (r: TypeRef)
    ensures
        r matches TypeRef::Parameter(p) && p@ == name@,
{
    TypeRef::Parameter(String::from_str(name))
}

} // verus!

verus! {

/// `c` is a synchronous callable with this source name, call style,
/// receiver and number of parameters, and no trait requirements.
pub open spec fn callable_head(
    c: CallableBinding,
    name: Seq<char>,
    style: CallStyle,
    receiver: Option<Receiver>,
    arity: nat,
) -> bool {
    &&& c.source_name@ == name
    &&& c.style == style
    &&& c.receiver == receiver
    &&& c.parameters@.len() == arity
    &&& !c.is_async
    &&& c.requirements@.len() == 0
}

/// Parameter `k` of `c` has this name, type and adaptation.
pub open spec fn parameter_is(c: CallableBinding, k: int, name: Seq<char>, ty: TypeRef, adaptation: ArgumentAdaptation) -> bool {
    &&& c.parameters@[k].name@ == name
    &&& type_eq(c.parameters@[k].ty, ty)
    &&& c.parameters@[k].adaptation == adaptation
}

/// `c` returns `ty`, and its Rust `Result` error, if any, is `error`.
pub open spec fn returns_as(c: CallableBinding, ty: TypeRef, error: Option<TypeRef>) -> bool {
    &&& type_eq(c.return_type, ty)
    &&& match error {
        Some(e) => c.rust_result_error matches Some(x) && type_eq(x, e),
        None => c.rust_result_error is None,
    }
}

/// `c` lowers to a call of the Rust function at `path`.
pub open spec fn lowered_to_function(c: CallableBinding, path: Seq<char>) -> bool {
    c.lowering matches RustLowering::AssociatedFunction { rust_path } && rust_path@ == path
}

/// `c` lowers to a call of the Rust method `name`.
pub open spec fn lowered_to_method(c: CallableBinding, name: Seq<char>) -> bool {
    c.lowering matches RustLowering::Method { rust_name } && rust_name@ == name
}

/// The callables of `rust::stainless_runtime::Var`, over the types they
/// mention.
pub open spec fn var_table(
    cs: Seq<CallableBinding>,
    var: TypeRef,
    string: TypeRef,
    string_ref: TypeRef,
    json_error: TypeRef,
    result_var: TypeRef,
) -> bool {
    let id = ArgumentAdaptation::Identity;
    let as_str = ArgumentAdaptation::StringRefToStr;
    let shared = Some(Receiver::Shared);
    let mutable = Some(Receiver::Mutable);
    let throws = Some(json_error);
    &&& cs.len() == 16
    &&& callable_head(cs[0], "Var"@, CallStyle::Constructor, None, 0) && returns_as(cs[0], var, None)
        && lowered_to_function(cs[0], "::stainless_runtime::Var::null"@)
    &&& callable_head(cs[1], "parse"@, CallStyle::AssociatedFunction, None, 1) && parameter_is(cs[1], 0, "source"@, string_ref, as_str)
        && returns_as(cs[1], result_var, None) && lowered_to_function(cs[1], "::stainless_runtime::Var::parse"@)
    &&& callable_head(cs[2], "parse_file"@, CallStyle::AssociatedFunction, None, 1) && parameter_is(cs[2], 0, "path"@, string_ref, as_str)
        && returns_as(cs[2], result_var, None) && lowered_to_function(cs[2], "::stainless_runtime::Var::parse_file"@)
    &&& callable_head(cs[3], "is_null"@, CallStyle::Method, shared, 0) && returns_as(cs[3], TypeRef::Bool, None)
        && lowered_to_method(cs[3], "is_null"@)
    &&& callable_head(cs[4], "clone"@, CallStyle::Method, shared, 0) && returns_as(cs[4], var, None)
        && lowered_to_method(cs[4], "clone"@)
    &&& callable_head(cs[5], "to_json"@, CallStyle::Method, shared, 0) && returns_as(cs[5], string, None)
        && lowered_to_method(cs[5], "to_json"@)
    &&& callable_head(cs[6], "set"@, CallStyle::Method, mutable, 2) && parameter_is(cs[6], 0, "name"@, string_ref, as_str)
        && parameter_is(cs[6], 1, "value"@, var, id) && returns_as(cs[6], TypeRef::Void, throws)
        && lowered_to_method(cs[6], "set_field"@)
    &&& callable_head(cs[7], "push"@, CallStyle::Method, mutable, 1) && parameter_is(cs[7], 0, "value"@, var, id)
        && returns_as(cs[7], TypeRef::Void, throws) && lowered_to_method(cs[7], "push"@)
    &&& callable_head(cs[8], "pop"@, CallStyle::Method, mutable, 0) && returns_as(cs[8], var, throws)
        && lowered_to_method(cs[8], "pop"@)
    &&& callable_head(cs[9], "insert"@, CallStyle::Method, mutable, 2) && parameter_is(cs[9], 0, "index"@, TypeRef::Usize, id)
        && parameter_is(cs[9], 1, "value"@, var, id) && returns_as(cs[9], TypeRef::Void, throws)
        && lowered_to_method(cs[9], "insert"@)
    &&& callable_head(cs[10], "remove"@, CallStyle::Method, mutable, 1) && parameter_is(cs[10], 0, "index"@, TypeRef::Usize, id)
        && returns_as(cs[10], var, throws) && lowered_to_method(cs[10], "remove_index"@)
    &&& callable_head(cs[11], "remove"@, CallStyle::Method, mutable, 1) && parameter_is(cs[11], 0, "name"@, string_ref, as_str)
        && returns_as(cs[11], var, throws) && lowered_to_method(cs[11], "remove_field"@)
    &&& callable_head(cs[12], "clear"@, CallStyle::Method, mutable, 0) && returns_as(cs[12], TypeRef::Void, throws)
        && lowered_to_method(cs[12], "clear"@)
    &&& callable_head(cs[13], "len"@, CallStyle::Method, shared, 0) && returns_as(cs[13], TypeRef::Usize, throws)
        && lowered_to_method(cs[13], "len"@)
    &&& callable_head(cs[14], "is_empty"@, CallStyle::Method, shared, 0) && returns_as(cs[14], TypeRef::Bool, throws)
        && lowered_to_method(cs[14], "is_empty"@)
    &&& callable_head(cs[15], "contains_key"@, CallStyle::Method, shared, 1) && parameter_is(cs[15], 0, "name"@, string_ref, as_str)
        && returns_as(cs[15], TypeRef::Bool, throws) && lowered_to_method(cs[15], "contains_key"@)
}

/// The types the `Var` callables mention: `Var`, `String`, `&String`,
/// `JsonError` and `Result<Var, JsonError>`.
pub open spec fn var_types(var: TypeRef, string: TypeRef, string_ref: TypeRef, json_error: TypeRef, result_var: TypeRef) -> bool {
    &&& is_plain_native(var, "rust::stainless_runtime::Var"@)
    &&& is_plain_native(string, "rust::String"@)
    &&& is_string_ref(string_ref)
    &&& is_plain_native(json_error, "rust::stainless_runtime::JsonError"@)
    &&& result_var matches TypeRef::Native { path, arguments } && path@ == "rust::Result"@ && arguments@.len() == 2
        && is_plain_native(arguments@[0], "rust::stainless_runtime::Var"@) && is_plain_native(
        arguments@[1],
        "rust::stainless_runtime::JsonError"@,
    )
}

/// `cs` are exactly the callables of `rust::stainless_runtime::Var`.
pub open spec fn var_callables_hold(cs: Seq<CallableBinding>) -> bool {
    exists|var: TypeRef, string: TypeRef, string_ref: TypeRef, json_error: TypeRef, result_var: TypeRef|
        var_types(var, string, string_ref, json_error, result_var) && #[trigger] var_table(
            cs,
            var,
            string,
            string_ref,
            json_error,
            result_var,
        )
}

/// The construction and conversion callables of `rust::String`, first in
/// its list, over `String` and `&String`.
pub open spec fn string_construction_table(cs: Seq<CallableBinding>, string: TypeRef, string_ref: TypeRef) -> bool {
    &&& cs.len() >= 5
    &&& callable_head(cs[0], "String"@, CallStyle::Constructor, None, 0) && returns_as(cs[0], string, None)
        && lowered_to_function(cs[0], "::std::string::String::new"@)
    &&& callable_head(cs[1], "String"@, CallStyle::Constructor, None, 1) && parameter_is(
        cs[1],
        0,
        "value"@,
        string_ref,
        ArgumentAdaptation::Identity,
    ) && returns_as(cs[1], string, None) && cs[1].lowering == RustLowering::CloneArgument { index: 0 }
    &&& callable_head(cs[2], "with_capacity"@, CallStyle::AssociatedFunction, None, 1) && parameter_is(
        cs[2],
        0,
        "capacity"@,
        TypeRef::Usize,
        ArgumentAdaptation::Identity,
    ) && returns_as(cs[2], string, None) && lowered_to_function(cs[2], "::std::string::String::with_capacity"@)
    &&& callable_head(cs[3], "clone"@, CallStyle::Method, Some(Receiver::Shared), 0) && returns_as(cs[3], string, None)
        && lowered_to_method(cs[3], "clone"@)
    &&& callable_head(cs[4], "into_bytes"@, CallStyle::Method, Some(Receiver::Value), 0) && is_native_of(
        cs[4].return_type,
        "rust::Vec"@,
        seq![TypeRef::U8],
    ) && cs[4].rust_result_error is None && lowered_to_method(cs[4], "into_bytes"@)
}

/// `cs` begin with the construction and conversion callables of
/// `rust::String`.
pub open spec fn string_constructions_hold(cs: Seq<CallableBinding>) -> bool {
    exists|string: TypeRef, string_ref: TypeRef|
        is_plain_native(string, "rust::String"@) && is_string_ref(string_ref)
            && #[trigger] string_construction_table(cs, string, string_ref)
}

} // verus!

verus! {

/// The source names of `cs`, in order.
pub open spec fn names_of(cs: Seq<CallableBinding>) -> Seq<Seq<char>> {
    cs.map_values(|c: CallableBinding| c.source_name@)
}

/// Two valid callable lists whose names all differ form a valid list.
proof fn lemma_valid_concat(a: Seq<CallableBinding>, b: Seq<CallableBinding>)
    requires
        callables_valid(a),
        callables_valid(b),
        forall|i: int, j: int|
            0 <= i < a.len() && 0 <= j < b.len() ==> names_differ(
                #[trigger] names_of(a)[i],
                #[trigger] names_of(b)[j],
            ),
    ensures
        callables_valid(a + b),
{
    let c = a + b;
    assert forall|i: int| 0 <= i < c.len() implies callable_well_formed(#[trigger] c[i]) by {
        if i < a.len() {
            assert(c[i] == a[i]);
        } else {
            assert(c[i] == b[i - a.len()]);
        }
    }
    assert forall|i: int, j: int| 0 <= i < j < c.len() implies !same_signature(
        #[trigger] c[i],
        #[trigger] c[j],
    ) by {
        if j < a.len() {
            assert(c[i] == a[i] && c[j] == a[j]);
        } else if i >= a.len() {
            assert(c[i] == b[i - a.len()] && c[j] == b[j - a.len()]);
        } else {
            assert(c[i] == a[i] && c[j] == b[j - a.len()]);
            assert(names_differ(names_of(a)[i], names_of(b)[j - a.len()]));
        }
    }
}

/// Construction of `rust::Vec<T>`.
pub fn vec_construction(vec_t: &TypeRef) -> (r: Vec<CallableBinding>)
    requires
        *vec_t is Native,
    ensures
        r@.len() == 2,
        callables_valid(r@),
        names_of(r@) == seq!["Vec"@, "with_capacity"@],
        vec_construction_table(r@, *vec_t),
{
    let mut v = Vec::new();
    v.push(
        constructor(
            "Vec",
            Vec::new(),
            vec_t.copy(),
            RustLowering::AssociatedFunction { rust_path: String::from_str("::std::vec::Vec::new") },
        ),
    );
    v.push(
        associated(
            "with_capacity",
            one_parameter("capacity", TypeRef::Usize),
            vec_t.copy(),
            "::std::vec::Vec::with_capacity",
        ),
    );
    proof {
        reveal_strlit("Vec");
        reveal_strlit("with_capacity");
        lemma_valid_from_names(v@, seq!["Vec"@, "with_capacity"@]);
        assert(names_of(v@) =~= seq!["Vec"@, "with_capacity"@]);
    }
    v
}

/// Capacity queries and adjustments of `rust::Vec<T>`.
pub fn vec_capacity_methods() -> (r: Vec<CallableBinding>)
    ensures
        r@.len() == 7,
        callables_valid(r@),
        names_of(r@) == seq![
            "len"@,
            "is_empty"@,
            "capacity"@,
            "reserve"@,
            "reserve_exact"@,
            "shrink_to"@,
            "shrink_to_fit"@,
        ],
        vec_capacity_table(r@),
{
    let mut v = Vec::new();
    v.push(method("len", Receiver::Shared, Vec::new(), TypeRef::Usize));
    v.push(method("is_empty", Receiver::Shared, Vec::new(), TypeRef::Bool));
    v.push(method("capacity", Receiver::Shared, Vec::new(), TypeRef::Usize));
    v.push(method("reserve", Receiver::Mutable, one_parameter("additional", TypeRef::Usize), TypeRef::Void));
    v.push(method("reserve_exact", Receiver::Mutable, one_parameter("additional", TypeRef::Usize), TypeRef::Void));
    v.push(method("shrink_to", Receiver::Mutable, one_parameter("minimum_capacity", TypeRef::Usize), TypeRef::Void));
    v.push(method("shrink_to_fit", Receiver::Mutable, Vec::new(), TypeRef::Void));
    proof {
        reveal_strlit("len");
        reveal_strlit("is_empty");
        reveal_strlit("capacity");
        reveal_strlit("reserve");
        reveal_strlit("reserve_exact");
        reveal_strlit("shrink_to");
        reveal_strlit("shrink_to_fit");
        let names = seq![
            "len"@,
            "is_empty"@,
            "capacity"@,
            "reserve"@,
            "reserve_exact"@,
            "shrink_to"@,
            "shrink_to_fit"@,
        ];
        lemma_valid_from_names(v@, names);
        assert(names_of(v@) =~= names);
    }
    v
}

} // verus!

verus! {

/// Whether `t` is `&rust::String`.
pub open spec fn is_string_ref(t: TypeRef) -> bool {
    t matches TypeRef::Reference { mutable, target } && !mutable && is_plain_native(
        *target,
        "rust::String"@,
    )
}

/// Comparing with `&rust::String` decides [`is_string_ref`].
pub(crate) proof fn lemma_string_ref_eq(t: TypeRef, string_ref: TypeRef)
    requires
        is_string_ref(string_ref),
    ensures
        type_eq(t, string_ref) <==> is_string_ref(t),
{
    match (t, string_ref) {
        (
            TypeRef::Reference { mutable: m1, target: t1 },
            TypeRef::Reference { mutable: m2, target: t2 },
        ) => {
            assert(type_eq(t, string_ref) == (m1 == m2 && type_eq(*t1, *t2)));
            match (*t1, *t2) {
                (
                    TypeRef::Native { path: p1, arguments: a1 },
                    TypeRef::Native { path: p2, arguments: a2 },
                ) => {
                    assert(a2@.len() == 0);
                    assert(type_eq(*t1, *t2) == (p1@ == p2@ && type_list_eq(a1@, a2@)));
                    if a1@.len() == 0 {
                        assert(type_list_eq(a1@, a2@));
                    } else {
                        assert(!type_list_eq(a1@, a2@));
                    }
                    assert(type_eq(t, string_ref) == (m1 == m2 && type_eq(*t1, *t2)));
                },
                _ => {},
            }
        },
        _ => {},
    }
}

/// A list of named parameter types holding one entry.
fn one_typed(name: &str, ty: TypeRef) -> (r: Vec<(String, TypeRef)>)
    ensures
        r@.len() == 1,
        r@[0].0@ == name@,
        r@[0].1 == ty,
{
    let mut v = Vec::new();
    v.push((String::from_str(name), ty));
    v
}

/// A list of named parameter types holding two entries.
fn two_typed(first: &str, first_ty: TypeRef, second: &str, second_ty: TypeRef) -> (r: Vec<
    (String, TypeRef),
>)
    ensures
        r@.len() == 2,
        r@[0].0@ == first@,
        r@[0].1 == first_ty,
        r@[1].0@ == second@,
        r@[1].1 == second_ty,
{
    let mut v = Vec::new();
    v.push((String::from_str(first), first_ty));
    v.push((String::from_str(second), second_ty));
    v
}

/// A method whose `&rust::String` parameters are passed to Rust as `&str`.
pub fn string_ref_method(
    source_name: &str,
    receiver: Receiver,
    parameters: Vec<(String, TypeRef)>,
    return_type: TypeRef,
) -> (r: CallableBinding)
    ensures
        r.source_name@ == source_name@,
        r.style == CallStyle::Method,
        r.receiver == Some(receiver),
        r.parameters@.len() == parameters@.len(),
        forall|k: int|
            0 <= k < parameters@.len() ==> {
                &&& (#[trigger] r.parameters@[k]).name == parameters@[k].0
                &&& r.parameters@[k].ty == parameters@[k].1
                &&& r.parameters@[k].adaptation == if is_string_ref(parameters@[k].1) {
                    ArgumentAdaptation::StringRefToStr
                } else {
                    ArgumentAdaptation::Identity
                }
            },
        !r.is_async,
        r.return_type == return_type,
        r.rust_result_error is None,
        r.requirements@.len() == 0,
        r.lowering matches RustLowering::Method { rust_name: n } && n@ == source_name@,
{
    let string_ref = string_ref_type();
    let ghost input = parameters@;
    let mut rest = parameters;
    let mut adapted: Vec<Parameter> = Vec::new();
    let n = rest.len();
    while adapted.len() < n
        invariant
            n == input.len(),
            is_string_ref(string_ref),
            adapted@.len() <= n,
            rest@ == input.skip(adapted@.len() as int),
            forall|k: int|
                0 <= k < adapted@.len() ==> {
                    &&& (#[trigger] adapted@[k]).name == input[k].0
                    &&& adapted@[k].ty == input[k].1
                    &&& adapted@[k].adaptation == if is_string_ref(input[k].1) {
                        ArgumentAdaptation::StringRefToStr
                    } else {
                        ArgumentAdaptation::Identity
                    }
                },
        decreases n - adapted@.len(),
    {
        let (name, ty) = rest.remove(0);
        proof {
            lemma_string_ref_eq(ty, string_ref);
        }
        let adaptation = if types_equal(&ty, &string_ref) {
            ArgumentAdaptation::StringRefToStr
        } else {
            ArgumentAdaptation::Identity
        };
        adapted.push(Parameter::adapted(name, ty, adaptation));
        proof {
            assert(rest@ =~= input.skip(adapted@.len() as int));
        }
    }
    method(source_name, receiver, adapted, return_type)
}

/// A single trait requirement.
fn one_requirement(parameter: &str, rust_trait: &str) -> (r: Vec<TraitRequirement>)
    ensures
        r@.len() == 1,
        r@[0].parameter@ == parameter@,
        r@[0].rust_trait@ == rust_trait@,
{
    let mut v = Vec::new();
    v.push(requirement(parameter, rust_trait));
    v
}

/// Two trait requirements.
fn two_requirements(first: &str, first_trait: &str, second: &str, second_trait: &str) -> (r: Vec<
    TraitRequirement,
>)
    ensures
        r@.len() == 2,
        r@[0].parameter@ == first@,
        r@[0].rust_trait@ == first_trait@,
        r@[1].parameter@ == second@,
        r@[1].rust_trait@ == second_trait@,
{
    let mut v = Vec::new();
    v.push(requirement(first, first_trait));
    v.push(requirement(second, second_trait));
    v
}

/// A map method that lends the value under a key to a one-shot callback and
/// reports whether the key was present.
fn map_with_callback(
    source_name: &str,
    receiver: Receiver,
    k: &TypeRef,
    value_ref: TypeRef,
    rust_path: &str,
) -> (r: CallableBinding)
    ensures
        r.source_name@ == source_name@,
        r.style == CallStyle::Method,
        r.receiver == Some(receiver),
        r.parameters@.len() == 2,
        r.parameters@[0].name@ == "key"@,
        r.parameters@[0].ty matches TypeRef::Reference { mutable, target } && !mutable && type_eq(
            *target,
            *k,
        ),
        r.parameters@[1].name@ == "callback"@,
        r.parameters@[0].adaptation == ArgumentAdaptation::Identity,
        r.parameters@[1].adaptation == ArgumentAdaptation::Identity,
        r.parameters@[1].ty == TypeRef::Callback(
            crate::interop::model::CallbackType {
                kind: CallbackKind::FnOnce,
                escape: CallbackEscape::Call,
                parameters: r.parameters@[1].ty->Callback_0.parameters,
                return_type: Box::new(TypeRef::Void),
            },
        ),
        r.parameters@[1].ty->Callback_0.parameters@ == seq![value_ref],
        !r.is_async,
        r.return_type == TypeRef::Bool,
        r.rust_result_error is None,
        r.requirements@.len() == 1,
        r.requirements@[0].parameter@ == "K"@,
        r.requirements@[0].rust_trait@ == "::core::cmp::Ord"@,
        r.lowering matches RustLowering::FunctionWithReceiver { rust_path: p } && p@ == rust_path@,
{
    let ghost value = value_ref;
    let mut callback_parameters = Vec::new();
    callback_parameters.push(value_ref);
    assert(callback_parameters@ =~= seq![value]);
    let callback = TypeRef::callback(
        CallbackKind::FnOnce,
        CallbackEscape::Call,
        callback_parameters,
        TypeRef::Void,
    );
    CallableBinding {
        source_name: String::from_str(source_name),
        style: CallStyle::Method,
        receiver: Some(receiver),
        parameters: two_parameters("key", TypeRef::shared_ref(k.copy()), "callback", callback),
        is_async: false,
        return_type: TypeRef::Bool,
        rust_result_error: None,
        requirements: one_requirement(K, "::core::cmp::Ord"),
        lowering: RustLowering::FunctionWithReceiver { rust_path: String::from_str(rust_path) },
    }
}

} // verus!

verus! {

/// Element insertion, removal, and reordering of `rust::Vec<T>`.
pub fn vec_element_methods(t: &TypeRef, vec_t: &TypeRef) -> (r: Vec<CallableBinding>)
    requires
        *t is Parameter,
    ensures
        r@.len() == 9,
        callables_valid(r@),
        names_of(r@) == seq!["push"@, "pop"@, "clear"@, "truncate"@, "insert"@, "remove"@, "swap_remove"@, "append"@, "reverse"@],
        vec_element_table(r@, *t, *vec_t),
{
    let mut cs = Vec::new();
    cs.push(method("push", Receiver::Mutable, one_parameter("value", t.copy()), TypeRef::Void));
    cs.push(method("pop", Receiver::Mutable, Vec::new(), option_of(t.copy())));
    cs.push(method("clear", Receiver::Mutable, Vec::new(), TypeRef::Void));
    cs.push(method("truncate", Receiver::Mutable, one_parameter("length", TypeRef::Usize), TypeRef::Void));
    cs.push(method("insert", Receiver::Mutable, two_parameters("index", TypeRef::Usize, "value", t.copy()), TypeRef::Void));
    cs.push(method("remove", Receiver::Mutable, one_parameter("index", TypeRef::Usize), t.copy()));
    cs.push(method("swap_remove", Receiver::Mutable, one_parameter("index", TypeRef::Usize), t.copy()));
    cs.push(method("append", Receiver::Mutable, one_parameter("other", TypeRef::mutable_ref(vec_t.copy())), TypeRef::Void));
    cs.push(method("reverse", Receiver::Mutable, Vec::new(), TypeRef::Void));
    proof {
        reveal_strlit("append");
        reveal_strlit("clear");
        reveal_strlit("insert");
        reveal_strlit("pop");
        reveal_strlit("push");
        reveal_strlit("remove");
        reveal_strlit("reverse");
        reveal_strlit("swap_remove");
        reveal_strlit("truncate");
        lemma_valid_from_names(cs@, seq!["push"@, "pop"@, "clear"@, "truncate"@, "insert"@, "remove"@, "swap_remove"@, "append"@, "reverse"@]);
        assert(names_of(cs@) =~= seq!["push"@, "pop"@, "clear"@, "truncate"@, "insert"@, "remove"@, "swap_remove"@, "append"@, "reverse"@]);
    }
    cs
}

/// Trait-bounded methods of `rust::Vec<T>`.
pub fn vec_trait_methods(t: &TypeRef, vec_t: &TypeRef) -> (r: Vec<CallableBinding>)
    requires
        *vec_t is Native,
    ensures
        r@.len() == 4,
        callables_valid(r@),
        names_of(r@) == seq!["clone"@, "contains"@, "sort"@, "dedup"@],
        vec_trait_table(r@, *t, *vec_t),
{
    let mut cs = Vec::new();
    cs.push(method_with_requirements("clone", Receiver::Shared, Vec::new(), vec_t.copy(), one_requirement("T", "::core::clone::Clone")));
    cs.push(method_with_requirements("contains", Receiver::Shared, one_parameter("value", TypeRef::shared_ref(t.copy())), TypeRef::Bool, one_requirement("T", "::core::cmp::PartialEq")));
    cs.push(method_with_requirements("sort", Receiver::Mutable, Vec::new(), TypeRef::Void, one_requirement("T", "::core::cmp::Ord")));
    cs.push(method_with_requirements("dedup", Receiver::Mutable, Vec::new(), TypeRef::Void, one_requirement("T", "::core::cmp::PartialEq")));
    proof {
        reveal_strlit("clone");
        reveal_strlit("contains");
        reveal_strlit("dedup");
        reveal_strlit("sort");
        lemma_valid_from_names(cs@, seq!["clone"@, "contains"@, "sort"@, "dedup"@]);
        assert(names_of(cs@) =~= seq!["clone"@, "contains"@, "sort"@, "dedup"@]);
    }
    cs
}

/// Constructors and methods of `rust::List<T>`.
pub fn list_callables(t: &TypeRef, list_t: &TypeRef) -> (r: Vec<CallableBinding>)
    requires
        *t is Parameter,
        *list_t is Native,
    ensures
        r@.len() == 11,
        callables_valid(r@),
        names_of(r@) == seq!["List"@, "len"@, "is_empty"@, "clear"@, "push_front"@, "push_back"@, "pop_front"@, "pop_back"@, "append"@, "contains"@, "clone"@],
        list_table(r@, *t, *list_t),
{
    let mut cs = Vec::new();
    cs.push(constructor("List", Vec::new(), list_t.copy(), RustLowering::AssociatedFunction { rust_path: String::from_str("::std::collections::LinkedList::new") }));
    cs.push(method("len", Receiver::Shared, Vec::new(), TypeRef::Usize));
    cs.push(method("is_empty", Receiver::Shared, Vec::new(), TypeRef::Bool));
    cs.push(method("clear", Receiver::Mutable, Vec::new(), TypeRef::Void));
    cs.push(method("push_front", Receiver::Mutable, one_parameter("value", t.copy()), TypeRef::Void));
    cs.push(method("push_back", Receiver::Mutable, one_parameter("value", t.copy()), TypeRef::Void));
    cs.push(method("pop_front", Receiver::Mutable, Vec::new(), option_of(t.copy())));
    cs.push(method("pop_back", Receiver::Mutable, Vec::new(), option_of(t.copy())));
    cs.push(method("append", Receiver::Mutable, one_parameter("other", TypeRef::mutable_ref(list_t.copy())), TypeRef::Void));
    cs.push(method_with_requirements("contains", Receiver::Shared, one_parameter("value", TypeRef::shared_ref(t.copy())), TypeRef::Bool, one_requirement("T", "::core::cmp::PartialEq")));
    cs.push(method_with_requirements("clone", Receiver::Shared, Vec::new(), list_t.copy(), one_requirement("T", "::core::clone::Clone")));
    proof {
        reveal_strlit("List");
        reveal_strlit("append");
        reveal_strlit("clear");
        reveal_strlit("clone");
        reveal_strlit("contains");
        reveal_strlit("is_empty");
        reveal_strlit("len");
        reveal_strlit("pop_back");
        reveal_strlit("pop_front");
        reveal_strlit("push_back");
        reveal_strlit("push_front");
        lemma_valid_from_names(cs@, seq!["List"@, "len"@, "is_empty"@, "clear"@, "push_front"@, "push_back"@, "pop_front"@, "pop_back"@, "append"@, "contains"@, "clone"@]);
        assert(names_of(cs@) =~= seq!["List"@, "len"@, "is_empty"@, "clear"@, "push_front"@, "push_back"@, "pop_front"@, "pop_back"@, "append"@, "contains"@, "clone"@]);
    }
    cs
}

/// Constructors and methods of `rust::Queue<T>`.
pub fn queue_callables(t: &TypeRef, queue_t: &TypeRef) -> (r: Vec<CallableBinding>)
    requires
        *t is Parameter,
        *queue_t is Native,
    ensures
        r@.len() == 24,
        callables_valid(r@),
        names_of(r@) == seq!["Queue"@, "with_capacity"@, "len"@, "is_empty"@, "capacity"@, "reserve"@, "reserve_exact"@, "shrink_to_fit"@, "shrink_to"@, "clear"@, "truncate"@, "push_front"@, "push_back"@, "pop_front"@, "pop_back"@, "insert"@, "remove"@, "swap_remove_front"@, "swap_remove_back"@, "append"@, "rotate_left"@, "rotate_right"@, "contains"@, "clone"@],
        queue_table(r@, *t, *queue_t),
{
    let mut cs = Vec::new();
    cs.push(constructor("Queue", Vec::new(), queue_t.copy(), RustLowering::AssociatedFunction { rust_path: String::from_str("::std::collections::VecDeque::new") }));
    cs.push(associated("with_capacity", one_parameter("capacity", TypeRef::Usize), queue_t.copy(), "::std::collections::VecDeque::with_capacity"));
    cs.push(method("len", Receiver::Shared, Vec::new(), TypeRef::Usize));
    cs.push(method("is_empty", Receiver::Shared, Vec::new(), TypeRef::Bool));
    cs.push(method("capacity", Receiver::Shared, Vec::new(), TypeRef::Usize));
    cs.push(method("reserve", Receiver::Mutable, one_parameter("additional", TypeRef::Usize), TypeRef::Void));
    cs.push(method("reserve_exact", Receiver::Mutable, one_parameter("additional", TypeRef::Usize), TypeRef::Void));
    cs.push(method("shrink_to_fit", Receiver::Mutable, Vec::new(), TypeRef::Void));
    cs.push(method("shrink_to", Receiver::Mutable, one_parameter("minimum_capacity", TypeRef::Usize), TypeRef::Void));
    cs.push(method("clear", Receiver::Mutable, Vec::new(), TypeRef::Void));
    cs.push(method("truncate", Receiver::Mutable, one_parameter("length", TypeRef::Usize), TypeRef::Void));
    cs.push(method("push_front", Receiver::Mutable, one_parameter("value", t.copy()), TypeRef::Void));
    cs.push(method("push_back", Receiver::Mutable, one_parameter("value", t.copy()), TypeRef::Void));
    cs.push(method("pop_front", Receiver::Mutable, Vec::new(), option_of(t.copy())));
    cs.push(method("pop_back", Receiver::Mutable, Vec::new(), option_of(t.copy())));
    cs.push(method("insert", Receiver::Mutable, two_parameters("index", TypeRef::Usize, "value", t.copy()), TypeRef::Void));
    cs.push(method("remove", Receiver::Mutable, one_parameter("index", TypeRef::Usize), option_of(t.copy())));
    cs.push(method("swap_remove_front", Receiver::Mutable, one_parameter("index", TypeRef::Usize), option_of(t.copy())));
    cs.push(method("swap_remove_back", Receiver::Mutable, one_parameter("index", TypeRef::Usize), option_of(t.copy())));
    cs.push(method("append", Receiver::Mutable, one_parameter("other", TypeRef::mutable_ref(queue_t.copy())), TypeRef::Void));
    cs.push(method("rotate_left", Receiver::Mutable, one_parameter("middle", TypeRef::Usize), TypeRef::Void));
    cs.push(method("rotate_right", Receiver::Mutable, one_parameter("middle", TypeRef::Usize), TypeRef::Void));
    cs.push(method_with_requirements("contains", Receiver::Shared, one_parameter("value", TypeRef::shared_ref(t.copy())), TypeRef::Bool, one_requirement("T", "::core::cmp::PartialEq")));
    cs.push(method_with_requirements("clone", Receiver::Shared, Vec::new(), queue_t.copy(), one_requirement("T", "::core::clone::Clone")));
    proof {
        reveal_strlit("Queue");
        reveal_strlit("append");
        reveal_strlit("capacity");
        reveal_strlit("clear");
        reveal_strlit("clone");
        reveal_strlit("contains");
        reveal_strlit("insert");
        reveal_strlit("is_empty");
        reveal_strlit("len");
        reveal_strlit("pop_back");
        reveal_strlit("pop_front");
        reveal_strlit("push_back");
        reveal_strlit("push_front");
        reveal_strlit("remove");
        reveal_strlit("reserve");
        reveal_strlit("reserve_exact");
        reveal_strlit("rotate_left");
        reveal_strlit("rotate_right");
        reveal_strlit("shrink_to");
        reveal_strlit("shrink_to_fit");
        reveal_strlit("swap_remove_back");
        reveal_strlit("swap_remove_front");
        reveal_strlit("truncate");
        reveal_strlit("with_capacity");
        lemma_valid_from_names(cs@, seq!["Queue"@, "with_capacity"@, "len"@, "is_empty"@, "capacity"@, "reserve"@, "reserve_exact"@, "shrink_to_fit"@, "shrink_to"@, "clear"@, "truncate"@, "push_front"@, "push_back"@, "pop_front"@, "pop_back"@, "insert"@, "remove"@, "swap_remove_front"@, "swap_remove_back"@, "append"@, "rotate_left"@, "rotate_right"@, "contains"@, "clone"@]);
        assert(names_of(cs@) =~= seq!["Queue"@, "with_capacity"@, "len"@, "is_empty"@, "capacity"@, "reserve"@, "reserve_exact"@, "shrink_to_fit"@, "shrink_to"@, "clear"@, "truncate"@, "push_front"@, "push_back"@, "pop_front"@, "pop_back"@, "insert"@, "remove"@, "swap_remove_front"@, "swap_remove_back"@, "append"@, "rotate_left"@, "rotate_right"@, "contains"@, "clone"@]);
    }
    cs
}

/// Constructors and methods of `rust::Set<T>`.
pub fn set_callables(t: &TypeRef, set_t: &TypeRef) -> (r: Vec<CallableBinding>)
    requires
        *t is Parameter,
        *set_t is Native,
    ensures
        r@.len() == 11,
        callables_valid(r@),
        names_of(r@) == seq!["Set"@, "len"@, "is_empty"@, "clear"@, "insert"@, "replace"@, "remove"@, "take"@, "contains"@, "append"@, "clone"@],
        set_table(r@, *t, *set_t),
{
    let mut cs = Vec::new();
    cs.push(constructor("Set", Vec::new(), set_t.copy(), RustLowering::AssociatedFunction { rust_path: String::from_str("::std::collections::BTreeSet::new") }));
    cs.push(method("len", Receiver::Shared, Vec::new(), TypeRef::Usize));
    cs.push(method("is_empty", Receiver::Shared, Vec::new(), TypeRef::Bool));
    cs.push(method("clear", Receiver::Mutable, Vec::new(), TypeRef::Void));
    cs.push(method_with_requirements("insert", Receiver::Mutable, one_parameter("value", t.copy()), TypeRef::Bool, one_requirement("T", "::core::cmp::Ord")));
    cs.push(method_with_requirements("replace", Receiver::Mutable, one_parameter("value", t.copy()), option_of(t.copy()), one_requirement("T", "::core::cmp::Ord")));
    cs.push(method_with_requirements("remove", Receiver::Mutable, one_parameter("value", TypeRef::shared_ref(t.copy())), TypeRef::Bool, one_requirement("T", "::core::cmp::Ord")));
    cs.push(method_with_requirements("take", Receiver::Mutable, one_parameter("value", TypeRef::shared_ref(t.copy())), option_of(t.copy()), one_requirement("T", "::core::cmp::Ord")));
    cs.push(method_with_requirements("contains", Receiver::Shared, one_parameter("value", TypeRef::shared_ref(t.copy())), TypeRef::Bool, one_requirement("T", "::core::cmp::Ord")));
    cs.push(method_with_requirements("append", Receiver::Mutable, one_parameter("other", TypeRef::mutable_ref(set_t.copy())), TypeRef::Void, one_requirement("T", "::core::cmp::Ord")));
    cs.push(method_with_requirements("clone", Receiver::Shared, Vec::new(), set_t.copy(), one_requirement("T", "::core::clone::Clone")));
    proof {
        reveal_strlit("Set");
        reveal_strlit("append");
        reveal_strlit("clear");
        reveal_strlit("clone");
        reveal_strlit("contains");
        reveal_strlit("insert");
        reveal_strlit("is_empty");
        reveal_strlit("len");
        reveal_strlit("remove");
        reveal_strlit("replace");
        reveal_strlit("take");
        lemma_valid_from_names(cs@, seq!["Set"@, "len"@, "is_empty"@, "clear"@, "insert"@, "replace"@, "remove"@, "take"@, "contains"@, "append"@, "clone"@]);
        assert(names_of(cs@) =~= seq!["Set"@, "len"@, "is_empty"@, "clear"@, "insert"@, "replace"@, "remove"@, "take"@, "contains"@, "append"@, "clone"@]);
    }
    cs
}

/// Constructors and methods of `rust::Map<K, V>`.
pub fn map_callables(k: &TypeRef, v: &TypeRef, map_t: &TypeRef) -> (r: Vec<CallableBinding>)
    requires
        *k is Parameter,
        *v is Parameter,
        *map_t is Native,
    ensures
        r@.len() == 11,
        callables_valid(r@),
        names_of(r@) == seq!["Map"@, "len"@, "is_empty"@, "clear"@, "insert"@, "remove"@, "contains_key"@, "with"@, "with_mut"@, "append"@, "clone"@],
        map_table(r@, *k, *v, *map_t),
{
    let mut cs = Vec::new();
    cs.push(constructor("Map", Vec::new(), map_t.copy(), RustLowering::AssociatedFunction { rust_path: String::from_str("::std::collections::BTreeMap::new") }));
    cs.push(method("len", Receiver::Shared, Vec::new(), TypeRef::Usize));
    cs.push(method("is_empty", Receiver::Shared, Vec::new(), TypeRef::Bool));
    cs.push(method("clear", Receiver::Mutable, Vec::new(), TypeRef::Void));
    cs.push(method_with_requirements("insert", Receiver::Mutable, two_parameters("key", k.copy(), "value", v.copy()), option_of(v.copy()), one_requirement("K", "::core::cmp::Ord")));
    cs.push(method_with_requirements("remove", Receiver::Mutable, one_parameter("key", TypeRef::shared_ref(k.copy())), option_of(v.copy()), one_requirement("K", "::core::cmp::Ord")));
    cs.push(method_with_requirements("contains_key", Receiver::Shared, one_parameter("key", TypeRef::shared_ref(k.copy())), TypeRef::Bool, one_requirement("K", "::core::cmp::Ord")));
    cs.push(map_with_callback("with", Receiver::Shared, k, TypeRef::shared_ref(v.copy()), "::stainless_runtime::btree_map_with"));
    cs.push(map_with_callback("with_mut", Receiver::Mutable, k, TypeRef::mutable_ref(v.copy()), "::stainless_runtime::btree_map_with_mut"));
    cs.push(method_with_requirements("append", Receiver::Mutable, one_parameter("other", TypeRef::mutable_ref(map_t.copy())), TypeRef::Void, one_requirement("K", "::core::cmp::Ord")));
    cs.push(method_with_requirements("clone", Receiver::Shared, Vec::new(), map_t.copy(), two_requirements("K", "::core::clone::Clone", "V", "::core::clone::Clone")));
    proof {
        reveal_strlit("Map");
        reveal_strlit("append");
        reveal_strlit("clear");
        reveal_strlit("clone");
        reveal_strlit("contains_key");
        reveal_strlit("insert");
        reveal_strlit("is_empty");
        reveal_strlit("len");
        reveal_strlit("remove");
        reveal_strlit("with");
        reveal_strlit("with_mut");
        lemma_valid_from_names(cs@, seq!["Map"@, "len"@, "is_empty"@, "clear"@, "insert"@, "remove"@, "contains_key"@, "with"@, "with_mut"@, "append"@, "clone"@]);
        assert(names_of(cs@) =~= seq!["Map"@, "len"@, "is_empty"@, "clear"@, "insert"@, "remove"@, "contains_key"@, "with"@, "with_mut"@, "append"@, "clone"@]);
    }
    cs
}

/// Construction and conversion of `rust::String`.
pub fn string_construction(string: &TypeRef, string_ref: &TypeRef) -> (r: Vec<CallableBinding>)
    requires
        *string is Native,
    ensures
        r@.len() == 5,
        callables_valid(r@),
        names_of(r@) == seq!["String"@, "String"@, "with_capacity"@, "clone"@, "into_bytes"@],
        string_construction_table(r@, *string, *string_ref),
{
    let mut cs = Vec::new();
    cs.push(constructor("String", Vec::new(), string.copy(), RustLowering::AssociatedFunction { rust_path: String::from_str("::std::string::String::new") }));
    cs.push(constructor("String", one_parameter("value", string_ref.copy()), string.copy(), RustLowering::CloneArgument { index: 0 }));
    cs.push(associated("with_capacity", one_parameter("capacity", TypeRef::Usize), string.copy(), "::std::string::String::with_capacity"));
    cs.push(method("clone", Receiver::Shared, Vec::new(), string.copy()));
    cs.push(method("into_bytes", Receiver::Value, Vec::new(), vec_of(TypeRef::U8)));
    proof {
        reveal_strlit("String");
        reveal_strlit("clone");
        reveal_strlit("into_bytes");
        reveal_strlit("with_capacity");
        assert(!same_signature(cs@[0], cs@[1]));
        lemma_valid_from_names(cs@, seq!["String"@, "String"@, "with_capacity"@, "clone"@, "into_bytes"@]);
        assert(names_of(cs@) =~= seq!["String"@, "String"@, "with_capacity"@, "clone"@, "into_bytes"@]);
    }
    cs
}

/// Capacity queries and adjustments of `rust::String`.
pub fn string_capacity_methods() -> (r: Vec<CallableBinding>)
    ensures
        r@.len() == 8,
        callables_valid(r@),
        names_of(r@) == seq!["len"@, "is_empty"@, "capacity"@, "reserve"@, "reserve_exact"@, "shrink_to"@, "shrink_to_fit"@, "truncate"@],
        string_capacity_table(r@),
{
    let mut cs = Vec::new();
    cs.push(method("len", Receiver::Shared, Vec::new(), TypeRef::Usize));
    cs.push(method("is_empty", Receiver::Shared, Vec::new(), TypeRef::Bool));
    cs.push(method("capacity", Receiver::Shared, Vec::new(), TypeRef::Usize));
    cs.push(method("reserve", Receiver::Mutable, one_parameter("additional", TypeRef::Usize), TypeRef::Void));
    cs.push(method("reserve_exact", Receiver::Mutable, one_parameter("additional", TypeRef::Usize), TypeRef::Void));
    cs.push(method("shrink_to", Receiver::Mutable, one_parameter("minimum_capacity", TypeRef::Usize), TypeRef::Void));
    cs.push(method("shrink_to_fit", Receiver::Mutable, Vec::new(), TypeRef::Void));
    cs.push(method("truncate", Receiver::Mutable, one_parameter("length", TypeRef::Usize), TypeRef::Void));
    proof {
        reveal_strlit("capacity");
        reveal_strlit("is_empty");
        reveal_strlit("len");
        reveal_strlit("reserve");
        reveal_strlit("reserve_exact");
        reveal_strlit("shrink_to");
        reveal_strlit("shrink_to_fit");
        reveal_strlit("truncate");
        lemma_valid_from_names(cs@, seq!["len"@, "is_empty"@, "capacity"@, "reserve"@, "reserve_exact"@, "shrink_to"@, "shrink_to_fit"@, "truncate"@]);
        assert(names_of(cs@) =~= seq!["len"@, "is_empty"@, "capacity"@, "reserve"@, "reserve_exact"@, "shrink_to"@, "shrink_to_fit"@, "truncate"@]);
    }
    cs
}

/// In-place edits of `rust::String`.
pub fn string_mutation_methods(string_ref: &TypeRef) -> (r: Vec<CallableBinding>)
    requires
        is_string_ref(*string_ref),
    ensures
        r@.len() == 9,
        callables_valid(r@),
        names_of(r@) == seq!["clear"@, "push"@, "push_str"@, "pop"@, "insert"@, "insert_str"@, "remove"@, "make_ascii_lowercase"@, "make_ascii_uppercase"@],
        string_mutation_table(r@, *string_ref),
{
    let mut cs = Vec::new();
    cs.push(method("clear", Receiver::Mutable, Vec::new(), TypeRef::Void));
    cs.push(method("push", Receiver::Mutable, one_parameter("value", TypeRef::Char), TypeRef::Void));
    cs.push(string_ref_method("push_str", Receiver::Mutable, one_typed("value", string_ref.copy()), TypeRef::Void));
    cs.push(method("pop", Receiver::Mutable, Vec::new(), option_of(TypeRef::Char)));
    cs.push(method("insert", Receiver::Mutable, two_parameters("index", TypeRef::Usize, "value", TypeRef::Char), TypeRef::Void));
    cs.push(string_ref_method("insert_str", Receiver::Mutable, two_typed("index", TypeRef::Usize, "value", string_ref.copy()), TypeRef::Void));
    cs.push(method("remove", Receiver::Mutable, one_parameter("index", TypeRef::Usize), TypeRef::Char));
    cs.push(method("make_ascii_lowercase", Receiver::Mutable, Vec::new(), TypeRef::Void));
    cs.push(method("make_ascii_uppercase", Receiver::Mutable, Vec::new(), TypeRef::Void));
    proof {
        lemma_string_ref_eq(cs@[2].parameters@[0].ty, *string_ref);
        lemma_string_ref_eq(cs@[5].parameters@[1].ty, *string_ref);
        reveal_strlit("clear");
        reveal_strlit("insert");
        reveal_strlit("insert_str");
        reveal_strlit("make_ascii_lowercase");
        reveal_strlit("make_ascii_uppercase");
        reveal_strlit("pop");
        reveal_strlit("push");
        reveal_strlit("push_str");
        reveal_strlit("remove");
        lemma_valid_from_names(cs@, seq!["clear"@, "push"@, "push_str"@, "pop"@, "insert"@, "insert_str"@, "remove"@, "make_ascii_lowercase"@, "make_ascii_uppercase"@]);
        assert(names_of(cs@) =~= seq!["clear"@, "push"@, "push_str"@, "pop"@, "insert"@, "insert_str"@, "remove"@, "make_ascii_lowercase"@, "make_ascii_uppercase"@]);
    }
    cs
}

/// Queries and derived strings of `rust::String`.
pub fn string_query_methods(string: &TypeRef, string_ref: &TypeRef) -> (r: Vec<CallableBinding>)
    requires
        is_string_ref(*string_ref),
        *string is Native,
    ensures
        r@.len() == 9,
        callables_valid(r@),
        names_of(r@) == seq!["is_ascii"@, "contains"@, "starts_with"@, "ends_with"@, "eq_ignore_ascii_case"@, "replace"@, "repeat"@, "to_lowercase"@, "to_uppercase"@],
        string_query_table(r@, *string, *string_ref),
{
    let mut cs = Vec::new();
    cs.push(method("is_ascii", Receiver::Shared, Vec::new(), TypeRef::Bool));
    cs.push(string_ref_method("contains", Receiver::Shared, one_typed("pattern", string_ref.copy()), TypeRef::Bool));
    cs.push(string_ref_method("starts_with", Receiver::Shared, one_typed("pattern", string_ref.copy()), TypeRef::Bool));
    cs.push(string_ref_method("ends_with", Receiver::Shared, one_typed("pattern", string_ref.copy()), TypeRef::Bool));
    cs.push(string_ref_method("eq_ignore_ascii_case", Receiver::Shared, one_typed("other", string_ref.copy()), TypeRef::Bool));
    cs.push(string_ref_method("replace", Receiver::Shared, two_typed("from", string_ref.copy(), "to", string_ref.copy()), string.copy()));
    cs.push(method("repeat", Receiver::Shared, one_parameter("count", TypeRef::Usize), string.copy()));
    cs.push(method("to_lowercase", Receiver::Shared, Vec::new(), string.copy()));
    cs.push(method("to_uppercase", Receiver::Shared, Vec::new(), string.copy()));
    proof {
        lemma_string_ref_eq(cs@[1].parameters@[0].ty, *string_ref);
        lemma_string_ref_eq(cs@[2].parameters@[0].ty, *string_ref);
        lemma_string_ref_eq(cs@[3].parameters@[0].ty, *string_ref);
        lemma_string_ref_eq(cs@[4].parameters@[0].ty, *string_ref);
        lemma_string_ref_eq(cs@[5].parameters@[0].ty, *string_ref);
        lemma_string_ref_eq(cs@[5].parameters@[1].ty, *string_ref);
        reveal_strlit("contains");
        reveal_strlit("ends_with");
        reveal_strlit("eq_ignore_ascii_case");
        reveal_strlit("is_ascii");
        reveal_strlit("repeat");
        reveal_strlit("replace");
        reveal_strlit("starts_with");
        reveal_strlit("to_lowercase");
        reveal_strlit("to_uppercase");
        lemma_valid_from_names(cs@, seq!["is_ascii"@, "contains"@, "starts_with"@, "ends_with"@, "eq_ignore_ascii_case"@, "replace"@, "repeat"@, "to_lowercase"@, "to_uppercase"@]);
        assert(names_of(cs@) =~= seq!["is_ascii"@, "contains"@, "starts_with"@, "ends_with"@, "eq_ignore_ascii_case"@, "replace"@, "repeat"@, "to_lowercase"@, "to_uppercase"@]);
    }
    cs
}

} // verus!

verus! {

/// The names of a list of generic parameters.
pub open spec fn type_parameter_names(s: Seq<String>) -> Seq<Seq<char>> {
    s.map_values(|x: String| x@)
}

/// Whether `t` is `&rust::Vec<u8>`.
pub open spec fn is_bytes_ref(t: TypeRef) -> bool {
    t matches TypeRef::Reference { mutable, target } && !mutable && is_native_of(
        *target,
        "rust::Vec"@,
        seq![TypeRef::U8],
    )
}

/// Copies of `&rust::String` and `&rust::Vec<u8>` differ.
proof fn lemma_string_ref_not_bytes_ref(a: TypeRef, b: TypeRef, string_ref: TypeRef, bytes_ref: TypeRef)
    requires
        is_string_ref(string_ref),
        is_bytes_ref(bytes_ref),
        type_eq(a, string_ref),
        type_eq(b, bytes_ref),
    ensures
        !type_eq(a, b),
{
    if type_eq(a, b) {
        lemma_type_eq_symmetric_transitive(a, string_ref, b);
        lemma_type_eq_symmetric_transitive(string_ref, a, b);
        lemma_type_eq_symmetric_transitive(string_ref, b, bytes_ref);
        reveal_strlit("rust::String");
        reveal_strlit("rust::Vec");
        assert(type_eq(string_ref, bytes_ref));
        assert("rust::String"@.len() != "rust::Vec"@.len());
        match (string_ref, bytes_ref) {
            (TypeRef::Reference { target: sr, .. }, TypeRef::Reference { target: br, .. }) => {
                assert(type_eq(*sr, *br));
                match (*sr, *br) {
                    (TypeRef::Native { path: ps, .. }, TypeRef::Native { path: pb, .. }) => {
                        assert(ps@ == "rust::String"@);
                        assert(pb@ == "rust::Vec"@);
                        assert(ps@ != pb@);
                    },
                    _ => {},
                }
            },
            _ => {},
        }
    }
}

/// The second parameter types of two lists differ, so the lists' types do.
proof fn lemma_second_types_differ(a: Seq<Parameter>, b: Seq<Parameter>)
    requires
        a.len() >= 2,
        b.len() >= 2,
        !type_eq(a[1].ty, b[1].ty),
    ensures
        !type_list_eq(param_types(a), param_types(b)),
{
    lemma_type_list_eq_pointwise(param_types(a), param_types(b));
    assert(param_types(a)[1] == a[1].ty);
    assert(param_types(b)[1] == b[1].ty);
}

/// The first parameter types of two lists differ, so the lists' types do.
proof fn lemma_first_types_differ(a: Seq<Parameter>, b: Seq<Parameter>)
    requires
        a.len() >= 1,
        b.len() >= 1,
        !type_eq(a[0].ty, b[0].ty),
    ensures
        !type_list_eq(param_types(a), param_types(b)),
{
    lemma_type_list_eq_pointwise(param_types(a), param_types(b));
    assert(param_types(a)[0] == a[0].ty);
    assert(param_types(b)[0] == b[0].ty);
}

/// A native type without generic arguments.
fn native_named(path: &str) -> (r: TypeRef)
    ensures
        is_plain_native(r, path@),
{
    TypeRef::native(String::from_str(path), Vec::new())
}

/// `rust::Result<ok, error>`.
fn result_of(ok: TypeRef, error: TypeRef) -> (r: TypeRef)
    ensures
        is_native_of(r, "rust::Result"@, seq![ok, error]),
{
    let ghost pair = seq![ok, error];
    let mut arguments = Vec::new();
    arguments.push(ok);
    arguments.push(error);
    assert(arguments@ =~= pair);
    TypeRef::native(String::from_str("rust::Result"), arguments)
}

/// A one-element parameter list.
fn single_parameter(p: Parameter) -> (r: Vec<Parameter>)
    ensures
        r@ == seq![p],
{
    let ghost q = p;
    let mut v = Vec::new();
    v.push(p);
    assert(v@ =~= seq![q]);
    v
}

/// A two-element parameter list.
fn pair_of_parameters(p: Parameter, q: Parameter) -> (r: Vec<Parameter>)
    ensures
        r@ == seq![p, q],
{
    let ghost pq = seq![p, q];
    let mut v = Vec::new();
    v.push(p);
    v.push(q);
    assert(v@ =~= pq);
    v
}

/// A one-element name list.
fn single_name(name: &str) -> (r: Vec<String>)
    ensures
        type_parameter_names(r@) == seq![name@],
        r@.len() == 1,
{
    let mut v = Vec::new();
    v.push(String::from_str(name));
    assert(type_parameter_names(v@) =~= seq![name@]);
    v
}

/// A two-element name list.
fn pair_of_names(first: &str, second: &str) -> (r: Vec<String>)
    ensures
        type_parameter_names(r@) == seq![first@, second@],
        r@.len() == 2,
{
    let mut v = Vec::new();
    v.push(String::from_str(first));
    v.push(String::from_str(second));
    assert(type_parameter_names(v@) =~= seq![first@, second@]);
    v
}

/// File-level operations of `rust::std::fs`.
pub fn fs_file_callables(string: &TypeRef, string_ref: &TypeRef, bytes: &TypeRef, bytes_ref: &TypeRef, io_error: &TypeRef) -> (r: Vec<CallableBinding>)
    requires
        *string is Native,
        is_string_ref(*string_ref),
        *bytes is Native,
        is_bytes_ref(*bytes_ref),
    ensures
        r@.len() == 8,
        callables_valid(r@),
        names_of(r@) == seq!["read_to_string"@, "read"@, "write"@, "write"@, "exists"@, "copy"@, "rename"@, "remove_file"@],
        fs_file_table(r@, *string, *string_ref, *bytes, *bytes_ref, *io_error),
{
    let mut cs = Vec::new();
    cs.push(fallible_associated("read_to_string", single_parameter(fs_path_parameter("path", string_ref)), string.copy(), io_error.copy(), "::stainless_runtime::Fs::read_to_string"));
    cs.push(fallible_associated("read", single_parameter(fs_path_parameter("path", string_ref)), bytes.copy(), io_error.copy(), "::stainless_runtime::Fs::read"));
    cs.push(fallible_associated("write", pair_of_parameters(fs_path_parameter("path", string_ref), Parameter::adapted(String::from_str("contents"), string_ref.copy(), ArgumentAdaptation::StringRefToStr)), TypeRef::Void, io_error.copy(), "::stainless_runtime::Fs::write_text"));
    cs.push(fallible_associated("write", pair_of_parameters(fs_path_parameter("path", string_ref), Parameter::new(String::from_str("contents"), bytes_ref.copy())), TypeRef::Void, io_error.copy(), "::stainless_runtime::Fs::write_bytes"));
    cs.push(fallible_associated("exists", single_parameter(fs_path_parameter("path", string_ref)), TypeRef::Bool, io_error.copy(), "::stainless_runtime::Fs::exists"));
    cs.push(fallible_associated("copy", pair_of_parameters(fs_path_parameter("from", string_ref), fs_path_parameter("to", string_ref)), TypeRef::U64, io_error.copy(), "::stainless_runtime::Fs::copy"));
    cs.push(fallible_associated("rename", pair_of_parameters(fs_path_parameter("from", string_ref), fs_path_parameter("to", string_ref)), TypeRef::Void, io_error.copy(), "::stainless_runtime::Fs::rename"));
    cs.push(fallible_associated("remove_file", single_parameter(fs_path_parameter("path", string_ref)), TypeRef::Void, io_error.copy(), "::stainless_runtime::Fs::remove_file"));
    proof {
        reveal_strlit("copy");
        reveal_strlit("exists");
        reveal_strlit("read");
        reveal_strlit("read_to_string");
        reveal_strlit("remove_file");
        reveal_strlit("rename");
        reveal_strlit("write");
        lemma_string_ref_not_bytes_ref(cs@[2].parameters@[1].ty, cs@[3].parameters@[1].ty, *string_ref, *bytes_ref);
        lemma_second_types_differ(cs@[2].parameters@, cs@[3].parameters@);
        assert(!same_signature(cs@[2], cs@[3]));
        lemma_valid_from_names(cs@, seq!["read_to_string"@, "read"@, "write"@, "write"@, "exists"@, "copy"@, "rename"@, "remove_file"@]);
        assert(names_of(cs@) =~= seq!["read_to_string"@, "read"@, "write"@, "write"@, "exists"@, "copy"@, "rename"@, "remove_file"@]);
    }
    cs
}

/// Directory operations of `rust::std::fs`.
pub fn fs_directory_callables(string_ref: &TypeRef, io_error: &TypeRef) -> (r: Vec<CallableBinding>)
    ensures
        r@.len() == 4,
        callables_valid(r@),
        names_of(r@) == seq!["create_dir"@, "create_dir_all"@, "remove_dir"@, "remove_dir_all"@],
        fs_directory_table(r@, *string_ref, *io_error),
{
    let mut cs = Vec::new();
    cs.push(fallible_associated("create_dir", single_parameter(fs_path_parameter("path", string_ref)), TypeRef::Void, io_error.copy(), "::stainless_runtime::Fs::create_dir"));
    cs.push(fallible_associated("create_dir_all", single_parameter(fs_path_parameter("path", string_ref)), TypeRef::Void, io_error.copy(), "::stainless_runtime::Fs::create_dir_all"));
    cs.push(fallible_associated("remove_dir", single_parameter(fs_path_parameter("path", string_ref)), TypeRef::Void, io_error.copy(), "::stainless_runtime::Fs::remove_dir"));
    cs.push(fallible_associated("remove_dir_all", single_parameter(fs_path_parameter("path", string_ref)), TypeRef::Void, io_error.copy(), "::stainless_runtime::Fs::remove_dir_all"));
    proof {
        reveal_strlit("create_dir");
        reveal_strlit("create_dir_all");
        reveal_strlit("remove_dir");
        reveal_strlit("remove_dir_all");
        lemma_valid_from_names(cs@, seq!["create_dir"@, "create_dir_all"@, "remove_dir"@, "remove_dir_all"@]);
        assert(names_of(cs@) =~= seq!["create_dir"@, "create_dir_all"@, "remove_dir"@, "remove_dir_all"@]);
    }
    cs
}

/// Constructors and positioned I/O of `rust::std::fs::File`.
pub fn file_callables(file: &TypeRef, string_ref: &TypeRef, bytes: &TypeRef, io_error: &TypeRef) -> (r: Vec<CallableBinding>)
    requires
        *file is Native,
        *bytes is Native,
    ensures
        r@.len() == 13,
        callables_valid(r@),
        names_of(r@) == seq!["File"@, "open"@, "create"@, "pread"@, "pread_exact"@, "pwrite"@, "pwrite_all"@, "sync_all"@, "sync_data"@, "set_len"@, "len"@, "is_empty"@, "try_clone"@],
        file_table(r@, *file, *string_ref, *bytes, *io_error),
{
    let mut cs = Vec::new();
    cs.push(constructor("File", one_parameter("file", file.copy()), file.copy(), RustLowering::AssociatedFunction { rust_path: String::from_str("::stainless_runtime::PositionedFile::from_owned") }));
    cs.push(fallible_associated("open", single_parameter(fs_path_parameter("path", string_ref)), file.copy(), io_error.copy(), "::stainless_runtime::PositionedFile::open"));
    cs.push(fallible_associated("create", single_parameter(fs_path_parameter("path", string_ref)), file.copy(), io_error.copy(), "::stainless_runtime::PositionedFile::create"));
    cs.push(fallible_method("pread", "pread", Receiver::Shared, two_parameters("offset", TypeRef::U64, "length", TypeRef::Usize), bytes.copy(), io_error.copy()));
    cs.push(fallible_method("pread_exact", "pread_exact", Receiver::Shared, two_parameters("offset", TypeRef::U64, "length", TypeRef::Usize), bytes.copy(), io_error.copy()));
    cs.push(fallible_method("pwrite", "pwrite", Receiver::Shared, two_parameters("offset", TypeRef::U64, "contents", TypeRef::shared_ref(bytes.copy())), TypeRef::Usize, io_error.copy()));
    cs.push(fallible_method("pwrite_all", "pwrite_all", Receiver::Shared, two_parameters("offset", TypeRef::U64, "contents", TypeRef::shared_ref(bytes.copy())), TypeRef::Void, io_error.copy()));
    cs.push(fallible_method("sync_all", "sync_all", Receiver::Shared, Vec::new(), TypeRef::Void, io_error.copy()));
    cs.push(fallible_method("sync_data", "sync_data", Receiver::Shared, Vec::new(), TypeRef::Void, io_error.copy()));
    cs.push(fallible_method("set_len", "set_len", Receiver::Shared, one_parameter("size", TypeRef::U64), TypeRef::Void, io_error.copy()));
    cs.push(fallible_method("len", "len", Receiver::Shared, Vec::new(), TypeRef::U64, io_error.copy()));
    cs.push(fallible_method("is_empty", "is_empty", Receiver::Shared, Vec::new(), TypeRef::Bool, io_error.copy()));
    cs.push(fallible_method("try_clone", "try_clone", Receiver::Shared, Vec::new(), file.copy(), io_error.copy()));
    proof {
        reveal_strlit("File");
        reveal_strlit("create");
        reveal_strlit("is_empty");
        reveal_strlit("len");
        reveal_strlit("open");
        reveal_strlit("pread");
        reveal_strlit("pread_exact");
        reveal_strlit("pwrite");
        reveal_strlit("pwrite_all");
        reveal_strlit("set_len");
        reveal_strlit("sync_all");
        reveal_strlit("sync_data");
        reveal_strlit("try_clone");
        lemma_valid_from_names(cs@, seq!["File"@, "open"@, "create"@, "pread"@, "pread_exact"@, "pwrite"@, "pwrite_all"@, "sync_all"@, "sync_data"@, "set_len"@, "len"@, "is_empty"@, "try_clone"@]);
        assert(names_of(cs@) =~= seq!["File"@, "open"@, "create"@, "pread"@, "pread_exact"@, "pwrite"@, "pwrite_all"@, "sync_all"@, "sync_data"@, "set_len"@, "len"@, "is_empty"@, "try_clone"@]);
    }
    cs
}

/// Constructor, flags, and `open` of `rust::std::fs::OpenOptions`.
pub fn open_options_callables(options: &TypeRef, string_ref: &TypeRef, file: &TypeRef, io_error: &TypeRef) -> (r: Vec<CallableBinding>)
    requires
        *options is Native,
        *file is Native,
    ensures
        r@.len() == 8,
        callables_valid(r@),
        names_of(r@) == seq!["OpenOptions"@, "read"@, "write"@, "append"@, "truncate"@, "create"@, "create_new"@, "open"@],
        open_options_table(r@, *options, *string_ref, *file, *io_error),
{
    let mut cs = Vec::new();
    cs.push(constructor("OpenOptions", Vec::new(), options.copy(), RustLowering::AssociatedFunction { rust_path: String::from_str("::stainless_runtime::PositionedOpenOptions::new") }));
    cs.push(method("read", Receiver::Mutable, one_parameter("enabled", TypeRef::Bool), TypeRef::Void));
    cs.push(method("write", Receiver::Mutable, one_parameter("enabled", TypeRef::Bool), TypeRef::Void));
    cs.push(method("append", Receiver::Mutable, one_parameter("enabled", TypeRef::Bool), TypeRef::Void));
    cs.push(method("truncate", Receiver::Mutable, one_parameter("enabled", TypeRef::Bool), TypeRef::Void));
    cs.push(method("create", Receiver::Mutable, one_parameter("enabled", TypeRef::Bool), TypeRef::Void));
    cs.push(method("create_new", Receiver::Mutable, one_parameter("enabled", TypeRef::Bool), TypeRef::Void));
    cs.push(fallible_method("open", "open", Receiver::Shared, single_parameter(fs_path_parameter("path", string_ref)), file.copy(), io_error.copy()));
    proof {
        reveal_strlit("OpenOptions");
        reveal_strlit("append");
        reveal_strlit("create");
        reveal_strlit("create_new");
        reveal_strlit("open");
        reveal_strlit("read");
        reveal_strlit("truncate");
        reveal_strlit("write");
        lemma_valid_from_names(cs@, seq!["OpenOptions"@, "read"@, "write"@, "append"@, "truncate"@, "create"@, "create_new"@, "open"@]);
        assert(names_of(cs@) =~= seq!["OpenOptions"@, "read"@, "write"@, "append"@, "truncate"@, "create"@, "create_new"@, "open"@]);
    }
    cs
}

/// Constructors, parsing, and dynamic access of the JSON value type.
pub fn var_callables(var: &TypeRef, string: &TypeRef, string_ref: &TypeRef, json_error: &TypeRef, result_var: &TypeRef) -> (r: Vec<CallableBinding>)
    requires
        *var is Native,
        is_string_ref(*string_ref),
        *string is Native,
        *result_var is Native,
    ensures
        r@.len() == 16,
        callables_valid(r@),
        names_of(r@) == seq!["Var"@, "parse"@, "parse_file"@, "is_null"@, "clone"@, "to_json"@, "set"@, "push"@, "pop"@, "insert"@, "remove"@, "remove"@, "clear"@, "len"@, "is_empty"@, "contains_key"@],
        var_table(r@, *var, *string, *string_ref, *json_error, *result_var),
{
    let mut cs = Vec::new();
    cs.push(constructor("Var", Vec::new(), var.copy(), RustLowering::AssociatedFunction { rust_path: String::from_str("::stainless_runtime::Var::null") }));
    cs.push(associated("parse", single_parameter(str_parameter("source", string_ref)), result_var.copy(), "::stainless_runtime::Var::parse"));
    cs.push(associated("parse_file", single_parameter(str_parameter("path", string_ref)), result_var.copy(), "::stainless_runtime::Var::parse_file"));
    cs.push(method("is_null", Receiver::Shared, Vec::new(), TypeRef::Bool));
    cs.push(method("clone", Receiver::Shared, Vec::new(), var.copy()));
    cs.push(method("to_json", Receiver::Shared, Vec::new(), string.copy()));
    cs.push(fallible_method("set", "set_field", Receiver::Mutable, pair_of_parameters(str_parameter("name", string_ref), Parameter::new(String::from_str("value"), var.copy())), TypeRef::Void, json_error.copy()));
    cs.push(fallible_method("push", "push", Receiver::Mutable, one_parameter("value", var.copy()), TypeRef::Void, json_error.copy()));
    cs.push(fallible_method("pop", "pop", Receiver::Mutable, Vec::new(), var.copy(), json_error.copy()));
    cs.push(fallible_method("insert", "insert", Receiver::Mutable, two_parameters("index", TypeRef::Usize, "value", var.copy()), TypeRef::Void, json_error.copy()));
    cs.push(fallible_method("remove", "remove_index", Receiver::Mutable, one_parameter("index", TypeRef::Usize), var.copy(), json_error.copy()));
    cs.push(fallible_method("remove", "remove_field", Receiver::Mutable, single_parameter(str_parameter("name", string_ref)), var.copy(), json_error.copy()));
    cs.push(fallible_method("clear", "clear", Receiver::Mutable, Vec::new(), TypeRef::Void, json_error.copy()));
    cs.push(fallible_method("len", "len", Receiver::Shared, Vec::new(), TypeRef::Usize, json_error.copy()));
    cs.push(fallible_method("is_empty", "is_empty", Receiver::Shared, Vec::new(), TypeRef::Bool, json_error.copy()));
    cs.push(fallible_method("contains_key", "contains_key", Receiver::Shared, single_parameter(str_parameter("name", string_ref)), TypeRef::Bool, json_error.copy()));
    proof {
        reveal_strlit("Var");
        reveal_strlit("clear");
        reveal_strlit("clone");
        reveal_strlit("contains_key");
        reveal_strlit("insert");
        reveal_strlit("is_empty");
        reveal_strlit("is_null");
        reveal_strlit("len");
        reveal_strlit("parse");
        reveal_strlit("parse_file");
        reveal_strlit("pop");
        reveal_strlit("push");
        reveal_strlit("remove");
        reveal_strlit("set");
        reveal_strlit("to_json");
        lemma_string_ref_eq(cs@[11].parameters@[0].ty, *string_ref);
        assert(cs@[11].parameters@[0].ty is Reference);
        lemma_first_types_differ(cs@[10].parameters@, cs@[11].parameters@);
        assert(!same_signature(cs@[10], cs@[11]));
        lemma_valid_from_names(cs@, seq!["Var"@, "parse"@, "parse_file"@, "is_null"@, "clone"@, "to_json"@, "set"@, "push"@, "pop"@, "insert"@, "remove"@, "remove"@, "clear"@, "len"@, "is_empty"@, "contains_key"@]);
        assert(names_of(cs@) =~= seq!["Var"@, "parse"@, "parse_file"@, "is_null"@, "clone"@, "to_json"@, "set"@, "push"@, "pop"@, "insert"@, "remove"@, "remove"@, "clear"@, "len"@, "is_empty"@, "contains_key"@]);
    }
    cs
}

/// Filesystem operations, under `rust::std::fs`.
pub fn fs_binding() -> (r: NativeTypeBinding)
    ensures
        standard_binding_is(r, 0),
        r.stainless_path@ == "rust::std::fs"@,
        r.rust_path@ == "::stainless_runtime::Fs"@,
        r.type_parameters@.len() == 0,
        r.error_format is None,
        r.callables@.len() == 12,
        callables_valid(r.callables@),
{
    let string = string_type();
    let string_ref = string_ref_type();
    let bytes = vec_of(TypeRef::U8);
    let bytes_ref = TypeRef::shared_ref(vec_of(TypeRef::U8));
    let io_error = native_named(IO_ERROR_TYPE_PATH);
    let mut callables = fs_file_callables(&string, &string_ref, &bytes, &bytes_ref, &io_error);
    let ghost part_0 = callables@;
    let mut part = fs_directory_callables(&string_ref, &io_error);
    let ghost part_1 = part@;
    let ghost before = callables@;
    let ghost added = part@;
    callables.append(&mut part);
    proof {
        reveal_strlit("copy");
        reveal_strlit("create_dir");
        reveal_strlit("create_dir_all");
        reveal_strlit("exists");
        reveal_strlit("read");
        reveal_strlit("read_to_string");
        reveal_strlit("remove_dir");
        reveal_strlit("remove_dir_all");
        reveal_strlit("remove_file");
        reveal_strlit("rename");
        reveal_strlit("write");
        lemma_valid_concat(before, added);
        assert(names_of(callables@) =~= names_of(before) + names_of(added));
    }
    proof {
        assert(callables@.subrange(0, 8) =~= part_0);
        assert(callables@.subrange(8, 12) =~= part_1);
        assert(fs_parts(callables@, string, string_ref, bytes, bytes_ref, io_error));
    }
    let type_parameters = Vec::new();
    let r = NativeTypeBinding {
        stainless_path: String::from_str("rust::std::fs"),
        rust_path: String::from_str("::stainless_runtime::Fs"),
        type_parameters,
        error_format: None,
        callables,
    };
    proof {
        reveal(standard_binding_is);
        assert(type_parameter_names(r.type_parameters@) =~= standard_type_parameters()[0]);
    }
    r
}

/// Positioned files, `rust::std::fs::File`.
pub fn file_binding() -> (r: NativeTypeBinding)
    ensures
        standard_binding_is(r, 1),
        r.stainless_path@ == "rust::std::fs::File"@,
        r.rust_path@ == "::stainless_runtime::PositionedFile"@,
        r.type_parameters@.len() == 0,
        r.error_format is None,
        r.callables@.len() == 13,
        callables_valid(r.callables@),
{
    let file = native_named(FILE_TYPE_PATH);
    let string_ref = string_ref_type();
    let bytes = vec_of(TypeRef::U8);
    let io_error = native_named(IO_ERROR_TYPE_PATH);
    let mut callables = file_callables(&file, &string_ref, &bytes, &io_error);
    proof {
        assert(file_table(callables@, file, string_ref, bytes, io_error));
    }
    let type_parameters = Vec::new();
    let r = NativeTypeBinding {
        stainless_path: String::from_str("rust::std::fs::File"),
        rust_path: String::from_str("::stainless_runtime::PositionedFile"),
        type_parameters,
        error_format: None,
        callables,
    };
    proof {
        reveal(standard_binding_is);
        assert(type_parameter_names(r.type_parameters@) =~= standard_type_parameters()[1]);
    }
    r
}

/// File-opening options, `rust::std::fs::OpenOptions`.
pub fn open_options_binding() -> (r: NativeTypeBinding)
    ensures
        standard_binding_is(r, 2),
        r.stainless_path@ == "rust::std::fs::OpenOptions"@,
        r.rust_path@ == "::stainless_runtime::PositionedOpenOptions"@,
        r.type_parameters@.len() == 0,
        r.error_format is None,
        r.callables@.len() == 8,
        callables_valid(r.callables@),
{
    let options = native_named(OPEN_OPTIONS_TYPE_PATH);
    let string_ref = string_ref_type();
    let file = native_named(FILE_TYPE_PATH);
    let io_error = native_named(IO_ERROR_TYPE_PATH);
    let mut callables = open_options_callables(&options, &string_ref, &file, &io_error);
    proof {
        assert(open_options_table(callables@, options, string_ref, file, io_error));
    }
    let type_parameters = Vec::new();
    let r = NativeTypeBinding {
        stainless_path: String::from_str("rust::std::fs::OpenOptions"),
        rust_path: String::from_str("::stainless_runtime::PositionedOpenOptions"),
        type_parameters,
        error_format: None,
        callables,
    };
    proof {
        reveal(standard_binding_is);
        assert(type_parameter_names(r.type_parameters@) =~= standard_type_parameters()[2]);
    }
    r
}

/// The Rust I/O error, rendered with `Display`.
pub fn io_error_binding() -> (r: NativeTypeBinding)
    ensures
        standard_binding_is(r, 3),
        r.stainless_path@ == "rust::std::io::Error"@,
        r.rust_path@ == "::std::io::Error"@,
        r.type_parameters@.len() == 0,
        r.error_format == Some(NativeErrorFormat::Display),
        r.callables@.len() == 0,
        callables_valid(r.callables@),
{
    let callables = Vec::new();
    let type_parameters = Vec::new();
    let r = NativeTypeBinding {
        stainless_path: String::from_str("rust::std::io::Error"),
        rust_path: String::from_str("::std::io::Error"),
        type_parameters,
        error_format: Some(NativeErrorFormat::Display),
        callables,
    };
    proof {
        reveal(standard_binding_is);
        assert(type_parameter_names(r.type_parameters@) =~= standard_type_parameters()[3]);
    }
    r
}

/// The JSON error, rendered with `Display`.
pub fn json_error_binding() -> (r: NativeTypeBinding)
    ensures
        standard_binding_is(r, 4),
        r.stainless_path@ == "rust::stainless_runtime::JsonError"@,
        r.rust_path@ == "::stainless_runtime::JsonError"@,
        r.type_parameters@.len() == 0,
        r.error_format == Some(NativeErrorFormat::Display),
        r.callables@.len() == 0,
        callables_valid(r.callables@),
{
    let callables = Vec::new();
    let type_parameters = Vec::new();
    let r = NativeTypeBinding {
        stainless_path: String::from_str("rust::stainless_runtime::JsonError"),
        rust_path: String::from_str("::stainless_runtime::JsonError"),
        type_parameters,
        error_format: Some(NativeErrorFormat::Display),
        callables,
    };
    proof {
        reveal(standard_binding_is);
        assert(type_parameter_names(r.type_parameters@) =~= standard_type_parameters()[4]);
    }
    r
}

/// The dynamically typed JSON value, `rust::stainless_runtime::Var`.
pub fn var_binding() -> (r: NativeTypeBinding)
    ensures
        standard_binding_is(r, 10),
        r.stainless_path@ == "rust::stainless_runtime::Var"@,
        r.rust_path@ == "::stainless_runtime::Var"@,
        r.type_parameters@.len() == 0,
        r.error_format is None,
        r.callables@.len() == 16,
        callables_valid(r.callables@),
        var_callables_hold(r.callables@),
{
    let var = native_named(VAR_TYPE_PATH);
    let string = string_type();
    let string_ref = string_ref_type();
    let json_error = native_named(JSON_ERROR_TYPE_PATH);
    let result_var = result_of(native_named(VAR_TYPE_PATH), native_named(JSON_ERROR_TYPE_PATH));
    let mut callables = var_callables(&var, &string, &string_ref, &json_error, &result_var);
    proof {
        assert(var_types(var, string, string_ref, json_error, result_var));
        assert(var_table(callables@, var, string, string_ref, json_error, result_var));
    }
    let type_parameters = Vec::new();
    let r = NativeTypeBinding {
        stainless_path: String::from_str("rust::stainless_runtime::Var"),
        rust_path: String::from_str("::stainless_runtime::Var"),
        type_parameters,
        error_format: None,
        callables,
    };
    proof {
        reveal(standard_binding_is);
        assert(type_parameter_names(r.type_parameters@) =~= standard_type_parameters()[10]);
    }
    r
}

/// `rust::Vec<T>`, lowered to `std::vec::Vec`.
pub fn vec_binding() -> (r: NativeTypeBinding)
    ensures
        standard_binding_is(r, 11),
        r.stainless_path@ == "rust::Vec"@,
        r.rust_path@ == "::std::vec::Vec"@,
        type_parameter_names(r.type_parameters@) == seq!["T"@],
        r.type_parameters@.len() == 1,
        r.error_format is None,
        r.callables@.len() == 22,
        callables_valid(r.callables@),
{
    let t = generic(T);
    let vec_t = vec_of(generic(T));
    let mut callables = vec_construction(&vec_t);
    let ghost part_0 = callables@;
    let mut part = vec_capacity_methods();
    let ghost part_1 = part@;
    let ghost before = callables@;
    let ghost added = part@;
    callables.append(&mut part);
    proof {
        reveal_strlit("Vec");
        reveal_strlit("append");
        reveal_strlit("capacity");
        reveal_strlit("clear");
        reveal_strlit("clone");
        reveal_strlit("contains");
        reveal_strlit("dedup");
        reveal_strlit("insert");
        reveal_strlit("is_empty");
        reveal_strlit("len");
        reveal_strlit("pop");
        reveal_strlit("push");
        reveal_strlit("remove");
        reveal_strlit("reserve");
        reveal_strlit("reserve_exact");
        reveal_strlit("reverse");
        reveal_strlit("shrink_to");
        reveal_strlit("shrink_to_fit");
        reveal_strlit("sort");
        reveal_strlit("swap_remove");
        reveal_strlit("truncate");
        reveal_strlit("with_capacity");
        lemma_valid_concat(before, added);
        assert(names_of(callables@) =~= names_of(before) + names_of(added));
    }
    let mut part = vec_element_methods(&t, &vec_t);
    let ghost part_2 = part@;
    let ghost before = callables@;
    let ghost added = part@;
    callables.append(&mut part);
    proof {
        reveal_strlit("Vec");
        reveal_strlit("append");
        reveal_strlit("capacity");
        reveal_strlit("clear");
        reveal_strlit("clone");
        reveal_strlit("contains");
        reveal_strlit("dedup");
        reveal_strlit("insert");
        reveal_strlit("is_empty");
        reveal_strlit("len");
        reveal_strlit("pop");
        reveal_strlit("push");
        reveal_strlit("remove");
        reveal_strlit("reserve");
        reveal_strlit("reserve_exact");
        reveal_strlit("reverse");
        reveal_strlit("shrink_to");
        reveal_strlit("shrink_to_fit");
        reveal_strlit("sort");
        reveal_strlit("swap_remove");
        reveal_strlit("truncate");
        reveal_strlit("with_capacity");
        lemma_valid_concat(before, added);
        assert(names_of(callables@) =~= names_of(before) + names_of(added));
    }
    let mut part = vec_trait_methods(&t, &vec_t);
    let ghost part_3 = part@;
    let ghost before = callables@;
    let ghost added = part@;
    callables.append(&mut part);
    proof {
        reveal_strlit("Vec");
        reveal_strlit("append");
        reveal_strlit("capacity");
        reveal_strlit("clear");
        reveal_strlit("clone");
        reveal_strlit("contains");
        reveal_strlit("dedup");
        reveal_strlit("insert");
        reveal_strlit("is_empty");
        reveal_strlit("len");
        reveal_strlit("pop");
        reveal_strlit("push");
        reveal_strlit("remove");
        reveal_strlit("reserve");
        reveal_strlit("reserve_exact");
        reveal_strlit("reverse");
        reveal_strlit("shrink_to");
        reveal_strlit("shrink_to_fit");
        reveal_strlit("sort");
        reveal_strlit("swap_remove");
        reveal_strlit("truncate");
        reveal_strlit("with_capacity");
        lemma_valid_concat(before, added);
        assert(names_of(callables@) =~= names_of(before) + names_of(added));
    }
    proof {
        assert(callables@.subrange(0, 2) =~= part_0);
        assert(callables@.subrange(2, 9) =~= part_1);
        assert(callables@.subrange(9, 18) =~= part_2);
        assert(callables@.subrange(18, 22) =~= part_3);
        assert(vec_parts(callables@, t, vec_t));
        assert(generic_native(vec_t, "rust::Vec"@, seq!["T"@]));
    }
    let type_parameters = single_name(T);
    let r = NativeTypeBinding {
        stainless_path: String::from_str("rust::Vec"),
        rust_path: String::from_str("::std::vec::Vec"),
        type_parameters,
        error_format: None,
        callables,
    };
    proof {
        reveal(standard_binding_is);
        assert(type_parameter_names(r.type_parameters@) =~= standard_type_parameters()[11]);
    }
    r
}

/// `rust::List<T>`, lowered to `std::collections::LinkedList`.
pub fn list_binding() -> (r: NativeTypeBinding)
    ensures
        standard_binding_is(r, 5),
        r.stainless_path@ == "rust::List"@,
        r.rust_path@ == "::std::collections::LinkedList"@,
        type_parameter_names(r.type_parameters@) == seq!["T"@],
        r.type_parameters@.len() == 1,
        r.error_format is None,
        r.callables@.len() == 11,
        callables_valid(r.callables@),
{
    let t = generic(T);
    let list_t = list_of(generic(T));
    let mut callables = list_callables(&t, &list_t);
    proof {
        assert(list_table(callables@, t, list_t));
        assert(generic_native(list_t, "rust::List"@, seq!["T"@]));
    }
    let type_parameters = single_name(T);
    let r = NativeTypeBinding {
        stainless_path: String::from_str("rust::List"),
        rust_path: String::from_str("::std::collections::LinkedList"),
        type_parameters,
        error_format: None,
        callables,
    };
    proof {
        reveal(standard_binding_is);
        assert(type_parameter_names(r.type_parameters@) =~= standard_type_parameters()[5]);
    }
    r
}

/// `rust::Queue<T>`, lowered to `std::collections::VecDeque`.
pub fn queue_binding() -> (r: NativeTypeBinding)
    ensures
        standard_binding_is(r, 7),
        r.stainless_path@ == "rust::Queue"@,
        r.rust_path@ == "::std::collections::VecDeque"@,
        type_parameter_names(r.type_parameters@) == seq!["T"@],
        r.type_parameters@.len() == 1,
        r.error_format is None,
        r.callables@.len() == 24,
        callables_valid(r.callables@),
{
    let t = generic(T);
    let queue_t = queue_of(generic(T));
    let mut callables = queue_callables(&t, &queue_t);
    proof {
        assert(queue_table(callables@, t, queue_t));
        assert(generic_native(queue_t, "rust::Queue"@, seq!["T"@]));
    }
    let type_parameters = single_name(T);
    let r = NativeTypeBinding {
        stainless_path: String::from_str("rust::Queue"),
        rust_path: String::from_str("::std::collections::VecDeque"),
        type_parameters,
        error_format: None,
        callables,
    };
    proof {
        reveal(standard_binding_is);
        assert(type_parameter_names(r.type_parameters@) =~= standard_type_parameters()[7]);
    }
    r
}

/// `rust::Map<K, V>`, lowered to `std::collections::BTreeMap`.
pub fn map_binding() -> (r: NativeTypeBinding)
    ensures
        standard_binding_is(r, 6),
        r.stainless_path@ == "rust::Map"@,
        r.rust_path@ == "::std::collections::BTreeMap"@,
        type_parameter_names(r.type_parameters@) == seq!["K"@, "V"@],
        r.type_parameters@.len() == 2,
        r.error_format is None,
        r.callables@.len() == 11,
        callables_valid(r.callables@),
{
    let k = generic(K);
    let v = generic(V);
    let map_t = map_of(generic(K), generic(V));
    let mut callables = map_callables(&k, &v, &map_t);
    proof {
        assert(map_table(callables@, k, v, map_t));
        assert(generic_native(map_t, "rust::Map"@, seq!["K"@, "V"@]));
    }
    let type_parameters = pair_of_names(K, V);
    let r = NativeTypeBinding {
        stainless_path: String::from_str("rust::Map"),
        rust_path: String::from_str("::std::collections::BTreeMap"),
        type_parameters,
        error_format: None,
        callables,
    };
    proof {
        reveal(standard_binding_is);
        assert(type_parameter_names(r.type_parameters@) =~= standard_type_parameters()[6]);
    }
    r
}

/// `rust::Set<T>`, lowered to `std::collections::BTreeSet`.
pub fn set_binding() -> (r: NativeTypeBinding)
    ensures
        standard_binding_is(r, 8),
        r.stainless_path@ == "rust::Set"@,
        r.rust_path@ == "::std::collections::BTreeSet"@,
        type_parameter_names(r.type_parameters@) == seq!["T"@],
        r.type_parameters@.len() == 1,
        r.error_format is None,
        r.callables@.len() == 11,
        callables_valid(r.callables@),
{
    let t = generic(T);
    let set_t = set_of(generic(T));
    let mut callables = set_callables(&t, &set_t);
    proof {
        assert(set_table(callables@, t, set_t));
        assert(generic_native(set_t, "rust::Set"@, seq!["T"@]));
    }
    let type_parameters = single_name(T);
    let r = NativeTypeBinding {
        stainless_path: String::from_str("rust::Set"),
        rust_path: String::from_str("::std::collections::BTreeSet"),
        type_parameters,
        error_format: None,
        callables,
    };
    proof {
        reveal(standard_binding_is);
        assert(type_parameter_names(r.type_parameters@) =~= standard_type_parameters()[8]);
    }
    r
}

/// `rust::String`, lowered to `std::string::String`.
pub fn string_binding() -> (r: NativeTypeBinding)
    ensures
        standard_binding_is(r, 9),
        r.stainless_path@ == "rust::String"@,
        r.rust_path@ == "::std::string::String"@,
        r.type_parameters@.len() == 0,
        r.error_format is None,
        r.callables@.len() == 31,
        callables_valid(r.callables@),
        string_constructions_hold(r.callables@),
{
    let string = string_type();
    let string_ref = string_ref_type();
    let mut callables = string_construction(&string, &string_ref);
    let ghost part_0 = callables@;
    let ghost first = callables@;
    let mut part = string_capacity_methods();
    let ghost part_1 = part@;
    let ghost before = callables@;
    let ghost added = part@;
    callables.append(&mut part);
    proof {
        reveal_strlit("String");
        reveal_strlit("capacity");
        reveal_strlit("clear");
        reveal_strlit("clone");
        reveal_strlit("contains");
        reveal_strlit("ends_with");
        reveal_strlit("eq_ignore_ascii_case");
        reveal_strlit("insert");
        reveal_strlit("insert_str");
        reveal_strlit("into_bytes");
        reveal_strlit("is_ascii");
        reveal_strlit("is_empty");
        reveal_strlit("len");
        reveal_strlit("make_ascii_lowercase");
        reveal_strlit("make_ascii_uppercase");
        reveal_strlit("pop");
        reveal_strlit("push");
        reveal_strlit("push_str");
        reveal_strlit("remove");
        reveal_strlit("repeat");
        reveal_strlit("replace");
        reveal_strlit("reserve");
        reveal_strlit("reserve_exact");
        reveal_strlit("shrink_to");
        reveal_strlit("shrink_to_fit");
        reveal_strlit("starts_with");
        reveal_strlit("to_lowercase");
        reveal_strlit("to_uppercase");
        reveal_strlit("truncate");
        reveal_strlit("with_capacity");
        lemma_valid_concat(before, added);
        assert(names_of(callables@) =~= names_of(before) + names_of(added));
    }
    let mut part = string_mutation_methods(&string_ref);
    let ghost part_2 = part@;
    let ghost before = callables@;
    let ghost added = part@;
    callables.append(&mut part);
    proof {
        reveal_strlit("String");
        reveal_strlit("capacity");
        reveal_strlit("clear");
        reveal_strlit("clone");
        reveal_strlit("contains");
        reveal_strlit("ends_with");
        reveal_strlit("eq_ignore_ascii_case");
        reveal_strlit("insert");
        reveal_strlit("insert_str");
        reveal_strlit("into_bytes");
        reveal_strlit("is_ascii");
        reveal_strlit("is_empty");
        reveal_strlit("len");
        reveal_strlit("make_ascii_lowercase");
        reveal_strlit("make_ascii_uppercase");
        reveal_strlit("pop");
        reveal_strlit("push");
        reveal_strlit("push_str");
        reveal_strlit("remove");
        reveal_strlit("repeat");
        reveal_strlit("replace");
        reveal_strlit("reserve");
        reveal_strlit("reserve_exact");
        reveal_strlit("shrink_to");
        reveal_strlit("shrink_to_fit");
        reveal_strlit("starts_with");
        reveal_strlit("to_lowercase");
        reveal_strlit("to_uppercase");
        reveal_strlit("truncate");
        reveal_strlit("with_capacity");
        lemma_valid_concat(before, added);
        assert(names_of(callables@) =~= names_of(before) + names_of(added));
    }
    let mut part = string_query_methods(&string, &string_ref);
    let ghost part_3 = part@;
    let ghost before = callables@;
    let ghost added = part@;
    callables.append(&mut part);
    proof {
        reveal_strlit("String");
        reveal_strlit("capacity");
        reveal_strlit("clear");
        reveal_strlit("clone");
        reveal_strlit("contains");
        reveal_strlit("ends_with");
        reveal_strlit("eq_ignore_ascii_case");
        reveal_strlit("insert");
        reveal_strlit("insert_str");
        reveal_strlit("into_bytes");
        reveal_strlit("is_ascii");
        reveal_strlit("is_empty");
        reveal_strlit("len");
        reveal_strlit("make_ascii_lowercase");
        reveal_strlit("make_ascii_uppercase");
        reveal_strlit("pop");
        reveal_strlit("push");
        reveal_strlit("push_str");
        reveal_strlit("remove");
        reveal_strlit("repeat");
        reveal_strlit("replace");
        reveal_strlit("reserve");
        reveal_strlit("reserve_exact");
        reveal_strlit("shrink_to");
        reveal_strlit("shrink_to_fit");
        reveal_strlit("starts_with");
        reveal_strlit("to_lowercase");
        reveal_strlit("to_uppercase");
        reveal_strlit("truncate");
        reveal_strlit("with_capacity");
        lemma_valid_concat(before, added);
        assert(names_of(callables@) =~= names_of(before) + names_of(added));
    }
    proof {
        assert forall|k: int| 0 <= k < 5 implies #[trigger] callables@[k] == first[k] by {}
        assert(string_construction_table(callables@, string, string_ref));
    }
    proof {
        assert(callables@.subrange(0, 5) =~= part_0);
        assert(callables@.subrange(5, 13) =~= part_1);
        assert(callables@.subrange(13, 22) =~= part_2);
        assert(callables@.subrange(22, 31) =~= part_3);
        assert(string_parts(callables@, string, string_ref));
    }
    let type_parameters = Vec::new();
    let r = NativeTypeBinding {
        stainless_path: String::from_str("rust::String"),
        rust_path: String::from_str("::std::string::String"),
        type_parameters,
        error_format: None,
        callables,
    };
    proof {
        reveal(standard_binding_is);
        assert(type_parameter_names(r.type_parameters@) =~= standard_type_parameters()[9]);
    }
    r
}

} // verus!

verus! {

/// The Stainless paths of the compiler-provided native types, in the order
/// [`standard_bindings`] lists them.
pub open spec fn standard_paths() -> Seq<Seq<char>> {
    seq![
        "rust::std::fs"@,
        "rust::std::fs::File"@,
        "rust::std::fs::OpenOptions"@,
        "rust::std::io::Error"@,
        "rust::stainless_runtime::JsonError"@,
        "rust::List"@,
        "rust::Map"@,
        "rust::Queue"@,
        "rust::Set"@,
        "rust::String"@,
        "rust::stainless_runtime::Var"@,
        "rust::Vec"@,
    ]
}

/// Whether two paths visibly differ: in length, or at one of the characters
/// after the common `rust::` prefix.
pub open spec fn paths_differ(a: Seq<char>, b: Seq<char>) -> bool {
    a.len() != b.len() || a[6] != b[6] || a[7] != b[7] || a[8] != b[8] || a[9] != b[9]
        || a[10] != b[10] || a[11] != b[11] || a[12] != b[12] || a[13] != b[13] || a[14] != b[14]
        || a[15] != b[15] || a[16] != b[16] || a[17] != b[17] || a[18] != b[18] || a[19] != b[19]
        || a[20] != b[20] || a[21] != b[21] || a[22] != b[22] || a[23] != b[23] || a[24] != b[24]
        || a[25] != b[25] || a.last() != b.last()
}

/// The number of generic parameters of each compiler-provided type, in the
/// order of [`standard_paths`].
pub open spec fn standard_arities() -> Seq<usize> {
    seq![0usize, 0, 0, 0, 0, 1, 2, 1, 1, 0, 0, 1]
}

/// The standard listing, once sorted, is a valid registry.
proof fn lemma_standard_registry(types: Seq<NativeTypeBinding>)
    requires
        types.len() == 12,
        forall|i: int| 0 <= i < 12 ==> (#[trigger] types[i]).stainless_path@ == standard_paths()[i],
        forall|i: int| 0 <= i < 12 ==> callables_valid((#[trigger] types[i]).callables@),
    ensures
        crate::interop::model::registry_error(sort_by_path(types)) is None,
{
    let paths = standard_paths();
    reveal_strlit("rust::");
    reveal_strlit("rust::std::fs");
    reveal_strlit("rust::std::fs::File");
    reveal_strlit("rust::std::fs::OpenOptions");
    reveal_strlit("rust::std::io::Error");
    reveal_strlit("rust::stainless_runtime::JsonError");
    reveal_strlit("rust::List");
    reveal_strlit("rust::Map");
    reveal_strlit("rust::Queue");
    reveal_strlit("rust::Set");
    reveal_strlit("rust::String");
    reveal_strlit("rust::stainless_runtime::Var");
    reveal_strlit("rust::Vec");
    assert forall|i: int| 0 <= i < 12 implies is_prefix("rust::"@, (#[trigger] types[i]).stainless_path@) by {
        assert(paths[i].subrange(0, 6) =~= "rust::"@);
    }
    assert forall|i: int, j: int| 0 <= i < j < 12 implies #[trigger] types[i].stainless_path@
        != #[trigger] types[j].stainless_path@ by {
        assert(paths_differ(paths[i], paths[j]));
    }
    lemma_registry_valid(types);
}

/// The Rust paths the compiler-provided types lower to, in the order of
/// [`standard_paths`].
pub open spec fn standard_rust_paths() -> Seq<Seq<char>> {
    seq![
        "::stainless_runtime::Fs"@,
        "::stainless_runtime::PositionedFile"@,
        "::stainless_runtime::PositionedOpenOptions"@,
        "::std::io::Error"@,
        "::stainless_runtime::JsonError"@,
        "::std::collections::LinkedList"@,
        "::std::collections::BTreeMap"@,
        "::std::collections::VecDeque"@,
        "::std::collections::BTreeSet"@,
        "::std::string::String"@,
        "::stainless_runtime::Var"@,
        "::std::vec::Vec"@,
    ]
}

/// The names of the generic parameters of each compiler-provided type, in
/// the order of [`standard_paths`].
pub open spec fn standard_type_parameters() -> Seq<Seq<Seq<char>>> {
    seq![
        Seq::empty(),
        Seq::empty(),
        Seq::empty(),
        Seq::empty(),
        Seq::empty(),
        seq!["T"@],
        seq!["K"@, "V"@],
        seq!["T"@],
        seq!["T"@],
        Seq::empty(),
        Seq::empty(),
        seq!["T"@],
    ]
}

/// How each compiler-provided type is shown as an exception message, in the
/// order of [`standard_paths`]: the two error types by `Display`.
pub open spec fn standard_error_formats() -> Seq<Option<NativeErrorFormat>> {
    seq![
        None,
        None,
        None,
        Some(NativeErrorFormat::Display),
        Some(NativeErrorFormat::Display),
        None,
        None,
        None,
        None,
        None,
        None,
        None,
    ]
}

/// The number of callables of each compiler-provided type, in the order of
/// [`standard_paths`].
pub open spec fn standard_callable_counts() -> Seq<nat> {
    seq![12nat, 13, 8, 0, 0, 11, 11, 24, 11, 31, 16, 22]
}

/// Whether `x` is the `i`-th compiler-provided type: its paths, generic
/// parameters, error format and number of callables, and every callable of
/// it, as the tables of each type list them.
#[verifier::opaque]
pub open spec fn standard_binding_is(x: NativeTypeBinding, i: int) -> bool {
    &&& x.stainless_path@ == standard_paths()[i]
    &&& x.rust_path@ == standard_rust_paths()[i]
    &&& x.type_parameters@.len() == standard_arities()[i]
    &&& type_parameter_names(x.type_parameters@) == standard_type_parameters()[i]
    &&& x.error_format == standard_error_formats()[i]
    &&& x.callables@.len() == standard_callable_counts()[i]
    &&& callables_valid(x.callables@)
    &&& (i == 0 ==> fs_callables_hold(x.callables@))
    &&& (i == 1 ==> file_callables_hold(x.callables@))
    &&& (i == 2 ==> open_options_callables_hold(x.callables@))
    &&& (i == 5 ==> list_callables_hold(x.callables@))
    &&& (i == 6 ==> map_callables_hold(x.callables@))
    &&& (i == 7 ==> queue_callables_hold(x.callables@))
    &&& (i == 8 ==> set_callables_hold(x.callables@))
    &&& (i == 9 ==> string_constructions_hold(x.callables@) && string_callables_hold(x.callables@))
    &&& (i == 10 ==> var_callables_hold(x.callables@))
    &&& (i == 11 ==> vec_callables_hold(x.callables@))
}

/// Whether `s` holds the `i`-th compiler-provided type.
pub open spec fn standard_listed(s: Seq<NativeTypeBinding>, i: int) -> bool {
    exists|j: int| 0 <= j < s.len() && #[trigger] standard_binding_is(s[j], i)
}

/// Whether `x` is one of the compiler-provided types.
pub open spec fn standard_entry(x: NativeTypeBinding) -> bool {
    exists|i: int| 0 <= i < 12 && #[trigger] standard_binding_is(x, i)
}

/// Whether `s` holds exactly one type for each standard path, as
/// [`standard_binding_is`] describes it, and nothing else.
pub open spec fn standard_registry(s: Seq<NativeTypeBinding>) -> bool {
    &&& s.len() == 12
    &&& forall|i: int| 0 <= i < 12 ==> #[trigger] standard_listed(s, i)
    &&& forall|j: int| 0 <= j < 12 ==> #[trigger] standard_entry(s[j])
}

/// A rearrangement of the standard listing is a standard registry.
proof fn lemma_rearranged_listing(types: Seq<NativeTypeBinding>, t: Seq<NativeTypeBinding>)
    requires
        types.len() == 12,
        t.len() == 12,
        forall|i: int| 0 <= i < 12 ==> #[trigger] standard_binding_is(types[i], i),
        forall|i: int|
            #![trigger types[i]]
            0 <= i < types.len() ==> exists|j: int| 0 <= j < t.len() && #[trigger] t[j] == types[i],
        forall|j: int|
            #![trigger t[j]]
            0 <= j < t.len() ==> exists|i: int| 0 <= i < types.len() && #[trigger] types[i] == t[j],
    ensures
        standard_registry(t),
{
    assert forall|i: int| 0 <= i < 12 implies #[trigger] standard_listed(t, i) by {
        assert(standard_binding_is(types[i], i));
        let j = choose|j: int| 0 <= j < t.len() && #[trigger] t[j] == types[i];
        assert(t[j] == types[i]);
        assert(standard_binding_is(t[j], i));
    }
    assert forall|j: int| 0 <= j < 12 implies #[trigger] standard_entry(t[j]) by {
        let i = choose|i: int| 0 <= i < types.len() && #[trigger] types[i] == t[j];
        assert(standard_binding_is(types[i], i));
    }
}

/// A compiler-provided type has its standard path and valid callables.
proof fn lemma_binding_path(x: NativeTypeBinding, i: int)
    requires
        standard_binding_is(x, i),
    ensures
        x.stainless_path@ == standard_paths()[i],
        callables_valid(x.callables@),
{
    reveal(standard_binding_is);
}

/// The standard listing, once sorted, is a valid standard registry.
#[verifier::spinoff_prover]
#[verifier::rlimit(80)]
proof fn lemma_standard_listing(types: Seq<NativeTypeBinding>)
    requires
        types.len() == 12,
        standard_binding_is(types[0], 0),
        standard_binding_is(types[1], 1),
        standard_binding_is(types[2], 2),
        standard_binding_is(types[3], 3),
        standard_binding_is(types[4], 4),
        standard_binding_is(types[5], 5),
        standard_binding_is(types[6], 6),
        standard_binding_is(types[7], 7),
        standard_binding_is(types[8], 8),
        standard_binding_is(types[9], 9),
        standard_binding_is(types[10], 10),
        standard_binding_is(types[11], 11),
    ensures
        crate::interop::model::registry_error(sort_by_path(types)) is None,
        standard_registry(sort_by_path(types)),
{
    let paths = standard_paths();
    assert forall|i: int| 0 <= i < 12 implies #[trigger] standard_binding_is(types[i], i) by {
        if i == 0 {
        } else if i == 1 {
        } else if i == 2 {
        } else if i == 3 {
        } else if i == 4 {
        } else if i == 5 {
        } else if i == 6 {
        } else if i == 7 {
        } else if i == 8 {
        } else if i == 9 {
        } else if i == 10 {
        } else {
        }
    }
    assert forall|i: int| 0 <= i < 12 implies (#[trigger] types[i]).stainless_path@ == paths[i]
        && callables_valid(types[i].callables@) by {
        lemma_binding_path(types[i], i);
    }
    lemma_standard_registry(types);
    lemma_sorted_standard(types);
}

/// Sorting the standard listing gives a standard registry.
#[verifier::spinoff_prover]
proof fn lemma_sorted_standard(types: Seq<NativeTypeBinding>)
    requires
        types.len() == 12,
        forall|i: int| 0 <= i < 12 ==> #[trigger] standard_binding_is(types[i], i),
    ensures
        standard_registry(sort_by_path(types)),
{
    lemma_sort_by_path(types);
    lemma_sort_elements_exist(types);
    crate::interop::model::lemma_sort_elements_from(types);
    lemma_rearranged_listing(types, sort_by_path(types));
}

/// Returns the compiler-provided native Rust bindings.
///
/// These bindings expose real Rust standard-library representations: they
/// are semantic and code-generation metadata, not runtime wrapper newtypes.
/// The registry is always valid, so the result is always `Ok`: it holds
/// exactly one type for each of [`standard_paths`], with the generic arity
/// of [`standard_arities`].
#[verifier::spinoff_prover]
#[verifier::rlimit(40)]
pub fn standard_bindings() -> (r: Result<NativeBindings, BindingError>)
    ensures
        r matches Ok(b) && standard_registry(b@),
{
    let mut types = Vec::new();
    let b0 = fs_binding();
    let b1 = file_binding();
    let b2 = open_options_binding();
    let b3 = io_error_binding();
    let b4 = json_error_binding();
    let b5 = list_binding();
    let b6 = map_binding();
    let b7 = queue_binding();
    let b8 = set_binding();
    let b9 = string_binding();
    let b10 = var_binding();
    let b11 = vec_binding();
    let ghost expected = seq![b0, b1, b2, b3, b4, b5, b6, b7, b8, b9, b10, b11];
    types.push(b0);
    types.push(b1);
    types.push(b2);
    types.push(b3);
    types.push(b4);
    types.push(b5);
    types.push(b6);
    types.push(b7);
    types.push(b8);
    types.push(b9);
    types.push(b10);
    types.push(b11);
    proof {
        assert(types@ =~= expected);
        lemma_standard_listing(expected);
    }
    let ghost listed = types@;
    let r = NativeBindings::new(types);
    proof {
        assert(r is Ok);
        assert(r->Ok_0@ == sort_by_path(listed));
    }
    r
}

} // verus!

verus! {

/// A description of a type, in the tables of the standard bindings.
pub enum Shape {
    /// Structurally equal to the type.
    Is(TypeRef),
    /// `rust::Option` of the type.
    OptionOf(TypeRef),
    /// A shared (`false`) or mutable (`true`) reference to the type.
    RefTo(bool, TypeRef),
    /// A one-shot callback, used only during the call, that borrows the
    /// type shared (`false`) or mutably (`true`) and returns nothing.
    LendingCallback(bool, TypeRef),
}

/// Whether `t` is of the shape `s`.
pub open spec fn fits(t: TypeRef, s: Shape) -> bool {
    match s {
        Shape::Is(x) => type_eq(t, x),
        Shape::OptionOf(x) => t matches TypeRef::Native { path, arguments } && path@ == "rust::Option"@
            && arguments@.len() == 1 && type_eq(arguments@[0], x),
        Shape::RefTo(m, x) => t matches TypeRef::Reference { mutable, target } && mutable == m && type_eq(*target, x),
        Shape::LendingCallback(m, x) => t matches TypeRef::Callback(c) && c.kind == CallbackKind::FnOnce && c.escape
            == CallbackEscape::Call && c.parameters@.len() == 1 && fits_reference(c.parameters@[0], m, x)
            && *c.return_type == TypeRef::Void,
    }
}

/// Whether `t` is a shared (`false`) or mutable (`true`) reference to `x`.
pub open spec fn fits_reference(t: TypeRef, m: bool, x: TypeRef) -> bool {
    t matches TypeRef::Reference { mutable, target } && mutable == m && type_eq(*target, x)
}

/// What a callable lowers to, in the tables of the standard bindings.
pub enum Lowered {
    /// A call of a Rust associated function, by path.
    Function,
    /// A call of a Rust method, by name.
    Method,
    /// A call of a Rust function that takes the receiver first, by path.
    WithReceiver,
}

/// Whether `l` is the lowering of kind `kind` with path or name `text`.
pub open spec fn lowering_fits(l: RustLowering, kind: Lowered, text: Seq<char>) -> bool {
    match kind {
        Lowered::Function => l matches RustLowering::AssociatedFunction { rust_path } && rust_path@ == text,
        Lowered::Method => l matches RustLowering::Method { rust_name } && rust_name@ == text,
        Lowered::WithReceiver => l matches RustLowering::FunctionWithReceiver { rust_path } && rust_path@ == text,
    }
}

/// `c` is the synchronous callable `name`: its call style and receiver, its
/// parameters (name, type and adaptation, in order), its return type, the
/// Rust error it converts to an exception, its trait requirements
/// (generic parameter and Rust trait, in order) and its lowering.
pub open spec fn callable_is(
    c: CallableBinding,
    name: Seq<char>,
    style: CallStyle,
    receiver: Option<Receiver>,
    params: Seq<(Seq<char>, Shape, ArgumentAdaptation)>,
    ret: Shape,
    error: Option<TypeRef>,
    reqs: Seq<(Seq<char>, Seq<char>)>,
    kind: Lowered,
    text: Seq<char>,
) -> bool {
    &&& c.source_name@ == name
    &&& c.style == style
    &&& c.receiver == receiver
    &&& !c.is_async
    &&& c.parameters@.len() == params.len()
    &&& forall|k: int|
        0 <= k < params.len() ==> (#[trigger] c.parameters@[k]).name@ == params[k].0 && fits(
            c.parameters@[k].ty,
            params[k].1,
        ) && c.parameters@[k].adaptation == params[k].2
    &&& fits(c.return_type, ret)
    &&& match error {
        Some(e) => c.rust_result_error matches Some(x) && type_eq(x, e),
        None => c.rust_result_error is None,
    }
    &&& c.requirements@.len() == reqs.len()
    &&& forall|k: int|
        0 <= k < reqs.len() ==> (#[trigger] c.requirements@[k]).parameter@ == reqs[k].0
            && c.requirements@[k].rust_trait@ == reqs[k].1
    &&& lowering_fits(c.lowering, kind, text)
}

/// The constructors of `rust::Vec<T>`.
pub open spec fn vec_construction_table(cs: Seq<CallableBinding>, vec_t: TypeRef) -> bool {
    &&& cs.len() == 2
    &&& callable_is(cs[0], "Vec"@, CallStyle::Constructor, None, Seq::empty(), Shape::Is(vec_t), None, Seq::empty(), Lowered::Function, "::std::vec::Vec::new"@)
    &&& callable_is(cs[1], "with_capacity"@, CallStyle::AssociatedFunction, None, seq![("capacity"@, Shape::Is(TypeRef::Usize), ArgumentAdaptation::Identity)], Shape::Is(vec_t), None, Seq::empty(), Lowered::Function, "::std::vec::Vec::with_capacity"@)
}

/// The capacity methods of `rust::Vec<T>`.
pub open spec fn vec_capacity_table(cs: Seq<CallableBinding>) -> bool {
    &&& cs.len() == 7
    &&& callable_is(cs[0], "len"@, CallStyle::Method, Some(Receiver::Shared), Seq::empty(), Shape::Is(TypeRef::Usize), None, Seq::empty(), Lowered::Method, "len"@)
    &&& callable_is(cs[1], "is_empty"@, CallStyle::Method, Some(Receiver::Shared), Seq::empty(), Shape::Is(TypeRef::Bool), None, Seq::empty(), Lowered::Method, "is_empty"@)
    &&& callable_is(cs[2], "capacity"@, CallStyle::Method, Some(Receiver::Shared), Seq::empty(), Shape::Is(TypeRef::Usize), None, Seq::empty(), Lowered::Method, "capacity"@)
    &&& callable_is(cs[3], "reserve"@, CallStyle::Method, Some(Receiver::Mutable), seq![("additional"@, Shape::Is(TypeRef::Usize), ArgumentAdaptation::Identity)], Shape::Is(TypeRef::Void), None, Seq::empty(), Lowered::Method, "reserve"@)
    &&& callable_is(cs[4], "reserve_exact"@, CallStyle::Method, Some(Receiver::Mutable), seq![("additional"@, Shape::Is(TypeRef::Usize), ArgumentAdaptation::Identity)], Shape::Is(TypeRef::Void), None, Seq::empty(), Lowered::Method, "reserve_exact"@)
    &&& callable_is(cs[5], "shrink_to"@, CallStyle::Method, Some(Receiver::Mutable), seq![("minimum_capacity"@, Shape::Is(TypeRef::Usize), ArgumentAdaptation::Identity)], Shape::Is(TypeRef::Void), None, Seq::empty(), Lowered::Method, "shrink_to"@)
    &&& callable_is(cs[6], "shrink_to_fit"@, CallStyle::Method, Some(Receiver::Mutable), Seq::empty(), Shape::Is(TypeRef::Void), None, Seq::empty(), Lowered::Method, "shrink_to_fit"@)
}

/// The element methods of `rust::Vec<T>`.
pub open spec fn vec_element_table(cs: Seq<CallableBinding>, t: TypeRef, vec_t: TypeRef) -> bool {
    &&& cs.len() == 9
    &&& callable_is(cs[0], "push"@, CallStyle::Method, Some(Receiver::Mutable), seq![("value"@, Shape::Is(t), ArgumentAdaptation::Identity)], Shape::Is(TypeRef::Void), None, Seq::empty(), Lowered::Method, "push"@)
    &&& callable_is(cs[1], "pop"@, CallStyle::Method, Some(Receiver::Mutable), Seq::empty(), Shape::OptionOf(t), None, Seq::empty(), Lowered::Method, "pop"@)
    &&& callable_is(cs[2], "clear"@, CallStyle::Method, Some(Receiver::Mutable), Seq::empty(), Shape::Is(TypeRef::Void), None, Seq::empty(), Lowered::Method, "clear"@)
    &&& callable_is(cs[3], "truncate"@, CallStyle::Method, Some(Receiver::Mutable), seq![("length"@, Shape::Is(TypeRef::Usize), ArgumentAdaptation::Identity)], Shape::Is(TypeRef::Void), None, Seq::empty(), Lowered::Method, "truncate"@)
    &&& callable_is(cs[4], "insert"@, CallStyle::Method, Some(Receiver::Mutable), seq![("index"@, Shape::Is(TypeRef::Usize), ArgumentAdaptation::Identity), ("value"@, Shape::Is(t), ArgumentAdaptation::Identity)], Shape::Is(TypeRef::Void), None, Seq::empty(), Lowered::Method, "insert"@)
    &&& callable_is(cs[5], "remove"@, CallStyle::Method, Some(Receiver::Mutable), seq![("index"@, Shape::Is(TypeRef::Usize), ArgumentAdaptation::Identity)], Shape::Is(t), None, Seq::empty(), Lowered::Method, "remove"@)
    &&& callable_is(cs[6], "swap_remove"@, CallStyle::Method, Some(Receiver::Mutable), seq![("index"@, Shape::Is(TypeRef::Usize), ArgumentAdaptation::Identity)], Shape::Is(t), None, Seq::empty(), Lowered::Method, "swap_remove"@)
    &&& callable_is(cs[7], "append"@, CallStyle::Method, Some(Receiver::Mutable), seq![("other"@, Shape::RefTo(true, vec_t), ArgumentAdaptation::Identity)], Shape::Is(TypeRef::Void), None, Seq::empty(), Lowered::Method, "append"@)
    &&& callable_is(cs[8], "reverse"@, CallStyle::Method, Some(Receiver::Mutable), Seq::empty(), Shape::Is(TypeRef::Void), None, Seq::empty(), Lowered::Method, "reverse"@)
}

/// The trait-bounded methods of `rust::Vec<T>`.
pub open spec fn vec_trait_table(cs: Seq<CallableBinding>, t: TypeRef, vec_t: TypeRef) -> bool {
    &&& cs.len() == 4
    &&& callable_is(cs[0], "clone"@, CallStyle::Method, Some(Receiver::Shared), Seq::empty(), Shape::Is(vec_t), None, seq![("T"@, "::core::clone::Clone"@)], Lowered::Method, "clone"@)
    &&& callable_is(cs[1], "contains"@, CallStyle::Method, Some(Receiver::Shared), seq![("value"@, Shape::RefTo(false, t), ArgumentAdaptation::Identity)], Shape::Is(TypeRef::Bool), None, seq![("T"@, "::core::cmp::PartialEq"@)], Lowered::Method, "contains"@)
    &&& callable_is(cs[2], "sort"@, CallStyle::Method, Some(Receiver::Mutable), Seq::empty(), Shape::Is(TypeRef::Void), None, seq![("T"@, "::core::cmp::Ord"@)], Lowered::Method, "sort"@)
    &&& callable_is(cs[3], "dedup"@, CallStyle::Method, Some(Receiver::Mutable), Seq::empty(), Shape::Is(TypeRef::Void), None, seq![("T"@, "::core::cmp::PartialEq"@)], Lowered::Method, "dedup"@)
}

/// The callables of `rust::List<T>`.
pub open spec fn list_table(cs: Seq<CallableBinding>, t: TypeRef, list_t: TypeRef) -> bool {
    &&& cs.len() == 11
    &&& callable_is(cs[0], "List"@, CallStyle::Constructor, None, Seq::empty(), Shape::Is(list_t), None, Seq::empty(), Lowered::Function, "::std::collections::LinkedList::new"@)
    &&& callable_is(cs[1], "len"@, CallStyle::Method, Some(Receiver::Shared), Seq::empty(), Shape::Is(TypeRef::Usize), None, Seq::empty(), Lowered::Method, "len"@)
    &&& callable_is(cs[2], "is_empty"@, CallStyle::Method, Some(Receiver::Shared), Seq::empty(), Shape::Is(TypeRef::Bool), None, Seq::empty(), Lowered::Method, "is_empty"@)
    &&& callable_is(cs[3], "clear"@, CallStyle::Method, Some(Receiver::Mutable), Seq::empty(), Shape::Is(TypeRef::Void), None, Seq::empty(), Lowered::Method, "clear"@)
    &&& callable_is(cs[4], "push_front"@, CallStyle::Method, Some(Receiver::Mutable), seq![("value"@, Shape::Is(t), ArgumentAdaptation::Identity)], Shape::Is(TypeRef::Void), None, Seq::empty(), Lowered::Method, "push_front"@)
    &&& callable_is(cs[5], "push_back"@, CallStyle::Method, Some(Receiver::Mutable), seq![("value"@, Shape::Is(t), ArgumentAdaptation::Identity)], Shape::Is(TypeRef::Void), None, Seq::empty(), Lowered::Method, "push_back"@)
    &&& callable_is(cs[6], "pop_front"@, CallStyle::Method, Some(Receiver::Mutable), Seq::empty(), Shape::OptionOf(t), None, Seq::empty(), Lowered::Method, "pop_front"@)
    &&& callable_is(cs[7], "pop_back"@, CallStyle::Method, Some(Receiver::Mutable), Seq::empty(), Shape::OptionOf(t), None, Seq::empty(), Lowered::Method, "pop_back"@)
    &&& callable_is(cs[8], "append"@, CallStyle::Method, Some(Receiver::Mutable), seq![("other"@, Shape::RefTo(true, list_t), ArgumentAdaptation::Identity)], Shape::Is(TypeRef::Void), None, Seq::empty(), Lowered::Method, "append"@)
    &&& callable_is(cs[9], "contains"@, CallStyle::Method, Some(Receiver::Shared), seq![("value"@, Shape::RefTo(false, t), ArgumentAdaptation::Identity)], Shape::Is(TypeRef::Bool), None, seq![("T"@, "::core::cmp::PartialEq"@)], Lowered::Method, "contains"@)
    &&& callable_is(cs[10], "clone"@, CallStyle::Method, Some(Receiver::Shared), Seq::empty(), Shape::Is(list_t), None, seq![("T"@, "::core::clone::Clone"@)], Lowered::Method, "clone"@)
}

/// The callables of `rust::Queue<T>`.
pub open spec fn queue_table(cs: Seq<CallableBinding>, t: TypeRef, queue_t: TypeRef) -> bool {
    &&& cs.len() == 24
    &&& callable_is(cs[0], "Queue"@, CallStyle::Constructor, None, Seq::empty(), Shape::Is(queue_t), None, Seq::empty(), Lowered::Function, "::std::collections::VecDeque::new"@)
    &&& callable_is(cs[1], "with_capacity"@, CallStyle::AssociatedFunction, None, seq![("capacity"@, Shape::Is(TypeRef::Usize), ArgumentAdaptation::Identity)], Shape::Is(queue_t), None, Seq::empty(), Lowered::Function, "::std::collections::VecDeque::with_capacity"@)
    &&& callable_is(cs[2], "len"@, CallStyle::Method, Some(Receiver::Shared), Seq::empty(), Shape::Is(TypeRef::Usize), None, Seq::empty(), Lowered::Method, "len"@)
    &&& callable_is(cs[3], "is_empty"@, CallStyle::Method, Some(Receiver::Shared), Seq::empty(), Shape::Is(TypeRef::Bool), None, Seq::empty(), Lowered::Method, "is_empty"@)
    &&& callable_is(cs[4], "capacity"@, CallStyle::Method, Some(Receiver::Shared), Seq::empty(), Shape::Is(TypeRef::Usize), None, Seq::empty(), Lowered::Method, "capacity"@)
    &&& callable_is(cs[5], "reserve"@, CallStyle::Method, Some(Receiver::Mutable), seq![("additional"@, Shape::Is(TypeRef::Usize), ArgumentAdaptation::Identity)], Shape::Is(TypeRef::Void), None, Seq::empty(), Lowered::Method, "reserve"@)
    &&& callable_is(cs[6], "reserve_exact"@, CallStyle::Method, Some(Receiver::Mutable), seq![("additional"@, Shape::Is(TypeRef::Usize), ArgumentAdaptation::Identity)], Shape::Is(TypeRef::Void), None, Seq::empty(), Lowered::Method, "reserve_exact"@)
    &&& callable_is(cs[7], "shrink_to_fit"@, CallStyle::Method, Some(Receiver::Mutable), Seq::empty(), Shape::Is(TypeRef::Void), None, Seq::empty(), Lowered::Method, "shrink_to_fit"@)
    &&& callable_is(cs[8], "shrink_to"@, CallStyle::Method, Some(Receiver::Mutable), seq![("minimum_capacity"@, Shape::Is(TypeRef::Usize), ArgumentAdaptation::Identity)], Shape::Is(TypeRef::Void), None, Seq::empty(), Lowered::Method, "shrink_to"@)
    &&& callable_is(cs[9], "clear"@, CallStyle::Method, Some(Receiver::Mutable), Seq::empty(), Shape::Is(TypeRef::Void), None, Seq::empty(), Lowered::Method, "clear"@)
    &&& callable_is(cs[10], "truncate"@, CallStyle::Method, Some(Receiver::Mutable), seq![("length"@, Shape::Is(TypeRef::Usize), ArgumentAdaptation::Identity)], Shape::Is(TypeRef::Void), None, Seq::empty(), Lowered::Method, "truncate"@)
    &&& callable_is(cs[11], "push_front"@, CallStyle::Method, Some(Receiver::Mutable), seq![("value"@, Shape::Is(t), ArgumentAdaptation::Identity)], Shape::Is(TypeRef::Void), None, Seq::empty(), Lowered::Method, "push_front"@)
    &&& callable_is(cs[12], "push_back"@, CallStyle::Method, Some(Receiver::Mutable), seq![("value"@, Shape::Is(t), ArgumentAdaptation::Identity)], Shape::Is(TypeRef::Void), None, Seq::empty(), Lowered::Method, "push_back"@)
    &&& callable_is(cs[13], "pop_front"@, CallStyle::Method, Some(Receiver::Mutable), Seq::empty(), Shape::OptionOf(t), None, Seq::empty(), Lowered::Method, "pop_front"@)
    &&& callable_is(cs[14], "pop_back"@, CallStyle::Method, Some(Receiver::Mutable), Seq::empty(), Shape::OptionOf(t), None, Seq::empty(), Lowered::Method, "pop_back"@)
    &&& callable_is(cs[15], "insert"@, CallStyle::Method, Some(Receiver::Mutable), seq![("index"@, Shape::Is(TypeRef::Usize), ArgumentAdaptation::Identity), ("value"@, Shape::Is(t), ArgumentAdaptation::Identity)], Shape::Is(TypeRef::Void), None, Seq::empty(), Lowered::Method, "insert"@)
    &&& callable_is(cs[16], "remove"@, CallStyle::Method, Some(Receiver::Mutable), seq![("index"@, Shape::Is(TypeRef::Usize), ArgumentAdaptation::Identity)], Shape::OptionOf(t), None, Seq::empty(), Lowered::Method, "remove"@)
    &&& callable_is(cs[17], "swap_remove_front"@, CallStyle::Method, Some(Receiver::Mutable), seq![("index"@, Shape::Is(TypeRef::Usize), ArgumentAdaptation::Identity)], Shape::OptionOf(t), None, Seq::empty(), Lowered::Method, "swap_remove_front"@)
    &&& callable_is(cs[18], "swap_remove_back"@, CallStyle::Method, Some(Receiver::Mutable), seq![("index"@, Shape::Is(TypeRef::Usize), ArgumentAdaptation::Identity)], Shape::OptionOf(t), None, Seq::empty(), Lowered::Method, "swap_remove_back"@)
    &&& callable_is(cs[19], "append"@, CallStyle::Method, Some(Receiver::Mutable), seq![("other"@, Shape::RefTo(true, queue_t), ArgumentAdaptation::Identity)], Shape::Is(TypeRef::Void), None, Seq::empty(), Lowered::Method, "append"@)
    &&& callable_is(cs[20], "rotate_left"@, CallStyle::Method, Some(Receiver::Mutable), seq![("middle"@, Shape::Is(TypeRef::Usize), ArgumentAdaptation::Identity)], Shape::Is(TypeRef::Void), None, Seq::empty(), Lowered::Method, "rotate_left"@)
    &&& callable_is(cs[21], "rotate_right"@, CallStyle::Method, Some(Receiver::Mutable), seq![("middle"@, Shape::Is(TypeRef::Usize), ArgumentAdaptation::Identity)], Shape::Is(TypeRef::Void), None, Seq::empty(), Lowered::Method, "rotate_right"@)
    &&& callable_is(cs[22], "contains"@, CallStyle::Method, Some(Receiver::Shared), seq![("value"@, Shape::RefTo(false, t), ArgumentAdaptation::Identity)], Shape::Is(TypeRef::Bool), None, seq![("T"@, "::core::cmp::PartialEq"@)], Lowered::Method, "contains"@)
    &&& callable_is(cs[23], "clone"@, CallStyle::Method, Some(Receiver::Shared), Seq::empty(), Shape::Is(queue_t), None, seq![("T"@, "::core::clone::Clone"@)], Lowered::Method, "clone"@)
}

/// The callables of `rust::Set<T>`.
pub open spec fn set_table(cs: Seq<CallableBinding>, t: TypeRef, set_t: TypeRef) -> bool {
    &&& cs.len() == 11
    &&& callable_is(cs[0], "Set"@, CallStyle::Constructor, None, Seq::empty(), Shape::Is(set_t), None, Seq::empty(), Lowered::Function, "::std::collections::BTreeSet::new"@)
    &&& callable_is(cs[1], "len"@, CallStyle::Method, Some(Receiver::Shared), Seq::empty(), Shape::Is(TypeRef::Usize), None, Seq::empty(), Lowered::Method, "len"@)
    &&& callable_is(cs[2], "is_empty"@, CallStyle::Method, Some(Receiver::Shared), Seq::empty(), Shape::Is(TypeRef::Bool), None, Seq::empty(), Lowered::Method, "is_empty"@)
    &&& callable_is(cs[3], "clear"@, CallStyle::Method, Some(Receiver::Mutable), Seq::empty(), Shape::Is(TypeRef::Void), None, Seq::empty(), Lowered::Method, "clear"@)
    &&& callable_is(cs[4], "insert"@, CallStyle::Method, Some(Receiver::Mutable), seq![("value"@, Shape::Is(t), ArgumentAdaptation::Identity)], Shape::Is(TypeRef::Bool), None, seq![("T"@, "::core::cmp::Ord"@)], Lowered::Method, "insert"@)
    &&& callable_is(cs[5], "replace"@, CallStyle::Method, Some(Receiver::Mutable), seq![("value"@, Shape::Is(t), ArgumentAdaptation::Identity)], Shape::OptionOf(t), None, seq![("T"@, "::core::cmp::Ord"@)], Lowered::Method, "replace"@)
    &&& callable_is(cs[6], "remove"@, CallStyle::Method, Some(Receiver::Mutable), seq![("value"@, Shape::RefTo(false, t), ArgumentAdaptation::Identity)], Shape::Is(TypeRef::Bool), None, seq![("T"@, "::core::cmp::Ord"@)], Lowered::Method, "remove"@)
    &&& callable_is(cs[7], "take"@, CallStyle::Method, Some(Receiver::Mutable), seq![("value"@, Shape::RefTo(false, t), ArgumentAdaptation::Identity)], Shape::OptionOf(t), None, seq![("T"@, "::core::cmp::Ord"@)], Lowered::Method, "take"@)
    &&& callable_is(cs[8], "contains"@, CallStyle::Method, Some(Receiver::Shared), seq![("value"@, Shape::RefTo(false, t), ArgumentAdaptation::Identity)], Shape::Is(TypeRef::Bool), None, seq![("T"@, "::core::cmp::Ord"@)], Lowered::Method, "contains"@)
    &&& callable_is(cs[9], "append"@, CallStyle::Method, Some(Receiver::Mutable), seq![("other"@, Shape::RefTo(true, set_t), ArgumentAdaptation::Identity)], Shape::Is(TypeRef::Void), None, seq![("T"@, "::core::cmp::Ord"@)], Lowered::Method, "append"@)
    &&& callable_is(cs[10], "clone"@, CallStyle::Method, Some(Receiver::Shared), Seq::empty(), Shape::Is(set_t), None, seq![("T"@, "::core::clone::Clone"@)], Lowered::Method, "clone"@)
}

/// The callables of `rust::Map<K, V>`.
pub open spec fn map_table(cs: Seq<CallableBinding>, k: TypeRef, v: TypeRef, map_t: TypeRef) -> bool {
    &&& cs.len() == 11
    &&& callable_is(cs[0], "Map"@, CallStyle::Constructor, None, Seq::empty(), Shape::Is(map_t), None, Seq::empty(), Lowered::Function, "::std::collections::BTreeMap::new"@)
    &&& callable_is(cs[1], "len"@, CallStyle::Method, Some(Receiver::Shared), Seq::empty(), Shape::Is(TypeRef::Usize), None, Seq::empty(), Lowered::Method, "len"@)
    &&& callable_is(cs[2], "is_empty"@, CallStyle::Method, Some(Receiver::Shared), Seq::empty(), Shape::Is(TypeRef::Bool), None, Seq::empty(), Lowered::Method, "is_empty"@)
    &&& callable_is(cs[3], "clear"@, CallStyle::Method, Some(Receiver::Mutable), Seq::empty(), Shape::Is(TypeRef::Void), None, Seq::empty(), Lowered::Method, "clear"@)
    &&& callable_is(cs[4], "insert"@, CallStyle::Method, Some(Receiver::Mutable), seq![("key"@, Shape::Is(k), ArgumentAdaptation::Identity), ("value"@, Shape::Is(v), ArgumentAdaptation::Identity)], Shape::OptionOf(v), None, seq![("K"@, "::core::cmp::Ord"@)], Lowered::Method, "insert"@)
    &&& callable_is(cs[5], "remove"@, CallStyle::Method, Some(Receiver::Mutable), seq![("key"@, Shape::RefTo(false, k), ArgumentAdaptation::Identity)], Shape::OptionOf(v), None, seq![("K"@, "::core::cmp::Ord"@)], Lowered::Method, "remove"@)
    &&& callable_is(cs[6], "contains_key"@, CallStyle::Method, Some(Receiver::Shared), seq![("key"@, Shape::RefTo(false, k), ArgumentAdaptation::Identity)], Shape::Is(TypeRef::Bool), None, seq![("K"@, "::core::cmp::Ord"@)], Lowered::Method, "contains_key"@)
    &&& callable_is(cs[7], "with"@, CallStyle::Method, Some(Receiver::Shared), seq![("key"@, Shape::RefTo(false, k), ArgumentAdaptation::Identity), ("callback"@, Shape::LendingCallback(false, v), ArgumentAdaptation::Identity)], Shape::Is(TypeRef::Bool), None, seq![("K"@, "::core::cmp::Ord"@)], Lowered::WithReceiver, "::stainless_runtime::btree_map_with"@)
    &&& callable_is(cs[8], "with_mut"@, CallStyle::Method, Some(Receiver::Mutable), seq![("key"@, Shape::RefTo(false, k), ArgumentAdaptation::Identity), ("callback"@, Shape::LendingCallback(true, v), ArgumentAdaptation::Identity)], Shape::Is(TypeRef::Bool), None, seq![("K"@, "::core::cmp::Ord"@)], Lowered::WithReceiver, "::stainless_runtime::btree_map_with_mut"@)
    &&& callable_is(cs[9], "append"@, CallStyle::Method, Some(Receiver::Mutable), seq![("other"@, Shape::RefTo(true, map_t), ArgumentAdaptation::Identity)], Shape::Is(TypeRef::Void), None, seq![("K"@, "::core::cmp::Ord"@)], Lowered::Method, "append"@)
    &&& callable_is(cs[10], "clone"@, CallStyle::Method, Some(Receiver::Shared), Seq::empty(), Shape::Is(map_t), None, seq![("K"@, "::core::clone::Clone"@), ("V"@, "::core::clone::Clone"@)], Lowered::Method, "clone"@)
}

/// The capacity methods of `rust::String`.
pub open spec fn string_capacity_table(cs: Seq<CallableBinding>) -> bool {
    &&& cs.len() == 8
    &&& callable_is(cs[0], "len"@, CallStyle::Method, Some(Receiver::Shared), Seq::empty(), Shape::Is(TypeRef::Usize), None, Seq::empty(), Lowered::Method, "len"@)
    &&& callable_is(cs[1], "is_empty"@, CallStyle::Method, Some(Receiver::Shared), Seq::empty(), Shape::Is(TypeRef::Bool), None, Seq::empty(), Lowered::Method, "is_empty"@)
    &&& callable_is(cs[2], "capacity"@, CallStyle::Method, Some(Receiver::Shared), Seq::empty(), Shape::Is(TypeRef::Usize), None, Seq::empty(), Lowered::Method, "capacity"@)
    &&& callable_is(cs[3], "reserve"@, CallStyle::Method, Some(Receiver::Mutable), seq![("additional"@, Shape::Is(TypeRef::Usize), ArgumentAdaptation::Identity)], Shape::Is(TypeRef::Void), None, Seq::empty(), Lowered::Method, "reserve"@)
    &&& callable_is(cs[4], "reserve_exact"@, CallStyle::Method, Some(Receiver::Mutable), seq![("additional"@, Shape::Is(TypeRef::Usize), ArgumentAdaptation::Identity)], Shape::Is(TypeRef::Void), None, Seq::empty(), Lowered::Method, "reserve_exact"@)
    &&& callable_is(cs[5], "shrink_to"@, CallStyle::Method, Some(Receiver::Mutable), seq![("minimum_capacity"@, Shape::Is(TypeRef::Usize), ArgumentAdaptation::Identity)], Shape::Is(TypeRef::Void), None, Seq::empty(), Lowered::Method, "shrink_to"@)
    &&& callable_is(cs[6], "shrink_to_fit"@, CallStyle::Method, Some(Receiver::Mutable), Seq::empty(), Shape::Is(TypeRef::Void), None, Seq::empty(), Lowered::Method, "shrink_to_fit"@)
    &&& callable_is(cs[7], "truncate"@, CallStyle::Method, Some(Receiver::Mutable), seq![("length"@, Shape::Is(TypeRef::Usize), ArgumentAdaptation::Identity)], Shape::Is(TypeRef::Void), None, Seq::empty(), Lowered::Method, "truncate"@)
}

/// The in-place edits of `rust::String`.
pub open spec fn string_mutation_table(cs: Seq<CallableBinding>, string_ref: TypeRef) -> bool {
    &&& cs.len() == 9
    &&& callable_is(cs[0], "clear"@, CallStyle::Method, Some(Receiver::Mutable), Seq::empty(), Shape::Is(TypeRef::Void), None, Seq::empty(), Lowered::Method, "clear"@)
    &&& callable_is(cs[1], "push"@, CallStyle::Method, Some(Receiver::Mutable), seq![("value"@, Shape::Is(TypeRef::Char), ArgumentAdaptation::Identity)], Shape::Is(TypeRef::Void), None, Seq::empty(), Lowered::Method, "push"@)
    &&& callable_is(cs[2], "push_str"@, CallStyle::Method, Some(Receiver::Mutable), seq![("value"@, Shape::Is(string_ref), ArgumentAdaptation::StringRefToStr)], Shape::Is(TypeRef::Void), None, Seq::empty(), Lowered::Method, "push_str"@)
    &&& callable_is(cs[3], "pop"@, CallStyle::Method, Some(Receiver::Mutable), Seq::empty(), Shape::OptionOf(TypeRef::Char), None, Seq::empty(), Lowered::Method, "pop"@)
    &&& callable_is(cs[4], "insert"@, CallStyle::Method, Some(Receiver::Mutable), seq![("index"@, Shape::Is(TypeRef::Usize), ArgumentAdaptation::Identity), ("value"@, Shape::Is(TypeRef::Char), ArgumentAdaptation::Identity)], Shape::Is(TypeRef::Void), None, Seq::empty(), Lowered::Method, "insert"@)
    &&& callable_is(cs[5], "insert_str"@, CallStyle::Method, Some(Receiver::Mutable), seq![("index"@, Shape::Is(TypeRef::Usize), ArgumentAdaptation::Identity), ("value"@, Shape::Is(string_ref), ArgumentAdaptation::StringRefToStr)], Shape::Is(TypeRef::Void), None, Seq::empty(), Lowered::Method, "insert_str"@)
    &&& callable_is(cs[6], "remove"@, CallStyle::Method, Some(Receiver::Mutable), seq![("index"@, Shape::Is(TypeRef::Usize), ArgumentAdaptation::Identity)], Shape::Is(TypeRef::Char), None, Seq::empty(), Lowered::Method, "remove"@)
    &&& callable_is(cs[7], "make_ascii_lowercase"@, CallStyle::Method, Some(Receiver::Mutable), Seq::empty(), Shape::Is(TypeRef::Void), None, Seq::empty(), Lowered::Method, "make_ascii_lowercase"@)
    &&& callable_is(cs[8], "make_ascii_uppercase"@, CallStyle::Method, Some(Receiver::Mutable), Seq::empty(), Shape::Is(TypeRef::Void), None, Seq::empty(), Lowered::Method, "make_ascii_uppercase"@)
}

/// The queries of `rust::String`.
pub open spec fn string_query_table(cs: Seq<CallableBinding>, string: TypeRef, string_ref: TypeRef) -> bool {
    &&& cs.len() == 9
    &&& callable_is(cs[0], "is_ascii"@, CallStyle::Method, Some(Receiver::Shared), Seq::empty(), Shape::Is(TypeRef::Bool), None, Seq::empty(), Lowered::Method, "is_ascii"@)
    &&& callable_is(cs[1], "contains"@, CallStyle::Method, Some(Receiver::Shared), seq![("pattern"@, Shape::Is(string_ref), ArgumentAdaptation::StringRefToStr)], Shape::Is(TypeRef::Bool), None, Seq::empty(), Lowered::Method, "contains"@)
    &&& callable_is(cs[2], "starts_with"@, CallStyle::Method, Some(Receiver::Shared), seq![("pattern"@, Shape::Is(string_ref), ArgumentAdaptation::StringRefToStr)], Shape::Is(TypeRef::Bool), None, Seq::empty(), Lowered::Method, "starts_with"@)
    &&& callable_is(cs[3], "ends_with"@, CallStyle::Method, Some(Receiver::Shared), seq![("pattern"@, Shape::Is(string_ref), ArgumentAdaptation::StringRefToStr)], Shape::Is(TypeRef::Bool), None, Seq::empty(), Lowered::Method, "ends_with"@)
    &&& callable_is(cs[4], "eq_ignore_ascii_case"@, CallStyle::Method, Some(Receiver::Shared), seq![("other"@, Shape::Is(string_ref), ArgumentAdaptation::StringRefToStr)], Shape::Is(TypeRef::Bool), None, Seq::empty(), Lowered::Method, "eq_ignore_ascii_case"@)
    &&& callable_is(cs[5], "replace"@, CallStyle::Method, Some(Receiver::Shared), seq![("from"@, Shape::Is(string_ref), ArgumentAdaptation::StringRefToStr), ("to"@, Shape::Is(string_ref), ArgumentAdaptation::StringRefToStr)], Shape::Is(string), None, Seq::empty(), Lowered::Method, "replace"@)
    &&& callable_is(cs[6], "repeat"@, CallStyle::Method, Some(Receiver::Shared), seq![("count"@, Shape::Is(TypeRef::Usize), ArgumentAdaptation::Identity)], Shape::Is(string), None, Seq::empty(), Lowered::Method, "repeat"@)
    &&& callable_is(cs[7], "to_lowercase"@, CallStyle::Method, Some(Receiver::Shared), Seq::empty(), Shape::Is(string), None, Seq::empty(), Lowered::Method, "to_lowercase"@)
    &&& callable_is(cs[8], "to_uppercase"@, CallStyle::Method, Some(Receiver::Shared), Seq::empty(), Shape::Is(string), None, Seq::empty(), Lowered::Method, "to_uppercase"@)
}

/// The file operations of `rust::std::fs`.
pub open spec fn fs_file_table(cs: Seq<CallableBinding>, string: TypeRef, string_ref: TypeRef, bytes: TypeRef, bytes_ref: TypeRef, io_error: TypeRef) -> bool {
    &&& cs.len() == 8
    &&& callable_is(cs[0], "read_to_string"@, CallStyle::AssociatedFunction, None, seq![("path"@, Shape::Is(string_ref), ArgumentAdaptation::StringRefToStr)], Shape::Is(string), Some(io_error), Seq::empty(), Lowered::Function, "::stainless_runtime::Fs::read_to_string"@)
    &&& callable_is(cs[1], "read"@, CallStyle::AssociatedFunction, None, seq![("path"@, Shape::Is(string_ref), ArgumentAdaptation::StringRefToStr)], Shape::Is(bytes), Some(io_error), Seq::empty(), Lowered::Function, "::stainless_runtime::Fs::read"@)
    &&& callable_is(cs[2], "write"@, CallStyle::AssociatedFunction, None, seq![("path"@, Shape::Is(string_ref), ArgumentAdaptation::StringRefToStr), ("contents"@, Shape::Is(string_ref), ArgumentAdaptation::StringRefToStr)], Shape::Is(TypeRef::Void), Some(io_error), Seq::empty(), Lowered::Function, "::stainless_runtime::Fs::write_text"@)
    &&& callable_is(cs[3], "write"@, CallStyle::AssociatedFunction, None, seq![("path"@, Shape::Is(string_ref), ArgumentAdaptation::StringRefToStr), ("contents"@, Shape::Is(bytes_ref), ArgumentAdaptation::Identity)], Shape::Is(TypeRef::Void), Some(io_error), Seq::empty(), Lowered::Function, "::stainless_runtime::Fs::write_bytes"@)
    &&& callable_is(cs[4], "exists"@, CallStyle::AssociatedFunction, None, seq![("path"@, Shape::Is(string_ref), ArgumentAdaptation::StringRefToStr)], Shape::Is(TypeRef::Bool), Some(io_error), Seq::empty(), Lowered::Function, "::stainless_runtime::Fs::exists"@)
    &&& callable_is(cs[5], "copy"@, CallStyle::AssociatedFunction, None, seq![("from"@, Shape::Is(string_ref), ArgumentAdaptation::StringRefToStr), ("to"@, Shape::Is(string_ref), ArgumentAdaptation::StringRefToStr)], Shape::Is(TypeRef::U64), Some(io_error), Seq::empty(), Lowered::Function, "::stainless_runtime::Fs::copy"@)
    &&& callable_is(cs[6], "rename"@, CallStyle::AssociatedFunction, None, seq![("from"@, Shape::Is(string_ref), ArgumentAdaptation::StringRefToStr), ("to"@, Shape::Is(string_ref), ArgumentAdaptation::StringRefToStr)], Shape::Is(TypeRef::Void), Some(io_error), Seq::empty(), Lowered::Function, "::stainless_runtime::Fs::rename"@)
    &&& callable_is(cs[7], "remove_file"@, CallStyle::AssociatedFunction, None, seq![("path"@, Shape::Is(string_ref), ArgumentAdaptation::StringRefToStr)], Shape::Is(TypeRef::Void), Some(io_error), Seq::empty(), Lowered::Function, "::stainless_runtime::Fs::remove_file"@)
}

/// The directory operations of `rust::std::fs`.
pub open spec fn fs_directory_table(cs: Seq<CallableBinding>, string_ref: TypeRef, io_error: TypeRef) -> bool {
    &&& cs.len() == 4
    &&& callable_is(cs[0], "create_dir"@, CallStyle::AssociatedFunction, None, seq![("path"@, Shape::Is(string_ref), ArgumentAdaptation::StringRefToStr)], Shape::Is(TypeRef::Void), Some(io_error), Seq::empty(), Lowered::Function, "::stainless_runtime::Fs::create_dir"@)
    &&& callable_is(cs[1], "create_dir_all"@, CallStyle::AssociatedFunction, None, seq![("path"@, Shape::Is(string_ref), ArgumentAdaptation::StringRefToStr)], Shape::Is(TypeRef::Void), Some(io_error), Seq::empty(), Lowered::Function, "::stainless_runtime::Fs::create_dir_all"@)
    &&& callable_is(cs[2], "remove_dir"@, CallStyle::AssociatedFunction, None, seq![("path"@, Shape::Is(string_ref), ArgumentAdaptation::StringRefToStr)], Shape::Is(TypeRef::Void), Some(io_error), Seq::empty(), Lowered::Function, "::stainless_runtime::Fs::remove_dir"@)
    &&& callable_is(cs[3], "remove_dir_all"@, CallStyle::AssociatedFunction, None, seq![("path"@, Shape::Is(string_ref), ArgumentAdaptation::StringRefToStr)], Shape::Is(TypeRef::Void), Some(io_error), Seq::empty(), Lowered::Function, "::stainless_runtime::Fs::remove_dir_all"@)
}

/// The callables of `rust::std::fs::File`.
pub open spec fn file_table(cs: Seq<CallableBinding>, file: TypeRef, string_ref: TypeRef, bytes: TypeRef, io_error: TypeRef) -> bool {
    &&& cs.len() == 13
    &&& callable_is(cs[0], "File"@, CallStyle::Constructor, None, seq![("file"@, Shape::Is(file), ArgumentAdaptation::Identity)], Shape::Is(file), None, Seq::empty(), Lowered::Function, "::stainless_runtime::PositionedFile::from_owned"@)
    &&& callable_is(cs[1], "open"@, CallStyle::AssociatedFunction, None, seq![("path"@, Shape::Is(string_ref), ArgumentAdaptation::StringRefToStr)], Shape::Is(file), Some(io_error), Seq::empty(), Lowered::Function, "::stainless_runtime::PositionedFile::open"@)
    &&& callable_is(cs[2], "create"@, CallStyle::AssociatedFunction, None, seq![("path"@, Shape::Is(string_ref), ArgumentAdaptation::StringRefToStr)], Shape::Is(file), Some(io_error), Seq::empty(), Lowered::Function, "::stainless_runtime::PositionedFile::create"@)
    &&& callable_is(cs[3], "pread"@, CallStyle::Method, Some(Receiver::Shared), seq![("offset"@, Shape::Is(TypeRef::U64), ArgumentAdaptation::Identity), ("length"@, Shape::Is(TypeRef::Usize), ArgumentAdaptation::Identity)], Shape::Is(bytes), Some(io_error), Seq::empty(), Lowered::Method, "pread"@)
    &&& callable_is(cs[4], "pread_exact"@, CallStyle::Method, Some(Receiver::Shared), seq![("offset"@, Shape::Is(TypeRef::U64), ArgumentAdaptation::Identity), ("length"@, Shape::Is(TypeRef::Usize), ArgumentAdaptation::Identity)], Shape::Is(bytes), Some(io_error), Seq::empty(), Lowered::Method, "pread_exact"@)
    &&& callable_is(cs[5], "pwrite"@, CallStyle::Method, Some(Receiver::Shared), seq![("offset"@, Shape::Is(TypeRef::U64), ArgumentAdaptation::Identity), ("contents"@, Shape::RefTo(false, bytes), ArgumentAdaptation::Identity)], Shape::Is(TypeRef::Usize), Some(io_error), Seq::empty(), Lowered::Method, "pwrite"@)
    &&& callable_is(cs[6], "pwrite_all"@, CallStyle::Method, Some(Receiver::Shared), seq![("offset"@, Shape::Is(TypeRef::U64), ArgumentAdaptation::Identity), ("contents"@, Shape::RefTo(false, bytes), ArgumentAdaptation::Identity)], Shape::Is(TypeRef::Void), Some(io_error), Seq::empty(), Lowered::Method, "pwrite_all"@)
    &&& callable_is(cs[7], "sync_all"@, CallStyle::Method, Some(Receiver::Shared), Seq::empty(), Shape::Is(TypeRef::Void), Some(io_error), Seq::empty(), Lowered::Method, "sync_all"@)
    &&& callable_is(cs[8], "sync_data"@, CallStyle::Method, Some(Receiver::Shared), Seq::empty(), Shape::Is(TypeRef::Void), Some(io_error), Seq::empty(), Lowered::Method, "sync_data"@)
    &&& callable_is(cs[9], "set_len"@, CallStyle::Method, Some(Receiver::Shared), seq![("size"@, Shape::Is(TypeRef::U64), ArgumentAdaptation::Identity)], Shape::Is(TypeRef::Void), Some(io_error), Seq::empty(), Lowered::Method, "set_len"@)
    &&& callable_is(cs[10], "len"@, CallStyle::Method, Some(Receiver::Shared), Seq::empty(), Shape::Is(TypeRef::U64), Some(io_error), Seq::empty(), Lowered::Method, "len"@)
    &&& callable_is(cs[11], "is_empty"@, CallStyle::Method, Some(Receiver::Shared), Seq::empty(), Shape::Is(TypeRef::Bool), Some(io_error), Seq::empty(), Lowered::Method, "is_empty"@)
    &&& callable_is(cs[12], "try_clone"@, CallStyle::Method, Some(Receiver::Shared), Seq::empty(), Shape::Is(file), Some(io_error), Seq::empty(), Lowered::Method, "try_clone"@)
}

/// The callables of `rust::std::fs::OpenOptions`.
pub open spec fn open_options_table(cs: Seq<CallableBinding>, options: TypeRef, string_ref: TypeRef, file: TypeRef, io_error: TypeRef) -> bool {
    &&& cs.len() == 8
    &&& callable_is(cs[0], "OpenOptions"@, CallStyle::Constructor, None, Seq::empty(), Shape::Is(options), None, Seq::empty(), Lowered::Function, "::stainless_runtime::PositionedOpenOptions::new"@)
    &&& callable_is(cs[1], "read"@, CallStyle::Method, Some(Receiver::Mutable), seq![("enabled"@, Shape::Is(TypeRef::Bool), ArgumentAdaptation::Identity)], Shape::Is(TypeRef::Void), None, Seq::empty(), Lowered::Method, "read"@)
    &&& callable_is(cs[2], "write"@, CallStyle::Method, Some(Receiver::Mutable), seq![("enabled"@, Shape::Is(TypeRef::Bool), ArgumentAdaptation::Identity)], Shape::Is(TypeRef::Void), None, Seq::empty(), Lowered::Method, "write"@)
    &&& callable_is(cs[3], "append"@, CallStyle::Method, Some(Receiver::Mutable), seq![("enabled"@, Shape::Is(TypeRef::Bool), ArgumentAdaptation::Identity)], Shape::Is(TypeRef::Void), None, Seq::empty(), Lowered::Method, "append"@)
    &&& callable_is(cs[4], "truncate"@, CallStyle::Method, Some(Receiver::Mutable), seq![("enabled"@, Shape::Is(TypeRef::Bool), ArgumentAdaptation::Identity)], Shape::Is(TypeRef::Void), None, Seq::empty(), Lowered::Method, "truncate"@)
    &&& callable_is(cs[5], "create"@, CallStyle::Method, Some(Receiver::Mutable), seq![("enabled"@, Shape::Is(TypeRef::Bool), ArgumentAdaptation::Identity)], Shape::Is(TypeRef::Void), None, Seq::empty(), Lowered::Method, "create"@)
    &&& callable_is(cs[6], "create_new"@, CallStyle::Method, Some(Receiver::Mutable), seq![("enabled"@, Shape::Is(TypeRef::Bool), ArgumentAdaptation::Identity)], Shape::Is(TypeRef::Void), None, Seq::empty(), Lowered::Method, "create_new"@)
    &&& callable_is(cs[7], "open"@, CallStyle::Method, Some(Receiver::Shared), seq![("path"@, Shape::Is(string_ref), ArgumentAdaptation::StringRefToStr)], Shape::Is(file), Some(io_error), Seq::empty(), Lowered::Method, "open"@)
}
} // verus!

verus! {

/// Whether `t` is the generic parameter `name`.
pub open spec fn generic_named(t: TypeRef, name: Seq<char>) -> bool {
    t matches TypeRef::Parameter(p) && p@ == name
}

/// Whether `t` is the native type `path` over the generic parameters
/// `names`.
pub open spec fn generic_native(t: TypeRef, path: Seq<char>, names: Seq<Seq<char>>) -> bool {
    &&& t matches TypeRef::Native { path: p, arguments } && p@ == path && arguments@.len() == names.len()
    &&& forall|i: int| 0 <= i < names.len() ==> generic_named(#[trigger] t->Native_arguments@[i], names[i])
}

/// The callables of `rust::Vec<T>`, part by part.
pub open spec fn vec_parts(cs: Seq<CallableBinding>, t: TypeRef, vec_t: TypeRef) -> bool {
    &&& cs.len() == 22
    &&& vec_construction_table(cs.subrange(0, 2), vec_t)
    &&& vec_capacity_table(cs.subrange(2, 9))
    &&& vec_element_table(cs.subrange(9, 18), t, vec_t)
    &&& vec_trait_table(cs.subrange(18, 22), t, vec_t)
}

/// `cs` are exactly the callables of `rust::Vec<T>`.
pub open spec fn vec_callables_hold(cs: Seq<CallableBinding>) -> bool {
    exists|t: TypeRef, vec_t: TypeRef|
        generic_named(t, "T"@) && generic_native(vec_t, "rust::Vec"@, seq!["T"@]) && #[trigger] vec_parts(cs, t, vec_t)
}

/// `cs` are exactly the callables of `rust::List<T>`.
pub open spec fn list_callables_hold(cs: Seq<CallableBinding>) -> bool {
    exists|t: TypeRef, list_t: TypeRef|
        generic_named(t, "T"@) && generic_native(list_t, "rust::List"@, seq!["T"@]) && #[trigger] list_table(cs, t, list_t)
}

/// `cs` are exactly the callables of `rust::Queue<T>`.
pub open spec fn queue_callables_hold(cs: Seq<CallableBinding>) -> bool {
    exists|t: TypeRef, queue_t: TypeRef|
        generic_named(t, "T"@) && generic_native(queue_t, "rust::Queue"@, seq!["T"@]) && #[trigger] queue_table(
            cs,
            t,
            queue_t,
        )
}

/// `cs` are exactly the callables of `rust::Set<T>`.
pub open spec fn set_callables_hold(cs: Seq<CallableBinding>) -> bool {
    exists|t: TypeRef, set_t: TypeRef|
        generic_named(t, "T"@) && generic_native(set_t, "rust::Set"@, seq!["T"@]) && #[trigger] set_table(cs, t, set_t)
}

/// `cs` are exactly the callables of `rust::Map<K, V>`.
pub open spec fn map_callables_hold(cs: Seq<CallableBinding>) -> bool {
    exists|k: TypeRef, v: TypeRef, map_t: TypeRef|
        generic_named(k, "K"@) && generic_named(v, "V"@) && generic_native(map_t, "rust::Map"@, seq!["K"@, "V"@])
            && #[trigger] map_table(cs, k, v, map_t)
}

/// The callables of `rust::String`, part by part.
pub open spec fn string_parts(cs: Seq<CallableBinding>, string: TypeRef, string_ref: TypeRef) -> bool {
    &&& cs.len() == 31
    &&& string_construction_table(cs.subrange(0, 5), string, string_ref)
    &&& string_capacity_table(cs.subrange(5, 13))
    &&& string_mutation_table(cs.subrange(13, 22), string_ref)
    &&& string_query_table(cs.subrange(22, 31), string, string_ref)
}

/// `cs` are exactly the callables of `rust::String`.
pub open spec fn string_callables_hold(cs: Seq<CallableBinding>) -> bool {
    exists|string: TypeRef, string_ref: TypeRef|
        is_plain_native(string, "rust::String"@) && is_string_ref(string_ref) && #[trigger] string_parts(
            cs,
            string,
            string_ref,
        )
}

/// `t` is `rust::Vec<u8>`.
pub open spec fn is_bytes(t: TypeRef) -> bool {
    t matches TypeRef::Native { path, arguments } && path@ == "rust::Vec"@ && arguments@ == seq![TypeRef::U8]
}

/// The callables of `rust::std::fs`, part by part.
pub open spec fn fs_parts(
    cs: Seq<CallableBinding>,
    string: TypeRef,
    string_ref: TypeRef,
    bytes: TypeRef,
    bytes_ref: TypeRef,
    io_error: TypeRef,
) -> bool {
    &&& cs.len() == 12
    &&& fs_file_table(cs.subrange(0, 8), string, string_ref, bytes, bytes_ref, io_error)
    &&& fs_directory_table(cs.subrange(8, 12), string_ref, io_error)
}

/// `cs` are exactly the callables of `rust::std::fs`.
pub open spec fn fs_callables_hold(cs: Seq<CallableBinding>) -> bool {
    exists|string: TypeRef, string_ref: TypeRef, bytes: TypeRef, bytes_ref: TypeRef, io_error: TypeRef|
        is_plain_native(string, "rust::String"@) && is_string_ref(string_ref) && is_bytes(bytes) && is_bytes_ref(
            bytes_ref,
        ) && is_plain_native(io_error, "rust::std::io::Error"@) && #[trigger] fs_parts(
            cs,
            string,
            string_ref,
            bytes,
            bytes_ref,
            io_error,
        )
}

/// `cs` are exactly the callables of `rust::std::fs::File`.
pub open spec fn file_callables_hold(cs: Seq<CallableBinding>) -> bool {
    exists|file: TypeRef, string_ref: TypeRef, bytes: TypeRef, io_error: TypeRef|
        is_plain_native(file, "rust::std::fs::File"@) && is_string_ref(string_ref) && is_bytes(bytes)
            && is_plain_native(io_error, "rust::std::io::Error"@) && #[trigger] file_table(cs, file, string_ref, bytes, io_error)
}

/// `cs` are exactly the callables of `rust::std::fs::OpenOptions`.
pub open spec fn open_options_callables_hold(cs: Seq<CallableBinding>) -> bool {
    exists|options: TypeRef, string_ref: TypeRef, file: TypeRef, io_error: TypeRef|
        is_plain_native(options, "rust::std::fs::OpenOptions"@) && is_string_ref(string_ref) && is_plain_native(
            file,
            "rust::std::fs::File"@,
        ) && is_plain_native(io_error, "rust::std::io::Error"@) && #[trigger] open_options_table(
            cs,
            options,
            string_ref,
            file,
            io_error,
        )
}

} // verus!

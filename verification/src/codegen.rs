//! The Rust back end's decisions on the lowered program and the Rust text
//! of its types, parameters, fields, signatures, operators and exception
//! propagation.

use crate::ast::BinaryOperator;
use crate::interop::model::{ArgumentAdaptation, CallbackKind, Receiver, ReturnAdaptation, WrapperTarget};
use crate::hir::{NativeWrapper, NativeWrapperParameter, NativeWrapperReceiver, ExceptionTarget, Field, Function, Interface, InterfaceImplementation, InterfaceImplementationMethod, InterfaceMethod, JsonStructField, Module, Parameter, Program, Struct, Type};
use crate::text::{join_chars, join_spec, str_eq};
use vstd::prelude::*;

verus! {

/// Whether some struct of the list takes part in the checked-exception
/// hierarchy.
pub open spec fn structs_have_exception(structs: Seq<Struct>) -> bool {
    exists|k: int| 0 <= k < structs.len() && (#[trigger] structs[k]).is_exception
}

/// Whether a module or one of its nested modules declares an exception
/// struct.
pub open spec fn module_has_exceptions(module: Module) -> bool
    decreases module, 1nat,
{
    structs_have_exception(module.structs@) || modules_have_exceptions(module.modules@)
}

/// Whether one of the modules declares an exception struct, at any depth.
pub open spec fn modules_have_exceptions(modules: Seq<Module>) -> bool
    decreases modules, 2nat,
{
    if modules.len() == 0 {
        false
    } else {
        module_has_exceptions(modules[0]) || modules_have_exceptions(modules.drop_first())
    }
}

/// Decides [`structs_have_exception`].
fn any_exception_struct(structs: &Vec<Struct>) -> (r: bool)
    ensures
        r == structs_have_exception(structs@),
{
    let mut k: usize = 0;
    while k < structs.len()
        invariant
            k <= structs@.len(),
            forall|q: int| 0 <= q < k ==> !(#[trigger] structs@[q]).is_exception,
        decreases structs@.len() - k,
    {
        if structs[k].is_exception {
            return true;
        }
        k = k + 1;
    }
    false
}

/// Decides [`module_has_exceptions`].
fn module_declares_exceptions(module: &Module) -> (r: bool)
    ensures
        r == module_has_exceptions(*module),
    decreases module,
{
    if any_exception_struct(&module.structs) {
        return true;
    }
    let ghost ms = module.modules@;
    let mut k: usize = 0;
    assert(ms.skip(0) =~= ms);
    while k < module.modules.len()
        invariant
            ms == module.modules@,
            k <= ms.len(),
            modules_have_exceptions(ms) == modules_have_exceptions(ms.skip(k as int)),
        decreases ms.len() - k,
    {
        proof {
            broadcast use vstd::std_specs::vec::axiom_vec_index_decreases;
            assert(decreases_to!(module => module.modules));
            assert(decreases_to!(module.modules => module.modules@[k as int]));
            assert(ms.skip(k as int)[0] == ms[k as int]);
            assert(ms.skip(k as int).drop_first() =~= ms.skip(k + 1));
        }
        if module_declares_exceptions(&module.modules[k]) {
            return true;
        }
        k = k + 1;
    }
    assert(ms.skip(ms.len() as int).len() == 0);
    false
}

/// Whether the program declares an exception struct anywhere, so that the
/// generated crate needs the checked-exception support.
pub fn program_has_exceptions(program: &Program) -> (r: bool)
    ensures
        r == (structs_have_exception(program.structs@) || modules_have_exceptions(
            program.modules@,
        )),
{
    if any_exception_struct(&program.structs) {
        return true;
    }
    let ghost ms = program.modules@;
    let mut k: usize = 0;
    assert(ms.skip(0) =~= ms);
    while k < program.modules.len()
        invariant
            ms == program.modules@,
            k <= ms.len(),
            modules_have_exceptions(ms) == modules_have_exceptions(ms.skip(k as int)),
        decreases ms.len() - k,
    {
        assert(ms.skip(k as int)[0] == ms[k as int]);
        assert(ms.skip(k as int).drop_first() =~= ms.skip(k + 1));
        if module_declares_exceptions(&program.modules[k]) {
            return true;
        }
        k = k + 1;
    }
    assert(ms.skip(ms.len() as int).len() == 0);
    false
}

/// The `Var` conversion method for a scalar or `String` cast target.
pub open spec fn json_cast_name(target: Type) -> Option<Seq<char>> {
    match target {
        Type::Primitive(name) => if name@ == "bool"@ {
            Some("to_bool"@)
        } else if name@ == "i8"@ {
            Some("to_i8"@)
        } else if name@ == "i16"@ {
            Some("to_i16"@)
        } else if name@ == "i32"@ {
            Some("to_i32"@)
        } else if name@ == "i64"@ {
            Some("to_i64"@)
        } else if name@ == "i128"@ {
            Some("to_i128"@)
        } else if name@ == "isize"@ {
            Some("to_isize"@)
        } else if name@ == "u8"@ {
            Some("to_u8"@)
        } else if name@ == "u16"@ {
            Some("to_u16"@)
        } else if name@ == "u32"@ {
            Some("to_u32"@)
        } else if name@ == "u64"@ {
            Some("to_u64"@)
        } else if name@ == "u128"@ {
            Some("to_u128"@)
        } else if name@ == "usize"@ {
            Some("to_usize"@)
        } else if name@ == "f32"@ {
            Some("to_f32"@)
        } else if name@ == "f64"@ {
            Some("to_f64"@)
        } else {
            None
        },
        Type::Native { rust_path, arguments } => if rust_path@ == "::std::string::String"@
            && arguments@.len() == 0 {
            Some("to_string_value"@)
        } else {
            None
        },
        _ => None,
    }
}

/// Selects the `Var` method that converts a JSON value to a cast target;
/// any other target is an internal error.
pub fn json_cast_method(target: &Type) -> (r: Result<&'static str, String>)
    ensures
        match json_cast_name(*target) {
            Some(name) => r matches Ok(method) && method@ == name,
            None => r matches Err(message) && message@
                == "unsupported JSON scalar conversion reached code generation"@,
        },
{
    let method = match target {
        Type::Primitive(name) => {
            let name: &str = name;
            if str_eq(name, "bool") {
                Some("to_bool")
            } else if str_eq(name, "i8") {
                Some("to_i8")
            } else if str_eq(name, "i16") {
                Some("to_i16")
            } else if str_eq(name, "i32") {
                Some("to_i32")
            } else if str_eq(name, "i64") {
                Some("to_i64")
            } else if str_eq(name, "i128") {
                Some("to_i128")
            } else if str_eq(name, "isize") {
                Some("to_isize")
            } else if str_eq(name, "u8") {
                Some("to_u8")
            } else if str_eq(name, "u16") {
                Some("to_u16")
            } else if str_eq(name, "u32") {
                Some("to_u32")
            } else if str_eq(name, "u64") {
                Some("to_u64")
            } else if str_eq(name, "u128") {
                Some("to_u128")
            } else if str_eq(name, "usize") {
                Some("to_usize")
            } else if str_eq(name, "f32") {
                Some("to_f32")
            } else if str_eq(name, "f64") {
                Some("to_f64")
            } else {
                None
            }
        },
        Type::Native { rust_path, arguments } => {
            if str_eq(rust_path.as_str(), "::std::string::String") && arguments.len() == 0 {
                Some("to_string_value")
            } else {
                None
            }
        },
        _ => None,
    };
    match method {
        Some(method) => Ok(method),
        None => Err(String::from_str("unsupported JSON scalar conversion reached code generation")),
    }
}

} // verus!

verus! {

/// The identifier a generated name becomes, or why it is invalid.
pub open spec fn identifier_text(name: Seq<char>) -> Result<Seq<char>, Seq<char>> {
    match crate::interop::manifest::syn_ident_parse(name) {
        Ok(()) => Ok(name),
        Err(e) => Err("invalid generated identifier `"@ + name + "`: "@ + e),
    }
}

/// The path a generated Rust path becomes, or why it is invalid.
pub open spec fn path_text(path: Seq<char>) -> Result<Seq<char>, Seq<char>> {
    match crate::interop::manifest::syn_path_parse(path) {
        Ok(_) => Ok(path),
        Err(e) => Err("invalid generated path `"@ + path + "`: "@ + e),
    }
}

/// Checks a generated identifier with syn.
pub fn identifier(name: &str) -> (r: Result<String, String>)
    ensures
        match r {
            Ok(t) => identifier_text(name@) == Ok::<Seq<char>, Seq<char>>(t@),
            Err(e) => identifier_text(name@) == Err::<Seq<char>, Seq<char>>(e@),
        },
{
    match crate::interop::manifest::parse_rust_ident(name) {
        Ok(()) => Ok(String::from_str(name)),
        Err(error) => {
            let mut text = String::from_str("invalid generated identifier `");
            text.append(name);
            text.append("`: ");
            text.append(error.as_str());
            Err(text)
        },
    }
}

/// Checks a generated Rust path with syn.
pub fn path(source: &str) -> (r: Result<String, String>)
    ensures
        match r {
            Ok(t) => path_text(source@) == Ok::<Seq<char>, Seq<char>>(t@),
            Err(e) => path_text(source@) == Err::<Seq<char>, Seq<char>>(e@),
        },
{
    match crate::interop::manifest::parse_rust_path(source) {
        Ok(_) => Ok(String::from_str(source)),
        Err(error) => {
            let mut text = String::from_str("invalid generated path `");
            text.append(source);
            text.append("`: ");
            text.append(error.as_str());
            Err(text)
        },
    }
}

/// `inner` inside a Rust generic type `prefix<...>`.
pub open spec fn wrapped(prefix: Seq<char>, inner: Result<Seq<char>, Seq<char>>) -> Result<Seq<char>, Seq<char>> {
    match inner {
        Ok(t) => Ok(prefix + "<"@ + t + ">"@),
        Err(e) => Err(e),
    }
}

/// The Rust text of types, separated by `, `; the first error otherwise.
pub open spec fn types_text(ts: Seq<Type>) -> Result<Seq<char>, Seq<char>>
    decreases ts, 1nat,
{
    if ts.len() == 0 {
        Ok(Seq::empty())
    } else {
        match type_text(ts[0], None) {
            Err(e) => Err(e),
            Ok(first) => if ts.len() == 1 {
                Ok(first)
            } else {
                match types_text(ts.drop_first()) {
                    Err(e) => Err(e),
                    Ok(rest) => Ok(first + ", "@ + rest),
                }
            },
        }
    }
}

/// A path, with its type arguments in angle brackets when it has any.
pub open spec fn generic_text(path: Seq<char>, arguments: Seq<Type>) -> Result<Seq<char>, Seq<char>>
    decreases arguments, 2nat,
{
    match path_text(path) {
        Err(e) => Err(e),
        Ok(p) => match types_text(arguments) {
            Err(e) => Err(e),
            Ok(a) => if arguments.len() == 0 {
                Ok(p)
            } else {
                Ok(p + "<"@ + a + ">"@)
            },
        },
    }
}

/// The Rust text a lowered type is emitted as, with `lifetime` on an
/// outermost reference; an error for a callback type outside a generated
/// wrapper's parameters, or for an invalid identifier or path.
pub open spec fn type_text(t: Type, lifetime: Option<Seq<char>>) -> Result<Seq<char>, Seq<char>>
    decreases t, 0nat,
{
    match t {
        Type::Unit => Ok("()"@),
        Type::Primitive(name) => identifier_text(name@),
        Type::ConstUsize(value) => Ok(crate::text::decimal(value as nat)),
        Type::ConstParameter(name) => identifier_text(name@),
        Type::Parameter(name) => identifier_text(name@),
        Type::Array { element, length } => match type_text(*element, None) {
            Err(e) => Err(e),
            Ok(el) => match type_text(*length, None) {
                Err(e) => Err(e),
                Ok(len) => Ok("["@ + el + "; "@ + len + "]"@),
            },
        },
        Type::Tuple(elements) => match types_text(elements@) {
            Err(e) => Err(e),
            Ok(es) => Ok("("@ + es + ")"@),
        },
        Type::Native { rust_path, arguments } => generic_text(rust_path@, arguments@),
        Type::ClassBase(target) => wrapped("::stainless_runtime::ClassBase"@, type_text(*target, None)),
        Type::Callback { .. } => Err("callback type escaped its generated-wrapper parameter boundary"@),
        Type::Function { kind, parameters, return_type } => match types_text(parameters@) {
            Err(e) => Err(e),
            Ok(ps) => match type_text(*return_type, None) {
                Err(e) => Err(e),
                Ok(ret) => match kind {
                    crate::interop::model::StoredFunctionKind::Shared => Ok(
                        "::std::sync::Arc<dyn ::core::ops::Fn("@ + ps + ") -> "@ + ret + " + 'static>"@,
                    ),
                    crate::interop::model::StoredFunctionKind::Mutable => Ok(
                        "::std::boxed::Box<dyn ::core::ops::FnMut("@ + ps + ") -> "@ + ret + " + 'static>"@,
                    ),
                },
            },
        },
        Type::Pointer { kind, target } => match type_text(*target, None) {
            Err(e) => Err(e),
            Ok(t) => Ok(
                match kind {
                    crate::interop::model::PointerKind::Unique => "::std::boxed::Box<"@ + t + ">"@,
                    crate::interop::model::PointerKind::UniqueNullable => "::core::option::Option<::std::boxed::Box<"@
                        + t + ">>"@,
                    crate::interop::model::PointerKind::Shared => "::std::sync::Arc<"@ + t + ">"@,
                    crate::interop::model::PointerKind::SharedNullable => "::core::option::Option<::std::sync::Arc<"@
                        + t + ">>"@,
                    crate::interop::model::PointerKind::Weak => "::std::sync::Weak<"@ + t + ">"@,
                    crate::interop::model::PointerKind::Atomic => "::std::sync::RwLock<::std::sync::Arc<"@ + t
                        + ">>"@,
                    crate::interop::model::PointerKind::AtomicNullable =>
                        "::std::sync::RwLock<::core::option::Option<::std::sync::Arc<"@ + t + ">>>"@,
                },
            ),
        },
        Type::Mutex(target) => wrapped("::std::sync::Mutex"@, type_text(*target, None)),
        Type::MutexGuard(target) => match type_text(*target, None) {
            Err(e) => Err(e),
            Ok(t) => Ok("::std::sync::MutexGuard<'_, "@ + t + ">"@),
        },
        Type::RwLock(target) => wrapped("::std::sync::RwLock"@, type_text(*target, None)),
        Type::RwLockReadGuard(target) => match type_text(*target, None) {
            Err(e) => Err(e),
            Ok(t) => Ok("::std::sync::RwLockReadGuard<'_, "@ + t + ">"@),
        },
        Type::RwLockWriteGuard(target) => match type_text(*target, None) {
            Err(e) => Err(e),
            Ok(t) => Ok("::std::sync::RwLockWriteGuard<'_, "@ + t + ">"@),
        },
        Type::Condition => Ok("::std::sync::Condvar"@),
        Type::ThreadHandle(target) => wrapped("::std::thread::JoinHandle"@, type_text(*target, None)),
        Type::ThreadScope => Ok("::std::thread::Scope<'_, '_>"@),
        Type::ScopedThreadHandle(target) => match type_text(*target, None) {
            Err(e) => Err(e),
            Ok(t) => Ok("::std::thread::ScopedJoinHandle<'_, "@ + t + ">"@),
        },
        Type::User { rust_path, arguments } => generic_text(rust_path@, arguments@),
        Type::Interface { rust_path, arguments } => match generic_text(rust_path@, arguments@) {
            Err(e) => Err(e),
            Ok(g) => Ok("dyn "@ + g + " + ::core::marker::Send + ::core::marker::Sync"@),
        },
        Type::Reference { mutable, target } => match type_text(*target, None) {
            Err(e) => Err(e),
            Ok(t) => {
                let lt = match lifetime {
                    Some(l) => l + " "@,
                    None => Seq::empty(),
                };
                let m = if mutable { "mut "@ } else { Seq::empty() };
                let body = if (*target) is Interface { "("@ + t + ")"@ } else { t };
                Ok("&"@ + lt + m + body)
            },
        },
    }
}

} // verus!

verus! {

/// The lifetime text, by its characters.
pub open spec fn lifetime_view(lifetime: Option<&str>) -> Option<Seq<char>> {
    match lifetime {
        Some(l) => Some(l@),
        None => None,
    }
}

/// Emits the Rust text of `types[start..]`, separated by `, `.
fn types_tokens_from(types: &Vec<Type>, start: usize) -> (r: Result<String, String>)
    requires
        start <= types@.len(),
    ensures
        match r {
            Ok(t) => types_text(types@.skip(start as int)) == Ok::<Seq<char>, Seq<char>>(t@),
            Err(e) => types_text(types@.skip(start as int)) == Err::<Seq<char>, Seq<char>>(e@),
        },
    decreases types, 1nat, types@.len() - start,
{
    let ghost rest = types@.skip(start as int);
    if start == types.len() {
        assert(rest.len() == 0);
        return Ok(String::new());
    }
    proof {
        broadcast use vstd::std_specs::vec::axiom_vec_index_decreases;
        assert(decreases_to!(types => types@[start as int]));
        assert(rest[0] == types@[start as int]);
        assert(rest.drop_first() =~= types@.skip(start + 1));
    }
    let first = type_tokens(&types[start], None)?;
    if start + 1 == types.len() {
        return Ok(first);
    }
    let tail = types_tokens_from(types, start + 1)?;
    let mut text = first;
    text.append(", ");
    text.append(tail.as_str());
    Ok(text)
}

/// Emits a path with its type arguments in angle brackets when it has any.
fn generic_tokens(rust_path: &str, arguments: &Vec<Type>) -> (r: Result<String, String>)
    ensures
        match r {
            Ok(t) => generic_text(rust_path@, arguments@) == Ok::<Seq<char>, Seq<char>>(t@),
            Err(e) => generic_text(rust_path@, arguments@) == Err::<Seq<char>, Seq<char>>(e@),
        },
    decreases arguments, 2nat, 0nat,
{
    let p = path(rust_path)?;
    assert(arguments@.skip(0) =~= arguments@);
    let a = types_tokens_from(arguments, 0)?;
    if arguments.len() == 0 {
        Ok(p)
    } else {
        let mut text = p;
        text.append("<");
        text.append(a.as_str());
        text.append(">");
        Ok(text)
    }
}

/// `prefix<inner>`.
fn wrap(prefix: &str, inner: String) -> (r: String)
    ensures
        r@ == prefix@ + "<"@ + inner@ + ">"@,
{
    let mut text = String::from_str(prefix);
    text.append("<");
    text.append(inner.as_str());
    text.append(">");
    text
}

/// `prefix` followed by `inner` and `suffix`.
fn around(prefix: &str, inner: String, suffix: &str) -> (r: String)
    ensures
        r@ == prefix@ + inner@ + suffix@,
{
    let mut text = String::from_str(prefix);
    text.append(inner.as_str());
    text.append(suffix);
    text
}

/// Emits the Rust text of a lowered type, with `lifetime` on an outermost
/// reference; fails for a callback type outside a generated wrapper's
/// parameters, or for an invalid identifier or path.
pub fn type_tokens(ty: &Type, lifetime: Option<&str>) -> (r: Result<String, String>)
    ensures
        match r {
            Ok(t) => type_text(*ty, lifetime_view(lifetime)) == Ok::<Seq<char>, Seq<char>>(t@),
            Err(e) => type_text(*ty, lifetime_view(lifetime)) == Err::<Seq<char>, Seq<char>>(e@),
        },
    decreases ty, 0nat, 0nat,
{
    match ty {
        Type::Unit => Ok(String::from_str("()")),
        Type::Primitive(name) => identifier(name),
        Type::ConstUsize(value) => Ok(crate::text::u64_decimal(*value)),
        Type::ConstParameter(name) => identifier(name.as_str()),
        Type::Parameter(name) => identifier(name.as_str()),
        Type::Array { element, length } => {
            let e = type_tokens(element, None)?;
            let l = type_tokens(length, None)?;
            let mut text = String::from_str("[");
            text.append(e.as_str());
            text.append("; ");
            text.append(l.as_str());
            text.append("]");
            Ok(text)
        },
        Type::Tuple(elements) => {
            assert(elements@.skip(0) =~= elements@);
            let es = types_tokens_from(elements, 0)?;
            Ok(around("(", es, ")"))
        },
        Type::Native { rust_path, arguments } => generic_tokens(rust_path.as_str(), arguments),
        Type::ClassBase(target) => {
            let t = type_tokens(target, None)?;
            Ok(wrap("::stainless_runtime::ClassBase", t))
        },
        Type::Callback { .. } => Err(String::from_str("callback type escaped its generated-wrapper parameter boundary")),
        Type::Function { kind, parameters, return_type } => {
            assert(parameters@.skip(0) =~= parameters@);
            let ps = types_tokens_from(parameters, 0)?;
            let ret = type_tokens(return_type, None)?;
            let mut text = match kind {
                crate::interop::model::StoredFunctionKind::Shared => String::from_str("::std::sync::Arc<dyn ::core::ops::Fn("),
                crate::interop::model::StoredFunctionKind::Mutable => String::from_str("::std::boxed::Box<dyn ::core::ops::FnMut("),
            };
            text.append(ps.as_str());
            text.append(") -> ");
            text.append(ret.as_str());
            text.append(" + 'static>");
            Ok(text)
        },
        Type::Pointer { kind, target } => {
            let t = type_tokens(target, None)?;
            Ok(
                match kind {
                    crate::interop::model::PointerKind::Unique => around("::std::boxed::Box<", t, ">"),
                    crate::interop::model::PointerKind::UniqueNullable => around(
                        "::core::option::Option<::std::boxed::Box<",
                        t,
                        ">>",
                    ),
                    crate::interop::model::PointerKind::Shared => around("::std::sync::Arc<", t, ">"),
                    crate::interop::model::PointerKind::SharedNullable => around(
                        "::core::option::Option<::std::sync::Arc<",
                        t,
                        ">>",
                    ),
                    crate::interop::model::PointerKind::Weak => around("::std::sync::Weak<", t, ">"),
                    crate::interop::model::PointerKind::Atomic => around("::std::sync::RwLock<::std::sync::Arc<", t, ">>"),
                    crate::interop::model::PointerKind::AtomicNullable => around(
                        "::std::sync::RwLock<::core::option::Option<::std::sync::Arc<",
                        t,
                        ">>>",
                    ),
                },
            )
        },
        Type::Mutex(target) => {
            let t = type_tokens(target, None)?;
            Ok(wrap("::std::sync::Mutex", t))
        },
        Type::MutexGuard(target) => {
            let t = type_tokens(target, None)?;
            Ok(around("::std::sync::MutexGuard<'_, ", t, ">"))
        },
        Type::RwLock(target) => {
            let t = type_tokens(target, None)?;
            Ok(wrap("::std::sync::RwLock", t))
        },
        Type::RwLockReadGuard(target) => {
            let t = type_tokens(target, None)?;
            Ok(around("::std::sync::RwLockReadGuard<'_, ", t, ">"))
        },
        Type::RwLockWriteGuard(target) => {
            let t = type_tokens(target, None)?;
            Ok(around("::std::sync::RwLockWriteGuard<'_, ", t, ">"))
        },
        Type::Condition => Ok(String::from_str("::std::sync::Condvar")),
        Type::ThreadHandle(target) => {
            let t = type_tokens(target, None)?;
            Ok(wrap("::std::thread::JoinHandle", t))
        },
        Type::ThreadScope => Ok(String::from_str("::std::thread::Scope<'_, '_>")),
        Type::ScopedThreadHandle(target) => {
            let t = type_tokens(target, None)?;
            Ok(around("::std::thread::ScopedJoinHandle<'_, ", t, ">"))
        },
        Type::User { rust_path, arguments } => generic_tokens(rust_path.as_str(), arguments),
        Type::Interface { rust_path, arguments } => {
            let g = generic_tokens(rust_path.as_str(), arguments)?;
            Ok(around("dyn ", g, " + ::core::marker::Send + ::core::marker::Sync"))
        },
        Type::Reference { mutable, target } => {
            let interface = matches!(**target, Type::Interface { .. });
            let t = type_tokens(target, None)?;
            let mut text = String::from_str("&");
            let ghost amp = text@;
            let ghost lt = match lifetime {
                Some(l) => l@ + " "@,
                None => Seq::<char>::empty(),
            };
            if let Some(l) = lifetime {
                text.append(l);
                text.append(" ");
            }
            assert(text@ =~= amp + lt);
            let ghost with_lifetime = text@;
            if *mutable {
                text.append("mut ");
            }
            let ghost m = if *mutable { "mut "@ } else { Seq::<char>::empty() };
            assert(text@ =~= with_lifetime + m);
            let ghost with_mutability = text@;
            if interface {
                text.append("(");
                text.append(t.as_str());
                text.append(")");
                assert(text@ =~= with_mutability + ("("@ + t@ + ")"@));
            } else {
                text.append(t.as_str());
            }
            Ok(text)
        },
    }
}

} // verus!

verus! {

/// The Rust token of a binary operator.
pub open spec fn binary_operator_text(operator: BinaryOperator) -> Seq<char> {
    match operator {
        BinaryOperator::Assign => "="@,
        BinaryOperator::AddAssign => "+="@,
        BinaryOperator::SubtractAssign => "-="@,
        BinaryOperator::MultiplyAssign => "*="@,
        BinaryOperator::DivideAssign => "/="@,
        BinaryOperator::RemainderAssign => "%="@,
        BinaryOperator::LogicalOr => "||"@,
        BinaryOperator::LogicalAnd => "&&"@,
        BinaryOperator::BitwiseOr => "|"@,
        BinaryOperator::BitwiseXor => "^"@,
        BinaryOperator::BitwiseAnd => "&"@,
        BinaryOperator::Equal => "=="@,
        BinaryOperator::NotEqual => "!="@,
        BinaryOperator::Less => "<"@,
        BinaryOperator::LessEqual => "<="@,
        BinaryOperator::Greater => ">"@,
        BinaryOperator::GreaterEqual => ">="@,
        BinaryOperator::Add => "+"@,
        BinaryOperator::Subtract => "-"@,
        BinaryOperator::Multiply => "*"@,
        BinaryOperator::Divide => "/"@,
        BinaryOperator::Remainder => "%"@,
    }
}

/// Emits the Rust token of a binary operator.
pub fn binary_operator(operator: BinaryOperator) -> (r: &'static str)
    ensures
        r@ == binary_operator_text(operator),
{
    match operator {
        BinaryOperator::Assign => "=",
        BinaryOperator::AddAssign => "+=",
        BinaryOperator::SubtractAssign => "-=",
        BinaryOperator::MultiplyAssign => "*=",
        BinaryOperator::DivideAssign => "/=",
        BinaryOperator::RemainderAssign => "%=",
        BinaryOperator::LogicalOr => "||",
        BinaryOperator::LogicalAnd => "&&",
        BinaryOperator::BitwiseOr => "|",
        BinaryOperator::BitwiseXor => "^",
        BinaryOperator::BitwiseAnd => "&",
        BinaryOperator::Equal => "==",
        BinaryOperator::NotEqual => "!=",
        BinaryOperator::Less => "<",
        BinaryOperator::LessEqual => "<=",
        BinaryOperator::Greater => ">",
        BinaryOperator::GreaterEqual => ">=",
        BinaryOperator::Add => "+",
        BinaryOperator::Subtract => "-",
        BinaryOperator::Multiply => "*",
        BinaryOperator::Divide => "/",
        BinaryOperator::Remainder => "%",
    }
}

/// The Rust lifetime that labels a generated block or loop.
pub open spec fn label_text(label: Seq<char>) -> Seq<char> {
    "'"@ + label
}

/// Emits the lifetime that labels a generated block or loop.
pub fn rust_label(label: &str) -> (r: String)
    ensures
        r@ == label_text(label@),
{
    let mut text = String::from_str("'");
    text.append(label);
    text
}

/// The Rust statement that sends the error `error` to an exception target:
/// out of the function, out of a labelled try block, or nowhere, since
/// exhaustive handlers leave no exception unmatched.
pub open spec fn propagation_text(target: ExceptionTarget, error: Seq<char>) -> Seq<char> {
    match target {
        ExceptionTarget::Function => "return Err("@ + error + ");"@,
        ExceptionTarget::Try(label) => "break "@ + label_text(label@) + " Err("@ + error + ");"@,
        ExceptionTarget::Unreachable => "unreachable!(\"statically exhaustive Stainless catch set missed an exception\");"@,
    }
}

/// Emits the statement that propagates `error` to `target`.
pub fn exception_propagation(target: &ExceptionTarget, error: &str) -> (r: String)
    ensures
        r@ == propagation_text(*target, error@),
{
    match target {
        ExceptionTarget::Function => {
            let mut text = String::from_str("return Err(");
            text.append(error);
            text.append(");");
            text
        },
        ExceptionTarget::Try(label) => {
            let mut text = String::from_str("break ");
            let l = rust_label(label.as_str());
            text.append(l.as_str());
            text.append(" Err(");
            text.append(error);
            text.append(");");
            text
        },
        ExceptionTarget::Unreachable => String::from_str(
            "unreachable!(\"statically exhaustive Stainless catch set missed an exception\");",
        ),
    }
}

/// The Rust expression that converts a source index to `usize`, failing
/// loudly when it does not fit.
pub open spec fn checked_index_text(index: Seq<char>) -> Seq<char> {
    "<usize as ::core::convert::TryFrom<_>>::try_from("@ + index
        + ").expect(\"Stainless index does not fit usize\")"@
}

/// Emits the conversion of a source index to `usize`.
pub fn checked_index(index: &str) -> (r: String)
    ensures
        r@ == checked_index_text(index@),
{
    let mut text = String::from_str("<usize as ::core::convert::TryFrom<_>>::try_from(");
    text.append(index);
    text.append(").expect(\"Stainless index does not fit usize\")");
    text
}

/// The Rust text of a function parameter, `mut` first when the binding is
/// mutable, with `lifetime` on an outermost reference type.
pub open spec fn parameter_text(parameter: Parameter, lifetime: Option<Seq<char>>) -> Result<Seq<char>, Seq<char>> {
    match identifier_text(parameter.rust_name@) {
        Err(e) => Err(e),
        Ok(name) => match type_text(parameter.ty, lifetime) {
            Err(e) => Err(e),
            Ok(ty) => Ok((if parameter.mutable { "mut "@ } else { Seq::empty() }) + name + ": "@ + ty),
        },
    }
}

/// Emits a function parameter.
pub fn parameter_tokens(parameter: &Parameter, lifetime: Option<&str>) -> (r: Result<String, String>)
    ensures
        match r {
            Ok(t) => parameter_text(*parameter, lifetime_view(lifetime)) == Ok::<Seq<char>, Seq<char>>(t@),
            Err(e) => parameter_text(*parameter, lifetime_view(lifetime)) == Err::<Seq<char>, Seq<char>>(e@),
        },
{
    let name = identifier(parameter.rust_name.as_str())?;
    let ty = type_tokens(&parameter.ty, lifetime)?;
    let mut text = if parameter.mutable {
        String::from_str("mut ")
    } else {
        String::new()
    };
    text.append(name.as_str());
    text.append(": ");
    text.append(ty.as_str());
    proof {
        assert(text@ =~= (if parameter.mutable { "mut "@ } else { Seq::empty() }) + name@ + ": "@ + ty@);
    }
    Ok(text)
}

/// Whether `name` is one of `names`, by characters.
pub open spec fn listed(names: Seq<String>, name: Seq<char>) -> bool {
    exists|i: int| 0 <= i < names.len() && #[trigger] names[i]@ == name
}

/// The declaration of one generic parameter: a const `usize` parameter, a
/// type parameter bounded by `'static` when the item asks for it, or a
/// bare type parameter.
pub open spec fn generic_declaration_text(
    name: Seq<char>,
    const_parameters: Seq<String>,
    static_type_bound: bool,
) -> Seq<char> {
    if listed(const_parameters, name) {
        "const "@ + name + ": usize"@
    } else if static_type_bound {
        name + ": 'static"@
    } else {
        name
    }
}

/// The first invalid identifier among `parameters[..n]`, as its error.
pub open spec fn first_invalid(parameters: Seq<String>, n: int) -> Option<Seq<char>>
    decreases n,
{
    if n <= 0 {
        None
    } else {
        match first_invalid(parameters, n - 1) {
            Some(e) => Some(e),
            None => match identifier_text(parameters[n - 1]@) {
                Err(e) => Some(e),
                Ok(_) => None,
            },
        }
    }
}

/// Whether `out` declares `parameters` one for one, in order.
pub open spec fn declares(
    parameters: Seq<String>,
    const_parameters: Seq<String>,
    static_type_bound: bool,
    out: Seq<String>,
) -> bool {
    &&& out.len() == parameters.len()
    &&& forall|i: int|
        0 <= i < out.len() ==> #[trigger] out[i]@ == generic_declaration_text(
            parameters[i]@,
            const_parameters,
            static_type_bound,
        )
}

/// Emits the declarations of generic parameters, in order; fails on the
/// first invalid name.
pub fn generic_parameter_declarations(
    parameters: &Vec<String>,
    const_parameters: &Vec<String>,
    static_type_bound: bool,
) -> (r: Result<Vec<String>, String>)
    ensures
        match first_invalid(parameters@, parameters@.len() as int) {
            None => r matches Ok(out) && declares(parameters@, const_parameters@, static_type_bound, out@),
            Some(e) => r matches Err(m) && m@ == e,
        },
{
    let mut out: Vec<String> = Vec::new();
    let mut i: usize = 0;
    while i < parameters.len()
        invariant
            i <= parameters@.len(),
            first_invalid(parameters@, i as int) is None,
            out@.len() == i,
            forall|k: int|
                0 <= k < i ==> #[trigger] out@[k]@ == generic_declaration_text(
                    parameters@[k]@,
                    const_parameters@,
                    static_type_bound,
                ),
        decreases parameters@.len() - i,
    {
        let name = match identifier(parameters[i].as_str()) {
            Ok(name) => name,
            Err(e) => {
                proof {
                    lemma_first_invalid_stays(parameters@, i as int + 1, parameters@.len() as int);
                }
                return Err(e);
            },
        };
        let mut j: usize = 0;
        let mut is_const = false;
        while j < const_parameters.len()
            invariant
                j <= const_parameters@.len(),
                i < parameters@.len(),
                is_const == exists|k: int| 0 <= k < j && #[trigger] const_parameters@[k]@ == parameters@[i as int]@,
            decreases const_parameters@.len() - j,
        {
            if str_eq(const_parameters[j].as_str(), parameters[i].as_str()) {
                is_const = true;
            }
            j = j + 1;
        }
        let declaration = if is_const {
            let mut text = String::from_str("const ");
            text.append(name.as_str());
            text.append(": usize");
            text
        } else if static_type_bound {
            let mut text = name;
            text.append(": 'static");
            text
        } else {
            name
        };
        out.push(declaration);
        i = i + 1;
    }
    Ok(out)
}

/// Once a prefix holds an invalid name, every longer prefix reports the
/// same one.
proof fn lemma_first_invalid_stays(parameters: Seq<String>, n: int, m: int)
    requires
        0 <= n <= m,
        first_invalid(parameters, n) is Some,
    ensures
        first_invalid(parameters, m) == first_invalid(parameters, n),
    decreases m - n,
{
    if m > n {
        lemma_first_invalid_stays(parameters, n, m - 1);
    }
}

} // verus!

verus! {

/// The Rust text of parameters, separated by `, `; the first error otherwise.
pub open spec fn parameters_text(ps: Seq<Parameter>, lifetime: Option<Seq<char>>) -> Result<Seq<char>, Seq<char>>
    decreases ps.len(),
{
    if ps.len() == 0 {
        Ok(Seq::empty())
    } else {
        match parameter_text(ps[0], lifetime) {
            Err(e) => Err(e),
            Ok(first) => if ps.len() == 1 {
                Ok(first)
            } else {
                match parameters_text(ps.drop_first(), lifetime) {
                    Err(e) => Err(e),
                    Ok(rest) => Ok(first + ", "@ + rest),
                }
            },
        }
    }
}

/// Emits `parameters[start..]`, separated by `, `.
fn parameters_tokens_from(parameters: &Vec<Parameter>, start: usize, lifetime: Option<&str>) -> (r: Result<
    String,
    String,
>)
    requires
        start <= parameters@.len(),
    ensures
        match r {
            Ok(t) => parameters_text(parameters@.skip(start as int), lifetime_view(lifetime)) == Ok::<
                Seq<char>,
                Seq<char>,
            >(t@),
            Err(e) => parameters_text(parameters@.skip(start as int), lifetime_view(lifetime)) == Err::<
                Seq<char>,
                Seq<char>,
            >(e@),
        },
    decreases parameters@.len() - start,
{
    let ghost rest = parameters@.skip(start as int);
    if start == parameters.len() {
        assert(rest.len() == 0);
        return Ok(String::new());
    }
    proof {
        assert(rest[0] == parameters@[start as int]);
        assert(rest.drop_first() =~= parameters@.skip(start + 1));
    }
    let first = parameter_tokens(&parameters[start], lifetime)?;
    if start + 1 == parameters.len() {
        return Ok(first);
    }
    let tail = parameters_tokens_from(parameters, start + 1, lifetime)?;
    let mut text = first;
    text.append(", ");
    text.append(tail.as_str());
    Ok(text)
}

/// What follows a parameter list for a return type whose text is `ty`:
/// the exception carrier around it for a throwing callable, nothing for
/// unit, else the type itself.
pub open spec fn return_signature_text(throws: bool, return_type: Type, ty: Seq<char>) -> Seq<char> {
    if throws {
        " -> ::std::result::Result<"@ + ty + ", crate::__StainlessExceptionBox>"@
    } else if return_type is Unit {
        Seq::empty()
    } else {
        " -> "@ + ty
    }
}

/// Emits what follows a parameter list for a return type.
fn return_signature(throws: bool, return_type: &Type, ty: String) -> (r: String)
    ensures
        r@ == return_signature_text(throws, *return_type, ty@),
{
    if throws {
        around(" -> ::std::result::Result<", ty, ", crate::__StainlessExceptionBox>")
    } else if matches!(return_type, Type::Unit) {
        String::new()
    } else {
        let mut text = String::from_str(" -> ");
        text.append(ty.as_str());
        text
    }
}

/// The Rust text of a public field.
pub open spec fn field_text(field: Field) -> Result<Seq<char>, Seq<char>> {
    match identifier_text(field.rust_name@) {
        Err(e) => Err(e),
        Ok(name) => match type_text(field.ty, None) {
            Err(e) => Err(e),
            Ok(ty) => Ok("pub "@ + name + ": "@ + ty),
        },
    }
}

/// The first error among `fields[..n]`.
pub open spec fn first_field_error(fields: Seq<Field>, n: int) -> Option<Seq<char>>
    decreases n,
{
    if n <= 0 {
        None
    } else {
        match first_field_error(fields, n - 1) {
            Some(e) => Some(e),
            None => match field_text(fields[n - 1]) {
                Err(e) => Some(e),
                Ok(_) => None,
            },
        }
    }
}

/// Once a prefix holds an error, every longer prefix reports the same one.
proof fn lemma_first_field_error_stays(fields: Seq<Field>, n: int, m: int)
    requires
        0 <= n <= m,
        first_field_error(fields, n) is Some,
    ensures
        first_field_error(fields, m) == first_field_error(fields, n),
    decreases m - n,
{
    if m > n {
        lemma_first_field_error_stays(fields, n, m - 1);
    }
}

/// Emits the public fields of a structure, in order; fails on the first
/// invalid one.
pub fn structure_fields(fields: &Vec<Field>) -> (r: Result<Vec<String>, String>)
    ensures
        match first_field_error(fields@, fields@.len() as int) {
            None => r matches Ok(out) && out@.len() == fields@.len() && forall|i: int|
                0 <= i < out@.len() ==> field_text(fields@[i]) == Ok::<Seq<char>, Seq<char>>(
                    (#[trigger] out@[i])@,
                ),
            Some(e) => r matches Err(m) && m@ == e,
        },
{
    let mut out: Vec<String> = Vec::new();
    let mut i: usize = 0;
    while i < fields.len()
        invariant
            i <= fields@.len(),
            first_field_error(fields@, i as int) is None,
            out@.len() == i,
            forall|k: int| 0 <= k < i ==> field_text(fields@[k]) == Ok::<Seq<char>, Seq<char>>((#[trigger] out@[k])@),
        decreases fields@.len() - i,
    {
        let field = &fields[i];
        let emitted = match identifier(field.rust_name.as_str()) {
            Ok(name) => match type_tokens(&field.ty, None) {
                Ok(ty) => {
                    let mut text = String::from_str("pub ");
                    text.append(name.as_str());
                    text.append(": ");
                    text.append(ty.as_str());
                    Ok(text)
                },
                Err(e) => Err(e),
            },
            Err(e) => Err(e),
        };
        match emitted {
            Ok(text) => {
                out.push(text);
            },
            Err(e) => {
                proof {
                    lemma_first_field_error_stays(fields@, i as int + 1, fields@.len() as int);
                }
                return Err(e);
            },
        }
        i = i + 1;
    }
    Ok(out)
}

/// The receiver of an interface method.
pub open spec fn receiver_text(mutable: bool) -> Seq<char> {
    if mutable {
        "&mut self"@
    } else {
        "&self"@
    }
}

/// The Rust signature of an interface method: receiver first, then the
/// parameters and the return; a declaration ends with `;`.
pub open spec fn method_signature_text(method: InterfaceMethod, declaration: bool) -> Result<Seq<char>, Seq<char>> {
    match identifier_text(method.rust_name@) {
        Err(e) => Err(e),
        Ok(name) => match parameters_text(method.parameters@, None) {
            Err(e) => Err(e),
            Ok(ps) => match type_text(method.return_type, None) {
                Err(e) => Err(e),
                Ok(ty) => Ok(
                    "fn "@ + name + "("@ + receiver_text(method.mutable) + (if method.parameters@.len() == 0 {
                        Seq::empty()
                    } else {
                        ", "@ + ps
                    }) + ")"@ + return_signature_text(method.throws, method.return_type, ty) + (if declaration {
                        ";"@
                    } else {
                        Seq::empty()
                    }),
                ),
            },
        },
    }
}

/// Emits the signature of an interface method.
pub fn interface_method_signature(method: &InterfaceMethod, declaration: bool) -> (r: Result<String, String>)
    ensures
        match r {
            Ok(t) => method_signature_text(*method, declaration) == Ok::<Seq<char>, Seq<char>>(t@),
            Err(e) => method_signature_text(*method, declaration) == Err::<Seq<char>, Seq<char>>(e@),
        },
{
    let name = identifier(method.rust_name.as_str())?;
    assert(method.parameters@.skip(0) =~= method.parameters@);
    let parameters = parameters_tokens_from(&method.parameters, 0, None)?;
    let ty = type_tokens(&method.return_type, None)?;
    let mut text = String::from_str("fn ");
    text.append(name.as_str());
    text.append("(");
    if method.mutable {
        text.append("&mut self");
    } else {
        text.append("&self");
    }
    if method.parameters.len() != 0 {
        text.append(", ");
        text.append(parameters.as_str());
    }
    text.append(")");
    let ret = return_signature(method.throws, &method.return_type, ty);
    text.append(ret.as_str());
    if declaration {
        text.append(";");
    }
    proof {
        let expected = "fn "@ + name@ + "("@ + receiver_text(method.mutable) + (if method.parameters@.len() == 0 {
            Seq::empty()
        } else {
            ", "@ + parameters@
        }) + ")"@ + ret@ + (if declaration {
            ";"@
        } else {
            Seq::empty()
        });
        assert(text@ =~= expected);
    }
    Ok(text)
}

/// How many parameters are references.
pub open spec fn reference_parameter_count(ps: Seq<Parameter>) -> nat
    decreases ps.len(),
{
    if ps.len() == 0 {
        0
    } else {
        reference_parameter_count(ps.drop_last()) + if ps.last().ty is Reference {
            1nat
        } else {
            0nat
        }
    }
}

/// The lifetime a function's references carry: named only when it returns
/// a reference and takes more than one.
pub open spec fn function_lifetime(f: Function) -> Option<Seq<char>> {
    if f.return_type is Reference && reference_parameter_count(f.parameters@) > 1 {
        Some("'__stainless_borrow"@)
    } else {
        None
    }
}

/// The generic parameter list of a function: the named lifetime first,
/// when there is one, then the declarations of its generic parameters,
/// each bounded by `'static`; nothing when both are absent.
pub open spec fn function_generics_text(f: Function) -> Seq<char> {
    let declarations = join_chars(
        Seq::new(
            f.type_parameters@.len(),
            |i: int| generic_declaration_text(f.type_parameters@[i]@, f.const_parameters@, true),
        ),
        ", "@,
    );
    let named = function_lifetime(f) is Some;
    if f.type_parameters@.len() == 0 {
        if named {
            "<'__stainless_borrow>"@
        } else {
            Seq::empty()
        }
    } else if named {
        "<'__stainless_borrow, "@ + declarations + ">"@
    } else {
        "<"@ + declarations + ">"@
    }
}

/// The Rust signature of a generated function, or why it cannot be
/// emitted: an invalid name, a reference return with no reference
/// parameter to borrow from, an invalid parameter or type, or an invalid
/// generic parameter, checked in that order.
pub open spec fn function_signature_text(f: Function) -> Result<Seq<char>, Seq<char>> {
    match identifier_text(f.rust_name@) {
        Err(e) => Err(e),
        Ok(name) => if f.return_type is Reference && reference_parameter_count(f.parameters@) == 0 {
            Err("reference-returning function `"@ + join_spec(f.source_path@, "::"@) + "` has no input borrow"@)
        } else {
            match parameters_text(f.parameters@, function_lifetime(f)) {
                Err(e) => Err(e),
                Ok(ps) => match type_text(f.return_type, function_lifetime(f)) {
                    Err(e) => Err(e),
                    Ok(ty) => match first_invalid(f.type_parameters@, f.type_parameters@.len() as int) {
                        Some(e) => Err(e),
                        None => Ok(
                            (if f.is_async { "pub async fn "@ } else { "pub fn "@ }) + name
                                + function_generics_text(f) + "("@ + ps + ")"@ + return_signature_text(
                                f.throws,
                                f.return_type,
                                ty,
                            ),
                        ),
                    },
                },
            }
        },
    }
}

/// Counts the reference parameters.
fn count_reference_parameters(parameters: &Vec<Parameter>) -> (r: usize)
    ensures
        r == reference_parameter_count(parameters@),
{
    let mut count: usize = 0;
    let mut i: usize = 0;
    while i < parameters.len()
        invariant
            i <= parameters@.len(),
            count == reference_parameter_count(parameters@.take(i as int)),
            count <= i,
        decreases parameters@.len() - i,
    {
        proof {
            assert(parameters@.take(i + 1).drop_last() =~= parameters@.take(i as int));
        }
        if matches!(parameters[i].ty, Type::Reference { .. }) {
            count = count + 1;
        }
        i = i + 1;
    }
    assert(parameters@.take(parameters@.len() as int) =~= parameters@);
    count
}

/// Emits the signature of a generated public function, up to its body.
pub fn function_signature(function: &Function) -> (r: Result<String, String>)
    ensures
        match r {
            Ok(t) => function_signature_text(*function) == Ok::<Seq<char>, Seq<char>>(t@),
            Err(e) => function_signature_text(*function) == Err::<Seq<char>, Seq<char>>(e@),
        },
{
    let name = identifier(function.rust_name.as_str())?;
    let references = count_reference_parameters(&function.parameters);
    let returns_reference = matches!(function.return_type, Type::Reference { .. });
    if returns_reference && references == 0 {
        let mut message = String::from_str("reference-returning function `");
        let path = crate::text::join_strings(&function.source_path, "::");
        message.append(path.as_str());
        message.append("` has no input borrow");
        return Err(message);
    }
    let explicit = returns_reference && references > 1;
    let lifetime: Option<&str> = if explicit {
        Some("'__stainless_borrow")
    } else {
        None
    };
    assert(lifetime_view(lifetime) == function_lifetime(*function));
    assert(function.parameters@.skip(0) =~= function.parameters@);
    let parameters = parameters_tokens_from(&function.parameters, 0, lifetime)?;
    let ty = type_tokens(&function.return_type, lifetime)?;
    let generics = generic_parameter_declarations(&function.type_parameters, &function.const_parameters, true)?;
    let declarations = crate::text::join_strings(&generics, ", ");
    proof {
        let expected = Seq::new(
            function.type_parameters@.len(),
            |i: int| generic_declaration_text(function.type_parameters@[i]@, function.const_parameters@, true),
        );
        crate::text::lemma_join_views(generics@, ", "@);
        assert(generics@.map_values(|x: String| x@) =~= expected);
    }
    let mut text = if function.is_async {
        String::from_str("pub async fn ")
    } else {
        String::from_str("pub fn ")
    };
    text.append(name.as_str());
    if generics.len() == 0 {
        if explicit {
            text.append("<'__stainless_borrow>");
        }
    } else if explicit {
        text.append("<'__stainless_borrow, ");
        text.append(declarations.as_str());
        text.append(">");
    } else {
        text.append("<");
        text.append(declarations.as_str());
        text.append(">");
    }
    let ghost generics_part = function_generics_text(*function);
    text.append("(");
    text.append(parameters.as_str());
    text.append(")");
    let ret = return_signature(function.throws, &function.return_type, ty);
    text.append(ret.as_str());
    proof {
        let head: Seq<char> = if function.is_async { "pub async fn "@ } else { "pub fn "@ };
        assert(text@ =~= head + name@ + generics_part + "("@ + parameters@ + ")"@ + ret@);
    }
    Ok(text)
}

} // verus!

verus! {

/// Supertrait paths joined with ` + `; the first invalid path's error
/// otherwise.
pub open spec fn bases_text(bases: Seq<String>) -> Result<Seq<char>, Seq<char>>
    decreases bases.len(),
{
    if bases.len() == 0 {
        Ok(Seq::empty())
    } else {
        match path_text(bases[0]@) {
            Err(e) => Err(e),
            Ok(first) => if bases.len() == 1 {
                Ok(first)
            } else {
                match bases_text(bases.drop_first()) {
                    Err(e) => Err(e),
                    Ok(rest) => Ok(first + " + "@ + rest),
                }
            },
        }
    }
}

/// Emits `bases[start..]` joined with ` + `.
fn bases_tokens_from(bases: &Vec<String>, start: usize) -> (r: Result<String, String>)
    requires
        start <= bases@.len(),
    ensures
        match r {
            Ok(t) => bases_text(bases@.skip(start as int)) == Ok::<Seq<char>, Seq<char>>(t@),
            Err(e) => bases_text(bases@.skip(start as int)) == Err::<Seq<char>, Seq<char>>(e@),
        },
    decreases bases@.len() - start,
{
    let ghost rest = bases@.skip(start as int);
    if start == bases.len() {
        assert(rest.len() == 0);
        return Ok(String::new());
    }
    proof {
        assert(rest[0] == bases@[start as int]);
        assert(rest.drop_first() =~= bases@.skip(start + 1));
    }
    let first = path(bases[start].as_str())?;
    if start + 1 == bases.len() {
        return Ok(first);
    }
    let tail = bases_tokens_from(bases, start + 1)?;
    let mut text = first;
    text.append(" + ");
    text.append(tail.as_str());
    Ok(text)
}

/// The method declarations of a trait, one indented line each; the first
/// error otherwise.
pub open spec fn method_declarations_text(methods: Seq<InterfaceMethod>) -> Result<Seq<char>, Seq<char>>
    decreases methods.len(),
{
    if methods.len() == 0 {
        Ok(Seq::empty())
    } else {
        match method_signature_text(methods[0], true) {
            Err(e) => Err(e),
            Ok(first) => match method_declarations_text(methods.drop_first()) {
                Err(e) => Err(e),
                Ok(rest) => Ok("    "@ + first + "\n"@ + rest),
            },
        }
    }
}

/// Emits the declarations of `methods[start..]`.
fn method_declarations_from(methods: &Vec<InterfaceMethod>, start: usize) -> (r: Result<String, String>)
    requires
        start <= methods@.len(),
    ensures
        match r {
            Ok(t) => method_declarations_text(methods@.skip(start as int)) == Ok::<Seq<char>, Seq<char>>(t@),
            Err(e) => method_declarations_text(methods@.skip(start as int)) == Err::<Seq<char>, Seq<char>>(e@),
        },
    decreases methods@.len() - start,
{
    let ghost rest = methods@.skip(start as int);
    if start == methods.len() {
        assert(rest.len() == 0);
        return Ok(String::new());
    }
    proof {
        assert(rest[0] == methods@[start as int]);
        assert(rest.drop_first() =~= methods@.skip(start + 1));
    }
    let first = interface_method_signature(&methods[start], true)?;
    let tail = method_declarations_from(methods, start + 1)?;
    let mut text = String::from_str("    ");
    text.append(first.as_str());
    text.append("\n");
    text.append(tail.as_str());
    Ok(text)
}

/// The Rust trait of an interface: its supertraits after a colon when it
/// has any, and its method declarations.
pub open spec fn interface_text(interface: Interface) -> Result<Seq<char>, Seq<char>> {
    match identifier_text(interface.rust_name@) {
        Err(e) => Err(e),
        Ok(name) => match bases_text(interface.bases@) {
            Err(e) => Err(e),
            Ok(bases) => match method_declarations_text(interface.methods@) {
                Err(e) => Err(e),
                Ok(methods) => Ok(
                    "#[allow(non_snake_case)]\npub trait "@ + name + (if interface.bases@.len() == 0 {
                        Seq::empty()
                    } else {
                        ": "@ + bases
                    }) + " {\n"@ + methods + "}\n"@,
                ),
            },
        },
    }
}

/// Emits the trait of an interface.
pub fn interface_tokens(interface: &Interface) -> (r: Result<String, String>)
    ensures
        match r {
            Ok(t) => interface_text(*interface) == Ok::<Seq<char>, Seq<char>>(t@),
            Err(e) => interface_text(*interface) == Err::<Seq<char>, Seq<char>>(e@),
        },
{
    let name = identifier(interface.rust_name.as_str())?;
    assert(interface.bases@.skip(0) =~= interface.bases@);
    let bases = bases_tokens_from(&interface.bases, 0)?;
    assert(interface.methods@.skip(0) =~= interface.methods@);
    let methods = method_declarations_from(&interface.methods, 0)?;
    let mut text = String::from_str("#[allow(non_snake_case)]\npub trait ");
    text.append(name.as_str());
    if interface.bases.len() != 0 {
        text.append(": ");
        text.append(bases.as_str());
    }
    text.append(" {\n");
    text.append(methods.as_str());
    text.append("}\n");
    proof {
        let expected = "#[allow(non_snake_case)]\npub trait "@ + name@ + (if interface.bases@.len() == 0 {
            Seq::empty()
        } else {
            ": "@ + bases@
        }) + " {\n"@ + methods@ + "}\n"@;
        assert(text@ =~= expected);
    }
    Ok(text)
}

} // verus!

verus! {

/// The free function a trait method delegates to, below the crate root.
pub open spec fn delegate_path_text(m: InterfaceImplementationMethod) -> Seq<char> {
    if m.function_modules@.len() == 0 {
        "crate::"@ + m.function@
    } else {
        "crate::"@ + join_spec(m.function_modules@, "::"@) + "::"@ + m.function@
    }
}

/// Each parameter's identifier after `, `; the first error otherwise.
pub open spec fn arguments_text(ps: Seq<Parameter>) -> Result<Seq<char>, Seq<char>>
    decreases ps.len(),
{
    if ps.len() == 0 {
        Ok(Seq::empty())
    } else {
        match identifier_text(ps[0].rust_name@) {
            Err(e) => Err(e),
            Ok(a) => match arguments_text(ps.drop_first()) {
                Err(e) => Err(e),
                Ok(rest) => Ok(", "@ + a + rest),
            },
        }
    }
}

/// Emits the arguments `parameters[start..]` pass on.
fn arguments_from(parameters: &Vec<Parameter>, start: usize) -> (r: Result<String, String>)
    requires
        start <= parameters@.len(),
    ensures
        match r {
            Ok(t) => arguments_text(parameters@.skip(start as int)) == Ok::<Seq<char>, Seq<char>>(t@),
            Err(e) => arguments_text(parameters@.skip(start as int)) == Err::<Seq<char>, Seq<char>>(e@),
        },
    decreases parameters@.len() - start,
{
    let ghost rest = parameters@.skip(start as int);
    if start == parameters.len() {
        assert(rest.len() == 0);
        return Ok(String::new());
    }
    proof {
        assert(rest[0] == parameters@[start as int]);
        assert(rest.drop_first() =~= parameters@.skip(start + 1));
    }
    let first = identifier(parameters[start].rust_name.as_str())?;
    let tail = arguments_from(parameters, start + 1)?;
    let mut text = String::from_str(", ");
    text.append(first.as_str());
    text.append(tail.as_str());
    Ok(text)
}

/// The call a trait method makes of its delegate, erasing a concrete self
/// reference in the result when the method asks for it.
pub open spec fn invocation_text(m: InterfaceImplementationMethod) -> Result<Seq<char>, Seq<char>> {
    match path_text(delegate_path_text(m)) {
        Err(e) => Err(e),
        Ok(target) => match arguments_text(m.method.parameters@) {
            Err(e) => Err(e),
            Ok(arguments) => {
                let call = target + "(self"@ + arguments + ")"@;
                if m.adapt_self_reference {
                    match type_text(m.method.return_type, None) {
                        Err(e) => Err(e),
                        Ok(ty) => if m.method.throws {
                            Ok("("@ + call + ").map(|value| value as "@ + ty + ")"@)
                        } else {
                            Ok("("@ + call + ") as "@ + ty)
                        },
                    }
                } else {
                    Ok(call)
                }
            },
        },
    }
}

/// One method of a trait implementation: its signature and a body that
/// calls the delegate.
pub open spec fn delegation_text(m: InterfaceImplementationMethod) -> Result<Seq<char>, Seq<char>> {
    match method_signature_text(m.method, false) {
        Err(e) => Err(e),
        Ok(signature) => match invocation_text(m) {
            Err(e) => Err(e),
            Ok(invocation) => Ok("    "@ + signature + " {\n        "@ + invocation + "\n    }\n"@),
        },
    }
}

/// Emits the call a trait method makes of its delegate.
fn invocation(m: &InterfaceImplementationMethod) -> (r: Result<String, String>)
    ensures
        match r {
            Ok(t) => invocation_text(*m) == Ok::<Seq<char>, Seq<char>>(t@),
            Err(e) => invocation_text(*m) == Err::<Seq<char>, Seq<char>>(e@),
        },
{
    let mut target_text = String::from_str("crate::");
    if m.function_modules.len() != 0 {
        let modules = crate::text::join_strings(&m.function_modules, "::");
        target_text.append(modules.as_str());
        target_text.append("::");
    }
    target_text.append(m.function.as_str());
    proof {
        if m.function_modules@.len() == 0 {
            assert(target_text@ =~= delegate_path_text(*m));
        } else {
            assert(target_text@ =~= delegate_path_text(*m));
        }
    }
    let target = path(target_text.as_str())?;
    assert(m.method.parameters@.skip(0) =~= m.method.parameters@);
    let arguments = arguments_from(&m.method.parameters, 0)?;
    let mut call = target;
    call.append("(self");
    call.append(arguments.as_str());
    call.append(")");
    if m.adapt_self_reference {
        let ty = type_tokens(&m.method.return_type, None)?;
        if m.method.throws {
            let mut text = around("(", call, ").map(|value| value as ");
            text.append(ty.as_str());
            text.append(")");
            Ok(text)
        } else {
            let mut text = around("(", call, ") as ");
            text.append(ty.as_str());
            Ok(text)
        }
    } else {
        Ok(call)
    }
}

/// The delegating methods of a trait implementation, in order; the first
/// error otherwise.
pub open spec fn delegations_text(ms: Seq<InterfaceImplementationMethod>) -> Result<Seq<char>, Seq<char>>
    decreases ms.len(),
{
    if ms.len() == 0 {
        Ok(Seq::empty())
    } else {
        match delegation_text(ms[0]) {
            Err(e) => Err(e),
            Ok(first) => match delegations_text(ms.drop_first()) {
                Err(e) => Err(e),
                Ok(rest) => Ok(first + rest),
            },
        }
    }
}

/// Emits the delegating methods `ms[start..]`.
fn delegations_from(ms: &Vec<InterfaceImplementationMethod>, start: usize) -> (r: Result<String, String>)
    requires
        start <= ms@.len(),
    ensures
        match r {
            Ok(t) => delegations_text(ms@.skip(start as int)) == Ok::<Seq<char>, Seq<char>>(t@),
            Err(e) => delegations_text(ms@.skip(start as int)) == Err::<Seq<char>, Seq<char>>(e@),
        },
    decreases ms@.len() - start,
{
    let ghost rest = ms@.skip(start as int);
    if start == ms.len() {
        assert(rest.len() == 0);
        return Ok(String::new());
    }
    proof {
        assert(rest[0] == ms@[start as int]);
        assert(rest.drop_first() =~= ms@.skip(start + 1));
    }
    let signature = interface_method_signature(&ms[start].method, false)?;
    let call = invocation(&ms[start])?;
    let tail = delegations_from(ms, start + 1)?;
    let mut text = String::from_str("    ");
    text.append(signature.as_str());
    text.append(" {\n        ");
    text.append(call.as_str());
    text.append("\n    }\n");
    text.append(tail.as_str());
    Ok(text)
}

/// The implementation of an interface trait for the concrete type
/// `concrete`, each method delegating to its free function.
pub open spec fn implementation_text(concrete: Seq<char>, implementation: InterfaceImplementation) -> Result<
    Seq<char>,
    Seq<char>,
> {
    match path_text(implementation.interface_path@) {
        Err(e) => Err(e),
        Ok(interface) => match delegations_text(implementation.methods@) {
            Err(e) => Err(e),
            Ok(methods) => Ok("impl "@ + interface + " for "@ + concrete + " {\n"@ + methods + "}\n"@),
        },
    }
}

/// Emits the implementation of an interface trait for `concrete`.
pub fn interface_implementation(concrete: &str, implementation: &InterfaceImplementation) -> (r: Result<
    String,
    String,
>)
    ensures
        match r {
            Ok(t) => implementation_text(concrete@, *implementation) == Ok::<Seq<char>, Seq<char>>(t@),
            Err(e) => implementation_text(concrete@, *implementation) == Err::<Seq<char>, Seq<char>>(e@),
        },
{
    let interface = path(implementation.interface_path.as_str())?;
    assert(implementation.methods@.skip(0) =~= implementation.methods@);
    let methods = delegations_from(&implementation.methods, 0)?;
    let mut text = String::from_str("impl ");
    text.append(interface.as_str());
    text.append(" for ");
    text.append(concrete);
    text.append(" {\n");
    text.append(methods.as_str());
    text.append("}\n");
    Ok(text)
}

} // verus!

verus! {

/// The place reached from `base` through the generated fields `segments`,
/// each access parenthesized; the first invalid field name's error
/// otherwise.
pub open spec fn access_text(segments: Seq<String>, base: Seq<char>) -> Result<Seq<char>, Seq<char>>
    decreases segments.len(),
{
    if segments.len() == 0 {
        Ok(base)
    } else {
        match identifier_text(segments[0]@) {
            Err(e) => Err(e),
            Ok(s) => access_text(segments.drop_first(), "("@ + base + ")."@ + s),
        }
    }
}

/// Emits the place reached from `base` through `segments`.
fn access_tokens(segments: &Vec<String>, base: &str) -> (r: Result<String, String>)
    ensures
        match r {
            Ok(t) => access_text(segments@, base@) == Ok::<Seq<char>, Seq<char>>(t@),
            Err(e) => access_text(segments@, base@) == Err::<Seq<char>, Seq<char>>(e@),
        },
{
    let mut access = String::from_str(base);
    let mut i: usize = 0;
    assert(segments@.skip(0) =~= segments@);
    while i < segments.len()
        invariant
            i <= segments@.len(),
            access_text(segments@, base@) == access_text(segments@.skip(i as int), access@),
        decreases segments@.len() - i,
    {
        proof {
            assert(segments@.skip(i as int)[0] == segments@[i as int]);
            assert(segments@.skip(i as int).drop_first() =~= segments@.skip(i + 1));
        }
        let segment = identifier(segments[i].as_str())?;
        let mut next = around("(", access, ").");
        next.append(segment.as_str());
        access = next;
        i = i + 1;
    }
    assert(segments@.skip(i as int).len() == 0);
    Ok(access)
}

/// One member of a converted JSON object: its name as a string literal
/// and the converted field value; the first error otherwise.
pub open spec fn json_member_text(field: JsonStructField, value: Seq<char>) -> Result<Seq<char>, Seq<char>> {
    match access_text(field.access_path@, value) {
        Err(e) => Err(e),
        Ok(access) => Ok(
            "("@ + crate::interop::manifest::str_debug(field.name@) + ", ::stainless_runtime::Var::from("@ + access
                + "))"@,
        ),
    }
}

/// The members of a converted JSON object, each after `,` and a new
/// line; the first error otherwise.
pub open spec fn json_members_text(fields: Seq<JsonStructField>, value: Seq<char>) -> Result<Seq<char>, Seq<char>>
    decreases fields.len(),
{
    if fields.len() == 0 {
        Ok(Seq::empty())
    } else {
        match json_member_text(fields[0], value) {
            Err(e) => Err(e),
            Ok(first) => match json_members_text(fields.drop_first(), value) {
                Err(e) => Err(e),
                Ok(rest) => Ok(",\n            "@ + first + rest),
            },
        }
    }
}

/// Emits the members `fields[start..]` of a converted JSON object.
fn json_members_from(fields: &Vec<JsonStructField>, start: usize, value: &str) -> (r: Result<String, String>)
    requires
        start <= fields@.len(),
    ensures
        match r {
            Ok(t) => json_members_text(fields@.skip(start as int), value@) == Ok::<Seq<char>, Seq<char>>(t@),
            Err(e) => json_members_text(fields@.skip(start as int), value@) == Err::<Seq<char>, Seq<char>>(e@),
        },
    decreases fields@.len() - start,
{
    let ghost rest = fields@.skip(start as int);
    if start == fields.len() {
        assert(rest.len() == 0);
        return Ok(String::new());
    }
    proof {
        assert(rest[0] == fields@[start as int]);
        assert(rest.drop_first() =~= fields@.skip(start + 1));
    }
    let access = access_tokens(&fields[start].access_path, value)?;
    let tail = json_members_from(fields, start + 1, value)?;
    let name = crate::interop::manifest::debug_text(fields[start].name.as_str());
    let mut text = String::from_str(",\n            ");
    text.append("(");
    text.append(name.as_str());
    text.append(", ::stainless_runtime::Var::from(");
    text.append(access.as_str());
    text.append("))");
    text.append(tail.as_str());
    proof {
        let member = "("@ + crate::interop::manifest::str_debug(fields@[start as int].name@)
            + ", ::stainless_runtime::Var::from("@ + access@ + "))"@;
        assert(json_member_text(fields@[start as int], value@) == Ok::<Seq<char>, Seq<char>>(member));
        assert(text@ =~= ",\n            "@ + member + tail@);
    }
    Ok(text)
}

/// The conversion of a structure named `name` into a JSON object, when the
/// structure converts at all: a `__type` member naming its source type,
/// then one member per converted field.
pub open spec fn json_conversion_text(
    name: Seq<char>,
    source_path: Seq<String>,
    fields: Option<Seq<JsonStructField>>,
) -> Result<Seq<char>, Seq<char>> {
    match fields {
        None => Ok(Seq::empty()),
        Some(fields) => match identifier_text("__stainless_json_value"@) {
            Err(e) => Err(e),
            Ok(value) => match json_members_text(fields, value) {
                Err(e) => Err(e),
                Ok(members) => Ok(
                    "impl ::core::convert::From<"@ + name + "> for ::stainless_runtime::Var {\n    fn from("@
                        + value + ": "@ + name + ") -> Self {\n        ::stainless_runtime::Var::object([\n            (\"__type\", ::stainless_runtime::Var::from("@
                        + crate::interop::manifest::str_debug(join_spec(source_path, "::"@)) + "))"@ + members
                        + ",\n        ])\n    }\n}\n"@,
                ),
            },
        },
    }
}

/// The optional field list as a sequence.
pub open spec fn json_fields_view(fields: Option<Vec<JsonStructField>>) -> Option<Seq<JsonStructField>> {
    match fields {
        Some(f) => Some(f@),
        None => None,
    }
}

/// Emits the JSON conversion of a structure named `name`.
pub fn struct_json_conversion(
    name: &str,
    source_path: &Vec<String>,
    fields: &Option<Vec<JsonStructField>>,
) -> (r: Result<String, String>)
    ensures
        match r {
            Ok(t) => json_conversion_text(name@, source_path@, json_fields_view(*fields)) == Ok::<
                Seq<char>,
                Seq<char>,
            >(t@),
            Err(e) => json_conversion_text(name@, source_path@, json_fields_view(*fields)) == Err::<
                Seq<char>,
                Seq<char>,
            >(e@),
        },
{
    let fields = match fields {
        Some(fields) => fields,
        None => {
            return Ok(String::new());
        },
    };
    let value = identifier("__stainless_json_value")?;
    assert(fields@.skip(0) =~= fields@);
    let members = json_members_from(fields, 0, value.as_str())?;
    let source_type = crate::text::join_strings(source_path, "::");
    let literal = crate::interop::manifest::debug_text(source_type.as_str());
    let mut text = String::from_str("impl ::core::convert::From<");
    text.append(name);
    text.append("> for ::stainless_runtime::Var {\n    fn from(");
    text.append(value.as_str());
    text.append(": ");
    text.append(name);
    text.append(
        ") -> Self {\n        ::stainless_runtime::Var::object([\n            (\"__type\", ::stainless_runtime::Var::from(",
    );
    text.append(literal.as_str());
    text.append("))");
    text.append(members.as_str());
    text.append(",\n        ])\n    }\n}\n");
    Ok(text)
}

/// The checked-exception impls of an exception structure named `name`:
/// projection to its own type, then through its base field when it has
/// one; its message, from the base or its own `message` field; and the
/// `Display`, `Debug` and `Error` impls over that message.
pub open spec fn exception_impl_text(name: Seq<char>, base_field: Option<Seq<char>>) -> Result<Seq<char>, Seq<char>> {
    let parts: Result<(Seq<char>, Seq<char>), Seq<char>> = match base_field {
        Some(base) => match identifier_text(base) {
            Err(e) => Err(e),
            Ok(b) => Ok(
                (
                    "crate::__StainlessException::__stainless_project(&self."@ + b + ", target)"@,
                    "crate::__StainlessException::__stainless_message(&self."@ + b + ")"@,
                ),
            ),
        },
        None => match identifier_text("message"@) {
            Err(e) => Err(e),
            Ok(m) => Ok(("None"@, "(&self."@ + m + ").as_str()"@)),
        },
    };
    match parts {
        Err(e) => Err(e),
        Ok((fallback, message)) => Ok(
            "impl crate::__StainlessException for "@ + name
                + " {\n    fn __stainless_project(&self, target: ::std::any::TypeId) -> Option<&dyn ::std::any::Any> {\n        if target == ::std::any::TypeId::of::<Self>() {\n            Some(self)\n        } else {\n            "@
                + fallback + "\n        }\n    }\n\n    fn __stainless_message(&self) -> &str {\n        "@ + message
                + "\n    }\n}\n\nimpl ::std::fmt::Display for "@ + name
                + " {\n    fn fmt(&self, formatter: &mut ::std::fmt::Formatter<'_>) -> ::std::fmt::Result {\n        formatter.write_str(crate::__StainlessException::__stainless_message(self))\n    }\n}\n\nimpl ::std::fmt::Debug for "@
                + name
                + " {\n    fn fmt(&self, formatter: &mut ::std::fmt::Formatter<'_>) -> ::std::fmt::Result {\n        ::std::fmt::Display::fmt(self, formatter)\n    }\n}\n\nimpl ::std::error::Error for "@
                + name + " {}\n"@,
        ),
    }
}

/// The optional base field as characters.
pub open spec fn base_field_view(base_field: Option<&str>) -> Option<Seq<char>> {
    match base_field {
        Some(b) => Some(b@),
        None => None,
    }
}

/// Emits the checked-exception impls of an exception structure.
pub fn exception_impl(name: &str, base_field: Option<&str>) -> (r: Result<String, String>)
    ensures
        match r {
            Ok(t) => exception_impl_text(name@, base_field_view(base_field)) == Ok::<Seq<char>, Seq<char>>(t@),
            Err(e) => exception_impl_text(name@, base_field_view(base_field)) == Err::<Seq<char>, Seq<char>>(e@),
        },
{
    let (fallback, message) = match base_field {
        Some(base) => {
            let b = identifier(base)?;
            let mut fallback = String::from_str("crate::__StainlessException::__stainless_project(&self.");
            fallback.append(b.as_str());
            fallback.append(", target)");
            let message = around("crate::__StainlessException::__stainless_message(&self.", b, ")");
            (fallback, message)
        },
        None => {
            let m = identifier("message")?;
            (String::from_str("None"), around("(&self.", m, ").as_str()"))
        },
    };
    let mut text = String::from_str("impl crate::__StainlessException for ");
    text.append(name);
    text.append(
        " {\n    fn __stainless_project(&self, target: ::std::any::TypeId) -> Option<&dyn ::std::any::Any> {\n        if target == ::std::any::TypeId::of::<Self>() {\n            Some(self)\n        } else {\n            ",
    );
    text.append(fallback.as_str());
    text.append("\n        }\n    }\n\n    fn __stainless_message(&self) -> &str {\n        ");
    text.append(message.as_str());
    text.append("\n    }\n}\n\nimpl ::std::fmt::Display for ");
    text.append(name);
    text.append(
        " {\n    fn fmt(&self, formatter: &mut ::std::fmt::Formatter<'_>) -> ::std::fmt::Result {\n        formatter.write_str(crate::__StainlessException::__stainless_message(self))\n    }\n}\n\nimpl ::std::fmt::Debug for ",
    );
    text.append(name);
    text.append(
        " {\n    fn fmt(&self, formatter: &mut ::std::fmt::Formatter<'_>) -> ::std::fmt::Result {\n        ::std::fmt::Display::fmt(self, formatter)\n    }\n}\n\nimpl ::std::error::Error for ",
    );
    text.append(name);
    text.append(" {}\n");
    Ok(text)
}

} // verus!

verus! {

/// What one wrapper parameter contributes: its declaration, the argument
/// passed on, and the generic parameters and `where` bounds a callback adds.
pub struct WrapperPiece {
    /// `name: type`.
    pub declaration: String,
    /// The argument the wrapped call receives.
    pub argument: String,
    /// Generic parameters it introduces.
    pub generics: Vec<String>,
    /// `where` bounds it introduces.
    pub bounds: Vec<String>,
}

/// [`WrapperPiece`] by characters.
pub open spec fn piece_view(p: WrapperPiece) -> (Seq<char>, Seq<char>, Seq<Seq<char>>, Seq<Seq<char>>) {
    (p.declaration@, p.argument@, p.generics@.map_values(|s: String| s@), p.bounds@.map_values(|s: String| s@))
}

/// The Rust trait a callback kind is bounded by.
pub open spec fn callback_trait_text(kind: CallbackKind) -> Seq<char> {
    match kind {
        CallbackKind::Fn => "::core::ops::Fn"@,
        CallbackKind::FnMut => "::core::ops::FnMut"@,
        _ => "::core::ops::FnOnce"@,
    }
}

/// The generated name of wrapper parameter `index`.
pub open spec fn argument_name(index: nat) -> Seq<char> {
    "__stainless_argument_"@ + crate::text::decimal(index)
}

/// The argument a wrapper passes for a parameter named `name`.
pub open spec fn adapted_argument_text(name: Seq<char>, adaptation: ArgumentAdaptation) -> Seq<char> {
    match adaptation {
        ArgumentAdaptation::Identity => name,
        ArgumentAdaptation::StringRefToStr => "("@ + name + ").as_str()"@,
    }
}

/// What wrapper parameter `index` contributes, or why it cannot be emitted.
/// A callback becomes a `fn` pointer type, or a generic parameter bounded
/// by its closure trait (with a second one for the future an async
/// callback returns); any other type is emitted as it is.
pub open spec fn wrapper_piece_text(index: nat, p: NativeWrapperParameter) -> Result<
    (Seq<char>, Seq<char>, Seq<Seq<char>>, Seq<Seq<char>>),
    Seq<char>,
> {
    match identifier_text(argument_name(index)) {
        Err(e) => Err(e),
        Ok(name) => {
            let argument = adapted_argument_text(name, p.adaptation);
            match p.ty {
                Type::Callback { is_async, kind, parameters, return_type, .. } => if p.adaptation
                    != ArgumentAdaptation::Identity {
                    Err(
                        "generated callback parameter "@ + crate::text::decimal(index)
                            + " has an unsupported adaptation"@,
                    )
                } else {
                    match types_text(parameters@) {
                        Err(e) => Err(e),
                        Ok(ps) => match type_text(*return_type, None) {
                            Err(e) => Err(e),
                            Ok(ret) => if kind == CallbackKind::FunctionPointer {
                                Ok(
                                    (
                                        name + ": "@ + "fn("@ + ps + ") -> "@ + ret,
                                        argument,
                                        Seq::empty(),
                                        Seq::empty(),
                                    ),
                                )
                            } else {
                                match identifier_text("__StainlessCallback"@ + crate::text::decimal(index)) {
                                    Err(e) => Err(e),
                                    Ok(g) => {
                                        let head = g + ": "@ + callback_trait_text(kind) + "("@ + ps + ") -> "@;
                                        if is_async {
                                            match identifier_text("__StainlessFuture"@ + crate::text::decimal(index)) {
                                                Err(e) => Err(e),
                                                Ok(f) => Ok(
                                                    (
                                                        name + ": "@ + g,
                                                        argument,
                                                        seq![g, f],
                                                        seq![
                                                            head + f,
                                                            f + ": ::core::future::Future<Output = "@ + ret + ">"@,
                                                        ],
                                                    ),
                                                ),
                                            }
                                        } else {
                                            Ok((name + ": "@ + g, argument, seq![g], seq![head + ret]))
                                        }
                                    },
                                }
                            },
                        },
                    }
                },
                _ => match type_text(p.ty, None) {
                    Err(e) => Err(e),
                    Ok(t) => Ok((name + ": "@ + t, argument, Seq::empty(), Seq::empty())),
                },
            }
        },
    }
}

/// Emits what wrapper parameter `index` contributes.
fn wrapper_piece(index: usize, p: &NativeWrapperParameter) -> (r: Result<WrapperPiece, String>)
    ensures
        match r {
            Ok(x) => wrapper_piece_text(index as nat, *p) == Ok::<
                (Seq<char>, Seq<char>, Seq<Seq<char>>, Seq<Seq<char>>),
                Seq<char>,
            >(piece_view(x)),
            Err(e) => wrapper_piece_text(index as nat, *p) == Err::<
                (Seq<char>, Seq<char>, Seq<Seq<char>>, Seq<Seq<char>>),
                Seq<char>,
            >(e@),
        },
{
    let number = crate::text::usize_decimal(index);
    let mut raw = String::from_str("__stainless_argument_");
    raw.append(number.as_str());
    let name = identifier(raw.as_str())?;
    let argument = match p.adaptation {
        ArgumentAdaptation::Identity => name.clone(),
        ArgumentAdaptation::StringRefToStr => around("(", name.clone(), ").as_str()"),
    };
    proof {
        assert(argument@ == adapted_argument_text(name@, p.adaptation));
    }
    match &p.ty {
        Type::Callback { is_async, kind, parameters, return_type, .. } => {
            if !matches!(p.adaptation, ArgumentAdaptation::Identity) {
                let mut text = String::from_str("generated callback parameter ");
                text.append(number.as_str());
                text.append(" has an unsupported adaptation");
                return Err(text);
            }
            assert(parameters@.skip(0) =~= parameters@);
            let ps = types_tokens_from(parameters, 0)?;
            let ret = type_tokens(return_type, None)?;
            if matches!(kind, CallbackKind::FunctionPointer) {
                let mut declaration = name.clone();
                declaration.append(": ");
                declaration.append("fn(");
                declaration.append(ps.as_str());
                declaration.append(") -> ");
                declaration.append(ret.as_str());
                let piece = WrapperPiece { declaration, argument, generics: Vec::new(), bounds: Vec::new() };
                proof {
                    assert(piece.generics@.map_values(|s: String| s@) =~= Seq::<Seq<char>>::empty());
                    assert(piece.bounds@.map_values(|s: String| s@) =~= Seq::<Seq<char>>::empty());
                    assert(piece.declaration@ =~= name@ + ": "@ + "fn("@ + ps@ + ") -> "@ + ret@);
                }
                return Ok(piece);
            }
            let mut raw_generic = String::from_str("__StainlessCallback");
            raw_generic.append(number.as_str());
            let g = identifier(raw_generic.as_str())?;
            let trait_path = match kind {
                CallbackKind::Fn => "::core::ops::Fn",
                CallbackKind::FnMut => "::core::ops::FnMut",
                _ => "::core::ops::FnOnce",
            };
            let mut head = g.clone();
            head.append(": ");
            head.append(trait_path);
            head.append("(");
            head.append(ps.as_str());
            head.append(") -> ");
            proof {
                assert(head@ =~= g@ + ": "@ + callback_trait_text(*kind) + "("@ + ps@ + ") -> "@);
            }
            let mut declaration = name.clone();
            declaration.append(": ");
            declaration.append(g.as_str());
            let mut generics: Vec<String> = Vec::new();
            let mut bounds: Vec<String> = Vec::new();
            if *is_async {
                let mut raw_future = String::from_str("__StainlessFuture");
                raw_future.append(number.as_str());
                let f = identifier(raw_future.as_str())?;
                let mut first = head.clone();
                first.append(f.as_str());
                let mut second = f.clone();
                second.append(": ::core::future::Future<Output = ");
                second.append(ret.as_str());
                second.append(">");
                generics.push(g.clone());
                generics.push(f);
                bounds.push(first);
                bounds.push(second);
            } else {
                let mut only = head.clone();
                only.append(ret.as_str());
                generics.push(g.clone());
                bounds.push(only);
            }
            let piece = WrapperPiece { declaration, argument, generics, bounds };
            proof {
                assert(piece.declaration@ =~= name@ + ": "@ + g@);
                if *is_async {
                    assert(piece.generics@.map_values(|s: String| s@) =~= seq![g@, piece.generics@[1]@]);
                    assert(piece.bounds@.map_values(|s: String| s@) =~= seq![
                        head@ + piece.generics@[1]@,
                        piece.generics@[1]@ + ": ::core::future::Future<Output = "@ + ret@ + ">"@,
                    ]);
                } else {
                    assert(piece.generics@.map_values(|s: String| s@) =~= seq![g@]);
                    assert(piece.bounds@.map_values(|s: String| s@) =~= seq![head@ + ret@]);
                }
            }
            Ok(piece)
        },
        _ => {
            let t = type_tokens(&p.ty, None)?;
            let mut declaration = name.clone();
            declaration.append(": ");
            declaration.append(t.as_str());
            let piece = WrapperPiece { declaration, argument, generics: Vec::new(), bounds: Vec::new() };
            proof {
                assert(piece.generics@.map_values(|s: String| s@) =~= Seq::<Seq<char>>::empty());
                assert(piece.bounds@.map_values(|s: String| s@) =~= Seq::<Seq<char>>::empty());
                assert(piece.declaration@ =~= name@ + ": "@ + t@);
            }
            Ok(piece)
        },
    }
}

} // verus!

verus! {

/// The characters of each string.
pub open spec fn views(s: Seq<String>) -> Seq<Seq<char>> {
    s.map_values(|x: String| x@)
}

/// What the first `n` wrapper parameters contribute, piece by piece: their
/// declarations and arguments in order, and all generic parameters and
/// bounds they add; the first error otherwise.
pub open spec fn wrapper_pieces_text(ps: Seq<NativeWrapperParameter>, n: nat) -> Result<
    (Seq<Seq<char>>, Seq<Seq<char>>, Seq<Seq<char>>, Seq<Seq<char>>),
    Seq<char>,
>
    decreases n,
{
    if n == 0 {
        Ok((Seq::empty(), Seq::empty(), Seq::empty(), Seq::empty()))
    } else {
        match wrapper_pieces_text(ps, (n - 1) as nat) {
            Err(e) => Err(e),
            Ok(acc) => match wrapper_piece_text((n - 1) as nat, ps[n - 1]) {
                Err(e) => Err(e),
                Ok(x) => Ok((acc.0.push(x.0), acc.1.push(x.1), acc.2 + x.2, acc.3 + x.3)),
            },
        }
    }
}

/// Once a prefix fails, every longer prefix fails the same way.
proof fn lemma_wrapper_pieces_fail(ps: Seq<NativeWrapperParameter>, n: nat, m: nat)
    requires
        n <= m,
        wrapper_pieces_text(ps, n) is Err,
    ensures
        wrapper_pieces_text(ps, m) == wrapper_pieces_text(ps, n),
    decreases m - n,
{
    if m > n {
        lemma_wrapper_pieces_fail(ps, n, (m - 1) as nat);
    }
}

/// The receiver parameter of a method wrapper, if it has one.
pub open spec fn receiver_declaration_text(name: Seq<char>, receiver: Option<NativeWrapperReceiver>) -> Result<
    Seq<Seq<char>>,
    Seq<char>,
> {
    match receiver {
        None => Ok(Seq::empty()),
        Some(x) => match type_text(x.ty, None) {
            Err(e) => Err(e),
            Ok(t) => Ok(
                seq![
                    name + ": "@ + match x.mode {
                        Receiver::Shared => "&"@,
                        Receiver::Mutable => "&mut "@,
                        Receiver::Value => Seq::empty(),
                    } + t,
                ],
            ),
        },
    }
}

/// The wrapped call, with the arguments `arguments`: of the target path, or
/// of the target method on the receiver, which a method wrapper must have.
pub open spec fn wrapped_call_text(w: NativeWrapper, receiver: Seq<char>, arguments: Seq<char>) -> Result<
    Seq<char>,
    Seq<char>,
> {
    match w.target {
        WrapperTarget::Function { rust_path } => match path_text(rust_path@) {
            Err(e) => Err(e),
            Ok(t) => Ok(t + "("@ + arguments + ")"@),
        },
        WrapperTarget::Method { rust_name } => if w.receiver is None {
            Err("generated method wrapper `"@ + w.rust_name@ + "` has no receiver"@)
        } else {
            match identifier_text(rust_name@) {
                Err(e) => Err(e),
                Ok(m) => Ok("("@ + receiver + ")."@ + m + "("@ + arguments + ")"@),
            }
        },
    }
}

/// The call awaited when the target is async, then converted when the
/// return asks for it.
pub open spec fn finished_call_text(w: NativeWrapper, call: Seq<char>) -> Seq<char> {
    let awaited = if w.is_async {
        "("@ + call + ").await"@
    } else {
        call
    };
    match w.return_adaptation {
        ReturnAdaptation::Identity => awaited,
        ReturnAdaptation::Into => "("@ + awaited + ").into()"@,
    }
}

/// The Rust text of a generated native wrapper, or why it cannot be
/// emitted, checked in this order: its name, the receiver, each parameter,
/// the return type and the call.
pub open spec fn native_wrapper_text(w: NativeWrapper) -> Result<Seq<char>, Seq<char>> {
    match identifier_text(w.rust_name@) {
        Err(e) => Err(e),
        Ok(name) => match identifier_text("__stainless_receiver"@) {
            Err(e) => Err(e),
            Ok(rn) => match receiver_declaration_text(rn, w.receiver) {
                Err(e) => Err(e),
                Ok(rdecl) => match wrapper_pieces_text(w.parameters@, w.parameters@.len()) {
                    Err(e) => Err(e),
                    Ok(pieces) => match type_text(w.return_type, None) {
                        Err(e) => Err(e),
                        Ok(ret) => match wrapped_call_text(w, rn, join_chars(pieces.1, ", "@)) {
                            Err(e) => Err(e),
                            Ok(call) => Ok(
                                "#[allow(deprecated, non_snake_case)]\npub(crate) "@ + (if w.is_async {
                                    "async "@
                                } else {
                                    Seq::empty()
                                }) + "fn "@ + name + (if pieces.2.len() == 0 {
                                    Seq::empty()
                                } else {
                                    "<"@ + join_chars(pieces.2, ", "@) + ">"@
                                }) + "("@ + join_chars(rdecl + pieces.0, ", "@) + ") -> "@ + ret + (if pieces.3.len()
                                    == 0 {
                                    Seq::empty()
                                } else {
                                    " where "@ + join_chars(pieces.3, ", "@)
                                }) + " {\n    "@ + finished_call_text(w, call) + "\n}\n"@,
                            ),
                        },
                    },
                },
            },
        },
    }
}

/// Joins strings with `, `, by characters.
fn comma_joined(parts: &Vec<String>) -> (r: String)
    ensures
        r@ == join_chars(views(parts@), ", "@),
{
    let r = crate::text::join_strings(parts, ", ");
    proof {
        crate::text::lemma_join_views(parts@, ", "@);
    }
    r
}

/// Emits what the wrapper parameters contribute: their declarations are
/// appended to `declarations`; their arguments, generic parameters and
/// bounds are returned.
fn wrapper_pieces(ps: &Vec<NativeWrapperParameter>, declarations: &mut Vec<String>) -> (r: Result<
    (Vec<String>, Vec<String>, Vec<String>),
    String,
>)
    ensures
        match wrapper_pieces_text(ps@, ps@.len()) {
            Ok(acc) => r matches Ok(x) && views(final(declarations)@) == views(old(declarations)@) + acc.0
                && views(x.0@) == acc.1 && views(x.1@) == acc.2 && views(x.2@) == acc.3,
            Err(e) => r matches Err(m) && m@ == e,
        },
{
    let ghost rdecl = views(declarations@);
    let mut arguments: Vec<String> = Vec::new();
    let mut generics: Vec<String> = Vec::new();
    let mut bounds: Vec<String> = Vec::new();
    let mut i: usize = 0;
    proof {
        assert(views(arguments@) =~= Seq::<Seq<char>>::empty());
        assert(views(generics@) =~= Seq::<Seq<char>>::empty());
        assert(views(bounds@) =~= Seq::<Seq<char>>::empty());
        assert(views(declarations@) =~= rdecl + Seq::<Seq<char>>::empty());
    }
    while i < ps.len()
        invariant
            i <= ps@.len(),
            rdecl == views(old(declarations)@),
            wrapper_pieces_text(ps@, i as nat) matches Ok(acc) && views(declarations@) == rdecl + acc.0
                && views(arguments@) == acc.1 && views(generics@) == acc.2 && views(bounds@) == acc.3,
        decreases ps@.len() - i,
    {
        let piece = match wrapper_piece(i, &ps[i]) {
            Ok(piece) => piece,
            Err(e) => {
                proof {
                    lemma_wrapper_pieces_fail(ps@, (i + 1) as nat, ps@.len());
                }
                return Err(e);
            },
        };
        let ghost before = (views(declarations@), views(arguments@), views(generics@), views(bounds@));
        let WrapperPiece { declaration, argument, generics: mut more_generics, bounds: mut more_bounds } = piece;
        let ghost g0 = views(more_generics@);
        let ghost b0 = views(more_bounds@);
        let ghost old_generics = generics@;
        let ghost old_bounds = bounds@;
        let ghost piece_generics = more_generics@;
        let ghost piece_bounds = more_bounds@;
        declarations.push(declaration);
        arguments.push(argument);
        generics.append(&mut more_generics);
        bounds.append(&mut more_bounds);
        proof {
            assert(views(declarations@) =~= before.0.push(declarations@.last()@));
            assert(views(arguments@) =~= before.1.push(arguments@.last()@));
            assert(generics@ == old_generics + piece_generics);
            assert(views(generics@) =~= before.2 + g0);
            assert(views(bounds@) =~= before.3 + b0);
            let acc = wrapper_pieces_text(ps@, i as nat)->Ok_0;
            assert((rdecl + acc.0).push(declarations@.last()@) =~= rdecl + acc.0.push(declarations@.last()@));
        }
        i = i + 1;
    }
    Ok((arguments, generics, bounds))
}

/// Emits a generated native wrapper: a crate-private function that adapts
/// its arguments, calls the external Rust item, awaits and converts.
#[verifier::rlimit(40)]
pub fn native_wrapper(w: &NativeWrapper) -> (r: Result<String, String>)
    ensures
        match r {
            Ok(t) => native_wrapper_text(*w) == Ok::<Seq<char>, Seq<char>>(t@),
            Err(e) => native_wrapper_text(*w) == Err::<Seq<char>, Seq<char>>(e@),
        },
{
    let name = identifier(w.rust_name.as_str())?;
    let rn = identifier("__stainless_receiver")?;
    let mut declarations: Vec<String> = Vec::new();
    match &w.receiver {
        Some(x) => {
            let t = type_tokens(&x.ty, None)?;
            let mut d = rn.clone();
            d.append(": ");
            match x.mode {
                Receiver::Shared => d.append("&"),
                Receiver::Mutable => d.append("&mut "),
                Receiver::Value => {},
            }
            d.append(t.as_str());
            proof {
                let m: Seq<char> = match x.mode {
                    Receiver::Shared => "&"@,
                    Receiver::Mutable => "&mut "@,
                    Receiver::Value => Seq::empty(),
                };
                assert(d@ =~= rn@ + ": "@ + m + t@);
            }
            declarations.push(d);
        },
        None => {},
    }
    let ghost rdecl = views(declarations@);
    proof {
        assert(receiver_declaration_text(rn@, w.receiver) == Ok::<Seq<Seq<char>>, Seq<char>>(rdecl)) by {
            if w.receiver is Some {
                assert(rdecl =~= seq![declarations@[0]@]);
            } else {
                assert(rdecl =~= Seq::<Seq<char>>::empty());
            }
        }
    }
    let (arguments, generics, bounds) = wrapper_pieces(&w.parameters, &mut declarations)?;
    let ret = type_tokens(&w.return_type, None)?;
    let args = comma_joined(&arguments);
    let call = match &w.target {
        WrapperTarget::Function { rust_path } => {
            let t = path(rust_path.as_str())?;
            let mut c = t;
            c.append("(");
            c.append(args.as_str());
            c.append(")");
            c
        },
        WrapperTarget::Method { rust_name } => {
            if w.receiver.is_none() {
                let mut text = String::from_str("generated method wrapper `");
                text.append(w.rust_name.as_str());
                text.append("` has no receiver");
                return Err(text);
            }
            let m = identifier(rust_name.as_str())?;
            let mut c = around("(", rn.clone(), ").");
            c.append(m.as_str());
            c.append("(");
            c.append(args.as_str());
            c.append(")");
            c
        },
    };
    let ghost call_view = call@;
    let awaited = if w.is_async {
        around("(", call, ").await")
    } else {
        call
    };
    let finished = match w.return_adaptation {
        ReturnAdaptation::Identity => awaited,
        ReturnAdaptation::Into => around("(", awaited, ").into()"),
    };
    proof {
        assert(finished@ == finished_call_text(*w, call_view));
    }
    let declared = comma_joined(&declarations);
    let mut text = String::from_str("#[allow(deprecated, non_snake_case)]\npub(crate) ");
    if w.is_async {
        text.append("async ");
    }
    text.append("fn ");
    text.append(name.as_str());
    if generics.len() != 0 {
        let g = comma_joined(&generics);
        text.append("<");
        text.append(g.as_str());
        text.append(">");
    }
    text.append("(");
    text.append(declared.as_str());
    text.append(") -> ");
    text.append(ret.as_str());
    if bounds.len() != 0 {
        let b = comma_joined(&bounds);
        text.append(" where ");
        text.append(b.as_str());
    }
    text.append(" {\n    ");
    text.append(finished.as_str());
    text.append("\n}\n");
    proof {
        let acc = wrapper_pieces_text(w.parameters@, w.parameters@.len())->Ok_0;
        assert(acc.2.len() == generics@.len());
        assert(acc.3.len() == bounds@.len());
        let expected = "#[allow(deprecated, non_snake_case)]\npub(crate) "@ + (if w.is_async {
            "async "@
        } else {
            Seq::empty()
        }) + "fn "@ + name@ + (if acc.2.len() == 0 {
            Seq::empty()
        } else {
            "<"@ + join_chars(acc.2, ", "@) + ">"@
        }) + "("@ + join_chars(rdecl + acc.0, ", "@) + ") -> "@ + ret@ + (if acc.3.len() == 0 {
            Seq::empty()
        } else {
            " where "@ + join_chars(acc.3, ", "@)
        }) + " {\n    "@ + finished@ + "\n}\n"@;
        assert(text@ =~= expected);
    }
    Ok(text)
}

} // verus!

verus! {

/// The name of the generated temporary numbered `index` for `purpose`.
pub open spec fn temporary_name(purpose: Seq<char>, index: nat) -> Seq<char> {
    "__stainless_"@ + purpose + "_"@ + crate::text::decimal(index)
}

/// Takes the next temporary number and names a temporary for `purpose`.
pub fn temporary(temporary_index: &mut usize, purpose: &str) -> (r: Result<String, String>)
    requires
        *old(temporary_index) < usize::MAX,
    ensures
        *final(temporary_index) == *old(temporary_index) + 1,
        match r {
            Ok(t) => identifier_text(temporary_name(purpose@, *old(temporary_index) as nat)) == Ok::<
                Seq<char>,
                Seq<char>,
            >(t@),
            Err(e) => identifier_text(temporary_name(purpose@, *old(temporary_index) as nat)) == Err::<
                Seq<char>,
                Seq<char>,
            >(e@),
        },
{
    let index = *temporary_index;
    *temporary_index = index + 1;
    let mut name = String::from_str("__stainless_");
    name.append(purpose);
    name.append("_");
    let digits = crate::text::usize_decimal(index);
    name.append(digits.as_str());
    identifier(name.as_str())
}

/// The Rust spelling of a compiler-native exception kind.
pub open spec fn native_exception_text(kind: crate::hir::NativeExceptionKind) -> Seq<char> {
    match kind {
        crate::hir::NativeExceptionKind::RustError => "RustError"@,
        crate::hir::NativeExceptionKind::IoError => "IoError"@,
        crate::hir::NativeExceptionKind::FormatError => "FormatError"@,
        crate::hir::NativeExceptionKind::JsonError => "JsonError"@,
    }
}

/// The Rust expression that turns the native error `error` into a message.
pub open spec fn error_message_text(message: crate::hir::RustErrorMessage, error: Seq<char>) -> Seq<char> {
    match message {
        crate::hir::RustErrorMessage::Display => "::std::string::ToString::to_string(&"@ + error + ")"@,
        crate::hir::RustErrorMessage::Debug => "::std::format!(\"{:?}\", &"@ + error + ")"@,
        crate::hir::RustErrorMessage::Fallback => "{ ::std::mem::drop("@ + error
            + "); ::std::string::String::from(\"native Rust operation failed\") }"@,
    }
}

/// The boxed checked exception of kind `kind` carrying `message`.
pub open spec fn converted_error_text(kind: crate::hir::NativeExceptionKind, message: Seq<char>) -> Seq<char> {
    "Box::new(crate::__stainless_namespace_stainless::"@ + native_exception_text(kind)
        + " { __stainless_base_Exception: crate::__stainless_namespace_stainless::Exception { message: "@
        + message + ", }, }) as crate::__StainlessExceptionBox"@
}

/// The Rust text that unwraps the native `Result` spelled `expression`,
/// turning its error into a checked exception sent to `target`, with the
/// temporaries numbered from `index`.
pub open spec fn unwrapped_result_text(
    expression: Seq<char>,
    exception: crate::hir::NativeExceptionKind,
    message: crate::hir::RustErrorMessage,
    target: ExceptionTarget,
    index: nat,
) -> Result<Seq<char>, Seq<char>> {
    match identifier_text(temporary_name("native_error"@, index)) {
        Err(e) => Err(e),
        Ok(error) => match identifier_text(temporary_name("native_error_message"@, index + 1)) {
            Err(e) => Err(e),
            Ok(name) => Ok(
                "match "@ + expression + " { Ok(value) => value, Err("@ + error + ") => { let "@ + name
                    + ": ::std::string::String = "@ + error_message_text(message, error) + "; "@
                    + propagation_text(target, converted_error_text(exception, name)) + " } }"@,
            ),
        },
    }
}

/// Emits the unwrapping of a native Rust `Result` whose expression was
/// emitted as `expression`: its error becomes a compiler-native checked
/// exception sent to `target`.
pub fn unwrap_rust_result(
    temporary_index: &mut usize,
    expression: &str,
    exception: crate::hir::NativeExceptionKind,
    error_message: crate::hir::RustErrorMessage,
    target: &ExceptionTarget,
) -> (r: Result<String, String>)
    requires
        *old(temporary_index) < usize::MAX - 1,
    ensures
        r is Ok ==> *final(temporary_index) == *old(temporary_index) + 2,
        match r {
            Ok(t) => unwrapped_result_text(expression@, exception, error_message, *target, *old(temporary_index) as nat)
                == Ok::<Seq<char>, Seq<char>>(t@),
            Err(e) => unwrapped_result_text(expression@, exception, error_message, *target, *old(temporary_index) as nat)
                == Err::<Seq<char>, Seq<char>>(e@),
        },
{
    let error = match temporary(temporary_index, "native_error") {
        Ok(name) => name,
        Err(e) => return Err(e),
    };
    let message = match temporary(temporary_index, "native_error_message") {
        Ok(name) => name,
        Err(e) => return Err(e),
    };
    let mut message_value = String::new();
    match error_message {
        crate::hir::RustErrorMessage::Display => {
            message_value.append("::std::string::ToString::to_string(&");
            message_value.append(error.as_str());
            message_value.append(")");
        },
        crate::hir::RustErrorMessage::Debug => {
            message_value.append("::std::format!(\"{:?}\", &");
            message_value.append(error.as_str());
            message_value.append(")");
        },
        crate::hir::RustErrorMessage::Fallback => {
            message_value.append("{ ::std::mem::drop(");
            message_value.append(error.as_str());
            message_value.append("); ::std::string::String::from(\"native Rust operation failed\") }");
        },
    }
    let kind = match exception {
        crate::hir::NativeExceptionKind::RustError => "RustError",
        crate::hir::NativeExceptionKind::IoError => "IoError",
        crate::hir::NativeExceptionKind::FormatError => "FormatError",
        crate::hir::NativeExceptionKind::JsonError => "JsonError",
    };
    let mut converted = String::from_str("Box::new(crate::__stainless_namespace_stainless::");
    converted.append(kind);
    converted.append(" { __stainless_base_Exception: crate::__stainless_namespace_stainless::Exception { message: ");
    converted.append(message.as_str());
    converted.append(", }, }) as crate::__StainlessExceptionBox");
    proof {
        assert(message_value@ =~= error_message_text(error_message, error@));
        assert(converted@ =~= converted_error_text(exception, message@));
    }
    let propagation = exception_propagation(target, converted.as_str());
    let mut text = String::from_str("match ");
    text.append(expression);
    text.append(" { Ok(value) => value, Err(");
    text.append(error.as_str());
    text.append(") => { let ");
    text.append(message.as_str());
    text.append(": ::std::string::String = ");
    text.append(message_value.as_str());
    text.append("; ");
    text.append(propagation.as_str());
    text.append(" } }");
    Ok(text)
}

} // verus!

verus! {

/// The pointer type of kind `kind` to `target`.
pub open spec fn pointer_to(kind: crate::interop::model::PointerKind, target: Type) -> Type {
    Type::Pointer { kind, target: Box::new(target) }
}

/// Law: the nullable form of an owner is `Option` of its non-null form, an
/// atomic slot is a lock around the shared owner (nullable or not) it
/// holds, and pointers of different kinds to one type are spelled
/// differently.
pub proof fn lemma_pointer_texts(
    target: Type,
    lifetime: Option<Seq<char>>,
    k1: crate::interop::model::PointerKind,
    k2: crate::interop::model::PointerKind,
)
    ensures
        type_text(pointer_to(crate::interop::model::PointerKind::UniqueNullable, target), lifetime) == wrapped(
            "::core::option::Option"@,
            type_text(pointer_to(crate::interop::model::PointerKind::Unique, target), lifetime),
        ),
        type_text(pointer_to(crate::interop::model::PointerKind::SharedNullable, target), lifetime) == wrapped(
            "::core::option::Option"@,
            type_text(pointer_to(crate::interop::model::PointerKind::Shared, target), lifetime),
        ),
        type_text(pointer_to(crate::interop::model::PointerKind::Atomic, target), lifetime) == wrapped(
            "::std::sync::RwLock"@,
            type_text(pointer_to(crate::interop::model::PointerKind::Shared, target), lifetime),
        ),
        type_text(pointer_to(crate::interop::model::PointerKind::AtomicNullable, target), lifetime) == wrapped(
            "::std::sync::RwLock"@,
            type_text(pointer_to(crate::interop::model::PointerKind::SharedNullable, target), lifetime),
        ),
        k1 != k2 && type_text(target, None) is Ok ==> type_text(pointer_to(k1, target), lifetime) != type_text(
            pointer_to(k2, target),
            lifetime,
        ),
{
    reveal_strlit("::std::boxed::Box<");
    reveal_strlit("::core::option::Option<::std::boxed::Box<");
    reveal_strlit("::std::sync::Arc<");
    reveal_strlit("::core::option::Option<::std::sync::Arc<");
    reveal_strlit("::std::sync::Weak<");
    reveal_strlit("::std::sync::RwLock<::std::sync::Arc<");
    reveal_strlit("::std::sync::RwLock<::core::option::Option<::std::sync::Arc<");
    reveal_strlit(">");
    reveal_strlit(">>");
    reveal_strlit(">>>");
    reveal_strlit("<");
    reveal_strlit("::core::option::Option");
    reveal_strlit("::std::sync::RwLock");
    if let Ok(t) = type_text(target, None) {
        assert("::core::option::Option<::std::boxed::Box<"@ + t + ">>"@ =~= "::core::option::Option"@ + "<"@ + (
        "::std::boxed::Box<"@ + t + ">"@) + ">"@);
        assert("::core::option::Option<::std::sync::Arc<"@ + t + ">>"@ =~= "::core::option::Option"@ + "<"@ + (
        "::std::sync::Arc<"@ + t + ">"@) + ">"@);
        assert("::std::sync::RwLock<::std::sync::Arc<"@ + t + ">>"@ =~= "::std::sync::RwLock"@ + "<"@ + (
        "::std::sync::Arc<"@ + t + ">"@) + ">"@);
        assert("::std::sync::RwLock<::core::option::Option<::std::sync::Arc<"@ + t + ">>>"@ =~= "::std::sync::RwLock"@
            + "<"@ + ("::core::option::Option<::std::sync::Arc<"@ + t + ">>"@) + ">"@);
        let unique = "::std::boxed::Box<"@ + t + ">"@;
        let weak = "::std::sync::Weak<"@ + t + ">"@;
        assert(unique[7] != weak[7]);
    }
}

} // verus!

use stainless_compiler::codegen::{json_cast_method, program_has_exceptions, type_tokens};
use stainless_compiler::interop::model::{CallbackEscape, CallbackKind, PointerKind, StoredFunctionKind};
use stainless_compiler::hir::{Module, Program, Struct, Type};

fn structure(is_exception: bool) -> Struct {
    Struct {
        source_path: vec!["Failure".to_string()],
        rust_name: "Failure".to_string(),
        type_parameters: vec![],
        const_parameters: vec![],
        copyable: false,
        fields: vec![],
        static_constants: vec![],
        json_fields: None,
        is_exception,
        exception_base_field: None,
        interface_implementations: vec![],
    }
}

fn module(structs: Vec<Struct>, modules: Vec<Module>) -> Module {
    Module {
        source_name: "errors".to_string(),
        rust_name: "__stainless_namespace_errors".to_string(),
        interfaces: vec![],
        structs,
        functions: vec![],
        modules,
    }
}

fn program(structs: Vec<Struct>, modules: Vec<Module>) -> Program {
    Program {
        native_wrappers: vec![],
        interfaces: vec![],
        structs,
        functions: vec![],
        modules,
    }
}

#[test]
fn finds_exception_structs_at_any_depth() {
    assert!(!program_has_exceptions(&program(vec![structure(false)], vec![])));
    assert!(program_has_exceptions(&program(vec![structure(true)], vec![])));
    let nested = module(vec![], vec![module(vec![structure(false), structure(true)], vec![])]);
    assert!(program_has_exceptions(&program(vec![], vec![nested])));
    let plain = module(vec![structure(false)], vec![module(vec![], vec![])]);
    assert!(!program_has_exceptions(&program(vec![], vec![plain])));
}

#[test]
fn selects_json_cast_methods() {
    assert_eq!(json_cast_method(&Type::Primitive("bool")), Ok("to_bool"));
    assert_eq!(json_cast_method(&Type::Primitive("u128")), Ok("to_u128"));
    assert_eq!(json_cast_method(&Type::Primitive("f64")), Ok("to_f64"));
    assert_eq!(
        json_cast_method(&Type::Native {
            rust_path: "::std::string::String".to_string(),
            arguments: vec![],
        }),
        Ok("to_string_value")
    );
    assert_eq!(
        json_cast_method(&Type::Primitive("char")),
        Err("unsupported JSON scalar conversion reached code generation".to_string())
    );
    assert_eq!(
        json_cast_method(&Type::Unit),
        Err("unsupported JSON scalar conversion reached code generation".to_string())
    );
}

fn native(path: &str, arguments: Vec<Type>) -> Type {
    Type::Native {
        rust_path: path.to_string(),
        arguments,
    }
}

#[test]
fn native_types_are_emitted_with_their_arguments() {
    let ty = native("::std::vec::Vec", vec![Type::Primitive("i32")]);
    assert_eq!(type_tokens(&ty, None).unwrap(), "::std::vec::Vec<i32>");
    let map = native(
        "::std::collections::BTreeMap",
        vec![Type::Primitive("u8"), Type::Tuple(vec![Type::Unit, Type::ConstUsize(42)])],
    );
    assert_eq!(
        type_tokens(&map, None).unwrap(),
        "::std::collections::BTreeMap<u8, ((), 42)>"
    );
}

#[test]
fn owners_and_stored_functions_are_emitted_as_runtime_types() {
    let owner = Type::Pointer {
        kind: PointerKind::SharedNullable,
        target: Box::new(Type::Primitive("i64")),
    };
    assert_eq!(
        type_tokens(&owner, None).unwrap(),
        "::core::option::Option<::std::sync::Arc<i64>>"
    );
    let function = Type::Function {
        kind: StoredFunctionKind::Mutable,
        parameters: vec![Type::Primitive("i32"), Type::Primitive("bool")],
        return_type: Box::new(Type::Unit),
    };
    assert_eq!(
        type_tokens(&function, None).unwrap(),
        "::std::boxed::Box<dyn ::core::ops::FnMut(i32, bool) -> () + 'static>"
    );
}

#[test]
fn a_reference_to_an_interface_is_parenthesized_and_carries_the_lifetime() {
    let reference = Type::Reference {
        mutable: true,
        target: Box::new(Type::Interface {
            rust_path: "crate::Shape".to_string(),
            arguments: vec![],
        }),
    };
    assert_eq!(
        type_tokens(&reference, Some("'a")).unwrap(),
        "&'a mut (dyn crate::Shape + ::core::marker::Send + ::core::marker::Sync)"
    );
}

#[test]
fn callbacks_and_invalid_names_are_refused() {
    let callback = Type::Callback {
        is_async: false,
        kind: CallbackKind::Fn,
        escape: CallbackEscape::Call,
        parameters: vec![],
        return_type: Box::new(Type::Unit),
    };
    assert_eq!(
        type_tokens(&callback, None).unwrap_err(),
        "callback type escaped its generated-wrapper parameter boundary"
    );
    let invalid = Type::Parameter("fn".to_string());
    assert!(type_tokens(&invalid, None)
        .unwrap_err()
        .starts_with("invalid generated identifier `fn`: "));
    let bad_path = native("::std::vec::", vec![]);
    assert!(type_tokens(&bad_path, None)
        .unwrap_err()
        .starts_with("invalid generated path `::std::vec::`: "));
}

use stainless_compiler::ast::BinaryOperator;
use stainless_compiler::codegen::{
    binary_operator, checked_index, exception_propagation, generic_parameter_declarations,
    parameter_tokens, rust_label,
};
use stainless_compiler::hir::{ExceptionTarget, Parameter};

#[test]
fn binary_operators_emit_their_rust_tokens() {
    assert_eq!(binary_operator(BinaryOperator::AddAssign), "+=");
    assert_eq!(binary_operator(BinaryOperator::LogicalAnd), "&&");
    assert_eq!(binary_operator(BinaryOperator::GreaterEqual), ">=");
    assert_eq!(binary_operator(BinaryOperator::Remainder), "%");
}

#[test]
fn exceptions_propagate_to_their_targets() {
    assert_eq!(rust_label("try_0"), "'try_0");
    assert_eq!(exception_propagation(&ExceptionTarget::Function, "error"), "return Err(error);");
    assert_eq!(
        exception_propagation(&ExceptionTarget::Try("try_0".to_string()), "error"),
        "break 'try_0 Err(error);"
    );
    assert_eq!(
        exception_propagation(&ExceptionTarget::Unreachable, "error"),
        "unreachable!(\"statically exhaustive Stainless catch set missed an exception\");"
    );
}

#[test]
fn indexes_are_converted_to_usize() {
    assert_eq!(
        checked_index("i"),
        "<usize as ::core::convert::TryFrom<_>>::try_from(i).expect(\"Stainless index does not fit usize\")"
    );
}

#[test]
fn parameters_emit_mutability_name_and_type() {
    let parameter = Parameter {
        source_name: "count".to_string(),
        rust_name: "__stainless_local_count".to_string(),
        ty: Type::Primitive("i32"),
        mutable: true,
    };
    assert_eq!(parameter_tokens(&parameter, None).unwrap(), "mut __stainless_local_count: i32");
    let borrowed = Parameter {
        source_name: "text".to_string(),
        rust_name: "text".to_string(),
        ty: Type::Reference { mutable: false, target: Box::new(Type::Primitive("str")) },
        mutable: false,
    };
    assert_eq!(parameter_tokens(&borrowed, Some("'a")).unwrap(), "text: &'a str");
    let invalid = Parameter {
        source_name: "x".to_string(),
        rust_name: "not valid".to_string(),
        ty: Type::Unit,
        mutable: false,
    };
    assert!(parameter_tokens(&invalid, None).unwrap_err().starts_with("invalid generated identifier `not valid`"));
}

#[test]
fn generic_parameters_are_declared_by_kind() {
    let parameters = vec!["T".to_string(), "N".to_string()];
    let consts = vec!["N".to_string()];
    assert_eq!(
        generic_parameter_declarations(&parameters, &consts, false).unwrap(),
        vec!["T".to_string(), "const N: usize".to_string()]
    );
    assert_eq!(
        generic_parameter_declarations(&parameters, &consts, true).unwrap(),
        vec!["T: 'static".to_string(), "const N: usize".to_string()]
    );
    let invalid = vec!["T".to_string(), "9x".to_string()];
    assert!(generic_parameter_declarations(&invalid, &consts, false)
        .unwrap_err()
        .starts_with("invalid generated identifier `9x`"));
}

use stainless_compiler::codegen::{function_signature, interface_method_signature, structure_fields};
use stainless_compiler::hir::{Block, Field, Function, InterfaceMethod};

fn parameter(name: &str, ty: Type) -> Parameter {
    Parameter {
        source_name: name.to_string(),
        rust_name: name.to_string(),
        ty,
        mutable: false,
    }
}

fn reference(target: Type) -> Type {
    Type::Reference { mutable: false, target: Box::new(target) }
}

fn generated_function(parameters: Vec<Parameter>, return_type: Type) -> Function {
    Function {
        source_path: vec!["text".to_string(), "pick".to_string()],
        module_names: vec![],
        rust_name: "pick".to_string(),
        type_parameters: vec![],
        const_parameters: vec![],
        is_async: false,
        parameters,
        return_type,
        throws: false,
        body: Block { statements: vec![] },
        span: stainless_compiler::ast::Span { start: 0, end: 0 },
    }
}

#[test]
fn structure_fields_are_public_and_typed() {
    let fields = vec![
        Field { rust_name: "count".to_string(), ty: Type::Primitive("i32") },
        Field { rust_name: "unit".to_string(), ty: Type::Unit },
    ];
    assert_eq!(structure_fields(&fields).unwrap(), vec!["pub count: i32".to_string(), "pub unit: ()".to_string()]);
    let invalid = vec![Field { rust_name: "bad name".to_string(), ty: Type::Unit }];
    assert!(structure_fields(&invalid).unwrap_err().starts_with("invalid generated identifier `bad name`"));
}

#[test]
fn interface_methods_take_their_receiver_first() {
    let method = InterfaceMethod {
        rust_name: "area".to_string(),
        mutable: false,
        parameters: vec![],
        return_type: Type::Primitive("f64"),
        throws: false,
    };
    assert_eq!(interface_method_signature(&method, true).unwrap(), "fn area(&self) -> f64;");
    let throwing = InterfaceMethod {
        rust_name: "scale".to_string(),
        mutable: true,
        parameters: vec![parameter("factor", Type::Primitive("i32"))],
        return_type: Type::Unit,
        throws: true,
    };
    assert_eq!(
        interface_method_signature(&throwing, false).unwrap(),
        "fn scale(&mut self, factor: i32) -> ::std::result::Result<(), crate::__StainlessExceptionBox>"
    );
}

#[test]
fn function_signatures_name_a_lifetime_only_when_needed() {
    let one = generated_function(vec![parameter("a", reference(Type::Primitive("str")))], reference(Type::Primitive("str")));
    assert_eq!(function_signature(&one).unwrap(), "pub fn pick(a: &str) -> &str");
    let two = generated_function(
        vec![
            parameter("a", reference(Type::Primitive("str"))),
            parameter("b", reference(Type::Primitive("str"))),
        ],
        reference(Type::Primitive("str")),
    );
    assert_eq!(
        function_signature(&two).unwrap(),
        "pub fn pick<'__stainless_borrow>(a: &'__stainless_borrow str, b: &'__stainless_borrow str) -> &'__stainless_borrow str"
    );
    let mut generic = generated_function(vec![parameter("n", Type::Primitive("usize"))], Type::Unit);
    generic.type_parameters = vec!["T".to_string(), "N".to_string()];
    generic.const_parameters = vec!["N".to_string()];
    generic.is_async = true;
    assert_eq!(function_signature(&generic).unwrap(), "pub async fn pick<T: 'static, const N: usize>(n: usize)");
}

#[test]
fn a_reference_return_without_an_input_borrow_is_refused() {
    let none = generated_function(vec![parameter("n", Type::Primitive("i32"))], reference(Type::Primitive("i32")));
    assert_eq!(
        function_signature(&none).unwrap_err(),
        "reference-returning function `text::pick` has no input borrow"
    );
}

use stainless_compiler::codegen::{interface_implementation, interface_tokens};
use stainless_compiler::hir::{Interface, InterfaceImplementation, InterfaceImplementationMethod};

fn area_method() -> InterfaceMethod {
    InterfaceMethod {
        rust_name: "area".to_string(),
        mutable: false,
        parameters: vec![parameter("scale", Type::Primitive("i32"))],
        return_type: Type::Primitive("i64"),
        throws: false,
    }
}

#[test]
fn interfaces_emit_traits_with_their_supertraits() {
    let shape = Interface {
        source_path: vec!["Shape".to_string()],
        rust_name: "Shape".to_string(),
        bases: vec!["crate::Named".to_string(), "crate::Sized2".to_string()],
        methods: vec![area_method()],
    };
    assert_eq!(
        interface_tokens(&shape).unwrap(),
        "#[allow(non_snake_case)]\npub trait Shape: crate::Named + crate::Sized2 {\n    fn area(&self, scale: i32) -> i64;\n}\n"
    );
    let plain = Interface {
        source_path: vec!["Empty".to_string()],
        rust_name: "Empty".to_string(),
        bases: vec![],
        methods: vec![],
    };
    assert_eq!(interface_tokens(&plain).unwrap(), "#[allow(non_snake_case)]\npub trait Empty {\n}\n");
}

#[test]
fn implementations_delegate_to_free_functions() {
    let implementation = InterfaceImplementation {
        interface_path: "crate::Shape".to_string(),
        methods: vec![InterfaceImplementationMethod {
            method: area_method(),
            function_modules: vec!["__stainless_namespace_geometry".to_string()],
            function: "Square_area".to_string(),
            adapt_self_reference: false,
        }],
    };
    assert_eq!(
        interface_implementation("Square", &implementation).unwrap(),
        "impl crate::Shape for Square {\n    fn area(&self, scale: i32) -> i64 {\n        crate::__stainless_namespace_geometry::Square_area(self, scale)\n    }\n}\n"
    );
    let adapted = InterfaceImplementation {
        interface_path: "crate::Shape".to_string(),
        methods: vec![InterfaceImplementationMethod {
            method: area_method(),
            function_modules: vec![],
            function: "area".to_string(),
            adapt_self_reference: true,
        }],
    };
    assert_eq!(
        interface_implementation("Square", &adapted).unwrap(),
        "impl crate::Shape for Square {\n    fn area(&self, scale: i32) -> i64 {\n        (crate::area(self, scale)) as i64\n    }\n}\n"
    );
}

use stainless_compiler::codegen::{exception_impl, struct_json_conversion};
use stainless_compiler::hir::JsonStructField;

#[test]
fn json_conversions_name_the_type_and_convert_each_field() {
    let fields = vec![
        JsonStructField { name: "x".to_string(), access_path: vec!["x".to_string()] },
        JsonStructField {
            name: "id".to_string(),
            access_path: vec!["__stainless_base_Base".to_string(), "id".to_string()],
        },
    ];
    let path = vec!["geometry".to_string(), "Point".to_string()];
    let text = struct_json_conversion("Point", &path, &Some(fields)).unwrap();
    assert_eq!(
        text,
        "impl ::core::convert::From<Point> for ::stainless_runtime::Var {\n    fn from(__stainless_json_value: Point) -> Self {\n        ::stainless_runtime::Var::object([\n            (\"__type\", ::stainless_runtime::Var::from(\"geometry::Point\")),\n            (\"x\", ::stainless_runtime::Var::from((__stainless_json_value).x)),\n            (\"id\", ::stainless_runtime::Var::from(((__stainless_json_value).__stainless_base_Base).id)),\n        ])\n    }\n}\n"
    );
    assert_eq!(struct_json_conversion("Point", &path, &None).unwrap(), "");
}

#[test]
fn exception_structures_project_through_their_base() {
    let root = exception_impl("Failure", None).unwrap();
    assert!(root.starts_with("impl crate::__StainlessException for Failure {"));
    assert!(root.contains("        } else {\n            None\n        }"));
    assert!(root.contains("fn __stainless_message(&self) -> &str {\n        (&self.message).as_str()\n    }"));
    assert!(root.ends_with("impl ::std::error::Error for Failure {}\n"));
    let derived = exception_impl("IoFailure", Some("__stainless_base_Failure")).unwrap();
    assert!(derived.contains(
        "crate::__StainlessException::__stainless_project(&self.__stainless_base_Failure, target)"
    ));
    assert!(derived.contains("crate::__StainlessException::__stainless_message(&self.__stainless_base_Failure)"));
    assert!(exception_impl("Failure", Some("not valid")).is_err());
}

use stainless_compiler::codegen::native_wrapper;
use stainless_compiler::hir::{NativeWrapper, NativeWrapperParameter, NativeWrapperReceiver};
use stainless_compiler::interop::model::{ArgumentAdaptation, Receiver, ReturnAdaptation, WrapperTarget};

#[test]
fn native_wrappers_adapt_arguments_and_call_their_target() {
    let wrapper = NativeWrapper {
        rust_name: "__stainless_wrap_0".to_string(),
        target: WrapperTarget::Function { rust_path: "::demo::greet".to_string() },
        receiver: None,
        parameters: vec![
            NativeWrapperParameter {
                ty: reference(Type::Native { rust_path: "::std::string::String".to_string(), arguments: vec![] }),
                adaptation: ArgumentAdaptation::StringRefToStr,
            },
            NativeWrapperParameter { ty: Type::Primitive("u32"), adaptation: ArgumentAdaptation::Identity },
        ],
        is_async: false,
        return_adaptation: ReturnAdaptation::Into,
        return_type: Type::Primitive("i64"),
    };
    assert_eq!(
        native_wrapper(&wrapper).unwrap(),
        "#[allow(deprecated, non_snake_case)]\npub(crate) fn __stainless_wrap_0(__stainless_argument_0: &::std::string::String, __stainless_argument_1: u32) -> i64 {\n    (::demo::greet((__stainless_argument_0).as_str(), __stainless_argument_1)).into()\n}\n"
    );
}

#[test]
fn native_method_wrappers_borrow_their_receiver_and_bound_callbacks() {
    let wrapper = NativeWrapper {
        rust_name: "__stainless_wrap_1".to_string(),
        target: WrapperTarget::Method { rust_name: "visit".to_string() },
        receiver: Some(NativeWrapperReceiver { ty: Type::Primitive("u8"), mode: Receiver::Mutable }),
        parameters: vec![NativeWrapperParameter {
            ty: Type::Callback {
                is_async: false,
                kind: CallbackKind::FnMut,
                escape: CallbackEscape::Call,
                parameters: vec![Type::Primitive("i32")],
                return_type: Box::new(Type::Unit),
            },
            adaptation: ArgumentAdaptation::Identity,
        }],
        is_async: true,
        return_adaptation: ReturnAdaptation::Identity,
        return_type: Type::Unit,
    };
    assert_eq!(
        native_wrapper(&wrapper).unwrap(),
        "#[allow(deprecated, non_snake_case)]\npub(crate) async fn __stainless_wrap_1<__StainlessCallback0>(__stainless_receiver: &mut u8, __stainless_argument_0: __StainlessCallback0) -> () where __StainlessCallback0: ::core::ops::FnMut(i32) -> () {\n    ((__stainless_receiver).visit(__stainless_argument_0)).await\n}\n"
    );
    let receiverless = NativeWrapper { receiver: None, ..wrapper };
    assert_eq!(
        native_wrapper(&receiverless).unwrap_err(),
        "generated method wrapper `__stainless_wrap_1` has no receiver"
    );
}

use stainless_compiler::codegen::{temporary, unwrap_rust_result};
use stainless_compiler::hir::{NativeExceptionKind, RustErrorMessage};

#[test]
fn temporaries_are_numbered_in_order() {
    let mut index: usize = 3;
    assert_eq!(temporary(&mut index, "array_values"), Ok("__stainless_array_values_3".to_string()));
    assert_eq!(index, 4);
    assert_eq!(temporary(&mut index, "native_error"), Ok("__stainless_native_error_4".to_string()));
    assert_eq!(index, 5);
    assert!(temporary(&mut index, "not valid").is_err());
}

#[test]
fn a_native_result_error_becomes_a_checked_exception() {
    let mut index: usize = 0;
    let text = unwrap_rust_result(
        &mut index,
        "reader.read()",
        NativeExceptionKind::IoError,
        RustErrorMessage::Display,
        &ExceptionTarget::Function,
    )
    .unwrap();
    assert_eq!(
        text,
        "match reader.read() { Ok(value) => value, Err(__stainless_native_error_0) => { \
         let __stainless_native_error_message_1: ::std::string::String = \
         ::std::string::ToString::to_string(&__stainless_native_error_0); \
         return Err(Box::new(crate::__stainless_namespace_stainless::IoError { \
         __stainless_base_Exception: crate::__stainless_namespace_stainless::Exception { \
         message: __stainless_native_error_message_1, }, }) as crate::__StainlessExceptionBox); } }"
    );
    assert_eq!(index, 2);
    let fallback = unwrap_rust_result(
        &mut index,
        "value",
        NativeExceptionKind::JsonError,
        RustErrorMessage::Fallback,
        &ExceptionTarget::Try("try_0".to_string()),
    )
    .unwrap();
    assert!(fallback.contains("Err(__stainless_native_error_2) => { let __stainless_native_error_message_3"));
    assert!(fallback.contains("{ ::std::mem::drop(__stainless_native_error_2); ::std::string::String::from(\"native Rust operation failed\") }"));
    assert!(fallback.contains("break 'try_0 Err(Box::new(crate::__stainless_namespace_stainless::JsonError {"));
    assert_eq!(index, 4);
}

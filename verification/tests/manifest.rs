use stainless_compiler::ast::{NamedType, Path, Span, Type, TypeKind};
use stainless_compiler::interop::manifest::{
    bindings_from_manifest, callable, lower_manifest_type, parse_callback_type, parse_type,
    split_callable_path, validate_dependency, validate_dependency_path, validate_rust_identifier,
    validate_rust_path, validate_stainless_identifier, validate_stainless_path, wrapper_name,
    Manifest, ManifestCallback, ManifestCallbackEscape, ManifestCallbackKind, ManifestError,
    ManifestErrorFormat, ManifestFunction, ManifestMethod, ManifestParameter, ManifestReceiver,
    ManifestType, Representation, TypeSpelling, TypeSyntax,
};
use stainless_compiler::interop::model::{
    ArgumentAdaptation, CallStyle, CallbackKind, NativeErrorFormat, Receiver, RustLowering,
    TypeRef, WrapperTarget,
};

fn named(path: &[&str], arguments: Vec<Type>) -> Type {
    Type {
        is_const: false,
        is_reference: false,
        kind: TypeKind::Named(NamedType {
            path: Path {
                segments: path.iter().map(|segment| segment.to_string()).collect(),
            },
            arguments,
        }),
        span: Span { start: 0, end: 0 },
    }
}

fn reference(mut ty: Type, is_const: bool) -> Type {
    ty.is_reference = true;
    ty.is_const = is_const;
    ty
}

fn spelled(text: &str, ty: Type) -> TypeSpelling {
    TypeSpelling {
        text: text.to_string(),
        syntax: TypeSyntax::Parsed(ty),
    }
}

fn widget_type() -> ManifestType {
    ManifestType {
        dependency: "demo".to_string(),
        rust_path: "demo::Widget".to_string(),
        stainless_path: "rust::demo::Widget".to_string(),
        representation: Representation::Opaque,
        error_format: Some(ManifestErrorFormat::Display),
    }
}

fn widget_new() -> ManifestFunction {
    ManifestFunction {
        dependency: "demo".to_string(),
        rust_path: "demo::Widget::new".to_string(),
        stainless_path: "rust::demo::Widget::new".to_string(),
        parameters: vec![ManifestParameter::Value(spelled(
            "&rust::String",
            reference(named(&["rust", "String"], vec![]), true),
        ))],
        return_type: spelled("rust::demo::Widget", named(&["rust", "demo", "Widget"], vec![])),
    }
}

fn widget_size() -> ManifestMethod {
    ManifestMethod {
        receiver_type: "rust::demo::Widget".to_string(),
        rust_name: "size".to_string(),
        stainless_name: "size".to_string(),
        receiver: ManifestReceiver::Const,
        parameters: vec![],
        return_type: spelled("usize", named(&["usize"], vec![])),
    }
}

fn manifest(types: Vec<ManifestType>, functions: Vec<ManifestFunction>, methods: Vec<ManifestMethod>) -> Manifest {
    Manifest {
        schema: 1,
        types,
        functions,
        methods,
    }
}

fn message(result: Result<impl std::fmt::Debug, ManifestError>) -> String {
    result.expect_err("expected a manifest error").message
}

fn known() -> Vec<(String, usize)> {
    vec![
        ("rust::Vec".to_string(), 1),
        ("rust::String".to_string(), 0),
        ("rust::demo::Widget".to_string(), 0),
    ]
}

#[test]
fn builds_declared_types_functions_and_methods() {
    let bindings = bindings_from_manifest(&manifest(
        vec![widget_type()],
        vec![widget_new()],
        vec![widget_size()],
    ))
    .expect("valid manifest");
    assert_eq!(bindings.types().len(), 1);
    let widget = bindings.type_by_path("rust::demo::Widget").expect("declared type");
    assert_eq!(widget.rust_path, "::demo::Widget");
    assert!(widget.type_parameters.is_empty());
    assert_eq!(widget.error_format, Some(NativeErrorFormat::Display));
    assert_eq!(widget.callables.len(), 2);

    let new = &widget.callables[0];
    assert_eq!(new.source_name, "new");
    assert_eq!(new.style, CallStyle::AssociatedFunction);
    assert_eq!(new.receiver, None);
    assert_eq!(new.parameters.len(), 1);
    assert_eq!(new.parameters[0].name, "argument_0");
    assert_eq!(new.parameters[0].adaptation, ArgumentAdaptation::StringRefToStr);
    assert_eq!(
        new.lowering,
        RustLowering::GeneratedWrapper {
            wrapper_name: "__stainless_wrapper_v1_demo__Widget__new_34ebd9f415d75725".to_string(),
            target: WrapperTarget::Function {
                rust_path: "::demo::Widget::new".to_string(),
            },
        }
    );

    let size = &widget.callables[1];
    assert_eq!(size.source_name, "size");
    assert_eq!(size.style, CallStyle::Method);
    assert_eq!(size.receiver, Some(Receiver::Shared));
    assert_eq!(size.return_type, TypeRef::Usize);
    assert_eq!(
        size.lowering,
        RustLowering::GeneratedWrapper {
            wrapper_name: "__stainless_wrapper_v1_rust__demo__Widget__size_a3675617f653d5a3"
                .to_string(),
            target: WrapperTarget::Method {
                rust_name: "size".to_string(),
            },
        }
    );
}

#[test]
fn rejects_unsupported_schema() {
    let mut unsupported = manifest(vec![], vec![], vec![]);
    unsupported.schema = 2;
    assert_eq!(
        message(bindings_from_manifest(&unsupported)),
        "unsupported bindings schema 2; expected 1"
    );
}

#[test]
fn rejects_duplicate_and_unsupported_types() {
    assert_eq!(
        message(bindings_from_manifest(&manifest(
            vec![widget_type(), widget_type()],
            vec![],
            vec![]
        ))),
        "duplicate manifest type `rust::demo::Widget`"
    );
    let mut frozen = widget_type();
    frozen.representation = Representation::FrozenAdapter;
    assert_eq!(
        message(bindings_from_manifest(&manifest(vec![frozen], vec![], vec![]))),
        "type `rust::demo::Widget` uses unsupported representation; only `opaque` is implemented"
    );
    let mut outside = widget_type();
    outside.stainless_path = "rust::other::Widget".to_string();
    assert_eq!(
        message(bindings_from_manifest(&manifest(vec![outside], vec![], vec![]))),
        "Stainless path `rust::other::Widget` must be below `rust::demo`"
    );
}

#[test]
fn rejects_undeclared_owners_and_receivers() {
    assert_eq!(
        message(bindings_from_manifest(&manifest(vec![], vec![widget_new()], vec![]))),
        "callable owner type `rust::demo::Widget` is not declared in this manifest"
    );
    assert_eq!(
        message(bindings_from_manifest(&manifest(vec![], vec![], vec![widget_size()]))),
        "method receiver type `rust::demo::Widget` is not declared in this manifest"
    );
    let mut foreign = widget_new();
    foreign.dependency = "other".to_string();
    foreign.rust_path = "other::make".to_string();
    assert_eq!(
        message(bindings_from_manifest(&manifest(vec![widget_type()], vec![foreign], vec![]))),
        "callable owner `rust::demo::Widget` belongs to dependency `demo`, not `other`"
    );
}

#[test]
fn rejects_duplicate_callables_as_binding_metadata() {
    let error = message(bindings_from_manifest(&manifest(
        vec![widget_type()],
        vec![widget_new(), widget_new()],
        vec![],
    )));
    assert_eq!(
        error,
        "invalid binding metadata: duplicate callable `new` on native type `rust::demo::Widget`"
    );
}

#[test]
fn derives_wrapper_names_from_the_signature() {
    let parameters = vec![
        ManifestParameter::Value(spelled("i32", named(&["i32"], vec![]))),
        ManifestParameter::Callback {
            callback: ManifestCallback {
                kind: ManifestCallbackKind::Fn,
                parameters: vec![spelled("i32", named(&["i32"], vec![]))],
                return_type: spelled("void", named(&["void"], vec![])),
                escape: ManifestCallbackEscape::Call,
            },
        },
    ];
    assert_eq!(
        wrapper_name(
            "demo",
            "demo::make",
            CallStyle::AssociatedFunction,
            &parameters,
            "rust::demo::Widget"
        ),
        "__stainless_wrapper_v1_demo__make_43a4420c627ea6ec"
    );
    let long_target = "a".repeat(100);
    let name = wrapper_name("demo", &long_target, CallStyle::Method, &vec![], "void");
    assert!(name.starts_with(&format!("__stainless_wrapper_v1_{}_", "a".repeat(80))));
    assert_eq!(name.len(), "__stainless_wrapper_v1_".len() + 80 + 1 + 16);
}

#[test]
fn validates_identifiers_and_paths() {
    assert!(validate_stainless_identifier("widget_1", "name").is_ok());
    assert_eq!(
        message(validate_stainless_identifier("__hidden", "name")),
        "invalid name segment `__hidden`"
    );
    assert_eq!(
        message(validate_stainless_identifier("1st", "name")),
        "invalid name segment `1st`"
    );
    assert!(validate_rust_identifier("size", "method Rust name").is_ok());
    assert!(message(validate_rust_identifier("fn", "method Rust name"))
        .starts_with("invalid method Rust name `fn`: "));
    assert!(validate_dependency("serde-json").is_ok());
    assert_eq!(
        message(validate_dependency("bad crate")),
        "invalid Cargo dependency key `bad crate`"
    );
    assert!(validate_rust_path("::serde_json::Value", "type Rust path").is_ok());
    assert_eq!(
        message(validate_rust_path("Vec<u8>", "type Rust path")),
        "invalid type Rust path `Vec<u8>`: expected an item path without type arguments"
    );
    assert_eq!(
        message(validate_dependency_path("demo", "other::Widget", "type Rust path")),
        "type Rust path `other::Widget` is outside dependency `demo`"
    );
    assert!(validate_dependency_path("serde-json", "serde_json::Value", "type Rust path").is_ok());
    assert_eq!(
        message(validate_stainless_path("", "type Stainless path")),
        "invalid type Stainless path: path is empty"
    );
    assert_eq!(
        message(validate_stainless_path("rust::9lives", "type Stainless path")),
        "invalid type Stainless path segment `9lives`"
    );
    assert!(validate_stainless_path("rust::demo::Widget", "type Stainless path").is_ok());
}

#[test]
fn splits_callable_paths_at_the_last_separator() {
    assert_eq!(
        split_callable_path("rust::demo::Widget::new").expect("split"),
        ("rust::demo::Widget".to_string(), "new".to_string())
    );
    assert_eq!(
        message(split_callable_path("new")),
        "associated callable path `new` must include its declared native type"
    );
    assert_eq!(
        message(split_callable_path("::new")),
        "invalid associated callable path `::new`"
    );
}

#[test]
fn lowers_binding_signature_types() {
    let known = known();
    assert_eq!(
        lower_manifest_type(&named(&["rust", "Vec"], vec![named(&["u8"], vec![])]), &known)
            .expect("lowered"),
        TypeRef::Native {
            path: "rust::Vec".to_string(),
            arguments: vec![TypeRef::U8],
        }
    );
    assert_eq!(
        lower_manifest_type(&reference(named(&["i32"], vec![]), false), &known).expect("lowered"),
        TypeRef::Reference {
            mutable: true,
            target: Box::new(TypeRef::I32),
        }
    );
    assert_eq!(
        message(lower_manifest_type(&named(&["rust", "Vec"], vec![]), &known)),
        "binding type `rust::Vec` expects 1 type argument(s), found 0"
    );
    assert_eq!(
        message(lower_manifest_type(&named(&["rust", "Missing"], vec![]), &known)),
        "binding signature uses undeclared native type `rust::Missing`"
    );
    assert_eq!(
        message(lower_manifest_type(&reference(named(&["void"], vec![]), true), &known)),
        "`void` cannot be a binding reference target"
    );
    let mut constant = named(&["i32"], vec![]);
    constant.is_const = true;
    assert_eq!(
        message(lower_manifest_type(&constant, &known)),
        "`const` is only meaningful on reference types in binding signatures"
    );
}

#[test]
fn reports_type_spelling_errors() {
    let known = known();
    let invalid = TypeSpelling {
        text: "vec<".to_string(),
        syntax: TypeSyntax::Invalid("expected `>`".to_string()),
    };
    assert_eq!(
        message(parse_type(&invalid, &known)),
        "invalid Stainless binding type `vec<`: expected `>`"
    );
    let missing = TypeSpelling {
        text: "".to_string(),
        syntax: TypeSyntax::Missing,
    };
    assert_eq!(message(parse_type(&missing, &known)), "invalid Stainless binding type ``");
}

#[test]
fn checks_callbacks_and_parameters() {
    let known = known();
    let callback = ManifestCallback {
        kind: ManifestCallbackKind::FnPtr,
        parameters: vec![spelled("i32", named(&["i32"], vec![]))],
        return_type: spelled("bool", named(&["bool"], vec![])),
        escape: ManifestCallbackEscape::Call,
    };
    match parse_callback_type(&callback, &known).expect("callback") {
        TypeRef::Callback(callback) => {
            assert_eq!(callback.kind, CallbackKind::FunctionPointer);
            assert_eq!(callback.parameters, vec![TypeRef::I32]);
            assert_eq!(*callback.return_type, TypeRef::Bool);
        }
        other => panic!("unexpected type {other:?}"),
    }
    let escaping = ManifestCallback {
        escape: ManifestCallbackEscape::Thread,
        ..callback
    };
    assert_eq!(
        message(parse_callback_type(&escaping, &known)),
        "only non-escaping callbacks with `escape = \"call\"` are implemented"
    );
    let returning_reference = ManifestCallback {
        kind: ManifestCallbackKind::Fn,
        parameters: vec![],
        return_type: spelled("&i32", reference(named(&["i32"], vec![]), true)),
        escape: ManifestCallbackEscape::Call,
    };
    assert_eq!(
        message(parse_callback_type(&returning_reference, &known)),
        "callback return references are not supported"
    );
    let void_parameter = vec![ManifestParameter::Value(spelled("void", named(&["void"], vec![])))];
    assert_eq!(
        message(callable(
            "f".to_string(),
            CallStyle::AssociatedFunction,
            None,
            &void_parameter,
            &spelled("void", named(&["void"], vec![])),
            RustLowering::Method {
                rust_name: "f".to_string()
            },
            &known,
        )),
        "`void` is not a valid binding parameter type"
    );
    let nested = vec![ManifestParameter::Value(spelled(
        "rust::Vec<&i32>",
        named(&["rust", "Vec"], vec![reference(named(&["i32"], vec![]), true)]),
    ))];
    assert_eq!(
        message(callable(
            "f".to_string(),
            CallStyle::AssociatedFunction,
            None,
            &nested,
            &spelled("void", named(&["void"], vec![])),
            RustLowering::Method {
                rust_name: "f".to_string()
            },
            &known,
        )),
        "reference-bearing parameter values are not supported in initial bindings"
    );
}

use stainless_compiler::interop::manifest::{in_manifest_file, read_error};
use stainless_compiler::interop::model::NativeBindings;

#[test]
fn errors_from_a_manifest_file_name_the_file() {
    let failed: Result<NativeBindings, ManifestError> =
        Err(ManifestError::message("unsupported bindings schema 2; expected 1".to_string()));
    let error = in_manifest_file(failed, "pkg/stainless-bindings.toml".to_string()).unwrap_err();
    assert_eq!(error.path(), Some("pkg/stainless-bindings.toml"));
    assert_eq!(error.message_text(), "unsupported bindings schema 2; expected 1");
    assert_eq!(
        error.display_text(),
        "pkg/stainless-bindings.toml: unsupported bindings schema 2; expected 1"
    );
    let loaded = in_manifest_file(NativeBindings::new(vec![]).map_err(|_| ManifestError::message(String::new())), "x.toml".to_string());
    assert!(loaded.is_ok());
    let unreadable = read_error("pkg/stainless-bindings.toml".to_string(), "permission denied");
    assert_eq!(unreadable.path(), Some("pkg/stainless-bindings.toml"));
    assert_eq!(
        unreadable.message_text(),
        "failed to read pkg/stainless-bindings.toml: permission denied"
    );
    assert!(unreadable.span().is_none());
}

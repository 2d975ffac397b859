use stainless_compiler::ast::{
    Block, CatchClause, Expression, ExpressionKind, IfStatement, Literal, LiteralKind, Span,
    Statement, StatementKind, TryStatement,
};
use stainless_compiler::hir::{Function, Interface, Module, Struct};
use stainless_compiler::hir_lowering::{
    binding_name, block_definitely_returns, block_may_fall_through, insert_function,
    insert_interface, insert_struct, is_null_literal, is_nullptr_literal, module_name,
    statement_definitely_returns, statement_may_fall_through, user_type_path,
};

fn span() -> Span {
    Span { start: 0, end: 0 }
}

fn statement(kind: StatementKind) -> Statement {
    Statement { kind, span: span() }
}

fn block(statements: Vec<Statement>) -> Block {
    Block {
        statements,
        span: span(),
    }
}

fn literal(kind: LiteralKind, text: &str) -> Expression {
    Expression {
        kind: ExpressionKind::Literal(Literal {
            kind,
            text: text.to_string(),
        }),
        span: span(),
    }
}

fn structure(name: &str) -> Struct {
    Struct {
        source_path: vec![name.to_string()],
        rust_name: name.to_string(),
        type_parameters: vec![],
        const_parameters: vec![],
        copyable: false,
        fields: vec![],
        static_constants: vec![],
        json_fields: None,
        is_exception: false,
        exception_base_field: None,
        interface_implementations: vec![],
    }
}

fn path(segments: &[&str]) -> Vec<String> {
    segments.iter().map(|segment| segment.to_string()).collect()
}

#[test]
fn returning_statements_never_fall_through() {
    let returns = statement(StatementKind::Return(None));
    assert!(statement_definitely_returns(&returns));
    assert!(!statement_may_fall_through(&returns));

    let if_without_else = statement(StatementKind::If(IfStatement {
        condition: literal(LiteralKind::Boolean, "true"),
        then_branch: Box::new(statement(StatementKind::Return(None))),
        else_branch: None,
    }));
    assert!(!statement_definitely_returns(&if_without_else));
    assert!(statement_may_fall_through(&if_without_else));

    let if_with_else = statement(StatementKind::If(IfStatement {
        condition: literal(LiteralKind::Boolean, "true"),
        then_branch: Box::new(statement(StatementKind::Return(None))),
        else_branch: Some(Box::new(statement(StatementKind::Throw(None)))),
    }));
    assert!(statement_definitely_returns(&if_with_else));
    assert!(!statement_may_fall_through(&if_with_else));

    let guarded = statement(StatementKind::Try(TryStatement {
        body: block(vec![statement(StatementKind::Return(None))]),
        catches: vec![CatchClause {
            binding: None,
            body: block(vec![statement(StatementKind::Empty)]),
            span: span(),
        }],
    }));
    assert!(!statement_definitely_returns(&guarded));
    assert!(statement_may_fall_through(&guarded));

    assert!(!block_definitely_returns(&block(vec![])));
    assert!(block_may_fall_through(&block(vec![])));
    assert!(block_definitely_returns(&block(vec![
        statement(StatementKind::Empty),
        statement(StatementKind::Return(None)),
    ])));
}

#[test]
fn recognizes_null_literals() {
    assert!(is_null_literal(&literal(LiteralKind::Null, "null")));
    assert!(!is_null_literal(&literal(LiteralKind::Integer, "0")));
    assert!(is_nullptr_literal(&literal(LiteralKind::Null, "nullptr")));
    assert!(!is_nullptr_literal(&literal(LiteralKind::Null, "null")));
}

#[test]
fn names_generated_items() {
    assert_eq!(binding_name("count"), "__stainless_local_count");
    assert_eq!(module_name("geometry"), "__stainless_namespace_geometry");
    assert_eq!(
        user_type_path(&path(&["geometry", "shapes", "Point"])),
        "crate::__stainless_namespace_geometry::__stainless_namespace_shapes::Point"
    );
    assert_eq!(user_type_path(&path(&["Point"])), "crate::Point");
    assert_eq!(user_type_path(&vec![]), "crate::__stainless_missing_type");
}

#[test]
fn inserted_items_land_in_their_namespace_modules() {
    let mut structs: Vec<Struct> = Vec::new();
    let mut modules: Vec<Module> = Vec::new();
    let namespaces = path(&["geometry", "shapes"]);
    insert_struct(&mut structs, &mut modules, &namespaces, 0, structure("Point"));
    insert_struct(&mut structs, &mut modules, &path(&["geometry"]), 0, structure("Plane"));
    insert_struct(&mut structs, &mut modules, &vec![], 0, structure("Root"));
    insert_struct(&mut structs, &mut modules, &namespaces, 0, structure("Circle"));

    assert_eq!(structs.len(), 1);
    assert_eq!(structs[0].rust_name, "Root");
    assert_eq!(modules.len(), 1);
    let geometry = &modules[0];
    assert_eq!(geometry.source_name, "geometry");
    assert_eq!(geometry.rust_name, "__stainless_namespace_geometry");
    assert_eq!(geometry.structs.len(), 1);
    assert_eq!(geometry.structs[0].rust_name, "Plane");
    assert_eq!(geometry.modules.len(), 1);
    let shapes = &geometry.modules[0];
    assert_eq!(shapes.rust_name, "__stainless_namespace_shapes");
    let names: Vec<&str> = shapes.structs.iter().map(|s| s.rust_name.as_str()).collect();
    assert_eq!(names, vec!["Point", "Circle"]);

    let mut interfaces: Vec<Interface> = Vec::new();
    insert_interface(
        &mut interfaces,
        &mut modules,
        &namespaces,
        0,
        Interface {
            source_path: path(&["geometry", "shapes", "Shape"]),
            rust_name: "Shape".to_string(),
            bases: vec![],
            methods: vec![],
        },
    );
    assert!(interfaces.is_empty());
    assert_eq!(modules[0].modules[0].interfaces.len(), 1);
    assert_eq!(modules[0].modules[0].structs.len(), 2);

    let mut functions: Vec<Function> = Vec::new();
    let skipped = path(&["ignored", "geometry"]);
    insert_function(
        &mut functions,
        &mut modules,
        &skipped,
        1,
        Function {
            source_path: path(&["geometry", "area"]),
            module_names: path(&["geometry"]),
            rust_name: "area".to_string(),
            type_parameters: vec![],
            const_parameters: vec![],
            is_async: false,
            parameters: vec![],
            return_type: stainless_compiler::hir::Type::Unit,
            throws: false,
            body: stainless_compiler::hir::Block { statements: vec![] },
            span: span(),
        },
    );
    assert!(functions.is_empty());
    assert_eq!(modules.len(), 1);
    assert_eq!(modules[0].functions.len(), 1);
    assert_eq!(modules[0].functions[0].rust_name, "area");
}

use stainless_compiler::{Diagnostic, DiagnosticPhase};
use stainless_compiler::hir::Type;
use stainless_compiler::hir_lowering::{lower_type, native_type_path};
use stainless_compiler::interop::builtin::standard_bindings;
use stainless_compiler::interop::model::{CallbackEscape, CallbackKind, CallbackType, NativeBindings, TypeRef};

#[test]
fn primitive_and_void_types_lower_to_their_rust_names() {
    let bindings = NativeBindings::empty();
    let mut diagnostics: Vec<Diagnostic> = Vec::new();
    assert_eq!(lower_type(&TypeRef::Void, &bindings, span(), &mut diagnostics), Some(Type::Unit));
    assert_eq!(lower_type(&TypeRef::I32, &bindings, span(), &mut diagnostics), Some(Type::Primitive("i32")));
    assert_eq!(lower_type(&TypeRef::Usize, &bindings, span(), &mut diagnostics), Some(Type::Primitive("usize")));
    assert_eq!(lower_type(&TypeRef::Bool, &bindings, span(), &mut diagnostics), Some(Type::Primitive("bool")));
    assert!(diagnostics.is_empty());
}

#[test]
fn native_types_lower_through_the_registry() {
    let bindings = standard_bindings().unwrap();
    let mut diagnostics: Vec<Diagnostic> = Vec::new();
    let vector = TypeRef::native("rust::Vec".to_string(), vec![TypeRef::U8]);
    assert_eq!(
        lower_type(&vector, &bindings, span(), &mut diagnostics),
        Some(Type::Native {
            rust_path: "::std::vec::Vec".to_string(),
            arguments: vec![Type::Primitive("u8")],
        })
    );
    let option = TypeRef::native("rust::Option".to_string(), vec![TypeRef::shared_ref(TypeRef::native("rust::String".to_string(), vec![]))]);
    assert_eq!(
        lower_type(&option, &bindings, span(), &mut diagnostics),
        Some(Type::Native {
            rust_path: "::std::option::Option".to_string(),
            arguments: vec![Type::Reference {
                mutable: false,
                target: Box::new(Type::Native {
                    rust_path: "::std::string::String".to_string(),
                    arguments: vec![],
                }),
            }],
        })
    );
    assert_eq!(
        native_type_path("rust::Result", &bindings, span(), &mut diagnostics),
        Some("::std::result::Result".to_string())
    );
    assert!(diagnostics.is_empty());
}

#[test]
fn callback_types_lower_part_by_part() {
    let bindings = NativeBindings::empty();
    let mut diagnostics: Vec<Diagnostic> = Vec::new();
    let callback = TypeRef::Callback(CallbackType {
        kind: CallbackKind::Fn,
        escape: CallbackEscape::Call,
        parameters: vec![TypeRef::I64],
        return_type: Box::new(TypeRef::Bool),
    });
    assert_eq!(
        lower_type(&callback, &bindings, span(), &mut diagnostics),
        Some(Type::Callback {
            is_async: false,
            kind: CallbackKind::Fn,
            escape: CallbackEscape::Call,
            parameters: vec![Type::Primitive("i64")],
            return_type: Box::new(Type::Primitive("bool")),
        })
    );
    assert!(diagnostics.is_empty());
}

#[test]
fn unregistered_native_types_are_reported() {
    let bindings = NativeBindings::empty();
    let mut diagnostics: Vec<Diagnostic> = Vec::new();
    let at = Span { start: 4, end: 9 };
    let unknown = TypeRef::native("rust::Missing".to_string(), vec![TypeRef::Parameter("T".to_string())]);
    assert_eq!(lower_type(&unknown, &bindings, at, &mut diagnostics), None);
    assert_eq!(diagnostics.len(), 1);
    assert_eq!(diagnostics[0].code, "HIR014");
    assert_eq!(diagnostics[0].phase, DiagnosticPhase::Hir);
    assert_eq!(diagnostics[0].message, "native type `rust::Missing` has no Rust type lowering");
    assert_eq!(diagnostics[0].span, at);
}

#[test]
fn the_first_failing_part_of_a_type_is_reported() {
    let bindings = standard_bindings().unwrap();
    let mut diagnostics: Vec<Diagnostic> = Vec::new();
    let ty = TypeRef::native(
        "rust::Map".to_string(),
        vec![TypeRef::Parameter("K".to_string()), TypeRef::native("rust::Missing".to_string(), vec![])],
    );
    assert_eq!(lower_type(&ty, &bindings, span(), &mut diagnostics), None);
    assert_eq!(diagnostics.len(), 1);
    assert_eq!(diagnostics[0].code, "HIR013");
    assert_eq!(diagnostics[0].message, "unresolved type reached HIR lowering");
}

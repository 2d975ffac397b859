use stainless_compiler::ast::{
    BinaryOperator, Block, CatchClause, ClassicForClause, Expression, ExpressionKind, ForClause,
    ForStatement, Function, IfStatement, Item, RangeForClause, TryStatement,
    LocalDeclaration, NamedType, Parameter, Path, SourceFile, Span, Statement, StatementKind,
    Type, TypeKind,
};
use stainless_compiler::interop::model::TypeRef;
use stainless_compiler::ownership::validate;
use stainless_compiler::ownership::walk::{return_borrow_parameter, sort_diagnostics};
use stainless_compiler::resolution::{
    BindingResolution, CallTarget, ExpressionResolution, FunctionSymbol, Intrinsic,
    ParameterSymbol, ResolvedCall, SemanticModel,
};
use stainless_compiler::{Diagnostic, DiagnosticPhase};

fn span(start: u32, end: u32) -> Span {
    Span { start, end }
}

fn syntax_type(at: u32) -> Type {
    Type {
        is_const: false,
        is_reference: false,
        kind: TypeKind::Named(NamedType {
            path: Path {
                segments: vec!["std::string".to_string()],
            },
            arguments: vec![],
        }),
        span: span(at, at + 1),
    }
}

fn string_type() -> TypeRef {
    TypeRef::Native {
        path: "rust::String".to_string(),
        arguments: vec![],
    }
}

fn name(text: &str, at: u32) -> Expression {
    Expression {
        kind: ExpressionKind::Name(Path {
            segments: vec![text.to_string()],
        }),
        span: span(at, at + 1),
    }
}

fn move_of(argument: Expression, at: u32) -> Expression {
    Expression {
        kind: ExpressionKind::Call {
            callee: Box::new(Expression {
                kind: ExpressionKind::Name(Path {
                    segments: vec!["std".to_string(), "move".to_string()],
                }),
                span: span(at, at + 1),
            }),
            arguments: vec![argument],
        },
        span: span(at, at + 20),
    }
}

fn statement(kind: StatementKind, at: u32) -> Statement {
    Statement {
        kind,
        span: span(at, at + 30),
    }
}

fn local(text: &str, initializer: Option<Expression>, at: u32) -> Statement {
    statement(
        StatementKind::Local(LocalDeclaration {
            ty: syntax_type(at),
            name: text.to_string(),
            initializer,
            span: span(at, at + 30),
        }),
        at,
    )
}

fn function(parameters: Vec<&str>, body: Vec<Statement>) -> Item {
    Item::Function(Function {
        name: Path {
            segments: vec!["f".to_string()],
        },
        return_type: syntax_type(0),
        parameters: parameters
            .iter()
            .enumerate()
            .map(|(index, text)| Parameter {
                ty: syntax_type(2 + index as u32),
                name: text.to_string(),
                span: span(2 + index as u32, 3 + index as u32),
            })
            .collect(),
        is_const: false,
        throws: vec![],
        body: Some(Block {
            statements: body,
            span: span(0, 1000),
        }),
        span: span(0, 1000),
    })
}

fn move_resolution(at: u32) -> (Span, ExpressionResolution) {
    (
        span(at, at + 20),
        ExpressionResolution {
            ty: string_type(),
            call: Some(ResolvedCall {
                target: CallTarget::Intrinsic(Intrinsic::Move),
                throws: vec![],
            }),
            field: None,
        },
    )
}

fn model(
    parameters: Vec<TypeRef>,
    return_type: TypeRef,
    bindings: Vec<(Span, BindingResolution)>,
    expressions: Vec<(Span, ExpressionResolution)>,
) -> SemanticModel {
    SemanticModel {
        functions: vec![FunctionSymbol {
            parameters: parameters
                .into_iter()
                .map(|ty| ParameterSymbol { ty })
                .collect(),
            return_type,
            receiver: None,
        }],
        constructors: vec![],
        function_declarations: vec![(span(0, 1000), 0)],
        constructor_declarations: vec![],
        bindings,
        expressions,
        calls: vec![],
        callbacks: vec![],
        rust_result_adaptations: vec![],
    }
}

fn binding(text: &str, ty: TypeRef, at: u32) -> (Span, BindingResolution) {
    (
        span(at, at + 30),
        BindingResolution {
            name: text.to_string(),
            ty,
            span: span(at, at + 30),
        },
    )
}

#[test]
fn a_use_after_a_move_is_reported_with_the_move_position() {
    let source = SourceFile {
        items: vec![function(
            vec!["s"],
            vec![
                local("t", Some(move_of(name("s", 110), 100)), 100),
                statement(StatementKind::Expression(name("s", 200)), 200),
            ],
        )],
        span: span(0, 1000),
    };
    let semantics = model(
        vec![string_type()],
        TypeRef::Void,
        vec![binding("t", string_type(), 100)],
        vec![move_resolution(100)],
    );
    let diagnostics = validate(&source, &semantics);
    assert_eq!(diagnostics.len(), 1);
    assert_eq!(diagnostics[0].code, "OWN001");
    assert_eq!(diagnostics[0].phase, DiagnosticPhase::Ownership);
    assert_eq!(
        diagnostics[0].message,
        "use of moved binding `s`; it was moved at byte 100"
    );
    assert_eq!(diagnostics[0].span, span(200, 201));
}

#[test]
fn moving_a_copyable_value_leaves_it_usable() {
    let source = SourceFile {
        items: vec![function(
            vec!["n"],
            vec![
                local("m", Some(move_of(name("n", 110), 100)), 100),
                statement(StatementKind::Expression(name("n", 200)), 200),
            ],
        )],
        span: span(0, 1000),
    };
    let semantics = model(
        vec![TypeRef::I32],
        TypeRef::Void,
        vec![binding("m", TypeRef::I32, 100)],
        vec![move_resolution(100)],
    );
    assert!(validate(&source, &semantics).is_empty());
}

#[test]
fn a_move_on_one_branch_makes_the_value_possibly_moved() {
    let branch = statement(
        StatementKind::Expression(move_of(name("s", 160), 150)),
        150,
    );
    let source = SourceFile {
        items: vec![function(
            vec!["s", "c"],
            vec![
                statement(
                    StatementKind::If(IfStatement {
                        condition: name("c", 120),
                        then_branch: Box::new(branch),
                        else_branch: None,
                    }),
                    100,
                ),
                statement(StatementKind::Expression(name("s", 300)), 300),
            ],
        )],
        span: span(0, 1000),
    };
    let semantics = model(
        vec![string_type(), TypeRef::Bool],
        TypeRef::Void,
        vec![],
        vec![move_resolution(150)],
    );
    let diagnostics = validate(&source, &semantics);
    assert_eq!(diagnostics.len(), 1);
    assert_eq!(diagnostics[0].code, "OWN002");
    assert_eq!(
        diagnostics[0].message,
        "binding `s` may have been moved on another control-flow path at byte 150"
    );
}

#[test]
fn assigning_to_a_moved_binding_makes_it_usable_again() {
    let assignment = Expression {
        kind: ExpressionKind::Binary {
            left: Box::new(name("s", 210)),
            operator: BinaryOperator::Assign,
            right: Box::new(name("other", 220)),
        },
        span: span(200, 230),
    };
    let source = SourceFile {
        items: vec![function(
            vec!["s", "other"],
            vec![
                local("t", Some(move_of(name("s", 110), 100)), 100),
                statement(StatementKind::Expression(assignment), 200),
                statement(StatementKind::Expression(name("s", 300)), 300),
            ],
        )],
        span: span(0, 1000),
    };
    let semantics = model(
        vec![string_type(), string_type()],
        TypeRef::Void,
        vec![binding("t", string_type(), 100)],
        vec![move_resolution(100)],
    );
    assert!(validate(&source, &semantics).is_empty());
}

#[test]
fn a_returned_reference_needs_one_reference_parameter() {
    let source = SourceFile {
        items: vec![function(
            vec!["s"],
            vec![statement(StatementKind::Return(Some(name("s", 110))), 100)],
        )],
        span: span(0, 1000),
    };
    let semantics = model(
        vec![string_type()],
        TypeRef::Reference {
            mutable: false,
            target: Box::new(string_type()),
        },
        vec![],
        vec![],
    );
    let diagnostics = validate(&source, &semantics);
    assert_eq!(diagnostics.len(), 1);
    assert_eq!(diagnostics[0].code, "OWN005");
    assert_eq!(
        diagnostics[0].message,
        "a reference return requires exactly one reference parameter"
    );
    assert_eq!(diagnostics[0].span, span(110, 111));
}

#[test]
fn writing_a_binding_while_a_local_reference_borrows_it_is_reported() {
    let assignment = Expression {
        kind: ExpressionKind::Binary {
            left: Box::new(name("x", 210)),
            operator: BinaryOperator::Assign,
            right: Box::new(name("y", 220)),
        },
        span: span(200, 230),
    };
    let source = SourceFile {
        items: vec![function(
            vec!["x", "y"],
            vec![
                local("r", Some(name("x", 110)), 100),
                statement(StatementKind::Expression(assignment), 200),
                statement(StatementKind::Expression(name("r", 300)), 300),
            ],
        )],
        span: span(0, 1000),
    };
    let reference = TypeRef::Reference {
        mutable: true,
        target: Box::new(TypeRef::I32),
    };
    let semantics = model(
        vec![TypeRef::I32, TypeRef::I32],
        TypeRef::Void,
        vec![binding("r", reference, 100)],
        vec![],
    );
    let diagnostics = validate(&source, &semantics);
    assert_eq!(diagnostics.len(), 1);
    assert_eq!(diagnostics[0].code, "OWN003");
    assert_eq!(
        diagnostics[0].message,
        "cannot mutate `x` while it has an active conflicting borrow"
    );
    assert_eq!(diagnostics[0].span, span(210, 211));
}

#[test]
fn a_function_without_a_resolved_symbol_is_not_checked() {
    let source = SourceFile {
        items: vec![function(
            vec!["s"],
            vec![
                local("t", Some(move_of(name("s", 110), 100)), 100),
                statement(StatementKind::Expression(name("s", 200)), 200),
            ],
        )],
        span: span(0, 1000),
    };
    let mut semantics = model(vec![string_type()], TypeRef::Void, vec![], vec![]);
    semantics.function_declarations = vec![];
    assert!(validate(&source, &semantics).is_empty());
}

#[test]
fn diagnostics_are_ordered_by_range_and_keep_their_order_on_ties() {
    let diagnostic = |code: &'static str, start: u32, end: u32| Diagnostic {
        code,
        phase: DiagnosticPhase::Ownership,
        message: String::new(),
        span: span(start, end),
    };
    let sorted = sort_diagnostics(vec![
        diagnostic("OWN003", 9, 10),
        diagnostic("OWN001", 2, 8),
        diagnostic("OWN002", 2, 3),
        diagnostic("OWN004", 2, 8),
    ]);
    let codes: Vec<&str> = sorted.iter().map(|d| d.code).collect();
    assert_eq!(codes, vec!["OWN002", "OWN001", "OWN004", "OWN003"]);
}

#[test]
fn a_returned_reference_borrows_from_the_only_reference_parameter() {
    let shared = TypeRef::Reference {
        mutable: false,
        target: Box::new(TypeRef::I32),
    };
    let symbol = FunctionSymbol {
        parameters: vec![
            ParameterSymbol { ty: TypeRef::I32 },
            ParameterSymbol { ty: shared },
        ],
        return_type: TypeRef::Reference {
            mutable: false,
            target: Box::new(TypeRef::I32),
        },
        receiver: None,
    };
    assert_eq!(return_borrow_parameter(&symbol), Some(1));
    let two = FunctionSymbol {
        parameters: vec![
            ParameterSymbol {
                ty: TypeRef::Reference {
                    mutable: false,
                    target: Box::new(TypeRef::I32),
                },
            },
            ParameterSymbol {
                ty: TypeRef::Reference {
                    mutable: true,
                    target: Box::new(TypeRef::I32),
                },
            },
        ],
        return_type: TypeRef::Reference {
            mutable: false,
            target: Box::new(TypeRef::I32),
        },
        receiver: None,
    };
    assert_eq!(return_borrow_parameter(&two), None);
}

fn block(statements: Vec<Statement>, at: u32) -> Block {
    Block {
        statements,
        span: span(at, at + 90),
    }
}

#[test]
fn a_move_inside_a_loop_is_reported_on_the_next_iteration() {
    let body = statement(
        StatementKind::Block(block(vec![local("t", Some(move_of(name("s", 110), 100)), 100)], 95)),
        95,
    );
    let source = SourceFile {
        items: vec![function(
            vec!["s"],
            vec![statement(
                StatementKind::For(ForStatement {
                    clause: ForClause::Classic(ClassicForClause {
                        initializer: None,
                        condition: None,
                        update: None,
                    }),
                    body: Box::new(body),
                }),
                90,
            )],
        )],
        span: span(0, 1000),
    };
    let semantics = model(
        vec![string_type()],
        TypeRef::Void,
        vec![binding("t", string_type(), 100)],
        vec![move_resolution(100)],
    );
    let diagnostics = validate(&source, &semantics);
    assert_eq!(diagnostics.len(), 1);
    assert_eq!(diagnostics[0].code, "OWN001");
    assert_eq!(
        diagnostics[0].message,
        "use of moved binding `s`; it was moved at byte 100"
    );
    assert_eq!(diagnostics[0].span, span(100, 120));
}

#[test]
fn a_handler_starts_from_the_state_at_the_throw() {
    let source = SourceFile {
        items: vec![function(
            vec!["s"],
            vec![statement(
                StatementKind::Try(TryStatement {
                    body: block(
                        vec![
                            local("t", Some(move_of(name("s", 110), 100)), 100),
                            statement(StatementKind::Throw(None), 150),
                        ],
                        95,
                    ),
                    catches: vec![CatchClause {
                        binding: None,
                        body: block(
                            vec![statement(StatementKind::Expression(name("s", 300)), 300)],
                            295,
                        ),
                        span: span(290, 400),
                    }],
                }),
                90,
            )],
        )],
        span: span(0, 1000),
    };
    let semantics = model(
        vec![string_type()],
        TypeRef::Void,
        vec![binding("t", string_type(), 100)],
        vec![move_resolution(100)],
    );
    let diagnostics = validate(&source, &semantics);
    assert_eq!(diagnostics.len(), 1);
    assert_eq!(diagnostics[0].code, "OWN001");
    assert_eq!(diagnostics[0].span, span(300, 301));
}

#[test]
fn a_conflict_seen_on_both_loop_iterations_is_reported_once() {
    let assignment = Expression {
        kind: ExpressionKind::Binary {
            left: Box::new(name("s", 210)),
            operator: BinaryOperator::Assign,
            right: Box::new(name("other", 220)),
        },
        span: span(200, 230),
    };
    let source = SourceFile {
        items: vec![function(
            vec!["s", "other"],
            vec![statement(
                StatementKind::For(ForStatement {
                    clause: ForClause::Range(RangeForClause {
                        ty: syntax_type(150),
                        name: "v".to_string(),
                        iterable: name("s", 160),
                    }),
                    body: Box::new(statement(StatementKind::Expression(assignment), 200)),
                }),
                100,
            )],
        )],
        span: span(0, 1000),
    };
    let element = TypeRef::Reference {
        mutable: false,
        target: Box::new(TypeRef::I32),
    };
    let semantics = model(
        vec![string_type(), string_type()],
        TypeRef::Void,
        vec![(
            span(150, 151),
            BindingResolution {
                name: "v".to_string(),
                ty: element,
                span: span(150, 151),
            },
        )],
        vec![],
    );
    let diagnostics = validate(&source, &semantics);
    assert_eq!(diagnostics.len(), 1);
    assert_eq!(diagnostics[0].code, "OWN003");
    assert_eq!(
        diagnostics[0].message,
        "cannot mutate `s` while it has an active conflicting borrow"
    );
}

#[test]
fn resolution_lookups_find_the_first_entry_for_a_range() {
    let semantics = SemanticModel {
        functions: vec![FunctionSymbol {
            parameters: vec![],
            return_type: TypeRef::Void,
            receiver: None,
        }],
        constructors: vec![],
        function_declarations: vec![(span(0, 10), 0), (span(20, 30), 5)],
        constructor_declarations: vec![],
        bindings: vec![
            binding("first", TypeRef::I32, 40),
            binding("second", TypeRef::Bool, 40),
        ],
        expressions: vec![],
        calls: vec![],
        callbacks: vec![],
        rust_result_adaptations: vec![span(7, 9)],
    };
    assert!(semantics.function_at(span(0, 10)).is_some());
    assert!(semantics.function_at(span(20, 30)).is_none());
    assert!(semantics.function_at(span(0, 11)).is_none());
    assert_eq!(semantics.binding(span(40, 70)).map(|b| b.name.as_str()), Some("first"));
    assert!(semantics.binding(span(41, 70)).is_none());
    assert!(semantics.rust_result_adaptation(span(7, 9)));
    assert!(!semantics.rust_result_adaptation(span(7, 8)));
    assert!(semantics.function(1).is_none());
    assert!(semantics.constructor(0).is_none());
}

#[test]
fn a_parameter_used_right_after_it_is_moved_is_reported() {
    let source = SourceFile {
        items: vec![function(
            vec!["s"],
            vec![
                statement(StatementKind::Expression(move_of(name("s", 110), 100)), 100),
                statement(StatementKind::Expression(name("s", 200)), 200),
            ],
        )],
        span: span(0, 1000),
    };
    let semantics = model(vec![string_type()], TypeRef::Void, vec![], vec![move_resolution(100)]);
    let diagnostics = validate(&source, &semantics);
    assert_eq!(diagnostics.len(), 1);
    assert_eq!(diagnostics[0].code, "OWN001");
    assert_eq!(diagnostics[0].span, span(200, 201));
    assert_eq!(diagnostics[0].message, "use of moved binding `s`; it was moved at byte 100");
}

#[test]
fn a_local_reference_to_a_literal_is_reported() {
    let literal = Expression {
        kind: ExpressionKind::Literal(stainless_compiler::ast::Literal {
            kind: stainless_compiler::ast::LiteralKind::Integer,
            text: "5".to_string(),
        }),
        span: span(110, 111),
    };
    let source = SourceFile {
        items: vec![function(vec![], vec![local("r", Some(literal), 100)])],
        span: span(0, 1000),
    };
    let semantics = model(
        vec![],
        TypeRef::Void,
        vec![binding("r", TypeRef::shared_ref(TypeRef::I32), 100)],
        vec![],
    );
    let diagnostics = validate(&source, &semantics);
    assert_eq!(diagnostics.len(), 1);
    assert_eq!(diagnostics[0].code, "OWN004");
    assert_eq!(diagnostics[0].span, span(110, 111));
    assert_eq!(diagnostics[0].message, "a local reference requires a stable source binding");
}

#[test]
fn functions_with_empty_bodies_get_no_diagnostics() {
    let source = SourceFile {
        items: vec![function(vec!["s"], vec![])],
        span: span(0, 1000),
    };
    let semantics = model(vec![string_type()], TypeRef::Void, vec![], vec![]);
    assert!(validate(&source, &semantics).is_empty());
}

#[test]
fn a_returned_reference_after_straight_line_code_is_still_checked() {
    let source = SourceFile {
        items: vec![function(
            vec!["s"],
            vec![
                statement(StatementKind::Expression(name("s", 60)), 60),
                statement(StatementKind::Empty, 80),
                statement(StatementKind::Return(Some(name("s", 110))), 100),
            ],
        )],
        span: span(0, 1000),
    };
    let semantics = model(
        vec![string_type()],
        TypeRef::Reference {
            mutable: false,
            target: Box::new(string_type()),
        },
        vec![],
        vec![],
    );
    let diagnostics = validate(&source, &semantics);
    assert_eq!(diagnostics.len(), 1);
    assert_eq!(diagnostics[0].code, "OWN005");
    assert_eq!(diagnostics[0].span, span(110, 111));
}

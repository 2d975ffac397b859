use stainless_compiler::ast::{
    Block, Expression, ExpressionKind, Function, Item, LocalDeclaration, NamedType, Parameter,
    Path, SourceFile, Span, Statement, StatementKind, Type, TypeKind,
};
use stainless_compiler::last_uses::collect_last_uses;

fn span(start: u32) -> Span {
    Span {
        start,
        end: start + 1,
    }
}

fn int_type() -> Type {
    Type {
        is_const: false,
        is_reference: false,
        kind: TypeKind::Named(NamedType {
            path: Path {
                segments: vec!["int".to_string()],
            },
            arguments: vec![],
        }),
        span: span(0),
    }
}

fn name(text: &str, at: u32) -> Expression {
    Expression {
        kind: ExpressionKind::Name(Path {
            segments: vec![text.to_string()],
        }),
        span: span(at),
    }
}

fn statement(kind: StatementKind, at: u32) -> Statement {
    Statement {
        kind,
        span: span(at),
    }
}

fn local(text: &str, initializer: Option<Expression>, at: u32) -> Statement {
    statement(
        StatementKind::Local(LocalDeclaration {
            ty: int_type(),
            name: text.to_string(),
            initializer,
            span: span(at),
        }),
        at,
    )
}

fn function(body: Vec<Statement>) -> Item {
    Item::Function(Function {
        name: Path {
            segments: vec!["f".to_string()],
        },
        return_type: int_type(),
        parameters: vec![Parameter {
            ty: int_type(),
            name: "x".to_string(),
            span: span(1),
        }],
        is_const: false,
        throws: vec![],
        body: Some(Block {
            statements: body,
            span: span(0),
        }),
        span: span(0),
    })
}

#[test]
fn records_the_last_use_of_each_declaration() {
    let source = SourceFile {
        items: vec![function(vec![
            local("y", Some(name("x", 10)), 5),
            statement(StatementKind::Expression(name("x", 20)), 19),
            statement(StatementKind::Return(Some(name("y", 30))), 29),
        ])],
        span: span(0),
    };
    let mut uses = collect_last_uses(&source);
    uses.sort_by_key(|(declaration, _)| declaration.start);
    assert_eq!(uses, vec![(span(1), span(20)), (span(5), span(30))]);
}

#[test]
fn inner_declarations_shadow_until_their_scope_ends() {
    let inner = statement(
        StatementKind::Block(Block {
            statements: vec![
                local("x", None, 40),
                statement(StatementKind::Expression(name("x", 50)), 49),
            ],
            span: span(39),
        }),
        39,
    );
    let source = SourceFile {
        items: vec![function(vec![
            inner,
            statement(StatementKind::Expression(name("x", 60)), 59),
            statement(StatementKind::Expression(name("unknown", 70)), 69),
        ])],
        span: span(0),
    };
    let mut uses = collect_last_uses(&source);
    uses.sort_by_key(|(declaration, _)| declaration.start);
    assert_eq!(uses, vec![(span(1), span(60)), (span(40), span(50))]);
}

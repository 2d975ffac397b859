//! Placeholders the front end substitutes for syntax that failed to parse.

use crate::ast::{Expression, ExpressionKind, Span, Statement, StatementKind, Type, TypeKind};
use vstd::prelude::*;

verus! {

/// A malformed type kept at `span` after parser recovery.
pub fn error_type(span: Span) -> (r: Type)
    ensures
        r == (Type { is_const: false, is_reference: false, kind: TypeKind::Error, span }),
{
    Type { is_const: false, is_reference: false, kind: TypeKind::Error, span }
}

/// A malformed expression kept at `span` after parser recovery.
pub fn error_expression(span: Span) -> (r: Expression)
    ensures
        r == (Expression { kind: ExpressionKind::Error, span }),
{
    Expression { kind: ExpressionKind::Error, span }
}

/// A malformed statement kept at `span` after parser recovery.
pub fn error_statement(span: Span) -> (r: Statement)
    ensures
        r == (Statement { kind: StatementKind::Error, span }),
{
    Statement { kind: StatementKind::Error, span }
}

/// The name given to a declaration whose name is missing.
pub fn missing_name() -> (r: String)
    ensures
        r@ == "<missing>"@,
{
    String::from_str("<missing>")
}

} // verus!

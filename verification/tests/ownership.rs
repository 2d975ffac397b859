use stainless_compiler::ast::{BinaryOperator, Expression, ExpressionKind, Path, Span};
use stainless_compiler::interop::model::TypeRef;
use stainless_compiler::ownership::{
    call_receiver, is_compound_assignment, is_copyable, merge_availability, merge_many_states,
    merge_states, named_binding, root_origin, Availability, ExceptionContext, FlowState,
    Loan, LoopContext,
};

fn span(start: u32, end: u32) -> Span {
    Span { start, end }
}

fn name(text: &str) -> Expression {
    Expression {
        kind: ExpressionKind::Name(Path {
            segments: vec![text.to_string()],
        }),
        span: span(0, 1),
    }
}

fn state_with_scope() -> FlowState {
    let mut state = FlowState::default();
    state.push_scope();
    state
}

#[test]
fn declared_names_are_found_and_shadowing_ends_with_the_scope() {
    let mut state = state_with_scope();
    let outer = state.declare("x".to_string(), TypeRef::I32, None, span(0, 1), None, 0);
    assert_eq!(outer, 0);
    assert_eq!(state.lookup("x"), Some(0));
    state.push_scope();
    let inner = state.declare("x".to_string(), TypeRef::Bool, None, span(2, 3), None, 0);
    assert_eq!(inner, 1);
    assert_eq!(state.lookup("x"), Some(1));
    assert_eq!(state.lookup("y"), None);
    state.pop_scope();
    assert_eq!(state.lookup("x"), Some(0));
    assert_eq!(state.bindings.len(), 2);
}

#[test]
fn closing_a_scope_ends_the_borrows_it_holds() {
    let mut state = state_with_scope();
    let owner = state.declare("owner".to_string(), TypeRef::I32, None, span(0, 1), None, 0);
    state.bindings[owner].shared_borrows = 1;
    state.bindings[owner].mutably_borrowed = true;
    state.push_scope();
    let shared = Loan { owner, mutable: false };
    let borrow = state.declare(
        "view".to_string(),
        TypeRef::Reference {
            mutable: false,
            target: Box::new(TypeRef::I32),
        },
        Some(shared),
        span(2, 3),
        None,
        0,
    );
    assert!(state.bindings[borrow].reference_loan_active);
    state.pop_scope();
    assert_eq!(state.bindings[owner].shared_borrows, 0);
    assert!(state.bindings[owner].mutably_borrowed);
    assert!(!state.bindings[borrow].reference_loan_active);
    state.release(Loan { owner, mutable: true });
    assert!(!state.bindings[owner].mutably_borrowed);
    state.release(Loan { owner, mutable: false });
    assert_eq!(state.bindings[owner].shared_borrows, 0);
}

#[test]
fn root_origin_follows_borrows_to_the_owner() {
    let mut state = state_with_scope();
    let owner = state.declare("owner".to_string(), TypeRef::I32, None, span(0, 1), None, 0);
    let first = state.declare(
        "first".to_string(),
        TypeRef::I32,
        Some(Loan { owner, mutable: true }),
        span(2, 3),
        None,
        0,
    );
    let second = state.declare(
        "second".to_string(),
        TypeRef::I32,
        Some(Loan { owner: first, mutable: false }),
        span(4, 5),
        None,
        0,
    );
    assert_eq!(root_origin(&state, second), owner);
    assert_eq!(root_origin(&state, owner), owner);
}

#[test]
fn merging_availability_keeps_every_move() {
    let a = span(1, 2);
    let b = span(3, 4);
    assert_eq!(
        merge_availability(Availability::Available, Availability::Available),
        Availability::Available
    );
    assert_eq!(
        merge_availability(Availability::Moved(a), Availability::Moved(b)),
        Availability::Moved(a)
    );
    assert_eq!(
        merge_availability(Availability::Moved(a), Availability::Available),
        Availability::MaybeMoved(a)
    );
    assert_eq!(
        merge_availability(Availability::Available, Availability::Moved(b)),
        Availability::MaybeMoved(b)
    );
    assert_eq!(
        merge_availability(Availability::Moved(a), Availability::MaybeMoved(b)),
        Availability::MaybeMoved(b)
    );
    assert_eq!(
        merge_availability(Availability::MaybeMoved(a), Availability::Moved(b)),
        Availability::MaybeMoved(a)
    );
}

#[test]
fn merged_states_combine_the_moves_of_each_path() {
    let mut baseline = state_with_scope();
    baseline.declare("x".to_string(), TypeRef::I32, None, span(0, 1), None, 0);
    baseline.declare("y".to_string(), TypeRef::I32, None, span(0, 1), None, 0);
    let mut left = baseline.copy();
    left.bindings[0].availability = Availability::Moved(span(5, 6));
    let right = baseline.copy();
    let merged = merge_states(&baseline, &left, &right);
    assert_eq!(merged.bindings[0].availability, Availability::MaybeMoved(span(5, 6)));
    assert_eq!(merged.bindings[1].availability, Availability::Available);

    let mut third = baseline.copy();
    third.bindings[1].availability = Availability::Moved(span(7, 8));
    let many = merge_many_states(&baseline, &vec![left.copy(), right.copy(), third]);
    assert_eq!(many.bindings[0].availability, Availability::MaybeMoved(span(5, 6)));
    assert_eq!(many.bindings[1].availability, Availability::MaybeMoved(span(7, 8)));

    let single = merge_many_states(&baseline, &vec![left]);
    assert_eq!(single.bindings[0].availability, Availability::Moved(span(5, 6)));
    let none = merge_many_states(&baseline, &vec![]);
    assert_eq!(none.bindings[0].availability, Availability::Available);
}

#[test]
fn names_and_receivers_are_recognized() {
    let mut state = state_with_scope();
    state.declare("x".to_string(), TypeRef::I32, None, span(0, 1), None, 0);
    let parenthesized = Expression {
        kind: ExpressionKind::Parenthesized(Box::new(name("x"))),
        span: span(0, 3),
    };
    assert_eq!(named_binding(&parenthesized, &state), Some(0));
    assert_eq!(named_binding(&name("z"), &state), None);

    let call = Expression {
        kind: ExpressionKind::Call {
            callee: Box::new(Expression {
                kind: ExpressionKind::Field {
                    receiver: Box::new(name("x")),
                    name: Path {
                        segments: vec!["push".to_string()],
                    },
                },
                span: span(0, 6),
            }),
            arguments: vec![],
        },
        span: span(0, 8),
    };
    assert_eq!(call_receiver(&call), Some(&name("x")));
    assert_eq!(call_receiver(&name("x")), None);
}

#[test]
fn classifies_operators_and_copyable_types() {
    assert!(is_compound_assignment(BinaryOperator::AddAssign));
    assert!(is_compound_assignment(BinaryOperator::RemainderAssign));
    assert!(!is_compound_assignment(BinaryOperator::Assign));
    assert!(!is_compound_assignment(BinaryOperator::Add));
    assert!(is_copyable(&TypeRef::F64));
    assert!(is_copyable(&TypeRef::Native {
        path: "rust::stainless_runtime::Var".to_string(),
        arguments: vec![],
    }));
    assert!(!is_copyable(&TypeRef::Native {
        path: "rust::String".to_string(),
        arguments: vec![],
    }));
    assert!(!is_copyable(&TypeRef::Void));
}

use stainless_compiler::ownership::{Analyzer, Usage};
use stainless_compiler::DiagnosticPhase;

fn analyzer() -> Analyzer {
    Analyzer {
        state: state_with_scope(),
        diagnostics: vec![],
        emitted: vec![],
        return_borrow: None,
        returns_reference: false,
        loop_depth: 0,
        loops: vec![],
        exceptions: vec![],
    }
}

#[test]
fn diagnostics_are_reported_once_per_code_and_range() {
    let mut analyzer = analyzer();
    analyzer.push("OWN001", "first".to_string(), span(1, 2));
    analyzer.push("OWN001", "again".to_string(), span(1, 2));
    analyzer.push("OWN002", "other".to_string(), span(1, 2));
    assert_eq!(analyzer.diagnostics.len(), 2);
    assert_eq!(analyzer.diagnostics[0].message, "first");
    assert_eq!(analyzer.diagnostics[0].phase, DiagnosticPhase::Ownership);
    assert_eq!(analyzer.diagnostics[1].code, "OWN002");
}

#[test]
fn moves_and_borrows_are_checked() {
    let mut analyzer = analyzer();
    let x = analyzer
        .state
        .declare("x".to_string(), TypeRef::I32, None, span(0, 1), None, 0);
    analyzer.mark_moved(x, span(10, 11));
    assert_eq!(analyzer.state.bindings[x].availability, Availability::Moved(span(10, 11)));
    assert!(analyzer.diagnostics.is_empty());
    analyzer.check_usage(x, Usage::Read, span(20, 21));
    assert_eq!(analyzer.diagnostics.len(), 1);
    assert_eq!(analyzer.diagnostics[0].code, "OWN001");
    assert_eq!(
        analyzer.diagnostics[0].message,
        "use of moved binding `x`; it was moved at byte 10"
    );

    let y = analyzer
        .state
        .declare("y".to_string(), TypeRef::I32, None, span(2, 3), None, 0);
    let loan = analyzer.acquire_temporary_loan(Some(y), true, span(30, 31));
    assert_eq!(loan, Some(Loan { owner: y, mutable: true }));
    assert!(analyzer.state.bindings[y].mutably_borrowed);
    assert!(!analyzer.check_borrow_conflict(y, Usage::Read, span(40, 41)));
    assert_eq!(
        analyzer.diagnostics.last().expect("conflict").message,
        "cannot read `y` while it has an active conflicting borrow"
    );
    assert_eq!(analyzer.acquire_temporary_loan(Some(y), false, span(50, 51)), None);
    assert_eq!(
        analyzer.diagnostics.last().expect("conflict").message,
        "cannot borrow `y` while it has an active conflicting borrow"
    );
    analyzer.mark_moved(y, span(60, 61));
    assert_eq!(analyzer.state.bindings[y].availability, Availability::Available);
    assert_eq!(analyzer.acquire_temporary_loan(None, false, span(70, 71)), None);
}

#[test]
fn persistent_loans_borrow_from_the_root_owner() {
    let mut analyzer = analyzer();
    let owner = analyzer
        .state
        .declare("owner".to_string(), TypeRef::I32, None, span(0, 1), None, 0);
    let first = analyzer.acquire_persistent_loan(Some(owner), false, span(5, 6)).expect("loan");
    let view = analyzer.state.declare(
        "view".to_string(),
        TypeRef::I32,
        Some(first),
        span(5, 9),
        Some(span(12, 13)),
        0,
    );
    assert_eq!(analyzer.state.bindings[owner].shared_borrows, 1);
    let second = analyzer
        .acquire_persistent_loan(Some(view), false, span(10, 14))
        .expect("reborrow");
    assert_eq!(second, Loan { owner, mutable: false });
    assert!(!analyzer.state.bindings[view].reference_loan_active);
    assert_eq!(analyzer.state.bindings[owner].shared_borrows, 1);
    assert_eq!(analyzer.acquire_persistent_loan(None, false, span(20, 21)), None);
    assert_eq!(
        analyzer.diagnostics.last().expect("missing origin").message,
        "a local reference requires a stable source binding"
    );
}

#[test]
fn expired_loans_are_released_and_returns_checked() {
    let mut analyzer = analyzer();
    let owner = analyzer
        .state
        .declare("owner".to_string(), TypeRef::I32, None, span(0, 1), None, 0);
    let loan = analyzer.acquire_temporary_loan(Some(owner), true, span(2, 3)).expect("loan");
    let reference = analyzer.state.declare(
        "r".to_string(),
        TypeRef::I32,
        Some(loan),
        span(2, 5),
        Some(span(8, 9)),
        0,
    );
    analyzer.release_expired_loans(5);
    assert!(analyzer.state.bindings[owner].mutably_borrowed);
    analyzer.release_expired_loans(9);
    assert!(!analyzer.state.bindings[owner].mutably_borrowed);
    assert!(!analyzer.state.bindings[reference].reference_loan_active);

    analyzer.validate_reference_return(Some(reference), span(30, 31));
    assert_eq!(
        analyzer.diagnostics.last().expect("no return borrow").message,
        "a reference return requires exactly one reference parameter"
    );
    analyzer.return_borrow = Some(owner);
    let before = analyzer.diagnostics.len();
    analyzer.validate_reference_return(Some(reference), span(32, 33));
    assert_eq!(analyzer.diagnostics.len(), before);
    let other = analyzer
        .state
        .declare("other".to_string(), TypeRef::I32, None, span(40, 41), None, 0);
    analyzer.validate_reference_return(Some(other), span(42, 43));
    assert_eq!(
        analyzer.diagnostics.last().expect("wrong origin").message,
        "returned reference does not originate from the function's reference parameter"
    );
}

#[test]
fn a_break_records_the_state_without_the_loop_body_scopes() {
    let mut analyzer = analyzer();
    analyzer.state.declare("outer".to_string(), TypeRef::I32, None, span(0, 1), None, 0);
    analyzer.loops.push(LoopContext {
        scope_depth: 1,
        break_states: vec![],
        continue_states: vec![],
    });
    analyzer.state.push_scope();
    analyzer.state.declare("inner".to_string(), TypeRef::I32, None, span(2, 3), None, 0);
    analyzer.capture_loop_exit(false);
    assert_eq!(analyzer.loops[0].break_states.len(), 1);
    assert_eq!(analyzer.loops[0].continue_states.len(), 0);
    let recorded = &analyzer.loops[0].break_states[0];
    assert_eq!(recorded.scopes.len(), 1);
    assert_eq!(recorded.lookup("outer"), Some(0));
    assert_eq!(recorded.lookup("inner"), None);
    assert_eq!(analyzer.state.scopes.len(), 2);
    analyzer.capture_loop_exit(true);
    assert_eq!(analyzer.loops[0].continue_states.len(), 1);
    assert_eq!(analyzer.loops[0].break_states.len(), 1);
}

#[test]
fn a_loop_exit_outside_any_loop_changes_nothing() {
    let mut analyzer = analyzer();
    analyzer.capture_loop_exit(false);
    assert!(analyzer.loops.is_empty());
    assert!(analyzer.diagnostics.is_empty());
}

#[test]
fn every_open_handler_receives_the_state_at_a_throw() {
    let mut analyzer = analyzer();
    analyzer.state.declare("value".to_string(), TypeRef::I32, None, span(0, 1), None, 0);
    analyzer.exceptions.push(ExceptionContext {
        scope_depth: 1,
        states: vec![],
    });
    analyzer.state.push_scope();
    analyzer.exceptions.push(ExceptionContext {
        scope_depth: 2,
        states: vec![],
    });
    analyzer.state.declare("local".to_string(), TypeRef::I32, None, span(2, 3), None, 0);
    analyzer.capture_exception_state();
    assert_eq!(analyzer.exceptions[0].states.len(), 1);
    assert_eq!(analyzer.exceptions[1].states.len(), 1);
    assert_eq!(analyzer.exceptions[0].states[0].scopes.len(), 1);
    assert_eq!(analyzer.exceptions[0].states[0].lookup("local"), None);
    assert_eq!(analyzer.exceptions[1].states[0].scopes.len(), 2);
    assert_eq!(analyzer.exceptions[1].states[0].lookup("local"), Some(1));
}

//! The walk of ownership validation over a resolved source file: how each
//! statement and expression moves, borrows and releases bindings.

use crate::ast::{
    BinaryOperator, Block, ClassicForClause, Constructor, Expression, ExpressionKind, ForClause,
    ForInitializer, ForStatement, Function, IfStatement, Item, LambdaCaptureKind, LocalDeclaration,
    PrefixOperator, RangeForClause, SourceFile, Span, Statement, StatementKind,
};
use crate::hir_lowering::{canonical, canonical_ref, is_json_type, json_type};
use crate::Diagnostic;
use crate::interop::model::{CallStyle, Receiver, TypeRef};
use crate::ownership::{
    call_receiver, is_compound_assignment, is_copyable, merge_many_states, merge_states,
    lemma_open_ids_below, named_binding, open_ids_below, root_of, root_origin, grew, reported, was_emitted, Analyzer, ExceptionContext, FlowState, Loan,
    LoopContext, Usage,
};
use crate::resolution::{
    entry_at, entry_for, BindingResolution, CallTarget, CallbackTarget, FunctionSymbol,
    Intrinsic, LambdaCaptureMode, ParameterSymbol, ResolvedCall, SemanticModel,
};
use vstd::prelude::*;

verus! {

/// The positions of the reference parameters in `ps`, in order.
pub open spec fn reference_positions(ps: Seq<ParameterSymbol>) -> Seq<int>
    decreases ps.len(),
{
    if ps.len() == 0 {
        Seq::empty()
    } else if ps.last().ty is Reference {
        reference_positions(ps.drop_last()).push(ps.len() - 1)
    } else {
        reference_positions(ps.drop_last())
    }
}

/// The parameter a returned reference borrows from: the one reference
/// parameter of a function that returns a reference, if it has exactly one.
pub open spec fn return_borrow_of(f: FunctionSymbol) -> Option<int> {
    let positions = reference_positions(f.parameters@);
    if f.return_type is Reference && positions.len() == 1 {
        Some(positions[0])
    } else {
        None
    }
}

/// The index of the parameter a returned reference must borrow from.
pub fn return_borrow_parameter(function: &FunctionSymbol) -> (r: Option<usize>)
    ensures
        match r {
            Some(i) => return_borrow_of(*function) == Some(i as int),
            None => return_borrow_of(*function) is None,
        },
{
    if !function.return_type.is_reference() {
        return None;
    }
    let ghost ps = function.parameters@;
    let mut first: usize = 0;
    let mut count: usize = 0;
    let mut i: usize = 0;
    while i < function.parameters.len()
        invariant
            ps == function.parameters@,
            i <= ps.len(),
            count <= 2,
            count == (if reference_positions(ps.take(i as int)).len() < 2 {
                reference_positions(ps.take(i as int)).len()
            } else {
                2
            }),
            count >= 1 ==> first as int == reference_positions(ps.take(i as int))[0],
            forall|k: int| 0 <= k < reference_positions(ps.take(i as int)).len()
                ==> 0 <= #[trigger] reference_positions(ps.take(i as int))[k] < i,
        decreases ps.len() - i,
    {
        let ghost before = reference_positions(ps.take(i as int));
        assert(ps.take(i + 1).drop_last() =~= ps.take(i as int));
        assert(ps.take(i + 1).last() == ps[i as int]);
        if function.parameters[i].ty.is_reference() {
            if count == 0 {
                first = i;
            }
            if count < 2 {
                count = count + 1;
            }
        }
        i = i + 1;
    }
    assert(ps.take(i as int) =~= ps);
    if count == 1 {
        Some(first)
    } else {
        None
    }
}

/// Whether the expression is resolved to a call of `std::move`.
pub open spec fn move_call(semantics: SemanticModel, e: Expression) -> bool {
    match entry_for(semantics.expressions@, e.span) {
        Some(resolution) => resolution.call matches Some(call) && call.target matches CallTarget::Intrinsic(
            Intrinsic::Move,
        ),
        None => false,
    }
}

/// Returns whether the expression is resolved to a call of `std::move`.
pub fn is_move_call(semantics: &SemanticModel, expression: &Expression) -> (r: bool)
    ensures
        r == move_call(*semantics, *expression),
{
    match semantics.expression(expression.span) {
        Some(resolution) => match &resolution.call {
            Some(call) => matches!(&call.target, CallTarget::Intrinsic(Intrinsic::Move)),
            None => false,
        },
        None => false,
    }
}

/// Whether the expression is resolved to a value of the JSON type, or a
/// reference to one.
pub open spec fn json_receiver(semantics: SemanticModel, e: Expression) -> bool {
    match entry_for(semantics.expressions@, e.span) {
        Some(resolution) => json_type(canonical(resolution.ty)),
        None => false,
    }
}

/// Whether assigning to the expression writes into a JSON value: a member
/// of a JSON value that is not a declared field, or an element of one.
pub open spec fn json_mutation_place(semantics: SemanticModel, e: Expression) -> bool {
    match e.kind {
        ExpressionKind::Field { receiver, .. } => (match entry_for(semantics.expressions@, e.span) {
            Some(resolution) => resolution.field is None,
            None => false,
        }) && json_receiver(semantics, *receiver),
        ExpressionKind::Index { receiver, .. } => json_receiver(semantics, *receiver),
        _ => false,
    }
}

fn is_json_receiver(semantics: &SemanticModel, receiver: &Expression) -> (r: bool)
    ensures
        r == json_receiver(*semantics, *receiver),
{
    match semantics.expression(receiver.span) {
        Some(resolution) => is_json_type(canonical_ref(&resolution.ty)),
        None => false,
    }
}

/// Returns whether assigning to the expression writes into a JSON value.
pub fn is_json_mutation_place(expression: &Expression, semantics: &SemanticModel) -> (r: bool)
    ensures
        r == json_mutation_place(*semantics, *expression),
{
    match &expression.kind {
        ExpressionKind::Field { receiver, .. } => {
            let plain = match semantics.expression(expression.span) {
                Some(resolution) => resolution.field.is_none(),
                None => false,
            };
            plain && is_json_receiver(semantics, receiver)
        },
        ExpressionKind::Index { receiver, .. } => is_json_receiver(semantics, receiver),
        _ => false,
    }
}

/// The types of `parameters`, in order.
fn parameter_types(parameters: &Vec<ParameterSymbol>) -> (r: Vec<TypeRef>)
    ensures
        r@.len() == parameters@.len(),
        forall|i: int| 0 <= i < r@.len() ==> crate::interop::model::type_eq(#[trigger] r@[i], parameters@[i].ty),
{
    let mut r: Vec<TypeRef> = Vec::new();
    let mut i: usize = 0;
    while i < parameters.len()
        invariant
            i <= parameters@.len(),
            r@.len() == i,
            forall|k: int| 0 <= k < i ==> crate::interop::model::type_eq(#[trigger] r@[k], parameters@[k].ty),
        decreases parameters@.len() - i,
    {
        r.push(parameters[i].ty.copy());
        i = i + 1;
    }
    r
}

/// The last use recorded for the declaration at `span`.
fn last_use_at(last_uses: &Vec<(Span, Span)>, span: Span) -> (r: Option<Span>)
    ensures
        r == entry_for(last_uses@, span),
{
    match entry_at(last_uses, span) {
        Some(last) => Some(*last),
        None => None,
    }
}

/// Every state in `states` is well formed.
pub open spec fn states_well_formed(states: Seq<FlowState>) -> bool {
    forall|i: int| 0 <= i < states.len() ==> (#[trigger] states[i]).well_formed()
}

/// Every state recorded for an enclosing loop or `try` is well formed.
pub open spec fn contexts_hold(a: Analyzer) -> bool {
    &&& forall|k: int|
        0 <= k < a.loops@.len() ==> states_well_formed((#[trigger] a.loops@[k]).break_states@)
            && states_well_formed(a.loops@[k].continue_states@)
    &&& forall|k: int| 0 <= k < a.exceptions@.len() ==> states_well_formed((#[trigger] a.exceptions@[k]).states@)
}

/// The analyzer is ready to walk code: its state is well formed with an
/// open scope, the parameter a returned reference must borrow from is a
/// binding, and every recorded state is well formed.
pub open spec fn walkable(a: Analyzer) -> bool {
    &&& a.state.well_formed()
    &&& a.state.scope_ids().len() > 0
    &&& match a.return_borrow {
        Some(id) => id < a.state.bindings@.len(),
        None => true,
    }
    &&& contexts_hold(a)
}

/// `after` is `before` with states appended that each have at least
/// `floor` bindings.
pub open spec fn extended(before: Seq<FlowState>, after: Seq<FlowState>, floor: nat) -> bool {
    &&& before.len() <= after.len()
    &&& after.take(before.len() as int) == before
    &&& forall|i: int| before.len() <= i < after.len() ==> (#[trigger] after[i]).bindings@.len() >= floor
}

/// Each loop context of `after` extends the one of `before`.
pub open spec fn loops_extended(before: Seq<LoopContext>, after: Seq<LoopContext>, floor: nat) -> bool {
    &&& after.len() == before.len()
    &&& forall|k: int|
        0 <= k < before.len() ==> {
            &&& (#[trigger] after[k]).scope_depth == before[k].scope_depth
            &&& extended(before[k].break_states@, after[k].break_states@, floor)
            &&& extended(before[k].continue_states@, after[k].continue_states@, floor)
        }
}

/// Each `try` context of `after` extends the one of `before`.
pub open spec fn exceptions_extended(
    before: Seq<ExceptionContext>,
    after: Seq<ExceptionContext>,
    floor: nat,
) -> bool {
    &&& after.len() == before.len()
    &&& forall|k: int|
        0 <= k < before.len() ==> {
            &&& (#[trigger] after[k]).scope_depth == before[k].scope_depth
            &&& extended(before[k].states@, after[k].states@, floor)
        }
}

/// Every continue state `after` records for a loop of `before` whose scopes
/// lie outside the innermost open scope `ids` holds exactly the loop's
/// scopes as `ids` has them.
pub open spec fn continues_scoped(
    before: Seq<LoopContext>,
    after: Seq<LoopContext>,
    ids: Seq<Seq<usize>>,
    limit: nat,
) -> bool {
    forall|k: int, i: int|
        0 <= k < before.len() && before[k].scope_depth < limit && before[k].continue_states@.len() <= i
            < after[k].continue_states@.len() ==> (#[trigger] after[k].continue_states@[i]).scope_ids() == ids.take(
            before[k].scope_depth as int,
        )
}

/// Every state `after` records for a `try` of `before` whose scopes lie
/// outside the innermost open scope `ids` holds exactly the `try`'s scopes
/// as `ids` has them.
pub open spec fn throws_scoped(
    before: Seq<ExceptionContext>,
    after: Seq<ExceptionContext>,
    ids: Seq<Seq<usize>>,
    limit: nat,
) -> bool {
    forall|k: int, i: int|
        0 <= k < before.len() && before[k].scope_depth < limit && before[k].states@.len() <= i
            < after[k].states@.len() ==> (#[trigger] after[k].states@[i]).scope_ids() == ids.take(
            before[k].scope_depth as int,
        )
}

/// What walking code keeps: the analyzer stays walkable, no binding is
/// forgotten, the scopes and the function context are those it started
/// with, the enclosing loops and `try` statements only gain states, and
/// diagnostics are only added.
pub open spec fn walked(before: Analyzer, after: Analyzer) -> bool {
    &&& walkable(before)
    &&& walkable(after)
    &&& after.state.bindings@.len() >= before.state.bindings@.len()
    &&& after.state.scope_ids().len() == before.state.scope_ids().len()
    &&& after.state.scope_ids().drop_last() == before.state.scope_ids().drop_last()
    &&& continues_scoped(before.loops@, after.loops@, before.state.scope_ids(), before.state.scope_ids().len())
    &&& throws_scoped(before.exceptions@, after.exceptions@, before.state.scope_ids(), before.state.scope_ids().len())
    &&& after.return_borrow == before.return_borrow
    &&& after.returns_reference == before.returns_reference
    &&& after.loop_depth == before.loop_depth
    &&& loops_extended(before.loops@, after.loops@, before.state.bindings@.len())
    &&& exceptions_extended(before.exceptions@, after.exceptions@, before.state.bindings@.len())
    &&& grew(before, after)
}

proof fn lemma_extended_trans(a: Seq<FlowState>, b: Seq<FlowState>, c: Seq<FlowState>, f: nat, g: nat)
    requires
        extended(a, b, f),
        extended(b, c, g),
        g >= f,
    ensures
        extended(a, c, f),
{
    assert(c.take(a.len() as int) =~= c.take(b.len() as int).take(a.len() as int));
    assert forall|i: int| a.len() <= i < c.len() implies (#[trigger] c[i]).bindings@.len() >= f by {
        if i < b.len() {
            assert(c.take(b.len() as int)[i] == c[i]);
        }
    }
}

proof fn lemma_extended_refl(a: Seq<FlowState>, f: nat)
    ensures
        extended(a, a, f),
{
    assert(a.take(a.len() as int) =~= a);
}

proof fn lemma_extended_weaker(a: Seq<FlowState>, b: Seq<FlowState>, f: nat, g: nat)
    requires
        extended(a, b, f),
        g <= f,
    ensures
        extended(a, b, g),
{
}

/// Walking in two steps is walking.
proof fn lemma_walked_trans(a: Analyzer, b: Analyzer, c: Analyzer)
    requires
        walked(a, b),
        walked(b, c),
    ensures
        walked(a, c),
{
    let f = a.state.bindings@.len();
    let g = b.state.bindings@.len();
    assert forall|k: int| 0 <= k < a.loops@.len() implies {
        &&& (#[trigger] c.loops@[k]).scope_depth == a.loops@[k].scope_depth
        &&& extended(a.loops@[k].break_states@, c.loops@[k].break_states@, f)
        &&& extended(a.loops@[k].continue_states@, c.loops@[k].continue_states@, f)
    } by {
        lemma_extended_trans(a.loops@[k].break_states@, b.loops@[k].break_states@, c.loops@[k].break_states@, f, g);
        lemma_extended_trans(
            a.loops@[k].continue_states@,
            b.loops@[k].continue_states@,
            c.loops@[k].continue_states@,
            f,
            g,
        );
    }
    assert forall|k: int| 0 <= k < a.exceptions@.len() implies {
        &&& (#[trigger] c.exceptions@[k]).scope_depth == a.exceptions@[k].scope_depth
        &&& extended(a.exceptions@[k].states@, c.exceptions@[k].states@, f)
    } by {
        lemma_extended_trans(a.exceptions@[k].states@, b.exceptions@[k].states@, c.exceptions@[k].states@, f, g);
    }
    assert(c.state.scope_ids().drop_last() =~= a.state.scope_ids().drop_last());
    assert forall|k: int, i: int|
        0 <= k < a.loops@.len() && a.loops@[k].scope_depth < a.state.scope_ids().len()
            && a.loops@[k].continue_states@.len() <= i < c.loops@[k].continue_states@.len() implies (
    #[trigger] c.loops@[k].continue_states@[i]).scope_ids() == a.state.scope_ids().take(
        a.loops@[k].scope_depth as int,
    ) by {
        let d = a.loops@[k].scope_depth as int;
        let mid = b.loops@[k].continue_states@;
        assert(b.state.scope_ids().len() == a.state.scope_ids().len());
        assert(a.state.scope_ids().take(d) =~= b.state.scope_ids().take(d)) by {
            assert(a.state.scope_ids().take(d) =~= a.state.scope_ids().drop_last().take(d));
            assert(b.state.scope_ids().take(d) =~= b.state.scope_ids().drop_last().take(d));
        }
        if i < mid.len() {
            assert(c.loops@[k].continue_states@.take(mid.len() as int)[i] == c.loops@[k].continue_states@[i]);
            assert(mid[i] == c.loops@[k].continue_states@[i]);
            assert(b.loops@[k].continue_states@[i].scope_ids() == a.state.scope_ids().take(d));
        } else {
            assert(b.loops@[k].scope_depth == a.loops@[k].scope_depth);
            assert(c.loops@[k].continue_states@[i].scope_ids() == b.state.scope_ids().take(d));
        }
    }
    assert forall|k: int, i: int|
        0 <= k < a.exceptions@.len() && a.exceptions@[k].scope_depth < a.state.scope_ids().len()
            && a.exceptions@[k].states@.len() <= i < c.exceptions@[k].states@.len() implies (
    #[trigger] c.exceptions@[k].states@[i]).scope_ids() == a.state.scope_ids().take(
        a.exceptions@[k].scope_depth as int,
    ) by {
        let d = a.exceptions@[k].scope_depth as int;
        let mid = b.exceptions@[k].states@;
        assert(b.state.scope_ids().len() == a.state.scope_ids().len());
        assert(a.state.scope_ids().take(d) =~= b.state.scope_ids().take(d)) by {
            assert(a.state.scope_ids().take(d) =~= a.state.scope_ids().drop_last().take(d));
            assert(b.state.scope_ids().take(d) =~= b.state.scope_ids().drop_last().take(d));
        }
        if i < mid.len() {
            assert(c.exceptions@[k].states@.take(mid.len() as int)[i] == c.exceptions@[k].states@[i]);
            assert(mid[i] == c.exceptions@[k].states@[i]);
            assert(b.exceptions@[k].states@[i].scope_ids() == a.state.scope_ids().take(d));
        } else {
            assert(b.exceptions@[k].scope_depth == a.exceptions@[k].scope_depth);
            assert(c.exceptions@[k].states@[i].scope_ids() == b.state.scope_ids().take(d));
        }
    }
    assert(a.diagnostics@ =~= c.diagnostics@.subrange(0, a.diagnostics@.len() as int)) by {
        assert(a.diagnostics@ =~= b.diagnostics@.subrange(0, a.diagnostics@.len() as int));
        assert(b.diagnostics@ =~= c.diagnostics@.subrange(0, b.diagnostics@.len() as int));
    }
    assert(a.emitted@ =~= c.emitted@.subrange(0, a.emitted@.len() as int)) by {
        assert(a.emitted@ =~= b.emitted@.subrange(0, a.emitted@.len() as int));
        assert(b.emitted@ =~= c.emitted@.subrange(0, b.emitted@.len() as int));
    }
    assert forall|i: int| a.diagnostics@.len() <= i < c.diagnostics@.len() implies (
    #[trigger] c.diagnostics@[i]).phase == crate::DiagnosticPhase::Ownership
        && crate::ownership::ownership_code(c.diagnostics@[i].code) by {
        if i < b.diagnostics@.len() {
            assert(c.diagnostics@.subrange(0, b.diagnostics@.len() as int)[i] == c.diagnostics@[i]);
        }
    }
}

/// A step that keeps the state's shape and the context, and only adds
/// diagnostics, is a walk.
proof fn lemma_step(a: Analyzer, b: Analyzer)
    requires
        walkable(a),
        b.state.well_formed(),
        b.state.bindings@.len() >= a.state.bindings@.len(),
        b.state.scope_ids().len() == a.state.scope_ids().len(),
        b.state.scope_ids().drop_last() == a.state.scope_ids().drop_last(),
        b.return_borrow == a.return_borrow,
        b.returns_reference == a.returns_reference,
        b.loop_depth == a.loop_depth,
        b.loops == a.loops,
        b.exceptions == a.exceptions,
        grew(a, b),
    ensures
        walked(a, b),
{
    let f = a.state.bindings@.len();
    assert forall|k: int| 0 <= k < a.loops@.len() implies {
        &&& (#[trigger] b.loops@[k]).scope_depth == a.loops@[k].scope_depth
        &&& extended(a.loops@[k].break_states@, b.loops@[k].break_states@, f)
        &&& extended(a.loops@[k].continue_states@, b.loops@[k].continue_states@, f)
    } by {
        lemma_extended_refl(a.loops@[k].break_states@, f);
        lemma_extended_refl(a.loops@[k].continue_states@, f);
    }
    assert forall|k: int| 0 <= k < a.exceptions@.len() implies {
        &&& (#[trigger] b.exceptions@[k]).scope_depth == a.exceptions@[k].scope_depth
        &&& extended(a.exceptions@[k].states@, b.exceptions@[k].states@, f)
    } by {
        lemma_extended_refl(a.exceptions@[k].states@, f);
    }
}

proof fn lemma_silent_grew(a: Analyzer, b: Analyzer)
    requires
        crate::ownership::silent(a, b),
    ensures
        grew(a, b),
{
    assert(a.diagnostics@ =~= b.diagnostics@.subrange(0, a.diagnostics@.len() as int));
    assert(a.emitted@ =~= b.emitted@.subrange(0, a.emitted@.len() as int));
}

/// A walkable analyzer has walked to itself.
proof fn lemma_walked_refl(a: Analyzer)
    requires
        walkable(a),
    ensures
        walked(a, a),
{
    lemma_silent_grew(a, a);
    lemma_step(a, a);
}

/// A name found in a well-formed state refers to a binding.
proof fn lemma_lookup_below(state: FlowState, name: Seq<char>)
    requires
        state.well_formed(),
    ensures
        match crate::ownership::scopes_lookup(state.scope_views(), name) {
            Some(id) => id < state.bindings@.len(),
            None => true,
        },
{
    lemma_scopes_lookup_below(state.scope_views(), name, state.bindings@.len());
}

proof fn lemma_scopes_lookup_below(scopes: Seq<Seq<(Seq<char>, usize)>>, name: Seq<char>, n: nat)
    requires
        forall|s: int, k: int| 0 <= s < scopes.len() && 0 <= k < scopes[s].len() ==> (#[trigger] scopes[s][k]).1 < n,
    ensures
        match crate::ownership::scopes_lookup(scopes, name) {
            Some(id) => id < n,
            None => true,
        },
    decreases scopes.len(),
{
    if scopes.len() > 0 {
        lemma_scope_lookup_below(scopes.last(), name, n);
        lemma_scopes_lookup_below(scopes.drop_last(), name, n);
    }
}

proof fn lemma_scope_lookup_below(scope: Seq<(Seq<char>, usize)>, name: Seq<char>, n: nat)
    requires
        forall|k: int| 0 <= k < scope.len() ==> (#[trigger] scope[k]).1 < n,
    ensures
        match crate::ownership::scope_lookup(scope, name) {
            Some(id) => id < n,
            None => true,
        },
    decreases scope.len(),
{
    if scope.len() > 0 {
        lemma_scope_lookup_below(scope.drop_last(), name, n);
    }
}

} // verus!

verus! {

/// Replacing a walked analyzer's state by a well-formed state with the same
/// number of scopes and at least the bindings it started with is a walk.
proof fn lemma_state_replaced(a: Analyzer, b: Analyzer, c: Analyzer)
    requires
        walked(a, b),
        c.state.well_formed(),
        c.state.scope_ids().len() == a.state.scope_ids().len(),
        c.state.scope_ids().drop_last() == a.state.scope_ids().drop_last(),
        c.state.bindings@.len() >= a.state.bindings@.len(),
        match c.return_borrow {
            Some(id) => id < c.state.bindings@.len(),
            None => true,
        },
        c.diagnostics == b.diagnostics,
        c.emitted == b.emitted,
        c.return_borrow == b.return_borrow,
        c.returns_reference == b.returns_reference,
        c.loop_depth == b.loop_depth,
        c.loops == b.loops,
        c.exceptions == b.exceptions,
    ensures
        walked(a, c),
{
}

/// Whether every loan in `loans` borrows one of the first `n` bindings.
pub open spec fn loans_below(loans: Seq<Loan>, n: nat) -> bool {
    forall|i: int| 0 <= i < loans.len() ==> (#[trigger] loans[i]).owner < n
}

/// The usage of a borrow of the given mutability.
fn borrow_usage(mutable: bool) -> (r: Usage)
    ensures
        r == (if mutable { Usage::BorrowMutable } else { Usage::BorrowShared }),
{
    if mutable {
        Usage::BorrowMutable
    } else {
        Usage::BorrowShared
    }
}

impl Analyzer {
    /// Borrows `origin` for the length of one expression; a binding whose
    /// count of shared borrows is saturated is not borrowed again.
    fn temporary_loan(&mut self, origin: Option<usize>, mutable: bool, span: Span) -> (r: Option<Loan>)
        requires
            walkable(*old(self)),
            match origin {
                Some(id) => id < old(self).state.bindings@.len(),
                None => true,
            },
        ensures
            walked(*old(self), *final(self)),
            final(self).loops == old(self).loops,
            final(self).state.scope_ids() == old(self).state.scope_ids(),
            final(self).state.bindings@.len() == old(self).state.bindings@.len(),
            match r {
                Some(loan) => loan.owner < final(self).state.bindings@.len(),
                None => true,
            },
    {
        if let Some(owner) = origin {
            if self.state.bindings[owner].shared_borrows == usize::MAX {
                proof {
                    lemma_walked_refl(*self);
                }
                return None;
            }
        }
        let r = self.acquire_temporary_loan(origin, mutable, span);
        proof {
            lemma_step(*old(self), *self);
        }
        r
    }

    /// Borrows `origin` for as long as a reference local holds it; a
    /// binding whose count of shared borrows is saturated is not borrowed
    /// again.
    fn persistent_loan(&mut self, origin: Option<usize>, mutable: bool, span: Span) -> (r: Option<Loan>)
        requires
            walkable(*old(self)),
            match origin {
                Some(id) => id < old(self).state.bindings@.len(),
                None => true,
            },
        ensures
            walked(*old(self), *final(self)),
            final(self).loops == old(self).loops,
            final(self).state.scope_ids() == old(self).state.scope_ids(),
            final(self).state.bindings@.len() == old(self).state.bindings@.len(),
            match r {
                Some(loan) => loan.owner < final(self).state.bindings@.len(),
                None => true,
            },
            origin is None ==> was_emitted(final(self).emitted@, "OWN004", span),
    {
        if let Some(id) = origin {
            let owner = root_origin(&self.state, id);
            if self.state.bindings[owner].shared_borrows == usize::MAX {
                proof {
                    lemma_walked_refl(*self);
                }
                return None;
            }
        }
        let r = self.acquire_persistent_loan(origin, mutable, span);
        proof {
            lemma_step(*old(self), *self);
            if origin is None {
                lemma_reported_emits(
                    *old(self),
                    *self,
                    "OWN004",
                    "a local reference requires a stable source binding"@,
                    span,
                );
            }
        }
        r
    }

    /// Ends `loans`, the latest taken first.
    fn release_loans(&mut self, loans: Vec<Loan>)
        requires
            walkable(*old(self)),
            loans_below(loans@, old(self).state.bindings@.len()),
        ensures
            walked(*old(self), *final(self)),
            final(self).loops == old(self).loops,
            final(self).state.scope_ids() == old(self).state.scope_ids(),
            final(self).state.bindings@.len() == old(self).state.bindings@.len(),
    {
        let mut k = loans.len();
        proof {
            lemma_walked_refl(*self);
        }
        while k > 0
            invariant
                k <= loans@.len(),
                loans_below(loans@, old(self).state.bindings@.len()),
                walked(*old(self), *self),
                self.loops == old(self).loops,
                self.state.scope_ids() == old(self).state.scope_ids(),
                self.state.bindings@.len() == old(self).state.bindings@.len(),
            decreases k,
        {
            let ghost before = *self;
            self.state.release(loans[k - 1]);
            proof {
                lemma_step(before, *self);
                lemma_walked_trans(*old(self), before, *self);
            }
            k = k - 1;
        }
    }

    /// Records the state at a point that may throw, for every enclosing
    /// `try`.
    fn throw_point(&mut self)
        requires
            walkable(*old(self)),
        ensures
            walked(*old(self), *final(self)),
            final(self).loops == old(self).loops,
            final(self).state.scope_ids() == old(self).state.scope_ids(),
            final(self).state.bindings@.len() == old(self).state.bindings@.len(),
            final(self).state.bindings@ == old(self).state.bindings@,
            final(self).state.scopes == old(self).state.scopes,
            crate::ownership::silent(*old(self), *final(self)),
    {
        self.capture_exception_state();
        proof {
            let a = *old(self);
            let b = *self;
            let f = a.state.bindings@.len();
            assert forall|k: int| 0 <= k < a.exceptions@.len() implies {
                &&& (#[trigger] b.exceptions@[k]).scope_depth == a.exceptions@[k].scope_depth
                &&& extended(a.exceptions@[k].states@, b.exceptions@[k].states@, f)
            } by {
                let before = a.exceptions@[k].states@;
                let after = b.exceptions@[k].states@;
                assert(after.take(before.len() as int) =~= after.drop_last());
            }
            assert forall|k: int, i: int|
                0 <= k < a.exceptions@.len() && a.exceptions@[k].scope_depth < a.state.scope_ids().len()
                    && a.exceptions@[k].states@.len() <= i < b.exceptions@[k].states@.len() implies (
            #[trigger] b.exceptions@[k].states@[i]).scope_ids() == a.state.scope_ids().take(
                a.exceptions@[k].scope_depth as int,
            ) by {
                assert(i == b.exceptions@[k].states@.len() - 1);
            }
            assert forall|k: int| 0 <= k < b.exceptions@.len() implies states_well_formed(
                (#[trigger] b.exceptions@[k]).states@,
            ) by {
                let before = a.exceptions@[k].states@;
                let after = b.exceptions@[k].states@;
                assert forall|i: int| 0 <= i < after.len() implies (#[trigger] after[i]).well_formed() by {
                    if i < before.len() {
                        assert(after.drop_last()[i] == after[i]);
                    }
                }
            }
            assert forall|k: int| 0 <= k < a.loops@.len() implies {
                &&& (#[trigger] b.loops@[k]).scope_depth == a.loops@[k].scope_depth
                &&& extended(a.loops@[k].break_states@, b.loops@[k].break_states@, f)
                &&& extended(a.loops@[k].continue_states@, b.loops@[k].continue_states@, f)
            } by {
                lemma_extended_refl(a.loops@[k].break_states@, f);
                lemma_extended_refl(a.loops@[k].continue_states@, f);
            }
        }
    }

    /// Makes binding `id` available again, as an assignment does.
    fn make_available(&mut self, id: usize)
        requires
            walkable(*old(self)),
            id < old(self).state.bindings@.len(),
        ensures
            walked(*old(self), *final(self)),
            final(self).loops == old(self).loops,
            final(self).state.scope_ids() == old(self).state.scope_ids(),
            final(self).state.bindings@.len() == old(self).state.bindings@.len(),
    {
        self.state.bindings[id].availability = crate::ownership::Availability::Available;
        proof {
            assert forall|q: int| 0 <= q < self.state.bindings@.len() implies match (#[trigger] self.state.bindings@[q]).reference_loan {
                Some(loan) => loan.owner < q,
                None => true,
            } by {
                assert(self.state.bindings@[q].reference_loan == old(self).state.bindings@[q].reference_loan);
            }
            lemma_silent_grew(*old(self), *self);
            lemma_step(*old(self), *self);
        }
    }
}

} // verus!

verus! {

impl Analyzer {
    /// Checks the uses, moves and borrows in an expression used as `usage`;
    /// returns the binding the expression's value comes from, if it names
    /// or borrows one.
    fn expression(&mut self, semantics: &SemanticModel, expression: &Expression, usage: Usage) -> (r: Option<usize>)
        requires
            walkable(*old(self)),
        ensures
            walked(*old(self), *final(self)),
            match expression.kind {
                ExpressionKind::Name(path) => r == (if path.segments@.len() > 0 {
                    crate::ownership::scopes_lookup(old(self).state.scope_views(), path.segments@[0]@)
                } else {
                    None
                }),
                ExpressionKind::Literal(_) | ExpressionKind::Error => r is None && *final(self) == *old(self),
                ExpressionKind::Prefix { .. } | ExpressionKind::Postfix { .. } | ExpressionKind::Binary { .. }
                | ExpressionKind::MacroCall { .. } | ExpressionKind::Aggregate { .. }
                | ExpressionKind::JsonArray { .. } | ExpressionKind::JsonObject { .. }
                | ExpressionKind::Index { .. } | ExpressionKind::Lambda { .. } => r is None,
                _ => true,
            },
            final(self).loops == old(self).loops,
            final(self).state.scope_ids() == old(self).state.scope_ids(),
            match r {
                Some(id) => id < final(self).state.bindings@.len(),
                None => true,
            },
            expression_effect(*semantics, *old(self), *final(self), *expression, usage),
        decreases expression, 2nat,
    {
        let ghost start = *self;
        match &expression.kind {
            ExpressionKind::Name(path) => {
                if path.segments.len() == 0 {
                    proof {
                        lemma_walked_refl(start);
                    }
                    return None;
                }
                let found = self.state.lookup(path.segments[0].as_str());
                proof {
                    lemma_lookup_below(self.state, path.segments@[0]@);
                }
                match found {
                    Some(id) => {
                        self.check_usage(id, usage, expression.span);
                        proof {
                            lemma_step(start, *self);
                        }
                        Some(id)
                    },
                    None => {
                        proof {
                            lemma_walked_refl(start);
                        }
                        None
                    },
                }
            },
            ExpressionKind::Literal(_) | ExpressionKind::Error => {
                proof {
                    lemma_walked_refl(start);
                }
                None
            },
            ExpressionKind::Lambda { .. } => {
                let mut loans: Vec<Loan> = Vec::new();
                self.callback_argument(semantics, expression, &mut loans);
                let ghost mid = *self;
                self.release_loans(loans);
                proof {
                    lemma_walked_trans(start, mid, *self);
                }
                None
            },
            ExpressionKind::Parenthesized(inner) => self.expression(semantics, inner, usage),
            ExpressionKind::Prefix { operator, operand } => {
                let operand_usage = match operator {
                    PrefixOperator::Increment | PrefixOperator::Decrement => Usage::Mutate,
                    _ => Usage::Read,
                };
                self.expression(semantics, operand, operand_usage);
                None
            },
            ExpressionKind::Postfix { operand, .. } => {
                self.expression(semantics, operand, Usage::Mutate);
                None
            },
            ExpressionKind::Binary { left, operator, right } => {
                let operator = *operator;
                if operator == BinaryOperator::Assign {
                    self.expression(semantics, right, Usage::Read);
                    if semantics.rust_result_adaptation(right.span) {
                        let ghost mid = *self;
                        self.throw_point();
                        proof {
                            lemma_walked_trans(start, mid, *self);
                        }
                    }
                    if is_json_mutation_place(left, semantics) {
                        let ghost mid = *self;
                        self.throw_point();
                        proof {
                            lemma_walked_trans(start, mid, *self);
                        }
                    }
                    let ghost mid = *self;
                    self.write(semantics, left);
                    proof {
                        lemma_walked_trans(start, mid, *self);
                    }
                } else if is_compound_assignment(operator) {
                    self.expression(semantics, right, Usage::Read);
                    let ghost mid = *self;
                    self.expression(semantics, left, Usage::Mutate);
                    proof {
                        lemma_walked_trans(start, mid, *self);
                    }
                } else if operator == BinaryOperator::LogicalAnd || operator == BinaryOperator::LogicalOr {
                    self.expression(semantics, left, Usage::Read);
                    let ghost after_left = *self;
                    let baseline = self.state.copy();
                    self.expression(semantics, right, Usage::Read);
                    proof {
                        lemma_walked_trans(start, after_left, *self);
                    }
                    let ghost after_right = *self;
                    let with_right = self.state.copy();
                    self.state = merge_states(&baseline, &baseline, &with_right);
                    proof {
                        assert(self.state.scope_views().len() == baseline.scope_views().len());
                        lemma_state_replaced(start, after_right, *self);
                    }
                } else {
                    self.expression(semantics, left, Usage::Read);
                    let ghost mid = *self;
                    self.expression(semantics, right, Usage::Read);
                    proof {
                        lemma_walked_trans(start, mid, *self);
                    }
                }
                None
            },
            ExpressionKind::Call { .. } => self.call(semantics, expression),
            ExpressionKind::MacroCall { callee, arguments } => {
                let writes_destination = callee.segments.len() > 0 && {
                    let name = callee.segments[callee.segments.len() - 1].as_str();
                    crate::text::str_eq(name, "write") || crate::text::str_eq(name, "writeln")
                };
                self.macro_arguments(semantics, arguments, writes_destination);
                if writes_destination {
                    let ghost mid = *self;
                    self.throw_point();
                    proof {
                        lemma_walked_trans(start, mid, *self);
                    }
                }
                None
            },
            ExpressionKind::Aggregate { initializers, .. } => {
                self.aggregate_initializers(semantics, initializers);
                None
            },
            ExpressionKind::JsonArray { elements } => {
                self.read_all(semantics, elements);
                None
            },
            ExpressionKind::JsonObject { members } => {
                self.member_values(semantics, members);
                None
            },
            ExpressionKind::Field { receiver, .. } => self.expression(semantics, receiver, usage),
            ExpressionKind::Index { receiver, index } => {
                self.expression(semantics, receiver, usage);
                let ghost mid = *self;
                self.expression(semantics, index, Usage::Read);
                proof {
                    lemma_walked_trans(start, mid, *self);
                }
                None
            },
        }
    }

    /// Checks an assignment to `target`: a plain binding is written, which
    /// makes a moved value available again, and any other place is mutated.
    fn write(&mut self, semantics: &SemanticModel, target: &Expression)
        requires
            walkable(*old(self)),
        ensures
            walked(*old(self), *final(self)),
            final(self).loops == old(self).loops,
            final(self).state.scope_ids() == old(self).state.scope_ids(),
        decreases target, 3nat,
    {
        if let ExpressionKind::Parenthesized(inner) = &target.kind {
            self.write(semantics, inner);
            return;
        }
        if let ExpressionKind::Name(path) = &target.kind {
            if path.segments.len() > 0 {
                let found = self.state.lookup(path.segments[0].as_str());
                proof {
                    lemma_lookup_below(self.state, path.segments@[0]@);
                }
                if let Some(id) = found {
                    let ghost start = *self;
                    if self.state.bindings[id].ty.is_reference() {
                        self.check_usage(id, Usage::Mutate, target.span);
                        proof {
                            lemma_step(start, *self);
                        }
                    } else {
                        let free = self.check_borrow_conflict(id, Usage::Mutate, target.span);
                        proof {
                            lemma_step(start, *self);
                        }
                        if free {
                            let ghost mid = *self;
                            self.make_available(id);
                            proof {
                                lemma_walked_trans(start, mid, *self);
                            }
                        }
                    }
                    return;
                }
            }
        }
        self.expression(semantics, target, Usage::Mutate);
    }

    /// Reads each expression, in order.
    fn read_all(&mut self, semantics: &SemanticModel, expressions: &Vec<Expression>)
        requires
            walkable(*old(self)),
        ensures
            walked(*old(self), *final(self)),
            final(self).loops == old(self).loops,
            final(self).state.scope_ids() == old(self).state.scope_ids(),
        decreases expressions, 1nat,
    {
        let mut i: usize = 0;
        proof {
            lemma_walked_refl(*self);
        }
        while i < expressions.len()
            invariant
                i <= expressions@.len(),
                walked(*old(self), *self),
                self.loops == old(self).loops,
                self.state.scope_ids() == old(self).state.scope_ids(),
            decreases expressions@.len() - i,
        {
            proof {
                broadcast use vstd::std_specs::vec::axiom_vec_index_decreases;
                assert(decreases_to!(expressions => expressions@[i as int]));
            }
            let ghost mid = *self;
            self.expression(semantics, &expressions[i], Usage::Read);
            proof {
                lemma_walked_trans(*old(self), mid, *self);
            }
            i = i + 1;
        }
    }

    /// Reads the arguments of a macro call; `write!` and `writeln!` borrow
    /// their destination mutably.
    fn macro_arguments(&mut self, semantics: &SemanticModel, arguments: &Vec<Expression>, writes_destination: bool)
        requires
            walkable(*old(self)),
        ensures
            walked(*old(self), *final(self)),
            final(self).loops == old(self).loops,
            final(self).state.scope_ids() == old(self).state.scope_ids(),
        decreases arguments, 1nat,
    {
        let mut i: usize = 0;
        proof {
            lemma_walked_refl(*self);
        }
        while i < arguments.len()
            invariant
                i <= arguments@.len(),
                walked(*old(self), *self),
                self.loops == old(self).loops,
                self.state.scope_ids() == old(self).state.scope_ids(),
            decreases arguments@.len() - i,
        {
            proof {
                broadcast use vstd::std_specs::vec::axiom_vec_index_decreases;
                assert(decreases_to!(arguments => arguments@[i as int]));
            }
            let usage = if writes_destination && i == 0 {
                Usage::BorrowMutable
            } else {
                Usage::Read
            };
            let ghost mid = *self;
            self.expression(semantics, &arguments[i], usage);
            proof {
                lemma_walked_trans(*old(self), mid, *self);
            }
            i = i + 1;
        }
    }

    /// Reads the initializers of an aggregate; one whose native `Result` is
    /// unwrapped in place may throw.
    fn aggregate_initializers(&mut self, semantics: &SemanticModel, initializers: &Vec<Expression>)
        requires
            walkable(*old(self)),
        ensures
            walked(*old(self), *final(self)),
            final(self).loops == old(self).loops,
            final(self).state.scope_ids() == old(self).state.scope_ids(),
        decreases initializers, 1nat,
    {
        let mut i: usize = 0;
        proof {
            lemma_walked_refl(*self);
        }
        while i < initializers.len()
            invariant
                i <= initializers@.len(),
                walked(*old(self), *self),
                self.loops == old(self).loops,
                self.state.scope_ids() == old(self).state.scope_ids(),
            decreases initializers@.len() - i,
        {
            proof {
                broadcast use vstd::std_specs::vec::axiom_vec_index_decreases;
                assert(decreases_to!(initializers => initializers@[i as int]));
            }
            let ghost mid = *self;
            self.expression(semantics, &initializers[i], Usage::Read);
            proof {
                lemma_walked_trans(*old(self), mid, *self);
            }
            if semantics.rust_result_adaptation(initializers[i].span) {
                let ghost mid = *self;
                self.throw_point();
                proof {
                    lemma_walked_trans(*old(self), mid, *self);
                }
            }
            i = i + 1;
        }
    }

    /// Reads the values of JSON object members, in order.
    fn member_values(&mut self, semantics: &SemanticModel, members: &Vec<(String, Expression)>)
        requires
            walkable(*old(self)),
        ensures
            walked(*old(self), *final(self)),
            final(self).loops == old(self).loops,
            final(self).state.scope_ids() == old(self).state.scope_ids(),
        decreases members, 1nat,
    {
        let mut i: usize = 0;
        proof {
            lemma_walked_refl(*self);
        }
        while i < members.len()
            invariant
                i <= members@.len(),
                walked(*old(self), *self),
                self.loops == old(self).loops,
                self.state.scope_ids() == old(self).state.scope_ids(),
            decreases members@.len() - i,
        {
            proof {
                broadcast use vstd::std_specs::vec::axiom_vec_index_decreases;
                assert(decreases_to!(members => members@[i as int]));
                assert(decreases_to!(members@[i as int] => members@[i as int].1));
            }
            let ghost mid = *self;
            self.expression(semantics, &members[i].1, Usage::Read);
            proof {
                lemma_walked_trans(*old(self), mid, *self);
            }
            i = i + 1;
        }
    }
}

} // verus!

verus! {

/// Whether each origin is a binding among the first `n`.
pub open spec fn origins_below(origins: Seq<Option<usize>>, n: nat) -> bool {
    forall|i: int| 0 <= i < origins.len() ==> match #[trigger] origins[i] {
        Some(id) => id < n,
        None => true,
    }
}

impl Analyzer {
    /// Checks the arguments of a call against the parameter types they are
    /// passed as: a callback's captures, a borrow held for the call, or a
    /// read; returns the binding each argument comes from.
    fn call_arguments(
        &mut self,
        semantics: &SemanticModel,
        arguments: &Vec<Expression>,
        expected: &Vec<TypeRef>,
    ) -> (r: Vec<Option<usize>>)
        requires
            walkable(*old(self)),
        ensures
            walked(*old(self), *final(self)),
            final(self).loops == old(self).loops,
            final(self).state.scope_ids() == old(self).state.scope_ids(),
            origins_below(r@, final(self).state.bindings@.len()),
            forall|j: int|
                (#[trigger] argument_report(*old(self), arguments@, expected@, j) matches Some(w) ==> was_emitted(
                    final(self).emitted@,
                    w.0,
                    w.1,
                )),
        decreases arguments, 1nat,
    {
        let mut loans: Vec<Loan> = Vec::new();
        let mut origins: Vec<Option<usize>> = Vec::new();
        let mut i: usize = 0;
        proof {
            lemma_walked_refl(*self);
        }
        while i < arguments.len() && i < expected.len()
            invariant
                i <= arguments@.len(),
                walked(*old(self), *self),
                self.loops == old(self).loops,
                self.state.scope_ids() == old(self).state.scope_ids(),
                loans_below(loans@, self.state.bindings@.len()),
                origins_below(origins@, self.state.bindings@.len()),
                plain_before(arguments@, expected@, i as int) ==> self.state.bindings@ == old(self).state.bindings@
                    && self.state.scopes == old(self).state.scopes,
                forall|j: int|
                    0 <= j < i ==> (#[trigger] argument_report(*old(self), arguments@, expected@, j) matches Some(w)
                        ==> was_emitted(self.emitted@, w.0, w.1)),
            decreases arguments@.len() - i,
        {
            proof {
                broadcast use vstd::std_specs::vec::axiom_vec_index_decreases;
                assert(decreases_to!(arguments => arguments@[i as int]));
            }
            let argument = &arguments[i];
            let ghost mid = *self;
            if expected[i].is_callback() {
                self.callback_argument(semantics, argument, &mut loans);
                origins.push(None);
            } else if let TypeRef::Reference { mutable, .. } = &expected[i] {
                let mutable = *mutable;
                let origin = self.expression(semantics, argument, borrow_usage(mutable));
                let ghost inner = *self;
                let loan = self.temporary_loan(origin, mutable, argument.span);
                proof {
                    lemma_walked_trans(mid, inner, *self);
                    lemma_argument_emits(*semantics, mid, inner, arguments@, expected@, i as int);
                    if plain_before(arguments@, expected@, i as int) {
                        assert(argument_report(*old(self), arguments@, expected@, i as int) == argument_report(
                            mid,
                            arguments@,
                            expected@,
                            i as int,
                        ));
                    }
                    if let Some(w) = argument_report(*old(self), arguments@, expected@, i as int) {
                        lemma_emitted_grows(inner, *self, w.0, w.1);
                    }
                }
                if let Some(loan) = loan {
                    loans.push(loan);
                }
                origins.push(origin);
            } else {
                let origin = self.expression(semantics, argument, Usage::Read);
                proof {
                    lemma_argument_emits(*semantics, mid, *self, arguments@, expected@, i as int);
                    if plain_before(arguments@, expected@, i as int) {
                        assert(argument_report(*old(self), arguments@, expected@, i as int) == argument_report(
                            mid,
                            arguments@,
                            expected@,
                            i as int,
                        ));
                    }
                }
                origins.push(origin);
            }
            proof {
                lemma_walked_trans(*old(self), mid, *self);
                assert forall|j: int|
                    0 <= j < i + 1 implies (#[trigger] argument_report(*old(self), arguments@, expected@, j) matches Some(w)
                        ==> was_emitted(self.emitted@, w.0, w.1)) by {
                    if j < i {
                        if let Some(w) = argument_report(*old(self), arguments@, expected@, j) {
                            lemma_emitted_grows(mid, *self, w.0, w.1);
                        }
                    }
                }
                if plain_before(arguments@, expected@, i + 1) {
                    assert(plain_argument(arguments@[i as int], expected@[i as int]));
                }
            }
            i = i + 1;
        }
        let ghost mid = *self;
        self.release_loans(loans);
        proof {
            lemma_walked_trans(*old(self), mid, *self);
            assert forall|j: int|
                (#[trigger] argument_report(*old(self), arguments@, expected@, j) matches Some(w) ==> was_emitted(
                    self.emitted@,
                    w.0,
                    w.1,
                )) by {
                if let Some(w) = argument_report(*old(self), arguments@, expected@, j) {
                    if j < i {
                        lemma_emitted_grows(mid, *self, w.0, w.1);
                    } else {
                        assert(!plain_before(arguments@, expected@, j)) by {
                            if plain_before(arguments@, expected@, j) {
                                assert(plain_argument(arguments@[i as int], expected@[i as int]));
                            }
                        }
                    }
                }
            }
        }
        origins
    }

    /// Checks the captures of a lambda passed as a callback: a copy reads
    /// the binding, an initializer is read, and a borrow is held for the
    /// call, its loan added to `loans`.
    fn callback_argument(&mut self, semantics: &SemanticModel, argument: &Expression, loans: &mut Vec<Loan>)
        requires
            walkable(*old(self)),
            loans_below(old(loans)@, old(self).state.bindings@.len()),
        ensures
            walked(*old(self), *final(self)),
            final(self).loops == old(self).loops,
            final(self).state.scope_ids() == old(self).state.scope_ids(),
            loans_below(final(loans)@, final(self).state.bindings@.len()),
        decreases argument, 1nat,
    {
        let callback = match semantics.callback(argument.span) {
            Some(callback) => callback,
            None => {
                proof {
                    lemma_walked_refl(*self);
                }
                return;
            },
        };
        let captures = match &callback.target {
            CallbackTarget::Lambda { captures } => captures,
            _ => {
                proof {
                    lemma_walked_refl(*self);
                }
                return;
            },
        };
        match &argument.kind {
            ExpressionKind::Lambda { captures: syntax_captures, .. } => {
                self.capture_loans(semantics, captures, syntax_captures, argument.span, loans);
            },
            _ => {
                proof {
                    lemma_walked_refl(*self);
                }
            },
        }
    }

    /// Checks resolved lambda captures against their syntax, in order.
    fn capture_loans(
        &mut self,
        semantics: &SemanticModel,
        captures: &Vec<crate::resolution::ResolvedLambdaCapture>,
        syntax_captures: &Vec<crate::ast::LambdaCapture>,
        span: Span,
        loans: &mut Vec<Loan>,
    )
        requires
            walkable(*old(self)),
            loans_below(old(loans)@, old(self).state.bindings@.len()),
        ensures
            walked(*old(self), *final(self)),
            final(self).loops == old(self).loops,
            final(self).state.scope_ids() == old(self).state.scope_ids(),
            loans_below(final(loans)@, final(self).state.bindings@.len()),
        decreases syntax_captures, 1nat,
    {
        let mut i: usize = 0;
        proof {
            lemma_walked_refl(*self);
        }
        while i < captures.len() && i < syntax_captures.len()
            invariant
                i <= syntax_captures@.len(),
                walked(*old(self), *self),
                self.loops == old(self).loops,
                self.state.scope_ids() == old(self).state.scope_ids(),
                loans_below(loans@, self.state.bindings@.len()),
            decreases syntax_captures@.len() - i,
        {
            proof {
                broadcast use vstd::std_specs::vec::axiom_vec_index_decreases;
                assert(decreases_to!(syntax_captures => syntax_captures@[i as int]));
            }
            let capture = &captures[i];
            let ghost mid = *self;
            match capture.mode {
                LambdaCaptureMode::Copy => {
                    let found = self.state.lookup(capture.name.as_str());
                    proof {
                        lemma_lookup_below(self.state, capture.name@);
                    }
                    if let Some(id) = found {
                        self.check_usage(id, Usage::Read, span);
                        proof {
                            lemma_step(mid, *self);
                        }
                    } else {
                        proof {
                            lemma_walked_refl(mid);
                        }
                    }
                },
                LambdaCaptureMode::Initialize => {
                    if let LambdaCaptureKind::Initialize(initializer) = &syntax_captures[i].kind {
                        self.expression(semantics, initializer, Usage::Read);
                    } else {
                        proof {
                            lemma_walked_refl(mid);
                        }
                    }
                },
                LambdaCaptureMode::Borrow { mutable } => {
                    let found = self.state.lookup(capture.name.as_str());
                    proof {
                        lemma_lookup_below(self.state, capture.name@);
                    }
                    if let Some(id) = found {
                        self.check_usage(id, borrow_usage(mutable), span);
                        proof {
                            lemma_step(mid, *self);
                        }
                        let ghost checked = *self;
                        let loan = self.temporary_loan(Some(id), mutable, span);
                        proof {
                            lemma_walked_trans(mid, checked, *self);
                        }
                        if let Some(loan) = loan {
                            loans.push(loan);
                        }
                    } else {
                        proof {
                            lemma_walked_refl(mid);
                        }
                    }
                },
            }
            proof {
                lemma_walked_trans(*old(self), mid, *self);
            }
            i = i + 1;
        }
    }

    /// Checks the arguments of the construction `std::make_unique` performs.
    fn construction_arguments(
        &mut self,
        semantics: &SemanticModel,
        construction: &ResolvedCall,
        arguments: &Vec<Expression>,
    )
        requires
            walkable(*old(self)),
        ensures
            walked(*old(self), *final(self)),
            final(self).loops == old(self).loops,
            final(self).state.scope_ids() == old(self).state.scope_ids(),
        decreases arguments, 2nat,
    {
        match &construction.target {
            CallTarget::Constructor(id) => {
                if let Some(constructor) = semantics.constructor(*id) {
                    let expected = parameter_types(&constructor.parameters);
                    self.call_arguments(semantics, arguments, &expected);
                } else {
                    proof {
                        lemma_walked_refl(*self);
                    }
                }
            },
            CallTarget::Native(native) => {
                self.call_arguments(semantics, arguments, &native.parameter_types);
            },
            CallTarget::Intrinsic(Intrinsic::ValueInitialization { target }) => {
                let expected = vec![target.copy()];
                self.call_arguments(semantics, arguments, &expected);
            },
            _ => self.read_all(semantics, arguments),
        }
    }
}

} // verus!

verus! {

/// The call the expression `e` makes, as resolution resolved it.
pub open spec fn resolved_call_of(semantics: SemanticModel, e: Expression) -> Option<ResolvedCall> {
    if e.kind is Call {
        match entry_for(semantics.expressions@, e.span) {
            Some(resolution) => resolution.call,
            None => None,
        }
    } else {
        None
    }
}

/// What a call of `std::move` does: a copyable binding named by the first
/// argument is only read there; any other named binding is written at the
/// call and becomes moved when it is available and not borrowed; what the
/// use reports is that of [`crate::ownership::usage_checked`]. Without such
/// an argument nothing changes.
pub open spec fn move_outcome(a: Analyzer, b: Analyzer, e: Expression) -> bool {
    match e.kind {
        ExpressionKind::Call { arguments, .. } => if arguments@.len() == 0 {
            b == a
        } else {
            match crate::ownership::named_binding_of(arguments@[0], a.state.scope_views()) {
                None => b == a,
                Some(id) => {
                    let x = a.state.bindings@[id as int];
                    &&& b.state.scopes == a.state.scopes
                    &&& if crate::ownership::copyable(x.ty) {
                        &&& b.state.bindings@ == a.state.bindings@
                        &&& crate::ownership::usage_checked(a, b, x, Usage::Read, arguments@[0].span)
                    } else {
                        &&& b.state.bindings@ == moved_bindings(a.state.bindings@, id as int, e.span)
                        &&& crate::ownership::usage_checked(a, b, x, Usage::Mutate, e.span)
                    }
                },
            }
        },
        _ => true,
    }
}

/// The bindings after the value of binding `id` is moved out at `span`:
/// an available, unborrowed value becomes moved; otherwise nothing changes.
pub open spec fn moved_bindings(
    bindings: Seq<crate::ownership::Binding>,
    id: int,
    span: Span,
) -> Seq<crate::ownership::Binding> {
    let x = bindings[id];
    if x.availability is Available && !x.mutably_borrowed && x.shared_borrows == 0 {
        bindings.update(id, crate::ownership::Binding { availability: crate::ownership::Availability::Moved(span), ..x })
    } else {
        bindings
    }
}

/// What checking an expression used as `usage` does, where it is known
/// exactly: a name of a binding is a use of it that changes no binding,
/// and a call of `std::move` does what [`move_outcome`] says.
pub open spec fn expression_effect(semantics: SemanticModel, a: Analyzer, b: Analyzer, e: Expression, usage: Usage) -> bool {
    match e.kind {
        ExpressionKind::Name(path) => if path.segments@.len() > 0 {
            match crate::ownership::scopes_lookup(a.state.scope_views(), path.segments@[0]@) {
                Some(id) => {
                    &&& crate::ownership::usage_checked(a, b, a.state.bindings@[id as int], usage, e.span)
                    &&& b.state.bindings@ == a.state.bindings@
                    &&& b.state.scopes == a.state.scopes
                },
                None => b == a,
            }
        } else {
            b == a
        },
        ExpressionKind::Call { .. } => match resolved_call_of(semantics, e) {
            Some(call) => match call.target {
                CallTarget::Intrinsic(Intrinsic::Move) => move_outcome(a, b, e),
                _ => true,
            },
            None => true,
        },
        _ => true,
    }
}

/// The names and ids of the first `count` parameters, declared from id
/// `first` on.
pub open spec fn parameter_scope(syntax: Seq<crate::ast::Parameter>, first: nat, count: nat) -> Seq<(Seq<char>, usize)> {
    Seq::new(count, |k: int| (syntax[k].name@, (first + k) as usize))
}

/// The last of the first `n` parameters that is named `name`.
pub open spec fn last_named(syntax: Seq<crate::ast::Parameter>, n: int, name: Seq<char>) -> Option<int>
    decreases n,
{
    if n <= 0 {
        None
    } else if syntax[n - 1].name@ == name {
        Some(n - 1)
    } else {
        last_named(syntax, n - 1, name)
    }
}

/// For a resolved function whose body begins `std::move(p); p;`, where `p`
/// names a parameter whose type is not copyable: the range of the second
/// `p`, a use of a moved value.
pub open spec fn parameter_use_after_move(semantics: SemanticModel, f: Function) -> Option<Span> {
    match entry_for(semantics.function_declarations@, f.span) {
        Some(sid) => if sid < semantics.functions@.len() {
            let symbol = semantics.functions@[sid as int];
            let count = min_len(f.parameters@.len(), symbol.parameters@.len());
            match f.body {
                Some(body) => if body.statements@.len() >= 2 {
                    match (body.statements@[0].kind, body.statements@[1].kind) {
                        (StatementKind::Expression(m), StatementKind::Expression(u)) => match (m.kind, u.kind) {
                            (ExpressionKind::Call { arguments, .. }, ExpressionKind::Name(path)) => if arguments@.len() > 0
                                && e_moves(semantics, m) && path.segments@.len() > 0 {
                                match arguments@[0].kind {
                                    ExpressionKind::Name(q) => if q.segments@.len() == 1 && q.segments@[0]@
                                        == path.segments@[0]@ {
                                        match last_named(f.parameters@, count as int, q.segments@[0]@) {
                                            Some(k) => if !crate::ownership::copyable(symbol.parameters@[k].ty) {
                                                Some(u.span)
                                            } else {
                                                None
                                            },
                                            None => None,
                                        }
                                    } else {
                                        None
                                    },
                                    _ => None,
                                }
                            } else {
                                None
                            },
                            _ => None,
                        },
                        _ => None,
                    }
                } else {
                    None
                },
                None => None,
            }
        } else {
            None
        },
        None => None,
    }
}

/// [`parameter_use_after_move`] of a function declaration; `None` for any
/// other declaration.
pub open spec fn item_use_after_move(semantics: SemanticModel, item: Item) -> Option<Span> {
    match item {
        Item::Function(f) => parameter_use_after_move(semantics, f),
        _ => None,
    }
}

/// Looking a name up among declared parameters finds the last one named so.
proof fn lemma_parameter_lookup(syntax: Seq<crate::ast::Parameter>, count: nat, name: Seq<char>)
    ensures
        crate::ownership::scope_lookup(parameter_scope(syntax, 0, count), name) == match last_named(
            syntax,
            count as int,
            name,
        ) {
            Some(k) => Some(k as usize),
            None => None,
        },
        last_named(syntax, count as int, name) matches Some(k) ==> 0 <= k < count,
    decreases count,
{
    if count > 0 {
        assert(parameter_scope(syntax, 0, count).drop_last() =~= parameter_scope(syntax, 0, (count - 1) as nat));
        lemma_parameter_lookup(syntax, (count - 1) as nat, name);
    }
}

/// Structurally equal types are copyable alike.
proof fn lemma_copyable_type_eq(a: TypeRef, b: TypeRef)
    requires
        crate::interop::model::type_eq(a, b),
    ensures
        crate::ownership::copyable(a) == crate::ownership::copyable(b),
{
    match a {
        TypeRef::Native { arguments, .. } => {
            match b {
                TypeRef::Native { arguments: other, .. } => {
                    crate::interop::model::lemma_type_list_eq_pointwise(arguments@, other@);
                },
                _ => {},
            }
        },
        _ => {},
    }
}

/// For the statements `std::move(x);` then `x;`, where `x` names a
/// binding that is available, unborrowed and not copyable: the binding, the
/// range of the move and the range of the later use.
pub open spec fn use_after_move(
    semantics: SemanticModel,
    a: Analyzer,
    first: Statement,
    second: Statement,
) -> Option<(usize, Span, Span)> {
    match (first.kind, second.kind) {
        (StatementKind::Expression(m), StatementKind::Expression(u)) => match (m.kind, u.kind) {
            (ExpressionKind::Call { arguments, .. }, ExpressionKind::Name(path)) => if arguments@.len() > 0
                && path.segments@.len() > 0 && e_moves(semantics, m) {
                match crate::ownership::named_binding_of(arguments@[0], a.state.scope_views()) {
                    Some(id) => {
                        let x = a.state.bindings@[id as int];
                        if id < a.state.bindings@.len() && x.availability is Available && !x.mutably_borrowed
                            && x.shared_borrows == 0 && !crate::ownership::copyable(x.ty)
                            && crate::ownership::scopes_lookup(a.state.scope_views(), path.segments@[0]@)
                            == Some(id) {
                            Some((id, m.span, u.span))
                        } else {
                            None
                        }
                    },
                    None => None,
                }
            } else {
                None
            },
            _ => None,
        },
        _ => None,
    }
}

/// Whether resolution resolved the call `e` to `std::move`.
pub open spec fn e_moves(semantics: SemanticModel, e: Expression) -> bool {
    match resolved_call_of(semantics, e) {
        Some(call) => call.target matches CallTarget::Intrinsic(Intrinsic::Move),
        None => false,
    }
}

/// The binding a call of the Stainless function `f` returns a borrow of:
/// none when `f` returns no reference; for a method returning a
/// reference, the binding its receiver names (none without a receiver
/// expression).
pub open spec fn stainless_origin(a: Analyzer, f: FunctionSymbol, e: Expression, r: Option<usize>) -> bool {
    &&& !(f.return_type is Reference) ==> r is None
    &&& (f.receiver is Some && f.return_type is Reference) ==> match e.kind {
        ExpressionKind::Call { callee, .. } => match callee.kind {
            ExpressionKind::Field { receiver, .. } => match receiver.kind {
                ExpressionKind::Name(path) => r == (if path.segments@.len() > 0 {
                    crate::ownership::scopes_lookup(a.state.scope_views(), path.segments@[0]@)
                } else {
                    None
                }),
                _ => true,
            },
            _ => r is None,
        },
        _ => true,
    }
}

/// What unwrapping a native `Result` does when the callee is a field of a
/// binding: the binding's value is moved out at the call, reported as a
/// write there.
pub open spec fn unwrap_outcome(a: Analyzer, b: Analyzer, e: Expression) -> bool {
    match e.kind {
        ExpressionKind::Call { callee, .. } => match callee.kind {
            ExpressionKind::Field { receiver, .. } => match crate::ownership::named_binding_of(
                *receiver,
                a.state.scope_views(),
            ) {
                Some(id) => {
                    &&& b.state.bindings@ == moved_bindings(a.state.bindings@, id as int, e.span)
                    &&& crate::ownership::usage_checked(a, b, a.state.bindings@[id as int], Usage::Mutate, e.span)
                },
                None => true,
            },
            _ => b == a,
        },
        _ => true,
    }
}

impl Analyzer {
    /// Checks a call as resolution resolved it; returns the binding a
    /// returned reference borrows from.
    #[verifier::rlimit(40)]
    fn call(&mut self, semantics: &SemanticModel, expression: &Expression) -> (r: Option<usize>)
        requires
            walkable(*old(self)),
        ensures
            walked(*old(self), *final(self)),
            final(self).loops == old(self).loops,
            final(self).state.scope_ids() == old(self).state.scope_ids(),
            match r {
                Some(id) => id < final(self).state.bindings@.len(),
                None => true,
            },
            match resolved_call_of(*semantics, *expression) {
                None => r is None && *final(self) == *old(self),
                Some(call) => {
                    &&& !(call.target is Stainless) ==> r is None
                    &&& call.target matches CallTarget::Intrinsic(Intrinsic::Move) ==> move_outcome(
                        *old(self),
                        *final(self),
                        *expression,
                    )
                    &&& call.target matches CallTarget::Intrinsic(Intrinsic::UnwrapRustResult) ==> unwrap_outcome(
                        *old(self),
                        *final(self),
                        *expression,
                    )
                    &&& match call.target {
                        CallTarget::Stainless(id) => if id < semantics.functions@.len() {
                            stainless_origin(*old(self), semantics.functions@[id as int], *expression, r)
                        } else {
                            r is None && *final(self) == *old(self)
                        },
                        CallTarget::Constructor(id) => id >= semantics.constructors@.len() ==> (r is None && *final(self)
                            == *old(self)),
                        _ => true,
                    }
                    &&& target_arguments_checked(*old(self), *final(self), *semantics, *expression, call.target)
                },
            },
        decreases expression, 1nat,
    {
        let ghost start = *self;
        proof {
            lemma_walked_refl(start);
        }
        let (callee, arguments) = match &expression.kind {
            ExpressionKind::Call { callee, arguments } => (callee, arguments),
            _ => {
                return None;
            },
        };
        let resolution = match semantics.expression(expression.span) {
            Some(resolution) => resolution,
            None => {
                return None;
            },
        };
        let call = match &resolution.call {
            Some(call) => call,
            None => {
                return None;
            },
        };
        let throws = call.throws.len() != 0;
        let result = match &call.target {
            CallTarget::Intrinsic(Intrinsic::Move) => {
                if arguments.len() == 0 {
                    return None;
                }
                let argument = &arguments[0];
                let id = match named_binding(argument, &self.state) {
                    Some(id) => id,
                    None => {
                        return None;
                    },
                };
                proof {
                    lemma_named_binding_below(*argument, self.state);
                }
                if is_copyable(&self.state.bindings[id].ty) {
                    self.check_usage(id, Usage::Read, argument.span);
                } else {
                    self.mark_moved(id, expression.span);
                }
                proof {
                    lemma_step(start, *self);
                }
                None
            },
            CallTarget::Intrinsic(Intrinsic::MakeUnique { construction }) => {
                self.construction_arguments(semantics, construction, arguments);
                None
            },
            CallTarget::Intrinsic(Intrinsic::StoredFunctionCall { mutable }) => {
                let usage = if *mutable {
                    Usage::Mutate
                } else {
                    Usage::Read
                };
                self.expression(semantics, callee, usage);
                // A stored function's parameters are only known from a
                // function type, which no `TypeRef` describes; the call's
                // arguments are therefore not checked.
                return None;
            },
            CallTarget::Intrinsic(Intrinsic::UnwrapRustResult) => {
                let receiver = match &callee.kind {
                    ExpressionKind::Field { receiver, .. } => receiver,
                    _ => {
                        return None;
                    },
                };
                match named_binding(receiver, &self.state) {
                    Some(id) => {
                        proof {
                            lemma_named_binding_below(**receiver, self.state);
                        }
                        self.mark_moved(id, expression.span);
                        proof {
                            lemma_step(start, *self);
                        }
                    },
                    None => {
                        self.expression(semantics, receiver, Usage::Read);
                    },
                }
                None
            },
            CallTarget::Intrinsic(Intrinsic::PrimitiveCast { .. })
            | CallTarget::Intrinsic(Intrinsic::JsonCast { .. })
            | CallTarget::Intrinsic(Intrinsic::JsonWrap)
            | CallTarget::Intrinsic(Intrinsic::ExceptionRoot { .. }) => {
                if arguments.len() > 0 {
                    proof {
                        broadcast use vstd::std_specs::vec::axiom_vec_index_decreases;
                        assert(decreases_to!(arguments => arguments@[0]));
                    }
                    self.expression(semantics, &arguments[0], Usage::Read);
                }
                None
            },
            CallTarget::Intrinsic(Intrinsic::ValueInitialization { .. }) => {
                if arguments.len() > 0 {
                    proof {
                        broadcast use vstd::std_specs::vec::axiom_vec_index_decreases;
                        assert(decreases_to!(arguments => arguments@[0]));
                    }
                    self.expression(semantics, &arguments[0], Usage::Read);
                    if semantics.rust_result_adaptation(arguments[0].span) {
                        let ghost mid = *self;
                        self.throw_point();
                        proof {
                            lemma_walked_trans(start, mid, *self);
                        }
                    }
                }
                None
            },
            CallTarget::Intrinsic(Intrinsic::StructAggregate { .. }) => {
                self.read_all(semantics, arguments);
                None
            },
            CallTarget::Stainless(id) => {
                let function = match semantics.function(*id) {
                    Some(function) => function,
                    None => {
                        return None;
                    },
                };
                let mut receiver_loan: Option<Loan> = None;
                let mut receiver_origin: Option<usize> = None;
                if let Some(receiver) = &function.receiver {
                    if let ExpressionKind::Field { receiver: syntax_receiver, .. } = &callee.kind {
                        let origin = self.expression(semantics, syntax_receiver, borrow_usage(receiver.mutable));
                        receiver_origin = origin;
                        let ghost mid = *self;
                        receiver_loan = self.temporary_loan(origin, receiver.mutable, syntax_receiver.span);
                        proof {
                            lemma_walked_trans(start, mid, *self);
                        }
                    }
                }
                let ghost before_arguments = *self;
                let expected = parameter_types(&function.parameters);
                let origins = self.call_arguments(semantics, arguments, &expected);
                proof {
                    lemma_walked_trans(start, before_arguments, *self);
                    lemma_argument_types(before_arguments, arguments@, expected@, types_of(function.parameters@));
                }
                let ghost after_arguments = *self;
                if let Some(loan) = receiver_loan {
                    let ghost mid = *self;
                    self.state.release(loan);
                    proof {
                        lemma_step(mid, *self);
                        lemma_walked_trans(start, mid, *self);
                    }
                }
                proof {
                    if function.receiver is None {
                        assert(*self == after_arguments);
                        assert(before_arguments == start);
                    }
                    assert(target_arguments_checked(start, *self, *semantics, *expression, call.target));
                }
                if function.receiver.is_some() && function.return_type.is_reference() {
                    receiver_origin
                } else {
                    match return_borrow_parameter(function) {
                        Some(index) => if index < origins.len() {
                            origins[index]
                        } else {
                            None
                        },
                        None => None,
                    }
                }
            },
            CallTarget::Constructor(id) => {
                let constructor = match semantics.constructor(*id) {
                    Some(constructor) => constructor,
                    None => {
                        return None;
                    },
                };
                let expected = parameter_types(&constructor.parameters);
                self.call_arguments(semantics, arguments, &expected);
                proof {
                    lemma_argument_types(start, arguments@, expected@, types_of(constructor.parameters@));
                    assert(target_arguments_checked(start, *self, *semantics, *expression, call.target));
                }
                None
            },
            CallTarget::Native(native) => {
                let mut receiver_loan: Option<Loan> = None;
                if native.style == CallStyle::Method {
                    if let ExpressionKind::Field { receiver, .. } = &callee.kind {
                        let receiver_mode = match native.receiver {
                            Some(mode) => mode,
                            None => Receiver::Shared,
                        };
                        let receiver_usage = match receiver_mode {
                            Receiver::Shared => Usage::BorrowShared,
                            Receiver::Mutable => Usage::BorrowMutable,
                            Receiver::Value => Usage::Read,
                        };
                        let origin = self.expression(semantics, receiver, receiver_usage);
                        if receiver_mode != Receiver::Value {
                            let ghost mid = *self;
                            receiver_loan = self.temporary_loan(origin, receiver_mode == Receiver::Mutable, receiver.span);
                            proof {
                                lemma_walked_trans(start, mid, *self);
                            }
                        }
                    }
                }
                let ghost before_arguments = *self;
                self.call_arguments(semantics, arguments, &native.parameter_types);
                proof {
                    lemma_walked_trans(start, before_arguments, *self);
                }
                let ghost after_arguments = *self;
                if let Some(loan) = receiver_loan {
                    let ghost mid = *self;
                    self.state.release(loan);
                    proof {
                        lemma_step(mid, *self);
                        lemma_walked_trans(start, mid, *self);
                    }
                }
                proof {
                    if native.style != CallStyle::Method {
                        assert(*self == after_arguments);
                        assert(before_arguments == start);
                    }
                    assert(target_arguments_checked(start, *self, *semantics, *expression, call.target));
                }
                None
            },
        };
        proof {
            assert(target_arguments_checked(start, *self, *semantics, *expression, call.target));
        }
        if throws {
            let ghost mid = *self;
            self.throw_point();
            proof {
                lemma_walked_trans(start, mid, *self);
                lemma_target_checked_grows(start, mid, *self, *semantics, *expression, call.target);
            }
        }
        result
    }
}

/// A binding an expression names is a binding of the state.
proof fn lemma_named_binding_below(e: Expression, state: FlowState)
    requires
        state.well_formed(),
    ensures
        match crate::ownership::named_binding_of(e, state.scope_views()) {
            Some(id) => id < state.bindings@.len(),
            None => true,
        },
    decreases e,
{
    match e.kind {
        ExpressionKind::Name(path) => {
            if path.segments@.len() == 1 {
                lemma_lookup_below(state, path.segments@[0]@);
            }
        },
        ExpressionKind::Parenthesized(inner) => lemma_named_binding_below(*inner, state),
        _ => {},
    }
}

} // verus!

verus! {

/// Opening a scope, walking, and closing it again is a walk, which leaves
/// the open scopes as they were; what was recorded meanwhile for a loop or
/// `try` whose scopes are all open holds exactly those scopes.
proof fn lemma_scoped(a: Analyzer, b: Analyzer, c: Analyzer, d: Analyzer)
    requires
        walkable(a),
        b == (Analyzer { state: b.state, ..a }),
        b.state.well_formed(),
        b.state.bindings@ == a.state.bindings@,
        b.state.scope_ids() == a.state.scope_ids().push(Seq::empty()),
        walked(b, c),
        d == (Analyzer { state: d.state, ..c }),
        d.state.well_formed(),
        d.state.bindings@.len() == c.state.bindings@.len(),
        d.state.scope_ids() == c.state.scope_ids().drop_last(),
    ensures
        walked(a, d),
        d.state.scope_ids() == a.state.scope_ids(),
        continues_scoped(a.loops@, d.loops@, a.state.scope_ids(), a.state.scope_ids().len() + 1),
        throws_scoped(a.exceptions@, d.exceptions@, a.state.scope_ids(), a.state.scope_ids().len() + 1),
{
    let ids = a.state.scope_ids();
    assert(d.state.scope_ids() =~= ids) by {
        assert(b.state.scope_ids().drop_last() =~= ids);
    }
    assert forall|dep: int| 0 <= dep <= ids.len() implies #[trigger] b.state.scope_ids().take(dep) == ids.take(dep) by {
        assert(b.state.scope_ids().take(dep) =~= ids.take(dep));
    }
    assert forall|k: int, i: int|
        0 <= k < a.loops@.len() && a.loops@[k].scope_depth < ids.len() + 1
            && a.loops@[k].continue_states@.len() <= i < d.loops@[k].continue_states@.len() implies (
    #[trigger] d.loops@[k].continue_states@[i]).scope_ids() == ids.take(a.loops@[k].scope_depth as int) by {
        assert(b.state.scope_ids().take(a.loops@[k].scope_depth as int) == ids.take(a.loops@[k].scope_depth as int));
    }
    assert forall|k: int, i: int|
        0 <= k < a.exceptions@.len() && a.exceptions@[k].scope_depth < ids.len() + 1
            && a.exceptions@[k].states@.len() <= i < d.exceptions@[k].states@.len() implies (
    #[trigger] d.exceptions@[k].states@[i]).scope_ids() == ids.take(a.exceptions@[k].scope_depth as int) by {
        assert(b.state.scope_ids().take(a.exceptions@[k].scope_depth as int) == ids.take(
            a.exceptions@[k].scope_depth as int,
        ));
    }
}

/// Walking with a state of the same scopes and at least the same bindings
/// in place of the current one, then putting the current one back, is a
/// walk.
proof fn lemma_branch(a: Analyzer, b: Analyzer, c: Analyzer, d: Analyzer)
    requires
        walkable(a),
        b == (Analyzer { state: b.state, ..a }),
        b.state.scope_ids() == a.state.scope_ids(),
        b.state.bindings@.len() >= a.state.bindings@.len(),
        walked(b, c),
        d == (Analyzer { state: a.state, ..c }),
    ensures
        walked(a, d),
{
    let f = a.state.bindings@.len();
    let g = b.state.bindings@.len();
    assert forall|k: int| 0 <= k < a.loops@.len() implies {
        &&& (#[trigger] d.loops@[k]).scope_depth == a.loops@[k].scope_depth
        &&& extended(a.loops@[k].break_states@, d.loops@[k].break_states@, f)
        &&& extended(a.loops@[k].continue_states@, d.loops@[k].continue_states@, f)
    } by {
        lemma_extended_weaker(a.loops@[k].break_states@, d.loops@[k].break_states@, g, f);
        lemma_extended_weaker(a.loops@[k].continue_states@, d.loops@[k].continue_states@, g, f);
    }
    assert forall|k: int| 0 <= k < a.exceptions@.len() implies {
        &&& (#[trigger] d.exceptions@[k]).scope_depth == a.exceptions@[k].scope_depth
        &&& extended(a.exceptions@[k].states@, d.exceptions@[k].states@, f)
    } by {
        lemma_extended_weaker(a.exceptions@[k].states@, d.exceptions@[k].states@, g, f);
    }
}

/// A `try` context pushed before a walk that records states with its
/// scopes, and popped after it, leaves a walk and the states recorded for
/// it.
proof fn lemma_exception_frame(a: Analyzer, b: Analyzer, c: Analyzer, d: Analyzer)
    requires
        walkable(a),
        b == (Analyzer { exceptions: b.exceptions, ..a }),
        b.exceptions@.len() == a.exceptions@.len() + 1,
        b.exceptions@.drop_last() == a.exceptions@,
        b.exceptions@.last().states@.len() == 0,
        b.exceptions@.last().scope_depth == a.state.scope_ids().len(),
        walked(b, c),
        throws_scoped(b.exceptions@, c.exceptions@, b.state.scope_ids(), b.state.scope_ids().len() + 1),
        d == (Analyzer { exceptions: d.exceptions, ..c }),
        d.exceptions@ == c.exceptions@.drop_last(),
    ensures
        walked(a, d),
        states_well_formed(c.exceptions@.last().states@),
        forall|i: int|
            0 <= i < c.exceptions@.last().states@.len() ==> (#[trigger] c.exceptions@.last().states@[i]).bindings@.len()
                >= a.state.bindings@.len() && c.exceptions@.last().states@[i].scope_ids() == a.state.scope_ids(),
{
    let ids = a.state.scope_ids();
    let last = a.exceptions@.len() as int;
    assert(b.exceptions@[last] == b.exceptions@.last());
    assert forall|k: int| 0 <= k < last implies #[trigger] b.exceptions@[k] == a.exceptions@[k] by {
        assert(b.exceptions@.drop_last()[k] == b.exceptions@[k]);
    }
    assert forall|k: int| 0 <= k < last implies #[trigger] d.exceptions@[k] == c.exceptions@[k] by {
        assert(c.exceptions@.drop_last()[k] == c.exceptions@[k]);
    }
    assert(ids.take(ids.len() as int) =~= ids);
    assert forall|i: int| 0 <= i < c.exceptions@.last().states@.len() implies (
    #[trigger] c.exceptions@.last().states@[i]).bindings@.len() >= a.state.bindings@.len()
        && c.exceptions@.last().states@[i].scope_ids() == ids by {
        assert(c.exceptions@[last] == c.exceptions@.last());
        assert(c.exceptions@[last].states@[i] == c.exceptions@.last().states@[i]);
    }
    assert(contexts_hold(c));
    assert(c.exceptions@[last] == c.exceptions@.last());
}

/// A loop context pushed, with one more scope and loop level, before a
/// walk, and popped after it along with the scope, leaves a walk.
proof fn lemma_loop_frame(a: Analyzer, b: Analyzer, c: Analyzer, d: Analyzer)
    requires
        walkable(a),
        b == (Analyzer { state: b.state, loop_depth: b.loop_depth, loops: b.loops, ..a }),
        b.state.well_formed(),
        b.state.bindings@ == a.state.bindings@,
        b.state.scope_ids() == a.state.scope_ids().push(Seq::empty()),
        b.loops@.len() == a.loops@.len() + 1,
        b.loops@.drop_last() == a.loops@,
        walked(b, c),
        d == (Analyzer { state: d.state, loop_depth: a.loop_depth, loops: d.loops, ..c }),
        d.loops@ == c.loops@.drop_last(),
        d.state.well_formed(),
        d.state.bindings@.len() == c.state.bindings@.len(),
        d.state.scope_ids() == c.state.scope_ids().drop_last(),
    ensures
        walked(a, d),
{
    let ids = a.state.scope_ids();
    let last = a.loops@.len() as int;
    assert forall|k: int| 0 <= k < last implies #[trigger] b.loops@[k] == a.loops@[k] by {
        assert(b.loops@.drop_last()[k] == b.loops@[k]);
    }
    assert forall|k: int| 0 <= k < last implies #[trigger] d.loops@[k] == c.loops@[k] by {
        assert(c.loops@.drop_last()[k] == c.loops@[k]);
    }
    assert(d.state.scope_ids() =~= ids) by {
        assert(b.state.scope_ids().drop_last() =~= ids);
    }
    assert forall|dep: int| 0 <= dep <= ids.len() implies #[trigger] b.state.scope_ids().take(dep) == ids.take(dep) by {
        assert(b.state.scope_ids().take(dep) =~= ids.take(dep));
    }
    assert forall|k: int, i: int|
        0 <= k < a.loops@.len() && a.loops@[k].scope_depth < ids.len()
            && a.loops@[k].continue_states@.len() <= i < d.loops@[k].continue_states@.len() implies (
    #[trigger] d.loops@[k].continue_states@[i]).scope_ids() == ids.take(a.loops@[k].scope_depth as int) by {
        assert(b.state.scope_ids().take(a.loops@[k].scope_depth as int) == ids.take(a.loops@[k].scope_depth as int));
    }
    assert forall|k: int, i: int|
        0 <= k < a.exceptions@.len() && a.exceptions@[k].scope_depth < ids.len()
            && a.exceptions@[k].states@.len() <= i < d.exceptions@[k].states@.len() implies (
    #[trigger] d.exceptions@[k].states@[i]).scope_ids() == ids.take(a.exceptions@[k].scope_depth as int) by {
        assert(b.state.scope_ids().take(a.exceptions@[k].scope_depth as int) == ids.take(
            a.exceptions@[k].scope_depth as int,
        ));
    }
    assert(contexts_hold(d)) by {
        assert(contexts_hold(c));
    }
}

} // verus!

verus! {

impl Analyzer {
    /// Records the state with which control leaves the innermost loop.
    fn loop_exit(&mut self, is_continue: bool)
        requires
            walkable(*old(self)),
        ensures
            walked(*old(self), *final(self)),
    {
        self.capture_loop_exit(is_continue);
        proof {
            let a = *old(self);
            let b = *self;
            let f = a.state.bindings@.len();
            let ids = a.state.scope_ids();
            if a.loops@.len() > 0 {
                let last = a.loops@.len() - 1;
                assert forall|k: int| 0 <= k < a.loops@.len() implies {
                    &&& (#[trigger] b.loops@[k]).scope_depth == a.loops@[k].scope_depth
                    &&& extended(a.loops@[k].break_states@, b.loops@[k].break_states@, f)
                    &&& extended(a.loops@[k].continue_states@, b.loops@[k].continue_states@, f)
                } by {
                    if k == last {
                        let before = a.loops@[k];
                        let after = b.loops@[k];
                        if is_continue {
                            lemma_extended_refl(before.break_states@, f);
                            assert(after.continue_states@.take(before.continue_states@.len() as int)
                                =~= after.continue_states@.drop_last());
                        } else {
                            lemma_extended_refl(before.continue_states@, f);
                            assert(after.break_states@.take(before.break_states@.len() as int)
                                =~= after.break_states@.drop_last());
                        }
                    } else {
                        lemma_extended_refl(a.loops@[k].break_states@, f);
                        lemma_extended_refl(a.loops@[k].continue_states@, f);
                    }
                }
                assert forall|k: int| 0 <= k < b.loops@.len() implies states_well_formed(
                    (#[trigger] b.loops@[k]).break_states@,
                ) && states_well_formed(b.loops@[k].continue_states@) by {
                    if k == last {
                        let before = a.loops@[k];
                        let after = b.loops@[k];
                        assert forall|i: int| 0 <= i < after.break_states@.len() implies (#[trigger] after.break_states@[i]).well_formed() by {
                            if !is_continue && i < before.break_states@.len() {
                                assert(after.break_states@.drop_last()[i] == after.break_states@[i]);
                            }
                        }
                        assert forall|i: int| 0 <= i < after.continue_states@.len() implies (#[trigger] after.continue_states@[i]).well_formed() by {
                            if is_continue && i < before.continue_states@.len() {
                                assert(after.continue_states@.drop_last()[i] == after.continue_states@[i]);
                            }
                        }
                    }
                }
                assert forall|k: int, i: int|
                    0 <= k < a.loops@.len() && a.loops@[k].scope_depth < ids.len()
                        && a.loops@[k].continue_states@.len() <= i < b.loops@[k].continue_states@.len() implies (
                #[trigger] b.loops@[k].continue_states@[i]).scope_ids() == ids.take(a.loops@[k].scope_depth as int) by {
                    assert(k == last);
                    assert(i == b.loops@[k].continue_states@.len() - 1);
                }
            } else {
                lemma_silent_grew(a, b);
            }
            assert forall|k: int| 0 <= k < a.exceptions@.len() implies {
                &&& (#[trigger] b.exceptions@[k]).scope_depth == a.exceptions@[k].scope_depth
                &&& extended(a.exceptions@[k].states@, b.exceptions@[k].states@, f)
            } by {
                lemma_extended_refl(a.exceptions@[k].states@, f);
            }
        }
    }

    /// Checks a local declaration: a reference local borrows what its
    /// initializer names for as long as it lives; any other local reads its
    /// initializer, which may throw.
    fn local(&mut self, semantics: &SemanticModel, last_uses: &Vec<(Span, Span)>, local: &LocalDeclaration)
        requires
            walkable(*old(self)),
        ensures
            walked(*old(self), *final(self)),
            final(self).loops == old(self).loops,
            unstable_reference(*semantics, *local) matches Some(at) ==> was_emitted(final(self).emitted@, "OWN004", at),
    {
        let binding = match semantics.binding(local.span) {
            Some(binding) => binding,
            None => {
                proof {
                    lemma_walked_refl(*self);
                }
                return;
            },
        };
        let ghost start = *self;
        proof {
            lemma_walked_refl(start);
        }
        let reference_loan = if binding.ty.is_reference() {
            match &local.initializer {
                Some(initializer) => {
                    let mutable = match &binding.ty {
                        TypeRef::Reference { mutable, .. } => *mutable,
                        _ => false,
                    };
                    let origin = self.expression(semantics, initializer, borrow_usage(mutable));
                    let ghost mid = *self;
                    let loan = self.persistent_loan(origin, mutable, initializer.span);
                    proof {
                        lemma_walked_trans(start, mid, *self);
                    }
                    loan
                },
                None => None,
            }
        } else {
            match &local.initializer {
                Some(initializer) => {
                    self.expression(semantics, initializer, Usage::Read);
                    if semantics.rust_result_adaptation(initializer.span) {
                        let ghost mid = *self;
                        self.throw_point();
                        proof {
                            lemma_walked_trans(start, mid, *self);
                        }
                    }
                },
                None => {
                    let throws = match semantics.call(local.span) {
                        Some(call) => call.throws.len() != 0,
                        None => false,
                    };
                    if throws {
                        self.throw_point();
                    }
                },
            }
            None
        };
        let ghost before = *self;
        let last_use = last_use_at(last_uses, local.span);
        let loop_depth = self.loop_depth;
        self.state.declare(local.name.clone(), binding.ty.copy(), reference_loan, local.span, last_use, loop_depth);
        proof {
            assert(self.state.scope_ids().drop_last() =~= before.state.scope_ids().drop_last());
            lemma_silent_grew(before, *self);
            lemma_step(before, *self);
            lemma_walked_trans(start, before, *self);
            if let Some(at) = unstable_reference(*semantics, *local) {
                lemma_emitted_grows(before, *self, "OWN004", at);
            }
        }
    }
}

} // verus!

verus! {

impl Analyzer {
    /// Checks the statements of a block in order, up to the first that
    /// does not fall through; returns whether control reaches its end.
    fn block(
        &mut self,
        semantics: &SemanticModel,
        last_uses: &Vec<(Span, Span)>,
        block: &Block,
        create_scope: bool,
    ) -> (r: bool)
        requires
            walkable(*old(self)),
        ensures
            walked(*old(self), *final(self)),
            forall|j: int|
                0 <= j < block.statements@.len() && straight_before(block.statements@, j) ==> (unborrowable_return_statement(
                    *old(self),
                    #[trigger] block.statements@[j],
                ) matches Some(at) ==> was_emitted(final(self).emitted@, "OWN005", at)),
            forall|j: int|
                0 <= j < block.statements@.len() && straight_before(block.statements@, j) ==> (statement_unstable_reference(
                    *semantics,
                    #[trigger] block.statements@[j],
                ) matches Some(at) ==> was_emitted(final(self).emitted@, "OWN004", at)),
            block.statements@.len() == 0 ==> crate::ownership::silent(*old(self), *final(self)),
            (!create_scope && block.statements@.len() >= 2) ==> (use_after_move(
                *semantics,
                *old(self),
                block.statements@[0],
                block.statements@[1],
            ) matches Some(w) ==> was_emitted(final(self).emitted@, "OWN001", w.2)),
        decreases block, 2nat,
    {
        let ghost a = *self;
        if create_scope {
            self.state.push_scope();
        }
        let ghost b = *self;
        proof {
            lemma_walked_refl(b);
        }
        let mut reachable = true;
        let mut i: usize = 0;
        while i < block.statements.len() && reachable
            invariant
                i <= block.statements@.len(),
                walked(b, *self),
                i == 0 ==> reachable,
                i == 0 ==> *self == b,
                forall|j: int|
                    0 <= j < i && straight_before(block.statements@, j) ==> (unborrowable_return_statement(
                        b,
                        #[trigger] block.statements@[j],
                    ) matches Some(at) ==> was_emitted(self.emitted@, "OWN005", at)),
                forall|j: int|
                    0 <= j < i && straight_before(block.statements@, j) ==> (statement_unstable_reference(
                        *semantics,
                        #[trigger] block.statements@[j],
                    ) matches Some(at) ==> was_emitted(self.emitted@, "OWN004", at)),
                straight_before(block.statements@, i as int) ==> reachable,
                (block.statements@.len() >= 2 && use_after_move(*semantics, b, block.statements@[0], block.statements@[1]) is Some
                    && i == 1) ==> {
                    let w = use_after_move(*semantics, b, block.statements@[0], block.statements@[1])->0;
                    &&& reachable
                    &&& w.0 < self.state.bindings@.len()
                    &&& self.state.bindings@[w.0 as int].availability == crate::ownership::Availability::Moved(w.1)
                    &&& self.state.scopes == b.state.scopes
                },
                (block.statements@.len() >= 2 && use_after_move(*semantics, b, block.statements@[0], block.statements@[1]) is Some
                    && i >= 2) ==> was_emitted(
                    self.emitted@,
                    "OWN001",
                    (use_after_move(*semantics, b, block.statements@[0], block.statements@[1])->0).2,
                ),
            decreases block.statements@.len() - i,
        {
            proof {
                broadcast use vstd::std_specs::vec::axiom_vec_index_decreases;
                assert(decreases_to!(block.statements => block.statements@[i as int]));
            }
            let ghost mid = *self;
            reachable = self.statement(semantics, last_uses, &block.statements[i]);
            let ghost walked_statement = *self;
            self.release_expired_loans(block.statements[i].span.end);
            proof {
                lemma_step(walked_statement, *self);
                lemma_walked_trans(mid, walked_statement, *self);
                if block.statements@.len() >= 2 {
                    if let Some(w) = use_after_move(*semantics, b, block.statements@[0], block.statements@[1]) {
                        lemma_use_after_move_step(*semantics, b, mid, walked_statement, *self, block.statements@, i as int, w);
                    }
                }
                assert forall|j: int|
                    0 <= j < i + 1 && straight_before(block.statements@, j) implies (statement_unstable_reference(
                        *semantics,
                        #[trigger] block.statements@[j],
                    ) matches Some(at) ==> was_emitted(self.emitted@, "OWN004", at)) by {
                    if let Some(at) = statement_unstable_reference(*semantics, block.statements@[j]) {
                        if j < i {
                            lemma_emitted_grows(mid, *self, "OWN004", at);
                        } else {
                            lemma_emitted_grows(walked_statement, *self, "OWN004", at);
                        }
                    }
                }
                assert forall|j: int|
                    0 <= j < i + 1 && straight_before(block.statements@, j) implies (unborrowable_return_statement(
                        b,
                        #[trigger] block.statements@[j],
                    ) matches Some(at) ==> was_emitted(self.emitted@, "OWN005", at)) by {
                    assert(unborrowable_return_statement(b, block.statements@[j]) == unborrowable_return_statement(
                        mid,
                        block.statements@[j],
                    ));
                    if let Some(at) = unborrowable_return_statement(b, block.statements@[j]) {
                        if j < i {
                            lemma_emitted_grows(mid, *self, "OWN005", at);
                        } else {
                            lemma_emitted_grows(walked_statement, *self, "OWN005", at);
                        }
                    }
                }
                if straight_before(block.statements@, i + 1) {
                    assert(falls_through_kind(block.statements@[i as int]));
                }
                lemma_walked_trans(b, mid, *self);
            }
            i = i + 1;
        }
        proof {
            assert forall|j: int|
                i <= j < block.statements@.len() implies !straight_before(block.statements@, j) by {
                if straight_before(block.statements@, j) {
                    assert(straight_before(block.statements@, i as int));
                }
            }
        }
        if create_scope {
            let ghost c = *self;
            self.state.pop_scope();
            proof {
                lemma_scoped(a, b, c, *self);
                assert forall|j: int|
                    0 <= j < block.statements@.len() && straight_before(block.statements@, j) implies (
                    unborrowable_return_statement(b, #[trigger] block.statements@[j]) matches Some(at) ==> was_emitted(
                        self.emitted@,
                        "OWN005",
                        at,
                    )) by {
                    if let Some(at) = unborrowable_return_statement(b, block.statements@[j]) {
                        lemma_emitted_grows(c, *self, "OWN005", at);
                    }
                }
                assert forall|j: int|
                    0 <= j < block.statements@.len() && straight_before(block.statements@, j) implies (
                    statement_unstable_reference(*semantics, #[trigger] block.statements@[j]) matches Some(at)
                        ==> was_emitted(self.emitted@, "OWN004", at)) by {
                    if let Some(at) = statement_unstable_reference(*semantics, block.statements@[j]) {
                        lemma_emitted_grows(c, *self, "OWN004", at);
                    }
                }
            }
        }
        proof {
            assert forall|j: int| 0 <= j < block.statements@.len() implies unborrowable_return_statement(
                a,
                #[trigger] block.statements@[j],
            ) == unborrowable_return_statement(b, block.statements@[j]) by {}
        }
        reachable
    }

    /// Checks a statement; returns whether control falls through it.
    fn statement(&mut self, semantics: &SemanticModel, last_uses: &Vec<(Span, Span)>, statement: &Statement) -> (r: bool)
        requires
            walkable(*old(self)),
        ensures
            walked(*old(self), *final(self)),
            match statement.kind {
                StatementKind::Return(_) | StatementKind::Throw(_) | StatementKind::Break
                | StatementKind::Continue => !r,
                StatementKind::Local(_) | StatementKind::For(_) | StatementKind::Expression(_)
                | StatementKind::Empty | StatementKind::Error => r,
                _ => true,
            },
            unborrowable_return_statement(*old(self), *statement) matches Some(at) ==> was_emitted(
                final(self).emitted@,
                "OWN005",
                at,
            ),
            match statement.kind {
                StatementKind::Expression(e) => expression_effect(*semantics, *old(self), *final(self), e, Usage::Read),
                _ => true,
            },
            statement_unstable_reference(*semantics, *statement) matches Some(at) ==> was_emitted(
                final(self).emitted@,
                "OWN004",
                at,
            ),
        decreases statement, 0nat,
    {
        let ghost a = *self;
        match &statement.kind {
            StatementKind::Block(block) => self.block(semantics, last_uses, block, true),
            StatementKind::Local(local) => {
                self.local(semantics, last_uses, local);
                true
            },
            StatementKind::Return(value) => {
                match value {
                    Some(value) => {
                        let origin = self.expression(semantics, value, Usage::Read);
                        if self.returns_reference {
                            let ghost mid = *self;
                            self.validate_reference_return(origin, value.span);
                            proof {
                                lemma_step(mid, *self);
                                lemma_walked_trans(a, mid, *self);
                                if self.return_borrow is None {
                                    lemma_reported_emits(
                                        mid,
                                        *self,
                                        "OWN005",
                                        "a reference return requires exactly one reference parameter"@,
                                        value.span,
                                    );
                                }
                            }
                        }
                    },
                    None => {
                        proof {
                            lemma_walked_refl(a);
                        }
                    },
                }
                false
            },
            StatementKind::Throw(value) => {
                match value {
                    Some(value) => {
                        self.expression(semantics, value, Usage::Read);
                    },
                    None => {
                        proof {
                            lemma_walked_refl(a);
                        }
                    },
                }
                let ghost mid = *self;
                self.throw_point();
                proof {
                    lemma_walked_trans(a, mid, *self);
                }
                false
            },
            StatementKind::Try(try_statement) => self.try_statement(semantics, last_uses, try_statement),
            StatementKind::If(if_statement) => {
                self.expression(semantics, &if_statement.condition, Usage::Read);
                let ghost mid = *self;
                let r = self.if_statement(semantics, last_uses, if_statement);
                proof {
                    lemma_walked_trans(a, mid, *self);
                }
                r
            },
            StatementKind::For(for_statement) => {
                self.for_statement(semantics, last_uses, for_statement);
                true
            },
            StatementKind::Break => {
                self.loop_exit(false);
                false
            },
            StatementKind::Continue => {
                self.loop_exit(true);
                false
            },
            StatementKind::Expression(expression) => {
                self.expression(semantics, expression, Usage::Read);
                true
            },
            StatementKind::Empty | StatementKind::Error => {
                proof {
                    lemma_walked_refl(a);
                }
                true
            },
        }
    }

    /// Checks a `try` statement: its body runs from the current state, each
    /// handler from the states at the points that may throw, and the states
    /// of the paths that continue are merged.
    fn try_statement(
        &mut self,
        semantics: &SemanticModel,
        last_uses: &Vec<(Span, Span)>,
        try_statement: &crate::ast::TryStatement,
    ) -> (r: bool)
        requires
            walkable(*old(self)),
        ensures
            walked(*old(self), *final(self)),
        decreases try_statement, 0nat,
    {
        let ghost a = *self;
        let baseline = self.state.copy();
        let depth = self.state.scopes.len();
        self.exceptions.push(ExceptionContext { scope_depth: depth, states: Vec::new() });
        let ghost b = *self;
        proof {
            assert(b.exceptions@.drop_last() =~= a.exceptions@);
            assert(contexts_hold(b)) by {
                assert forall|k: int| 0 <= k < b.exceptions@.len() implies states_well_formed(
                    (#[trigger] b.exceptions@[k]).states@,
                ) by {
                    if k < a.exceptions@.len() {
                        assert(b.exceptions@.drop_last()[k] == b.exceptions@[k]);
                    }
                }
            }
        }
        let (try_state, try_reachable) = self.analyze_block_branch(
            semantics,
            last_uses,
            &try_statement.body,
            baseline.copy(),
            None,
        );
        let ghost c = *self;
        let exception_states = match self.exceptions.pop() {
            Some(context) => context.states,
            None => Vec::new(),
        };
        proof {
            lemma_exception_frame(a, b, c, *self);
            assert(exception_states@ == c.exceptions@.last().states@);
        }
        let ghost d = *self;
        let catch_baseline = if exception_states.len() == 0 {
            baseline.copy()
        } else {
            proof {
                assert forall|i: int| 0 <= i < exception_states@.len() implies open_ids_below(
                    baseline.scope_ids(),
                    (#[trigger] exception_states@[i]).bindings@.len(),
                ) by {
                    lemma_open_ids_below(baseline, exception_states@[i].bindings@.len());
                }
            }
            merge_many_states(&baseline, &exception_states)
        };
        proof {
            if exception_states@.len() == 1 {
                assert(exception_states@[0].scope_ids() == a.state.scope_ids());
            }
        }
        let mut continuing: Vec<FlowState> = Vec::new();
        if try_reachable {
            continuing.push(try_state);
        }
        let mut i: usize = 0;
        proof {
            lemma_walked_refl(d);
        }
        while i < try_statement.catches.len()
            invariant
                i <= try_statement.catches@.len(),
                walked(d, *self),
                self.state == a.state,
                walkable(a),
                baseline.well_formed(),
                baseline.scope_ids() == a.state.scope_ids(),
                baseline.bindings@.len() == a.state.bindings@.len(),
                catch_baseline.well_formed(),
                catch_baseline.scope_ids() == a.state.scope_ids(),
                catch_baseline.bindings@.len() >= a.state.bindings@.len(),
                forall|k: int| 0 <= k < continuing@.len() ==> {
                    &&& (#[trigger] continuing@[k]).well_formed()
                    &&& continuing@[k].scope_ids() == a.state.scope_ids()
                    &&& continuing@[k].bindings@.len() >= a.state.bindings@.len()
                },
            decreases try_statement.catches@.len() - i,
        {
            proof {
                broadcast use vstd::std_specs::vec::axiom_vec_index_decreases;
                assert(decreases_to!(try_statement.catches => try_statement.catches@[i as int]));
            }
            let catch = &try_statement.catches[i];
            let binding = match &catch.binding {
                Some(binding) => semantics.binding(binding.span),
                None => None,
            };
            let ghost mid = *self;
            let (state, reachable) = self.analyze_block_branch(
                semantics,
                last_uses,
                &catch.body,
                catch_baseline.copy(),
                binding,
            );
            proof {
                lemma_walked_trans(d, mid, *self);
            }
            if reachable {
                continuing.push(state);
            }
            i = i + 1;
        }
        let ghost e = *self;
        proof {
            lemma_walked_trans(a, d, e);
        }
        if continuing.len() == 0 {
            self.state = baseline;
            proof {
                lemma_state_replaced(a, e, *self);
            }
            false
        } else {
            proof {
                assert forall|k: int| 0 <= k < continuing@.len() implies open_ids_below(
                    baseline.scope_ids(),
                    (#[trigger] continuing@[k]).bindings@.len(),
                ) by {
                    lemma_open_ids_below(baseline, continuing@[k].bindings@.len());
                }
            }
            self.state = merge_many_states(&baseline, &continuing);
            proof {
                if continuing@.len() == 1 {
                    assert(continuing@[0].scope_ids() == a.state.scope_ids());
                }
                lemma_state_replaced(a, e, *self);
            }
            true
        }
    }

    /// Checks the branches of an `if` from the current state and merges the
    /// states of those that fall through; returns whether any does.
    fn if_statement(&mut self, semantics: &SemanticModel, last_uses: &Vec<(Span, Span)>, statement: &IfStatement) -> (r: bool)
        requires
            walkable(*old(self)),
        ensures
            walked(*old(self), *final(self)),
        decreases statement, 2nat,
    {
        let ghost a = *self;
        let baseline = self.state.copy();
        let (then_state, then_reachable) = self.analyze_branch(semantics, last_uses, &statement.then_branch, baseline.copy());
        let ghost b = *self;
        let (else_state, else_reachable) = match &statement.else_branch {
            Some(branch) => self.analyze_branch(semantics, last_uses, branch, baseline.copy()),
            None => {
                proof {
                    lemma_walked_refl(b);
                }
                (baseline.copy(), true)
            },
        };
        let ghost c = *self;
        proof {
            lemma_walked_trans(a, b, c);
        }
        if then_reachable && else_reachable {
            proof {
                lemma_open_ids_below(baseline, then_state.bindings@.len());
                lemma_open_ids_below(baseline, else_state.bindings@.len());
            }
            self.state = merge_states(&baseline, &then_state, &else_state);
            proof {
                lemma_state_replaced(a, c, *self);
            }
            true
        } else if then_reachable {
            self.state = then_state;
            proof {
                lemma_state_replaced(a, c, *self);
            }
            true
        } else if else_reachable {
            self.state = else_state;
            proof {
                lemma_state_replaced(a, c, *self);
            }
            true
        } else {
            self.state = baseline;
            proof {
                lemma_state_replaced(a, c, *self);
            }
            false
        }
    }

    /// Checks one branch from `state`, in a scope of its own; returns the
    /// state at its end and whether control reaches it. The current state
    /// is left as it was.
    fn analyze_branch(
        &mut self,
        semantics: &SemanticModel,
        last_uses: &Vec<(Span, Span)>,
        statement: &Statement,
        state: FlowState,
    ) -> (r: (FlowState, bool))
        requires
            walkable(*old(self)),
            state.well_formed(),
            state.scope_ids() == old(self).state.scope_ids(),
            state.bindings@.len() >= old(self).state.bindings@.len(),
        ensures
            walked(*old(self), *final(self)),
            final(self).state == old(self).state,
            r.0.well_formed(),
            r.0.scope_ids() == state.scope_ids(),
            r.0.bindings@.len() >= state.bindings@.len(),
        decreases statement, 1nat,
    {
        let ghost a = *self;
        let mut saved = state;
        std::mem::swap(&mut self.state, &mut saved);
        let ghost b = *self;
        self.state.push_scope();
        let ghost b1 = *self;
        let reachable = self.statement(semantics, last_uses, statement);
        let ghost c1 = *self;
        self.release_expired_loans(statement.span.end);
        proof {
            lemma_step(c1, *self);
            lemma_walked_trans(b1, c1, *self);
        }
        let ghost c2 = *self;
        self.state.pop_scope();
        let ghost c = *self;
        proof {
            lemma_scoped(b, b1, c2, c);
        }
        std::mem::swap(&mut self.state, &mut saved);
        proof {
            lemma_branch(a, b, c, *self);
        }
        (saved, reachable)
    }

    /// Checks a block from `state`, in a scope of its own that first
    /// declares `binding`; returns the state at its end and whether control
    /// reaches it. The current state is left as it was.
    fn analyze_block_branch(
        &mut self,
        semantics: &SemanticModel,
        last_uses: &Vec<(Span, Span)>,
        block: &Block,
        state: FlowState,
        binding: Option<&BindingResolution>,
    ) -> (r: (FlowState, bool))
        requires
            walkable(*old(self)),
            state.well_formed(),
            state.scope_ids() == old(self).state.scope_ids(),
            state.bindings@.len() >= old(self).state.bindings@.len(),
        ensures
            walked(*old(self), *final(self)),
            final(self).state == old(self).state,
            throws_scoped(
                old(self).exceptions@,
                final(self).exceptions@,
                old(self).state.scope_ids(),
                old(self).state.scope_ids().len() + 1,
            ),
            r.0.well_formed(),
            r.0.scope_ids() == state.scope_ids(),
            r.0.bindings@.len() >= state.bindings@.len(),
        decreases block, 3nat,
    {
        let ghost a = *self;
        let mut saved = state;
        std::mem::swap(&mut self.state, &mut saved);
        let ghost b = *self;
        self.state.push_scope();
        let ghost b1 = *self;
        proof {
            lemma_walked_refl(b1);
        }
        if let Some(binding) = binding {
            let last_use = last_use_at(last_uses, binding.span);
            let loop_depth = self.loop_depth;
            self.state.declare(binding.name.clone(), binding.ty.copy(), None, binding.span, last_use, loop_depth);
            proof {
                assert(self.state.scope_ids().drop_last() =~= b1.state.scope_ids().drop_last());
                lemma_silent_grew(b1, *self);
                lemma_step(b1, *self);
            }
        }
        let ghost declared = *self;
        let reachable = self.block(semantics, last_uses, block, false);
        let ghost c2 = *self;
        proof {
            lemma_walked_trans(b1, declared, c2);
        }
        self.state.pop_scope();
        let ghost c = *self;
        proof {
            lemma_scoped(b, b1, c2, c);
        }
        std::mem::swap(&mut self.state, &mut saved);
        proof {
            lemma_branch(a, b, c, *self);
        }
        (saved, reachable)
    }
}

} // verus!

verus! {

/// The states recorded for the innermost loop are well formed and each
/// has at least `floor` bindings.
pub open spec fn innermost_exits_hold(a: Analyzer, floor: nat) -> bool {
    a.loops@.len() > 0 && forall|i: int|
        0 <= i < a.loops@.last().break_states@.len() ==> (#[trigger] a.loops@.last().break_states@[i]).well_formed()
            && a.loops@.last().break_states@[i].bindings@.len() >= floor
}

/// Walking from a state whose innermost loop has recorded no exit leaves
/// exits that each have at least the bindings it started with.
proof fn lemma_exits_hold(a: Analyzer, b: Analyzer)
    requires
        walked(a, b),
        a.loops@.len() > 0,
        a.loops@.last().break_states@.len() == 0,
    ensures
        innermost_exits_hold(b, a.state.bindings@.len()),
{
    let last = a.loops@.len() - 1;
    assert(b.loops@[last] == b.loops@.last());
    assert(a.loops@[last] == a.loops@.last());
    assert(states_well_formed(b.loops@[last].break_states@));
    assert(extended(a.loops@[last].break_states@, b.loops@[last].break_states@, a.state.bindings@.len()));
}

impl Analyzer {
    /// Checks a `for` statement in a scope and loop context of its own.
    fn for_statement(&mut self, semantics: &SemanticModel, last_uses: &Vec<(Span, Span)>, statement: &ForStatement)
        requires
            walkable(*old(self)),
        ensures
            walked(*old(self), *final(self)),
        decreases statement, 0nat,
    {
        let ghost a = *self;
        self.state.push_scope();
        let depth = self.loop_depth;
        if depth < usize::MAX {
            self.loop_depth = depth + 1;
        }
        let scope_depth = self.state.scopes.len();
        self.loops.push(LoopContext { scope_depth, break_states: Vec::new(), continue_states: Vec::new() });
        let ghost b = *self;
        proof {
            assert(b.loops@.drop_last() =~= a.loops@);
            assert(contexts_hold(b)) by {
                assert forall|k: int| 0 <= k < b.loops@.len() implies states_well_formed(
                    (#[trigger] b.loops@[k]).break_states@,
                ) && states_well_formed(b.loops@[k].continue_states@) by {
                    if k < a.loops@.len() {
                        assert(b.loops@.drop_last()[k] == b.loops@[k]);
                    }
                }
            }
        }
        match &statement.clause {
            ForClause::Classic(classic) => self.classic_for(semantics, last_uses, classic, &statement.body),
            ForClause::Range(range) => self.range_for(semantics, last_uses, range, &statement.body),
            ForClause::Error => {
                proof {
                    lemma_walked_refl(b);
                }
            },
        }
        let ghost c = *self;
        self.loops.pop();
        self.loop_depth = depth;
        self.state.pop_scope();
        proof {
            lemma_loop_frame(a, b, c, *self);
        }
        let ghost d = *self;
        self.release_expired_loans(statement.body.span.end);
        proof {
            lemma_step(d, *self);
            lemma_walked_trans(a, d, *self);
        }
    }

    /// Checks a classic `for` loop: its initializer and condition, then its
    /// body with update and condition twice, the second time from the state
    /// after the first; the states at every way out are merged.
    fn classic_for(
        &mut self,
        semantics: &SemanticModel,
        last_uses: &Vec<(Span, Span)>,
        clause: &ClassicForClause,
        body: &Statement,
    )
        requires
            walkable(*old(self)),
            old(self).loops@.len() > 0,
            old(self).loops@.last().scope_depth == old(self).state.scope_ids().len(),
            old(self).loops@.last().break_states@.len() == 0,
        ensures
            walked(*old(self), *final(self)),
        decreases body, 2nat,
    {
        let ghost a = *self;
        proof {
            lemma_walked_refl(a);
        }
        match &clause.initializer {
            Some(ForInitializer::Local(local)) => self.local(semantics, last_uses, local),
            Some(ForInitializer::Expression(expression)) => {
                self.expression(semantics, expression, Usage::Read);
            },
            None => {},
        }
        let ghost a1 = *self;
        match &clause.condition {
            Some(condition) => {
                self.expression(semantics, condition, Usage::Read);
            },
            None => {
                proof {
                    lemma_walked_refl(a1);
                }
            },
        }
        let ghost s1 = *self;
        proof {
            lemma_walked_trans(a, a1, s1);
            assert(s1.loops == a.loops);
        }
        let baseline = self.state.copy();
        let first_state = self.loop_iteration(semantics, last_uses, body, &clause.update, &clause.condition);
        let ghost s2 = *self;
        let repeated_state = match &first_state {
            Some(first) => {
                self.state = first.copy();
                let ghost s3 = *self;
                proof {
                    lemma_state_replaced(s1, s2, s3);
                }
                let repeated = self.loop_iteration(semantics, last_uses, body, &clause.update, &clause.condition);
                proof {
                    lemma_walked_trans(s1, s3, *self);
                }
                repeated
            },
            None => {
                proof {
                    lemma_walked_refl(s2);
                }
                None
            },
        };
        let ghost s4 = *self;
        proof {
            lemma_exits_hold(s1, s4);
        }
        let exits = self.exit_states(baseline.copy(), first_state, repeated_state);
        proof {
            assert forall|k: int| 0 <= k < exits@.len() implies open_ids_below(
                baseline.scope_ids(),
                (#[trigger] exits@[k]).bindings@.len(),
            ) by {
                lemma_open_ids_below(baseline, exits@[k].bindings@.len());
            }
        }
        self.state = merge_many_states(&baseline, &exits);
        proof {
            lemma_walked_trans(a, s1, s4);
            lemma_state_replaced(a, s4, *self);
        }
    }

    /// The states at every way out of a loop: before its first iteration,
    /// after each of the two iterations checked, and at each `break`.
    fn exit_states(
        &self,
        baseline: FlowState,
        first_state: Option<FlowState>,
        repeated_state: Option<FlowState>,
    ) -> (r: Vec<FlowState>)
        requires
            baseline.well_formed(),
            innermost_exits_hold(*self, baseline.bindings@.len()),
            match first_state {
                Some(s) => s.well_formed() && s.bindings@.len() >= baseline.bindings@.len(),
                None => true,
            },
            match repeated_state {
                Some(s) => s.well_formed() && s.bindings@.len() >= baseline.bindings@.len(),
                None => true,
            },
        ensures
            r@.len() >= 1,
            r@[0] == baseline,
            forall|k: int| 0 <= k < r@.len() ==> (#[trigger] r@[k]).well_formed() && r@[k].bindings@.len()
                >= baseline.bindings@.len(),
    {
        let ghost base = baseline;
        let mut exits: Vec<FlowState> = vec![baseline];
        if let Some(state) = first_state {
            exits.push(state);
        }
        if let Some(state) = repeated_state {
            exits.push(state);
        }
        let last = self.loops.len() - 1;
        let mut k: usize = 0;
        while k < self.loops[last].break_states.len()
            invariant
                last == self.loops@.len() - 1,
                innermost_exits_hold(*self, base.bindings@.len()),
                exits@.len() >= 1,
                exits@[0] == base,
                forall|q: int| 0 <= q < exits@.len() ==> (#[trigger] exits@[q]).well_formed() && exits@[q].bindings@.len()
                    >= base.bindings@.len(),
            decreases self.loops@[last as int].break_states@.len() - k,
        {
            assert(self.loops@[last as int] == self.loops@.last());
            let state = self.loops[last].break_states[k].copy();
            proof {
                assert(self.loops@.last().break_states@[k as int].well_formed());
            }
            exits.push(state);
            k = k + 1;
        }
        exits
    }
}

} // verus!

verus! {

impl Analyzer {
    /// Checks one iteration of a loop body; returns the state after the
    /// update and condition, merged over the paths that reach them: the end
    /// of the body and each `continue`. `None` when no path does.
    fn loop_iteration(
        &mut self,
        semantics: &SemanticModel,
        last_uses: &Vec<(Span, Span)>,
        body: &Statement,
        update: &Option<Expression>,
        condition: &Option<Expression>,
    ) -> (r: Option<FlowState>)
        requires
            walkable(*old(self)),
            old(self).loops@.len() > 0,
            old(self).loops@.last().scope_depth == old(self).state.scope_ids().len(),
        ensures
            walked(*old(self), *final(self)),
            match r {
                Some(state) => state.well_formed() && state.scope_ids() == old(self).state.scope_ids()
                    && state.bindings@.len() >= old(self).state.bindings@.len(),
                None => true,
            },
        decreases body, 1nat,
    {
        let ghost a = *self;
        let last = self.loops.len() - 1;
        let continue_start = self.loops[last].continue_states.len();
        self.state.push_scope();
        let ghost b = *self;
        let reachable = self.statement(semantics, last_uses, body);
        let ghost c = *self;
        self.state.pop_scope();
        let ghost d = *self;
        proof {
            lemma_scoped(a, b, c, d);
        }
        let mut continuing: Vec<FlowState> = Vec::new();
        if reachable {
            continuing.push(self.state.copy());
        }
        let mut continue_states = self.loops[last].continue_states.split_off(continue_start);
        let ghost e = *self;
        proof {
            lemma_continues_restored(a, d, e, continue_states@);
        }
        continuing.append(&mut continue_states);
        if continuing.len() == 0 {
            return None;
        }
        let baseline = continuing[0].copy();
        let mut tails: Vec<FlowState> = Vec::new();
        let mut i: usize = 0;
        while i < continuing.len()
            invariant
                i <= continuing@.len(),
                walked(a, *self),
                self.state.scope_ids() == a.state.scope_ids(),
                self.state.bindings@.len() >= a.state.bindings@.len(),
                forall|k: int| 0 <= k < continuing@.len() ==> {
                    &&& (#[trigger] continuing@[k]).well_formed()
                    &&& continuing@[k].scope_ids() == a.state.scope_ids()
                    &&& continuing@[k].bindings@.len() >= a.state.bindings@.len()
                },
                forall|k: int| 0 <= k < tails@.len() ==> {
                    &&& (#[trigger] tails@[k]).well_formed()
                    &&& tails@[k].scope_ids() == a.state.scope_ids()
                    &&& tails@[k].bindings@.len() >= a.state.bindings@.len()
                },
            decreases continuing@.len() - i,
        {
            let ghost before = *self;
            let start = continuing[i].copy();
            proof {
                lemma_state_replaced(a, before, Analyzer { state: start, ..before });
            }
            let tail = self.analyze_loop_tail(semantics, start, update, condition);
            proof {
                lemma_walked_trans(a, Analyzer { state: start, ..before }, Analyzer { state: tail, ..*self });
                lemma_state_replaced(a, Analyzer { state: tail, ..*self }, *self);
            }
            tails.push(tail);
            i = i + 1;
        }
        proof {
            assert forall|k: int| 0 <= k < tails@.len() implies open_ids_below(
                baseline.scope_ids(),
                (#[trigger] tails@[k]).bindings@.len(),
            ) by {
                lemma_open_ids_below(a.state, tails@[k].bindings@.len());
            }
        }
        let merged = merge_many_states(&baseline, &tails);
        Some(merged)
    }

    /// Checks a loop's update and condition from `state`; returns the state
    /// after them. The current state is left as it was.
    fn analyze_loop_tail(
        &mut self,
        semantics: &SemanticModel,
        state: FlowState,
        update: &Option<Expression>,
        condition: &Option<Expression>,
    ) -> (r: FlowState)
        requires
            walkable(Analyzer { state: state, ..*old(self) }),
        ensures
            walked(Analyzer { state: state, ..*old(self) }, Analyzer { state: r, ..*final(self) }),
            final(self).state == old(self).state,
            final(self).loops == old(self).loops,
            r.scope_ids() == state.scope_ids(),
    {
        let mut saved = state;
        std::mem::swap(&mut self.state, &mut saved);
        let ghost b = *self;
        proof {
            lemma_walked_refl(b);
        }
        if let Some(update) = update {
            self.expression(semantics, update, Usage::Read);
        }
        let ghost c = *self;
        if let Some(condition) = condition {
            self.expression(semantics, condition, Usage::Read);
            proof {
                lemma_walked_trans(b, c, *self);
            }
        }
        std::mem::swap(&mut self.state, &mut saved);
        saved
    }
}

/// Splitting off the continue states recorded by a walk restores the
/// innermost loop's list and keeps the walk.
proof fn lemma_continues_restored(a: Analyzer, d: Analyzer, e: Analyzer, taken: Seq<FlowState>)
    requires
        walked(a, d),
        continues_scoped(a.loops@, d.loops@, a.state.scope_ids(), a.state.scope_ids().len() + 1),
        d.state.scope_ids() == a.state.scope_ids(),
        a.loops@.len() > 0,
        a.loops@.last().scope_depth == a.state.scope_ids().len(),
        e == (Analyzer { loops: e.loops, ..d }),
        e.loops@.len() == d.loops@.len(),
        forall|k: int| 0 <= k < d.loops@.len() - 1 ==> #[trigger] e.loops@[k] == d.loops@[k],
        e.loops@.last().scope_depth == d.loops@.last().scope_depth,
        e.loops@.last().break_states == d.loops@.last().break_states,
        e.loops@.last().continue_states@ == d.loops@.last().continue_states@.subrange(
            0,
            a.loops@.last().continue_states@.len() as int,
        ),
        taken == d.loops@.last().continue_states@.subrange(
            a.loops@.last().continue_states@.len() as int,
            d.loops@.last().continue_states@.len() as int,
        ),
    ensures
        walked(a, e),
        forall|k: int| 0 <= k < taken.len() ==> {
            &&& (#[trigger] taken[k]).well_formed()
            &&& taken[k].scope_ids() == a.state.scope_ids()
            &&& taken[k].bindings@.len() >= a.state.bindings@.len()
        },
{
    let last = a.loops@.len() - 1;
    let f = a.state.bindings@.len();
    let ids = a.state.scope_ids();
    assert(d.loops@[last] == d.loops@.last());
    assert(e.loops@[last] == e.loops@.last());
    assert(a.loops@[last] == a.loops@.last());
    let start = a.loops@[last].continue_states@.len() as int;
    assert(e.loops@[last].continue_states@ =~= a.loops@[last].continue_states@) by {
        assert(d.loops@[last].continue_states@.take(start) == a.loops@[last].continue_states@);
    }
    assert(ids.take(ids.len() as int) =~= ids);
    assert forall|k: int| 0 <= k < taken.len() implies {
        &&& (#[trigger] taken[k]).well_formed()
        &&& taken[k].scope_ids() == ids
        &&& taken[k].bindings@.len() >= f
    } by {
        assert(taken[k] == d.loops@[last].continue_states@[start + k]);
        assert(states_well_formed(d.loops@[last].continue_states@));
    }
    assert forall|k: int| 0 <= k < a.loops@.len() implies {
        &&& (#[trigger] e.loops@[k]).scope_depth == a.loops@[k].scope_depth
        &&& extended(a.loops@[k].break_states@, e.loops@[k].break_states@, f)
        &&& extended(a.loops@[k].continue_states@, e.loops@[k].continue_states@, f)
    } by {
        if k == last {
            lemma_extended_refl(a.loops@[k].continue_states@, f);
        }
    }
    assert(contexts_hold(e)) by {
        assert forall|k: int| 0 <= k < e.loops@.len() implies states_well_formed(
            (#[trigger] e.loops@[k]).break_states@,
        ) && states_well_formed(e.loops@[k].continue_states@) by {
            if k == last {
                assert(states_well_formed(a.loops@[k].continue_states@));
            }
        }
    }
}

} // verus!

verus! {

impl Analyzer {
    /// Checks a range `for` loop: the range is borrowed for the loop, or
    /// moved when it is a `std::move`, and the body is checked twice, the
    /// second time from the state after the first; the states at every way
    /// out are merged before the loop's borrow ends.
    fn range_for(
        &mut self,
        semantics: &SemanticModel,
        last_uses: &Vec<(Span, Span)>,
        range: &RangeForClause,
        body: &Statement,
    )
        requires
            walkable(*old(self)),
            old(self).loops@.len() > 0,
            old(self).loops@.last().scope_depth == old(self).state.scope_ids().len(),
            old(self).loops@.last().break_states@.len() == 0,
        ensures
            walked(*old(self), *final(self)),
        decreases body, 2nat,
    {
        let ghost a = *self;
        let binding = match semantics.binding(range.ty.span) {
            Some(binding) => binding,
            None => {
                proof {
                    lemma_walked_refl(a);
                }
                return;
            },
        };
        let moved_range = is_move_call(semantics, &range.iterable);
        let mutable = match &binding.ty {
            TypeRef::Reference { mutable, .. } => *mutable,
            _ => false,
        };
        let borrowed = binding.ty.is_reference() || !moved_range;
        let usage = if moved_range {
            Usage::Read
        } else {
            borrow_usage(mutable)
        };
        let origin = self.expression(semantics, &range.iterable, usage);
        let ghost a1 = *self;
        let loop_loan = if borrowed {
            self.persistent_loan(origin, mutable, range.iterable.span)
        } else {
            proof {
                lemma_walked_refl(a1);
            }
            None
        };
        let ghost s1 = *self;
        proof {
            lemma_walked_trans(a, a1, s1);
        }
        let baseline = self.state.copy();
        let first_state = self.range_iteration(semantics, last_uses, binding, body);
        let ghost s2 = *self;
        let repeated_state = match &first_state {
            Some(first) => {
                self.state = first.copy();
                let ghost s3 = *self;
                proof {
                    lemma_state_replaced(s1, s2, s3);
                }
                let repeated = self.range_iteration(semantics, last_uses, binding, body);
                proof {
                    lemma_walked_trans(s1, s3, *self);
                }
                repeated
            },
            None => {
                proof {
                    lemma_walked_refl(s2);
                }
                None
            },
        };
        let ghost s4 = *self;
        proof {
            lemma_exits_hold(s1, s4);
        }
        let exits = self.exit_states(baseline.copy(), first_state, repeated_state);
        proof {
            assert forall|k: int| 0 <= k < exits@.len() implies open_ids_below(
                baseline.scope_ids(),
                (#[trigger] exits@[k]).bindings@.len(),
            ) by {
                lemma_open_ids_below(baseline, exits@[k].bindings@.len());
            }
        }
        self.state = merge_many_states(&baseline, &exits);
        let ghost s5 = *self;
        proof {
            lemma_walked_trans(a, s1, s4);
            lemma_state_replaced(a, s4, s5);
        }
        if let Some(loan) = loop_loan {
            self.state.release(loan);
            proof {
                lemma_silent_grew(s5, *self);
                lemma_step(s5, *self);
                lemma_walked_trans(a, s5, *self);
            }
        }
    }

    /// Checks one iteration of a range loop body, with the loop variable
    /// declared in a scope of its own; returns the state merged over the
    /// paths that reach the next iteration: the end of the body and each
    /// `continue`. `None` when no path does.
    fn range_iteration(
        &mut self,
        semantics: &SemanticModel,
        last_uses: &Vec<(Span, Span)>,
        binding: &BindingResolution,
        body: &Statement,
    ) -> (r: Option<FlowState>)
        requires
            walkable(*old(self)),
            old(self).loops@.len() > 0,
            old(self).loops@.last().scope_depth == old(self).state.scope_ids().len(),
        ensures
            walked(*old(self), *final(self)),
            match r {
                Some(state) => state.well_formed() && state.scope_ids() == old(self).state.scope_ids()
                    && state.bindings@.len() >= old(self).state.bindings@.len(),
                None => true,
            },
        decreases body, 1nat,
    {
        let ghost a = *self;
        let last = self.loops.len() - 1;
        let continue_start = self.loops[last].continue_states.len();
        self.state.push_scope();
        let ghost b = *self;
        proof {
            lemma_walked_refl(b);
        }
        let last_use = last_use_at(last_uses, binding.span);
        let loop_depth = self.loop_depth;
        self.state.declare(binding.name.clone(), binding.ty.copy(), None, binding.span, last_use, loop_depth);
        let ghost declared = *self;
        proof {
            assert(declared.state.scope_ids().drop_last() =~= b.state.scope_ids().drop_last());
            lemma_silent_grew(b, declared);
            lemma_step(b, declared);
        }
        let reachable = self.statement(semantics, last_uses, body);
        let ghost c = *self;
        proof {
            lemma_walked_trans(b, declared, c);
        }
        self.state.pop_scope();
        let ghost d = *self;
        proof {
            lemma_scoped(a, b, c, d);
        }
        let mut continuing: Vec<FlowState> = Vec::new();
        if reachable {
            continuing.push(self.state.copy());
        }
        let mut continue_states = self.loops[last].continue_states.split_off(continue_start);
        let ghost e = *self;
        proof {
            lemma_continues_restored(a, d, e, continue_states@);
        }
        continuing.append(&mut continue_states);
        if continuing.len() == 0 {
            return None;
        }
        let baseline = continuing[0].copy();
        proof {
            assert forall|k: int| 0 <= k < continuing@.len() implies open_ids_below(
                baseline.scope_ids(),
                (#[trigger] continuing@[k]).bindings@.len(),
            ) by {
                lemma_open_ids_below(a.state, continuing@[k].bindings@.len());
            }
        }
        let merged = merge_many_states(&baseline, &continuing);
        Some(merged)
    }
}

} // verus!

verus! {

/// The smaller of two lengths.
/// Whether control always falls through a statement of this kind: a local
/// declaration, a `for` loop, an expression statement or an empty one.
pub open spec fn falls_through_kind(s: Statement) -> bool {
    ||| s.kind is Local
    ||| s.kind is For
    ||| s.kind is Expression
    ||| s.kind is Empty
    ||| s.kind is Error
}

/// Whether every statement before index `j` falls through, so that the
/// walk of a block reaches statement `j`.
pub open spec fn straight_before(ss: Seq<Statement>, j: int) -> bool {
    forall|k: int| 0 <= k < j ==> falls_through_kind(#[trigger] ss[k])
}

/// Statement `j` of the body of a resolved function, when every statement
/// before it falls through.
pub open spec fn reached_statement(semantics: SemanticModel, f: Function, j: int) -> Option<Statement> {
    match entry_for(semantics.function_declarations@, f.span) {
        Some(id) => if id < semantics.functions@.len() {
            match f.body {
                Some(body) => if 0 <= j < body.statements@.len() && straight_before(body.statements@, j) {
                    Some(body.statements@[j])
                } else {
                    None
                },
                None => None,
            }
        } else {
            None
        },
        None => None,
    }
}

/// The value of a statement `return value;` met where the function returns
/// a reference but has no single reference parameter it could borrow from.
pub open spec fn unborrowable_return_statement(a: Analyzer, s: Statement) -> Option<Span> {
    match s.kind {
        StatementKind::Return(Some(value)) => if a.returns_reference && a.return_borrow is None {
            Some(value.span)
        } else {
            None
        },
        _ => None,
    }
}

/// For a resolved function that returns a reference without a single
/// reference parameter, whose body statement `j` is `return value;` and is
/// reached: the range of that value.
pub open spec fn unborrowable_return(semantics: SemanticModel, f: Function, j: int) -> Option<Span> {
    match entry_for(semantics.function_declarations@, f.span) {
        Some(id) => if id < semantics.functions@.len() {
            let symbol = semantics.functions@[id as int];
            if symbol.return_type is Reference && return_borrow_of(symbol) is None {
                match reached_statement(semantics, f, j) {
                    Some(s) => match s.kind {
                        StatementKind::Return(Some(value)) => Some(value.span),
                        _ => None,
                    },
                    None => None,
                }
            } else {
                None
            }
        } else {
            None
        },
        None => None,
    }
}

/// For a local declaration that resolution gave a reference type and whose
/// initializer is a literal, which names no binding to borrow from: the
/// initializer's range.
pub open spec fn unstable_reference(semantics: SemanticModel, local: crate::ast::LocalDeclaration) -> Option<Span> {
    match entry_for(semantics.bindings@, local.span) {
        Some(binding) => if binding.ty is Reference {
            match local.initializer {
                Some(initializer) => if initializer.kind is Literal {
                    Some(initializer.span)
                } else {
                    None
                },
                None => None,
            }
        } else {
            None
        },
        None => None,
    }
}

/// [`unstable_reference`] of a local declaration statement.
pub open spec fn statement_unstable_reference(semantics: SemanticModel, s: Statement) -> Option<Span> {
    match s.kind {
        StatementKind::Local(local) => unstable_reference(semantics, local),
        _ => None,
    }
}

/// For a resolved function whose body statement `j` is reached and binds a
/// local reference to a literal: the literal's range.
pub open spec fn function_unstable_reference(semantics: SemanticModel, f: Function, j: int) -> Option<Span> {
    match reached_statement(semantics, f, j) {
        Some(s) => statement_unstable_reference(semantics, s),
        None => None,
    }
}

/// [`function_unstable_reference`] of a function declaration; `None` for
/// any other declaration.
pub open spec fn item_unstable_reference(semantics: SemanticModel, item: Item, j: int) -> Option<Span> {
    match item {
        Item::Function(f) => function_unstable_reference(semantics, f, j),
        _ => None,
    }
}

/// [`unborrowable_return`] of a function declaration; `None` for any other
/// declaration.
pub open spec fn item_unborrowable_return(semantics: SemanticModel, item: Item, j: int) -> Option<Span> {
    match item {
        Item::Function(f) => unborrowable_return(semantics, f, j),
        _ => None,
    }
}

/// One step of a block over `std::move(x); x;`: the first statement
/// leaves `x` moved in unchanged scopes, and the second reports the use.
proof fn lemma_use_after_move_step(
    semantics: SemanticModel,
    b: Analyzer,
    mid: Analyzer,
    walked: Analyzer,
    after: Analyzer,
    statements: Seq<Statement>,
    i: int,
    w: (usize, Span, Span),
)
    requires
        statements.len() >= 2,
        0 <= i,
        use_after_move(semantics, b, statements[0], statements[1]) == Some(w),
        i == 0 ==> mid == b,
        i == 1 ==> {
            &&& w.0 < mid.state.bindings@.len()
            &&& mid.state.bindings@[w.0 as int].availability == crate::ownership::Availability::Moved(w.1)
            &&& mid.state.scopes == b.state.scopes
        },
        i >= 2 ==> was_emitted(mid.emitted@, "OWN001", w.2),
        i < statements.len() ==> match statements[i].kind {
            StatementKind::Expression(e) => expression_effect(semantics, mid, walked, e, Usage::Read),
            _ => true,
        },
        grew(mid, walked),
        grew(walked, after),
        walked.state.bindings@.len() <= after.state.bindings@.len(),
        forall|k: int|
            0 <= k < walked.state.bindings@.len() ==> (#[trigger] after.state.bindings@[k]).availability
                == walked.state.bindings@[k].availability,
        after.state.scopes == walked.state.scopes,
        i < statements.len(),
    ensures
        i == 0 ==> {
            &&& w.0 < after.state.bindings@.len()
            &&& after.state.bindings@[w.0 as int].availability == crate::ownership::Availability::Moved(w.1)
            &&& after.state.scopes == b.state.scopes
        },
        i >= 1 ==> was_emitted(after.emitted@, "OWN001", w.2),
{
    if i == 0 {
        let m = statements[0].kind->Expression_0;
        assert(expression_effect(semantics, mid, walked, m, Usage::Read));
        assert(move_outcome(mid, walked, m));
        assert(walked.state.bindings@ == moved_bindings(mid.state.bindings@, w.0 as int, w.1));
    } else if i == 1 {
        let u = statements[1].kind->Expression_0;
        assert(mid.state.scope_views() == b.state.scope_views());
        assert(expression_effect(semantics, mid, walked, u, Usage::Read));
        let x = mid.state.bindings@[w.0 as int];
        lemma_reported_emits(
            mid,
            walked,
            "OWN001",
            "use of moved binding `"@ + x.name@ + "`; it was moved at byte "@ + crate::text::decimal(w.1.start as nat),
            w.2,
        );
        lemma_emitted_grows(walked, after, "OWN001", w.2);
    } else {
        lemma_emitted_grows(mid, walked, "OWN001", w.2);
        lemma_emitted_grows(walked, after, "OWN001", w.2);
    }
}

/// The use an argument gets from its parameter's type: none here for a
/// callback, a borrow for a reference, a read otherwise.
pub open spec fn argument_usage(expected: TypeRef) -> Option<Usage> {
    match expected {
        TypeRef::Callback(_) => None,
        TypeRef::Reference { mutable, .. } => Some(
            if mutable {
                Usage::BorrowMutable
            } else {
                Usage::BorrowShared
            },
        ),
        _ => Some(Usage::Read),
    }
}

/// The code a use of binding `b` as `usage` is reported with, if any: a
/// moved value, a possibly moved one, or a conflict with a live borrow.
pub open spec fn usage_report(b: crate::ownership::Binding, usage: Usage) -> Option<&'static str> {
    match b.availability {
        crate::ownership::Availability::Moved(_) => Some("OWN001"),
        crate::ownership::Availability::MaybeMoved(_) => Some("OWN002"),
        crate::ownership::Availability::Available => if crate::ownership::conflicts(b, usage) {
            Some("OWN003")
        } else {
            None
        },
    }
}

/// An argument that names something and is passed by value: checking it
/// reads a binding and changes no binding.
pub open spec fn plain_argument(e: Expression, expected: TypeRef) -> bool {
    e.kind is Name && argument_usage(expected) == Some(Usage::Read)
}

/// Every argument before index `i` is plain.
pub open spec fn plain_before(arguments: Seq<Expression>, expected: Seq<TypeRef>, i: int) -> bool {
    forall|k: int| 0 <= k < i ==> plain_argument(#[trigger] arguments[k], expected[k])
}

/// For argument `i`, when every argument before it is plain and it names a
/// binding whose use, as its parameter asks, is reported: the code and the
/// argument's range.
pub open spec fn argument_report(a: Analyzer, arguments: Seq<Expression>, expected: Seq<TypeRef>, i: int) -> Option<
    (&'static str, Span),
> {
    if 0 <= i < arguments.len() && i < expected.len() && plain_before(arguments, expected, i) {
        match arguments[i].kind {
            ExpressionKind::Name(path) => if path.segments@.len() > 0 {
                match crate::ownership::scopes_lookup(a.state.scope_views(), path.segments@[0]@) {
                    Some(id) => match argument_usage(expected[i]) {
                        Some(u) => match usage_report(a.state.bindings@[id as int], u) {
                            Some(code) => Some((code, arguments[i].span)),
                            None => None,
                        },
                        None => None,
                    },
                    None => None,
                }
            } else {
                None
            },
            _ => None,
        }
    } else {
        None
    }
}

/// The call `e` reports the check of each argument [`argument_report`]
/// names, as its parameter types `expected` ask.
pub open spec fn arguments_checked(a: Analyzer, b: Analyzer, e: Expression, expected: Seq<TypeRef>) -> bool {
    match e.kind {
        ExpressionKind::Call { arguments, .. } => forall|i: int|
            (#[trigger] argument_report(a, arguments@, expected, i) matches Some(w) ==> was_emitted(
                b.emitted@,
                w.0,
                w.1,
            )),
        _ => true,
    }
}

/// The types of parameters, in order.
pub open spec fn types_of(ps: Seq<ParameterSymbol>) -> Seq<TypeRef> {
    ps.map_values(|p: ParameterSymbol| p.ty)
}

/// What a call of `target` reports of its arguments, for the targets whose
/// arguments are checked first: a constructor, a Stainless function without
/// a receiver, and a native callable that is not a method.
pub open spec fn target_arguments_checked(
    a: Analyzer,
    b: Analyzer,
    semantics: SemanticModel,
    e: Expression,
    target: CallTarget,
) -> bool {
    match target {
        CallTarget::Constructor(id) => id < semantics.constructors@.len() ==> arguments_checked(
            a,
            b,
            e,
            types_of(semantics.constructors@[id as int].parameters@),
        ),
        CallTarget::Stainless(id) => (id < semantics.functions@.len() && semantics.functions@[id as int].receiver is None)
            ==> arguments_checked(a, b, e, types_of(semantics.functions@[id as int].parameters@)),
        CallTarget::Native(native) => native.style != CallStyle::Method ==> arguments_checked(
            a,
            b,
            e,
            native.parameter_types@,
        ),
        _ => true,
    }
}

/// What was reported stays reported as the analyzer grows.
proof fn lemma_target_checked_grows(
    a: Analyzer,
    b: Analyzer,
    c: Analyzer,
    semantics: SemanticModel,
    e: Expression,
    target: CallTarget,
)
    requires
        target_arguments_checked(a, b, semantics, e, target),
        grew(b, c),
    ensures
        target_arguments_checked(a, c, semantics, e, target),
{
    match target {
        CallTarget::Constructor(id) => if id < semantics.constructors@.len() {
            lemma_checked_grows(a, b, c, e, types_of(semantics.constructors@[id as int].parameters@));
        },
        CallTarget::Stainless(id) => if id < semantics.functions@.len() && semantics.functions@[id as int].receiver is None {
            lemma_checked_grows(a, b, c, e, types_of(semantics.functions@[id as int].parameters@));
        },
        CallTarget::Native(native) => if native.style != CallStyle::Method {
            lemma_checked_grows(a, b, c, e, native.parameter_types@);
        },
        _ => {},
    }
}

/// What a call reported of its arguments stays reported as the analyzer
/// grows.
proof fn lemma_checked_grows(a: Analyzer, b: Analyzer, c: Analyzer, e: Expression, expected: Seq<TypeRef>)
    requires
        arguments_checked(a, b, e, expected),
        grew(b, c),
    ensures
        arguments_checked(a, c, e, expected),
{
    match e.kind {
        ExpressionKind::Call { arguments, .. } => {
            assert forall|i: int| (#[trigger] argument_report(a, arguments@, expected, i) matches Some(w)
                ==> was_emitted(c.emitted@, w.0, w.1)) by {
                if let Some(w) = argument_report(a, arguments@, expected, i) {
                    lemma_emitted_grows(b, c, w.0, w.1);
                }
            }
        },
        _ => {},
    }
}

/// The report of an argument depends on the parameter types up to
/// structural equality.
proof fn lemma_argument_types(a: Analyzer, arguments: Seq<Expression>, e1: Seq<TypeRef>, e2: Seq<TypeRef>)
    requires
        e1.len() == e2.len(),
        forall|i: int| 0 <= i < e1.len() ==> crate::interop::model::type_eq(#[trigger] e1[i], e2[i]),
    ensures
        forall|i: int|
            #![trigger argument_report(a, arguments, e1, i)]
            #![trigger argument_report(a, arguments, e2, i)]
            argument_report(a, arguments, e1, i) == argument_report(a, arguments, e2, i),
{
    assert forall|k: int| 0 <= k < e1.len() implies argument_usage(#[trigger] e1[k]) == argument_usage(e2[k]) by {
        lemma_argument_usage_type_eq(e1[k], e2[k]);
    }
    assert forall|i: int| #[trigger] argument_report(a, arguments, e1, i) == argument_report(a, arguments, e2, i) by {
        if 0 <= i < e1.len() {
            assert(plain_before(arguments, e1, i) == plain_before(arguments, e2, i)) by {
                if plain_before(arguments, e1, i) {
                    assert forall|k: int| 0 <= k < i implies plain_argument(#[trigger] arguments[k], e2[k]) by {
                        assert(plain_argument(arguments[k], e1[k]));
                    }
                }
                if plain_before(arguments, e2, i) {
                    assert forall|k: int| 0 <= k < i implies plain_argument(#[trigger] arguments[k], e1[k]) by {
                        assert(plain_argument(arguments[k], e2[k]));
                    }
                }
            }
        }
    }
}

/// A reported use is emitted.
proof fn lemma_usage_report_emits(a: Analyzer, b: Analyzer, x: crate::ownership::Binding, usage: Usage, span: Span)
    requires
        crate::ownership::usage_checked(a, b, x, usage, span),
        usage_report(x, usage) is Some,
    ensures
        was_emitted(b.emitted@, usage_report(x, usage)->0, span),
{
    match x.availability {
        crate::ownership::Availability::Moved(moved) => {
            lemma_reported_emits(
                a,
                b,
                "OWN001",
                "use of moved binding `"@ + x.name@ + "`; it was moved at byte "@ + crate::text::decimal(
                    moved.start as nat,
                ),
                span,
            );
        },
        crate::ownership::Availability::MaybeMoved(moved) => {
            lemma_reported_emits(
                a,
                b,
                "OWN002",
                "binding `"@ + x.name@ + "` may have been moved on another control-flow path at byte "@
                    + crate::text::decimal(moved.start as nat),
                span,
            );
        },
        crate::ownership::Availability::Available => {
            lemma_reported_emits(
                a,
                b,
                "OWN003",
                "cannot "@ + crate::ownership::usage_verb(usage) + " `"@ + x.name@
                    + "` while it has an active conflicting borrow"@,
                span,
            );
        },
    }
}

/// Checking argument `i` as its parameter asks emits what
/// [`argument_report`] names.
proof fn lemma_argument_emits(
    semantics: SemanticModel,
    a: Analyzer,
    b: Analyzer,
    arguments: Seq<Expression>,
    expected: Seq<TypeRef>,
    i: int,
)
    requires
        0 <= i < arguments.len(),
        i < expected.len(),
        argument_usage(expected[i]) matches Some(u) && expression_effect(semantics, a, b, arguments[i], u),
    ensures
        argument_report(a, arguments, expected, i) matches Some(w) ==> was_emitted(b.emitted@, w.0, w.1),
{
    if let Some(w) = argument_report(a, arguments, expected, i) {
        let path = arguments[i].kind->Name_0;
        let id = crate::ownership::scopes_lookup(a.state.scope_views(), path.segments@[0]@)->0;
        let u = argument_usage(expected[i])->0;
        lemma_usage_report_emits(a, b, a.state.bindings@[id as int], u, arguments[i].span);
    }
}

/// Structurally equal parameter types give an argument the same use.
proof fn lemma_argument_usage_type_eq(x: TypeRef, y: TypeRef)
    requires
        crate::interop::model::type_eq(x, y),
    ensures
        argument_usage(x) == argument_usage(y),
{
}

/// A diagnostic once emitted stays emitted as the analyzer grows.
proof fn lemma_emitted_grows(a: Analyzer, b: Analyzer, code: &'static str, span: Span)
    requires
        grew(a, b),
        was_emitted(a.emitted@, code, span),
    ensures
        was_emitted(b.emitted@, code, span),
{
    let i = choose|i: int| 0 <= i < a.emitted@.len() && (#[trigger] a.emitted@[i]).0@ == code@ && a.emitted@[i].1 == span;
    assert(b.emitted@[i] == a.emitted@[i]);
}

/// A reported diagnostic is emitted.
proof fn lemma_reported_emits(a: Analyzer, b: Analyzer, code: &'static str, message: Seq<char>, span: Span)
    requires
        reported(a, b, code, message, span),
    ensures
        was_emitted(b.emitted@, code, span),
{
    if !was_emitted(a.emitted@, code, span) {
        assert(b.emitted@[a.emitted@.len() as int] == (code, span));
    }
}

pub open spec fn min_len(a: nat, b: nat) -> nat {
    if a < b {
        a
    } else {
        b
    }
}

/// Resolution recorded a function symbol for the declaration `f`.
pub open spec fn function_resolved(semantics: SemanticModel, f: Function) -> bool {
    entry_for(semantics.function_declarations@, f.span) matches Some(id) && id < semantics.functions@.len()
}

/// The number of parameters declared when `f` is checked: those of its
/// syntax that its resolved symbol also has.
pub open spec fn function_parameter_count(semantics: SemanticModel, f: Function) -> nat {
    match entry_for(semantics.function_declarations@, f.span) {
        Some(id) => min_len(f.parameters@.len(), semantics.functions@[id as int].parameters@.len()),
        None => 0,
    }
}

/// Resolution recorded a constructor symbol for the declaration `c`.
pub open spec fn constructor_resolved(semantics: SemanticModel, c: Constructor) -> bool {
    entry_for(semantics.constructor_declarations@, c.span) matches Some(id) && id < semantics.constructors@.len()
}

/// The number of parameters declared when `c` is checked.
pub open spec fn constructor_parameter_count(semantics: SemanticModel, c: Constructor) -> nat {
    match entry_for(semantics.constructor_declarations@, c.span) {
        Some(id) => min_len(c.parameters@.len(), semantics.constructors@[id as int].parameters@.len()),
        None => 0,
    }
}

/// Whether one of `cs` has a body and a resolved symbol.
pub open spec fn constructors_check(semantics: SemanticModel, cs: Seq<Constructor>) -> bool {
    exists|i: int| 0 <= i < cs.len() && (#[trigger] cs[i]).body is Some && constructor_resolved(semantics, cs[i])
}

/// Whether one of `fs` has a body and a resolved symbol.
pub open spec fn functions_check(semantics: SemanticModel, fs: Seq<Function>) -> bool {
    exists|i: int| 0 <= i < fs.len() && (#[trigger] fs[i]).body is Some && function_resolved(semantics, fs[i])
}

/// A function whose body, if it has one, holds no statement.
pub open spec fn function_quiet(f: Function) -> bool {
    f.body matches Some(body) ==> body.statements@.len() == 0
}

/// A constructor without member initializers whose body, if it has one,
/// holds no statement.
pub open spec fn constructor_quiet(c: Constructor) -> bool {
    &&& c.initializers@.len() == 0
    &&& c.body matches Some(body) ==> body.statements@.len() == 0
}

/// Every function of `fs` is quiet.
pub open spec fn functions_quiet(fs: Seq<Function>) -> bool
    decreases fs.len(),
{
    fs.len() == 0 || (functions_quiet(fs.drop_last()) && function_quiet(fs.last()))
}

/// Every constructor of `cs` is quiet.
pub open spec fn constructors_quiet(cs: Seq<Constructor>) -> bool
    decreases cs.len(),
{
    cs.len() == 0 || (constructors_quiet(cs.drop_last()) && constructor_quiet(cs.last()))
}

/// Every function and constructor a declaration holds is quiet.
pub open spec fn item_quiet(item: Item) -> bool
    decreases item, 0nat,
{
    match item {
        Item::Namespace(namespace) => items_quiet(namespace.items@),
        Item::Struct(structure) => constructors_quiet(structure.constructors@) && functions_quiet(structure.functions@),
        Item::Constructor(constructor) => constructor_quiet(constructor),
        Item::Function(function) => function_quiet(function),
        Item::Use(_) => true,
    }
}

/// Every function and constructor the declarations hold is quiet.
pub open spec fn items_quiet(items: Seq<Item>) -> bool
    decreases items, 1nat,
{
    items.len() == 0 || (items_quiet(items.drop_last()) && item_quiet(items.last()))
}

/// Whether a declaration holds a function or constructor that ownership
/// validation checks: one with a body and a resolved symbol.
pub open spec fn item_checks(semantics: SemanticModel, item: Item) -> bool
    decreases item, 0nat,
{
    match item {
        Item::Namespace(namespace) => items_check(semantics, namespace.items@),
        Item::Struct(structure) => constructors_check(semantics, structure.constructors@) || functions_check(
            semantics,
            structure.functions@,
        ),
        Item::Constructor(constructor) => constructor.body is Some && constructor_resolved(semantics, constructor),
        Item::Function(function) => function.body is Some && function_resolved(semantics, function),
        Item::Use(_) => false,
    }
}

/// Whether one of the declarations holds a checked function or constructor.
pub open spec fn items_check(semantics: SemanticModel, items: Seq<Item>) -> bool
    decreases items, 1nat,
{
    if items.len() == 0 {
        false
    } else {
        items_check(semantics, items.drop_last()) || item_checks(semantics, items.last())
    }
}

/// `after` is what checking a function or constructor leaves: no scope and
/// no `try` open, no reference return expected, and the same loop nesting.
pub open spec fn checked_state(before: Analyzer, after: Analyzer) -> bool {
    &&& after.state.well_formed()
    &&& after.state.scope_ids().len() == 0
    &&& after.exceptions@.len() == 0
    &&& after.return_borrow is None
    &&& !after.returns_reference
    &&& after.loop_depth == before.loop_depth
    &&& after.loops@.len() == before.loops@.len()
}

proof fn lemma_constructors_check_step(semantics: SemanticModel, cs: Seq<Constructor>, i: int)
    requires
        0 <= i < cs.len(),
    ensures
        constructors_check(semantics, cs.take(i + 1)) == (constructors_check(semantics, cs.take(i)) || (
        cs[i].body is Some && constructor_resolved(semantics, cs[i]))),
{
    if constructors_check(semantics, cs.take(i + 1)) {
        let j = choose|j: int|
            0 <= j < cs.take(i + 1).len() && (#[trigger] cs.take(i + 1)[j]).body is Some && constructor_resolved(
                semantics,
                cs.take(i + 1)[j],
            );
        if j < i {
            assert(cs.take(i)[j] == cs.take(i + 1)[j]);
        }
    }
    if constructors_check(semantics, cs.take(i)) {
        let j = choose|j: int|
            0 <= j < cs.take(i).len() && (#[trigger] cs.take(i)[j]).body is Some && constructor_resolved(
                semantics,
                cs.take(i)[j],
            );
        assert(cs.take(i + 1)[j] == cs.take(i)[j]);
    }
    if cs[i].body is Some && constructor_resolved(semantics, cs[i]) {
        assert(cs.take(i + 1)[i] == cs[i]);
    }
}

proof fn lemma_functions_check_step(semantics: SemanticModel, fs: Seq<Function>, i: int)
    requires
        0 <= i < fs.len(),
    ensures
        functions_check(semantics, fs.take(i + 1)) == (functions_check(semantics, fs.take(i)) || (fs[i].body is Some
            && function_resolved(semantics, fs[i]))),
{
    if functions_check(semantics, fs.take(i + 1)) {
        let j = choose|j: int|
            0 <= j < fs.take(i + 1).len() && (#[trigger] fs.take(i + 1)[j]).body is Some && function_resolved(
                semantics,
                fs.take(i + 1)[j],
            );
        if j < i {
            assert(fs.take(i)[j] == fs.take(i + 1)[j]);
        }
    }
    if functions_check(semantics, fs.take(i)) {
        let j = choose|j: int|
            0 <= j < fs.take(i).len() && (#[trigger] fs.take(i)[j]).body is Some && function_resolved(
                semantics,
                fs.take(i)[j],
            );
        assert(fs.take(i + 1)[j] == fs.take(i)[j]);
    }
    if fs[i].body is Some && function_resolved(semantics, fs[i]) {
        assert(fs.take(i + 1)[i] == fs[i]);
    }
}

/// Diagnostics only growing is transitive.
proof fn lemma_grew_trans(a: Analyzer, b: Analyzer, c: Analyzer)
    requires
        grew(a, b),
        grew(b, c),
    ensures
        grew(a, c),
{
    assert(a.diagnostics@ =~= c.diagnostics@.subrange(0, a.diagnostics@.len() as int)) by {
        assert(a.diagnostics@ =~= b.diagnostics@.subrange(0, a.diagnostics@.len() as int));
        assert(b.diagnostics@ =~= c.diagnostics@.subrange(0, b.diagnostics@.len() as int));
    }
    assert(a.emitted@ =~= c.emitted@.subrange(0, a.emitted@.len() as int)) by {
        assert(a.emitted@ =~= b.emitted@.subrange(0, a.emitted@.len() as int));
        assert(b.emitted@ =~= c.emitted@.subrange(0, b.emitted@.len() as int));
    }
    assert forall|i: int| a.diagnostics@.len() <= i < c.diagnostics@.len() implies (
    #[trigger] c.diagnostics@[i]).phase == crate::DiagnosticPhase::Ownership
        && crate::ownership::ownership_code(c.diagnostics@[i].code) by {
        if i < b.diagnostics@.len() {
            assert(c.diagnostics@.subrange(0, b.diagnostics@.len() as int)[i] == c.diagnostics@[i]);
        }
    }
}

proof fn lemma_grew_refl(a: Analyzer)
    ensures
        grew(a, a),
{
    assert(a.diagnostics@ =~= a.diagnostics@.subrange(0, a.diagnostics@.len() as int));
    assert(a.emitted@ =~= a.emitted@.subrange(0, a.emitted@.len() as int));
}

proof fn lemma_grew_same(a: Analyzer, b: Analyzer)
    requires
        a.diagnostics == b.diagnostics,
        a.emitted == b.emitted,
    ensures
        grew(a, b),
{
    lemma_grew_refl(a);
}

impl Analyzer {
    /// Declares the parameters of a function or constructor in the current
    /// scope; returns their ids.
    fn declare_parameters(
        &mut self,
        last_uses: &Vec<(Span, Span)>,
        syntax: &Vec<crate::ast::Parameter>,
        resolved: &Vec<ParameterSymbol>,
    ) -> (ids: Vec<usize>)
        requires
            old(self).state.well_formed(),
            old(self).state.scope_ids().len() > 0,
        ensures
            final(self).state.well_formed(),
            ids@.len() == min_len(syntax@.len(), resolved@.len()),
            forall|k: int| 0 <= k < ids@.len() ==> #[trigger] ids@[k] == old(self).state.bindings@.len() + k,
            final(self).state.bindings@.len() == old(self).state.bindings@.len() + ids@.len(),
            final(self).state.bindings@.take(old(self).state.bindings@.len() as int) == old(self).state.bindings@,
            forall|k: int|
                0 <= k < ids@.len() ==> {
                    let b = #[trigger] final(self).state.bindings@[old(self).state.bindings@.len() + k];
                    &&& b.name@ == syntax@[k].name@
                    &&& crate::interop::model::type_eq(b.ty, resolved@[k].ty)
                    &&& b.availability is Available
                    &&& b.reference_loan is None
                    &&& b.declaration_span == syntax@[k].span
                    &&& !b.mutably_borrowed
                    &&& b.shared_borrows == 0
                },
            final(self).state.scope_views() == old(self).state.scope_views().update(
                old(self).state.scope_views().len() - 1,
                old(self).state.scope_views().last() + parameter_scope(syntax@, old(self).state.bindings@.len(), ids@.len()),
            ),
            final(self).state.scope_ids() == old(self).state.scope_ids().update(
                old(self).state.scope_ids().len() - 1,
                old(self).state.scope_ids().last() + ids@,
            ),
            *final(self) == (Analyzer { state: final(self).state, ..*old(self) }),
    {
        let ghost n = self.state.bindings@.len();
        let ghost start = self.state.bindings@;
        let ghost ids0 = self.state.scope_ids();
        let ghost views0 = self.state.scope_views();
        proof {
            assert(views0.last() + parameter_scope(syntax@, n, 0) =~= views0.last());
            assert(views0 =~= views0.update(views0.len() - 1, views0.last()));
        }
        let mut ids: Vec<usize> = Vec::new();
        let mut i: usize = 0;
        assert(ids0 =~= ids0.update(ids0.len() - 1, ids0.last() + ids@));
        while i < syntax.len() && i < resolved.len()
            invariant
                self.state.well_formed(),
                n == old(self).state.bindings@.len(),
                start == old(self).state.bindings@,
                ids0 == old(self).state.scope_ids(),
                ids0.len() > 0,
                i <= syntax@.len(),
                i <= resolved@.len(),
                ids@.len() == i,
                forall|k: int| 0 <= k < i ==> #[trigger] ids@[k] == n + k,
                self.state.bindings@.len() == n + i,
                self.state.bindings@.take(n as int) == start,
                forall|k: int|
                    0 <= k < i ==> {
                        let b = #[trigger] self.state.bindings@[n + k];
                        &&& b.name@ == syntax@[k].name@
                        &&& crate::interop::model::type_eq(b.ty, resolved@[k].ty)
                        &&& b.availability is Available
                        &&& b.reference_loan is None
                        &&& b.declaration_span == syntax@[k].span
                        &&& !b.mutably_borrowed
                        &&& b.shared_borrows == 0
                    },
                self.state.scope_ids() == ids0.update(ids0.len() - 1, ids0.last() + ids@),
                views0 == old(self).state.scope_views(),
                views0.len() == ids0.len(),
                self.state.scope_views() == views0.update(views0.len() - 1, views0.last() + parameter_scope(syntax@, n, i as nat)),
                *self == (Analyzer { state: self.state, ..*old(self) }),
            decreases syntax@.len() - i,
        {
            let ghost before = self.state.bindings@;
            let ghost before_ids = ids@;
            let ghost before_views = self.state.scope_views();
            assert(self.state.scope_ids().len() == ids0.len());
            assert(self.state.scopes@.len() == self.state.scope_bindings@.len());
            let parameter = &syntax[i];
            let last_use = last_use_at(last_uses, parameter.span);
            let loop_depth = self.loop_depth;
            let id = self.state.declare(
                parameter.name.clone(),
                resolved[i].ty.copy(),
                None,
                parameter.span,
                last_use,
                loop_depth,
            );
            ids.push(id);
            proof {
                assert(self.state.bindings@.drop_last() == before);
                assert forall|k: int| 0 <= k < n implies self.state.bindings@.take(n as int)[k] == start[k] by {
                    assert(self.state.bindings@[k] == before[k]);
                    assert(before.take(n as int)[k] == before[k]);
                }
                assert(self.state.bindings@.take(n as int) =~= start);
                assert forall|k: int| 0 <= k < i + 1 implies {
                    let b = #[trigger] self.state.bindings@[n + k];
                    &&& b.name@ == syntax@[k].name@
                    &&& crate::interop::model::type_eq(b.ty, resolved@[k].ty)
                    &&& b.availability is Available
                    &&& b.reference_loan is None
                    &&& b.declaration_span == syntax@[k].span
                    &&& !b.mutably_borrowed
                    &&& b.shared_borrows == 0
                } by {
                    if k < i {
                        assert(self.state.bindings@[n + k] == before[n + k]);
                    }
                }
                assert((views0.last() + parameter_scope(syntax@, n, i as nat)).push((syntax@[i as int].name@, id))
                    =~= views0.last() + parameter_scope(syntax@, n, (i + 1) as nat));
                assert(before_views.last() == views0.last() + parameter_scope(syntax@, n, i as nat));
                assert(self.state.scope_views() =~= views0.update(
                    views0.len() - 1,
                    views0.last() + parameter_scope(syntax@, n, (i + 1) as nat),
                ));
                assert(ids0.last() + ids@ =~= (ids0.last() + before_ids).push(id));
                assert(self.state.scope_ids() =~= ids0.update(ids0.len() - 1, ids0.last() + ids@));
            }
            i = i + 1;
        }
        ids
    }

    /// Checks a function body, starting from a state that holds just its
    /// parameters.
    fn function(&mut self, semantics: &SemanticModel, last_uses: &Vec<(Span, Span)>, function: &Function)
        requires
            contexts_hold(*old(self)),
            old(self).return_borrow is None,
        ensures
            contexts_hold(*final(self)),
            grew(*old(self), *final(self)),
            final(self).return_borrow is None,
            !function_resolved(*semantics, *function) ==> *final(self) == *old(self),
            function_resolved(*semantics, *function) ==> checked_state(*old(self), *final(self))
                && final(self).state.bindings@.len() >= function_parameter_count(*semantics, *function),
            forall|j: int|
                (#[trigger] unborrowable_return(*semantics, *function, j) matches Some(at) ==> was_emitted(
                    final(self).emitted@,
                    "OWN005",
                    at,
                )),
            parameter_use_after_move(*semantics, *function) matches Some(at) ==> was_emitted(
                final(self).emitted@,
                "OWN001",
                at,
            ),
            forall|j: int|
                (#[trigger] function_unstable_reference(*semantics, *function, j) matches Some(at) ==> was_emitted(
                    final(self).emitted@,
                    "OWN004",
                    at,
                )),
            function_quiet(*function) ==> crate::ownership::silent(*old(self), *final(self)),
    {
        let symbol = match semantics.function_at(function.span) {
            Some(symbol) => symbol,
            None => {
                proof {
                    lemma_grew_refl(*self);
                }
                return;
            },
        };
        self.state = FlowState::default();
        self.state.push_scope();
        let ghost declared_from = *self;
        let parameter_ids = self.declare_parameters(last_uses, &function.parameters, &symbol.parameters);
        self.return_borrow = match return_borrow_parameter(symbol) {
            Some(index) => if index < parameter_ids.len() {
                Some(parameter_ids[index])
            } else {
                None
            },
            None => None,
        };
        self.returns_reference = symbol.return_type.is_reference();
        self.exceptions.clear();
        let ghost b = *self;
        if let Some(body) = &function.body {
            self.block(semantics, last_uses, body, false);
        } else {
            proof {
                lemma_walked_refl(b);
            }
        }
        let ghost c = *self;
        self.state.pop_scope();
        self.return_borrow = None;
        self.returns_reference = false;
        proof {
            lemma_grew_same(*old(self), b);
            lemma_grew_same(c, *self);
            lemma_grew_trans(*old(self), b, c);
            lemma_grew_trans(*old(self), c, *self);
            assert forall|j: int| (#[trigger] unborrowable_return(*semantics, *function, j) matches Some(at) ==> was_emitted(
                self.emitted@,
                "OWN005",
                at,
            )) by {
                if let Some(at) = unborrowable_return(*semantics, *function, j) {
                    let body = function.body.unwrap();
                    assert(unborrowable_return_statement(b, body.statements@[j]) == Some(at));
                    lemma_emitted_grows(c, *self, "OWN005", at);
                }
            }
            assert forall|j: int| (#[trigger] function_unstable_reference(*semantics, *function, j) matches Some(at) ==> was_emitted(
                self.emitted@,
                "OWN004",
                at,
            )) by {
                if let Some(at) = function_unstable_reference(*semantics, *function, j) {
                    let body = function.body.unwrap();
                    assert(statement_unstable_reference(*semantics, body.statements@[j]) == Some(at));
                    lemma_emitted_grows(c, *self, "OWN004", at);
                }
            }
            if let Some(at) = parameter_use_after_move(*semantics, *function) {
                let body = function.body.unwrap();
                let count = min_len(function.parameters@.len(), symbol.parameters@.len());
                let m = body.statements@[0].kind->Expression_0;
                let arguments = m.kind->Call_arguments;
                let q = arguments@[0].kind->Name_0;
                let name = q.segments@[0]@;
                let k = last_named(function.parameters@, count as int, name)->0;
                assert(declared_from.state.scope_views() =~= seq![Seq::<(Seq<char>, usize)>::empty()]);
                assert(b.state.scope_views() =~= seq![parameter_scope(function.parameters@, 0, count)]);
                lemma_parameter_lookup(function.parameters@, count, name);
                assert(0 <= k < count);
                assert(b.state.bindings@.len() == count);
                assert(b.state.scope_views().drop_last() =~= Seq::<Seq<(Seq<char>, usize)>>::empty());
                assert(crate::ownership::scopes_lookup(b.state.scope_views(), name) == Some(k as usize));
                let x = b.state.bindings@[k];
                assert(x == b.state.bindings@[0 + k]);
                lemma_copyable_type_eq(x.ty, symbol.parameters@[k].ty);
                assert(crate::ownership::named_binding_of(arguments@[0], b.state.scope_views()) == Some(k as usize));
                let u = body.statements@[1].kind->Expression_0;
                let path = u.kind->Name_0;
                assert(path.segments@[0]@ == name);
                assert(crate::ownership::scopes_lookup(b.state.scope_views(), path.segments@[0]@) == Some(k as usize));
                assert(function.parameters@.len() == function.parameters.len());
                assert((k as usize) as int == k);
                assert(use_after_move(*semantics, b, body.statements@[0], body.statements@[1]) == Some(
                    (k as usize, m.span, at),
                ));
                lemma_emitted_grows(c, *self, "OWN001", at);
            }
        }
    }

    /// Checks a constructor: the arguments of its member initializers, then
    /// its body, from a state that holds just its parameters.
    fn constructor(&mut self, semantics: &SemanticModel, last_uses: &Vec<(Span, Span)>, constructor: &Constructor)
        requires
            contexts_hold(*old(self)),
            old(self).return_borrow is None,
        ensures
            contexts_hold(*final(self)),
            grew(*old(self), *final(self)),
            final(self).return_borrow is None,
            !constructor_resolved(*semantics, *constructor) ==> *final(self) == *old(self),
            constructor_resolved(*semantics, *constructor) ==> checked_state(*old(self), *final(self))
                && final(self).state.bindings@.len() >= constructor_parameter_count(*semantics, *constructor),
            constructor_quiet(*constructor) ==> crate::ownership::silent(*old(self), *final(self)),
    {
        let symbol = match semantics.constructor_at(constructor.span) {
            Some(symbol) => symbol,
            None => {
                proof {
                    lemma_grew_refl(*self);
                }
                return;
            },
        };
        self.state = FlowState::default();
        self.state.push_scope();
        self.declare_parameters(last_uses, &constructor.parameters, &symbol.parameters);
        let ghost b = *self;
        proof {
            lemma_walked_refl(b);
        }
        let mut i: usize = 0;
        while i < constructor.initializers.len()
            invariant
                i <= constructor.initializers@.len(),
                walked(b, *self),
                constructor.initializers@.len() == 0 ==> *self == b,
            decreases constructor.initializers@.len() - i,
        {
            let ghost mid = *self;
            self.read_all(semantics, &constructor.initializers[i].arguments);
            proof {
                lemma_walked_trans(b, mid, *self);
            }
            i = i + 1;
        }
        let ghost initialized = *self;
        self.return_borrow = None;
        self.returns_reference = false;
        self.exceptions.clear();
        let ghost c = *self;
        proof {
            lemma_walked_refl(c);
        }
        if let Some(body) = &constructor.body {
            self.block(semantics, last_uses, body, false);
        }
        let ghost d = *self;
        self.state.pop_scope();
        proof {
            lemma_grew_same(*old(self), b);
            lemma_grew_same(initialized, c);
            lemma_grew_same(d, *self);
            lemma_grew_trans(*old(self), b, initialized);
            lemma_grew_trans(*old(self), initialized, c);
            lemma_grew_trans(*old(self), c, d);
            lemma_grew_trans(*old(self), d, *self);
            if constructor_quiet(*constructor) {
                assert(initialized == b);
                assert(crate::ownership::silent(c, d));
            }
        }
    }

    /// Checks every function and constructor with a body, namespaces and
    /// structures included.
    fn items(&mut self, semantics: &SemanticModel, last_uses: &Vec<(Span, Span)>, items: &Vec<Item>)
        requires
            contexts_hold(*old(self)),
            old(self).return_borrow is None,
        ensures
            contexts_hold(*final(self)),
            grew(*old(self), *final(self)),
            final(self).return_borrow is None,
            !items_check(*semantics, items@) ==> *final(self) == *old(self),
            items_check(*semantics, items@) ==> checked_state(*old(self), *final(self)),
            forall|k: int, j: int|
                0 <= k < items@.len() ==> (#[trigger] item_unborrowable_return(*semantics, items@[k], j) matches Some(at)
                    ==> was_emitted(final(self).emitted@, "OWN005", at)),
            forall|k: int|
                0 <= k < items@.len() ==> (#[trigger] item_use_after_move(*semantics, items@[k]) matches Some(at)
                    ==> was_emitted(final(self).emitted@, "OWN001", at)),
            forall|k: int, j: int|
                0 <= k < items@.len() ==> (#[trigger] item_unstable_reference(*semantics, items@[k], j) matches Some(at)
                    ==> was_emitted(final(self).emitted@, "OWN004", at)),
            items_quiet(items@) ==> crate::ownership::silent(*old(self), *final(self)),
        decreases items,
    {
        let mut i: usize = 0;
        proof {
            lemma_grew_refl(*self);
            assert(items@.take(0).len() == 0);
        }
        while i < items.len()
            invariant
                i <= items@.len(),
                contexts_hold(*self),
                grew(*old(self), *self),
                self.return_borrow is None,
                !items_check(*semantics, items@.take(i as int)) ==> *self == *old(self),
                items_check(*semantics, items@.take(i as int)) ==> checked_state(*old(self), *self),
                items_quiet(items@.take(i as int)) ==> crate::ownership::silent(*old(self), *self),
                forall|k: int, j: int|
                    0 <= k < i ==> (#[trigger] item_unborrowable_return(*semantics, items@[k], j) matches Some(at)
                        ==> was_emitted(self.emitted@, "OWN005", at)),
                forall|k: int|
                    0 <= k < i ==> (#[trigger] item_use_after_move(*semantics, items@[k]) matches Some(at) ==> was_emitted(
                        self.emitted@,
                        "OWN001",
                        at,
                    )),
                forall|k: int, j: int|
                    0 <= k < i ==> (#[trigger] item_unstable_reference(*semantics, items@[k], j) matches Some(at)
                        ==> was_emitted(self.emitted@, "OWN004", at)),
            decreases items@.len() - i,
        {
            proof {
                assert(items@.take(i + 1).drop_last() =~= items@.take(i as int));
                assert(items@.take(i + 1).last() == items@[i as int]);
                assert(items_check(*semantics, items@.take(i + 1)) == (items_check(*semantics, items@.take(i as int))
                    || item_checks(*semantics, items@[i as int])));
                assert(items_quiet(items@.take(i + 1)) == (items_quiet(items@.take(i as int)) && item_quiet(
                    items@[i as int],
                )));
            }
            proof {
                broadcast use vstd::std_specs::vec::axiom_vec_index_decreases;
                assert(decreases_to!(items => items@[i as int]));
            }
            let ghost mid = *self;
            match &items[i] {
                Item::Namespace(namespace) => {
                    assert(item_checks(*semantics, items@[i as int]) == items_check(*semantics, namespace.items@));
                    self.items(semantics, last_uses, &namespace.items);
                },
                Item::Struct(structure) => {
                    assert(item_checks(*semantics, items@[i as int]) == (constructors_check(
                        *semantics,
                        structure.constructors@,
                    ) || functions_check(*semantics, structure.functions@)));
                    self.structure_members(semantics, last_uses, &structure.constructors, &structure.functions);
                },
                Item::Constructor(constructor) => {
                    assert(item_checks(*semantics, items@[i as int]) == (constructor.body is Some
                        && constructor_resolved(*semantics, *constructor)));
                    if constructor.body.is_some() {
                        self.constructor(semantics, last_uses, constructor);
                    } else {
                        proof {
                            lemma_grew_refl(mid);
                        }
                    }
                },
                Item::Function(function) => {
                    assert(item_checks(*semantics, items@[i as int]) == (function.body is Some && function_resolved(
                        *semantics,
                        *function,
                    )));
                    if function.body.is_some() {
                        self.function(semantics, last_uses, function);
                    } else {
                        proof {
                            lemma_grew_refl(mid);
                        }
                    }
                },
                Item::Use(_) => {
                    assert(!item_checks(*semantics, items@[i as int]));
                    proof {
                        lemma_grew_refl(mid);
                    }
                },
            }
            proof {
                lemma_grew_trans(*old(self), mid, *self);
                assert forall|k: int, j: int|
                    0 <= k < i + 1 implies (#[trigger] item_unborrowable_return(*semantics, items@[k], j) matches Some(at)
                        ==> was_emitted(self.emitted@, "OWN005", at)) by {
                    if k < i {
                        if let Some(at) = item_unborrowable_return(*semantics, items@[k], j) {
                            lemma_emitted_grows(mid, *self, "OWN005", at);
                        }
                    }
                }
                assert forall|k: int|
                    0 <= k < i + 1 implies (#[trigger] item_use_after_move(*semantics, items@[k]) matches Some(at)
                        ==> was_emitted(self.emitted@, "OWN001", at)) by {
                    if k < i {
                        if let Some(at) = item_use_after_move(*semantics, items@[k]) {
                            lemma_emitted_grows(mid, *self, "OWN001", at);
                        }
                    }
                }
                assert forall|k: int, j: int|
                    0 <= k < i + 1 implies (#[trigger] item_unstable_reference(*semantics, items@[k], j) matches Some(at)
                        ==> was_emitted(self.emitted@, "OWN004", at)) by {
                    if k < i {
                        if let Some(at) = item_unstable_reference(*semantics, items@[k], j) {
                            lemma_emitted_grows(mid, *self, "OWN004", at);
                        }
                    }
                }
            }
            i = i + 1;
        }
        proof {
            assert(items@.take(i as int) =~= items@);
        }
    }

    /// Checks the constructors, then the functions, of a structure that
    /// have a body.
    fn structure_members(
        &mut self,
        semantics: &SemanticModel,
        last_uses: &Vec<(Span, Span)>,
        constructors: &Vec<Constructor>,
        functions: &Vec<Function>,
    )
        requires
            contexts_hold(*old(self)),
            old(self).return_borrow is None,
        ensures
            contexts_hold(*final(self)),
            grew(*old(self), *final(self)),
            final(self).return_borrow is None,
            !(constructors_check(*semantics, constructors@) || functions_check(*semantics, functions@))
                ==> *final(self) == *old(self),
            constructors_check(*semantics, constructors@) || functions_check(*semantics, functions@)
                ==> checked_state(*old(self), *final(self)),
            (constructors_quiet(constructors@) && functions_quiet(functions@)) ==> crate::ownership::silent(*old(self), *final(self)),
    {
        proof {
            lemma_grew_refl(*self);
            assert(constructors@.take(0).len() == 0);
            assert(functions@.take(0).len() == 0);
        }
        let mut i: usize = 0;
        while i < constructors.len()
            invariant
                i <= constructors@.len(),
                contexts_hold(*self),
                grew(*old(self), *self),
                self.return_borrow is None,
                !constructors_check(*semantics, constructors@.take(i as int)) ==> *self == *old(self),
                constructors_check(*semantics, constructors@.take(i as int)) ==> checked_state(*old(self), *self),
                constructors_quiet(constructors@.take(i as int)) ==> crate::ownership::silent(*old(self), *self),
            decreases constructors@.len() - i,
        {
            proof {
                lemma_constructors_check_step(*semantics, constructors@, i as int);
                assert(constructors@.take(i + 1).drop_last() =~= constructors@.take(i as int));
            }
            let ghost mid = *self;
            if constructors[i].body.is_some() {
                self.constructor(semantics, last_uses, &constructors[i]);
                proof {
                    lemma_grew_trans(*old(self), mid, *self);
                }
            }
            i = i + 1;
        }
        proof {
            assert(constructors@.take(i as int) =~= constructors@);
        }
        let ghost after_constructors = *self;
        proof {
            assert(functions@.take(0) =~= Seq::<Function>::empty());
        }
        let mut k: usize = 0;
        while k < functions.len()
            invariant
                k <= functions@.len(),
                contexts_hold(*self),
                grew(*old(self), *self),
                self.return_borrow is None,
                !constructors_check(*semantics, constructors@) ==> after_constructors == *old(self),
                constructors_check(*semantics, constructors@) ==> checked_state(*old(self), after_constructors),
                !functions_check(*semantics, functions@.take(k as int)) ==> *self == after_constructors,
                functions_check(*semantics, functions@.take(k as int)) ==> checked_state(after_constructors, *self),
                constructors_quiet(constructors@) ==> crate::ownership::silent(*old(self), after_constructors),
                functions_quiet(functions@.take(k as int)) ==> crate::ownership::silent(after_constructors, *self),
            decreases functions@.len() - k,
        {
            proof {
                lemma_functions_check_step(*semantics, functions@, k as int);
                assert(functions@.take(k + 1).drop_last() =~= functions@.take(k as int));
            }
            let ghost mid = *self;
            if functions[k].body.is_some() {
                self.function(semantics, last_uses, &functions[k]);
                proof {
                    lemma_grew_trans(*old(self), mid, *self);
                }
            }
            k = k + 1;
        }
        proof {
            assert(functions@.take(k as int) =~= functions@);
        }
    }
}

} // verus!

verus! {

/// Whether range `a` orders before range `b`: by start, then by end.
pub open spec fn span_before(a: Span, b: Span) -> bool {
    a.start < b.start || (a.start == b.start && a.end < b.end)
}

/// The first index of `s` whose range orders after `key`.
pub open spec fn span_insert_position(s: Seq<Diagnostic>, key: Span) -> nat
    decreases s.len(),
{
    if s.len() == 0 {
        0
    } else if span_before(key, s[0].span) {
        0
    } else {
        1 + span_insert_position(s.drop_first(), key)
    }
}

/// Stable sort of diagnostics by range.
pub open spec fn sort_by_span(s: Seq<Diagnostic>) -> Seq<Diagnostic>
    decreases s.len(),
{
    if s.len() == 0 {
        s
    } else {
        let sorted = sort_by_span(s.drop_last());
        sorted.insert(span_insert_position(sorted, s.last().span) as int, s.last())
    }
}

/// Ranges never order backwards along `s`.
pub open spec fn sorted_by_span(s: Seq<Diagnostic>) -> bool {
    forall|i: int, j: int| 0 <= i < j < s.len() ==> !span_before(#[trigger] s[j].span, #[trigger] s[i].span)
}

proof fn lemma_span_insert_position(s: Seq<Diagnostic>, key: Span, p: int)
    requires
        0 <= p <= s.len(),
        forall|q: int| 0 <= q < p ==> !span_before(key, #[trigger] s[q].span),
        p < s.len() ==> span_before(key, s[p].span),
    ensures
        span_insert_position(s, key) == p,
    decreases s.len(),
{
    if s.len() != 0 && p != 0 {
        assert forall|q: int| 0 <= q < p - 1 implies !span_before(key, #[trigger] s.drop_first()[q].span) by {
            assert(s.drop_first()[q] == s[q + 1]);
        }
        assert(!span_before(key, s[0].span));
        lemma_span_insert_position(s.drop_first(), key, p - 1);
    }
}

proof fn lemma_span_insert_position_bounds(s: Seq<Diagnostic>, key: Span)
    ensures
        span_insert_position(s, key) <= s.len(),
        forall|q: int| 0 <= q < span_insert_position(s, key) ==> !span_before(key, #[trigger] s[q].span),
        span_insert_position(s, key) < s.len() ==> span_before(key, s[span_insert_position(s, key) as int].span),
    decreases s.len(),
{
    if s.len() != 0 && !span_before(key, s[0].span) {
        let t = s.drop_first();
        lemma_span_insert_position_bounds(t, key);
        assert forall|q: int| 0 <= q < span_insert_position(s, key) implies !span_before(key, #[trigger] s[q].span) by {
            if q > 0 {
                assert(s[q] == t[q - 1]);
            }
        }
    }
}

/// Law: sorting by range yields a range-sorted permutation of its input.
pub proof fn lemma_sort_by_span(s: Seq<Diagnostic>)
    ensures
        sorted_by_span(sort_by_span(s)),
        sort_by_span(s).to_multiset() == s.to_multiset(),
        sort_by_span(s).len() == s.len(),
    decreases s.len(),
{
    if s.len() != 0 {
        let sorted = sort_by_span(s.drop_last());
        let x = s.last();
        lemma_sort_by_span(s.drop_last());
        let p = span_insert_position(sorted, x.span) as int;
        lemma_span_insert_position_bounds(sorted, x.span);
        let t = sorted.insert(p, x);
        sorted.insert_ensures(p, x);
        vstd::seq_lib::to_multiset_insert(sorted, p, x);
        assert forall|i: int, j: int| 0 <= i < j < t.len() implies !span_before(#[trigger] t[j].span, #[trigger] t[i].span) by {
            if j < p {
                assert(t[i] == sorted[i] && t[j] == sorted[j]);
            } else if j == p {
                assert(t[i] == sorted[i]);
            } else if i < p {
                assert(t[i] == sorted[i] && t[j] == sorted[j - 1]);
            } else if i == p {
                assert(t[j] == sorted[j - 1]);
                assert(!span_before(sorted[j - 1].span, sorted[p].span));
            } else {
                assert(t[i] == sorted[i - 1] && t[j] == sorted[j - 1]);
            }
        }
        vstd::seq_lib::to_multiset_build(s.drop_last(), s.last());
        assert(s.drop_last().push(s.last()) =~= s);
        vstd::seq_lib::to_multiset_len(sort_by_span(s));
        vstd::seq_lib::to_multiset_len(s);
    }
}

/// The diagnostics of `s` whose range is `span`, in their order along `s`.
pub open spec fn with_span(s: Seq<Diagnostic>, span: Span) -> Seq<Diagnostic> {
    s.filter(|d: Diagnostic| d.span == span)
}

proof fn lemma_with_span_none(s: Seq<Diagnostic>, span: Span)
    requires
        forall|q: int| 0 <= q < s.len() ==> (#[trigger] s[q]).span != span,
    ensures
        with_span(s, span) == Seq::<Diagnostic>::empty(),
    decreases s.len(),
{
    reveal(Seq::filter);
    if s.len() != 0 {
        assert forall|q: int| 0 <= q < s.drop_last().len() implies (#[trigger] s.drop_last()[q]).span != span by {
            assert(s.drop_last()[q] == s[q]);
        }
        lemma_with_span_none(s.drop_last(), span);
    }
}

/// Law: sorting by range is stable; the diagnostics that share a range keep
/// the order in which they were reported.
pub proof fn lemma_sort_by_span_stable(s: Seq<Diagnostic>, span: Span)
    ensures
        with_span(sort_by_span(s), span) == with_span(s, span),
    decreases s.len(),
{
    if s.len() != 0 {
        let front = s.drop_last();
        let x = s.last();
        lemma_sort_by_span_stable(front, span);
        lemma_sort_by_span(front);
        let sorted = sort_by_span(front);
        let p = span_insert_position(sorted, x.span) as int;
        lemma_span_insert_position_bounds(sorted, x.span);
        let pred = |d: Diagnostic| d.span == span;
        let head = sorted.take(p);
        let tail = sorted.skip(p);
        assert(sorted.insert(p, x) =~= head + seq![x] + tail);
        assert(sorted =~= head + tail);
        Seq::filter_distributes_over_add(head + seq![x], tail, pred);
        Seq::filter_distributes_over_add(head, seq![x], pred);
        Seq::filter_distributes_over_add(head, tail, pred);
        reveal_with_fuel(Seq::filter, 2);
        assert(seq![x].drop_last() =~= Seq::<Diagnostic>::empty());
        assert(s.filter(pred) == if pred(x) { front.filter(pred).push(x) } else { front.filter(pred) }) by {
            reveal(Seq::filter);
        }
        if x.span == span {
            assert forall|q: int| 0 <= q < tail.len() implies (#[trigger] tail[q]).span != span by {
                assert(tail[q] == sorted[p + q]);
                assert(!span_before(sorted[p + q].span, sorted[p].span));
            }
            lemma_with_span_none(tail, span);
            assert(seq![x].filter(pred) =~= seq![x]);
        } else {
            assert(seq![x].filter(pred) =~= Seq::<Diagnostic>::empty());
        }
    }
}

/// No two diagnostics share both their code and their range.
pub open spec fn reported_once_each(s: Seq<Diagnostic>) -> bool {
    forall|i: int, j: int|
        0 <= i < j < s.len() ==> !((#[trigger] s[i]).code@ == (#[trigger] s[j]).code@ && s[i].span == s[j].span)
}

/// Sorting keeps diagnostics reported once each.
proof fn lemma_sort_keeps_once(s: Seq<Diagnostic>)
    requires
        reported_once_each(s),
    ensures
        reported_once_each(sort_by_span(s)),
    decreases s.len(),
{
    if s.len() != 0 {
        let front = s.drop_last();
        let x = s.last();
        assert(reported_once_each(front)) by {
            assert forall|i: int, j: int| 0 <= i < j < front.len() implies !((#[trigger] front[i]).code@
                == (#[trigger] front[j]).code@ && front[i].span == front[j].span) by {
                assert(front[i] == s[i] && front[j] == s[j]);
            }
        }
        lemma_sort_keeps_once(front);
        lemma_sort_by_span(front);
        let sorted = sort_by_span(front);
        let p = span_insert_position(sorted, x.span) as int;
        lemma_span_insert_position_bounds(sorted, x.span);
        let t = sorted.insert(p, x);
        sorted.insert_ensures(p, x);
        assert forall|k: int| 0 <= k < sorted.len() implies !((#[trigger] sorted[k]).code@ == x.code@
            && sorted[k].span == x.span) by {
            vstd::seq_lib::to_multiset_contains(sorted, sorted[k]);
            vstd::seq_lib::to_multiset_contains(front, sorted[k]);
            let q = choose|q: int| 0 <= q < front.len() && front[q] == sorted[k];
            assert(s[q] == front[q]);
            assert(s[s.len() - 1] == x);
        }
        assert forall|i: int, j: int| 0 <= i < j < t.len() implies !((#[trigger] t[i]).code@ == (#[trigger] t[j]).code@
            && t[i].span == t[j].span) by {
            if j < p {
                assert(t[i] == sorted[i] && t[j] == sorted[j]);
            } else if j == p {
                assert(t[i] == sorted[i]);
            } else if i < p {
                assert(t[i] == sorted[i] && t[j] == sorted[j - 1]);
            } else if i == p {
                assert(t[j] == sorted[j - 1]);
            } else {
                assert(t[i] == sorted[i - 1] && t[j] == sorted[j - 1]);
            }
        }
    }
}

/// Sorts diagnostics stably by range.
pub fn sort_diagnostics(diagnostics: Vec<Diagnostic>) -> (r: Vec<Diagnostic>)
    ensures
        r@ == sort_by_span(diagnostics@),
{
    let ghost input = diagnostics@;
    let mut rest = diagnostics;
    let mut sorted: Vec<Diagnostic> = Vec::new();
    let mut i: usize = 0;
    let n = rest.len();
    assert(input.take(0) =~= Seq::<Diagnostic>::empty());
    while i < n
        invariant
            n == input.len(),
            i <= n,
            rest@ == input.skip(i as int),
            sorted@ == sort_by_span(input.take(i as int)),
        decreases n - i,
    {
        let x = rest.remove(0);
        let key = x.span;
        let mut p: usize = 0;
        while p < sorted.len() && !(key.start < sorted[p].span.start || (key.start == sorted[p].span.start
            && key.end < sorted[p].span.end))
            invariant
                p <= sorted.len(),
                forall|q: int| 0 <= q < p ==> !span_before(key, #[trigger] sorted@[q].span),
            decreases sorted.len() - p,
        {
            p = p + 1;
        }
        proof {
            lemma_span_insert_position(sorted@, key, p as int);
            assert(input.take(i + 1).drop_last() =~= input.take(i as int));
            assert(input.take(i + 1).last() == x);
            assert(rest@ =~= input.skip(i + 1));
        }
        sorted.insert(p, x);
        i = i + 1;
    }
    assert(input.take(n as int) =~= input);
    sorted
}

/// Validates ownership over a resolved source file: moves, borrows and
/// returned references in every function and constructor body. Returns the
/// ownership diagnostics, ordered by range. Among them: a use of a
/// parameter right after `std::move` of it (`OWN001`), a reached local
/// reference bound to a literal (`OWN004`), and a reached returned
/// value in a function that returns a reference without a single reference
/// parameter to borrow from (`OWN005`).
pub fn validate(source: &SourceFile, semantics: &SemanticModel) -> (r: Vec<Diagnostic>)
    ensures
        sorted_by_span(r@),
        reported_once_each(r@),
        forall|i: int| 0 <= i < r@.len() ==> (#[trigger] r@[i]).phase == crate::DiagnosticPhase::Ownership
            && crate::ownership::ownership_code(r@[i].code),
        !items_check(*semantics, source.items@) ==> r@.len() == 0,
        items_quiet(source.items@) ==> r@.len() == 0,
        forall|k: int, j: int|
            0 <= k < source.items@.len() ==> (#[trigger] item_unborrowable_return(*semantics, source.items@[k], j) matches Some(
                at,
            ) ==> exists|i: int| 0 <= i < r@.len() && r@[i].code@ == "OWN005"@ && r@[i].span == at),
        forall|k: int|
            0 <= k < source.items@.len() ==> (#[trigger] item_use_after_move(*semantics, source.items@[k]) matches Some(
                at,
            ) ==> exists|i: int| 0 <= i < r@.len() && r@[i].code@ == "OWN001"@ && r@[i].span == at),
        forall|k: int, j: int|
            0 <= k < source.items@.len() ==> (#[trigger] item_unstable_reference(*semantics, source.items@[k], j) matches Some(
                at,
            ) ==> exists|i: int| 0 <= i < r@.len() && r@[i].code@ == "OWN004"@ && r@[i].span == at),
{
    let last_uses = crate::last_uses::collect_last_uses(source);
    let mut analyzer = Analyzer {
        state: FlowState::default(),
        diagnostics: Vec::new(),
        emitted: Vec::new(),
        return_borrow: None,
        returns_reference: false,
        loop_depth: 0,
        loops: Vec::new(),
        exceptions: Vec::new(),
    };
    let ghost start = analyzer;
    analyzer.items(semantics, &last_uses, &source.items);
    let ghost reported = analyzer.diagnostics@;
    let r = sort_diagnostics(analyzer.diagnostics);
    proof {
        assert(crate::ownership::reported_once(start));
        assert(crate::ownership::reported_once(analyzer));
        assert(reported_once_each(reported)) by {
            assert forall|i: int, j: int| 0 <= i < j < reported.len() implies !((#[trigger] reported[i]).code@
                == (#[trigger] reported[j]).code@ && reported[i].span == reported[j].span) by {
                assert(analyzer.emitted@[i].0@ == reported[i].code@);
                assert(analyzer.emitted@[j].0@ == reported[j].code@);
            }
        }
        lemma_sort_keeps_once(reported);
        lemma_sort_by_span(reported);
        if !items_check(*semantics, source.items@) {
            assert(reported.len() == 0);
        }
        if items_quiet(source.items@) {
            assert(reported.len() == 0);
        }
        assert forall|i: int| 0 <= i < r@.len() implies (#[trigger] r@[i]).phase == crate::DiagnosticPhase::Ownership
            && crate::ownership::ownership_code(r@[i].code) by {
            vstd::seq_lib::to_multiset_contains(r@, r@[i]);
            vstd::seq_lib::to_multiset_contains(reported, r@[i]);
            let j = choose|j: int| 0 <= j < reported.len() && reported[j] == r@[i];
            assert(reported[j].phase == crate::DiagnosticPhase::Ownership);
            assert(crate::ownership::ownership_code(reported[j].code));
        }
        assert forall|k: int, j: int| 0 <= k < source.items@.len() implies (#[trigger] item_unborrowable_return(
            *semantics,
            source.items@[k],
            j,
        ) matches Some(at) ==> exists|i: int| 0 <= i < r@.len() && r@[i].code@ == "OWN005"@ && r@[i].span == at) by {
            if let Some(at) = item_unborrowable_return(*semantics, source.items@[k], j) {
                let j = choose|j: int|
                    0 <= j < analyzer.emitted@.len() && (#[trigger] analyzer.emitted@[j]).0@ == "OWN005"@
                        && analyzer.emitted@[j].1 == at;
                let d = reported[j];
                assert(d.code@ == "OWN005"@ && d.span == at);
                vstd::seq_lib::to_multiset_contains(reported, d);
                vstd::seq_lib::to_multiset_contains(r@, d);
                let i = choose|i: int| 0 <= i < r@.len() && r@[i] == d;
                assert(r@[i].code@ == "OWN005"@ && r@[i].span == at);
            }
        }
        assert forall|k: int| 0 <= k < source.items@.len() implies (#[trigger] item_use_after_move(
            *semantics,
            source.items@[k],
        ) matches Some(at) ==> exists|i: int| 0 <= i < r@.len() && r@[i].code@ == "OWN001"@ && r@[i].span == at) by {
            if let Some(at) = item_use_after_move(*semantics, source.items@[k]) {
                let j = choose|j: int|
                    0 <= j < analyzer.emitted@.len() && (#[trigger] analyzer.emitted@[j]).0@ == "OWN001"@
                        && analyzer.emitted@[j].1 == at;
                let d = reported[j];
                assert(d.code@ == "OWN001"@ && d.span == at);
                vstd::seq_lib::to_multiset_contains(reported, d);
                vstd::seq_lib::to_multiset_contains(r@, d);
                let i = choose|i: int| 0 <= i < r@.len() && r@[i] == d;
                assert(r@[i].code@ == "OWN001"@ && r@[i].span == at);
            }
        }
        assert forall|k: int, j: int| 0 <= k < source.items@.len() implies (#[trigger] item_unstable_reference(
            *semantics,
            source.items@[k],
            j,
        ) matches Some(at) ==> exists|i: int| 0 <= i < r@.len() && r@[i].code@ == "OWN004"@ && r@[i].span == at) by {
            if let Some(at) = item_unstable_reference(*semantics, source.items@[k], j) {
                let j = choose|j: int|
                    0 <= j < analyzer.emitted@.len() && (#[trigger] analyzer.emitted@[j]).0@ == "OWN004"@
                        && analyzer.emitted@[j].1 == at;
                let d = reported[j];
                assert(d.code@ == "OWN004"@ && d.span == at);
                vstd::seq_lib::to_multiset_contains(reported, d);
                vstd::seq_lib::to_multiset_contains(r@, d);
                let i = choose|i: int| 0 <= i < r@.len() && r@[i] == d;
                assert(r@[i].code@ == "OWN004"@ && r@[i].span == at);
            }
        }
    }
    r
}

} // verus!

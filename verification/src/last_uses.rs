//! Where each local is used last: the walk over a source file that tells
//! ownership validation when a borrow held by a local may end.

use crate::ast::{
    Block, CatchClause, Constructor, ConstructorInitializer, Expression,
    ExpressionKind, ForClause, ForInitializer, ForStatement, Function, IfStatement, Item, LambdaCapture, LocalDeclaration,
    LambdaCaptureKind, Parameter, Path, SourceFile, Span, Statement, StatementKind,
};
use crate::text::str_eq;
use vstd::prelude::*;

verus! {

/// The names in scope, innermost scope last, each with the range of its
/// declaration; and the last recorded use of each declaration.
pub type UseState = (Seq<Seq<(Seq<char>, Span)>>, Map<Span, Span>);

/// The declaration the latest entry of `scope` for `name` records.
pub open spec fn scope_declaration(scope: Seq<(Seq<char>, Span)>, name: Seq<char>) -> Option<Span>
    decreases scope.len(),
{
    if scope.len() == 0 {
        None
    } else if scope.last().0 == name {
        Some(scope.last().1)
    } else {
        scope_declaration(scope.drop_last(), name)
    }
}

/// The declaration `name` refers to: in the innermost scope declaring it.
pub open spec fn declaration_of(scopes: Seq<Seq<(Seq<char>, Span)>>, name: Seq<char>) -> Option<Span>
    decreases scopes.len(),
{
    if scopes.len() == 0 {
        None
    } else {
        match scope_declaration(scopes.last(), name) {
            Some(span) => Some(span),
            None => declaration_of(scopes.drop_last(), name),
        }
    }
}

/// `st` with a new innermost scope.
pub open spec fn opened(st: UseState) -> UseState {
    (st.0.push(Seq::empty()), st.1)
}

/// `st` without its innermost scope.
pub open spec fn closed(st: UseState) -> UseState {
    (st.0.drop_last(), st.1)
}

/// `st` with `name` declared at `span` in the innermost scope.
pub open spec fn declared(st: UseState, name: Seq<char>, span: Span) -> UseState {
    if st.0.len() == 0 {
        st
    } else {
        (st.0.update(st.0.len() - 1, st.0.last().push((name, span))), st.1)
    }
}

/// `st` with a use of `name` at `span` recorded against its declaration.
pub open spec fn used(st: UseState, name: Seq<char>, span: Span) -> UseState {
    match declaration_of(st.0, name) {
        Some(declaration) => (st.0, st.1.insert(declaration, span)),
        None => st,
    }
}

/// Records the uses in an expression, in evaluation order.
pub open spec fn expression_uses(st: UseState, e: Expression) -> UseState
    decreases e, 0nat,
{
    match e.kind {
        ExpressionKind::Name(path) => if path.segments@.len() == 1 {
            used(st, path.segments@[0]@, e.span)
        } else {
            st
        },
        ExpressionKind::Literal(_) => st,
        ExpressionKind::Error => st,
        ExpressionKind::Parenthesized(inner) => expression_uses(st, *inner),
        ExpressionKind::Prefix { operand, .. } => expression_uses(st, *operand),
        ExpressionKind::Postfix { operand, .. } => expression_uses(st, *operand),
        ExpressionKind::Binary { left, right, .. } => expression_uses(
            expression_uses(st, *left),
            *right,
        ),
        ExpressionKind::Call { callee, arguments } => expressions_uses(
            expression_uses(st, *callee),
            arguments@,
        ),
        ExpressionKind::MacroCall { arguments, .. } => expressions_uses(st, arguments@),
        ExpressionKind::Aggregate { initializers, .. } => expressions_uses(st, initializers@),
        ExpressionKind::JsonArray { elements } => expressions_uses(st, elements@),
        ExpressionKind::JsonObject { members } => members_uses(st, members@),
        ExpressionKind::Field { receiver, .. } => expression_uses(st, *receiver),
        ExpressionKind::Index { receiver, index } => expression_uses(
            expression_uses(st, *receiver),
            *index,
        ),
        ExpressionKind::Lambda { captures, parameters, body, .. } => closed(
            block_uses(
                parameters_declared(
                    captures_declared(opened(captures_uses(st, captures@)), captures@),
                    parameters@,
                ),
                body,
                false,
            ),
        ),
    }
}

/// Records the uses in expressions, in order.
pub open spec fn expressions_uses(st: UseState, es: Seq<Expression>) -> UseState
    decreases es, 1nat,
{
    if es.len() == 0 {
        st
    } else {
        expressions_uses(expression_uses(st, es[0]), es.drop_first())
    }
}

/// Records the uses in the values of JSON object members, in order.
pub open spec fn members_uses(st: UseState, ms: Seq<(String, Expression)>) -> UseState
    decreases ms, 1nat,
{
    if ms.len() == 0 {
        st
    } else {
        members_uses(expression_uses(st, ms[0].1), ms.drop_first())
    }
}

/// Records what lambda captures read: a copied or borrowed name is a use
/// of it at the capture; an initialized capture evaluates its initializer.
pub open spec fn captures_uses(st: UseState, cs: Seq<LambdaCapture>) -> UseState
    decreases cs, 1nat,
{
    if cs.len() == 0 {
        st
    } else {
        let next = match cs[0].kind {
            LambdaCaptureKind::Initialize(initializer) => expression_uses(st, *initializer),
            _ => used(st, cs[0].name@, cs[0].span),
        };
        captures_uses(next, cs.drop_first())
    }
}

/// Declares lambda captures, in order.
pub open spec fn captures_declared(st: UseState, cs: Seq<LambdaCapture>) -> UseState
    decreases cs.len(),
{
    if cs.len() == 0 {
        st
    } else {
        captures_declared(declared(st, cs[0].name@, cs[0].span), cs.drop_first())
    }
}

/// Declares parameters, in order.
pub open spec fn parameters_declared(st: UseState, ps: Seq<Parameter>) -> UseState
    decreases ps.len(),
{
    if ps.len() == 0 {
        st
    } else {
        parameters_declared(declared(st, ps[0].name@, ps[0].span), ps.drop_first())
    }
}

/// Records the uses in a block, in a scope of its own when `create_scope`.
pub open spec fn block_uses(st: UseState, b: Block, create_scope: bool) -> UseState
    decreases b, 2nat,
{
    if create_scope {
        closed(statements_uses(opened(st), b.statements@))
    } else {
        statements_uses(st, b.statements@)
    }
}

/// Records the uses in statements, in order.
pub open spec fn statements_uses(st: UseState, ss: Seq<Statement>) -> UseState
    decreases ss, 1nat,
{
    if ss.len() == 0 {
        st
    } else {
        statements_uses(statement_uses(st, ss[0]), ss.drop_first())
    }
}

/// Records the uses in a statement that forms a branch of its own scope.
pub open spec fn branch_uses(st: UseState, s: Statement) -> UseState
    decreases s, 1nat,
{
    closed(statement_uses(opened(st), s))
}

/// Records the uses in one statement.
pub open spec fn statement_uses(st: UseState, s: Statement) -> UseState
    decreases s, 0nat,
{
    match s.kind {
        StatementKind::Block(b) => block_uses(st, b, true),
        StatementKind::Local(local) => declared(
            match local.initializer {
                Some(initializer) => expression_uses(st, initializer),
                None => st,
            },
            local.name@,
            local.span,
        ),
        StatementKind::Return(value) => match value {
            Some(value) => expression_uses(st, value),
            None => st,
        },
        StatementKind::Throw(value) => match value {
            Some(value) => expression_uses(st, value),
            None => st,
        },
        StatementKind::Try(t) => catches_uses(block_uses(st, t.body, true), t.catches@),
        StatementKind::If(i) => {
            let then_done = branch_uses(expression_uses(st, i.condition), *i.then_branch);
            match i.else_branch {
                Some(else_branch) => branch_uses(then_done, *else_branch),
                None => then_done,
            }
        },
        StatementKind::For(f) => closed(for_clause_uses(opened(st), f)),
        StatementKind::Expression(e) => expression_uses(st, e),
        _ => st,
    }
}

/// Records the uses in handlers, each in a scope holding its binding.
pub open spec fn catches_uses(st: UseState, cs: Seq<CatchClause>) -> UseState
    decreases cs, 1nat,
{
    if cs.len() == 0 {
        st
    } else {
        let inner = match cs[0].binding {
            Some(binding) => declared(opened(st), binding.name@, binding.span),
            None => opened(st),
        };
        catches_uses(closed(block_uses(inner, cs[0].body, false)), cs.drop_first())
    }
}

/// Records the uses in a loop's clause and body, inside the loop's scope.
pub open spec fn for_clause_uses(st: UseState, f: ForStatement) -> UseState
    decreases f, 0nat,
{
    match f.clause {
        ForClause::Classic(classic) => {
            let initialized = match classic.initializer {
                Some(ForInitializer::Local(local)) => declared(
                    match local.initializer {
                        Some(initializer) => expression_uses(st, initializer),
                        None => st,
                    },
                    local.name@,
                    local.span,
                ),
                Some(ForInitializer::Expression(e)) => expression_uses(st, e),
                None => st,
            };
            let conditioned = match classic.condition {
                Some(condition) => expression_uses(initialized, condition),
                None => initialized,
            };
            let updated = match classic.update {
                Some(update) => expression_uses(conditioned, update),
                None => conditioned,
            };
            branch_uses(updated, *f.body)
        },
        ForClause::Range(range) => branch_uses(
            declared(expression_uses(st, range.iterable), range.name@, range.ty.span),
            *f.body,
        ),
        ForClause::Error => st,
    }
}

} // verus!

verus! {

/// Records the uses in the arguments of constructor initializers, in order.
pub open spec fn initializers_uses(st: UseState, is: Seq<ConstructorInitializer>) -> UseState
    decreases is.len(),
{
    if is.len() == 0 {
        st
    } else {
        initializers_uses(expressions_uses(st, is[0].arguments@), is.drop_first())
    }
}

/// Records the uses in a defined constructor: its parameters are declared
/// in a scope of their own, then its initializers and body are walked.
pub open spec fn constructor_uses(st: UseState, c: Constructor) -> UseState {
    match c.body {
        Some(body) => closed(
            block_uses(
                initializers_uses(parameters_declared(opened(st), c.parameters@), c.initializers@),
                body,
                false,
            ),
        ),
        None => st,
    }
}

/// Records the uses in a defined function.
pub open spec fn function_uses(st: UseState, f: Function) -> UseState {
    match f.body {
        Some(body) => closed(block_uses(parameters_declared(opened(st), f.parameters@), body, false)),
        None => st,
    }
}

/// Records the uses in constructors, in order.
pub open spec fn constructors_uses(st: UseState, cs: Seq<Constructor>) -> UseState
    decreases cs.len(),
{
    if cs.len() == 0 {
        st
    } else {
        constructors_uses(constructor_uses(st, cs[0]), cs.drop_first())
    }
}

/// Records the uses in functions, in order.
pub open spec fn functions_uses(st: UseState, fs: Seq<Function>) -> UseState
    decreases fs.len(),
{
    if fs.len() == 0 {
        st
    } else {
        functions_uses(function_uses(st, fs[0]), fs.drop_first())
    }
}

/// Records the uses in one declaration.
pub open spec fn item_uses(st: UseState, item: Item) -> UseState
    decreases item, 0nat,
{
    match item {
        Item::Namespace(namespace) => items_uses(st, namespace.items@),
        Item::Struct(structure) => functions_uses(
            constructors_uses(st, structure.constructors@),
            structure.functions@,
        ),
        Item::Constructor(constructor) => constructor_uses(st, constructor),
        Item::Function(function) => function_uses(st, function),
        Item::Use(_) => st,
    }
}

/// Records the uses in declarations, in order.
pub open spec fn items_uses(st: UseState, items: Seq<Item>) -> UseState
    decreases items, 1nat,
{
    if items.len() == 0 {
        st
    } else {
        items_uses(item_uses(st, items[0]), items.drop_first())
    }
}

/// The last-use table an association list describes: later entries win.
pub open spec fn uses_map(entries: Seq<(Span, Span)>) -> Map<Span, Span>
    decreases entries.len(),
{
    if entries.len() == 0 {
        Map::empty()
    } else {
        uses_map(entries.drop_last()).insert(entries.last().0, entries.last().1)
    }
}

/// Whether no two entries share a declaration.
pub open spec fn distinct_keys(entries: Seq<(Span, Span)>) -> bool {
    forall|i: int, j: int|
        0 <= i < entries.len() && 0 <= j < entries.len() && i != j ==> #[trigger] entries[i].0
            != #[trigger] entries[j].0
}

/// Replacing the value of a key in an association list with distinct keys
/// updates the table it describes.
proof fn lemma_replace_use(entries: Seq<(Span, Span)>, i: int, value: Span)
    requires
        distinct_keys(entries),
        0 <= i < entries.len(),
    ensures
        uses_map(entries.update(i, (entries[i].0, value))) == uses_map(entries).insert(entries[i].0, value),
    decreases entries.len(),
{
    let key = entries[i].0;
    let updated = entries.update(i, (key, value));
    if i == entries.len() - 1 {
        assert(updated.drop_last() =~= entries.drop_last());
        assert(uses_map(updated) =~= uses_map(entries).insert(key, value));
    } else {
        let front = entries.drop_last();
        assert(distinct_keys(front)) by {
            assert forall|a: int, b: int| 0 <= a < front.len() && 0 <= b < front.len() && a != b implies #[trigger] front[a].0
                != #[trigger] front[b].0 by {
                assert(front[a] == entries[a] && front[b] == entries[b]);
            }
        }
        lemma_replace_use(front, i, value);
        assert(updated.drop_last() =~= front.update(i, (key, value)));
        assert(entries.last().0 != key);
        assert(uses_map(updated) =~= uses_map(entries).insert(key, value));
    }
}

/// Every key of the table an association list describes is one of its
/// entries' keys.
proof fn lemma_uses_keys(entries: Seq<(Span, Span)>, key: Span)
    requires
        forall|i: int| 0 <= i < entries.len() ==> (#[trigger] entries[i]).0 != key,
    ensures
        !uses_map(entries).contains_key(key),
    decreases entries.len(),
{
    if entries.len() > 0 {
        let front = entries.drop_last();
        assert forall|i: int| 0 <= i < front.len() implies (#[trigger] front[i]).0 != key by {
            assert(front[i] == entries[i]);
        }
        lemma_uses_keys(front, key);
        assert(entries.last() == entries[entries.len() - 1]);
    }
}

/// The names of one scope, by their characters.
pub open spec fn named_scope(scope: Seq<(String, Span)>) -> Seq<(Seq<char>, Span)> {
    Seq::new(scope.len(), |k: int| (scope[k].0@, scope[k].1))
}

/// Walks a source file, tracking the declarations in scope and the last use
/// of each.
pub struct UseCollector {
    /// Names declared in each open scope, innermost last.
    pub scopes: Vec<Vec<(String, Span)>>,
    /// The last use of each declaration seen so far, one entry per
    /// declaration.
    pub last_uses: Vec<(Span, Span)>,
}

impl UseCollector {
    /// The scopes and uses the collector holds.
    pub open spec fn state(&self) -> UseState {
        (Seq::new(self.scopes@.len(), |s: int| named_scope(self.scopes@[s]@)), uses_map(self.last_uses@))
    }

    /// Whether each declaration has one entry.
    pub open spec fn well_formed(&self) -> bool {
        distinct_keys(self.last_uses@)
    }

    /// Opens an empty innermost scope.
    pub fn push_scope(&mut self)
        requires
            old(self).well_formed(),
        ensures
            final(self).well_formed(),
            final(self).state() == opened(old(self).state()),
            final(self).scopes@.len() == old(self).scopes@.len() + 1,
    {
        self.scopes.push(Vec::new());
        assert(named_scope(self.scopes@.last()@) =~= Seq::empty());
        assert(self.state().0 =~= opened(old(self).state()).0);
    }

    /// Closes the innermost scope.
    pub fn pop_scope(&mut self)
        requires
            old(self).well_formed(),
            old(self).scopes@.len() > 0,
        ensures
            final(self).well_formed(),
            final(self).state() == closed(old(self).state()),
            final(self).scopes@.len() == old(self).scopes@.len() - 1,
    {
        self.scopes.pop();
        assert(self.state().0 =~= closed(old(self).state()).0);
    }

    /// Declares `name` at `span` in the innermost scope.
    pub fn declare(&mut self, name: &str, span: Span)
        requires
            old(self).well_formed(),
            old(self).scopes@.len() > 0,
        ensures
            final(self).well_formed(),
            final(self).state() == declared(old(self).state(), name@, span),
            final(self).scopes@.len() == old(self).scopes@.len(),
    {
        let last = self.scopes.len() - 1;
        self.scopes[last].push((String::from_str(name), span));
        assert(named_scope(self.scopes@[last as int]@) =~= named_scope(old(self).scopes@[last as int]@).push((name@, span)));
        assert(self.state().0 =~= declared(old(self).state(), name@, span).0);
    }

    /// The declaration `name` refers to.
    pub fn lookup(&self, name: &str) -> (r: Option<Span>)
        ensures
            r == declaration_of(self.state().0, name@),
    {
        let ghost views = self.state().0;
        let mut s = self.scopes.len();
        assert(views.take(s as int) =~= views);
        while s > 0
            invariant
                views == self.state().0,
                s <= views.len(),
                declaration_of(views, name@) == declaration_of(views.take(s as int), name@),
            decreases s,
        {
            assert(views.take(s as int).last() == views[s - 1]);
            assert(views.take(s as int).drop_last() =~= views.take(s - 1));
            let scope = &self.scopes[s - 1];
            let ghost entries = views[s - 1];
            let mut k = scope.len();
            assert(entries.take(k as int) =~= entries);
            while k > 0
                invariant
                    views == self.state().0,
                    0 < s <= views.len(),
                    entries == views[s - 1],
                    entries == named_scope(scope@),
                    declaration_of(views, name@) == declaration_of(views.take(s as int), name@),
                    views.take(s as int).last() == entries,
                    views.take(s as int).drop_last() == views.take(s - 1),
                    k <= entries.len(),
                    scope_declaration(entries, name@) == scope_declaration(entries.take(k as int), name@),
                decreases k,
            {
                assert(entries.take(k as int).last() == entries[k - 1]);
                assert(entries.take(k as int).drop_last() =~= entries.take(k - 1));
                if str_eq(scope[k - 1].0.as_str(), name) {
                    return Some(scope[k - 1].1);
                }
                k = k - 1;
            }
            s = s - 1;
        }
        None
    }

    /// Records a use of `name` at `span` against its declaration.
    pub fn record_use(&mut self, name: &str, span: Span)
        requires
            old(self).well_formed(),
        ensures
            final(self).well_formed(),
            final(self).state() == used(old(self).state(), name@, span),
            final(self).scopes == old(self).scopes,
    {
        match self.lookup(name) {
            Some(declaration) => {
                let mut i: usize = 0;
                while i < self.last_uses.len()
                    invariant
                        i <= self.last_uses@.len(),
                        forall|q: int| 0 <= q < i ==> (#[trigger] self.last_uses@[q]).0 != declaration,
                        self.well_formed(),
                        old(self).well_formed(),
                        self.last_uses@ == old(self).last_uses@,
                        self.scopes == old(self).scopes,
                        declaration_of(old(self).state().0, name@) == Some(declaration),
                    decreases self.last_uses@.len() - i,
                {
                    if self.last_uses[i].0 == declaration {
                        proof {
                            lemma_replace_use(self.last_uses@, i as int, span);
                        }
                        let ghost before = self.last_uses@;
                        self.last_uses.set(i, (declaration, span));
                        proof {
                            assert(self.last_uses@ == before.update(i as int, (before[i as int].0, span)));
                            assert(self.state().0 =~= old(self).state().0);
                            assert forall|a: int, b: int|
                                0 <= a < self.last_uses@.len() && 0 <= b < self.last_uses@.len() && a != b implies #[trigger] self.last_uses@[a].0
                                    != #[trigger] self.last_uses@[b].0 by {
                                assert(before[a].0 != before[b].0);
                            }
                        }
                        return;
                    }
                    i = i + 1;
                }
                let ghost before = self.last_uses@;
                self.last_uses.push((declaration, span));
                proof {
                    assert(self.last_uses@.drop_last() =~= before);
                    assert(self.last_uses@.last() == (declaration, span));
                    assert(self.state().0 =~= old(self).state().0);
                    assert forall|a: int, b: int|
                        0 <= a < self.last_uses@.len() && 0 <= b < self.last_uses@.len() && a != b implies #[trigger] self.last_uses@[a].0
                            != #[trigger] self.last_uses@[b].0 by {
                        if a < before.len() && b < before.len() {
                            assert(before[a].0 != before[b].0);
                        } else if a < before.len() {
                            assert(self.last_uses@[a] == before[a]);
                        } else {
                            assert(self.last_uses@[b] == before[b]);
                        }
                    }
                }
            },
            None => {},
        }
    }
}

} // verus!

verus! {

impl UseCollector {
    /// Records the uses in an expression.
    pub fn expression(&mut self, e: &Expression)
        requires
            old(self).well_formed(),
            old(self).scopes@.len() > 0,
        ensures
            final(self).well_formed(),
            final(self).state() == expression_uses(old(self).state(), *e),
            final(self).scopes@.len() == old(self).scopes@.len(),
        decreases e, 0nat,
    {
        match &e.kind {
            ExpressionKind::Name(path) => {
                if path.segments.len() == 1 {
                    self.record_use(path.segments[0].as_str(), e.span);
                }
            },
            ExpressionKind::Literal(_) => {},
            ExpressionKind::Error => {},
            ExpressionKind::Parenthesized(inner) => self.expression(inner),
            ExpressionKind::Prefix { operand, .. } => self.expression(operand),
            ExpressionKind::Postfix { operand, .. } => self.expression(operand),
            ExpressionKind::Binary { left, right, .. } => {
                self.expression(left);
                self.expression(right);
            },
            ExpressionKind::Call { callee, arguments } => {
                self.expression(callee);
                self.expressions(arguments);
            },
            ExpressionKind::MacroCall { arguments, .. } => self.expressions(arguments),
            ExpressionKind::Aggregate { initializers, .. } => self.expressions(initializers),
            ExpressionKind::JsonArray { elements } => self.expressions(elements),
            ExpressionKind::JsonObject { members } => self.members(members),
            ExpressionKind::Field { receiver, .. } => self.expression(receiver),
            ExpressionKind::Index { receiver, index } => {
                self.expression(receiver);
                self.expression(index);
            },
            ExpressionKind::Lambda { captures, parameters, body, .. } => {
                self.captures(captures);
                self.push_scope();
                self.declare_captures(captures);
                self.declare_parameters(parameters);
                self.block(body, false);
                self.pop_scope();
            },
        }
    }

    /// Records the uses in expressions, in order.
    pub fn expressions(&mut self, es: &Vec<Expression>)
        requires
            old(self).well_formed(),
            old(self).scopes@.len() > 0,
        ensures
            final(self).well_formed(),
            final(self).state() == expressions_uses(old(self).state(), es@),
            final(self).scopes@.len() == old(self).scopes@.len(),
        decreases es, 1nat,
    {
        let ghost all = es@;
        let mut i: usize = 0;
        assert(all.skip(0) =~= all);
        while i < es.len()
            invariant
                all == es@,
                i <= all.len(),
                self.well_formed(),
                self.scopes@.len() == old(self).scopes@.len(),
                old(self).scopes@.len() > 0,
                expressions_uses(old(self).state(), all) == expressions_uses(self.state(), all.skip(i as int)),
            decreases all.len() - i,
        {
            proof {
                broadcast use vstd::std_specs::vec::axiom_vec_index_decreases;
                assert(decreases_to!(es => es@[i as int]));
                assert(all.skip(i as int)[0] == all[i as int]);
                assert(all.skip(i as int).drop_first() =~= all.skip(i + 1));
            }
            self.expression(&es[i]);
            i = i + 1;
        }
        assert(all.skip(all.len() as int).len() == 0);
    }

    /// Records the uses in the values of JSON object members, in order.
    pub fn members(&mut self, ms: &Vec<(String, Expression)>)
        requires
            old(self).well_formed(),
            old(self).scopes@.len() > 0,
        ensures
            final(self).well_formed(),
            final(self).state() == members_uses(old(self).state(), ms@),
            final(self).scopes@.len() == old(self).scopes@.len(),
        decreases ms, 1nat,
    {
        let ghost all = ms@;
        let mut i: usize = 0;
        assert(all.skip(0) =~= all);
        while i < ms.len()
            invariant
                all == ms@,
                i <= all.len(),
                self.well_formed(),
                self.scopes@.len() == old(self).scopes@.len(),
                old(self).scopes@.len() > 0,
                members_uses(old(self).state(), all) == members_uses(self.state(), all.skip(i as int)),
            decreases all.len() - i,
        {
            proof {
                broadcast use vstd::std_specs::vec::axiom_vec_index_decreases;
                assert(decreases_to!(ms => ms@[i as int]));
                assert(decreases_to!(ms@[i as int] => ms@[i as int].1));
                assert(all.skip(i as int)[0] == all[i as int]);
                assert(all.skip(i as int).drop_first() =~= all.skip(i + 1));
            }
            self.expression(&ms[i].1);
            i = i + 1;
        }
        assert(all.skip(all.len() as int).len() == 0);
    }

    /// Records what lambda captures read.
    pub fn captures(&mut self, cs: &Vec<LambdaCapture>)
        requires
            old(self).well_formed(),
            old(self).scopes@.len() > 0,
        ensures
            final(self).well_formed(),
            final(self).state() == captures_uses(old(self).state(), cs@),
            final(self).scopes@.len() == old(self).scopes@.len(),
        decreases cs, 1nat,
    {
        let ghost all = cs@;
        let mut i: usize = 0;
        assert(all.skip(0) =~= all);
        while i < cs.len()
            invariant
                all == cs@,
                i <= all.len(),
                self.well_formed(),
                self.scopes@.len() == old(self).scopes@.len(),
                old(self).scopes@.len() > 0,
                captures_uses(old(self).state(), all) == captures_uses(self.state(), all.skip(i as int)),
            decreases all.len() - i,
        {
            proof {
                broadcast use vstd::std_specs::vec::axiom_vec_index_decreases;
                assert(decreases_to!(cs => cs@[i as int]));
                assert(all.skip(i as int)[0] == all[i as int]);
                assert(all.skip(i as int).drop_first() =~= all.skip(i + 1));
            }
            let capture = &cs[i];
            match &capture.kind {
                LambdaCaptureKind::Initialize(initializer) => self.expression(initializer),
                _ => self.record_use(capture.name.as_str(), capture.span),
            }
            i = i + 1;
        }
        assert(all.skip(all.len() as int).len() == 0);
    }

    /// Declares lambda captures, in order.
    pub fn declare_captures(&mut self, cs: &Vec<LambdaCapture>)
        requires
            old(self).well_formed(),
            old(self).scopes@.len() > 0,
        ensures
            final(self).well_formed(),
            final(self).state() == captures_declared(old(self).state(), cs@),
            final(self).scopes@.len() == old(self).scopes@.len(),
    {
        let ghost all = cs@;
        let mut i: usize = 0;
        assert(all.skip(0) =~= all);
        while i < cs.len()
            invariant
                all == cs@,
                i <= all.len(),
                self.well_formed(),
                self.scopes@.len() == old(self).scopes@.len(),
                old(self).scopes@.len() > 0,
                captures_declared(old(self).state(), all) == captures_declared(self.state(), all.skip(i as int)),
            decreases all.len() - i,
        {
            assert(all.skip(i as int)[0] == all[i as int]);
            assert(all.skip(i as int).drop_first() =~= all.skip(i + 1));
            self.declare(cs[i].name.as_str(), cs[i].span);
            i = i + 1;
        }
        assert(all.skip(all.len() as int).len() == 0);
    }

    /// Declares parameters, in order.
    pub fn declare_parameters(&mut self, ps: &Vec<Parameter>)
        requires
            old(self).well_formed(),
            old(self).scopes@.len() > 0,
        ensures
            final(self).well_formed(),
            final(self).state() == parameters_declared(old(self).state(), ps@),
            final(self).scopes@.len() == old(self).scopes@.len(),
    {
        let ghost all = ps@;
        let mut i: usize = 0;
        assert(all.skip(0) =~= all);
        while i < ps.len()
            invariant
                all == ps@,
                i <= all.len(),
                self.well_formed(),
                self.scopes@.len() == old(self).scopes@.len(),
                old(self).scopes@.len() > 0,
                parameters_declared(old(self).state(), all) == parameters_declared(self.state(), all.skip(i as int)),
            decreases all.len() - i,
        {
            assert(all.skip(i as int)[0] == all[i as int]);
            assert(all.skip(i as int).drop_first() =~= all.skip(i + 1));
            self.declare(ps[i].name.as_str(), ps[i].span);
            i = i + 1;
        }
        assert(all.skip(all.len() as int).len() == 0);
    }

    /// Records the uses in a block, in a scope of its own when
    /// `create_scope`.
    pub fn block(&mut self, b: &Block, create_scope: bool)
        requires
            old(self).well_formed(),
            old(self).scopes@.len() > 0,
        ensures
            final(self).well_formed(),
            final(self).state() == block_uses(old(self).state(), *b, create_scope),
            final(self).scopes@.len() == old(self).scopes@.len(),
        decreases b, 2nat,
    {
        if create_scope {
            self.push_scope();
        }
        self.statements(&b.statements);
        if create_scope {
            self.pop_scope();
        }
    }

    /// Records the uses in statements, in order.
    pub fn statements(&mut self, ss: &Vec<Statement>)
        requires
            old(self).well_formed(),
            old(self).scopes@.len() > 0,
        ensures
            final(self).well_formed(),
            final(self).state() == statements_uses(old(self).state(), ss@),
            final(self).scopes@.len() == old(self).scopes@.len(),
        decreases ss, 1nat,
    {
        let ghost all = ss@;
        let mut i: usize = 0;
        assert(all.skip(0) =~= all);
        while i < ss.len()
            invariant
                all == ss@,
                i <= all.len(),
                self.well_formed(),
                self.scopes@.len() == old(self).scopes@.len(),
                old(self).scopes@.len() > 0,
                statements_uses(old(self).state(), all) == statements_uses(self.state(), all.skip(i as int)),
            decreases all.len() - i,
        {
            proof {
                broadcast use vstd::std_specs::vec::axiom_vec_index_decreases;
                assert(decreases_to!(ss => ss@[i as int]));
                assert(all.skip(i as int)[0] == all[i as int]);
                assert(all.skip(i as int).drop_first() =~= all.skip(i + 1));
            }
            self.statement(&ss[i]);
            i = i + 1;
        }
        assert(all.skip(all.len() as int).len() == 0);
    }

    /// Records the uses in a statement that forms a branch of its own scope.
    pub fn branch(&mut self, s: &Statement)
        requires
            old(self).well_formed(),
            old(self).scopes@.len() > 0,
        ensures
            final(self).well_formed(),
            final(self).state() == branch_uses(old(self).state(), *s),
            final(self).scopes@.len() == old(self).scopes@.len(),
        decreases s, 1nat,
    {
        self.push_scope();
        self.statement(s);
        self.pop_scope();
    }

    /// Records the uses in one statement.
    pub fn statement(&mut self, s: &Statement)
        requires
            old(self).well_formed(),
            old(self).scopes@.len() > 0,
        ensures
            final(self).well_formed(),
            final(self).state() == statement_uses(old(self).state(), *s),
            final(self).scopes@.len() == old(self).scopes@.len(),
        decreases s, 0nat,
    {
        match &s.kind {
            StatementKind::Block(b) => self.block(b, true),
            StatementKind::Local(local) => {
                if let Some(initializer) = &local.initializer {
                    self.expression(initializer);
                }
                self.declare(local.name.as_str(), local.span);
            },
            StatementKind::Return(value) => {
                if let Some(value) = value {
                    self.expression(value);
                }
            },
            StatementKind::Throw(value) => {
                if let Some(value) = value {
                    self.expression(value);
                }
            },
            StatementKind::Try(t) => {
                self.block(&t.body, true);
                self.catches(&t.catches);
            },
            StatementKind::If(i) => {
                self.expression(&i.condition);
                self.branch(&i.then_branch);
                if let Some(else_branch) = &i.else_branch {
                    self.branch(else_branch);
                }
            },
            StatementKind::For(f) => {
                self.push_scope();
                self.for_clause(f);
                self.pop_scope();
            },
            StatementKind::Expression(e) => self.expression(e),
            _ => {},
        }
    }

    /// Records the uses in handlers, each in a scope holding its binding.
    pub fn catches(&mut self, cs: &Vec<CatchClause>)
        requires
            old(self).well_formed(),
            old(self).scopes@.len() > 0,
        ensures
            final(self).well_formed(),
            final(self).state() == catches_uses(old(self).state(), cs@),
            final(self).scopes@.len() == old(self).scopes@.len(),
        decreases cs, 1nat,
    {
        let ghost all = cs@;
        let mut i: usize = 0;
        assert(all.skip(0) =~= all);
        while i < cs.len()
            invariant
                all == cs@,
                i <= all.len(),
                self.well_formed(),
                self.scopes@.len() == old(self).scopes@.len(),
                old(self).scopes@.len() > 0,
                catches_uses(old(self).state(), all) == catches_uses(self.state(), all.skip(i as int)),
            decreases all.len() - i,
        {
            proof {
                broadcast use vstd::std_specs::vec::axiom_vec_index_decreases;
                assert(decreases_to!(cs => cs@[i as int]));
                assert(all.skip(i as int)[0] == all[i as int]);
                assert(all.skip(i as int).drop_first() =~= all.skip(i + 1));
            }
            let clause = &cs[i];
            self.push_scope();
            if let Some(binding) = &clause.binding {
                self.declare(binding.name.as_str(), binding.span);
            }
            self.block(&clause.body, false);
            self.pop_scope();
            i = i + 1;
        }
        assert(all.skip(all.len() as int).len() == 0);
    }

    /// Records the uses in a loop's clause and body.
    pub fn for_clause(&mut self, f: &ForStatement)
        requires
            old(self).well_formed(),
            old(self).scopes@.len() > 0,
        ensures
            final(self).well_formed(),
            final(self).state() == for_clause_uses(old(self).state(), *f),
            final(self).scopes@.len() == old(self).scopes@.len(),
        decreases f, 0nat,
    {
        match &f.clause {
            ForClause::Classic(classic) => {
                match &classic.initializer {
                    Some(ForInitializer::Local(local)) => {
                        if let Some(initializer) = &local.initializer {
                            self.expression(initializer);
                        }
                        self.declare(local.name.as_str(), local.span);
                    },
                    Some(ForInitializer::Expression(e)) => self.expression(e),
                    None => {},
                }
                if let Some(condition) = &classic.condition {
                    self.expression(condition);
                }
                if let Some(update) = &classic.update {
                    self.expression(update);
                }
                self.branch(&f.body);
            },
            ForClause::Range(range) => {
                self.expression(&range.iterable);
                self.declare(range.name.as_str(), range.ty.span);
                self.branch(&f.body);
            },
            ForClause::Error => {},
        }
    }
}

} // verus!

verus! {

impl UseCollector {
    /// Records the uses in the arguments of constructor initializers.
    pub fn initializers(&mut self, is: &Vec<ConstructorInitializer>)
        requires
            old(self).well_formed(),
            old(self).scopes@.len() > 0,
        ensures
            final(self).well_formed(),
            final(self).state() == initializers_uses(old(self).state(), is@),
            final(self).scopes@.len() == old(self).scopes@.len(),
    {
        let ghost all = is@;
        let mut i: usize = 0;
        assert(all.skip(0) =~= all);
        while i < is.len()
            invariant
                all == is@,
                i <= all.len(),
                self.well_formed(),
                self.scopes@.len() == old(self).scopes@.len(),
                old(self).scopes@.len() > 0,
                initializers_uses(old(self).state(), all) == initializers_uses(self.state(), all.skip(i as int)),
            decreases all.len() - i,
        {
            assert(all.skip(i as int)[0] == all[i as int]);
            assert(all.skip(i as int).drop_first() =~= all.skip(i + 1));
            self.expressions(&is[i].arguments);
            i = i + 1;
        }
        assert(all.skip(all.len() as int).len() == 0);
    }

    /// Records the uses in a constructor that has a body.
    pub fn constructor(&mut self, c: &Constructor)
        requires
            old(self).well_formed(),
        ensures
            final(self).well_formed(),
            final(self).state() == constructor_uses(old(self).state(), *c),
            final(self).scopes@.len() == old(self).scopes@.len(),
    {
        if let Some(body) = &c.body {
            self.push_scope();
            self.declare_parameters(&c.parameters);
            self.initializers(&c.initializers);
            self.block(body, false);
            self.pop_scope();
        }
    }

    /// Records the uses in a function that has a body.
    pub fn function(&mut self, f: &Function)
        requires
            old(self).well_formed(),
        ensures
            final(self).well_formed(),
            final(self).state() == function_uses(old(self).state(), *f),
            final(self).scopes@.len() == old(self).scopes@.len(),
    {
        if let Some(body) = &f.body {
            self.push_scope();
            self.declare_parameters(&f.parameters);
            self.block(body, false);
            self.pop_scope();
        }
    }

    /// Records the uses in declarations, in order.
    pub fn items(&mut self, items: &Vec<Item>)
        requires
            old(self).well_formed(),
        ensures
            final(self).well_formed(),
            final(self).state() == items_uses(old(self).state(), items@),
            final(self).scopes@.len() == old(self).scopes@.len(),
        decreases items, 1nat,
    {
        let ghost all = items@;
        let mut i: usize = 0;
        assert(all.skip(0) =~= all);
        while i < items.len()
            invariant
                all == items@,
                i <= all.len(),
                self.well_formed(),
                self.scopes@.len() == old(self).scopes@.len(),
                items_uses(old(self).state(), all) == items_uses(self.state(), all.skip(i as int)),
            decreases all.len() - i,
        {
            proof {
                broadcast use vstd::std_specs::vec::axiom_vec_index_decreases;
                assert(decreases_to!(items => items@[i as int]));
                assert(all.skip(i as int)[0] == all[i as int]);
                assert(all.skip(i as int).drop_first() =~= all.skip(i + 1));
            }
            let ghost before_item = self.state();
            match &items[i] {
                Item::Namespace(namespace) => self.items(&namespace.items),
                Item::Struct(structure) => {
                    let ghost cs = structure.constructors@;
                    let mut k: usize = 0;
                    assert(cs.skip(0) =~= cs);
                    let ghost start = self.state();
                    while k < structure.constructors.len()
                        invariant
                            cs == structure.constructors@,
                            k <= cs.len(),
                            self.well_formed(),
                            self.scopes@.len() == old(self).scopes@.len(),
                            constructors_uses(start, cs) == constructors_uses(self.state(), cs.skip(k as int)),
                        decreases cs.len() - k,
                    {
                        assert(cs.skip(k as int)[0] == cs[k as int]);
                        assert(cs.skip(k as int).drop_first() =~= cs.skip(k + 1));
                        self.constructor(&structure.constructors[k]);
                        k = k + 1;
                    }
                    assert(cs.skip(cs.len() as int).len() == 0);
                    let ghost fs = structure.functions@;
                    let ghost middle = self.state();
                    let mut k: usize = 0;
                    assert(fs.skip(0) =~= fs);
                    while k < structure.functions.len()
                        invariant
                            fs == structure.functions@,
                            k <= fs.len(),
                            self.well_formed(),
                            self.scopes@.len() == old(self).scopes@.len(),
                            functions_uses(middle, fs) == functions_uses(self.state(), fs.skip(k as int)),
                        decreases fs.len() - k,
                    {
                        assert(fs.skip(k as int)[0] == fs[k as int]);
                        assert(fs.skip(k as int).drop_first() =~= fs.skip(k + 1));
                        self.function(&structure.functions[k]);
                        k = k + 1;
                    }
                    assert(fs.skip(fs.len() as int).len() == 0);
                    assert(start == before_item);
                    assert(middle == constructors_uses(before_item, cs));
                    assert(self.state() == functions_uses(middle, fs));
                },
                Item::Constructor(constructor) => self.constructor(constructor),
                Item::Function(function) => self.function(function),
                Item::Use(_) => {},
            }
            assert(self.state() == item_uses(before_item, all[i as int]));
            i = i + 1;
        }
        assert(all.skip(all.len() as int).len() == 0);
    }
}

/// Finds where each local of a source file is used last: for every
/// declaration a use of which is seen, the range of the last such use, with
/// one entry per declaration.
pub fn collect_last_uses(source: &SourceFile) -> (r: Vec<(Span, Span)>)
    ensures
        distinct_keys(r@),
        uses_map(r@) == items_uses((Seq::empty(), Map::empty()), source.items@).1,
{
    let mut collector = UseCollector { scopes: Vec::new(), last_uses: Vec::new() };
    assert(collector.state().0 =~= Seq::<Seq<(Seq<char>, Span)>>::empty());
    assert(collector.state().1 =~= Map::<Span, Span>::empty());
    collector.items(&source.items);
    collector.last_uses
}

} // verus!

verus! {

/// Law: a use of a name just declared in the innermost scope is recorded
/// against that declaration, whatever outer scopes declare.
pub proof fn lemma_use_after_declaration(st: UseState, name: Seq<char>, declaration: Span, at: Span)
    requires
        st.0.len() > 0,
    ensures
        used(declared(st, name, declaration), name, at).1 == st.1.insert(declaration, at),
{
    let after = declared(st, name, declaration);
    assert(after.0.last() == st.0.last().push((name, declaration)));
}

/// Law: a statement that evaluates a visible local by name (as an
/// expression statement, a returned value, a thrown value or a local's
/// initializer) records that use as the local's last use, and only that.
pub proof fn lemma_statement_use_is_recorded(
    st: UseState,
    segments: Vec<String>,
    at: Span,
    span: Span,
    local: LocalDeclaration,
    form: nat,
)
    requires
        segments@.len() == 1,
        form < 4,
    ensures
        ({
            let e = Expression { kind: ExpressionKind::Name(Path { segments }), span: at };
            let s = Statement {
                kind: if form == 0 {
                    StatementKind::Expression(e)
                } else if form == 1 {
                    StatementKind::Return(Some(e))
                } else if form == 2 {
                    StatementKind::Throw(Some(e))
                } else {
                    StatementKind::Local(LocalDeclaration { initializer: Some(e), ..local })
                },
                span,
            };
            declaration_of(st.0, segments@[0]@) matches Some(declaration) ==> statement_uses(st, s).1
                == st.1.insert(declaration, at)
        }),
{
}

/// Law: of two uses of a visible local, the later one is its last use:
/// the right operand of a binary expression after the left, and the second
/// of two statements of a block after the first.
pub proof fn lemma_later_use_wins(
    st: UseState,
    first: Vec<String>,
    second: Vec<String>,
    a1: Span,
    a2: Span,
    s1: Span,
    s2: Span,
    operator: crate::ast::BinaryOperator,
    span: Span,
    block: Block,
)
    requires
        first@.len() == 1,
        first@ == second@,
        block.statements@ == seq![
            Statement {
                kind: StatementKind::Expression(Expression { kind: ExpressionKind::Name(Path { segments: first }), span: a1 }),
                span: s1,
            },
            Statement {
                kind: StatementKind::Expression(Expression { kind: ExpressionKind::Name(Path { segments: second }), span: a2 }),
                span: s2,
            },
        ],
    ensures
        ({
            let left = Expression { kind: ExpressionKind::Name(Path { segments: first }), span: a1 };
            let right = Expression { kind: ExpressionKind::Name(Path { segments: second }), span: a2 };
            let binary = Expression {
                kind: ExpressionKind::Binary { left: Box::new(left), operator, right: Box::new(right) },
                span,
            };
            declaration_of(st.0, first@[0]@) matches Some(declaration) ==> {
                &&& expression_uses(st, binary).1 == st.1.insert(declaration, a2)
                &&& statement_uses(st, Statement { kind: StatementKind::Block(block), span }).1 == st.1.insert(
                    declaration,
                    a2,
                )
            }
        }),
{
    let name = first@[0]@;
    assert(second@[0]@ == name);
    let inner = opened(st);
    assert(inner.0.drop_last() =~= st.0);
    assert(scope_declaration(inner.0.last(), name) is None);
    assert(declaration_of(inner.0, name) == declaration_of(st.0, name));
    let ss = block.statements@;
    assert(ss.drop_first().drop_first() =~= Seq::<Statement>::empty());
    if let Some(declaration) = declaration_of(st.0, name) {
        let after_first = statement_uses(inner, ss[0]);
        assert(after_first == (inner.0, inner.1.insert(declaration, a1)));
        let after_second = statement_uses(after_first, ss.drop_first()[0]);
        assert(after_second == (inner.0, inner.1.insert(declaration, a1).insert(declaration, a2)));
        assert(statements_uses(after_second, ss.drop_first().drop_first()) == after_second);
        assert(statements_uses(after_first, ss.drop_first()) == statements_uses(
            after_second,
            ss.drop_first().drop_first(),
        ));
        assert(statements_uses(inner, ss) == statements_uses(after_first, ss.drop_first()));
        assert(statements_uses(inner, ss) == after_second);
        assert(closed(after_second).0 =~= st.0);
        assert(inner.1.insert(declaration, a1).insert(declaration, a2) =~= st.1.insert(declaration, a2));
        let left = Expression { kind: ExpressionKind::Name(Path { segments: first }), span: a1 };
        let right = Expression { kind: ExpressionKind::Name(Path { segments: second }), span: a2 };
        assert(expression_uses(st, left) == (st.0, st.1.insert(declaration, a1)));
        assert(expression_uses(expression_uses(st, left), right) == (st.0, st.1.insert(declaration, a1).insert(
            declaration,
            a2,
        )));
        assert(st.1.insert(declaration, a1).insert(declaration, a2) =~= st.1.insert(declaration, a2));
    }
}

/// Law: a use of a visible local in the `then` branch of an `if` without an
/// `else` branch is recorded as that local's last use, after whatever the
/// condition records.
pub proof fn lemma_then_branch_use_is_last(
    st: UseState,
    condition: Expression,
    segments: Vec<String>,
    at: Span,
    statement_span: Span,
    span: Span,
)
    requires
        segments@.len() == 1,
    ensures
        ({
            let use_statement = Statement {
                kind: StatementKind::Expression(
                    Expression { kind: ExpressionKind::Name(Path { segments }), span: at },
                ),
                span: statement_span,
            };
            let s = Statement {
                kind: StatementKind::If(
                    IfStatement { condition, then_branch: Box::new(use_statement), else_branch: None },
                ),
                span,
            };
            let before = expression_uses(st, condition);
            declaration_of(before.0, segments@[0]@) matches Some(declaration) ==> statement_uses(st, s).1
                == before.1.insert(declaration, at)
        }),
{
    let before = expression_uses(st, condition);
    let inner = opened(before);
    let name = segments@[0]@;
    assert(inner.0.drop_last() =~= before.0);
    assert(scope_declaration(inner.0.last(), name) is None);
    assert(declaration_of(inner.0, name) == declaration_of(before.0, name));
    let e = Expression { kind: ExpressionKind::Name(Path { segments }), span: at };
    let use_statement = Statement { kind: StatementKind::Expression(e), span: statement_span };
    let s = Statement {
        kind: StatementKind::If(IfStatement { condition, then_branch: Box::new(use_statement), else_branch: None }),
        span,
    };
    assert(statement_uses(st, s) == branch_uses(before, use_statement));
    assert(statement_uses(inner, use_statement) == used(inner, name, at));
    if let Some(declaration) = declaration_of(before.0, name) {
        assert(used(inner, name, at) == (inner.0, before.1.insert(declaration, at)));
        assert(closed(used(inner, name, at)).1 == before.1.insert(declaration, at));
    }
}

/// Law: an `if` with an `else` branch records what the same `if` without
/// it records, and then the uses in the `else` branch: both branches are
/// walked, the `else` branch last.
pub proof fn lemma_if_walks_both_branches(
    st: UseState,
    condition: Expression,
    then_branch: Statement,
    else_branch: Statement,
    span: Span,
)
    ensures
        ({
            let without = Statement {
                kind: StatementKind::If(
                    IfStatement { condition, then_branch: Box::new(then_branch), else_branch: None },
                ),
                span,
            };
            let with = Statement {
                kind: StatementKind::If(
                    IfStatement {
                        condition,
                        then_branch: Box::new(then_branch),
                        else_branch: Some(Box::new(else_branch)),
                    },
                ),
                span,
            };
            statement_uses(st, with) == closed(statement_uses(opened(statement_uses(st, without)), else_branch))
        }),
{
}

/// Law: a use of a visible local in the `else` branch of an `if`, with no
/// use after it, is that local's last use, whatever the condition and the
/// other branch hold.
pub proof fn lemma_else_branch_use_is_last(
    st: UseState,
    condition: Expression,
    then_branch: Statement,
    segments: Vec<String>,
    at: Span,
    statement_span: Span,
    span: Span,
)
    requires
        segments@.len() == 1,
    ensures
        ({
            let without = Statement {
                kind: StatementKind::If(
                    IfStatement { condition, then_branch: Box::new(then_branch), else_branch: None },
                ),
                span,
            };
            let use_statement = Statement {
                kind: StatementKind::Expression(
                    Expression { kind: ExpressionKind::Name(Path { segments }), span: at },
                ),
                span: statement_span,
            };
            let with = Statement {
                kind: StatementKind::If(
                    IfStatement {
                        condition,
                        then_branch: Box::new(then_branch),
                        else_branch: Some(Box::new(use_statement)),
                    },
                ),
                span,
            };
            let before = statement_uses(st, without);
            declaration_of(before.0, segments@[0]@) matches Some(declaration) ==> statement_uses(st, with).1
                == before.1.insert(declaration, at)
        }),
{
    let without = Statement {
        kind: StatementKind::If(IfStatement { condition, then_branch: Box::new(then_branch), else_branch: None }),
        span,
    };
    let before = statement_uses(st, without);
    let inner = opened(before);
    assert(inner.0.drop_last() =~= before.0);
    let name = segments@[0]@;
    assert(scope_declaration(inner.0.last(), name) is None);
    assert(declaration_of(inner.0, name) == declaration_of(before.0, name));
    let e = Expression { kind: ExpressionKind::Name(Path { segments }), span: at };
    let use_statement = Statement { kind: StatementKind::Expression(e), span: statement_span };
    let with = Statement {
        kind: StatementKind::If(
            IfStatement { condition, then_branch: Box::new(then_branch), else_branch: Some(Box::new(use_statement)) },
        ),
        span,
    };
    assert(statement_uses(st, with) == branch_uses(before, use_statement));
    assert(statement_uses(inner, use_statement) == used(inner, name, at));
    if let Some(declaration) = declaration_of(before.0, name) {
        assert(used(inner, name, at) == (inner.0, before.1.insert(declaration, at)));
        assert(closed(used(inner, name, at)).1 == before.1.insert(declaration, at));
    }
}

/// Law: closing a scope forgets its declarations and keeps every recorded
/// use.
pub proof fn lemma_closed_scope(st: UseState, name: Seq<char>, declaration: Span)
    ensures
        closed(declared(opened(st), name, declaration)).0 == st.0,
        closed(declared(opened(st), name, declaration)).1 == st.1,
{
    let inner = declared(opened(st), name, declaration);
    assert(inner.0.drop_last() =~= st.0);
}

} // verus!

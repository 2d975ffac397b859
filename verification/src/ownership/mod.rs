//! Move and borrow bookkeeping for ownership validation: the flow state of
//! the bindings in scope, and how states from separate control-flow paths
//! merge.

pub mod walk;

pub use walk::validate;

use crate::ast::{BinaryOperator, Expression, ExpressionKind, Span};
use crate::interop::model::{type_eq, TypeRef};
use crate::text::str_eq;
use vstd::prelude::*;

verus! {

/// Whether a binding still owns its value.
#[derive(Clone, Copy, Debug, PartialEq, Eq, Structural)]
pub enum Availability {
    /// The value has not been moved.
    Available,
    /// The value was moved at this range on every path.
    Moved(Span),
    /// The value was moved at this range on some path.
    MaybeMoved(Span),
}

/// A borrow held by a reference binding.
#[derive(Clone, Copy, Debug, PartialEq, Eq, Structural)]
pub struct Loan {
    /// The borrowed binding.
    pub owner: usize,
    /// Whether the borrow is exclusive.
    pub mutable: bool,
}

/// One declared local or parameter.
#[derive(Debug)]
pub struct Binding {
    /// Source name.
    pub name: String,
    /// Declared type.
    pub ty: TypeRef,
    /// Whether the value is still owned.
    pub availability: Availability,
    /// Number of live shared borrows of this binding.
    pub shared_borrows: usize,
    /// Whether an exclusive borrow of this binding is live.
    pub mutably_borrowed: bool,
    /// The borrow this binding holds, for a reference.
    pub reference_loan: Option<Loan>,
    /// Whether that borrow is still live.
    pub reference_loan_active: bool,
    /// Range of the declaration.
    pub declaration_span: Span,
    /// Range of the last use, when there is one.
    pub last_use: Option<Span>,
    /// Loop nesting depth of the declaration.
    pub declaration_loop_depth: usize,
}

/// The bindings of a function body and its lexical scopes.
#[derive(Debug)]
pub struct FlowState {
    /// Every binding declared so far, indexed by id.
    pub bindings: Vec<Binding>,
    /// Names visible in each open scope, innermost last; a later entry for a
    /// name shadows an earlier one.
    pub scopes: Vec<Vec<(String, usize)>>,
    /// Ids declared in each open scope, in declaration order.
    pub scope_bindings: Vec<Vec<usize>>,
}

/// Whether `ids` are all ids of `n` bindings.
pub open spec fn ids_below(ids: Seq<usize>, n: nat) -> bool {
    forall|k: int| 0 <= k < ids.len() ==> (#[trigger] ids[k]) < n
}

/// Whether the names of `scope` all refer to ids of `n` bindings.
pub open spec fn scope_below(scope: Seq<(String, usize)>, n: nat) -> bool {
    forall|k: int| 0 <= k < scope.len() ==> (#[trigger] scope[k]).1 < n
}

impl FlowState {
    /// Whether the state is consistent: one id list per scope, every id and
    /// name refers to a declared binding, and every borrow is of an earlier
    /// binding.
    pub open spec fn well_formed(&self) -> bool {
        &&& self.scopes@.len() == self.scope_bindings@.len()
        &&& forall|s: int|
            0 <= s < self.scopes@.len() ==> scope_below(
                #[trigger] self.scopes@[s]@,
                self.bindings@.len(),
            )
        &&& forall|s: int|
            0 <= s < self.scope_bindings@.len() ==> ids_below(
                #[trigger] self.scope_bindings@[s]@,
                self.bindings@.len(),
            )
        &&& forall|id: int|
            0 <= id < self.bindings@.len() ==> match (#[trigger] self.bindings@[id]).reference_loan {
                Some(loan) => loan.owner < id,
                None => true,
            }
    }

    /// The names of each scope, by their characters.
    pub open spec fn scope_views(&self) -> Seq<Seq<(Seq<char>, usize)>> {
        Seq::new(self.scopes@.len(), |s: int| scope_view(self.scopes@[s]@))
    }

    /// The ids declared in each scope.
    pub open spec fn scope_ids(&self) -> Seq<Seq<usize>> {
        Seq::new(self.scope_bindings@.len(), |s: int| self.scope_bindings@[s]@)
    }
}

/// The names of one scope, by their characters.
pub open spec fn scope_view(scope: Seq<(String, usize)>) -> Seq<(Seq<char>, usize)> {
    Seq::new(scope.len(), |k: int| (scope[k].0@, scope[k].1))
}

/// The id the last entry of `scope` for `name` refers to.
pub open spec fn scope_lookup(scope: Seq<(Seq<char>, usize)>, name: Seq<char>) -> Option<usize>
    decreases scope.len(),
{
    if scope.len() == 0 {
        None
    } else if scope.last().0 == name {
        Some(scope.last().1)
    } else {
        scope_lookup(scope.drop_last(), name)
    }
}

/// The id `name` refers to: in the innermost scope that holds it.
pub open spec fn scopes_lookup(scopes: Seq<Seq<(Seq<char>, usize)>>, name: Seq<char>) -> Option<usize>
    decreases scopes.len(),
{
    if scopes.len() == 0 {
        None
    } else {
        match scope_lookup(scopes.last(), name) {
            Some(id) => Some(id),
            None => scopes_lookup(scopes.drop_last(), name),
        }
    }
}

/// The binding a loan's owner becomes once the loan ends.
pub open spec fn released(owner: Binding, mutable: bool) -> Binding {
    if mutable {
        Binding { mutably_borrowed: false, ..owner }
    } else {
        Binding {
            shared_borrows: if owner.shared_borrows == 0 {
                0
            } else {
                (owner.shared_borrows - 1) as usize
            },
            ..owner
        }
    }
}

/// The bindings once the live borrows held by `ids` end, the last id
/// first.
pub open spec fn release_scope(bindings: Seq<Binding>, ids: Seq<usize>) -> Seq<Binding>
    decreases ids.len(),
{
    if ids.len() == 0 {
        bindings
    } else {
        let id = ids.last() as int;
        let b = bindings[id];
        let after = match b.reference_loan {
            Some(loan) => if b.reference_loan_active {
                bindings.update(loan.owner as int, released(bindings[loan.owner as int], loan.mutable)).update(
                    id,
                    Binding { reference_loan_active: false, ..b },
                )
            } else {
                bindings
            },
            None => bindings,
        };
        release_scope(after, ids.drop_last())
    }
}

/// Two bindings agree but for their availability.
pub open spec fn same_but_availability(a: Binding, b: Binding) -> bool {
    &&& a.name@ == b.name@
    &&& type_eq(a.ty, b.ty)
    &&& a.shared_borrows == b.shared_borrows
    &&& a.mutably_borrowed == b.mutably_borrowed
    &&& a.reference_loan == b.reference_loan
    &&& a.reference_loan_active == b.reference_loan_active
    &&& a.declaration_span == b.declaration_span
    &&& a.last_use == b.last_use
    &&& a.declaration_loop_depth == b.declaration_loop_depth
}

/// What a binding's availability is after two paths rejoin: available when
/// it is on both, moved when it is on both, otherwise possibly moved at the
/// first move found.
pub open spec fn merged_availability(left: Availability, right: Availability) -> Availability {
    match (left, right) {
        (Availability::Available, Availability::Available) => Availability::Available,
        (Availability::Moved(l), Availability::Moved(_)) => Availability::Moved(l),
        (Availability::MaybeMoved(span), _) => Availability::MaybeMoved(span),
        (_, Availability::MaybeMoved(span)) => Availability::MaybeMoved(span),
        (Availability::Moved(span), Availability::Available) => Availability::MaybeMoved(span),
        (Availability::Available, Availability::Moved(span)) => Availability::MaybeMoved(span),
    }
}

/// Merges the availability of one binding from two paths.
pub fn merge_availability(left: Availability, right: Availability) -> (r: Availability)
    ensures
        r == merged_availability(left, right),
{
    match (left, right) {
        (Availability::Available, Availability::Available) => Availability::Available,
        (Availability::Moved(l), Availability::Moved(_)) => Availability::Moved(l),
        (Availability::MaybeMoved(span), _) => Availability::MaybeMoved(span),
        (_, Availability::MaybeMoved(span)) => Availability::MaybeMoved(span),
        (Availability::Moved(span), Availability::Available) => Availability::MaybeMoved(span),
        (Availability::Available, Availability::Moved(span)) => Availability::MaybeMoved(span),
    }
}

/// Law: merging never forgets a move: the merge is `Available` exactly when
/// both sides are, `Moved` exactly when both sides are, and merging a state
/// with itself changes nothing.
pub proof fn lemma_merge_availability(left: Availability, right: Availability)
    ensures
        (merged_availability(left, right) is Available) <==> (left is Available && right is Available),
        (merged_availability(left, right) is Moved) <==> (left is Moved && right is Moved),
        merged_availability(left, left) == left,
{
}

} // verus!

verus! {

impl Default for FlowState {
    /// A state with no bindings and no open scope.
    fn default() -> (r: Self)
        ensures
            r.bindings@.len() == 0,
            r.scopes@.len() == 0,
            r.scope_bindings@.len() == 0,
            r.well_formed(),
    {
        FlowState { bindings: Vec::new(), scopes: Vec::new(), scope_bindings: Vec::new() }
    }
}

impl FlowState {
    /// Opens an empty innermost scope.
    pub fn push_scope(&mut self)
        requires
            old(self).well_formed(),
        ensures
            final(self).well_formed(),
            final(self).bindings@ == old(self).bindings@,
            final(self).scope_views() == old(self).scope_views().push(Seq::empty()),
            final(self).scope_ids() == old(self).scope_ids().push(Seq::empty()),
            final(self).scopes@.len() == old(self).scopes@.len() + 1,
    {
        self.scopes.push(Vec::new());
        self.scope_bindings.push(Vec::new());
        assert(scope_view(self.scopes@.last()@) =~= Seq::empty());
        assert(self.scope_views() =~= old(self).scope_views().push(Seq::empty()));
        assert(self.scope_ids() =~= old(self).scope_ids().push(Seq::empty()));
    }

    /// Ends a borrow: the owner is no longer exclusively borrowed, or has one
    /// shared borrow fewer.
    pub fn release(&mut self, loan: Loan)
        requires
            loan.owner < old(self).bindings@.len(),
        ensures
            final(self).bindings@ == old(self).bindings@.update(
                loan.owner as int,
                released(old(self).bindings@[loan.owner as int], loan.mutable),
            ),
            final(self).scopes == old(self).scopes,
            final(self).scope_bindings == old(self).scope_bindings,
            old(self).well_formed() ==> final(self).well_formed(),
    {
        if loan.mutable {
            self.bindings[loan.owner].mutably_borrowed = false;
        } else {
            let count = self.bindings[loan.owner].shared_borrows;
            self.bindings[loan.owner].shared_borrows = count.saturating_sub(1);
        }
        assert(self.bindings@ =~= old(self).bindings@.update(
            loan.owner as int,
            released(old(self).bindings@[loan.owner as int], loan.mutable),
        ));
        proof {
            if old(self).well_formed() {
                assert forall|q: int| 0 <= q < self.bindings@.len() implies match (#[trigger] self.bindings@[q]).reference_loan {
                    Some(l) => l.owner < q,
                    None => true,
                } by {
                    assert(self.bindings@[q].reference_loan == old(self).bindings@[q].reference_loan);
                }
            }
        }
    }

    /// Closes the innermost scope, ending the live borrows its bindings hold,
    /// the latest declared first.
    pub fn pop_scope(&mut self)
        requires
            old(self).well_formed(),
            old(self).scope_bindings@.len() > 0,
        ensures
            final(self).well_formed(),
            final(self).bindings@ == release_scope(old(self).bindings@, old(self).scope_bindings@.last()@),
            final(self).bindings@.len() == old(self).bindings@.len(),
            final(self).scope_views() == old(self).scope_views().drop_last(),
            final(self).scope_ids() == old(self).scope_ids().drop_last(),
            final(self).scopes@.len() == old(self).scopes@.len() - 1,
    {
        let ghost start = self.bindings@;
        let ids = match self.scope_bindings.pop() {
            Some(ids) => ids,
            None => Vec::new(),
        };
        let ghost all = ids@;
        assert(ids_below(all, start.len()));
        let mut k = ids.len();
        assert(all.take(k as int) =~= all);
        while k > 0
            invariant
                all == ids@,
                k <= all.len(),
                ids_below(all, start.len()),
                self.bindings@.len() == start.len(),
                forall|id: int|
                    0 <= id < self.bindings@.len() ==> match (#[trigger] self.bindings@[id]).reference_loan {
                        Some(loan) => loan.owner < id,
                        None => true,
                    },
                release_scope(start, all) == release_scope(self.bindings@, all.take(k as int)),
                self.scopes == old(self).scopes,
                old(self).well_formed(),
                old(self).bindings@.len() == start.len(),
                self.scope_bindings@ == old(self).scope_bindings@.drop_last(),
            decreases k,
        {
            let id = ids[k - 1];
            assert(all.take(k as int).last() == id);
            assert(all.take(k as int).drop_last() =~= all.take(k - 1));
            if self.bindings[id].reference_loan_active {
                if let Some(loan) = self.bindings[id].reference_loan {
                    self.release(loan);
                    self.bindings[id].reference_loan_active = false;
                }
            }
            k = k - 1;
        }
        self.scopes.pop();
        assert(self.scope_views() =~= old(self).scope_views().drop_last());
        assert(self.scope_ids() =~= old(self).scope_ids().drop_last());
    }

    /// Declares a binding in the innermost scope and returns its id.
    pub fn declare(
        &mut self,
        name: String,
        ty: TypeRef,
        reference_loan: Option<Loan>,
        declaration_span: Span,
        last_use: Option<Span>,
        loop_depth: usize,
    ) -> (id: usize)
        requires
            old(self).well_formed(),
            old(self).scopes@.len() > 0,
            match reference_loan {
                Some(loan) => loan.owner < old(self).bindings@.len(),
                None => true,
            },
        ensures
            final(self).well_formed(),
            id == old(self).bindings@.len(),
            final(self).bindings@.len() == id + 1,
            final(self).bindings@.drop_last() == old(self).bindings@,
            final(self).bindings@.last() == (Binding {
                name: final(self).bindings@.last().name,
                ty,
                availability: Availability::Available,
                shared_borrows: 0,
                mutably_borrowed: false,
                reference_loan,
                reference_loan_active: reference_loan is Some,
                declaration_span,
                last_use,
                declaration_loop_depth: loop_depth,
            }),
            final(self).bindings@.last().name@ == name@,
            final(self).scope_views() == old(self).scope_views().update(
                old(self).scope_views().len() - 1,
                old(self).scope_views().last().push((name@, id)),
            ),
            final(self).scope_ids() == old(self).scope_ids().update(
                old(self).scope_ids().len() - 1,
                old(self).scope_ids().last().push(id),
            ),
    {
        let id = self.bindings.len();
        let key = name.clone();
        self.bindings.push(Binding {
            name,
            ty,
            availability: Availability::Available,
            shared_borrows: 0,
            mutably_borrowed: false,
            reference_loan,
            reference_loan_active: reference_loan.is_some(),
            declaration_span,
            last_use,
            declaration_loop_depth: loop_depth,
        });
        let last = self.scopes.len() - 1;
        self.scopes[last].push((key, id));
        self.scope_bindings[last].push(id);
        proof {
            let n = self.bindings@.len();
            assert forall|s: int| 0 <= s < self.scopes@.len() implies scope_below(
                #[trigger] self.scopes@[s]@,
                n,
            ) by {
                if s != last {
                    assert(scope_below(old(self).scopes@[s]@, id as nat));
                } else {
                    assert(scope_below(old(self).scopes@[s]@, id as nat));
                }
            }
            assert forall|s: int| 0 <= s < self.scope_bindings@.len() implies ids_below(
                #[trigger] self.scope_bindings@[s]@,
                n,
            ) by {
                assert(ids_below(old(self).scope_bindings@[s]@, id as nat));
            }
            assert(self.bindings@.drop_last() =~= old(self).bindings@);
            assert(scope_view(self.scopes@[last as int]@) =~= old(self).scope_views().last().push((key@, id)));
            assert(self.scope_views() =~= old(self).scope_views().update(
                old(self).scope_views().len() - 1,
                old(self).scope_views().last().push((key@, id)),
            ));
            assert(self.scope_ids() =~= old(self).scope_ids().update(
                old(self).scope_ids().len() - 1,
                old(self).scope_ids().last().push(id),
            ));
        }
        id
    }

    /// The id `name` refers to: the latest declaration of it in the
    /// innermost scope that declares it.
    pub fn lookup(&self, name: &str) -> (r: Option<usize>)
        ensures
            r == scopes_lookup(self.scope_views(), name@),
    {
        let ghost views = self.scope_views();
        let mut s = self.scopes.len();
        assert(views.take(s as int) =~= views);
        while s > 0
            invariant
                views == self.scope_views(),
                s <= views.len(),
                scopes_lookup(views, name@) == scopes_lookup(views.take(s as int), name@),
            decreases s,
        {
            assert(views.take(s as int).last() == views[s - 1]);
            assert(views.take(s as int).drop_last() =~= views.take(s - 1));
            let scope = &self.scopes[s - 1];
            let ghost entries = views[s - 1];
            let mut k = scope.len();
            assert(entries.take(k as int) =~= entries);
            while k > 0
                invariant
                    views == self.scope_views(),
                    0 < s <= views.len(),
                    entries == views[s - 1],
                    entries == scope_view(scope@),
                    scope@ == self.scopes@[s - 1]@,
                    scopes_lookup(views, name@) == scopes_lookup(views.take(s as int), name@),
                    views.take(s as int).last() == entries,
                    views.take(s as int).drop_last() == views.take(s - 1),
                    k <= entries.len(),
                    scope_lookup(entries, name@) == scope_lookup(entries.take(k as int), name@),
                decreases k,
            {
                assert(entries.take(k as int).last() == entries[k - 1]);
                assert(entries.take(k as int).drop_last() =~= entries.take(k - 1));
                if str_eq(scope[k - 1].0.as_str(), name) {
                    return Some(scope[k - 1].1);
                }
                k = k - 1;
            }
            s = s - 1;
        }
        None
    }
}

} // verus!

verus! {

/// The binding `id` borrows from, following borrows until a binding that
/// holds none.
pub open spec fn root_of(bindings: Seq<Binding>, id: int) -> int
    decreases id,
{
    if 0 <= id < bindings.len() {
        match bindings[id].reference_loan {
            Some(loan) => if loan.owner < id {
                root_of(bindings, loan.owner as int)
            } else {
                id
            },
            None => id,
        }
    } else {
        id
    }
}

/// Finds the binding a reference ultimately borrows from.
pub fn root_origin(state: &FlowState, id: usize) -> (r: usize)
    requires
        state.well_formed(),
        id < state.bindings@.len(),
    ensures
        r as int == root_of(state.bindings@, id as int),
        r < state.bindings@.len(),
        state.bindings@[r as int].reference_loan is None,
{
    let mut current = id;
    loop
        invariant
            state.well_formed(),
            current < state.bindings@.len(),
            root_of(state.bindings@, id as int) == root_of(state.bindings@, current as int),
        decreases current,
    {
        match state.bindings[current].reference_loan {
            Some(loan) => {
                assert(loan.owner < current);
                current = loan.owner;
            },
            None => {
                return current;
            },
        }
    }
}

/// A binding equal to `b` but for a structurally equal type.
fn copy_binding(b: &Binding) -> (r: Binding)
    ensures
        same_but_availability(r, *b),
        r.availability == b.availability,
{
    Binding {
        name: b.name.clone(),
        ty: b.ty.copy(),
        availability: b.availability,
        shared_borrows: b.shared_borrows,
        mutably_borrowed: b.mutably_borrowed,
        reference_loan: b.reference_loan,
        reference_loan_active: b.reference_loan_active,
        declaration_span: b.declaration_span,
        last_use: b.last_use,
        declaration_loop_depth: b.declaration_loop_depth,
    }
}

/// `r` is a copy of `s`: the same bindings up to structurally equal types,
/// and the same scopes.
pub open spec fn copy_of(r: FlowState, s: FlowState) -> bool {
    &&& r.bindings@.len() == s.bindings@.len()
    &&& forall|id: int|
        0 <= id < s.bindings@.len() ==> same_but_availability(#[trigger] r.bindings@[id], s.bindings@[id])
            && r.bindings@[id].availability == s.bindings@[id].availability
    &&& r.scope_views() == s.scope_views()
    &&& r.scope_ids() == s.scope_ids()
}

impl FlowState {
    /// A copy of this state.
    pub fn copy(&self) -> (r: FlowState)
        ensures
            copy_of(r, *self),
            self.well_formed() ==> r.well_formed(),
    {
        let mut bindings: Vec<Binding> = Vec::new();
        let mut i: usize = 0;
        while i < self.bindings.len()
            invariant
                i <= self.bindings@.len(),
                bindings@.len() == i,
                forall|id: int|
                    0 <= id < i ==> same_but_availability(#[trigger] bindings@[id], self.bindings@[id])
                        && bindings@[id].availability == self.bindings@[id].availability,
            decreases self.bindings@.len() - i,
        {
            bindings.push(copy_binding(&self.bindings[i]));
            i = i + 1;
        }
        let mut scopes: Vec<Vec<(String, usize)>> = Vec::new();
        let mut s: usize = 0;
        while s < self.scopes.len()
            invariant
                s <= self.scopes@.len(),
                scopes@.len() == s,
                forall|t: int| 0 <= t < s ==> #[trigger] scope_view(scopes@[t]@) == scope_view(self.scopes@[t]@),
                forall|t: int| 0 <= t < s ==> #[trigger] scopes@[t]@.len() == self.scopes@[t]@.len(),
            decreases self.scopes@.len() - s,
        {
            let mut scope: Vec<(String, usize)> = Vec::new();
            let mut k: usize = 0;
            while k < self.scopes[s].len()
                invariant
                    s < self.scopes@.len(),
                    k <= self.scopes@[s as int]@.len(),
                    scope_view(scope@) == scope_view(self.scopes@[s as int]@).take(k as int),
                    scope@.len() == k,
                decreases self.scopes@[s as int]@.len() - k,
            {
                scope.push((self.scopes[s][k].0.clone(), self.scopes[s][k].1));
                assert(scope_view(scope@) =~= scope_view(self.scopes@[s as int]@).take(k + 1));
                k = k + 1;
            }
            assert(scope_view(self.scopes@[s as int]@).take(k as int) =~= scope_view(self.scopes@[s as int]@));
            scopes.push(scope);
            s = s + 1;
        }
        let mut scope_bindings: Vec<Vec<usize>> = Vec::new();
        let mut t: usize = 0;
        while t < self.scope_bindings.len()
            invariant
                t <= self.scope_bindings@.len(),
                scope_bindings@.len() == t,
                forall|q: int| 0 <= q < t ==> #[trigger] scope_bindings@[q]@ == self.scope_bindings@[q]@,
            decreases self.scope_bindings@.len() - t,
        {
            let mut ids: Vec<usize> = Vec::new();
            let mut k: usize = 0;
            while k < self.scope_bindings[t].len()
                invariant
                    t < self.scope_bindings@.len(),
                    k <= self.scope_bindings@[t as int]@.len(),
                    ids@ == self.scope_bindings@[t as int]@.take(k as int),
                decreases self.scope_bindings@[t as int]@.len() - k,
            {
                ids.push(self.scope_bindings[t][k]);
                assert(ids@ =~= self.scope_bindings@[t as int]@.take(k + 1));
                k = k + 1;
            }
            assert(self.scope_bindings@[t as int]@.take(k as int) =~= self.scope_bindings@[t as int]@);
            scope_bindings.push(ids);
            t = t + 1;
        }
        let r = FlowState { bindings, scopes, scope_bindings };
        assert(r.scope_views() =~= self.scope_views());
        assert(r.scope_ids() =~= self.scope_ids());
        proof {
            if self.well_formed() {
                assert forall|q: int| 0 <= q < r.scopes@.len() implies scope_below(
                    #[trigger] r.scopes@[q]@,
                    r.bindings@.len(),
                ) by {
                    assert(scope_below(self.scopes@[q]@, self.bindings@.len()));
                    assert forall|k: int| 0 <= k < r.scopes@[q]@.len() implies (#[trigger] r.scopes@[q]@[k]).1
                        < r.bindings@.len() by {
                        assert(scope_view(r.scopes@[q]@)[k] == scope_view(self.scopes@[q]@)[k]);
                    }
                }
                assert forall|q: int| 0 <= q < r.scope_bindings@.len() implies ids_below(
                    #[trigger] r.scope_bindings@[q]@,
                    r.bindings@.len(),
                ) by {
                    assert(ids_below(self.scope_bindings@[q]@, self.bindings@.len()));
                }
                assert forall|id: int| 0 <= id < r.bindings@.len() implies match (#[trigger] r.bindings@[id]).reference_loan {
                    Some(loan) => loan.owner < id,
                    None => true,
                } by {
                    assert(same_but_availability(r.bindings@[id], self.bindings@[id]));
                }
            }
        }
        r
    }
}

} // verus!

verus! {

/// Whether `id` is declared in one of the open scopes `ids`.
pub open spec fn in_scope(ids: Seq<Seq<usize>>, id: int) -> bool {
    exists|s: int, k: int| 0 <= s < ids.len() && 0 <= k < ids[s].len() && ids[s][k] == id
}

/// Whether `id` is among the first `k` ids of scope `s`, or in an earlier
/// scope.
pub open spec fn in_scope_before(ids: Seq<Seq<usize>>, s: int, k: int, id: int) -> bool {
    exists|t: int, q: int|
        0 <= t < ids.len() && 0 <= q < ids[t].len() && (t < s || (t == s && q < k)) && ids[t][q] == id
}

/// Whether every id in the open scopes `ids` is below `n`.
pub open spec fn open_ids_below(ids: Seq<Seq<usize>>, n: nat) -> bool {
    forall|s: int, k: int| 0 <= s < ids.len() && 0 <= k < ids[s].len() ==> (#[trigger] ids[s][k]) < n
}

/// The ids in the open scopes of a well-formed state are below any count of
/// at least its bindings.
pub proof fn lemma_open_ids_below(state: FlowState, n: nat)
    requires
        state.well_formed(),
        n >= state.bindings@.len(),
    ensures
        open_ids_below(state.scope_ids(), n),
{
    assert forall|s: int, k: int|
        0 <= s < state.scope_ids().len() && 0 <= k < state.scope_ids()[s].len() implies (#[trigger] state.scope_ids()[s][k]) < n by {
        assert(ids_below(state.scope_bindings@[s]@, state.bindings@.len()));
    }
}

/// `r` is `baseline` with the availability of every binding in its open
/// scopes merged from `left` and `right`.
pub open spec fn merged_state(baseline: FlowState, left: FlowState, right: FlowState, r: FlowState) -> bool {
    &&& r.bindings@.len() == baseline.bindings@.len()
    &&& forall|id: int|
        0 <= id < baseline.bindings@.len() ==> same_but_availability(
            #[trigger] r.bindings@[id],
            baseline.bindings@[id],
        ) && r.bindings@[id].availability == if in_scope(baseline.scope_ids(), id) {
            merged_availability(left.bindings@[id].availability, right.bindings@[id].availability)
        } else {
            baseline.bindings@[id].availability
        }
    &&& r.scope_views() == baseline.scope_views()
    &&& r.scope_ids() == baseline.scope_ids()
}

/// Merges the states at the end of two paths that started from `baseline`:
/// every binding still in scope keeps a move that happened on either path.
pub fn merge_states(baseline: &FlowState, left: &FlowState, right: &FlowState) -> (r: FlowState)
    requires
        baseline.well_formed(),
        open_ids_below(baseline.scope_ids(), left.bindings@.len()),
        open_ids_below(baseline.scope_ids(), right.bindings@.len()),
    ensures
        merged_state(*baseline, *left, *right, r),
        r.well_formed(),
{
    let mut merged = baseline.copy();
    let ghost ids = baseline.scope_ids();
    let ghost n = baseline.bindings@.len();
    let mut s: usize = 0;
    while s < baseline.scope_bindings.len()
        invariant
            baseline.well_formed(),
            ids == baseline.scope_ids(),
            n == baseline.bindings@.len(),
            open_ids_below(ids, left.bindings@.len()),
            open_ids_below(ids, right.bindings@.len()),
            s <= ids.len(),
            merged.bindings@.len() == n,
            merged.well_formed(),
            merged.scope_views() == baseline.scope_views(),
            merged.scope_ids() == ids,
            forall|id: int|
                0 <= id < n ==> same_but_availability(#[trigger] merged.bindings@[id], baseline.bindings@[id])
                    && merged.bindings@[id].availability == if in_scope_before(ids, s as int, 0, id) {
                    merged_availability(left.bindings@[id].availability, right.bindings@[id].availability)
                } else {
                    baseline.bindings@[id].availability
                },
        decreases ids.len() - s,
    {
        let mut k: usize = 0;
        while k < baseline.scope_bindings[s].len()
            invariant
                baseline.well_formed(),
                ids == baseline.scope_ids(),
                n == baseline.bindings@.len(),
                open_ids_below(ids, left.bindings@.len()),
                open_ids_below(ids, right.bindings@.len()),
                s < ids.len(),
                k <= ids[s as int].len(),
                merged.bindings@.len() == n,
                merged.well_formed(),
                merged.scope_views() == baseline.scope_views(),
                merged.scope_ids() == ids,
                forall|id: int|
                    0 <= id < n ==> same_but_availability(#[trigger] merged.bindings@[id], baseline.bindings@[id])
                        && merged.bindings@[id].availability == if in_scope_before(ids, s as int, k as int, id) {
                        merged_availability(left.bindings@[id].availability, right.bindings@[id].availability)
                    } else {
                        baseline.bindings@[id].availability
                    },
            decreases ids[s as int].len() - k,
        {
            let id = baseline.scope_bindings[s][k];
            assert(ids_below(baseline.scope_bindings@[s as int]@, n));
            assert(ids[s as int][k as int] == id);
            let availability = merge_availability(left.bindings[id].availability, right.bindings[id].availability);
            let ghost before = merged.bindings@;
            merged.bindings[id].availability = availability;
            proof {
                assert forall|other: int| 0 <= other < n implies same_but_availability(
                    #[trigger] merged.bindings@[other],
                    baseline.bindings@[other],
                ) && merged.bindings@[other].availability == if in_scope_before(ids, s as int, k + 1, other) {
                    merged_availability(left.bindings@[other].availability, right.bindings@[other].availability)
                } else {
                    baseline.bindings@[other].availability
                } by {
                    if in_scope_before(ids, s as int, k as int, other) {
                        let (t, q) = choose|t: int, q: int|
                            0 <= t < ids.len() && 0 <= q < ids[t].len() && (t < s || (t == s && q < k))
                                && ids[t][q] == other;
                        assert(in_scope_before(ids, s as int, k + 1, other));
                    }
                    if other == id {
                        assert(in_scope_before(ids, s as int, k + 1, other));
                    } else if in_scope_before(ids, s as int, k + 1, other) {
                        let (t, q) = choose|t: int, q: int|
                            0 <= t < ids.len() && 0 <= q < ids[t].len() && (t < s || (t == s && q < k + 1))
                                && ids[t][q] == other;
                        assert(in_scope_before(ids, s as int, k as int, other));
                    }
                }
                assert forall|q: int| 0 <= q < merged.bindings@.len() implies match (#[trigger] merged.bindings@[q]).reference_loan {
                    Some(loan) => loan.owner < q,
                    None => true,
                } by {
                    assert(same_but_availability(merged.bindings@[q], baseline.bindings@[q]));
                    assert(match baseline.bindings@[q].reference_loan {
                        Some(loan) => loan.owner < q,
                        None => true,
                    });
                }
            }
            k = k + 1;
        }
        proof {
            assert forall|id: int| 0 <= id < n implies in_scope_before(ids, s as int, ids[s as int].len() as int, id)
                == in_scope_before(ids, s + 1, 0, id) by {
                if in_scope_before(ids, s + 1, 0, id) {
                    let (t, q) = choose|t: int, q: int|
                        0 <= t < ids.len() && 0 <= q < ids[t].len() && (t < s + 1 || (t == s + 1 && q < 0))
                            && ids[t][q] == id;
                    assert(in_scope_before(ids, s as int, ids[s as int].len() as int, id));
                }
            }
        }
        s = s + 1;
    }
    proof {
        assert forall|id: int| 0 <= id < n implies in_scope_before(ids, s as int, 0, id) == in_scope(ids, id) by {
            if in_scope(ids, id) {
                let (t, q) = choose|t: int, q: int| 0 <= t < ids.len() && 0 <= q < ids[t].len() && ids[t][q] == id;
                assert(in_scope_before(ids, s as int, 0, id));
            }
        }
    }
    merged
}

} // verus!

verus! {

/// The availability of `id` once at least two path states are merged in
/// order against a baseline whose open scopes are `ids`.
pub open spec fn folded_availability(
    baseline: FlowState,
    states: Seq<FlowState>,
    id: int,
) -> Availability
    decreases states.len(),
{
    if states.len() <= 1 {
        states[0].bindings@[id].availability
    } else if in_scope(baseline.scope_ids(), id) {
        merged_availability(
            folded_availability(baseline, states.drop_last(), id),
            states.last().bindings@[id].availability,
        )
    } else {
        baseline.bindings@[id].availability
    }
}

/// Merges the states at the end of several paths that started from
/// `baseline`, in order: no path leaves a copy of `baseline`, and one path
/// leaves a copy of its own state.
pub fn merge_many_states(baseline: &FlowState, states: &Vec<FlowState>) -> (r: FlowState)
    requires
        baseline.well_formed(),
        forall|i: int| 0 <= i < states@.len() ==> open_ids_below(baseline.scope_ids(), (#[trigger] states@[i]).bindings@.len()),
    ensures
        r.well_formed() <== forall|i: int| 0 <= i < states@.len() ==> (#[trigger] states@[i]).well_formed(),
        states@.len() == 0 ==> copy_of(r, *baseline),
        states@.len() == 1 ==> copy_of(r, states@[0]),
        states@.len() >= 2 ==> {
            &&& r.bindings@.len() == baseline.bindings@.len()
            &&& forall|id: int|
                0 <= id < baseline.bindings@.len() ==> same_but_availability(
                    #[trigger] r.bindings@[id],
                    baseline.bindings@[id],
                ) && r.bindings@[id].availability == folded_availability(*baseline, states@, id)
            &&& r.scope_views() == baseline.scope_views()
            &&& r.scope_ids() == baseline.scope_ids()
        },
{
    if states.len() == 0 {
        return baseline.copy();
    }
    let mut merged = states[0].copy();
    let ghost all = states@;
    let ghost n = baseline.bindings@.len();
    let mut i: usize = 1;
    while i < states.len()
        invariant
            all == states@,
            baseline.well_formed(),
            n == baseline.bindings@.len(),
            forall|q: int| 0 <= q < all.len() ==> open_ids_below(baseline.scope_ids(), (#[trigger] all[q]).bindings@.len()),
            1 <= i <= all.len(),
            open_ids_below(baseline.scope_ids(), merged.bindings@.len()),
            i == 1 ==> copy_of(merged, all[0]),
            all[0].well_formed() ==> merged.well_formed(),
            i >= 2 ==> merged.well_formed(),
            i >= 2 ==> {
                &&& merged.bindings@.len() == n
                &&& forall|id: int|
                    0 <= id < n ==> same_but_availability(#[trigger] merged.bindings@[id], baseline.bindings@[id])
                        && merged.bindings@[id].availability == folded_availability(*baseline, all.take(i as int), id)
                &&& merged.scope_views() == baseline.scope_views()
                &&& merged.scope_ids() == baseline.scope_ids()
            },
        decreases all.len() - i,
    {
        let ghost previous = merged;
        merged = merge_states(baseline, &merged, &states[i]);
        proof {
            assert(all.take(i + 1).drop_last() =~= all.take(i as int));
            assert(all.take(i + 1).last() == all[i as int]);
            assert forall|id: int| 0 <= id < n implies same_but_availability(
                #[trigger] merged.bindings@[id],
                baseline.bindings@[id],
            ) && merged.bindings@[id].availability == folded_availability(*baseline, all.take(i + 1), id) by {
                assert(merged_state(*baseline, previous, all[i as int], merged));
                assert(same_but_availability(merged.bindings@[id], baseline.bindings@[id]));
                assert(folded_availability(*baseline, all.take(i + 1), id) == if in_scope(baseline.scope_ids(), id) {
                    merged_availability(
                        folded_availability(*baseline, all.take(i as int), id),
                        all[i as int].bindings@[id].availability,
                    )
                } else {
                    baseline.bindings@[id].availability
                });
                if i == 1 && in_scope(baseline.scope_ids(), id) {
                    let (t, q) = choose|t: int, q: int|
                        0 <= t < baseline.scope_ids().len() && 0 <= q < baseline.scope_ids()[t].len()
                            && baseline.scope_ids()[t][q] == id;
                    assert(open_ids_below(baseline.scope_ids(), all[0].bindings@.len()));
                    assert(baseline.scope_ids()[t][q] < all[0].bindings@.len());
                    assert(all.take(1).len() == 1);
                    assert(all.take(1)[0] == all[0]);
                    assert(previous.bindings@[id].availability == all[0].bindings@[id].availability);
                }
            }
        }
        i = i + 1;
    }
    proof {
        if all.len() >= 2 {
            assert(all.take(all.len() as int) =~= all);
        }
    }
    merged
}

} // verus!

verus! {

/// The binding a plain name, possibly parenthesized, refers to.
pub open spec fn named_binding_of(e: Expression, scopes: Seq<Seq<(Seq<char>, usize)>>) -> Option<usize>
    decreases e,
{
    match e.kind {
        ExpressionKind::Name(path) => if path.segments@.len() == 1 {
            scopes_lookup(scopes, path.segments@[0]@)
        } else {
            None
        },
        ExpressionKind::Parenthesized(inner) => named_binding_of(*inner, scopes),
        _ => None,
    }
}

/// Finds the binding an expression names directly.
pub fn named_binding(expression: &Expression, state: &FlowState) -> (r: Option<usize>)
    ensures
        r == named_binding_of(*expression, state.scope_views()),
    decreases expression,
{
    match &expression.kind {
        ExpressionKind::Name(path) => {
            if path.segments.len() == 1 {
                state.lookup(path.segments[0].as_str())
            } else {
                None
            }
        },
        ExpressionKind::Parenthesized(inner) => named_binding(inner, state),
        _ => None,
    }
}

/// The receiver of a method call `receiver.name(...)`.
pub fn call_receiver(expression: &Expression) -> (r: Option<&Expression>)
    ensures
        match r {
            Some(receiver) => expression.kind matches ExpressionKind::Call { callee, .. }
                && callee.kind matches ExpressionKind::Field { receiver: inner, .. } && *receiver
                == *inner,
            None => !(expression.kind matches ExpressionKind::Call { callee, .. }
                && callee.kind is Field),
        },
{
    match &expression.kind {
        ExpressionKind::Call { callee, .. } => match &callee.kind {
            ExpressionKind::Field { receiver, .. } => Some(&**receiver),
            _ => None,
        },
        _ => None,
    }
}

/// Whether an operator assigns the result of an arithmetic operation.
pub fn is_compound_assignment(operator: BinaryOperator) -> (r: bool)
    ensures
        r == (operator == BinaryOperator::AddAssign || operator == BinaryOperator::SubtractAssign
            || operator == BinaryOperator::MultiplyAssign || operator == BinaryOperator::DivideAssign
            || operator == BinaryOperator::RemainderAssign),
{
    match operator {
        BinaryOperator::AddAssign | BinaryOperator::SubtractAssign | BinaryOperator::MultiplyAssign
        | BinaryOperator::DivideAssign | BinaryOperator::RemainderAssign => true,
        _ => false,
    }
}

/// Whether values of a type are copied rather than moved: the scalar
/// primitives and the dynamic JSON value `rust::stainless_runtime::Var`.
pub open spec fn copyable(t: TypeRef) -> bool {
    match t {
        TypeRef::Bool | TypeRef::Char | TypeRef::I8 | TypeRef::I16 | TypeRef::I32 | TypeRef::I64
        | TypeRef::I128 | TypeRef::Isize | TypeRef::U8 | TypeRef::U16 | TypeRef::U32
        | TypeRef::U64 | TypeRef::U128 | TypeRef::Usize | TypeRef::F32 | TypeRef::F64 => true,
        TypeRef::Native { path, arguments } => path@ == "rust::stainless_runtime::Var"@
            && arguments@.len() == 0,
        _ => false,
    }
}

/// Decides [`copyable`].
pub fn is_copyable(ty: &TypeRef) -> (r: bool)
    ensures
        r == copyable(*ty),
{
    match ty {
        TypeRef::Bool | TypeRef::Char | TypeRef::I8 | TypeRef::I16 | TypeRef::I32 | TypeRef::I64
        | TypeRef::I128 | TypeRef::Isize | TypeRef::U8 | TypeRef::U16 | TypeRef::U32
        | TypeRef::U64 | TypeRef::U128 | TypeRef::Usize | TypeRef::F32 | TypeRef::F64 => true,
        TypeRef::Native { path, arguments } => str_eq(path.as_str(), "rust::stainless_runtime::Var")
            && arguments.len() == 0,
        _ => false,
    }
}

/// Law: a name declared in the innermost scope is what it refers to next.
pub proof fn lemma_declared_name_found(scopes: Seq<Seq<(Seq<char>, usize)>>, name: Seq<char>, id: usize)
    requires
        scopes.len() > 0,
    ensures
        scopes_lookup(scopes.update(scopes.len() - 1, scopes.last().push((name, id))), name) == Some(id),
{
    let updated = scopes.update(scopes.len() - 1, scopes.last().push((name, id)));
    assert(updated.last() == scopes.last().push((name, id)));
}

/// Law: closing a scope opened after `scopes` restores what every name
/// refers to, and ends no borrow when the scope declared nothing.
pub proof fn lemma_push_pop_scope(
    scopes: Seq<Seq<(Seq<char>, usize)>>,
    inner: Seq<(Seq<char>, usize)>,
    bindings: Seq<Binding>,
    name: Seq<char>,
)
    ensures
        scopes_lookup(scopes.push(inner).drop_last(), name) == scopes_lookup(scopes, name),
        release_scope(bindings, Seq::empty()) == bindings,
{
    assert(scopes.push(inner).drop_last() =~= scopes);
}

/// Law: a declaration in an inner scope shadows outer ones until that
/// scope is closed.
pub proof fn lemma_inner_scope_shadows(
    scopes: Seq<Seq<(Seq<char>, usize)>>,
    name: Seq<char>,
    id: usize,
)
    ensures
        scopes_lookup(scopes.push(seq![(name, id)]), name) == Some(id),
        scopes_lookup(scopes.push(seq![(name, id)]).drop_last(), name) == scopes_lookup(scopes, name),
{
    let pushed = scopes.push(seq![(name, id)]);
    assert(pushed.last() == seq![(name, id)]);
    assert(seq![(name, id)].last() == (name, id));
    assert(pushed.drop_last() =~= scopes);
}

} // verus!

verus! {

/// How an expression uses a binding.
#[derive(Clone, Copy, Debug, PartialEq, Eq, Structural)]
pub enum Usage {
    /// Reads the value.
    Read,
    /// Writes or consumes the value.
    Mutate,
    /// Takes a shared borrow.
    BorrowShared,
    /// Takes an exclusive borrow.
    BorrowMutable,
}

/// Whether `usage` of `b` conflicts with the borrows of it that are live:
/// reads and shared borrows conflict with an exclusive borrow, writes and
/// exclusive borrows with any borrow.
pub open spec fn conflicts(b: Binding, usage: Usage) -> bool {
    match usage {
        Usage::Read | Usage::BorrowShared => b.mutably_borrowed,
        Usage::Mutate | Usage::BorrowMutable => b.mutably_borrowed || b.shared_borrows != 0,
    }
}

/// Law: an exclusive use (a write or a mutable borrow) conflicts with every
/// live borrow, shared or exclusive; a read or a shared borrow conflicts
/// only with a live exclusive borrow; a binding with no live borrow
/// conflicts with nothing; and whatever conflicts with a shared use
/// conflicts with an exclusive one.
pub proof fn lemma_borrow_exclusion(b: Binding, usage: Usage)
    ensures
        b.shared_borrows != 0 ==> conflicts(b, Usage::BorrowMutable) && conflicts(b, Usage::Mutate),
        b.mutably_borrowed ==> conflicts(b, usage),
        !b.mutably_borrowed && b.shared_borrows == 0 ==> !conflicts(b, usage),
        !b.mutably_borrowed ==> !conflicts(b, Usage::Read) && !conflicts(b, Usage::BorrowShared),
        conflicts(b, Usage::Read) || conflicts(b, Usage::BorrowShared) ==> conflicts(b, Usage::BorrowMutable)
            && conflicts(b, Usage::Mutate),
{
}

/// The verb naming a usage in diagnostics.
pub open spec fn usage_verb(usage: Usage) -> Seq<char> {
    match usage {
        Usage::Read => "read"@,
        Usage::Mutate => "mutate"@,
        Usage::BorrowShared => "borrow"@,
        Usage::BorrowMutable => "mutably borrow"@,
    }
}

/// The borrow bookkeeping of ownership validation for one function: the
/// flow state, the diagnostics reported so far, and the context the checks
/// depend on.
pub struct Analyzer {
    /// Bindings and scopes.
    pub state: FlowState,
    /// Diagnostics in the order they were reported.
    pub diagnostics: Vec<crate::Diagnostic>,
    /// The code and range of every diagnostic reported, so that each is
    /// reported once.
    pub emitted: Vec<(&'static str, Span)>,
    /// The parameter a returned reference must borrow from, when the
    /// function returns a reference.
    pub return_borrow: Option<usize>,
    /// Whether the function being checked returns a reference.
    pub returns_reference: bool,
    /// Loop nesting depth at the current point.
    pub loop_depth: usize,
    /// The enclosing loops, innermost last.
    pub loops: Vec<LoopContext>,
    /// The enclosing `try` statements, innermost last.
    pub exceptions: Vec<ExceptionContext>,
}

/// The states with which control leaves a loop.
pub struct LoopContext {
    /// Number of scopes open outside the loop body.
    pub scope_depth: usize,
    /// States at each `break`.
    pub break_states: Vec<FlowState>,
    /// States at each `continue`.
    pub continue_states: Vec<FlowState>,
}

/// The states with which control may reach the handlers of a `try`.
pub struct ExceptionContext {
    /// Number of scopes open outside the protected body.
    pub scope_depth: usize,
    /// States at each point that may throw.
    pub states: Vec<FlowState>,
}

/// Whether a diagnostic with this code and range was reported.
pub open spec fn was_emitted(emitted: Seq<(&'static str, Span)>, code: &'static str, span: Span) -> bool {
    exists|i: int| 0 <= i < emitted.len() && (#[trigger] emitted[i]).0@ == code@ && emitted[i].1 == span
}

/// `after` is `before` once an ownership diagnostic is reported: unchanged
/// when one with the same code and range was, otherwise with it appended.
pub open spec fn reported(
    before: Analyzer,
    after: Analyzer,
    code: &'static str,
    message: Seq<char>,
    span: Span,
) -> bool {
    if was_emitted(before.emitted@, code, span) {
        &&& after.diagnostics@ == before.diagnostics@
        &&& after.emitted@ == before.emitted@
    } else {
        &&& after.emitted@ == before.emitted@.push((code, span))
        &&& after.diagnostics@.len() == before.diagnostics@.len() + 1
        &&& after.diagnostics@.drop_last() == before.diagnostics@
        &&& after.diagnostics@.last().code == code
        &&& after.diagnostics@.last().phase == crate::DiagnosticPhase::Ownership
        &&& after.diagnostics@.last().message@ == message
        &&& after.diagnostics@.last().span == span
    }
}

/// Diagnostics are only ever added, and only ownership diagnostics.
pub open spec fn grew(before: Analyzer, after: Analyzer) -> bool {
    &&& before.diagnostics@.is_prefix_of(after.diagnostics@)
    &&& before.emitted@.is_prefix_of(after.emitted@)
    &&& forall|i: int|
        before.diagnostics@.len() <= i < after.diagnostics@.len() ==> (#[trigger] after.diagnostics@[i]).phase
            == crate::DiagnosticPhase::Ownership && ownership_code(after.diagnostics@[i].code)
    &&& reported_once(before) ==> reported_once(after)
}

/// Whether `code` is one of the ownership diagnostic codes: use of a moved
/// value, use of a possibly moved value, a conflicting borrow, a local
/// reference without a stable source, and an invalid returned reference.
pub open spec fn ownership_code(code: &'static str) -> bool {
    ||| code@ == "OWN001"@
    ||| code@ == "OWN002"@
    ||| code@ == "OWN003"@
    ||| code@ == "OWN004"@
    ||| code@ == "OWN005"@
}

/// Each reported diagnostic is recorded by its code and range, in order,
/// and no two share both.
pub open spec fn reported_once(a: Analyzer) -> bool {
    &&& a.emitted@.len() == a.diagnostics@.len()
    &&& forall|i: int|
        0 <= i < a.emitted@.len() ==> (#[trigger] a.emitted@[i]).0@ == a.diagnostics@[i].code@
            && a.emitted@[i].1 == a.diagnostics@[i].span
    &&& forall|i: int, j: int|
        0 <= i < j < a.emitted@.len() ==> !((#[trigger] a.emitted@[i]).0@ == (#[trigger] a.emitted@[j]).0@
            && a.emitted@[i].1 == a.emitted@[j].1)
}

/// `after` reports nothing beyond `before`.
pub open spec fn silent(before: Analyzer, after: Analyzer) -> bool {
    &&& after.diagnostics@ == before.diagnostics@
    &&& after.emitted@ == before.emitted@
}

/// The context of two analyzer values is the same.
pub open spec fn same_context(before: Analyzer, after: Analyzer) -> bool {
    &&& after.return_borrow == before.return_borrow
    &&& after.returns_reference == before.returns_reference
    &&& after.loop_depth == before.loop_depth
    &&& after.loops == before.loops
    &&& after.exceptions == before.exceptions
}

/// What checking a use of binding `b` at `span` reports: a moved value
/// (`OWN001`) or a possibly moved one (`OWN002`) with the byte it was moved
/// at, else a use that conflicts with a live borrow (`OWN003`), else nothing.
pub open spec fn usage_checked(before: Analyzer, after: Analyzer, b: Binding, usage: Usage, span: Span) -> bool {
    match b.availability {
        Availability::Moved(moved) => reported(
            before,
            after,
            "OWN001",
            "use of moved binding `"@ + b.name@ + "`; it was moved at byte "@ + crate::text::decimal(
                moved.start as nat,
            ),
            span,
        ),
        Availability::MaybeMoved(moved) => reported(
            before,
            after,
            "OWN002",
            "binding `"@ + b.name@ + "` may have been moved on another control-flow path at byte "@
                + crate::text::decimal(moved.start as nat),
            span,
        ),
        Availability::Available => if conflicts(b, usage) {
            reported(
                before,
                after,
                "OWN003",
                "cannot "@ + usage_verb(usage) + " `"@ + b.name@ + "` while it has an active conflicting borrow"@,
                span,
            )
        } else {
            silent(before, after)
        },
    }
}

/// `after` holds the flow state of `before`.
pub open spec fn same_state(before: Analyzer, after: Analyzer) -> bool {
    &&& after.state.bindings@ == before.state.bindings@
    &&& after.state.scopes == before.state.scopes
    &&& after.state.scope_bindings == before.state.scope_bindings
}

impl Analyzer {
    /// Reports an ownership diagnostic once per code and range.
    pub fn push(&mut self, code: &'static str, message: String, span: Span)
        requires
            ownership_code(code),
        ensures
            grew(*old(self), *final(self)),
            reported(*old(self), *final(self), code, message@, span),
            same_state(*old(self), *final(self)),
            same_context(*old(self), *final(self)),
    {
        let mut i: usize = 0;
        while i < self.emitted.len()
            invariant
                i <= self.emitted@.len(),
                forall|q: int|
                    0 <= q < i ==> !((#[trigger] self.emitted@[q]).0@ == code@ && self.emitted@[q].1 == span),
            decreases self.emitted@.len() - i,
        {
            if str_eq(self.emitted[i].0, code) && self.emitted[i].1 == span {
                return;
            }
            i = i + 1;
        }
        self.emitted.push((code, span));
        self.diagnostics.push(crate::Diagnostic::ownership(code, message, span));
        assert(self.diagnostics@.drop_last() =~= old(self).diagnostics@);
    }

    /// Checks a use against the live borrows of binding `id`, reporting a
    /// conflict; returns whether there was none.
    pub fn check_borrow_conflict(&mut self, id: usize, usage: Usage, span: Span) -> (r: bool)
        requires
            id < old(self).state.bindings@.len(),
        ensures
            grew(*old(self), *final(self)),
            r == !conflicts(old(self).state.bindings@[id as int], usage),
            (usage == Usage::BorrowMutable || usage == Usage::Mutate) && old(self).state.bindings@[id as int].shared_borrows
                != 0 ==> !r,
            old(self).state.bindings@[id as int].mutably_borrowed ==> !r,
            !old(self).state.bindings@[id as int].mutably_borrowed && old(self).state.bindings@[id as int].shared_borrows
                == 0 ==> r,
            if r {
                silent(*old(self), *final(self))
            } else {
                reported(
                    *old(self),
                    *final(self),
                    "OWN003",
                    "cannot "@ + usage_verb(usage) + " `"@ + old(self).state.bindings@[id as int].name@
                        + "` while it has an active conflicting borrow"@,
                    span,
                )
            },
            same_state(*old(self), *final(self)),
            same_context(*old(self), *final(self)),
    {
        let binding = &self.state.bindings[id];
        let conflict = match usage {
            Usage::Read | Usage::BorrowShared => binding.mutably_borrowed,
            Usage::Mutate | Usage::BorrowMutable => binding.mutably_borrowed || binding.shared_borrows != 0,
        };
        if conflict {
            let mut text = String::from_str("cannot ");
            let ghost start = text@;
            match usage {
                Usage::Read => text.append("read"),
                Usage::Mutate => text.append("mutate"),
                Usage::BorrowShared => text.append("borrow"),
                Usage::BorrowMutable => text.append("mutably borrow"),
            }
            assert(text@ == start + usage_verb(usage));
            text.append(" `");
            text.append(binding.name.as_str());
            text.append("` while it has an active conflicting borrow");
            self.push("OWN003", text, span);
            false
        } else {
            true
        }
    }

    /// Checks a use of binding `id`: a moved or possibly moved value is
    /// reported, otherwise the use is checked against live borrows.
    pub fn check_usage(&mut self, id: usize, usage: Usage, span: Span)
        requires
            id < old(self).state.bindings@.len(),
        ensures
            grew(*old(self), *final(self)),
            usage_checked(*old(self), *final(self), old(self).state.bindings@[id as int], usage, span),
            same_state(*old(self), *final(self)),
            same_context(*old(self), *final(self)),
    {
        match self.state.bindings[id].availability {
            Availability::Available => {},
            Availability::Moved(moved) => {
                let mut text = String::from_str("use of moved binding `");
                text.append(self.state.bindings[id].name.as_str());
                text.append("`; it was moved at byte ");
                let number = crate::text::usize_decimal(moved.start as usize);
                text.append(number.as_str());
                self.push("OWN001", text, span);
                return;
            },
            Availability::MaybeMoved(moved) => {
                let mut text = String::from_str("binding `");
                text.append(self.state.bindings[id].name.as_str());
                text.append("` may have been moved on another control-flow path at byte ");
                let number = crate::text::usize_decimal(moved.start as usize);
                text.append(number.as_str());
                self.push("OWN002", text, span);
                return;
            },
        }
        self.check_borrow_conflict(id, usage, span);
    }

    /// Moves the value out of binding `id` at `span`: the use is checked as
    /// a write, and an available, unborrowed value becomes moved.
    pub fn mark_moved(&mut self, id: usize, span: Span)
        requires
            id < old(self).state.bindings@.len(),
        ensures
            grew(*old(self), *final(self)),
            final(self).state.bindings@ == {
                let b = old(self).state.bindings@[id as int];
                if b.availability is Available && !b.mutably_borrowed && b.shared_borrows == 0 {
                    old(self).state.bindings@.update(
                        id as int,
                        Binding { availability: Availability::Moved(span), ..b },
                    )
                } else {
                    old(self).state.bindings@
                }
            },
            usage_checked(*old(self), *final(self), old(self).state.bindings@[id as int], Usage::Mutate, span),
            final(self).state.scopes == old(self).state.scopes,
            final(self).state.scope_bindings == old(self).state.scope_bindings,
            same_context(*old(self), *final(self)),
            old(self).state.well_formed() ==> final(self).state.well_formed(),
    {
        self.check_usage(id, Usage::Mutate, span);
        if matches!(self.state.bindings[id].availability, Availability::Available)
            && !self.state.bindings[id].mutably_borrowed && self.state.bindings[id].shared_borrows == 0 {
            self.state.bindings[id].availability = Availability::Moved(span);
        }
        proof {
            if old(self).state.well_formed() {
                assert forall|q: int| 0 <= q < self.state.bindings@.len() implies match (#[trigger] self.state.bindings@[q]).reference_loan {
                    Some(loan) => loan.owner < q,
                    None => true,
                } by {
                    assert(self.state.bindings@[q].reference_loan == old(self).state.bindings@[q].reference_loan);
                }
            }
        }
    }

    /// Ends the borrow binding `id` holds, if it is live.
    pub fn end_reference_loan(&mut self, id: usize)
        requires
            old(self).state.well_formed(),
            id < old(self).state.bindings@.len(),
        ensures
            grew(*old(self), *final(self)),
            final(self).state.well_formed(),
            final(self).state.bindings@ == {
                let b = old(self).state.bindings@[id as int];
                match b.reference_loan {
                    Some(loan) => if b.reference_loan_active {
                        old(self).state.bindings@.update(
                            loan.owner as int,
                            released(old(self).state.bindings@[loan.owner as int], loan.mutable),
                        ).update(id as int, Binding { reference_loan_active: false, ..b })
                    } else {
                        old(self).state.bindings@
                    },
                    None => if b.reference_loan_active {
                        old(self).state.bindings@.update(id as int, Binding { reference_loan_active: false, ..b })
                    } else {
                        old(self).state.bindings@
                    },
                }
            },
            final(self).state.scopes == old(self).state.scopes,
            final(self).state.scope_bindings == old(self).state.scope_bindings,
            silent(*old(self), *final(self)),
            same_context(*old(self), *final(self)),
    {
        if !self.state.bindings[id].reference_loan_active {
            return;
        }
        if let Some(loan) = self.state.bindings[id].reference_loan {
            self.state.release(loan);
        }
        self.state.bindings[id].reference_loan_active = false;
        proof {
            assert forall|q: int| 0 <= q < self.state.bindings@.len() implies match (#[trigger] self.state.bindings@[q]).reference_loan {
                Some(loan) => loan.owner < q,
                None => true,
            } by {
                assert(self.state.bindings@[q].reference_loan == old(self).state.bindings@[q].reference_loan);
            }
        }
    }
}

} // verus!

verus! {

/// The owner of a new borrow once it is taken.
pub open spec fn borrowed(owner: Binding, mutable: bool) -> Binding {
    if mutable {
        Binding { mutably_borrowed: true, ..owner }
    } else {
        Binding { shared_borrows: (owner.shared_borrows + 1) as usize, ..owner }
    }
}

/// Whether the borrow binding `b` holds has expired at `position` with the
/// given loop depth: it is live, the binding was not declared in an outer
/// loop of the current one, and its last use (or its declaration, when it
/// is never used) ends at or before `position`.
pub open spec fn loan_expired(b: Binding, position: u32, loop_depth: usize) -> bool {
    &&& b.reference_loan_active
    &&& (loop_depth == 0 || loop_depth < b.declaration_loop_depth)
    &&& match b.last_use {
        Some(last_use) => last_use.end <= position,
        None => b.declaration_span.end <= position,
    }
}

/// The bindings once the borrow binding `id` holds ends, if it is live.
pub open spec fn loan_ended(bindings: Seq<Binding>, id: int) -> Seq<Binding> {
    let b = bindings[id];
    if !b.reference_loan_active {
        bindings
    } else {
        match b.reference_loan {
            Some(loan) => bindings.update(loan.owner as int, released(bindings[loan.owner as int], loan.mutable)).update(
                id,
                Binding { reference_loan_active: false, ..b },
            ),
            None => bindings.update(id, Binding { reference_loan_active: false, ..b }),
        }
    }
}

/// The bindings once every expired borrow among `ids` ends, in order.
pub open spec fn expire_loans(bindings: Seq<Binding>, ids: Seq<usize>, position: u32, loop_depth: usize) -> Seq<Binding>
    decreases ids.len(),
{
    if ids.len() == 0 {
        bindings
    } else {
        let next = if loan_expired(bindings[ids[0] as int], position, loop_depth) {
            loan_ended(bindings, ids[0] as int)
        } else {
            bindings
        };
        expire_loans(next, ids.drop_first(), position, loop_depth)
    }
}

/// The ids of every open scope, outermost first, each in declaration order.
pub open spec fn scope_order(scopes: Seq<Seq<usize>>) -> Seq<usize>
    decreases scopes.len(),
{
    if scopes.len() == 0 {
        Seq::empty()
    } else {
        scope_order(scopes.drop_last()) + scopes.last()
    }
}

impl Analyzer {
    /// Takes a borrow of `origin` for the length of one expression.
    pub fn acquire_temporary_loan(&mut self, origin: Option<usize>, mutable: bool, span: Span) -> (r: Option<Loan>)
        requires
            old(self).state.well_formed(),
            match origin {
                Some(owner) => owner < old(self).state.bindings@.len()
                    && old(self).state.bindings@[owner as int].shared_borrows < usize::MAX,
                None => true,
            },
        ensures
            grew(*old(self), *final(self)),
            final(self).state.well_formed(),
            same_context(*old(self), *final(self)),
            final(self).state.scopes == old(self).state.scopes,
            final(self).state.scope_bindings == old(self).state.scope_bindings,
            match origin {
                None => r is None && silent(*old(self), *final(self)) && same_state(*old(self), *final(self)),
                Some(owner) => {
                    let usage = if mutable { Usage::BorrowMutable } else { Usage::BorrowShared };
                    let b = old(self).state.bindings@[owner as int];
                    if conflicts(b, usage) {
                        &&& r is None
                        &&& same_state(*old(self), *final(self))
                        &&& reported(
                            *old(self),
                            *final(self),
                            "OWN003",
                            "cannot "@ + usage_verb(usage) + " `"@ + b.name@
                                + "` while it has an active conflicting borrow"@,
                            span,
                        )
                    } else {
                        &&& r == Some(Loan { owner, mutable })
                        &&& final(self).state.bindings@ == old(self).state.bindings@.update(owner as int, borrowed(b, mutable))
                        &&& silent(*old(self), *final(self))
                    }
                },
            },
    {
        let owner = match origin {
            Some(owner) => owner,
            None => {
                return None;
            },
        };
        let usage = if mutable { Usage::BorrowMutable } else { Usage::BorrowShared };
        if !self.check_borrow_conflict(owner, usage, span) {
            return None;
        }
        if mutable {
            self.state.bindings[owner].mutably_borrowed = true;
        } else {
            self.state.bindings[owner].shared_borrows = self.state.bindings[owner].shared_borrows + 1;
        }
        proof {
            assert forall|q: int| 0 <= q < self.state.bindings@.len() implies match (#[trigger] self.state.bindings@[q]).reference_loan {
                Some(loan) => loan.owner < q,
                None => true,
            } by {
                assert(self.state.bindings@[q].reference_loan == old(self).state.bindings@[q].reference_loan);
            }
            assert(self.state.bindings@ =~= old(self).state.bindings@.update(
                owner as int,
                borrowed(old(self).state.bindings@[owner as int], mutable),
            ));
        }
        Some(Loan { owner, mutable })
    }

    /// Checks that a returned reference borrows from the function's one
    /// reference parameter.
    pub fn validate_reference_return(&mut self, origin: Option<usize>, span: Span)
        requires
            old(self).state.well_formed(),
            match old(self).return_borrow {
                Some(expected) => expected < old(self).state.bindings@.len(),
                None => true,
            },
            match origin {
                Some(id) => id < old(self).state.bindings@.len(),
                None => true,
            },
        ensures
            grew(*old(self), *final(self)),
            same_state(*old(self), *final(self)),
            same_context(*old(self), *final(self)),
            match (old(self).return_borrow, origin) {
                (None, _) => reported(
                    *old(self),
                    *final(self),
                    "OWN005",
                    "a reference return requires exactly one reference parameter"@,
                    span,
                ),
                (Some(_), None) => reported(
                    *old(self),
                    *final(self),
                    "OWN005",
                    "returned reference does not originate from the declared input borrow"@,
                    span,
                ),
                (Some(expected), Some(id)) => if root_of(old(self).state.bindings@, id as int) == root_of(
                    old(self).state.bindings@,
                    expected as int,
                ) {
                    silent(*old(self), *final(self))
                } else {
                    reported(
                        *old(self),
                        *final(self),
                        "OWN005",
                        "returned reference does not originate from the function's reference parameter"@,
                        span,
                    )
                },
            },
    {
        let expected = match self.return_borrow {
            Some(expected) => expected,
            None => {
                self.push("OWN005", String::from_str("a reference return requires exactly one reference parameter"), span);
                return;
            },
        };
        let origin = match origin {
            Some(origin) => origin,
            None => {
                self.push("OWN005", String::from_str("returned reference does not originate from the declared input borrow"), span);
                return;
            },
        };
        if root_origin(&self.state, origin) != root_origin(&self.state, expected) {
            self.push(
                "OWN005",
                String::from_str("returned reference does not originate from the function's reference parameter"),
                span,
            );
        }
    }

    /// Ends every borrow of an open scope that has expired at `position`,
    /// outermost scope first and each in declaration order.
    pub fn release_expired_loans(&mut self, position: u32)
        requires
            old(self).state.well_formed(),
        ensures
            grew(*old(self), *final(self)),
            final(self).state.well_formed(),
            final(self).state.bindings@ == expire_loans(
                old(self).state.bindings@,
                scope_order(old(self).state.scope_ids()),
                position,
                old(self).loop_depth,
            ),
            final(self).state.bindings@.len() == old(self).state.bindings@.len(),
            forall|k: int|
                0 <= k < old(self).state.bindings@.len() ==> (#[trigger] final(self).state.bindings@[k]).availability
                    == old(self).state.bindings@[k].availability && final(self).state.bindings@[k].ty
                    == old(self).state.bindings@[k].ty,
            final(self).state.scopes == old(self).state.scopes,
            final(self).state.scope_bindings == old(self).state.scope_bindings,
            silent(*old(self), *final(self)),
            same_context(*old(self), *final(self)),
    {
        let mut ids: Vec<usize> = Vec::new();
        let mut s: usize = 0;
        while s < self.state.scope_bindings.len()
            invariant
                s <= self.state.scope_ids().len(),
                ids@ == scope_order(self.state.scope_ids().take(s as int)),
            decreases self.state.scope_ids().len() - s,
        {
            let mut k: usize = 0;
            let ghost base = ids@;
            while k < self.state.scope_bindings[s].len()
                invariant
                    s < self.state.scope_ids().len(),
                    k <= self.state.scope_bindings@[s as int]@.len(),
                    ids@ == base + self.state.scope_bindings@[s as int]@.take(k as int),
                decreases self.state.scope_bindings@[s as int]@.len() - k,
            {
                ids.push(self.state.scope_bindings[s][k]);
                assert(ids@ =~= base + self.state.scope_bindings@[s as int]@.take(k + 1));
                k = k + 1;
            }
            proof {
                let all = self.state.scope_ids();
                assert(all.take(s + 1).drop_last() =~= all.take(s as int));
                assert(all.take(s + 1).last() == self.state.scope_bindings@[s as int]@);
                assert(self.state.scope_bindings@[s as int]@.take(k as int) =~= self.state.scope_bindings@[s as int]@);
            }
            s = s + 1;
        }
        assert(self.state.scope_ids().take(s as int) =~= self.state.scope_ids());
        let ghost order = ids@;
        let ghost n = self.state.bindings@.len();
        proof {
            assert forall|q: int| 0 <= q < order.len() implies (#[trigger] order[q]) < n by {
                lemma_scope_order_below(self.state.scope_ids(), n, q);
            }
        }
        let mut i: usize = 0;
        assert(order.skip(0) =~= order);
        while i < ids.len()
            invariant
                order == ids@,
                i <= order.len(),
                n == self.state.bindings@.len(),
                forall|q: int| 0 <= q < order.len() ==> (#[trigger] order[q]) < n,
                self.state.well_formed(),
                self.state.scopes == old(self).state.scopes,
                self.state.scope_bindings == old(self).state.scope_bindings,
                silent(*old(self), *self),
                same_context(*old(self), *self),
                expire_loans(old(self).state.bindings@, scope_order(old(self).state.scope_ids()), position, old(self).loop_depth)
                    == expire_loans(self.state.bindings@, order.skip(i as int), position, old(self).loop_depth),
                forall|k: int|
                    0 <= k < n ==> (#[trigger] self.state.bindings@[k]).availability
                        == old(self).state.bindings@[k].availability && self.state.bindings@[k].ty
                        == old(self).state.bindings@[k].ty,
            decreases order.len() - i,
        {
            let id = ids[i];
            assert(order.skip(i as int)[0] == id);
            assert(order.skip(i as int).drop_first() =~= order.skip(i + 1));
            let binding = &self.state.bindings[id];
            let expired = binding.reference_loan_active && (self.loop_depth == 0
                || self.loop_depth < binding.declaration_loop_depth) && match binding.last_use {
                Some(last_use) => last_use.end <= position,
                None => binding.declaration_span.end <= position,
            };
            if expired {
                let ghost before = self.state.bindings@;
                self.end_reference_loan(id);
                proof {
                    assert forall|k: int| 0 <= k < n implies (#[trigger] self.state.bindings@[k]).availability
                        == before[k].availability && self.state.bindings@[k].ty == before[k].ty by {
                        match before[id as int].reference_loan {
                            Some(loan) => {
                                assert(loan.owner < id);
                            },
                            None => {},
                        }
                    }
                }
            }
            i = i + 1;
        }
        assert(order.skip(order.len() as int).len() == 0);
    }
}

/// Every id of the open scopes in order is below `n` when each scope's ids
/// are.
proof fn lemma_scope_order_below(scopes: Seq<Seq<usize>>, n: nat, q: int)
    requires
        forall|s: int| 0 <= s < scopes.len() ==> ids_below(#[trigger] scopes[s], n),
        0 <= q < scope_order(scopes).len(),
    ensures
        scope_order(scopes)[q] < n,
    decreases scopes.len(),
{
    if scopes.len() > 0 {
        let front = scope_order(scopes.drop_last());
        if q < front.len() {
            assert forall|s: int| 0 <= s < scopes.drop_last().len() implies ids_below(#[trigger] scopes.drop_last()[s], n) by {
                assert(scopes.drop_last()[s] == scopes[s]);
            }
            lemma_scope_order_below(scopes.drop_last(), n, q);
        } else {
            assert(ids_below(scopes[scopes.len() - 1], n));
            assert(scope_order(scopes)[q] == scopes.last()[q - front.len()]);
        }
    }
}

} // verus!

verus! {

/// Whether the borrow a reference binding holds ends at this expression:
/// it is live and the binding's last use lies within `span`.
pub open spec fn loan_ends_within(b: Binding, span: Span) -> bool {
    b.reference_loan_active && match b.last_use {
        Some(last_use) => span.start <= last_use.start && last_use.end <= span.end,
        None => false,
    }
}

impl Analyzer {
    /// Takes a borrow of the binding `origin` ultimately borrows from, to be
    /// held by a reference local; a reference whose last use is this
    /// expression hands its own borrow back first.
    pub fn acquire_persistent_loan(&mut self, origin: Option<usize>, mutable: bool, span: Span) -> (r: Option<Loan>)
        requires
            old(self).state.well_formed(),
            match origin {
                Some(id) => id < old(self).state.bindings@.len() && old(self).state.bindings@[root_of(
                    old(self).state.bindings@,
                    id as int,
                )].shared_borrows < usize::MAX,
                None => true,
            },
        ensures
            grew(*old(self), *final(self)),
            final(self).state.well_formed(),
            same_context(*old(self), *final(self)),
            final(self).state.scopes == old(self).state.scopes,
            final(self).state.scope_bindings == old(self).state.scope_bindings,
            match origin {
                None => r is None && same_state(*old(self), *final(self)) && reported(
                    *old(self),
                    *final(self),
                    "OWN004",
                    "a local reference requires a stable source binding"@,
                    span,
                ),
                Some(id) => {
                    let before = old(self).state.bindings@;
                    let owner = root_of(before, id as int);
                    let handed_back = if loan_ends_within(before[id as int], span) {
                        loan_ended(before, id as int)
                    } else {
                        before
                    };
                    let usage = if mutable { Usage::BorrowMutable } else { Usage::BorrowShared };
                    if conflicts(handed_back[owner], usage) {
                        &&& r is None
                        &&& final(self).state.bindings@ == handed_back
                        &&& reported(
                            *old(self),
                            *final(self),
                            "OWN003",
                            "cannot "@ + usage_verb(usage) + " `"@ + handed_back[owner].name@
                                + "` while it has an active conflicting borrow"@,
                            span,
                        )
                    } else {
                        &&& r == Some(Loan { owner: owner as usize, mutable })
                        &&& final(self).state.bindings@ == handed_back.update(owner, borrowed(handed_back[owner], mutable))
                        &&& silent(*old(self), *final(self))
                    }
                },
            },
    {
        let origin = match origin {
            Some(origin) => origin,
            None => {
                self.push("OWN004", String::from_str("a local reference requires a stable source binding"), span);
                return None;
            },
        };
        let owner = root_origin(&self.state, origin);
        let binding = &self.state.bindings[origin];
        let ends_here = binding.reference_loan_active && match binding.last_use {
            Some(last_use) => span.start <= last_use.start && last_use.end <= span.end,
            None => false,
        };
        if ends_here {
            self.end_reference_loan(origin);
        }
        let usage = if mutable { Usage::BorrowMutable } else { Usage::BorrowShared };
        if !self.check_borrow_conflict(owner, usage, span) {
            return None;
        }
        if mutable {
            self.state.bindings[owner].mutably_borrowed = true;
        } else {
            self.state.bindings[owner].shared_borrows = self.state.bindings[owner].shared_borrows + 1;
        }
        proof {
            assert forall|q: int| 0 <= q < self.state.bindings@.len() implies match (#[trigger] self.state.bindings@[q]).reference_loan {
                Some(loan) => loan.owner < q,
                None => true,
            } by {
                assert(self.state.bindings@[q].reference_loan == old(self).state.bindings@[q].reference_loan);
            }
        }
        Some(Loan { owner, mutable })
    }
}

} // verus!

verus! {

/// Two binding lists agree entry by entry, types up to structural equality.
pub open spec fn bindings_match(a: Seq<Binding>, b: Seq<Binding>) -> bool {
    &&& a.len() == b.len()
    &&& forall|id: int|
        0 <= id < a.len() ==> same_but_availability(#[trigger] a[id], b[id]) && a[id].availability
            == b[id].availability
}

/// The bindings once every scope beyond the first `depth` closes, the
/// innermost first.
pub open spec fn unwound(bindings: Seq<Binding>, ids: Seq<Seq<usize>>, depth: nat) -> Seq<Binding>
    decreases ids.len(),
{
    if ids.len() <= depth {
        bindings
    } else {
        unwound(release_scope(bindings, ids.last()), ids.drop_last(), depth)
    }
}

/// `r` is what `s` becomes once every scope beyond the first `depth`
/// closes, up to structurally equal types.
pub open spec fn unwound_state(r: FlowState, s: FlowState, depth: nat) -> bool {
    let kept = if s.scope_ids().len() <= depth { s.scope_ids().len() } else { depth };
    &&& bindings_match(r.bindings@, unwound(s.bindings@, s.scope_ids(), depth))
    &&& r.scope_views() == s.scope_views().take(kept as int)
    &&& r.scope_ids() == s.scope_ids().take(kept as int)
}

/// Ending the borrows of a scope keeps two matching binding lists matching.
proof fn lemma_release_scope_match(a: Seq<Binding>, b: Seq<Binding>, ids: Seq<usize>)
    requires
        bindings_match(a, b),
        ids_below(ids, a.len()),
        forall|id: int| 0 <= id < a.len() ==> match (#[trigger] a[id]).reference_loan {
            Some(loan) => loan.owner < a.len(),
            None => true,
        },
    ensures
        bindings_match(release_scope(a, ids), release_scope(b, ids)),
        release_scope(a, ids).len() == a.len(),
        forall|id: int| 0 <= id < a.len() ==> (#[trigger] release_scope(a, ids)[id]).reference_loan == a[id].reference_loan,
    decreases ids.len(),
{
    if ids.len() > 0 {
        let id = ids.last() as int;
        assert(ids[ids.len() - 1] < a.len());
        let x = a[id];
        let y = b[id];
        assert(same_but_availability(x, y));
        let next_a = match x.reference_loan {
            Some(loan) => if x.reference_loan_active {
                a.update(loan.owner as int, released(a[loan.owner as int], loan.mutable)).update(
                    id,
                    Binding { reference_loan_active: false, ..x },
                )
            } else {
                a
            },
            None => a,
        };
        let next_b = match y.reference_loan {
            Some(loan) => if y.reference_loan_active {
                b.update(loan.owner as int, released(b[loan.owner as int], loan.mutable)).update(
                    id,
                    Binding { reference_loan_active: false, ..y },
                )
            } else {
                b
            },
            None => b,
        };
        assert(bindings_match(next_a, next_b)) by {
            assert forall|k: int| 0 <= k < next_a.len() implies same_but_availability(#[trigger] next_a[k], next_b[k])
                && next_a[k].availability == next_b[k].availability by {
                assert(same_but_availability(a[k], b[k]));
                if let Some(loan) = x.reference_loan {
                    assert(same_but_availability(a[loan.owner as int], b[loan.owner as int]));
                }
            }
        }
        assert forall|k: int| 0 <= k < a.len() implies match (#[trigger] next_a[k]).reference_loan {
            Some(loan) => loan.owner < a.len(),
            None => true,
        } by {
            assert(next_a[k].reference_loan == a[k].reference_loan);
        }
        assert(ids_below(ids.drop_last(), a.len())) by {
            assert forall|q: int| 0 <= q < ids.drop_last().len() implies (#[trigger] ids.drop_last()[q]) < a.len() by {
                assert(ids.drop_last()[q] == ids[q]);
            }
        }
        lemma_release_scope_match(next_a, next_b, ids.drop_last());
    }
}

/// Closing scopes keeps two matching binding lists matching.
proof fn lemma_unwound_match(a: Seq<Binding>, b: Seq<Binding>, ids: Seq<Seq<usize>>, depth: nat)
    requires
        bindings_match(a, b),
        forall|s: int| 0 <= s < ids.len() ==> ids_below(#[trigger] ids[s], a.len()),
        forall|id: int| 0 <= id < a.len() ==> match (#[trigger] a[id]).reference_loan {
            Some(loan) => loan.owner < a.len(),
            None => true,
        },
    ensures
        bindings_match(unwound(a, ids, depth), unwound(b, ids, depth)),
    decreases ids.len(),
{
    if ids.len() > depth {
        assert(ids_below(ids[ids.len() - 1], a.len()));
        lemma_release_scope_match(a, b, ids.last());
        let na = release_scope(a, ids.last());
        assert forall|s: int| 0 <= s < ids.drop_last().len() implies ids_below(#[trigger] ids.drop_last()[s], na.len()) by {
            assert(ids.drop_last()[s] == ids[s]);
            assert(ids_below(ids[s], a.len()));
        }
        assert forall|id: int| 0 <= id < na.len() implies match (#[trigger] na[id]).reference_loan {
            Some(loan) => loan.owner < na.len(),
            None => true,
        } by {
            assert(na[id].reference_loan == a[id].reference_loan);
            assert(match a[id].reference_loan {
                Some(loan) => loan.owner < a.len(),
                None => true,
            });
        }
        lemma_unwound_match(na, release_scope(b, ids.last()), ids.drop_last(), depth);
    }
}

impl FlowState {
    /// A copy of this state once every scope beyond the first `depth` is
    /// closed.
    pub fn unwound_copy(&self, depth: usize) -> (r: FlowState)
        requires
            self.well_formed(),
        ensures
            r.well_formed(),
            unwound_state(r, *self, depth as nat),
            r.bindings@.len() == self.bindings@.len(),
    {
        let mut state = self.copy();
        proof {
            assert(bindings_match(state.bindings@, self.bindings@));
            assert forall|id: int| 0 <= id < state.bindings@.len() implies match (#[trigger] state.bindings@[id]).reference_loan {
                Some(loan) => loan.owner < state.bindings@.len(),
                None => true,
            } by {
                assert(match state.bindings@[id].reference_loan {
                    Some(loan) => loan.owner < id,
                    None => true,
                });
            }
            assert forall|s: int| 0 <= s < state.scope_ids().len() implies ids_below(#[trigger] state.scope_ids()[s], state.bindings@.len()) by {
                assert(ids_below(state.scope_bindings@[s]@, state.bindings@.len()));
            }
            lemma_unwound_match(state.bindings@, self.bindings@, self.scope_ids(), depth as nat);
            assert(state.scope_views().take(state.scope_views().len() as int) =~= state.scope_views());
            assert(state.scope_ids().take(state.scope_ids().len() as int) =~= state.scope_ids());
        }
        while state.scopes.len() > depth
            invariant
                state.well_formed(),
                self.well_formed(),
                state.scope_ids().len() <= self.scope_ids().len(),
                state.scope_views() == self.scope_views().take(state.scope_views().len() as int),
                state.scope_ids() == self.scope_ids().take(state.scope_ids().len() as int),
                state.scope_views().len() == state.scope_ids().len(),
                state.bindings@.len() == self.bindings@.len(),
                self.scope_ids().len() <= depth ==> state.scope_ids() == self.scope_ids(),
                self.scope_ids().len() > depth ==> state.scope_ids().len() >= depth,
                bindings_match(
                    unwound(state.bindings@, state.scope_ids(), depth as nat),
                    unwound(self.bindings@, self.scope_ids(), depth as nat),
                ),
            decreases state.scopes@.len(),
        {
            let ghost before = state.bindings@;
            let ghost ids = state.scope_ids();
            assert(ids.last() == state.scope_bindings@.last()@);
            state.pop_scope();
            assert(state.scope_ids() =~= ids.drop_last());
            assert(unwound(before, ids, depth as nat) == unwound(release_scope(before, ids.last()), ids.drop_last(), depth as nat));
            proof {
                let n = state.scope_ids().len();
                assert(state.scope_views() =~= self.scope_views().take(n as int));
                assert(state.scope_ids() =~= self.scope_ids().take(n as int));
            }
        }
        proof {
            let n = state.scope_ids().len();
            assert(unwound(state.bindings@, state.scope_ids(), depth as nat) == state.bindings@);
            if self.scope_ids().len() > depth {
                assert(n == depth);
            }
        }
        state
    }
}

impl Analyzer {
    /// Records the state with which control leaves the innermost loop at a
    /// `continue` or a `break`: the state once the loop body's scopes close.
    pub fn capture_loop_exit(&mut self, is_continue: bool)
        requires
            old(self).state.well_formed(),
        ensures
            grew(*old(self), *final(self)),
            same_state(*old(self), *final(self)),
            silent(*old(self), *final(self)),
            final(self).return_borrow == old(self).return_borrow,
            final(self).loop_depth == old(self).loop_depth,
            final(self).returns_reference == old(self).returns_reference,
            final(self).exceptions == old(self).exceptions,
            final(self).loops@.len() == old(self).loops@.len(),
            old(self).loops@.len() == 0 ==> final(self).loops == old(self).loops,
            old(self).loops@.len() > 0 ==> {
                let last = old(self).loops@.len() - 1;
                let before = old(self).loops@[last];
                let after = final(self).loops@[last];
                &&& forall|k: int| 0 <= k < last ==> #[trigger] final(self).loops@[k] == old(self).loops@[k]
                &&& after.scope_depth == before.scope_depth
                &&& if is_continue {
                    &&& after.break_states == before.break_states
                    &&& after.continue_states@.len() == before.continue_states@.len() + 1
                    &&& after.continue_states@.drop_last() == before.continue_states@
                    &&& unwound_state(after.continue_states@.last(), old(self).state, before.scope_depth as nat)
                    &&& after.continue_states@.last().well_formed()
                    &&& after.continue_states@.last().bindings@.len() == old(self).state.bindings@.len()
                } else {
                    &&& after.continue_states == before.continue_states
                    &&& after.break_states@.len() == before.break_states@.len() + 1
                    &&& after.break_states@.drop_last() == before.break_states@
                    &&& unwound_state(after.break_states@.last(), old(self).state, before.scope_depth as nat)
                    &&& after.break_states@.last().well_formed()
                    &&& after.break_states@.last().bindings@.len() == old(self).state.bindings@.len()
                }
            },
    {
        if self.loops.len() == 0 {
            return;
        }
        let last = self.loops.len() - 1;
        let depth = self.loops[last].scope_depth;
        let state = self.state.unwound_copy(depth);
        if is_continue {
            self.loops[last].continue_states.push(state);
        } else {
            self.loops[last].break_states.push(state);
        }
        proof {
            assert(self.loops@[last as int].continue_states@.drop_last() =~= old(self).loops@[last as int].continue_states@
                || !is_continue);
            assert(self.loops@[last as int].break_states@.drop_last() =~= old(self).loops@[last as int].break_states@
                || is_continue);
        }
    }

    /// Records, for every enclosing `try`, the state with which control may
    /// reach its handlers from here: the state once the protected body's
    /// scopes close.
    pub fn capture_exception_state(&mut self)
        requires
            old(self).state.well_formed(),
        ensures
            grew(*old(self), *final(self)),
            same_state(*old(self), *final(self)),
            silent(*old(self), *final(self)),
            final(self).return_borrow == old(self).return_borrow,
            final(self).loop_depth == old(self).loop_depth,
            final(self).returns_reference == old(self).returns_reference,
            final(self).loops == old(self).loops,
            final(self).exceptions@.len() == old(self).exceptions@.len(),
            forall|k: int|
                0 <= k < old(self).exceptions@.len() ==> {
                    let before = old(self).exceptions@[k];
                    let after = #[trigger] final(self).exceptions@[k];
                    &&& after.scope_depth == before.scope_depth
                    &&& after.states@.len() == before.states@.len() + 1
                    &&& after.states@.drop_last() == before.states@
                    &&& unwound_state(after.states@.last(), old(self).state, before.scope_depth as nat)
                    &&& after.states@.last().well_formed()
                    &&& after.states@.last().bindings@.len() == old(self).state.bindings@.len()
                },
    {
        let mut k: usize = 0;
        while k < self.exceptions.len()
            invariant
                k <= self.exceptions@.len(),
                self.exceptions@.len() == old(self).exceptions@.len(),
                self.state.well_formed(),
                same_state(*old(self), *self),
                silent(*old(self), *self),
                self.return_borrow == old(self).return_borrow,
                self.loop_depth == old(self).loop_depth,
                self.returns_reference == old(self).returns_reference,
                self.loops == old(self).loops,
                forall|q: int|
                    k <= q < old(self).exceptions@.len() ==> #[trigger] self.exceptions@[q] == old(self).exceptions@[q],
                forall|q: int|
                    0 <= q < k ==> {
                        let before = old(self).exceptions@[q];
                        let after = #[trigger] self.exceptions@[q];
                        &&& after.scope_depth == before.scope_depth
                        &&& after.states@.len() == before.states@.len() + 1
                        &&& after.states@.drop_last() == before.states@
                        &&& unwound_state(after.states@.last(), old(self).state, before.scope_depth as nat)
                    &&& after.states@.last().well_formed()
                    &&& after.states@.last().bindings@.len() == old(self).state.bindings@.len()
                    },
            decreases self.exceptions@.len() - k,
        {
            let depth = self.exceptions[k].scope_depth;
            let state = self.state.unwound_copy(depth);
            let ghost previous = self.exceptions@[k as int].states@;
            self.exceptions[k].states.push(state);
            assert(self.exceptions@[k as int].states@.drop_last() =~= previous);
            k = k + 1;
        }
    }
}

} // verus!

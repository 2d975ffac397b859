//! Source-level facts used while lowering resolved syntax into backend IR:
//! control-flow exits, null literals, generated Rust names and paths, the
//! placement of items in modules, and the lowering of resolved types.

use crate::ast::{Block, CatchClause, Expression, ExpressionKind, LiteralKind, Span, Statement, StatementKind};
use crate::interop::builtin::VAR_TYPE_PATH;
use crate::diagnostic::{Diagnostic, DiagnosticPhase};
use crate::interop::model::{NativeBindings, NativeTypeBinding, TypeRef};
use crate::text::str_eq;
use vstd::prelude::*;

verus! {

/// A statement never completes normally: every path through it returns or
/// throws.
pub open spec fn statement_returns(s: Statement) -> bool
    decreases s,
{
    match s.kind {
        StatementKind::Return(_) | StatementKind::Throw(_) => true,
        StatementKind::Block(block) => block_returns(block),
        StatementKind::Try(t) => block_returns(t.body) && catches_return(t.catches@),
        StatementKind::If(i) => statement_returns(*i.then_branch) && match i.else_branch {
            Some(e) => statement_returns(*e),
            None => false,
        },
        _ => false,
    }
}

/// A block never completes normally: its last statement never does.
pub open spec fn block_returns(b: Block) -> bool
    decreases b,
{
    if b.statements@.len() == 0 {
        false
    } else {
        proof {
            broadcast use vstd::std_specs::vec::axiom_vec_index_decreases;
        }
        statement_returns(b.statements@[b.statements@.len() - 1])
    }
}

/// Every handler body never completes normally.
pub open spec fn catches_return(cs: Seq<CatchClause>) -> bool
    decreases cs,
{
    if cs.len() == 0 {
        true
    } else {
        block_returns(cs[0].body) && catches_return(cs.drop_first())
    }
}

/// A statement may complete normally and continue with the next one.
pub open spec fn statement_falls_through(s: Statement) -> bool
    decreases s,
{
    match s.kind {
        StatementKind::Return(_) | StatementKind::Throw(_) | StatementKind::Break
        | StatementKind::Continue => false,
        StatementKind::Block(block) => block_falls_through(block),
        StatementKind::If(i) => statement_falls_through(*i.then_branch) || match i.else_branch {
            Some(e) => statement_falls_through(*e),
            None => true,
        },
        StatementKind::Try(t) => block_falls_through(t.body) || catches_fall_through(t.catches@),
        _ => true,
    }
}

/// A block may complete normally: it is empty or its last statement may.
pub open spec fn block_falls_through(b: Block) -> bool
    decreases b,
{
    if b.statements@.len() == 0 {
        true
    } else {
        proof {
            broadcast use vstd::std_specs::vec::axiom_vec_index_decreases;
        }
        statement_falls_through(b.statements@[b.statements@.len() - 1])
    }
}

/// Some handler body may complete normally.
pub open spec fn catches_fall_through(cs: Seq<CatchClause>) -> bool
    decreases cs,
{
    if cs.len() == 0 {
        false
    } else {
        block_falls_through(cs[0].body) || catches_fall_through(cs.drop_first())
    }
}

} // verus!

verus! {

/// Law: a statement that always returns or throws never falls through.
pub proof fn lemma_returning_statement_never_falls_through(s: Statement)
    ensures
        statement_returns(s) ==> !statement_falls_through(s),
    decreases s,
{
    match s.kind {
        StatementKind::Block(block) => lemma_returning_block_never_falls_through(block),
        StatementKind::Try(t) => {
            lemma_returning_block_never_falls_through(t.body);
            lemma_returning_catches_never_fall_through(t.catches@);
        },
        StatementKind::If(i) => {
            lemma_returning_statement_never_falls_through(*i.then_branch);
            match i.else_branch {
                Some(e) => lemma_returning_statement_never_falls_through(*e),
                None => {},
            }
        },
        _ => {},
    }
}

/// Law: a block that always returns or throws never falls through.
pub proof fn lemma_returning_block_never_falls_through(b: Block)
    ensures
        block_returns(b) ==> !block_falls_through(b),
    decreases b,
{
    if b.statements@.len() != 0 {
        broadcast use vstd::std_specs::vec::axiom_vec_index_decreases;
        lemma_returning_statement_never_falls_through(b.statements@[b.statements@.len() - 1]);
    }
}

/// Law: handlers that all return or throw never fall through.
pub proof fn lemma_returning_catches_never_fall_through(cs: Seq<CatchClause>)
    ensures
        catches_return(cs) ==> !catches_fall_through(cs),
    decreases cs,
{
    if cs.len() != 0 {
        lemma_returning_block_never_falls_through(cs[0].body);
        lemma_returning_catches_never_fall_through(cs.drop_first());
    }
}

/// Returns whether every path through the block returns or throws.
pub fn block_definitely_returns(block: &Block) -> (r: bool)
    ensures
        r == block_returns(*block),
    decreases block,
{
    let n = block.statements.len();
    if n == 0 {
        false
    } else {
        proof {
            broadcast use vstd::std_specs::vec::axiom_vec_index_decreases;
            assert(decreases_to!(block => block.statements@[n - 1]));
        }
        statement_definitely_returns(&block.statements[n - 1])
    }
}

/// Returns whether the block may complete normally.
pub fn block_may_fall_through(block: &Block) -> (r: bool)
    ensures
        r == block_falls_through(*block),
    decreases block,
{
    let n = block.statements.len();
    if n == 0 {
        true
    } else {
        proof {
            broadcast use vstd::std_specs::vec::axiom_vec_index_decreases;
            assert(decreases_to!(block => block.statements@[n - 1]));
        }
        statement_may_fall_through(&block.statements[n - 1])
    }
}

/// Returns whether every handler body returns or throws.
fn all_catches_return(catches: &Vec<CatchClause>) -> (r: bool)
    ensures
        r == catches_return(catches@),
    decreases catches,
{
    let mut i = catches.len();
    let mut all = true;
    while i > 0
        invariant
            i <= catches@.len(),
            all == catches_return(catches@.subrange(i as int, catches@.len() as int)),
        decreases i,
    {
        proof {
            broadcast use vstd::std_specs::vec::axiom_vec_index_decreases;
            assert(decreases_to!(catches => catches@[i - 1]));
            assert(catches@.subrange(i - 1, catches@.len() as int).drop_first() =~= catches@.subrange(
                i as int,
                catches@.len() as int,
            ));
        }
        all = block_definitely_returns(&catches[i - 1].body) && all;
        i = i - 1;
    }
    assert(catches@.subrange(0, catches@.len() as int) =~= catches@);
    all
}

/// Returns whether some handler body may complete normally.
fn any_catch_falls_through(catches: &Vec<CatchClause>) -> (r: bool)
    ensures
        r == catches_fall_through(catches@),
    decreases catches,
{
    let mut i = catches.len();
    let mut any = false;
    while i > 0
        invariant
            i <= catches@.len(),
            any == catches_fall_through(catches@.subrange(i as int, catches@.len() as int)),
        decreases i,
    {
        proof {
            broadcast use vstd::std_specs::vec::axiom_vec_index_decreases;
            assert(decreases_to!(catches => catches@[i - 1]));
            assert(catches@.subrange(i - 1, catches@.len() as int).drop_first() =~= catches@.subrange(
                i as int,
                catches@.len() as int,
            ));
        }
        any = block_may_fall_through(&catches[i - 1].body) || any;
        i = i - 1;
    }
    assert(catches@.subrange(0, catches@.len() as int) =~= catches@);
    any
}

/// Returns whether the statement may complete normally.
pub fn statement_may_fall_through(statement: &Statement) -> (r: bool)
    ensures
        r == statement_falls_through(*statement),
    decreases statement,
{
    match &statement.kind {
        StatementKind::Return(_) | StatementKind::Throw(_) | StatementKind::Break
        | StatementKind::Continue => false,
        StatementKind::Block(block) => block_may_fall_through(block),
        StatementKind::If(i) => {
            statement_may_fall_through(&i.then_branch) || match &i.else_branch {
                Some(e) => statement_may_fall_through(e),
                None => true,
            }
        },
        StatementKind::Try(t) => block_may_fall_through(&t.body) || any_catch_falls_through(
            &t.catches,
        ),
        _ => true,
    }
}

/// Returns whether every path through the statement returns or throws.
pub fn statement_definitely_returns(statement: &Statement) -> (r: bool)
    ensures
        r == statement_returns(*statement),
    decreases statement,
{
    match &statement.kind {
        StatementKind::Return(_) | StatementKind::Throw(_) => true,
        StatementKind::Block(block) => block_definitely_returns(block),
        StatementKind::Try(t) => block_definitely_returns(&t.body) && all_catches_return(
            &t.catches,
        ),
        StatementKind::If(i) => {
            statement_definitely_returns(&i.then_branch) && match &i.else_branch {
                Some(e) => statement_definitely_returns(e),
                None => false,
            }
        },
        _ => false,
    }
}

} // verus!

verus! {

/// Whether the expression is a `null`-category literal, possibly
/// parenthesized.
pub open spec fn null_literal(e: Expression) -> bool
    decreases e,
{
    match e.kind {
        ExpressionKind::Literal(literal) => literal.kind == LiteralKind::Null,
        ExpressionKind::Parenthesized(inner) => null_literal(*inner),
        _ => false,
    }
}

/// Whether the expression is the literal `nullptr`, possibly parenthesized.
pub open spec fn nullptr_literal(e: Expression) -> bool
    decreases e,
{
    match e.kind {
        ExpressionKind::Literal(literal) => literal.kind == LiteralKind::Null && literal.text@
            == "nullptr"@,
        ExpressionKind::Parenthesized(inner) => nullptr_literal(*inner),
        _ => false,
    }
}

/// Returns whether the expression is a null literal.
pub fn is_null_literal(expression: &Expression) -> (r: bool)
    ensures
        r == null_literal(*expression),
    decreases expression,
{
    match &expression.kind {
        ExpressionKind::Literal(literal) => literal.kind == LiteralKind::Null,
        ExpressionKind::Parenthesized(inner) => is_null_literal(inner),
        _ => false,
    }
}

/// Returns whether the expression is the `nullptr` literal.
pub fn is_nullptr_literal(expression: &Expression) -> (r: bool)
    ensures
        r == nullptr_literal(*expression),
    decreases expression,
{
    match &expression.kind {
        ExpressionKind::Literal(literal) => literal.kind == LiteralKind::Null && str_eq(
            literal.text.as_str(),
            "nullptr",
        ),
        ExpressionKind::Parenthesized(inner) => is_nullptr_literal(inner),
        _ => false,
    }
}

/// The generated Rust identifier for a Stainless local binding.
pub fn binding_name(source_name: &str) -> (r: String)
    ensures
        r@ == "__stainless_local_"@ + source_name@,
{
    let mut name = String::from_str("__stainless_local_");
    name.append(source_name);
    name
}

/// The generated Rust module for a Stainless namespace.
pub fn module_name(source_name: &str) -> (r: String)
    ensures
        r@ == "__stainless_namespace_"@ + source_name@,
{
    let mut name = String::from_str("__stainless_namespace_");
    name.append(source_name);
    name
}

/// The generated module path of the first `n` namespaces of `path`.
pub open spec fn namespace_modules(path: Seq<String>, n: int) -> Seq<char>
    decreases n,
{
    if n <= 0 {
        Seq::empty()
    } else {
        namespace_modules(path, n - 1) + "::"@ + "__stainless_namespace_"@ + path[n - 1]@
    }
}

/// The generated Rust path of a user type: its namespaces become generated
/// modules below `crate`, followed by the type name.
pub open spec fn user_type_path_spec(source_path: Seq<String>) -> Seq<char> {
    if source_path.len() == 0 {
        "crate::__stainless_missing_type"@
    } else {
        "crate"@ + namespace_modules(source_path, source_path.len() - 1) + "::"@
            + source_path.last()@
    }
}

/// Returns the generated Rust path of a user-declared type.
pub fn user_type_path(source_path: &Vec<String>) -> (r: String)
    ensures
        r@ == user_type_path_spec(source_path@),
{
    let n = source_path.len();
    if n == 0 {
        return String::from_str("crate::__stainless_missing_type");
    }
    let mut path = String::from_str("crate");
    let mut i: usize = 0;
    while i < n - 1
        invariant
            n == source_path@.len(),
            n > 0,
            i <= n - 1,
            path@ == "crate"@ + namespace_modules(source_path@, i as int),
        decreases n - 1 - i,
    {
        path.append("::");
        let module = module_name(source_path[i].as_str());
        path.append(module.as_str());
        proof {
            assert(path@ =~= "crate"@ + namespace_modules(source_path@, i as int + 1));
        }
        i = i + 1;
    }
    path.append("::");
    path.append(source_path[n - 1].as_str());
    path
}

/// The referenced type of a reference, or the type itself.
pub open spec fn canonical(t: TypeRef) -> TypeRef {
    match t {
        TypeRef::Reference { target, .. } => *target,
        _ => t,
    }
}

/// Returns the referenced type of a reference, or the type itself.
pub fn canonical_ref(ty: &TypeRef) -> (r: &TypeRef)
    ensures
        *r == canonical(*ty),
{
    match ty {
        TypeRef::Reference { target, .. } => target,
        _ => ty,
    }
}

/// Whether `t` is the dynamically typed JSON value type.
pub open spec fn json_type(t: TypeRef) -> bool {
    t matches TypeRef::Native { path, arguments } && path@ == VAR_TYPE_PATH@
        && arguments@.len() == 0
}

/// Whether `t`, or the type it references, is `rust::String`.
pub open spec fn rust_string_type(t: TypeRef) -> bool {
    canonical(t) matches TypeRef::Native { path, arguments } && path@ == "rust::String"@
        && arguments@.len() == 0
}

/// Returns whether the type is the JSON value type.
pub fn is_json_type(ty: &TypeRef) -> (r: bool)
    ensures
        r == json_type(*ty),
{
    match ty {
        TypeRef::Native { path, arguments } => str_eq(path.as_str(), VAR_TYPE_PATH)
            && arguments.len() == 0,
        _ => false,
    }
}

/// Returns whether the type, or the type it references, is `rust::String`.
pub fn is_rust_string(ty: &TypeRef) -> (r: bool)
    ensures
        r == rust_string_type(*ty),
{
    match canonical_ref(ty) {
        TypeRef::Native { path, arguments } => str_eq(path.as_str(), "rust::String")
            && arguments.len() == 0,
        _ => false,
    }
}

/// Whether `t` is a primitive scalar.
pub open spec fn primitive_scalar(t: TypeRef) -> bool {
    match t {
        TypeRef::Bool | TypeRef::Char | TypeRef::I8 | TypeRef::I16 | TypeRef::I32 | TypeRef::I64
        | TypeRef::I128 | TypeRef::Isize | TypeRef::U8 | TypeRef::U16 | TypeRef::U32
        | TypeRef::U64 | TypeRef::U128 | TypeRef::Usize | TypeRef::F32 | TypeRef::F64 => true,
        _ => false,
    }
}

/// Returns whether the type converts to and from a JSON scalar: the JSON
/// value type itself, a string, or a primitive scalar, possibly referenced.
pub fn is_json_scalar_type(ty: &TypeRef) -> (r: bool)
    ensures
        r == (json_type(*ty) || rust_string_type(*ty) || primitive_scalar(canonical(*ty))),
{
    is_json_type(ty) || is_rust_string(ty) || match canonical_ref(ty) {
        TypeRef::Bool | TypeRef::Char | TypeRef::I8 | TypeRef::I16 | TypeRef::I32 | TypeRef::I64
        | TypeRef::I128 | TypeRef::Isize | TypeRef::U8 | TypeRef::U16 | TypeRef::U32
        | TypeRef::U64 | TypeRef::U128 | TypeRef::Usize | TypeRef::F32 | TypeRef::F64 => true,
        _ => false,
    }
}

} // verus!

verus! {

/// The position of the first module named `name`, or -1.
pub open spec fn first_module(modules: Seq<crate::hir::Module>, name: Seq<char>) -> int
    decreases modules.len(),
{
    if modules.len() == 0 {
        -1
    } else if first_module(modules.drop_last(), name) != -1 {
        first_module(modules.drop_last(), name)
    } else if modules.last().source_name@ == name {
        modules.len() - 1
    } else {
        -1
    }
}

/// The structs held at the module path `path` below a scope with the given
/// structs and modules; none where no such module exists.
pub open spec fn held_structs(
    structs: Seq<crate::hir::Struct>,
    modules: Seq<crate::hir::Module>,
    path: Seq<Seq<char>>,
) -> Seq<crate::hir::Struct>
    decreases path.len(),
{
    if path.len() == 0 {
        structs
    } else {
        let i = first_module(modules, path[0]);
        if i < 0 {
            Seq::empty()
        } else {
            held_structs(modules[i].structs@, modules[i].modules@, path.drop_first())
        }
    }
}

/// The interfaces held at the module path `path`.
pub open spec fn held_interfaces(
    interfaces: Seq<crate::hir::Interface>,
    modules: Seq<crate::hir::Module>,
    path: Seq<Seq<char>>,
) -> Seq<crate::hir::Interface>
    decreases path.len(),
{
    if path.len() == 0 {
        interfaces
    } else {
        let i = first_module(modules, path[0]);
        if i < 0 {
            Seq::empty()
        } else {
            held_interfaces(modules[i].interfaces@, modules[i].modules@, path.drop_first())
        }
    }
}

/// The functions held at the module path `path`.
pub open spec fn held_functions(
    functions: Seq<crate::hir::Function>,
    modules: Seq<crate::hir::Module>,
    path: Seq<Seq<char>>,
) -> Seq<crate::hir::Function>
    decreases path.len(),
{
    if path.len() == 0 {
        functions
    } else {
        let i = first_module(modules, path[0]);
        if i < 0 {
            Seq::empty()
        } else {
            held_functions(modules[i].functions@, modules[i].modules@, path.drop_first())
        }
    }
}

/// Replacing a module by one of the same name keeps every first position.
proof fn lemma_first_module_update(
    modules: Seq<crate::hir::Module>,
    p: int,
    m: crate::hir::Module,
    name: Seq<char>,
)
    requires
        0 <= p < modules.len(),
        modules[p].source_name@ == m.source_name@,
    ensures
        first_module(modules.update(p, m), name) == first_module(modules, name),
    decreases modules.len(),
{
    let updated = modules.update(p, m);
    if p < modules.len() - 1 {
        lemma_first_module_update(modules.drop_last(), p, m, name);
        assert(updated.drop_last() =~= modules.drop_last().update(p, m));
    } else {
        assert(updated.drop_last() =~= modules.drop_last());
    }
}

/// Appending a module adds a first position only for its own, new name.
proof fn lemma_first_module_push(modules: Seq<crate::hir::Module>, m: crate::hir::Module, name: Seq<char>)
    ensures
        first_module(modules.push(m), name) == if first_module(modules, name) != -1 {
            first_module(modules, name)
        } else if m.source_name@ == name {
            modules.len() as int
        } else {
            -1
        },
{
    assert(modules.push(m).drop_last() =~= modules);
}

/// Where the first module with a name lies.
proof fn lemma_first_module(modules: Seq<crate::hir::Module>, name: Seq<char>)
    ensures
        -1 <= first_module(modules, name) < modules.len(),
        first_module(modules, name) >= 0 ==> modules[first_module(modules, name)].source_name@ == name,
        forall|q: int|
            0 <= q < modules.len() && (first_module(modules, name) == -1 || q < first_module(modules, name))
                ==> (#[trigger] modules[q]).source_name@ != name,
    decreases modules.len(),
{
    if modules.len() > 0 {
        lemma_first_module(modules.drop_last(), name);
        assert forall|q: int|
            0 <= q < modules.len() && (first_module(modules, name) == -1 || q < first_module(modules, name))
                implies (#[trigger] modules[q]).source_name@ != name by {
            if q < modules.len() - 1 {
                assert(modules.drop_last()[q] == modules[q]);
            }
        }
    }
}

/// Finds the first module named `name`.
fn find_module(modules: &Vec<crate::hir::Module>, name: &str) -> (r: Option<usize>)
    ensures
        match r {
            Some(i) => i as int == first_module(modules@, name@) && i < modules@.len(),
            None => first_module(modules@, name@) == -1,
        },
{
    proof {
        lemma_first_module(modules@, name@);
    }
    let mut i: usize = 0;
    while i < modules.len()
        invariant
            i <= modules@.len(),
            forall|q: int| 0 <= q < i ==> (#[trigger] modules@[q]).source_name@ != name@,
            -1 <= first_module(modules@, name@) < modules@.len(),
            first_module(modules@, name@) >= 0 ==> modules@[first_module(modules@, name@)].source_name@ == name@,
            forall|q: int|
                0 <= q < modules@.len() && (first_module(modules@, name@) == -1 || q < first_module(modules@, name@))
                    ==> (#[trigger] modules@[q]).source_name@ != name@,
        decreases modules@.len() - i,
    {
        if str_eq(modules[i].source_name.as_str(), name) {
            return Some(i);
        }
        i = i + 1;
    }
    None
}

/// An empty module for a namespace.
fn empty_module(source_name: &str) -> (r: crate::hir::Module)
    ensures
        r.source_name@ == source_name@,
        r.rust_name@ == "__stainless_namespace_"@ + source_name@,
        r.interfaces@.len() == 0,
        r.structs@.len() == 0,
        r.functions@.len() == 0,
        r.modules@.len() == 0,
{
    crate::hir::Module {
        source_name: String::from_str(source_name),
        rust_name: module_name(source_name),
        interfaces: Vec::new(),
        structs: Vec::new(),
        functions: Vec::new(),
        modules: Vec::new(),
    }
}

/// Nothing is held anywhere below an empty scope.
proof fn lemma_held_empty(path: Seq<Seq<char>>)
    ensures
        held_structs(Seq::empty(), Seq::empty(), path) == Seq::<crate::hir::Struct>::empty(),
        held_interfaces(Seq::empty(), Seq::empty(), path) == Seq::<crate::hir::Interface>::empty(),
        held_functions(Seq::empty(), Seq::empty(), path) == Seq::<crate::hir::Function>::empty(),
{
}

/// The characters of each segment of a path.
pub open spec fn segment_views(path: Seq<String>) -> Seq<Seq<char>> {
    Seq::new(path.len(), |i: int| path[i]@)
}

/// Places a lowered struct in the module of its namespace path, from the
/// `depth`-th namespace on, creating the missing modules in order.
pub fn insert_struct(
    structs: &mut Vec<crate::hir::Struct>,
    modules: &mut Vec<crate::hir::Module>,
    namespaces: &Vec<String>,
    depth: usize,
    structure: crate::hir::Struct,
)
    requires
        depth <= namespaces@.len(),
    ensures
        forall|q: Seq<Seq<char>>|
            #[trigger] held_structs(final(structs)@, final(modules)@, q) == if q == segment_views(
                namespaces@,
            ).skip(depth as int) {
                held_structs(old(structs)@, old(modules)@, q).push(structure)
            } else {
                held_structs(old(structs)@, old(modules)@, q)
            },
        forall|q: Seq<Seq<char>>|
            #[trigger] held_interfaces(Seq::empty(), final(modules)@, q) == held_interfaces(
                Seq::empty(),
                old(modules)@,
                q,
            ),
        forall|q: Seq<Seq<char>>|
            #[trigger] held_functions(Seq::empty(), final(modules)@, q) == held_functions(
                Seq::empty(),
                old(modules)@,
                q,
            ),
    decreases namespaces@.len() - depth,
{
    let ghost target = segment_views(namespaces@).skip(depth as int);
    if depth == namespaces.len() {
        structs.push(structure);
        assert(target.len() == 0);
        assert forall|q: Seq<Seq<char>>| #[trigger] held_structs(structs@, modules@, q) == if q == target {
            held_structs(old(structs)@, old(modules)@, q).push(structure)
        } else {
            held_structs(old(structs)@, old(modules)@, q)
        } by {
            if q.len() == 0 {
                assert(q =~= target);
            }
        }
        return;
    }
    let name = namespaces[depth].as_str();
    assert(target[0] == name@);
    assert(target.drop_first() =~= segment_views(namespaces@).skip(depth + 1));
    let index = match find_module(modules, name) {
        Some(i) => i,
        None => {
            let ghost previous = modules@;
            modules.push(empty_module(name));
            proof {
                assert(modules@.last().structs@ =~= Seq::<crate::hir::Struct>::empty());
                assert(modules@.last().interfaces@ =~= Seq::<crate::hir::Interface>::empty());
                assert(modules@.last().functions@ =~= Seq::<crate::hir::Function>::empty());
                assert(modules@.last().modules@ =~= Seq::<crate::hir::Module>::empty());
                assert forall|n: Seq<char>| #[trigger] first_module(modules@, n) == if first_module(previous, n) != -1 {
                    first_module(previous, n)
                } else if modules@.last().source_name@ == n {
                    previous.len() as int
                } else {
                    -1
                } by {
                    lemma_first_module_push(previous, modules@.last(), n);
                }
                assert forall|q: Seq<Seq<char>>| #[trigger] held_structs(old(structs)@, modules@, q) == held_structs(old(structs)@, previous, q) by {
                    if q.len() > 0 {
                        lemma_first_module(previous, q[0]);
                    }
                    if q.len() > 0 && first_module(previous, q[0]) == -1 && modules@.last().source_name@ == q[0] {
                        lemma_held_empty(q.drop_first());
                    }
                }
                assert forall|q: Seq<Seq<char>>| #[trigger] held_interfaces(Seq::empty(), modules@, q) == held_interfaces(Seq::empty(), previous, q) by {
                    if q.len() > 0 {
                        lemma_first_module(previous, q[0]);
                    }
                    if q.len() > 0 && first_module(previous, q[0]) == -1 && modules@.last().source_name@ == q[0] {
                        lemma_held_empty(q.drop_first());
                    }
                }
                assert forall|q: Seq<Seq<char>>| #[trigger] held_functions(Seq::empty(), modules@, q) == held_functions(Seq::empty(), previous, q) by {
                    if q.len() > 0 {
                        lemma_first_module(previous, q[0]);
                    }
                    if q.len() > 0 && first_module(previous, q[0]) == -1 && modules@.last().source_name@ == q[0] {
                        lemma_held_empty(q.drop_first());
                    }
                }
                lemma_first_module_push(previous, modules@.last(), name@);
            }
            modules.len() - 1
        },
    };
    let ghost middle = modules@;
    assert(first_module(middle, name@) == index);
    assert(forall|q: Seq<Seq<char>>| #[trigger] held_structs(old(structs)@, middle, q) == held_structs(old(structs)@, old(modules)@, q));
    let module = &mut modules[index];
    insert_struct(&mut module.structs, &mut module.modules, namespaces, depth + 1, structure);
    proof {
        let updated = modules@;
        assert(updated == middle.update(index as int, updated[index as int]));
        lemma_module_gains_structs(old(structs)@, middle, updated, index as int, target, structure);
        lemma_module_keeps_interfaces(middle, updated, index as int);
        lemma_module_keeps_functions(middle, updated, index as int);
    }
}

} // verus!

verus! {

/// Replacing the first module named `target[0]` by one of the same name
/// whose structs at `target.drop_first()` gained `structure` adds it at
/// `target` and changes nothing elsewhere.
proof fn lemma_module_gains_structs(
    structs: Seq<crate::hir::Struct>,
    middle: Seq<crate::hir::Module>,
    updated: Seq<crate::hir::Module>,
    index: int,
    target: Seq<Seq<char>>,
    structure: crate::hir::Struct,
)
    requires
        0 <= index < middle.len(),
        target.len() > 0,
        first_module(middle, target[0]) == index,
        updated == middle.update(index, updated[index]),
        updated[index].source_name == middle[index].source_name,
        forall|q: Seq<Seq<char>>|
            #[trigger] held_structs(updated[index].structs@, updated[index].modules@, q) == if q
                == target.drop_first() {
                held_structs(middle[index].structs@, middle[index].modules@, q).push(structure)
            } else {
                held_structs(middle[index].structs@, middle[index].modules@, q)
            },
    ensures
        forall|q: Seq<Seq<char>>|
            #[trigger] held_structs(structs, updated, q) == if q == target {
                held_structs(structs, middle, q).push(structure)
            } else {
                held_structs(structs, middle, q)
            },
{
    assert forall|n: Seq<char>| #[trigger] first_module(updated, n) == first_module(middle, n) by {
        lemma_first_module_update(middle, index, updated[index], n);
    }
    lemma_first_module(middle, target[0]);
    assert forall|q: Seq<Seq<char>>| #[trigger] held_structs(structs, updated, q) == if q == target {
        held_structs(structs, middle, q).push(structure)
    } else {
        held_structs(structs, middle, q)
    } by {
        if q.len() > 0 && q[0] == target[0] {
            let rest = q.drop_first();
            assert(held_structs(structs, updated, q) == held_structs(
                updated[index].structs@,
                updated[index].modules@,
                rest,
            ));
            assert(held_structs(structs, middle, q) == held_structs(
                middle[index].structs@,
                middle[index].modules@,
                rest,
            ));
            assert(q == target <==> rest == target.drop_first()) by {
                if rest == target.drop_first() {
                    assert(q.len() == rest.len() + 1);
                    assert(target.len() == target.drop_first().len() + 1);
                    assert forall|k: int| 0 <= k < q.len() implies q[k] == target[k] by {
                        if k > 0 {
                            assert(q[k] == rest[k - 1]);
                            assert(target[k] == target.drop_first()[k - 1]);
                        }
                    }
                    assert(q =~= target);
                }
            }
        } else if q.len() > 0 {
            lemma_first_module(middle, q[0]);
            let i = first_module(middle, q[0]);
            assert(first_module(updated, q[0]) == i);
            if i >= 0 {
                assert(i != index);
                assert(updated[i] == middle[i]);
            }
            assert(q != target);
        } else {
            assert(q != target);
        }
    }
}

/// Replacing a module by one of the same name with the same interfaces,
/// whose nested modules hold the same interfaces, changes no interfaces held
/// anywhere.
proof fn lemma_module_keeps_interfaces(
    middle: Seq<crate::hir::Module>,
    updated: Seq<crate::hir::Module>,
    index: int,
)
    requires
        0 <= index < middle.len(),
        updated == middle.update(index, updated[index]),
        updated[index].source_name == middle[index].source_name,
        updated[index].interfaces == middle[index].interfaces,
        forall|q: Seq<Seq<char>>|
            #[trigger] held_interfaces(Seq::empty(), updated[index].modules@, q) == held_interfaces(
                Seq::empty(),
                middle[index].modules@,
                q,
            ),
    ensures
        forall|q: Seq<Seq<char>>|
            #[trigger] held_interfaces(Seq::empty(), updated, q) == held_interfaces(Seq::empty(), middle, q),
{
    assert forall|n: Seq<char>| #[trigger] first_module(updated, n) == first_module(middle, n) by {
        lemma_first_module_update(middle, index, updated[index], n);
    }
    assert forall|q: Seq<Seq<char>>| #[trigger] held_interfaces(Seq::empty(), updated, q) == held_interfaces(
        Seq::empty(),
        middle,
        q,
    ) by {
        if q.len() > 0 {
            lemma_first_module(middle, q[0]);
            let i = first_module(middle, q[0]);
            let rest = q.drop_first();
            assert(first_module(updated, q[0]) == i);
            if i >= 0 {
                assert(held_interfaces(Seq::empty(), updated, q) == held_interfaces(
                    updated[i].interfaces@,
                    updated[i].modules@,
                    rest,
                ));
                assert(held_interfaces(Seq::empty(), middle, q) == held_interfaces(
                    middle[i].interfaces@,
                    middle[i].modules@,
                    rest,
                ));
                if i == index {
                    if rest.len() > 0 {
                        assert(held_interfaces(updated[index].interfaces@, updated[index].modules@, rest)
                            == held_interfaces(Seq::empty(), updated[index].modules@, rest));
                        assert(held_interfaces(middle[index].interfaces@, middle[index].modules@, rest)
                            == held_interfaces(Seq::empty(), middle[index].modules@, rest));
                    }
                } else {
                    assert(updated[i] == middle[i]);
                }
            }
        }
    }
}

/// Replacing a module by one of the same name with the same functions,
/// whose nested modules hold the same functions, changes no functions held
/// anywhere.
proof fn lemma_module_keeps_functions(
    middle: Seq<crate::hir::Module>,
    updated: Seq<crate::hir::Module>,
    index: int,
)
    requires
        0 <= index < middle.len(),
        updated == middle.update(index, updated[index]),
        updated[index].source_name == middle[index].source_name,
        updated[index].functions == middle[index].functions,
        forall|q: Seq<Seq<char>>|
            #[trigger] held_functions(Seq::empty(), updated[index].modules@, q) == held_functions(
                Seq::empty(),
                middle[index].modules@,
                q,
            ),
    ensures
        forall|q: Seq<Seq<char>>|
            #[trigger] held_functions(Seq::empty(), updated, q) == held_functions(Seq::empty(), middle, q),
{
    assert forall|n: Seq<char>| #[trigger] first_module(updated, n) == first_module(middle, n) by {
        lemma_first_module_update(middle, index, updated[index], n);
    }
    assert forall|q: Seq<Seq<char>>| #[trigger] held_functions(Seq::empty(), updated, q) == held_functions(
        Seq::empty(),
        middle,
        q,
    ) by {
        if q.len() > 0 {
            lemma_first_module(middle, q[0]);
            let i = first_module(middle, q[0]);
            let rest = q.drop_first();
            assert(first_module(updated, q[0]) == i);
            if i >= 0 {
                assert(held_functions(Seq::empty(), updated, q) == held_functions(
                    updated[i].functions@,
                    updated[i].modules@,
                    rest,
                ));
                assert(held_functions(Seq::empty(), middle, q) == held_functions(
                    middle[i].functions@,
                    middle[i].modules@,
                    rest,
                ));
                if i == index {
                    if rest.len() > 0 {
                        assert(held_functions(updated[index].functions@, updated[index].modules@, rest)
                            == held_functions(Seq::empty(), updated[index].modules@, rest));
                        assert(held_functions(middle[index].functions@, middle[index].modules@, rest)
                            == held_functions(Seq::empty(), middle[index].modules@, rest));
                    }
                } else {
                    assert(updated[i] == middle[i]);
                }
            }
        }
    }
}

} // verus!

verus! {

/// Replacing the first module named `target[0]` by one of the same name
/// whose interfaces at `target.drop_first()` gained `interface` adds it at
/// `target` and changes nothing elsewhere.
proof fn lemma_module_gains_interfaces(
    interfaces_held: Seq<crate::hir::Interface>,
    middle: Seq<crate::hir::Module>,
    updated: Seq<crate::hir::Module>,
    index: int,
    target: Seq<Seq<char>>,
    interface: crate::hir::Interface,
)
    requires
        0 <= index < middle.len(),
        target.len() > 0,
        first_module(middle, target[0]) == index,
        updated == middle.update(index, updated[index]),
        updated[index].source_name == middle[index].source_name,
        forall|q: Seq<Seq<char>>|
            #[trigger] held_interfaces(updated[index].interfaces@, updated[index].modules@, q) == if q
                == target.drop_first() {
                held_interfaces(middle[index].interfaces@, middle[index].modules@, q).push(interface)
            } else {
                held_interfaces(middle[index].interfaces@, middle[index].modules@, q)
            },
    ensures
        forall|q: Seq<Seq<char>>|
            #[trigger] held_interfaces(interfaces_held, updated, q) == if q == target {
                held_interfaces(interfaces_held, middle, q).push(interface)
            } else {
                held_interfaces(interfaces_held, middle, q)
            },
{
    assert forall|n: Seq<char>| #[trigger] first_module(updated, n) == first_module(middle, n) by {
        lemma_first_module_update(middle, index, updated[index], n);
    }
    lemma_first_module(middle, target[0]);
    assert forall|q: Seq<Seq<char>>| #[trigger] held_interfaces(interfaces_held, updated, q) == if q == target {
        held_interfaces(interfaces_held, middle, q).push(interface)
    } else {
        held_interfaces(interfaces_held, middle, q)
    } by {
        if q.len() > 0 && q[0] == target[0] {
            let rest = q.drop_first();
            assert(held_interfaces(interfaces_held, updated, q) == held_interfaces(
                updated[index].interfaces@,
                updated[index].modules@,
                rest,
            ));
            assert(held_interfaces(interfaces_held, middle, q) == held_interfaces(
                middle[index].interfaces@,
                middle[index].modules@,
                rest,
            ));
            assert(q == target <==> rest == target.drop_first()) by {
                if rest == target.drop_first() {
                    assert(q.len() == rest.len() + 1);
                    assert(target.len() == target.drop_first().len() + 1);
                    assert forall|k: int| 0 <= k < q.len() implies q[k] == target[k] by {
                        if k > 0 {
                            assert(q[k] == rest[k - 1]);
                            assert(target[k] == target.drop_first()[k - 1]);
                        }
                    }
                    assert(q =~= target);
                }
            }
        } else if q.len() > 0 {
            lemma_first_module(middle, q[0]);
            let i = first_module(middle, q[0]);
            assert(first_module(updated, q[0]) == i);
            if i >= 0 {
                assert(i != index);
                assert(updated[i] == middle[i]);
            }
            assert(q != target);
        } else {
            assert(q != target);
        }
    }
}

/// Replacing the first module named `target[0]` by one of the same name
/// whose functions at `target.drop_first()` gained `function` adds it at
/// `target` and changes nothing elsewhere.
proof fn lemma_module_gains_functions(
    functions_held: Seq<crate::hir::Function>,
    middle: Seq<crate::hir::Module>,
    updated: Seq<crate::hir::Module>,
    index: int,
    target: Seq<Seq<char>>,
    function: crate::hir::Function,
)
    requires
        0 <= index < middle.len(),
        target.len() > 0,
        first_module(middle, target[0]) == index,
        updated == middle.update(index, updated[index]),
        updated[index].source_name == middle[index].source_name,
        forall|q: Seq<Seq<char>>|
            #[trigger] held_functions(updated[index].functions@, updated[index].modules@, q) == if q
                == target.drop_first() {
                held_functions(middle[index].functions@, middle[index].modules@, q).push(function)
            } else {
                held_functions(middle[index].functions@, middle[index].modules@, q)
            },
    ensures
        forall|q: Seq<Seq<char>>|
            #[trigger] held_functions(functions_held, updated, q) == if q == target {
                held_functions(functions_held, middle, q).push(function)
            } else {
                held_functions(functions_held, middle, q)
            },
{
    assert forall|n: Seq<char>| #[trigger] first_module(updated, n) == first_module(middle, n) by {
        lemma_first_module_update(middle, index, updated[index], n);
    }
    lemma_first_module(middle, target[0]);
    assert forall|q: Seq<Seq<char>>| #[trigger] held_functions(functions_held, updated, q) == if q == target {
        held_functions(functions_held, middle, q).push(function)
    } else {
        held_functions(functions_held, middle, q)
    } by {
        if q.len() > 0 && q[0] == target[0] {
            let rest = q.drop_first();
            assert(held_functions(functions_held, updated, q) == held_functions(
                updated[index].functions@,
                updated[index].modules@,
                rest,
            ));
            assert(held_functions(functions_held, middle, q) == held_functions(
                middle[index].functions@,
                middle[index].modules@,
                rest,
            ));
            assert(q == target <==> rest == target.drop_first()) by {
                if rest == target.drop_first() {
                    assert(q.len() == rest.len() + 1);
                    assert(target.len() == target.drop_first().len() + 1);
                    assert forall|k: int| 0 <= k < q.len() implies q[k] == target[k] by {
                        if k > 0 {
                            assert(q[k] == rest[k - 1]);
                            assert(target[k] == target.drop_first()[k - 1]);
                        }
                    }
                    assert(q =~= target);
                }
            }
        } else if q.len() > 0 {
            lemma_first_module(middle, q[0]);
            let i = first_module(middle, q[0]);
            assert(first_module(updated, q[0]) == i);
            if i >= 0 {
                assert(i != index);
                assert(updated[i] == middle[i]);
            }
            assert(q != target);
        } else {
            assert(q != target);
        }
    }
}

/// Replacing a module by one of the same name with the same structs,
/// whose nested modules hold the same structs, changes no structs held
/// anywhere.
proof fn lemma_module_keeps_structs(
    middle: Seq<crate::hir::Module>,
    updated: Seq<crate::hir::Module>,
    index: int,
)
    requires
        0 <= index < middle.len(),
        updated == middle.update(index, updated[index]),
        updated[index].source_name == middle[index].source_name,
        updated[index].structs == middle[index].structs,
        forall|q: Seq<Seq<char>>|
            #[trigger] held_structs(Seq::empty(), updated[index].modules@, q) == held_structs(
                Seq::empty(),
                middle[index].modules@,
                q,
            ),
    ensures
        forall|q: Seq<Seq<char>>|
            #[trigger] held_structs(Seq::empty(), updated, q) == held_structs(Seq::empty(), middle, q),
{
    assert forall|n: Seq<char>| #[trigger] first_module(updated, n) == first_module(middle, n) by {
        lemma_first_module_update(middle, index, updated[index], n);
    }
    assert forall|q: Seq<Seq<char>>| #[trigger] held_structs(Seq::empty(), updated, q) == held_structs(
        Seq::empty(),
        middle,
        q,
    ) by {
        if q.len() > 0 {
            lemma_first_module(middle, q[0]);
            let i = first_module(middle, q[0]);
            let rest = q.drop_first();
            assert(first_module(updated, q[0]) == i);
            if i >= 0 {
                assert(held_structs(Seq::empty(), updated, q) == held_structs(
                    updated[i].structs@,
                    updated[i].modules@,
                    rest,
                ));
                assert(held_structs(Seq::empty(), middle, q) == held_structs(
                    middle[i].structs@,
                    middle[i].modules@,
                    rest,
                ));
                if i == index {
                    if rest.len() > 0 {
                        assert(held_structs(updated[index].structs@, updated[index].modules@, rest)
                            == held_structs(Seq::empty(), updated[index].modules@, rest));
                        assert(held_structs(middle[index].structs@, middle[index].modules@, rest)
                            == held_structs(Seq::empty(), middle[index].modules@, rest));
                    }
                } else {
                    assert(updated[i] == middle[i]);
                }
            }
        }
    }
}

/// Places a lowered interface in the module of its namespace path, from the
/// `depth`-th namespace on, creating the missing modules in order.
pub fn insert_interface(
    interfaces: &mut Vec<crate::hir::Interface>,
    modules: &mut Vec<crate::hir::Module>,
    namespaces: &Vec<String>,
    depth: usize,
    interface: crate::hir::Interface,
)
    requires
        depth <= namespaces@.len(),
    ensures
        forall|q: Seq<Seq<char>>|
            #[trigger] held_interfaces(final(interfaces)@, final(modules)@, q) == if q == segment_views(
                namespaces@,
            ).skip(depth as int) {
                held_interfaces(old(interfaces)@, old(modules)@, q).push(interface)
            } else {
                held_interfaces(old(interfaces)@, old(modules)@, q)
            },
        forall|q: Seq<Seq<char>>|
            #[trigger] held_structs(Seq::empty(), final(modules)@, q) == held_structs(
                Seq::empty(),
                old(modules)@,
                q,
            ),
        forall|q: Seq<Seq<char>>|
            #[trigger] held_functions(Seq::empty(), final(modules)@, q) == held_functions(
                Seq::empty(),
                old(modules)@,
                q,
            ),
    decreases namespaces@.len() - depth,
{
    let ghost target = segment_views(namespaces@).skip(depth as int);
    if depth == namespaces.len() {
        interfaces.push(interface);
        assert(target.len() == 0);
        assert forall|q: Seq<Seq<char>>| #[trigger] held_interfaces(interfaces@, modules@, q) == if q == target {
            held_interfaces(old(interfaces)@, old(modules)@, q).push(interface)
        } else {
            held_interfaces(old(interfaces)@, old(modules)@, q)
        } by {
            if q.len() == 0 {
                assert(q =~= target);
            }
        }
        return;
    }
    let name = namespaces[depth].as_str();
    assert(target[0] == name@);
    assert(target.drop_first() =~= segment_views(namespaces@).skip(depth + 1));
    let index = match find_module(modules, name) {
        Some(i) => i,
        None => {
            let ghost previous = modules@;
            modules.push(empty_module(name));
            proof {
                assert(modules@.last().structs@ =~= Seq::<crate::hir::Struct>::empty());
                assert(modules@.last().interfaces@ =~= Seq::<crate::hir::Interface>::empty());
                assert(modules@.last().functions@ =~= Seq::<crate::hir::Function>::empty());
                assert(modules@.last().modules@ =~= Seq::<crate::hir::Module>::empty());
                assert forall|n: Seq<char>| #[trigger] first_module(modules@, n) == if first_module(previous, n) != -1 {
                    first_module(previous, n)
                } else if modules@.last().source_name@ == n {
                    previous.len() as int
                } else {
                    -1
                } by {
                    lemma_first_module_push(previous, modules@.last(), n);
                }
                assert forall|q: Seq<Seq<char>>| #[trigger] held_interfaces(old(interfaces)@, modules@, q) == held_interfaces(old(interfaces)@, previous, q) by {
                    if q.len() > 0 {
                        lemma_first_module(previous, q[0]);
                    }
                    if q.len() > 0 && first_module(previous, q[0]) == -1 && modules@.last().source_name@ == q[0] {
                        lemma_held_empty(q.drop_first());
                    }
                }
                assert forall|q: Seq<Seq<char>>| #[trigger] held_structs(Seq::empty(), modules@, q) == held_structs(Seq::empty(), previous, q) by {
                    if q.len() > 0 {
                        lemma_first_module(previous, q[0]);
                    }
                    if q.len() > 0 && first_module(previous, q[0]) == -1 && modules@.last().source_name@ == q[0] {
                        lemma_held_empty(q.drop_first());
                    }
                }
                assert forall|q: Seq<Seq<char>>| #[trigger] held_functions(Seq::empty(), modules@, q) == held_functions(Seq::empty(), previous, q) by {
                    if q.len() > 0 {
                        lemma_first_module(previous, q[0]);
                    }
                    if q.len() > 0 && first_module(previous, q[0]) == -1 && modules@.last().source_name@ == q[0] {
                        lemma_held_empty(q.drop_first());
                    }
                }
                lemma_first_module_push(previous, modules@.last(), name@);
            }
            modules.len() - 1
        },
    };
    let ghost middle = modules@;
    assert(first_module(middle, name@) == index);
    assert(forall|q: Seq<Seq<char>>| #[trigger] held_interfaces(old(interfaces)@, middle, q) == held_interfaces(old(interfaces)@, old(modules)@, q));
    let module = &mut modules[index];
    insert_interface(&mut module.interfaces, &mut module.modules, namespaces, depth + 1, interface);
    proof {
        let updated = modules@;
        assert(updated == middle.update(index as int, updated[index as int]));
        lemma_module_gains_interfaces(old(interfaces)@, middle, updated, index as int, target, interface);
        lemma_module_keeps_structs(middle, updated, index as int);
        lemma_module_keeps_functions(middle, updated, index as int);
    }
}

/// Places a lowered function in the module of its namespace path, from the
/// `depth`-th namespace on, creating the missing modules in order.
pub fn insert_function(
    functions: &mut Vec<crate::hir::Function>,
    modules: &mut Vec<crate::hir::Module>,
    namespaces: &Vec<String>,
    depth: usize,
    function: crate::hir::Function,
)
    requires
        depth <= namespaces@.len(),
    ensures
        forall|q: Seq<Seq<char>>|
            #[trigger] held_functions(final(functions)@, final(modules)@, q) == if q == segment_views(
                namespaces@,
            ).skip(depth as int) {
                held_functions(old(functions)@, old(modules)@, q).push(function)
            } else {
                held_functions(old(functions)@, old(modules)@, q)
            },
        forall|q: Seq<Seq<char>>|
            #[trigger] held_structs(Seq::empty(), final(modules)@, q) == held_structs(
                Seq::empty(),
                old(modules)@,
                q,
            ),
        forall|q: Seq<Seq<char>>|
            #[trigger] held_interfaces(Seq::empty(), final(modules)@, q) == held_interfaces(
                Seq::empty(),
                old(modules)@,
                q,
            ),
    decreases namespaces@.len() - depth,
{
    let ghost target = segment_views(namespaces@).skip(depth as int);
    if depth == namespaces.len() {
        functions.push(function);
        assert(target.len() == 0);
        assert forall|q: Seq<Seq<char>>| #[trigger] held_functions(functions@, modules@, q) == if q == target {
            held_functions(old(functions)@, old(modules)@, q).push(function)
        } else {
            held_functions(old(functions)@, old(modules)@, q)
        } by {
            if q.len() == 0 {
                assert(q =~= target);
            }
        }
        return;
    }
    let name = namespaces[depth].as_str();
    assert(target[0] == name@);
    assert(target.drop_first() =~= segment_views(namespaces@).skip(depth + 1));
    let index = match find_module(modules, name) {
        Some(i) => i,
        None => {
            let ghost previous = modules@;
            modules.push(empty_module(name));
            proof {
                assert(modules@.last().structs@ =~= Seq::<crate::hir::Struct>::empty());
                assert(modules@.last().interfaces@ =~= Seq::<crate::hir::Interface>::empty());
                assert(modules@.last().functions@ =~= Seq::<crate::hir::Function>::empty());
                assert(modules@.last().modules@ =~= Seq::<crate::hir::Module>::empty());
                assert forall|n: Seq<char>| #[trigger] first_module(modules@, n) == if first_module(previous, n) != -1 {
                    first_module(previous, n)
                } else if modules@.last().source_name@ == n {
                    previous.len() as int
                } else {
                    -1
                } by {
                    lemma_first_module_push(previous, modules@.last(), n);
                }
                assert forall|q: Seq<Seq<char>>| #[trigger] held_functions(old(functions)@, modules@, q) == held_functions(old(functions)@, previous, q) by {
                    if q.len() > 0 {
                        lemma_first_module(previous, q[0]);
                    }
                    if q.len() > 0 && first_module(previous, q[0]) == -1 && modules@.last().source_name@ == q[0] {
                        lemma_held_empty(q.drop_first());
                    }
                }
                assert forall|q: Seq<Seq<char>>| #[trigger] held_structs(Seq::empty(), modules@, q) == held_structs(Seq::empty(), previous, q) by {
                    if q.len() > 0 {
                        lemma_first_module(previous, q[0]);
                    }
                    if q.len() > 0 && first_module(previous, q[0]) == -1 && modules@.last().source_name@ == q[0] {
                        lemma_held_empty(q.drop_first());
                    }
                }
                assert forall|q: Seq<Seq<char>>| #[trigger] held_interfaces(Seq::empty(), modules@, q) == held_interfaces(Seq::empty(), previous, q) by {
                    if q.len() > 0 {
                        lemma_first_module(previous, q[0]);
                    }
                    if q.len() > 0 && first_module(previous, q[0]) == -1 && modules@.last().source_name@ == q[0] {
                        lemma_held_empty(q.drop_first());
                    }
                }
                lemma_first_module_push(previous, modules@.last(), name@);
            }
            modules.len() - 1
        },
    };
    let ghost middle = modules@;
    assert(first_module(middle, name@) == index);
    assert(forall|q: Seq<Seq<char>>| #[trigger] held_functions(old(functions)@, middle, q) == held_functions(old(functions)@, old(modules)@, q));
    let module = &mut modules[index];
    insert_function(&mut module.functions, &mut module.modules, namespaces, depth + 1, function);
    proof {
        let updated = modules@;
        assert(updated == middle.update(index as int, updated[index as int]));
        lemma_module_gains_functions(old(functions)@, middle, updated, index as int, target, function);
        lemma_module_keeps_structs(middle, updated, index as int);
        lemma_module_keeps_interfaces(middle, updated, index as int);
    }
}

} // verus!

verus! {

/// The Rust name of a primitive source type.
pub open spec fn primitive_name(t: TypeRef) -> Option<Seq<char>> {
    match t {
        TypeRef::Bool => Some("bool"@),
        TypeRef::Char => Some("char"@),
        TypeRef::I8 => Some("i8"@),
        TypeRef::I16 => Some("i16"@),
        TypeRef::I32 => Some("i32"@),
        TypeRef::I64 => Some("i64"@),
        TypeRef::I128 => Some("i128"@),
        TypeRef::Isize => Some("isize"@),
        TypeRef::U8 => Some("u8"@),
        TypeRef::U16 => Some("u16"@),
        TypeRef::U32 => Some("u32"@),
        TypeRef::U64 => Some("u64"@),
        TypeRef::U128 => Some("u128"@),
        TypeRef::Usize => Some("usize"@),
        TypeRef::F32 => Some("f32"@),
        TypeRef::F64 => Some("f64"@),
        _ => None,
    }
}

/// Whether the registry `types` lowers the native type `path` at all:
/// `rust::Option` and `rust::Result` are std's own, any other must be
/// registered.
pub open spec fn native_known(path: Seq<char>, types: Seq<NativeTypeBinding>) -> bool {
    ||| path == "rust::Option"@
    ||| path == "rust::Result"@
    ||| exists|i: int| 0 <= i < types.len() && #[trigger] types[i].stainless_path@ == path
}

/// Whether `rust_path` is the Rust path the native type `path` lowers to
/// (registered paths are unique, so at most one `rust_path` qualifies).
pub open spec fn native_lowers_to(path: Seq<char>, types: Seq<NativeTypeBinding>, rust_path: Seq<char>) -> bool {
    if path == "rust::Option"@ {
        rust_path == "::std::option::Option"@
    } else if path == "rust::Result"@ {
        rust_path == "::std::result::Result"@
    } else {
        exists|i: int|
            0 <= i < types.len() && #[trigger] types[i].stainless_path@ == path && types[i].rust_path@ == rust_path
    }
}

/// The message of the diagnostic for a native type without a lowering.
pub open spec fn missing_native_message(path: Seq<char>) -> Seq<char> {
    "native type `"@ + path + "` has no Rust type lowering"@
}

/// The diagnostic, as code and message, that lowering `t` reports: the
/// first unresolved or unregistered type met in a depth-first walk, or
/// `None` when `t` lowers.
pub open spec fn lowering_failure(t: TypeRef, types: Seq<NativeTypeBinding>) -> Option<(Seq<char>, Seq<char>)>
    decreases t,
{
    match t {
        TypeRef::Parameter(_) => Some(("HIR013"@, "unresolved type reached HIR lowering"@)),
        TypeRef::Native { path, arguments } => if native_known(path@, types) {
            list_failure(arguments@, types)
        } else {
            Some(("HIR014"@, missing_native_message(path@)))
        },
        TypeRef::Reference { target, .. } => lowering_failure(*target, types),
        TypeRef::Callback(callback) => match list_failure(callback.parameters@, types) {
            Some(f) => Some(f),
            None => lowering_failure(*callback.return_type, types),
        },
        _ => None,
    }
}

/// [`lowering_failure`] of the first type of `ts` that fails, if any.
pub open spec fn list_failure(ts: Seq<TypeRef>, types: Seq<NativeTypeBinding>) -> Option<(Seq<char>, Seq<char>)>
    decreases ts,
{
    if ts.len() == 0 {
        None
    } else {
        match lowering_failure(ts[0], types) {
            Some(f) => Some(f),
            None => list_failure(ts.drop_first(), types),
        }
    }
}

/// Whether `out` is the backend type `t` lowers to: primitives by their
/// Rust name, `void` as unit, native types by their Rust path with lowered
/// arguments, references and callbacks part by part (a callback parameter
/// type of the bindings model is synchronous).
pub open spec fn lowers_to(t: TypeRef, types: Seq<NativeTypeBinding>, out: crate::hir::Type) -> bool
    decreases t,
{
    match t {
        TypeRef::Void => out is Unit,
        TypeRef::Parameter(_) => false,
        TypeRef::Native { path, arguments } => match out {
            crate::hir::Type::Native { rust_path, arguments: lowered } => native_lowers_to(path@, types, rust_path@)
                && list_lowers_to(arguments@, types, lowered@),
            _ => false,
        },
        TypeRef::Reference { mutable, target } => match out {
            crate::hir::Type::Reference { mutable: m, target: o } => m == mutable && lowers_to(*target, types, *o),
            _ => false,
        },
        TypeRef::Callback(callback) => match out {
            crate::hir::Type::Callback { is_async, kind, escape, parameters, return_type } => {
                &&& !is_async
                &&& kind == callback.kind
                &&& escape == callback.escape
                &&& list_lowers_to(callback.parameters@, types, parameters@)
                &&& lowers_to(*callback.return_type, types, *return_type)
            },
            _ => false,
        },
        _ => match primitive_name(t) {
            Some(name) => out matches crate::hir::Type::Primitive(n) && n@ == name,
            None => false,
        },
    }
}

/// [`lowers_to`], element by element.
pub open spec fn list_lowers_to(ts: Seq<TypeRef>, types: Seq<NativeTypeBinding>, outs: Seq<crate::hir::Type>) -> bool
    decreases ts,
{
    if ts.len() == 0 {
        outs.len() == 0
    } else {
        outs.len() > 0 && lowers_to(ts[0], types, outs[0]) && list_lowers_to(ts.drop_first(), types, outs.drop_first())
    }
}

/// `after` is `before` with one backend lowering diagnostic at `span`
/// appended, whose code and message are `report`.
pub open spec fn hir_reported(
    before: Seq<Diagnostic>,
    after: Seq<Diagnostic>,
    report: (Seq<char>, Seq<char>),
    span: Span,
) -> bool {
    &&& after.len() == before.len() + 1
    &&& after.take(before.len() as int) == before
    &&& after.last().phase == DiagnosticPhase::Hir
    &&& after.last().code@ == report.0
    &&& after.last().message@ == report.1
    &&& after.last().span == span
}

/// Lowers a native type path to its Rust path: `rust::Option` and
/// `rust::Result` to std's, any other through the registry; a path the
/// registry lacks is reported as `HIR014` at `span`.
pub fn native_type_path(
    path: &str,
    bindings: &NativeBindings,
    span: Span,
    diagnostics: &mut Vec<Diagnostic>,
) -> (r: Option<String>)
    ensures
        match r {
            Some(p) => native_known(path@, bindings@) && native_lowers_to(path@, bindings@, p@)
                && final(diagnostics)@ == old(diagnostics)@,
            None => !native_known(path@, bindings@) && hir_reported(
                old(diagnostics)@,
                final(diagnostics)@,
                ("HIR014"@, missing_native_message(path@)),
                span,
            ),
        },
{
    if str_eq(path, "rust::Option") {
        return Some(String::from_str("::std::option::Option"));
    }
    if str_eq(path, "rust::Result") {
        return Some(String::from_str("::std::result::Result"));
    }
    match bindings.type_by_path(path) {
        Some(native) => Some(native.rust_path.clone()),
        None => {
            let mut message = String::from_str("native type `");
            message.append(path);
            message.append("` has no Rust type lowering");
            diagnostics.push(Diagnostic::hir("HIR014", message, span));
            proof {
                assert(final(diagnostics)@.take(old(diagnostics)@.len() as int) =~= old(diagnostics)@);
            }
            None
        },
    }
}

/// Lowers a resolved type to the backend type it stands for; an unresolved
/// type parameter (`HIR013`) or an unregistered native type (`HIR014`) is
/// reported at `span`, the first one met, and nothing is returned.
pub fn lower_type(
    ty: &TypeRef,
    bindings: &NativeBindings,
    span: Span,
    diagnostics: &mut Vec<Diagnostic>,
) -> (r: Option<crate::hir::Type>)
    ensures
        match lowering_failure(*ty, bindings@) {
            None => r matches Some(out) && lowers_to(*ty, bindings@, out) && final(diagnostics)@
                == old(diagnostics)@,
            Some(report) => r is None && hir_reported(old(diagnostics)@, final(diagnostics)@, report, span),
        },
    decreases ty, 0nat, 0nat,
{
    match ty {
        TypeRef::Void => Some(crate::hir::Type::Unit),
        TypeRef::Bool => Some(crate::hir::Type::Primitive("bool")),
        TypeRef::Char => Some(crate::hir::Type::Primitive("char")),
        TypeRef::I8 => Some(crate::hir::Type::Primitive("i8")),
        TypeRef::I16 => Some(crate::hir::Type::Primitive("i16")),
        TypeRef::I32 => Some(crate::hir::Type::Primitive("i32")),
        TypeRef::I64 => Some(crate::hir::Type::Primitive("i64")),
        TypeRef::I128 => Some(crate::hir::Type::Primitive("i128")),
        TypeRef::Isize => Some(crate::hir::Type::Primitive("isize")),
        TypeRef::U8 => Some(crate::hir::Type::Primitive("u8")),
        TypeRef::U16 => Some(crate::hir::Type::Primitive("u16")),
        TypeRef::U32 => Some(crate::hir::Type::Primitive("u32")),
        TypeRef::U64 => Some(crate::hir::Type::Primitive("u64")),
        TypeRef::U128 => Some(crate::hir::Type::Primitive("u128")),
        TypeRef::Usize => Some(crate::hir::Type::Primitive("usize")),
        TypeRef::F32 => Some(crate::hir::Type::Primitive("f32")),
        TypeRef::F64 => Some(crate::hir::Type::Primitive("f64")),
        TypeRef::Parameter(_) => {
            diagnostics.push(
                Diagnostic::hir("HIR013", String::from_str("unresolved type reached HIR lowering"), span),
            );
            proof {
                assert(final(diagnostics)@.take(old(diagnostics)@.len() as int) =~= old(diagnostics)@);
            }
            None
        },
        TypeRef::Native { path, arguments } => {
            let rust_path = native_type_path(path.as_str(), bindings, span, diagnostics)?;
            assert(arguments@.skip(0) =~= arguments@);
            let lowered = lower_types_from(arguments, 0, bindings, span, diagnostics)?;
            Some(crate::hir::Type::Native { rust_path, arguments: lowered })
        },
        TypeRef::Reference { mutable, target } => {
            let lowered = lower_type(target, bindings, span, diagnostics)?;
            Some(crate::hir::Type::Reference { mutable: *mutable, target: Box::new(lowered) })
        },
        TypeRef::Callback(callback) => {
            assert(callback.parameters@.skip(0) =~= callback.parameters@);
            let parameters = lower_types_from(&callback.parameters, 0, bindings, span, diagnostics)?;
            let ghost middle = diagnostics@;
            let return_type = lower_type(&callback.return_type, bindings, span, diagnostics)?;
            Some(
                crate::hir::Type::Callback {
                    is_async: false,
                    kind: callback.kind,
                    escape: callback.escape,
                    parameters,
                    return_type: Box::new(return_type),
                },
            )
        },
    }
}

/// Lowers `types[start..]` in order, stopping at the first type that fails.
fn lower_types_from(
    ts: &Vec<TypeRef>,
    start: usize,
    bindings: &NativeBindings,
    span: Span,
    diagnostics: &mut Vec<Diagnostic>,
) -> (r: Option<Vec<crate::hir::Type>>)
    requires
        start <= ts@.len(),
    ensures
        match list_failure(ts@.skip(start as int), bindings@) {
            None => r matches Some(outs) && list_lowers_to(ts@.skip(start as int), bindings@, outs@)
                && final(diagnostics)@ == old(diagnostics)@,
            Some(report) => r is None && hir_reported(old(diagnostics)@, final(diagnostics)@, report, span),
        },
    decreases ts, 1nat, ts@.len() - start,
{
    let ghost rest = ts@.skip(start as int);
    if start == ts.len() {
        assert(rest.len() == 0);
        return Some(Vec::new());
    }
    proof {
        broadcast use vstd::std_specs::vec::axiom_vec_index_decreases;
        assert(decreases_to!(ts => ts@[start as int]));
        assert(rest[0] == ts@[start as int]);
        assert(rest.drop_first() =~= ts@.skip(start + 1));
    }
    let first = lower_type(&ts[start], bindings, span, diagnostics)?;
    let mut tail = lower_types_from(ts, start + 1, bindings, span, diagnostics)?;
    let ghost tail_view = tail@;
    tail.insert(0, first);
    proof {
        assert(tail@.drop_first() =~= tail_view);
    }
    Some(tail)
}

} // verus!

verus! {

/// A primitive type's Rust name reads back as that type in a manifest.
proof fn lemma_primitive_name_round_trip(t: TypeRef)
    ensures
        primitive_name(t) matches Some(name) ==> crate::interop::manifest::primitive_of(name) == Some(t),
{
    reveal_strlit("void");
    reveal_strlit("bool");
    reveal_strlit("char");
    reveal_strlit("i8");
    reveal_strlit("i16");
    reveal_strlit("i32");
    reveal_strlit("i64");
    reveal_strlit("i128");
    reveal_strlit("isize");
    reveal_strlit("u8");
    reveal_strlit("u16");
    reveal_strlit("u32");
    reveal_strlit("u64");
    reveal_strlit("u128");
    reveal_strlit("usize");
    reveal_strlit("f32");
    reveal_strlit("f64");
    match t {
        TypeRef::Bool => {
            assert("bool"@[0] != "void"@[0]);
            assert("bool"@ != "void"@);
            assert(crate::interop::manifest::primitive_of("bool"@) == Some(TypeRef::Bool));
        },
        TypeRef::Char => {
            assert("char"@[0] != "void"@[0]);
            assert("char"@ != "void"@);
            assert("char"@[0] != "bool"@[0]);
            assert("char"@ != "bool"@);
            assert(crate::interop::manifest::primitive_of("char"@) == Some(TypeRef::Char));
        },
        TypeRef::I8 => {
            assert("i8"@.len() != "void"@.len());
            assert("i8"@ != "void"@);
            assert("i8"@.len() != "bool"@.len());
            assert("i8"@ != "bool"@);
            assert("i8"@.len() != "char"@.len());
            assert("i8"@ != "char"@);
            assert(crate::interop::manifest::primitive_of("i8"@) == Some(TypeRef::I8));
        },
        TypeRef::I16 => {
            assert("i16"@.len() != "void"@.len());
            assert("i16"@ != "void"@);
            assert("i16"@.len() != "bool"@.len());
            assert("i16"@ != "bool"@);
            assert("i16"@.len() != "char"@.len());
            assert("i16"@ != "char"@);
            assert("i16"@.len() != "i8"@.len());
            assert("i16"@ != "i8"@);
            assert(crate::interop::manifest::primitive_of("i16"@) == Some(TypeRef::I16));
        },
        TypeRef::I32 => {
            assert("i32"@.len() != "void"@.len());
            assert("i32"@ != "void"@);
            assert("i32"@.len() != "bool"@.len());
            assert("i32"@ != "bool"@);
            assert("i32"@.len() != "char"@.len());
            assert("i32"@ != "char"@);
            assert("i32"@.len() != "i8"@.len());
            assert("i32"@ != "i8"@);
            assert("i32"@[1] != "i16"@[1]);
            assert("i32"@ != "i16"@);
            assert(crate::interop::manifest::primitive_of("i32"@) == Some(TypeRef::I32));
        },
        TypeRef::I64 => {
            assert("i64"@.len() != "void"@.len());
            assert("i64"@ != "void"@);
            assert("i64"@.len() != "bool"@.len());
            assert("i64"@ != "bool"@);
            assert("i64"@.len() != "char"@.len());
            assert("i64"@ != "char"@);
            assert("i64"@.len() != "i8"@.len());
            assert("i64"@ != "i8"@);
            assert("i64"@[1] != "i16"@[1]);
            assert("i64"@ != "i16"@);
            assert("i64"@[1] != "i32"@[1]);
            assert("i64"@ != "i32"@);
            assert(crate::interop::manifest::primitive_of("i64"@) == Some(TypeRef::I64));
        },
        TypeRef::I128 => {
            assert("i128"@[0] != "void"@[0]);
            assert("i128"@ != "void"@);
            assert("i128"@[0] != "bool"@[0]);
            assert("i128"@ != "bool"@);
            assert("i128"@[0] != "char"@[0]);
            assert("i128"@ != "char"@);
            assert("i128"@.len() != "i8"@.len());
            assert("i128"@ != "i8"@);
            assert("i128"@.len() != "i16"@.len());
            assert("i128"@ != "i16"@);
            assert("i128"@.len() != "i32"@.len());
            assert("i128"@ != "i32"@);
            assert("i128"@.len() != "i64"@.len());
            assert("i128"@ != "i64"@);
            assert(crate::interop::manifest::primitive_of("i128"@) == Some(TypeRef::I128));
        },
        TypeRef::Isize => {
            assert("isize"@.len() != "void"@.len());
            assert("isize"@ != "void"@);
            assert("isize"@.len() != "bool"@.len());
            assert("isize"@ != "bool"@);
            assert("isize"@.len() != "char"@.len());
            assert("isize"@ != "char"@);
            assert("isize"@.len() != "i8"@.len());
            assert("isize"@ != "i8"@);
            assert("isize"@.len() != "i16"@.len());
            assert("isize"@ != "i16"@);
            assert("isize"@.len() != "i32"@.len());
            assert("isize"@ != "i32"@);
            assert("isize"@.len() != "i64"@.len());
            assert("isize"@ != "i64"@);
            assert("isize"@.len() != "i128"@.len());
            assert("isize"@ != "i128"@);
            assert(crate::interop::manifest::primitive_of("isize"@) == Some(TypeRef::Isize));
        },
        TypeRef::U8 => {
            assert("u8"@.len() != "void"@.len());
            assert("u8"@ != "void"@);
            assert("u8"@.len() != "bool"@.len());
            assert("u8"@ != "bool"@);
            assert("u8"@.len() != "char"@.len());
            assert("u8"@ != "char"@);
            assert("u8"@[0] != "i8"@[0]);
            assert("u8"@ != "i8"@);
            assert("u8"@.len() != "i16"@.len());
            assert("u8"@ != "i16"@);
            assert("u8"@.len() != "i32"@.len());
            assert("u8"@ != "i32"@);
            assert("u8"@.len() != "i64"@.len());
            assert("u8"@ != "i64"@);
            assert("u8"@.len() != "i128"@.len());
            assert("u8"@ != "i128"@);
            assert("u8"@.len() != "isize"@.len());
            assert("u8"@ != "isize"@);
            assert(crate::interop::manifest::primitive_of("u8"@) == Some(TypeRef::U8));
        },
        TypeRef::U16 => {
            assert("u16"@.len() != "void"@.len());
            assert("u16"@ != "void"@);
            assert("u16"@.len() != "bool"@.len());
            assert("u16"@ != "bool"@);
            assert("u16"@.len() != "char"@.len());
            assert("u16"@ != "char"@);
            assert("u16"@.len() != "i8"@.len());
            assert("u16"@ != "i8"@);
            assert("u16"@[0] != "i16"@[0]);
            assert("u16"@ != "i16"@);
            assert("u16"@[0] != "i32"@[0]);
            assert("u16"@ != "i32"@);
            assert("u16"@[0] != "i64"@[0]);
            assert("u16"@ != "i64"@);
            assert("u16"@.len() != "i128"@.len());
            assert("u16"@ != "i128"@);
            assert("u16"@.len() != "isize"@.len());
            assert("u16"@ != "isize"@);
            assert("u16"@.len() != "u8"@.len());
            assert("u16"@ != "u8"@);
            assert(crate::interop::manifest::primitive_of("u16"@) == Some(TypeRef::U16));
        },
        TypeRef::U32 => {
            assert("u32"@.len() != "void"@.len());
            assert("u32"@ != "void"@);
            assert("u32"@.len() != "bool"@.len());
            assert("u32"@ != "bool"@);
            assert("u32"@.len() != "char"@.len());
            assert("u32"@ != "char"@);
            assert("u32"@.len() != "i8"@.len());
            assert("u32"@ != "i8"@);
            assert("u32"@[0] != "i16"@[0]);
            assert("u32"@ != "i16"@);
            assert("u32"@[0] != "i32"@[0]);
            assert("u32"@ != "i32"@);
            assert("u32"@[0] != "i64"@[0]);
            assert("u32"@ != "i64"@);
            assert("u32"@.len() != "i128"@.len());
            assert("u32"@ != "i128"@);
            assert("u32"@.len() != "isize"@.len());
            assert("u32"@ != "isize"@);
            assert("u32"@.len() != "u8"@.len());
            assert("u32"@ != "u8"@);
            assert("u32"@[1] != "u16"@[1]);
            assert("u32"@ != "u16"@);
            assert(crate::interop::manifest::primitive_of("u32"@) == Some(TypeRef::U32));
        },
        TypeRef::U64 => {
            assert("u64"@.len() != "void"@.len());
            assert("u64"@ != "void"@);
            assert("u64"@.len() != "bool"@.len());
            assert("u64"@ != "bool"@);
            assert("u64"@.len() != "char"@.len());
            assert("u64"@ != "char"@);
            assert("u64"@.len() != "i8"@.len());
            assert("u64"@ != "i8"@);
            assert("u64"@[0] != "i16"@[0]);
            assert("u64"@ != "i16"@);
            assert("u64"@[0] != "i32"@[0]);
            assert("u64"@ != "i32"@);
            assert("u64"@[0] != "i64"@[0]);
            assert("u64"@ != "i64"@);
            assert("u64"@.len() != "i128"@.len());
            assert("u64"@ != "i128"@);
            assert("u64"@.len() != "isize"@.len());
            assert("u64"@ != "isize"@);
            assert("u64"@.len() != "u8"@.len());
            assert("u64"@ != "u8"@);
            assert("u64"@[1] != "u16"@[1]);
            assert("u64"@ != "u16"@);
            assert("u64"@[1] != "u32"@[1]);
            assert("u64"@ != "u32"@);
            assert(crate::interop::manifest::primitive_of("u64"@) == Some(TypeRef::U64));
        },
        TypeRef::U128 => {
            assert("u128"@[0] != "void"@[0]);
            assert("u128"@ != "void"@);
            assert("u128"@[0] != "bool"@[0]);
            assert("u128"@ != "bool"@);
            assert("u128"@[0] != "char"@[0]);
            assert("u128"@ != "char"@);
            assert("u128"@.len() != "i8"@.len());
            assert("u128"@ != "i8"@);
            assert("u128"@.len() != "i16"@.len());
            assert("u128"@ != "i16"@);
            assert("u128"@.len() != "i32"@.len());
            assert("u128"@ != "i32"@);
            assert("u128"@.len() != "i64"@.len());
            assert("u128"@ != "i64"@);
            assert("u128"@[0] != "i128"@[0]);
            assert("u128"@ != "i128"@);
            assert("u128"@.len() != "isize"@.len());
            assert("u128"@ != "isize"@);
            assert("u128"@.len() != "u8"@.len());
            assert("u128"@ != "u8"@);
            assert("u128"@.len() != "u16"@.len());
            assert("u128"@ != "u16"@);
            assert("u128"@.len() != "u32"@.len());
            assert("u128"@ != "u32"@);
            assert("u128"@.len() != "u64"@.len());
            assert("u128"@ != "u64"@);
            assert(crate::interop::manifest::primitive_of("u128"@) == Some(TypeRef::U128));
        },
        TypeRef::Usize => {
            assert("usize"@.len() != "void"@.len());
            assert("usize"@ != "void"@);
            assert("usize"@.len() != "bool"@.len());
            assert("usize"@ != "bool"@);
            assert("usize"@.len() != "char"@.len());
            assert("usize"@ != "char"@);
            assert("usize"@.len() != "i8"@.len());
            assert("usize"@ != "i8"@);
            assert("usize"@.len() != "i16"@.len());
            assert("usize"@ != "i16"@);
            assert("usize"@.len() != "i32"@.len());
            assert("usize"@ != "i32"@);
            assert("usize"@.len() != "i64"@.len());
            assert("usize"@ != "i64"@);
            assert("usize"@.len() != "i128"@.len());
            assert("usize"@ != "i128"@);
            assert("usize"@[0] != "isize"@[0]);
            assert("usize"@ != "isize"@);
            assert("usize"@.len() != "u8"@.len());
            assert("usize"@ != "u8"@);
            assert("usize"@.len() != "u16"@.len());
            assert("usize"@ != "u16"@);
            assert("usize"@.len() != "u32"@.len());
            assert("usize"@ != "u32"@);
            assert("usize"@.len() != "u64"@.len());
            assert("usize"@ != "u64"@);
            assert("usize"@.len() != "u128"@.len());
            assert("usize"@ != "u128"@);
            assert(crate::interop::manifest::primitive_of("usize"@) == Some(TypeRef::Usize));
        },
        TypeRef::F32 => {
            assert("f32"@.len() != "void"@.len());
            assert("f32"@ != "void"@);
            assert("f32"@.len() != "bool"@.len());
            assert("f32"@ != "bool"@);
            assert("f32"@.len() != "char"@.len());
            assert("f32"@ != "char"@);
            assert("f32"@.len() != "i8"@.len());
            assert("f32"@ != "i8"@);
            assert("f32"@[0] != "i16"@[0]);
            assert("f32"@ != "i16"@);
            assert("f32"@[0] != "i32"@[0]);
            assert("f32"@ != "i32"@);
            assert("f32"@[0] != "i64"@[0]);
            assert("f32"@ != "i64"@);
            assert("f32"@.len() != "i128"@.len());
            assert("f32"@ != "i128"@);
            assert("f32"@.len() != "isize"@.len());
            assert("f32"@ != "isize"@);
            assert("f32"@.len() != "u8"@.len());
            assert("f32"@ != "u8"@);
            assert("f32"@[0] != "u16"@[0]);
            assert("f32"@ != "u16"@);
            assert("f32"@[0] != "u32"@[0]);
            assert("f32"@ != "u32"@);
            assert("f32"@[0] != "u64"@[0]);
            assert("f32"@ != "u64"@);
            assert("f32"@.len() != "u128"@.len());
            assert("f32"@ != "u128"@);
            assert("f32"@.len() != "usize"@.len());
            assert("f32"@ != "usize"@);
            assert(crate::interop::manifest::primitive_of("f32"@) == Some(TypeRef::F32));
        },
        TypeRef::F64 => {
            assert("f64"@.len() != "void"@.len());
            assert("f64"@ != "void"@);
            assert("f64"@.len() != "bool"@.len());
            assert("f64"@ != "bool"@);
            assert("f64"@.len() != "char"@.len());
            assert("f64"@ != "char"@);
            assert("f64"@.len() != "i8"@.len());
            assert("f64"@ != "i8"@);
            assert("f64"@[0] != "i16"@[0]);
            assert("f64"@ != "i16"@);
            assert("f64"@[0] != "i32"@[0]);
            assert("f64"@ != "i32"@);
            assert("f64"@[0] != "i64"@[0]);
            assert("f64"@ != "i64"@);
            assert("f64"@.len() != "i128"@.len());
            assert("f64"@ != "i128"@);
            assert("f64"@.len() != "isize"@.len());
            assert("f64"@ != "isize"@);
            assert("f64"@.len() != "u8"@.len());
            assert("f64"@ != "u8"@);
            assert("f64"@[0] != "u16"@[0]);
            assert("f64"@ != "u16"@);
            assert("f64"@[0] != "u32"@[0]);
            assert("f64"@ != "u32"@);
            assert("f64"@[0] != "u64"@[0]);
            assert("f64"@ != "u64"@);
            assert("f64"@.len() != "u128"@.len());
            assert("f64"@ != "u128"@);
            assert("f64"@.len() != "usize"@.len());
            assert("f64"@ != "usize"@);
            assert("f64"@[1] != "f32"@[1]);
            assert("f64"@ != "f32"@);
            assert(crate::interop::manifest::primitive_of("f64"@) == Some(TypeRef::F64));
        },
        _ => {},
    }
}

/// Law: the Rust name of a primitive type is the spelling a binding
/// manifest uses for that same type, and no two primitive types share a
/// name.
pub proof fn lemma_primitive_names(t: TypeRef, u: TypeRef)
    ensures
        primitive_name(t) matches Some(name) ==> crate::interop::manifest::primitive_of(name) == Some(t),
        primitive_name(t) matches Some(name) ==> (primitive_name(u) == Some(name) ==> u == t),
{
    lemma_primitive_name_round_trip(t);
    lemma_primitive_name_round_trip(u);
}

/// Law: every type spelling a binding manifest reads as a primitive other
/// than `void` is that primitive's Rust name.
pub proof fn lemma_manifest_primitive_spellings(spelling: Seq<char>)
    ensures
        crate::interop::manifest::primitive_of(spelling) matches Some(t) ==> (t == TypeRef::Void || primitive_name(t)
            == Some(spelling)),
{
}

/// Law: a primitive type lowers to the backend primitive whose name a
/// binding manifest reads back as that same type.
pub proof fn lemma_primitive_lowering(t: TypeRef, types: Seq<NativeTypeBinding>, out: crate::hir::Type)
    requires
        primitive_name(t) is Some,
        lowers_to(t, types, out),
    ensures
        out matches crate::hir::Type::Primitive(n) && crate::interop::manifest::primitive_of(n@) == Some(t),
{
    lemma_primitive_names(t, t);
}

} // verus!

//! The interpreter: validation of tags against implementations, code
//! templates run against a variable scope, and the rewrite pass.
//!
//! A scope is a list of bindings; a later binding of a name hides an
//! earlier one. A scope is extended only by copying, so a binding made for
//! a loop iteration or a tag body never reaches the code around it.
//!
//! The `where` rules of implementations and loops are kept in the tree but
//! deliberately not evaluated yet: a loop runs over all of its values and a
//! tag applies its implementation whatever the rules say.
use vstd::prelude::*;
use crate::ast::{
    type_text, target_accepts, Ast, AstCode, AstCodeChunk, AstCodeFor, AstEnum, AstExtern,
    AstImplementation, AstImplementationTarget, AstIn, AstReplace, AstStruct, AstTag, AstType,
};
use crate::grammar::MAX_LOOP_NESTING;
use crate::pattern::{capture_groups, compile, groups_view, regex_accepts, regex_captures, regex_split, split_text};
use crate::text::{extends, concat3, decimal, decimal_string, split_bars, split_bars_string, strs};

verus! {

broadcast use vstd::std_specs::vec::group_vec_axioms, vstd::seq::group_seq_axioms, crate::text::lemma_extends_append,
    crate::text::lemma_extends_self, crate::text::lemma_extends_trans;

/// The entity whose fields a `fields` loop walks.
pub enum Context {
    Empty,
    Struct(String),
    Enum(String),
}

/// A context, with names as character sequences.
pub enum ContextView {
    Empty,
    Struct(Seq<char>),
    Enum(Seq<char>),
}

impl View for Context {
    type V = ContextView;

    open spec fn view(&self) -> ContextView {
        match self {
            Context::Empty => ContextView::Empty,
            Context::Struct(name) => ContextView::Struct(name@),
            Context::Enum(name) => ContextView::Enum(name@),
        }
    }
}

/// Bindings as character sequences.
pub type ScopeView = Seq<(Seq<char>, Seq<char>)>;

pub open spec fn scope_view(s: Seq<(String, String)>) -> ScopeView {
    s.map_values(|p: (String, String)| (p.0@, p.1@))
}

/// Once a prefix of `chunks` fails, the whole sequence fails with the same error.
pub proof fn lemma_chunks_error_persists(ast: Ast, ctx: ContextView, chunks: Seq<AstCodeChunk>, k: int, scope: ScopeView, depth: nat)
    requires
        0 <= k <= chunks.len(),
        run_chunks(ast, ctx, chunks.subrange(0, k), scope, depth) is Err,
    ensures
        run_chunks(ast, ctx, chunks, scope, depth) == run_chunks(ast, ctx, chunks.subrange(0, k), scope, depth),
    decreases chunks.len(),
{
    if chunks.len() == k {
        assert(chunks.subrange(0, k) =~= chunks);
    } else {
        assert(chunks.drop_last().subrange(0, k) =~= chunks.subrange(0, k));
        lemma_chunks_error_persists(ast, ctx, chunks.drop_last(), k, scope, depth);
    }
}

/// Once an iteration of a loop fails, the loop fails with the same error.
pub proof fn lemma_iterations_error_persists(
    ast: Ast,
    ctx: ContextView,
    f: AstCodeFor,
    items: Seq<Seq<char>>,
    k: nat,
    count: nat,
    scope: ScopeView,
    depth: nat,
)
    requires
        k <= count,
        run_iterations(ast, ctx, f, items, k, scope, depth) is Err,
    ensures
        run_iterations(ast, ctx, f, items, count, scope, depth) == run_iterations(ast, ctx, f, items, k, scope, depth),
    decreases count,
{
    if count > k {
        lemma_iterations_error_persists(ast, ctx, f, items, k, (count - 1) as nat, scope, depth);
    }
}

/// The texts of `f(0)`, ..., `f(n - 1)` joined, or the first error.
pub open spec fn join_units(f: spec_fn(int) -> Result<Seq<char>, Seq<char>>, n: nat) -> Result<Seq<char>, Seq<char>>
    decreases n,
{
    if n == 0 {
        Ok(Seq::empty())
    } else {
        then(join_units(f, (n - 1) as nat), f(n - 1))
    }
}

pub proof fn lemma_units_error_persists(f: spec_fn(int) -> Result<Seq<char>, Seq<char>>, k: nat, n: nat)
    requires
        k <= n,
        join_units(f, k) is Err,
    ensures
        join_units(f, n) == join_units(f, k),
    decreases n,
{
    if n > k {
        lemma_units_error_persists(f, k, (n - 1) as nat);
    }
}

pub open spec fn typename_key() -> Seq<char> {
    "TYPENAME"@
}

/// The output of implementation `b` of an extern block for its type `a`.
pub open spec fn extern_impl_units(ast: Ast, e: AstExtern, a: int, sep: Seq<char>) -> spec_fn(int) -> Result<Seq<char>, Seq<char>> {
    |b: int|
        then(
            run_chunks(ast, ContextView::Empty, e.implementations@[b].1.0@, seq![(typename_key(), e.types@[a]@)], 0),
            Ok(sep),
        )
}

pub open spec fn extern_type_units(ast: Ast, e: AstExtern, sep: Seq<char>) -> spec_fn(int) -> Result<Seq<char>, Seq<char>> {
    |a: int| join_units(extern_impl_units(ast, e, a, sep), e.implementations.len() as nat)
}

/// The output of an extern block: every implementation for every type, each
/// followed by the separator.
pub open spec fn extern_text(ast: Ast, e: AstExtern, sep: Seq<char>) -> Result<Seq<char>, Seq<char>> {
    join_units(extern_type_units(ast, e, sep), e.types.len() as nat)
}

/// The scope of a tag body: `TYPENAME` and the tag's parameters, nothing else.
pub open spec fn tag_scope(entity: Seq<char>, params: Seq<(String, String)>) -> ScopeView {
    seq![(typename_key(), entity)] + scope_view(params)
}

/// The first implementation named `name` that applies to `kind`.
pub open spec fn first_impl(impls: Seq<AstImplementation>, name: Seq<char>, kind: AstImplementationTarget) -> Option<AstImplementation>
    decreases impls.len(),
{
    if impls.len() == 0 {
        None
    } else if impls[0].name@ == name && target_accepts(impls[0].target, kind) {
        Some(impls[0])
    } else {
        first_impl(impls.drop_first(), name, kind)
    }
}

pub open spec fn missing_impl_message(kind: AstImplementationTarget, tag: Seq<char>, entity: Seq<char>) -> Seq<char> {
    if kind == AstImplementationTarget::Struct {
        struct_tag_message(tag, entity)
    } else {
        enum_tag_message(tag, entity)
    }
}

/// The output of one tag of an entity, followed by the separator.
pub open spec fn tag_text(ast: Ast, kind: AstImplementationTarget, entity: Seq<char>, tag: AstTag, sep: Seq<char>) -> Result<Seq<char>, Seq<char>> {
    match first_impl(ast.implementations@, tag.0@, kind) {
        None => Err(missing_impl_message(kind, tag.0@, entity)),
        Some(imp) => then(
            run_chunks(
                ast,
                if kind == AstImplementationTarget::Struct {
                    ContextView::Struct(entity)
                } else {
                    ContextView::Enum(entity)
                },
                imp.code.0@,
                tag_scope(entity, tag.1@),
                0,
            ),
            Ok(sep),
        ),
    }
}

pub open spec fn tag_units(ast: Ast, kind: AstImplementationTarget, entity: Seq<char>, tags: Seq<AstTag>, sep: Seq<char>) -> spec_fn(int) -> Result<Seq<char>, Seq<char>> {
    |k: int| tag_text(ast, kind, entity, tags[k], sep)
}

pub open spec fn enum_text(ast: Ast, e: AstEnum, sep: Seq<char>) -> Result<Seq<char>, Seq<char>> {
    join_units(tag_units(ast, AstImplementationTarget::Enum, e.name@, e.tags@, sep), e.tags.len() as nat)
}

pub open spec fn struct_text(ast: Ast, s: AstStruct, sep: Seq<char>) -> Result<Seq<char>, Seq<char>> {
    join_units(tag_units(ast, AstImplementationTarget::Struct, s.name@, s.tags@, sep), s.tags.len() as nat)
}

pub open spec fn inject_units(ast: Ast, sep: Seq<char>, vars: ScopeView) -> spec_fn(int) -> Result<Seq<char>, Seq<char>> {
    |a: int| then(run_chunks(ast, ContextView::Empty, ast.injects@[a].0@, vars, 0), Ok(sep))
}

pub open spec fn externs_units(ast: Ast, sep: Seq<char>) -> spec_fn(int) -> Result<Seq<char>, Seq<char>> {
    |a: int| extern_text(ast, ast.externs@[a], sep)
}

pub open spec fn enums_units(ast: Ast, sep: Seq<char>) -> spec_fn(int) -> Result<Seq<char>, Seq<char>> {
    |a: int| enum_text(ast, ast.enums@[a], sep)
}

pub open spec fn structs_units(ast: Ast, sep: Seq<char>) -> spec_fn(int) -> Result<Seq<char>, Seq<char>> {
    |a: int| struct_text(ast, ast.structs@[a], sep)
}

/// The output before the rewrite pass: injects, extern blocks, enums, structs.
pub open spec fn draft_text(ast: Ast, sep: Seq<char>, vars: ScopeView) -> Result<Seq<char>, Seq<char>> {
    then(
        then(
            then(
                join_units(inject_units(ast, sep, vars), ast.injects.len() as nat),
                join_units(externs_units(ast, sep), ast.externs.len() as nat),
            ),
            join_units(enums_units(ast, sep), ast.enums.len() as nat),
        ),
        join_units(structs_units(ast, sep), ast.structs.len() as nat),
    )
}

/// Bindings `_k` for each capture group `k` that took part in a match.
pub open spec fn capture_bindings(groups: Seq<Option<Seq<char>>>, k: nat) -> ScopeView
    decreases k,
{
    if k == 0 {
        Seq::empty()
    } else {
        capture_bindings(groups, (k - 1) as nat) + match groups[k - 1] {
            Some(text) => seq![("_"@ + decimal((k - 1) as nat), text)],
            None => Seq::empty(),
        }
    }
}

pub open spec fn capture_scope(vars: ScopeView, groups: Seq<Option<Seq<char>>>) -> ScopeView {
    vars + capture_bindings(groups, groups.len())
}

pub open spec fn captures_view(c: Seq<Vec<Option<String>>>) -> Seq<Seq<Option<Seq<char>>>> {
    c.map_values(|g: Vec<Option<String>>| groups_view(g@))
}

pub open spec fn match_units(
    ast: Ast,
    vars: ScopeView,
    template: AstCode,
    gaps: Seq<Seq<char>>,
    caps: Seq<Seq<Option<Seq<char>>>>,
) -> spec_fn(int) -> Result<Seq<char>, Seq<char>> {
    |i: int| then(run_chunks(ast, ContextView::Empty, template.0@, capture_scope(vars, caps[i]), 0), Ok(gaps[i + 1]))
}

pub open spec fn match_count_message() -> Seq<char> {
    "Pattern matches and the text between them do not line up"@
}

pub open spec fn bad_pattern_message(pattern: Seq<char>) -> Seq<char> {
    "Could not parse replacement pattern `"@ + pattern + "`"@
}

/// The text between matches, `gaps`, with each match in turn replaced by the
/// output of `template` in `vars` and its capture bindings.
pub open spec fn splice(
    ast: Ast,
    vars: ScopeView,
    template: AstCode,
    gaps: Seq<Seq<char>>,
    caps: Seq<Seq<Option<Seq<char>>>>,
) -> Result<Seq<char>, Seq<char>> {
    if gaps.len() != caps.len() + 1 {
        Err(match_count_message())
    } else {
        then(Ok(gaps[0]), join_units(match_units(ast, vars, template, gaps, caps), caps.len()))
    }
}

/// `text` after the rewrite of `rule`.
pub open spec fn replace_one(ast: Ast, vars: ScopeView, rule: AstReplace, text: Seq<char>) -> Result<Seq<char>, Seq<char>> {
    if regex_accepts(rule.pattern@) {
        splice(ast, vars, rule.template, regex_split(rule.pattern@, text), regex_captures(rule.pattern@, text))
    } else {
        Err(bad_pattern_message(rule.pattern@))
    }
}

/// `text` after the first `k` rewrite rules of `ast`, in order.
pub open spec fn replace_rules(ast: Ast, vars: ScopeView, text: Seq<char>, k: nat) -> Result<Seq<char>, Seq<char>>
    decreases k,
{
    if k == 0 {
        Ok(text)
    } else {
        match replace_rules(ast, vars, text, (k - 1) as nat) {
            Err(e) => Err(e),
            Ok(t) => replace_one(ast, vars, ast.replacements@[k - 1], t),
        }
    }
}

/// The whole output of `ast`, or the first error.
pub open spec fn program_output(ast: Ast, sep: Seq<char>, vars: ScopeView) -> Result<Seq<char>, Seq<char>> {
    match program_fault(ast) {
        Some(e) => Err(e),
        None => match draft_text(ast, sep, vars) {
            Err(e) => Err(e),
            Ok(draft) => replace_rules(ast, vars, draft, ast.replacements.len() as nat),
        },
    }
}

pub open spec fn result_view(r: Result<String, String>) -> Result<Seq<char>, Seq<char>> {
    match r {
        Ok(s) => Ok(s@),
        Err(e) => Err(e@),
    }
}

/// The value bound last to `name`, if any.
pub open spec fn lookup(scope: ScopeView, name: Seq<char>) -> Option<Seq<char>>
    decreases scope.len(),
{
    if scope.len() == 0 {
        None
    } else if scope.last().0 == name {
        Some(scope.last().1)
    } else {
        lookup(scope.drop_last(), name)
    }
}

pub open spec fn undefined_variable_message(name: Seq<char>) -> Seq<char> {
    "Trying to place non-existing variable `"@ + name + "`"@
}

pub open spec fn missing_iterable_message(name: Seq<char>) -> Seq<char> {
    "Trying to iterate over non-existing variable `"@ + name + "`"@
}

pub open spec fn unknown_struct_message(name: Seq<char>) -> Seq<char> {
    "Trying to iterate over fields of unknown struct `"@ + name + "`"@
}

pub open spec fn unknown_enum_message(name: Seq<char>) -> Seq<char> {
    "Trying to iterate over fields of unknown enum `"@ + name + "`"@
}

pub open spec fn no_context_message() -> Seq<char> {
    "Trying to iterate over fields of no context"@
}

pub open spec fn no_container_message() -> Seq<char> {
    "There is no container specified to iterate over"@
}

pub open spec fn nesting_message() -> Seq<char> {
    "Trying to run loops nested too deeply"@
}

pub open spec fn no_loop_variables_message() -> Seq<char> {
    "Trying to iterate without loop variables"@
}

/// The first struct named `name`.
pub open spec fn first_struct(structs: Seq<AstStruct>, name: Seq<char>) -> Option<AstStruct>
    decreases structs.len(),
{
    if structs.len() == 0 {
        None
    } else if structs[0].name@ == name {
        Some(structs[0])
    } else {
        first_struct(structs.drop_first(), name)
    }
}

/// The first enum named `name`.
pub open spec fn first_enum(enums: Seq<AstEnum>, name: Seq<char>) -> Option<AstEnum>
    decreases enums.len(),
{
    if enums.len() == 0 {
        None
    } else if enums[0].name@ == name {
        Some(enums[0])
    } else {
        first_enum(enums.drop_first(), name)
    }
}

/// Field names and type texts, alternating.
pub open spec fn struct_items(fields: Seq<(String, AstType)>) -> Seq<Seq<char>>
    decreases fields.len(),
{
    if fields.len() == 0 {
        Seq::empty()
    } else {
        struct_items(fields.drop_last()) + seq![fields.last().0@, type_text(fields.last().1)]
    }
}

/// The values a loop over `container` walks, or the error it stops with.
pub open spec fn container_items(ast: Ast, ctx: ContextView, container: AstIn, scope: ScopeView) -> Result<Seq<Seq<char>>, Seq<char>> {
    match container {
        AstIn::Fields => match ctx {
            ContextView::Struct(name) => match first_struct(ast.structs@, name) {
                Some(s) => Ok(struct_items(s.fields@)),
                None => Err(unknown_struct_message(name)),
            },
            ContextView::Enum(name) => match first_enum(ast.enums@, name) {
                Some(e) => Ok(strs(e.fields@)),
                None => Err(unknown_enum_message(name)),
            },
            ContextView::Empty => Err(no_context_message()),
        },
        AstIn::Variable(name) => match lookup(scope, name@) {
            Some(value) => Ok(split_bars(value)),
            None => Err(missing_iterable_message(name@)),
        },
        AstIn::Unspecified => Err(no_container_message()),
    }
}

/// `scope` extended by binding each of `vars` to the item at the same offset from `start`.
pub open spec fn bind(scope: ScopeView, vars: Seq<String>, items: Seq<Seq<char>>, start: int) -> ScopeView {
    scope + Seq::new(vars.len(), |j: int| (vars[j]@, items[start + j]))
}

/// Appends the text of `b` to that of `a`; the first error wins.
pub open spec fn then(a: Result<Seq<char>, Seq<char>>, b: Result<Seq<char>, Seq<char>>) -> Result<Seq<char>, Seq<char>> {
    match a {
        Err(e) => Err(e),
        Ok(x) => match b {
            Err(e) => Err(e),
            Ok(y) => Ok(x + y),
        },
    }
}

/// The text of a sequence of chunks in `scope`, or the first error.
pub open spec fn run_chunks(ast: Ast, ctx: ContextView, chunks: Seq<AstCodeChunk>, scope: ScopeView, depth: nat) -> Result<Seq<char>, Seq<char>>
    decreases chunks, 0nat,
{
    if chunks.len() == 0 {
        Ok(Seq::empty())
    } else {
        then(
            run_chunks(ast, ctx, chunks.drop_last(), scope, depth),
            match chunks.last() {
                AstCodeChunk::Empty => Ok(Seq::empty()),
                AstCodeChunk::Content(text) => Ok(text@),
                AstCodeChunk::Variable(name) => match lookup(scope, name@) {
                    Some(value) => Ok(value),
                    None => Err(undefined_variable_message(name@)),
                },
                AstCodeChunk::For(f) => if depth >= MAX_LOOP_NESTING {
                    Err(nesting_message())
                } else if f.variables.len() == 0 {
                    Err(no_loop_variables_message())
                } else {
                    match container_items(ast, ctx, f.container, scope) {
                        Err(e) => Err(e),
                        Ok(items) => run_iterations(ast, ctx, f, items, items.len() / (f.variables.len() as nat), scope, depth + 1),
                    }
                },
            },
        )
    }
}

/// The text of the first `count` iterations of loop `f` over `items`.
pub open spec fn run_iterations(ast: Ast, ctx: ContextView, f: AstCodeFor, items: Seq<Seq<char>>, count: nat, scope: ScopeView, depth: nat) -> Result<Seq<char>, Seq<char>>
    decreases f, count,
{
    if count == 0 {
        Ok(Seq::empty())
    } else {
        then(
            run_iterations(ast, ctx, f, items, (count - 1) as nat, scope, depth),
            run_chunks(ast, ctx, f.code.0@, bind(scope, f.variables@, items, (count - 1) * f.variables.len()), depth),
        )
    }
}

/// The text of loop `f`, or the first error.
pub open spec fn run_for(ast: Ast, ctx: ContextView, f: AstCodeFor, scope: ScopeView, depth: nat) -> Result<Seq<char>, Seq<char>> {
    if depth >= MAX_LOOP_NESTING {
        Err(nesting_message())
    } else if f.variables.len() == 0 {
        Err(no_loop_variables_message())
    } else {
        match container_items(ast, ctx, f.container, scope) {
            Err(e) => Err(e),
            Ok(items) => run_iterations(ast, ctx, f, items, items.len() / (f.variables.len() as nat), scope, depth + 1),
        }
    }
}

/// On success `after` is `before` followed by the expected text; on failure
/// `r` carries the expected error and `after` still begins with `before`.
pub open spec fn emitted(r: Result<(), String>, before: Seq<char>, after: Seq<char>, expected: Result<Seq<char>, Seq<char>>) -> bool {
    match expected {
        Ok(text) => r is Ok && after == before + text,
        Err(e) => r is Err && r->Err_0@ == e && extends(before, after),
    }
}


/// The value bound last to `name` in `scope`.
pub fn find_variable<'a>(scope: &'a Vec<(String, String)>, name: &String) -> (r: Option<&'a String>)
    ensures
        match lookup(scope_view(scope@), name@) {
            Some(v) => r is Some && r->Some_0@ == v,
            None => r is None,
        },
{
    let ghost sv = scope_view(scope@);
    let mut i: usize = scope.len();
    assert(sv.subrange(0, i as int) =~= sv);
    while i > 0
        invariant
            i <= scope.len(),
            sv == scope_view(scope@),
            lookup(sv.subrange(0, i as int), name@) == lookup(sv, name@),
        decreases i,
    {
        assert(sv.subrange(0, i as int).drop_last() =~= sv.subrange(0, i - 1));
        if scope[i - 1].0 == *name {
            return Some(&scope[i - 1].1);
        }
        i -= 1;
    }
    None
}

fn find_struct<'a>(structs: &'a Vec<AstStruct>, name: &String) -> (r: Option<&'a AstStruct>)
    ensures
        match first_struct(structs@, name@) {
            Some(s) => r is Some && *r->Some_0 == s,
            None => r is None,
        },
{
    let mut i: usize = 0;
    assert(structs@.subrange(0, structs@.len() as int) =~= structs@);
    while i < structs.len()
        invariant
            i <= structs.len(),
            first_struct(structs@.subrange(i as int, structs@.len() as int), name@) == first_struct(structs@, name@),
        decreases structs.len() - i,
    {
        let ghost rest = structs@.subrange(i as int, structs@.len() as int);
        assert(rest.drop_first() =~= structs@.subrange(i + 1, structs@.len() as int));
        assert(rest[0] == structs@[i as int]);
        if structs[i].name == *name {
            return Some(&structs[i]);
        }
        i += 1;
    }
    None
}

fn find_enum<'a>(enums: &'a Vec<AstEnum>, name: &String) -> (r: Option<&'a AstEnum>)
    ensures
        match first_enum(enums@, name@) {
            Some(e) => r is Some && *r->Some_0 == e,
            None => r is None,
        },
{
    let mut i: usize = 0;
    assert(enums@.subrange(0, enums@.len() as int) =~= enums@);
    while i < enums.len()
        invariant
            i <= enums.len(),
            first_enum(enums@.subrange(i as int, enums@.len() as int), name@) == first_enum(enums@, name@),
        decreases enums.len() - i,
    {
        let ghost rest = enums@.subrange(i as int, enums@.len() as int);
        assert(rest.drop_first() =~= enums@.subrange(i + 1, enums@.len() as int));
        assert(rest[0] == enums@[i as int]);
        if enums[i].name == *name {
            return Some(&enums[i]);
        }
        i += 1;
    }
    None
}

fn field_items(fields: &Vec<(String, AstType)>) -> (r: Vec<String>)
    ensures
        strs(r@) == struct_items(fields@),
{
    let mut out: Vec<String> = Vec::new();
    let mut i: usize = 0;
    assert(fields@.subrange(0, 0) =~= Seq::<(String, AstType)>::empty());
    assert(strs(out@) =~= Seq::<Seq<char>>::empty());
    while i < fields.len()
        invariant
            i <= fields.len(),
            strs(out@) == struct_items(fields@.subrange(0, i as int)),
        decreases fields.len() - i,
    {
        assert(fields@.subrange(0, i + 1).drop_last() =~= fields@.subrange(0, i as int));
        let ghost before = out@;
        out.push(fields[i].0.clone());
        out.push(fields[i].1.to_string());
        assert(strs(out@) =~= strs(before) + seq![fields@[i as int].0@, type_text(fields@[i as int].1)]);
        i += 1;
    }
    assert(fields@.subrange(0, fields@.len() as int) =~= fields@);
    out
}

fn copy_strings(v: &Vec<String>) -> (r: Vec<String>)
    ensures
        strs(r@) == strs(v@),
{
    let mut out: Vec<String> = Vec::new();
    let mut i: usize = 0;
    while i < v.len()
        invariant
            i <= v.len(),
            strs(out@) =~= strs(v@).subrange(0, i as int),
        decreases v.len() - i,
    {
        let ghost before = out@;
        out.push(v[i].clone());
        assert(strs(out@) =~= strs(before).push(v@[i as int]@));
        assert(strs(v@).subrange(0, i + 1) =~= strs(v@).subrange(0, i as int).push(v@[i as int]@));
        i += 1;
    }
    out
}

/// The values a loop over `container` walks in context `context`.
pub fn get_container_iterables(context: &Context, container: &AstIn, ast: &Ast, variables: &Vec<(String, String)>) -> (r: Result<Vec<String>, String>)
    ensures
        match container_items(*ast, context@, *container, scope_view(variables@)) {
            Ok(items) => r is Ok && strs(r->Ok_0@) == items,
            Err(e) => r is Err && r->Err_0@ == e,
        },
{
    match container {
        AstIn::Fields => match context {
            Context::Struct(name) => match find_struct(&ast.structs, name) {
                Some(s) => Ok(field_items(&s.fields)),
                None => Err(concat3("Trying to iterate over fields of unknown struct `", name.as_str(), "`")),
            },
            Context::Enum(name) => match find_enum(&ast.enums, name) {
                Some(e) => Ok(copy_strings(&e.fields)),
                None => Err(concat3("Trying to iterate over fields of unknown enum `", name.as_str(), "`")),
            },
            Context::Empty => Err("Trying to iterate over fields of no context".to_owned()),
        },
        AstIn::Variable(name) => match find_variable(variables, name) {
            Some(value) => Ok(split_bars_string(value.as_str())),
            None => Err(concat3("Trying to iterate over non-existing variable `", name.as_str(), "`")),
        },
        AstIn::Unspecified => Err("There is no container specified to iterate over".to_owned()),
    }
}

/// A copy of `scope` with each of `vars` bound to the item at the same offset from `start`.
fn extend_scope(scope: &Vec<(String, String)>, vars: &Vec<String>, items: &Vec<String>, start: usize) -> (r: Vec<(String, String)>)
    requires
        start + vars.len() <= items.len(),
    ensures
        scope_view(r@) == bind(scope_view(scope@), vars@, strs(items@), start as int),
{
    let mut out: Vec<(String, String)> = Vec::new();
    let mut i: usize = 0;
    while i < scope.len()
        invariant
            i <= scope.len(),
            scope_view(out@) =~= scope_view(scope@).subrange(0, i as int),
        decreases scope.len() - i,
    {
        let ghost before = out@;
        out.push((scope[i].0.clone(), scope[i].1.clone()));
        assert(scope_view(out@) =~= scope_view(before).push((scope@[i as int].0@, scope@[i as int].1@)));
        assert(scope_view(scope@).subrange(0, i + 1) =~= scope_view(scope@).subrange(0, i as int).push(
            (scope@[i as int].0@, scope@[i as int].1@),
        ));
        i += 1;
    }
    let mut j: usize = 0;
    while j < vars.len()
        invariant
            j <= vars.len(),
            start + vars.len() <= items.len(),
            scope_view(out@) =~= bind(scope_view(scope@), vars@.subrange(0, j as int), strs(items@), start as int),
        decreases vars.len() - j,
    {
        let ghost before = out@;
        out.push((vars[j].clone(), items[start + j].clone()));
        assert(scope_view(out@) =~= scope_view(before).push((vars@[j as int]@, items@[start + j]@)));
        assert(bind(scope_view(scope@), vars@.subrange(0, j + 1), strs(items@), start as int) =~= bind(
            scope_view(scope@),
            vars@.subrange(0, j as int),
            strs(items@),
            start as int,
        ).push((vars@[j as int]@, items@[start + j]@)));
        j += 1;
    }
    assert(vars@.subrange(0, vars@.len() as int) =~= vars@);
    out
}

/// Runs `code` in `context` and `variables`, appending its text to `output`.
/// `depth` counts the loops open around `code`; loops nest at most
/// `MAX_LOOP_NESTING` deep, deeper ones fail.
pub fn process_code(
    context: &Context,
    code: &AstCode,
    ast: &Ast,
    variables: &Vec<(String, String)>,
    output: &mut String,
    depth: usize,
) -> (r: Result<(), String>)
    requires
        depth <= MAX_LOOP_NESTING,
    ensures
        emitted(r, old(output)@, final(output)@, run_chunks(*ast, context@, code.0@, scope_view(variables@), depth as nat)),
    decreases code,
{
    let ghost start = output@;
    let ghost sv = scope_view(variables@);
    let mut i: usize = 0;
    assert(code.0@.subrange(0, 0) =~= Seq::<AstCodeChunk>::empty());
    assert(output@ =~= start + Seq::<char>::empty());
    assert(extends(start, start + Seq::<char>::empty()));
    while i < code.0.len()
        invariant
            i <= code.0.len(),
            sv == scope_view(variables@),
            depth <= MAX_LOOP_NESTING,
            run_chunks(*ast, context@, code.0@.subrange(0, i as int), sv, depth as nat) is Ok,
            output@ == start + run_chunks(*ast, context@, code.0@.subrange(0, i as int), sv, depth as nat)->Ok_0,
            extends(start, output@),
            start == old(output)@,
        decreases code.0.len() - i,
    {
        let ghost prefix = code.0@.subrange(0, i + 1);
        let ghost before = output@;
        assert(prefix.drop_last() =~= code.0@.subrange(0, i as int));
        assert(prefix.last() == code.0@[i as int]);
        match &code.0[i] {
            AstCodeChunk::Empty => {
                assert(output@ =~= before + Seq::<char>::empty());
            },
            AstCodeChunk::Content(content) => {
                output.append(content.as_str());
            },
            AstCodeChunk::Variable(variable) => {
                match find_variable(variables, variable) {
                    Some(found) => {
                        output.append(found.as_str());
                    },
                    None => {
                        proof {
                            lemma_chunks_error_persists(*ast, context@, code.0@, i + 1, sv, depth as nat);
                        }
                        return Err(concat3("Trying to place non-existing variable `", variable.as_str(), "`"));
                    },
                }
            },
            AstCodeChunk::For(for_) => {
                let r = process_code_for(context, for_, ast, variables, output, depth);
                if r.is_err() {
                    proof {
                        lemma_chunks_error_persists(*ast, context@, code.0@, i + 1, sv, depth as nat);
                    }
                    return r;
                }
            },
        }
        assert(output@ =~= start + run_chunks(*ast, context@, prefix, sv, depth as nat)->Ok_0);
        assert(extends(start, start + run_chunks(*ast, context@, prefix, sv, depth as nat)->Ok_0));
        i += 1;
    }
    assert(code.0@.subrange(0, code.0@.len() as int) =~= code.0@);
    Ok(())
}

/// Runs loop `code`, opened inside `depth` other loops: one run of its body
/// per group of values.
pub fn process_code_for(
    context: &Context,
    code: &AstCodeFor,
    ast: &Ast,
    variables: &Vec<(String, String)>,
    output: &mut String,
    depth: usize,
) -> (r: Result<(), String>)
    requires
        depth <= MAX_LOOP_NESTING,
    ensures
        emitted(r, old(output)@, final(output)@, run_for(*ast, context@, *code, scope_view(variables@), depth as nat)),
        depth >= MAX_LOOP_NESTING || code.variables.len() == 0 || container_items(*ast, context@, code.container, scope_view(variables@)) is Err
            ==> final(output)@ == old(output)@,
    decreases code,
{
    if depth >= MAX_LOOP_NESTING {
        return Err("Trying to run loops nested too deeply".to_owned());
    }
    if code.variables.len() == 0 {
        return Err("Trying to iterate without loop variables".to_owned());
    }
    let iterables = match get_container_iterables(context, &code.container, ast, variables) {
        Ok(items) => items,
        Err(e) => return Err(e),
    };
    let ghost items = strs(iterables@);
    let ghost sv = scope_view(variables@);
    let ghost start = output@;
    let n = code.variables.len();
    let count = iterables.len() / n;
    assert(items.len() == iterables@.len());
    assert(run_for(*ast, context@, *code, sv, depth as nat) == run_iterations(*ast, context@, *code, items, count as nat, sv, (depth + 1) as nat));
    let mut i: usize = 0;
    assert(output@ =~= start + Seq::<char>::empty());
    assert(extends(start, start + Seq::<char>::empty()));
    while i < count
        invariant
            i <= count,
            n == code.variables.len(),
            n > 0,
            count == iterables.len() / n,
            run_for(*ast, context@, *code, sv, depth as nat) == run_iterations(*ast, context@, *code, items, count as nat, sv, (depth + 1) as nat),
            container_items(*ast, context@, code.container, sv) is Ok,
            items == strs(iterables@),
            sv == scope_view(variables@),
            depth < MAX_LOOP_NESTING,
            run_iterations(*ast, context@, *code, items, i as nat, sv, (depth + 1) as nat) is Ok,
            output@ == start + run_iterations(*ast, context@, *code, items, i as nat, sv, (depth + 1) as nat)->Ok_0,
            extends(start, output@),
            start == old(output)@,
        decreases count - i,
    {
        proof {
            assert(i * n + n <= iterables.len()) by (nonlinear_arith)
                requires i < count, count == iterables.len() / n, n > 0;
        }
        let first = i * n;
        let scope = extend_scope(variables, &code.variables, &iterables, first);
        assert((((i + 1) as nat) - 1) * code.variables.len() == first as int);
        assert(run_iterations(*ast, context@, *code, items, (i + 1) as nat, sv, (depth + 1) as nat) == then(
            run_iterations(*ast, context@, *code, items, i as nat, sv, (depth + 1) as nat),
            run_chunks(*ast, context@, code.code.0@, bind(sv, code.variables@, items, first as int), (depth + 1) as nat),
        ));
        let ghost before = output@;
        let r = process_code(context, &code.code, ast, &scope, output, depth + 1);
        if r.is_err() {
            proof {
                lemma_iterations_error_persists(*ast, context@, *code, items, (i + 1) as nat, count as nat, sv, (depth + 1) as nat);
            }
            return r;
        }
        assert(output@ =~= start + run_iterations(*ast, context@, *code, items, (i + 1) as nat, sv, (depth + 1) as nat)->Ok_0);
        assert(extends(start, start + run_iterations(*ast, context@, *code, items, (i + 1) as nat, sv, (depth + 1) as nat)->Ok_0));
        i += 1;
    }
    Ok(())
}

/// The first of `f(0)`, ..., `f(n - 1)` that is an error, if any.
pub open spec fn first_error(f: spec_fn(int) -> Option<Seq<char>>, n: nat) -> Option<Seq<char>>
    decreases n,
{
    if n == 0 {
        None
    } else {
        match first_error(f, (n - 1) as nat) {
            Some(e) => Some(e),
            None => f(n - 1),
        }
    }
}

pub proof fn lemma_first_error_persists(f: spec_fn(int) -> Option<Seq<char>>, k: nat, n: nat)
    requires
        k <= n,
        first_error(f, k) is Some,
    ensures
        first_error(f, n) == first_error(f, k),
    decreases n,
{
    if n > k {
        lemma_first_error_persists(f, k, (n - 1) as nat);
    }
}

/// Declared implementations as (name, target) pairs.
pub open spec fn targets_view(t: Seq<(String, AstImplementationTarget)>) -> Seq<(Seq<char>, AstImplementationTarget)> {
    t.map_values(|p: (String, AstImplementationTarget)| (p.0@, p.1))
}

pub open spec fn impl_targets(ast: Ast) -> Seq<(Seq<char>, AstImplementationTarget)> {
    ast.implementations@.map_values(|i: AstImplementation| (i.name@, i.target))
}

/// Some implementation is named `name`.
pub open spec fn declares(targets: Seq<(Seq<char>, AstImplementationTarget)>, name: Seq<char>) -> bool {
    exists|i: int| 0 <= i < targets.len() && #[trigger] targets[i].0 == name
}

/// Some implementation named `name` may be applied to an entity of kind `kind`.
pub open spec fn declares_for(
    targets: Seq<(Seq<char>, AstImplementationTarget)>,
    name: Seq<char>,
    kind: AstImplementationTarget,
) -> bool {
    exists|i: int| 0 <= i < targets.len() && #[trigger] targets[i].0 == name && target_accepts(targets[i].1, kind)
}

pub open spec fn extern_message(name: Seq<char>, external_name: Seq<char>) -> Seq<char> {
    "Trying to apply non-existing trait `"@ + name + "` for external type `"@ + external_name + "`"@
}

pub open spec fn struct_tag_message(tag: Seq<char>, name: Seq<char>) -> Seq<char> {
    "Trying to apply non-existing or non-struct trait `"@ + tag + "` for struct `"@ + name + "`"@
}

pub open spec fn enum_tag_message(tag: Seq<char>, name: Seq<char>) -> Seq<char> {
    "Trying to apply non-existing or non-enum trait `"@ + tag + "` for enum `"@ + name + "`"@
}

/// The check of each implementation an extern block names.
pub open spec fn extern_checks(targets: Seq<(Seq<char>, AstImplementationTarget)>, e: AstExtern) -> spec_fn(int) -> Option<Seq<char>> {
    |b: int|
        if declares(targets, e.implementations@[b].0@) {
            None
        } else {
            Some(
                if e.types.len() > 0 {
                    extern_message(e.implementations@[b].0@, e.types@[0]@)
                } else {
                    untyped_extern_message(e.implementations@[b].0@)
                },
            )
        }
}

pub open spec fn untyped_extern_message(name: Seq<char>) -> Seq<char> {
    "Trying to apply non-existing trait `"@ + name + "` in an extern block without types"@
}

/// The first implementation an extern block names that is not declared.
pub open spec fn extern_error(targets: Seq<(Seq<char>, AstImplementationTarget)>, e: AstExtern) -> Option<Seq<char>> {
    first_error(extern_checks(targets, e), e.implementations.len() as nat)
}

pub open spec fn struct_checks(targets: Seq<(Seq<char>, AstImplementationTarget)>, s: AstStruct) -> spec_fn(int) -> Option<Seq<char>> {
    |b: int|
        if declares_for(targets, s.tags@[b].0@, AstImplementationTarget::Struct) {
            None
        } else {
            Some(struct_tag_message(s.tags@[b].0@, s.name@))
        }
}

pub open spec fn enum_checks(targets: Seq<(Seq<char>, AstImplementationTarget)>, e: AstEnum) -> spec_fn(int) -> Option<Seq<char>> {
    |b: int|
        if declares_for(targets, e.tags@[b].0@, AstImplementationTarget::Enum) {
            None
        } else {
            Some(enum_tag_message(e.tags@[b].0@, e.name@))
        }
}

pub open spec fn externs_checks(targets: Seq<(Seq<char>, AstImplementationTarget)>, ast: Ast) -> spec_fn(int) -> Option<Seq<char>> {
    |a: int| extern_error(targets, ast.externs@[a])
}

pub open spec fn structs_checks(targets: Seq<(Seq<char>, AstImplementationTarget)>, ast: Ast) -> spec_fn(int) -> Option<Seq<char>> {
    |a: int| first_error(struct_checks(targets, ast.structs@[a]), ast.structs@[a].tags.len() as nat)
}

pub open spec fn enums_checks(targets: Seq<(Seq<char>, AstImplementationTarget)>, ast: Ast) -> spec_fn(int) -> Option<Seq<char>> {
    |a: int| first_error(enum_checks(targets, ast.enums@[a]), ast.enums@[a].tags.len() as nat)
}

/// The first fault of `ast` against `targets`: extern blocks first, then
/// struct tags, then enum tags, each in order of declaration.
pub open spec fn validation_error(targets: Seq<(Seq<char>, AstImplementationTarget)>, ast: Ast) -> Option<Seq<char>> {
    match first_error(externs_checks(targets, ast), ast.externs.len() as nat) {
        Some(e) => Some(e),
        None => match first_error(structs_checks(targets, ast), ast.structs.len() as nat) {
            Some(e) => Some(e),
            None => first_error(enums_checks(targets, ast), ast.enums.len() as nat),
        },
    }
}

/// The first fault of `ast` against its own implementations.
pub open spec fn program_fault(ast: Ast) -> Option<Seq<char>> {
    validation_error(impl_targets(ast), ast)
}

/// The name and target of each implementation, in order.
pub fn get_impl_targets(ast: &Ast) -> (r: Vec<(String, AstImplementationTarget)>)
    ensures
        targets_view(r@) == impl_targets(*ast),
{
    let mut out: Vec<(String, AstImplementationTarget)> = Vec::new();
    let mut i: usize = 0;
    while i < ast.implementations.len()
        invariant
            i <= ast.implementations.len(),
            targets_view(out@) =~= impl_targets(*ast).subrange(0, i as int),
        decreases ast.implementations.len() - i,
    {
        let ghost before = out@;
        let imp = &ast.implementations[i];
        out.push((imp.name.clone(), imp.target));
        assert(targets_view(out@) =~= targets_view(before).push((imp.name@, imp.target)));
        assert(impl_targets(*ast).subrange(0, i + 1) =~= impl_targets(*ast).subrange(0, i as int).push((imp.name@, imp.target)));
        i += 1;
    }
    assert(impl_targets(*ast).subrange(0, ast.implementations@.len() as int) =~= impl_targets(*ast));
    out
}

fn has_impl(targets: &Vec<(String, AstImplementationTarget)>, name: &String) -> (r: bool)
    ensures
        r == declares(targets_view(targets@), name@),
{
    let ghost tv = targets_view(targets@);
    let mut i: usize = 0;
    while i < targets.len()
        invariant
            i <= targets.len(),
            tv == targets_view(targets@),
            forall|j: int| 0 <= j < i ==> #[trigger] tv[j].0 != name@,
        decreases targets.len() - i,
    {
        if targets[i].0 == *name {
            assert(tv[i as int].0 == name@);
            return true;
        }
        i += 1;
    }
    false
}

fn has_impl_for(targets: &Vec<(String, AstImplementationTarget)>, name: &String, kind: AstImplementationTarget) -> (r: bool)
    ensures
        r == declares_for(targets_view(targets@), name@, kind),
{
    let ghost tv = targets_view(targets@);
    let mut i: usize = 0;
    while i < targets.len()
        invariant
            i <= targets.len(),
            tv == targets_view(targets@),
            forall|j: int| 0 <= j < i ==> #[trigger] tv[j].0 != name@ || !target_accepts(tv[j].1, kind),
        decreases targets.len() - i,
    {
        if targets[i].0 == *name && targets[i].1.is_valid(kind) {
            assert(tv[i as int].0 == name@);
            return true;
        }
        i += 1;
    }
    false
}

fn validate_extern(external: &AstExtern, impl_targets: &Vec<(String, AstImplementationTarget)>) -> (r: Result<(), String>)
    ensures
        match extern_error(targets_view(impl_targets@), *external) {
            None => r is Ok,
            Some(e) => r is Err && r->Err_0@ == e,
        },
{
    let ghost f = extern_checks(targets_view(impl_targets@), *external);
    let mut i: usize = 0;
    while i < external.implementations.len()
        invariant
            i <= external.implementations.len(),
            f == extern_checks(targets_view(impl_targets@), *external),
            first_error(f, i as nat) is None,
        decreases external.implementations.len() - i,
    {
        let name = &external.implementations[i].0;
        if !has_impl(impl_targets, name) {
            proof {
                lemma_first_error_persists(f, (i + 1) as nat, external.implementations.len() as nat);
            }
            if external.types.len() > 0 {
                let mut m = concat3("Trying to apply non-existing trait `", name.as_str(), "` for external type `");
                m.append(external.types[0].as_str());
                m.append("`");
                return Err(m);
            } else {
                return Err(concat3("Trying to apply non-existing trait `", name.as_str(), "` in an extern block without types"));
            }
        }
        i += 1;
    }
    Ok(())
}

fn validate_tags(
    tags: &Vec<AstTag>,
    name: &String,
    kind: AstImplementationTarget,
    impl_targets: &Vec<(String, AstImplementationTarget)>,
    Ghost(f): Ghost<spec_fn(int) -> Option<Seq<char>>>,
) -> (r: Result<(), String>)
    requires
        kind == AstImplementationTarget::Struct || kind == AstImplementationTarget::Enum,
        forall|b: int|
            #![trigger f(b)]
            0 <= b < tags.len() ==> f(b) == if declares_for(targets_view(impl_targets@), tags@[b].0@, kind) {
                None
            } else if kind == AstImplementationTarget::Struct {
                Some(struct_tag_message(tags@[b].0@, name@))
            } else {
                Some(enum_tag_message(tags@[b].0@, name@))
            },
    ensures
        match first_error(f, tags.len() as nat) {
            None => r is Ok,
            Some(e) => r is Err && r->Err_0@ == e,
        },
{
    let mut i: usize = 0;
    while i < tags.len()
        invariant
            i <= tags.len(),
            first_error(f, i as nat) is None,
            kind == AstImplementationTarget::Struct || kind == AstImplementationTarget::Enum,
            forall|b: int|
                #![trigger f(b)]
                0 <= b < tags.len() ==> f(b) == if declares_for(targets_view(impl_targets@), tags@[b].0@, kind) {
                    None
                } else if kind == AstImplementationTarget::Struct {
                    Some(struct_tag_message(tags@[b].0@, name@))
                } else {
                    Some(enum_tag_message(tags@[b].0@, name@))
                },
        decreases tags.len() - i,
    {
        let tag = &tags[i].0;
        if !has_impl_for(impl_targets, tag, kind) {
            proof {
                lemma_first_error_persists(f, (i + 1) as nat, tags.len() as nat);
            }
            let mut m = if kind == AstImplementationTarget::Struct {
                concat3("Trying to apply non-existing or non-struct trait `", tag.as_str(), "` for struct `")
            } else {
                concat3("Trying to apply non-existing or non-enum trait `", tag.as_str(), "` for enum `")
            };
            m.append(name.as_str());
            m.append("`");
            return Err(m);
        }
        i += 1;
    }
    Ok(())
}

/// Checks every extern block, struct tag and enum tag against `impl_targets`;
/// the first fault is the error.
pub fn validate_type_impls(ast: &Ast, impl_targets: &Vec<(String, AstImplementationTarget)>) -> (r: Result<(), String>)
    ensures
        match validation_error(targets_view(impl_targets@), *ast) {
            None => r is Ok,
            Some(e) => r is Err && r->Err_0@ == e,
        },
{
    let ghost tv = targets_view(impl_targets@);
    let ghost fx = externs_checks(tv, *ast);
    let mut i: usize = 0;
    while i < ast.externs.len()
        invariant
            i <= ast.externs.len(),
            fx == externs_checks(tv, *ast),
            tv == targets_view(impl_targets@),
            first_error(fx, i as nat) is None,
        decreases ast.externs.len() - i,
    {
        let r = validate_extern(&ast.externs[i], impl_targets);
        if r.is_err() {
            proof {
                lemma_first_error_persists(fx, (i + 1) as nat, ast.externs.len() as nat);
            }
            return r;
        }
        i += 1;
    }
    let ghost fs = structs_checks(tv, *ast);
    let mut i: usize = 0;
    while i < ast.structs.len()
        invariant
            i <= ast.structs.len(),
            fs == structs_checks(tv, *ast),
            fx == externs_checks(tv, *ast),
            tv == targets_view(impl_targets@),
            first_error(fx, ast.externs.len() as nat) is None,
            first_error(fs, i as nat) is None,
        decreases ast.structs.len() - i,
    {
        let s = &ast.structs[i];
        let r = validate_tags(&s.tags, &s.name, AstImplementationTarget::Struct, impl_targets, Ghost(struct_checks(tv, *s)));
        assert(fs(i as int) == first_error(struct_checks(tv, *s), s.tags.len() as nat));
        if r.is_err() {
            proof {
                lemma_first_error_persists(fs, (i + 1) as nat, ast.structs.len() as nat);
            }
            return r;
        }
        i += 1;
    }
    let ghost fe = enums_checks(tv, *ast);
    let mut i: usize = 0;
    while i < ast.enums.len()
        invariant
            i <= ast.enums.len(),
            fe == enums_checks(tv, *ast),
            fs == structs_checks(tv, *ast),
            fx == externs_checks(tv, *ast),
            tv == targets_view(impl_targets@),
            first_error(fx, ast.externs.len() as nat) is None,
            first_error(fs, ast.structs.len() as nat) is None,
            first_error(fe, i as nat) is None,
        decreases ast.enums.len() - i,
    {
        let e = &ast.enums[i];
        let r = validate_tags(&e.tags, &e.name, AstImplementationTarget::Enum, impl_targets, Ghost(enum_checks(tv, *e)));
        assert(fe(i as int) == first_error(enum_checks(tv, *e), e.tags.len() as nat));
        if r.is_err() {
            proof {
                lemma_first_error_persists(fe, (i + 1) as nat, ast.enums.len() as nat);
            }
            return r;
        }
        i += 1;
    }
    Ok(())
}

/// Checks that every tag and every extern implementation of `ast` names a
/// declared implementation of a compatible target.
pub fn validate(ast: &Ast) -> (r: Result<(), String>)
    ensures
        validation_outcome(*ast, r),
{
    let targets = get_impl_targets(ast);
    validate_type_impls(ast, &targets)
}

/// Runs every implementation of `external` once for each of its types, each
/// in a scope holding only `TYPENAME`, and appends the separator after each.
pub fn process_extern(external: &AstExtern, ast: &Ast, separator: &str, output: &mut String) -> (r: Result<(), String>)
    ensures
        emitted(r, old(output)@, final(output)@, extern_text(*ast, *external, separator@)),
{
    let ghost start = output@;
    let ghost ft = extern_type_units(*ast, *external, separator@);
    let mut a: usize = 0;
    assert(output@ =~= start + Seq::<char>::empty());
    assert(extends(start, start + Seq::<char>::empty()));
    while a < external.types.len()
        invariant
            a <= external.types.len(),
            ft == extern_type_units(*ast, *external, separator@),
            join_units(ft, a as nat) is Ok,
            output@ == start + join_units(ft, a as nat)->Ok_0,
            extends(start, output@),
            start == old(output)@,
        decreases external.types.len() - a,
    {
        let type_ = &external.types[a];
        let variables = vec![("TYPENAME".to_owned(), type_.clone())];
        assert(scope_view(variables@) =~= seq![(typename_key(), external.types@[a as int]@)]);
        let ghost fi = extern_impl_units(*ast, *external, a as int, separator@);
        let ghost mid = output@;
        let mut b: usize = 0;
        assert(output@ =~= mid + Seq::<char>::empty());
        assert(extends(mid, mid + Seq::<char>::empty()));
        while b < external.implementations.len()
            invariant
                a < external.types.len(),
                b <= external.implementations.len(),
                fi == extern_impl_units(*ast, *external, a as int, separator@),
                ft == extern_type_units(*ast, *external, separator@),
                join_units(ft, a as nat) is Ok,
                scope_view(variables@) == seq![(typename_key(), external.types@[a as int]@)],
                join_units(fi, b as nat) is Ok,
                output@ == mid + join_units(fi, b as nat)->Ok_0,
                extends(mid, output@),
                extends(start, mid),
                start == old(output)@,
            decreases external.implementations.len() - b,
        {
            let code = &external.implementations[b].1;
            let r = process_code(&Context::Empty, code, ast, &variables, output, 0);
            if r.is_err() {
                proof {
                    lemma_units_error_persists(fi, (b + 1) as nat, external.implementations.len() as nat);
                    assert(ft(a as int) == join_units(fi, external.implementations.len() as nat));
                    lemma_units_error_persists(ft, (a + 1) as nat, external.types.len() as nat);
                }
                return r;
            }
            output.append(separator);
            assert(output@ =~= mid + join_units(fi, (b + 1) as nat)->Ok_0);
            assert(extends(mid, mid + join_units(fi, (b + 1) as nat)->Ok_0));
            b += 1;
        }
        assert(ft(a as int) == join_units(fi, external.implementations.len() as nat));
        assert(output@ =~= start + join_units(ft, (a + 1) as nat)->Ok_0);
        assert(extends(start, start + join_units(ft, (a + 1) as nat)->Ok_0));
        a += 1;
    }
    Ok(())
}

fn find_impl<'a>(impls: &'a Vec<AstImplementation>, name: &String, kind: AstImplementationTarget) -> (r: Option<&'a AstImplementation>)
    ensures
        match first_impl(impls@, name@, kind) {
            Some(imp) => r is Some && *r->Some_0 == imp,
            None => r is None,
        },
{
    let mut i: usize = 0;
    assert(impls@.subrange(0, impls@.len() as int) =~= impls@);
    while i < impls.len()
        invariant
            i <= impls.len(),
            first_impl(impls@.subrange(i as int, impls@.len() as int), name@, kind) == first_impl(impls@, name@, kind),
        decreases impls.len() - i,
    {
        let ghost rest = impls@.subrange(i as int, impls@.len() as int);
        assert(rest.drop_first() =~= impls@.subrange(i + 1, impls@.len() as int));
        assert(rest[0] == impls@[i as int]);
        if impls[i].name == *name && impls[i].target.is_valid(kind) {
            return Some(&impls[i]);
        }
        i += 1;
    }
    None
}

/// The scope of a tag body: `TYPENAME` bound to `entity`, then the tag's parameters.
fn make_tag_scope(entity: &String, params: &Vec<(String, String)>) -> (r: Vec<(String, String)>)
    ensures
        scope_view(r@) == tag_scope(entity@, params@),
{
    let mut out = vec![("TYPENAME".to_owned(), entity.clone())];
    let mut i: usize = 0;
    while i < params.len()
        invariant
            i <= params.len(),
            scope_view(out@) =~= seq![(typename_key(), entity@)] + scope_view(params@).subrange(0, i as int),
        decreases params.len() - i,
    {
        let ghost before = out@;
        out.push((params[i].0.clone(), params[i].1.clone()));
        assert(scope_view(out@) =~= scope_view(before).push((params@[i as int].0@, params@[i as int].1@)));
        assert(scope_view(params@).subrange(0, i + 1) =~= scope_view(params@).subrange(0, i as int).push(
            (params@[i as int].0@, params@[i as int].1@),
        ));
        i += 1;
    }
    assert(scope_view(params@).subrange(0, params@.len() as int) =~= scope_view(params@));
    out
}

/// Runs the implementation each tag names, in a scope of `TYPENAME` and the
/// tag's parameters, and appends the separator after each.
fn process_tags(kind: AstImplementationTarget, entity: &String, tags: &Vec<AstTag>, ast: &Ast, separator: &str, output: &mut String) -> (r: Result<(), String>)
    requires
        kind == AstImplementationTarget::Struct || kind == AstImplementationTarget::Enum,
    ensures
        emitted(
            r,
            old(output)@,
            final(output)@,
            join_units(tag_units(*ast, kind, entity@, tags@, separator@), tags.len() as nat),
        ),
{
    let ghost start = output@;
    let ghost f = tag_units(*ast, kind, entity@, tags@, separator@);
    let context = if kind == AstImplementationTarget::Struct {
        Context::Struct(entity.clone())
    } else {
        Context::Enum(entity.clone())
    };
    let mut k: usize = 0;
    assert(output@ =~= start + Seq::<char>::empty());
    assert(extends(start, start + Seq::<char>::empty()));
    while k < tags.len()
        invariant
            k <= tags.len(),
            kind == AstImplementationTarget::Struct || kind == AstImplementationTarget::Enum,
            f == tag_units(*ast, kind, entity@, tags@, separator@),
            context@ == if kind == AstImplementationTarget::Struct {
                ContextView::Struct(entity@)
            } else {
                ContextView::Enum(entity@)
            },
            join_units(f, k as nat) is Ok,
            output@ == start + join_units(f, k as nat)->Ok_0,
            extends(start, output@),
            start == old(output)@,
        decreases tags.len() - k,
    {
        let tag = &tags[k];
        assert(f(k as int) == tag_text(*ast, kind, entity@, tags@[k as int], separator@));
        let implementation = match find_impl(&ast.implementations, &tag.0, kind) {
            Some(imp) => imp,
            None => {
                proof {
                    lemma_units_error_persists(f, (k + 1) as nat, tags.len() as nat);
                }
                let mut m = if kind == AstImplementationTarget::Struct {
                    concat3("Trying to apply non-existing or non-struct trait `", tag.0.as_str(), "` for struct `")
                } else {
                    concat3("Trying to apply non-existing or non-enum trait `", tag.0.as_str(), "` for enum `")
                };
                m.append(entity.as_str());
                m.append("`");
                return Err(m);
            },
        };
        let variables = make_tag_scope(entity, &tag.1);
        let r = process_code(&context, &implementation.code, ast, &variables, output, 0);
        if r.is_err() {
            proof {
                lemma_units_error_persists(f, (k + 1) as nat, tags.len() as nat);
            }
            return r;
        }
        output.append(separator);
        assert(output@ =~= start + join_units(f, (k + 1) as nat)->Ok_0);
        assert(extends(start, start + join_units(f, (k + 1) as nat)->Ok_0));
        k += 1;
    }
    Ok(())
}

/// Runs the tags of an enum, with the enum's variants as its fields.
pub fn process_enum(enum_: &AstEnum, ast: &Ast, separator: &str, output: &mut String) -> (r: Result<(), String>)
    ensures
        emitted(r, old(output)@, final(output)@, enum_text(*ast, *enum_, separator@)),
{
    process_tags(AstImplementationTarget::Enum, &enum_.name, &enum_.tags, ast, separator, output)
}

/// Runs the tags of a struct, with the struct's fields as its fields.
pub fn process_struct(struct_: &AstStruct, ast: &Ast, separator: &str, output: &mut String) -> (r: Result<(), String>)
    ensures
        emitted(r, old(output)@, final(output)@, struct_text(*ast, *struct_, separator@)),
{
    process_tags(AstImplementationTarget::Struct, &struct_.name, &struct_.tags, ast, separator, output)
}

/// `variables` followed by a binding `_k` for each capture group `k` that took part in the match.
fn make_capture_scope(variables: &Vec<(String, String)>, groups: &Vec<Option<String>>) -> (r: Vec<(String, String)>)
    ensures
        scope_view(r@) == capture_scope(scope_view(variables@), groups_view(groups@)),
{
    let ghost g = groups_view(groups@);
    let empty: Vec<String> = Vec::new();
    let mut out = extend_scope(variables, &empty, &empty, 0);
    assert(scope_view(out@) =~= scope_view(variables@) + capture_bindings(g, 0));
    let mut k: usize = 0;
    while k < groups.len()
        invariant
            k <= groups.len(),
            g == groups_view(groups@),
            scope_view(out@) =~= scope_view(variables@) + capture_bindings(g, k as nat),
        decreases groups.len() - k,
    {
        match &groups[k] {
            Some(text) => {
                let mut name = "_".to_owned();
                let digits = decimal_string(k);
                name.append(digits.as_str());
                let ghost before = out@;
                out.push((name, text.clone()));
                assert(scope_view(out@) =~= scope_view(before).push((name@, text@)));
            },
            None => {},
        }
        k += 1;
    }
    out
}

/// The text between the matches of a rule, `gaps`, with each match in turn
/// replaced by the output of `template`; `captures` holds the capture groups
/// of each match.
pub fn apply_replacement(
    ast: &Ast,
    variables: &Vec<(String, String)>,
    template: &AstCode,
    gaps: &Vec<String>,
    captures: &Vec<Vec<Option<String>>>,
) -> (r: Result<String, String>)
    ensures
        result_view(r) == splice(*ast, scope_view(variables@), *template, strs(gaps@), captures_view(captures@)),
{
    if gaps.len() == 0 || gaps.len() - 1 != captures.len() {
        return Err("Pattern matches and the text between them do not line up".to_owned());
    }
    let ghost f = match_units(*ast, scope_view(variables@), *template, strs(gaps@), captures_view(captures@));
    let mut output = gaps[0].clone();
    let ghost first = output@;
    let mut i: usize = 0;
    assert(output@ =~= first + Seq::<char>::empty());
    while i < captures.len()
        invariant
            i <= captures.len(),
            gaps.len() == captures.len() + 1,
            f == match_units(*ast, scope_view(variables@), *template, strs(gaps@), captures_view(captures@)),
            first == gaps@[0]@,
            join_units(f, i as nat) is Ok,
            output@ == first + join_units(f, i as nat)->Ok_0,
        decreases captures.len() - i,
    {
        let scope = make_capture_scope(variables, &captures[i]);
        let r = process_code(&Context::Empty, template, ast, &scope, &mut output, 0);
        match r {
            Ok(()) => {},
            Err(e) => {
                proof {
                    lemma_units_error_persists(f, (i + 1) as nat, captures.len() as nat);
                }
                return Err(e);
            },
        }
        output.append(gaps[i + 1].as_str());
        assert(output@ =~= first + join_units(f, (i + 1) as nat)->Ok_0);
        i += 1;
    }
    Ok(output)
}

/// Rewrites `input` by `replace`: every match of its pattern becomes the
/// output of its template in `variables` and the match's capture groups.
pub fn process_replacement(replace: &AstReplace, input: &String, ast: &Ast, variables: &Vec<(String, String)>) -> (r: Result<String, String>)
    ensures
        result_view(r) == replace_one(*ast, scope_view(variables@), *replace, input@),
{
    let pattern = match compile(replace.pattern.as_str()) {
        Ok(p) => p,
        Err(_) => {
            return Err(concat3("Could not parse replacement pattern `", replace.pattern.as_str(), "`"));
        },
    };
    let gaps = split_text(&pattern, input.as_str());
    let captures = capture_groups(&pattern, input.as_str());
    assert(captures_view(captures@) =~= regex_captures(replace.pattern@, input@));
    apply_replacement(ast, variables, &replace.template, &gaps, &captures)
}

/// Validates `ast`, then runs its injects, extern blocks, enums and structs in
/// that order, each unit followed by `separator`, and finally applies its
/// rewrite rules in order to the whole output. `on_import` resolves import
/// paths; imports are not yet spliced into the program, so it is not called.
pub fn process<F>(ast: &Ast, separator: &str, variables: Vec<(String, String)>, on_import: F) -> (r: Result<String, String>)
    where
        F: FnMut(&str) -> Result<String, String>,
    ensures
        result_view(r) == program_output(*ast, separator@, scope_view(variables@)),
{
    let ghost sv = scope_view(variables@);
    let ghost sep = separator@;
    let targets = get_impl_targets(ast);
    match validate_type_impls(ast, &targets) {
        Ok(()) => {},
        Err(e) => return Err(e),
    }
    let mut output = String::new();
    let ghost f1 = inject_units(*ast, sep, sv);
    let mut i: usize = 0;
    assert(output@ =~= Seq::<char>::empty() + Seq::<char>::empty());
    while i < ast.injects.len()
        invariant
            i <= ast.injects.len(),
            program_fault(*ast) is None,
            f1 == inject_units(*ast, sep, sv),
            sv == scope_view(variables@),
            sep == separator@,
            join_units(f1, i as nat) is Ok,
            output@ == join_units(f1, i as nat)->Ok_0,
        decreases ast.injects.len() - i,
    {
        let r = process_code(&Context::Empty, &ast.injects[i], ast, &variables, &mut output, 0);
        if let Err(e) = r {
            proof {
                lemma_units_error_persists(f1, (i + 1) as nat, ast.injects.len() as nat);
            }
            return Err(e);
        }
        output.append(separator);
        assert(output@ =~= join_units(f1, (i + 1) as nat)->Ok_0);
        i += 1;
    }
    let ghost s1 = output@;
    assert(join_units(inject_units(*ast, sep, sv), ast.injects.len() as nat) == Ok::<Seq<char>, Seq<char>>(s1));
    let ghost f2 = externs_units(*ast, sep);
    let mut i: usize = 0;
    assert(output@ =~= s1 + Seq::<char>::empty());
    while i < ast.externs.len()
        invariant
            i <= ast.externs.len(),
            program_fault(*ast) is None,
            f2 == externs_units(*ast, sep),
            sv == scope_view(variables@),
            join_units(inject_units(*ast, sep, sv), ast.injects.len() as nat) == Ok::<Seq<char>, Seq<char>>(s1),
            sep == separator@,
            join_units(f2, i as nat) is Ok,
            output@ == s1 + join_units(f2, i as nat)->Ok_0,
        decreases ast.externs.len() - i,
    {
        let r = process_extern(&ast.externs[i], ast, separator, &mut output);
        if let Err(e) = r {
            proof {
                lemma_units_error_persists(f2, (i + 1) as nat, ast.externs.len() as nat);
            }
            return Err(e);
        }
        assert(output@ =~= s1 + join_units(f2, (i + 1) as nat)->Ok_0);
        i += 1;
    }
    let ghost s2 = output@;
    assert(then(join_units(inject_units(*ast, sep, sv), ast.injects.len() as nat), join_units(externs_units(*ast, sep), ast.externs.len() as nat)) =~= Ok::<Seq<char>, Seq<char>>(s2));
    let ghost f3 = enums_units(*ast, sep);
    let mut i: usize = 0;
    assert(output@ =~= s2 + Seq::<char>::empty());
    while i < ast.enums.len()
        invariant
            i <= ast.enums.len(),
            program_fault(*ast) is None,
            f3 == enums_units(*ast, sep),
            sv == scope_view(variables@),
            then(join_units(inject_units(*ast, sep, sv), ast.injects.len() as nat), join_units(externs_units(*ast, sep), ast.externs.len() as nat)) == Ok::<Seq<char>, Seq<char>>(s2),
            sep == separator@,
            join_units(f3, i as nat) is Ok,
            output@ == s2 + join_units(f3, i as nat)->Ok_0,
        decreases ast.enums.len() - i,
    {
        let r = process_enum(&ast.enums[i], ast, separator, &mut output);
        if let Err(e) = r {
            proof {
                lemma_units_error_persists(f3, (i + 1) as nat, ast.enums.len() as nat);
            }
            return Err(e);
        }
        assert(output@ =~= s2 + join_units(f3, (i + 1) as nat)->Ok_0);
        i += 1;
    }
    let ghost s3 = output@;
    assert(then(then(join_units(inject_units(*ast, sep, sv), ast.injects.len() as nat), join_units(externs_units(*ast, sep), ast.externs.len() as nat)), join_units(enums_units(*ast, sep), ast.enums.len() as nat)) =~= Ok::<Seq<char>, Seq<char>>(s3));
    let ghost f4 = structs_units(*ast, sep);
    let mut i: usize = 0;
    assert(output@ =~= s3 + Seq::<char>::empty());
    while i < ast.structs.len()
        invariant
            i <= ast.structs.len(),
            program_fault(*ast) is None,
            f4 == structs_units(*ast, sep),
            sv == scope_view(variables@),
            then(then(join_units(inject_units(*ast, sep, sv), ast.injects.len() as nat), join_units(externs_units(*ast, sep), ast.externs.len() as nat)), join_units(enums_units(*ast, sep), ast.enums.len() as nat)) == Ok::<Seq<char>, Seq<char>>(s3),
            sep == separator@,
            join_units(f4, i as nat) is Ok,
            output@ == s3 + join_units(f4, i as nat)->Ok_0,
        decreases ast.structs.len() - i,
    {
        let r = process_struct(&ast.structs[i], ast, separator, &mut output);
        if let Err(e) = r {
            proof {
                lemma_units_error_persists(f4, (i + 1) as nat, ast.structs.len() as nat);
            }
            return Err(e);
        }
        assert(output@ =~= s3 + join_units(f4, (i + 1) as nat)->Ok_0);
        i += 1;
    }
    assert(draft_text(*ast, sep, sv) =~= Ok::<Seq<char>, Seq<char>>(output@));
    let ghost draft = output@;
    let mut k: usize = 0;
    while k < ast.replacements.len()
        invariant
            k <= ast.replacements.len(),
            sv == scope_view(variables@),
            replace_rules(*ast, sv, draft, k as nat) == Ok::<Seq<char>, Seq<char>>(output@),
            program_fault(*ast) is None,
            draft_text(*ast, separator@, sv) == Ok::<Seq<char>, Seq<char>>(draft),
        decreases ast.replacements.len() - k,
    {
        match process_replacement(&ast.replacements[k], &output, ast, &variables) {
            Ok(next) => {
                output = next;
            },
            Err(e) => {
                proof {
                    lemma_rules_error_persists(*ast, sv, draft, (k + 1) as nat, ast.replacements.len() as nat);
                }
                return Err(e);
            },
        }
        k += 1;
    }
    Ok(output)
}

pub proof fn lemma_rules_error_persists(ast: Ast, vars: ScopeView, text: Seq<char>, k: nat, n: nat)
    requires
        k <= n,
        replace_rules(ast, vars, text, k) is Err,
    ensures
        replace_rules(ast, vars, text, n) == replace_rules(ast, vars, text, k),
    decreases n,
{
    if n > k {
        lemma_rules_error_persists(ast, vars, text, k, (n - 1) as nat);
    }
}

/// A program without imports, injects, externs, structs, enums,
/// implementations or rewrite rules produces the empty text, whatever the
/// separator and the variables.
pub proof fn lemma_empty_program(ast: Ast, sep: Seq<char>, vars: ScopeView)
    requires
        ast.imports.len() == 0,
        ast.injects.len() == 0,
        ast.externs.len() == 0,
        ast.structs.len() == 0,
        ast.enums.len() == 0,
        ast.implementations.len() == 0,
        ast.replacements.len() == 0,
    ensures
        program_output(ast, sep, vars) == Ok::<Seq<char>, Seq<char>>(Seq::empty()),
{
    assert(draft_text(ast, sep, vars) =~= Ok::<Seq<char>, Seq<char>>(Seq::empty()));
}

pub proof fn lemma_first_error_found(f: spec_fn(int) -> Option<Seq<char>>, b: int, n: nat)
    requires
        0 <= b < n,
        f(b) is Some,
    ensures
        first_error(f, n) is Some,
    decreases n,
{
    if b < n - 1 {
        lemma_first_error_found(f, b, (n - 1) as nat);
    }
}

/// A struct tag that names no implementation applicable to structs makes the
/// whole run fail with the validation error, before any output is made.
pub proof fn lemma_struct_tag_without_implementation(ast: Ast, sep: Seq<char>, vars: ScopeView, s: int, t: int)
    requires
        0 <= s < ast.structs.len(),
        0 <= t < ast.structs@[s].tags.len(),
        !declares_for(impl_targets(ast), ast.structs@[s].tags@[t].0@, AstImplementationTarget::Struct),
    ensures
        program_fault(ast) is Some,
        program_output(ast, sep, vars) == Err::<Seq<char>, Seq<char>>(program_fault(ast)->Some_0),
{
    let targets = impl_targets(ast);
    let st = ast.structs@[s];
    lemma_first_error_found(struct_checks(targets, st), t, st.tags.len() as nat);
    lemma_first_error_found(structs_checks(targets, ast), s, ast.structs.len() as nat);
}

/// An enum tag that names no implementation applicable to enums makes the
/// whole run fail with the validation error, before any output is made.
pub proof fn lemma_enum_tag_without_implementation(ast: Ast, sep: Seq<char>, vars: ScopeView, e: int, t: int)
    requires
        0 <= e < ast.enums.len(),
        0 <= t < ast.enums@[e].tags.len(),
        !declares_for(impl_targets(ast), ast.enums@[e].tags@[t].0@, AstImplementationTarget::Enum),
    ensures
        program_fault(ast) is Some,
        program_output(ast, sep, vars) == Err::<Seq<char>, Seq<char>>(program_fault(ast)->Some_0),
{
    let targets = impl_targets(ast);
    let en = ast.enums@[e];
    lemma_first_error_found(enum_checks(targets, en), t, en.tags.len() as nat);
    lemma_first_error_found(enums_checks(targets, ast), e, ast.enums.len() as nat);
}

/// A name bound only by a loop is unbound right after the loop: code that
/// refers to it there fails.
pub proof fn lemma_loop_variables_stay_inside(ast: Ast, ctx: ContextView, f: AstCodeFor, name: String, scope: ScopeView, depth: nat)
    requires
        lookup(scope, name@) is None,
        run_for(ast, ctx, f, scope, depth) is Ok,
    ensures
        run_chunks(ast, ctx, seq![AstCodeChunk::For(f), AstCodeChunk::Variable(name)], scope, depth)
            == Err::<Seq<char>, Seq<char>>(undefined_variable_message(name@)),
{
    let chunks = seq![AstCodeChunk::For(f), AstCodeChunk::Variable(name)];
    assert(chunks.drop_last() =~= seq![AstCodeChunk::For(f)]);
    assert(seq![AstCodeChunk::For(f)].drop_last() =~= Seq::<AstCodeChunk>::empty());
    assert(seq![AstCodeChunk::For(f)].last() == AstCodeChunk::For(f));
    assert(run_chunks(ast, ctx, Seq::<AstCodeChunk>::empty(), scope, depth) == Ok::<Seq<char>, Seq<char>>(Seq::empty()));
    assert(run_chunks(ast, ctx, seq![AstCodeChunk::For(f)], scope, depth) is Ok);
}

/// In a tag body `TYPENAME` names the entity, unless a parameter of the tag
/// rebinds it.
pub proof fn lemma_tag_scope_typename(entity: Seq<char>, params: Seq<(String, String)>)
    requires
        forall|j: int| 0 <= j < params.len() ==> #[trigger] params[j].0@ != typename_key(),
    ensures
        lookup(tag_scope(entity, params), typename_key()) == Some(entity),
{
    lemma_lookup_skips(seq![(typename_key(), entity)], scope_view(params), typename_key());
}

/// A tag body sees no name but `TYPENAME` and the tag's own parameters: the
/// parameters of other tags, and the caller's variables, are not visible.
pub proof fn lemma_tag_scope_only_own(entity: Seq<char>, params: Seq<(String, String)>, name: Seq<char>)
    requires
        name != typename_key(),
        forall|j: int| 0 <= j < params.len() ==> #[trigger] params[j].0@ != name,
    ensures
        lookup(tag_scope(entity, params), name) is None,
{
    assert forall|j: int| 0 <= j < params.len() implies #[trigger] scope_view(params)[j].0 != name by {
        assert(params[j].0@ != name);
    }
    let head = seq![(typename_key(), entity)];
    lemma_lookup_skips(head, scope_view(params), name);
    assert(head.drop_last() =~= Seq::<(Seq<char>, Seq<char>)>::empty());
    assert(head.last().0 != name);
    assert(lookup(head.drop_last(), name) is None);
}

/// Bindings that do not bind `name` do not change what it is bound to.
pub proof fn lemma_lookup_skips(a: ScopeView, b: ScopeView, name: Seq<char>)
    requires
        forall|j: int| 0 <= j < b.len() ==> #[trigger] b[j].0 != name,
    ensures
        lookup(a + b, name) == lookup(a, name),
    decreases b.len(),
{
    if b.len() > 0 {
        assert((a + b).drop_last() =~= a + b.drop_last());
        lemma_lookup_skips(a, b.drop_last(), name);
    } else {
        assert(a + b =~= a);
    }
}

/// `r` is what validating `ast` gives.
pub open spec fn validation_outcome(ast: Ast, r: Result<(), String>) -> bool {
    match program_fault(ast) {
        None => r is Ok,
        Some(e) => r is Err && r->Err_0@ == e,
    }
}

/// Validating one program twice gives the same verdict, and on failure the
/// same error, naming the same offending tag or implementation.
pub proof fn lemma_validate_repeatable(ast: Ast, first: Result<(), String>, second: Result<(), String>)
    requires
        validation_outcome(ast, first),
        validation_outcome(ast, second),
    ensures
        first is Ok <==> second is Ok,
        first is Err ==> first->Err_0@ == second->Err_0@,
{
}

pub proof fn lemma_first_error_none(f: spec_fn(int) -> Option<Seq<char>>, n: nat)
    ensures
        first_error(f, n) is None <==> forall|b: int| 0 <= b < n ==> #[trigger] f(b) is None,
    decreases n,
{
    if n > 0 {
        lemma_first_error_none(f, (n - 1) as nat);
    }
}

/// Every implementation that an extern block names is declared, and every
/// struct or enum tag names a declared implementation that applies to its kind.
pub open spec fn all_names_declared(ast: Ast) -> bool {
    &&& forall|a: int, b: int|
        0 <= a < ast.externs.len() && 0 <= b < ast.externs@[a].implementations.len() ==> declares(
            impl_targets(ast),
            #[trigger] ast.externs@[a].implementations@[b].0@,
        )
    &&& forall|a: int, b: int|
        0 <= a < ast.structs.len() && 0 <= b < ast.structs@[a].tags.len() ==> declares_for(
            impl_targets(ast),
            #[trigger] ast.structs@[a].tags@[b].0@,
            AstImplementationTarget::Struct,
        )
    &&& forall|a: int, b: int|
        0 <= a < ast.enums.len() && 0 <= b < ast.enums@[a].tags.len() ==> declares_for(
            impl_targets(ast),
            #[trigger] ast.enums@[a].tags@[b].0@,
            AstImplementationTarget::Enum,
        )
}

/// Validation succeeds exactly when every name it checks is declared.
pub proof fn lemma_validation_succeeds_iff(ast: Ast)
    ensures
        program_fault(ast) is None <==> all_names_declared(ast),
{
    let t = impl_targets(ast);
    lemma_first_error_none(externs_checks(t, ast), ast.externs.len() as nat);
    lemma_first_error_none(structs_checks(t, ast), ast.structs.len() as nat);
    lemma_first_error_none(enums_checks(t, ast), ast.enums.len() as nat);
    assert forall|a: int| 0 <= a < ast.externs.len() implies (#[trigger] externs_checks(t, ast)(a) is None <==> forall|b: int|
        0 <= b < ast.externs@[a].implementations.len() ==> declares(t, #[trigger] ast.externs@[a].implementations@[b].0@)) by {
        lemma_first_error_none(extern_checks(t, ast.externs@[a]), ast.externs@[a].implementations.len() as nat);
        assert(externs_checks(t, ast)(a) == first_error(
            extern_checks(t, ast.externs@[a]),
            ast.externs@[a].implementations.len() as nat,
        ));
        assert forall|b: int|
            #![trigger extern_checks(t, ast.externs@[a])(b)]
            #![trigger ast.externs@[a].implementations@[b].0@]
            0 <= b < ast.externs@[a].implementations.len() implies (extern_checks(t, ast.externs@[a])(b) is None
            <==> declares(t, ast.externs@[a].implementations@[b].0@)) by {}
    }
    assert forall|a: int| 0 <= a < ast.structs.len() implies (#[trigger] structs_checks(t, ast)(a) is None <==> forall|b: int|
        0 <= b < ast.structs@[a].tags.len() ==> declares_for(t, #[trigger] ast.structs@[a].tags@[b].0@, AstImplementationTarget::Struct)) by {
        lemma_first_error_none(struct_checks(t, ast.structs@[a]), ast.structs@[a].tags.len() as nat);
        assert(structs_checks(t, ast)(a) == first_error(struct_checks(t, ast.structs@[a]), ast.structs@[a].tags.len() as nat));
        assert forall|b: int|
            #![trigger struct_checks(t, ast.structs@[a])(b)]
            #![trigger ast.structs@[a].tags@[b].0@]
            0 <= b < ast.structs@[a].tags.len() implies (struct_checks(t, ast.structs@[a])(b) is None
            <==> declares_for(t, ast.structs@[a].tags@[b].0@, AstImplementationTarget::Struct)) by {}
    }
    assert forall|a: int| 0 <= a < ast.enums.len() implies (#[trigger] enums_checks(t, ast)(a) is None <==> forall|b: int|
        0 <= b < ast.enums@[a].tags.len() ==> declares_for(t, #[trigger] ast.enums@[a].tags@[b].0@, AstImplementationTarget::Enum)) by {
        lemma_first_error_none(enum_checks(t, ast.enums@[a]), ast.enums@[a].tags.len() as nat);
        assert forall|b: int|
            #![trigger enum_checks(t, ast.enums@[a])(b)]
            #![trigger ast.enums@[a].tags@[b].0@]
            0 <= b < ast.enums@[a].tags.len() implies (enum_checks(t, ast.enums@[a])(b) is None
            <==> declares_for(t, ast.enums@[a].tags@[b].0@, AstImplementationTarget::Enum)) by {}
    }
    if all_names_declared(ast) {
        assert forall|a: int| 0 <= a < ast.externs.len() implies #[trigger] externs_checks(t, ast)(a) is None by {
            assert forall|b: int| 0 <= b < ast.externs@[a].implementations.len() implies declares(
                t,
                #[trigger] ast.externs@[a].implementations@[b].0@,
            ) by {}
        }
        assert forall|a: int| 0 <= a < ast.structs.len() implies #[trigger] structs_checks(t, ast)(a) is None by {
            assert forall|b: int| 0 <= b < ast.structs@[a].tags.len() implies declares_for(
                t,
                #[trigger] ast.structs@[a].tags@[b].0@,
                AstImplementationTarget::Struct,
            ) by {}
        }
        assert forall|a: int| 0 <= a < ast.enums.len() implies #[trigger] enums_checks(t, ast)(a) is None by {
            assert forall|b: int| 0 <= b < ast.enums@[a].tags.len() implies declares_for(
                t,
                #[trigger] ast.enums@[a].tags@[b].0@,
                AstImplementationTarget::Enum,
            ) by {}
        }
    }
    if program_fault(ast) is None {
        assert forall|a: int, b: int|
            0 <= a < ast.externs.len() && 0 <= b < ast.externs@[a].implementations.len() implies declares(
                t,
                #[trigger] ast.externs@[a].implementations@[b].0@,
            ) by {
            assert(externs_checks(t, ast)(a) is None);
        }
        assert forall|a: int, b: int|
            0 <= a < ast.structs.len() && 0 <= b < ast.structs@[a].tags.len() implies declares_for(
                t,
                #[trigger] ast.structs@[a].tags@[b].0@,
                AstImplementationTarget::Struct,
            ) by {
            assert(structs_checks(t, ast)(a) is None);
        }
        assert forall|a: int, b: int|
            0 <= a < ast.enums.len() && 0 <= b < ast.enums@[a].tags.len() implies declares_for(
                t,
                #[trigger] ast.enums@[a].tags@[b].0@,
                AstImplementationTarget::Enum,
            ) by {
            assert(enums_checks(t, ast)(a) is None);
        }
    }
}

} // verus!

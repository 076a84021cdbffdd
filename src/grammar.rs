//! The template grammar as spec functions over the source characters: each
//! returns what is read at a position and where reading stops, or `None`
//! where the source does not follow the grammar.
use vstd::prelude::*;
use crate::ast::{
    is_identifier_char, is_identifier_start, Ast, AstCodeChunk, AstEnum, AstExtern, AstImplementation,
    AstImplementationTarget, AstIn, AstReplace, AstStruct, AstTag, AstType, AstWhereRule,
};
use crate::parser::unescape;
use crate::text::strs;

verus! {

pub open spec fn is_space_char(c: char) -> bool {
    c == ' ' || c == '\t' || c == '\n' || c == '\r'
}

/// The first position at or after `p` that holds a line break, or the end.
pub open spec fn line_end(c: Seq<char>, p: int) -> int
    decreases c.len() - p,
{
    if p < 0 || p >= c.len() || c[p] == '\n' {
        p
    } else {
        line_end(c, p + 1)
    }
}

/// The first position at or after `p` that is neither white space nor part
/// of a `//` comment.
pub open spec fn ws_end(c: Seq<char>, p: int) -> int
    decreases c.len() - p,
{
    if p < 0 || p >= c.len() {
        p
    } else if is_space_char(c[p]) {
        ws_end(c, p + 1)
    } else if c[p] == '/' && p + 1 < c.len() && c[p + 1] == '/' {
        let e = line_end(c, p + 2);
        if p < e <= c.len() {
            ws_end(c, e)
        } else {
            p
        }
    } else {
        p
    }
}

/// The first position at or after `p` that does not hold an identifier character.
pub open spec fn ident_scan(c: Seq<char>, p: int) -> int
    decreases c.len() - p,
{
    if p < 0 || p >= c.len() || !is_identifier_char(c[p]) {
        p
    } else {
        ident_scan(c, p + 1)
    }
}

/// The identifier at `p` and the position after it.
pub open spec fn ident_at(c: Seq<char>, p: int) -> Option<(Seq<char>, int)> {
    if 0 <= p < c.len() && is_identifier_start(c[p]) {
        let e = ident_scan(c, p + 1);
        Some((c.subrange(p, e), e))
    } else {
        None
    }
}

/// The position of the quote that closes a string whose text starts at `p`,
/// or the end of the source.
pub open spec fn string_scan(c: Seq<char>, p: int) -> int
    decreases c.len() - p,
{
    if p < 0 || p >= c.len() || c[p] == '"' {
        p
    } else if c[p] == '\\' && p + 1 < c.len() {
        string_scan(c, p + 2)
    } else {
        string_scan(c, p + 1)
    }
}

/// The text of the quoted string at `p` and the position after it.
pub open spec fn string_at(c: Seq<char>, p: int) -> Option<(Seq<char>, int)> {
    if 0 <= p < c.len() && c[p] == '"' {
        let e = string_scan(c, p + 1);
        if e < c.len() {
            Some((c.subrange(p + 1, e), e + 1))
        } else {
            None
        }
    } else {
        None
    }
}

/// What a loop walks, as read from the source.
pub enum InV {
    Unspecified,
    Fields,
    Variable(Seq<char>),
}

/// A `where` rule, as read from the source.
pub enum WhereV {
    Empty,
    Exists(Seq<char>),
    Is(Seq<char>, Seq<char>),
    Impl(InV, Seq<Seq<char>>),
}

/// A chunk of a code template, as read from the source.
pub enum ChunkV {
    Empty,
    Text(Seq<char>),
    Var(Seq<char>),
    Loop(Seq<Seq<char>>, InV, Seq<WhereV>, Seq<ChunkV>),
}

/// `o` with `acc` put before the sequence it reads.
pub open spec fn prepend<T>(acc: Seq<T>, o: Option<(Seq<T>, int)>) -> Option<(Seq<T>, int)> {
    match o {
        Some((rest, e)) => Some((acc + rest, e)),
        None => None,
    }
}

pub proof fn lemma_prepend_step<T>(acc: Seq<T>, x: T, o: Option<(Seq<T>, int)>)
    ensures
        prepend(acc, prepend(seq![x], o)) == prepend(acc.push(x), o),
{
    if let Some((rest, e)) = o {
        assert(acc + (seq![x] + rest) =~= acc.push(x) + rest);
    }
}

pub open spec fn at(c: Seq<char>, p: int, ch: char) -> bool {
    0 <= p < c.len() && c[p] == ch
}

/// Three backticks start at `p`.
pub open spec fn ticks(c: Seq<char>, p: int) -> bool {
    at(c, p, '`') && at(c, p + 1, '`') && at(c, p + 2, '`')
}

/// `@{` starts at `p`.
pub open spec fn op_start(c: Seq<char>, p: int) -> bool {
    at(c, p, '@') && at(c, p + 1, '{')
}

/// The end of the literal text that runs from `p`.
pub open spec fn text_end(c: Seq<char>, p: int) -> int
    decreases c.len() - p,
{
    if p < 0 || p >= c.len() || ticks(c, p) || op_start(c, p) {
        p
    } else {
        text_end(c, p + 1)
    }
}

pub open spec fn in_at(c: Seq<char>, p: int) -> Option<(InV, int)> {
    match ident_at(c, p) {
        None => None,
        Some((w, e)) => if w == "fields"@ {
            Some((InV::Fields, e))
        } else {
            Some((InV::Variable(w), e))
        },
    }
}

/// Names joined by `sep`, starting at `p`.
pub open spec fn names_at(c: Seq<char>, p: int, sep: char) -> Option<(Seq<Seq<char>>, int)>
    decreases c.len() - p,
{
    match ident_at(c, p) {
        None => None,
        Some((n, q)) => {
            let t = ws_end(c, q);
            if at(c, t, sep) {
                let p2 = ws_end(c, t + 1);
                if p < p2 <= c.len() {
                    prepend(seq![n], names_at(c, p2, sep))
                } else {
                    None
                }
            } else {
                Some((seq![n], q))
            }
        },
    }
}

/// The rest of an `impl` rule after its keyword, at `q`.
pub open spec fn impl_rule_at(c: Seq<char>, q: int) -> Option<(WhereV, int)> {
    match in_at(c, ws_end(c, q)) {
        None => None,
        Some((i, q2)) => {
            let q3 = ws_end(c, q2);
            if at(c, q3, ':') {
                match names_at(c, ws_end(c, q3 + 1), '+') {
                    Some((names, e)) => Some((WhereV::Impl(i, names), e)),
                    None => None,
                }
            } else {
                None
            }
        },
    }
}

/// The rest of an `is` rule on variable `w`, at `q`.
pub open spec fn is_rule_at(c: Seq<char>, w: Seq<char>, q: int) -> Option<(WhereV, int)> {
    match ident_at(c, ws_end(c, q)) {
        Some((k, q3)) => if k == "is"@ {
            match string_at(c, ws_end(c, q3)) {
                Some((v, e)) => Some((WhereV::Is(w, v), e)),
                None => None,
            }
        } else {
            None
        },
        None => None,
    }
}

pub open spec fn where_rule_at(c: Seq<char>, p: int) -> Option<(WhereV, int)> {
    match ident_at(c, p) {
        None => None,
        Some((w, q)) => if w == "exists"@ {
            match ident_at(c, ws_end(c, q)) {
                Some((n, e)) => Some((WhereV::Exists(n), e)),
                None => None,
            }
        } else if w == "impl"@ {
            impl_rule_at(c, q)
        } else {
            is_rule_at(c, w, q)
        },
    }
}

/// `where` rules separated by commas, starting at `p`.
pub open spec fn where_list_at(c: Seq<char>, p: int) -> Option<(Seq<WhereV>, int)>
    decreases c.len() - p,
{
    match where_rule_at(c, p) {
        None => None,
        Some((w, q)) => {
            let t = ws_end(c, q);
            if at(c, t, ',') {
                let p2 = ws_end(c, t + 1);
                if p < p2 <= c.len() {
                    prepend(seq![w], where_list_at(c, p2))
                } else {
                    None
                }
            } else {
                Some((seq![w], q))
            }
        },
    }
}

/// Optional `where` rules at `p`: none unless the word there is `where`.
pub open spec fn where_rules_at(c: Seq<char>, p: int) -> Option<(Seq<WhereV>, int)> {
    match ident_at(c, p) {
        Some((w, q)) => if w == "where"@ {
            where_list_at(c, ws_end(c, q))
        } else {
            Some((Seq::empty(), p))
        },
        None => Some((Seq::empty(), p)),
    }
}

/// How deeply loops may nest in a code block; deeper nesting is a syntax error.
pub const MAX_LOOP_NESTING: usize = 64;

/// A code block at `p`, inside `d` enclosing loops: its chunks and the position after its closing backticks.
pub open spec fn code_at(c: Seq<char>, p: int, d: nat) -> Option<(Seq<ChunkV>, int)>
    decreases c.len() - p, 1int,
{
    if ticks(c, p) && 0 <= p {
        code_body(c, p + 3, d)
    } else {
        None
    }
}

/// The chunks of a code block from `p` up to and past its closing backticks.
pub open spec fn code_body(c: Seq<char>, p: int, d: nat) -> Option<(Seq<ChunkV>, int)>
    decreases c.len() - p, 0int,
{
    if p < 0 {
        None
    } else if ticks(c, p) {
        Some((Seq::empty(), p + 3))
    } else if p >= c.len() {
        None
    } else if op_start(c, p) {
        match code_op(c, p + 2, d) {
            None => None,
            Some((ch, q)) => if p < q <= c.len() {
                prepend(seq![ch], code_body(c, q, d))
            } else {
                None
            },
        }
    } else {
        let t = text_end(c, p + 1);
        if p < t <= c.len() {
            prepend(seq![ChunkV::Text(c.subrange(p, t))], code_body(c, t, d))
        } else {
            None
        }
    }
}

/// What follows `@{` at `p`: a variable or a loop, then `}@`.
pub open spec fn code_op(c: Seq<char>, p: int, d: nat) -> Option<(ChunkV, int)>
    decreases c.len() - p, 3int,
{
    match ident_at(c, ws_end(c, p)) {
        None => None,
        Some((w, q)) => {
            let r = if w == "for"@ {
                if p < q <= c.len() && d < MAX_LOOP_NESTING {
                    code_for(c, q, d + 1)
                } else {
                    None
                }
            } else {
                Some((ChunkV::Var(w), q))
            };
            match r {
                None => None,
                Some((ch, q3)) => {
                    let q4 = ws_end(c, q3);
                    if at(c, q4, '}') && at(c, q4 + 1, '@') {
                        Some((ch, q4 + 2))
                    } else {
                        None
                    }
                },
            }
        },
    }
}

/// A loop after its `for` keyword at `p`; `d` counts it and the loops around it.
pub open spec fn code_for(c: Seq<char>, p: int, d: nat) -> Option<(ChunkV, int)>
    decreases c.len() - p, 2int,
{
    match names_at(c, ws_end(c, p), ',') {
        None => None,
        Some((vars, q2)) => match ident_at(c, ws_end(c, q2)) {
            None => None,
            Some((w, q4)) => if w != "in"@ {
                None
            } else {
                match in_at(c, ws_end(c, q4)) {
                    None => None,
                    Some((i, q6)) => match where_rules_at(c, ws_end(c, q6)) {
                        None => None,
                        Some((wr, q8)) => {
                            let q9 = ws_end(c, q8);
                            if p < q9 <= c.len() {
                                match code_at(c, q9, d) {
                                    Some((body, e)) => Some((ChunkV::Loop(vars, i, wr, body), e)),
                                    None => None,
                                }
                            } else {
                                None
                            }
                        },
                    },
                }
            },
        },
    }
}

pub open spec fn in_view(i: AstIn) -> InV {
    match i {
        AstIn::Unspecified => InV::Unspecified,
        AstIn::Fields => InV::Fields,
        AstIn::Variable(n) => InV::Variable(n@),
    }
}

pub open spec fn where_view(w: AstWhereRule) -> WhereV {
    match w {
        AstWhereRule::Empty => WhereV::Empty,
        AstWhereRule::Exists(n) => WhereV::Exists(n@),
        AstWhereRule::Is(r) => WhereV::Is(r.variable@, r.value@),
        AstWhereRule::Impl(r) => WhereV::Impl(in_view(r.container), strs(r.implements@)),
    }
}

pub open spec fn wheres_view(w: Seq<AstWhereRule>) -> Seq<WhereV> {
    w.map_values(|r: AstWhereRule| where_view(r))
}

/// The chunks of a code template as the grammar reads them.
pub open spec fn chunks_view(chunks: Seq<AstCodeChunk>) -> Seq<ChunkV>
    decreases chunks,
{
    if chunks.len() == 0 {
        Seq::empty()
    } else {
        chunks_view(chunks.drop_last()).push(
            match chunks.last() {
                AstCodeChunk::Empty => ChunkV::Empty,
                AstCodeChunk::Content(t) => ChunkV::Text(t@),
                AstCodeChunk::Variable(n) => ChunkV::Var(n@),
                AstCodeChunk::For(f) => ChunkV::Loop(
                    strs(f.variables@),
                    in_view(f.container),
                    wheres_view(f.where_rules@),
                    chunks_view(f.code.0@),
                ),
            },
        )
    }
}

pub open spec fn chunk_view(ch: AstCodeChunk) -> ChunkV {
    chunks_view(seq![ch])[0]
}

pub proof fn lemma_chunks_view_push(chunks: Seq<AstCodeChunk>, ch: AstCodeChunk)
    ensures
        chunks_view(chunks.push(ch)) == chunks_view(chunks).push(chunk_view(ch)),
{
    assert(chunks.push(ch).drop_last() =~= chunks);
    assert(seq![ch].drop_last() =~= Seq::<AstCodeChunk>::empty());
    assert(chunks_view(Seq::<AstCodeChunk>::empty()) =~= Seq::<ChunkV>::empty());
    assert(chunks.push(ch).last() == ch);
    assert(seq![ch].last() == ch);
}
pub broadcast proof fn lemma_chunk_view(ch: AstCodeChunk)
    ensures
        #[trigger] chunk_view(ch) == match ch {
            AstCodeChunk::Empty => ChunkV::Empty,
            AstCodeChunk::Content(t) => ChunkV::Text(t@),
            AstCodeChunk::Variable(n) => ChunkV::Var(n@),
            AstCodeChunk::For(f) => ChunkV::Loop(
                strs(f.variables@),
                in_view(f.container),
                wheres_view(f.where_rules@),
                chunks_view(f.code.0@),
            ),
        },
{
    assert(chunks_view(Seq::<AstCodeChunk>::empty()) =~= Seq::<ChunkV>::empty());
    assert(seq![ch].drop_last() =~= Seq::<AstCodeChunk>::empty());
    assert(seq![ch].last() == ch);
}

pub enum TypeV {
    Absent,
    Extern(Seq<char>),
    Local(Seq<char>),
}

/// An implementation name and its parameters.
pub type TagV = (Seq<char>, Seq<(Seq<char>, Seq<char>)>);

/// A whole program, as read from the source: each kind of declaration in
/// source order.
pub struct ProgramV {
    pub imports: Seq<Seq<char>>,
    pub injects: Seq<Seq<ChunkV>>,
    pub externs: Seq<(Seq<Seq<char>>, Seq<(Seq<char>, Seq<ChunkV>)>)>,
    pub structs: Seq<(Seq<TagV>, Seq<char>, Seq<(Seq<char>, TypeV)>)>,
    pub enums: Seq<(Seq<TagV>, Seq<char>, Seq<Seq<char>>)>,
    pub implementations: Seq<(AstImplementationTarget, Seq<char>, Seq<WhereV>, Seq<ChunkV>)>,
    pub replacements: Seq<(Seq<char>, Seq<ChunkV>)>,
}

pub open spec fn type_view(t: AstType) -> TypeV {
    match t {
        AstType::Absent => TypeV::Absent,
        AstType::Extern(n) => TypeV::Extern(n@),
        AstType::Local(n) => TypeV::Local(n@),
    }
}

pub open spec fn params_view(p: Seq<(String, String)>) -> Seq<(Seq<char>, Seq<char>)> {
    p.map_values(|x: (String, String)| (x.0@, x.1@))
}

pub open spec fn tags_view(t: Seq<AstTag>) -> Seq<TagV> {
    t.map_values(|x: AstTag| (x.0@, params_view(x.1@)))
}

pub open spec fn fields_view(f: Seq<(String, AstType)>) -> Seq<(Seq<char>, TypeV)> {
    f.map_values(|x: (String, AstType)| (x.0@, type_view(x.1)))
}

pub open spec fn struct_view(s: AstStruct) -> (Seq<TagV>, Seq<char>, Seq<(Seq<char>, TypeV)>) {
    (tags_view(s.tags@), s.name@, fields_view(s.fields@))
}

pub open spec fn enum_view(e: AstEnum) -> (Seq<TagV>, Seq<char>, Seq<Seq<char>>) {
    (tags_view(e.tags@), e.name@, strs(e.fields@))
}

pub open spec fn impl_view(i: AstImplementation) -> (AstImplementationTarget, Seq<char>, Seq<WhereV>, Seq<ChunkV>) {
    (i.target, i.name@, wheres_view(i.where_rules@), chunks_view(i.code.0@))
}

pub open spec fn extern_impls_view(v: Seq<(String, crate::ast::AstCode)>) -> Seq<(Seq<char>, Seq<ChunkV>)> {
    v.map_values(|x: (String, crate::ast::AstCode)| (x.0@, chunks_view(x.1.0@)))
}

pub open spec fn extern_view(e: AstExtern) -> (Seq<Seq<char>>, Seq<(Seq<char>, Seq<ChunkV>)>) {
    (strs(e.types@), extern_impls_view(e.implementations@))
}

pub open spec fn replace_view(r: AstReplace) -> (Seq<char>, Seq<ChunkV>) {
    (r.pattern@, chunks_view(r.template.0@))
}

/// The program a tree stands for.
pub open spec fn program_view(ast: Ast) -> ProgramV {
    ProgramV {
        imports: strs(ast.imports@),
        injects: ast.injects@.map_values(|x: crate::ast::AstCode| chunks_view(x.0@)),
        externs: ast.externs@.map_values(|x: AstExtern| extern_view(x)),
        structs: ast.structs@.map_values(|x: AstStruct| struct_view(x)),
        enums: ast.enums@.map_values(|x: AstEnum| enum_view(x)),
        implementations: ast.implementations@.map_values(|x: AstImplementation| impl_view(x)),
        replacements: ast.replacements@.map_values(|x: AstReplace| replace_view(x)),
    }
}

/// A tag parameter: a name and an optional `= "value"`, empty without one.
pub open spec fn param_at(c: Seq<char>, p: int) -> Option<((Seq<char>, Seq<char>), int)> {
    match ident_at(c, p) {
        None => None,
        Some((n, q)) => {
            let t = ws_end(c, q);
            if at(c, t, '=') {
                match string_at(c, ws_end(c, t + 1)) {
                    Some((v, e)) => Some(((n, v), e)),
                    None => None,
                }
            } else {
                Some(((n, Seq::empty()), q))
            }
        },
    }
}

/// Items read by `item` separated by commas and closed by `close`.
pub open spec fn params_from(c: Seq<char>, p: int) -> Option<(Seq<(Seq<char>, Seq<char>)>, int)>
    decreases c.len() - p,
{
    match param_at(c, p) {
        None => None,
        Some((x, u)) => {
            let u2 = ws_end(c, u);
            if at(c, u2, ',') {
                let q2 = ws_end(c, u2 + 1);
                if p < q2 <= c.len() {
                    prepend(seq![x], params_from(c, q2))
                } else {
                    None
                }
            } else if at(c, u2, ')') {
                Some((seq![x], u2 + 1))
            } else {
                None
            }
        },
    }
}

pub open spec fn tag_at(c: Seq<char>, p: int) -> Option<(TagV, int)> {
    match ident_at(c, p) {
        None => None,
        Some((n, q)) => {
            let t = ws_end(c, q);
            if at(c, t, '(') {
                match params_from(c, ws_end(c, t + 1)) {
                    Some((ps, e)) => Some(((n, ps), e)),
                    None => None,
                }
            } else {
                Some(((n, Seq::empty()), q))
            }
        },
    }
}

pub open spec fn tags_from(c: Seq<char>, p: int) -> Option<(Seq<TagV>, int)>
    decreases c.len() - p,
{
    match tag_at(c, p) {
        None => None,
        Some((x, u)) => {
            let u2 = ws_end(c, u);
            if at(c, u2, ',') {
                let q2 = ws_end(c, u2 + 1);
                if p < q2 <= c.len() {
                    prepend(seq![x], tags_from(c, q2))
                } else {
                    None
                }
            } else if at(c, u2, ']') {
                Some((seq![x], u2 + 1))
            } else {
                None
            }
        },
    }
}

/// Tags: `#[`, tags separated by commas, `]`.
pub open spec fn tags_at(c: Seq<char>, p: int) -> Option<(Seq<TagV>, int)> {
    if at(c, p, '#') && at(c, p + 1, '[') {
        tags_from(c, ws_end(c, p + 2))
    } else {
        None
    }
}

pub open spec fn type_at(c: Seq<char>, p: int) -> Option<(TypeV, int)> {
    if at(c, p, '"') {
        match string_at(c, p) {
            Some((n, e)) => Some((TypeV::Extern(n), e)),
            None => None,
        }
    } else {
        match ident_at(c, p) {
            Some((n, e)) => Some((TypeV::Local(n), e)),
            None => None,
        }
    }
}

pub open spec fn field_at(c: Seq<char>, p: int) -> Option<((Seq<char>, TypeV), int)> {
    match ident_at(c, p) {
        None => None,
        Some((n, q)) => {
            let t = ws_end(c, q);
            if at(c, t, ':') {
                match type_at(c, ws_end(c, t + 1)) {
                    Some((ty, e)) => Some(((n, ty), e)),
                    None => None,
                }
            } else {
                None
            }
        },
    }
}

pub open spec fn fields_from(c: Seq<char>, p: int) -> Option<(Seq<(Seq<char>, TypeV)>, int)>
    decreases c.len() - p,
{
    if at(c, p, '}') {
        Some((Seq::empty(), p + 1))
    } else {
        match field_at(c, p) {
            None => None,
            Some((x, u)) => {
                let u2 = ws_end(c, u);
                if at(c, u2, ',') {
                    let q2 = ws_end(c, u2 + 1);
                    if p < q2 <= c.len() {
                        prepend(seq![x], fields_from(c, q2))
                    } else {
                        None
                    }
                } else if at(c, u2, '}') {
                    Some((seq![x], u2 + 1))
                } else {
                    None
                }
            },
        }
    }
}

pub open spec fn variants_from(c: Seq<char>, p: int) -> Option<(Seq<Seq<char>>, int)>
    decreases c.len() - p,
{
    if at(c, p, '}') {
        Some((Seq::empty(), p + 1))
    } else {
        match ident_at(c, p) {
            None => None,
            Some((x, u)) => {
                let u2 = ws_end(c, u);
                if at(c, u2, ',') {
                    let q2 = ws_end(c, u2 + 1);
                    if p < q2 <= c.len() {
                        prepend(seq![x], variants_from(c, q2))
                    } else {
                        None
                    }
                } else if at(c, u2, '}') {
                    Some((seq![x], u2 + 1))
                } else {
                    None
                }
            },
        }
    }
}


pub open spec fn struct_at(c: Seq<char>, tags: Seq<TagV>, p: int) -> Option<((Seq<TagV>, Seq<char>, Seq<(Seq<char>, TypeV)>), int)> {
    match ident_at(c, ws_end(c, p)) {
        None => None,
        Some((n, q)) => {
            let q3 = ws_end(c, q);
            if at(c, q3, '{') {
                match fields_from(c, ws_end(c, q3 + 1)) {
                    Some((fs, e)) => Some(((tags, n, fs), e)),
                    None => None,
                }
            } else {
                None
            }
        },
    }
}

pub open spec fn enum_at(c: Seq<char>, tags: Seq<TagV>, p: int) -> Option<((Seq<TagV>, Seq<char>, Seq<Seq<char>>), int)> {
    match ident_at(c, ws_end(c, p)) {
        None => None,
        Some((n, q)) => {
            let q3 = ws_end(c, q);
            if at(c, q3, '{') {
                match variants_from(c, ws_end(c, q3 + 1)) {
                    Some((fs, e)) => Some(((tags, n, fs), e)),
                    None => None,
                }
            } else {
                None
            }
        },
    }
}

pub open spec fn impl_at(c: Seq<char>, p: int) -> Option<((AstImplementationTarget, Seq<char>, Seq<WhereV>, Seq<ChunkV>), int)> {
    match ident_at(c, ws_end(c, p)) {
        None => None,
        Some((w, q2)) => {
            let head: Option<(AstImplementationTarget, Seq<char>, int)> = if w == "struct"@ || w == "enum"@ {
                match ident_at(c, ws_end(c, q2)) {
                    Some((n, q3)) => Some((
                        if w == "struct"@ {
                            AstImplementationTarget::Struct
                        } else {
                            AstImplementationTarget::Enum
                        },
                        n,
                        q3,
                    )),
                    None => None,
                }
            } else {
                Some((AstImplementationTarget::All, w, q2))
            };
            match head {
                None => None,
                Some((target, n, q3)) => match where_rules_at(c, ws_end(c, q3)) {
                    None => None,
                    Some((wr, q5)) => match code_at(c, ws_end(c, q5), 0) {
                        Some((code, e)) => Some(((target, n, wr, code), e)),
                        None => None,
                    },
                },
            }
        },
    }
}

pub open spec fn extern_impls_from(c: Seq<char>, p: int) -> Option<(Seq<(Seq<char>, Seq<ChunkV>)>, int)>
    decreases c.len() - p,
{
    if at(c, p, '}') {
        Some((Seq::empty(), p + 1))
    } else {
        match ident_at(c, p) {
            None => None,
            Some((n, u)) => match code_at(c, ws_end(c, u), 0) {
                None => None,
                Some((code, u2)) => {
                    let q2 = ws_end(c, u2);
                    if p < q2 <= c.len() {
                        prepend(seq![(n, code)], extern_impls_from(c, q2))
                    } else {
                        None
                    }
                },
            },
        }
    }
}

pub open spec fn extern_impls_at(c: Seq<char>, p: int) -> Option<(Seq<(Seq<char>, Seq<ChunkV>)>, int)> {
    if at(c, p, '{') {
        extern_impls_from(c, ws_end(c, p + 1))
    } else {
        None
    }
}

/// Extern type names separated by commas, then the block's implementations.
pub open spec fn extern_types_from(c: Seq<char>, p: int) -> Option<((Seq<Seq<char>>, Seq<(Seq<char>, Seq<ChunkV>)>), int)>
    decreases c.len() - p,
{
    match string_at(c, p) {
        None => None,
        Some((t, u)) => {
            let u2 = ws_end(c, u);
            if at(c, u2, ',') {
                let q2 = ws_end(c, u2 + 1);
                if p < q2 <= c.len() {
                    match extern_types_from(c, q2) {
                        Some(((ts, is), e)) => Some(((seq![t] + ts, is), e)),
                        None => None,
                    }
                } else {
                    None
                }
            } else {
                match extern_impls_at(c, u2) {
                    Some((is, e)) => Some(((seq![t], is), e)),
                    None => None,
                }
            }
        },
    }
}

pub open spec fn empty_program() -> ProgramV {
    ProgramV {
        imports: Seq::empty(),
        injects: Seq::empty(),
        externs: Seq::empty(),
        structs: Seq::empty(),
        enums: Seq::empty(),
        implementations: Seq::empty(),
        replacements: Seq::empty(),
    }
}

/// The declaration at `p` added to `acc`, and the position after it.
pub open spec fn item_at(c: Seq<char>, p: int, acc: ProgramV) -> Option<(ProgramV, int)> {
    if at(c, p, '#') {
        match tags_at(c, p) {
            None => None,
            Some((tags, q)) => match ident_at(c, ws_end(c, q)) {
                None => None,
                Some((w, q3)) => if w == "struct"@ {
                    match struct_at(c, tags, q3) {
                        Some((v, e)) => Some((ProgramV { structs: acc.structs.push(v), ..acc }, e)),
                        None => None,
                    }
                } else if w == "enum"@ {
                    match enum_at(c, tags, q3) {
                        Some((v, e)) => Some((ProgramV { enums: acc.enums.push(v), ..acc }, e)),
                        None => None,
                    }
                } else {
                    None
                },
            },
        }
    } else {
        match ident_at(c, p) {
            None => None,
            Some((w, q)) => {
                let q2 = ws_end(c, q);
                if w == "import"@ {
                    match string_at(c, q2) {
                        Some((v, e)) => Some((ProgramV { imports: acc.imports.push(v), ..acc }, e)),
                        None => None,
                    }
                } else if w == "inject"@ {
                    match code_at(c, q2, 0) {
                        Some((v, e)) => Some((ProgramV { injects: acc.injects.push(v), ..acc }, e)),
                        None => None,
                    }
                } else if w == "replace"@ {
                    match string_at(c, q2) {
                        None => None,
                        Some((pat, q3)) => match code_at(c, ws_end(c, q3), 0) {
                            Some((t, e)) => Some(
                                (ProgramV { replacements: acc.replacements.push((unescape(pat), t)), ..acc }, e),
                            ),
                            None => None,
                        },
                    }
                } else if w == "extern"@ {
                    match extern_types_from(c, ws_end(c, q2)) {
                        Some((v, e)) => Some((ProgramV { externs: acc.externs.push(v), ..acc }, e)),
                        None => None,
                    }
                } else if w == "struct"@ {
                    match struct_at(c, Seq::empty(), q2) {
                        Some((v, e)) => Some((ProgramV { structs: acc.structs.push(v), ..acc }, e)),
                        None => None,
                    }
                } else if w == "enum"@ {
                    match enum_at(c, Seq::empty(), q2) {
                        Some((v, e)) => Some((ProgramV { enums: acc.enums.push(v), ..acc }, e)),
                        None => None,
                    }
                } else if w == "impl"@ {
                    match impl_at(c, q2) {
                        Some((v, e)) => Some((ProgramV { implementations: acc.implementations.push(v), ..acc }, e)),
                        None => None,
                    }
                } else {
                    None
                }
            },
        }
    }
}

/// The declarations from `p` to the end added to `acc`.
pub open spec fn program_from(c: Seq<char>, p: int, acc: ProgramV) -> Option<ProgramV>
    decreases c.len() - p,
{
    if p < 0 || p >= c.len() {
        Some(acc)
    } else {
        match item_at(c, p, acc) {
            None => None,
            Some((acc2, q)) => {
                let p2 = ws_end(c, q);
                if p < p2 <= c.len() {
                    program_from(c, p2, acc2)
                } else {
                    None
                }
            },
        }
    }
}

/// The program that source `c` declares, or `None` if `c` does not follow the grammar.
pub open spec fn program_of(c: Seq<char>) -> Option<ProgramV> {
    program_from(c, ws_end(c, 0), empty_program())
}

} // verus!

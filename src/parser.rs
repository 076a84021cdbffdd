//! The parser: template source text to a program tree.
//!
//! The grammar, with `ws` for white space and `//` line comments:
//!
//! ```text
//! program     = ws (item ws)*
//! item        = "import" string
//!             | "inject" code
//!             | "replace" string code
//!             | "extern" string ("," string)* "{" (identifier code)* "}"
//!             | tags? "struct" identifier "{" (field ("," field)* ","?)? "}"
//!             | tags? "enum" identifier "{" (identifier ("," identifier)* ","?)? "}"
//!             | "impl" ("struct" | "enum")? identifier where_rules? code
//! field       = identifier ":" (string | identifier)
//! tags        = "#" "[" tag ("," tag)* "]"
//! tag         = identifier ("(" parameter ("," parameter)* ")")?
//! parameter   = identifier ("=" string)?
//! where_rules = "where" where_rule ("," where_rule)*
//! where_rule  = "exists" identifier | "impl" container ":" identifier ("+" identifier)*
//!             | identifier "is" string
//! container   = "fields" | identifier
//! code        = "```" (text | "@{" op "}@")* "```"
//! op          = identifier | "for" identifier ("," identifier)* "in" container where_rules? code
//! string      = '"' (any character but '"' and '\', or '\' and any character)* '"'
//! ```
//!
//! Loops nest at most `MAX_LOOP_NESTING` deep. The module `grammar` states
//! this grammar as spec functions, and each parsing function here is proved
//! to read exactly what they read.
//!
//! A string stands for the characters between its quotes, as written. In a
//! rewrite pattern every `\\` then becomes `\`.
use vstd::prelude::*;
use crate::ast::{
    ast_wf, code_wf, is_identifier, is_identifier_char, is_identifier_start, tags_wf, Ast, AstCode, AstCodeChunk, AstCodeFor, AstEnum, AstExtern, AstImplementation,
    AstImplementationTarget, AstIn, AstReplace, AstStruct, AstTag, AstType, AstWhereRule,
    AstWhereRuleImpl, AstWhereRuleIs,
};
use crate::text::{chars_of, decimal_string};
use crate::grammar::{
    MAX_LOOP_NESTING,
    empty_program, enum_at, enum_view, extern_impls_at, extern_impls_from, extern_impls_view, extern_types_from,
    extern_view, field_at, fields_from, fields_view, impl_at, impl_view, item_at, param_at, params_from, params_view,
    program_from, program_of, program_view, struct_at, struct_view, tag_at, tags_at, tags_from, tags_view, type_at,
    replace_view, type_view, variants_from, ProgramV,
    chunk_view, lemma_chunk_view, lemma_chunks_view_push,
    at, code_at, code_body, code_for, code_op, chunks_view, ident_at, ident_scan, impl_rule_at, in_at, in_view,
    is_rule_at, lemma_prepend_step, line_end, names_at, op_start, prepend, string_at, string_scan, text_end, ticks,
    where_list_at, where_rule_at, where_rules_at, where_view, wheres_view, ws_end,
};
use crate::text::strs;

verus! {

pub open spec fn is_space(c: char) -> bool {
    c == ' ' || c == '\t' || c == '\n' || c == '\r'
}

/// Every `\\` of `s`, read from the left, made a single `\`.
pub open spec fn unescape(s: Seq<char>) -> Seq<char>
    decreases s.len(),
{
    if s.len() == 0 {
        s
    } else if s.len() >= 2 && s[0] == '\\' && s[1] == '\\' {
        seq!['\\'] + unescape(s.subrange(2, s.len() as int))
    } else {
        seq![s[0]] + unescape(s.subrange(1, s.len() as int))
    }
}

/// `s` with every `\\` made a single `\`.
pub fn unescape_backslashes(s: &str) -> (r: String)
    ensures
        r@ == unescape(s@),
{
    let c = chars_of(s);
    let n = c.len();
    let mut out = String::new();
    let mut start: usize = 0;
    let mut i: usize = 0;
    assert(s@.subrange(0, n as int) =~= s@);
    while i < n
        invariant
            c@ == s@,
            n == c.len(),
            start <= i <= n,
            out@ + s@.subrange(start as int, i as int) + unescape(s@.subrange(i as int, n as int)) == unescape(s@),
        decreases n - i,
    {
        let ghost rest = s@.subrange(i as int, n as int);
        if i + 1 < n && c[i] == '\\' && c[i + 1] == '\\' {
            assert(rest.subrange(2, rest.len() as int) =~= s@.subrange(i + 2, n as int));
            out.append(s.substring_char(start, i + 1));
            assert(s@.subrange(start as int, i + 1) =~= s@.subrange(start as int, i as int) + seq!['\\']);
            assert(out@ + s@.subrange(i + 2, i + 2) + unescape(s@.subrange(i + 2, n as int)) =~= unescape(s@));
            i = i + 2;
            start = i;
        } else {
            assert(rest.subrange(1, rest.len() as int) =~= s@.subrange(i + 1, n as int));
            assert(s@.subrange(start as int, i + 1) =~= s@.subrange(start as int, i as int) + seq![c@[i as int]]);
            assert(out@ + s@.subrange(start as int, i + 1) + unescape(s@.subrange(i + 1, n as int)) =~= unescape(s@));
            i = i + 1;
        }
    }
    out.append(s.substring_char(start, n));
    assert(out@ =~= unescape(s@));
    out
}

/// A message that reports a syntax error.
pub open spec fn is_syntax_error(m: Seq<char>) -> bool {
    let prefix = "Syntax error at character "@;
    m.len() >= prefix.len() && m.subrange(0, prefix.len() as int) == prefix
}

/// A syntax error at character `pos`, naming what was expected there.
fn syntax_error(pos: usize, expected: &str) -> (r: String)
    ensures
        is_syntax_error(r@),
{
    let mut m = "Syntax error at character ".to_owned();
    let ghost prefix = m@;
    m.append(decimal_string(pos).as_str());
    m.append(": expected ");
    m.append(expected);
    assert(m@.subrange(0, prefix.len() as int) =~= prefix);
    m
}

/// The position of the first character at or after `pos` that is neither
/// white space nor part of a line comment.
fn skip_ws(c: &Vec<char>, pos: usize) -> (r: usize)
    requires
        pos <= c.len(),
    ensures
        pos <= r <= c.len(),
        (forall|i: int| pos <= i < c.len() ==> is_space(#[trigger] c@[i])) ==> r == c.len(),
        r == ws_end(c@, pos as int),
{
    let mut p = pos;
    while p < c.len()
        invariant
            pos <= p <= c.len(),
            ws_end(c@, p as int) == ws_end(c@, pos as int),
            (forall|i: int| pos <= i < c.len() ==> is_space(#[trigger] c@[i])) ==> forall|i: int|
                p <= i < c.len() ==> is_space(#[trigger] c@[i]),
        decreases c.len() - p,
    {
        if c[p] == ' ' || c[p] == '\t' || c[p] == '\n' || c[p] == '\r' {
            p += 1;
        } else if c[p] == '/' && p + 1 < c.len() && c[p + 1] == '/' {
            let comment = p;
            assert(!is_space(c@[p as int]));
            p += 2;
            while p < c.len() && c[p] != '\n'
                invariant
                    pos <= comment < p <= c.len(),
                    line_end(c@, p as int) == line_end(c@, comment + 2),
                decreases c.len() - p,
            {
                p += 1;
            }
        } else {
            assert(!is_space(c@[p as int]));
            return p;
        }
    }
    p
}

fn at_char(c: &Vec<char>, pos: usize, ch: char) -> (r: bool)
    ensures
        r == (pos < c.len() && c@[pos as int] == ch),
{
    pos < c.len() && c[pos] == ch
}

fn at_ticks(c: &Vec<char>, pos: usize) -> (r: bool)
    ensures
        r ==> pos + 3 <= c.len(),
        r == ticks(c@, pos as int),
{
    pos < c.len() && c.len() - pos >= 3 && c[pos] == '`' && c[pos + 1] == '`' && c[pos + 2] == '`'
}

fn is_word(word: &String, w: &str) -> (r: bool)
    ensures
        r == (word@ == w@),
{
    *word == w.to_owned()
}

/// An identifier starting at `pos`, and the position after it.
fn parse_identifier(s: &str, c: &Vec<char>, pos: usize) -> (r: Option<(String, usize)>)
    requires
        c@ == s@,
        pos <= c.len(),
    ensures
        r is Some ==> pos < r->Some_0.1 <= c.len() && r->Some_0.0@ == s@.subrange(pos as int, r->Some_0.1 as int)
            && is_identifier(r->Some_0.0@) && (r->Some_0.1 == c.len() || !is_identifier_char(c@[r->Some_0.1 as int])),
        r is None <==> pos >= c.len() || !is_identifier_start(c@[pos as int]),
        match ident_at(c@, pos as int) {
            Some((name, e)) => r is Some && r->Some_0.0@ == name && r->Some_0.1 == e,
            None => r is None,
        },
{
    if pos >= c.len() || !(('a' <= c[pos] && c[pos] <= 'z') || ('A' <= c[pos] && c[pos] <= 'Z') || c[pos] == '_') {
        return None;
    }
    let mut p = pos + 1;
    while p < c.len() && (('a' <= c[p] && c[p] <= 'z') || ('A' <= c[p] && c[p] <= 'Z') || c[p] == '_' || ('0' <= c[p] && c[p] <= '9'))
        invariant
            c@ == s@,
            pos < p <= c.len(),
            is_identifier_start(c@[pos as int]),
            forall|k: int| pos < k < p ==> is_identifier_char(#[trigger] c@[k]),
            ident_scan(c@, p as int) == ident_scan(c@, pos + 1),
        decreases c.len() - p,
    {
        p += 1;
    }
    let name = s.substring_char(pos, p).to_owned();
    assert(forall|k: int| 0 < k < name@.len() ==> #[trigger] name@[k] == c@[pos + k]);
    Some((name, p))
}

/// An identifier, or a syntax error.
fn expect_identifier(s: &str, c: &Vec<char>, pos: usize) -> (r: Result<(String, usize), String>)
    requires
        c@ == s@,
        pos <= c.len(),
    ensures
        r is Err ==> is_syntax_error(r->Err_0@),
        r is Ok ==> pos < r->Ok_0.1 <= c.len() && r->Ok_0.0@ == s@.subrange(pos as int, r->Ok_0.1 as int)
            && is_identifier(r->Ok_0.0@),
        match ident_at(c@, pos as int) {
            Some((n, e)) => r is Ok && r->Ok_0.0@ == n && r->Ok_0.1 == e,
            None => r is Err,
        },
{
    match parse_identifier(s, c, pos) {
        Some(x) => Ok(x),
        None => Err(syntax_error(pos, "identifier")),
    }
}

/// The character `ch` at `pos`, and the position after it; or a syntax error.
fn expect_char(c: &Vec<char>, pos: usize, ch: char, what: &str) -> (r: Result<usize, String>)
    requires
        pos <= c.len(),
    ensures
        r is Err ==> is_syntax_error(r->Err_0@),
        r is Ok ==> r->Ok_0 == pos + 1 && r->Ok_0 <= c.len(),
        r is Ok <==> at(c@, pos as int, ch),
{
    if at_char(c, pos, ch) {
        Ok(pos + 1)
    } else {
        Err(syntax_error(pos, what))
    }
}

/// A quoted string starting at `pos`: the characters between the quotes, and
/// the position after the closing quote.
fn parse_string(s: &str, c: &Vec<char>, pos: usize) -> (r: Result<(String, usize), String>)
    requires
        c@ == s@,
        pos <= c.len(),
    ensures
        r is Err ==> is_syntax_error(r->Err_0@),
        r is Ok ==> pos + 2 <= r->Ok_0.1 <= c.len() && c@[pos as int] == '"' && c@[r->Ok_0.1 - 1] == '"'
            && r->Ok_0.0@ == s@.subrange(pos + 1, r->Ok_0.1 - 1),
        r is Err <== pos >= c.len() || c@[pos as int] != '"',
        match string_at(c@, pos as int) {
            Some((text, e)) => r is Ok && r->Ok_0.0@ == text && r->Ok_0.1 == e,
            None => r is Err,
        },
{
    if !at_char(c, pos, '"') {
        return Err(syntax_error(pos, "string"));
    }
    let mut p = pos + 1;
    while p < c.len() && c[p] != '"'
        invariant
            c@ == s@,
            pos < p <= c.len(),
            string_scan(c@, p as int) == string_scan(c@, pos + 1),
        decreases c.len() - p,
    {
        if c[p] == '\\' && p + 1 < c.len() {
            p += 2;
        } else {
            p += 1;
        }
    }
    if p >= c.len() {
        return Err(syntax_error(p, "closing quote"));
    }
    Ok((s.substring_char(pos + 1, p).to_owned(), p + 1))
}

/// A loop container: `fields` or a variable name.
fn parse_in(s: &str, c: &Vec<char>, pos: usize) -> (r: Result<(AstIn, usize), String>)
    requires
        c@ == s@,
        pos <= c.len(),
    ensures
        r is Err ==> is_syntax_error(r->Err_0@),
        r is Ok ==> pos < r->Ok_0.1 <= c.len() && match r->Ok_0.0 {
            AstIn::Unspecified => false,
            AstIn::Fields => true,
            AstIn::Variable(name) => is_identifier(name@),
        },
        match in_at(c@, pos as int) {
            Some((v, e)) => r is Ok && in_view(r->Ok_0.0) == v && r->Ok_0.1 == e,
            None => r is Err,
        },
{
    let (name, p) = match expect_identifier(s, c, pos) {
        Ok(x) => x,
        Err(e) => return Err(e),
    };
    if is_word(&name, "fields") {
        Ok((AstIn::Fields, p))
    } else {
        Ok((AstIn::Variable(name), p))
    }
}

/// `is` rule: a variable, `is`, and a string.
fn parse_where_rule_is(s: &str, c: &Vec<char>, variable: String, pos: usize) -> (r: Result<(AstWhereRuleIs, usize), String>)
    requires
        c@ == s@,
        pos <= c.len(),
    ensures
        r is Err ==> is_syntax_error(r->Err_0@),
        r is Ok ==> pos < r->Ok_0.1 <= c.len(),
        match is_rule_at(c@, variable@, pos as int) {
            Some((v, e)) => r is Ok && where_view(AstWhereRule::Is(r->Ok_0.0)) == v && r->Ok_0.1 == e,
            None => r is Err,
        },
{
    let p = skip_ws(c, pos);
    let (word, p) = match expect_identifier(s, c, p) {
        Ok(x) => x,
        Err(e) => return Err(e),
    };
    if !is_word(&word, "is") {
        return Err(syntax_error(pos, "`is`"));
    }
    let p = skip_ws(c, p);
    let (value, p) = match parse_string(s, c, p) {
        Ok(x) => x,
        Err(e) => return Err(e),
    };
    Ok((AstWhereRuleIs { variable, value }, p))
}

/// `impl` rule after its keyword: a container, `:`, and names joined by `+`.
fn parse_where_rule_impl(s: &str, c: &Vec<char>, pos: usize) -> (r: Result<(AstWhereRuleImpl, usize), String>)
    requires
        c@ == s@,
        pos <= c.len(),
    ensures
        r is Err ==> is_syntax_error(r->Err_0@),
        r is Ok ==> pos < r->Ok_0.1 <= c.len(),
        match impl_rule_at(c@, pos as int) {
            Some((v, e)) => r is Ok && where_view(AstWhereRule::Impl(r->Ok_0.0)) == v && r->Ok_0.1 == e,
            None => r is Err,
        },
{
    let p = skip_ws(c, pos);
    let (container, p) = match parse_in(s, c, p) {
        Ok(x) => x,
        Err(e) => return Err(e),
    };
    let p = skip_ws(c, p);
    let p = match expect_char(c, p, ':', "`:`") {
        Ok(p) => p,
        Err(e) => return Err(e),
    };
    let mut implements: Vec<String> = Vec::new();
    let mut p = skip_ws(c, p);
    let ghost start = p as int;
    let ghost iv = in_view(container);
    assert(prepend(strs(implements@), names_at(c@, start, '+')) == names_at(c@, start, '+')) by {
        if let Some((v, e)) = names_at(c@, start, '+') {
            assert(strs(implements@) + v =~= v);
        }
    }
    loop
        invariant
            c@ == s@,
            pos < p <= c.len(),
            start <= p,
            iv == in_view(container),
            impl_rule_at(c@, pos as int) == match names_at(c@, start, '+') {
                Some((names, e)) => Some((crate::grammar::WhereV::Impl(iv, names), e)),
                None => None::<(crate::grammar::WhereV, int)>,
            },
            names_at(c@, start, '+') == prepend(strs(implements@), names_at(c@, p as int, '+')),
        decreases c.len() - p,
    {
        let (name, q) = match expect_identifier(s, c, p) {
            Ok(x) => x,
            Err(e) => return Err(e),
        };
        let ghost before = implements@;
        implements.push(name);
        assert(strs(implements@) =~= strs(before).push(name@));
        let t = skip_ws(c, q);
        if at_char(c, t, '+') {
            let p2 = skip_ws(c, t + 1);
            proof {
                lemma_prepend_step(strs(before), name@, names_at(c@, p2 as int, '+'));
            }
            p = p2;
        } else {
            assert(strs(before) + seq![name@] =~= strs(implements@));
            return Ok((AstWhereRuleImpl { container, implements }, q));
        }
    }
}

fn parse_where_rule(s: &str, c: &Vec<char>, pos: usize) -> (r: Result<(AstWhereRule, usize), String>)
    requires
        c@ == s@,
        pos <= c.len(),
    ensures
        r is Err ==> is_syntax_error(r->Err_0@),
        r is Ok ==> pos < r->Ok_0.1 <= c.len(),
        match where_rule_at(c@, pos as int) {
            Some((v, e)) => r is Ok && where_view(r->Ok_0.0) == v && r->Ok_0.1 == e,
            None => r is Err,
        },
{
    let (word, p) = match expect_identifier(s, c, pos) {
        Ok(x) => x,
        Err(e) => return Err(e),
    };
    if is_word(&word, "exists") {
        let p = skip_ws(c, p);
        match expect_identifier(s, c, p) {
            Ok((name, p)) => Ok((AstWhereRule::Exists(name), p)),
            Err(e) => Err(e),
        }
    } else if is_word(&word, "impl") {
        match parse_where_rule_impl(s, c, p) {
            Ok((rule, p)) => Ok((AstWhereRule::Impl(rule), p)),
            Err(e) => Err(e),
        }
    } else {
        match parse_where_rule_is(s, c, word, p) {
            Ok((rule, p)) => Ok((AstWhereRule::Is(rule), p)),
            Err(e) => Err(e),
        }
    }
}

/// Optional `where` rules at `pos`; none if the next word is not `where`.
fn parse_where_rules(s: &str, c: &Vec<char>, pos: usize) -> (r: Result<(Vec<AstWhereRule>, usize), String>)
    requires
        c@ == s@,
        pos <= c.len(),
    ensures
        r is Err ==> is_syntax_error(r->Err_0@),
        r is Ok ==> pos <= r->Ok_0.1 <= c.len(),
        match where_rules_at(c@, pos as int) {
            Some((v, e)) => r is Ok && wheres_view(r->Ok_0.0@) == v && r->Ok_0.1 == e,
            None => r is Err,
        },
{
    let mut rules: Vec<AstWhereRule> = Vec::new();
    let mut p = match parse_identifier(s, c, pos) {
        Some((word, p)) => {
            if is_word(&word, "where") {
                skip_ws(c, p)
            } else {
                return Ok((rules, pos));
            }
        },
        None => return Ok((rules, pos)),
    };
    let ghost start = p as int;
    assert(wheres_view(rules@) =~= Seq::<crate::grammar::WhereV>::empty());
    assert(prepend(Seq::<crate::grammar::WhereV>::empty(), where_list_at(c@, start)) == where_list_at(c@, start)) by {
        if let Some((v, e)) = where_list_at(c@, start) {
            assert(Seq::<crate::grammar::WhereV>::empty() + v =~= v);
        }
    }
    loop
        invariant
            c@ == s@,
            pos < p <= c.len(),
            where_rules_at(c@, pos as int) == where_list_at(c@, start),
            where_list_at(c@, start) == prepend(wheres_view(rules@), where_list_at(c@, p as int)),
        decreases c.len() - p,
    {
        let (rule, q) = match parse_where_rule(s, c, p) {
            Ok(x) => x,
            Err(e) => return Err(e),
        };
        let ghost before = rules@;
        let ghost rv = where_view(rule);
        rules.push(rule);
        assert(wheres_view(rules@) =~= wheres_view(before).push(rv));
        let t = skip_ws(c, q);
        if at_char(c, t, ',') {
            let p2 = skip_ws(c, t + 1);
            proof {
                lemma_prepend_step(wheres_view(before), rv, where_list_at(c@, p2 as int));
            }
            p = p2;
        } else {
            assert(wheres_view(before) + seq![rv] =~= wheres_view(rules@));
            return Ok((rules, q));
        }
    }
}

/// Loop variables: names separated by commas.
fn parse_variables(s: &str, c: &Vec<char>, pos: usize) -> (r: Result<(Vec<String>, usize), String>)
    requires
        c@ == s@,
        pos <= c.len(),
    ensures
        r is Err ==> is_syntax_error(r->Err_0@),
        r is Ok ==> pos < r->Ok_0.1 <= c.len() && r->Ok_0.0.len() > 0 && forall|j: int|
            0 <= j < r->Ok_0.0.len() ==> is_identifier(#[trigger] r->Ok_0.0@[j]@),
        match names_at(c@, pos as int, ',') {
            Some((v, e)) => r is Ok && strs(r->Ok_0.0@) == v && r->Ok_0.1 == e,
            None => r is Err,
        },
{
    let mut names: Vec<String> = Vec::new();
    let mut p = pos;
    assert(prepend(strs(names@), names_at(c@, pos as int, ',')) == names_at(c@, pos as int, ',')) by {
        if let Some((v, e)) = names_at(c@, pos as int, ',') {
            assert(strs(names@) + v =~= v);
        }
    }
    loop
        invariant
            c@ == s@,
            pos <= p <= c.len(),
            p == pos || names.len() > 0,
            forall|j: int| 0 <= j < names.len() ==> is_identifier(#[trigger] names@[j]@),
            names_at(c@, pos as int, ',') == prepend(strs(names@), names_at(c@, p as int, ',')),
        decreases c.len() - p,
    {
        let (name, q) = match expect_identifier(s, c, p) {
            Ok(x) => x,
            Err(e) => return Err(e),
        };
        let ghost before = names@;
        names.push(name);
        assert(strs(names@) =~= strs(before).push(name@));
        let t = skip_ws(c, q);
        if at_char(c, t, ',') {
            let p2 = skip_ws(c, t + 1);
            proof {
                lemma_prepend_step(strs(before), name@, names_at(c@, p2 as int, ','));
            }
            p = p2;
        } else {
            assert(strs(before) + seq![name@] =~= strs(names@));
            return Ok((names, q));
        }
    }
}

/// A code block starting with three backticks at `pos`, inside `depth`
/// enclosing loops, and the position after its closing backticks.
pub fn parse_code(s: &str, c: &Vec<char>, pos: usize, depth: usize) -> (r: Result<(AstCode, usize), String>)
    requires
        depth <= MAX_LOOP_NESTING,
        c@ == s@,
        pos <= c.len(),
    ensures
        r is Err ==> is_syntax_error(r->Err_0@),
        r is Ok ==> pos < r->Ok_0.1 <= c.len() && code_wf(r->Ok_0.0.0@),
        match code_at(c@, pos as int, depth as nat) {
            Some((v, e)) => r is Ok && chunks_view(r->Ok_0.0.0@) == v && r->Ok_0.1 == e,
            None => r is Err,
        },
    decreases c.len() - pos,
{
    if !at_ticks(c, pos) {
        return Err(syntax_error(pos, "code block"));
    }
    let mut chunks: Vec<AstCodeChunk> = Vec::new();
    let mut p = pos + 3;
    assert(prepend(chunks_view(chunks@), code_body(c@, p as int, depth as nat)) == code_body(c@, p as int, depth as nat)) by {
        if let Some((v, e)) = code_body(c@, p as int, depth as nat) {
            assert(chunks_view(chunks@) + v =~= v);
        }
    }
    loop
        invariant
            c@ == s@,
            pos < p <= c.len(),
            code_wf(chunks@),
            code_at(c@, pos as int, depth as nat) == code_body(c@, pos + 3, depth as nat),
            depth <= MAX_LOOP_NESTING,
            code_body(c@, pos + 3, depth as nat) == prepend(chunks_view(chunks@), code_body(c@, p as int, depth as nat)),
        decreases c.len() - p,
    {
        if at_ticks(c, p) {
            assert(chunks_view(chunks@) + Seq::<crate::grammar::ChunkV>::empty() =~= chunks_view(chunks@));
            return Ok((AstCode(chunks), p + 3));
        }
        if p >= c.len() {
            return Err(syntax_error(p, "end of code block"));
        }
        let ghost before = chunks@;
        if at_char(c, p, '@') && at_char(c, p + 1, '{') {
            let (chunk, q) = match parse_code_op(s, c, p + 2, depth) {
                Ok(x) => x,
                Err(e) => return Err(e),
            };
            proof {
                lemma_chunks_view_push(before, chunk);
                lemma_prepend_step(chunks_view(before), chunk_view(chunk), code_body(c@, q as int, depth as nat));
            }
            chunks.push(chunk);
            p = q;
        } else {
            let start = p;
            p += 1;
            while p < c.len() && !at_ticks(c, p) && !(at_char(c, p, '@') && at_char(c, p + 1, '{'))
                invariant
                    start < p <= c.len(),
                    text_end(c@, p as int) == text_end(c@, start + 1),
                decreases c.len() - p,
            {
                p += 1;
            }
            let text = s.substring_char(start, p).to_owned();
            let chunk = AstCodeChunk::Content(text);
            proof {
                lemma_chunks_view_push(before, chunk);
                assert(chunks_view(seq![chunk]) == chunks_view(Seq::<AstCodeChunk>::empty()).push(
                    crate::grammar::ChunkV::Text(text@),
                )) by {
                    assert(seq![chunk].drop_last() =~= Seq::<AstCodeChunk>::empty());
                }
                lemma_prepend_step(chunks_view(before), chunk_view(chunk), code_body(c@, p as int, depth as nat));
            }
            chunks.push(chunk);
        }
        assert(chunks@.drop_last() =~= before);
    }
}

/// What follows `@{`: a variable or a loop, then `}@`.
fn parse_code_op(s: &str, c: &Vec<char>, pos: usize, depth: usize) -> (r: Result<(AstCodeChunk, usize), String>)
    requires
        depth <= MAX_LOOP_NESTING,
        c@ == s@,
        pos <= c.len(),
    ensures
        r is Err ==> is_syntax_error(r->Err_0@),
        r is Ok ==> pos < r->Ok_0.1 <= c.len() && code_wf(seq![r->Ok_0.0]),
        match code_op(c@, pos as int, depth as nat) {
            Some((v, e)) => r is Ok && chunk_view(r->Ok_0.0) == v && r->Ok_0.1 == e,
            None => r is Err,
        },
    decreases c.len() - pos,
{
    proof {
        broadcast use lemma_chunk_view;
    }
    let p = skip_ws(c, pos);
    let (word, p) = match expect_identifier(s, c, p) {
        Ok(x) => x,
        Err(e) => return Err(e),
    };
    let (chunk, p) = if is_word(&word, "for") {
        if depth >= MAX_LOOP_NESTING {
            return Err(syntax_error(p, "loops nested no deeper than the limit"));
        }
        match parse_code_for(s, c, p, depth + 1) {
            Ok((f, p)) => (AstCodeChunk::For(f), p),
            Err(e) => return Err(e),
        }
    } else {
        (AstCodeChunk::Variable(word), p)
    };
    let p = skip_ws(c, p);
    if at_char(c, p, '}') && at_char(c, p + 1, '@') {
        assert(seq![chunk].drop_last() =~= Seq::<AstCodeChunk>::empty());
        assert(code_wf(Seq::<AstCodeChunk>::empty()));
        assert(seq![chunk].last() == chunk);
        Ok((chunk, p + 2))
    } else {
        Err(syntax_error(p, "`}@`"))
    }
}

/// A loop after its `for` keyword: variables, `in`, a container, optional
/// rules, and the body.
fn parse_code_for(s: &str, c: &Vec<char>, pos: usize, depth: usize) -> (r: Result<(AstCodeFor, usize), String>)
    requires
        depth <= MAX_LOOP_NESTING,
        c@ == s@,
        pos <= c.len(),
    ensures
        r is Err ==> is_syntax_error(r->Err_0@),
        r is Ok ==> pos < r->Ok_0.1 <= c.len() && r->Ok_0.0.variables.len() > 0 && (forall|j: int|
            0 <= j < r->Ok_0.0.variables.len() ==> is_identifier(#[trigger] r->Ok_0.0.variables@[j]@)) && match r->Ok_0.0.container {
            AstIn::Unspecified => false,
            AstIn::Fields => true,
            AstIn::Variable(name) => is_identifier(name@),
        } && code_wf(r->Ok_0.0.code.0@),
        match code_for(c@, pos as int, depth as nat) {
            Some((v, e)) => r is Ok && chunk_view(AstCodeChunk::For(r->Ok_0.0)) == v && r->Ok_0.1 == e,
            None => r is Err,
        },
    decreases c.len() - pos,
{
    proof {
        broadcast use lemma_chunk_view;
    }
    let p = skip_ws(c, pos);
    let (variables, p) = match parse_variables(s, c, p) {
        Ok(x) => x,
        Err(e) => return Err(e),
    };
    let p = skip_ws(c, p);
    let (word, p) = match expect_identifier(s, c, p) {
        Ok(x) => x,
        Err(e) => return Err(e),
    };
    if !is_word(&word, "in") {
        return Err(syntax_error(p, "`in`"));
    }
    let p = skip_ws(c, p);
    let (container, p) = match parse_in(s, c, p) {
        Ok(x) => x,
        Err(e) => return Err(e),
    };
    let p = skip_ws(c, p);
    let (where_rules, p) = match parse_where_rules(s, c, p) {
        Ok(x) => x,
        Err(e) => return Err(e),
    };
    let p = skip_ws(c, p);
    let (code, p) = match parse_code(s, c, p, depth) {
        Ok(x) => x,
        Err(e) => return Err(e),
    };
    Ok((AstCodeFor { variables, container, where_rules, code }, p))
}

/// A tag parameter: a name, and a string value after `=` (empty without one).
fn parse_tag_parameter(s: &str, c: &Vec<char>, pos: usize) -> (r: Result<((String, String), usize), String>)
    requires
        c@ == s@,
        pos <= c.len(),
    ensures
        r is Err ==> is_syntax_error(r->Err_0@),
        r is Ok ==> pos < r->Ok_0.1 <= c.len() && is_identifier(r->Ok_0.0.0@),
        match param_at(c@, pos as int) {
            Some((v, e)) => r is Ok && (r->Ok_0.0.0@, r->Ok_0.0.1@) == v && r->Ok_0.1 == e,
            None => r is Err,
        },
{
    let (name, p) = match expect_identifier(s, c, pos) {
        Ok(x) => x,
        Err(e) => return Err(e),
    };
    let t = skip_ws(c, p);
    if at_char(c, t, '=') {
        let q = skip_ws(c, t + 1);
        match parse_string(s, c, q) {
            Ok((value, q)) => Ok(((name, value), q)),
            Err(e) => Err(e),
        }
    } else {
        Ok(((name, String::new()), p))
    }
}

/// A tag: an implementation name and its optional parameters in parentheses.
fn parse_tag(s: &str, c: &Vec<char>, pos: usize) -> (r: Result<(AstTag, usize), String>)
    requires
        c@ == s@,
        pos <= c.len(),
    ensures
        r is Err ==> is_syntax_error(r->Err_0@),
        r is Ok ==> pos < r->Ok_0.1 <= c.len() && is_identifier(r->Ok_0.0.0@) && forall|j: int|
            0 <= j < r->Ok_0.0.1.len() ==> is_identifier(#[trigger] r->Ok_0.0.1@[j].0@),
        match tag_at(c@, pos as int) {
            Some((v, e)) => r is Ok && (r->Ok_0.0.0@, params_view(r->Ok_0.0.1@)) == v && r->Ok_0.1 == e,
            None => r is Err,
        },
{
    let (name, p) = match expect_identifier(s, c, pos) {
        Ok(x) => x,
        Err(e) => return Err(e),
    };
    let mut parameters: Vec<(String, String)> = Vec::new();
    let t = skip_ws(c, p);
    assert(params_view(parameters@) =~= Seq::<(Seq<char>, Seq<char>)>::empty());
    if !at_char(c, t, '(') {
        return Ok(((name, parameters), p));
    }
    let mut q = skip_ws(c, t + 1);
    let ghost start = q as int;
    assert(prepend(params_view(parameters@), params_from(c@, start)) == params_from(c@, start)) by {
        if let Some((v, e)) = params_from(c@, start) {
            assert(params_view(parameters@) + v =~= v);
        }
    }
    loop
        invariant
            c@ == s@,
            pos < q <= c.len(),
            is_identifier(name@),
            forall|j: int| 0 <= j < parameters.len() ==> is_identifier(#[trigger] parameters@[j].0@),
            tag_at(c@, pos as int) == match params_from(c@, start) {
                Some((ps, e)) => Some(((name@, ps), e)),
                None => None::<(crate::grammar::TagV, int)>,
            },
            params_from(c@, start) == prepend(params_view(parameters@), params_from(c@, q as int)),
        decreases c.len() - q,
    {
        let (parameter, u) = match parse_tag_parameter(s, c, q) {
            Ok(x) => x,
            Err(e) => return Err(e),
        };
        let ghost before = parameters@;
        let ghost pv = (parameter.0@, parameter.1@);
        parameters.push(parameter);
        assert(params_view(parameters@) =~= params_view(before).push(pv));
        let u = skip_ws(c, u);
        if at_char(c, u, ',') {
            proof {
                lemma_prepend_step(params_view(before), pv, params_from(c@, ws_end(c@, u + 1)));
            }
            q = skip_ws(c, u + 1);
        } else if at_char(c, u, ')') {
            assert(params_view(before) + seq![pv] =~= params_view(parameters@));
            return Ok(((name, parameters), u + 1));
        } else {
            return Err(syntax_error(u, "`,` or `)`"));
        }
    }
}

/// Tags: `#[`, tags separated by commas, `]`.
fn parse_tags(s: &str, c: &Vec<char>, pos: usize) -> (r: Result<(Vec<AstTag>, usize), String>)
    requires
        c@ == s@,
        pos <= c.len(),
    ensures
        r is Err ==> is_syntax_error(r->Err_0@),
        r is Ok ==> pos < r->Ok_0.1 <= c.len() && tags_wf(r->Ok_0.0@),
        match tags_at(c@, pos as int) {
            Some((v, e)) => r is Ok && tags_view(r->Ok_0.0@) == v && r->Ok_0.1 == e,
            None => r is Err,
        },
{
    let p = match expect_char(c, pos, '#', "`#`") {
        Ok(p) => p,
        Err(e) => return Err(e),
    };
    let p = match expect_char(c, p, '[', "`[`") {
        Ok(p) => p,
        Err(e) => return Err(e),
    };
    let mut tags: Vec<AstTag> = Vec::new();
    let mut q = skip_ws(c, p);
    let ghost start = q as int;
    assert(prepend(tags_view(tags@), tags_from(c@, start)) == tags_from(c@, start)) by {
        if let Some((v, e)) = tags_from(c@, start) {
            assert(tags_view(tags@) + v =~= v);
        }
    }
    loop
        invariant
            c@ == s@,
            pos < q <= c.len(),
            tags_wf(tags@),
            tags_at(c@, pos as int) == tags_from(c@, start),
            tags_from(c@, start) == prepend(tags_view(tags@), tags_from(c@, q as int)),
        decreases c.len() - q,
    {
        let (tag, u) = match parse_tag(s, c, q) {
            Ok(x) => x,
            Err(e) => return Err(e),
        };
        let ghost before = tags@;
        let ghost tv = (tag.0@, params_view(tag.1@));
        tags.push(tag);
        assert(tags_view(tags@) =~= tags_view(before).push(tv));
        assert forall|i: int| 0 <= i < tags@.len() implies #[trigger] tags@[i] == if i < before.len() {
            before[i]
        } else {
            tag
        } by {}
        assert(tags_wf(tags@));
        let u = skip_ws(c, u);
        if at_char(c, u, ',') {
            proof {
                lemma_prepend_step(tags_view(before), tv, tags_from(c@, ws_end(c@, u + 1)));
            }
            q = skip_ws(c, u + 1);
        } else if at_char(c, u, ']') {
            assert(tags_view(before) + seq![tv] =~= tags_view(tags@));
            return Ok((tags, u + 1));
        } else {
            return Err(syntax_error(u, "`,` or `]`"));
        }
    }
}

/// A field type: a quoted external name or a local identifier.
fn parse_type(s: &str, c: &Vec<char>, pos: usize) -> (r: Result<(AstType, usize), String>)
    requires
        c@ == s@,
        pos <= c.len(),
    ensures
        r is Err ==> is_syntax_error(r->Err_0@),
        r is Ok ==> pos < r->Ok_0.1 <= c.len(),
        match type_at(c@, pos as int) {
            Some((v, e)) => r is Ok && type_view(r->Ok_0.0) == v && r->Ok_0.1 == e,
            None => r is Err,
        },
{
    if at_char(c, pos, '"') {
        match parse_string(s, c, pos) {
            Ok((name, p)) => Ok((AstType::Extern(name), p)),
            Err(e) => Err(e),
        }
    } else {
        match expect_identifier(s, c, pos) {
            Ok((name, p)) => Ok((AstType::Local(name), p)),
            Err(e) => Err(e),
        }
    }
}

/// A struct field: a name, `:`, and a type.
fn parse_struct_field(s: &str, c: &Vec<char>, pos: usize) -> (r: Result<((String, AstType), usize), String>)
    requires
        c@ == s@,
        pos <= c.len(),
    ensures
        r is Err ==> is_syntax_error(r->Err_0@),
        r is Ok ==> pos < r->Ok_0.1 <= c.len() && is_identifier(r->Ok_0.0.0@),
        match field_at(c@, pos as int) {
            Some((v, e)) => r is Ok && (r->Ok_0.0.0@, type_view(r->Ok_0.0.1)) == v && r->Ok_0.1 == e,
            None => r is Err,
        },
{
    let (name, p) = match expect_identifier(s, c, pos) {
        Ok(x) => x,
        Err(e) => return Err(e),
    };
    let p = skip_ws(c, p);
    let p = match expect_char(c, p, ':', "`:`") {
        Ok(p) => p,
        Err(e) => return Err(e),
    };
    let p = skip_ws(c, p);
    match parse_type(s, c, p) {
        Ok((t, p)) => Ok(((name, t), p)),
        Err(e) => Err(e),
    }
}

/// Struct fields: a brace-enclosed, comma-separated list; a comma may follow
/// the last field.
fn parse_struct_fields(s: &str, c: &Vec<char>, pos: usize) -> (r: Result<(Vec<(String, AstType)>, usize), String>)
    requires
        c@ == s@,
        pos <= c.len(),
    ensures
        r is Err ==> is_syntax_error(r->Err_0@),
        r is Ok ==> pos < r->Ok_0.1 <= c.len() && forall|j: int|
            0 <= j < r->Ok_0.0.len() ==> is_identifier(#[trigger] r->Ok_0.0@[j].0@),
        match (if at(c@, pos as int, '{') {
            fields_from(c@, ws_end(c@, pos + 1))
        } else {
            None
        }) {
            Some((v, e)) => r is Ok && fields_view(r->Ok_0.0@) == v && r->Ok_0.1 == e,
            None => r is Err,
        },
{
    let p = match expect_char(c, pos, '{', "`{`") {
        Ok(p) => p,
        Err(e) => return Err(e),
    };
    let mut fields: Vec<(String, AstType)> = Vec::new();
    let mut q = skip_ws(c, p);
    let ghost start = q as int;
    assert(prepend(fields_view(fields@), fields_from(c@, start)) == fields_from(c@, start)) by {
        if let Some((v, e)) = fields_from(c@, start) {
            assert(fields_view(fields@) + v =~= v);
        }
    }
    loop
        invariant
            c@ == s@,
            pos < q <= c.len(),
            start == ws_end(c@, pos + 1),
            at(c@, pos as int, '{'),
            forall|j: int| 0 <= j < fields.len() ==> is_identifier(#[trigger] fields@[j].0@),
            fields_from(c@, start) == prepend(fields_view(fields@), fields_from(c@, q as int)),
        decreases c.len() - q,
    {
        if at_char(c, q, '}') {
            assert(fields_view(fields@) + Seq::<(Seq<char>, crate::grammar::TypeV)>::empty() =~= fields_view(fields@));
            return Ok((fields, q + 1));
        }
        let (field, u) = match parse_struct_field(s, c, q) {
            Ok(x) => x,
            Err(e) => return Err(e),
        };
        let ghost before = fields@;
        let ghost fv = (field.0@, type_view(field.1));
        fields.push(field);
        assert(fields_view(fields@) =~= fields_view(before).push(fv));
        let u = skip_ws(c, u);
        if at_char(c, u, ',') {
            proof {
                lemma_prepend_step(fields_view(before), fv, fields_from(c@, ws_end(c@, u + 1)));
            }
            q = skip_ws(c, u + 1);
        } else if at_char(c, u, '}') {
            assert(fields_view(before) + seq![fv] =~= fields_view(fields@));
            return Ok((fields, u + 1));
        } else {
            return Err(syntax_error(u, "`,` or `}`"));
        }
    }
}

/// Enum variants: a brace-enclosed, comma-separated list of names.
fn parse_enum_fields(s: &str, c: &Vec<char>, pos: usize) -> (r: Result<(Vec<String>, usize), String>)
    requires
        c@ == s@,
        pos <= c.len(),
    ensures
        r is Err ==> is_syntax_error(r->Err_0@),
        r is Ok ==> pos < r->Ok_0.1 <= c.len() && forall|j: int|
            0 <= j < r->Ok_0.0.len() ==> is_identifier(#[trigger] r->Ok_0.0@[j]@),
        match (if at(c@, pos as int, '{') {
            variants_from(c@, ws_end(c@, pos + 1))
        } else {
            None
        }) {
            Some((v, e)) => r is Ok && strs(r->Ok_0.0@) == v && r->Ok_0.1 == e,
            None => r is Err,
        },
{
    let p = match expect_char(c, pos, '{', "`{`") {
        Ok(p) => p,
        Err(e) => return Err(e),
    };
    let mut fields: Vec<String> = Vec::new();
    let mut q = skip_ws(c, p);
    let ghost start = q as int;
    assert(prepend(strs(fields@), variants_from(c@, start)) == variants_from(c@, start)) by {
        if let Some((v, e)) = variants_from(c@, start) {
            assert(strs(fields@) + v =~= v);
        }
    }
    loop
        invariant
            c@ == s@,
            pos < q <= c.len(),
            start == ws_end(c@, pos + 1),
            at(c@, pos as int, '{'),
            forall|j: int| 0 <= j < fields.len() ==> is_identifier(#[trigger] fields@[j]@),
            variants_from(c@, start) == prepend(strs(fields@), variants_from(c@, q as int)),
        decreases c.len() - q,
    {
        if at_char(c, q, '}') {
            assert(strs(fields@) + Seq::<Seq<char>>::empty() =~= strs(fields@));
            return Ok((fields, q + 1));
        }
        let (field, u) = match expect_identifier(s, c, q) {
            Ok(x) => x,
            Err(e) => return Err(e),
        };
        let ghost before = fields@;
        let ghost fv = field@;
        fields.push(field);
        assert(strs(fields@) =~= strs(before).push(fv));
        let u = skip_ws(c, u);
        if at_char(c, u, ',') {
            proof {
                lemma_prepend_step(strs(before), fv, variants_from(c@, ws_end(c@, u + 1)));
            }
            q = skip_ws(c, u + 1);
        } else if at_char(c, u, '}') {
            assert(strs(before) + seq![fv] =~= strs(fields@));
            return Ok((fields, u + 1));
        } else {
            return Err(syntax_error(u, "`,` or `}`"));
        }
    }
}

/// A struct after its keyword, with the tags that preceded it.
fn parse_struct(s: &str, c: &Vec<char>, tags: Vec<AstTag>, pos: usize) -> (r: Result<(AstStruct, usize), String>)
    requires
        c@ == s@,
        pos <= c.len(),
        tags_wf(tags@),
    ensures
        r is Err ==> is_syntax_error(r->Err_0@),
        r is Ok ==> pos < r->Ok_0.1 <= c.len() && is_identifier(r->Ok_0.0.name@) && tags_wf(r->Ok_0.0.tags@) && forall|j: int|
            0 <= j < r->Ok_0.0.fields.len() ==> is_identifier(#[trigger] r->Ok_0.0.fields@[j].0@),
        match struct_at(c@, tags_view(tags@), pos as int) {
            Some((v, e)) => r is Ok && struct_view(r->Ok_0.0) == v && r->Ok_0.1 == e,
            None => r is Err,
        },
{
    let p = skip_ws(c, pos);
    let (name, p) = match expect_identifier(s, c, p) {
        Ok(x) => x,
        Err(e) => return Err(e),
    };
    let p = skip_ws(c, p);
    match parse_struct_fields(s, c, p) {
        Ok((fields, p)) => Ok((AstStruct { tags, name, fields }, p)),
        Err(e) => Err(e),
    }
}

/// An enum after its keyword, with the tags that preceded it.
fn parse_enum(s: &str, c: &Vec<char>, tags: Vec<AstTag>, pos: usize) -> (r: Result<(AstEnum, usize), String>)
    requires
        c@ == s@,
        pos <= c.len(),
        tags_wf(tags@),
    ensures
        r is Err ==> is_syntax_error(r->Err_0@),
        r is Ok ==> pos < r->Ok_0.1 <= c.len() && is_identifier(r->Ok_0.0.name@) && tags_wf(r->Ok_0.0.tags@) && forall|j: int|
            0 <= j < r->Ok_0.0.fields.len() ==> is_identifier(#[trigger] r->Ok_0.0.fields@[j]@),
        match enum_at(c@, tags_view(tags@), pos as int) {
            Some((v, e)) => r is Ok && enum_view(r->Ok_0.0) == v && r->Ok_0.1 == e,
            None => r is Err,
        },
{
    let p = skip_ws(c, pos);
    let (name, p) = match expect_identifier(s, c, p) {
        Ok(x) => x,
        Err(e) => return Err(e),
    };
    let p = skip_ws(c, p);
    match parse_enum_fields(s, c, p) {
        Ok((fields, p)) => Ok((AstEnum { tags, name, fields }, p)),
        Err(e) => Err(e),
    }
}

/// An implementation after its keyword: an optional target, a name, optional
/// rules and the code.
fn parse_implementation(s: &str, c: &Vec<char>, pos: usize) -> (r: Result<(AstImplementation, usize), String>)
    requires
        c@ == s@,
        pos <= c.len(),
    ensures
        r is Err ==> is_syntax_error(r->Err_0@),
        r is Ok ==> pos < r->Ok_0.1 <= c.len() && code_wf(r->Ok_0.0.code.0@) && is_identifier(r->Ok_0.0.name@),
        match impl_at(c@, pos as int) {
            Some((v, e)) => r is Ok && impl_view(r->Ok_0.0) == v && r->Ok_0.1 == e,
            None => r is Err,
        },
{
    let p = skip_ws(c, pos);
    let (word, p) = match expect_identifier(s, c, p) {
        Ok(x) => x,
        Err(e) => return Err(e),
    };
    let (target, name, p) = if is_word(&word, "struct") || is_word(&word, "enum") {
        let target = if is_word(&word, "struct") {
            AstImplementationTarget::Struct
        } else {
            AstImplementationTarget::Enum
        };
        let p = skip_ws(c, p);
        match expect_identifier(s, c, p) {
            Ok((name, p)) => (target, name, p),
            Err(e) => return Err(e),
        }
    } else {
        (AstImplementationTarget::All, word, p)
    };
    let p = skip_ws(c, p);
    let (where_rules, p) = match parse_where_rules(s, c, p) {
        Ok(x) => x,
        Err(e) => return Err(e),
    };
    let p = skip_ws(c, p);
    match parse_code(s, c, p, 0) {
        Ok((code, p)) => Ok((AstImplementation { target, name, where_rules, code }, p)),
        Err(e) => Err(e),
    }
}

/// The implementations of an extern block: `{`, pairs of a name and code, `}`.
fn parse_extern_implementations(s: &str, c: &Vec<char>, pos: usize) -> (r: Result<(Vec<(String, AstCode)>, usize), String>)
    requires
        c@ == s@,
        pos <= c.len(),
    ensures
        r is Err ==> is_syntax_error(r->Err_0@),
        r is Ok ==> pos < r->Ok_0.1 <= c.len() && forall|j: int|
            #![trigger r->Ok_0.0@[j]]
            0 <= j < r->Ok_0.0.len() ==> code_wf(r->Ok_0.0@[j].1.0@) && is_identifier(r->Ok_0.0@[j].0@),
        match extern_impls_at(c@, pos as int) {
            Some((v, e)) => r is Ok && extern_impls_view(r->Ok_0.0@) == v && r->Ok_0.1 == e,
            None => r is Err,
        },
{
    let p = match expect_char(c, pos, '{', "`{`") {
        Ok(p) => p,
        Err(e) => return Err(e),
    };
    let mut implementations: Vec<(String, AstCode)> = Vec::new();
    let mut q = skip_ws(c, p);
    let ghost start = q as int;
    assert(prepend(extern_impls_view(implementations@), extern_impls_from(c@, start)) == extern_impls_from(c@, start)) by {
        if let Some((v, e)) = extern_impls_from(c@, start) {
            assert(extern_impls_view(implementations@) + v =~= v);
        }
    }
    loop
        invariant
            c@ == s@,
            pos < q <= c.len(),
            extern_impls_at(c@, pos as int) == extern_impls_from(c@, start),
            extern_impls_from(c@, start) == prepend(extern_impls_view(implementations@), extern_impls_from(c@, q as int)),
            forall|j: int|
                #![trigger implementations@[j]]
                0 <= j < implementations.len() ==> code_wf(implementations@[j].1.0@) && is_identifier(implementations@[j].0@),
        decreases c.len() - q,
    {
        if at_char(c, q, '}') {
            assert(extern_impls_view(implementations@) + Seq::<(Seq<char>, Seq<crate::grammar::ChunkV>)>::empty()
                =~= extern_impls_view(implementations@));
            return Ok((implementations, q + 1));
        }
        let (name, u) = match expect_identifier(s, c, q) {
            Ok(x) => x,
            Err(e) => return Err(e),
        };
        let u = skip_ws(c, u);
        let (code, u) = match parse_code(s, c, u, 0) {
            Ok(x) => x,
            Err(e) => return Err(e),
        };
        let ghost before = implementations@;
        let ghost iv = (name@, chunks_view(code.0@));
        implementations.push((name, code));
        assert(extern_impls_view(implementations@) =~= extern_impls_view(before).push(iv));
        proof {
            lemma_prepend_step(extern_impls_view(before), iv, extern_impls_from(c@, ws_end(c@, u as int)));
        }
        q = skip_ws(c, u);
    }
}

/// An extern block after its keyword: type names separated by commas, then
/// the implementations.
fn parse_extern(s: &str, c: &Vec<char>, pos: usize) -> (r: Result<(AstExtern, usize), String>)
    requires
        c@ == s@,
        pos <= c.len(),
    ensures
        r is Err ==> is_syntax_error(r->Err_0@),
        r is Ok ==> pos < r->Ok_0.1 <= c.len() && forall|j: int|
            #![trigger r->Ok_0.0.implementations@[j]]
            0 <= j < r->Ok_0.0.implementations.len() ==> code_wf(r->Ok_0.0.implementations@[j].1.0@)
                && is_identifier(r->Ok_0.0.implementations@[j].0@),
        match extern_types_from(c@, ws_end(c@, pos as int)) {
            Some((v, e)) => r is Ok && extern_view(r->Ok_0.0) == v && r->Ok_0.1 == e,
            None => r is Err,
        },
{
    let mut types: Vec<String> = Vec::new();
    let mut q = skip_ws(c, pos);
    let ghost start = q as int;
    assert(strs(types@) =~= Seq::<Seq<char>>::empty());
    assert(extern_types_from(c@, start) == match extern_types_from(c@, start) {
        Some(((ts, is), e)) => Some(((strs(types@) + ts, is), e)),
        None => None::<((Seq<Seq<char>>, Seq<(Seq<char>, Seq<crate::grammar::ChunkV>)>), int)>,
    }) by {
        if let Some(((ts, is), e)) = extern_types_from(c@, start) {
            assert(strs(types@) + ts =~= ts);
        }
    }
    loop
        invariant
            c@ == s@,
            pos <= q <= c.len(),
            start == ws_end(c@, pos as int),
            extern_types_from(c@, start) == match extern_types_from(c@, q as int) {
                Some(((ts, is), e)) => Some(((strs(types@) + ts, is), e)),
                None => None::<((Seq<Seq<char>>, Seq<(Seq<char>, Seq<crate::grammar::ChunkV>)>), int)>,
            },
        decreases c.len() - q,
    {
        let (name, u) = match parse_string(s, c, q) {
            Ok(x) => x,
            Err(e) => return Err(e),
        };
        let ghost before = types@;
        let ghost t = name@;
        types.push(name);
        assert(strs(types@) =~= strs(before).push(t));
        let u = skip_ws(c, u);
        if at_char(c, u, ',') {
            let q2 = skip_ws(c, u + 1);
            assert(extern_types_from(c@, q as int) == match extern_types_from(c@, q2 as int) {
                Some(((ts, is), e)) => Some(((seq![t] + ts, is), e)),
                None => None::<((Seq<Seq<char>>, Seq<(Seq<char>, Seq<crate::grammar::ChunkV>)>), int)>,
            });
            proof {
                if let Some(((ts, is), e)) = extern_types_from(c@, q2 as int) {
                    assert(strs(before) + (seq![t] + ts) =~= strs(types@) + ts);
                }
            }
            q = q2;
        } else {
            proof {
                if let Some((is, e)) = extern_impls_at(c@, u as int) {
                    assert(strs(before) + seq![t] =~= strs(types@));
                }
            }
            return match parse_extern_implementations(s, c, u) {
                Ok((implementations, u)) => Ok((AstExtern { types, implementations }, u)),
                Err(e) => Err(e),
            };
        }
    }
}

/// Parses a whole program. On success every code template is well formed and
/// every name is an identifier; a source of white space alone gives the empty
/// program; every failure is a syntax error naming a position.
pub fn parse(content: &str) -> (r: Result<Ast, String>)
    ensures
        r is Err ==> is_syntax_error(r->Err_0@),
        r is Ok ==> ast_wf(r->Ok_0),
        (forall|i: int| 0 <= i < content@.len() ==> is_space(#[trigger] content@[i])) ==> r is Ok
            && r->Ok_0.imports.len() == 0 && r->Ok_0.injects.len() == 0 && r->Ok_0.externs.len() == 0
            && r->Ok_0.structs.len() == 0 && r->Ok_0.enums.len() == 0 && r->Ok_0.implementations.len() == 0
            && r->Ok_0.replacements.len() == 0,
        match program_of(content@) {
            Some(v) => r is Ok && program_view(r->Ok_0) == v,
            None => r is Err,
        },
{
    let c = chars_of(content);
    let mut ast = Ast {
        imports: Vec::new(),
        injects: Vec::new(),
        externs: Vec::new(),
        structs: Vec::new(),
        enums: Vec::new(),
        implementations: Vec::new(),
        replacements: Vec::new(),
    };
    let mut p = skip_ws(&c, 0);
    assert(program_view(ast) == empty_program()) by {
        assert(program_view(ast).imports =~= Seq::<Seq<char>>::empty());
        assert(program_view(ast).injects =~= empty_program().injects);
        assert(program_view(ast).externs =~= empty_program().externs);
        assert(program_view(ast).structs =~= empty_program().structs);
        assert(program_view(ast).enums =~= empty_program().enums);
        assert(program_view(ast).implementations =~= empty_program().implementations);
        assert(program_view(ast).replacements =~= empty_program().replacements);
    }
    assert((forall|i: int| 0 <= i < content@.len() ==> is_space(#[trigger] content@[i])) ==> forall|i: int|
        0 <= i < c.len() ==> is_space(#[trigger] c@[i]));
    loop
        invariant
            c@ == content@,
            p <= c.len(),
            ast_wf(ast),
            program_of(c@) == program_from(c@, p as int, program_view(ast)),
            (forall|i: int| 0 <= i < content@.len() ==> is_space(#[trigger] content@[i])) ==> p == c.len()
                && ast.imports.len() == 0 && ast.injects.len() == 0 && ast.externs.len() == 0
                && ast.structs.len() == 0 && ast.enums.len() == 0 && ast.implementations.len() == 0
                && ast.replacements.len() == 0,
        decreases c.len() - p,
    {
        if p >= c.len() {
            return Ok(ast);
        }
        let q = if at_char(&c, p, '#') {
            let (tags, q) = match parse_tags(content, &c, p) {
                Ok(x) => x,
                Err(e) => return Err(e),
            };
            let q = skip_ws(&c, q);
            let (word, q) = match expect_identifier(content, &c, q) {
                Ok(x) => x,
                Err(e) => return Err(e),
            };
            if is_word(&word, "struct") {
                match parse_struct(content, &c, tags, q) {
                    Ok((item, q)) => {
                        let ghost before = ast;
                        let ghost iv = struct_view(item);
                        ast.structs.push(item);
                        assert(program_view(ast).structs =~= program_view(before).structs.push(iv));
                        assert(program_view(ast) == ProgramV {
                            structs: program_view(before).structs.push(iv),
                            ..program_view(before)
                        });
                        assert(forall|i: int| 0 <= i < before.structs.len() ==> ast.structs@[i] == before.structs@[i]);
                        q
                    },
                    Err(e) => return Err(e),
                }
            } else if is_word(&word, "enum") {
                match parse_enum(content, &c, tags, q) {
                    Ok((item, q)) => {
                        let ghost before = ast;
                        let ghost iv = enum_view(item);
                        ast.enums.push(item);
                        assert(program_view(ast).enums =~= program_view(before).enums.push(iv));
                        assert(program_view(ast) == ProgramV {
                            enums: program_view(before).enums.push(iv),
                            ..program_view(before)
                        });
                        assert(forall|i: int| 0 <= i < before.enums.len() ==> ast.enums@[i] == before.enums@[i]);
                        q
                    },
                    Err(e) => return Err(e),
                }
            } else {
                return Err(syntax_error(q, "`struct` or `enum`"));
            }
        } else {
            let (word, q) = match expect_identifier(content, &c, p) {
                Ok(x) => x,
                Err(e) => return Err(e),
            };
            let q = skip_ws(&c, q);
            if is_word(&word, "import") {
                match parse_string(content, &c, q) {
                    Ok((item, q)) => {
                        let ghost before = ast;
                        let ghost iv = item@;
                        ast.imports.push(item);
                        assert(program_view(ast).imports =~= program_view(before).imports.push(iv));
                        assert(program_view(ast) == ProgramV {
                            imports: program_view(before).imports.push(iv),
                            ..program_view(before)
                        });
                        q
                    },
                    Err(e) => return Err(e),
                }
            } else if is_word(&word, "inject") {
                match parse_code(content, &c, q, 0) {
                    Ok((item, q)) => {
                        let ghost before = ast;
                        let ghost iv = chunks_view(item.0@);
                        ast.injects.push(item);
                        assert(program_view(ast).injects =~= program_view(before).injects.push(iv));
                        assert(program_view(ast) == ProgramV {
                            injects: program_view(before).injects.push(iv),
                            ..program_view(before)
                        });
                        assert(forall|i: int| 0 <= i < before.injects.len() ==> ast.injects@[i] == before.injects@[i]);
                        q
                    },
                    Err(e) => return Err(e),
                }
            } else if is_word(&word, "replace") {
                let (pattern, q) = match parse_string(content, &c, q) {
                    Ok(x) => x,
                    Err(e) => return Err(e),
                };
                let pattern = unescape_backslashes(pattern.as_str());
                let q = skip_ws(&c, q);
                match parse_code(content, &c, q, 0) {
                    Ok((template, q)) => {
                        let ghost before = ast;
                        let ghost iv = replace_view(AstReplace { pattern, template });
                        ast.replacements.push(AstReplace { pattern, template });
                        assert(program_view(ast).replacements =~= program_view(before).replacements.push(iv));
                        assert(program_view(ast) == ProgramV {
                            replacements: program_view(before).replacements.push(iv),
                            ..program_view(before)
                        });
                        assert(forall|i: int| 0 <= i < before.replacements.len() ==> ast.replacements@[i] == before.replacements@[i]);
                        q
                    },
                    Err(e) => return Err(e),
                }
            } else if is_word(&word, "extern") {
                match parse_extern(content, &c, q) {
                    Ok((item, q)) => {
                        let ghost before = ast;
                        let ghost iv = extern_view(item);
                        ast.externs.push(item);
                        assert(program_view(ast).externs =~= program_view(before).externs.push(iv));
                        assert(program_view(ast) == ProgramV {
                            externs: program_view(before).externs.push(iv),
                            ..program_view(before)
                        });
                        assert(forall|i: int| 0 <= i < before.externs.len() ==> ast.externs@[i] == before.externs@[i]);
                        q
                    },
                    Err(e) => return Err(e),
                }
            } else if is_word(&word, "struct") {
                assert(tags_view(Seq::<AstTag>::empty()) =~= Seq::<crate::grammar::TagV>::empty());
                match parse_struct(content, &c, Vec::new(), q) {
                    Ok((item, q)) => {
                        let ghost before = ast;
                        let ghost iv = struct_view(item);
                        ast.structs.push(item);
                        assert(program_view(ast).structs =~= program_view(before).structs.push(iv));
                        assert(program_view(ast) == ProgramV {
                            structs: program_view(before).structs.push(iv),
                            ..program_view(before)
                        });
                        assert(forall|i: int| 0 <= i < before.structs.len() ==> ast.structs@[i] == before.structs@[i]);
                        q
                    },
                    Err(e) => return Err(e),
                }
            } else if is_word(&word, "enum") {
                assert(tags_view(Seq::<AstTag>::empty()) =~= Seq::<crate::grammar::TagV>::empty());
                match parse_enum(content, &c, Vec::new(), q) {
                    Ok((item, q)) => {
                        let ghost before = ast;
                        let ghost iv = enum_view(item);
                        ast.enums.push(item);
                        assert(program_view(ast).enums =~= program_view(before).enums.push(iv));
                        assert(program_view(ast) == ProgramV {
                            enums: program_view(before).enums.push(iv),
                            ..program_view(before)
                        });
                        assert(forall|i: int| 0 <= i < before.enums.len() ==> ast.enums@[i] == before.enums@[i]);
                        q
                    },
                    Err(e) => return Err(e),
                }
            } else if is_word(&word, "impl") {
                match parse_implementation(content, &c, q) {
                    Ok((item, q)) => {
                        let ghost before = ast;
                        let ghost iv = impl_view(item);
                        ast.implementations.push(item);
                        assert(program_view(ast).implementations =~= program_view(before).implementations.push(iv));
                        assert(program_view(ast) == ProgramV {
                            implementations: program_view(before).implementations.push(iv),
                            ..program_view(before)
                        });
                        assert(forall|i: int| 0 <= i < before.implementations.len() ==> ast.implementations@[i] == before.implementations@[i]);
                        q
                    },
                    Err(e) => return Err(e),
                }
            } else {
                return Err(syntax_error(p, "`import`, `inject`, `replace`, `extern`, `struct`, `enum`, `impl` or tags"));
            }
        };
        p = skip_ws(&c, q);
    }
}

} // verus!

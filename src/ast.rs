//! The syntax tree of a template program.
use vstd::prelude::*;

verus! {

/// A whole template program, as the parser produces it.
#[derive(Debug, Default)]
pub struct Ast {
    pub imports: Vec<String>,
    pub injects: Vec<AstCode>,
    pub externs: Vec<AstExtern>,
    pub structs: Vec<AstStruct>,
    pub enums: Vec<AstEnum>,
    pub implementations: Vec<AstImplementation>,
    pub replacements: Vec<AstReplace>,
}

/// A set of external type names and the code emitted for each of them.
#[derive(Debug, Default)]
pub struct AstExtern {
    pub types: Vec<String>,
    pub implementations: Vec<(String, AstCode)>,
}

/// The type of a struct field.
#[derive(Debug, Clone, PartialEq, Eq, Hash)]
pub enum AstType {
    Absent,
    Extern(String),
    Local(String),
}

/// The text a field type stands for in a fields loop.
pub open spec fn type_text(t: AstType) -> Seq<char> {
    match t {
        AstType::Absent => Seq::empty(),
        AstType::Extern(name) => name@,
        AstType::Local(name) => name@,
    }
}

impl AstType {
    /// The bare name of the type, or the empty string for `Absent`.
    pub fn to_string(&self) -> (r: String)
        ensures
            r@ == type_text(*self),
    {
        match self {
            AstType::Absent => String::new(),
            AstType::Extern(name) => name.clone(),
            AstType::Local(name) => name.clone(),
        }
    }
}

/// A tag: the name of an implementation and its parameters, in order.
/// A later parameter of the same name hides an earlier one.
pub type AstTag = (String, Vec<(String, String)>);

#[derive(Debug, Default, Clone)]
pub struct AstStruct {
    pub tags: Vec<AstTag>,
    pub name: String,
    pub fields: Vec<(String, AstType)>,
}

#[derive(Debug, Default, Clone)]
pub struct AstEnum {
    pub tags: Vec<AstTag>,
    pub name: String,
    pub fields: Vec<String>,
}

/// A named code template that tags apply to structs or enums.
#[derive(Debug)]
pub struct AstImplementation {
    pub target: AstImplementationTarget,
    pub name: String,
    pub where_rules: Vec<AstWhereRule>,
    pub code: AstCode,
}

/// The kind of entity an implementation may be applied to.
#[derive(Debug, Clone, Copy, PartialEq, Eq, Hash, Structural)]
pub enum AstImplementationTarget {
    All,
    Struct,
    Enum,
}

/// Whether an implementation of target `target` may be applied to an entity of kind `kind`.
pub open spec fn target_accepts(target: AstImplementationTarget, kind: AstImplementationTarget) -> bool {
    target == AstImplementationTarget::All || target == kind
}

impl AstImplementationTarget {
    pub fn is_valid(&self, other: AstImplementationTarget) -> (r: bool)
        ensures
            r == target_accepts(*self, other),
    {
        match (self, other) {
            (AstImplementationTarget::All, _) => true,
            (AstImplementationTarget::Struct, AstImplementationTarget::Struct) => true,
            (AstImplementationTarget::Enum, AstImplementationTarget::Enum) => true,
            _ => false,
        }
    }
}

/// A constraint of an implementation or of a loop. Constraints are kept in
/// the tree but are not yet evaluated by the processor.
#[derive(Debug, Clone)]
pub enum AstWhereRule {
    Empty,
    Exists(String),
    Is(AstWhereRuleIs),
    Impl(AstWhereRuleImpl),
}

#[derive(Debug, Default, Clone)]
pub struct AstWhereRuleIs {
    pub variable: String,
    pub value: String,
}

#[derive(Debug, Clone)]
pub struct AstWhereRuleImpl {
    pub container: AstIn,
    pub implements: Vec<String>,
}

/// A code template: a sequence of chunks.
#[derive(Debug, Default)]
pub struct AstCode(pub Vec<AstCodeChunk>);

#[derive(Debug)]
pub enum AstCodeChunk {
    Empty,
    Content(String),
    Variable(String),
    For(AstCodeFor),
}

#[derive(Debug)]
pub struct AstCodeMatch {
    pub variables: Vec<String>,
    pub container: AstIn,
    pub where_rules: Vec<AstWhereRule>,
    pub code: AstCode,
}

/// A loop: binds `variables` to consecutive groups of the container's values.
#[derive(Debug)]
pub struct AstCodeFor {
    pub variables: Vec<String>,
    pub container: AstIn,
    pub where_rules: Vec<AstWhereRule>,
    pub code: AstCode,
}

/// What a loop iterates over.
#[derive(Debug, Clone)]
pub enum AstIn {
    Unspecified,
    Fields,
    Variable(String),
}

/// A rewrite applied to the whole output: every match of `pattern` is
/// replaced by the text of `template`.
#[derive(Debug, Default)]
pub struct AstReplace {
    pub pattern: String,
    pub template: AstCode,
}

pub open spec fn is_identifier_start(c: char) -> bool {
    ('a' <= c && c <= 'z') || ('A' <= c && c <= 'Z') || c == '_'
}

pub open spec fn is_identifier_char(c: char) -> bool {
    is_identifier_start(c) || ('0' <= c && c <= '9')
}

/// A name as the parser reads it: a letter or `_`, then letters, digits or `_`.
pub open spec fn is_identifier(s: Seq<char>) -> bool {
    &&& s.len() > 0
    &&& is_identifier_start(s[0])
    &&& forall|k: int| 0 < k < s.len() ==> is_identifier_char(#[trigger] s[k])
}

/// Every tag names an implementation by an identifier and binds identifiers.
pub open spec fn tags_wf(tags: Seq<AstTag>) -> bool {
    forall|i: int|
        0 <= i < tags.len() ==> is_identifier(#[trigger] tags[i].0@) && forall|j: int|
            0 <= j < tags[i].1.len() ==> is_identifier(#[trigger] tags[i].1@[j].0@)
}

/// A code template as the parser builds it: no empty chunks, no empty text,
/// and every loop binds at least one variable over a named container.
pub open spec fn code_wf(chunks: Seq<AstCodeChunk>) -> bool
    decreases chunks,
{
    chunks.len() == 0 || (code_wf(chunks.drop_last()) && match chunks.last() {
        AstCodeChunk::Empty => false,
        AstCodeChunk::Content(text) => text@.len() > 0,
        AstCodeChunk::Variable(name) => is_identifier(name@),
        AstCodeChunk::For(f) => f.variables.len() > 0 && (forall|j: int|
            0 <= j < f.variables.len() ==> is_identifier(#[trigger] f.variables@[j]@)) && match f.container {
            AstIn::Unspecified => false,
            AstIn::Fields => true,
            AstIn::Variable(name) => is_identifier(name@),
        } && code_wf(f.code.0@),
    })
}

/// Every code template of the program is well formed, and every name the
/// program declares or refers to is an identifier.
pub open spec fn ast_wf(ast: Ast) -> bool {
    &&& forall|i: int|
        #![trigger ast.structs@[i]]
        0 <= i < ast.structs.len() ==> is_identifier(ast.structs@[i].name@) && tags_wf(ast.structs@[i].tags@)
            && forall|j: int|
            0 <= j < ast.structs@[i].fields.len() ==> is_identifier(#[trigger] ast.structs@[i].fields@[j].0@)
    &&& forall|i: int|
        #![trigger ast.enums@[i]]
        0 <= i < ast.enums.len() ==> is_identifier(ast.enums@[i].name@) && tags_wf(ast.enums@[i].tags@)
            && forall|j: int| 0 <= j < ast.enums@[i].fields.len() ==> is_identifier(#[trigger] ast.enums@[i].fields@[j]@)
    &&& forall|i: int|
        #![trigger ast.implementations@[i]]
        0 <= i < ast.implementations.len() ==> is_identifier(ast.implementations@[i].name@)
    &&& forall|i: int, j: int|
        0 <= i < ast.externs.len() && 0 <= j < ast.externs@[i].implementations.len() ==> is_identifier(
            #[trigger] ast.externs@[i].implementations@[j].0@,
        )
    &&& forall|i: int| 0 <= i < ast.injects.len() ==> code_wf(#[trigger] ast.injects@[i].0@)
    &&& forall|i: int, j: int|
        0 <= i < ast.externs.len() && 0 <= j < ast.externs@[i].implementations.len() ==> code_wf(
            #[trigger] ast.externs@[i].implementations@[j].1.0@,
        )
    &&& forall|i: int| 0 <= i < ast.implementations.len() ==> code_wf(#[trigger] ast.implementations@[i].code.0@)
    &&& forall|i: int| 0 <= i < ast.replacements.len() ==> code_wf(#[trigger] ast.replacements@[i].template.0@)
}

} // verus!

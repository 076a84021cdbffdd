use chrobry_core::ast::{
    Ast, AstCode, AstCodeChunk, AstCodeFor, AstImplementation, AstImplementationTarget, AstIn, AstStruct, AstType,
};
use chrobry_core::parser::{parse, unescape_backslashes};
use chrobry_core::processor::{process, validate};
use chrobry_core::text::{decimal_string, split_bars_string};

fn no_import(_: &str) -> Result<String, String> {
    Ok("".to_owned())
}

fn text(s: &str) -> AstCodeChunk {
    AstCodeChunk::Content(s.to_owned())
}

fn var(s: &str) -> AstCodeChunk {
    AstCodeChunk::Variable(s.to_owned())
}

#[test]
fn target_compatibility() {
    let all = AstImplementationTarget::All;
    let st = AstImplementationTarget::Struct;
    let en = AstImplementationTarget::Enum;
    assert!(all.is_valid(st));
    assert!(all.is_valid(en));
    assert!(st.is_valid(st));
    assert!(!st.is_valid(en));
    assert!(en.is_valid(en));
    assert!(!en.is_valid(st));
}

#[test]
fn type_text() {
    assert_eq!(AstType::Absent.to_string(), "");
    assert_eq!(AstType::Extern("int".to_owned()).to_string(), "int");
    assert_eq!(AstType::Local("Point".to_owned()).to_string(), "Point");
}

#[test]
fn unescape_pairs_of_backslashes() {
    assert_eq!(unescape_backslashes("\\\\d+"), "\\d+");
    assert_eq!(unescape_backslashes("\\\\\\"), "\\\\");
    assert_eq!(unescape_backslashes("\\d"), "\\d");
    assert_eq!(unescape_backslashes(""), "");
}

#[test]
fn split_on_bars() {
    assert_eq!(split_bars_string("x|y|z"), vec!["x", "y", "z"]);
    assert_eq!(split_bars_string(""), vec![""]);
    assert_eq!(split_bars_string("|"), vec!["", ""]);
    assert_eq!(split_bars_string("ab||c"), vec!["ab", "", "c"]);
}

#[test]
fn decimal_numerals() {
    assert_eq!(decimal_string(0), "0");
    assert_eq!(decimal_string(7), "7");
    assert_eq!(decimal_string(10), "10");
    assert_eq!(decimal_string(1234567), "1234567");
}

fn program_with_struct_p() -> Ast {
    let body = AstCode(vec![AstCodeChunk::For(AstCodeFor {
        variables: vec!["n".to_owned(), "t".to_owned()],
        container: AstIn::Fields,
        where_rules: vec![],
        code: AstCode(vec![var("n"), text(":"), var("t"), text(";")]),
    })]);
    let mut ast = Ast::default();
    ast.implementations.push(AstImplementation {
        target: AstImplementationTarget::Struct,
        name: "Show".to_owned(),
        where_rules: vec![],
        code: body,
    });
    ast.structs.push(AstStruct {
        tags: vec![("Show".to_owned(), vec![])],
        name: "P".to_owned(),
        fields: vec![
            ("a".to_owned(), AstType::Local("T1".to_owned())),
            ("b".to_owned(), AstType::Extern("t2".to_owned())),
        ],
    });
    ast
}

#[test]
fn process_struct_fields_tree() {
    let ast = program_with_struct_p();
    assert_eq!(process(&ast, "", vec![], no_import), Ok("a:T1;b:t2;".to_owned()));
}

#[test]
fn process_absent_type_renders_empty() {
    let mut ast = program_with_struct_p();
    ast.structs[0].fields.push(("c".to_owned(), AstType::Absent));
    assert_eq!(process(&ast, "", vec![], no_import), Ok("a:T1;b:t2;c:;".to_owned()));
}

#[test]
fn process_loop_without_variables_fails() {
    let mut ast = Ast::default();
    ast.injects.push(AstCode(vec![AstCodeChunk::For(AstCodeFor {
        variables: vec![],
        container: AstIn::Fields,
        where_rules: vec![],
        code: AstCode(vec![]),
    })]));
    assert_eq!(process(&ast, "", vec![], no_import), Err("Trying to iterate without loop variables".to_owned()));
}

#[test]
fn process_loop_without_container_fails() {
    let mut ast = Ast::default();
    ast.injects.push(AstCode(vec![AstCodeChunk::For(AstCodeFor {
        variables: vec!["v".to_owned()],
        container: AstIn::Unspecified,
        where_rules: vec![],
        code: AstCode(vec![]),
    })]));
    assert_eq!(
        process(&ast, "", vec![], no_import),
        Err("There is no container specified to iterate over".to_owned())
    );
}

#[test]
fn process_later_binding_hides_earlier() {
    let mut ast = Ast::default();
    ast.injects.push(AstCode(vec![var("v")]));
    let vars = vec![("v".to_owned(), "1".to_owned()), ("v".to_owned(), "2".to_owned())];
    assert_eq!(process(&ast, "", vars, no_import), Ok("2".to_owned()));
}

#[test]
fn validate_twice_gives_same_answer() {
    let bad = parse("impl enum E ```x```\n#[E] struct S { }\n#[F] enum T { }").unwrap();
    let first = validate(&bad);
    let second = validate(&bad);
    assert_eq!(first, second);
    assert_eq!(first, Err("Trying to apply non-existing or non-struct trait `E` for struct `S`".to_owned()));
    let good = parse("impl E ```x```\n#[E] struct S { }").unwrap();
    assert_eq!(validate(&good), Ok(()));
    assert_eq!(validate(&good), Ok(()));
}

#[test]
fn parse_builds_tree() {
    let ast = parse(
        "import \"a.chrobry\"\n#[T(k = \"v\", flag)] struct S { a: \"int\", b: S, }\nenum E { X, Y }\nimpl struct T where exists k, k is \"v\", impl fields: T + U ```x@{k}@y```",
    )
    .unwrap();
    assert_eq!(ast.imports, vec!["a.chrobry".to_owned()]);
    assert_eq!(ast.structs.len(), 1);
    assert_eq!(ast.structs[0].name, "S");
    assert_eq!(ast.structs[0].tags[0].0, "T");
    assert_eq!(
        ast.structs[0].tags[0].1,
        vec![("k".to_owned(), "v".to_owned()), ("flag".to_owned(), "".to_owned())]
    );
    assert_eq!(ast.structs[0].fields.len(), 2);
    assert_eq!(ast.enums[0].fields, vec!["X".to_owned(), "Y".to_owned()]);
    assert_eq!(ast.implementations[0].target, AstImplementationTarget::Struct);
    assert_eq!(ast.implementations[0].where_rules.len(), 3);
    assert_eq!(ast.implementations[0].code.0.len(), 3);
}

#[test]
fn parse_rejects_unknown_item() {
    assert!(parse("banana").is_err());
}

#[test]
fn extern_block_without_types_is_still_checked() {
    let mut ast = Ast::default();
    ast.externs.push(chrobry_core::ast::AstExtern {
        types: vec![],
        implementations: vec![("Nope".to_owned(), AstCode(vec![]))],
    });
    let message = "Trying to apply non-existing trait `Nope` in an extern block without types".to_owned();
    assert_eq!(validate(&ast), Err(message.clone()));
    assert_eq!(process(&ast, "", vec![], no_import), Err(message));
}

#[test]
fn process_rejects_loops_nested_too_deeply() {
    let mut code = AstCode(vec![text("x")]);
    for _ in 0..65 {
        code = AstCode(vec![AstCodeChunk::For(AstCodeFor {
            variables: vec!["v".to_owned()],
            container: AstIn::Variable("list".to_owned()),
            where_rules: vec![],
            code,
        })]);
    }
    let mut ast = Ast::default();
    ast.injects.push(code);
    let vars = vec![("list".to_owned(), "a".to_owned())];
    assert_eq!(process(&ast, "", vars, no_import), Err("Trying to run loops nested too deeply".to_owned()));
}

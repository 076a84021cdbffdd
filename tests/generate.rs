use chrobry_core::generate;

fn no_import(_: &str) -> Result<String, String> {
    Ok("".to_owned())
}

fn run(content: &str, separator: &str, variables: Vec<(String, String)>) -> Result<String, String> {
    generate(content, separator, variables, no_import)
}

fn var(name: &str, value: &str) -> (String, String) {
    (name.to_owned(), value.to_owned())
}

const CPP: &str = r#"
// Types and helpers for a small C++ header.
import "std.chrobry"

inject ```#pragma once
#include <@{header}@>
```

extern "int", "float" {
    Zero ```template<> inline @{TYPENAME}@ zero<@{TYPENAME}@>() { return 0; }```
}

impl Zero ```template<typename T> T zero();```

impl struct Debug where exists TYPENAME ```void debug(const @{TYPENAME}@& v) {
@{for name, type in fields where impl fields: Zero + Debug ```  print("@{name}@: @{type}@", v.@{name}@);
```}@}```

impl enum Names ```const char* names_@{TYPENAME}@[] = {@{for v in fields ``` "@{v}@",```}@ };```

impl Prefix where kind is "plain" ```// @{prefix}@ @{TYPENAME}@```

#[Debug, Prefix(prefix = "struct", kind = "plain")]
struct Point {
    x: "float",
    y: "float",
    next: Point,
}

#[Names, Prefix(prefix = "enum")]
enum Color { Red, Green, Blue, }

replace "\\bfloat\\b" ```double```
"#;

#[test]
fn test_parse() {
    let output = match run(CPP, "\n", vec![var("header", "cstdio")]) {
        Ok(output) => output,
        Err(error) => panic!("Could not generate: {}", error),
    };
    println!("=== OUTPUT:\n{}", output);
    assert!(output.starts_with("#pragma once\n#include <cstdio>\n\n"));
    assert!(output.contains("template<> inline int zero<int>() { return 0; }\n"));
    assert!(output.contains("template<> inline double zero<double>() { return 0; }\n"));
    assert!(output.contains("const char* names_Color[] = { \"Red\", \"Green\", \"Blue\", };\n"));
    assert!(output.contains("  print(\"x: double\", v.x);\n"));
    assert!(output.contains("  print(\"next: Point\", v.next);\n"));
    assert!(output.contains("// struct Point\n"));
    assert!(output.ends_with("// struct Point\n"));
}

#[test]
fn empty_program_gives_empty_text() {
    assert_eq!(run("", "\n", vec![]), Ok("".to_owned()));
    assert_eq!(run("  \n\t ", "---", vec![var("a", "b")]), Ok("".to_owned()));
}

#[test]
fn comments_only_program_gives_empty_text() {
    assert_eq!(run("// nothing here\n// at all", "\n", vec![]), Ok("".to_owned()));
}

#[test]
fn struct_tag_without_implementation_fails() {
    let r = run("inject ```text```\n#[Missing] struct S { a: \"int\" }", "\n", vec![]);
    assert_eq!(r, Err("Trying to apply non-existing or non-struct trait `Missing` for struct `S`".to_owned()));
}

#[test]
fn struct_tag_with_enum_implementation_fails() {
    let r = run("impl enum E ```x```\n#[E] struct S { }", "\n", vec![]);
    assert_eq!(r, Err("Trying to apply non-existing or non-struct trait `E` for struct `S`".to_owned()));
}

#[test]
fn enum_tag_with_struct_implementation_fails() {
    let r = run("impl struct E ```x```\n#[E] enum S { A }", "\n", vec![]);
    assert_eq!(r, Err("Trying to apply non-existing or non-enum trait `E` for enum `S`".to_owned()));
}

#[test]
fn extern_without_implementation_fails() {
    let r = run("extern \"int\" { Nope ```x``` }", "\n", vec![]);
    assert_eq!(r, Err("Trying to apply non-existing trait `Nope` for external type `int`".to_owned()));
}

#[test]
fn struct_fields_loop_pairs_names_and_types() {
    let src = "impl struct Show ```@{for n, t in fields ```@{n}@:@{t}@;```}@```\n#[Show] struct P { a: T1, b: \"t2\" }";
    assert_eq!(run(src, "", vec![]), Ok("a:T1;b:t2;".to_owned()));
}

#[test]
fn variable_loop_splits_on_bars() {
    let src = "inject ```@{for v in list ```[@{v}@]```}@```";
    assert_eq!(run(src, "", vec![var("list", "x|y|z")]), Ok("[x][y][z]".to_owned()));
}

#[test]
fn variable_loop_groups_values_by_variable_count() {
    let src = "inject ```@{for k, v in list ```@{k}@=@{v}@;```}@```";
    assert_eq!(run(src, "", vec![var("list", "a|1|b|2|c")]), Ok("a=1;b=2;".to_owned()));
}

#[test]
fn replace_wraps_every_number() {
    let src = "inject ```id7 and id42```\nreplace \"[0-9]+\" ```(@{_0}@)```";
    assert_eq!(run(src, "", vec![]), Ok("id(7) and id(42)".to_owned()));
}

#[test]
fn replace_binds_numbered_groups() {
    let src = "inject ```ab1 cd2```\nreplace \"([a-z]+)([0-9])\" ```<@{_2}@@{_1}@>```";
    assert_eq!(run(src, "", vec![]), Ok("<1ab> <2cd>".to_owned()));
}

#[test]
fn replace_pattern_double_backslash_is_unescaped() {
    let src = "inject ```a1b2```\nreplace \"\\\\d\" ```#```";
    assert_eq!(run(src, "", vec![]), Ok("a#b#".to_owned()));
}

#[test]
fn replace_rules_apply_in_order() {
    let src = "inject ```ab```\nreplace \"a\" ```b```\nreplace \"b\" ```c```";
    assert_eq!(run(src, "", vec![]), Ok("cc".to_owned()));
}

#[test]
fn replace_template_sees_caller_variables() {
    let src = "inject ```x```\nreplace \"x\" ```@{v}@```";
    assert_eq!(run(src, "", vec![var("v", "y")]), Ok("y".to_owned()));
}

#[test]
fn bad_replace_pattern_fails() {
    let src = "inject ```x```\nreplace \"(\" ```y```";
    assert_eq!(run(src, "", vec![]), Err("Could not parse replacement pattern `(`".to_owned()));
}

#[test]
fn replace_template_error_fails_whole_run() {
    let src = "inject ```x```\nreplace \"x\" ```@{missing}@```";
    assert_eq!(run(src, "", vec![]), Err("Trying to place non-existing variable `missing`".to_owned()));
}

#[test]
fn loop_variable_does_not_leak() {
    let src = "inject ```@{for v in list ```@{v}@```}@@{v}@```";
    assert_eq!(
        run(src, "", vec![var("list", "a|b")]),
        Err("Trying to place non-existing variable `v`".to_owned())
    );
}

#[test]
fn loop_variable_shadows_outer_only_inside() {
    let src = "inject ```@{for v in list ```@{v}@```}@@{v}@```";
    assert_eq!(run(src, "", vec![var("list", "a|b"), var("v", "o")]), Ok("abo".to_owned()));
}

#[test]
fn tag_parameters_stay_in_their_tag() {
    let src = "impl A ```@{x}@```\nimpl B ```@{x}@```\n#[A(x = \"1\"), B] struct S { }";
    assert_eq!(run(src, "", vec![]), Err("Trying to place non-existing variable `x`".to_owned()));
}

#[test]
fn typename_and_parameters_visible_in_tag_body() {
    let src = "impl A ```@{TYPENAME}@:@{x}@:@{y}@```\n#[A(x = \"1\", y)] struct S { }\n#[A(x = \"2\", y = \"3\")] enum E { }";
    assert_eq!(run(src, "|", vec![]), Ok("E:2:3|S:1:|".to_owned()));
}

#[test]
fn caller_variables_not_visible_in_tag_body() {
    let src = "impl A ```@{v}@```\n#[A] struct S { }";
    assert_eq!(run(src, "", vec![var("v", "1")]), Err("Trying to place non-existing variable `v`".to_owned()));
}

#[test]
fn order_is_injects_externs_enums_structs() {
    let src = "#[T] struct S { }\n#[T] enum E { }\nimpl T ```@{TYPENAME}@```\nextern \"X\" { T ```@{TYPENAME}@``` }\ninject ```I```";
    assert_eq!(run(src, ",", vec![]), Ok("I,X,E,S,".to_owned()));
}

#[test]
fn extern_runs_every_implementation_for_every_type() {
    let src = "impl A ```a```\nimpl B ```b```\nextern \"x\", \"y\" { A ```@{TYPENAME}@1``` B ```@{TYPENAME}@2``` }";
    assert_eq!(run(src, ";", vec![]), Ok("x1;x2;y1;y2;".to_owned()));
}

#[test]
fn enum_fields_loop_walks_variants() {
    let src = "impl enum Names ```@{for v in fields ```@{v}@,```}@```\n#[Names] enum E { A, B }";
    assert_eq!(run(src, "", vec![]), Ok("A,B,".to_owned()));
}

#[test]
fn fields_loop_outside_entity_fails() {
    let src = "inject ```@{for v in fields ```x```}@```";
    assert_eq!(run(src, "", vec![]), Err("Trying to iterate over fields of no context".to_owned()));
}

#[test]
fn loop_over_missing_variable_fails() {
    let src = "inject ```@{for v in nope ```x```}@```";
    assert_eq!(run(src, "", vec![]), Err("Trying to iterate over non-existing variable `nope`".to_owned()));
}

#[test]
fn undefined_variable_fails() {
    assert_eq!(
        run("inject ```@{nope}@```", "", vec![]),
        Err("Trying to place non-existing variable `nope`".to_owned())
    );
}

#[test]
fn syntax_error_is_reported() {
    let r = run("struct {", "", vec![]);
    assert!(r.is_err());
    assert!(r.unwrap_err().starts_with("Syntax error at character 7"));
}

#[test]
fn unterminated_code_is_a_syntax_error() {
    let r = run("inject ```abc", "", vec![]);
    assert!(r.unwrap_err().starts_with("Syntax error"));
}

#[test]
fn separator_follows_each_unit() {
    assert_eq!(run("inject ```a```\ninject ```b```", "\n\n", vec![]), Ok("a\n\nb\n\n".to_owned()));
}

#[test]
fn nested_loops_see_outer_bindings() {
    let src = "impl struct S ```@{for n, t in fields ```@{for v in list ```@{n}@@{v}@ ```}@```}@```\n#[S] struct P { a: \"x\", b: \"y\" }";
    assert_eq!(run(src, "", vec![]), Err("Trying to iterate over non-existing variable `list`".to_owned()));
    let src = "inject ```@{for a in outer ```@{for b in inner ```@{a}@@{b}@ ```}@```}@```";
    assert_eq!(
        run(src, "", vec![var("outer", "1|2"), var("inner", "x|y")]),
        Ok("1x 1y 2x 2y ".to_owned())
    );
}

#[test]
fn sibling_tag_on_other_entity_does_not_see_parameters() {
    let src = "impl A ```@{p}@```\n#[A(p = \"1\")] struct S { }\n#[A] struct T { }";
    assert_eq!(run(src, "", vec![]), Err("Trying to place non-existing variable `p`".to_owned()));
}

#[test]
fn implementation_for_all_applies_to_structs_and_enums() {
    let src = "impl T ```@{TYPENAME}@```\n#[T] struct S { }\n#[T] enum E { A }";
    assert_eq!(run(src, " ", vec![]), Ok("E S ".to_owned()));
}

fn nested_loops(depth: usize) -> String {
    let mut body = "x".to_owned();
    for _ in 0..depth {
        body = format!("@{{for v in list ```{}```}}@", body);
    }
    format!("inject ```{}```", body)
}

#[test]
fn loop_nesting_is_limited() {
    assert_eq!(run(&nested_loops(64), "", vec![var("list", "a")]), Ok("x".to_owned()));
    let r = run(&nested_loops(65), "", vec![var("list", "a")]);
    assert!(r.unwrap_err().starts_with("Syntax error"));
}

#[test]
fn declaration_order_within_source_does_not_matter_across_kinds() {
    let a = "inject ```i```\nimpl T ```@{TYPENAME}@```\n#[T] struct S { }\n#[T] enum E { }";
    let b = "#[T] enum E { }\n#[T] struct S { }\ninject ```i```\nimpl T ```@{TYPENAME}@```";
    assert_eq!(run(a, ";", vec![]), run(b, ";", vec![]));
    assert_eq!(run(a, ";", vec![]), Ok("i;E;S;".to_owned()));
}

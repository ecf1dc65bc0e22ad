use zinc::transpile;

#[test]
fn transpile_print_to_println() {
    let input = "print(\"x\")";
    let output = transpile(input);
    assert_eq!(output, "println!(\"{:?}\", r#\"x\"#);");
}

#[test]
fn transpile_spider_get_default_profile() {
    let input = "spider.get(url)";
    let output = transpile(input);
    assert_eq!(output, "zinc_std::spider::get(url, None);");
}

#[test]
fn transpile_spider_get_with_profile() {
    let input = "spider.get(url, profile)";
    let output = transpile(input);
    assert_eq!(output, "zinc_std::spider::get(url, Some(profile));");
}

#[test]
fn transpile_skips_leading_byte_order_mark() {
    let input = "\u{feff}spider.get(url)";
    let output = transpile(input);
    assert_eq!(output, "zinc_std::spider::get(url, None);");
}

#[test]
fn transpile_let_with_concat() {
    let output = transpile("let x = 1 + 2");
    assert_eq!(output, "let x = format!(\"{}{}\", 1, 2);");
}

#[test]
fn transpile_if_else_blocks() {
    let output = transpile("if a == b { print(\"t\") } else { print(\"f\") }");
    assert_eq!(
        output,
        "if (a == b) {\nprintln!(\"{:?}\", r#\"t\"#);} else {\nprintln!(\"{:?}\", r#\"f\"#);}"
    );
}

#[test]
fn transpile_nested_loops_three_levels() {
    let output = transpile("loop { loop { if x > 1 { break } } }");
    assert_eq!(output, "loop {\nloop {\nif (x > 1) {\nbreak;}}}");
}

#[test]
fn transpile_fn_def_splices_body() {
    let output = transpile("fn helper(a, b) { break }");
    assert_eq!(output, "break;");
}

#[test]
fn transpile_array_with_indexing() {
    let output = transpile("let a = [1, 2][0]");
    assert_eq!(output, "let a = vec![1, 2][0 as usize];");
}

#[test]
fn transpile_empty_array() {
    let output = transpile("let a = []");
    assert_eq!(output, "let a = vec![];");
}

#[test]
fn transpile_comparison_chain_left_to_right() {
    let output = transpile("a < b == c");
    assert_eq!(output, "((a < b) == c);");
}

#[test]
fn transpile_concat_then_comparison() {
    let output = transpile("a + b > c");
    assert_eq!(output, "(format!(\"{}{}\", a, b) > c);");
}

#[test]
fn transpile_pipeline_into_call() {
    let piped = transpile("a |> f(b)");
    let direct = transpile("f(a, b)");
    assert_eq!(piped, "f(a, b);");
    assert_eq!(piped, direct);
}

#[test]
fn transpile_pipeline_bare_identifier() {
    let output = transpile("a |> f");
    assert_eq!(output, "f(a);");
}

#[test]
fn transpile_pipeline_into_member_call() {
    let piped = transpile("v |> obj.method(x)");
    let direct = transpile("obj.method(v, x)");
    assert_eq!(piped, "obj.method(v, x);");
    assert_eq!(piped, direct);
}

#[test]
fn transpile_pipeline_into_builtin_member_call() {
    let piped = transpile("u |> db.query(sql)");
    let direct = transpile("db.query(u, sql)");
    assert_eq!(piped, "zinc_std::db::query(u, sql);");
    assert_eq!(piped, direct);
}

#[test]
fn transpile_pipeline_member_with_trailing_suffix() {
    let output = transpile("x |> json.parse()[0]");
    assert_eq!(output, "zinc_std::json::parse(x)[0 as usize];");
}

#[test]
fn transpile_pipeline_into_indexed_identifier() {
    let output = transpile("a |> arr[0]");
    assert_eq!(output, "arr[0 as usize](a);");
}

#[test]
fn transpile_string_literal_roundtrip_content() {
    let output = transpile("print(\"a\\\"b\\\\c\")");
    assert_eq!(output, "println!(\"{:?}\", r#\"a\"b\\c\"#);");
}

#[test]
fn transpile_leak_call() {
    let output = transpile("leak()");
    assert_eq!(output, "zinc_std::leak();");
}

#[test]
fn transpile_member_suffix_on_non_identifier_passes_through() {
    let output = transpile("f(x).push(1)");
    assert_eq!(output, "f(x).push(1);");
}

#[test]
fn transpile_comments_between_statements() {
    let output = transpile("// heading\nbreak // trailing\nbreak");
    assert_eq!(output, "break;break;");
}

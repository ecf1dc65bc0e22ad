use zinc::transpile;
use zinc::transpile_call_with_args;
use zinc::transpile_member_call_with_args;

#[test]
fn rewrite_fs_read_single_argument() {
    assert_eq!(transpile("fs.read(p)"), "zinc_std::fs::read(p);");
}

#[test]
fn rewrite_fs_write_two_arguments() {
    assert_eq!(transpile("fs.write(p, c)"), "zinc_std::fs::write(p, c);");
}

#[test]
fn rewrite_html_select_two_arguments() {
    assert_eq!(
        transpile("html.select(h, s)"),
        "zinc_std::html::select_text(h, s);"
    );
}

#[test]
fn rewrite_json_family() {
    assert_eq!(transpile("json.parse(s)"), "zinc_std::json::parse(s);");
    assert_eq!(transpile("json.get(o, k)"), "zinc_std::json::get(&o, k);");
    assert_eq!(transpile("json.at(o, i)"), "zinc_std::json::at(&o, i);");
    assert_eq!(
        transpile("json.to_string(o)"),
        "zinc_std::json::to_string(o);"
    );
}

#[test]
fn rewrite_spider_get_proxy_three_arguments() {
    assert_eq!(
        transpile("spider.get_proxy(u, p, x)"),
        "zinc_std::spider::get_with_proxy(u, p, x);"
    );
}

#[test]
fn rewrite_py_eval_single_argument() {
    assert_eq!(transpile("py.eval(a)"), "zinc_std::python::eval(a);");
    // A wrong argument count on the recognized pair lowers to empty text.
    assert_eq!(transpile("py.eval(a, b)"), "");
    assert_eq!(transpile("py.eval()"), "");
}

#[test]
fn rewrite_db_query_needs_exactly_two_arguments() {
    assert_eq!(transpile("db.query(u, s)"), "zinc_std::db::query(u, s);");
    // A wrong argument count on a recognized pair lowers to empty text, and
    // the statement around it disappears; the transpile still succeeds.
    assert_eq!(transpile("db.query(u)"), "");
    assert_eq!(transpile("db.query(u, s, t)"), "");
}

#[test]
fn rewrite_unknown_member_passes_through() {
    assert_eq!(transpile("queue.push(1)"), "queue.push(1);");
}

#[test]
fn rewrite_spider_get_needs_one_or_two_arguments() {
    assert_eq!(transpile("spider.get()"), "");
    assert_eq!(transpile("spider.get(u, p, x)"), "");
}

#[test]
fn call_table_direct() {
    assert_eq!(
        transpile_call_with_args("print", &["a".to_string(), "b".to_string()]),
        "println!(\"{:?}\", a, b)"
    );
    assert_eq!(transpile_call_with_args("leak", &[]), "zinc_std::leak()");
    assert_eq!(
        transpile_call_with_args("go", &["1".to_string()]),
        "go(1)"
    );
}

#[test]
fn member_table_direct_arity_mismatch_is_empty() {
    assert_eq!(
        transpile_member_call_with_args("fs", "read", &["a".to_string(), "b".to_string()]),
        ""
    );
    assert_eq!(transpile_member_call_with_args("db", "query", &[]), "");
    assert_eq!(
        transpile_member_call_with_args("db", "query", &["u".to_string(), "s".to_string()]),
        "zinc_std::db::query(u, s)"
    );
}

#[test]
fn empty_argument_is_dropped_from_lists() {
    // The inner recognized call has the wrong arity and lowers to empty
    // text, which is dropped from the surrounding argument list.
    assert_eq!(transpile("print(db.query(u))"), "println!(\"{:?}\", );");
    assert_eq!(transpile("let a = [db.query(u), 1]"), "let a = vec![1];");
}

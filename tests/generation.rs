use snippet_generator::catalog::{
    gen_spacers, grid_next_snippet, matrix_read_snippet, plain_output_snippet,
    scalar_read_snippet, spaced_output_snippet, vector_read_snippet, yes_no_snippet,
};
use snippet_generator::snippet::{Snippet, SnippetError, SnippetManager};
use snippet_generator::types::{basic_types, outer_types};
use std::collections::HashSet;

fn strings(v: &[&str]) -> Vec<String> {
    v.iter().map(|s| s.to_string()).collect()
}

fn prefixes(m: &SnippetManager) -> Vec<String> {
    m.snippets().iter().map(|s| s.prefix().clone()).collect()
}

#[test]
fn type_catalogs() {
    assert_eq!(
        basic_types(),
        strings(&["int", "ll", "ull", "string", "bool", "char", "float", "double"])
    );
    assert_eq!(outer_types(), strings(&["vec", "set"]));
}

#[test]
fn two_type_catalog_gives_eleven_entries() {
    let mut m = SnippetManager::default();
    let types = strings(&["int", "string"]);
    assert_eq!(m.gen_for_types(&types, 1, 1), Ok(()));
    assert_eq!(m.snippets().len(), 11);
    assert_eq!(
        prefixes(&m),
        strings(&[
            "cinint",
            "cinstring",
            "cinvint",
            "cinvstring",
            "cinvvint",
            "cinvvstring",
            "co",
            "cs",
            "yesno",
            "gridvector",
            "gridnext",
        ])
    );
}

#[test]
fn scalar_read_of_three() {
    let s = scalar_read_snippet("ll", 3);
    assert_eq!(s.name(), "cin_ll_3");
    assert_eq!(s.prefix(), "cinll3");
    assert_eq!(s.body(), &strings(&["ll $1, $2, $3;", "cin >> $1 >> $2 >> $3;"]));
}

#[test]
fn vector_read_of_two() {
    let s = vector_read_snippet("int", 2);
    assert_eq!(s.name(), "cin_vec_int_2");
    assert_eq!(s.prefix(), "cinvint2");
    assert_eq!(
        s.body(),
        &strings(&["vector<int> $1($3), $2($3);", "rep(i, $3) cin >> $1[i] >> $2[i];"])
    );
}

#[test]
fn matrix_read_lines() {
    let s = matrix_read_snippet("char");
    assert_eq!(s.name(), "cin_vec_vec_char");
    assert_eq!(s.prefix(), "cinvvchar");
    assert_eq!(
        s.body(),
        &strings(&[
            "vector<vector<char>> $1($2, vector<char>($3));",
            "rep(i, $2) rep(j, $3) cin >> $1[i][j];",
        ])
    );
}

#[test]
fn output_lines() {
    let p = plain_output_snippet(3);
    assert_eq!(p.name(), "cout_3");
    assert_eq!(p.prefix(), "co3");
    assert_eq!(p.body(), &strings(&["cout << $1 << $2 << $3 << \"\\n\";"]));
    let s = spaced_output_snippet(2);
    assert_eq!(s.name(), "cout_2_with_spaces");
    assert_eq!(s.prefix(), "cs2");
    assert_eq!(s.body(), &strings(&["cout << $1 << \" \" << $2 << \"\\n\";"]));
}

#[test]
fn prefix_omits_arity_one() {
    assert_eq!(scalar_read_snippet("ll", 1).prefix(), "cinll");
    assert_eq!(scalar_read_snippet("ll", 12).prefix(), "cinll12");
    assert_eq!(vector_read_snippet("bool", 1).prefix(), "cinvbool");
    assert_eq!(plain_output_snippet(1).prefix(), "co");
    assert_eq!(spaced_output_snippet(1).prefix(), "cs");
}

#[test]
fn spacers_in_order() {
    assert_eq!(gen_spacers(1, 3), strings(&["$1", "$2", "$3"]));
    assert_eq!(gen_spacers(9, 11), strings(&["$9", "$10", "$11"]));
    assert!(gen_spacers(4, 3).is_empty());
}

#[test]
fn entry_appends_cursor_marker() {
    let s = plain_output_snippet(1);
    assert_eq!(
        s.json(),
        r#""cout_1":{"prefix":"co","body":["cout << $1 << \"\\n\";","$0"]}"#
    );
}

#[test]
fn entry_keeps_existing_cursor_marker() {
    let j = grid_next_snippet().json();
    assert!(j.ends_with(r#""  $0","}"]}"#));
    assert_eq!(j.matches("$0").count(), 1);
}

#[test]
fn entry_escapes_quotes_and_backslashes() {
    let s = Snippet::new("a\"b", "p\\q", strings(&["x\ty", "\u{1}"])).unwrap();
    assert_eq!(
        s.json(),
        r#""a\"b":{"prefix":"p\\q","body":["x\ty","\u0001","$0"]}"#
    );
}

#[test]
fn yes_no_entry() {
    assert_eq!(
        yes_no_snippet().json(),
        r#""yesno":{"prefix":"yesno","body":["if ($1) cout << \"${2:Yes}\" << \"\\n\";","else cout << \"${3:No}\" << \"\\n\";","$0"]}"#
    );
}

#[test]
fn empty_body_is_refused() {
    assert!(matches!(
        Snippet::new("n", "p", Vec::new()),
        Err(SnippetError::EmptyBody)
    ));
}

#[test]
fn zero_bound_is_refused() {
    let mut m = SnippetManager::default();
    assert_eq!(m.gen(0, 3), Err(SnippetError::InvalidArgument));
    assert_eq!(m.gen(3, 0), Err(SnippetError::InvalidArgument));
    assert!(m.snippets().is_empty());
    assert_eq!(m.json(), "{}");
}

#[test]
fn full_catalog_names_unique() {
    let mut m = SnippetManager::default();
    assert_eq!(m.gen(20, 20), Ok(()));
    assert_eq!(m.snippets().len(), 8 * 20 * 2 + 8 + 20 * 2 + 3);
    let names: HashSet<&String> = m.snippets().iter().map(|s| s.name()).collect();
    assert_eq!(names.len(), m.snippets().len());
}

#[test]
fn every_body_has_one_cursor_marker() {
    let mut m = SnippetManager::default();
    assert_eq!(m.gen(12, 12), Ok(()));
    for s in m.snippets() {
        let j = s.json();
        assert_eq!(j.matches("$0").count(), 1, "{}", j);
    }
}

#[test]
fn generation_is_deterministic() {
    let mut a = SnippetManager::default();
    let mut b = SnippetManager::default();
    assert_eq!(a.gen(5, 4), Ok(()));
    assert_eq!(b.gen(5, 4), Ok(()));
    assert_eq!(a.json(), b.json());
}

#[test]
fn document_joins_entries() {
    let mut m = SnippetManager::default();
    let types = strings(&["int"]);
    assert_eq!(m.gen_for_types(&types, 1, 1), Ok(()));
    let entries: Vec<String> = m.snippets().iter().map(|s| s.json()).collect();
    assert_eq!(m.json(), format!("{{{}}}", entries.join(",")));
    assert!(m.json().starts_with(r#"{"cin_int_1":{"prefix":"cinint","body":["int $1;","cin >> $1;","$0"]},"#));
}

#[test]
fn single_type_document_text() {
    let mut m = SnippetManager::default();
    let types = strings(&["int"]);
    assert_eq!(m.gen_for_types(&types, 1, 1), Ok(()));
    let expected_start = [
        r#"{"cin_int_1":{"prefix":"cinint","body":["int $1;","cin >> $1;","$0"]},"#,
        r#""cin_vec_int_1":{"prefix":"cinvint","body":["vector<int> $1($2);","rep(i, $2) cin >> $1[i];","$0"]},"#,
        r#""cin_vec_vec_int":{"prefix":"cinvvint","body":["vector<vector<int>> $1($2, vector<int>($3));","rep(i, $2) rep(j, $3) cin >> $1[i][j];","$0"]},"#,
        r#""cout_1":{"prefix":"co","body":["cout << $1 << \"\\n\";","$0"]},"#,
        r#""cout_1_with_spaces":{"prefix":"cs","body":["cout << $1 << \"\\n\";","$0"]},"#,
        r#""yesno":{"prefix":"yesno","body":"#,
    ]
    .concat();
    let doc = m.json();
    assert!(doc.starts_with(&expected_start), "{}", doc);
    assert!(doc.ends_with(r#""  $0","}"]}}"#), "{}", doc);
}

#[test]
fn grid_vector_entry() {
    let mut m = SnippetManager::default();
    assert_eq!(m.gen(1, 1), Ok(()));
    let s = &m.snippets()[m.snippets().len() - 2];
    assert_eq!(
        s.json(),
        r#""grid_vector":{"prefix":"gridvector","body":["const ll dx[4] = {1, 0, -1, 0};","const ll dy[4] = {0, -1, 0, 1};","$0"]}"#
    );
}

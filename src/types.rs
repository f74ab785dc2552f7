use vstd::prelude::*;

verus! {

/// The scalar type names that snippets are generated for, in order.
pub open spec fn basic_type_names() -> Seq<Seq<char>> {
    seq![
        "int"@,
        "ll"@,
        "ull"@,
        "string"@,
        "bool"@,
        "char"@,
        "float"@,
        "double"@,
    ]
}

/// The container type names known to the generator, in order.
pub open spec fn outer_type_names() -> Seq<Seq<char>> {
    seq!["vec"@, "set"@]
}

/// The views of a list of strings.
pub open spec fn views(v: Seq<String>) -> Seq<Seq<char>> {
    v.map_values(|s: String| s@)
}

/// The catalog of scalar types.
pub fn basic_types() -> (r: Vec<String>)
    ensures
        views(r@) == basic_type_names(),
{
    let mut v: Vec<String> = Vec::new();
    v.push("int".to_owned());
    v.push("ll".to_owned());
    v.push("ull".to_owned());
    v.push("string".to_owned());
    v.push("bool".to_owned());
    v.push("char".to_owned());
    v.push("float".to_owned());
    v.push("double".to_owned());
    assert(views(v@) =~= basic_type_names());
    v
}

/// The catalog of container types.
pub fn outer_types() -> (r: Vec<String>)
    ensures
        views(r@) == outer_type_names(),
{
    let mut v: Vec<String> = Vec::new();
    v.push("vec".to_owned());
    v.push("set".to_owned());
    assert(views(v@) =~= outer_type_names());
    v
}

/// `s` is a non-empty word of lower-case ASCII letters.
pub open spec fn is_word(s: Seq<char>) -> bool {
    s.len() > 0 && forall|j: int| 0 <= j < s.len() ==> 'a' <= #[trigger] s[j] <= 'z'
}

/// A catalog of distinct lower-case words.
pub open spec fn is_word_catalog(types: Seq<Seq<char>>) -> bool {
    &&& forall|t: int| 0 <= t < types.len() ==> is_word(#[trigger] types[t])
    &&& forall|a: int, b: int| 0 <= a < b < types.len() ==> types[a] != types[b]
}

/// The scalar types are distinct lower-case words.
pub proof fn lemma_basic_types_words()
    ensures
        is_word_catalog(basic_type_names()),
{
    reveal_strlit("int");
    reveal_strlit("ll");
    reveal_strlit("ull");
    reveal_strlit("string");
    reveal_strlit("bool");
    reveal_strlit("char");
    reveal_strlit("float");
    reveal_strlit("double");
    let b = basic_type_names();
    assert forall|t: int| 0 <= t < b.len() implies is_word(#[trigger] b[t]) by {
        assert(b[0] == "int"@ && b[1] == "ll"@ && b[2] == "ull"@ && b[3] == "string"@);
        assert(b[4] == "bool"@ && b[5] == "char"@ && b[6] == "float"@ && b[7] == "double"@);
    }
    assert forall|x: int, y: int| 0 <= x < y < b.len() implies b[x] != b[y] by {
        if b[x] == b[y] {
            assert(b[x][0] == b[y][0]);
            assert(b[x].len() == b[y].len());
            assert(b[x][b[x].len() - 1] == b[y][b[y].len() - 1]);
        }
    }
}

} // verus!

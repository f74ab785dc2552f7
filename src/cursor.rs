use vstd::prelude::*;

use crate::catalog::{
    catalog_of, grid_next, grid_vector, indexed_vectors, lemma_group_position, matrix_read,
    matrix_reads, plain_output, plain_outputs, scalar_read, scalar_reads, sized_vectors,
    spaced_output, spaced_outputs, spacers, utilities, vector_read, vector_reads, yes_no,
};
use crate::snippet::{completed_body, has_marker};
use crate::text::{
    dollar_free, inert, lemma_dollar_free_inert, lemma_inert_concat, lemma_inert_text,
    lemma_join_inert, lemma_marker_count_concat, lemma_placeholder_inert, marker_count,
    join, placeholder,
};
use crate::types::{basic_type_names, is_word, lemma_basic_types_words};

verus! {

/// How many final-cursor markers the lines of `body` hold together.
pub open spec fn total_markers(body: Seq<Seq<char>>) -> nat
    decreases body.len(),
{
    if body.len() == 0 {
        0
    } else {
        total_markers(body.drop_last()) + marker_count(body.last())
    }
}

proof fn lemma_cursor_line()
    ensures
        marker_count("$0"@) == 1,
{
    reveal_strlit("$0");
    let s = "$0"@;
    assert(s.len() == 2 && s[0] == '$' && s[1] == '0');
    assert(marker_count(s.drop_first()) == 0);
}

proof fn lemma_no_markers(body: Seq<Seq<char>>)
    requires
        forall|k: int| 0 <= k < body.len() ==> inert(#[trigger] body[k]),
    ensures
        total_markers(body) == 0,
    decreases body.len(),
{
    if body.len() > 0 {
        let rest = body.drop_last();
        assert forall|k: int| 0 <= k < rest.len() implies inert(#[trigger] rest[k]) by {
            assert(rest[k] == body[k]);
        }
        lemma_no_markers(rest);
        assert(inert(body[body.len() - 1]));
    }
}

/// A body of inert lines gets the cursor line appended, and then holds
/// exactly one marker, on its last line.
proof fn lemma_inert_body(body: Seq<Seq<char>>)
    requires
        forall|k: int| 0 <= k < body.len() ==> inert(#[trigger] body[k]),
    ensures
        !has_marker(body),
        total_markers(completed_body(body)) == 1,
        completed_body(body).last() == "$0"@,
{
    lemma_no_markers(body);
    lemma_cursor_line();
    assert(body.push("$0"@).drop_last() =~= body);
    if has_marker(body) {
        let k = choose|k: int| 0 <= k < body.len() && marker_count(#[trigger] body[k]) > 0;
        assert(inert(body[k]));
    }
}

proof fn lemma_spacers_inert(i: nat)
    ensures
        forall|k: int| 0 <= k < spacers(1, i).len() ==> inert(#[trigger] spacers(1, i)[k]),
{
    assert forall|k: int| 0 <= k < spacers(1, i).len() implies inert(#[trigger] spacers(1, i)[k]) by {
        lemma_placeholder_inert((1 + k) as nat);
    }
}

proof fn lemma_scalar_read_cursor(ty: Seq<char>, i: nat)
    requires
        dollar_free(ty),
    ensures
        !has_marker(scalar_read(ty, i).body),
        total_markers(completed_body(scalar_read(ty, i).body)) == 1,
{
    reveal_strlit(" ");
    reveal_strlit(", ");
    reveal_strlit(";");
    reveal_strlit("cin >> ");
    reveal_strlit(" >> ");
    lemma_inert_text(" "@);
    lemma_inert_text(", "@);
    lemma_inert_text(";"@);
    lemma_inert_text("cin >> "@);
    lemma_inert_text(" >> "@);
    lemma_dollar_free_inert(ty);
    lemma_spacers_inert(i);
    lemma_join_inert(spacers(1, i), ", "@);
    lemma_join_inert(spacers(1, i), " >> "@);
    let vars = join(spacers(1, i), ", "@);
    lemma_inert_concat(ty, " "@);
    lemma_inert_concat(ty + " "@, vars);
    lemma_inert_concat(ty + " "@ + vars, ";"@);
    let reads = join(spacers(1, i), " >> "@);
    lemma_inert_concat("cin >> "@, reads);
    lemma_inert_concat("cin >> "@ + reads, ";"@);
    lemma_inert_body(scalar_read(ty, i).body);
}

proof fn lemma_vector_read_cursor(ty: Seq<char>, i: nat)
    requires
        dollar_free(ty),
    ensures
        !has_marker(vector_read(ty, i).body),
        total_markers(completed_body(vector_read(ty, i).body)) == 1,
{
    reveal_strlit("vector<");
    reveal_strlit("> ");
    reveal_strlit("(");
    reveal_strlit(")");
    reveal_strlit("[i]");
    reveal_strlit("rep(i, ");
    reveal_strlit(") cin >> ");
    reveal_strlit(", ");
    reveal_strlit(" >> ");
    reveal_strlit(";");
    lemma_inert_text("vector<"@);
    lemma_inert_text("> "@);
    lemma_inert_text("("@);
    lemma_inert_text(")"@);
    lemma_inert_text("[i]"@);
    lemma_inert_text("rep(i, "@);
    lemma_inert_text(") cin >> "@);
    lemma_inert_text(", "@);
    lemma_inert_text(" >> "@);
    lemma_inert_text(";"@);
    lemma_dollar_free_inert(ty);
    lemma_placeholder_inert(i + 1);
    let size = placeholder(i + 1);
    assert forall|k: int| 0 <= k < sized_vectors(i).len() implies inert(
        #[trigger] sized_vectors(i)[k],
    ) by {
        let p = placeholder((k + 1) as nat);
        lemma_placeholder_inert((k + 1) as nat);
        lemma_inert_concat(p, "("@);
        lemma_inert_concat(p + "("@, size);
        lemma_inert_concat(p + "("@ + size, ")"@);
    }
    assert forall|k: int| 0 <= k < indexed_vectors(i).len() implies inert(
        #[trigger] indexed_vectors(i)[k],
    ) by {
        lemma_placeholder_inert((k + 1) as nat);
        lemma_inert_concat(placeholder((k + 1) as nat), "[i]"@);
    }
    lemma_join_inert(sized_vectors(i), ", "@);
    lemma_join_inert(indexed_vectors(i), " >> "@);
    let decls = join(sized_vectors(i), ", "@);
    lemma_inert_concat("vector<"@, ty);
    lemma_inert_concat("vector<"@ + ty, "> "@);
    lemma_inert_concat("vector<"@ + ty + "> "@, decls);
    lemma_inert_concat("vector<"@ + ty + "> "@ + decls, ";"@);
    let reads = join(indexed_vectors(i), " >> "@);
    lemma_inert_concat("rep(i, "@, size);
    lemma_inert_concat("rep(i, "@ + size, ") cin >> "@);
    lemma_inert_concat("rep(i, "@ + size + ") cin >> "@, reads);
    lemma_inert_concat("rep(i, "@ + size + ") cin >> "@ + reads, ";"@);
    lemma_inert_body(vector_read(ty, i).body);
}

proof fn lemma_matrix_read_cursor(ty: Seq<char>)
    requires
        dollar_free(ty),
    ensures
        !has_marker(matrix_read(ty).body),
        total_markers(completed_body(matrix_read(ty).body)) == 1,
{
    reveal_strlit("vector<vector<");
    reveal_strlit(">> $1($2, vector<");
    reveal_strlit(">($3));");
    reveal_strlit("rep(i, $2) rep(j, $3) cin >> $1[i][j];");
    lemma_inert_text("vector<vector<"@);
    lemma_inert_text(">> $1($2, vector<"@);
    lemma_inert_text(">($3));"@);
    lemma_inert_text("rep(i, $2) rep(j, $3) cin >> $1[i][j];"@);
    lemma_dollar_free_inert(ty);
    lemma_inert_concat("vector<vector<"@, ty);
    lemma_inert_concat("vector<vector<"@ + ty, ">> $1($2, vector<"@);
    lemma_inert_concat("vector<vector<"@ + ty + ">> $1($2, vector<"@, ty);
    lemma_inert_concat("vector<vector<"@ + ty + ">> $1($2, vector<"@ + ty, ">($3));"@);
    lemma_inert_body(matrix_read(ty).body);
}

proof fn lemma_output_cursor(i: nat)
    ensures
        !has_marker(plain_output(i).body),
        total_markers(completed_body(plain_output(i).body)) == 1,
        !has_marker(spaced_output(i).body),
        total_markers(completed_body(spaced_output(i).body)) == 1,
{
    reveal_strlit("cout << ");
    reveal_strlit(" << ");
    reveal_strlit(" << \" \" << ");
    reveal_strlit(" << \"\\n\";");
    lemma_inert_text("cout << "@);
    lemma_inert_text(" << "@);
    lemma_inert_text(" << \" \" << "@);
    lemma_inert_text(" << \"\\n\";"@);
    lemma_spacers_inert(i);
    lemma_join_inert(spacers(1, i), " << "@);
    lemma_join_inert(spacers(1, i), " << \" \" << "@);
    let plain = join(spacers(1, i), " << "@);
    let spaced = join(spacers(1, i), " << \" \" << "@);
    lemma_inert_concat("cout << "@, plain);
    lemma_inert_concat("cout << "@ + plain, " << \"\\n\";"@);
    lemma_inert_concat("cout << "@, spaced);
    lemma_inert_concat("cout << "@ + spaced, " << \"\\n\";"@);
    lemma_inert_body(plain_output(i).body);
    lemma_inert_body(spaced_output(i).body);
}

proof fn lemma_utilities_cursor()
    ensures
        forall|k: int|
            0 <= k < utilities().len() ==> total_markers(
                completed_body(#[trigger] utilities()[k].body),
            ) == 1,
        !has_marker(yes_no().body),
        !has_marker(grid_vector().body),
        has_marker(grid_next().body),
        completed_body(yes_no().body).last() == "$0"@,
        completed_body(grid_vector().body).last() == "$0"@,
{
    reveal_strlit("if ($1) cout << \"${2:Yes}\" << \"\\n\";");
    reveal_strlit("else cout << \"${3:No}\" << \"\\n\";");
    reveal_strlit("const ll dx[4] = {1, 0, -1, 0};");
    reveal_strlit("const ll dy[4] = {0, -1, 0, 1};");
    reveal_strlit("rep(${1:x}, ${2:W}) rep(${3:y}, ${4:H}) rep(i, 4) {");
    reveal_strlit("  ll nx = ${1:x} + dx[i], ny = ${2:y} + dy[i];");
    reveal_strlit("");
    reveal_strlit("  if (nx < 0 || nx >= ${3:W} || ny < 0 || ny >= ${4:H}) continue;");
    reveal_strlit("  $0");
    reveal_strlit("}");
    reveal_strlit("  ");
    reveal_strlit("$0");
    lemma_inert_text("if ($1) cout << \"${2:Yes}\" << \"\\n\";"@);
    lemma_inert_text("else cout << \"${3:No}\" << \"\\n\";"@);
    lemma_inert_text("const ll dx[4] = {1, 0, -1, 0};"@);
    lemma_inert_text("const ll dy[4] = {0, -1, 0, 1};"@);
    lemma_inert_text("rep(${1:x}, ${2:W}) rep(${3:y}, ${4:H}) rep(i, 4) {"@);
    lemma_inert_text("  ll nx = ${1:x} + dx[i], ny = ${2:y} + dy[i];"@);
    lemma_inert_text(""@);
    lemma_inert_text("  if (nx < 0 || nx >= ${3:W} || ny < 0 || ny >= ${4:H}) continue;"@);
    lemma_inert_text("}"@);
    lemma_inert_text("  "@);
    lemma_inert_body(yes_no().body);
    lemma_inert_body(grid_vector().body);
    let b = grid_next().body;
    lemma_cursor_line();
    assert("  $0"@ =~= "  "@ + "$0"@);
    lemma_marker_count_concat("  "@, "$0"@);
    assert(marker_count(b[4]) == 1);
    assert(has_marker(b));
    let first4 = b.drop_last().drop_last();
    lemma_no_markers(first4);
    assert(b.drop_last().drop_last() =~= first4);
    assert(total_markers(b.drop_last()) == 1);
    assert(total_markers(b) == 1);
}

/// Every generated snippet, as written out, holds the final-cursor marker
/// exactly once; where the generator had to add it, it is the last line.
/// This holds of every type catalog whose names hold no `$`.
pub proof fn lemma_cursor_marker_once(types: Seq<Seq<char>>, cin: nat, cout: nat, k: int)
    requires
        forall|t: int| 0 <= t < types.len() ==> dollar_free(#[trigger] types[t]),
        0 <= k < catalog_of(types, cin, cout).len(),
    ensures
        total_markers(completed_body(catalog_of(types, cin, cout)[k].body)) == 1,
        !has_marker(catalog_of(types, cin, cout)[k].body) ==> completed_body(
            catalog_of(types, cin, cout)[k].body,
        ).last() == "$0"@,
{
    let c = catalog_of(types, cin, cout);
    let n1 = types.len() * cin;
    let n3 = types.len();
    if k < n1 {
        lemma_group_position(k, types.len(), cin);
        let t = k / (cin as int);
        assert(c[k] == scalar_reads(types, cin)[k]);
        lemma_scalar_read_cursor(types[t], (k % (cin as int) + 1) as nat);
    } else if k < 2 * n1 {
        let j = k - n1;
        lemma_group_position(j, types.len(), cin);
        let t = j / (cin as int);
        assert(c[k] == vector_reads(types, cin)[j]);
        lemma_vector_read_cursor(types[t], (j % (cin as int) + 1) as nat);
    } else if k < 2 * n1 + n3 {
        let j = k - 2 * n1;
        assert(c[k] == matrix_reads(types)[j]);
        lemma_matrix_read_cursor(types[j]);
    } else if k < 2 * n1 + n3 + cout {
        let j = k - 2 * n1 - n3;
        assert(c[k] == plain_outputs(cout)[j]);
        lemma_output_cursor((j + 1) as nat);
    } else if k < 2 * n1 + n3 + 2 * cout {
        let j = k - 2 * n1 - n3 - cout;
        assert(c[k] == spaced_outputs(cout)[j]);
        lemma_output_cursor((j + 1) as nat);
    } else {
        let j = k - 2 * n1 - n3 - 2 * cout;
        assert(c[k] == utilities()[j]);
        lemma_utilities_cursor();
        assert(!has_marker(c[k].body) ==> j < 2);
    }
}

/// Every snippet of a run over the scalar types, as written out, holds the
/// final-cursor marker exactly once; where the generator had to add it, it
/// is the last line.
pub proof fn lemma_basic_cursor_marker_once(cin: nat, cout: nat, k: int)
    requires
        0 <= k < catalog_of(basic_type_names(), cin, cout).len(),
    ensures
        total_markers(completed_body(catalog_of(basic_type_names(), cin, cout)[k].body)) == 1,
        !has_marker(catalog_of(basic_type_names(), cin, cout)[k].body) ==> completed_body(
            catalog_of(basic_type_names(), cin, cout)[k].body,
        ).last() == "$0"@,
{
    let types = basic_type_names();
    lemma_basic_types_words();
    assert forall|t: int| 0 <= t < types.len() implies dollar_free(#[trigger] types[t]) by {
        assert(is_word(types[t]));
        assert forall|j: int| 0 <= j < types[t].len() implies #[trigger] types[t][j] != '$' by {
            assert('a' <= types[t][j] <= 'z');
        }
    }
    lemma_cursor_marker_once(types, cin, cout, k);
}

} // verus!

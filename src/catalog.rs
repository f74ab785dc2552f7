use vstd::prelude::*;

use crate::snippet::{Snippet, SnippetView};
use crate::text::{dec, join, join_strings, placeholder, push_dec, push_placeholder};
use crate::types::views;

verus! {

/// The arity as it ends a trigger: nothing for one, the number otherwise.
pub open spec fn arity_suffix(i: nat) -> Seq<char> {
    if i > 1 {
        dec(i)
    } else {
        Seq::empty()
    }
}

/// The tab stops `$lo`, `$lo+1`, ... up to `$hi`.
pub open spec fn spacers(lo: nat, hi: nat) -> Seq<Seq<char>> {
    Seq::new(if lo <= hi { (hi - lo + 1) as nat } else { 0 }, |k: int| placeholder((lo + k) as nat))
}

/// Reads `i` variables of type `ty` from standard input.
pub open spec fn scalar_read(ty: Seq<char>, i: nat) -> SnippetView {
    SnippetView {
        name: "cin_"@ + ty + "_"@ + dec(i),
        prefix: "cin"@ + ty + arity_suffix(i),
        body: seq![
            ty + " "@ + join(spacers(1, i), ", "@) + ";"@,
            "cin >> "@ + join(spacers(1, i), " >> "@) + ";"@,
        ],
    }
}

/// The declarations `$k($n)` of the vector-read snippet of arity `i`,
/// each sized by the tab stop after the last variable.
pub open spec fn sized_vectors(i: nat) -> Seq<Seq<char>> {
    Seq::new(i, |k: int| placeholder((k + 1) as nat) + "("@ + placeholder(i + 1) + ")"@)
}

/// The elements `$k[i]` read by the vector-read snippet of arity `i`.
pub open spec fn indexed_vectors(i: nat) -> Seq<Seq<char>> {
    Seq::new(i, |k: int| placeholder((k + 1) as nat) + "[i]"@)
}

/// Reads `i` vectors of type `ty`, of one common length, element by element.
pub open spec fn vector_read(ty: Seq<char>, i: nat) -> SnippetView {
    SnippetView {
        name: "cin_vec_"@ + ty + "_"@ + dec(i),
        prefix: "cinv"@ + ty + arity_suffix(i),
        body: seq![
            "vector<"@ + ty + "> "@ + join(sized_vectors(i), ", "@) + ";"@,
            "rep(i, "@ + placeholder(i + 1) + ") cin >> "@ + join(indexed_vectors(i), " >> "@)
                + ";"@,
        ],
    }
}

/// Reads a two-dimensional vector of type `ty`.
pub open spec fn matrix_read(ty: Seq<char>) -> SnippetView {
    SnippetView {
        name: "cin_vec_vec_"@ + ty,
        prefix: "cinvv"@ + ty,
        body: seq![
            "vector<vector<"@ + ty + ">> $1($2, vector<"@ + ty + ">($3));"@,
            "rep(i, $2) rep(j, $3) cin >> $1[i][j];"@,
        ],
    }
}

/// Writes `i` values in one statement, then a newline.
pub open spec fn plain_output(i: nat) -> SnippetView {
    SnippetView {
        name: "cout_"@ + dec(i),
        prefix: "co"@ + arity_suffix(i),
        body: seq!["cout << "@ + join(spacers(1, i), " << "@) + " << \"\\n\";"@],
    }
}

/// Writes `i` values separated by spaces, then a newline.
pub open spec fn spaced_output(i: nat) -> SnippetView {
    SnippetView {
        name: "cout_"@ + dec(i) + "_with_spaces"@,
        prefix: "cs"@ + arity_suffix(i),
        body: seq!["cout << "@ + join(spacers(1, i), " << \" \" << "@) + " << \"\\n\";"@],
    }
}

/// Writes one of two words depending on a condition.
pub open spec fn yes_no() -> SnippetView {
    SnippetView {
        name: "yesno"@,
        prefix: "yesno"@,
        body: seq![
            "if ($1) cout << \"${2:Yes}\" << \"\\n\";"@,
            "else cout << \"${3:No}\" << \"\\n\";"@,
        ],
    }
}

/// Declares the four-direction offset vectors.
pub open spec fn grid_vector() -> SnippetView {
    SnippetView {
        name: "grid_vector"@,
        prefix: "gridvector"@,
        body: seq!["const ll dx[4] = {1, 0, -1, 0};"@, "const ll dy[4] = {0, -1, 0, 1};"@],
    }
}

/// Visits the in-bounds four-direction neighbours of each grid cell.
pub open spec fn grid_next() -> SnippetView {
    SnippetView {
        name: "grid_next"@,
        prefix: "gridnext"@,
        body: seq![
            "rep(${1:x}, ${2:W}) rep(${3:y}, ${4:H}) rep(i, 4) {"@,
            "  ll nx = ${1:x} + dx[i], ny = ${2:y} + dy[i];"@,
            ""@,
            "  if (nx < 0 || nx >= ${3:W} || ny < 0 || ny >= ${4:H}) continue;"@,
            "  $0"@,
            "}"@,
        ],
    }
}

/// The tab stops `$min` to `$max`, in order.
pub fn gen_spacers(min: usize, max: usize) -> (r: Vec<String>)
    requires
        max < usize::MAX,
    ensures
        views(r@) == spacers(min as nat, max as nat),
{
    let mut r: Vec<String> = Vec::new();
    let mut n: usize = min;
    while n <= max
        invariant
            min <= n,
            max < usize::MAX,
            n <= max + 1 || n == min,
            views(r@) =~= Seq::new((n - min) as nat, |k: int| placeholder((min + k) as nat)),
        decreases max + 1 - n,
    {
        let mut s = String::new();
        push_placeholder(&mut s, n);
        let ghost before = r@;
        let ghost sv = s@;
        r.push(s);
        assert(views(r@) =~= views(before).push(sv));
        assert(views(r@) =~= Seq::new((n + 1 - min) as nat, |k: int| placeholder((min + k) as nat)));
        n = n + 1;
    }
    assert(views(r@) =~= spacers(min as nat, max as nat));
    r
}

/// Appends the arity as it ends a trigger.
fn push_suffix(s: &mut String, i: usize)
    ensures
        final(s)@ == old(s)@ + arity_suffix(i as nat),
{
    if i > 1 {
        push_dec(s, i);
    } else {
        assert(old(s)@ + arity_suffix(i as nat) =~= old(s)@);
    }
}

/// The two lines of a body, in order.
fn two_lines(a: String, b: String) -> (r: Vec<String>)
    ensures
        views(r@) == seq![a@, b@],
{
    let mut v: Vec<String> = Vec::new();
    v.push(a);
    v.push(b);
    assert(views(v@) =~= seq![a@, b@]);
    v
}

/// The scalar-read snippet for type `ty` and arity `i`.
pub fn scalar_read_snippet(ty: &str, i: usize) -> (r: Snippet)
    requires
        i < usize::MAX,
    ensures
        r@ == scalar_read(ty@, i as nat),
{
    let mut name = String::new();
    name.append("cin_");
    name.append(ty);
    name.append("_");
    push_dec(&mut name, i);
    let mut prefix = String::new();
    prefix.append("cin");
    prefix.append(ty);
    push_suffix(&mut prefix, i);
    let sp = gen_spacers(1, i);
    let mut decl = String::new();
    decl.append(ty);
    decl.append(" ");
    let vars = join_strings(&sp, ", ");
    decl.append(vars.as_str());
    decl.append(";");
    let mut read = String::new();
    read.append("cin >> ");
    let reads = join_strings(&sp, " >> ");
    read.append(reads.as_str());
    read.append(";");
    let ghost (n, p, d, c) = (name@, prefix@, decl@, read@);
    let r = Snippet::from_parts(name, prefix, two_lines(decl, read));
    let ghost v = scalar_read(ty@, i as nat);
    assert(n =~= v.name);
    assert(p =~= v.prefix);
    assert(d =~= v.body[0]);
    assert(c =~= v.body[1]);
    assert(seq![d, c] =~= v.body);
    r
}

/// The vector-read snippet for type `ty` and arity `i`.
pub fn vector_read_snippet(ty: &str, i: usize) -> (r: Snippet)
    requires
        i < usize::MAX,
    ensures
        r@ == vector_read(ty@, i as nat),
{
    let mut name = String::new();
    name.append("cin_vec_");
    name.append(ty);
    name.append("_");
    push_dec(&mut name, i);
    let mut prefix = String::new();
    prefix.append("cinv");
    prefix.append(ty);
    push_suffix(&mut prefix, i);
    let mut sized: Vec<String> = Vec::new();
    let mut indexed: Vec<String> = Vec::new();
    let mut k: usize = 0;
    while k < i
        invariant
            k <= i < usize::MAX,
            views(sized@) =~= sized_vectors(i as nat).take(k as int),
            views(indexed@) =~= indexed_vectors(i as nat).take(k as int),
        decreases i - k,
    {
        let mut a = String::new();
        push_placeholder(&mut a, k + 1);
        a.append("(");
        push_placeholder(&mut a, i + 1);
        a.append(")");
        let mut b = String::new();
        push_placeholder(&mut b, k + 1);
        b.append("[i]");
        let ghost (s0, i0, av, bv) = (sized@, indexed@, a@, b@);
        sized.push(a);
        indexed.push(b);
        assert(views(sized@) =~= views(s0).push(av));
        assert(views(indexed@) =~= views(i0).push(bv));
        k = k + 1;
    }
    assert(sized_vectors(i as nat).take(i as int) =~= sized_vectors(i as nat));
    assert(indexed_vectors(i as nat).take(i as int) =~= indexed_vectors(i as nat));
    let mut decl = String::new();
    decl.append("vector<");
    decl.append(ty);
    decl.append("> ");
    let decls = join_strings(&sized, ", ");
    decl.append(decls.as_str());
    decl.append(";");
    let mut read = String::new();
    read.append("rep(i, ");
    push_placeholder(&mut read, i + 1);
    read.append(") cin >> ");
    let reads = join_strings(&indexed, " >> ");
    read.append(reads.as_str());
    read.append(";");
    let ghost (n, p, d, c) = (name@, prefix@, decl@, read@);
    let r = Snippet::from_parts(name, prefix, two_lines(decl, read));
    let ghost v = vector_read(ty@, i as nat);
    assert(n =~= v.name);
    assert(p =~= v.prefix);
    assert(d =~= v.body[0]);
    assert(c =~= v.body[1]);
    assert(seq![d, c] =~= v.body);
    r
}

/// The matrix-read snippet for type `ty`.
pub fn matrix_read_snippet(ty: &str) -> (r: Snippet)
    ensures
        r@ == matrix_read(ty@),
{
    let mut name = String::new();
    name.append("cin_vec_vec_");
    name.append(ty);
    let mut prefix = String::new();
    prefix.append("cinvv");
    prefix.append(ty);
    let mut decl = String::new();
    decl.append("vector<vector<");
    decl.append(ty);
    decl.append(">> $1($2, vector<");
    decl.append(ty);
    decl.append(">($3));");
    let read = "rep(i, $2) rep(j, $3) cin >> $1[i][j];".to_owned();
    let ghost (n, p, d, c) = (name@, prefix@, decl@, read@);
    let r = Snippet::from_parts(name, prefix, two_lines(decl, read));
    let ghost v = matrix_read(ty@);
    assert(n =~= v.name);
    assert(p =~= v.prefix);
    assert(d =~= v.body[0]);
    assert(seq![d, c] =~= v.body);
    r
}

/// The output snippet of arity `i`; with `spaced`, the values are
/// separated by a space.
fn output_snippet(i: usize, spaced: bool) -> (r: Snippet)
    requires
        i < usize::MAX,
    ensures
        r@ == if spaced {
            spaced_output(i as nat)
        } else {
            plain_output(i as nat)
        },
{
    let mut name = String::new();
    name.append("cout_");
    push_dec(&mut name, i);
    let mut prefix = String::new();
    if spaced {
        name.append("_with_spaces");
        prefix.append("cs");
    } else {
        prefix.append("co");
    }
    push_suffix(&mut prefix, i);
    let sp = gen_spacers(1, i);
    let mut line = String::new();
    line.append("cout << ");
    let values = if spaced {
        join_strings(&sp, " << \" \" << ")
    } else {
        join_strings(&sp, " << ")
    };
    line.append(values.as_str());
    line.append(" << \"\\n\";");
    let ghost (n, p, d) = (name@, prefix@, line@);
    let mut body: Vec<String> = Vec::new();
    body.push(line);
    assert(views(body@) =~= seq![d]);
    let r = Snippet::from_parts(name, prefix, body);
    let ghost v = if spaced {
        spaced_output(i as nat)
    } else {
        plain_output(i as nat)
    };
    assert(n =~= v.name);
    assert(p =~= v.prefix);
    assert(seq![d] =~= v.body);
    r
}

/// The output snippet of arity `i`.
pub fn plain_output_snippet(i: usize) -> (r: Snippet)
    requires
        i < usize::MAX,
    ensures
        r@ == plain_output(i as nat),
{
    output_snippet(i, false)
}

/// The space-separated output snippet of arity `i`.
pub fn spaced_output_snippet(i: usize) -> (r: Snippet)
    requires
        i < usize::MAX,
    ensures
        r@ == spaced_output(i as nat),
{
    output_snippet(i, true)
}

/// The yes/no output snippet.
pub fn yes_no_snippet() -> (r: Snippet)
    ensures
        r@ == yes_no(),
{
    let r = Snippet::from_parts(
        "yesno".to_owned(),
        "yesno".to_owned(),
        two_lines(
            "if ($1) cout << \"${2:Yes}\" << \"\\n\";".to_owned(),
            "else cout << \"${3:No}\" << \"\\n\";".to_owned(),
        ),
    );
    assert(r@.body =~= yes_no().body);
    r
}

/// The four-direction offset vectors snippet.
pub fn grid_vector_snippet() -> (r: Snippet)
    ensures
        r@ == grid_vector(),
{
    let r = Snippet::from_parts(
        "grid_vector".to_owned(),
        "gridvector".to_owned(),
        two_lines(
            "const ll dx[4] = {1, 0, -1, 0};".to_owned(),
            "const ll dy[4] = {0, -1, 0, 1};".to_owned(),
        ),
    );
    assert(r@.body =~= grid_vector().body);
    r
}

/// The grid neighbour traversal snippet.
pub fn grid_next_snippet() -> (r: Snippet)
    ensures
        r@ == grid_next(),
{
    let mut body: Vec<String> = Vec::new();
    body.push("rep(${1:x}, ${2:W}) rep(${3:y}, ${4:H}) rep(i, 4) {".to_owned());
    body.push("  ll nx = ${1:x} + dx[i], ny = ${2:y} + dy[i];".to_owned());
    body.push("".to_owned());
    body.push("  if (nx < 0 || nx >= ${3:W} || ny < 0 || ny >= ${4:H}) continue;".to_owned());
    body.push("  $0".to_owned());
    body.push("}".to_owned());
    let r = Snippet::from_parts("grid_next".to_owned(), "gridnext".to_owned(), body);
    assert(r@.body =~= grid_next().body);
    r
}

/// The scalar-read snippets: for each type in order, arities `1` to `cin`.
pub open spec fn scalar_reads(types: Seq<Seq<char>>, cin: nat) -> Seq<SnippetView> {
    Seq::new(types.len() * cin, |k: int| scalar_read(types[k / cin as int], (k % cin as int + 1) as nat))
}

/// The vector-read snippets: for each type in order, arities `1` to `cin`.
pub open spec fn vector_reads(types: Seq<Seq<char>>, cin: nat) -> Seq<SnippetView> {
    Seq::new(types.len() * cin, |k: int| vector_read(types[k / cin as int], (k % cin as int + 1) as nat))
}

/// The matrix-read snippets, one per type in order.
pub open spec fn matrix_reads(types: Seq<Seq<char>>) -> Seq<SnippetView> {
    Seq::new(types.len(), |t: int| matrix_read(types[t]))
}

/// The output snippets of arities `1` to `cout`.
pub open spec fn plain_outputs(cout: nat) -> Seq<SnippetView> {
    Seq::new(cout, |k: int| plain_output((k + 1) as nat))
}

/// The space-separated output snippets of arities `1` to `cout`.
pub open spec fn spaced_outputs(cout: nat) -> Seq<SnippetView> {
    Seq::new(cout, |k: int| spaced_output((k + 1) as nat))
}

/// The fixed snippets that take no type and no arity.
pub open spec fn utilities() -> Seq<SnippetView> {
    seq![yes_no(), grid_vector(), grid_next()]
}

/// Every snippet of one generation run over the type catalog `types`, in
/// the order they are written out.
pub open spec fn catalog_of(types: Seq<Seq<char>>, cin: nat, cout: nat) -> Seq<SnippetView> {
    scalar_reads(types, cin) + vector_reads(types, cin) + matrix_reads(types) + plain_outputs(cout)
        + spaced_outputs(cout) + utilities()
}

/// Position `t * cin + i - 1` of a type-by-arity group is type `t`, arity `i`.
pub proof fn lemma_group_index(t: nat, i: nat, cin: nat)
    requires
        1 <= i <= cin,
    ensures
        (t * cin + i - 1) / (cin as int) == t,
        (t * cin + i - 1) % (cin as int) == i - 1,
{
    vstd::arithmetic::div_mod::lemma_fundamental_div_mod_converse(
        t * cin + i - 1,
        cin as int,
        t as int,
        i - 1,
    );
}

/// Position `k` of a type-by-arity group of `types_len` types and `cin`
/// arities is type `k / cin`, arity `k % cin + 1`.
pub proof fn lemma_group_position(k: int, types_len: nat, cin: nat)
    requires
        0 <= k < types_len * cin,
    ensures
        cin > 0,
        0 <= k / (cin as int) < types_len,
        0 <= k % (cin as int) < cin,
        k == (k / (cin as int)) * cin + k % (cin as int),
{
    if cin == 0 {
        assert(types_len * cin == 0) by (nonlinear_arith)
            requires
                cin == 0,
        ;
    }
    vstd::arithmetic::div_mod::lemma_fundamental_div_mod(k, cin as int);
    vstd::arithmetic::div_mod::lemma_mod_bound(k, cin as int);
    let q = k / (cin as int);
    let r = k % (cin as int);
    assert(0 <= q < types_len) by (nonlinear_arith)
        requires
            k == cin * q + r,
            0 <= r < cin,
            0 <= k < types_len * cin,
    ;
    assert(q * cin == cin * q) by (nonlinear_arith);
}

/// The scalar-read snippet of the `t`-th type and arity `i` stands at
/// position `t * cin + i - 1` of the catalog, and its trigger is `cin`
/// and the type's name, followed by the arity unless the arity is one.
pub proof fn lemma_scalar_read_prefix(types: Seq<Seq<char>>, cin: nat, cout: nat, t: nat, i: nat)
    requires
        t < types.len(),
        1 <= i <= cin,
    ensures
        t * cin + i - 1 < catalog_of(types, cin, cout).len(),
        catalog_of(types, cin, cout)[t * cin + i - 1] == scalar_read(types[t as int], i),
        catalog_of(types, cin, cout)[t * cin + i - 1].prefix == if i == 1 {
            "cin"@ + types[t as int]
        } else {
            "cin"@ + types[t as int] + dec(i)
        },
{
    lemma_group_index(t, i, cin);
    assert(t * cin + i - 1 < types.len() * cin) by (nonlinear_arith)
        requires
            t + 1 <= types.len(),
            i <= cin,
    ;
    let k = t * cin + i - 1;
    assert(catalog_of(types, cin, cout)[k] == scalar_reads(types, cin)[k]);
    if i == 1 {
        assert("cin"@ + types[t as int] + arity_suffix(i) =~= "cin"@ + types[t as int]);
    }
}

} // verus!

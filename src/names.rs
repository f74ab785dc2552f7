use vstd::prelude::*;

use crate::catalog::{
    catalog_of, lemma_group_position, matrix_reads, plain_outputs, scalar_reads, spaced_outputs,
    utilities, vector_reads,
};
use crate::text::{dec, lemma_dec_digits, lemma_dec_injective};
use crate::types::{basic_type_names, is_word, is_word_catalog, lemma_basic_types_words};

verus! {

/// How many `_` characters `s` holds.
pub open spec fn underscores(s: Seq<char>) -> nat
    decreases s.len(),
{
    if s.len() == 0 {
        0
    } else {
        underscores(s.drop_last()) + if s.last() == '_' {
            1nat
        } else {
            0nat
        }
    }
}

proof fn lemma_underscores_concat(a: Seq<char>, b: Seq<char>)
    ensures
        underscores(a + b) == underscores(a) + underscores(b),
    decreases b.len(),
{
    if b.len() == 0 {
        assert(a + b =~= a);
    } else {
        assert((a + b).drop_last() =~= a + b.drop_last());
        lemma_underscores_concat(a, b.drop_last());
    }
}

proof fn lemma_underscores_none(s: Seq<char>)
    requires
        forall|j: int| 0 <= j < s.len() ==> #[trigger] s[j] != '_',
    ensures
        underscores(s) == 0,
    decreases s.len(),
{
    if s.len() > 0 {
        lemma_underscores_none(s.drop_last());
    }
}

proof fn lemma_word_underscores(s: Seq<char>)
    requires
        is_word(s),
    ensures
        underscores(s) == 0,
{
    assert forall|j: int| 0 <= j < s.len() implies #[trigger] s[j] != '_' by {
        assert('a' <= s[j] <= 'z');
    }
    lemma_underscores_none(s);
}

proof fn lemma_dec_underscores(n: nat)
    ensures
        underscores(dec(n)) == 0,
{
    lemma_dec_digits(n);
    assert forall|j: int| 0 <= j < dec(n).len() implies #[trigger] dec(n)[j] != '_' by {
        assert('0' <= dec(n)[j] <= '9');
    }
    lemma_underscores_none(dec(n));
}

/// Where `p + a + "_" + x == p + b + "_" + y` and neither `a` nor `b`
/// holds `_`, the parts are equal.
proof fn lemma_split_at_underscore(
    p: Seq<char>,
    a: Seq<char>,
    b: Seq<char>,
    x: Seq<char>,
    y: Seq<char>,
)
    requires
        p + a + "_"@ + x == p + b + "_"@ + y,
        forall|j: int| 0 <= j < a.len() ==> #[trigger] a[j] != '_',
        forall|j: int| 0 <= j < b.len() ==> #[trigger] b[j] != '_',
    ensures
        a == b,
        x == y,
{
    reveal_strlit("_");
    let s = p + a + "_"@ + x;
    let n = p.len() as int;
    if a.len() < b.len() {
        assert(s[n + a.len() as int] == '_');
        assert(s[n + a.len() as int] == b[a.len() as int]);
    } else if b.len() < a.len() {
        assert(s[n + b.len() as int] == '_');
        assert(s[n + b.len() as int] == a[b.len() as int]);
    }
    assert(a =~= s.subrange(n, n + a.len() as int));
    assert(b =~= s.subrange(n, n + b.len() as int));
    assert(x =~= s.subrange(n + a.len() as int + 1, s.len() as int));
    assert(y =~= s.subrange(n + b.len() as int + 1, s.len() as int));
}

proof fn lemma_literal_underscores()
    ensures
        underscores("_"@) == 1,
        underscores("cin_"@) == 1,
        underscores("cin_vec_"@) == 2,
        underscores("cin_vec_vec_"@) == 3,
        underscores("cout_"@) == 1,
        underscores("_with_spaces"@) == 2,
        underscores("yesno"@) == 0,
        underscores("grid_vector"@) == 1,
        underscores("grid_next"@) == 1,
{
    reveal_with_fuel(underscores, 13);
    reveal_strlit("_");
    reveal_strlit("cin_");
    reveal_strlit("cin_vec_");
    reveal_strlit("cin_vec_vec_");
    reveal_strlit("cout_");
    reveal_strlit("_with_spaces");
    reveal_strlit("yesno");
    reveal_strlit("grid_vector");
    reveal_strlit("grid_next");
}

/// Which group of the catalog position `k` falls in: scalar reads (0),
/// vector reads (1), matrix reads (2), outputs (3), space-separated
/// outputs (4), and each fixed snippet on its own (5 to 7).
spec fn group_of(types_len: nat, cin: nat, cout: nat, k: int) -> int {
    let n1 = types_len * cin;
    if k < n1 {
        0
    } else if k < 2 * n1 {
        1
    } else if k < 2 * n1 + types_len {
        2
    } else if k < 2 * n1 + types_len + cout {
        3
    } else if k < 2 * n1 + types_len + 2 * cout {
        4
    } else {
        5 + (k - (2 * n1 + types_len + 2 * cout))
    }
}

/// What tells the groups' names apart: how many `_` they hold, and a few
/// of their characters.
proof fn lemma_name_features(types: Seq<Seq<char>>, cin: nat, cout: nat, k: int)
    requires
        is_word_catalog(types),
        0 <= k < catalog_of(types, cin, cout).len(),
    ensures
        ({
            let name = catalog_of(types, cin, cout)[k].name;
            let g = group_of(types.len(), cin, cout, k);
            &&& 0 <= g <= 7
            &&& name.len() >= 2
            &&& g == 0 ==> underscores(name) == 2
            &&& g == 1 ==> underscores(name) == 3 && name[1] == 'i' && '0' <= name.last() <= '9'
            &&& g == 2 ==> underscores(name) == 3 && name[1] == 'i' && 'a' <= name.last() <= 'z'
            &&& g == 3 ==> underscores(name) == 1 && name[0] == 'c'
            &&& g == 4 ==> underscores(name) == 3 && name[1] == 'o'
            &&& g == 5 ==> underscores(name) == 0
            &&& g == 6 ==> underscores(name) == 1 && name[0] == 'g' && name.len() == 11
            &&& g == 7 ==> underscores(name) == 1 && name[0] == 'g' && name.len() == 9
        }),
{
    let c = catalog_of(types, cin, cout);
    let n1 = types.len() * cin;
    let n3 = types.len();
    lemma_literal_underscores();
    reveal_strlit("cin_");
    reveal_strlit("cin_vec_");
    reveal_strlit("cin_vec_vec_");
    reveal_strlit("cout_");
    reveal_strlit("grid_vector");
    reveal_strlit("grid_next");
    reveal_strlit("yesno");
    if k < n1 {
        lemma_group_position(k, types.len(), cin);
        let ty = types[k / (cin as int)];
        let d = dec((k % (cin as int) + 1) as nat);
        assert(c[k] == scalar_reads(types, cin)[k]);
        assert(is_word(ty));
        lemma_word_underscores(ty);
        lemma_dec_underscores((k % (cin as int) + 1) as nat);
        lemma_underscores_concat("cin_"@, ty);
        lemma_underscores_concat("cin_"@ + ty, "_"@);
        lemma_underscores_concat("cin_"@ + ty + "_"@, d);
    } else if k < 2 * n1 {
        let j = k - n1;
        lemma_group_position(j, types.len(), cin);
        let i = (j % (cin as int) + 1) as nat;
        let ty = types[j / (cin as int)];
        assert(c[k] == vector_reads(types, cin)[j]);
        assert(is_word(ty));
        lemma_word_underscores(ty);
        lemma_dec_underscores(i);
        lemma_dec_digits(i);
        lemma_underscores_concat("cin_vec_"@, ty);
        lemma_underscores_concat("cin_vec_"@ + ty, "_"@);
        lemma_underscores_concat("cin_vec_"@ + ty + "_"@, dec(i));
        let name = c[k].name;
        assert(name.last() == dec(i)[dec(i).len() - 1]);
    } else if k < 2 * n1 + n3 {
        let j = k - 2 * n1;
        let ty = types[j];
        assert(c[k] == matrix_reads(types)[j]);
        assert(is_word(ty));
        lemma_word_underscores(ty);
        lemma_underscores_concat("cin_vec_vec_"@, ty);
        let name = c[k].name;
        assert(name.last() == ty[ty.len() - 1]);
    } else if k < 2 * n1 + n3 + cout {
        let j = k - 2 * n1 - n3;
        assert(c[k] == plain_outputs(cout)[j]);
        lemma_dec_underscores((j + 1) as nat);
        lemma_underscores_concat("cout_"@, dec((j + 1) as nat));
    } else if k < 2 * n1 + n3 + 2 * cout {
        let j = k - 2 * n1 - n3 - cout;
        let d = dec((j + 1) as nat);
        assert(c[k] == spaced_outputs(cout)[j]);
        lemma_dec_underscores((j + 1) as nat);
        lemma_underscores_concat("cout_"@, d);
        lemma_underscores_concat("cout_"@ + d, "_with_spaces"@);
    } else {
        let j = k - 2 * n1 - n3 - 2 * cout;
        assert(c[k] == utilities()[j]);
    }
}

proof fn lemma_word_no_underscore(s: Seq<char>)
    requires
        is_word(s),
    ensures
        forall|j: int| 0 <= j < s.len() ==> #[trigger] s[j] != '_',
{
    assert forall|j: int| 0 <= j < s.len() implies #[trigger] s[j] != '_' by {
        assert('a' <= s[j] <= 'z');
    }
}

proof fn lemma_dec_no_underscore(n: nat)
    ensures
        forall|j: int| 0 <= j < dec(n).len() ==> #[trigger] dec(n)[j] != '_',
{
    lemma_dec_digits(n);
    assert forall|j: int| 0 <= j < dec(n).len() implies #[trigger] dec(n)[j] != '_' by {
        assert('0' <= dec(n)[j] <= '9');
    }
}

/// Two positions of a type-by-arity group with the same type and the same
/// arity are the same position.
proof fn lemma_same_cell(types: Seq<Seq<char>>, cin: nat, p: int, q: int)
    requires
        is_word_catalog(types),
        0 <= p < types.len() * cin,
        0 <= q < types.len() * cin,
        types[p / (cin as int)] == types[q / (cin as int)],
        p % (cin as int) == q % (cin as int),
    ensures
        p == q,
{
    lemma_group_position(p, types.len(), cin);
    lemma_group_position(q, types.len(), cin);
    let a = p / (cin as int);
    let b = q / (cin as int);
    if a < b {
        assert(types[a] != types[b]);
    } else if b < a {
        assert(types[b] != types[a]);
    }
}

/// In one generation run over a catalog of distinct lower-case words, no
/// two snippets share a name.
pub proof fn lemma_names_unique(types: Seq<Seq<char>>, cin: nat, cout: nat, p: int, q: int)
    requires
        is_word_catalog(types),
        0 <= p < q < catalog_of(types, cin, cout).len(),
    ensures
        catalog_of(types, cin, cout)[p].name != catalog_of(types, cin, cout)[q].name,
{
    let c = catalog_of(types, cin, cout);
    lemma_name_features(types, cin, cout, p);
    lemma_name_features(types, cin, cout, q);
    let n1 = types.len() * cin;
    let n3 = types.len();
    if c[p].name == c[q].name && group_of(types.len(), cin, cout, p) == group_of(
        types.len(),
        cin,
        cout,
        q,
    ) {
        if p < n1 {
            lemma_group_position(p, types.len(), cin);
            lemma_group_position(q, types.len(), cin);
            let (tp, tq) = (types[p / (cin as int)], types[q / (cin as int)]);
            let (ip, iq) = ((p % (cin as int) + 1) as nat, (q % (cin as int) + 1) as nat);
            assert(c[p] == scalar_reads(types, cin)[p]);
            assert(c[q] == scalar_reads(types, cin)[q]);
            assert(c[p].name == "cin_"@ + tp + "_"@ + dec(ip));
            assert(is_word(tp) && is_word(tq));
            lemma_word_no_underscore(tp);
            lemma_word_no_underscore(tq);
            lemma_split_at_underscore("cin_"@, tp, tq, dec(ip), dec(iq));
            lemma_dec_injective(ip, iq);
            lemma_same_cell(types, cin, p, q);
        } else if p < 2 * n1 {
            let (jp, jq) = (p - n1, q - n1);
            lemma_group_position(jp, types.len(), cin);
            lemma_group_position(jq, types.len(), cin);
            let (tp, tq) = (types[jp / (cin as int)], types[jq / (cin as int)]);
            let (ip, iq) = ((jp % (cin as int) + 1) as nat, (jq % (cin as int) + 1) as nat);
            assert(c[p] == vector_reads(types, cin)[jp]);
            assert(c[q] == vector_reads(types, cin)[jq]);
            assert(is_word(tp) && is_word(tq));
            lemma_word_no_underscore(tp);
            lemma_word_no_underscore(tq);
            lemma_split_at_underscore("cin_vec_"@, tp, tq, dec(ip), dec(iq));
            lemma_dec_injective(ip, iq);
            lemma_same_cell(types, cin, jp, jq);
        } else if p < 2 * n1 + n3 {
            let (jp, jq) = (p - 2 * n1, q - 2 * n1);
            assert(c[p] == matrix_reads(types)[jp]);
            assert(c[q] == matrix_reads(types)[jq]);
            let pre = "cin_vec_vec_"@;
            assert(types[jp] =~= c[p].name.subrange(pre.len() as int, c[p].name.len() as int));
            assert(types[jq] =~= c[q].name.subrange(pre.len() as int, c[q].name.len() as int));
        } else if p < 2 * n1 + n3 + cout {
            let (jp, jq) = (p - 2 * n1 - n3, q - 2 * n1 - n3);
            assert(c[p] == plain_outputs(cout)[jp]);
            assert(c[q] == plain_outputs(cout)[jq]);
            let pre = "cout_"@;
            let (dp, dq) = (dec((jp + 1) as nat), dec((jq + 1) as nat));
            assert(dp =~= c[p].name.subrange(pre.len() as int, c[p].name.len() as int));
            assert(dq =~= c[q].name.subrange(pre.len() as int, c[q].name.len() as int));
            lemma_dec_injective((jp + 1) as nat, (jq + 1) as nat);
        } else if p < 2 * n1 + n3 + 2 * cout {
            let (jp, jq) = (p - 2 * n1 - n3 - cout, q - 2 * n1 - n3 - cout);
            assert(c[p] == spaced_outputs(cout)[jp]);
            assert(c[q] == spaced_outputs(cout)[jq]);
            let (dp, dq) = (dec((jp + 1) as nat), dec((jq + 1) as nat));
            reveal_strlit("_with_spaces");
            reveal_strlit("_");
            reveal_strlit("with_spaces");
            assert("_with_spaces"@ =~= "_"@ + "with_spaces"@);
            assert(c[p].name =~= "cout_"@ + dp + "_"@ + "with_spaces"@);
            assert(c[q].name =~= "cout_"@ + dq + "_"@ + "with_spaces"@);
            lemma_dec_no_underscore((jp + 1) as nat);
            lemma_dec_no_underscore((jq + 1) as nat);
            lemma_split_at_underscore("cout_"@, dp, dq, "with_spaces"@, "with_spaces"@);
            lemma_dec_injective((jp + 1) as nat, (jq + 1) as nat);
        }
    }
}

/// In one generation run over the scalar types, no two snippets share a
/// name.
pub proof fn lemma_basic_names_unique(cin: nat, cout: nat, p: int, q: int)
    requires
        0 <= p < q < catalog_of(basic_type_names(), cin, cout).len(),
    ensures
        catalog_of(basic_type_names(), cin, cout)[p].name != catalog_of(
            basic_type_names(),
            cin,
            cout,
        )[q].name,
{
    lemma_basic_types_words();
    lemma_names_unique(basic_type_names(), cin, cout, p, q);
}

} // verus!

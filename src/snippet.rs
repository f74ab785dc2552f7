use vstd::prelude::*;

use crate::catalog::{
    catalog_of, grid_next_snippet, grid_vector_snippet, lemma_group_index, matrix_read,
    matrix_read_snippet, matrix_reads, plain_output, plain_output_snippet, plain_outputs,
    scalar_read, scalar_read_snippet, scalar_reads, spaced_output, spaced_output_snippet,
    spaced_outputs, utilities, vector_read, vector_read_snippet, vector_reads, yes_no_snippet,
};
use crate::text::{contains_marker, join, marker_count, push_quoted, quote};
use crate::types::{basic_type_names, basic_types, views};

verus! {

/// What a snippet is, as values: its name, its trigger and its body lines.
pub struct SnippetView {
    pub name: Seq<char>,
    pub prefix: Seq<char>,
    pub body: Seq<Seq<char>>,
}

/// The ways generation can fail.
#[derive(Debug, PartialEq, Eq, Structural, Clone, Copy)]
pub enum SnippetError {
    /// An arity bound is zero.
    InvalidArgument,
    /// A snippet was given no body lines.
    EmptyBody,
}

/// One editor snippet: a name, the trigger typed to invoke it, and body
/// lines with `$n` tab stops.
pub struct Snippet {
    name: String,
    prefix: String,
    body: Vec<String>,
}

impl View for Snippet {
    type V = SnippetView;

    closed spec fn view(&self) -> SnippetView {
        SnippetView { name: self.name@, prefix: self.prefix@, body: views(self.body@) }
    }
}

/// Whether some line of `body` holds the final-cursor marker.
pub open spec fn has_marker(body: Seq<Seq<char>>) -> bool {
    exists|k: int| 0 <= k < body.len() && marker_count(#[trigger] body[k]) > 0
}

/// The body as written out: a line `$0` is appended where no line holds
/// the final-cursor marker.
pub open spec fn completed_body(body: Seq<Seq<char>>) -> Seq<Seq<char>> {
    if has_marker(body) {
        body
    } else {
        body.push("$0"@)
    }
}

/// The body lines as JSON string literals.
pub open spec fn quoted_lines(body: Seq<Seq<char>>) -> Seq<Seq<char>> {
    body.map_values(|l: Seq<char>| quote(l))
}

/// One member of the document: `"name":{"prefix":"..","body":[..]}`.
pub open spec fn entry_json(v: SnippetView) -> Seq<char> {
    quote(v.name) + ":{\"prefix\":"@ + quote(v.prefix) + ",\"body\":["@ + join(
        quoted_lines(completed_body(v.body)),
        ","@,
    ) + "]}"@
}

/// The whole document: a JSON object with one member per snippet, in order.
pub open spec fn document(snippets: Seq<SnippetView>) -> Seq<char> {
    "{"@ + join(snippets.map_values(|v: SnippetView| entry_json(v)), ","@) + "}"@
}

proof fn lemma_join_push(parts: Seq<Seq<char>>, sep: Seq<char>, x: Seq<char>)
    ensures
        join(parts.push(x), sep) == if parts.len() == 0 {
            x
        } else {
            join(parts, sep) + sep + x
        },
{
    assert(parts.push(x).drop_last() =~= parts);
    if parts.len() == 0 {
        assert(parts.push(x) =~= seq![x]);
    }
}

impl Snippet {
    /// A snippet with the given name, trigger and body; fails with
    /// `EmptyBody` when `body` has no line.
    pub fn new(name: &str, prefix: &str, body: Vec<String>) -> (r: Result<Snippet, SnippetError>)
        ensures
            body@.len() == 0 <==> r is Err,
            r is Err ==> r == Err::<Snippet, SnippetError>(SnippetError::EmptyBody),
            r is Ok ==> r->Ok_0@ == (SnippetView {
                name: name@,
                prefix: prefix@,
                body: views(body@),
            }),
    {
        if body.len() == 0 {
            return Err(SnippetError::EmptyBody);
        }
        Ok(Snippet { name: name.to_owned(), prefix: prefix.to_owned(), body })
    }

    /// A snippet made of owned parts.
    pub(crate) fn from_parts(name: String, prefix: String, body: Vec<String>) -> (r: Snippet)
        ensures
            r@ == (SnippetView { name: name@, prefix: prefix@, body: views(body@) }),
    {
        Snippet { name, prefix, body }
    }

    /// The name, the key of this snippet in the document.
    pub fn name(&self) -> (r: &String)
        ensures
            r@ == self@.name,
    {
        &self.name
    }

    /// The trigger typed to invoke this snippet.
    pub fn prefix(&self) -> (r: &String)
        ensures
            r@ == self@.prefix,
    {
        &self.prefix
    }

    /// The body lines as given, without the appended cursor line.
    pub fn body(&self) -> (r: &Vec<String>)
        ensures
            views(r@) == self@.body,
    {
        &self.body
    }

    /// Whether some body line holds the final-cursor marker.
    fn body_has_marker(&self) -> (r: bool)
        ensures
            r == has_marker(self@.body),
    {
        let ghost b = self@.body;
        let mut k: usize = 0;
        while k < self.body.len()
            invariant
                k <= self.body@.len(),
                b == views(self.body@),
                forall|m: int| 0 <= m < k ==> marker_count(#[trigger] b[m]) == 0,
            decreases self.body@.len() - k,
        {
            if contains_marker(self.body[k].as_str()) {
                assert(marker_count(b[k as int]) > 0);
                return true;
            }
            k = k + 1;
        }
        false
    }

    /// This snippet as one member of the JSON document.
    pub fn json(&self) -> (r: String)
        ensures
            r@ == entry_json(self@),
    {
        let ghost b = self@.body;
        let ghost q = quoted_lines(b);
        let mut out = String::new();
        push_quoted(&mut out, self.name.as_str());
        out.append(":{\"prefix\":");
        push_quoted(&mut out, self.prefix.as_str());
        out.append(",\"body\":[");
        let ghost base = out@;
        let mut k: usize = 0;
        while k < self.body.len()
            invariant
                k <= self.body@.len(),
                b == views(self.body@),
                q == quoted_lines(b),
                out@ == base + join(q.take(k as int), ","@),
            decreases self.body@.len() - k,
        {
            if k > 0 {
                out.append(",");
            }
            push_quoted(&mut out, self.body[k].as_str());
            proof {
                lemma_join_push(q.take(k as int), ","@, q[k as int]);
                assert(q.take(k + 1) =~= q.take(k as int).push(q[k as int]));
            }
            k = k + 1;
        }
        assert(q.take(k as int) =~= q);
        let marked = self.body_has_marker();
        if !marked {
            if k > 0 {
                out.append(",");
            }
            push_quoted(&mut out, "$0");
            proof {
                lemma_join_push(q, ","@, quote("$0"@));
                assert(quoted_lines(b.push("$0"@)) =~= q.push(quote("$0"@)));
            }
        }
        out.append("]}");
        assert(out@ =~= entry_json(self@));
        out
    }
}

/// The ordered collection of snippets of one generation run.
pub struct SnippetManager {
    snippets: Vec<Snippet>,
}

impl View for SnippetManager {
    type V = Seq<SnippetView>;

    closed spec fn view(&self) -> Seq<SnippetView> {
        self.snippets@.map_values(|s: Snippet| s@)
    }
}

impl Default for SnippetManager {
    fn default() -> (r: SnippetManager)
        ensures
            r@ == Seq::<SnippetView>::empty(),
    {
        let r = SnippetManager { snippets: Vec::new() };
        assert(r@ =~= Seq::<SnippetView>::empty());
        r
    }
}

impl SnippetManager {
    /// The snippets, in the order they are written out.
    pub fn snippets(&self) -> (r: &Vec<Snippet>)
        ensures
            r@.map_values(|s: Snippet| s@) == self@,
    {
        &self.snippets
    }

    /// Appends one snippet.
    fn push(&mut self, s: Snippet)
        ensures
            final(self)@ == old(self)@.push(s@),
    {
        self.snippets.push(s);
        assert(self@ =~= old(self)@.push(s@));
    }

    /// Appends every snippet over the type catalog `types`: reads of
    /// arities `1` to `cin_max_len`, writes of arities `1` to
    /// `cout_max_len`, and the fixed utilities. Fails with
    /// `InvalidArgument`, changing nothing, when a bound is zero.
    pub fn gen_for_types(&mut self, types: &Vec<String>, cin_max_len: usize, cout_max_len: usize) -> (r:
        Result<(), SnippetError>)
        requires
            cin_max_len < usize::MAX,
            cout_max_len < usize::MAX,
        ensures
            r is Err <==> (cin_max_len == 0 || cout_max_len == 0),
            r is Err ==> r == Err::<(), SnippetError>(SnippetError::InvalidArgument) && final(self)@
                == old(self)@,
            r is Ok ==> final(self)@ == old(self)@ + catalog_of(
                views(types@),
                cin_max_len as nat,
                cout_max_len as nat,
            ),
    {
        if cin_max_len == 0 || cout_max_len == 0 {
            return Err(SnippetError::InvalidArgument);
        }
        let ghost tys = views(types@);
        let ghost cin = cin_max_len as nat;
        let ghost cout = cout_max_len as nat;
        let ghost start = self@;
        let mut t: usize = 0;
        while t < types.len()
            invariant
                tys == views(types@),
                cin == cin_max_len,
                1 <= cin_max_len < usize::MAX,
                t <= types@.len(),
                self@ == start + scalar_reads(tys, cin).take(t * cin),
            decreases types@.len() - t,
        {
            let mut i: usize = 1;
            while i <= cin_max_len
                invariant
                    tys == views(types@),
                    cin == cin_max_len,
                    1 <= cin_max_len < usize::MAX,
                    t < types@.len(),
                    1 <= i <= cin_max_len + 1,
                    self@ == start + scalar_reads(tys, cin).take(t * cin + i - 1),
                decreases cin_max_len + 1 - i,
            {
                let s = scalar_read_snippet(types[t].as_str(), i);
                self.push(s);
                proof {
                    lemma_group_index(t as nat, i as nat, cin);
                    assert(t * cin + i - 1 < tys.len() * cin) by (nonlinear_arith)
                        requires
                            t + 1 <= tys.len(),
                            i <= cin,
                    ;
                    assert(scalar_reads(tys, cin).take(t * cin + i) =~= scalar_reads(tys, cin).take(
                        t * cin + i - 1,
                    ).push(scalar_read(tys[t as int], i as nat)));
                }
                i = i + 1;
            }
            assert(t * cin + cin == (t + 1) * cin) by (nonlinear_arith);
            t = t + 1;
        }
        assert(t * cin == tys.len() * cin);
        assert(scalar_reads(tys, cin).take(t * cin) =~= scalar_reads(tys, cin));
        let ghost start = self@;
        let mut t: usize = 0;
        while t < types.len()
            invariant
                tys == views(types@),
                cin == cin_max_len,
                1 <= cin_max_len < usize::MAX,
                t <= types@.len(),
                self@ == start + vector_reads(tys, cin).take(t * cin),
            decreases types@.len() - t,
        {
            let mut i: usize = 1;
            while i <= cin_max_len
                invariant
                    tys == views(types@),
                    cin == cin_max_len,
                    1 <= cin_max_len < usize::MAX,
                    t < types@.len(),
                    1 <= i <= cin_max_len + 1,
                    self@ == start + vector_reads(tys, cin).take(t * cin + i - 1),
                decreases cin_max_len + 1 - i,
            {
                let s = vector_read_snippet(types[t].as_str(), i);
                self.push(s);
                proof {
                    lemma_group_index(t as nat, i as nat, cin);
                    assert(t * cin + i - 1 < tys.len() * cin) by (nonlinear_arith)
                        requires
                            t + 1 <= tys.len(),
                            i <= cin,
                    ;
                    assert(vector_reads(tys, cin).take(t * cin + i) =~= vector_reads(tys, cin).take(
                        t * cin + i - 1,
                    ).push(vector_read(tys[t as int], i as nat)));
                }
                i = i + 1;
            }
            assert(t * cin + cin == (t + 1) * cin) by (nonlinear_arith);
            t = t + 1;
        }
        assert(vector_reads(tys, cin).take(t * cin) =~= vector_reads(tys, cin));
        let ghost start = self@;
        let mut t: usize = 0;
        while t < types.len()
            invariant
                tys == views(types@),
                t <= types@.len(),
                self@ == start + matrix_reads(tys).take(t as int),
            decreases types@.len() - t,
        {
            self.push(matrix_read_snippet(types[t].as_str()));
            assert(matrix_reads(tys).take(t + 1) =~= matrix_reads(tys).take(t as int).push(
                matrix_read(tys[t as int]),
            ));
            t = t + 1;
        }
        assert(matrix_reads(tys).take(t as int) =~= matrix_reads(tys));
        let ghost start = self@;
        let mut i: usize = 1;
        while i <= cout_max_len
            invariant
                cout == cout_max_len,
                1 <= cout_max_len < usize::MAX,
                1 <= i <= cout_max_len + 1,
                self@ == start + plain_outputs(cout).take(i - 1),
            decreases cout_max_len + 1 - i,
        {
            self.push(plain_output_snippet(i));
            assert(plain_outputs(cout).take(i as int) =~= plain_outputs(cout).take(i - 1).push(
                plain_output(i as nat),
            ));
            i = i + 1;
        }
        assert(plain_outputs(cout).take(cout as int) =~= plain_outputs(cout));
        let ghost start = self@;
        let mut i: usize = 1;
        while i <= cout_max_len
            invariant
                cout == cout_max_len,
                1 <= cout_max_len < usize::MAX,
                1 <= i <= cout_max_len + 1,
                self@ == start + spaced_outputs(cout).take(i - 1),
            decreases cout_max_len + 1 - i,
        {
            self.push(spaced_output_snippet(i));
            assert(spaced_outputs(cout).take(i as int) =~= spaced_outputs(cout).take(i - 1).push(
                spaced_output(i as nat),
            ));
            i = i + 1;
        }
        assert(spaced_outputs(cout).take(cout as int) =~= spaced_outputs(cout));
        self.push(yes_no_snippet());
        self.push(grid_vector_snippet());
        self.push(grid_next_snippet());
        assert(self@ =~= old(self)@ + catalog_of(tys, cin, cout));
        Ok(())
    }

    /// Appends every snippet over the catalog of scalar types; see
    /// `gen_for_types`.
    pub fn gen(&mut self, cin_max_len: usize, cout_max_len: usize) -> (r: Result<(), SnippetError>)
        requires
            cin_max_len < usize::MAX,
            cout_max_len < usize::MAX,
        ensures
            r is Err <==> (cin_max_len == 0 || cout_max_len == 0),
            r is Err ==> r == Err::<(), SnippetError>(SnippetError::InvalidArgument) && final(self)@
                == old(self)@,
            r is Ok ==> final(self)@ == old(self)@ + catalog_of(
                basic_type_names(),
                cin_max_len as nat,
                cout_max_len as nat,
            ),
    {
        let types = basic_types();
        self.gen_for_types(&types, cin_max_len, cout_max_len)
    }

    /// The JSON document of all snippets, in order.
    pub fn json(&self) -> (r: String)
        ensures
            r@ == document(self@),
    {
        let ghost e = self@.map_values(|v: SnippetView| entry_json(v));
        let mut out = String::new();
        out.append("{");
        let ghost base = out@;
        let mut k: usize = 0;
        while k < self.snippets.len()
            invariant
                k <= self.snippets@.len(),
                e == self@.map_values(|v: SnippetView| entry_json(v)),
                out@ == base + join(e.take(k as int), ","@),
            decreases self.snippets@.len() - k,
        {
            if k > 0 {
                out.append(",");
            }
            let j = self.snippets[k].json();
            out.append(j.as_str());
            proof {
                lemma_join_push(e.take(k as int), ","@, e[k as int]);
                assert(e.take(k + 1) =~= e.take(k as int).push(e[k as int]));
            }
            k = k + 1;
        }
        assert(e.take(k as int) =~= e);
        out.append("}");
        assert(out@ =~= document(self@));
        out
    }
}

/// Generation is deterministic: two runs over the same catalog and bounds
/// hold the same snippets, so their documents are the same text.
pub proof fn lemma_generation_deterministic(
    types: Seq<Seq<char>>,
    cin: nat,
    cout: nat,
    first: Seq<SnippetView>,
    second: Seq<SnippetView>,
)
    requires
        first == catalog_of(types, cin, cout),
        second == catalog_of(types, cin, cout),
    ensures
        first == second,
        document(first) == document(second),
{
}

} // verus!

use vstd::prelude::*;

use crate::catalog::catalog_of;
use crate::names::lemma_basic_names_unique;
use crate::snippet::{completed_body, document, entry_json, quoted_lines, SnippetView};
use crate::text::{escape, escape_char, hex_char, join, quote};
use crate::types::basic_type_names;

verus! {

/// The value of a hexadecimal digit.
pub open spec fn hex_val(ch: char) -> Option<nat> {
    if '0' <= ch <= '9' {
        Some((ch as u32 - '0' as u32) as nat)
    } else if 'a' <= ch <= 'f' {
        Some((ch as u32 - 'a' as u32 + 10) as nat)
    } else if 'A' <= ch <= 'F' {
        Some((ch as u32 - 'A' as u32 + 10) as nat)
    } else {
        None
    }
}

/// The value of the four hexadecimal digits that start `s`.
pub open spec fn hex4(s: Seq<char>) -> Option<nat> {
    if s.len() >= 4 && hex_val(s[0]) is Some && hex_val(s[1]) is Some && hex_val(s[2]) is Some
        && hex_val(s[3]) is Some {
        Some(
            hex_val(s[0])->0 * 4096 + hex_val(s[1])->0 * 256 + hex_val(s[2])->0 * 16 + hex_val(
                s[3],
            )->0,
        )
    } else {
        None
    }
}

/// The character that the escape sequence after a backslash at the start
/// of `s` stands for, and how many characters the sequence takes.
pub open spec fn escape_at(s: Seq<char>) -> Option<(char, nat)> {
    if s.len() == 0 {
        None
    } else if s[0] == '"' || s[0] == '\\' || s[0] == '/' {
        Some((s[0], 1))
    } else if s[0] == 'n' {
        Some(('\n', 1))
    } else if s[0] == 'r' {
        Some(('\r', 1))
    } else if s[0] == 't' {
        Some(('\t', 1))
    } else if s[0] == 'b' {
        Some(('\x08', 1))
    } else if s[0] == 'f' {
        Some(('\x0c', 1))
    } else if s[0] == 'u' && hex4(s.drop_first()) is Some && exists|c: char| #[trigger] (c as u32)
        == hex4(s.drop_first())->0 {
        Some((choose|c: char| #[trigger] (c as u32) == hex4(s.drop_first())->0, 5))
    } else {
        None
    }
}

/// Reads the inside of a JSON string literal up to its closing quote: the
/// text it stands for, and what follows the quote.
pub open spec fn read_chars(s: Seq<char>) -> Option<(Seq<char>, Seq<char>)>
    decreases s.len(),
{
    if s.len() == 0 {
        None
    } else if s[0] == '"' {
        Some((Seq::empty(), s.drop_first()))
    } else if s[0] == '\\' {
        match escape_at(s.drop_first()) {
            Some((c, n)) => if 1 <= n && n + 1 <= s.len() {
                match read_chars(s.subrange(n as int + 1, s.len() as int)) {
                    Some((t, r)) => Some((seq![c] + t, r)),
                    None => None,
                }
            } else {
                None
            },
            None => None,
        }
    } else if (s[0] as u32) < 0x20 {
        None
    } else {
        match read_chars(s.drop_first()) {
            Some((t, r)) => Some((seq![s[0]] + t, r)),
            None => None,
        }
    }
}

/// Reads a JSON string literal at the start of `s`: the text, and what
/// follows the literal.
pub open spec fn read_string(s: Seq<char>) -> Option<(Seq<char>, Seq<char>)> {
    if s.len() > 0 && s[0] == '"' {
        read_chars(s.drop_first())
    } else {
        None
    }
}

pub proof fn lemma_escape_concat(a: Seq<char>, b: Seq<char>)
    ensures
        escape(a + b) == escape(a) + escape(b),
    decreases b.len(),
{
    if b.len() == 0 {
        assert(a + b =~= a);
        assert(escape(a) + escape(b) =~= escape(a));
    } else {
        assert((a + b).drop_last() =~= a + b.drop_last());
        lemma_escape_concat(a, b.drop_last());
        assert(escape(a) + escape(b) =~= escape(a) + escape(b.drop_last()) + escape_char(b.last()));
    }
}

proof fn lemma_escape_front(x: Seq<char>)
    requires
        x.len() > 0,
    ensures
        escape(x) == escape_char(x[0]) + escape(x.drop_first()),
{
    assert(x =~= seq![x[0]] + x.drop_first());
    lemma_escape_concat(seq![x[0]], x.drop_first());
    let one = seq![x[0]];
    assert(one.drop_last() =~= Seq::<char>::empty());
    assert(one.last() == x[0]);
    assert(escape(one.drop_last()) =~= Seq::<char>::empty());
    assert(escape(one) =~= escape_char(x[0]));
}

proof fn lemma_hex_round_trip(d: nat)
    requires
        d < 16,
    ensures
        hex_val(hex_char(d)) == Some(d),
{
}

/// Reading an escaped character gives the character back.
proof fn lemma_escape_char_read(c: char, r: Seq<char>)
    requires
        r.len() > 0,
    ensures
        ({
            let s = escape_char(c) + r;
            &&& s.len() > 0
            &&& s[0] == '\\' ==> escape_at(s.drop_first()) == Some((c, (escape_char(c).len() - 1) as nat))
                && 2 <= escape_char(c).len()
            &&& s[0] != '\\' ==> escape_char(c) == seq![c] && s[0] != '"' && (s[0] as u32) >= 0x20
        }),
{
    let s = escape_char(c) + r;
    if (c as u32) < 0x20 && c != '\n' && c != '\r' && c != '\t' {
        let v = c as u32;
        let h = s.drop_first().drop_first();
        lemma_hex_round_trip((v / 16) as nat);
        lemma_hex_round_trip((v % 16) as nat);
        assert(h[0] == '0' && h[1] == '0');
        assert(hex_val('0') == Some(0nat));
        assert(hex4(h) == Some(v as nat));
        assert(exists|e: char| #[trigger] (e as u32) == hex4(h)->0) by {
            assert((c as u32) == hex4(h)->0);
        }
        let e = choose|e: char| #[trigger] (e as u32) == hex4(h)->0;
        assert(e as u32 == c as u32);
    }
}

/// A string literal reads back as the text it was written from.
pub proof fn lemma_read_quoted(x: Seq<char>, r: Seq<char>)
    ensures
        read_chars(escape(x) + seq!['"'] + r) == Some((x, r)),
    decreases x.len(),
{
    let s = escape(x) + seq!['"'] + r;
    if x.len() == 0 {
        assert(s =~= seq!['"'] + r);
        assert(s.drop_first() =~= r);
        assert(x =~= Seq::<char>::empty());
    } else {
        lemma_escape_front(x);
        let e = escape_char(x[0]);
        let tail = escape(x.drop_first()) + seq!['"'] + r;
        assert(s =~= e + tail);
        lemma_escape_char_read(x[0], tail);
        lemma_read_quoted(x.drop_first(), r);
        if s[0] == '\\' {
            assert(s.subrange(e.len() as int, s.len() as int) =~= tail);
        } else {
            assert(s.drop_first() =~= tail);
        }
        assert(seq![x[0]] + x.drop_first() =~= x);
    }
}

/// `quote` followed by anything reads back.
pub proof fn lemma_read_string(x: Seq<char>, r: Seq<char>)
    ensures
        read_string(quote(x) + r) == Some((x, r)),
{
    let s = quote(x) + r;
    assert(s.drop_first() =~= escape(x) + seq!['"'] + r);
    lemma_read_quoted(x, r);
}

/// What follows `lit` where `s` starts with it.
pub open spec fn after(s: Seq<char>, lit: Seq<char>) -> Option<Seq<char>> {
    if s.len() >= lit.len() && s.subrange(0, lit.len() as int) == lit {
        Some(s.subrange(lit.len() as int, s.len() as int))
    } else {
        None
    }
}

/// Reads the string items of a JSON array, from its first item on: the
/// items, and what follows the closing `]`.
pub open spec fn read_items(s: Seq<char>) -> Option<(Seq<Seq<char>>, Seq<char>)>
    decreases s.len(),
{
    match read_string(s) {
        Some((x, r)) => if r.len() > 0 && r[0] == ']' {
            Some((seq![x], r.drop_first()))
        } else if r.len() > 0 && r[0] == ',' && r.len() <= s.len() {
            match read_items(r.drop_first()) {
                Some((xs, t)) => Some((seq![x] + xs, t)),
                None => None,
            }
        } else {
            None
        },
        None => None,
    }
}

/// Reads one member `"name":{"prefix":"..","body":[..]}` at the start of
/// `s`: the snippet it describes, and what follows it.
#[verifier::opaque]
pub open spec fn read_entry(s: Seq<char>) -> Option<(SnippetView, Seq<char>)> {
    match read_string(s) {
        Some((name, r1)) => match after(r1, ":{\"prefix\":"@) {
            Some(r2) => match read_string(r2) {
                Some((prefix, r3)) => match after(r3, ",\"body\":["@) {
                    Some(r4) => match if r4.len() > 0 && r4[0] == ']' {
                        Some((Seq::<Seq<char>>::empty(), r4.drop_first()))
                    } else {
                        read_items(r4)
                    } {
                        Some((body, r5)) => match after(r5, "}"@) {
                            Some(r6) => Some((SnippetView { name, prefix, body }, r6)),
                            None => None,
                        },
                        None => None,
                    },
                    None => None,
                },
                None => None,
            },
            None => None,
        },
        None => None,
    }
}

/// Reads the members of a JSON object, from its first member on: the
/// snippets, and what follows the closing `}`.
pub open spec fn read_entries(s: Seq<char>) -> Option<(Seq<SnippetView>, Seq<char>)>
    decreases s.len(),
{
    match read_entry(s) {
        Some((e, r)) => if r.len() > 0 && r[0] == '}' {
            Some((seq![e], r.drop_first()))
        } else if r.len() > 0 && r[0] == ',' && r.len() <= s.len() {
            match read_entries(r.drop_first()) {
                Some((es, t)) => Some((seq![e] + es, t)),
                None => None,
            }
        } else {
            None
        },
        None => None,
    }
}

/// Reads a whole document: the snippets it describes, in order.
pub open spec fn read_document(s: Seq<char>) -> Option<Seq<SnippetView>> {
    if s.len() == 2 && s[0] == '{' && s[1] == '}' {
        Some(Seq::empty())
    } else if s.len() > 0 && s[0] == '{' {
        match read_entries(s.drop_first()) {
            Some((es, t)) => if t.len() == 0 {
                Some(es)
            } else {
                None
            },
            None => None,
        }
    } else {
        None
    }
}

/// A snippet as it stands in the document: its body completed with the
/// final-cursor line where it had none.
pub open spec fn as_written(v: SnippetView) -> SnippetView {
    SnippetView { name: v.name, prefix: v.prefix, body: completed_body(v.body) }
}

proof fn lemma_after(lit: Seq<char>, t: Seq<char>)
    ensures
        after(lit + t, lit) == Some(t),
{
    assert((lit + t).subrange(0, lit.len() as int) =~= lit);
    assert((lit + t).subrange(lit.len() as int, (lit + t).len() as int) =~= t);
}

/// `join` seen from the front.
proof fn lemma_join_front(parts: Seq<Seq<char>>, sep: Seq<char>)
    requires
        parts.len() >= 2,
    ensures
        join(parts, sep) == parts[0] + sep + join(parts.drop_first(), sep),
    decreases parts.len(),
{
    let d = parts.drop_first();
    assert(join(parts, sep) == join(parts.drop_last(), sep) + sep + parts.last());
    assert(d.last() == parts.last());
    if parts.len() == 2 {
        assert(parts.drop_last().len() == 1);
        assert(join(parts.drop_last(), sep) == parts.drop_last()[0]);
        assert(d.len() == 1);
        assert(join(d, sep) == d[0]);
    } else {
        lemma_join_front(parts.drop_last(), sep);
        assert(parts.drop_last().drop_first() =~= d.drop_last());
        assert(join(d, sep) == join(d.drop_last(), sep) + sep + d.last());
        assert(join(parts, sep) =~= parts[0] + sep + (join(d.drop_last(), sep) + sep + d.last()));
    }
}

proof fn lemma_read_items(lines: Seq<Seq<char>>, t: Seq<char>)
    requires
        lines.len() > 0,
    ensures
        read_items(join(quoted_lines(lines), ","@) + seq![']'] + t) == Some((lines, t)),
    decreases lines.len(),
{
    reveal_strlit(",");
    let q = quoted_lines(lines);
    let s = join(q, ","@) + seq![']'] + t;
    if lines.len() == 1 {
        lemma_read_string(lines[0], seq![']'] + t);
        assert(s =~= quote(lines[0]) + (seq![']'] + t));
        assert((seq![']'] + t).drop_first() =~= t);
        assert(seq![lines[0]] =~= lines);
    } else {
        lemma_join_front(q, ","@);
        assert(quoted_lines(lines.drop_first()) =~= q.drop_first());
        let rest = join(q.drop_first(), ","@) + seq![']'] + t;
        lemma_read_items(lines.drop_first(), t);
        assert(s =~= quote(lines[0]) + (","@ + rest));
        lemma_read_string(lines[0], ","@ + rest);
        assert((","@ + rest).drop_first() =~= rest);
        assert(seq![lines[0]] + lines.drop_first() =~= lines);
    }
}

/// A member reads back as the snippet it was written from.
pub proof fn lemma_read_entry(v: SnippetView, t: Seq<char>)
    ensures
        read_entry(entry_json(v) + t) == Some((as_written(v), t)),
{
    reveal(read_entry);
    reveal_strlit("]}");
    reveal_strlit("}");
    let b = completed_body(v.body);
    let q = quoted_lines(b);
    let prefix_key = ":{\"prefix\":"@;
    let body_key = ",\"body\":["@;
    let r5 = "}"@ + t;
    let r4 = join(q, ","@) + seq![']'] + r5;
    let r3 = body_key + r4;
    let r1 = prefix_key + (quote(v.prefix) + r3);
    assert(entry_json(v) + t =~= quote(v.name) + r1);
    lemma_read_string(v.name, r1);
    lemma_after(prefix_key, quote(v.prefix) + r3);
    lemma_read_string(v.prefix, r3);
    lemma_after(body_key, r4);
    assert(b.len() > 0);
    lemma_read_items(b, r5);
    assert(q[0] == quote(b[0]));
    if q.len() >= 2 {
        lemma_join_front(q, ","@);
    }
    assert(r4[0] == '"');
    lemma_after("}"@, t);
}

proof fn lemma_read_entries(vs: Seq<SnippetView>, t: Seq<char>)
    requires
        vs.len() > 0,
    ensures
        read_entries(
            join(vs.map_values(|v: SnippetView| entry_json(v)), ","@) + seq!['}'] + t,
        ) == Some((vs.map_values(|v: SnippetView| as_written(v)), t)),
    decreases vs.len(),
{
    reveal_strlit(",");
    let e = vs.map_values(|v: SnippetView| entry_json(v));
    let s = join(e, ","@) + seq!['}'] + t;
    if vs.len() == 1 {
        lemma_read_entry(vs[0], seq!['}'] + t);
        assert(s =~= entry_json(vs[0]) + (seq!['}'] + t));
        assert((seq!['}'] + t).drop_first() =~= t);
        assert(seq![as_written(vs[0])] =~= vs.map_values(|v: SnippetView| as_written(v)));
    } else {
        lemma_join_front(e, ","@);
        assert(vs.drop_first().map_values(|v: SnippetView| entry_json(v)) =~= e.drop_first());
        let rest = join(e.drop_first(), ","@) + seq!['}'] + t;
        lemma_read_entries(vs.drop_first(), t);
        assert(s =~= entry_json(vs[0]) + (","@ + rest));
        lemma_read_entry(vs[0], ","@ + rest);
        assert((","@ + rest).drop_first() =~= rest);
        assert(seq![as_written(vs[0])] + vs.drop_first().map_values(|v: SnippetView| as_written(v))
            =~= vs.map_values(|v: SnippetView| as_written(v)));
    }
}

/// Reading a document back gives one record per snippet, in order, with
/// the snippet's name, its trigger and its body lines as written out.
pub proof fn lemma_document_round_trip(vs: Seq<SnippetView>)
    ensures
        read_document(document(vs)) == Some(vs.map_values(|v: SnippetView| as_written(v))),
{
    reveal_strlit("{");
    reveal_strlit("}");
    let s = document(vs);
    if vs.len() == 0 {
        assert(join(vs.map_values(|v: SnippetView| entry_json(v)), ","@) =~= Seq::<char>::empty());
        assert(s =~= seq!['{', '}']);
        assert(vs.map_values(|v: SnippetView| as_written(v)) =~= Seq::<SnippetView>::empty());
    } else {
        let e = vs.map_values(|v: SnippetView| entry_json(v));
        lemma_read_entries(vs, Seq::empty());
        assert(s.drop_first() =~= join(e, ","@) + seq!['}'] + Seq::<char>::empty());
        let r = read_entry(s.drop_first());
        assert(e[0] == entry_json(vs[0]));
        if e.len() >= 2 {
            lemma_join_front(e, ","@);
        }
        assert(s.len() > 2);
    }
}

/// Reading back the document of one run over the scalar types gives one
/// record per generated snippet, in order, with its name, trigger and body
/// lines as written out; no two records share a name, so read as a mapping
/// from name the document has exactly one member per snippet.
pub proof fn lemma_generated_round_trip(cin: nat, cout: nat)
    ensures
        read_document(document(catalog_of(basic_type_names(), cin, cout))) == Some(
            catalog_of(basic_type_names(), cin, cout).map_values(|v: SnippetView| as_written(v)),
        ),
        forall|p: int, q: int|
            0 <= p < q < catalog_of(basic_type_names(), cin, cout).len() ==> (#[trigger] catalog_of(
                basic_type_names(),
                cin,
                cout,
            )[p]).name != (#[trigger] catalog_of(basic_type_names(), cin, cout)[q]).name,
{
    let c = catalog_of(basic_type_names(), cin, cout);
    lemma_document_round_trip(c);
    assert forall|p: int, q: int| 0 <= p < q < c.len() implies (#[trigger] c[p]).name != (
    #[trigger] c[q]).name by {
        lemma_basic_names_unique(cin, cout, p, q);
    }
}

} // verus!

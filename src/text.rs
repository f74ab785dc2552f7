use vstd::prelude::*;

verus! {

/// The decimal digit for `d < 10`.
pub open spec fn digit_char(d: nat) -> char {
    if d == 0 {
        '0'
    } else if d == 1 {
        '1'
    } else if d == 2 {
        '2'
    } else if d == 3 {
        '3'
    } else if d == 4 {
        '4'
    } else if d == 5 {
        '5'
    } else if d == 6 {
        '6'
    } else if d == 7 {
        '7'
    } else if d == 8 {
        '8'
    } else {
        '9'
    }
}

/// The decimal representation of `n`, without leading zeros.
pub open spec fn dec(n: nat) -> Seq<char>
    decreases n,
{
    if n < 10 {
        seq![digit_char(n)]
    } else {
        dec(n / 10).push(digit_char(n % 10))
    }
}

/// The tab stop `$n`.
pub open spec fn placeholder(n: nat) -> Seq<char> {
    seq!['$'] + dec(n)
}

/// `parts` joined with `sep` between each two neighbours.
pub open spec fn join(parts: Seq<Seq<char>>, sep: Seq<char>) -> Seq<char>
    decreases parts.len(),
{
    if parts.len() == 0 {
        Seq::empty()
    } else if parts.len() == 1 {
        parts[0]
    } else {
        join(parts.drop_last(), sep) + sep + parts.last()
    }
}

/// Relies on String::push: appends one character.
#[verifier::external_body]
pub(crate) fn push_char(s: &mut String, c: char)
    ensures
        final(s)@ == old(s)@.push(c),
{
    s.push(c);
}

fn digit(d: usize) -> (c: char)
    requires
        d < 10,
    ensures
        c == digit_char(d as nat),
{
    match d {
        0 => '0',
        1 => '1',
        2 => '2',
        3 => '3',
        4 => '4',
        5 => '5',
        6 => '6',
        7 => '7',
        8 => '8',
        _ => '9',
    }
}

/// Appends the decimal representation of `n`.
pub fn push_dec(s: &mut String, n: usize)
    ensures
        final(s)@ == old(s)@ + dec(n as nat),
    decreases n,
{
    if n >= 10 {
        push_dec(s, n / 10);
    }
    push_char(s, digit(n % 10));
    assert(n < 10 ==> dec(n as nat) == seq![digit_char(n as nat)]);
}

/// Appends the tab stop `$n`.
pub fn push_placeholder(s: &mut String, n: usize)
    ensures
        final(s)@ == old(s)@ + placeholder(n as nat),
{
    push_char(s, '$');
    push_dec(s, n);
    assert(old(s)@.push('$') + dec(n as nat) =~= old(s)@ + placeholder(n as nat));
}

/// Joins `parts` with `sep` between each two neighbours.
pub fn join_strings(parts: &Vec<String>, sep: &str) -> (r: String)
    ensures
        r@ == join(parts@.map_values(|p: String| p@), sep@),
{
    let ghost all = parts@.map_values(|p: String| p@);
    let mut r = String::new();
    let mut k: usize = 0;
    while k < parts.len()
        invariant
            k <= parts@.len(),
            all == parts@.map_values(|p: String| p@),
            r@ == join(all.take(k as int), sep@),
        decreases parts@.len() - k,
    {
        if k > 0 {
            r.append(sep);
        }
        r.append(parts[k].as_str());
        proof {
            assert(all.take(k + 1).drop_last() =~= all.take(k as int));
            if k == 0 {
                assert(join(all.take(0), sep@) =~= Seq::<char>::empty());
            }
        }
        k = k + 1;
    }
    assert(all.take(k as int) =~= all);
    r
}

/// The lower-case hexadecimal digit for `d < 16`.
pub open spec fn hex_char(d: nat) -> char {
    if d < 10 {
        digit_char(d)
    } else if d == 10 {
        'a'
    } else if d == 11 {
        'b'
    } else if d == 12 {
        'c'
    } else if d == 13 {
        'd'
    } else if d == 14 {
        'e'
    } else {
        'f'
    }
}

/// How one character stands inside a JSON string literal.
pub open spec fn escape_char(c: char) -> Seq<char> {
    if c == '"' {
        seq!['\\', '"']
    } else if c == '\\' {
        seq!['\\', '\\']
    } else if c == '\n' {
        seq!['\\', 'n']
    } else if c == '\r' {
        seq!['\\', 'r']
    } else if c == '\t' {
        seq!['\\', 't']
    } else if (c as u32) < 0x20 {
        seq!['\\', 'u', '0', '0', hex_char((c as u32 / 16) as nat), hex_char((c as u32 % 16) as nat)]
    } else {
        seq![c]
    }
}

/// The characters of `s`, each escaped for a JSON string literal.
pub open spec fn escape(s: Seq<char>) -> Seq<char>
    decreases s.len(),
{
    if s.len() == 0 {
        Seq::empty()
    } else {
        escape(s.drop_last()) + escape_char(s.last())
    }
}

/// `s` as a JSON string literal.
pub open spec fn quote(s: Seq<char>) -> Seq<char> {
    seq!['"'] + escape(s) + seq!['"']
}

fn hex(d: u32) -> (c: char)
    requires
        d < 16,
    ensures
        c == hex_char(d as nat),
{
    match d {
        10 => 'a',
        11 => 'b',
        12 => 'c',
        13 => 'd',
        14 => 'e',
        15 => 'f',
        _ => digit(d as usize),
    }
}

/// Appends `c` as it stands inside a JSON string literal.
pub fn push_escaped_char(s: &mut String, c: char)
    ensures
        final(s)@ == old(s)@ + escape_char(c),
{
    let ghost s0 = s@;
    let n = c as u32;
    if c == '"' {
        push_char(s, '\\');
        push_char(s, '"');
    } else if c == '\\' {
        push_char(s, '\\');
        push_char(s, '\\');
    } else if c == '\n' {
        push_char(s, '\\');
        push_char(s, 'n');
    } else if c == '\r' {
        push_char(s, '\\');
        push_char(s, 'r');
    } else if c == '\t' {
        push_char(s, '\\');
        push_char(s, 't');
    } else if n < 0x20 {
        push_char(s, '\\');
        push_char(s, 'u');
        push_char(s, '0');
        push_char(s, '0');
        push_char(s, hex(n / 16));
        push_char(s, hex(n % 16));
    } else {
        push_char(s, c);
    }
    assert(s@ =~= s0 + escape_char(c));
}

/// Appends `t` as a JSON string literal.
pub fn push_quoted(s: &mut String, t: &str)
    ensures
        final(s)@ == old(s)@ + quote(t@),
{
    let ghost s0 = s@;
    let len = t.unicode_len();
    push_char(s, '"');
    let mut j: usize = 0;
    while j < len
        invariant
            len == t@.len(),
            j <= len,
            s@ == s0.push('"') + escape(t@.take(j as int)),
        decreases len - j,
    {
        let c = t.get_char(j);
        push_escaped_char(s, c);
        proof {
            assert(t@.take(j + 1).drop_last() =~= t@.take(j as int));
        }
        j = j + 1;
    }
    push_char(s, '"');
    assert(t@.take(len as int) =~= t@);
    assert(s@ =~= s0 + quote(t@));
}

/// How many times the final-cursor marker `$0` occurs in `s`.
pub open spec fn marker_count(s: Seq<char>) -> nat
    decreases s.len(),
{
    if s.len() < 2 {
        0
    } else {
        marker_count(s.drop_first()) + if s[0] == '$' && s[1] == '0' {
            1nat
        } else {
            0nat
        }
    }
}

/// Whether `t` holds the final-cursor marker `$0`.
pub fn contains_marker(t: &str) -> (r: bool)
    ensures
        r == (marker_count(t@) > 0),
{
    let len = t.unicode_len();
    if len < 2 {
        return false;
    }
    let mut j: usize = len - 1;
    let mut found = false;
    while j > 0
        invariant
            len == t@.len(),
            0 <= j < len,
            found == (marker_count(t@.subrange(j as int, len as int)) > 0),
        decreases j,
    {
        j = j - 1;
        let a = t.get_char(j);
        let b = t.get_char(j + 1);
        if a == '$' && b == '0' {
            found = true;
        }
        assert(t@.subrange(j as int, len as int).drop_first() =~= t@.subrange(
            j + 1,
            len as int,
        ));
    }
    assert(t@.subrange(0, len as int) =~= t@);
    found
}

/// No `$` of `s` is directly followed by `0`.
pub open spec fn no_marker_at(s: Seq<char>) -> bool {
    forall|j: int| 0 <= j < s.len() - 1 ==> !(#[trigger] s[j] == '$' && s[j + 1] == '0')
}

/// `s` holds no final-cursor marker and does not end in `$`, so that no
/// marker arises where `s` is followed by other text.
pub open spec fn inert(s: Seq<char>) -> bool {
    marker_count(s) == 0 && (s.len() > 0 ==> s.last() != '$')
}

/// `s` holds no `$` at all.
pub open spec fn dollar_free(s: Seq<char>) -> bool {
    forall|j: int| 0 <= j < s.len() ==> #[trigger] s[j] != '$'
}

pub proof fn lemma_marker_count_zero(s: Seq<char>)
    requires
        no_marker_at(s),
    ensures
        marker_count(s) == 0,
    decreases s.len(),
{
    if s.len() >= 2 {
        let t = s.drop_first();
        assert forall|j: int| 0 <= j < t.len() - 1 implies !(#[trigger] t[j] == '$' && t[j + 1]
            == '0') by {
            assert(t[j] == s[j + 1] && t[j + 1] == s[j + 2]);
        }
        lemma_marker_count_zero(t);
        assert(!(s[0] == '$' && s[1] == '0'));
    }
}

pub proof fn lemma_inert_text(s: Seq<char>)
    requires
        no_marker_at(s),
        s.len() > 0 ==> s.last() != '$',
    ensures
        inert(s),
{
    lemma_marker_count_zero(s);
}

pub proof fn lemma_dollar_free_inert(s: Seq<char>)
    requires
        dollar_free(s),
    ensures
        inert(s),
{
    assert forall|j: int| 0 <= j < s.len() - 1 implies !(#[trigger] s[j] == '$' && s[j + 1]
        == '0') by {
        assert(s[j] != '$');
    }
    if s.len() > 0 {
        assert(s[s.len() - 1] != '$');
    }
    lemma_inert_text(s);
}

/// Markers in a concatenation: those of each part, and one more where a
/// `$` ending `a` meets a `0` starting `b`.
pub proof fn lemma_marker_count_concat(a: Seq<char>, b: Seq<char>)
    ensures
        marker_count(a + b) == marker_count(a) + marker_count(b) + if a.len() > 0 && b.len() > 0
            && a.last() == '$' && b[0] == '0' {
            1nat
        } else {
            0nat
        },
    decreases a.len(),
{
    if a.len() == 0 {
        assert(a + b =~= b);
    } else {
        let t = a.drop_first();
        assert((a + b).drop_first() =~= t + b);
        lemma_marker_count_concat(t, b);
        if a.len() == 1 {
            assert(t + b =~= b);
        } else {
            assert(t.last() == a.last());
        }
    }
}

pub proof fn lemma_inert_concat(a: Seq<char>, b: Seq<char>)
    requires
        inert(a),
        inert(b),
    ensures
        inert(a + b),
{
    lemma_marker_count_concat(a, b);
    if b.len() > 0 {
        assert((a + b).last() == b.last());
    } else {
        assert(a + b =~= a);
    }
}

pub proof fn lemma_dec_digits(n: nat)
    ensures
        dec(n).len() > 0,
        forall|j: int| 0 <= j < dec(n).len() ==> '0' <= #[trigger] dec(n)[j] <= '9',
        dollar_free(dec(n)),
        n > 0 ==> dec(n)[0] != '0',
    decreases n,
{
    if n >= 10 {
        lemma_dec_digits(n / 10);
        assert(dec(n)[0] == dec(n / 10)[0]);
        assert forall|j: int| 0 <= j < dec(n).len() implies '0' <= #[trigger] dec(n)[j] <= '9' by {
            if j < dec(n / 10).len() {
                assert(dec(n)[j] == dec(n / 10)[j]);
            }
        }
    }
}

proof fn lemma_digit_injective(a: nat, b: nat)
    requires
        a < 10,
        b < 10,
        digit_char(a) == digit_char(b),
    ensures
        a == b,
{
}

/// Distinct numbers have distinct decimal representations.
pub proof fn lemma_dec_injective(m: nat, n: nat)
    requires
        dec(m) == dec(n),
    ensures
        m == n,
    decreases m + n,
{
    if m >= 10 {
        lemma_dec_digits(m / 10);
    }
    if n >= 10 {
        lemma_dec_digits(n / 10);
    }
    if m >= 10 && n >= 10 {
        assert(dec(m).drop_last() =~= dec(m / 10));
        assert(dec(n).drop_last() =~= dec(n / 10));
        lemma_dec_injective(m / 10, n / 10);
        assert(dec(m).last() == digit_char(m % 10));
        assert(dec(n).last() == digit_char(n % 10));
        lemma_digit_injective(m % 10, n % 10);
    } else if m < 10 && n < 10 {
        assert(dec(m) == seq![digit_char(m)]);
        assert(dec(n) == seq![digit_char(n)]);
        assert(seq![digit_char(m)][0] == digit_char(m));
        assert(seq![digit_char(n)][0] == digit_char(n));
        assert(dec(m)[0] == dec(n)[0]);
        lemma_digit_injective(m, n);
    } else if m < 10 {
        assert(dec(m).len() == 1);
        assert(dec(n).len() == dec(n / 10).len() + 1);
    } else {
        assert(dec(n).len() == 1);
        assert(dec(m).len() == dec(m / 10).len() + 1);
    }
}

pub proof fn lemma_placeholder_inert(n: nat)
    requires
        n > 0,
    ensures
        inert(placeholder(n)),
{
    lemma_dec_digits(n);
    lemma_dollar_free_inert(dec(n));
    lemma_marker_count_concat(seq!['$'], dec(n));
    assert(placeholder(n).last() == dec(n).last());
}

pub proof fn lemma_join_inert(parts: Seq<Seq<char>>, sep: Seq<char>)
    requires
        forall|k: int| 0 <= k < parts.len() ==> inert(#[trigger] parts[k]),
        inert(sep),
    ensures
        inert(join(parts, sep)),
    decreases parts.len(),
{
    if parts.len() == 1 {
        assert(inert(parts[0]));
    } else if parts.len() > 1 {
        let rest = parts.drop_last();
        assert forall|k: int| 0 <= k < rest.len() implies inert(#[trigger] rest[k]) by {
            assert(rest[k] == parts[k]);
        }
        lemma_join_inert(rest, sep);
        assert(inert(parts.last()));
        lemma_inert_concat(join(rest, sep), sep);
        lemma_inert_concat(join(rest, sep) + sep, parts.last());
    }
}

} // verus!

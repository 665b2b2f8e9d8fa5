//! Character-level helpers on the terminal's text, each stated over `Seq<char>`.

use vstd::prelude::*;

verus! {

/// The ASCII lower-case form of `c`; every other character stays as it is.
pub open spec fn ascii_lower(c: char) -> char {
    if 'A' <= c && c <= 'Z' {
        ((c as u32) + 32) as char
    } else {
        c
    }
}

/// Replaces each ASCII upper-case letter of `s` by its lower-case form.
pub open spec fn ascii_lowercase(s: Seq<char>) -> Seq<char> {
    s.map_values(|c: char| ascii_lower(c))
}

/// The ASCII lower-case form of `c`.
pub fn to_ascii_lower(c: char) -> (r: char)
    ensures
        r == ascii_lower(c),
{
    if 'A' <= c && c <= 'Z' {
        ((c as u8) + 32) as char
    } else {
        c
    }
}

/// The characters of `s`, in order.
pub fn chars_of(s: &str) -> (r: Vec<char>)
    ensures
        r@ == s@,
{
    let n = s.unicode_len();
    let mut r: Vec<char> = Vec::new();
    let mut i: usize = 0;
    while i < n
        invariant
            n == s@.len(),
            i <= n,
            r@ == s@.subrange(0, i as int),
        decreases n - i,
    {
        r.push(s.get_char(i));
        i = i + 1;
    }
    assert(r@ =~= s@);
    r
}

/// Appends the characters of `s` to `v`.
pub fn push_str(v: &mut Vec<char>, s: &str)
    ensures
        final(v)@ == old(v)@ + s@,
{
    let n = s.unicode_len();
    let ghost v0 = v@;
    let mut i: usize = 0;
    while i < n
        invariant
            n == s@.len(),
            i <= n,
            v@ == v0 + s@.subrange(0, i as int),
        decreases n - i,
    {
        v.push(s.get_char(i));
        i = i + 1;
        assert(v@ =~= v0 + s@.subrange(0, i as int));
    }
    assert(s@.subrange(0, n as int) =~= s@);
}

/// Whether `v` holds exactly the characters of `s`.
pub fn same_chars(v: &[char], s: &str) -> (r: bool)
    ensures
        r == (v@ == s@),
{
    let n = s.unicode_len();
    if v.len() != n {
        return false;
    }
    let mut i: usize = 0;
    while i < n
        invariant
            n == s@.len(),
            n == v@.len(),
            i <= n,
            forall|j: int| 0 <= j < i ==> v@[j] == s@[j],
        decreases n - i,
    {
        if v[i] != s.get_char(i) {
            return false;
        }
        i = i + 1;
    }
    assert(v@ =~= s@);
    true
}

/// The ASCII lower-case form of every character of `v`.
pub fn lowercase_ascii(v: &[char]) -> (r: Vec<char>)
    ensures
        r@ == ascii_lowercase(v@),
{
    let mut r: Vec<char> = Vec::new();
    let mut i: usize = 0;
    while i < v.len()
        invariant
            i <= v@.len(),
            r@ == ascii_lowercase(v@.subrange(0, i as int)),
        decreases v@.len() - i,
    {
        r.push(to_ascii_lower(v[i]));
        i = i + 1;
        assert(r@ =~= ascii_lowercase(v@.subrange(0, i as int)));
    }
    assert(v@.subrange(0, v@.len() as int) =~= v@);
    r
}

/// Whether `c` is white space in Unicode's sense (the `White_Space` property).
pub open spec fn is_space(c: char) -> bool {
    ('\t' <= c && c <= '\r') || c == ' ' || c == '\u{85}' || c == '\u{a0}' || c == '\u{1680}'
        || ('\u{2000}' <= c && c <= '\u{200a}') || c == '\u{2028}' || c == '\u{2029}'
        || c == '\u{202f}' || c == '\u{205f}' || c == '\u{3000}'
}

/// Whether `c` is white space in Unicode's sense.
pub fn is_space_char(c: char) -> (r: bool)
    ensures
        r == is_space(c),
{
    ('\t' <= c && c <= '\r') || c == ' ' || c == '\u{85}' || c == '\u{a0}' || c == '\u{1680}'
        || ('\u{2000}' <= c && c <= '\u{200a}') || c == '\u{2028}' || c == '\u{2029}'
        || c == '\u{202f}' || c == '\u{205f}' || c == '\u{3000}'
}

/// `s` without its leading white space.
pub open spec fn trim_start(s: Seq<char>) -> Seq<char>
    decreases s.len(),
{
    if s.len() > 0 && is_space(s[0]) {
        trim_start(s.drop_first())
    } else {
        s
    }
}

/// `s` without its trailing white space.
pub open spec fn trim_end(s: Seq<char>) -> Seq<char>
    decreases s.len(),
{
    if s.len() > 0 && is_space(s.last()) {
        trim_end(s.drop_last())
    } else {
        s
    }
}

/// `s` without white space at either end.
pub open spec fn trim(s: Seq<char>) -> Seq<char> {
    trim_end(trim_start(s))
}

/// The characters of `v` up to its trailing white space.
pub fn trim_end_chars(v: &[char]) -> (r: Vec<char>)
    ensures
        r@ == trim_end(v@),
{
    let mut e: usize = v.len();
    assert(v@.subrange(0, v@.len() as int) =~= v@);
    while e > 0 && is_space_char(v[e - 1])
        invariant
            e <= v@.len(),
            trim_end(v@) == trim_end(v@.subrange(0, e as int)),
        decreases e,
    {
        assert(v@.subrange(0, e as int).drop_last() =~= v@.subrange(0, e - 1));
        e = e - 1;
    }
    let mut r: Vec<char> = Vec::new();
    let mut i: usize = 0;
    while i < e
        invariant
            e <= v@.len(),
            i <= e,
            r@ == v@.subrange(0, i as int),
        decreases e - i,
    {
        r.push(v[i]);
        i = i + 1;
        assert(r@ =~= v@.subrange(0, i as int));
    }
    r
}

/// The characters of `v` without white space at either end.
pub fn trim_chars(v: &[char]) -> (r: Vec<char>)
    ensures
        r@ == trim(v@),
{
    let mut b: usize = 0;
    assert(v@.subrange(0, v@.len() as int) =~= v@);
    while b < v.len() && is_space_char(v[b])
        invariant
            b <= v@.len(),
            trim_start(v@) == trim_start(v@.subrange(b as int, v@.len() as int)),
        decreases v@.len() - b,
    {
        assert(v@.subrange(b as int, v@.len() as int).drop_first()
            =~= v@.subrange(b + 1, v@.len() as int));
        b = b + 1;
    }
    assert(v@.subrange(0, v@.len() as int) =~= v@);
    let rest = slice_from(v, b);
    trim_end_chars(rest.as_slice())
}

/// The characters of `v` from index `from` on.
pub fn slice_from(v: &[char], from: usize) -> (r: Vec<char>)
    requires
        from <= v@.len(),
    ensures
        r@ == v@.subrange(from as int, v@.len() as int),
{
    let mut r: Vec<char> = Vec::new();
    let mut i: usize = from;
    while i < v.len()
        invariant
            from <= i <= v@.len(),
            r@ == v@.subrange(from as int, i as int),
        decreases v@.len() - i,
    {
        r.push(v[i]);
        i = i + 1;
        assert(r@ =~= v@.subrange(from as int, i as int));
    }
    r
}

/// Index at which the last line of `t` begins: just after its last line
/// break, or 0 where it has none.
pub open spec fn last_line_start(t: Seq<char>) -> int
    decreases t.len(),
{
    if t.len() == 0 {
        0
    } else if t.last() == '\n' {
        t.len() as int
    } else {
        last_line_start(t.drop_last())
    }
}

/// `i` begins a line of `t`, and no line break follows it.
pub open spec fn begins_last_line(t: Seq<char>, i: int) -> bool {
    &&& 0 <= i <= t.len()
    &&& (i == 0 || t[i - 1] == '\n')
    &&& forall|j: int| i <= j < t.len() ==> t[j] != '\n'
}

/// How many line breaks `t` holds.
pub open spec fn newline_count(t: Seq<char>) -> nat
    decreases t.len(),
{
    if t.len() == 0 {
        0
    } else {
        newline_count(t.drop_last()) + if t.last() == '\n' { 1nat } else { 0nat }
    }
}

/// How many lines `t` splits into, where a final line break opens no new line.
pub open spec fn line_count(t: Seq<char>) -> nat {
    if t.len() == 0 {
        0
    } else if t.last() == '\n' {
        newline_count(t)
    } else {
        newline_count(t) + 1
    }
}

/// `t` without its first `k` lines, each taken with its line break.
pub open spec fn drop_lines(t: Seq<char>, k: nat) -> Seq<char>
    decreases t.len(),
{
    if k == 0 || t.len() == 0 {
        t
    } else if t[0] == '\n' {
        drop_lines(t.drop_first(), (k - 1) as nat)
    } else {
        drop_lines(t.drop_first(), k)
    }
}

/// `last_line_start` is where the last line begins, and only there.
pub proof fn lemma_last_line_start(t: Seq<char>)
    ensures
        begins_last_line(t, last_line_start(t)),
        forall|i: int| begins_last_line(t, i) ==> i == last_line_start(t),
    decreases t.len(),
{
    if t.len() > 0 && t.last() != '\n' {
        lemma_last_line_start(t.drop_last());
        let l = last_line_start(t);
        assert forall|j: int| l <= j < t.len() implies t[j] != '\n' by {
            if j < t.len() - 1 {
                assert(t.drop_last()[j] == t[j]);
            }
        }
    }
    let l = last_line_start(t);
    assert forall|i: int| begins_last_line(t, i) implies i == l by {
        if i < l {
            assert(t[l - 1] == '\n');
        } else if l < i {
            assert(t[i - 1] == '\n');
        }
    }
}

/// Line breaks in a concatenation add up.
pub proof fn lemma_newline_count_add(a: Seq<char>, b: Seq<char>)
    ensures
        newline_count(a + b) == newline_count(a) + newline_count(b),
    decreases b.len(),
{
    if b.len() > 0 {
        lemma_newline_count_add(a, b.drop_last());
        assert((a + b).drop_last() =~= a + b.drop_last());
    } else {
        assert(a + b =~= a);
    }
}

/// A text with a line break in it holds one at some index.
pub proof fn lemma_newline_count_pos(t: Seq<char>)
    requires
        newline_count(t) > 0,
    ensures
        exists|j: int| 0 <= j < t.len() && t[j] == '\n',
    decreases t.len(),
{
    if t.last() != '\n' {
        lemma_newline_count_pos(t.drop_last());
        let j = choose|j: int| 0 <= j < t.drop_last().len() && t.drop_last()[j] == '\n';
        assert(t[j] == '\n');
    } else {
        assert(t[t.len() - 1] == '\n');
    }
}

/// Where the last line of `t` begins.
pub fn find_last_line_start(t: &[char]) -> (r: usize)
    ensures
        r == last_line_start(t@),
{
    let mut e: usize = t.len();
    assert(t@.subrange(0, t@.len() as int) =~= t@);
    while e > 0 && t[e - 1] != '\n'
        invariant
            e <= t@.len(),
            last_line_start(t@) == last_line_start(t@.subrange(0, e as int)),
        decreases e,
    {
        assert(t@.subrange(0, e as int).drop_last() =~= t@.subrange(0, e - 1));
        e = e - 1;
    }
    e
}

/// How many line breaks `t` holds.
pub fn count_newlines(t: &[char]) -> (r: usize)
    ensures
        r == newline_count(t@),
        r <= t@.len(),
{
    let mut c: usize = 0;
    let mut i: usize = 0;
    while i < t.len()
        invariant
            i <= t@.len(),
            c <= i,
            c == newline_count(t@.subrange(0, i as int)),
        decreases t@.len() - i,
    {
        assert(t@.subrange(0, i + 1).drop_last() =~= t@.subrange(0, i as int));
        if t[i] == '\n' {
            c = c + 1;
        }
        i = i + 1;
    }
    assert(t@.subrange(0, t@.len() as int) =~= t@);
    c
}

} // verus!

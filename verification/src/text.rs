//! Character-level helpers shared by the encoder, the assembler and the disassembler.
use vstd::prelude::*;

verus! {

broadcast use vstd::string::group_string_axioms;

/// Appends the characters of `s` to `out`.
pub fn push_str(out: &mut Vec<char>, s: &str)
    ensures
        final(out)@ == old(out)@ + s@,
{
    let ghost start = out@;
    for c in it: s.chars()
        invariant
            it.seq() == s@,
            out@ == start + s@.take(it.index() as int),
    {
        out.push(c);
        assert(s@.take(it.index() + 1) == s@.take(it.index() as int).push(c));
    }
    assert(s@.take(s@.len() as int) == s@);
}

/// Collects characters into a `String`. Trusted: calls std's
/// `FromIterator<&char>` for `String` (through `Iterator::collect`), which the
/// std documentation describes as pushing each character in turn; the contract
/// claims the string holds exactly `chars`, in order.
#[verifier::external_body]
pub fn string_of(chars: &Vec<char>) -> (s: String)
    ensures
        s@ == chars@,
{
    chars.iter().collect()
}

/// The upper-case hexadecimal digit for `n < 16`.
pub open spec fn hex_char(n: u8) -> char {
    if n < 10 {
        (48 + n) as char
    } else {
        (55 + n) as char
    }
}

pub fn hex_digit(n: u8) -> (c: char)
    requires
        n < 16,
    ensures
        c == hex_char(n),
{
    if n < 10 {
        (48 + n) as char
    } else {
        (55 + n) as char
    }
}

/// `c` has the Unicode White_Space property (what `char::is_whitespace` tests).
pub open spec fn is_ws(c: char) -> bool {
    ('\u{9}' <= c && c <= '\u{D}') || c == ' ' || c == '\u{85}' || c == '\u{A0}' || c == '\u{1680}'
        || ('\u{2000}' <= c && c <= '\u{200A}') || c == '\u{2028}' || c == '\u{2029}' || c
        == '\u{202F}' || c == '\u{205F}' || c == '\u{3000}'
}

/// Whether `c` is whitespace, as `char::is_whitespace` tells.
pub fn is_whitespace(c: char) -> (b: bool)
    ensures
        b == is_ws(c),
{
    ('\u{9}' <= c && c <= '\u{D}') || c == ' ' || c == '\u{85}' || c == '\u{A0}' || c == '\u{1680}'
        || ('\u{2000}' <= c && c <= '\u{200A}') || c == '\u{2028}' || c == '\u{2029}' || c
        == '\u{202F}' || c == '\u{205F}' || c == '\u{3000}'
}

/// The characters of each vector.
pub open spec fn views(v: Seq<Vec<char>>) -> Seq<Seq<char>> {
    Seq::new(v.len(), |i: int| v[i]@)
}

proof fn lemma_views_push(v: Seq<Vec<char>>, x: Vec<char>)
    ensures
        views(v.push(x)) == views(v).push(x@),
{
    assert(views(v.push(x)) =~= views(v).push(x@));
}

/// A pending piece, as the list it contributes when it ends: nothing if empty.
pub open spec fn flush(cur: Seq<char>) -> Seq<Seq<char>> {
    if cur.len() == 0 {
        seq![]
    } else {
        seq![cur]
    }
}

/// A line without the carriage return that preceded its line feed.
pub open spec fn strip_cr(line: Seq<char>) -> Seq<char> {
    if line.len() > 0 && line.last() == '\r' {
        line.drop_last()
    } else {
        line
    }
}

/// The lines of `s`, with `cur` already read of the first: each line feed ends a
/// line (dropping a carriage return just before it), and a last line without a
/// line feed counts only when it is not empty.
pub open spec fn split_lines_from(s: Seq<char>, cur: Seq<char>) -> Seq<Seq<char>>
    decreases s.len(),
{
    if s.len() == 0 {
        flush(cur)
    } else if s[0] == '\n' {
        seq![strip_cr(cur)] + split_lines_from(s.drop_first(), seq![])
    } else {
        split_lines_from(s.drop_first(), cur.push(s[0]))
    }
}

/// The lines of `s`, as `str::lines` gives them.
pub open spec fn spec_lines(s: Seq<char>) -> Seq<Seq<char>> {
    split_lines_from(s, seq![])
}

/// The whitespace-separated words of `s`, with `cur` already read of the first.
pub open spec fn split_ws_from(s: Seq<char>, cur: Seq<char>) -> Seq<Seq<char>>
    decreases s.len(),
{
    if s.len() == 0 {
        flush(cur)
    } else if is_ws(s[0]) {
        flush(cur) + split_ws_from(s.drop_first(), seq![])
    } else {
        split_ws_from(s.drop_first(), cur.push(s[0]))
    }
}

/// The whitespace-separated words of `s`, as `str::split_whitespace` gives them.
pub open spec fn spec_tokens(s: Seq<char>) -> Seq<Seq<char>> {
    split_ws_from(s, seq![])
}

/// The characters of a string.
pub fn chars_of(s: &str) -> (v: Vec<char>)
    ensures
        v@ == s@,
{
    let mut v: Vec<char> = Vec::new();
    push_str(&mut v, s);
    assert(v@ =~= s@);
    v
}

/// The lines of `s`.
pub fn split_lines(s: &[char]) -> (lines: Vec<Vec<char>>)
    ensures
        views(lines@) == spec_lines(s@),
{
    let mut out: Vec<Vec<char>> = Vec::new();
    let mut cur: Vec<char> = Vec::new();
    let mut i: usize = 0;
    assert(s@.skip(0) =~= s@);
    assert(views(out@) =~= Seq::<Seq<char>>::empty());
    while i < s.len()
        invariant
            i <= s@.len(),
            views(out@) + split_lines_from(s@.skip(i as int), cur@) == spec_lines(s@),
        decreases s@.len() - i,
    {
        let c = s[i];
        let ghost rest = s@.skip(i as int);
        assert(rest.drop_first() =~= s@.skip(i + 1));
        assert(rest[0] == c);
        if c == '\n' {
            let ghost before = cur@;
            let n = cur.len();
            if n > 0 && cur[n - 1] == '\r' {
                cur.pop();
                assert(cur@ =~= before.drop_last());
            }
            assert(cur@ == strip_cr(before));
            let ghost line = cur@;
            let ghost prev = views(out@);
            proof {
                lemma_views_push(out@, cur);
            }
            out.push(cur);
            cur = Vec::new();
            assert(prev + split_lines_from(rest, before) == prev + (seq![line] + split_lines_from(
                s@.skip(i + 1),
                seq![],
            )));
            assert(views(out@) + split_lines_from(s@.skip(i + 1), cur@) =~= prev + (seq![line]
                + split_lines_from(s@.skip(i + 1), seq![])));
        } else {
            let ghost before = cur@;
            cur.push(c);
            assert(split_lines_from(rest, before) == split_lines_from(s@.skip(i + 1), cur@));
        }
        i = i + 1;
    }
    assert(s@.skip(i as int).len() == 0);
    if cur.len() > 0 {
        let ghost prev = views(out@);
        proof {
            lemma_views_push(out@, cur);
        }
        out.push(cur);
        assert(views(out@) =~= prev + flush(cur@));
    } else {
        assert(views(out@) =~= views(out@) + flush(cur@));
    }
    out
}

/// The whitespace-separated words of `s`.
pub fn split_tokens(s: &[char]) -> (tokens: Vec<Vec<char>>)
    ensures
        views(tokens@) == spec_tokens(s@),
{
    let mut out: Vec<Vec<char>> = Vec::new();
    let mut cur: Vec<char> = Vec::new();
    let mut i: usize = 0;
    assert(s@.skip(0) =~= s@);
    assert(views(out@) =~= Seq::<Seq<char>>::empty());
    while i < s.len()
        invariant
            i <= s@.len(),
            views(out@) + split_ws_from(s@.skip(i as int), cur@) == spec_tokens(s@),
        decreases s@.len() - i,
    {
        let c = s[i];
        let ghost rest = s@.skip(i as int);
        assert(rest.drop_first() =~= s@.skip(i + 1));
        assert(rest[0] == c);
        if is_whitespace(c) {
            let ghost before = cur@;
            let ghost prev = views(out@);
            if cur.len() > 0 {
                proof {
                    lemma_views_push(out@, cur);
                }
                out.push(cur);
                cur = Vec::new();
            }
            assert(cur@ =~= Seq::<char>::empty());
            assert(views(out@) =~= prev + flush(before));
            assert(views(out@) + split_ws_from(s@.skip(i + 1), cur@) =~= prev + (flush(before)
                + split_ws_from(s@.skip(i + 1), seq![])));
        } else {
            let ghost before = cur@;
            cur.push(c);
            assert(split_ws_from(rest, before) == split_ws_from(s@.skip(i + 1), cur@));
        }
        i = i + 1;
    }
    assert(s@.skip(i as int).len() == 0);
    if cur.len() > 0 {
        let ghost prev = views(out@);
        proof {
            lemma_views_push(out@, cur);
        }
        out.push(cur);
        assert(views(out@) =~= prev + flush(cur@));
    } else {
        assert(views(out@) =~= views(out@) + flush(cur@));
    }
    out
}

/// `s` up to, and without, its first ';'.
pub open spec fn before_semicolon(s: Seq<char>) -> Seq<char>
    decreases s.len(),
{
    if s.len() == 0 || s[0] == ';' {
        seq![]
    } else {
        seq![s[0]] + before_semicolon(s.drop_first())
    }
}

/// `s` without its leading whitespace.
pub open spec fn trim_start(s: Seq<char>) -> Seq<char>
    decreases s.len(),
{
    if s.len() > 0 && is_ws(s[0]) {
        trim_start(s.drop_first())
    } else {
        s
    }
}

/// `s` without its trailing whitespace.
pub open spec fn trim_end(s: Seq<char>) -> Seq<char>
    decreases s.len(),
{
    if s.len() > 0 && is_ws(s.last()) {
        trim_end(s.drop_last())
    } else {
        s
    }
}

/// `s` without leading and trailing whitespace, as `str::trim` gives it.
pub open spec fn trim(s: Seq<char>) -> Seq<char> {
    trim_end(trim_start(s))
}

/// The part of a line before its comment, without surrounding whitespace.
pub open spec fn spec_strip_comments(line: Seq<char>) -> Seq<char> {
    trim(before_semicolon(line))
}

/// Removes a ';' comment and the whitespace around what is left.
pub fn strip_comments(line: &[char]) -> (code: Vec<char>)
    ensures
        code@ == spec_strip_comments(line@),
{
    // Find the first ';'.
    let mut k: usize = 0;
    assert(line@.skip(0) =~= line@);
    assert(line@.take(0) =~= Seq::<char>::empty());
    while k < line.len() && line[k] != ';'
        invariant
            k <= line@.len(),
            before_semicolon(line@) == line@.take(k as int) + before_semicolon(line@.skip(k as int)),
        decreases line@.len() - k,
    {
        let ghost rest = line@.skip(k as int);
        assert(rest.drop_first() =~= line@.skip(k + 1));
        assert(line@.take(k + 1) =~= line@.take(k as int) + seq![rest[0]]);
        k = k + 1;
    }
    assert(before_semicolon(line@.skip(k as int)) =~= Seq::<char>::empty());
    assert(before_semicolon(line@) =~= line@.take(k as int));
    let ghost b = line@.take(k as int);
    // Skip leading whitespace.
    let mut a: usize = 0;
    assert(b.skip(0) =~= b);
    while a < k && is_whitespace(line[a])
        invariant
            a <= k <= line@.len(),
            b == line@.take(k as int),
            trim_start(b) == trim_start(b.skip(a as int)),
        decreases k - a,
    {
        assert(b.skip(a as int).drop_first() =~= b.skip(a + 1));
        a = a + 1;
    }
    assert(trim_start(b) == b.skip(a as int));
    // Drop trailing whitespace.
    let mut e: usize = k;
    assert(b.skip(a as int) =~= line@.subrange(a as int, k as int));
    while e > a && is_whitespace(line[e - 1])
        invariant
            a <= e <= k <= line@.len(),
            trim_end(line@.subrange(a as int, k as int)) == trim_end(line@.subrange(a as int, e as int)),
        decreases e - a,
    {
        assert(line@.subrange(a as int, e as int).drop_last() =~= line@.subrange(a as int, e - 1));
        e = e - 1;
    }
    let mut code: Vec<char> = Vec::new();
    let mut j: usize = a;
    while j < e
        invariant
            a <= j <= e <= line@.len(),
            code@ == line@.subrange(a as int, j as int),
        decreases e - j,
    {
        code.push(line[j]);
        assert(line@.subrange(a as int, j + 1) =~= line@.subrange(a as int, j as int).push(line@[j as int]));
        j = j + 1;
    }
    code
}

/// The ASCII upper-case form of a character.
pub open spec fn upper_char(c: char) -> char {
    if 'a' <= c && c <= 'z' {
        ((c as u32) - 32) as char
    } else {
        c
    }
}

/// `s` with ASCII letters in upper case, as `str::to_ascii_uppercase` gives it.
pub open spec fn spec_upper(s: Seq<char>) -> Seq<char> {
    s.map_values(|c: char| upper_char(c))
}

/// `s` with ASCII letters in upper case.
pub fn to_upper(s: &[char]) -> (u: Vec<char>)
    ensures
        u@ == spec_upper(s@),
{
    let mut u: Vec<char> = Vec::new();
    let mut i: usize = 0;
    while i < s.len()
        invariant
            i <= s@.len(),
            u@ == spec_upper(s@.take(i as int)),
        decreases s@.len() - i,
    {
        let c = s[i];
        let d = if 'a' <= c && c <= 'z' {
            ((c as u32 - 32) as u8) as char
        } else {
            c
        };
        u.push(d);
        assert(spec_upper(s@.take(i + 1)) =~= spec_upper(s@.take(i as int)).push(upper_char(c)));
        i = i + 1;
    }
    assert(s@.take(s@.len() as int) =~= s@);
    u
}

/// Whether `s` holds exactly the characters of `w`.
pub fn is_word(s: &[char], w: &str) -> (b: bool)
    ensures
        b == (s@ == w@),
{
    let wv = chars_of(w);
    if s.len() != wv.len() {
        return false;
    }
    let mut i: usize = 0;
    while i < s.len()
        invariant
            i <= s@.len() == wv@.len(),
            wv@ == w@,
            forall|j: int| 0 <= j < i ==> s@[j] == wv@[j],
        decreases s@.len() - i,
    {
        if s[i] != wv[i] {
            assert(s@[i as int] != wv@[i as int]);
            assert(s@ != w@) by {
                if s@ == w@ {
                    assert(s@[i as int] == w@[i as int]);
                }
            }
            return false;
        }
        i = i + 1;
    }
    assert(s@ =~= wv@);
    true
}

} // verus!

//! Character classification and string building used by the lexer and the
//! text emitters.

use vstd::prelude::*;

verus! {

/// ASCII word characters: `[_0-9a-zA-Z]`.
pub open spec fn is_ascii_word(c: char) -> bool {
    ('0' <= c && c <= '9') || ('a' <= c && c <= 'z') || ('A' <= c && c <= 'Z') || c == '_'
}

/// ASCII decimal digits.
pub open spec fn is_ascii_digit(c: char) -> bool {
    '0' <= c && c <= '9'
}

/// Whether a character outside ASCII is a Unicode word character, in the
/// sense of UTS#18 Annex C (the class `\w` of the `regex` crate).
pub uninterp spec fn unicode_word_beyond_ascii(c: char) -> bool;

/// Whitespace, as `str::trim_start` sees it: the Unicode `White_Space`
/// property, that is U+0009 to U+000D, U+0020, U+0085, U+00A0, U+1680,
/// U+2000 to U+200A, U+2028, U+2029, U+202F, U+205F and U+3000.
pub open spec fn is_white_space(c: char) -> bool {
    let u = c as u32;
    ||| u == 0x20
    ||| (0x09 <= u && u <= 0x0d)
    ||| u == 0x85
    ||| u == 0xa0
    ||| u == 0x1680
    ||| (0x2000 <= u && u <= 0x200a)
    ||| u == 0x2028
    ||| u == 0x2029
    ||| u == 0x202f
    ||| u == 0x205f
    ||| u == 0x3000
}

/// Word characters, as the `regex` crate's `\w` and `\b` see them. No
/// whitespace character is one.
pub open spec fn is_word_char(c: char) -> bool {
    if (c as u32) < 128 {
        is_ascii_word(c)
    } else if is_white_space(c) {
        false
    } else {
        unicode_word_beyond_ascii(c)
    }
}

/// Calls `regex_syntax::is_word_character`, the classification behind the
/// `\w` class and the `\b` assertion of the `regex` crate. Trusted: for ASCII
/// characters the result is membership in `[_0-9a-zA-Z]` (the fast path and
/// the first entries of the `PERL_WORD` table in regex-syntax's source); no
/// whitespace character lies in a range of that table; for other characters
/// the result is left as the name `unicode_word_beyond_ascii`.
#[verifier::external_body]
pub(crate) fn word_char(c: char) -> (r: bool)
    ensures
        r == is_word_char(c),
        (c as u32) >= 128 && !is_white_space(c) ==> r == unicode_word_beyond_ascii(c),
{
    regex_syntax::is_word_character(c)
}

/// Calls `char::is_whitespace`. Trusted: std documents it as the Unicode
/// `White_Space` property, whose members `is_white_space` lists.
#[verifier::external_body]
pub(crate) fn white_space(c: char) -> (r: bool)
    ensures
        r == is_white_space(c),
{
    c.is_whitespace()
}

/// Calls `String::push`. Trusted: appends one character.
#[verifier::external_body]
pub(crate) fn push_char(s: &mut String, c: char)
    ensures
        final(s)@ == old(s)@.push(c),
{
    s.push(c)
}

/// The characters of a string, in order.
pub fn chars_of(s: &str) -> (v: Vec<char>)
    ensures
        v@ == s@,
{
    let mut v: Vec<char> = Vec::new();
    for c in it: s.chars()
        invariant
            v@ == it.seq().take(it.index() as int),
    {
        v.push(c);
    }
    v
}

/// The decimal digit for `d < 10`.
pub open spec fn digit_char(d: nat) -> char {
    (('0' as u32) + d) as char
}

/// The decimal spelling of a natural number, without leading zeros.
pub open spec fn decimal(n: nat) -> Seq<char>
    decreases n,
{
    if n < 10 {
        seq![digit_char(n)]
    } else {
        decimal(n / 10).push(digit_char(n % 10))
    }
}

/// The decimal spelling of an integer, with a leading `-` when negative.
pub open spec fn signed_decimal(n: int) -> Seq<char> {
    if n < 0 {
        seq!['-'] + decimal((-n) as nat)
    } else {
        decimal(n as nat)
    }
}

/// Appends the decimal spelling of `n`.
pub fn push_decimal(s: &mut String, n: u64)
    ensures
        final(s)@ == old(s)@ + decimal(n as nat),
    decreases n,
{
    if n >= 10 {
        push_decimal(s, n / 10);
    }
    let d: u8 = (n % 10) as u8;
    let c: char = (48u8 + d) as char;
    assert(c == digit_char((n % 10) as nat));
    push_char(s, c);
    proof {
        if n >= 10 {
            assert(old(s)@ + decimal(n as nat) =~= old(s)@ + decimal((n / 10) as nat) + seq![c]);
        } else {
            assert(old(s)@ + decimal(n as nat) =~= old(s)@ + seq![c]);
        }
    }
}

/// Appends the decimal spelling of `n`, with a leading `-` when negative.
pub fn push_signed_decimal(s: &mut String, n: i64)
    ensures
        final(s)@ == old(s)@ + signed_decimal(n as int),
{
    if n < 0 {
        push_char(s, '-');
        let m: u64 = (-(n as i128)) as u64;
        push_decimal(s, m);
        assert(old(s)@ + signed_decimal(n as int) =~= old(s)@.push('-') + decimal(m as nat));
    } else {
        push_decimal(s, n as u64);
    }
}

/// Appends each character of `t`.
pub fn push_chars(s: &mut String, t: &[char])
    ensures
        final(s)@ == old(s)@ + t@,
{
    let mut k: usize = 0;
    while k < t.len()
        invariant
            k <= t.len(),
            s@ == old(s)@ + t@.take(k as int),
        decreases t.len() - k,
    {
        push_char(s, t[k]);
        assert(t@.take(k + 1) =~= t@.take(k as int).push(t@[k as int]));
        k += 1;
    }
    assert(t@.take(t.len() as int) =~= t@);
}

// ---------------------------------------------------------------------------
// Lines, joining and indentation

/// The first `'\n'` at or after `i`, or the length of `s`.
pub open spec fn line_end(s: Seq<char>, i: int) -> int
    decreases s.len() - i,
{
    if i < 0 || i >= s.len() {
        s.len() as int
    } else if s[i] == '\n' {
        i
    } else {
        line_end(s, i + 1)
    }
}

/// The line that starts at `i`, without its `"\n"` or `"\r\n"` ending.
pub open spec fn line_at(s: Seq<char>, i: int) -> Seq<char> {
    let j = line_end(s, i);
    if j < s.len() && j > i && s[j - 1] == '\r' {
        s.subrange(i, j - 1)
    } else {
        s.subrange(i, j)
    }
}

/// The lines of `s` from position `i` on, as `str::lines` gives them: a
/// final line ending adds no empty line.
pub open spec fn lines_from(s: Seq<char>, i: int) -> Seq<Seq<char>>
    decreases s.len() - i,
{
    if i < 0 || i >= s.len() {
        seq![]
    } else {
        let j = line_end(s, i);
        if j < s.len() && j >= i {
            seq![line_at(s, i)] + lines_from(s, j + 1)
        } else {
            seq![line_at(s, i)]
        }
    }
}

/// The pieces joined with `sep` between them.
pub open spec fn join(pieces: Seq<Seq<char>>, sep: Seq<char>) -> Seq<char>
    decreases pieces.len(),
{
    if pieces.len() == 0 {
        Seq::empty()
    } else if pieces.len() == 1 {
        pieces[0]
    } else {
        join(pieces.drop_last(), sep) + sep + pieces.last()
    }
}

/// Each piece after four spaces, joined with newlines.
pub open spec fn join_indented(pieces: Seq<Seq<char>>) -> Seq<char> {
    join(pieces.map_values(|l: Seq<char>| "    "@ + l), "\n"@)
}

/// Every line of `s` after four spaces, joined with newlines.
pub open spec fn indent_spec(s: Seq<char>) -> Seq<char> {
    join_indented(lines_from(s, 0))
}

proof fn lemma_join_push(pieces: Seq<Seq<char>>, sep: Seq<char>, x: Seq<char>)
    ensures
        join(pieces.push(x), sep) == if pieces.len() == 0 {
            x
        } else {
            join(pieces, sep) + sep + x
        },
{
    assert(pieces.push(x).drop_last() =~= pieces);
}

pub proof fn lemma_join_indented_push(pieces: Seq<Seq<char>>, x: Seq<char>)
    ensures
        join_indented(pieces.push(x)) == if pieces.len() == 0 {
            "    "@ + x
        } else {
            join_indented(pieces) + "\n"@ + ("    "@ + x)
        },
{
    let f = |l: Seq<char>| "    "@ + l;
    assert(pieces.push(x).map_values(f) =~= pieces.map_values(f).push("    "@ + x));
    lemma_join_push(pieces.map_values(f), "\n"@, "    "@ + x);
}

proof fn lemma_line_end_range(s: Seq<char>, i: int)
    requires
        0 <= i <= s.len(),
    ensures
        i <= line_end(s, i) <= s.len(),
        forall|k: int| i <= k < line_end(s, i) ==> s[k] != '\n',
        line_end(s, i) < s.len() ==> s[line_end(s, i)] == '\n',
    decreases s.len() - i,
{
    if i < s.len() && s[i] != '\n' {
        lemma_line_end_range(s, i + 1);
    }
}

/// Finds the end of the line that starts at `i`.
fn find_line_end(cs: &Vec<char>, i: usize) -> (j: usize)
    requires
        i <= cs.len(),
    ensures
        j == line_end(cs@, i as int),
        i <= j <= cs.len(),
{
    proof {
        lemma_line_end_range(cs@, i as int);
    }
    let mut j = i;
    while j < cs.len() && cs[j] != '\n'
        invariant
            i <= j <= cs.len(),
            line_end(cs@, i as int) == line_end(cs@, j as int),
        decreases cs.len() - j,
    {
        j += 1;
    }
    j
}

/// Every line of `s` after four spaces, joined with newlines.
pub fn indent(s: &str) -> (r: String)
    ensures
        r@ == indent_spec(s@),
{
    let mut r = String::new();
    let cs = chars_of(s);
    let ghost start = r@;
    let ghost mut done: Seq<Seq<char>> = seq![];
    let mut i: usize = 0;
    let mut first = true;
    while i < cs.len()
        invariant
            i <= cs.len(),
            cs@ == s@,
            lines_from(cs@, 0) == done + lines_from(cs@, i as int),
            r@ == start + join_indented(done),
            first == (done.len() == 0),
        decreases cs.len() - i,
    {
        let j = find_line_end(&cs, i);
        let stop = if j < cs.len() && j > i && cs[j - 1] == '\r' {
            j - 1
        } else {
            j
        };
        let ghost line = line_at(cs@, i as int);
        assert(line == cs@.subrange(i as int, stop as int));
        if !first {
            r.append("\n");
        }
        r.append("    ");
        let mut k = i;
        let ghost before_line = r@;
        while k < stop
            invariant
                i <= k <= stop <= cs.len(),
                r@ == before_line + cs@.subrange(i as int, k as int),
            decreases stop - k,
        {
            push_char(&mut r, cs[k]);
            assert(cs@.subrange(i as int, k + 1) =~= cs@.subrange(i as int, k as int).push(cs@[k as int]));
            k += 1;
        }
        proof {
            lemma_join_indented_push(done, line);
            assert(r@ =~= start + join_indented(done.push(line)));
            if j < cs.len() {
                assert(lines_from(cs@, i as int) == seq![line] + lines_from(cs@, j + 1));
                assert(done + lines_from(cs@, i as int) =~= done.push(line) + lines_from(cs@, j + 1));
            } else {
                assert(lines_from(cs@, i as int) == seq![line]);
                assert(done + lines_from(cs@, i as int) =~= done.push(line) + lines_from(cs@, cs@.len() as int));
            }
            done = done.push(line);
        }
        first = false;
        i = if j < cs.len() {
            j + 1
        } else {
            cs.len()
        };
    }
    assert(done + lines_from(cs@, i as int) =~= done);
    r
}

/// Rust's debug spelling of a string: quoted, with escapes.
pub uninterp spec fn debug_str(s: Seq<char>) -> Seq<char>;

/// Calls `format!("{:?}", s)`, std's `Debug` for `str`. Trusted: the result
/// is named `debug_str` of the characters, and nothing more is stated of it
/// (std writes the text in double quotes, escaping quotes, backslashes and
/// characters that do not print).
#[verifier::external_body]
pub(crate) fn debug_string(s: &str) -> (r: String)
    ensures
        r@ == debug_str(s@),
{
    format!("{:?}", s)
}

proof fn lemma_digit_char_injective(a: nat, b: nat)
    requires
        a < 10,
        b < 10,
        digit_char(a) == digit_char(b),
    ensures
        a == b,
{
    assert(digit_char(a) as u32 == 48 + a);
    assert(digit_char(b) as u32 == 48 + b);
}

proof fn lemma_decimal_len(n: nat)
    ensures
        decimal(n).len() >= 1,
        n >= 10 ==> decimal(n).len() >= 2,
    decreases n,
{
    if n >= 10 {
        lemma_decimal_len(n / 10);
    }
}

/// Different numbers have different spellings.
pub proof fn lemma_decimal_injective(n: nat, m: nat)
    requires
        decimal(n) == decimal(m),
    ensures
        n == m,
    decreases n,
{
    lemma_decimal_len(n);
    lemma_decimal_len(m);
    if n < 10 && m < 10 {
        assert(decimal(n)[0] == digit_char(n));
        assert(decimal(m)[0] == digit_char(m));
        lemma_digit_char_injective(n, m);
    } else if n >= 10 && m >= 10 {
        assert(decimal(n).last() == decimal(m).last());
        assert(decimal(n).last() == digit_char(n % 10));
        assert(decimal(m).last() == digit_char(m % 10));
        lemma_digit_char_injective(n % 10, m % 10);
        assert(decimal(n).drop_last() == decimal(m).drop_last());
        assert(decimal(n).drop_last() =~= decimal(n / 10));
        assert(decimal(m).drop_last() =~= decimal(m / 10));
        lemma_decimal_injective(n / 10, m / 10);
    }
}

} // verus!

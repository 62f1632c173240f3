//! Text built and taken apart character by character.

use vstd::prelude::*;

verus! {

/// Appending one character to a string, as `String::push` does it.
pub assume_specification[ String::push ](s: &mut String, c: char)
    ensures
        final(s)@ == old(s)@.push(c),
;

/// The decimal digit that stands for `d`.
pub open spec fn digit(d: nat) -> char {
    (48 + d) as char
}

/// `n` in decimal, without leading zeros.
pub open spec fn decimal(n: nat) -> Seq<char>
    decreases n,
{
    if n < 10 {
        seq![digit(n)]
    } else {
        decimal(n / 10).push(digit(n % 10))
    }
}

/// Appends `n` in decimal to `out`.
pub fn push_decimal(out: &mut String, n: u64)
    ensures
        final(out)@ == old(out)@ + decimal(n as nat),
    decreases n,
{
    if n >= 10 {
        push_decimal(out, n / 10);
    }
    let d: u8 = (n % 10) as u8;
    out.push((48 + d) as char);
    proof {
        assert(out@ =~= old(out)@ + decimal(n as nat));
    }
}

/// The lower-case hexadecimal digit that stands for `d`.
pub open spec fn hex_digit(d: nat) -> char {
    if d < 10 {
        (48 + d) as char
    } else {
        (87 + d) as char
    }
}

/// A byte as two lower-case hexadecimal digits.
pub open spec fn hex_byte(b: u8) -> Seq<char> {
    seq![hex_digit(b as nat / 16), hex_digit(b as nat % 16)]
}

/// Bytes in hexadecimal, with a comma and a blank between any two.
pub open spec fn hex_items(bytes: Seq<u8>) -> Seq<char>
    decreases bytes.len(),
{
    if bytes.len() == 0 {
        Seq::empty()
    } else if bytes.len() == 1 {
        hex_byte(bytes[0])
    } else {
        hex_items(bytes.drop_last()) + ", "@ + hex_byte(bytes.last())
    }
}

/// Bytes as a bracketed list of two-digit hexadecimal numbers.
pub open spec fn hex_list(bytes: Seq<u8>) -> Seq<char> {
    seq!['['] + hex_items(bytes) + seq![']']
}

/// Appends the hexadecimal digit for `d` to `out`.
fn push_hex_digit(out: &mut String, d: u8)
    requires
        d < 16,
    ensures
        final(out)@ == old(out)@.push(hex_digit(d as nat)),
{
    if d < 10 {
        out.push((48 + d) as char);
    } else {
        out.push((87 + d) as char);
    }
}

/// Appends a byte as two lower-case hexadecimal digits.
pub fn push_hex_byte(out: &mut String, b: u8)
    ensures
        final(out)@ == old(out)@ + hex_byte(b),
{
    push_hex_digit(out, b / 16);
    push_hex_digit(out, b % 16);
    proof {
        assert(out@ =~= old(out)@ + hex_byte(b));
    }
}

/// Appends bytes as a bracketed list of two-digit hexadecimal numbers.
pub fn push_hex_list(out: &mut String, bytes: &[u8])
    ensures
        final(out)@ == old(out)@ + hex_list(bytes@),
{
    out.push('[');
    let mut i: usize = 0;
    while i < bytes.len()
        invariant
            i <= bytes@.len(),
            out@ == old(out)@ + seq!['['] + hex_items(bytes@.take(i as int)),
        decreases bytes@.len() - i,
    {
        if i > 0 {
            push_str(out, ", ");
        }
        push_hex_byte(out, bytes[i]);
        proof {
            let done = bytes@.take(i + 1);
            assert(done.drop_last() =~= bytes@.take(i as int));
            assert(done.last() == bytes@[i as int]);
            assert(out@ =~= old(out)@ + seq!['['] + hex_items(done));
        }
        i += 1;
    }
    out.push(']');
    proof {
        assert(bytes@.take(i as int) =~= bytes@);
        assert(out@ =~= old(out)@ + hex_list(bytes@));
    }
}

/// Appends a string to `out`.
pub fn push_str(out: &mut String, s: &str)
    ensures
        final(out)@ == old(out)@ + s@,
{
    out.append(s);
}

/// The characters of a string.
pub fn to_chars(s: &str) -> (v: Vec<char>)
    ensures
        v@ == s@,
{
    let mut v: Vec<char> = Vec::new();
    for c in it: s.chars()
        invariant
            it.seq() == s@,
            v@ == s@.take(it.index() as int),
    {
        v.push(c);
        proof {
            assert(s@.take(it.index() + 1) =~= s@.take(it.index() as int).push(c));
        }
    }
    proof {
        assert(s@.take(s@.len() as int) =~= s@);
    }
    v
}

/// The string made of some characters.
pub fn from_chars(v: &[char]) -> (s: String)
    ensures
        s@ == v@,
{
    let mut s = String::new();
    let mut i: usize = 0;
    while i < v.len()
        invariant
            i <= v@.len(),
            s@ == v@.take(i as int),
        decreases v@.len() - i,
    {
        s.push(v[i]);
        proof {
            assert(v@.take(i + 1) =~= v@.take(i as int).push(v@[i as int]));
        }
        i += 1;
    }
    proof {
        assert(v@.take(i as int) =~= v@);
    }
    s
}

/// An ASCII capital as the small letter; any other character as it is.
pub open spec fn ascii_lower(c: char) -> char {
    if 'A' <= c <= 'Z' {
        (c as u8 + 32) as char
    } else {
        c
    }
}

/// Whether two texts differ at most in the case of ASCII letters.
pub open spec fn same_ignoring_case(a: Seq<char>, b: Seq<char>) -> bool {
    a.len() == b.len() && forall|i: int|
        0 <= i < a.len() ==> ascii_lower(#[trigger] a[i]) == ascii_lower(b[i])
}

/// An ASCII capital as the small letter; any other character as it is.
fn lower(c: char) -> (r: char)
    ensures
        r == ascii_lower(c),
{
    if 'A' <= c && c <= 'Z' {
        (c as u8 + 32) as char
    } else {
        c
    }
}

/// Whether two texts differ at most in the case of ASCII letters.
pub fn eq_ignoring_case(a: &[char], b: &[char]) -> (r: bool)
    ensures
        r == same_ignoring_case(a@, b@),
{
    if a.len() != b.len() {
        return false;
    }
    let mut i: usize = 0;
    while i < a.len()
        invariant
            i <= a@.len(),
            a@.len() == b@.len(),
            forall|j: int| 0 <= j < i ==> ascii_lower(#[trigger] a@[j]) == ascii_lower(b@[j]),
        decreases a@.len() - i,
    {
        if lower(a[i]) != lower(b[i]) {
            return false;
        }
        i += 1;
    }
    true
}

/// Whether a character is white space in Unicode.
pub open spec fn is_white(c: char) -> bool {
    ||| 0x09 <= c as u32 <= 0x0d
    ||| c as u32 == 0x20
    ||| c as u32 == 0x85
    ||| c as u32 == 0xa0
    ||| c as u32 == 0x1680
    ||| 0x2000 <= c as u32 <= 0x200a
    ||| c as u32 == 0x2028
    ||| c as u32 == 0x2029
    ||| c as u32 == 0x202f
    ||| c as u32 == 0x205f
    ||| c as u32 == 0x3000
}

/// Whether a character is white space in Unicode.
pub fn white(c: char) -> (r: bool)
    ensures
        r == is_white(c),
{
    let n: u32 = c as u32;
    (0x09 <= n && n <= 0x0d) || n == 0x20 || n == 0x85 || n == 0xa0 || n == 0x1680 || (0x2000 <= n
        && n <= 0x200a) || n == 0x2028 || n == 0x2029 || n == 0x202f || n == 0x205f || n == 0x3000
}

/// How many characters stand before the first white space.
pub open spec fn word_len(s: Seq<char>) -> nat
    decreases s.len(),
{
    if s.len() == 0 || is_white(s[0]) {
        0
    } else {
        1 + word_len(s.drop_first())
    }
}

/// A text without the white space at its start.
pub open spec fn trim_start(s: Seq<char>) -> Seq<char>
    decreases s.len(),
{
    if s.len() > 0 && is_white(s[0]) {
        trim_start(s.drop_first())
    } else {
        s
    }
}

/// A text without the white space at its end.
pub open spec fn trim_end(s: Seq<char>) -> Seq<char>
    decreases s.len(),
{
    if s.len() > 0 && is_white(s.last()) {
        trim_end(s.drop_last())
    } else {
        s
    }
}

/// A text without the white space around it.
pub open spec fn trimmed(s: Seq<char>) -> Seq<char> {
    trim_end(trim_start(s))
}

/// The first run of characters that are not white space, where there is one.
pub open spec fn first_word(s: Seq<char>) -> Option<Seq<char>> {
    let t = trim_start(s);
    if t.len() == 0 {
        None
    } else {
        Some(t.take(word_len(t) as int))
    }
}

/// Takes the white space off the start of a text.
pub fn skip_white(s: &[char]) -> (r: &[char])
    ensures
        r@ == trim_start(s@),
{
    let mut i: usize = 0;
    proof {
        assert(s@.skip(0) =~= s@);
    }
    while i < s.len() && white(s[i])
        invariant
            i <= s@.len(),
            trim_start(s@) == trim_start(s@.skip(i as int)),
        decreases s@.len() - i,
    {
        proof {
            assert(s@.skip(i as int)[0] == s@[i as int]);
            assert(s@.skip(i as int).drop_first() =~= s@.skip(i + 1));
        }
        i += 1;
    }
    let r = &s[i..s.len()];
    proof {
        assert(r@ =~= s@.skip(i as int));
        if i < s@.len() {
            assert(r@[0] == s@[i as int]);
        }
    }
    r
}

/// Takes the white space off the end of a text.
pub fn drop_white(s: &[char]) -> (r: &[char])
    ensures
        r@ == trim_end(s@),
{
    let mut n: usize = s.len();
    proof {
        assert(s@.take(n as int) =~= s@);
    }
    while n > 0 && white(s[n - 1])
        invariant
            n <= s@.len(),
            trim_end(s@) == trim_end(s@.take(n as int)),
        decreases n,
    {
        proof {
            assert(s@.take(n as int).drop_last() =~= s@.take(n - 1));
        }
        n -= 1;
    }
    let r = &s[0..n];
    proof {
        assert(r@ =~= s@.take(n as int));
    }
    r
}

/// Takes the white space off both ends of a text.
pub fn trim(s: &[char]) -> (r: &[char])
    ensures
        r@ == trimmed(s@),
{
    drop_white(skip_white(s))
}

/// The first run of characters that are not white space, where there is one.
pub fn next_word(s: &[char]) -> (r: Option<&[char]>)
    ensures
        match r {
            Some(w) => first_word(s@) == Some(w@),
            None => first_word(s@) is None,
        },
{
    let t = skip_white(s);
    if t.len() == 0 {
        return None;
    }
    let mut n: usize = 0;
    proof {
        assert(t@.skip(0) =~= t@);
    }
    while n < t.len() && !white(t[n])
        invariant
            n <= t@.len(),
            word_len(t@) == n + word_len(t@.skip(n as int)),
        decreases t@.len() - n,
    {
        proof {
            assert(t@.skip(n as int)[0] == t@[n as int]);
            assert(t@.skip(n as int).drop_first() =~= t@.skip(n + 1));
        }
        n += 1;
    }
    proof {
        if n < t@.len() {
            assert(t@.skip(n as int)[0] == t@[n as int]);
        }
        assert(t@.subrange(0, n as int) =~= t@.take(n as int));
    }
    Some(&t[0..n])
}

/// A text that starts with a word, followed by nothing or by white space, has
/// that word as its first.
pub proof fn lemma_first_word(word: Seq<char>, rest: Seq<char>)
    requires
        word.len() > 0,
        forall|i: int| 0 <= i < word.len() ==> !is_white(#[trigger] word[i]),
        rest.len() == 0 || is_white(rest[0]),
    ensures
        first_word(word + rest) == Some(word),
{
    let s = word + rest;
    assert(s[0] == word[0]);
    lemma_word_len(word, rest);
    assert(s.take(word.len() as int) =~= word);
}

proof fn lemma_word_len(word: Seq<char>, rest: Seq<char>)
    requires
        forall|i: int| 0 <= i < word.len() ==> !is_white(#[trigger] word[i]),
        rest.len() == 0 || is_white(rest[0]),
    ensures
        word_len(word + rest) == word.len(),
    decreases word.len(),
{
    let s = word + rest;
    if word.len() == 0 {
        assert(s =~= rest);
    } else {
        assert(s[0] == word[0]);
        assert(s.drop_first() =~= word.drop_first() + rest);
        lemma_word_len(word.drop_first(), rest);
    }
}

/// What `String::from_utf8_lossy` makes of bytes.
pub uninterp spec fn utf8_lossy(bytes: Seq<u8>) -> Seq<char>;

/// Reads bytes as UTF-8 with `String::from_utf8_lossy`. Valid UTF-8 comes out
/// as the text it encodes; what stands in for invalid bytes is left to the
/// name [`utf8_lossy`].
#[verifier::external_body]
pub(crate) fn lossy(bytes: &[u8]) -> (s: String)
    ensures
        s@ == utf8_lossy(bytes@),
        vstd::utf8::valid_utf8(bytes@) ==> s@ == vstd::utf8::decode_utf8(bytes@),
{
    String::from_utf8_lossy(bytes).into_owned()
}

/// What the `Debug` form of a string is.
pub uninterp spec fn debug_quoted(s: Seq<char>) -> Seq<char>;

/// A string in quotes and with escapes, as the `Debug` impl of `str` writes it
/// through `format!`. Which characters it escapes is left to the name
/// [`debug_quoted`].
#[verifier::external_body]
pub(crate) fn quoted(s: &str) -> (r: String)
    ensures
        r@ == debug_quoted(s@),
{
    format!("{s:?}")
}

/// The upper-case hexadecimal digit that stands for `d`.
pub open spec fn upper_hex_digit(d: nat) -> char {
    if d < 10 {
        (48 + d) as char
    } else {
        (55 + d) as char
    }
}

/// Bytes as upper-case hexadecimal digits, two for each.
pub open spec fn upper_hex(bytes: Seq<u8>) -> Seq<char>
    decreases bytes.len(),
{
    if bytes.len() == 0 {
        Seq::empty()
    } else {
        upper_hex(bytes.drop_last()) + seq![
            upper_hex_digit(bytes.last() as nat / 16),
            upper_hex_digit(bytes.last() as nat % 16),
        ]
    }
}

/// The upper-case hexadecimal digit that stands for `d`.
fn upper_digit(d: u8) -> (c: char)
    requires
        d < 16,
    ensures
        c == upper_hex_digit(d as nat),
{
    if d < 10 {
        (48 + d) as char
    } else {
        (55 + d) as char
    }
}

/// Appends bytes as upper-case hexadecimal digits to `out`.
pub fn push_upper_hex(out: &mut String, bytes: &[u8])
    ensures
        final(out)@ == old(out)@ + upper_hex(bytes@),
{
    let mut i: usize = 0;
    proof {
        assert(out@ =~= old(out)@ + upper_hex(bytes@.take(0)));
    }
    while i < bytes.len()
        invariant
            i <= bytes@.len(),
            out@ == old(out)@ + upper_hex(bytes@.take(i as int)),
        decreases bytes@.len() - i,
    {
        out.push(upper_digit(bytes[i] / 16));
        out.push(upper_digit(bytes[i] % 16));
        proof {
            assert(bytes@.take(i + 1).drop_last() =~= bytes@.take(i as int));
            assert(out@ =~= old(out)@ + upper_hex(bytes@.take(i + 1)));
        }
        i += 1;
    }
    proof {
        assert(bytes@.take(i as int) =~= bytes@);
    }
}

/// No hexadecimal digit is white space.
pub proof fn lemma_hex_is_not_white(bytes: Seq<u8>)
    ensures
        upper_hex(bytes).len() == 2 * bytes.len(),
        forall|i: int| 0 <= i < upper_hex(bytes).len() ==> !is_white(#[trigger] upper_hex(bytes)[i]),
    decreases bytes.len(),
{
    if bytes.len() > 0 {
        lemma_hex_is_not_white(bytes.drop_last());
    }
}

/// What a list of texts is.
pub open spec fn texts_view(v: Seq<Vec<char>>) -> Seq<Seq<char>> {
    v.map_values(|l: Vec<char>| l@)
}

/// How many characters stand before the first `c`.
pub open spec fn run_before(s: Seq<char>, c: char) -> nat
    decreases s.len(),
{
    if s.len() == 0 || s[0] == c {
        0
    } else {
        1 + run_before(s.drop_first(), c)
    }
}

/// The characters before the first `c` number at most all, and `c` comes next.
pub proof fn lemma_run_before(s: Seq<char>, c: char)
    ensures
        run_before(s, c) <= s.len(),
        run_before(s, c) < s.len() ==> s[run_before(s, c) as int] == c,
        forall|i: int| 0 <= i < run_before(s, c) ==> s[i] != c,
    decreases s.len(),
{
    if s.len() > 0 && s[0] != c {
        lemma_run_before(s.drop_first(), c);
        assert forall|i: int| 0 <= i < run_before(s, c) implies s[i] != c by {
            if i > 0 {
                assert(s.drop_first()[i - 1] == s[i]);
            }
        }
    }
}

/// How many characters stand before the first `c`.
pub fn find_char(s: &[char], c: char) -> (n: usize)
    ensures
        n == run_before(s@, c),
        n <= s@.len(),
{
    let mut n: usize = 0;
    proof {
        assert(s@.skip(0) =~= s@);
    }
    while n < s.len() && s[n] != c
        invariant
            n <= s@.len(),
            run_before(s@, c) == n + run_before(s@.skip(n as int), c),
        decreases s@.len() - n,
    {
        proof {
            assert(s@.skip(n as int)[0] == s@[n as int]);
            assert(s@.skip(n as int).drop_first() =~= s@.skip(n + 1));
        }
        n += 1;
    }
    proof {
        if n < s@.len() {
            assert(s@.skip(n as int)[0] == s@[n as int]);
        }
    }
    n
}

/// A line without the carriage return at its end.
pub open spec fn strip_cr(s: Seq<char>) -> Seq<char> {
    if s.len() > 0 && s.last() == '\r' {
        s.drop_last()
    } else {
        s
    }
}

/// The lines of a text. A line feed ends a line, together with a carriage
/// return before it; the last line may lack one.
pub open spec fn lines(s: Seq<char>) -> Seq<Seq<char>>
    decreases s.len(),
{
    if s.len() == 0 {
        Seq::empty()
    } else {
        let n = run_before(s, '\n') as int;
        if n >= s.len() {
            seq![s]
        } else {
            seq![strip_cr(s.take(n))] + lines(s.skip(n + 1))
        }
    }
}

/// The first line of a text, empty where there is none.
pub open spec fn first_line(s: Seq<char>) -> Seq<char> {
    if lines(s).len() == 0 {
        Seq::empty()
    } else {
        lines(s)[0]
    }
}

/// Splits a text into its lines.
pub fn split_lines(s: &[char]) -> (v: Vec<Vec<char>>)
    ensures
        texts_view(v@) == lines(s@),
{
    let mut v: Vec<Vec<char>> = Vec::new();
    let mut pos: usize = 0;
    proof {
        assert(s@.skip(0) =~= s@);
        assert(texts_view(v@) + lines(s@) =~= lines(s@));
    }
    while pos < s.len()
        invariant
            pos <= s@.len(),
            texts_view(v@) + lines(s@.skip(pos as int)) == lines(s@),
        decreases s@.len() - pos,
    {
        let ghost before = texts_view(v@);
        let ghost here = s@.skip(pos as int);
        let rest = &s[pos..s.len()];
        proof {
            assert(rest@ =~= here);
        }
        let n: usize = find_char(rest, '\n');
        if n == rest.len() {
            v.push(vstd::slice::slice_to_vec(rest));
            proof {
                assert(texts_view(v@) =~= before + seq![here]);
                assert(s@.skip(s@.len() as int) =~= Seq::empty());
                assert(texts_view(v@) + lines(s@.skip(s@.len() as int)) =~= lines(s@));
            }
            pos = s.len();
        } else {
            let end: usize = if n > 0 && rest[n - 1] == '\r' {
                n - 1
            } else {
                n
            };
            let line = vstd::slice::slice_to_vec(&rest[0..end]);
            proof {
                assert(line@ =~= strip_cr(here.take(n as int)));
                assert(here.skip(n + 1) =~= s@.skip(pos + n + 1));
                assert(texts_view(v@.push(line)) =~= before + seq![line@]);
                let tail = lines(here.skip(n + 1));
                assert(before + (seq![line@] + tail) =~= (before + seq![line@]) + tail);
            }
            v.push(line);
            pos = pos + n + 1;
        }
    }
    proof {
        assert(s@.skip(pos as int).len() == 0);
        assert(texts_view(v@) + Seq::<Seq<char>>::empty() =~= texts_view(v@));
    }
    v
}

/// Whether a text starts with another.
pub open spec fn starts_with(s: Seq<char>, prefix: Seq<char>) -> bool {
    prefix.is_prefix_of(s)
}

/// Whether a text starts with another.
pub fn has_prefix(s: &[char], prefix: &[char]) -> (r: bool)
    ensures
        r == starts_with(s@, prefix@),
{
    if prefix.len() > s.len() {
        return false;
    }
    let mut i: usize = 0;
    while i < prefix.len()
        invariant
            i <= prefix@.len() <= s@.len(),
            forall|j: int| 0 <= j < i ==> s@[j] == prefix@[j],
        decreases prefix@.len() - i,
    {
        if s[i] != prefix[i] {
            proof {
                assert(s@.subrange(0, prefix@.len() as int)[i as int] != prefix@[i as int]);
            }
            return false;
        }
        i += 1;
    }
    proof {
        assert(s@.subrange(0, prefix@.len() as int) =~= prefix@);
    }
    true
}

/// The number that decimal digits stand for; a value that is no number of
/// decimal digits has none.
pub open spec fn digits_value(s: Seq<char>) -> Option<nat>
    decreases s.len(),
{
    if s.len() == 0 {
        Some(0)
    } else {
        match digits_value(s.drop_last()) {
            Some(n) if '0' <= s.last() <= '9' => Some((n * 10 + (s.last() as int - 48)) as nat),
            _ => None,
        }
    }
}

/// The number below 2^16 that a text stands for: a plus sign or none, and at
/// least one decimal digit.
pub open spec fn u16_value(s: Seq<char>) -> Option<u16> {
    let digits = if s.len() > 0 && s[0] == '+' {
        s.drop_first()
    } else {
        s
    };
    match digits_value(digits) {
        Some(n) if digits.len() > 0 && n <= 0xffff => Some(n as u16),
        _ => None,
    }
}

proof fn lemma_digits_grow(s: Seq<char>, i: int)
    requires
        0 <= i <= s.len(),
        digits_value(s) is Some,
    ensures
        digits_value(s.take(i)) is Some,
        digits_value(s.take(i))->Some_0 <= digits_value(s)->Some_0,
    decreases s.len(),
{
    if i == s.len() {
        assert(s.take(i) =~= s);
    } else {
        lemma_digits_grow(s.drop_last(), i);
        assert(s.drop_last().take(i) =~= s.take(i));
    }
}

/// The number below 2^16 that a text stands for.
pub fn parse_u16(s: &[char]) -> (r: Option<u16>)
    ensures
        r == u16_value(s@),
{
    let digits = if s.len() > 0 && s[0] == '+' {
        &s[1..s.len()]
    } else {
        s
    };
    let ghost all = digits@;
    proof {
        if s@.len() > 0 && s@[0] == '+' {
            assert(all =~= s@.drop_first());
        }
    }
    if digits.len() == 0 {
        return None;
    }
    let mut n: u32 = 0;
    let mut i: usize = 0;
    while i < digits.len()
        invariant
            i <= digits@.len(),
            digits@ == all,
            all == (if s@.len() > 0 && s@[0] == '+' {
                s@.drop_first()
            } else {
                s@
            }),
            all.len() > 0,
            n <= 0xffff,
            digits_value(all.take(i as int)) == Some(n as nat),
        decreases digits@.len() - i,
    {
        let c = digits[i];
        proof {
            assert(all.take(i + 1).drop_last() =~= all.take(i as int));
            assert(all.take(i + 1).last() == c);
        }
        if c < '0' || c > '9' {
            proof {
                if digits_value(all) is Some {
                    lemma_digits_grow(all, i + 1);
                }
            }
            return None;
        }
        n = n * 10 + (c as u32 - 48);
        if n > 0xffff {
            proof {
                if digits_value(all) is Some {
                    lemma_digits_grow(all, i + 1);
                }
            }
            return None;
        }
        i += 1;
    }
    proof {
        assert(all.take(i as int) =~= all);
    }
    Some(n as u16)
}

/// What a list of strings is.
pub open spec fn strs_view(v: Seq<String>) -> Seq<Seq<char>> {
    v.map_values(|s: String| s@)
}

/// A string with the contents of a literal or another string.
pub fn owned(s: &str) -> (r: String)
    ensures
        r@ == s@,
{
    s.to_owned()
}

/// Two texts in a row.
pub fn join2(a: &str, b: &str) -> (r: String)
    ensures
        r@ == a@ + b@,
{
    let mut r = String::new();
    push_str(&mut r, a);
    push_str(&mut r, b);
    proof {
        assert(r@ =~= a@ + b@);
    }
    r
}

/// Three texts in a row.
pub fn join3(a: &str, b: &str, c: &str) -> (r: String)
    ensures
        r@ == a@ + b@ + c@,
{
    let mut r = join2(a, b);
    push_str(&mut r, c);
    proof {
        assert(r@ =~= a@ + b@ + c@);
    }
    r
}

/// Whether two texts are the same.
pub fn same_text(a: &str, b: &str) -> (r: bool)
    ensures
        r == (a@ == b@),
{
    let x = to_chars(a);
    let y = to_chars(b);
    if x.len() != y.len() {
        return false;
    }
    let r = has_prefix(x.as_slice(), y.as_slice());
    proof {
        if r {
            assert(x@.subrange(0, y@.len() as int) =~= x@);
        }
    }
    r
}

/// What an optional string is.
pub open spec fn opt_view(s: Option<String>) -> Option<Seq<char>> {
    match s {
        Some(x) => Some(x@),
        None => None,
    }
}

/// What an optional string slice is.
pub open spec fn opt_str_view(s: Option<&str>) -> Option<Seq<char>> {
    match s {
        Some(x) => Some(x@),
        None => None,
    }
}

/// Decimal digits stand for the number they are written for: the last is its
/// remainder by ten, and the ones before it are written for the rest. There is
/// no leading zero.
pub proof fn law_decimal_is_positional(n: nat)
    ensures
        decimal(n).len() > 0,
        decimal(n).last() as int == 48 + n % 10,
        n < 10 ==> decimal(n).len() == 1,
        n >= 10 ==> decimal(n).drop_last() == decimal(n / 10),
{
    if n >= 10 {
        assert(decimal(n).drop_last() =~= decimal(n / 10));
    }
}

/// Digits read as a number by their place, and a text with anything else in it
/// is none.
pub proof fn law_digits_are_positional(s: Seq<char>, c: char)
    ensures
        digits_value(Seq::empty()) == Some(0nat),
        digits_value(s) is None ==> digits_value(s.push(c)) is None,
        digits_value(s) matches Some(n) ==> digits_value(s.push(c)) == if 48 <= c as int
            <= 57 {
            Some((10 * n + (c as int - 48)) as nat)
        } else {
            None
        },
{
    assert(s.push(c).drop_last() =~= s);
}

/// A number reads back from its digits.
pub proof fn law_decimal_reads_back(n: nat)
    ensures
        digits_value(decimal(n)) == Some(n),
    decreases n,
{
    law_decimal_is_positional(n);
    let front = decimal(n).drop_last();
    assert(decimal(n) =~= front.push(decimal(n).last()));
    law_digits_are_positional(front, decimal(n).last());
    if n >= 10 {
        law_decimal_reads_back(n / 10);
    } else {
        assert(front =~= Seq::empty());
    }
}

/// Every number below 2^16 is read from its digits, with or without a plus
/// sign, and nothing is read as a number that is larger, empty or no digits.
pub proof fn law_small_numbers_are_read(n: nat, s: Seq<char>)
    ensures
        n <= 0xffff ==> u16_value(decimal(n)) == Some(n as u16),
        n <= 0xffff ==> u16_value(seq!['+'] + decimal(n)) == Some(n as u16),
        n > 0xffff ==> u16_value(decimal(n)) is None,
        u16_value(Seq::empty()) is None,
        s.len() > 0 && s[0] != '+' && digits_value(s) is None ==> u16_value(s) is None,
{
    law_decimal_reads_back(n);
    lemma_decimal_starts_with_a_digit(n);
    let signed = seq!['+'] + decimal(n);
    assert(signed.drop_first() =~= decimal(n));
}

proof fn lemma_decimal_starts_with_a_digit(n: nat)
    ensures
        decimal(n).len() > 0,
        48 <= decimal(n)[0] as int <= 57,
    decreases n,
{
    law_decimal_is_positional(n);
    if n >= 10 {
        lemma_decimal_starts_with_a_digit(n / 10);
        assert(decimal(n)[0] == decimal(n).drop_last()[0]);
    }
}

/// Two hexadecimal digits stand for each byte, the first counting sixteen
/// times: the digits 0 to 9, and A to F above.
pub proof fn law_upper_hex_is_positional(bytes: Seq<u8>, i: int)
    requires
        0 <= i < bytes.len(),
    ensures
        upper_hex(bytes).len() == 2 * bytes.len(),
        ({
            let h = upper_hex(bytes)[2 * i] as int;
            let l = upper_hex(bytes)[2 * i + 1] as int;
            let hv = if h <= 57 {
                h - 48
            } else {
                h - 55
            };
            let lv = if l <= 57 {
                l - 48
            } else {
                l - 55
            };
            &&& 48 <= h <= 57 || 65 <= h <= 70
            &&& 48 <= l <= 57 || 65 <= l <= 70
            &&& hv * 16 + lv == bytes[i]
        }),
    decreases bytes.len(),
{
    lemma_hex_is_not_white(bytes);
    lemma_hex_is_not_white(bytes.drop_last());
    let front = upper_hex(bytes.drop_last());
    if i < bytes.len() - 1 {
        law_upper_hex_is_positional(bytes.drop_last(), i);
        assert(upper_hex(bytes)[2 * i] == front[2 * i]);
        assert(upper_hex(bytes)[2 * i + 1] == front[2 * i + 1]);
    } else {
        let b = bytes.last() as nat;
        assert(upper_hex(bytes)[2 * i] == upper_hex_digit(b / 16));
        assert(upper_hex(bytes)[2 * i + 1] == upper_hex_digit(b % 16));
    }
}

/// Whether all of a text is white space.
pub open spec fn all_white(s: Seq<char>) -> bool {
    forall|i: int| 0 <= i < s.len() ==> is_white(#[trigger] s[i])
}

/// White space is the tabulators and line ends from 9 to 13, the blank, and
/// the wider blanks and line ends of Unicode.
pub proof fn law_white_space(c: char)
    ensures
        is_white(c) <==> {
            let n = c as int;
            9 <= n <= 13 || n == 32 || n == 133 || n == 160 || n == 5760 || 8192 <= n <= 8202 || n
                == 8232 || n == 8233 || n == 8239 || n == 8287 || n == 12288
        },
{
    vstd::utf8::char_is_scalar(c);
}

/// Trimming takes off white space and nothing else, and all of it: what it
/// leaves has none at either end.
pub proof fn law_trimming_takes_white_space_off(s: Seq<char>)
    ensures
        exists|a: Seq<char>, b: Seq<char>|
            #![trigger all_white(a), all_white(b)]
            all_white(a) && all_white(b) && s == a + trimmed(s) + b,
        trimmed(s).len() > 0 ==> !is_white(trimmed(s)[0]) && !is_white(trimmed(s).last()),
{
    let t = trim_start(s);
    let a = s.take(s.len() - t.len());
    let b = t.skip(trim_end(t).len() as int);
    lemma_trim_start(s);
    lemma_trim_end(t);
    assert(all_white(a) && all_white(b));
    assert(s =~= a + trimmed(s) + b);
}

proof fn lemma_trim_start(s: Seq<char>)
    ensures
        trim_start(s).len() <= s.len(),
        s == s.take(s.len() - trim_start(s).len()) + trim_start(s),
        all_white(s.take(s.len() - trim_start(s).len())),
        trim_start(s).len() > 0 ==> !is_white(trim_start(s)[0]),
    decreases s.len(),
{
    let t = trim_start(s);
    if s.len() > 0 && is_white(s[0]) {
        let rest = s.drop_first();
        lemma_trim_start(rest);
        let front = s.take(s.len() - t.len());
        assert forall|i: int| 0 <= i < front.len() implies is_white(#[trigger] front[i]) by {
            if i > 0 {
                assert(rest.take(rest.len() - t.len())[i - 1] == front[i]);
            }
        }
        assert(s =~= front + t) by {
            assert(rest == rest.take(rest.len() - t.len()) + t);
            assert forall|i: int| 0 <= i < s.len() implies s[i] == (front + t)[i] by {
                if i > 0 {
                    assert(rest[i - 1] == s[i]);
                }
            }
        }
    } else {
        assert(s =~= s.take(0) + t);
    }
}

proof fn lemma_trim_end(s: Seq<char>)
    ensures
        trim_end(s).len() <= s.len(),
        s == trim_end(s) + s.skip(trim_end(s).len() as int),
        all_white(s.skip(trim_end(s).len() as int)),
        trim_end(s).len() > 0 ==> !is_white(trim_end(s).last()) && trim_end(s)[0] == s[0],
    decreases s.len(),
{
    let t = trim_end(s);
    if s.len() > 0 && is_white(s.last()) {
        let rest = s.drop_last();
        lemma_trim_end(rest);
        let back = s.skip(t.len() as int);
        assert forall|i: int| 0 <= i < back.len() implies is_white(#[trigger] back[i]) by {
            if i < back.len() - 1 {
                assert(rest.skip(t.len() as int)[i] == back[i]);
            }
        }
        assert(s =~= t + back) by {
            assert(rest == t + rest.skip(t.len() as int));
            assert forall|i: int| 0 <= i < s.len() implies s[i] == (t + back)[i] by {
                if i < t.len() {
                    assert(rest[i] == s[i]);
                }
            }
        }
    } else {
        assert(s =~= t + s.skip(t.len() as int));
    }
}

/// The first word is what stands between white space at the start and the
/// next white space: there is one unless all is white.
pub proof fn law_first_word_is_found(before: Seq<char>, word: Seq<char>, rest: Seq<char>)
    requires
        all_white(before),
        forall|i: int| 0 <= i < word.len() ==> !is_white(#[trigger] word[i]),
        rest.len() == 0 || is_white(rest[0]),
    ensures
        word.len() > 0 ==> first_word(before + word + rest) == Some(word),
        first_word(before) is None,
    decreases before.len(),
{
    let s = before + word + rest;
    if before.len() == 0 {
        if word.len() > 0 {
            assert(s =~= word + rest);
            lemma_first_word(word, rest);
        }
    } else {
        let more = before.drop_first();
        assert forall|i: int| 0 <= i < more.len() implies is_white(#[trigger] more[i]) by {
            assert(before[i + 1] == more[i]);
        }
        law_first_word_is_found(more, word, rest);
        assert(is_white(before[0]));
        assert(s[0] == before[0]);
        assert(s.drop_first() =~= more + word + rest);
    }
}

/// Lines end with a line feed, which with a carriage return before it is not
/// part of them; what stands behind the last one is a line if it is anything.
pub proof fn law_lines_are_split(line: Seq<char>, rest: Seq<char>)
    requires
        !line.contains('\n'),
    ensures
        lines(Seq::empty()) == Seq::<Seq<char>>::empty(),
        line.len() > 0 ==> lines(line) == seq![line],
        line.len() == 0 || line.last() != '\r' ==> lines(line + seq!['\n'] + rest) == seq![line]
            + lines(rest),
        lines(line + seq!['\r', '\n'] + rest) == seq![line] + lines(rest),
{
    lemma_no_run(line, '\n');
    if line.len() > 0 {
        assert(lines(line) =~= seq![line]);
    }
    let s = line + seq!['\n'] + rest;
    lemma_run_is(line, seq!['\n'] + rest, '\n');
    assert(s =~= line + (seq!['\n'] + rest));
    assert(s.take(line.len() as int) =~= line);
    assert(s.skip(line.len() as int + 1) =~= rest);
    let long = line.push('\r');
    let t = line + seq!['\r', '\n'] + rest;
    assert(!long.contains('\n')) by {
        if long.contains('\n') {
            let i = choose|i: int| 0 <= i < long.len() && long[i] == '\n';
            assert(line[i] == '\n');
            assert(line.contains('\n'));
        }
    }
    lemma_run_is(long, seq!['\n'] + rest, '\n');
    assert(t =~= long + (seq!['\n'] + rest));
    assert(t.take(long.len() as int) =~= long);
    assert(long.drop_last() =~= line);
    assert(t.skip(long.len() as int + 1) =~= rest);
}

/// Without the character, the run is the whole text.
pub proof fn lemma_no_run(s: Seq<char>, c: char)
    requires
        !s.contains(c),
    ensures
        run_before(s, c) == s.len(),
{
    lemma_run_before(s, c);
    if run_before(s, c) < s.len() {
        assert(s.contains(s[run_before(s, c) as int]));
    }
}

/// The run ends where the character first comes.
pub proof fn lemma_run_is(front: Seq<char>, back: Seq<char>, c: char)
    requires
        !front.contains(c),
        back.len() > 0,
        back[0] == c,
    ensures
        run_before(front + back, c) == front.len(),
{
    let s = front + back;
    lemma_run_before(s, c);
    let n = run_before(s, c) as int;
    if n < front.len() {
        assert(front[n] == s[n]);
        assert(front.contains(front[n]));
    } else if n > front.len() {
        assert(s[front.len() as int] == c);
    }
}

/// A text starts with another exactly where it is that text with more behind
/// it.
pub proof fn law_prefixes_are_found(s: Seq<char>, prefix: Seq<char>, rest: Seq<char>)
    ensures
        starts_with(prefix + rest, prefix),
        starts_with(s, prefix) ==> s.len() >= prefix.len() && s == prefix + s.skip(
            prefix.len() as int,
        ),
{
    assert((prefix + rest).subrange(0, prefix.len() as int) =~= prefix);
    if starts_with(s, prefix) {
        assert(s =~= prefix + s.skip(prefix.len() as int));
    }
}

/// Two texts that differ at most in case have each letter in common, and any
/// other character exactly.
pub proof fn law_case_is_all_that_may_differ(a: Seq<char>, b: Seq<char>)
    ensures
        same_ignoring_case(a, b) <==> a.len() == b.len() && forall|i: int|
            0 <= i < a.len() ==> {
                let x = #[trigger] a[i] as int;
                let y = b[i] as int;
                x == y || (65 <= x <= 90 && y == x + 32) || (65 <= y <= 90 && x == y + 32)
            },
{
    assert forall|c: char, d: char| #[trigger] ascii_lower(c) == #[trigger] ascii_lower(d) <==> {
        let x = c as int;
        let y = d as int;
        x == y || (65 <= x <= 90 && y == x + 32) || (65 <= y <= 90 && x == y + 32)
    } by {
        vstd::utf8::char_is_scalar(c);
        vstd::utf8::char_is_scalar(d);
    }
}

/// Text with white space around it is trimmed to just that text, and white
/// space alone to nothing.
pub proof fn law_trimming_is_exact(before: Seq<char>, s: Seq<char>, behind: Seq<char>)
    requires
        all_white(before),
        all_white(behind),
        s.len() > 0 ==> !is_white(s[0]) && !is_white(s.last()),
    ensures
        s.len() > 0 ==> trimmed(before + s + behind) == s,
        trimmed(before).len() == 0,
    decreases before.len(),
{
    if before.len() > 0 {
        let more = before.drop_first();
        assert forall|i: int| 0 <= i < more.len() implies is_white(#[trigger] more[i]) by {
            assert(before[i + 1] == more[i]);
        }
        law_trimming_is_exact(more, s, behind);
        assert(is_white(before[0]));
        assert((before + s + behind).drop_first() =~= more + s + behind);
    } else if s.len() > 0 {
        assert(before + s + behind =~= s + behind);
        assert(trim_start(s + behind) == s + behind);
        lemma_trim_end_is_exact(s, behind);
    }
}

proof fn lemma_trim_end_is_exact(s: Seq<char>, behind: Seq<char>)
    requires
        all_white(behind),
        s.len() > 0,
        !is_white(s.last()),
    ensures
        trim_end(s + behind) == s,
    decreases behind.len(),
{
    if behind.len() > 0 {
        let less = behind.drop_last();
        assert forall|i: int| 0 <= i < less.len() implies is_white(#[trigger] less[i]) by {
            assert(behind[i] == less[i]);
        }
        assert(is_white(behind[behind.len() - 1]));
        assert((s + behind).drop_last() =~= s + less);
        lemma_trim_end_is_exact(s, less);
    } else {
        assert(s + behind =~= s);
    }
}

/// Every text of digits, with or without a plus sign, is read as the number it
/// stands for, leading zeros aside, as long as that is below 2^16; no other text
/// is read as a number.
pub proof fn law_only_digits_are_numbers(s: Seq<char>)
    ensures
        s.len() > 0 && s[0] != '+' ==> u16_value(s) == match digits_value(s) {
            Some(n) => if n < 0x1_0000 {
                Some(n as u16)
            } else {
                None
            },
            None => None,
        },
        s.len() > 0 && s[0] != '+' ==> u16_value(seq!['+'] + s) == u16_value(s),
        u16_value(seq!['+']) is None,
        u16_value(Seq::empty()) is None,
{
    assert((seq!['+'] + s).drop_first() =~= s);
    assert(seq!['+'].drop_first() =~= Seq::<char>::empty());
}

/// Bytes are listed in brackets, each as two hexadecimal digits, with a comma
/// and a blank between any two.
pub proof fn law_bytes_are_listed(bytes: Seq<u8>, b: u8)
    ensures
        hex_list(Seq::empty()) == seq!['[', ']'],
        hex_list(bytes) == seq!['['] + hex_items(bytes) + seq![']'],
        hex_items(seq![b]) == hex_byte(b),
        bytes.len() > 0 ==> hex_items(bytes.push(b)) == hex_items(bytes) + seq![',', ' ']
            + hex_byte(b),
        hex_byte(b).len() == 2,
        ({
            let h = hex_byte(b)[0] as int;
            let l = hex_byte(b)[1] as int;
            &&& 48 <= h <= 57 || 97 <= h <= 102
            &&& 48 <= l <= 57 || 97 <= l <= 102
            &&& (if h <= 57 { h - 48 } else { h - 87 }) * 16 + (if l <= 57 { l - 48 } else { l - 87 })
                == b
        }),
{
    assert(hex_list(Seq::empty()) =~= seq!['[', ']']);
    reveal_strlit(", ");
    if bytes.len() > 0 {
        assert(bytes.push(b).drop_last() =~= bytes);
        assert(", "@ =~= seq![',', ' ']);
    }
}

} // verus!

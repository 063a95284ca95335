//! Text as sequences of characters: conversion between strings and character
//! vectors, trimming, prefixes, line splitting, whitespace splitting and the
//! decimal rendering of numbers.

use vstd::prelude::*;

verus! {

/// `String::push` appends one character.
pub assume_specification[ String::push ](s: &mut String, c: char)
    ensures
        final(s)@ == old(s)@.push(c),
;

/// The characters with the Unicode property `White_Space`: U+0009 to U+000D,
/// U+0020, U+0085, U+00A0, U+1680, U+2000 to U+200A, U+2028, U+2029, U+202F,
/// U+205F and U+3000.
pub open spec fn white_space(c: char) -> bool {
    let u = c as u32;
    (0x09 <= u <= 0x0D) || u == 0x20 || u == 0x85 || u == 0xA0 || u == 0x1680 || (0x2000 <= u
        <= 0x200A) || u == 0x2028 || u == 0x2029 || u == 0x202F || u == 0x205F || u == 0x3000
}

/// `char::is_whitespace` tells whether a character has the Unicode property
/// `White_Space`.
pub assume_specification[ char::is_whitespace ](c: char) -> (r: bool)
    ensures
        r == white_space(c),
;

/// What `str::to_lowercase` makes of a text.
pub uninterp spec fn lowercase(s: Seq<char>) -> Seq<char>;

/// Calls `str::to_lowercase`.  Trusted: the result depends on the text alone.
#[verifier::external_body]
pub(crate) fn to_lowercase(s: &str) -> (r: String)
    ensures
        r@ == lowercase(s@),
{
    s.to_lowercase()
}

/// The message with which `core::str::from_utf8` refuses bytes that are not
/// UTF-8.
pub uninterp spec fn utf8_error_text(bytes: Seq<u8>) -> Seq<char>;

/// Calls `core::str::from_utf8`, and renders the error where there is one.
/// Trusted: bytes are accepted exactly when they are well-formed UTF-8, the
/// text then holds the characters they encode, and the error's message depends
/// on the bytes alone.
#[verifier::external_body]
pub(crate) fn utf8_text(bytes: &[u8]) -> (r: Result<&str, String>)
    ensures
        r is Ok <==> vstd::utf8::valid_utf8(bytes@),
        r matches Ok(text) ==> text@ == vstd::utf8::decode_utf8(bytes@),
        r matches Err(msg) ==> msg@ == utf8_error_text(bytes@),
{
    match core::str::from_utf8(bytes) {
        Ok(text) => Ok(text),
        Err(e) => Err(e.to_string()),
    }
}

/// Appends the UTF-8 encoding of `text` to `out`.
pub fn write_utf8(out: &mut Vec<u8>, text: &Vec<char>)
    ensures
        final(out)@ == old(out)@ + vstd::utf8::encode_utf8(text@),
{
    let s = from_chars(text);
    out.extend_from_slice(s.as_str().as_bytes());
}

/// The characters of a string.
pub fn to_chars(s: &str) -> (v: Vec<char>)
    ensures
        v@ == s@,
{
    let mut v: Vec<char> = Vec::new();
    for c in it: s.chars()
        invariant
            v@ == it.seq().take(it.index() as int),
            it.seq() == s@,
    {
        v.push(c);
    }
    v
}

/// The string made of the given characters.
pub fn from_chars(v: &Vec<char>) -> (s: String)
    ensures
        s@ == v@,
{
    let mut s = String::new();
    let mut i: usize = 0;
    while i < v.len()
        invariant
            i <= v.len(),
            s@ == v@.take(i as int),
        decreases v.len() - i,
    {
        s.push(v[i]);
        i = i + 1;
    }
    s
}

/// Appends the characters of `text` to `out`.
pub fn push_str(out: &mut Vec<char>, text: &str)
    ensures
        final(out)@ == old(out)@ + text@,
{
    let ghost before = out@;
    for c in it: text.chars()
        invariant
            out@ == before + it.seq().take(it.index() as int),
            it.seq() == text@,
    {
        out.push(c);
    }
}

/// Appends the characters of `text` to `out`.
pub fn push_chars(out: &mut Vec<char>, text: &Vec<char>)
    ensures
        final(out)@ == old(out)@ + text@,
{
    let ghost before = out@;
    let mut i: usize = 0;
    while i < text.len()
        invariant
            i <= text.len(),
            out@ == before + text@.take(i as int),
        decreases text.len() - i,
    {
        out.push(text[i]);
        i = i + 1;
    }
}

/// The characters of `v` from index `from` up to, not including, index `to`.
pub fn slice_chars(v: &Vec<char>, from: usize, to: usize) -> (r: Vec<char>)
    requires
        from <= to <= v.len(),
    ensures
        r@ == v@.subrange(from as int, to as int),
{
    let mut r: Vec<char> = Vec::new();
    let mut i: usize = from;
    while i < to
        invariant
            from <= i <= to <= v.len(),
            r@ == v@.subrange(from as int, i as int),
        decreases to - i,
    {
        r.push(v[i]);
        i = i + 1;
    }
    r
}

/// Whether two texts hold the same characters.
pub fn same_chars(a: &Vec<char>, b: &Vec<char>) -> (r: bool)
    ensures
        r == (a@ == b@),
{
    if a.len() != b.len() {
        return false;
    }
    let mut i: usize = 0;
    while i < a.len()
        invariant
            i <= a.len(),
            a.len() == b.len(),
            a@.take(i as int) == b@.take(i as int),
        decreases a.len() - i,
    {
        if a[i] != b[i] {
            return false;
        }
        assert(a@.take(i + 1) == a@.take(i as int).push(a@[i as int]));
        assert(b@.take(i + 1) == b@.take(i as int).push(b@[i as int]));
        i = i + 1;
    }
    assert(a@ == a@.take(a.len() as int));
    assert(b@ == b@.take(b.len() as int));
    true
}

/// Whether `text` is exactly the literal `lit`.
pub fn is_literal(text: &Vec<char>, lit: &str) -> (r: bool)
    ensures
        r == (text@ == lit@),
{
    let other = to_chars(lit);
    same_chars(text, &other)
}

/// Whether `text` begins with `prefix`.
pub open spec fn starts_with(text: Seq<char>, prefix: Seq<char>) -> bool {
    prefix.len() <= text.len() && text.subrange(0, prefix.len() as int) == prefix
}

/// What is left of `text` after the leading `prefix`, if it begins with it.
pub open spec fn strip_prefix(text: Seq<char>, prefix: Seq<char>) -> Option<Seq<char>> {
    if starts_with(text, prefix) {
        Some(text.skip(prefix.len() as int))
    } else {
        None
    }
}

/// Removes the literal `prefix` from the front of `text`, if it is there.
pub fn strip_literal_prefix(text: &Vec<char>, prefix: &str) -> (r: Option<Vec<char>>)
    ensures
        match strip_prefix(text@, prefix@) {
            Some(rest) => r matches Some(v) && v@ == rest,
            None => r is None,
        },
{
    let p = to_chars(prefix);
    if p.len() > text.len() {
        return None;
    }
    let head = slice_chars(text, 0, p.len());
    if same_chars(&head, &p) {
        Some(slice_chars(text, p.len(), text.len()))
    } else {
        None
    }
}

/// `text` without its leading whitespace.
pub open spec fn trim_start(text: Seq<char>) -> Seq<char>
    decreases text.len(),
{
    if text.len() > 0 && white_space(text[0]) {
        trim_start(text.skip(1))
    } else {
        text
    }
}

/// `text` without its trailing whitespace.
pub open spec fn trim_end(text: Seq<char>) -> Seq<char>
    decreases text.len(),
{
    if text.len() > 0 && white_space(text.last()) {
        trim_end(text.drop_last())
    } else {
        text
    }
}

/// `text` without leading and trailing whitespace.
pub open spec fn trim(text: Seq<char>) -> Seq<char> {
    trim_end(trim_start(text))
}

/// Removes leading and trailing whitespace.
pub fn trim_chars(text: &Vec<char>) -> (r: Vec<char>)
    ensures
        r@ == trim(text@),
{
    let mut from: usize = 0;
    assert(text@.skip(0) == text@);
    while from < text.len() && text[from].is_whitespace()
        invariant
            from <= text.len(),
            trim_start(text@) == trim_start(text@.skip(from as int)),
        decreases text.len() - from,
    {
        assert(text@.skip(from as int).skip(1) == text@.skip(from + 1));
        from = from + 1;
    }
    let mut to: usize = text.len();
    while to > from && text[to - 1].is_whitespace()
        invariant
            from <= to <= text.len(),
            trim_start(text@) == text@.skip(from as int),
            trim(text@) == trim_end(text@.subrange(from as int, to as int)),
        decreases to,
    {
        assert(text@.subrange(from as int, to as int).drop_last() == text@.subrange(
            from as int,
            to - 1,
        ));
        to = to - 1;
    }
    slice_chars(text, from, to)
}

/// The index of the first line feed in `text`, or its length if it has none.
pub open spec fn first_newline(text: Seq<char>) -> int
    decreases text.len(),
{
    if text.len() == 0 || text[0] == '\n' {
        0
    } else {
        1 + first_newline(text.skip(1))
    }
}

/// A line as it stood before its line feed, without the carriage return that
/// may precede the line feed.
pub open spec fn without_carriage_return(line: Seq<char>) -> Seq<char> {
    if line.len() > 0 && line.last() == '\r' {
        line.drop_last()
    } else {
        line
    }
}

/// The lines of a text.  A line ends at a line feed or at the end of the
/// text; the line feed, and a carriage return directly before it, are not
/// part of the line.  A text that ends in a line feed has no empty last line.
pub open spec fn split_lines(text: Seq<char>) -> Seq<Seq<char>>
    decreases text.len(),
{
    if text.len() == 0 {
        Seq::empty()
    } else {
        let k = first_newline(text);
        if 0 <= k < text.len() {
            seq![without_carriage_return(text.take(k))] + split_lines(text.skip(k + 1))
        } else {
            seq![text]
        }
    }
}

/// Where the first line feed of a text stands: after a stretch without one.
pub proof fn lemma_first_newline(text: Seq<char>, k: int)
    requires
        0 <= k <= text.len(),
        forall|j: int| 0 <= j < k ==> text[j] != '\n',
        k == text.len() || text[k] == '\n',
    ensures
        first_newline(text) == k,
    decreases k,
{
    if k > 0 {
        lemma_first_newline(text.skip(1), k - 1);
    }
}

/// Splits a text into its lines.
pub fn lines(text: &Vec<char>) -> (r: Vec<Vec<char>>)
    ensures
        r@.len() == split_lines(text@).len(),
        forall|i: int| 0 <= i < r@.len() ==> (#[trigger] r@[i])@ == split_lines(text@)[i],
{
    let mut r: Vec<Vec<char>> = Vec::new();
    let ghost mut done: Seq<Seq<char>> = Seq::empty();
    let mut start: usize = 0;
    let mut i: usize = 0;
    assert(text@.skip(0) == text@);
    while i < text.len()
        invariant
            start <= i <= text.len(),
            forall|j: int| start <= j < i ==> text@[j] != '\n',
            split_lines(text@) == done + split_lines(text@.skip(start as int)),
            r@.len() == done.len(),
            forall|j: int| 0 <= j < r@.len() ==> (#[trigger] r@[j])@ == done[j],
        decreases text.len() - i,
    {
        if text[i] == '\n' {
            let end = if i > start && text[i - 1] == '\r' {
                i - 1
            } else {
                i
            };
            let line = slice_chars(text, start, end);
            proof {
                let rest = text@.skip(start as int);
                lemma_first_newline(rest, i - start);
                assert(rest.take(i - start) == text@.subrange(start as int, i as int));
                assert(rest.skip(i - start + 1) == text@.skip(i + 1));
                assert(line@ == without_carriage_return(rest.take(i - start)));
                assert(split_lines(rest) == seq![line@] + split_lines(text@.skip(i + 1)));
                done = done.push(line@);
            }
            r.push(line);
            start = i + 1;
        }
        i = i + 1;
    }
    if start < text.len() {
        let line = slice_chars(text, start, text.len());
        proof {
            let rest = text@.skip(start as int);
            lemma_first_newline(rest, text.len() - start);
            assert(line@ == rest);
            assert(split_lines(rest) == seq![rest]);
            done = done.push(line@);
        }
        r.push(line);
    } else {
        assert(split_lines(text@.skip(start as int)) == Seq::<Seq<char>>::empty());
    }
    assert(split_lines(text@) == done);
    r
}

/// The length of the stretch without whitespace at the front of `text`.
pub open spec fn word_len(text: Seq<char>) -> int
    decreases text.len(),
{
    if text.len() == 0 || white_space(text[0]) {
        0
    } else {
        1 + word_len(text.skip(1))
    }
}

/// The words of a text: its maximal stretches without whitespace, in order.
pub open spec fn split_whitespace(text: Seq<char>) -> Seq<Seq<char>>
    decreases text.len(),
{
    if text.len() == 0 {
        Seq::empty()
    } else if white_space(text[0]) {
        split_whitespace(text.skip(1))
    } else {
        let k = word_len(text);
        if 0 < k <= text.len() {
            seq![text.take(k)] + split_whitespace(text.skip(k))
        } else {
            Seq::empty()
        }
    }
}

/// The first word of a text that begins with one.
pub proof fn lemma_word_len(text: Seq<char>, k: int)
    requires
        0 <= k <= text.len(),
        forall|j: int| 0 <= j < k ==> !white_space(text[j]),
        k == text.len() || white_space(text[k]),
    ensures
        word_len(text) == k,
    decreases k,
{
    if k > 0 {
        lemma_word_len(text.skip(1), k - 1);
    }
}

/// Splits a text into its words.
pub fn words(text: &Vec<char>) -> (r: Vec<Vec<char>>)
    ensures
        r@.len() == split_whitespace(text@).len(),
        forall|i: int| 0 <= i < r@.len() ==> (#[trigger] r@[i])@ == split_whitespace(text@)[i],
{
    let mut r: Vec<Vec<char>> = Vec::new();
    let ghost mut done: Seq<Seq<char>> = Seq::empty();
    let mut pos: usize = 0;
    assert(text@.skip(0) == text@);
    while pos < text.len()
        invariant
            pos <= text.len(),
            split_whitespace(text@) == done + split_whitespace(text@.skip(pos as int)),
            r@.len() == done.len(),
            forall|j: int| 0 <= j < r@.len() ==> (#[trigger] r@[j])@ == done[j],
        decreases text.len() - pos,
    {
        let ghost rest = text@.skip(pos as int);
        if text[pos].is_whitespace() {
            proof {
                assert(rest.skip(1) == text@.skip(pos + 1));
            }
            pos = pos + 1;
        } else {
            let mut end: usize = pos + 1;
            while end < text.len() && !text[end].is_whitespace()
                invariant
                    pos < end <= text.len(),
                    forall|j: int| pos <= j < end ==> !white_space(text@[j]),
                decreases text.len() - end,
            {
                end = end + 1;
            }
            let word = slice_chars(text, pos, end);
            proof {
                lemma_word_len(rest, end - pos);
                assert(rest.take(end - pos) == word@);
                assert(rest.skip(end - pos) == text@.skip(end as int));
                assert(split_whitespace(rest) == seq![word@] + split_whitespace(
                    text@.skip(end as int),
                ));
                done = done.push(word@);
            }
            r.push(word);
            pos = end;
        }
    }
    assert(split_whitespace(text@.skip(pos as int)) == Seq::<Seq<char>>::empty());
    assert(split_whitespace(text@) == done);
    r
}

/// The character that stands for the digit `d`.
pub open spec fn digit_char(d: int) -> char {
    ('0' as int + d) as char
}

/// The decimal rendering of a number, without sign or leading zeros.
pub open spec fn number_text(n: nat) -> Seq<char>
    decreases n,
{
    if n < 10 {
        seq![digit_char(n as int)]
    } else {
        number_text(n / 10).push(digit_char((n % 10) as int))
    }
}

/// Appends the decimal rendering of `n` to `out`.
pub fn push_number(out: &mut Vec<char>, n: u128)
    ensures
        final(out)@ == old(out)@ + number_text(n as nat),
    decreases n,
{
    if n >= 10 {
        push_number(out, n / 10);
    }
    let d: u8 = (n % 10) as u8;
    let c: char = (48u8 + d) as char;
    assert(c == digit_char((n % 10) as int));
    out.push(c);
    assert(n < 10 ==> old(out)@ + number_text(n as nat) == old(out)@.push(c));
    assert(n >= 10 ==> old(out)@ + number_text(n as nat) == (old(out)@ + number_text(
        (n / 10) as nat,
    )).push(c));
}

/// Trimming at the front removes a stretch of whitespace and nothing else.
pub proof fn lemma_trim_start(text: Seq<char>)
    ensures
        trim_start(text).len() <= text.len(),
        trim_start(text) == text.skip(text.len() - trim_start(text).len()),
        trim_start(text).len() > 0 ==> !white_space(trim_start(text)[0]),
        forall|j: int| 0 <= j < text.len() - trim_start(text).len() ==> white_space(text[j]),
    decreases text.len(),
{
    if text.len() > 0 && white_space(text[0]) {
        let rest = text.skip(1);
        lemma_trim_start(rest);
        let n = rest.len() - trim_start(rest).len();
        assert(rest.skip(n) == text.skip(n + 1));
        assert forall|j: int| 0 <= j < text.len() - trim_start(text).len() implies white_space(
            text[j],
        ) by {
            if j > 0 {
                assert(text[j] == rest[j - 1]);
            }
        }
    } else {
        assert(text.skip(0) == text);
    }
}

/// Trimming at the back removes a stretch of whitespace and nothing else.
pub proof fn lemma_trim_end(text: Seq<char>)
    ensures
        trim_end(text).len() <= text.len(),
        trim_end(text) == text.take(trim_end(text).len() as int),
        trim_end(text).len() > 0 ==> !white_space(trim_end(text).last()),
        forall|j: int| trim_end(text).len() <= j < text.len() ==> white_space(text[j]),
    decreases text.len(),
{
    if text.len() > 0 && white_space(text.last()) {
        let rest = text.drop_last();
        lemma_trim_end(rest);
        let n = trim_end(rest).len() as int;
        assert(rest.take(n) == text.take(n));
        assert forall|j: int| trim_end(text).len() <= j < text.len() implies white_space(
            text[j],
        ) by {
            if j < text.len() - 1 {
                assert(text[j] == rest[j]);
            }
        }
    } else {
        assert(text.take(text.len() as int) == text);
    }
}

/// A text with no whitespace at either end is its own trimming.
pub proof fn lemma_trim_unchanged(text: Seq<char>)
    requires
        text.len() > 0 ==> !white_space(text[0]) && !white_space(text.last()),
    ensures
        trim(text) == text,
{
}

/// The trimming of a text that holds a character other than whitespace is
/// not empty.
pub proof fn lemma_trim_not_empty(text: Seq<char>, i: int)
    requires
        0 <= i < text.len(),
        !white_space(text[i]),
    ensures
        trim(text).len() > 0,
{
    lemma_trim_start(text);
    let front = trim_start(text);
    let k = text.len() - front.len();
    assert(k <= i) by {
        if k > i {
            assert(white_space(text[i]));
        }
    }
    lemma_trim_end(front);
    assert(front[i - k] == text[i]);
    assert(trim_end(front).len() > i - k) by {
        if trim_end(front).len() <= i - k {
            assert(white_space(front[i - k]));
        }
    }
}

/// Lines written one after the other, each with its line feed.
pub open spec fn join_lines(lines: Seq<Seq<char>>) -> Seq<char>
    decreases lines.len(),
{
    if lines.len() == 0 {
        Seq::empty()
    } else {
        lines[0].push('\n') + join_lines(lines.skip(1))
    }
}

/// A text that can stand as a line: it holds no line feed and does not end
/// in a carriage return.
pub open spec fn is_line(text: Seq<char>) -> bool {
    !text.contains('\n') && (text.len() > 0 ==> text.last() != '\r')
}

/// Text without line feed, written with a line feed before other text, is the
/// first line of the whole, but for a carriage return at its end.
pub proof fn lemma_split_line(line: Seq<char>, rest: Seq<char>)
    requires
        !line.contains('\n'),
    ensures
        split_lines(line.push('\n') + rest) == seq![without_carriage_return(line)] + split_lines(
            rest,
        ),
{
    let text = line.push('\n') + rest;
    let k = line.len() as int;
    assert forall|j: int| 0 <= j < k implies text[j] != '\n' by {
        assert(text[j] == line[j]);
        assert(line.contains(line[j]));
    }
    assert(text[k] == '\n');
    lemma_first_newline(text, k);
    assert(text.take(k) == line);
    assert(text.skip(k + 1) == rest);
}

/// A line written with its line feed before other text is the first line of
/// the whole.
pub proof fn lemma_split_first_line(line: Seq<char>, rest: Seq<char>)
    requires
        is_line(line),
    ensures
        split_lines(line.push('\n') + rest) == seq![line] + split_lines(rest),
{
    let text = line.push('\n') + rest;
    let k = line.len() as int;
    assert forall|j: int| 0 <= j < k implies text[j] != '\n' by {
        assert(text[j] == line[j]);
        assert(line.contains(line[j]));
    }
    assert(text[k] == '\n');
    lemma_first_newline(text, k);
    assert(text.take(k) == line);
    assert(text.skip(k + 1) == rest);
}

/// Lines written one after the other split back into themselves.
pub proof fn lemma_split_joined_lines(lines: Seq<Seq<char>>)
    requires
        forall|i: int| 0 <= i < lines.len() ==> is_line(#[trigger] lines[i]),
    ensures
        split_lines(join_lines(lines)) == lines,
    decreases lines.len(),
{
    if lines.len() > 0 {
        let rest = lines.skip(1);
        assert forall|i: int| 0 <= i < rest.len() implies is_line(#[trigger] rest[i]) by {
            assert(rest[i] == lines[i + 1]);
        }
        lemma_split_joined_lines(rest);
        lemma_split_first_line(lines[0], join_lines(rest));
        assert(seq![lines[0]] + rest == lines);
    }
}

/// Joining lines that come in two runs joins each run.
pub proof fn lemma_join_lines_add(a: Seq<Seq<char>>, b: Seq<Seq<char>>)
    ensures
        join_lines(a + b) == join_lines(a) + join_lines(b),
    decreases a.len(),
{
    if a.len() == 0 {
        assert(a + b == b);
    } else {
        assert((a + b).skip(1) == a.skip(1) + b);
        assert((a + b)[0] == a[0]);
        lemma_join_lines_add(a.skip(1), b);
        assert(join_lines(a + b) =~= join_lines(a) + join_lines(b));
    }
}

} // verus!

//! Text as the protocol needs it: numbers in digits, blank and trimmed text,
//! ASCII case and the search for a mark.

use vstd::prelude::*;
use vstd::string::{StrSliceExecFns, StringExecFns};

verus! {

/// `String::push`: the text with one more character at its end.
pub assume_specification[ String::push ](receiver: &mut String, ch: char)
    ensures
        final(receiver)@ == old(receiver)@.push(ch),
;

/// `std::str::Utf8Error`, which says why bytes are no text.
#[verifier::external_type_specification]
#[verifier::external_body]
pub struct ExUtf8Error(std::str::Utf8Error);

/// What `std::str::from_utf8` finds wrong with bytes that are no text.
pub uninterp spec fn utf8_error_of(bytes: Seq<u8>) -> std::str::Utf8Error;

/// How an error about bytes that are no text reads.
pub uninterp spec fn utf8_error_text(e: std::str::Utf8Error) -> Seq<char>;

/// `std::str::from_utf8`: the text that bytes stand for, if they are UTF-8, and
/// otherwise an error that the bytes determine.
#[verifier::external_body]
pub(crate) fn utf8_text(bytes: &[u8]) -> (text: Result<String, std::str::Utf8Error>)
    ensures
        text is Ok <==> vstd::utf8::valid_utf8(bytes@),
        text matches Ok(t) ==> t@ == vstd::utf8::decode_utf8(bytes@),
        text matches Err(e) ==> e == utf8_error_of(bytes@),
{
    std::str::from_utf8(bytes).map(|text| text.to_string())
}

/// `to_string` of a `std::str::Utf8Error`: its text, which the error determines.
#[verifier::external_body]
pub(crate) fn utf8_error_message(e: &std::str::Utf8Error) -> (text: String)
    ensures
        text@ == utf8_error_text(*e),
{
    e.to_string()
}

/// How it reads that bytes are no text.
pub open spec fn utf8_failure(bytes: Seq<u8>) -> Seq<char> {
    utf8_error_text(utf8_error_of(bytes))
}

/// A text as bytes.
pub open spec fn utf8(text: Seq<char>) -> Seq<u8> {
    vstd::utf8::encode_utf8(text)
}

/// One digit, up to fifteen.
pub open spec fn digit(d: nat) -> char {
    if d < 10 {
        (48 + d) as char
    } else {
        (87 + d) as char
    }
}

/// A number in digits of the given base, most significant first.
pub open spec fn digits(n: nat, base: nat) -> Seq<char>
    decreases n,
{
    if base < 2 || n < base {
        seq![digit(n)]
    } else {
        proof {
            vstd::arithmetic::div_mod::lemma_div_decreases(n as int, base as int);
        }
        digits(n / base, base).push(digit(n % base))
    }
}

/// A number in decimal.
pub open spec fn decimal(n: nat) -> Seq<char> {
    digits(n, 10)
}

/// A number in hexadecimal, with its mark.
pub open spec fn hexadecimal(n: nat) -> Seq<char> {
    "0x"@ + digits(n, 16)
}

fn digit_of(d: u8) -> (c: char)
    requires
        d < 16,
    ensures
        c == digit(d as nat),
{
    if d < 10 {
        (48 + d) as char
    } else {
        (87 + d) as char
    }
}

pub fn push_digits(out: &mut String, n: u64, base: u64)
    requires
        base == 10 || base == 16,
    ensures
        final(out)@ == old(out)@ + digits(n as nat, base as nat),
    decreases n,
{
    if n < base {
        out.push(digit_of(n as u8));
    } else {
        push_digits(out, n / base, base);
        out.push(digit_of((n % base) as u8));
    }
    assert(out@ =~= old(out)@ + digits(n as nat, base as nat));
}

/// Puts two texts together.
pub fn joined_text(head: &str, tail: &str) -> (out: String)
    ensures
        out@ == head@ + tail@,
{
    let mut out = head.to_string();
    out.append(tail);
    out
}

/// A text with a number in decimal behind it.
pub fn text_with_number(head: &str, n: u64) -> (out: String)
    ensures
        out@ == head@ + decimal(n as nat),
{
    let mut out = head.to_string();
    push_digits(&mut out, n, 10);
    out
}

/// A character of the Unicode property White_Space.
pub open spec fn is_white_space(c: char) -> bool {
    let v = c as u32;
    ||| 0x9 <= v <= 0xd
    ||| v == 0x20
    ||| v == 0x85
    ||| v == 0xa0
    ||| v == 0x1680
    ||| 0x2000 <= v <= 0x200a
    ||| v == 0x2028
    ||| v == 0x2029
    ||| v == 0x202f
    ||| v == 0x205f
    ||| v == 0x3000
}

fn white_space(c: char) -> (white: bool)
    ensures
        white == is_white_space(c),
{
    let v: u32 = c as u32;
    (0x9 <= v && v <= 0xd) || v == 0x20 || v == 0x85 || v == 0xa0 || v == 0x1680 || (0x2000 <= v
        && v <= 0x200a) || v == 0x2028 || v == 0x2029 || v == 0x202f || v == 0x205f || v == 0x3000
}

/// The text without white space at its start.
pub open spec fn trim_start(text: Seq<char>) -> Seq<char>
    decreases text.len(),
{
    if text.len() > 0 && is_white_space(text[0]) {
        trim_start(text.skip(1))
    } else {
        text
    }
}

/// The text without white space at its end.
pub open spec fn trim_end(text: Seq<char>) -> Seq<char>
    decreases text.len(),
{
    if text.len() > 0 && is_white_space(text.last()) {
        trim_end(text.drop_last())
    } else {
        text
    }
}

/// The text without white space at either end.
pub open spec fn trimmed(text: Seq<char>) -> Seq<char> {
    trim_end(trim_start(text))
}

/// Text with nothing but white space.
pub open spec fn is_blank(text: Seq<char>) -> bool {
    forall|i: int| 0 <= i < text.len() ==> is_white_space(#[trigger] text[i])
}

/// Blank text is what trimming leaves nothing of.
pub proof fn law_blank_is_trimmed_to_nothing(text: Seq<char>)
    ensures
        is_blank(text) <==> trimmed(text).len() == 0,
{
    lemma_trim_start(text);
    lemma_trim_end(trim_start(text));
}

pub(crate) proof fn lemma_trim_start(text: Seq<char>)
    ensures
        trim_start(text).len() <= text.len(),
        trim_start(text) == text.skip(text.len() - trim_start(text).len()),
        trim_start(text).len() == 0 <==> is_blank(text),
        trim_start(text).len() > 0 ==> !is_white_space(trim_start(text)[0]),
    decreases text.len(),
{
    if text.len() > 0 && is_white_space(text[0]) {
        let rest = text.skip(1);
        lemma_trim_start(rest);
        assert(rest.skip(rest.len() - trim_start(rest).len()) =~= text.skip(
            text.len() - trim_start(rest).len(),
        ));
        if is_blank(rest) {
            assert forall|i: int| 0 <= i < text.len() implies is_white_space(
                #[trigger] text[i],
            ) by {
                if i > 0 {
                    assert(text[i] == rest[i - 1]);
                }
            }
        }
        if is_blank(text) {
            assert forall|i: int| 0 <= i < rest.len() implies is_white_space(
                #[trigger] rest[i],
            ) by {
                assert(rest[i] == text[i + 1]);
            }
        }
    } else {
        assert(text.skip(0) =~= text);
        if text.len() > 0 {
            assert(!is_white_space(text[0]));
        }
    }
}

pub(crate) proof fn lemma_trim_end(text: Seq<char>)
    ensures
        trim_end(text).len() <= text.len(),
        trim_end(text) == text.take(trim_end(text).len() as int),
        text.len() > 0 && !is_white_space(text[0]) ==> trim_end(text).len() > 0,
    decreases text.len(),
{
    if text.len() > 0 && is_white_space(text.last()) {
        lemma_trim_end(text.drop_last());
        assert(text.drop_last().take(trim_end(text).len() as int) =~= text.take(
            trim_end(text).len() as int,
        ));
    } else {
        assert(text.take(text.len() as int) =~= text);
    }
}

/// `str::trim`, with the result as a text of its own.
pub fn trim_text(text: &str) -> (out: String)
    ensures
        out@ == trimmed(text@),
{
    let mut end: usize = text.unicode_len();
    let mut start: usize = 0;
    assert(text@.skip(0) =~= text@);
    while start < end && white_space(text.get_char(start))
        invariant
            start <= end == text@.len(),
            trim_start(text@) == trim_start(text@.skip(start as int)),
        decreases end - start,
    {
        assert(text@.skip(start as int).skip(1) =~= text@.skip(start + 1));
        start = start + 1;
    }
    let ghost body = trim_start(text@);
    proof {
        assert(body == text@.skip(start as int));
        assert(text@.subrange(start as int, end as int) =~= body);
    }
    while start < end && white_space(text.get_char(end - 1))
        invariant
            start <= end <= text@.len(),
            trim_end(body) == trim_end(text@.subrange(start as int, end as int)),
        decreases end,
    {
        assert(text@.subrange(start as int, end as int).drop_last() =~= text@.subrange(
            start as int,
            end - 1,
        ));
        end = end - 1;
    }
    text.substring_char(start, end).to_string()
}

/// Whether there is nothing but white space in the text.
pub fn text_is_blank(text: &str) -> (blank: bool)
    ensures
        blank == is_blank(text@),
{
    let len: usize = text.unicode_len();
    let mut i: usize = 0;
    while i < len
        invariant
            i <= len == text@.len(),
            forall|j: int| 0 <= j < i ==> is_white_space(#[trigger] text@[j]),
        decreases len - i,
    {
        if !white_space(text.get_char(i)) {
            return false;
        }
        i = i + 1;
    }
    true
}

/// An ASCII letter as a small one, anything else as it is.
pub open spec fn lower(c: char) -> char {
    if 'A' <= c && c <= 'Z' {
        (c as u32 + 32) as char
    } else {
        c
    }
}

/// A text with its ASCII letters small.
pub open spec fn lowered(text: Seq<char>) -> Seq<char> {
    text.map_values(|c: char| lower(c))
}

fn lower_of(c: char) -> (out: char)
    ensures
        out == lower(c),
{
    if 'A' <= c && c <= 'Z' {
        (c as u8 + 32) as char
    } else {
        c
    }
}

pub fn lower_text(text: &str) -> (out: String)
    ensures
        out@ == lowered(text@),
{
    let mut out = String::new();
    let len: usize = text.unicode_len();
    let mut i: usize = 0;
    while i < len
        invariant
            i <= len == text@.len(),
            out@ == lowered(text@.take(i as int)),
        decreases len - i,
    {
        out.push(lower_of(text.get_char(i)));
        assert(lowered(text@.take(i + 1)) =~= lowered(text@.take(i as int)).push(
            lower(text@[i as int]),
        ));
        i = i + 1;
    }
    assert(text@.take(len as int) =~= text@);
    out
}

/// Where `mark` first begins in a text, at `from` or behind it.
pub open spec fn find_from(text: Seq<char>, mark: Seq<char>, from: nat) -> Option<nat>
    decreases text.len() + 1 - from,
{
    if from + mark.len() > text.len() {
        None
    } else if text.subrange(from as int, (from + mark.len()) as int) == mark {
        Some(from)
    } else {
        find_from(text, mark, from + 1)
    }
}

/// A mark that stands at `at` and not before is found there.
pub proof fn lemma_find_first(text: Seq<char>, mark: Seq<char>, from: nat, at: nat)
    requires
        from <= at,
        at + mark.len() <= text.len(),
        text.subrange(at as int, (at + mark.len()) as int) == mark,
        forall|j: nat|
            from <= j < at ==> #[trigger] text.subrange(j as int, (j + mark.len()) as int) != mark,
    ensures
        find_from(text, mark, from) == Some(at),
    decreases at - from,
{
    if from < at {
        assert(text.subrange(from as int, (from + mark.len()) as int) != mark);
        lemma_find_first(text, mark, from + 1, at);
    }
}

/// What stands behind the first `mark` in a text.
pub open spec fn after_mark(text: Seq<char>, mark: Seq<char>) -> Option<Seq<char>> {
    match find_from(text, mark, 0) {
        Some(at) => Some(text.skip((at + mark.len()) as int)),
        None => None,
    }
}

fn same_chars(text: &str, at: usize, mark: &str) -> (same: bool)
    requires
        at + mark@.len() <= text@.len(),
    ensures
        same == (text@.subrange(at as int, (at + mark@.len()) as int) == mark@),
{
    let len: usize = mark.unicode_len();
    let whole: usize = text.unicode_len();
    let mut i: usize = 0;
    while i < len
        invariant
            i <= len == mark@.len(),
            at + len <= whole == text@.len(),
            forall|j: int| 0 <= j < i ==> text@[at + j] == #[trigger] mark@[j],
        decreases len - i,
    {
        if text.get_char(at + i) != mark.get_char(i) {
            assert(text@.subrange(at as int, at + len)[i as int] != mark@[i as int]);
            return false;
        }
        i = i + 1;
    }
    assert(text@.subrange(at as int, at + len) =~= mark@);
    true
}

fn find_mark(text: &str, mark: &str) -> (found: Option<usize>)
    ensures
        match (found, find_from(text@, mark@, 0)) {
            (Some(at), Some(expected)) => at == expected && at + mark@.len() <= text@.len(),
            (None, None) => true,
            _ => false,
        },
{
    let len: usize = text.unicode_len();
    let width: usize = mark.unicode_len();
    let mut at: usize = 0;
    while at <= len && width <= len - at
        invariant
            len == text@.len(),
            width == mark@.len(),
            at <= len,
            find_from(text@, mark@, 0) == find_from(text@, mark@, at as nat),
        decreases len - at,
    {
        if same_chars(text, at, mark) {
            return Some(at);
        }
        assert(at < len) by {
            if at == len {
                assert(text@.subrange(at as int, at + width) =~= mark@);
            }
        }
        at = at + 1;
    }
    None
}

/// What stands behind the first `mark`, as a text of its own.
pub fn text_after(text: &str, mark: &str) -> (rest: Option<String>)
    ensures
        match (rest, after_mark(text@, mark@)) {
            (Some(got), Some(expected)) => got@ == expected,
            (None, None) => true,
            _ => false,
        },
{
    match find_mark(text, mark) {
        Some(at) => {
            let len: usize = text.unicode_len();
            let width: usize = mark.unicode_len();
            let rest = text.substring_char(at + width, len).to_string();
            assert(rest@ =~= text@.skip(at + width));
            Some(rest)
        },
        None => None,
    }
}

/// What stands before the first `mark`, or all of the text.
pub open spec fn before_mark(text: Seq<char>, mark: Seq<char>) -> Seq<char> {
    match find_from(text, mark, 0) {
        Some(at) => text.take(at as int),
        None => text,
    }
}

pub fn text_before(text: &str, mark: &str) -> (head: String)
    ensures
        head@ == before_mark(text@, mark@),
{
    match find_mark(text, mark) {
        Some(at) => {
            let head = text.substring_char(0, at).to_string();
            assert(head@ =~= text@.take(at as int));
            head
        },
        None => text.to_string(),
    }
}

/// The text without any `c` at its start.
pub open spec fn without_leading(text: Seq<char>, c: char) -> Seq<char>
    decreases text.len(),
{
    if text.len() > 0 && text[0] == c {
        without_leading(text.skip(1), c)
    } else {
        text
    }
}

pub fn text_without_leading(text: &str, c: char) -> (out: String)
    ensures
        out@ == without_leading(text@, c),
{
    let len: usize = text.unicode_len();
    let mut start: usize = 0;
    assert(text@.skip(0) =~= text@);
    while start < len && text.get_char(start) == c
        invariant
            start <= len == text@.len(),
            without_leading(text@, c) == without_leading(text@.skip(start as int), c),
        decreases len - start,
    {
        assert(text@.skip(start as int).skip(1) =~= text@.skip(start + 1));
        start = start + 1;
    }
    let out = text.substring_char(start, len).to_string();
    assert(out@ =~= text@.skip(start as int));
    out
}

/// Whether two texts are the same.
pub fn same_text(a: &str, b: &str) -> (same: bool)
    ensures
        same == (a@ == b@),
{
    let len: usize = a.unicode_len();
    if len != b.unicode_len() {
        return false;
    }
    assert(a@.subrange(0, len as int) =~= a@);
    same_chars(a, 0, b)
}

/// Whether two byte strings are the same.
pub fn same_bytes(a: &[u8], b: &[u8]) -> (same: bool)
    ensures
        same == (a@ == b@),
{
    if a.len() != b.len() {
        return false;
    }
    let mut i: usize = 0;
    while i < a.len()
        invariant
            i <= a@.len() == b@.len(),
            forall|j: int| 0 <= j < i ==> a@[j] == #[trigger] b@[j],
        decreases a@.len() - i,
    {
        if a[i] != b[i] {
            return false;
        }
        i = i + 1;
    }
    assert(a@ =~= b@);
    true
}

} // verus!

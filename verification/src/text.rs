//! Text: numbers as decimal digits, text found and cut at a character, and
//! the bytes that are and are not UTF-8.

use vstd::prelude::*;
use vstd::slice::slice_to_vec;
use vstd::string::*;
use vstd::utf8::{decode_utf8, valid_utf8};

verus! {

/// The character for one decimal digit.
pub open spec fn digit(value: nat) -> char {
    (48 + value) as char
}

/// `value` in decimal, without leading zeros.
pub open spec fn decimal(value: nat) -> Seq<char>
    decreases value,
{
    if value < 10 {
        seq![digit(value)]
    } else {
        decimal(value / 10).push(digit(value % 10))
    }
}

/// `value` in decimal, a minus sign before it where it is negative.
pub open spec fn signed_decimal(value: int) -> Seq<char> {
    if value < 0 {
        seq!['-'] + decimal((-value) as nat)
    } else {
        decimal(value as nat)
    }
}

/// A truth value as text.
pub open spec fn truth(value: bool) -> Seq<char> {
    if value {
        "true"@
    } else {
        "false"@
    }
}

/// What stands before the first `mark` in `text`: all of it where there is
/// none.
pub open spec fn before(text: Seq<char>, mark: char) -> Seq<char>
    decreases text.len(),
{
    if text.len() == 0 || text[0] == mark {
        Seq::empty()
    } else {
        seq![text[0]] + before(text.skip(1), mark)
    }
}

/// What stands after the first `mark` in `text`, where there is one.
pub open spec fn after(text: Seq<char>, mark: char) -> Option<Seq<char>> {
    if text.contains(mark) {
        Some(text.skip(before(text, mark).len() as int + 1))
    } else {
        None
    }
}

/// How far the first `mark` is, and that nothing before it is one.
pub proof fn lemma_before(text: Seq<char>, mark: char, at: int)
    requires
        0 <= at <= text.len(),
        forall|i: int| 0 <= i < at ==> text[i] != mark,
        at < text.len() ==> text[at] == mark,
    ensures
        before(text, mark) == text.take(at),
        text.contains(mark) <==> at < text.len(),
    decreases text.len(),
{
    if at > 0 {
        lemma_before(text.skip(1), mark, at - 1);
        assert(seq![text[0]] + text.skip(1).take(at - 1) =~= text.take(at));
    } else {
        assert(text.take(0) =~= Seq::empty());
    }
    if at < text.len() {
        assert(text.contains(mark));
    }
}

/// The position of the first `mark` in `text`, or its length.
fn position(text: &str, mark: char) -> (at: usize)
    ensures
        at <= text@.len(),
        before(text@, mark) == text@.take(at as int),
        text@.contains(mark) <==> at < text@.len(),
{
    let mut at: usize = 0;
    let count: usize = text.unicode_len();
    for each in it: text.chars()
        invariant
            at == it.index(),
            count == text@.len(),
            it.seq() == text@,
            forall|i: int| 0 <= i < at ==> text@[i] != mark,
    {
        if each == mark {
            proof {
                lemma_before(text@, mark, at as int);
            }
            return at;
        }
        at = at + 1;
    }
    proof {
        lemma_before(text@, mark, at as int);
    }
    at
}

/// `text` cut at its first `mark`: what stands before it, and what stands
/// after it where there is one.
pub fn cut(text: &str, mark: char) -> (parts: (&str, Option<&str>))
    ensures
        parts.0@ == before(text@, mark),
        after(text@, mark) is Some <==> parts.1 is Some,
        parts.1 matches Some(rest) ==> after(text@, mark) == Some(rest@),
{
    let at: usize = position(text, mark);
    let count: usize = text.unicode_len();
    let head = text.substring_char(0, at);
    assert(text@.subrange(0, at as int) =~= text@.take(at as int));
    if at < count {
        let tail = text.substring_char(at + 1, count);
        assert(text@.subrange(at + 1, count as int) =~= text@.skip(at + 1));
        (head, Some(tail))
    } else {
        (head, None)
    }
}

/// What follows `prefix` in `text`, where `text` starts with it.
pub open spec fn past(text: Seq<char>, prefix: Seq<char>) -> Option<Seq<char>> {
    if prefix.is_prefix_of(text) {
        Some(text.skip(prefix.len() as int))
    } else {
        None
    }
}

/// What follows `prefix` in `text`, where `text` starts with it.
pub fn strip<'a>(text: &'a str, prefix: &str) -> (rest: Option<&'a str>)
    ensures
        past(text@, prefix@) is Some <==> rest is Some,
        rest matches Some(found) ==> past(text@, prefix@) == Some(found@),
{
    let count: usize = text.unicode_len();
    let length: usize = prefix.unicode_len();
    if count < length {
        return None;
    }
    let head = text.substring_char(0, length);
    if !same(head, prefix) {
        return None;
    }
    let tail = text.substring_char(length, count);
    assert(text@.subrange(length as int, count as int) =~= text@.skip(length as int));
    Some(tail)
}

/// One decimal digit as text.
fn digit_of(value: u64) -> (text: &'static str)
    requires
        value < 10,
    ensures
        text@ == seq![digit(value as nat)],
{
    let digits = "0123456789";
    proof {
        reveal_strlit("0123456789");
    }
    let at: usize = value as usize;
    let text = digits.substring_char(at, at + 1);
    assert(text@ =~= seq![digit(value as nat)]);
    text
}

/// `value` in decimal.
pub fn decimal_of(value: u64) -> (text: String)
    ensures
        text@ == decimal(value as nat),
    decreases value,
{
    if value < 10 {
        digit_of(value).to_owned()
    } else {
        let mut text = decimal_of(value / 10);
        text.append(digit_of(value % 10));
        assert(text@ =~= decimal(value as nat));
        text
    }
}

/// What `value` is when its top bit is read as a sign.
pub open spec fn signed(value: u32) -> int {
    if value < 0x8000_0000 {
        value as int
    } else {
        value - 0x1_0000_0000
    }
}

/// `value` read as a signed number, in decimal.
pub fn signed_decimal_of(value: u32) -> (text: String)
    ensures
        text@ == signed_decimal(signed(value)),
{
    if value < 0x8000_0000 {
        decimal_of(value as u64)
    } else {
        let mut text = "-".to_owned();
        proof {
            reveal_strlit("-");
        }
        let magnitude: u64 = 0x1_0000_0000 - value as u64;
        text.append(decimal_of(magnitude).as_str());
        assert(text@ =~= signed_decimal(signed(value)));
        text
    }
}

/// A truth value as text.
pub fn truth_of(value: bool) -> (text: String)
    ensures
        text@ == truth(value),
{
    if value {
        "true".to_owned()
    } else {
        "false".to_owned()
    }
}

/// Whether two texts are the same characters.
pub fn same(left: &str, right: &str) -> (result: bool)
    ensures
        result == (left@ == right@),
{
    left.to_owned() == right.to_owned()
}

/// `String::from_utf8` of std: the text `bytes` encode where they are
/// UTF-8, and nothing where they are not.
#[verifier::external_body]
fn utf8_text(bytes: Vec<u8>) -> (text: Option<String>)
    ensures
        text is Some <==> valid_utf8(bytes@),
        text matches Some(decoded) ==> decoded@ == decode_utf8(bytes@),
{
    String::from_utf8(bytes).ok()
}

/// What `String::from_utf8_lossy` of std makes of bytes that are not UTF-8:
/// text with replacement characters where they are not.
pub uninterp spec fn lossy(bytes: Seq<u8>) -> Seq<char>;

/// `bytes` as text whatever they are: what they encode where they are
/// UTF-8, else the text with replacement characters.
pub open spec fn lenient(bytes: Seq<u8>) -> Seq<char> {
    if valid_utf8(bytes) {
        decode_utf8(bytes)
    } else {
        lossy(bytes)
    }
}

/// `String::from_utf8_lossy` of std: the text the bytes encode where they
/// are UTF-8, and otherwise a text that depends on the bytes alone; where
/// the replacement characters go in that one is left unsaid.
#[verifier::external_body]
pub(crate) fn lenient_text(bytes: &[u8]) -> (text: String)
    ensures
        valid_utf8(bytes@) ==> text@ == decode_utf8(bytes@),
        !valid_utf8(bytes@) ==> text@ == lossy(bytes@),
{
    String::from_utf8_lossy(bytes).into_owned()
}

/// The text `bytes` encode, or nothing where they are not UTF-8.
pub fn decoded(bytes: &[u8]) -> (text: Option<String>)
    ensures
        text is Some <==> valid_utf8(bytes@),
        text matches Some(decoded) ==> decoded@ == decode_utf8(bytes@),
{
    utf8_text(slice_to_vec(bytes))
}

} // verus!

//! Bytes and strings.
use vstd::prelude::*;
use vstd::utf8::{decode_utf8, valid_utf8};

use crate::bytes_util::same_bytes;

verus! {

/// Trusted: `String::from_utf8` turns bytes that are valid UTF-8 into the
/// string that they encode; of any other bytes it makes an error, whose
/// `into_bytes` gives the bytes back.
#[verifier::external_body]
pub(crate) fn string_from_utf8(bytes: Vec<u8>) -> (res: Result<String, Vec<u8>>)
    ensures
        match res {
            Ok(s) => valid_utf8(bytes@) && s@ == decode_utf8(bytes@),
            Err(b) => !valid_utf8(bytes@) && b@ == bytes@,
        },
{
    match String::from_utf8(bytes) {
        Ok(s) => Ok(s),
        Err(e) => Err(e.into_bytes()),
    }
}

/// Trusted: `std::str::from_utf8` reads bytes that are valid UTF-8 as the text
/// that they encode, and fails on any other bytes.
#[verifier::external_body]
pub(crate) fn str_from_utf8(bytes: &[u8]) -> (res: Option<&str>)
    ensures
        match res {
            Some(s) => valid_utf8(bytes@) && s@ == decode_utf8(bytes@),
            None => !valid_utf8(bytes@),
        },
{
    std::str::from_utf8(bytes).ok()
}

/// Whether two texts are the same.
pub fn same_text(a: &str, b: &str) -> (same: bool)
    ensures
        same == (a@ == b@),
{
    proof {
        vstd::utf8::encode_utf8_decode_utf8(a@);
        vstd::utf8::encode_utf8_decode_utf8(b@);
    }
    same_bytes(a.as_bytes(), b.as_bytes())
}

/// Whether a character is white space, as Unicode has it.
pub open spec fn is_space(c: char) -> bool {
    ||| '\u{9}' <= c <= '\u{d}'
    ||| c == ' '
    ||| c == '\u{85}'
    ||| c == '\u{a0}'
    ||| c == '\u{1680}'
    ||| '\u{2000}' <= c <= '\u{200a}'
    ||| c == '\u{2028}'
    ||| c == '\u{2029}'
    ||| c == '\u{202f}'
    ||| c == '\u{205f}'
    ||| c == '\u{3000}'
}

/// Whether a character is white space.
pub fn is_whitespace(c: char) -> (space: bool)
    ensures
        space == is_space(c),
{
    ('\u{9}' <= c && c <= '\u{d}') || c == ' ' || c == '\u{85}' || c == '\u{a0}' || c == '\u{1680}' || (
    '\u{2000}' <= c && c <= '\u{200a}') || c == '\u{2028}' || c == '\u{2029}' || c == '\u{202f}' || c
        == '\u{205f}' || c == '\u{3000}'
}

/// The characters of a text.
pub fn chars_of(s: &str) -> (chars: Vec<char>)
    ensures
        chars@ == s@,
{
    broadcast use vstd::string::axiom_spec_iter;

    let mut chars: Vec<char> = Vec::new();
    for c in it: s.chars()
        invariant
            it.seq() == s@,
            chars@ == s@.take(it.index() as int),
    {
        assert(s@.take(it.index() as int).push(c) =~= s@.take(it.index() + 1));
        chars.push(c);
    }
    assert(s@.take(s@.len() as int) =~= s@);
    chars
}

/// The first place from `from` on where a word starts, or the end.
pub open spec fn word_start(s: Seq<char>, from: int) -> int
    decreases s.len() - from,
{
    if from >= s.len() || !is_space(s[from]) {
        from
    } else {
        word_start(s, from + 1)
    }
}

/// The first place from `from` on where there is white space, or the end.
pub open spec fn word_end(s: Seq<char>, from: int) -> int
    decreases s.len() - from,
{
    if from >= s.len() || is_space(s[from]) {
        from
    } else {
        word_end(s, from + 1)
    }
}

/// Where the text in front of `to` ends, less the white space at its end.
pub open spec fn text_end(s: Seq<char>, to: int) -> int
    decreases to,
{
    if to <= 0 || !is_space(s[to - 1]) {
        to
    } else {
        text_end(s, to - 1)
    }
}

/// A text less the white space at both ends.
pub open spec fn trimmed(s: Seq<char>) -> Seq<char> {
    let start = word_start(s, 0);
    if start >= s.len() {
        Seq::empty()
    } else {
        s.subrange(start, text_end(s, s.len() as int))
    }
}

/// Finds where the next word starts.
fn find_word(chars: &Vec<char>, from: usize) -> (at: usize)
    requires
        from <= chars@.len(),
    ensures
        at == word_start(chars@, from as int),
        from <= at <= chars@.len(),
{
    let mut i: usize = from;
    while i < chars.len() && is_whitespace(chars[i])
        invariant
            from <= i <= chars@.len(),
            word_start(chars@, from as int) == word_start(chars@, i as int),
        decreases chars@.len() - i,
    {
        i += 1;
    }
    i
}

/// Finds where a word ends.
fn find_space(chars: &Vec<char>, from: usize) -> (at: usize)
    requires
        from <= chars@.len(),
    ensures
        at == word_end(chars@, from as int),
        from <= at <= chars@.len(),
{
    let mut i: usize = from;
    while i < chars.len() && !is_whitespace(chars[i])
        invariant
            from <= i <= chars@.len(),
            word_end(chars@, from as int) == word_end(chars@, i as int),
        decreases chars@.len() - i,
    {
        i += 1;
    }
    i
}

/// A text less the white space at both ends.
pub fn trim(s: &str) -> (t: &str)
    ensures
        t@ == trimmed(s@),
{
    let chars: Vec<char> = chars_of(s);
    let start: usize = find_word(&chars, 0);
    if start >= chars.len() {
        let none = s.substring_char(0, 0);
        assert(none@ =~= Seq::<char>::empty());
        return none;
    }
    proof {
        lemma_word_start(s@, 0);
    }
    let mut end: usize = chars.len();
    while is_whitespace(chars[end - 1])
        invariant
            chars@ == s@,
            start < end <= chars@.len(),
            !is_space(s@[start as int]),
            text_end(s@, s@.len() as int) == text_end(s@, end as int),
        decreases end,
    {
        end -= 1;
    }
    s.substring_char(start, end)
}

/// A word starts with a character that is no white space, and there is only
/// white space in front of it.
proof fn lemma_word_start(s: Seq<char>, from: int)
    requires
        0 <= from <= s.len(),
    ensures
        from <= word_start(s, from) <= s.len(),
        word_start(s, from) < s.len() ==> !is_space(s[word_start(s, from)]),
        forall|i: int| from <= i < word_start(s, from) ==> is_space(s[i]),
    decreases s.len() - from,
{
    if from < s.len() && is_space(s[from]) {
        lemma_word_start(s, from + 1);
    }
}

/// The words of a text from `from` on, in their order.
pub open spec fn words(s: Seq<char>, from: int) -> Seq<Seq<char>>
    decreases s.len() - from,
{
    let start = word_start(s, from);
    let end = word_end(s, start);
    if start >= s.len() || !(from < end <= s.len()) {
        Seq::empty()
    } else {
        seq![s.subrange(start, end)] + words(s, end)
    }
}

/// Takes the next word of a text: the word, and where it ends.
pub fn next_word<'a>(s: &'a str, chars: &Vec<char>, from: usize) -> (res: Option<
    (&'a str, usize),
>)
    requires
        chars@ == s@,
        from <= s@.len(),
    ensures
        match res {
            Some((word, end)) => {
                &&& end <= s@.len()
                &&& end == word_end(s@, word_start(s@, from as int))
                &&& words(s@, from as int) == seq![word@] + words(s@, end as int)
            },
            None => words(s@, from as int).len() == 0,
        },
{
    let start: usize = find_word(chars, from);
    if start >= chars.len() {
        return None;
    }
    proof {
        lemma_word_start(s@, from as int);
    }
    let end: usize = find_space(chars, start);
    assert(word_end(s@, start as int) > start) by {
        lemma_word_end(s@, start + 1);
    }
    Some((s.substring_char(start, end), end))
}

/// A word does not end before it starts.
proof fn lemma_word_end(s: Seq<char>, from: int)
    ensures
        from <= word_end(s, from),
    decreases s.len() - from,
{
    if from < s.len() && !is_space(s[from]) {
        lemma_word_end(s, from + 1);
    }
}

/// Whether a text is white space only.
pub open spec fn blank(s: Seq<char>) -> bool {
    forall|i: int| 0 <= i < s.len() ==> is_space(#[trigger] s[i])
}

/// Whether a text is one word: it is not empty, and holds no white space.
pub open spec fn is_word(s: Seq<char>) -> bool {
    s.len() > 0 && forall|i: int| 0 <= i < s.len() ==> !is_space(#[trigger] s[i])
}

/// Whether a text is empty or starts with white space.
pub open spec fn starts_blank(s: Seq<char>) -> bool {
    s.len() == 0 || is_space(s[0])
}

proof fn lemma_word_end_exact(s: Seq<char>, from: int)
    requires
        0 <= from <= s.len(),
    ensures
        from <= word_end(s, from) <= s.len(),
        word_end(s, from) < s.len() ==> is_space(s[word_end(s, from)]),
        forall|i: int| from <= i < word_end(s, from) ==> !is_space(#[trigger] s[i]),
    decreases s.len() - from,
{
    if from < s.len() && !is_space(s[from]) {
        lemma_word_end_exact(s, from + 1);
    }
}

proof fn lemma_shift(s: Seq<char>, k: int, from: int)
    requires
        0 <= k,
        0 <= from,
        k + from <= s.len(),
    ensures
        word_start(s, k + from) == k + word_start(s.skip(k), from),
        word_end(s, k + from) == k + word_end(s.skip(k), from),
    decreases s.len() - k - from,
{
    if k + from < s.len() {
        assert(s.skip(k)[from] == s[k + from]);
        lemma_shift(s, k, from + 1);
    }
}

proof fn lemma_words_shift(s: Seq<char>, k: int, from: int)
    requires
        0 <= k,
        0 <= from,
        k + from <= s.len(),
    ensures
        words(s, k + from) == words(s.skip(k), from),
    decreases s.len() - k - from,
{
    let t = s.skip(k);
    let start = word_start(t, from);
    lemma_shift(s, k, from);
    lemma_word_start(t, from);
    lemma_shift(s, k, start);
    lemma_word_end_exact(t, start);
    let end = word_end(t, start);
    if start < t.len() && from < end <= t.len() {
        assert(s.subrange(k + start, k + end) =~= t.subrange(start, end));
        lemma_words_shift(s, k, end);
    }
}

/// The words of a text are its maximal runs of characters that are no white
/// space, in their order: behind white space the first of them reaches up to
/// the next white space or the end of the text, whatever its characters are,
/// and the others are the words of what follows.
pub proof fn law_first_word(pad: Seq<char>, word: Seq<char>, rest: Seq<char>)
    requires
        blank(pad),
        is_word(word),
        starts_blank(rest),
    ensures
        words(pad + word + rest, 0) == seq![word] + words(rest, 0),
{
    let s = pad + word + rest;
    let (a, b) = (pad.len() as int, (pad.len() + word.len()) as int);
    lemma_word_start(s, 0);
    let start = word_start(s, 0);
    assert(s[a] == word[0]);
    assert(start == a) by {
        if start < a {
            assert(s[start] == pad[start]);
        } else if start > a {
            assert(is_space(s[a]));
        }
    }
    lemma_word_end_exact(s, start);
    let end = word_end(s, start);
    assert(end == b) by {
        if end < b {
            assert(s[end] == word[end - a]);
        } else if end > b {
            assert(s[b] == rest[0]);
            assert(!is_space(s[b]));
        }
    }
    assert(s.subrange(a, b) =~= word);
    lemma_words_shift(s, b, 0);
    assert(s.skip(b) =~= rest);
}

/// The next word of a text is the maximal run of characters that are no white
/// space behind the white space at the place where it is looked for, and it
/// ends where that run ends. Where only white space is left, there is none.
pub proof fn law_next_word<'a>(
    s: &'a str,
    chars: &Vec<char>,
    from: usize,
    pad: Seq<char>,
    word: Seq<char>,
    rest: Seq<char>,
    res: Option<(&'a str, usize)>,
)
    requires
        call_ensures(next_word, (s, chars, from), res),
        from <= s@.len(),
        s@.skip(from as int) == pad + word + rest,
        blank(pad),
        starts_blank(rest),
        is_word(word) || (word.len() == 0 && rest.len() == 0),
    ensures
        res is Some <==> word.len() > 0,
        res is Some ==> (res->0).0@ == word && (res->0).1 == from + pad.len() + word.len(),
{
    let k = from as int;
    let t = s@.skip(k);
    lemma_words_shift(s@, k, 0);
    lemma_shift(s@, k, 0);
    if word.len() == 0 {
        assert(t =~= pad);
        law_no_words(pad);
    } else {
        law_first_word(pad, word, rest);
        assert(words(t, 0)[0] == word);
        lemma_word_start(t, 0);
        let start = word_start(t, 0);
        lemma_shift(s@, k, start);
        lemma_word_end_exact(t, start);
        let a = pad.len() as int;
        assert(t[a] == word[0]);
        assert(start == a) by {
            if start < a {
                assert(t[start] == pad[start]);
            } else if start > a {
                assert(is_space(t[a]));
            }
        }
        let (end, b) = (word_end(t, start), a + word.len());
        assert(end == b) by {
            if end < b {
                assert(t[end] == word[end - a]);
            } else if end > b {
                assert(t[b] == rest[0]);
                assert(!is_space(t[b]));
            }
        }
        if let Some((found, _)) = res {
            assert(words(s@, k)[0] == found@);
        }
    }
}

/// White space alone has no words.
pub proof fn law_no_words(pad: Seq<char>)
    requires
        blank(pad),
    ensures
        words(pad, 0) == Seq::<Seq<char>>::empty(),
{
    lemma_word_start(pad, 0);
    assert(word_start(pad, 0) == pad.len()) by {
        if word_start(pad, 0) < pad.len() {
            assert(is_space(pad[word_start(pad, 0)]));
        }
    }
}

/// Three words, with white space between and around them, are these words, and
/// what follows them are the words of the rest.
pub proof fn law_three_words(
    pads: (Seq<char>, Seq<char>, Seq<char>),
    a: Seq<char>,
    b: Seq<char>,
    c: Seq<char>,
    rest: Seq<char>,
)
    requires
        blank(pads.0) && blank(pads.1) && blank(pads.2),
        pads.1.len() > 0 && pads.2.len() > 0,
        is_word(a) && is_word(b) && is_word(c),
        starts_blank(rest),
    ensures
        words(pads.0 + a + (pads.1 + b + (pads.2 + c + rest)), 0) == seq![a, b, c] + words(rest, 0),
{
    let last = pads.2 + c + rest;
    let mid = pads.1 + b + last;
    assert(last[0] == pads.2[0]);
    assert(mid[0] == pads.1[0]);
    law_first_word(pads.0, a, mid);
    law_first_word(pads.1, b, last);
    law_first_word(pads.2, c, rest);
    assert(seq![a] + (seq![b] + (seq![c] + words(rest, 0))) =~= seq![a, b, c] + words(rest, 0));
}

/// Two words, likewise.
pub proof fn law_two_words(
    pads: (Seq<char>, Seq<char>),
    a: Seq<char>,
    b: Seq<char>,
    rest: Seq<char>,
)
    requires
        blank(pads.0) && blank(pads.1),
        pads.1.len() > 0,
        is_word(a) && is_word(b),
        starts_blank(rest),
    ensures
        words(pads.0 + a + (pads.1 + b + rest), 0) == seq![a, b] + words(rest, 0),
{
    let mid = pads.1 + b + rest;
    assert(mid[0] == pads.1[0]);
    law_first_word(pads.0, a, mid);
    law_first_word(pads.1, b, rest);
    assert(seq![a] + (seq![b] + words(rest, 0)) =~= seq![a, b] + words(rest, 0));
}

/// Every word is a word: it is not empty and holds no white space.
pub proof fn law_words_are_words(s: Seq<char>, from: int)
    requires
        0 <= from <= s.len(),
    ensures
        forall|i: int| 0 <= i < words(s, from).len() ==> is_word(#[trigger] words(s, from)[i]),
    decreases s.len() - from,
{
    lemma_word_start(s, from);
    let start = word_start(s, from);
    lemma_word_end_exact(s, start);
    let end = word_end(s, start);
    let all = words(s, from);
    if start < s.len() && from < end <= s.len() {
        law_words_are_words(s, end);
        assert forall|i: int| 0 <= i < all.len() implies is_word(#[trigger] all[i]) by {
            if i == 0 {
                assert(all[0] == s.subrange(start, end));
                assert(start < end) by {
                    if start == end {
                        assert(!is_space(s[start]));
                    }
                }
                assert forall|j: int| 0 <= j < all[0].len() implies !is_space(
                    #[trigger] all[0][j],
                ) by {
                    assert(all[0][j] == s[start + j]);
                }
            } else {
                assert(all[i] == words(s, end)[i - 1]);
            }
        }
    }
}

/// Trimming takes off the white space at both ends, and nothing else: what is
/// left is empty, or starts and ends with a character that is none.
pub proof fn law_trimmed(pad: Seq<char>, text: Seq<char>, end_pad: Seq<char>)
    requires
        blank(pad),
        blank(end_pad),
        text.len() > 0 ==> !is_space(text[0]) && !is_space(text.last()),
    ensures
        trimmed(pad + text + end_pad) == text,
{
    let s = pad + text + end_pad;
    let (a, b) = (pad.len() as int, (pad.len() + text.len()) as int);
    lemma_word_start(s, 0);
    let start = word_start(s, 0);
    if text.len() == 0 {
        assert(start == s.len()) by {
            if start < a {
                assert(s[start] == pad[start]);
            } else if start < s.len() {
                assert(s[start] == end_pad[start - a]);
            }
        }
        assert(trimmed(s) =~= text);
    } else {
        assert(s[a] == text[0]);
        assert(start == a) by {
            if start < a {
                assert(s[start] == pad[start]);
            } else if start > a {
                assert(is_space(s[a]));
            }
        }
        assert(s[b - 1] == text.last());
        assert forall|i: int| b <= i < s.len() implies is_space(#[trigger] s[i]) by {
            assert(s[i] == end_pad[i - b]);
        }
        lemma_text_end(s, b, s.len() as int);
        assert(s.subrange(a, b) =~= text);
    }
}

proof fn lemma_text_end(s: Seq<char>, at: int, to: int)
    requires
        0 < at <= to <= s.len(),
        !is_space(s[at - 1]),
        forall|i: int| at <= i < to ==> is_space(#[trigger] s[i]),
    ensures
        text_end(s, to) == at,
    decreases to - at,
{
    if at < to {
        assert(is_space(s[to - 1]));
        lemma_text_end(s, at, to - 1);
    }
}

/// Blanks, tabs and line ends are white space; no visible ASCII character is,
/// punctuation included.
pub proof fn law_ascii_space(c: char)
    ensures
        c == ' ' || c == '\t' || c == '\n' || c == '\r' ==> is_space(c),
        '!' <= c <= '~' ==> !is_space(c),
{
}

} // verus!

//! The names of the files of a store.
//!
//! ```text
//! 000001.data           a data file
//! 000001.hint           its hint file
//! 000001.data.compact   an output that a merge has not finished
//! ```
use vstd::prelude::*;

use crate::bitcask::{ascending, insert_id};
use crate::text::{chars_of, same_text};

verus! {

/// The character of a decimal digit.
pub open spec fn digit_char(d: int) -> char {
    if d == 0 {
        '0'
    } else if d == 1 {
        '1'
    } else if d == 2 {
        '2'
    } else if d == 3 {
        '3'
    } else if d == 4 {
        '4'
    } else if d == 5 {
        '5'
    } else if d == 6 {
        '6'
    } else if d == 7 {
        '7'
    } else if d == 8 {
        '8'
    } else {
        '9'
    }
}

/// The value of a decimal digit.
pub open spec fn digit_value(c: char) -> Option<int> {
    if c == '0' {
        Some(0)
    } else if c == '1' {
        Some(1)
    } else if c == '2' {
        Some(2)
    } else if c == '3' {
        Some(3)
    } else if c == '4' {
        Some(4)
    } else if c == '5' {
        Some(5)
    } else if c == '6' {
        Some(6)
    } else if c == '7' {
        Some(7)
    } else if c == '8' {
        Some(8)
    } else if c == '9' {
        Some(9)
    } else {
        None
    }
}

/// A number in decimal, without leading zeros.
pub open spec fn digits(n: int) -> Seq<char>
    decreases n,
{
    if n < 10 {
        seq![digit_char(n)]
    } else {
        digits(n / 10).push(digit_char(n % 10))
    }
}

/// A number in decimal, with leading zeros up to six digits.
pub open spec fn six_digits(n: int) -> Seq<char> {
    let short = digits(n);
    if short.len() < 6 {
        Seq::new((6 - short.len()) as nat, |i: int| '0') + short
    } else {
        short
    }
}

/// Whether all characters are digits.
pub open spec fn all_digits(s: Seq<char>) -> bool {
    forall|i: int| 0 <= i < s.len() ==> digit_value(#[trigger] s[i]) is Some
}

/// The number that digits stand for.
pub open spec fn decimal(s: Seq<char>) -> int
    decreases s.len(),
{
    if s.len() == 0 {
        0
    } else {
        10 * decimal(s.drop_last()) + digit_value(s.last())->0
    }
}

/// The number that a text stands for: digits, perhaps behind a plus sign, that
/// do not exceed what the type holds.
pub open spec fn parsed(s: Seq<char>) -> Option<u64> {
    let body = if s.len() > 0 && s[0] == '+' {
        s.skip(1)
    } else {
        s
    };
    if body.len() > 0 && all_digits(body) && decimal(body) <= u64::MAX {
        Some(decimal(body) as u64)
    } else {
        None
    }
}

/// Whether a text ends in another.
pub open spec fn has_suffix(s: Seq<char>, suffix: Seq<char>) -> bool {
    s.len() >= suffix.len() && s.skip(s.len() - suffix.len()) == suffix
}

/// The number in front of a suffix.
pub open spec fn id_before(name: Seq<char>, suffix: Seq<char>) -> Option<u64> {
    if has_suffix(name, suffix) {
        parsed(name.take(name.len() - suffix.len()))
    } else {
        None
    }
}

/// The text of a digit.
fn digit_text(d: u64) -> (text: &'static str)
    requires
        d < 10,
    ensures
        text@ == seq![digit_char(d as int)],
{
    proof {
        reveal_strlit("0");
        reveal_strlit("1");
        reveal_strlit("2");
        reveal_strlit("3");
        reveal_strlit("4");
        reveal_strlit("5");
        reveal_strlit("6");
        reveal_strlit("7");
        reveal_strlit("8");
        reveal_strlit("9");
    }
    let text = match d {
        0 => "0",
        1 => "1",
        2 => "2",
        3 => "3",
        4 => "4",
        5 => "5",
        6 => "6",
        7 => "7",
        8 => "8",
        _ => "9",
    };
    assert(text@ =~= seq![digit_char(d as int)]);
    text
}

/// Appends a number in decimal, and says how many digits it has.
fn push_digits(out: &mut String, n: u64) -> (count: u64)
    ensures
        final(out)@ == old(out)@ + digits(n as int),
        count == digits(n as int).len(),
        count <= 1 + n,
    decreases n,
{
    let mut count: u64 = 1;
    if n >= 10 {
        count = push_digits(out, n / 10) + 1;
    }
    out.append(digit_text(n % 10));
    assert(out@ =~= old(out)@ + digits(n as int));
    count
}

/// A number in decimal, with leading zeros up to six digits.
fn six_digit_text(n: u64) -> (text: String)
    ensures
        text@ == six_digits(n as int),
{
    let mut short: String = String::new();
    let count: u64 = push_digits(&mut short, n);
    let mut text: String = String::new();
    let mut zeros: u64 = count;
    while zeros < 6
        invariant
            count <= zeros,
            zeros <= 6 || zeros == count,
            text@ =~= Seq::new((zeros - count) as nat, |i: int| '0'),
        decreases 6 - zeros,
    {
        proof {
            reveal_strlit("0");
        }
        text.append("0");
        zeros += 1;
    }
    text.append(short.as_str());
    assert(short@ =~= digits(n as int));
    assert(text@ =~= six_digits(n as int));
    text
}

/// The name of a data file.
pub fn data_file_name(id: u64) -> (name: String)
    ensures
        name@ == six_digits(id as int) + ".data"@,
{
    let mut name = six_digit_text(id);
    name.append(".data");
    name
}

/// The name of a hint file.
pub fn hint_file_name(id: u64) -> (name: String)
    ensures
        name@ == six_digits(id as int) + ".hint"@,
{
    let mut name = six_digit_text(id);
    name.append(".hint");
    name
}

/// The temporary name of the data file of an output.
pub fn data_file_name_compaction(id: u64) -> (name: String)
    ensures
        name@ == six_digits(id as int) + ".data"@ + ".compact"@,
{
    let mut name = data_file_name(id);
    name.append(".compact");
    name
}

/// The value of a digit.
fn value_of_digit(c: char) -> (value: Option<u64>)
    ensures
        match digit_value(c) {
            Some(v) => value is Some && value->0 == v && value->0 < 10,
            None => value is None,
        },
{
    match c {
        '0' => Some(0),
        '1' => Some(1),
        '2' => Some(2),
        '3' => Some(3),
        '4' => Some(4),
        '5' => Some(5),
        '6' => Some(6),
        '7' => Some(7),
        '8' => Some(8),
        '9' => Some(9),
        _ => None,
    }
}

/// Digits in front make a number no smaller.
proof fn lemma_decimal_grows(s: Seq<char>, i: int)
    requires
        0 <= i <= s.len(),
        all_digits(s),
    ensures
        0 <= decimal(s.take(i)) <= decimal(s),
    decreases s.len(),
{
    if i == s.len() {
        assert(s.take(i) =~= s);
        if i > 0 {
            let front = s.drop_last();
            assert forall|j: int| 0 <= j < front.len() implies digit_value(
                #[trigger] front[j],
            ) is Some by {
                assert(front[j] == s[j]);
            }
            lemma_decimal_grows(front, front.len() as int);
            assert(front.take(front.len() as int) =~= front);
            assert(digit_value(s[i - 1]) is Some);
        }
    } else {
        let front = s.drop_last();
        assert forall|j: int| 0 <= j < front.len() implies digit_value(
            #[trigger] front[j],
        ) is Some by {
            assert(front[j] == s[j]);
        }
        lemma_decimal_grows(front, i);
        assert(front.take(i) =~= s.take(i));
        assert(digit_value(s[s.len() - 1]) is Some);
    }
}

/// The number that a text stands for.
pub fn parse_id(text: &str) -> (id: Option<u64>)
    ensures
        id == parsed(text@),
{
    let chars: Vec<char> = chars_of(text);
    let start: usize = if chars.len() > 0 && chars[0] == '+' {
        1
    } else {
        0
    };
    if start >= chars.len() {
        return None;
    }
    let ghost body = if start == 1 {
        text@.skip(1)
    } else {
        text@
    };
    let mut id: u64 = 0;
    let mut i: usize = start;
    assert(body.take(0) =~= Seq::<char>::empty());
    while i < chars.len()
        invariant
            chars@ == text@,
            start <= i <= chars@.len(),
            body.len() == chars@.len() - start,
            forall|j: int| 0 <= j < body.len() ==> #[trigger] body[j] == chars@[start + j],
            body == (if text@.len() > 0 && text@[0] == '+' {
                text@.skip(1)
            } else {
                text@
            }),
            all_digits(body.take(i - start)),
            id == decimal(body.take(i - start)),
        decreases chars@.len() - i,
    {
        let ghost at = i - start;
        let ghost next = body.take(at + 1);
        assert(next.drop_last() =~= body.take(at));
        assert(next.last() == body[at]);
        assert(body[at] == chars@[i as int]);
        let digit: u64 = match value_of_digit(chars[i]) {
            Some(digit) => digit,
            None => {
                assert(digit_value(body[at]) is None);
                return None;
            },
        };
        assert forall|j: int| 0 <= j < next.len() implies digit_value(
            #[trigger] next[j],
        ) is Some by {
            if j < at {
                assert(body.take(at)[j] == next[j]);
            }
        }
        if id > u64::MAX / 10 || id * 10 > u64::MAX - digit {
            proof {
                if all_digits(body) {
                    lemma_decimal_grows(body, at + 1);
                }
            }
            return None;
        }
        id = id * 10 + digit;
        i += 1;
    }
    assert(body.take(i - start) =~= body);
    Some(id)
}

/// What stands in front of a suffix.
pub fn strip_suffix<'a>(s: &'a str, suffix: &str) -> (stem: Option<&'a str>)
    ensures
        match stem {
            Some(t) => has_suffix(s@, suffix@) && t@ == s@.take(s@.len() - suffix@.len()),
            None => !has_suffix(s@, suffix@),
        },
{
    let size: usize = s.unicode_len();
    let len: usize = suffix.unicode_len();
    if size < len {
        return None;
    }
    let tail = s.substring_char(size - len, size);
    assert(tail@ =~= s@.skip(size - len));
    if !same_text(tail, suffix) {
        return None;
    }
    let stem = s.substring_char(0, size - len);
    assert(stem@ =~= s@.take(size - len));
    Some(stem)
}

/// The id of a data file, going by its name.
pub fn get_file_id(file_name: &str) -> (id: Option<u64>)
    ensures
        id == id_before(file_name@, ".data"@),
{
    match strip_suffix(file_name, ".data") {
        Some(stem) => parse_id(stem),
        None => None,
    }
}

/// What a file in the directory of a store is.
#[derive(Debug, Clone, Copy, PartialEq, Eq, Structural)]
pub enum FileKind {
    /// A data file.
    Data(u64),
    /// An output that a merge has not finished.
    Leftover,
    /// The hint file of a data file.
    Hint(u64),
    /// Something that the store does not know.
    Foreign,
}

/// What a file is, going by its name.
pub open spec fn kind_of(name: Seq<char>) -> FileKind {
    match id_before(name, ".data"@) {
        Some(id) => FileKind::Data(id),
        None => if has_suffix(name, ".data.compact"@) {
            FileKind::Leftover
        } else {
            match id_before(name, ".hint"@) {
                Some(id) => FileKind::Hint(id),
                None => FileKind::Foreign,
            }
        },
    }
}

/// What a file is, going by its name.
pub fn file_kind(name: &str) -> (kind: FileKind)
    ensures
        kind == kind_of(name@),
{
    if let Some(id) = get_file_id(name) {
        return FileKind::Data(id);
    }
    if strip_suffix(name, ".data.compact").is_some() {
        return FileKind::Leftover;
    }
    match strip_suffix(name, ".hint") {
        Some(stem) => match parse_id(stem) {
            Some(id) => FileKind::Hint(id),
            None => FileKind::Foreign,
        },
        None => FileKind::Foreign,
    }
}

/// Whether a file stays when a store is opened: an unfinished output goes, and
/// so does a hint file whose data file is gone. What the store does not know is
/// left alone.
pub fn stays(kind: FileKind, data_file_exists: bool) -> (keep: bool)
    ensures
        keep == (match kind {
            FileKind::Data(_) => true,
            FileKind::Leftover => false,
            FileKind::Hint(_) => data_file_exists,
            FileKind::Foreign => true,
        }),
{
    match kind {
        FileKind::Data(_) => true,
        FileKind::Leftover => false,
        FileKind::Hint(_) => data_file_exists,
        FileKind::Foreign => true,
    }
}

/// Adds a data file that was found to those found before.
pub fn note_file(readers: &mut Vec<u64>, kind: FileKind)
    requires
        ascending(old(readers)@),
    ensures
        ascending(final(readers)@),
        forall|x: u64| #[trigger]
            final(readers)@.contains(x) <==> (old(readers)@.contains(x) || kind == FileKind::Data(
                x,
            )),
{
    if let FileKind::Data(id) = kind {
        insert_id(readers, id);
    }
}

/// Picks the active file among the data files that were found: the one with
/// the highest id, or the first where there is none. It is among the files
/// from then on.
pub fn pick_active(readers: &mut Vec<u64>) -> (active: u64)
    requires
        ascending(old(readers)@),
    ensures
        ascending(final(readers)@),
        forall|x: u64| #[trigger]
            final(readers)@.contains(x) <==> (old(readers)@.contains(x) || x == active),
        old(readers)@.len() == 0 ==> active == 1,
        old(readers)@.len() > 0 ==> old(readers)@.contains(active),
        forall|x: u64| #[trigger] final(readers)@.contains(x) ==> x <= active,
{
    let count: usize = readers.len();
    if count == 0 {
        insert_id(readers, 1);
        return 1;
    }
    let active: u64 = readers[count - 1];
    assert(readers@.contains(active));
    active
}

proof fn lemma_digits(n: int)
    requires
        0 <= n,
    ensures
        digits(n).len() > 0,
        all_digits(digits(n)),
        decimal(digits(n)) == n,
        digits(n)[0] != '+',
    decreases n,
{
    if n < 10 {
        let s = digits(n);
        assert(s.drop_last() =~= Seq::<char>::empty());
        assert(decimal(s.drop_last()) == 0);
    } else {
        lemma_digits(n / 10);
        let s = digits(n);
        let front = digits(n / 10);
        assert(s.drop_last() =~= front);
        assert forall|i: int| 0 <= i < s.len() implies digit_value(#[trigger] s[i]) is Some by {
            if i < front.len() {
                assert(s[i] == front[i]);
            }
        }
        assert(s[0] == front[0]);
    }
}

proof fn lemma_leading_zeros(k: nat, s: Seq<char>)
    requires
        all_digits(s),
    ensures
        all_digits(Seq::new(k, |i: int| '0') + s),
        decimal(Seq::new(k, |i: int| '0') + s) == decimal(s),
    decreases s.len() + k,
{
    let zeros = Seq::new(k, |i: int| '0');
    let all = zeros + s;
    assert forall|i: int| 0 <= i < all.len() implies digit_value(#[trigger] all[i]) is Some by {
        if i >= k {
            assert(all[i] == s[i - k]);
        }
    }
    if s.len() > 0 {
        let front = s.drop_last();
        assert forall|i: int| 0 <= i < front.len() implies digit_value(
            #[trigger] front[i],
        ) is Some by {
            assert(front[i] == s[i]);
        }
        lemma_leading_zeros(k, front);
        assert(all.drop_last() =~= zeros + front);
    } else if k > 0 {
        let fewer = Seq::new((k - 1) as nat, |i: int| '0');
        lemma_leading_zeros((k - 1) as nat, s);
        assert(all.drop_last() =~= fewer + s);
    }
}

proof fn lemma_six_digits(n: int)
    requires
        0 <= n,
    ensures
        six_digits(n).len() >= 6,
        all_digits(six_digits(n)),
        decimal(six_digits(n)) == n,
        six_digits(n)[0] != '+',
{
    lemma_digits(n);
    if digits(n).len() < 6 {
        lemma_leading_zeros((6 - digits(n).len()) as nat, digits(n));
    }
}

/// The names of a data file, of its hint file and of an unfinished output are
/// told apart, and the id is read back from the name.
pub proof fn law_names(id: u64)
    ensures
        kind_of(six_digits(id as int) + ".data"@) == FileKind::Data(id),
        kind_of(six_digits(id as int) + ".hint"@) == FileKind::Hint(id),
        kind_of(six_digits(id as int) + ".data"@ + ".compact"@) == FileKind::Leftover,
{
    let stem = six_digits(id as int);
    lemma_six_digits(id as int);
    reveal_strlit(".data");
    reveal_strlit(".hint");
    reveal_strlit(".compact");
    reveal_strlit(".data.compact");
    let data = stem + ".data"@;
    let hint = stem + ".hint"@;
    let compact = stem + ".data"@ + ".compact"@;
    assert(data.take(data.len() - 5) =~= stem);
    assert(data.skip(data.len() - 5) =~= ".data"@);
    assert(hint.take(hint.len() - 5) =~= stem);
    assert(hint.skip(hint.len() - 5) =~= ".hint"@);
    assert(hint.last() != ".data"@.last());
    assert(hint.skip(hint.len() - 5).last() == hint.last());
    assert(!has_suffix(hint, ".data.compact"@)) by {
        if has_suffix(hint, ".data.compact"@) {
            let n = ".data.compact"@.len();
            assert(hint.skip(hint.len() - n)[n - 2] == ".data.compact"@[n - 2]);
            assert(hint[hint.len() - 2] == ".hint"@[3]);
        }
    }
    assert(compact.skip(compact.len() - 13) =~= ".data.compact"@);
    assert(!has_suffix(compact, ".data"@)) by {
        if has_suffix(compact, ".data"@) {
            assert(compact.skip(compact.len() - 5)[4] == ".data"@[4]);
            assert(compact[compact.len() - 1] == ".compact"@[7]);
        }
    }
}

/// The digits are the ten characters from '0' on, in their order.
pub proof fn law_digit(d: int, c: char)
    requires
        0 <= d < 10,
    ensures
        digit_char(d) as int == '0' as int + d,
        digit_value(digit_char(d)) == Some(d),
        digit_value(c) is Some <==> '0' <= c <= '9',
        digit_value(c) is Some ==> c as int == '0' as int + digit_value(c)->0,
{
}

/// A number in a file name is written in decimal, with six digits at least and
/// no leading zero beyond that.
pub proof fn law_six_digits(n: int)
    requires
        0 <= n,
    ensures
        six_digits(n).len() >= 6,
        forall|i: int| 0 <= i < six_digits(n).len() ==> '0' <= #[trigger] six_digits(n)[i] <= '9',
        decimal(six_digits(n)) == n,
        six_digits(n).len() > 6 ==> six_digits(n)[0] != '0',
        n < 1000000 ==> six_digits(n).len() == 6,
{
    lemma_six_digits(n);
    let s = six_digits(n);
    assert forall|i: int| 0 <= i < s.len() implies '0' <= #[trigger] s[i] <= '9' by {
        assert(digit_value(s[i]) is Some);
    }
    lemma_first_digit(n);
    if n < 1000000 {
        reveal_with_fuel(digits, 7);
    }
}

proof fn lemma_first_digit(n: int)
    requires
        0 <= n,
    ensures
        digits(n).len() > 0,
        n > 0 ==> digits(n)[0] != '0',
        n == 0 ==> digits(n).len() == 1,
    decreases n,
{
    if n >= 10 {
        lemma_first_digit(n / 10);
        assert(digits(n)[0] == digits(n / 10)[0]);
    }
}

/// What digits stand for: nothing is zero, and one more digit behind them is
/// ten times as much and that digit.
pub proof fn law_decimal(s: Seq<char>, c: char)
    requires
        '0' <= c <= '9',
    ensures
        decimal(Seq::empty()) == 0,
        decimal(s.push(c)) == 10 * decimal(s) + (c as int - '0' as int),
{
    assert(s.push(c).drop_last() =~= s);
}

/// Which texts are read as a number: digits and nothing else, at least one of
/// them, perhaps behind one plus sign, and what they stand for is below 2 to
/// the power of 64. The number is what they stand for.
pub proof fn law_parsed(text: &str, digits: Seq<char>, id: Option<u64>)
    requires
        call_ensures(parse_id, (text,), id),
        text@ == digits || text@ == seq!['+'] + digits,
        digits.len() > 0 ==> digits[0] != '+',
    ensures
        id is Some <==> {
            &&& digits.len() > 0
            &&& forall|i: int| 0 <= i < digits.len() ==> '0' <= #[trigger] digits[i] <= '9'
            &&& decimal(digits) < 0x1_0000_0000_0000_0000
        },
        id is Some ==> id->0 == decimal(digits),
{
    assert((seq!['+'] + digits).skip(1) =~= digits);
    if forall|i: int| 0 <= i < digits.len() ==> '0' <= #[trigger] digits[i] <= '9' {
        assert forall|i: int| 0 <= i < digits.len() implies digit_value(
            #[trigger] digits[i],
        ) is Some by {}
    }
    if all_digits(digits) {
        lemma_decimal_grows(digits, 0);
        assert forall|i: int| 0 <= i < digits.len() implies '0' <= #[trigger] digits[i]
            <= '9' by {
            assert(digit_value(digits[i]) is Some);
        }
    }
    if text@ == seq!['+'] + digits {
        assert(text@[0] == '+');
    }
}

/// What a file is, is told by the end of its name and the number in front of
/// that: nothing else is taken for a file of the store.
pub proof fn law_kinds(name: Seq<char>, stem: Seq<char>)
    ensures
        name == stem + ".data"@ ==> (kind_of(name) is Data <==> parsed(stem) is Some),
        name == stem + ".data"@ && parsed(stem) is Some ==> kind_of(name) == FileKind::Data(
            parsed(stem)->0,
        ),
        name == stem + ".data.compact"@ ==> kind_of(name) == FileKind::Leftover,
        name == stem + ".hint"@ && parsed(stem) is Some ==> kind_of(name) == FileKind::Hint(
            parsed(stem)->0,
        ),
        name == stem + ".hint"@ && parsed(stem) is None ==> kind_of(name) == FileKind::Foreign,
        kind_of(name) is Data ==> name == name.take(name.len() - 5) + ".data"@,
        kind_of(name) is Leftover ==> name == name.take(name.len() - 13) + ".data.compact"@,
        kind_of(name) is Hint ==> name == name.take(name.len() - 5) + ".hint"@,
{
    reveal_strlit(".data");
    reveal_strlit(".hint");
    reveal_strlit(".data.compact");
    lemma_suffix(stem, ".data"@);
    lemma_suffix(stem, ".data.compact"@);
    lemma_suffix(stem, ".hint"@);
    if has_suffix(name, ".data"@) {
        assert(name =~= name.take(name.len() - 5) + name.skip(name.len() - 5));
        assert(name.last() == name.skip(name.len() - 5).last());
        assert(name.last() == 'a');
    }
    if has_suffix(name, ".data.compact"@) {
        assert(name =~= name.take(name.len() - 13) + name.skip(name.len() - 13));
        assert(name.last() == name.skip(name.len() - 13).last());
        assert(name[name.len() - 2] == name.skip(name.len() - 13)[11]);
        assert(name.last() == 't' && name[name.len() - 2] == 'c');
    }
    if has_suffix(name, ".hint"@) {
        assert(name =~= name.take(name.len() - 5) + name.skip(name.len() - 5));
        assert(name.last() == name.skip(name.len() - 5).last());
        assert(name[name.len() - 2] == name.skip(name.len() - 5)[3]);
        assert(name.last() == 't' && name[name.len() - 2] == 'n');
    }
}

proof fn lemma_suffix(stem: Seq<char>, suffix: Seq<char>)
    ensures
        has_suffix(stem + suffix, suffix),
        (stem + suffix).take((stem + suffix).len() - suffix.len()) == stem,
{
    let name = stem + suffix;
    assert(name.skip(name.len() - suffix.len()) =~= suffix);
    assert(name.take(name.len() - suffix.len()) =~= stem);
}

/// What goes when a store is opened: unfinished outputs, and hint files whose
/// data file is gone. All else stays, what the store does not know included.
pub proof fn law_stays(kind: FileKind, data_file_exists: bool, keep: bool)
    requires
        call_ensures(stays, (kind, data_file_exists), keep),
    ensures
        !keep <==> kind is Leftover || (kind is Hint && !data_file_exists),
{
}

/// The names that a store gives its files: the id is read back from each, and
/// files with different ids, or of different kinds, have different names.
pub proof fn law_given_names(
    a: u64,
    b: u64,
    data: (String, String),
    hint: (String, String),
    compact: (String, String),
)
    requires
        call_ensures(data_file_name, (a,), data.0),
        call_ensures(data_file_name, (b,), data.1),
        call_ensures(hint_file_name, (a,), hint.0),
        call_ensures(hint_file_name, (b,), hint.1),
        call_ensures(data_file_name_compaction, (a,), compact.0),
        call_ensures(data_file_name_compaction, (b,), compact.1),
    ensures
        kind_of(data.0@) == FileKind::Data(a),
        kind_of(hint.0@) == FileKind::Hint(a),
        kind_of(compact.0@) == FileKind::Leftover,
        compact.0@ == data.0@ + ".compact"@,
        a != b ==> data.0@ != data.1@ && hint.0@ != hint.1@ && compact.0@ != compact.1@,
        data.0@ != hint.1@ && data.0@ != compact.1@ && hint.0@ != compact.1@,
{
    law_names(a);
    law_names(b);
    if compact.0@ == compact.1@ {
        reveal_strlit(".compact");
        assert(compact.0@.take(compact.0@.len() - 8) =~= data.0@);
        assert(compact.1@.take(compact.1@.len() - 8) =~= data.1@);
    }
}

} // verus!

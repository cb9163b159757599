use vstd::prelude::*;
use vstd::string::{StrSliceExecFns, StringExecFns};
use crate::ids::{ClientID, RequestNumber};

verus! {

/// A write of `value` to `key`.
#[derive(Clone, Copy, Debug, PartialEq, Eq, Structural)]
pub struct Op {
    pub key: u64,
    pub value: u64,
}

/// A request as a journal stores it.
#[derive(Clone, Copy, Debug, PartialEq, Eq, Structural)]
pub struct StoredEntry {
    pub client_id: ClientID,
    pub request_number: RequestNumber,
    pub op: Op,
}

/// Why the text of an entry cannot be read.
#[derive(Clone, Copy, Debug, PartialEq, Eq, Structural)]
pub enum DecodeError {
    /// The text ends before the entry does.
    Truncated,
    /// A word is not a number.
    BadNumber,
}

/// The decimal digit for `d`, which is less than ten.
pub open spec fn digit(d: int) -> char {
    if d == 0 {
        '0'
    } else if d == 1 {
        '1'
    } else if d == 2 {
        '2'
    } else if d == 3 {
        '3'
    } else if d == 4 {
        '4'
    } else if d == 5 {
        '5'
    } else if d == 6 {
        '6'
    } else if d == 7 {
        '7'
    } else if d == 8 {
        '8'
    } else {
        '9'
    }
}

/// `n` in decimal.
pub open spec fn decimal(n: nat) -> Seq<char>
    decreases n,
{
    if n < 10 {
        seq![digit(n as int)]
    } else {
        decimal(n / 10).push(digit((n % 10) as int))
    }
}

/// The text of an entry: its four numbers, with a space between two.
pub open spec fn encoded(entry: StoredEntry) -> Seq<char> {
    decimal(entry.client_id as nat) + seq![' '] + (decimal(entry.request_number as nat) + seq![' ']
        + (decimal(entry.op.key as nat) + seq![' '] + decimal(entry.op.value as nat)))
}

/// The characters that are white space.
pub open spec fn is_space(c: char) -> bool {
    let code = c as u32;
    9 <= code <= 13 || code == 32 || code == 0x85 || code == 0xA0 || code == 0x1680 || 0x2000
        <= code <= 0x200A || code == 0x2028 || code == 0x2029 || code == 0x202F || code == 0x205F
        || code == 0x3000
}

/// The first position from `from` on that is not white space.
pub open spec fn word_start(text: Seq<char>, from: int) -> int
    decreases text.len() - from,
{
    if from < text.len() && is_space(text[from]) {
        word_start(text, from + 1)
    } else {
        from
    }
}

/// The first position from `from` on that is white space, or the end.
pub open spec fn word_end(text: Seq<char>, from: int) -> int
    decreases text.len() - from,
{
    if from < text.len() && !is_space(text[from]) {
        word_end(text, from + 1)
    } else {
        from
    }
}

/// What a digit stands for.
pub open spec fn digit_value(c: char) -> int {
    c as u32 - '0' as u32
}

pub open spec fn is_digit(c: char) -> bool {
    0 <= digit_value(c) <= 9
}

/// What decimal digits stand for.
pub open spec fn decimal_value(digits: Seq<char>) -> nat
    decreases digits.len(),
{
    if digits.len() == 0 {
        0
    } else {
        (10 * decimal_value(digits.drop_last()) + digit_value(digits.last())) as nat
    }
}

/// The digits of a word, which may follow a plus sign.
pub open spec fn digits_of(word: Seq<char>) -> Seq<char> {
    if word.len() > 0 && word[0] == '+' {
        word.skip(1)
    } else {
        word
    }
}

/// Whether a word is a number that fits.
pub open spec fn is_number(word: Seq<char>) -> bool {
    &&& digits_of(word).len() > 0
    &&& forall|i: int| 0 <= i < digits_of(word).len() ==> is_digit(#[trigger] digits_of(word)[i])
    &&& decimal_value(digits_of(word)) <= u64::MAX
}

/// The number that the first word from `from` on is, and where that word
/// ends.
pub open spec fn number_at(text: Seq<char>, from: int) -> (Result<u64, DecodeError>, int) {
    let start = word_start(text, from);
    let end = word_end(text, start);
    let word = text.subrange(start, end);
    if start == end {
        (Err(DecodeError::Truncated), end)
    } else if is_number(word) {
        (Ok(decimal_value(digits_of(word)) as u64), end)
    } else {
        (Err(DecodeError::BadNumber), end)
    }
}

/// The entry that `text` starts with: its first four words, which are
/// numbers.
pub open spec fn decoded(text: Seq<char>) -> Result<StoredEntry, DecodeError> {
    let (client_id, a) = number_at(text, 0);
    let (request_number, b) = number_at(text, a);
    let (key, c) = number_at(text, b);
    let (value, _) = number_at(text, c);
    match client_id {
        Err(error) => Err(error),
        Ok(client_id) => match request_number {
            Err(error) => Err(error),
            Ok(request_number) => match key {
                Err(error) => Err(error),
                Ok(key) => match value {
                    Err(error) => Err(error),
                    Ok(value) => Ok(
                        StoredEntry {
                            client_id: client_id as usize,
                            request_number: request_number as usize,
                            op: Op { key, value },
                        },
                    ),
                },
            },
        },
    }
}

/// Adds the digit for `d` to `text`.
fn push_digit(text: &mut String, d: u64)
    requires
        d < 10,
    ensures
        final(text)@ == old(text)@.push(digit(d as int)),
{
    proof {
        reveal_strlit("0");
        reveal_strlit("1");
        reveal_strlit("2");
        reveal_strlit("3");
        reveal_strlit("4");
        reveal_strlit("5");
        reveal_strlit("6");
        reveal_strlit("7");
        reveal_strlit("8");
        reveal_strlit("9");
    }
    let word: &str = if d == 0 {
        "0"
    } else if d == 1 {
        "1"
    } else if d == 2 {
        "2"
    } else if d == 3 {
        "3"
    } else if d == 4 {
        "4"
    } else if d == 5 {
        "5"
    } else if d == 6 {
        "6"
    } else if d == 7 {
        "7"
    } else if d == 8 {
        "8"
    } else {
        "9"
    };
    text.append(word);
    assert(text@ =~= old(text)@.push(digit(d as int)));
}

/// Adds `n` in decimal to `text`.
fn push_number(text: &mut String, n: u64)
    ensures
        final(text)@ == old(text)@ + decimal(n as nat),
    decreases n,
{
    if n >= 10 {
        push_number(text, n / 10);
    }
    push_digit(text, n % 10);
    assert(text@ =~= old(text)@ + decimal(n as nat));
}

/// Adds a space to `text`.
fn push_space(text: &mut String)
    ensures
        final(text)@ == old(text)@ + seq![' '],
{
    proof {
        reveal_strlit(" ");
    }
    text.append(" ");
    assert(text@ =~= old(text)@ + seq![' ']);
}

/// Encodes an entry as one line of text.
pub fn encode_entry(entry: &StoredEntry) -> (text: String)
    ensures
        text@ == encoded(*entry),
{
    proof {
        reveal_strlit("");
    }
    let mut text = String::from_str("");
    push_number(&mut text, entry.client_id as u64);
    push_space(&mut text);
    push_number(&mut text, entry.request_number as u64);
    push_space(&mut text);
    push_number(&mut text, entry.op.key);
    push_space(&mut text);
    push_number(&mut text, entry.op.value);
    assert(text@ =~= encoded(*entry));
    text
}

/// The number that the first word of `text` from `from` on is, and where
/// that word ends.
fn read_number(text: &str, from: usize) -> (read: (Result<u64, DecodeError>, usize))
    requires
        from <= text@.len() <= usize::MAX,
    ensures
        (read.0, read.1 as int) == number_at(text@, from as int),
        read.1 <= text@.len(),
{
    let len = text.unicode_len();
    let mut start = from;
    while start < len && space(text.get_char(start))
        invariant
            len == text@.len(),
            start <= len,
            word_start(text@, start as int) == word_start(text@, from as int),
        decreases len - start,
    {
        start += 1;
    }
    let mut end = start;
    while end < len && !space(text.get_char(end))
        invariant
            len == text@.len(),
            start <= end <= len,
            word_end(text@, end as int) == word_end(text@, start as int),
        decreases len - end,
    {
        end += 1;
    }
    if start == end {
        return (Err(DecodeError::Truncated), end);
    }
    let ghost word = text@.subrange(start as int, end as int);
    let first: usize = if text.get_char(start) == '+' {
        start + 1
    } else {
        start
    };
    let ghost digits = digits_of(word);
    assert(digits =~= text@.subrange(first as int, end as int));
    if first == end {
        return (Err(DecodeError::BadNumber), end);
    }
    let mut value: u64 = 0;
    let mut i: usize = first;
    assert(digits.take(0) =~= Seq::empty());
    while i < end
        invariant
            len == text@.len(),
            first <= i <= end <= len,
            digits == text@.subrange(first as int, end as int),
            digits == digits_of(word),
            forall|j: int| 0 <= j < i - first ==> is_digit(#[trigger] digits[j]),
            value == decimal_value(digits.take(i - first)),
            start < end,
            word == text@.subrange(start as int, end as int),
            (start as int, end as int) == (
                word_start(text@, from as int),
                word_end(text@, word_start(text@, from as int)),
            ),
        decreases end - i,
    {
        let c = text.get_char(i);
        proof {
            let at = i - first;
            assert(digits[at] == c);
            assert(digits.take(at + 1).drop_last() =~= digits.take(at));
            assert(digits.take(at + 1).last() == c);
        }
        if (c as u32) < 48 || (c as u32) > 57 {
            assert(!is_digit(digits[i - first]));
            return (Err(DecodeError::BadNumber), end);
        }
        let d: u64 = (c as u32 - 48) as u64;
        if value > u64::MAX / 10 || value * 10 > u64::MAX - d {
            proof {
                lemma_value_grows(digits, i - first + 1);
            }
            return (Err(DecodeError::BadNumber), end);
        }
        value = value * 10 + d;
        i += 1;
    }
    assert(digits.take(end - first) =~= digits);
    (Ok(value), end)
}

/// Whether `c` is white space.
fn space(c: char) -> (is: bool)
    ensures
        is == is_space(c),
{
    let code = c as u32;
    (9 <= code && code <= 13) || code == 32 || code == 0x85 || code == 0xA0 || code == 0x1680 || (
    0x2000 <= code && code <= 0x200A) || code == 0x2028 || code == 0x2029 || code == 0x202F || code
        == 0x205F || code == 0x3000
}

/// Decodes an entry from one line of text.
pub fn decode_entry(text: &str) -> (entry: Result<StoredEntry, DecodeError>)
    requires
        text@.len() <= usize::MAX,
    ensures
        entry == decoded(text@),
{
    let (client_id, a) = read_number(text, 0);
    let client_id = client_id?;
    let (request_number, b) = read_number(text, a);
    let request_number = request_number?;
    let (key, c) = read_number(text, b);
    let key = key?;
    let (value, _) = read_number(text, c);
    let value = value?;
    Ok(
        StoredEntry {
            client_id: client_id as usize,
            request_number: request_number as usize,
            op: Op { key, value },
        },
    )
}

/// More digits stand for no less if they are digits, and only then is the
/// whole a number.
proof fn lemma_value_grows(digits: Seq<char>, count: int)
    requires
        0 <= count <= digits.len(),
    ensures
        (forall|i: int| 0 <= i < digits.len() ==> is_digit(#[trigger] digits[i]))
            ==> decimal_value(digits.take(count)) <= decimal_value(digits),
    decreases digits.len(),
{
    if count < digits.len() {
        let before = digits.drop_last();
        lemma_value_grows(before, count);
        assert(before.take(count) =~= digits.take(count));
        if forall|i: int| 0 <= i < digits.len() ==> is_digit(#[trigger] digits[i]) {
            assert forall|i: int| 0 <= i < before.len() implies is_digit(#[trigger] before[i]) by {
                assert(before[i] == digits[i]);
            }
            assert(is_digit(digits[digits.len() - 1]));
        }
    } else {
        assert(digits.take(count) =~= digits);
    }
}

proof fn lemma_decimal(n: nat)
    ensures
        decimal(n).len() > 0,
        forall|i: int| 0 <= i < decimal(n).len() ==> is_digit(#[trigger] decimal(n)[i]),
        decimal_value(decimal(n)) == n,
    decreases n,
{
    if n < 10 {
        let one = seq![digit(n as int)];
        assert(one.drop_last() =~= Seq::empty());
        assert(decimal_value(one.drop_last()) == 0);
        assert(one.last() == digit(n as int));
    } else {
        lemma_decimal(n / 10);
        let all = decimal(n);
        assert(all.drop_last() =~= decimal(n / 10));
        assert(all.last() == digit((n % 10) as int));
        assert forall|i: int| 0 <= i < all.len() implies is_digit(#[trigger] all[i]) by {
            if i < decimal(n / 10).len() {
                assert(all[i] == decimal(n / 10)[i]);
            }
        }
    }
}

/// A word of digits at `from` ends where they do, if nothing or a space
/// follows.
proof fn lemma_word_end(text: Seq<char>, from: int, end: int)
    requires
        0 <= from <= end <= text.len(),
        forall|i: int| from <= i < end ==> is_digit(#[trigger] text[i]),
        end == text.len() || text[end] == ' ',
    ensures
        word_end(text, from) == end,
    decreases end - from,
{
    if from < end {
        assert(is_digit(text[from]));
        lemma_word_end(text, from + 1, end);
    }
}

/// A number written at `from`, or after a space there, is read back.
proof fn lemma_number_at(text: Seq<char>, from: int, start: int, n: u64)
    requires
        0 <= from <= start <= from + 1,
        start == from + 1 ==> from < text.len() && text[from] == ' ',
        start + decimal(n as nat).len() <= text.len(),
        text.subrange(start, start + decimal(n as nat).len()) == decimal(n as nat),
        start + decimal(n as nat).len() == text.len() || text[start + decimal(n as nat).len()]
            == ' ',
    ensures
        number_at(text, from) == (Ok::<u64, DecodeError>(n), start + decimal(n as nat).len()),
{
    let digits = decimal(n as nat);
    let end = start + digits.len();
    lemma_decimal(n as nat);
    assert forall|i: int| start <= i < end implies is_digit(#[trigger] text[i]) by {
        assert(text[i] == text.subrange(start, end)[i - start]);
        assert(is_digit(digits[i - start]));
    }
    assert(is_digit(text[start]));
    if start == from + 1 {
        assert(word_start(text, from) == word_start(text, start));
    }
    assert(word_start(text, start) == start);
    lemma_word_end(text, start, end);
    assert(digits_of(text.subrange(start, end)) =~= digits) by {
        assert(is_digit(digits[0]));
    }
}

/// An entry encoded is decoded again.
pub proof fn entries_read_back(entry: StoredEntry)
    ensures
        decoded(encoded(entry)) == Ok::<StoredEntry, DecodeError>(entry),
{
    let text = encoded(entry);
    let a = decimal(entry.client_id as nat);
    let b = decimal(entry.request_number as nat);
    let c = decimal(entry.op.key as nat);
    let d = decimal(entry.op.value as nat);
    let i: int = a.len() as int;
    let j: int = i + 1 + b.len();
    let k: int = j + 1 + c.len();
    assert(text.subrange(0, i) =~= a);
    assert(text.subrange(i + 1, j) =~= b);
    assert(text.subrange(j + 1, k) =~= c);
    assert(text.subrange(k + 1, k + 1 + d.len()) =~= d);
    lemma_number_at(text, 0, 0, entry.client_id as u64);
    lemma_number_at(text, i, i + 1, entry.request_number as u64);
    lemma_number_at(text, j, j + 1, entry.op.key);
    lemma_number_at(text, k, k + 1, entry.op.value);
}

} // verus!

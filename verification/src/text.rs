//! Decimal and hexadecimal text, number parsing, and the search for a string field of a JSON text.

use vstd::prelude::*;
use vstd::string::{StrSliceExecFns, StringExecFns};

verus! {

/// The character of a digit in base ten or sixteen.
pub open spec fn digit_char(digit: nat) -> char {
    if digit < 10 {
        (0x30 + digit) as char
    } else {
        (0x57 + digit) as char
    }
}

/// A number in decimal, without leading zeros.
pub open spec fn decimal(n: nat) -> Seq<char>
    decreases n,
{
    if n < 10 {
        seq![digit_char(n)]
    } else {
        decimal(n / 10).push(digit_char(n % 10))
    }
}

/// A run of `count` zeros.
pub open spec fn zeros(count: nat) -> Seq<char> {
    Seq::new(count, |i: int| '0')
}

/// A number in decimal, filled up with leading zeros to at least `width` characters.
pub open spec fn decimal_padded(n: nat, width: nat) -> Seq<char> {
    if decimal(n).len() < width {
        zeros((width - decimal(n).len()) as nat) + decimal(n)
    } else {
        decimal(n)
    }
}

/// Bytes in lower-case hexadecimal, two characters for each.
pub open spec fn hex_text(bytes: Seq<u8>) -> Seq<char>
    decreases bytes.len(),
{
    if bytes.len() == 0 {
        Seq::empty()
    } else {
        hex_text(bytes.drop_last()) + seq![
            digit_char((bytes.last() / 16) as nat),
            digit_char((bytes.last() % 16) as nat),
        ]
    }
}

/// The text of one digit in base ten or sixteen.
fn digit_text(digit: u8) -> (text: &'static str)
    requires
        digit < 16,
    ensures
        text@ == seq![digit_char(digit as nat)],
{
    proof {
        reveal_strlit("0");
        reveal_strlit("1");
        reveal_strlit("2");
        reveal_strlit("3");
        reveal_strlit("4");
        reveal_strlit("5");
        reveal_strlit("6");
        reveal_strlit("7");
        reveal_strlit("8");
        reveal_strlit("9");
        reveal_strlit("a");
        reveal_strlit("b");
        reveal_strlit("c");
        reveal_strlit("d");
        reveal_strlit("e");
        reveal_strlit("f");
    }
    let text: &'static str = match digit {
        0 => "0",
        1 => "1",
        2 => "2",
        3 => "3",
        4 => "4",
        5 => "5",
        6 => "6",
        7 => "7",
        8 => "8",
        9 => "9",
        10 => "a",
        11 => "b",
        12 => "c",
        13 => "d",
        14 => "e",
        _ => "f",
    };
    assert(text@ =~= seq![digit_char(digit as nat)]);
    text
}

/// Padding commutes with taking off the last digit.
pub proof fn lemma_padded_step(n: nat, width: nat)
    requires
        n >= 10 || width > 1,
    ensures
        decimal_padded(n, width) == decimal_padded(
            n / 10,
            if width > 0 {
                (width - 1) as nat
            } else {
                0
            },
        ).push(digit_char(n % 10)),
{
    let less = if width > 0 {
        (width - 1) as nat
    } else {
        0
    };
    if n < 10 {
        assert(decimal(0) =~= zeros(1));
        assert(decimal_padded(0, less) =~= zeros(less));
    }
    assert(decimal_padded(n, width) =~= decimal_padded(n / 10, less).push(digit_char(n % 10)));
}

/// Appends a number in decimal, filled up with leading zeros to at least `width` characters.
pub fn push_decimal(out: &mut String, n: u128, width: usize)
    ensures
        final(out)@ == old(out)@ + decimal_padded(n as nat, width as nat),
    decreases n, width,
{
    proof {
        if n >= 10 || width > 1 {
            lemma_padded_step(n as nat, width as nat);
        }
    }
    if n >= 10 || width > 1 {
        push_decimal(out, n / 10, if width > 0 { width - 1 } else { 0 });
    }
    out.append(digit_text((n % 10) as u8));
    assert(out@ =~= old(out)@ + decimal_padded(n as nat, width as nat));
}

/// A number in decimal, filled up with leading zeros to at least `width` characters.
pub fn decimal_text(n: u64, width: usize) -> (text: String)
    ensures
        text@ == decimal_padded(n as nat, width as nat),
{
    let mut out: String = String::new();
    push_decimal(&mut out, n as u128, width);
    assert(out@ =~= decimal_padded(n as nat, width as nat));
    out
}

/// Bytes in lower-case hexadecimal.
pub fn hex(b: &[u8]) -> (text: String)
    ensures
        text@ == hex_text(b@),
{
    let mut out: String = String::new();
    let mut i: usize = 0;
    while i < b.len()
        invariant
            i <= b@.len(),
            out@ == hex_text(b@.take(i as int)),
        decreases b@.len() - i,
    {
        out.append(digit_text(b[i] / 16));
        out.append(digit_text(b[i] % 16));
        i += 1;
        assert(b@.take(i as int).drop_last() =~= b@.take(i - 1));
        assert(out@ =~= hex_text(b@.take(i as int)));
    }
    assert(b@.take(i as int) =~= b@);
    out
}

/// The characters of a text.
pub fn chars_of(text: &str) -> (chars: Vec<char>)
    ensures
        chars@ == text@,
{
    let mut out: Vec<char> = Vec::new();
    for c in it: text.chars()
        invariant
            out@ == it.seq().take(it.index()),
            it.seq() == text@,
    {
        out.push(c);
    }
    out
}

/// Whether two texts are the same.
pub fn same_text(a: &str, b: &str) -> (same: bool)
    ensures
        same == (a@ == b@),
{
    let left: Vec<char> = chars_of(a);
    let right: Vec<char> = chars_of(b);
    if left.len() != right.len() {
        return false;
    }
    let mut i: usize = 0;
    while i < left.len()
        invariant
            left@ == a@,
            right@ == b@,
            left@.len() == right@.len(),
            i <= left@.len(),
            forall|k: int| 0 <= k < i ==> left@[k] == right@[k],
        decreases left@.len() - i,
    {
        if left[i] != right[i] {
            return false;
        }
        i += 1;
    }
    assert(a@ =~= b@);
    true
}

/// Whether `needle` stands in `hay` at position `i`.
pub open spec fn occurs_at(hay: Seq<char>, needle: Seq<char>, i: int) -> bool {
    0 <= i && i + needle.len() <= hay.len() && hay.subrange(i, i + needle.len()) == needle
}

/// The first position from `from` on at which `needle` stands in `hay`.
pub open spec fn find_from(hay: Seq<char>, needle: Seq<char>, from: int) -> Option<int>
    decreases hay.len() + 1 - from,
{
    if from < 0 || from + needle.len() > hay.len() {
        None
    } else if occurs_at(hay, needle, from) {
        Some(from)
    } else {
        find_from(hay, needle, from + 1)
    }
}

/// The first position from `from` on at which `needle` stands in `hay`.
fn find(hay: &Vec<char>, needle: &Vec<char>, from: usize) -> (position: Option<usize>)
    requires
        from <= hay@.len(),
    ensures
        match position {
            Some(i) => find_from(hay@, needle@, from as int) == Some(i as int),
            None => find_from(hay@, needle@, from as int) is None,
        },
{
    let total: usize = hay.len();
    let mut i: usize = from;
    while needle.len() <= total - i
        invariant
            from <= i <= total,
            total == hay@.len(),
            find_from(hay@, needle@, from as int) == find_from(hay@, needle@, i as int),
        decreases hay@.len() - i,
    {
        let mut k: usize = 0;
        while k < needle.len() && hay[i + k] == needle[k]
            invariant
                k <= needle@.len(),
                i + needle@.len() <= total,
                total == hay@.len(),
                forall|j: int| 0 <= j < k ==> hay@[i + j] == needle@[j],
            decreases needle@.len() - k,
        {
            k += 1;
        }
        if k == needle.len() {
            assert(hay@.subrange(i as int, i + needle@.len()) =~= needle@);
            return Some(i);
        }
        assert(!occurs_at(hay@, needle@, i as int)) by {
            assert(hay@.subrange(i as int, i + needle@.len())[k as int] == hay@[i + k]);
        }
        if i == total {
            return None;
        }
        i += 1;
    }
    None
}

/// The text that introduces the string field `key` of a JSON object: its quoted name, a colon and
/// an opening quote.
pub open spec fn field_mark(key: Seq<char>) -> Seq<char> {
    seq!['"'] + key + seq!['"', ':', '"']
}

/// The string field `key` of a JSON text: what stands between the first introduction of the field
/// and the next quote.
pub open spec fn field_text(text: Seq<char>, key: Seq<char>) -> Option<Seq<char>> {
    match find_from(text, field_mark(key), 0) {
        None => None,
        Some(at) => {
            let start = at + field_mark(key).len();
            match find_from(text, seq!['"'], start) {
                None => None,
                Some(end) => Some(text.subrange(start, end)),
            }
        },
    }
}

/// The found position lies in the text.
pub proof fn lemma_find_from(hay: Seq<char>, needle: Seq<char>, from: int)
    requires
        0 <= from,
    ensures
        find_from(hay, needle, from) matches Some(i) ==> from <= i && occurs_at(hay, needle, i)
            && forall|j: int| from <= j < i ==> !occurs_at(hay, needle, j),
        find_from(hay, needle, from) is None ==> forall|j: int|
            from <= j ==> !occurs_at(hay, needle, j),
    decreases hay.len() + 1 - from,
{
    if from + needle.len() <= hay.len() && !occurs_at(hay, needle, from) {
        lemma_find_from(hay, needle, from + 1);
    }
}

/// The string field `key` of a JSON text, found without parsing it.
pub fn audit_field<'a>(audit: &'a str, key: &str) -> (value: Option<&'a str>)
    ensures
        match value {
            Some(v) => field_text(audit@, key@) == Some(v@),
            None => field_text(audit@, key@) is None,
        },
{
    let hay: Vec<char> = chars_of(audit);
    let mut mark: Vec<char> = Vec::new();
    mark.push('"');
    let mut name: Vec<char> = chars_of(key);
    mark.append(&mut name);
    mark.push('"');
    mark.push(':');
    mark.push('"');
    assert(mark@ =~= field_mark(key@));
    proof {
        lemma_find_from(hay@, mark@, 0);
    }
    match find(&hay, &mark, 0) {
        None => None,
        Some(at) => {
            assert(hay.len() == hay@.len() && mark.len() == mark@.len());
            let start: usize = at + mark.len();
            let mut quote: Vec<char> = Vec::new();
            quote.push('"');
            assert(quote@ =~= seq!['"']);
            proof {
                lemma_find_from(hay@, quote@, start as int);
            }
            match find(&hay, &quote, start) {
                None => None,
                Some(end) => Some(audit.substring_char(start, end)),
            }
        },
    }
}

/// Whether a character is white space.
pub open spec fn is_space(c: char) -> bool {
    ||| '\u{9}' <= c <= '\u{D}'
    ||| c == '\u{20}'
    ||| c == '\u{85}'
    ||| c == '\u{A0}'
    ||| c == '\u{1680}'
    ||| '\u{2000}' <= c <= '\u{200A}'
    ||| c == '\u{2028}'
    ||| c == '\u{2029}'
    ||| c == '\u{202F}'
    ||| c == '\u{205F}'
    ||| c == '\u{3000}'
}

/// Whether every character is an ASCII digit.
pub open spec fn all_digit_chars(text: Seq<char>) -> bool {
    forall|i: int| 0 <= i < text.len() ==> '0' <= #[trigger] text[i] <= '9'
}

/// The number that a row of digit characters writes.
pub open spec fn decimal_value(text: Seq<char>) -> nat
    decreases text.len(),
{
    if text.len() == 0 {
        0
    } else {
        (decimal_value(text.drop_last()) * 10 + (text.last() as int - '0' as int)) as nat
    }
}

/// The number of digits at the front of a text.
pub open spec fn digit_run(text: Seq<char>) -> nat
    decreases text.len(),
{
    if text.len() > 0 && '0' <= text[0] <= '9' {
        1 + digit_run(text.skip(1))
    } else {
        0
    }
}

/// The text without one leading plus sign.
pub open spec fn without_plus(text: Seq<char>) -> Seq<char> {
    if text.len() > 0 && text[0] == '+' {
        text.skip(1)
    } else {
        text
    }
}

/// The unsigned number that a text writes, where it is at most `max`: an optional plus sign and at
/// least one digit, and nothing else.
pub open spec fn parsed(text: Seq<char>, max: nat) -> Option<nat> {
    let digits = without_plus(text);
    if digits.len() > 0 && all_digit_chars(digits) && decimal_value(digits) <= max {
        Some(decimal_value(digits))
    } else {
        None
    }
}

/// A longer row of digits writes no smaller number.
proof fn lemma_decimal_value_grows(text: Seq<char>, k: int)
    requires
        all_digit_chars(text),
        0 <= k <= text.len(),
    ensures
        decimal_value(text.take(k)) <= decimal_value(text),
    decreases text.len() - k,
{
    if k < text.len() {
        lemma_decimal_value_grows(text, k + 1);
        let more = text.take(k + 1);
        assert(more.drop_last() =~= text.take(k));
        assert(more.last() == text[k]);
    } else {
        assert(text.take(k) =~= text);
    }
}

/// Reads an unsigned number of at most `max`.
fn parse_number(text: &str, max: u64) -> (number: Option<u64>)
    ensures
        match number {
            Some(n) => parsed(text@, max as nat) == Some(n as nat),
            None => parsed(text@, max as nat) is None,
        },
{
    let chars: Vec<char> = chars_of(text);
    let start: usize = if chars.len() > 0 && chars[0] == '+' {
        1
    } else {
        0
    };
    let ghost digits = without_plus(text@);
    assert(digits =~= chars@.skip(start as int));
    if start == chars.len() {
        return None;
    }
    let total: usize = chars.len();
    let mut value: u64 = 0;
    let mut i: usize = start;
    while i < total
        invariant
            start <= i <= total,
            total == chars@.len(),
            digits == chars@.skip(start as int),
            digits == without_plus(text@),
            value <= max,
            forall|j: int| 0 <= j < i - start ==> '0' <= #[trigger] digits[j] <= '9',
            value == decimal_value(digits.take(i - start)),
        decreases total - i,
    {
        let c: char = chars[i];
        assert(c == digits[i - start]);
        if c < '0' || c > '9' {
            return None;
        }
        let digit: u64 = c as u64 - '0' as u64;
        let next: u128 = value as u128 * 10 + digit as u128;
        proof {
            let more = digits.take(i - start + 1);
            assert(more.drop_last() =~= digits.take(i - start));
            assert(next == decimal_value(more));
            if next > max && all_digit_chars(digits) {
                lemma_decimal_value_grows(digits, i - start + 1);
            }
        }
        if next > max as u128 {
            return None;
        }
        value = next as u64;
        i += 1;
    }
    assert(digits.take(total - start) =~= digits);
    Some(value)
}

/// Reads an unsigned 64-bit number.
pub fn parse_u64(text: &str) -> (number: Option<u64>)
    ensures
        match number {
            Some(n) => parsed(text@, u64::MAX as nat) == Some(n as nat),
            None => parsed(text@, u64::MAX as nat) is None,
        },
{
    parse_number(text, u64::MAX)
}

/// Reads an unsigned number of the machine's word size.
pub fn parse_usize(text: &str) -> (number: Option<usize>)
    ensures
        match number {
            Some(n) => parsed(text@, usize::MAX as nat) == Some(n as nat),
            None => parsed(text@, usize::MAX as nat) is None,
        },
{
    match parse_number(text, usize::MAX as u64) {
        Some(n) => Some(n as usize),
        None => None,
    }
}

/// A number in decimal reads back: its digits denote it, and it begins with a zero only where it is
/// zero.
pub proof fn law_decimal_denotes_number(n: nat)
    ensures
        decimal(n).len() > 0,
        all_digit_chars(decimal(n)),
        decimal_value(decimal(n)) == n,
        decimal(n)[0] == '0' ==> n == 0,
        n == 0 ==> decimal(n).len() == 1,
    decreases n,
{
    let text = decimal(n);
    if n >= 10 {
        law_decimal_denotes_number(n / 10);
        let front = decimal(n / 10);
        assert(text.drop_last() =~= front);
        assert(text.last() == digit_char(n % 10));
        assert(text[0] == front[0]);
        assert forall|i: int| 0 <= i < text.len() implies '0' <= #[trigger] text[i] <= '9' by {
            if i < front.len() {
                assert(text[i] == front[i]);
            }
        }
    } else {
        assert(text.drop_last() =~= Seq::<char>::empty());
        reveal_with_fuel(decimal_value, 2);
    }
}

/// Zeros in front change no number.
proof fn lemma_zeros_in_front(count: nat, text: Seq<char>)
    ensures
        decimal_value(zeros(count) + text) == decimal_value(text),
    decreases count + text.len(),
{
    let all = zeros(count) + text;
    if text.len() > 0 {
        lemma_zeros_in_front(count, text.drop_last());
        assert(all.drop_last() =~= zeros(count) + text.drop_last());
    } else if count > 0 {
        let less = (count - 1) as nat;
        lemma_zeros_in_front(less, text);
        assert(all.drop_last() =~= zeros(less) + text);
        assert(all.last() == '0');
        assert(decimal_value(text) == 0);
    } else {
        assert(all =~= text);
    }
}

/// A padded number reads back, is at least as long as asked for, and is padded with no more zeros
/// than that takes.
pub proof fn law_padded_denotes_number(n: nat, width: nat)
    ensures
        decimal_value(decimal_padded(n, width)) == n,
        all_digit_chars(decimal_padded(n, width)),
        decimal_padded(n, width).len() >= width,
        decimal_padded(n, width).len() > width ==> decimal_padded(n, width) == decimal(n),
        width <= 1 ==> decimal_padded(n, width) == decimal(n),
{
    law_decimal_denotes_number(n);
    let text = decimal(n);
    if text.len() < width {
        let fill = (width - text.len()) as nat;
        lemma_zeros_in_front(fill, text);
        let all = zeros(fill) + text;
        assert forall|i: int| 0 <= i < all.len() implies '0' <= #[trigger] all[i] <= '9' by {
            if i >= fill {
                assert(all[i] == text[i - fill]);
            }
        }
    }
}

/// Every byte is two hexadecimal digits, the high one first, in the order of the bytes.
pub proof fn law_hex_writes_every_byte(bytes: Seq<u8>, i: int)
    requires
        0 <= i < bytes.len(),
    ensures
        hex_text(bytes).len() == 2 * bytes.len(),
        hex_text(bytes)[2 * i] as int == if bytes[i] / 16 < 10 {
            0x30 + bytes[i] / 16
        } else {
            0x61 + (bytes[i] / 16 - 10)
        },
        hex_text(bytes)[2 * i + 1] as int == if bytes[i] % 16 < 10 {
            0x30 + bytes[i] % 16
        } else {
            0x61 + (bytes[i] % 16 - 10)
        },
    decreases bytes.len(),
{
    let less = bytes.drop_last();
    if i < less.len() {
        law_hex_writes_every_byte(less, i);
        assert(less[i] == bytes[i]);
    } else if less.len() > 0 {
        law_hex_writes_every_byte(less, 0);
    } else {
        assert(hex_text(less) =~= Seq::<char>::empty());
    }
}

/// A number written in decimal, with or without leading zeros or one plus sign, is read as itself,
/// and not at all where it exceeds the bound.
pub proof fn law_written_numbers_are_read(n: nat, width: nat, max: nat)
    ensures
        parsed(decimal_padded(n, width), max) == if n <= max {
            Some(n)
        } else {
            None
        },
        parsed(seq!['+'] + decimal_padded(n, width), max) == if n <= max {
            Some(n)
        } else {
            None
        },
{
    law_padded_denotes_number(n, width);
    law_decimal_denotes_number(n);
    let text = decimal_padded(n, width);
    assert('0' <= text[0] <= '9');
    let signed = seq!['+'] + text;
    assert(signed.skip(1) =~= text);
}

/// What is read as a number is a row of digits behind at most one plus sign: nothing is read from
/// an empty text, a lone sign, or a text with any other character.
pub proof fn law_other_texts_are_not_read(text: Seq<char>, i: int, max: nat)
    ensures
        text.len() == 0 ==> parsed(text, max) is None,
        text == seq!['+'] ==> parsed(text, max) is None,
        0 <= i < text.len() && !('0' <= text[i] <= '9') && (i > 0 || text[i] != '+') ==> parsed(
            text,
            max,
        ) is None,
{
    if text == seq!['+'] {
        assert(text.skip(1) =~= Seq::<char>::empty());
    }
    if 0 <= i < text.len() && !('0' <= text[i] <= '9') && (i > 0 || text[i] != '+') {
        let digits = without_plus(text);
        if text[0] == '+' {
            assert(digits[i - 1] == text[i]);
        } else {
            assert(digits[i] == text[i]);
        }
    }
}

/// A text without the introduction of a field has no such field, what stands behind the first
/// introduction up to the next quote is the field, and without such a quote there is none.
pub proof fn law_field_is_between_mark_and_quote(
    front: Seq<char>,
    key: Seq<char>,
    value: Seq<char>,
    back: Seq<char>,
)
    requires
        forall|i: int| 0 <= i < value.len() ==> #[trigger] value[i] != '"',
    ensures
        ({
            let mark = seq!['"'] + key + seq!['"', ':', '"'];
            let text = front + mark + value + seq!['"'] + back;
            (forall|j: int| 0 <= j < front.len() ==> !occurs_at(text, mark, j)) ==> field_text(
                text,
                key,
            ) == Some(value)
        }),
        ({
            let mark = seq!['"'] + key + seq!['"', ':', '"'];
            (forall|j: int| !occurs_at(front, mark, j)) ==> field_text(front, key) is None
        }),
        ({
            let mark = seq!['"'] + key + seq!['"', ':', '"'];
            let text = front + mark + value;
            (forall|j: int| 0 <= j < front.len() ==> !occurs_at(text, mark, j)) ==> field_text(
                text,
                key,
            ) is None
        }),
{
    let mark = seq!['"'] + key + seq!['"', ':', '"'];
    let quote = seq!['"'];
    let text = front + mark + value + quote + back;
    lemma_find_from(front, mark, 0);
    if forall|j: int| 0 <= j < front.len() ==> !occurs_at(text, mark, j) {
        let at = front.len() as int;
        let start = at + mark.len();
        let end = start + value.len();
        assert(text.subrange(at, start) =~= mark);
        assert(occurs_at(text, mark, at));
        lemma_find_from(text, mark, 0);
        assert(text.subrange(end, end + 1) =~= quote);
        assert(occurs_at(text, quote, end));
        assert forall|j: int| start <= j < end implies !occurs_at(text, quote, j) by {
            if occurs_at(text, quote, j) {
                assert(text.subrange(j, j + 1)[0] == text[j]);
                assert(text[j] == value[j - start]);
            }
        }
        lemma_find_from(text, quote, start);
        assert(text.subrange(start, end) =~= value);
    }
    let open = front + mark + value;
    if forall|j: int| 0 <= j < front.len() ==> !occurs_at(open, mark, j) {
        let at = front.len() as int;
        let start = at + mark.len();
        assert(open.subrange(at, start) =~= mark);
        assert(occurs_at(open, mark, at));
        lemma_find_from(open, mark, 0);
        assert forall|j: int| start <= j implies !occurs_at(open, quote, j) by {
            if occurs_at(open, quote, j) {
                assert(open.subrange(j, j + 1)[0] == open[j]);
                assert(open[j] == value[j - start]);
            }
        }
        lemma_find_from(open, quote, start);
    }
}

/// A needle stands at a position exactly where every one of its characters does.
pub proof fn law_occurrence_is_character_for_character(hay: Seq<char>, needle: Seq<char>, i: int)
    ensures
        occurs_at(hay, needle, i) <==> 0 <= i && i + needle.len() <= hay.len() && forall|k: int|
            0 <= k < needle.len() ==> hay[i + k] == #[trigger] needle[k],
{
    if 0 <= i && i + needle.len() <= hay.len() {
        let window = hay.subrange(i, i + needle.len());
        if occurs_at(hay, needle, i) {
            assert forall|k: int| 0 <= k < needle.len() implies hay[i + k]
                == #[trigger] needle[k] by {
                assert(window[k] == hay[i + k]);
            }
        }
        if forall|k: int| 0 <= k < needle.len() ==> hay[i + k] == #[trigger] needle[k] {
            assert(window =~= needle);
        }
    }
}

/// A further digit character moves the value up by one place and adds to it.
pub proof fn law_value_is_positional(text: Seq<char>, digit: nat)
    requires
        digit < 10,
    ensures
        decimal_value(Seq::empty()) == 0,
        decimal_value(text.push((0x30 + digit) as char)) == decimal_value(text) * 10 + digit,
{
    assert(text.push((0x30 + digit) as char).drop_last() =~= text);
}

} // verus!

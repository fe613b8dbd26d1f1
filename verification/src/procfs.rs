//! What a receipt takes from the process file system of the machine.

use crate::text::{chars_of, is_space, parse_u64, parsed};
use vstd::prelude::*;
use vstd::string::{StrSliceExecFns, StringExecFns};

verus! {

/// The position of the first `c`, or the length of the text where it has none.
pub open spec fn position(text: Seq<char>, c: char) -> nat
    decreases text.len(),
{
    if text.len() == 0 || text[0] == c {
        0
    } else {
        1 + position(text.skip(1), c)
    }
}

/// Whether a text begins with `prefix`.
pub open spec fn begins(text: Seq<char>, prefix: Seq<char>) -> bool {
    prefix.len() <= text.len() && text.take(prefix.len() as int) == prefix
}

/// The first line of a text.
pub open spec fn first_line(text: Seq<char>) -> Seq<char> {
    text.take(position(text, '\n') as int)
}

/// The first line that begins with `prefix`.
pub open spec fn line_with(text: Seq<char>, prefix: Seq<char>) -> Option<Seq<char>>
    decreases text.len(),
{
    if begins(first_line(text), prefix) {
        Some(first_line(text))
    } else if position(text, '\n') >= text.len() {
        None
    } else {
        line_with(text.skip(position(text, '\n') as int + 1), prefix)
    }
}

/// The number of lines that begin with `prefix`.
pub open spec fn count_with(text: Seq<char>, prefix: Seq<char>) -> nat
    decreases text.len(),
{
    let here: nat = if begins(first_line(text), prefix) {
        1
    } else {
        0
    };
    if position(text, '\n') >= text.len() {
        here
    } else {
        here + count_with(text.skip(position(text, '\n') as int + 1), prefix)
    }
}

/// A text without the white space at its front.
pub open spec fn trim_start(text: Seq<char>) -> Seq<char>
    decreases text.len(),
{
    if text.len() > 0 && is_space(text[0]) {
        trim_start(text.skip(1))
    } else {
        text
    }
}

/// A text without the white space at its end.
pub open spec fn trim_end(text: Seq<char>) -> Seq<char>
    decreases text.len(),
{
    if text.len() > 0 && is_space(text.last()) {
        trim_end(text.drop_last())
    } else {
        text
    }
}

/// The number of characters before the first white space.
pub open spec fn word_length(text: Seq<char>) -> nat
    decreases text.len(),
{
    if text.len() == 0 || is_space(text[0]) {
        0
    } else {
        1 + word_length(text.skip(1))
    }
}

/// What stands between the first and the second colon of a line.
pub open spec fn second_part(line: Seq<char>) -> Seq<char> {
    if position(line, ':') >= line.len() {
        Seq::empty()
    } else {
        let rest = line.skip(position(line, ':') as int + 1);
        rest.take(position(rest, ':') as int)
    }
}

/// The second word of a line, empty where it has none.
pub open spec fn second_word(line: Seq<char>) -> Seq<char> {
    let first = trim_start(line);
    let rest = trim_start(first.skip(word_length(first) as int));
    rest.take(word_length(rest) as int)
}

/// Whether a character is white space.
fn space(c: char) -> (is: bool)
    ensures
        is == is_space(c),
{
    ('\u{9}' <= c && c <= '\u{D}') || c == '\u{20}' || c == '\u{85}' || c == '\u{A0}' || c
        == '\u{1680}' || ('\u{2000}' <= c && c <= '\u{200A}') || c == '\u{2028}' || c == '\u{2029}'
        || c == '\u{202F}' || c == '\u{205F}' || c == '\u{3000}'
}

/// The position of the first `c` from `from` on, or `to`.
fn find_char(chars: &Vec<char>, from: usize, to: usize, c: char) -> (at: usize)
    requires
        from <= to <= chars@.len(),
    ensures
        from <= at <= to,
        at - from == position(chars@.subrange(from as int, to as int), c),
{
    let ghost range = chars@.subrange(from as int, to as int);
    let mut i: usize = from;
    assert(range.skip(0) =~= range);
    while i < to && chars[i] != c
        invariant
            from <= i <= to <= chars@.len(),
            range == chars@.subrange(from as int, to as int),
            position(range, c) == (i - from) + position(range.skip(i - from), c),
        decreases to - i,
    {
        assert(range.skip(i - from)[0] == chars@[i as int]);
        assert(range.skip(i - from).skip(1) =~= range.skip(i - from + 1));
        i += 1;
    }
    assert(i < to ==> range.skip(i - from)[0] == chars@[i as int]);
    i
}

/// The end of the word that begins at `from`.
fn word_end(chars: &Vec<char>, from: usize, to: usize) -> (end: usize)
    requires
        from <= to <= chars@.len(),
    ensures
        from <= end <= to,
        end - from == word_length(chars@.subrange(from as int, to as int)),
{
    let ghost range = chars@.subrange(from as int, to as int);
    let mut i: usize = from;
    assert(range.skip(0) =~= range);
    while i < to && !space(chars[i])
        invariant
            from <= i <= to <= chars@.len(),
            range == chars@.subrange(from as int, to as int),
            word_length(range) == (i - from) + word_length(range.skip(i - from)),
        decreases to - i,
    {
        assert(range.skip(i - from)[0] == chars@[i as int]);
        assert(range.skip(i - from).skip(1) =~= range.skip(i - from + 1));
        i += 1;
    }
    assert(i < to ==> range.skip(i - from)[0] == chars@[i as int]);
    i
}

/// The first position from `from` on that is not white space.
fn skip_space(chars: &Vec<char>, from: usize, to: usize) -> (start: usize)
    requires
        from <= to <= chars@.len(),
    ensures
        from <= start <= to,
        trim_start(chars@.subrange(from as int, to as int)) == chars@.subrange(
            start as int,
            to as int,
        ),
{
    let mut i: usize = from;
    while i < to && space(chars[i])
        invariant
            from <= i <= to <= chars@.len(),
            trim_start(chars@.subrange(from as int, to as int)) == trim_start(
                chars@.subrange(i as int, to as int),
            ),
        decreases to - i,
    {
        let ghost range = chars@.subrange(i as int, to as int);
        assert(range[0] == chars@[i as int]);
        assert(range.skip(1) =~= chars@.subrange(i + 1, to as int));
        i += 1;
    }
    assert(i < to ==> chars@.subrange(i as int, to as int)[0] == chars@[i as int]);
    i
}

/// The last position up to `to` before which no white space stands.
fn drop_space(chars: &Vec<char>, from: usize, to: usize) -> (end: usize)
    requires
        from <= to <= chars@.len(),
    ensures
        from <= end <= to,
        trim_end(chars@.subrange(from as int, to as int)) == chars@.subrange(
            from as int,
            end as int,
        ),
{
    let mut i: usize = to;
    while i > from && space(chars[i - 1])
        invariant
            from <= i <= to <= chars@.len(),
            trim_end(chars@.subrange(from as int, to as int)) == trim_end(
                chars@.subrange(from as int, i as int),
            ),
        decreases i - from,
    {
        let ghost range = chars@.subrange(from as int, i as int);
        assert(range.last() == chars@[i - 1]);
        assert(range.drop_last() =~= chars@.subrange(from as int, i - 1));
        i -= 1;
    }
    assert(i > from ==> chars@.subrange(from as int, i as int).last() == chars@[i - 1]);
    i
}

/// Whether the line from `from` to `to` begins with `prefix`.
fn line_begins(chars: &Vec<char>, from: usize, to: usize, prefix: &Vec<char>) -> (does: bool)
    requires
        from <= to <= chars@.len(),
    ensures
        does == begins(chars@.subrange(from as int, to as int), prefix@),
{
    let ghost line = chars@.subrange(from as int, to as int);
    if prefix.len() > to - from {
        return false;
    }
    let mut k: usize = 0;
    while k < prefix.len()
        invariant
            k <= prefix@.len(),
            from + prefix@.len() <= to <= chars@.len(),
            line == chars@.subrange(from as int, to as int),
            forall|j: int| 0 <= j < k ==> line[j] == prefix@[j],
        decreases prefix@.len() - k,
    {
        if chars[from + k] != prefix[k] {
            assert(line.take(prefix@.len() as int)[k as int] == chars@[from + k]);
            return false;
        }
        k += 1;
    }
    assert(line.take(prefix@.len() as int) =~= prefix@);
    true
}

/// Where the first line that begins with `prefix` stands.
fn find_line(chars: &Vec<char>, prefix: &Vec<char>) -> (found: Option<(usize, usize)>)
    ensures
        match found {
            Some((from, to)) => from <= to <= chars@.len() && line_with(chars@, prefix@) == Some(
                chars@.subrange(from as int, to as int),
            ),
            None => line_with(chars@, prefix@) is None,
        },
{
    let total: usize = chars.len();
    let mut i: usize = 0;
    assert(chars@.skip(0) =~= chars@);
    loop
        invariant
            i <= total,
            total == chars@.len(),
            line_with(chars@, prefix@) == line_with(chars@.skip(i as int), prefix@),
        decreases total - i,
    {
        let end: usize = find_char(chars, i, total, '\n');
        let ghost rest = chars@.skip(i as int);
        assert(rest =~= chars@.subrange(i as int, total as int));
        assert(first_line(rest) =~= chars@.subrange(i as int, end as int));
        if line_begins(chars, i, end, prefix) {
            return Some((i, end));
        }
        if end == total {
            return None;
        }
        assert(rest.skip(end - i + 1) =~= chars@.skip(end + 1));
        i = end + 1;
    }
}

/// The number of lines that begin with `prefix`.
fn count_lines(chars: &Vec<char>, prefix: &Vec<char>) -> (count: usize)
    requires
        prefix@.len() > 0,
    ensures
        count == count_with(chars@, prefix@),
{
    let total: usize = chars.len();
    let mut count: usize = 0;
    let mut i: usize = 0;
    assert(chars@.skip(0) =~= chars@);
    loop
        invariant
            i <= total,
            total == chars@.len(),
            count <= i,
            prefix@.len() > 0,
            count_with(chars@, prefix@) == count + count_with(chars@.skip(i as int), prefix@),
        decreases total - i,
    {
        let end: usize = find_char(chars, i, total, '\n');
        let ghost rest = chars@.skip(i as int);
        assert(rest =~= chars@.subrange(i as int, total as int));
        assert(first_line(rest) =~= chars@.subrange(i as int, end as int));
        let here: bool = line_begins(chars, i, end, prefix);
        if end == total {
            return if here { count + 1 } else { count };
        }
        if here {
            count += 1;
        }
        assert(rest.skip(end - i + 1) =~= chars@.skip(end + 1));
        i = end + 1;
    }
}

/// The model of the processor that a `cpuinfo` text names.
pub open spec fn model_of(cpuinfo: Seq<char>) -> Seq<char> {
    match line_with(cpuinfo, "model name"@) {
        Some(line) => trim_end(trim_start(second_part(line))),
        None => "unknown"@,
    }
}

/// The model of the processor that a `cpuinfo` text names.
pub fn cpu_model(cpuinfo: &str) -> (model: String)
    ensures
        model@ == model_of(cpuinfo@),
        model@ == match line_with(cpuinfo@, "model name"@) {
            Some(line) => trim_end(trim_start(second_part(line))),
            None => "unknown"@,
        },
{
    let chars: Vec<char> = chars_of(cpuinfo);
    let prefix: Vec<char> = chars_of("model name");
    match find_line(&chars, &prefix) {
        None => String::from_str("unknown"),
        Some((from, to)) => {
            let ghost line = chars@.subrange(from as int, to as int);
            let colon: usize = find_char(&chars, from, to, ':');
            if colon == to {
                assert(trim_end(trim_start(second_part(line))) =~= Seq::<char>::empty());
                return String::new();
            }
            assert(line.skip(colon - from + 1) =~= chars@.subrange(colon + 1, to as int));
            let next: usize = find_char(&chars, colon + 1, to, ':');
            assert(second_part(line) =~= chars@.subrange(colon + 1, next as int));
            let start: usize = skip_space(&chars, colon + 1, next);
            let end: usize = drop_space(&chars, start, next);
            String::from_str(cpuinfo.substring_char(start, end))
        },
    }
}

/// The number of processors that a `cpuinfo` text lists.
pub fn ncpu(cpuinfo: &str) -> (count: usize)
    ensures
        count == count_with(cpuinfo@, "processor"@),
{
    let chars: Vec<char> = chars_of(cpuinfo);
    let prefix: Vec<char> = chars_of("processor");
    proof {
        reveal_strlit("processor");
    }
    count_lines(&chars, &prefix)
}

/// The peak of the resident memory that a `status` text states, in kilobytes, or zero.
pub open spec fn peak_of(status: Seq<char>) -> nat {
    match line_with(status, "VmHWM"@) {
        Some(line) => match parsed(second_word(line), u64::MAX as nat) {
            Some(kilobytes) => kilobytes,
            None => 0,
        },
        None => 0,
    }
}

/// The peak of the resident memory that a `status` text states, in kilobytes, or zero.
pub fn peak_rss_kb(status: &str) -> (kilobytes: u64)
    ensures
        kilobytes == peak_of(status@),
        line_with(status@, "VmHWM"@) is None ==> kilobytes == 0,
        line_with(status@, "VmHWM"@) matches Some(line) ==> kilobytes == match parsed(
            second_word(line),
            u64::MAX as nat,
        ) {
            Some(n) => n,
            None => 0,
        },
{
    let chars: Vec<char> = chars_of(status);
    let prefix: Vec<char> = chars_of("VmHWM");
    match find_line(&chars, &prefix) {
        None => 0,
        Some((from, to)) => {
            let ghost line = chars@.subrange(from as int, to as int);
            let first: usize = skip_space(&chars, from, to);
            let first_end: usize = word_end(&chars, first, to);
            let ghost head = trim_start(line);
            assert(head.skip(first_end - first) =~= chars@.subrange(first_end as int, to as int));
            let second: usize = skip_space(&chars, first_end, to);
            let second_end: usize = word_end(&chars, second, to);
            assert(second_word(line) =~= chars@.subrange(second as int, second_end as int));
            match parse_u64(status.substring_char(second, second_end)) {
                Some(kilobytes) => kilobytes,
                None => 0,
            }
        },
    }
}

/// Where the first `c` stands: after everything that is not `c`.
pub proof fn law_position_is_first(text: Seq<char>, c: char)
    ensures
        position(text, c) <= text.len(),
        position(text, c) < text.len() ==> text[position(text, c) as int] == c,
        forall|k: int| 0 <= k < position(text, c) ==> #[trigger] text[k] != c,
    decreases text.len(),
{
    if text.len() > 0 && text[0] != c {
        let rest = text.skip(1);
        law_position_is_first(rest, c);
        assert forall|k: int| 0 <= k < position(text, c) implies #[trigger] text[k] != c by {
            if k > 0 {
                assert(rest[k - 1] == text[k]);
            }
        }
    }
}

/// A position before which no `c` stands, and at which one does or the text ends, is the first.
proof fn lemma_position(text: Seq<char>, c: char, at: int)
    requires
        0 <= at <= text.len(),
        forall|k: int| 0 <= k < at ==> #[trigger] text[k] != c,
        at < text.len() ==> text[at] == c,
    ensures
        position(text, c) == at,
{
    law_position_is_first(text, c);
    let found = position(text, c) as int;
    if found < at {
        assert(text[found] != c);
    } else if at < found {
        assert(text[at] != c);
    }
}

/// Lines are taken in order: the first that begins with the prefix is found, and every one that
/// does is counted, whether or not a newline ends the last.
pub proof fn law_lines_are_taken_in_order(line: Seq<char>, more: Seq<char>, prefix: Seq<char>)
    requires
        forall|k: int| 0 <= k < line.len() ==> #[trigger] line[k] != '\n',
    ensures
        ({
            let does = prefix.len() <= line.len() && line.take(prefix.len() as int) == prefix;
            let text = line + seq!['\n'] + more;
            &&& line_with(text, prefix) == if does {
                Some(line)
            } else {
                line_with(more, prefix)
            }
            &&& line_with(line, prefix) == if does {
                Some(line)
            } else {
                None
            }
            &&& count_with(text, prefix) == count_with(more, prefix) + if does {
                1nat
            } else {
                0
            }
            &&& count_with(line, prefix) == if does {
                1nat
            } else {
                0
            }
        }),
{
    let text = line + seq!['\n'] + more;
    let at = line.len() as int;
    assert forall|k: int| 0 <= k < at implies #[trigger] text[k] != '\n' by {
        assert(text[k] == line[k]);
    }
    lemma_position(text, '\n', at);
    lemma_position(line, '\n', at);
    assert(first_line(text) =~= line);
    assert(first_line(line) =~= line);
    assert(text.skip(at + 1) =~= more);
}

/// Trimming takes off white space and nothing else, and all of it at that end.
pub proof fn law_trim_takes_white_space(text: Seq<char>)
    ensures
        trim_start(text).len() <= text.len(),
        trim_start(text) == text.skip(text.len() - trim_start(text).len()),
        forall|k: int|
            0 <= k < text.len() - trim_start(text).len() ==> is_space(#[trigger] text[k]),
        trim_start(text).len() > 0 ==> !is_space(trim_start(text)[0]),
        trim_end(text).len() <= text.len(),
        trim_end(text) == text.take(trim_end(text).len() as int),
        forall|k: int| trim_end(text).len() <= k < text.len() ==> is_space(#[trigger] text[k]),
        trim_end(text).len() > 0 ==> !is_space(trim_end(text).last()),
    decreases text.len(),
{
    if text.len() > 0 {
        if is_space(text[0]) {
            let rest = text.skip(1);
            law_trim_takes_white_space(rest);
            let kept = trim_start(text);
            assert(kept =~= text.skip(text.len() - kept.len()));
            assert forall|k: int| 0 <= k < text.len() - kept.len() implies is_space(
                #[trigger] text[k],
            ) by {
                if k > 0 {
                    assert(rest[k - 1] == text[k]);
                }
            }
        } else {
            assert(text.skip(0) =~= text);
        }
        if is_space(text.last()) {
            let rest = text.drop_last();
            law_trim_takes_white_space(rest);
            let kept = trim_end(text);
            assert(kept =~= text.take(kept.len() as int));
            assert forall|k: int| kept.len() <= k < text.len() implies is_space(
                #[trigger] text[k],
            ) by {
                if k < rest.len() {
                    assert(rest[k] == text[k]);
                }
            }
        } else {
            assert(text.take(text.len() as int) =~= text);
        }
    } else {
        assert(text.skip(0) =~= text);
        assert(text.take(0) =~= text);
    }
}

/// White space is what Unicode calls so: the controls from tab to carriage return, the space, and
/// the separators.
pub proof fn law_white_space(c: char)
    ensures
        is_space(c) <==> 9 <= c as int <= 13 || c as int == 0x20 || c as int == 0x85 || c as int
            == 0xA0 || c as int == 0x1680 || 0x2000 <= c as int <= 0x200A || 0x2028 <= c as int
            <= 0x2029 || c as int == 0x202F || c as int == 0x205F || c as int == 0x3000,
{
}

/// The second part of a line is what stands behind its first colon, up to the next one or to the
/// end; a line without a colon has an empty one.
pub proof fn law_second_part_is_between_colons(
    first: Seq<char>,
    second: Seq<char>,
    rest: Seq<char>,
)
    requires
        forall|k: int| 0 <= k < first.len() ==> #[trigger] first[k] != ':',
        forall|k: int| 0 <= k < second.len() ==> #[trigger] second[k] != ':',
    ensures
        second_part(first) == Seq::<char>::empty(),
        second_part(first + seq![':'] + second) == second,
        second_part(first + seq![':'] + second + seq![':'] + rest) == second,
{
    let at = first.len() as int;
    lemma_position(first, ':', at);
    let short = first + seq![':'] + second;
    assert forall|k: int| 0 <= k < at implies #[trigger] short[k] != ':' by {
        assert(short[k] == first[k]);
    }
    lemma_position(short, ':', at);
    assert(short.skip(at + 1) =~= second);
    lemma_position(second, ':', second.len() as int);
    assert(second.take(second.len() as int) =~= second);
    let long = short + seq![':'] + rest;
    assert forall|k: int| 0 <= k < at implies #[trigger] long[k] != ':' by {
        assert(long[k] == first[k]);
    }
    lemma_position(long, ':', at);
    let tail = long.skip(at + 1);
    assert(tail =~= second + seq![':'] + rest);
    assert forall|k: int| 0 <= k < second.len() implies #[trigger] tail[k] != ':' by {
        assert(tail[k] == second[k]);
    }
    lemma_position(tail, ':', second.len() as int);
    assert(tail.take(second.len() as int) =~= second);
}

/// The length of a word is the number of characters before the first white space.
proof fn lemma_word_length(text: Seq<char>, at: int)
    requires
        0 <= at <= text.len(),
        forall|k: int| 0 <= k < at ==> !is_space(#[trigger] text[k]),
        at < text.len() ==> is_space(text[at]),
    ensures
        word_length(text) == at,
    decreases at,
{
    if at > 0 {
        let rest = text.skip(1);
        assert forall|k: int| 0 <= k < at - 1 implies !is_space(#[trigger] rest[k]) by {
            assert(rest[k] == text[k + 1]);
        }
        lemma_word_length(rest, at - 1);
    }
}

/// White space in front of a text that begins with something else is what trimming takes off.
proof fn lemma_trim_start(space: Seq<char>, text: Seq<char>)
    requires
        forall|k: int| 0 <= k < space.len() ==> is_space(#[trigger] space[k]),
        text.len() > 0 ==> !is_space(text[0]),
    ensures
        trim_start(space + text) == text,
    decreases space.len(),
{
    let all = space + text;
    if space.len() > 0 {
        let less = space.skip(1);
        assert forall|k: int| 0 <= k < less.len() implies is_space(#[trigger] less[k]) by {
            assert(less[k] == space[k + 1]);
        }
        lemma_trim_start(less, text);
        assert(all.skip(1) =~= less + text);
        assert(all[0] == space[0]);
    } else {
        assert(all =~= text);
    }
}

/// The second word of a line stands between the white space behind the first word and the next, or
/// the end.
pub proof fn law_second_word_follows_the_first(
    first: Seq<char>,
    gap: Seq<char>,
    second: Seq<char>,
    rest: Seq<char>,
)
    requires
        first.len() > 0,
        gap.len() > 0,
        second.len() > 0,
        forall|k: int| 0 <= k < first.len() ==> !is_space(#[trigger] first[k]),
        forall|k: int| 0 <= k < gap.len() ==> is_space(#[trigger] gap[k]),
        forall|k: int| 0 <= k < second.len() ==> !is_space(#[trigger] second[k]),
        rest.len() > 0 ==> is_space(rest[0]),
    ensures
        second_word(first + gap + second + rest) == second,
        second_word(first) == Seq::<char>::empty(),
{
    let line = first + gap + second + rest;
    let at = first.len() as int;
    assert(line[0] == first[0]);
    assert(trim_start(line) == line);
    assert forall|k: int| 0 <= k < at implies !is_space(#[trigger] line[k]) by {
        assert(line[k] == first[k]);
    }
    assert(line[at] == gap[0]);
    lemma_word_length(line, at);
    let tail = second + rest;
    assert(line.skip(at) =~= gap + tail);
    assert(tail[0] == second[0]);
    lemma_trim_start(gap, tail);
    assert forall|k: int| 0 <= k < second.len() implies !is_space(#[trigger] tail[k]) by {
        assert(tail[k] == second[k]);
    }
    assert(rest.len() > 0 ==> tail[second.len() as int] == rest[0]);
    lemma_word_length(tail, second.len() as int);
    assert(tail.take(second.len() as int) =~= second);
    assert(trim_start(first) == first);
    lemma_word_length(first, at);
    assert(first.skip(at) =~= Seq::<char>::empty());
    assert(trim_start(Seq::<char>::empty()) =~= Seq::<char>::empty());
    assert(second_word(first) =~= Seq::<char>::empty());
}

} // verus!

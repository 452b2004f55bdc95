//! Strings as sequences of characters.

use crate::decimal;
use vstd::prelude::*;
use vstd::utf8;

verus! {

/// `String::push`: appends one character.
pub assume_specification[ std::string::String::push ](s: &mut String, ch: char)
    ensures
        final(s)@ == old(s)@.push(ch),
;

/// What `String::from_utf8_lossy` makes of some bytes.
pub uninterp spec fn lossy(bytes: Seq<u8>) -> Seq<char>;

/// `String::from_utf8_lossy`: the text of some bytes, in which other characters stand for
/// what is not UTF-8. Bytes that are UTF-8 give the text that they encode.
#[verifier::external_body]
pub(crate) fn lossy_text(bytes: &Vec<u8>) -> (text: String)
    ensures
        text@ == lossy(bytes@),
        utf8::valid_utf8(bytes@) ==> text@ == utf8::decode_utf8(bytes@),
{
    String::from_utf8_lossy(bytes).into_owned()
}

/// What a program printed, as text.
pub fn printed(bytes: &Vec<u8>) -> (text: String)
    ensures
        text@ == lossy(bytes@),
        utf8::valid_utf8(bytes@) ==> text@ == utf8::decode_utf8(bytes@),
{
    lossy_text(bytes)
}

/// The characters of a string.
pub fn chars_of(text: &str) -> (chars: Vec<char>)
    ensures
        chars@ == text@,
{
    let mut chars: Vec<char> = Vec::new();
    for c in it: text.chars()
        invariant
            chars@ == it.seq().take(it.index() as int),
            it.seq() == text@,
    {
        chars.push(c);
    }
    chars
}

/// The string of the characters from `from` up to `to`.
pub fn text_between(chars: &Vec<char>, from: usize, to: usize) -> (text: String)
    requires
        from <= to <= chars@.len(),
    ensures
        text@ == chars@.subrange(from as int, to as int),
{
    let mut text = String::new();
    let mut i: usize = from;
    while i < to
        invariant
            from <= i <= to <= chars@.len(),
            text@ == chars@.subrange(from as int, i as int),
        decreases to - i,
    {
        text.push(chars[i]);
        i = i + 1;
    }
    text
}

/// The string of some characters.
pub fn text_of(chars: &Vec<char>) -> (text: String)
    ensures
        text@ == chars@,
{
    let text = text_between(chars, 0, chars.len());
    assert(chars@.subrange(0, chars@.len() as int) =~= chars@);
    text
}

/// Whether two strings hold the same characters.
pub fn same_text(a: &str, b: &str) -> (same: bool)
    ensures
        same == (a@ == b@),
{
    a.to_owned() == b.to_owned()
}

/// The lower-case form of an ASCII capital; every other character is its own.
pub open spec fn ascii_lower(c: char) -> char {
    if 'A' <= c <= 'Z' {
        ((c as u8) + 32) as char
    } else {
        c
    }
}

pub fn to_ascii_lower(c: char) -> (lower: char)
    ensures
        lower == ascii_lower(c),
{
    if 'A' <= c && c <= 'Z' {
        ((c as u8) + 32) as char
    } else {
        c
    }
}

/// A name with its first letter in lower case.
pub open spec fn lower_first(name: Seq<char>) -> Seq<char> {
    name.update(0, ascii_lower(name[0]))
}

pub fn with_lower_first(name: &str) -> (lowered: String)
    requires
        name@.len() > 0,
    ensures
        lowered@ == lower_first(name@),
{
    let mut chars = chars_of(name);
    let first = to_ascii_lower(chars[0]);
    chars.set(0, first);
    text_of(&chars)
}

/// Two strings are the same but for the case of ASCII letters.
pub open spec fn same_but_case(a: Seq<char>, b: Seq<char>) -> bool {
    a.len() == b.len() && forall|i: int|
        0 <= i < a.len() ==> ascii_lower(#[trigger] a[i]) == ascii_lower(b[i])
}

/// Whether two strings are the same but for the case of ASCII letters.
pub fn equal_but_case(a: &str, b: &str) -> (same: bool)
    ensures
        same == same_but_case(a@, b@),
{
    let left = chars_of(a);
    let right = chars_of(b);
    if left.len() != right.len() {
        return false;
    }
    let mut i: usize = 0;
    while i < left.len()
        invariant
            left@ == a@,
            right@ == b@,
            left@.len() == right@.len(),
            i <= left@.len(),
            forall|k: int| 0 <= k < i ==> ascii_lower(#[trigger] a@[k]) == ascii_lower(b@[k]),
        decreases left@.len() - i,
    {
        if to_ascii_lower(left[i]) != to_ascii_lower(right[i]) {
            assert(ascii_lower(a@[i as int]) != ascii_lower(b@[i as int]));
            return false;
        }
        i = i + 1;
    }
    true
}

/// What some strings hold.
pub open spec fn texts(list: Seq<String>) -> Seq<Seq<char>> {
    list.map_values(|s: String| s@)
}

// ---- finding ----

/// The first place of `c`.
pub open spec fn index_of(s: Seq<char>, c: char) -> Option<int>
    decreases s.len(),
{
    if s.len() == 0 {
        None
    } else if s[0] == c {
        Some(0)
    } else {
        match index_of(s.drop_first(), c) {
            Some(i) => Some(i + 1),
            None => None,
        }
    }
}

/// What `index_of` means.
pub proof fn index_of_is_first(s: Seq<char>, c: char)
    ensures
        match index_of(s, c) {
            Some(i) => 0 <= i < s.len() && s[i] == c && forall|k: int| 0 <= k < i ==> s[k] != c,
            None => forall|k: int| 0 <= k < s.len() ==> s[k] != c,
        },
    decreases s.len(),
{
    if s.len() > 0 && s[0] != c {
        let rest = s.drop_first();
        index_of_is_first(rest, c);
        match index_of(rest, c) {
            Some(i) => {
                assert(s[i + 1] == rest[i]);
                assert forall|k: int| 0 <= k < i + 1 implies s[k] != c by {
                    if k > 0 {
                        assert(s[k] == rest[k - 1]);
                    }
                }
            },
            None => {
                assert forall|k: int| 0 <= k < s.len() implies s[k] != c by {
                    if k > 0 {
                        assert(s[k] == rest[k - 1]);
                    }
                }
            },
        }
    }
}

/// The first place of a character is the one with no such character before it.
pub proof fn first_is_index_of(s: Seq<char>, c: char, i: int)
    requires
        0 <= i < s.len(),
        s[i] == c,
        forall|k: int| 0 <= k < i ==> s[k] != c,
    ensures
        index_of(s, c) == Some(i),
{
    index_of_is_first(s, c);
}

pub proof fn absent_has_no_index(s: Seq<char>, c: char)
    requires
        forall|k: int| 0 <= k < s.len() ==> s[k] != c,
    ensures
        index_of(s, c) is None,
{
    index_of_is_first(s, c);
}

/// The first place of `c` from `from` on.
pub fn find_char(chars: &Vec<char>, from: usize, c: char) -> (index: Option<usize>)
    requires
        from <= chars@.len(),
    ensures
        match index {
            Some(i) => from <= i < chars@.len() && index_of(chars@.skip(from as int), c) == Some(
                i - from,
            ),
            None => index_of(chars@.skip(from as int), c) is None,
        },
{
    let mut i: usize = from;
    let ghost rest = chars@.skip(from as int);
    while i < chars.len()
        invariant
            from <= i <= chars@.len(),
            rest == chars@.skip(from as int),
            forall|k: int| 0 <= k < i - from ==> rest[k] != c,
        decreases chars@.len() - i,
    {
        if chars[i] == c {
            proof {
                first_is_index_of(rest, c, i - from);
            }
            return Some(i);
        }
        i = i + 1;
    }
    proof {
        absent_has_no_index(rest, c);
    }
    None
}

/// `part` stands in `s` at the place `i`.
pub open spec fn stands_at(s: Seq<char>, part: Seq<char>, i: int) -> bool {
    0 <= i && i + part.len() <= s.len() && s.subrange(i, i + part.len()) == part
}

/// `part` stands somewhere in `s`.
pub open spec fn contains(s: Seq<char>, part: Seq<char>) -> bool {
    exists|i: int| #[trigger] stands_at(s, part, i)
}

/// Whether `part` stands somewhere in `s`.
pub fn has_part(s: &str, part: &str) -> (found: bool)
    ensures
        found == contains(s@, part@),
{
    let chars = chars_of(s);
    let wanted = chars_of(part);
    if wanted.len() > chars.len() {
        return false;
    }
    let mut i: usize = 0;
    let size: usize = chars.len();
    let last: usize = size - wanted.len();
    while i <= last
        invariant
            chars@ == s@,
            wanted@ == part@,
            wanted@.len() <= chars@.len(),
            size == chars@.len(),
            last == size - wanted@.len(),
            i <= last + 1,
            forall|k: int| 0 <= k < i ==> !stands_at(s@, part@, k),
        decreases last + 1 - i,
    {
        let mut j: usize = 0;
        while j < wanted.len() && chars[i + j] == wanted[j]
            invariant
                chars@ == s@,
                wanted@ == part@,
                i + wanted@.len() <= chars@.len(),
                chars@.len() == size,
                j <= wanted@.len(),
                forall|k: int| 0 <= k < j ==> chars@[i + k] == wanted@[k],
            decreases wanted@.len() - j,
        {
            j = j + 1;
        }
        if j == wanted.len() {
            assert(s@.subrange(i as int, i + part@.len()) =~= part@);
            assert(stands_at(s@, part@, i as int));
            return true;
        }
        proof {
            assert(s@.subrange(i as int, i + part@.len())[j as int] != part@[j as int]);
        }
        if i == last {
            return false;
        }
        i = i + 1;
    }
    false
}

// ---- lines ----

/// A line without the carriage return at its end.
pub open spec fn without_return(line: Seq<char>) -> Seq<char> {
    if line.len() > 0 && line.last() == '\r' {
        line.drop_last()
    } else {
        line
    }
}

/// The lines of a text. A line ends with a line feed, which may follow a carriage return;
/// the last line need not end.
pub open spec fn lines(s: Seq<char>) -> Seq<Seq<char>>
    decreases s.len(),
    via lines_shrink
{
    if s.len() == 0 {
        Seq::empty()
    } else {
        match index_of(s, '\n') {
            None => seq![s],
            Some(i) => seq![without_return(s.take(i))] + lines(s.skip(i + 1)),
        }
    }
}

#[via_fn]
proof fn lines_shrink(s: Seq<char>) {
    index_of_is_first(s, '\n');
}

/// A line that is added to a text of whole lines is its last line.
pub proof fn one_line_more(before: Seq<char>, line: Seq<char>)
    requires
        before.len() == 0 || before.last() == '\n',
        forall|k: int| 0 <= k < line.len() ==> line[k] != '\n',
        line.len() > 0 ==> line.last() != '\r',
    ensures
        lines(before + line.push('\n')) == lines(before).push(line),
    decreases before.len(),
{
    let all = before + line.push('\n');
    if before.len() == 0 {
        assert(all =~= line.push('\n'));
        assert(all[line.len() as int] == '\n');
        first_is_index_of(all, '\n', line.len() as int);
        assert(all.take(line.len() as int) =~= line);
        assert(all.skip(line.len() as int + 1) =~= Seq::<char>::empty());
        assert(lines(Seq::<char>::empty()) =~= Seq::<Seq<char>>::empty());
        assert(lines(all) =~= seq![line]);
        assert(lines(before).push(line) =~= seq![line]);
    } else {
        index_of_is_first(before, '\n');
        let i = index_of(before, '\n')->0;
        assert(before[before.len() - 1] == '\n');
        assert(all[i] == before[i]);
        assert forall|k: int| 0 <= k < i implies all[k] != '\n' by {
            assert(all[k] == before[k]);
        }
        first_is_index_of(all, '\n', i);
        let rest = before.skip(i + 1);
        assert(all.take(i) =~= before.take(i));
        assert(all.skip(i + 1) =~= rest + line.push('\n'));
        if rest.len() > 0 {
            assert(rest.last() == before.last());
        }
        one_line_more(rest, line);
        let first = seq![without_return(before.take(i))];
        assert(first + lines(rest).push(line) =~= (first + lines(rest)).push(line));
    }
}

/// The lines of a text.
pub fn lines_of(s: &str) -> (list: Vec<String>)
    ensures
        texts(list@) == lines(s@),
{
    let chars = chars_of(s);
    let mut list: Vec<String> = Vec::new();
    let mut from: usize = 0;
    assert(s@.skip(0) =~= s@);
    assert(texts(list@) + lines(s@) =~= lines(s@));
    while from < chars.len()
        invariant
            chars@ == s@,
            from <= chars@.len(),
            texts(list@) + lines(s@.skip(from as int)) == lines(s@),
        decreases chars@.len() - from,
    {
        let ghost rest = s@.skip(from as int);
        let ghost before = texts(list@);
        proof {
            index_of_is_first(rest, '\n');
        }
        match find_char(&chars, from, '\n') {
            None => {
                let line = text_between(&chars, from, chars.len());
                assert(line@ =~= rest);
                list.push(line);
                assert(texts(list@) =~= before + seq![rest]);
                from = chars.len();
                assert(s@.skip(from as int) =~= Seq::<char>::empty());
                assert(texts(list@) + Seq::<Seq<char>>::empty() =~= texts(list@));
            },
            Some(end) => {
                let stop: usize = if end > from && chars[end - 1] == '\r' {
                    end - 1
                } else {
                    end
                };
                let line = text_between(&chars, from, stop);
                assert(line@ =~= without_return(rest.take(end - from)));
                list.push(line);
                assert(rest.skip(end - from + 1) =~= s@.skip(end + 1));
                assert(texts(list@) + lines(s@.skip(end + 1)) =~= before + (seq![line@] + lines(
                    s@.skip(end + 1),
                )));
                from = end + 1;
            },
        }
    }
    proof {
        assert(s@.skip(from as int) =~= Seq::<char>::empty());
        assert(texts(list@) + Seq::<Seq<char>>::empty() =~= texts(list@));
    }
    list
}

/// The parts of a text before and after the first `c`.
pub open spec fn split_at_first(s: Seq<char>, c: char) -> Option<(Seq<char>, Seq<char>)> {
    match index_of(s, c) {
        Some(i) => Some((s.take(i), s.skip(i + 1))),
        None => None,
    }
}

/// The parts of a text before and after the first `c`.
pub fn split_once(s: &str, c: char) -> (parts: Option<(String, String)>)
    ensures
        match parts {
            Some((a, b)) => split_at_first(s@, c) == Some((a@, b@)),
            None => split_at_first(s@, c) is None,
        },
{
    let chars = chars_of(s);
    assert(s@.skip(0) =~= s@);
    match find_char(&chars, 0, c) {
        Some(i) => {
            let end: usize = chars.len();
            let before = text_between(&chars, 0, i);
            let after = text_between(&chars, i + 1, end);
            assert(before@ =~= s@.take(i as int));
            assert(after@ =~= s@.skip(i + 1));
            Some((before, after))
        },
        None => None,
    }
}

// ---- white space ----

/// The characters with the Unicode property White_Space.
pub open spec fn is_space(c: char) -> bool {
    ||| '\u{9}' <= c <= '\u{d}'
    ||| c == ' '
    ||| c == '\u{85}'
    ||| c == '\u{a0}'
    ||| c == '\u{1680}'
    ||| '\u{2000}' <= c <= '\u{200a}'
    ||| c == '\u{2028}'
    ||| c == '\u{2029}'
    ||| c == '\u{202f}'
    ||| c == '\u{205f}'
    ||| c == '\u{3000}'
}

pub fn space(c: char) -> (white: bool)
    ensures
        white == is_space(c),
{
    ('\u{9}' <= c && c <= '\u{d}') || c == ' ' || c == '\u{85}' || c == '\u{a0}' || c
        == '\u{1680}' || ('\u{2000}' <= c && c <= '\u{200a}') || c == '\u{2028}' || c
        == '\u{2029}' || c == '\u{202f}' || c == '\u{205f}' || c == '\u{3000}'
}

/// Without the white space in front.
pub open spec fn trim_start(s: Seq<char>) -> Seq<char>
    decreases s.len(),
{
    if s.len() > 0 && is_space(s[0]) {
        trim_start(s.drop_first())
    } else {
        s
    }
}

/// Without the white space at the end.
pub open spec fn trim_end(s: Seq<char>) -> Seq<char>
    decreases s.len(),
{
    if s.len() > 0 && is_space(s.last()) {
        trim_end(s.drop_last())
    } else {
        s
    }
}

/// Without the white space in front and at the end.
pub fn trim(s: &str) -> (trimmed: String)
    ensures
        trimmed@ == trim_end(trim_start(s@)),
{
    let chars = chars_of(s);
    let mut from: usize = 0;
    assert(s@.skip(0) =~= s@);
    while from < chars.len() && space(chars[from])
        invariant
            chars@ == s@,
            from <= chars@.len(),
            trim_start(s@) == trim_start(s@.skip(from as int)),
        decreases chars@.len() - from,
    {
        assert(s@.skip(from as int).drop_first() =~= s@.skip(from + 1));
        from = from + 1;
    }
    let mut to: usize = chars.len();
    let ghost started = s@.skip(from as int);
    assert(s@.subrange(from as int, to as int) =~= started);
    assert(trim_start(s@) == started);
    while from < to && space(chars[to - 1])
        invariant
            chars@ == s@,
            from <= to <= chars@.len(),
            trim_end(started) == trim_end(s@.subrange(from as int, to as int)),
        decreases to - from,
    {
        assert(s@.subrange(from as int, to as int).drop_last() =~= s@.subrange(
            from as int,
            to - 1,
        ));
        to = to - 1;
    }
    text_between(&chars, from, to)
}

/// The number of characters before the first white space.
pub open spec fn word_length(s: Seq<char>) -> int
    decreases s.len(),
{
    if s.len() == 0 || is_space(s[0]) {
        0
    } else {
        1 + word_length(s.drop_first())
    }
}

pub proof fn word_fits(s: Seq<char>)
    ensures
        0 <= word_length(s) <= s.len(),
        s.len() > 0 && !is_space(s[0]) ==> word_length(s) > 0,
    decreases s.len(),
{
    if s.len() > 0 && !is_space(s[0]) {
        word_fits(s.drop_first());
    }
}

proof fn trim_start_shrinks(s: Seq<char>)
    ensures
        trim_start(s).len() <= s.len(),
        trim_start(s).len() > 0 ==> !is_space(trim_start(s)[0]),
    decreases s.len(),
{
    if s.len() > 0 && is_space(s[0]) {
        trim_start_shrinks(s.drop_first());
    }
}

/// The words of a text: what stands between white space.
pub open spec fn words(s: Seq<char>) -> Seq<Seq<char>>
    decreases s.len(),
    via words_shrink
{
    let t = trim_start(s);
    if t.len() == 0 {
        Seq::empty()
    } else {
        seq![t.take(word_length(t))] + words(t.skip(word_length(t)))
    }
}

#[via_fn]
proof fn words_shrink(s: Seq<char>) {
    trim_start_shrinks(s);
    word_fits(trim_start(s));
}

/// The words of a text.
pub fn words_of(s: &str) -> (list: Vec<String>)
    ensures
        texts(list@) == words(s@),
{
    let chars = chars_of(s);
    let mut list: Vec<String> = Vec::new();
    let mut from: usize = 0;
    assert(s@.skip(0) =~= s@);
    assert(texts(list@) + words(s@) =~= words(s@));
    loop
        invariant
            chars@ == s@,
            from <= chars@.len(),
            texts(list@) + words(s@.skip(from as int)) == words(s@),
        decreases chars@.len() - from,
    {
        let ghost rest = s@.skip(from as int);
        let mut start: usize = from;
        while start < chars.len() && space(chars[start])
            invariant
                chars@ == s@,
                from <= start <= chars@.len(),
                trim_start(rest) == trim_start(s@.skip(start as int)),
            decreases chars@.len() - start,
        {
            assert(s@.skip(start as int).drop_first() =~= s@.skip(start + 1));
            start = start + 1;
        }
        let ghost t = s@.skip(start as int);
        assert(trim_start(rest) == t);
        if start == chars.len() {
            assert(words(rest) =~= Seq::<Seq<char>>::empty());
            assert(texts(list@) + Seq::<Seq<char>>::empty() =~= texts(list@));
            return list;
        }
        let mut end: usize = start;
        while end < chars.len() && !space(chars[end])
            invariant
                chars@ == s@,
                t == s@.skip(start as int),
                start <= end <= chars@.len(),
                word_length(t) == end - start + word_length(s@.skip(end as int)),
            decreases chars@.len() - end,
        {
            assert(s@.skip(end as int).drop_first() =~= s@.skip(end + 1));
            end = end + 1;
        }
        proof {
            word_fits(t);
            assert(word_length(t) == end - start);
        }
        let ghost before = texts(list@);
        let word = text_between(&chars, start, end);
        assert(word@ =~= t.take(end - start));
        list.push(word);
        assert(t.skip(end - start) =~= s@.skip(end as int));
        assert(texts(list@) + words(s@.skip(end as int)) =~= before + (seq![word@] + words(
            s@.skip(end as int),
        )));
        from = end;
    }
}

// ---- integers ----

/// The value of a decimal digit.
pub open spec fn digit_value(c: char) -> Option<nat> {
    if '0' <= c <= '9' {
        Some((c as u32 - '0' as u32) as nat)
    } else {
        None
    }
}

/// The integer that a run of decimal digits stands for.
pub open spec fn digits_value(s: Seq<char>) -> Option<nat>
    decreases s.len(),
{
    if s.len() == 0 {
        Some(0)
    } else {
        match (digits_value(s.drop_last()), digit_value(s.last())) {
            (Some(high), Some(low)) => Some(10 * high + low),
            _ => None,
        }
    }
}

/// The unsigned integer that a text stands for: digits, at least one, after a plus sign or
/// not, with a value that fits.
pub open spec fn unsigned_value(s: Seq<char>) -> Option<usize> {
    let digits = if s.len() > 0 && s[0] == '+' {
        s.drop_first()
    } else {
        s
    };
    match digits_value(digits) {
        Some(n) => if digits.len() > 0 && n <= usize::MAX {
            Some(n as usize)
        } else {
            None
        },
        None => None,
    }
}

/// More digits make no smaller number, and mend nothing.
proof fn prefix_value(s: Seq<char>, n: int)
    requires
        0 <= n <= s.len(),
    ensures
        digits_value(s.take(n)) is None ==> digits_value(s) is None,
        digits_value(s) is Some && digits_value(s.take(n)) is Some ==> digits_value(s)->0
            >= digits_value(s.take(n))->0,
    decreases s.len() - n,
{
    if n < s.len() {
        prefix_value(s, n + 1);
        assert(s.take(n + 1).drop_last() =~= s.take(n));
    } else {
        assert(s.take(n) =~= s);
    }
}

/// Reads an unsigned integer.
pub fn parse_unsigned(s: &str) -> (value: Option<usize>)
    ensures
        value == unsigned_value(s@),
{
    let chars = chars_of(s);
    let start: usize = if chars.len() > 0 && chars[0] == '+' {
        1
    } else {
        0
    };
    let ghost digits = s@.skip(start as int);
    assert(start == 1 ==> digits =~= s@.drop_first());
    assert(start == 0 ==> digits =~= s@);
    if start == chars.len() {
        return None;
    }
    let mut value: usize = 0;
    let mut i: usize = start;
    assert(digits.take(0) =~= Seq::<char>::empty());
    while i < chars.len()
        invariant
            chars@ == s@,
            start <= i <= chars@.len(),
            start < chars@.len(),
            digits == s@.skip(start as int),
            unsigned_value(s@) == match digits_value(digits) {
                Some(n) => if n <= usize::MAX {
                    Some(n as usize)
                } else {
                    None
                },
                None => None,
            },
            digits_value(digits.take(i - start)) == Some(value as nat),
        decreases chars@.len() - i,
    {
        let c = chars[i];
        proof {
            assert(digits.take(i - start + 1).drop_last() =~= digits.take(i - start));
            assert(digits.take(i - start + 1).last() == c);
            prefix_value(digits, i - start + 1);
        }
        if c < '0' || c > '9' {
            return None;
        }
        let d: usize = (c as u32 - '0' as u32) as usize;
        if value > (usize::MAX - d) / 10 {
            return None;
        }
        value = 10 * value + d;
        i = i + 1;
    }
    assert(digits.take(i - start) =~= digits);
    Some(value)
}

// ---- laws ----

/// A text is parted at the first of a character: what stands before it has none, and the rest
/// follows it. A text without the character is not parted.
pub proof fn texts_are_parted_at_the_first(a: Seq<char>, c: char, b: Seq<char>, s: Seq<char>)
    ensures
        (forall|k: int| 0 <= k < a.len() ==> #[trigger] a[k] != c) ==> split_at_first(
            a + seq![c] + b,
            c,
        ) == Some((a, b)),
        split_at_first(s, c) is None <==> forall|k: int| 0 <= k < s.len() ==> #[trigger] s[k] != c,
{
    if forall|k: int| 0 <= k < a.len() ==> #[trigger] a[k] != c {
        let whole = a + seq![c] + b;
        let n = a.len() as int;
        assert forall|k: int| 0 <= k < n implies whole[k] != c by {
            assert(whole[k] == a[k]);
        }
        assert(whole[n] == c);
        first_is_index_of(whole, c, n);
        assert(whole.take(n) =~= a);
        assert(whole.skip(n + 1) =~= b);
    }
    index_of_is_first(s, c);
    if forall|k: int| 0 <= k < s.len() ==> #[trigger] s[k] != c {
        absent_has_no_index(s, c);
    }
}

/// The lines of a text: what stands before the first line feed is the first one, without a
/// carriage return at its end, and the lines of the rest follow. A text without a line feed is
/// one line, and an empty text has none.
pub proof fn lines_end_with_line_feeds(line: Seq<char>, rest: Seq<char>)
    requires
        forall|k: int| 0 <= k < line.len() ==> #[trigger] line[k] != '\n',
    ensures
        lines(Seq::<char>::empty()).len() == 0,
        line.len() > 0 ==> lines(line) == seq![line],
        (line.len() == 0 || line.last() != '\r') ==> lines(line + seq!['\n'] + rest) == seq![line]
            + lines(rest),
        lines(line + seq!['\r', '\n'] + rest) == seq![line] + lines(rest),
{
    absent_has_no_index(line, '\n');
    texts_are_parted_at_the_first(line, '\n', rest, rest);
    let whole = line + seq!['\n'] + rest;
    assert(index_of(whole, '\n') is Some);
    assert(without_return(line.push('\r')) =~= line);
    let long = line.push('\r');
    assert forall|k: int| 0 <= k < long.len() implies #[trigger] long[k] != '\n' by {
        if k < line.len() {
            assert(long[k] == line[k]);
        }
    }
    texts_are_parted_at_the_first(long, '\n', rest, rest);
    assert(line + seq!['\r', '\n'] + rest =~= long + seq!['\n'] + rest);
}

/// The words of a text: white space in front is passed over, and what stands before the first
/// white space after it is the first word. The words of the rest follow.
pub proof fn words_are_parted_by_white_space(word: Seq<char>, c: char, rest: Seq<char>)
    requires
        is_space(c),
        word.len() > 0,
        forall|k: int| 0 <= k < word.len() ==> !is_space(#[trigger] word[k]),
    ensures
        words(Seq::<char>::empty()).len() == 0,
        words(seq![c] + rest) == words(rest),
        words(word) == seq![word],
        words(word + seq![c] + rest) == seq![word] + words(rest),
{
    assert(trim_start(Seq::<char>::empty()) =~= Seq::<char>::empty());
    let spaced = seq![c] + rest;
    assert(spaced[0] == c);
    assert(spaced.drop_first() =~= rest);
    assert(trim_start(spaced) == trim_start(rest));
    assert(word[0] == word[0] && !is_space(word[0]));
    assert(trim_start(word) == word);
    word_is_measured(word, Seq::empty());
    assert(word + Seq::<char>::empty() =~= word);
    assert(word.take(word.len() as int) =~= word);
    assert(word.skip(word.len() as int) =~= Seq::<char>::empty());
    assert(words(Seq::<char>::empty()) =~= Seq::<Seq<char>>::empty());
    assert(word_length(word) == word.len());
    assert(words(word) == seq![word.take(word.len() as int)] + words(
        word.skip(word.len() as int),
    ));
    assert(words(word) =~= seq![word]);
    let whole = word + seq![c] + rest;
    assert(whole =~= word + spaced);
    assert(whole[0] == word[0]);
    assert(trim_start(whole) == whole);
    word_is_measured(word, spaced);
    assert(whole.take(word.len() as int) =~= word);
    assert(whole.skip(word.len() as int) =~= spaced);
}

proof fn word_is_measured(word: Seq<char>, rest: Seq<char>)
    requires
        forall|k: int| 0 <= k < word.len() ==> !is_space(#[trigger] word[k]),
        rest.len() == 0 || is_space(rest[0]),
    ensures
        word_length(word + rest) == word.len(),
    decreases word.len(),
{
    let whole = word + rest;
    if word.len() > 0 {
        assert(whole[0] == word[0]);
        let shorter = word.drop_first();
        assert(whole.drop_first() =~= shorter + rest);
        assert forall|k: int| 0 <= k < shorter.len() implies !is_space(#[trigger] shorter[k]) by {
            assert(shorter[k] == word[k + 1]);
        }
        word_is_measured(shorter, rest);
    } else {
        assert(whole =~= rest);
    }
}

/// Trimming takes away white space from both ends, all of it and nothing else.
pub proof fn trimming_takes_white_space(a: Seq<char>, s: Seq<char>, b: Seq<char>)
    requires
        forall|k: int| 0 <= k < a.len() ==> is_space(#[trigger] a[k]),
        forall|k: int| 0 <= k < b.len() ==> is_space(#[trigger] b[k]),
    ensures
        s.len() == 0 || !is_space(s[0]) ==> trim_start(a + s) == s,
        s.len() == 0 || !is_space(s.last()) ==> trim_end(s + b) == s,
        s.len() == 0 ==> trim_end(trim_start(a + s + b)).len() == 0,
        s.len() > 0 && !is_space(s[0]) && !is_space(s.last()) ==> trim_end(trim_start(a + s + b))
            == s,
{
    if s.len() == 0 || !is_space(s[0]) {
        space_in_front_is_taken(a, s);
    }
    if s.len() == 0 || !is_space(s.last()) {
        space_at_the_end_is_taken(s, b);
    }
    assert(a + s + b =~= a + (s + b));
    if s.len() > 0 && !is_space(s[0]) {
        assert((s + b)[0] == s[0]);
        space_in_front_is_taken(a, s + b);
    }
    if s.len() == 0 {
        let blank = a + b;
        assert(a + s + b =~= blank + Seq::<char>::empty());
        assert forall|k: int| 0 <= k < blank.len() implies is_space(#[trigger] blank[k]) by {
            if k < a.len() {
                assert(blank[k] == a[k]);
            } else {
                assert(blank[k] == b[k - a.len()]);
            }
        }
        space_in_front_is_taken(blank, Seq::empty());
    }
}

proof fn space_in_front_is_taken(a: Seq<char>, s: Seq<char>)
    requires
        forall|k: int| 0 <= k < a.len() ==> is_space(#[trigger] a[k]),
        s.len() == 0 || !is_space(s[0]),
    ensures
        trim_start(a + s) == s,
    decreases a.len(),
{
    let whole = a + s;
    if a.len() == 0 {
        assert(whole =~= s);
    } else {
        assert(whole[0] == a[0]);
        let rest = a.drop_first();
        assert(whole.drop_first() =~= rest + s);
        assert forall|k: int| 0 <= k < rest.len() implies is_space(#[trigger] rest[k]) by {
            assert(rest[k] == a[k + 1]);
        }
        space_in_front_is_taken(rest, s);
    }
}

proof fn space_at_the_end_is_taken(s: Seq<char>, b: Seq<char>)
    requires
        forall|k: int| 0 <= k < b.len() ==> is_space(#[trigger] b[k]),
        s.len() == 0 || !is_space(s.last()),
    ensures
        trim_end(s + b) == s,
    decreases b.len(),
{
    let whole = s + b;
    if b.len() == 0 {
        assert(whole =~= s);
    } else {
        assert(whole.last() == b[b.len() - 1]);
        let rest = b.drop_last();
        assert(whole.drop_last() =~= s + rest);
        assert forall|k: int| 0 <= k < rest.len() implies is_space(#[trigger] rest[k]) by {
            assert(rest[k] == b[k]);
        }
        space_at_the_end_is_taken(s, rest);
    }
}

/// A text has a part where it is the part with something before and after it, and nowhere else.
pub proof fn parts_stand_in_their_texts(a: Seq<char>, part: Seq<char>, b: Seq<char>, s: Seq<char>)
    ensures
        contains(a + part + b, part),
        contains(s, part) ==> exists|i: int|
            0 <= i <= s.len() - part.len() && #[trigger] s.take(i) + part + s.skip(i + part.len())
                == s,
{
    let whole = a + part + b;
    assert(whole.subrange(a.len() as int, a.len() as int + part.len()) =~= part);
    assert(stands_at(whole, part, a.len() as int));
    if contains(s, part) {
        let i = choose|i: int| #[trigger] stands_at(s, part, i);
        assert(s.take(i) + part + s.skip(i + part.len()) =~= s) by {
            assert(s.subrange(i, i + part.len()) == part);
        }
    }
}

/// An ASCII capital becomes the small letter of the same place in the alphabet, and every other
/// character stays. Only the first character of a name is changed.
pub proof fn small_letters_are_those_of_the_alphabet(c: char, name: Seq<char>)
    requires
        name.len() > 0,
    ensures
        'A' <= c <= 'Z' ==> 'a' <= ascii_lower(c) <= 'z' && ascii_lower(c) as int - 'a' as int == c
            as int - 'A' as int,
        !('A' <= c <= 'Z') ==> ascii_lower(c) == c,
        lower_first(name).len() == name.len(),
        lower_first(name)[0] == ascii_lower(name[0]),
        forall|k: int| 1 <= k < name.len() ==> #[trigger] lower_first(name)[k] == name[k],
{
}

/// Two texts are the same but for case exactly where each letter is the same or its counterpart;
/// that is so of a text and itself, either way around.
pub proof fn case_is_disregarded(a: Seq<char>, b: Seq<char>)
    ensures
        same_but_case(a, a),
        same_but_case(a, b) == same_but_case(b, a),
        same_but_case(a, b) ==> a.len() == b.len() && forall|k: int|
            0 <= k < a.len() ==> #[trigger] a[k] == b[k] || (('A' <= a[k] <= 'Z' || 'A' <= b[k]
                <= 'Z') && (a[k] as int - b[k] as int == 32 || b[k] as int - a[k] as int == 32)),
        a.len() == b.len() && (forall|k: int| 0 <= k < a.len() ==> #[trigger] a[k] == b[k])
            ==> same_but_case(a, b),
{
    if same_but_case(b, a) {
        assert forall|k: int| 0 <= k < a.len() implies ascii_lower(#[trigger] a[k]) == ascii_lower(
            b[k],
        ) by {
            assert(ascii_lower(b[k]) == ascii_lower(a[k]));
        }
    }
    if same_but_case(a, b) {
        assert forall|k: int| 0 <= k < b.len() implies ascii_lower(#[trigger] b[k]) == ascii_lower(
            a[k],
        ) by {
            assert(ascii_lower(a[k]) == ascii_lower(b[k]));
        }
    }
}

/// The unsigned integer of a text is the one that it is the decimal form of, with a plus sign or
/// not. A text with anything but digits after its first character has none, nor has an empty one.
pub proof fn decimal_forms_are_read(n: usize, s: Seq<char>, i: int)
    ensures
        unsigned_value(decimal::decimal(n as nat)) == Some(n),
        unsigned_value(seq!['+'] + decimal::decimal(n as nat)) == Some(n),
        unsigned_value(Seq::empty()) is None,
        unsigned_value(seq!['+']) is None,
        0 <= i < s.len() && !('0' <= s[i] <= '9') && (i > 0 || s[0] != '+') ==> unsigned_value(s)
            is None,
{
    let d = decimal::decimal(n as nat);
    decimal::decimal_is_digits(n as nat);
    assert((seq!['+'] + d).drop_first() =~= d);
    assert(seq!['+'].drop_first() =~= Seq::<char>::empty());
    if 0 <= i < s.len() && !('0' <= s[i] <= '9') && (i > 0 || s[0] != '+') {
        other_characters_have_no_value(s, i);
        if s[0] == '+' {
            assert(s.drop_first()[i - 1] == s[i]);
            other_characters_have_no_value(s.drop_first(), i - 1);
        }
    }
}

proof fn other_characters_have_no_value(s: Seq<char>, i: int)
    requires
        0 <= i < s.len(),
        !('0' <= s[i] <= '9'),
    ensures
        digits_value(s) is None,
    decreases s.len(),
{
    if i < s.len() - 1 {
        assert(s.drop_last()[i] == s[i]);
        other_characters_have_no_value(s.drop_last(), i);
    }
}

/// A digit more is ten times the number and the digit.
pub proof fn digits_count_in_tens(s: Seq<char>, c: char)
    ensures
        digits_value(Seq::empty()) == Some(0nat),
        digits_value(s) matches Some(n) ==> ('0' <= c <= '9' ==> digits_value(s.push(c)) == Some(
            (10 * n + (c as int - '0' as int)) as nat,
        )),
        digits_value(s) is None ==> digits_value(s.push(c)) is None,
{
    assert(s.push(c).drop_last() =~= s);
}

/// White space is what Unicode counts as such: 25 characters, by their numbers.
pub proof fn white_space_is_that_of_unicode(c: char)
    ensures
        is_space(c) <==> ({
            let n = c as int;
            9 <= n <= 13 || n == 32 || n == 133 || n == 160 || n == 5760 || 8192 <= n <= 8202 || n
                == 8232 || n == 8233 || n == 8239 || n == 8287 || n == 12288
        }),
{
}

} // verus!

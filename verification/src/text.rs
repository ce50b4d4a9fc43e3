//! Operations on text, as sequences of characters.

use vstd::prelude::*;
use vstd::slice::slice_subrange;

verus! {

/// `pattern` stands in `text` at position `i`.
pub open spec fn occurs_at(text: Seq<char>, pattern: Seq<char>, i: int) -> bool {
    &&& 0 <= i
    &&& i + pattern.len() <= text.len()
    &&& text.subrange(i, i + pattern.len()) == pattern
}

/// `pattern` stands somewhere in `text`.
pub open spec fn contains(text: Seq<char>, pattern: Seq<char>) -> bool {
    exists|i: int| occurs_at(text, pattern, i)
}

/// The first position at which `pattern` stands in `text`, at or after `from`.
pub open spec fn find_from(text: Seq<char>, pattern: Seq<char>, from: int) -> Option<int>
    decreases text.len() - from + 1,
{
    if from < 0 || from + pattern.len() > text.len() {
        None
    } else if occurs_at(text, pattern, from) {
        Some(from)
    } else {
        find_from(text, pattern, from + 1)
    }
}

/// The first position at which `pattern` stands in `text`.
pub open spec fn find(text: Seq<char>, pattern: Seq<char>) -> Option<int> {
    find_from(text, pattern, 0)
}

/// The last position at which `pattern` stands in `text`, at or before `upto`.
pub open spec fn rfind_upto(text: Seq<char>, pattern: Seq<char>, upto: int) -> Option<int>
    decreases upto + 1,
{
    if upto < 0 {
        None
    } else if occurs_at(text, pattern, upto) {
        Some(upto)
    } else {
        rfind_upto(text, pattern, upto - 1)
    }
}

/// The last position at which `pattern` stands in `text`.
pub open spec fn rfind(text: Seq<char>, pattern: Seq<char>) -> Option<int> {
    rfind_upto(text, pattern, text.len() - pattern.len())
}

/// The characters that Unicode calls white space.
pub open spec fn is_white_space(c: char) -> bool {
    let code = c as int;
    ||| 0x09 <= code <= 0x0d
    ||| code == 0x20
    ||| code == 0x85
    ||| code == 0xa0
    ||| code == 0x1680
    ||| 0x2000 <= code <= 0x200a
    ||| code == 0x2028
    ||| code == 0x2029
    ||| code == 0x202f
    ||| code == 0x205f
    ||| code == 0x3000
}

/// `text` without the white space it starts with.
pub open spec fn trim_start(text: Seq<char>) -> Seq<char>
    decreases text.len(),
{
    if text.len() > 0 && is_white_space(text.first()) {
        trim_start(text.drop_first())
    } else {
        text
    }
}

/// `text` without the white space it ends with.
pub open spec fn trim_end(text: Seq<char>) -> Seq<char>
    decreases text.len(),
{
    if text.len() > 0 && is_white_space(text.last()) {
        trim_end(text.drop_last())
    } else {
        text
    }
}

/// `text` without the white space at its ends.
pub open spec fn trim(text: Seq<char>) -> Seq<char> {
    trim_end(trim_start(text))
}

/// `line` without a carriage return at its end.
pub open spec fn strip_return(line: Seq<char>) -> Seq<char> {
    if line.len() > 0 && line.last() == '\r' {
        line.drop_last()
    } else {
        line
    }
}

/// The lines of `text`. A line ends with a line feed, or with a carriage return
/// and a line feed, neither of which belongs to it; the last one may end with
/// the text.
pub open spec fn lines(text: Seq<char>) -> Seq<Seq<char>>
    decreases text.len(),
{
    if text.len() == 0 {
        Seq::empty()
    } else {
        match find(text, seq!['\n']) {
            None => seq![text],
            Some(i) => if 0 <= i < text.len() {
                seq![strip_return(text.take(i))] + lines(text.skip(i + 1))
            } else {
                Seq::empty()
            },
        }
    }
}

/// `parts` one after the other, with `separator` between each two.
pub open spec fn join(parts: Seq<Seq<char>>, separator: Seq<char>) -> Seq<char>
    decreases parts.len(),
{
    if parts.len() == 0 {
        Seq::empty()
    } else if parts.len() == 1 {
        parts[0]
    } else {
        join(parts.drop_last(), separator) + separator + parts.last()
    }
}

/// The decimal digit for `d`.
pub open spec fn digit(d: int) -> char {
    (48 + d) as char
}

/// `n` in decimal notation.
pub open spec fn decimal(n: nat) -> Seq<char>
    decreases n,
{
    if n < 10 {
        seq![digit(n as int)]
    } else {
        decimal(n / 10).push(digit((n % 10) as int))
    }
}

/// `n` in decimal notation, with a sign if it is negative.
pub open spec fn signed_decimal(n: int) -> Seq<char> {
    if n < 0 {
        seq!['-'] + decimal((-n) as nat)
    } else {
        decimal(n as nat)
    }
}

/// `a` comes before `b` in the order of text: by the first character in which
/// they differ, a prefix before what it is a prefix of.
pub open spec fn precedes(a: Seq<char>, b: Seq<char>) -> bool
    decreases a.len(),
{
    if b.len() == 0 {
        false
    } else if a.len() == 0 {
        true
    } else if a.first() == b.first() {
        precedes(a.drop_first(), b.drop_first())
    } else {
        (a.first() as int) < (b.first() as int)
    }
}

/// Nothing comes before itself, and of two different texts exactly one comes
/// before the other.
pub proof fn lemma_precedes_is_total(a: Seq<char>, b: Seq<char>)
    ensures
        !precedes(a, a),
        precedes(a, b) ==> !precedes(b, a),
        a == b || precedes(a, b) || precedes(b, a),
    decreases a.len(),
{
    if a.len() > 0 {
        lemma_precedes_is_total(a.drop_first(), a.drop_first());
    }
    if a.len() > 0 && b.len() > 0 && a.first() == b.first() {
        lemma_precedes_is_total(a.drop_first(), b.drop_first());
        if a.drop_first() == b.drop_first() {
            assert(a =~= seq![a.first()] + a.drop_first());
            assert(b =~= seq![b.first()] + b.drop_first());
        }
    } else if a.len() == 0 && b.len() == 0 {
        assert(a =~= b);
    }
}

/// The order of text is transitive.
pub proof fn lemma_precedes_is_transitive(a: Seq<char>, b: Seq<char>, c: Seq<char>)
    requires
        precedes(a, b),
        precedes(b, c),
    ensures
        precedes(a, c),
    decreases a.len(),
{
    if a.len() > 0 && a.first() == b.first() && b.first() == c.first() {
        lemma_precedes_is_transitive(a.drop_first(), b.drop_first(), c.drop_first());
    }
}

/// `String::push` appends one character to the string.
pub assume_specification[ String::push ](s: &mut String, c: char)
    ensures
        final(s)@ == old(s)@.push(c),
;

/// The characters of `text`.
pub fn chars_of(text: &str) -> (chars: Vec<char>)
    ensures
        chars@ == text@,
{
    let mut chars: Vec<char> = Vec::new();
    for c in it: text.chars()
        invariant
            it.seq() == text@,
            chars@ == text@.take(it.index()),
    {
        chars.push(c);
    }
    chars
}

/// The text with the characters `chars`.
pub fn string_of(chars: &[char]) -> (text: String)
    ensures
        text@ == chars@,
{
    let mut text = String::new();
    for i in 0..chars.len()
        invariant
            text@ == chars@.take(i as int),
    {
        text.push(chars[i]);
    }
    text
}

/// Append `more` to `out`.
pub fn push_chars(out: &mut Vec<char>, more: &[char])
    ensures
        final(out)@ == old(out)@ + more@,
{
    for i in 0..more.len()
        invariant
            out@ == old(out)@ + more@.take(i as int),
    {
        out.push(more[i]);
    }
}

/// Append the text `more` to `out`.
pub fn push_text(out: &mut Vec<char>, more: &str)
    ensures
        final(out)@ == old(out)@ + more@,
{
    let chars = chars_of(more);
    push_chars(out, chars.as_slice());
}

/// Whether `a` and `b` are the same text.
pub fn same(a: &[char], b: &[char]) -> (result: bool)
    ensures
        result == (a@ == b@),
{
    if a.len() != b.len() {
        return false;
    }
    for i in 0..a.len()
        invariant
            a@.len() == b@.len(),
            a@.take(i as int) =~= b@.take(i as int),
    {
        if a[i] != b[i] {
            assert(a@[i as int] != b@[i as int]);
            return false;
        }
        assert(a@.take(i + 1) =~= a@.take(i as int).push(a@[i as int]));
        assert(b@.take(i + 1) =~= b@.take(i as int).push(b@[i as int]));
    }
    proof {
        assert(a@.take(a@.len() as int) =~= a@);
        assert(b@.take(b@.len() as int) =~= b@);
    }
    true
}

/// The first position at which `pattern` stands in `text`.
pub fn position(text: &[char], pattern: &[char]) -> (at: Option<usize>)
    ensures
        match at {
            Some(i) => find(text@, pattern@) == Some(i as int),
            None => find(text@, pattern@) is None,
        },
{
    let length: usize = pattern.len();
    if length > text.len() {
        return None;
    }
    let last: usize = text.len() - length;
    let mut i: usize = 0;
    loop
        invariant
            length == pattern@.len(),
            last + length == text@.len() <= usize::MAX,
            i <= last,
            find(text@, pattern@) == find_from(text@, pattern@, i as int),
        decreases last - i,
    {
        if same(slice_subrange(text, i, i + length), pattern) {
            return Some(i);
        }
        assert(find(text@, pattern@) == find_from(text@, pattern@, i + 1));
        if i == last {
            return None;
        }
        i = i + 1;
    }
}

/// The last position at which `pattern` stands in `text`.
pub fn last_position(text: &[char], pattern: &[char]) -> (at: Option<usize>)
    ensures
        match at {
            Some(i) => rfind(text@, pattern@) == Some(i as int),
            None => rfind(text@, pattern@) is None,
        },
{
    let length: usize = pattern.len();
    if length > text.len() {
        return None;
    }
    let mut i: usize = text.len() - length;
    loop
        invariant
            length == pattern@.len(),
            i + length <= text@.len() <= usize::MAX,
            rfind(text@, pattern@) == rfind_upto(text@, pattern@, i as int),
        decreases i,
    {
        if same(slice_subrange(text, i, i + length), pattern) {
            return Some(i);
        }
        assert(rfind(text@, pattern@) == rfind_upto(text@, pattern@, i - 1));
        if i == 0 {
            return None;
        }
        i = i - 1;
    }
}

/// What [`find_from`] finds is the first occurrence; if it finds nothing, there
/// is none.
pub proof fn lemma_find_from(text: Seq<char>, pattern: Seq<char>, from: int)
    requires
        0 <= from,
    ensures
        match find_from(text, pattern, from) {
            Some(i) => from <= i && occurs_at(text, pattern, i) && forall|j: int|
                from <= j < i ==> !occurs_at(text, pattern, j),
            None => forall|j: int| from <= j ==> !occurs_at(text, pattern, j),
        },
    decreases text.len() - from + 1,
{
    if from + pattern.len() <= text.len() && !occurs_at(text, pattern, from) {
        lemma_find_from(text, pattern, from + 1);
    }
}

/// What [`rfind_upto`] finds is the last occurrence; if it finds nothing, there
/// is none.
pub proof fn lemma_rfind_upto(text: Seq<char>, pattern: Seq<char>, upto: int)
    ensures
        match rfind_upto(text, pattern, upto) {
            Some(i) => i <= upto && occurs_at(text, pattern, i) && forall|j: int|
                i < j <= upto ==> !occurs_at(text, pattern, j),
            None => forall|j: int| j <= upto ==> !occurs_at(text, pattern, j),
        },
    decreases upto + 1,
{
    if upto >= 0 && !occurs_at(text, pattern, upto) {
        lemma_rfind_upto(text, pattern, upto - 1);
    }
}

/// Whether `pattern` stands somewhere in `text`.
pub fn has(text: &[char], pattern: &[char]) -> (result: bool)
    ensures
        result == contains(text@, pattern@),
{
    proof {
        lemma_find_from(text@, pattern@, 0);
    }
    position(text, pattern).is_some()
}

/// Whether `c` is white space.
pub fn white_space(c: char) -> (result: bool)
    ensures
        result == is_white_space(c),
{
    let code: u32 = c as u32;
    (0x09 <= code && code <= 0x0d) || code == 0x20 || code == 0x85 || code == 0xa0 || code == 0x1680
        || (0x2000 <= code && code <= 0x200a) || code == 0x2028 || code == 0x2029 || code == 0x202f
        || code == 0x205f || code == 0x3000
}

/// `text` without the white space at its ends.
pub fn trimmed(text: &[char]) -> (result: &[char])
    ensures
        result@ == trim(text@),
{
    let mut start: usize = 0;
    assert(text@.skip(0) =~= text@);
    while start < text.len() && white_space(text[start])
        invariant
            start <= text@.len(),
            trim_start(text@) == trim_start(text@.skip(start as int)),
        decreases text@.len() - start,
    {
        assert(text@.skip(start as int).drop_first() =~= text@.skip(start + 1));
        start = start + 1;
    }
    let ghost rest = text@.skip(start as int);
    assert(trim_start(text@) == rest);
    let mut end: usize = text.len();
    assert(text@.subrange(start as int, end as int) =~= rest);
    while end > start && white_space(text[end - 1])
        invariant
            start <= end <= text@.len(),
            trim_end(rest) == trim_end(text@.subrange(start as int, end as int)),
        decreases end,
    {
        assert(text@.subrange(start as int, end as int).drop_last() =~= text@.subrange(
            start as int,
            end - 1,
        ));
        end = end - 1;
    }
    slice_subrange(text, start, end)
}

/// Append `n` in decimal notation to `out`.
pub fn push_decimal(out: &mut Vec<char>, n: u64)
    ensures
        final(out)@ == old(out)@ + decimal(n as nat),
    decreases n,
{
    if n >= 10 {
        push_decimal(out, n / 10);
    }
    let d: u8 = (n % 10) as u8;
    out.push((48 + d) as char);
}

/// Append `n` in decimal notation to `out`, with a sign if it is negative.
pub fn push_signed_decimal(out: &mut Vec<char>, n: i32)
    ensures
        final(out)@ == old(out)@ + signed_decimal(n as int),
{
    if n < 0 {
        out.push('-');
        let magnitude: i64 = -(n as i64);
        push_decimal(out, magnitude as u64);
    } else {
        push_decimal(out, n as u64);
    }
}

/// `parts` one after the other, with `separator` between each two.
pub fn joined(parts: &Vec<Vec<char>>, separator: &str) -> (text: Vec<char>)
    ensures
        text@ == join(parts@.map_values(|part: Vec<char>| part@), separator@),
{
    let ghost all = parts@.map_values(|part: Vec<char>| part@);
    let mut text: Vec<char> = Vec::new();
    for i in 0..parts.len()
        invariant
            all == parts@.map_values(|part: Vec<char>| part@),
            text@ == join(all.take(i as int), separator@),
    {
        if i > 0 {
            push_text(&mut text, separator);
        }
        push_chars(&mut text, parts[i].as_slice());
        proof {
            assert(all.take(i + 1).drop_last() =~= all.take(i as int));
            assert(all.take(i + 1).last() == parts@[i as int]@);
        }
    }
    proof {
        assert(all.take(parts@.len() as int) =~= all);
    }
    text
}

/// The number of the character `c`.
fn code_of(c: char) -> (code: u32)
    ensures
        code == c as int,
{
    c as u32
}

/// Whether `a` comes before `b` in the order of text.
pub fn comes_before(a: &[char], b: &[char]) -> (result: bool)
    ensures
        result == precedes(a@, b@),
{
    let mut i: usize = 0;
    proof {
        assert(a@.skip(0) =~= a@);
        assert(b@.skip(0) =~= b@);
    }
    while i < a.len() && i < b.len() && a[i] == b[i]
        invariant
            i <= a@.len(),
            i <= b@.len(),
            precedes(a@, b@) == precedes(a@.skip(i as int), b@.skip(i as int)),
        decreases a@.len() - i,
    {
        proof {
            assert(a@.skip(i as int).drop_first() =~= a@.skip(i + 1));
            assert(b@.skip(i as int).drop_first() =~= b@.skip(i + 1));
        }
        i = i + 1;
    }
    if i >= b.len() {
        false
    } else if i >= a.len() {
        true
    } else {
        code_of(a[i]) < code_of(b[i])
    }
}

/// A pattern stands at a position exactly if as many characters come before it there, and
/// anything after it.
pub proof fn law_occurrences_split_the_text(text: Seq<char>, pattern: Seq<char>, i: int)
    ensures
        occurs_at(text, pattern, i) <==> exists|head: Seq<char>, tail: Seq<char>|
            head.len() == i && text == #[trigger] (head + pattern + tail),
{
    if occurs_at(text, pattern, i) {
        let head = text.take(i);
        let tail = text.skip(i + pattern.len());
        assert(text =~= head + pattern + tail);
    }
    if exists|head: Seq<char>, tail: Seq<char>|
        head.len() == i && text == #[trigger] (head + pattern + tail) {
        let (head, tail) = choose|head: Seq<char>, tail: Seq<char>|
            head.len() == i && text == #[trigger] (head + pattern + tail);
        assert(text.subrange(i, i + pattern.len()) =~= pattern);
    }
}

/// A text contains a pattern exactly if it is the pattern with something before it and
/// something after it.
pub proof fn law_containing_is_having_a_part(text: Seq<char>, pattern: Seq<char>)
    ensures
        contains(text, pattern) <==> exists|head: Seq<char>, tail: Seq<char>|
            text == #[trigger] (head + pattern + tail),
{
    if contains(text, pattern) {
        let i = choose|i: int| occurs_at(text, pattern, i);
        law_occurrences_split_the_text(text, pattern, i);
    }
    if exists|head: Seq<char>, tail: Seq<char>| text == #[trigger] (head + pattern + tail) {
        let (head, tail) = choose|head: Seq<char>, tail: Seq<char>|
            text == #[trigger] (head + pattern + tail);
        law_occurrences_split_the_text(text, pattern, head.len() as int);
        assert(occurs_at(text, pattern, head.len() as int));
    }
}

/// What is found first has no occurrence before it, what is found last has none behind
/// it, and nothing is found only where there is nothing.
pub proof fn law_the_first_and_the_last_are_found(text: Seq<char>, pattern: Seq<char>)
    ensures
        match find(text, pattern) {
            Some(i) => {
                &&& 0 <= i <= text.len() - pattern.len()
                &&& text.subrange(i, i + pattern.len()) == pattern
                &&& forall|j: int|
                    0 <= j < i ==> #[trigger] text.subrange(j, j + pattern.len()) != pattern
            },
            None => forall|j: int|
                0 <= j <= text.len() - pattern.len() ==> #[trigger] text.subrange(
                    j,
                    j + pattern.len(),
                ) != pattern,
        },
        match rfind(text, pattern) {
            Some(i) => {
                &&& 0 <= i <= text.len() - pattern.len()
                &&& text.subrange(i, i + pattern.len()) == pattern
                &&& forall|j: int|
                    i < j <= text.len() - pattern.len() ==> #[trigger] text.subrange(
                        j,
                        j + pattern.len(),
                    ) != pattern
            },
            None => forall|j: int|
                0 <= j <= text.len() - pattern.len() ==> #[trigger] text.subrange(
                    j,
                    j + pattern.len(),
                ) != pattern,
        },
{
    lemma_find_from(text, pattern, 0);
    lemma_rfind_upto(text, pattern, text.len() - pattern.len());
    assert forall|j: int|
        0 <= j <= text.len() - pattern.len() && !occurs_at(text, pattern, j) implies
    #[trigger] text.subrange(j, j + pattern.len()) != pattern by {}
}

/// Trimming takes off white space at both ends, all of it and nothing else.
pub proof fn law_trimming_takes_off_white_space(text: Seq<char>)
    ensures
        exists|i: int, j: int|
            {
                &&& 0 <= i <= j <= text.len()
                &&& trim(text) == #[trigger] text.subrange(i, j)
                &&& forall|k: int| 0 <= k < i ==> is_white_space(#[trigger] text[k])
                &&& forall|k: int| j <= k < text.len() ==> is_white_space(#[trigger] text[k])
                &&& i < j ==> !is_white_space(text[i]) && !is_white_space(text[j - 1])
            },
{
    let i = lemma_trim_start(text);
    let rest = text.skip(i);
    let n = lemma_trim_end(rest);
    assert(rest.take(n) =~= text.subrange(i, i + n));
    assert forall|k: int| i + n <= k < text.len() implies is_white_space(#[trigger] text[k]) by {
        assert(rest[k - i] == text[k]);
    }
    if n > 0 {
        assert(rest[0] == text[i]);
        assert(rest[n - 1] == text[i + n - 1]);
    }
    assert(trim(text) == text.subrange(i, i + n));
}

/// How much white space a text starts with.
proof fn lemma_trim_start(text: Seq<char>) -> (n: int)
    ensures
        0 <= n <= text.len(),
        trim_start(text) == text.skip(n),
        forall|k: int| 0 <= k < n ==> is_white_space(#[trigger] text[k]),
        n < text.len() ==> !is_white_space(text[n]),
    decreases text.len(),
{
    if text.len() > 0 && is_white_space(text.first()) {
        let rest = text.drop_first();
        let n = lemma_trim_start(rest);
        assert(rest.skip(n) =~= text.skip(n + 1));
        assert forall|k: int| 0 <= k < n + 1 implies is_white_space(#[trigger] text[k]) by {
            if k > 0 {
                assert(rest[k - 1] == text[k]);
            }
        }
        if n < rest.len() {
            assert(rest[n] == text[n + 1]);
        }
        n + 1
    } else {
        assert(text.skip(0) =~= text);
        0
    }
}

/// How much of a text comes before the white space that it ends with.
proof fn lemma_trim_end(text: Seq<char>) -> (n: int)
    ensures
        0 <= n <= text.len(),
        trim_end(text) == text.take(n),
        forall|k: int| n <= k < text.len() ==> is_white_space(#[trigger] text[k]),
        n > 0 ==> !is_white_space(text[n - 1]),
    decreases text.len(),
{
    if text.len() > 0 && is_white_space(text.last()) {
        let rest = text.drop_last();
        let n = lemma_trim_end(rest);
        assert(rest.take(n) =~= text.take(n));
        assert forall|k: int| n <= k < text.len() implies is_white_space(#[trigger] text[k]) by {
            if k < rest.len() {
                assert(rest[k] == text[k]);
            }
        }
        if n > 0 {
            assert(rest[n - 1] == text[n - 1]);
        }
        n
    } else {
        assert(text.take(text.len() as int) =~= text);
        text.len() as int
    }
}

/// White space are the control characters from tab to carriage return, the spaces and
/// the separators of lines and paragraphs.
pub proof fn law_white_space_characters(c: char)
    ensures
        is_white_space(c) <==> set![
            0x09int,
            0x0aint,
            0x0bint,
            0x0cint,
            0x0dint,
            0x20int,
            0x85int,
            0xa0int,
            0x1680int,
            0x2000int,
            0x2001int,
            0x2002int,
            0x2003int,
            0x2004int,
            0x2005int,
            0x2006int,
            0x2007int,
            0x2008int,
            0x2009int,
            0x200aint,
            0x2028int,
            0x2029int,
            0x202fint,
            0x205fint,
            0x3000int,
        ].contains(c as int),
{
}

/// A line ends with its line feed, before which one carriage return is dropped: what
/// follows the line feed has the lines that it has by itself. What follows the last line
/// feed is a line if it is not empty.
pub proof fn law_lines_end_with_line_feeds(line: Seq<char>, rest: Seq<char>)
    requires
        !line.contains('\n'),
    ensures
        lines(Seq::empty()) == Seq::<Seq<char>>::empty(),
        line.len() > 0 ==> lines(line) == seq![line],
        line.len() > 0 && line.last() == '\r' ==> lines(line + seq!['\n'] + rest) == seq![
            line.drop_last(),
        ] + lines(rest),
        !(line.len() > 0 && line.last() == '\r') ==> lines(line + seq!['\n'] + rest) == seq![line]
            + lines(rest),
{
    let feed = seq!['\n'];
    lemma_find_from(line, feed, 0);
    if find(line, feed) is Some {
        let i = find(line, feed)->0;
        assert(line.subrange(i, i + 1)[0] == '\n');
        assert(line[i] == '\n');
    }
    let text = line + feed + rest;
    lemma_find_from(text, feed, 0);
    assert(text.subrange(line.len() as int, line.len() as int + 1) =~= feed);
    assert(occurs_at(text, feed, line.len() as int));
    let i = find(text, feed)->0;
    if i < line.len() {
        assert(text.subrange(i, i + 1)[0] == '\n');
        assert(line[i] == '\n');
    }
    assert(i == line.len());
    assert(text.take(i) =~= line);
    assert(text.skip(i + 1) =~= rest);
}

/// Joining puts the separator between the parts, and nowhere else.
pub proof fn law_joining_puts_separators_between(
    left: Seq<Seq<char>>,
    right: Seq<Seq<char>>,
    part: Seq<char>,
    separator: Seq<char>,
)
    requires
        left.len() > 0,
        right.len() > 0,
    ensures
        join(Seq::empty(), separator) == Seq::<char>::empty(),
        join(seq![part], separator) == part,
        join(left + right, separator) == join(left, separator) + separator + join(
            right,
            separator,
        ),
    decreases right.len(),
{
    let all = left + right;
    assert(all.last() == right.last());
    if right.len() == 1 {
        assert(all.drop_last() =~= left);
        assert(right[0] == right.last());
    } else {
        law_joining_puts_separators_between(left, right.drop_last(), part, separator);
        assert(all.drop_last() =~= left + right.drop_last());
        assert(join(all, separator) =~= join(left, separator) + separator + join(
            right,
            separator,
        ));
    }
}

/// The number that a text of digits stands for.
pub open spec fn number_of(digits: Seq<char>) -> int
    decreases digits.len(),
{
    if digits.len() == 0 {
        0
    } else {
        10 * number_of(digits.drop_last()) + (digits.last() as int - '0' as int)
    }
}

/// Decimal notation consists of digits, without a zero in front of others, and stands for
/// the number. A negative number has a sign before that.
pub proof fn law_decimal_notation_can_be_read(n: nat)
    ensures
        decimal(n).len() > 0,
        forall|i: int| 0 <= i < decimal(n).len() ==> '0' <= #[trigger] decimal(n)[i] <= '9',
        number_of(decimal(n)) == n,
        decimal(n).len() > 1 ==> decimal(n)[0] != '0',
        signed_decimal(n as int) == decimal(n),
        n > 0 ==> signed_decimal(-n) == seq!['-'] + decimal(n),
    decreases n,
{
    let d = digit((n % 10) as int);
    assert(d as int == 48 + n % 10);
    if n < 10 {
        assert(decimal(n) =~= seq![d]);
        assert(decimal(n).drop_last() =~= Seq::empty());
        assert(number_of(decimal(n).drop_last()) == 0);
    } else {
        law_decimal_notation_can_be_read(n / 10);
        let front = decimal(n / 10);
        assert(decimal(n).drop_last() =~= front);
        if front.len() == 1 {
            assert(front.drop_last() =~= Seq::empty());
            assert(number_of(front.drop_last()) == 0);
        }
    }
}

/// One text comes before another exactly if, after some characters that they share, it
/// ends first or goes on with the smaller character.
pub proof fn law_text_is_ordered_by_the_first_difference(a: Seq<char>, b: Seq<char>)
    ensures
        precedes(a, b) <==> exists|k: int|
            {
                &&& 0 <= k <= a.len()
                &&& k < b.len()
                &&& a.take(k) == #[trigger] b.take(k)
                &&& k < a.len() ==> (a[k] as int) < (b[k] as int)
            },
    decreases a.len(),
{
    if a.len() == 0 || b.len() == 0 {
        if a.len() == 0 && b.len() > 0 {
            assert(a.take(0) =~= b.take(0));
        }
    } else if a.first() == b.first() {
        let x = a.drop_first();
        let y = b.drop_first();
        law_text_is_ordered_by_the_first_difference(x, y);
        if precedes(x, y) {
            let k = choose|k: int|
                {
                    &&& 0 <= k <= x.len()
                    &&& k < y.len()
                    &&& x.take(k) == #[trigger] y.take(k)
                    &&& k < x.len() ==> (x[k] as int) < (y[k] as int)
                };
            assert(a.take(k + 1) =~= seq![a.first()] + x.take(k));
            assert(b.take(k + 1) =~= seq![b.first()] + y.take(k));
            assert(a.take(k + 1) == b.take(k + 1));
        }
        if exists|k: int|
            {
                &&& 0 <= k <= a.len()
                &&& k < b.len()
                &&& a.take(k) == #[trigger] b.take(k)
                &&& k < a.len() ==> (a[k] as int) < (b[k] as int)
            } {
            let k = choose|k: int|
                {
                    &&& 0 <= k <= a.len()
                    &&& k < b.len()
                    &&& a.take(k) == #[trigger] b.take(k)
                    &&& k < a.len() ==> (a[k] as int) < (b[k] as int)
                };
            assert(k > 0);
            assert(x.take(k - 1) =~= a.take(k).drop_first());
            assert(y.take(k - 1) =~= b.take(k).drop_first());
            assert(x.take(k - 1) == y.take(k - 1));
        }
    } else {
        if (a.first() as int) < (b.first() as int) {
            assert(a.take(0) =~= b.take(0));
        }
        if exists|k: int|
            {
                &&& 0 <= k <= a.len()
                &&& k < b.len()
                &&& a.take(k) == #[trigger] b.take(k)
                &&& k < a.len() ==> (a[k] as int) < (b[k] as int)
            } {
            let k = choose|k: int|
                {
                    &&& 0 <= k <= a.len()
                    &&& k < b.len()
                    &&& a.take(k) == #[trigger] b.take(k)
                    &&& k < a.len() ==> (a[k] as int) < (b[k] as int)
                };
            if k > 0 {
                assert(a.take(k)[0] == b.take(k)[0]);
            }
        }
    }
}

} // verus!

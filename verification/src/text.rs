//! Text: white space, prefixes, lines and decimal numbers.
//!
//! A string is modelled by the sequence of its characters.

use vstd::prelude::*;

verus! {

/// The characters with Unicode's `White_Space` property.
pub open spec fn white_space(c: char) -> bool {
    ||| '\u{9}' <= c <= '\u{d}'
    ||| c == ' '
    ||| c == '\u{85}'
    ||| c == '\u{a0}'
    ||| c == '\u{1680}'
    ||| '\u{2000}' <= c <= '\u{200a}'
    ||| c == '\u{2028}'
    ||| c == '\u{2029}'
    ||| c == '\u{202f}'
    ||| c == '\u{205f}'
    ||| c == '\u{3000}'
}

/// Whether every character of `s` is white space.
pub open spec fn blank(s: Seq<char>) -> bool {
    forall|i: int| 0 <= i < s.len() ==> white_space(#[trigger] s[i])
}

/// `s` without the white space at its start.
pub open spec fn trimmed_start(s: Seq<char>) -> Seq<char>
    decreases s.len(),
{
    if s.len() > 0 && white_space(s.first()) {
        trimmed_start(s.drop_first())
    } else {
        s
    }
}

/// `s` without the white space at its end.
pub open spec fn trimmed_end(s: Seq<char>) -> Seq<char>
    decreases s.len(),
{
    if s.len() > 0 && white_space(s.last()) {
        trimmed_end(s.drop_last())
    } else {
        s
    }
}

/// `s` without the white space at either end.
pub open spec fn trimmed(s: Seq<char>) -> Seq<char> {
    trimmed_end(trimmed_start(s))
}

/// `s` without the run of `c` at its end.
pub open spec fn without_trailing(s: Seq<char>, c: char) -> Seq<char>
    decreases s.len(),
{
    if s.len() > 0 && s.last() == c {
        without_trailing(s.drop_last(), c)
    } else {
        s
    }
}

/// Where `c` first occurs in `s`, or the length of `s` where it does not.
pub open spec fn first_index(s: Seq<char>, c: char) -> int
    decreases s.len(),
{
    if s.len() == 0 || s.first() == c {
        0
    } else {
        1 + first_index(s.drop_first(), c)
    }
}

/// Where `c` last occurs in `s`, or -1 where it does not.
pub open spec fn last_index(s: Seq<char>, c: char) -> int
    decreases s.len(),
{
    if s.len() == 0 {
        -1
    } else if s.last() == c {
        s.len() - 1
    } else {
        last_index(s.drop_last(), c)
    }
}

/// A line that ended in a line feed, without the carriage return before it.
pub open spec fn without_return(line: Seq<char>) -> Seq<char> {
    if line.len() > 0 && line.last() == '\r' {
        line.drop_last()
    } else {
        line
    }
}

/// The lines of `s`, without their endings. A line ends in a line feed, with or
/// without a carriage return before it; the last one may lack that ending.
pub open spec fn lines(s: Seq<char>) -> Seq<Seq<char>>
    decreases s.len(),
    via lines_decreases
{
    let end = first_index(s, '\n');
    if s.len() == 0 {
        seq![]
    } else if end == s.len() {
        seq![s]
    } else {
        seq![without_return(s.take(end))] + lines(s.skip(end + 1))
    }
}

#[via_fn]
proof fn lines_decreases(s: Seq<char>) {
    lemma_first_index_found(s, '\n');
}

/// `parts` one after the other, with `separator` between each and the next.
pub open spec fn joined(parts: Seq<Seq<char>>, separator: Seq<char>) -> Seq<char>
    decreases parts.len(),
{
    if parts.len() == 0 {
        seq![]
    } else if parts.len() == 1 {
        parts[0]
    } else {
        parts[0] + separator + joined(parts.skip(1), separator)
    }
}

/// The texts that a sequence of string slices holds.
pub open spec fn texts(parts: Seq<&str>) -> Seq<Seq<char>> {
    parts.map_values(|part: &str| part@)
}

/// The texts that a sequence of strings holds.
pub open spec fn string_texts(parts: Seq<String>) -> Seq<Seq<char>> {
    parts.map_values(|part: String| part@)
}

/// The text that an optional string holds.
pub open spec fn option_text(text: Option<String>) -> Option<Seq<char>> {
    match text {
        Some(text) => Some(text@),
        None => None,
    }
}

/// The text that an optional string slice holds.
pub open spec fn option_str(text: Option<&str>) -> Option<Seq<char>> {
    match text {
        Some(text) => Some(text@),
        None => None,
    }
}

/// The decimal digits of `n`, without leading zeros.
pub open spec fn decimal(n: nat) -> Seq<char>
    decreases n,
{
    if n < 10 {
        seq![digit(n)]
    } else {
        decimal(n / 10).push(digit(n % 10))
    }
}

/// The decimal digit for `n`.
pub open spec fn digit(n: nat) -> char {
    ('0' as int + n) as char
}

/// The first index is the one at which `c` stands and before which it does not.
pub proof fn lemma_first_index(s: Seq<char>, c: char, n: int)
    requires
        0 <= n <= s.len(),
        n < s.len() ==> s[n] == c,
        forall|i: int| 0 <= i < n ==> s[i] != c,
    ensures
        first_index(s, c) == n,
    decreases s.len(),
{
    if n > 0 {
        assert(s.first() == s[0]);
        assert forall|i: int| 0 <= i < n - 1 implies s.drop_first()[i] != c by {
            assert(s.drop_first()[i] == s[i + 1]);
        }
        lemma_first_index(s.drop_first(), c, n - 1);
    }
}

/// The last index is the one at which `c` stands and behind which it does not.
pub proof fn lemma_last_index(s: Seq<char>, c: char, n: int)
    requires
        -1 <= n < s.len(),
        n >= 0 ==> s[n] == c,
        forall|i: int| n < i < s.len() ==> s[i] != c,
    ensures
        last_index(s, c) == n,
    decreases s.len(),
{
    if n < s.len() - 1 {
        let rest = s.drop_last();
        assert forall|i: int| n < i < rest.len() implies rest[i] != c by {
            assert(rest[i] == s[i]);
        }
        lemma_last_index(rest, c, n);
    }
}

/// Trimming the start drops a run of white space and stops before a character
/// that is none.
pub proof fn lemma_trimmed_start(s: Seq<char>, n: int)
    requires
        0 <= n <= s.len(),
        forall|i: int| 0 <= i < n ==> white_space(#[trigger] s[i]),
        n < s.len() ==> !white_space(s[n]),
    ensures
        trimmed_start(s) == s.skip(n),
    decreases s.len(),
{
    if n > 0 {
        let rest = s.drop_first();
        assert(white_space(s[0]));
        assert forall|i: int| 0 <= i < n - 1 implies white_space(#[trigger] rest[i]) by {
            assert(rest[i] == s[i + 1]);
        }
        lemma_trimmed_start(rest, n - 1);
        assert(rest.skip(n - 1) =~= s.skip(n));
    } else {
        assert(s.skip(0) =~= s);
    }
}

/// Trimming the end drops a run of white space and stops behind a character
/// that is none.
pub proof fn lemma_trimmed_end(s: Seq<char>, n: int)
    requires
        0 <= n <= s.len(),
        forall|i: int| n <= i < s.len() ==> white_space(#[trigger] s[i]),
        n > 0 ==> !white_space(s[n - 1]),
    ensures
        trimmed_end(s) == s.take(n),
    decreases s.len(),
{
    if n < s.len() {
        let rest = s.drop_last();
        assert(white_space(s[s.len() - 1]));
        assert forall|i: int| n <= i < rest.len() implies white_space(#[trigger] rest[i]) by {
            assert(rest[i] == s[i]);
        }
        lemma_trimmed_end(rest, n);
        assert(rest.take(n) =~= s.take(n));
    } else {
        assert(s.take(n) =~= s);
    }
}

/// Where the text that trimming keeps starts and ends.
pub proof fn lemma_kept_range(s: Seq<char>) -> (range: (int, int))
    ensures
        0 <= range.0 <= range.1 <= s.len(),
        forall|i: int| 0 <= i < range.0 ==> white_space(#[trigger] s[i]),
        forall|i: int| range.1 <= i < s.len() ==> white_space(#[trigger] s[i]),
        range.0 < range.1 ==> !white_space(s[range.0]) && !white_space(s[range.1 - 1]),
        trimmed(s) == s.subrange(range.0, range.1),
    decreases s.len(),
{
    if s.len() == 0 {
        assert(trimmed(s) =~= s.subrange(0, 0));
        (0, 0)
    } else if white_space(s.last()) {
        let (start, end) = lemma_kept_range(s.drop_last());
        assert forall|i: int| 0 <= i < start implies white_space(#[trigger] s[i]) by {
            assert(s[i] == s.drop_last()[i]);
        }
        assert forall|i: int| end <= i < s.len() implies white_space(#[trigger] s[i]) by {
            if i < s.len() - 1 {
                assert(s[i] == s.drop_last()[i]);
            }
        }
        lemma_trimmed(s, start, end);
        (start, end)
    } else if white_space(s.first()) {
        let (start, end) = lemma_kept_range(s.drop_first());
        assert forall|i: int| 0 <= i < start + 1 implies white_space(#[trigger] s[i]) by {
            if i > 0 {
                assert(s[i] == s.drop_first()[i - 1]);
            }
        }
        assert forall|i: int| end + 1 <= i < s.len() implies white_space(#[trigger] s[i]) by {
            assert(s[i] == s.drop_first()[i - 1]);
        }
        lemma_trimmed(s, start + 1, end + 1);
        (start + 1, end + 1)
    } else {
        lemma_trimmed(s, 0, s.len() as int);
        (0, s.len() as int)
    }
}

/// Trimming keeps the text between the white space at either end.
pub proof fn lemma_trimmed(s: Seq<char>, start: int, end: int)
    requires
        0 <= start <= end <= s.len(),
        forall|i: int| 0 <= i < start ==> white_space(#[trigger] s[i]),
        forall|i: int| end <= i < s.len() ==> white_space(#[trigger] s[i]),
        start < end ==> !white_space(s[start]) && !white_space(s[end - 1]),
    ensures
        trimmed(s) == s.subrange(start, end),
{
    if start == end {
        lemma_trimmed_start(s, s.len() as int);
        assert(trimmed(s) =~= s.subrange(start, end));
    } else {
        lemma_trimmed_start(s, start);
        let tail = s.skip(start);
        assert forall|i: int| end - start <= i < tail.len() implies white_space(
            #[trigger] tail[i],
        ) by {
            assert(tail[i] == s[i + start]);
        }
        lemma_trimmed_end(tail, end - start);
        assert(tail.take(end - start) =~= s.subrange(start, end));
    }
}

/// White space around a text makes no difference to what trimming it leaves.
pub proof fn law_trimmed_ignores_surrounding_white_space(
    before: Seq<char>,
    s: Seq<char>,
    after: Seq<char>,
)
    requires
        blank(before),
        blank(after),
    ensures
        trimmed(before + s + after) == trimmed(s),
{
    let (start, end) = lemma_kept_range(s);
    let all = before + s + after;
    let n = before.len();
    assert forall|i: int| 0 <= i < n + start implies white_space(#[trigger] all[i]) by {
        if i < n {
            assert(all[i] == before[i]);
        } else {
            assert(all[i] == s[i - n]);
        }
    }
    assert forall|i: int| n + end <= i < all.len() implies white_space(#[trigger] all[i]) by {
        if i < n + s.len() {
            assert(all[i] == s[i - n]);
        } else {
            assert(all[i] == after[i - n - s.len()]);
        }
    }
    lemma_trimmed(all, n + start, n + end);
    assert(all.subrange(n + start, n + end) =~= s.subrange(start, end));
}

/// Trimmed text has no white space at either end, so trimming it again changes
/// nothing.
pub proof fn law_trimmed_has_no_white_space_at_its_ends(s: Seq<char>)
    ensures
        trimmed(s).len() > 0 ==> !white_space(trimmed(s).first()) && !white_space(
            trimmed(s).last(),
        ),
        trimmed(trimmed(s)) == trimmed(s),
{
    let (start, end) = lemma_kept_range(s);
    let kept = trimmed(s);
    lemma_trimmed(kept, 0, kept.len() as int);
    assert(kept.subrange(0, kept.len() as int) =~= kept);
}

/// Text that ends in a line feed and the text after it have their lines apart.
pub proof fn lemma_lines_after_line_feed(s: Seq<char>, rest: Seq<char>)
    requires
        s.len() > 0,
        s.last() == '\n',
    ensures
        lines(s + rest) == lines(s) + lines(rest),
    decreases s.len(),
{
    let end = first_index(s, '\n');
    lemma_first_index_found(s, '\n');
    lemma_first_index(s + rest, '\n', end);
    assert((s + rest).take(end) =~= s.take(end));
    let line = without_return(s.take(end));
    let tail = s.skip(end + 1);
    assert((s + rest).skip(end + 1) =~= tail + rest);
    if tail.len() > 0 {
        lemma_lines_after_line_feed(tail, rest);
        assert(seq![line] + (lines(tail) + lines(rest)) =~= seq![line] + lines(tail) + lines(
            rest,
        ));
    } else {
        assert(tail + rest =~= rest);
        assert(lines(tail) =~= seq![]);
        assert(seq![line] + lines(rest) =~= seq![line] + lines(tail) + lines(rest));
    }
}

/// The first index is within bounds, `c` stands there, and not before it.
pub proof fn lemma_first_index_found(s: Seq<char>, c: char)
    ensures
        0 <= first_index(s, c) <= s.len(),
        first_index(s, c) < s.len() ==> s[first_index(s, c)] == c,
        forall|i: int| 0 <= i < first_index(s, c) ==> s[i] != c,
        s.contains(c) ==> first_index(s, c) < s.len(),
    decreases s.len(),
{
    if s.len() > 0 && s.first() != c {
        let rest = s.drop_first();
        lemma_first_index_found(rest, c);
        assert forall|i: int| 0 <= i < first_index(s, c) implies s[i] != c by {
            if i > 0 {
                assert(s[i] == rest[i - 1]);
            }
        }
    }
}

/// Text that is not empty has a line.
pub proof fn lemma_lines_not_empty(s: Seq<char>)
    requires
        s.len() > 0,
    ensures
        lines(s).len() > 0,
{
    lemma_first_index_found(s, '\n');
}

/// Joining the lines of a text gives the text back, less the line feed at its
/// end, where it holds no carriage return.
pub proof fn law_joined_lines(s: Seq<char>)
    requires
        !s.contains('\r'),
    ensures
        joined(lines(s.push('\n')), seq!['\n']) == s,
    decreases s.len(),
{
    let all = s.push('\n');
    let end = first_index(s, '\n');
    lemma_first_index_found(s, '\n');
    lemma_first_index(all, '\n', end);
    let line = all.take(end);
    let tail = all.skip(end + 1);
    assert(without_return(line) == line) by {
        if end > 0 {
            assert(line.last() == s[end - 1]);
        }
    }
    if end < s.len() {
        let rest = s.skip(end + 1);
        assert(tail =~= rest.push('\n'));
        assert(!rest.contains('\r')) by {
            assert forall|i: int| 0 <= i < rest.len() implies rest[i] != '\r' by {
                assert(rest[i] == s[i + end + 1]);
            }
        }
        law_joined_lines(rest);
        assert(lines(tail).len() > 0);
        assert((seq![line] + lines(tail)).skip(1) =~= lines(tail));
        assert(joined(lines(all), seq!['\n']) =~= line + seq!['\n'] + rest);
        assert(line + seq!['\n'] + rest =~= s);
    } else {
        assert(tail =~= seq![]);
        assert(lines(tail) =~= seq![]);
        assert(lines(all) =~= seq![line]);
        assert(line =~= s);
    }
}

/// A line feed behind text that lacks one ends its last line and adds none.
pub proof fn lemma_lines_of_closed_text(s: Seq<char>)
    requires
        s.len() > 0,
        s.last() != '\n',
        s.last() != '\r',
    ensures
        lines(s.push('\n')) == lines(s),
    decreases s.len(),
{
    let all = s.push('\n');
    let end = first_index(s, '\n');
    lemma_first_index_found(s, '\n');
    lemma_first_index(all, '\n', end);
    if end < s.len() {
        let rest = s.skip(end + 1);
        assert(rest.len() > 0 && rest.last() == s.last());
        lemma_lines_of_closed_text(rest);
        assert(all.skip(end + 1) =~= rest.push('\n'));
        assert(all.take(end) =~= s.take(end));
    } else {
        assert(all.take(end) =~= s);
        assert(all.skip(end + 1) =~= seq![]);
        assert(lines(all.skip(end + 1)) =~= seq![]);
        assert(lines(all) =~= seq![s]);
    }
}

/// The lines of the start of a text are starts of the lines of the text, where it
/// holds no carriage return.
pub proof fn lemma_lines_of_start(s: Seq<char>, rest: Seq<char>, i: int)
    requires
        !s.contains('\r'),
        !rest.contains('\r'),
        0 <= i < lines(s).len(),
    ensures
        i < lines(s + rest).len(),
        lines(s)[i].is_prefix_of(lines(s + rest)[i]),
    decreases s.len(),
{
    let all = s + rest;
    let end = first_index(s, '\n');
    lemma_first_index_found(s, '\n');
    if end < s.len() {
        lemma_first_index(all, '\n', end);
        assert(all.take(end) =~= s.take(end));
        let tail = s.skip(end + 1);
        assert(all.skip(end + 1) =~= tail + rest);
        if i > 0 {
            assert(!tail.contains('\r')) by {
                assert forall|k: int| 0 <= k < tail.len() implies tail[k] != '\r' by {
                    assert(tail[k] == s[k + end + 1]);
                }
            }
            lemma_lines_of_start(tail, rest, i - 1);
        } else {
            let line = without_return(s.take(end));
            assert(line.subrange(0, line.len() as int) =~= line);
        }
    } else {
        let stop = first_index(all, '\n');
        lemma_first_index_found(all, '\n');
        assert(stop >= s.len()) by {
            if stop < s.len() {
                assert(s[stop] == '\n');
            }
        }
        let line = all.take(stop);
        assert(without_return(line) == line) by {
            if stop > 0 {
                assert(line.last() == all[stop - 1]);
            }
        }
        if stop == all.len() {
            assert(line =~= all);
        }
        assert(line.subrange(0, s.len() as int) =~= s);
        assert(lines(s) =~= seq![s]);
        assert(lines(all)[0] == line);
    }
}

/// Whether `c` is white space.
pub fn is_white_space(c: char) -> (found: bool)
    ensures
        found == white_space(c),
{
    ('\u{9}' <= c && c <= '\u{d}') || c == ' ' || c == '\u{85}' || c == '\u{a0}' || c == '\u{1680}'
        || ('\u{2000}' <= c && c <= '\u{200a}') || c == '\u{2028}' || c == '\u{2029}' || c
        == '\u{202f}' || c == '\u{205f}' || c == '\u{3000}'
}

/// The characters of `s`, in order.
pub fn chars_of(s: &str) -> (chars: Vec<char>)
    ensures
        chars@ == s@,
{
    let mut chars: Vec<char> = Vec::new();
    for c in it: s.chars()
        invariant
            chars@ == it.seq().take(it.index() as int),
    {
        chars.push(c);
    }
    chars
}

/// `s` without the white space at either end.
pub fn trim<'a>(s: &'a str) -> (rest: &'a str)
    ensures
        rest@ == trimmed(s@),
{
    let chars = chars_of(s);
    let mut start: usize = 0;
    while start < chars.len() && is_white_space(chars[start])
        invariant
            chars@ == s@,
            start <= chars.len(),
            forall|i: int| 0 <= i < start ==> white_space(#[trigger] s@[i]),
        decreases chars.len() - start,
    {
        start += 1;
    }
    let mut end: usize = chars.len();
    while end > start && is_white_space(chars[end - 1])
        invariant
            chars@ == s@,
            start <= end <= chars.len(),
            forall|i: int| end <= i < chars.len() ==> white_space(#[trigger] s@[i]),
        decreases end,
    {
        end -= 1;
    }
    proof {
        lemma_trimmed_start(s@, start as int);
        let tail = s@.skip(start as int);
        assert forall|i: int| end - start <= i < tail.len() implies white_space(
            #[trigger] tail[i],
        ) by {
            assert(tail[i] == s@[i + start]);
        }
        lemma_trimmed_end(tail, end - start);
        assert(tail.take(end - start) =~= s@.subrange(start as int, end as int));
    }
    s.substring_char(start, end)
}

/// `s` without the run of `c` at its end.
pub fn trim_end_matches<'a>(s: &'a str, c: char) -> (rest: &'a str)
    ensures
        rest@ == without_trailing(s@, c),
{
    let chars = chars_of(s);
    let mut end: usize = chars.len();
    assert(s@.take(end as int) =~= s@);
    while end > 0 && chars[end - 1] == c
        invariant
            chars@ == s@,
            end <= chars.len(),
            without_trailing(s@.take(end as int), c) == without_trailing(s@, c),
        decreases end,
    {
        assert(s@.take(end as int).drop_last() =~= s@.take(end - 1));
        end -= 1;
    }
    assert(s@.take(end as int) =~= s@.subrange(0, end as int));
    s.substring_char(0, end)
}

/// Whether `s` starts with `prefix`.
pub fn starts_with(s: &str, prefix: &str) -> (found: bool)
    ensures
        found == prefix@.is_prefix_of(s@),
{
    let chars = chars_of(s);
    let wanted = chars_of(prefix);
    if chars.len() < wanted.len() {
        return false;
    }
    let mut i: usize = 0;
    while i < wanted.len()
        invariant
            chars@ == s@,
            wanted@ == prefix@,
            i <= wanted.len() <= chars.len(),
            forall|k: int| 0 <= k < i ==> s@[k] == prefix@[k],
        decreases wanted.len() - i,
    {
        if chars[i] != wanted[i] {
            assert(s@.subrange(0, prefix@.len() as int)[i as int] != prefix@[i as int]);
            return false;
        }
        i += 1;
    }
    true
}

/// Whether `a` and `b` are the same text.
pub fn same_text(a: &str, b: &str) -> (same: bool)
    ensures
        same == (a@ == b@),
{
    let same = starts_with(a, b) && starts_with(b, a);
    proof {
        assert(a@.subrange(0, a@.len() as int) =~= a@);
        assert(b@.subrange(0, b@.len() as int) =~= b@);
        if same {
            assert(a@ =~= b@);
        }
    }
    same
}

/// The lines of `s`, without their endings.
pub fn split_lines<'a>(s: &'a str) -> (found: Vec<&'a str>)
    ensures
        texts(found@) == lines(s@),
{
    let chars = chars_of(s);
    let mut found: Vec<&'a str> = Vec::new();
    let mut start: usize = 0;
    let mut i: usize = 0;
    assert(s@.skip(0) =~= s@);
    assert(texts(found@) + lines(s@) =~= lines(s@));
    while i < chars.len()
        invariant
            chars@ == s@,
            start <= i <= chars.len(),
            forall|k: int| start <= k < i ==> s@[k] != '\n',
            texts(found@) + lines(s@.skip(start as int)) == lines(s@),
        decreases chars.len() - i,
    {
        if chars[i] == '\n' {
            let end: usize = if i > start && chars[i - 1] == '\r' {
                i - 1
            } else {
                i
            };
            let line = s.substring_char(start, end);
            proof {
                let rest = s@.skip(start as int);
                assert forall|k: int| 0 <= k < i - start implies rest[k] != '\n' by {
                    assert(rest[k] == s@[k + start]);
                }
                lemma_first_index(rest, '\n', i - start);
                assert(without_return(rest.take(i - start)) =~= line@);
                assert(rest.skip(i - start + 1) =~= s@.skip(i + 1));
                assert(texts(found@.push(line)) =~= texts(found@).push(line@));
                assert(texts(found@).push(line@) + lines(s@.skip(i + 1)) =~= texts(found@) + (
                seq![line@] + lines(s@.skip(i + 1))));
            }
            found.push(line);
            start = i + 1;
        }
        i += 1;
    }
    let ghost rest = s@.skip(start as int);
    if start < chars.len() {
        let line = s.substring_char(start, chars.len());
        proof {
            assert forall|k: int| 0 <= k < rest.len() implies rest[k] != '\n' by {
                assert(rest[k] == s@[k + start]);
            }
            lemma_first_index(rest, '\n', rest.len() as int);
            assert(line@ =~= rest);
            assert(texts(found@.push(line)) =~= texts(found@) + seq![line@]);
        }
        found.push(line);
    } else {
        assert(rest =~= seq![]);
        assert(texts(found@) + lines(rest) =~= texts(found@));
    }
    found
}

/// What joining one part more adds.
pub proof fn lemma_joined_push(parts: Seq<Seq<char>>, separator: Seq<char>, part: Seq<char>)
    ensures
        joined(parts.push(part), separator) == if parts.len() == 0 {
            part
        } else {
            joined(parts, separator) + separator + part
        },
    decreases parts.len(),
{
    if parts.len() == 1 {
        assert(parts.push(part).skip(1) =~= seq![part]);
        assert(joined(seq![part], separator) == part);
    } else if parts.len() > 1 {
        lemma_joined_push(parts.skip(1), separator, part);
        assert(parts.push(part).skip(1) =~= parts.skip(1).push(part));
        assert(joined(parts.push(part), separator) =~= joined(parts, separator) + separator
            + part);
    }
}

/// `parts` one after the other, with `separator` between each and the next.
pub fn join(parts: &Vec<&str>, separator: &str) -> (all: String)
    ensures
        all@ == joined(texts(parts@), separator@),
{
    let mut all = String::new();
    let mut i: usize = 0;
    while i < parts.len()
        invariant
            i <= parts.len(),
            all@ == joined(texts(parts@).take(i as int), separator@),
        decreases parts.len() - i,
    {
        proof {
            let done = texts(parts@).take(i as int);
            lemma_joined_push(done, separator@, parts@[i as int]@);
            assert(texts(parts@).take(i + 1) =~= done.push(parts@[i as int]@));
        }
        if i > 0 {
            all.append(separator);
        }
        all.append(parts[i]);
        i += 1;
    }
    assert(texts(parts@).take(i as int) =~= texts(parts@));
    all
}

/// The decimal digits of `n`, without leading zeros.
pub fn decimal_text(n: u64) -> (text: String)
    ensures
        text@ == decimal(n as nat),
    decreases n,
{
    let digits = "0123456789";
    proof {
        reveal_strlit("0123456789");
    }
    let last: usize = (n % 10) as usize;
    let end = digits.substring_char(last, last + 1);
    assert(end@ =~= seq![digit(n as nat % 10)]);
    if n < 10 {
        end.to_owned()
    } else {
        let mut text = decimal_text(n / 10);
        text.append(end);
        assert(text@ =~= decimal(n as nat / 10).push(digit(n as nat % 10)));
        text
    }
}

/// White space, by code point: the tab and the line and page breaks of ASCII, the
/// space, and the spaces and separators of Unicode.
pub proof fn law_white_space_by_code_point(c: char)
    ensures
        ({
            let code = c as u32;
            white_space(c) <==> {
                ||| 9 <= code <= 13
                ||| code == 32
                ||| code == 0x85
                ||| code == 0xa0
                ||| code == 0x1680
                ||| 0x2000 <= code <= 0x200a
                ||| code == 0x2028
                ||| code == 0x2029
                ||| code == 0x202f
                ||| code == 0x205f
                ||| code == 0x3000
            }
        }),
{
}

/// Trimming keeps exactly what stands between the white space at either end:
/// nothing inside it is lost, and nothing around it is left.
pub proof fn law_trimmed_keeps_what_is_inside(
    before: Seq<char>,
    kept: Seq<char>,
    after: Seq<char>,
)
    requires
        forall|i: int| 0 <= i < before.len() ==> white_space(#[trigger] before[i]),
        forall|i: int| 0 <= i < after.len() ==> white_space(#[trigger] after[i]),
        kept.len() > 0 ==> !white_space(kept[0]) && !white_space(kept[kept.len() - 1]),
    ensures
        trimmed(before + kept + after) == kept,
{
    law_trimmed_ignores_surrounding_white_space(before, kept, after);
    lemma_trimmed(kept, 0, kept.len() as int);
    assert(kept.subrange(0, kept.len() as int) =~= kept);
}

/// A run of `c` at the end is dropped whole, and nothing else is.
pub proof fn law_trailing_run_is_dropped(kept: Seq<char>, run: Seq<char>, c: char)
    requires
        forall|i: int| 0 <= i < run.len() ==> #[trigger] run[i] == c,
        kept.len() > 0 ==> kept[kept.len() - 1] != c,
    ensures
        without_trailing(kept + run, c) == kept,
    decreases run.len(),
{
    let all = kept + run;
    if run.len() > 0 {
        assert(all.last() == run[run.len() - 1]);
        assert(all.drop_last() =~= kept + run.drop_last());
        law_trailing_run_is_dropped(kept, run.drop_last(), c);
    } else {
        assert(all =~= kept);
    }
}

/// A text is its first line, the ending of that line, and the lines behind it. A
/// line feed ends a line, and so does a carriage return with a line feed; text
/// without a line feed is one line, and no text is no line.
pub proof fn law_lines_are_split_at_line_feeds(line: Seq<char>, rest: Seq<char>)
    requires
        forall|i: int| 0 <= i < line.len() ==> #[trigger] line[i] != '\n',
    ensures
        line.len() > 0 ==> lines(line) == seq![line],
        lines(Seq::<char>::empty()).len() == 0,
        line.len() > 0 && line[line.len() - 1] == '\r' || lines(line + seq!['\n'] + rest) == seq![
            line,
        ] + lines(rest),
        lines(line + seq!['\r', '\n'] + rest) == seq![line] + lines(rest),
{
    let n = line.len() as int;
    lemma_first_index(line, '\n', n);
    let fed = line + seq!['\n'] + rest;
    assert forall|i: int| 0 <= i < n implies fed[i] != '\n' by {
        assert(fed[i] == line[i]);
    }
    lemma_first_index(fed, '\n', n);
    assert(fed.take(n) =~= line);
    assert(fed.skip(n + 1) =~= rest);
    let returned = line + seq!['\r', '\n'] + rest;
    assert forall|i: int| 0 <= i < n + 1 implies returned[i] != '\n' by {
        if i < n {
            assert(returned[i] == line[i]);
        }
    }
    lemma_first_index(returned, '\n', n + 1);
    assert(returned.take(n + 1) =~= line.push('\r'));
    assert(line.push('\r').drop_last() =~= line);
    assert(returned.skip(n + 2) =~= rest);
}

/// Joining no parts gives nothing, one part itself, and two lots of parts the one
/// and the other with the separator between them.
pub proof fn law_joined_lots(low: Seq<Seq<char>>, high: Seq<Seq<char>>, separator: Seq<char>)
    ensures
        low.len() == 0 ==> joined(low, separator).len() == 0,
        low.len() == 1 ==> joined(low, separator) == low[0],
        low.len() > 0 && high.len() > 0 ==> joined(low + high, separator) == joined(low, separator)
            + separator + joined(high, separator),
    decreases low.len(),
{
    let all = low + high;
    if low.len() == 1 && high.len() > 0 {
        assert(all.skip(1) =~= high);
        assert(all[0] == low[0]);
    } else if low.len() > 1 && high.len() > 0 {
        law_joined_lots(low.skip(1), high, separator);
        assert(all.skip(1) =~= low.skip(1) + high);
        assert(all[0] == low[0]);
        assert(joined(all, separator) =~= joined(low, separator) + separator + joined(
            high,
            separator,
        ));
    }
}

/// A number below ten is written as its digit, and any other as the number of its
/// tens with the digit of its ones behind it.
pub proof fn law_decimal_digits(tens: nat, ones: nat)
    requires
        ones < 10,
    ensures
        decimal(ones).len() == 1,
        decimal(ones)[0] as u32 == 48 + ones,
        tens > 0 ==> decimal(10 * tens + ones) == decimal(tens) + decimal(ones),
{
    let n = 10 * tens + ones;
    assert(n / 10 == tens && n % 10 == ones);
    if tens > 0 {
        assert(decimal(tens) + decimal(ones) =~= decimal(tens).push(digit(ones)));
    }
}

/// The texts of strings are those of each of them, in order.
pub proof fn law_texts_are_those_of_the_strings(
    slices: Seq<&str>,
    strings: Seq<String>,
    slice: Option<&str>,
    string: Option<String>,
)
    ensures
        texts(slices).len() == slices.len(),
        forall|i: int| 0 <= i < slices.len() ==> #[trigger] texts(slices)[i] == slices[i]@,
        string_texts(strings).len() == strings.len(),
        forall|i: int|
            0 <= i < strings.len() ==> #[trigger] string_texts(strings)[i] == strings[i]@,
        option_str(slice) is Some <==> slice is Some,
        slice matches Some(text) ==> option_str(slice)->Some_0 == text@,
        option_text(string) is Some <==> string is Some,
        string matches Some(text) ==> option_text(string)->Some_0 == text@,
{
}

} // verus!

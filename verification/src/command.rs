//! The command in a model's reply.
//!
//! The model is told to answer with the bare command. It may wrap the command
//! in Markdown all the same: in a fenced code block, or in single backticks.

use crate::text::{
    blank, first_index, join, joined, law_joined_lines,
    law_trimmed_has_no_white_space_at_its_ends, law_trimmed_ignores_surrounding_white_space,
    lemma_first_index, lemma_first_index_found, lemma_kept_range, lemma_lines_after_line_feed,
    lemma_lines_not_empty, lemma_lines_of_closed_text, lemma_lines_of_start, lemma_trimmed, lines,
    split_lines, starts_with, texts, trim, trimmed, white_space, without_return,
};
use vstd::prelude::*;

verus! {

/// The marker that opens and closes a fenced code block.
pub open spec fn fence() -> Seq<char> {
    seq!['`', '`', '`']
}

/// Whether `s` opens with a fence.
pub open spec fn fenced(s: Seq<char>) -> bool {
    fence().is_prefix_of(s)
}

/// Whether `s` is something in single backticks.
pub open spec fn wrapped(s: Seq<char>) -> bool {
    s.len() > 2 && s.first() == '`' && s.last() == '`'
}

/// The lines before the first one that opens with a fence.
pub open spec fn before_fence(lines: Seq<Seq<char>>) -> Seq<Seq<char>>
    decreases lines.len(),
{
    if lines.len() == 0 || fenced(lines[0]) {
        seq![]
    } else {
        seq![lines[0]] + before_fence(lines.skip(1))
    }
}

/// The command in the reply `raw`: the body of a fenced code block, what stands
/// in single backticks, or the reply itself, without white space around it.
///
/// The line that opens a block is dropped whole, with any language tag on it,
/// and so is the line that closes it, with all that follows.
pub open spec fn cleaned(raw: Seq<char>) -> Seq<char> {
    let s = trimmed(raw);
    if fenced(s) {
        trimmed(joined(before_fence(lines(s).skip(1)), seq!['\n']))
    } else if wrapped(s) {
        trimmed(s.subrange(1, s.len() - 1))
    } else {
        s
    }
}

proof fn lemma_before_fence_stops(lines: Seq<Seq<char>>, n: int)
    requires
        0 <= n <= lines.len(),
        n < lines.len() ==> fenced(lines[n]),
        forall|i: int| 0 <= i < n ==> !fenced(#[trigger] lines[i]),
    ensures
        before_fence(lines) == lines.take(n),
    decreases n,
{
    if n > 0 {
        let rest = lines.skip(1);
        assert forall|i: int| 0 <= i < n - 1 implies !fenced(#[trigger] rest[i]) by {
            assert(rest[i] == lines[i + 1]);
        }
        assert(!fenced(lines[0]));
        lemma_before_fence_stops(rest, n - 1);
        assert(seq![lines[0]] + rest.take(n - 1) =~= lines.take(n));
    } else {
        assert(lines.take(0) =~= seq![]);
    }
}

/// The command in the reply `raw`, without the Markdown that the model may have
/// put around it.
pub fn clean_command(raw: &str) -> (command: String)
    ensures
        command@ == cleaned(raw@),
        trimmed(raw@).len() == 0 || trimmed(raw@)[0] != '`' ==> command@ == trimmed(raw@),
{
    let s = trim(raw);
    proof {
        law_bare_command_is_kept(raw@);
        reveal_strlit("```");
        reveal_strlit("\n");
        assert("```"@ =~= fence());
        assert("\n"@ =~= seq!['\n']);
    }

    // Code fence, with an optional language tag on its opening line.
    if starts_with(s, "```") {
        let all = split_lines(s);
        let mut inner: Vec<&str> = Vec::new();
        let mut i: usize = 1;
        while i < all.len() && !starts_with(all[i], "```")
            invariant
                "```"@ == fence(),
                1 <= i,
                i <= all.len() || inner@.len() == 0,
                inner@.len() == i - 1,
                forall|k: int| 0 <= k < inner@.len() ==> inner@[k] == all@[k + 1],
                forall|k: int| 0 <= k < inner@.len() ==> !fenced(#[trigger] inner@[k]@),
            decreases all.len() - i,
        {
            inner.push(all[i]);
            i += 1;
        }
        proof {
            let body = lines(s@).skip(1);
            assert(texts(all@).len() == all@.len());
            lemma_lines_not_empty(s@);
            assert forall|k: int| 0 <= k < inner@.len() implies !fenced(#[trigger] body[k]) by {
                assert(body[k] == inner@[k]@);
            }
            if i < all@.len() {
                assert(body[i - 1] == all@[i as int]@);
            }
            lemma_before_fence_stops(body, i - 1);
            assert(texts(inner@) =~= body.take(i - 1));
        }
        return trim(join(&inner, "\n").as_str()).to_owned();
    }

    // Single backticks.
    let n = s.unicode_len();
    if n > 2 && s.get_char(0) == '`' && s.get_char(n - 1) == '`' {
        return trim(s.substring_char(1, n - 1)).to_owned();
    }
    s.to_owned()
}

/// The command in a reply has no white space at either end.
pub proof fn law_cleaned_is_trimmed(raw: Seq<char>)
    ensures
        trimmed(cleaned(raw)) == cleaned(raw),
{
    let s = trimmed(raw);
    law_trimmed_has_no_white_space_at_its_ends(raw);
    law_trimmed_has_no_white_space_at_its_ends(
        joined(before_fence(lines(s).skip(1)), seq!['\n']),
    );
    law_trimmed_has_no_white_space_at_its_ends(s.subrange(1, s.len() - 1));
}

/// White space around a reply makes no difference to the command in it.
pub proof fn law_cleaned_ignores_surrounding_white_space(
    before: Seq<char>,
    raw: Seq<char>,
    after: Seq<char>,
)
    requires
        blank(before),
        blank(after),
    ensures
        cleaned(before + raw + after) == cleaned(raw),
{
    law_trimmed_ignores_surrounding_white_space(before, raw, after);
}

/// Whether `s` starts with three backticks, character by character.
proof fn lemma_fenced(s: Seq<char>)
    ensures
        fenced(s) <==> s.len() >= 3 && s[0] == '`' && s[1] == '`' && s[2] == '`',
{
    if s.len() >= 3 {
        assert(s.subrange(0, 3)[0] == s[0]);
        assert(s.subrange(0, 3)[1] == s[1]);
        assert(s.subrange(0, 3)[2] == s[2]);
        if s[0] == '`' && s[1] == '`' && s[2] == '`' {
            assert(s.subrange(0, 3) =~= fence());
        }
    }
}

/// A bare command comes out as it is, less the white space around it. A command is
/// bare that does not start with a backtick, and so is one that starts with one or
/// two of them but does not stand in a pair.
pub proof fn law_bare_command_is_kept(raw: Seq<char>)
    ensures
        ({
            let s = trimmed(raw);
            &&& s.len() == 0 || s[0] != '`' ==> cleaned(raw) == s
            &&& s.len() <= 2 ==> cleaned(raw) == s
            &&& s.len() > 2 && s[s.len() - 1] != '`' && (s[1] != '`' || s[2] != '`') ==> cleaned(
                raw,
            ) == s
        }),
{
    lemma_fenced(trimmed(raw));
}

/// What stands in a pair of backticks that opens no code block comes out as it is,
/// less the white space around it.
pub proof fn law_only_the_backticks_are_dropped(raw: Seq<char>)
    ensures
        ({
            let s = trimmed(raw);
            let n = s.len() as int;
            s.len() > 2 && s[0] == '`' && s[n - 1] == '`' && (s[1] != '`' || s[2] != '`')
                ==> cleaned(raw) == trimmed(s.subrange(1, n - 1))
        }),
{
    lemma_fenced(trimmed(raw));
}

/// Of a reply that opens with three backticks the lines from the second on count,
/// up to the `n`th, which is the first that opens with three backticks again, or
/// the end.
pub proof fn law_lines_of_a_code_block(raw: Seq<char>, n: int)
    requires
        ({
            let s = trimmed(raw);
            let all = lines(s);
            &&& s.len() >= 3 && s[0] == '`' && s[1] == '`' && s[2] == '`'
            &&& 1 <= n <= all.len()
            &&& forall|i: int|
                1 <= i < n ==> {
                    let line = #[trigger] all[i];
                    line.len() < 3 || line[0] != '`' || line[1] != '`' || line[2] != '`'
                }
            &&& n < all.len() ==> all[n].len() >= 3 && all[n][0] == '`' && all[n][1] == '`'
                && all[n][2] == '`'
        }),
    ensures
        cleaned(raw) == trimmed(joined(lines(trimmed(raw)).subrange(1, n), seq!['\n'])),
{
    let s = trimmed(raw);
    let all = lines(s);
    let body = all.skip(1);
    lemma_fenced(s);
    assert forall|i: int| 0 <= i < n - 1 implies !fenced(#[trigger] body[i]) by {
        assert(body[i] == all[i + 1]);
        lemma_fenced(body[i]);
    }
    if n < all.len() {
        lemma_fenced(all[n]);
        assert(body[n - 1] == all[n]);
    }
    lemma_before_fence_stops(body, n - 1);
    assert(body.take(n - 1) =~= all.subrange(1, n));
}

/// Cleaning a command that was cleaned changes nothing, unless what came out
/// opens with a fence or stands in backticks itself.
pub proof fn law_cleaned_twice(raw: Seq<char>)
    requires
        ({
            let s = cleaned(raw);
            ||| s.len() <= 2
            ||| s[0] != '`'
            ||| s[s.len() - 1] != '`' && (s[1] != '`' || s[2] != '`')
        }),
    ensures
        cleaned(cleaned(raw)) == cleaned(raw),
{
    law_cleaned_is_trimmed(raw);
    law_bare_command_is_kept(cleaned(raw));
}

/// A command in single backticks comes out without them and without the white
/// space inside them.
pub proof fn law_backticks_are_dropped(command: Seq<char>)
    requires
        command.len() > 0,
        command[0] != '`' || (command.len() > 1 && command[1] != '`'),
    ensures
        cleaned(seq!['`'] + command + seq!['`']) == trimmed(command),
{
    let s = seq!['`'] + command + seq!['`'];
    assert(s[1] == command[0]);
    assert(command.len() > 1 ==> s[2] == command[1]);
    lemma_fenced(s);
    lemma_trimmed(s, 0, s.len() as int);
    assert(s.subrange(0, s.len() as int) =~= s);
    assert(s.subrange(1, s.len() - 1) =~= command);
}

/// The reply that holds `body` in a fenced code block with the tag `tag`, and
/// `rest` behind the closing fence.
pub open spec fn code_block(tag: Seq<char>, body: Seq<char>, rest: Seq<char>) -> Seq<char> {
    seq!['`', '`', '`'] + tag + seq!['\n'] + body + seq!['\n', '`', '`', '`'] + rest
}

/// Whether no line of `body` starts with three backticks.
pub open spec fn holds_no_fence(body: Seq<char>) -> bool {
    forall|i: int|
        0 <= i && i + 2 < body.len() && (i == 0 || body[i - 1] == '\n')
            ==> #[trigger] body[i] != '`' || body[i + 1] != '`' || body[i + 2] != '`'
}

proof fn lemma_lines_without_fence(s: Seq<char>, i: int)
    requires
        holds_no_fence(s),
        0 <= i < lines(s).len(),
    ensures
        !fenced(lines(s)[i]),
    decreases s.len(),
{
    let end = first_index(s, '\n');
    lemma_first_index_found(s, '\n');
    lemma_fenced(lines(s)[i]);
    if i == 0 {
        let line = lines(s)[0];
        assert(forall|k: int| 0 <= k < line.len() ==> line[k] == s[k]);
        assert(line.len() <= s.len());
        if line.len() >= 3 {
            assert(s[0] != '`' || s[1] != '`' || s[2] != '`');
        }
    } else {
        let rest = s.skip(end + 1);
        assert forall|k: int|
            0 <= k && k + 2 < rest.len() && (k == 0 || rest[k - 1]
                == '\n') implies #[trigger] rest[k] != '`' || rest[k + 1] != '`' || rest[k + 2] != '`' by {
            let at = k + end + 1;
            assert(s[at] != '`' || s[at + 1] != '`' || s[at + 2] != '`');
        }
        lemma_lines_without_fence(rest, i - 1);
        assert(lines(s)[i] == lines(rest)[i - 1]);
    }
}

proof fn lemma_closed_body_without_fence(body: Seq<char>)
    requires
        holds_no_fence(body),
    ensures
        forall|i: int|
            0 <= i < lines(body.push('\n')).len() ==> !fenced(
                #[trigger] lines(body.push('\n'))[i],
            ),
{
    let s = body.push('\n');
    assert forall|k: int|
        0 <= k && k + 2 < s.len() && (k == 0 || s[k - 1] == '\n') implies #[trigger] s[k] != '`'
        || s[k + 1] != '`' || s[k + 2] != '`' by {
        if k + 2 < body.len() {
            assert(body[k] != '`' || body[k + 1] != '`' || body[k + 2] != '`');
        }
    }
    assert forall|i: int| 0 <= i < lines(s).len() implies !fenced(#[trigger] lines(s)[i]) by {
        lemma_lines_without_fence(s, i);
    }
}

proof fn lemma_fenced_first_line(s: Seq<char>)
    requires
        fenced(s),
    ensures
        lines(s).len() > 0,
        fenced(lines(s)[0]),
{
    let end = first_index(s, '\n');
    lemma_first_index_found(s, '\n');
    assert(s.subrange(0, 3) == fence());
    assert(s[0] == s.subrange(0, 3)[0] && s[1] == s.subrange(0, 3)[1] && s[2] == s.subrange(
        0,
        3,
    )[2]);
    assert(end >= 3);
    if end < s.len() {
        let line = s.take(end);
        let kept = without_return(line);
        if kept != line {
            assert(line.last() == s[end - 1]);
            assert(end > 3);
        }
        assert(kept.subrange(0, 3) =~= fence());
    }
}

/// A fenced code block comes out as the lines of its body: neither the tag of
/// the opening fence nor anything behind the closing fence is left.
pub proof fn law_code_block_is_unwrapped(tag: Seq<char>, body: Seq<char>, rest: Seq<char>)
    requires
        !tag.contains('\n'),
        holds_no_fence(body),
    ensures
        cleaned(code_block(tag, body, rest)) == trimmed(
            joined(lines(body.push('\n')), seq!['\n']),
        ),
{
    lemma_closed_body_without_fence(body);
    let raw = code_block(tag, body, rest);
    let inner = body.push('\n');
    let close = 4 + tag.len() as int + inner.len();
    let (start, end) = lemma_kept_range(raw);
    assert(raw[0] == '`');
    assert(raw[close + 2] == '`');
    assert(start == 0 && end >= close + 3);
    let s = trimmed(raw);
    let closing = s.skip(close);
    assert(s.subrange(0, 3) =~= fence());
    assert(closing.subrange(0, 3) =~= fence());
    assert forall|i: int| 0 <= i < 3 + tag.len() implies s[i] != '\n' by {
        if i >= 3 {
            assert(s[i] == tag[i - 3]);
        }
    }
    lemma_first_index(s, '\n', 3 + tag.len() as int);
    let found = lines(s).skip(1);
    assert(s.skip(4 + tag.len() as int) =~= inner + closing);
    assert(found =~= lines(inner + closing));
    lemma_lines_after_line_feed(inner, closing);
    lemma_fenced_first_line(closing);
    let n = lines(inner).len() as int;
    assert forall|i: int| 0 <= i < n implies !fenced(#[trigger] found[i]) by {
        assert(found[i] == lines(inner)[i]);
    }
    assert(found[n] == lines(closing)[0]);
    lemma_before_fence_stops(found, n);
    assert(found.take(n) =~= lines(inner));
}

/// A fenced code block whose body holds no carriage return comes out as that
/// body, less the white space around it.
pub proof fn law_code_block_gives_its_body(tag: Seq<char>, body: Seq<char>, rest: Seq<char>)
    requires
        !tag.contains('\n'),
        !body.contains('\r'),
        holds_no_fence(body),
    ensures
        cleaned(code_block(tag, body, rest)) == trimmed(body),
{
    law_code_block_is_unwrapped(tag, body, rest);
    law_joined_lines(body);
}

/// A code block that is never closed comes out as its body too, where that holds
/// no carriage return.
pub proof fn law_open_code_block_gives_its_body(tag: Seq<char>, body: Seq<char>)
    requires
        !tag.contains('\n'),
        !body.contains('\r'),
        holds_no_fence(body),
    ensures
        cleaned(seq!['`', '`', '`'] + tag + seq!['\n'] + body) == trimmed(body),
{
    lemma_closed_body_without_fence(body);
    let raw = fence() + tag + seq!['\n'] + body;
    let head = 4 + tag.len() as int;
    let (start, end) = lemma_kept_range(raw);
    assert(raw[0] == '`' && raw[2] == '`');
    assert(start == 0 && end >= 3);
    let s = trimmed(raw);
    assert(s.subrange(0, 3) =~= fence());
    assert(raw[head - 1] == '\n');
    assert forall|i: int| 0 <= i < s.len() && i < head - 1 implies s[i] != '\n' by {
        if i >= 3 {
            assert(s[i] == tag[i - 3]);
        }
    }
    let nothing = Seq::<char>::empty();
    if end <= head {
        assert(end < head);
        lemma_first_index(s, '\n', s.len() as int);
        assert(lines(s).skip(1) =~= seq![]);
        assert forall|i: int| 0 <= i < body.len() implies white_space(#[trigger] body[i]) by {
            assert(body[i] == raw[head + i]);
        }
        lemma_trimmed(body, 0, 0);
        lemma_trimmed(nothing, 0, 0);
        assert(body.subrange(0, 0) =~= nothing);
        assert(nothing.subrange(0, 0) =~= nothing);
        assert(joined(before_fence(lines(s).skip(1)), seq!['\n']) =~= nothing);
    } else {
        let kept = body.take(end - head);
        let dropped = body.skip(end - head);
        assert(body =~= kept + dropped);
        assert(kept.last() == raw[end - 1]);
        assert(!kept.contains('\r')) by {
            assert forall|i: int| 0 <= i < kept.len() implies kept[i] != '\r' by {
                assert(kept[i] == body[i]);
            }
        }
        lemma_first_index(s, '\n', head - 1);
        assert(s.skip(head) =~= kept);
        let found = lines(s).skip(1);
        assert(found =~= lines(kept));
        lemma_lines_of_closed_text(kept);
        let rest = dropped.push('\n');
        assert(kept + rest =~= body.push('\n'));
        assert(!rest.contains('\r')) by {
            assert forall|i: int| 0 <= i < rest.len() implies rest[i] != '\r' by {
                if i < dropped.len() {
                    assert(rest[i] == body[i + end - head]);
                }
            }
        }
        assert forall|i: int| 0 <= i < found.len() implies !fenced(#[trigger] found[i]) by {
            lemma_lines_of_start(kept, rest, i);
            let line = lines(body.push('\n'))[i];
            if fenced(found[i]) {
                assert(line.subrange(0, 3) =~= found[i].subrange(0, 3)) by {
                    let n = found[i].len() as int;
                    assert(line.subrange(0, n).subrange(0, 3) =~= line.subrange(0, 3));
                }
                assert(fenced(line));
            }
        }
        lemma_before_fence_stops(found, found.len() as int);
        assert(found.take(found.len() as int) =~= found);
        law_joined_lines(kept);
        assert forall|i: int| 0 <= i < dropped.len() implies white_space(
            #[trigger] dropped[i],
        ) by {
            assert(dropped[i] == raw[end + i]);
        }
        law_trimmed_ignores_surrounding_white_space(nothing, kept, dropped);
        assert(nothing + kept + dropped =~= body);
    }
}

} // verus!

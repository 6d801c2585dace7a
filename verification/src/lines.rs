//! Texts as lines and as words.
use vstd::prelude::*;

use crate::text::{chars_of, is_space, joined, text_of, views, white_space};

verus! {

/// The first line break at or behind `from`, or the length of the text.
pub open spec fn line_break(s: Seq<char>, from: int) -> int
    decreases s.len() - from,
{
    if from < 0 || from >= s.len() {
        s.len() as int
    } else if s[from] == '\n' {
        from
    } else {
        line_break(s, from + 1)
    }
}

/// A line without the carriage return at its end.
pub open spec fn without_return(line: Seq<char>) -> Seq<char> {
    if line.len() > 0 && line.last() == '\r' {
        line.drop_last()
    } else {
        line
    }
}

/// The lines of a text from a place on. A line ends with a line break, before which one
/// carriage return does not belong to it. The last one need not end with a break; behind a
/// break at the very end there is no further line.
pub open spec fn lines_from(s: Seq<char>, from: int) -> Seq<Seq<char>>
    decreases s.len() - from,
{
    if from < 0 || from >= s.len() {
        Seq::empty()
    } else {
        let end = line_break(s, from);
        if end < from || end >= s.len() {
            seq![s.skip(from)]
        } else {
            seq![without_return(s.subrange(from, end))] + lines_from(s, end + 1)
        }
    }
}

/// The lines of a text.
pub open spec fn lines_of(s: Seq<char>) -> Seq<Seq<char>> {
    lines_from(s, 0)
}

/// The next line break, and none before it.
proof fn lemma_line_break(s: Seq<char>, from: int)
    requires
        0 <= from <= s.len(),
    ensures
        from <= line_break(s, from) <= s.len(),
        line_break(s, from) < s.len() ==> s[line_break(s, from)] == '\n',
        forall|j: int| from <= j < line_break(s, from) ==> s[j] != '\n',
    decreases s.len() - from,
{
    if from < s.len() && s[from] != '\n' {
        lemma_line_break(s, from + 1);
    }
}

/// A break behind which nothing was skipped is the first one.
proof fn lemma_line_break_is(s: Seq<char>, from: int, at: int)
    requires
        0 <= from <= at <= s.len(),
        at < s.len() ==> s[at] == '\n',
        forall|j: int| from <= j < at ==> s[j] != '\n',
    ensures
        line_break(s, from) == at,
{
    lemma_line_break(s, from);
    let found = line_break(s, from);
    if found < at {
        assert(s[found] == '\n');
    }
    if at < found {
        assert(s[at] == '\n');
    }
}

/// The lines of a text.
pub fn lines(s: &str) -> (r: Vec<String>)
    ensures
        views(r@) == lines_of(s@),
{
    let v = chars_of(s);
    let total: usize = v.len();
    let mut out: Vec<String> = Vec::new();
    let mut start: usize = 0;
    assert(views(out@) + lines_from(s@, 0) =~= lines_of(s@));
    while start < total
        invariant
            start <= total,
            total == v@.len(),
            v@ == s@,
            views(out@) + lines_from(s@, start as int) == lines_of(s@),
        decreases total - start,
    {
        let mut end: usize = start;
        while end < total && v[end] != '\n'
            invariant
                start <= end <= total,
                total == v@.len(),
                v@ == s@,
                forall|j: int| start <= j < end ==> s@[j] != '\n',
            decreases total - end,
        {
            end += 1;
        }
        proof {
            lemma_line_break_is(s@, start as int, end as int);
        }
        let ghost before = views(out@);
        if end == total {
            let line = text_of(&v, start, total);
            let ghost shown = line@;
            out.push(line);
            proof {
                assert(shown =~= s@.skip(start as int));
                assert(views(out@) =~= before.push(shown));
                assert(before + seq![shown] =~= before.push(shown));
                assert(views(out@) + lines_from(s@, total as int) =~= views(out@));
            }
            start = total;
        } else {
            let stop: usize = if end > start && v[end - 1] == '\r' {
                end - 1
            } else {
                end
            };
            let line = text_of(&v, start, stop);
            let ghost shown = line@;
            out.push(line);
            proof {
                let whole = s@.subrange(start as int, end as int);
                if end > start {
                    assert(whole.last() == s@[end - 1]);
                }
                assert(shown =~= without_return(whole));
                assert(views(out@) =~= before.push(shown));
                assert(before + (seq![shown] + lines_from(s@, end + 1)) =~= before.push(shown)
                    + lines_from(s@, end + 1));
            }
            start = end + 1;
        }
    }
    assert(views(out@) + Seq::empty() =~= views(out@));
    out
}

/// A line that a text can hold as it is: without a break in it and a carriage return at its
/// end.
pub open spec fn plain_line(line: Seq<char>) -> bool {
    &&& forall|j: int| 0 <= j < line.len() ==> line[j] != '\n'
    &&& line.len() > 0 ==> line.last() != '\r'
}

/// The lines from a place on do not depend on what stands before it.
proof fn lemma_lines_shift(s: Seq<char>, k: int, from: int)
    requires
        0 <= k <= from <= s.len(),
    ensures
        lines_from(s, from) == lines_from(s.skip(k), from - k),
    decreases s.len() - from,
{
    let t = s.skip(k);
    if from < s.len() {
        lemma_line_break(s, from);
        let end = line_break(s, from);
        assert forall|j: int| from - k <= j < end - k implies t[j] != '\n' by {
            assert(t[j] == s[j + k]);
        }
        lemma_line_break_is(t, from - k, end - k);
        if end < s.len() {
            lemma_lines_shift(s, k, end + 1);
            assert(t.subrange(from - k, end - k) =~= s.subrange(from, end));
        } else {
            assert(t.skip(from - k) =~= s.skip(from));
        }
    }
}

/// Joining puts the first part in front of the others.
pub proof fn lemma_joined_front(parts: Seq<Seq<char>>, sep: Seq<char>)
    requires
        parts.len() > 1,
    ensures
        joined(parts, sep) == parts[0] + sep + joined(parts.skip(1), sep),
    decreases parts.len(),
{
    let rest = parts.skip(1);
    let head = parts.drop_last();
    if parts.len() == 2 {
        assert(joined(head, sep) == parts[0]);
        assert(joined(rest, sep) == parts[1]);
    } else {
        lemma_joined_front(head, sep);
        assert(head.skip(1) =~= rest.drop_last());
        assert(rest.last() == parts.last());
        assert(joined(parts, sep) =~= parts[0] + sep + joined(rest, sep));
    }
}

/// Lines that are joined by breaks are read back as they were, where the last of them says
/// something.
pub proof fn law_lines_read_back(parts: Seq<Seq<char>>)
    requires
        forall|i: int| 0 <= i < parts.len() ==> plain_line(#[trigger] parts[i]),
        parts.len() > 0 ==> parts.last().len() > 0,
    ensures
        lines_of(joined(parts, seq!['\n'])) == parts,
    decreases parts.len(),
{
    let sep = seq!['\n'];
    let s = joined(parts, sep);
    if parts.len() == 0 {
        assert(lines_of(s) =~= parts);
    } else if parts.len() == 1 {
        assert(plain_line(parts[0]));
        lemma_line_break_is(s, 0, s.len() as int);
        assert(s.skip(0) =~= s);
        assert(lines_of(s) =~= parts);
    } else {
        let rest = parts.skip(1);
        let first = parts[0];
        assert(plain_line(first));
        lemma_joined_front(parts, sep);
        assert forall|i: int| 0 <= i < rest.len() implies plain_line(#[trigger] rest[i]) by {
            assert(rest[i] == parts[i + 1]);
        }
        assert(rest.last() == parts.last());
        law_lines_read_back(rest);
        let n = first.len() as int;
        assert forall|j: int| 0 <= j < n implies s[j] != '\n' by {
            assert(s[j] == first[j]);
        }
        assert(s[n] == '\n');
        lemma_line_break_is(s, 0, n);
        assert(s.subrange(0, n) =~= first);
        assert(without_return(first) == first);
        lemma_lines_shift(s, n + 1, n + 1);
        assert(s.skip(n + 1) =~= joined(rest, sep));
        assert(lines_of(s) =~= seq![first] + rest);
        assert(seq![first] + rest =~= parts);
    }
}

/// The first place at or behind `from` that holds no white space, or the length of the text.
pub open spec fn space_end(s: Seq<char>, from: int) -> int
    decreases s.len() - from,
{
    if from < 0 || from >= s.len() {
        s.len() as int
    } else if !is_space(s[from]) {
        from
    } else {
        space_end(s, from + 1)
    }
}

/// The first place at or behind `from` that holds white space, or the length of the text.
pub open spec fn word_end(s: Seq<char>, from: int) -> int
    decreases s.len() - from,
{
    if from < 0 || from >= s.len() {
        s.len() as int
    } else if is_space(s[from]) {
        from
    } else {
        word_end(s, from + 1)
    }
}

/// The words of a text from a place on: what stands between white space.
pub open spec fn words_from(s: Seq<char>, from: int) -> Seq<Seq<char>>
    decreases s.len() - from,
{
    if from < 0 {
        Seq::empty()
    } else {
        let start = space_end(s, from);
        let end = word_end(s, start);
        if start < from || end <= start || end > s.len() {
            Seq::empty()
        } else {
            seq![s.subrange(start, end)] + words_from(s, end)
        }
    }
}

/// The words of a text.
pub open spec fn words_of(s: Seq<char>) -> Seq<Seq<char>> {
    words_from(s, 0)
}

/// The words of a text.
pub fn words(s: &str) -> (r: Vec<String>)
    ensures
        views(r@) == words_of(s@),
{
    let v = chars_of(s);
    let total: usize = v.len();
    let mut out: Vec<String> = Vec::new();
    let mut at: usize = 0;
    assert(views(out@) + words_from(s@, 0) =~= words_of(s@));
    loop
        invariant
            at <= total,
            total == v@.len(),
            v@ == s@,
            views(out@) + words_from(s@, at as int) == words_of(s@),
        decreases total - at,
    {
        let mut start: usize = at;
        while start < total && white_space(v[start])
            invariant
                at <= start <= total,
                total == v@.len(),
                v@ == s@,
                space_end(s@, at as int) == space_end(s@, start as int),
            decreases total - start,
        {
            start += 1;
        }
        let mut end: usize = start;
        while end < total && !white_space(v[end])
            invariant
                start <= end <= total,
                total == v@.len(),
                v@ == s@,
                word_end(s@, start as int) == word_end(s@, end as int),
            decreases total - end,
        {
            end += 1;
        }
        if end <= start {
            assert(views(out@) + Seq::empty() =~= views(out@));
            return out;
        }
        let ghost before = views(out@);
        let word = text_of(&v, start, end);
        let ghost shown = word@;
        out.push(word);
        proof {
            assert(views(out@) =~= before.push(shown));
            assert(before + (seq![shown] + words_from(s@, end as int)) =~= before.push(shown)
                + words_from(s@, end as int));
        }
        at = end;
    }
}

/// Looking for the end of white space, or of a word, goes by what lies ahead only.
proof fn lemma_ends_shift(s: Seq<char>, k: int, from: int)
    requires
        0 <= k,
        0 <= from,
        k + from <= s.len(),
    ensures
        space_end(s, k + from) == k + space_end(s.skip(k), from),
        word_end(s, k + from) == k + word_end(s.skip(k), from),
        from <= space_end(s.skip(k), from) <= s.skip(k).len(),
        from <= word_end(s.skip(k), from) <= s.skip(k).len(),
    decreases s.len() - k - from,
{
    if k + from < s.len() {
        assert(s.skip(k)[from] == s[k + from]);
        lemma_ends_shift(s, k, from + 1);
    }
}

/// The words from a place on are the words of what lies ahead.
proof fn lemma_words_shift(s: Seq<char>, k: int, from: int)
    requires
        0 <= k,
        0 <= from,
        k + from <= s.len(),
    ensures
        words_from(s, k + from) == words_from(s.skip(k), from),
    decreases s.len() - k - from,
{
    let rest = s.skip(k);
    lemma_ends_shift(s, k, from);
    let start = space_end(rest, from);
    lemma_ends_shift(s, k, start);
    let end = word_end(rest, start);
    if end > start {
        lemma_words_shift(s, k, end);
        assert(s.subrange(k + start, k + end) =~= rest.subrange(start, end));
    }
}

/// A run of characters of one kind ends where the kind changes.
proof fn lemma_ends_are(s: Seq<char>, from: int, at: int)
    requires
        0 <= from <= at <= s.len(),
    ensures
        (forall|i: int| from <= i < at ==> !is_space(#[trigger] s[i])) && (at == s.len()
            || is_space(s[at])) ==> word_end(s, from) == at,
        (forall|i: int| from <= i < at ==> is_space(#[trigger] s[i])) && (at == s.len()
            || !is_space(s[at])) ==> space_end(s, from) == at,
    decreases at - from,
{
    if from < at {
        lemma_ends_are(s, from + 1, at);
    }
}

/// A text is read as words: white space before a word does not matter, and what stands up to the
/// next white space is one word, as it stands.
pub proof fn law_words_are_read_in_order(word: Seq<char>, space: char, rest: Seq<char>)
    requires
        is_space(space),
        word.len() > 0,
        forall|i: int| 0 <= i < word.len() ==> !is_space(#[trigger] word[i]),
        rest.len() == 0 || is_space(rest[0]),
    ensures
        words_of(Seq::<char>::empty()).len() == 0,
        words_of(word + rest) == seq![word] + words_of(rest),
        words_of(seq![space] + word + rest) == words_of(word + rest),
        words_of(seq![space]).len() == 0,
{
    let all = word + rest;
    assert forall|i: int| 0 <= i < word.len() implies !is_space(#[trigger] all[i]) by {
        assert(all[i] == word[i]);
    }
    assert(!is_space(all[0]));
    lemma_ends_are(all, 0, 0);
    lemma_ends_are(all, 0, word.len() as int);
    assert(all.subrange(0, word.len() as int) =~= word);
    lemma_words_shift(all, word.len() as int, 0);
    assert(all.skip(word.len() as int) =~= rest);
    let led = seq![space] + word + rest;
    assert(led[1] == all[0]);
    lemma_ends_are(led, 0, 1);
    lemma_ends_are(led, 1, 1);
    assert(words_from(led, 0) == words_from(led, 1));
    lemma_words_shift(led, 1, 0);
    assert(led.skip(1) =~= all);
    let lone = seq![space];
    lemma_ends_are(lone, 0, 1);
}

/// A carriage return at the end of a line is not part of it; anything else is.
pub proof fn law_returns_are_dropped(line: Seq<char>)
    ensures
        without_return(line.push('\r')) == line,
        line.len() == 0 || line.last() != '\r' ==> without_return(line) == line,
{
    assert(line.push('\r').drop_last() =~= line);
    assert(line.push('\r').take(line.len() as int) =~= line);
}

/// A text is read line by line: a line ends with its break, before which one carriage return does
/// not count, and the last one need not end with a break.
pub proof fn law_lines_one_by_one(line: Seq<char>, rest: Seq<char>)
    requires
        forall|i: int| 0 <= i < line.len() ==> #[trigger] line[i] != '\n',
    ensures
        lines_of(line.push('\n') + rest) == seq![without_return(line)] + lines_of(rest),
        line.len() > 0 ==> lines_of(line) == seq![line],
        lines_of(Seq::<char>::empty()).len() == 0,
{
    let all = line.push('\n') + rest;
    let n = line.len() as int;
    assert forall|i: int| 0 <= i < n implies #[trigger] all[i] != '\n' by {
        assert(all[i] == line[i]);
    }
    assert(all[n] == '\n');
    lemma_line_break_is(all, 0, n);
    assert(all.subrange(0, n) =~= line);
    lemma_lines_shift(all, n + 1, n + 1);
    assert(all.skip(n + 1) =~= rest);
    if line.len() > 0 {
        lemma_line_break_is(line, 0, n);
        assert(line.skip(0) =~= line);
    }
}

} // verus!

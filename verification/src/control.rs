//! Conversation control: dropping history, and folding a run of it into a summary.
//!
//! Two markers ride in a conversation as messages of the role `custom`. A **stop** drops
//! itself and everything before it from what the provider sees; of several the last one
//! counts. A **fold** collapses the messages of a range into one placeholder with an id and
//! a summary; with an empty summary the range is dropped without a placeholder. The messages
//! themselves stay in the session, so a fold can be opened again by its id.
use vstd::prelude::*;

use crate::extensions::{Extension, HookCall, HookCallV, HookReturn, HookReturnV};
use crate::ids::fresh_id;
use crate::json::{
    law_first_member_is_found, lemma_position_is, member_views, object, Json, JsonV,
};
use crate::params::{parameters, parameters_schema, text_parameter, text_parameter_schema};
use crate::text::{
    concat3, decimal, decimal_text, ends_with, lemma_ends_with, same, views,
};
use crate::types::{
    blocks_text, first_custom, law_texts_are_read_back, parts_text, text_message, text_result,
    BlockV, ContentBlock, Message, MessageV, ToolDefinition, ToolDefinitionV, ToolResult,
    ToolResultV,
};

verus! {

/// The kind of a stop marker.
pub open spec fn stop_kind() -> Seq<char> {
    "session-control-stop"@
}

/// The kind of a fold marker.
pub open spec fn fold_kind() -> Seq<char> {
    "session-control-fold"@
}

/// Whether a message is a marker.
pub open spec fn is_control(m: MessageV) -> bool {
    m.custom(stop_kind()) is Some || m.custom(fold_kind()) is Some
}

/// The stop marker.
pub open spec fn stop_marker() -> MessageV {
    MessageV {
        role: "custom"@,
        content: seq![BlockV::Custom { kind: stop_kind(), content: JsonV::Object(Seq::empty()) }],
    }
}

/// What a fold marker carries.
pub open spec fn fold_content(start: u64, end: u64, id: Seq<char>, text: Seq<char>) -> JsonV {
    JsonV::Object(
        seq![
            ("end"@, JsonV::UInt(end)),
            ("id"@, JsonV::Str(id)),
            ("start"@, JsonV::UInt(start)),
            ("text"@, JsonV::Str(text)),
        ],
    )
}

/// The fold marker of a range.
pub open spec fn fold_marker(start: u64, end: u64, id: Seq<char>, text: Seq<char>) -> MessageV {
    MessageV {
        role: "custom"@,
        content: seq![
            BlockV::Custom { kind: fold_kind(), content: fold_content(start, end, id, text) },
        ],
    }
}

/// The message that stands for a folded run of `count` messages.
pub open spec fn fold_placeholder(id: Seq<char>, count: nat, text: Seq<char>) -> MessageV {
    text_message(
        "user"@,
        "[folded summary of "@ + decimal(count)
            + " earlier message(s); call the unfold tool with id=\""@ + id
            + "\" to retrieve them]\n\n"@ + text,
    )
}

/// A message as rendered, with the range of the session that it stands for.
#[verifier::ext_equal]
pub struct EntryV {
    pub start: int,
    pub end: int,
    pub message: MessageV,
}

/// Where a fold at the place `idx` of a session ends: it can only fold what precedes it.
pub open spec fn fold_end(fold: JsonV, idx: int) -> int {
    let end = fold.number_at("end"@) as int;
    if end < idx {
        end
    } else {
        idx
    }
}

/// Where a fold at the place `idx` of a session starts.
pub open spec fn fold_start(fold: JsonV, idx: int) -> int {
    let start = fold.number_at("start"@) as int;
    if start < fold_end(fold, idx) {
        start
    } else {
        fold_end(fold, idx)
    }
}

/// The text member of a fold, or nothing.
pub open spec fn fold_text(fold: JsonV, key: Seq<char>) -> Seq<char> {
    match fold.text_at(key) {
        Some(t) => t,
        None => Seq::empty(),
    }
}

/// Whether an entry stands for messages of the range only.
pub open spec fn inside(e: EntryV, lo: int, hi: int) -> bool {
    lo <= e.start && e.end <= hi
}

/// The first entry at or behind `from` that lies inside the range, or the number of entries.
pub open spec fn run_start(entries: Seq<EntryV>, from: int, lo: int, hi: int) -> int
    decreases entries.len() - from,
{
    if from < 0 || from >= entries.len() {
        entries.len() as int
    } else if inside(entries[from], lo, hi) {
        from
    } else {
        run_start(entries, from + 1, lo, hi)
    }
}

/// The first entry at or behind `from` that does not lie inside the range, or the number of
/// entries.
pub open spec fn run_end(entries: Seq<EntryV>, from: int, lo: int, hi: int) -> int
    decreases entries.len() - from,
{
    if from < 0 || from >= entries.len() {
        entries.len() as int
    } else if !inside(entries[from], lo, hi) {
        from
    } else {
        run_end(entries, from + 1, lo, hi)
    }
}

/// The number of messages that the entries stand for.
pub open spec fn span_count(entries: Seq<EntryV>) -> int
    decreases entries.len(),
{
    if entries.len() == 0 {
        0
    } else {
        span_count(entries.drop_last()) + (entries.last().end - entries.last().start)
    }
}

/// The entries once the run inside the range has been replaced by one placeholder, or by
/// nothing where the summary is empty. Where no entry lies inside, nothing changes.
pub open spec fn folded(entries: Seq<EntryV>, fold: JsonV, idx: int) -> Seq<EntryV> {
    let lo = fold_start(fold, idx);
    let hi = fold_end(fold, idx);
    let first = run_start(entries, 0, lo, hi);
    if first >= entries.len() {
        entries
    } else {
        let last = run_end(entries, first, lo, hi);
        let text = fold_text(fold, "text"@);
        let placeholder = if text.len() == 0 {
            Seq::empty()
        } else {
            seq![
                EntryV {
                    start: lo,
                    end: hi,
                    message: fold_placeholder(
                        fold_text(fold, "id"@),
                        span_count(entries.subrange(first, last)) as nat,
                        text,
                    ),
                },
            ]
        };
        entries.take(first) + placeholder + entries.skip(last)
    }
}

/// The entries once the message at the place `idx` of the session has been rendered.
pub open spec fn render_step(entries: Seq<EntryV>, idx: int, message: MessageV) -> Seq<EntryV> {
    if message.custom(stop_kind()) is Some {
        Seq::empty()
    } else {
        match message.custom(fold_kind()) {
            Some(fold) => folded(entries, fold, idx),
            None => entries.push(EntryV { start: idx, end: idx + 1, message }),
        }
    }
}

/// The entries of a session.
pub open spec fn rendered_entries(raw: Seq<MessageV>) -> Seq<EntryV>
    decreases raw.len(),
{
    if raw.len() == 0 {
        Seq::empty()
    } else {
        render_step(rendered_entries(raw.drop_last()), raw.len() - 1, raw.last())
    }
}

/// The messages of entries.
pub open spec fn entry_messages(entries: Seq<EntryV>) -> Seq<MessageV> {
    Seq::new(entries.len(), |i: int| entries[i].message)
}

/// What the provider sees of a session.
pub open spec fn rendered(raw: Seq<MessageV>) -> Seq<MessageV> {
    entry_messages(rendered_entries(raw))
}

/// The entries stand for nonempty ranges of the first `idx` messages, in order: neither the
/// starts nor the ends ever step back.
pub open spec fn ordered(entries: Seq<EntryV>, idx: int) -> bool {
    &&& forall|i: int|
        0 <= i < entries.len() ==> 0 <= (#[trigger] entries[i]).start < entries[i].end <= idx
    &&& forall|i: int, j: int|
        0 <= i < j < entries.len() ==> (#[trigger] entries[i]).start <= (
        #[trigger] entries[j]).start && entries[i].end <= entries[j].end
}

/// Where a run of entries inside a span starts.
proof fn lemma_run_start(entries: Seq<EntryV>, from: int, lo: int, hi: int)
    requires
        0 <= from <= entries.len(),
    ensures
        from <= run_start(entries, from, lo, hi) <= entries.len(),
        run_start(entries, from, lo, hi) < entries.len() ==> inside(
            entries[run_start(entries, from, lo, hi)],
            lo,
            hi,
        ),
        forall|j: int|
            from <= j < run_start(entries, from, lo, hi) ==> !inside(#[trigger] entries[j], lo, hi),
    decreases entries.len() - from,
{
    if from < entries.len() && !inside(entries[from], lo, hi) {
        lemma_run_start(entries, from + 1, lo, hi);
    }
}

/// Where a run of entries inside a span ends.
proof fn lemma_run_end(entries: Seq<EntryV>, from: int, lo: int, hi: int)
    requires
        0 <= from <= entries.len(),
    ensures
        from <= run_end(entries, from, lo, hi) <= entries.len(),
        run_end(entries, from, lo, hi) < entries.len() ==> !inside(
            entries[run_end(entries, from, lo, hi)],
            lo,
            hi,
        ),
        forall|j: int|
            from <= j < run_end(entries, from, lo, hi) ==> inside(#[trigger] entries[j], lo, hi),
    decreases entries.len() - from,
{
    if from < entries.len() && inside(entries[from], lo, hi) {
        lemma_run_end(entries, from + 1, lo, hi);
    }
}

/// In ordered entries those inside a range stand side by side: what stands before the first
/// run starts before the range, and what stands behind it ends behind the range.
pub proof fn law_fold_takes_one_run(entries: Seq<EntryV>, idx: int, lo: int, hi: int)
    requires
        ordered(entries, idx),
        run_start(entries, 0, lo, hi) < entries.len(),
    ensures
        0 <= run_start(entries, 0, lo, hi) < run_end(
            entries,
            run_start(entries, 0, lo, hi),
            lo,
            hi,
        ) <= entries.len(),
        forall|i: int|
            0 <= i < run_start(entries, 0, lo, hi) ==> (#[trigger] entries[i]).start < lo
                && entries[i].end <= hi,
        forall|i: int|
            run_start(entries, 0, lo, hi) <= i < run_end(
                entries,
                run_start(entries, 0, lo, hi),
                lo,
                hi,
            ) ==> inside(#[trigger] entries[i], lo, hi),
        forall|i: int|
            run_end(entries, run_start(entries, 0, lo, hi), lo, hi) <= i < entries.len() ==> lo <= (
            #[trigger] entries[i]).start && entries[i].end > hi,
{
    lemma_run_start(entries, 0, lo, hi);
    let first = run_start(entries, 0, lo, hi);
    lemma_run_end(entries, first, lo, hi);
    let last = run_end(entries, first, lo, hi);
    assert(inside(entries[first], lo, hi));
    assert forall|i: int| 0 <= i < first implies (#[trigger] entries[i]).start < lo
        && entries[i].end <= hi by {
        assert(entries[i].end <= entries[first].end);
        assert(!inside(entries[i], lo, hi));
    }
    assert forall|i: int| last <= i < entries.len() implies lo <= (#[trigger] entries[i]).start
        && entries[i].end > hi by {
        assert(entries[first].start <= entries[last].start);
        assert(entries[last].end > hi);
        if i > last {
            assert(entries[last].end <= entries[i].end);
            assert(entries[last].start <= entries[i].start);
        }
    }
}

/// Rendering a message keeps the entries ordered.
proof fn lemma_step_ordered(entries: Seq<EntryV>, idx: int, message: MessageV)
    requires
        0 <= idx,
        ordered(entries, idx),
    ensures
        ordered(render_step(entries, idx, message), idx + 1),
{
    let after = render_step(entries, idx, message);
    if message.custom(stop_kind()) is None {
        match message.custom(fold_kind()) {
            Some(fold) => {
                let lo = fold_start(fold, idx);
                let hi = fold_end(fold, idx);
                let first = run_start(entries, 0, lo, hi);
                if first < entries.len() {
                    law_fold_takes_one_run(entries, idx, lo, hi);
                    let last = run_end(entries, first, lo, hi);
                    let shown: int = if fold_text(fold, "text"@).len() == 0 { 0 } else { 1 };
                    assert(inside(entries[first], lo, hi));
                    assert forall|i: int| 0 <= i < after.len() implies 0 <= (
                    #[trigger] after[i]).start < after[i].end <= idx + 1 by {
                        if i < first {
                            assert(after[i] == entries[i]);
                        } else if i >= first + shown {
                            assert(after[i] == entries[i - first - shown + last]);
                        }
                    }
                    assert forall|i: int, j: int| 0 <= i < j < after.len() implies (
                    #[trigger] after[i]).start <= (#[trigger] after[j]).start && after[i].end
                        <= after[j].end by {
                        if i < first {
                            assert(after[i] == entries[i]);
                        } else if i >= first + shown {
                            assert(after[i] == entries[i - first - shown + last]);
                        }
                        if j < first {
                            assert(after[j] == entries[j]);
                        } else if j >= first + shown {
                            assert(after[j] == entries[j - first - shown + last]);
                        }
                    }
                }
            },
            None => {
                assert forall|i: int, j: int| 0 <= i < j < after.len() implies (
                #[trigger] after[i]).start <= (#[trigger] after[j]).start && after[i].end
                    <= after[j].end by {
                    if j == entries.len() {
                        assert(entries[i].end <= idx);
                    }
                }
            },
        }
    }
}

/// What is rendered keeps the order of the session, and every entry stands for messages that
/// are there.
pub proof fn law_rendered_in_order(raw: Seq<MessageV>)
    ensures
        ordered(rendered_entries(raw), raw.len() as int),
    decreases raw.len(),
{
    if raw.len() > 0 {
        law_rendered_in_order(raw.drop_last());
        lemma_step_ordered(rendered_entries(raw.drop_last()), raw.len() - 1, raw.last());
    }
}

/// No marker is ever rendered.
pub proof fn law_no_marker_is_rendered(raw: Seq<MessageV>)
    ensures
        forall|i: int|
            0 <= i < rendered_entries(raw).len() ==> !is_control(
                (#[trigger] rendered_entries(raw)[i]).message,
            ),
    decreases raw.len(),
{
    if raw.len() > 0 {
        let before = rendered_entries(raw.drop_last());
        let after = rendered_entries(raw);
        law_no_marker_is_rendered(raw.drop_last());
        let message = raw.last();
        let idx = raw.len() - 1;
        if message.custom(stop_kind()) is None {
            match message.custom(fold_kind()) {
                Some(fold) => {
                    let lo = fold_start(fold, idx);
                    let hi = fold_end(fold, idx);
                    let first = run_start(before, 0, lo, hi);
                    lemma_run_start(before, 0, lo, hi);
                    if first < before.len() {
                        lemma_run_end(before, first, lo, hi);
                        let last = run_end(before, first, lo, hi);
                        let shown: int = if fold_text(fold, "text"@).len() == 0 { 0 } else { 1 };
                        assert forall|i: int| 0 <= i < after.len() implies !is_control(
                            (#[trigger] after[i]).message,
                        ) by {
                            if i < first {
                                assert(after[i] == before[i]);
                            } else if i < first + shown {
                                let m = after[i].message;
                                reveal_with_fuel(first_custom, 2);
                                assert(m.content.skip(1) =~= Seq::<BlockV>::empty());
                            } else {
                                assert(after[i] == before[i - first - shown + last]);
                            }
                        }
                    }
                },
                None => {},
            }
        }
    }
}

/// The entries of a session whose last `n` messages are no markers end with those messages.
proof fn lemma_plain_suffix(raw: Seq<MessageV>, n: int)
    requires
        0 <= n <= raw.len(),
        forall|i: int| raw.len() - n <= i < raw.len() ==> !is_control(#[trigger] raw[i]),
    ensures
        rendered_entries(raw) == rendered_entries(raw.take(raw.len() - n)) + Seq::new(
            n as nat,
            |i: int|
                EntryV {
                    start: raw.len() - n + i,
                    end: raw.len() - n + i + 1,
                    message: raw[raw.len() - n + i],
                },
        ),
    decreases n,
{
    let kept = raw.take(raw.len() - n);
    let tail = Seq::new(
        n as nat,
        |i: int|
            EntryV {
                start: raw.len() - n + i,
                end: raw.len() - n + i + 1,
                message: raw[raw.len() - n + i],
            },
    );
    if n == 0 {
        assert(kept =~= raw);
        assert(rendered_entries(kept) + tail =~= rendered_entries(raw));
    } else {
        let shorter = raw.drop_last();
        assert forall|i: int| shorter.len() - (n - 1) <= i < shorter.len() implies !is_control(
            #[trigger] shorter[i],
        ) by {
            assert(shorter[i] == raw[i]);
        }
        lemma_plain_suffix(shorter, n - 1);
        assert(shorter.take(shorter.len() - (n - 1)) =~= kept);
        assert(!is_control(raw[raw.len() - 1]));
        assert(rendered_entries(raw) =~= rendered_entries(kept) + tail);
    }
}

/// Without markers a conversation is rendered as it is.
pub proof fn law_plain_messages_pass(raw: Seq<MessageV>)
    requires
        forall|i: int| 0 <= i < raw.len() ==> !is_control(#[trigger] raw[i]),
    ensures
        rendered(raw) == raw,
{
    lemma_plain_suffix(raw, raw.len() as int);
    assert(raw.take(0) =~= Seq::empty());
    assert(rendered(raw) =~= raw);
}

/// A stop drops itself and everything before it: messages said after the last marker, where
/// that is a stop, are all that is rendered.
pub proof fn law_stop_drops_history(history: Seq<MessageV>, stop: MessageV, fresh: Seq<MessageV>)
    requires
        stop.custom(stop_kind()) is Some,
        forall|i: int| 0 <= i < fresh.len() ==> !is_control(#[trigger] fresh[i]),
    ensures
        rendered(history.push(stop) + fresh) == fresh,
{
    let raw = history.push(stop) + fresh;
    let n = fresh.len() as int;
    assert forall|i: int| raw.len() - n <= i < raw.len() implies !is_control(#[trigger] raw[i]) by {
        assert(raw[i] == fresh[i - (raw.len() - n)]);
    }
    lemma_plain_suffix(raw, n);
    assert(raw.take(raw.len() - n) =~= history.push(stop));
    assert(history.push(stop).last() == stop);
    assert(rendered_entries(history.push(stop)) =~= Seq::<EntryV>::empty());
    assert(rendered(raw) =~= fresh);
}

/// Behind a stop a conversation without folds is rendered as if it stood alone, stops of its own
/// among it: nothing that stands before the stop has any part in it.
pub proof fn law_stop_hides_what_precedes(
    history: Seq<MessageV>,
    stop: MessageV,
    later: Seq<MessageV>,
)
    requires
        stop.custom(stop_kind()) is Some,
        forall|i: int| 0 <= i < later.len() ==> (#[trigger] later[i]).custom(fold_kind()) is None,
    ensures
        rendered(history.push(stop) + later) == rendered(later),
    decreases later.len(),
{
    let raw = history.push(stop) + later;
    if later.len() == 0 {
        assert(raw =~= history.push(stop));
        assert(raw.last() == stop);
        assert(rendered(raw) =~= rendered(later));
    } else {
        let head = later.drop_last();
        let last = later[later.len() - 1];
        assert forall|i: int| 0 <= i < head.len() implies (#[trigger] head[i]).custom(
            fold_kind(),
        ) is None by {
            assert(head[i] == later[i]);
        }
        law_stop_hides_what_precedes(history, stop, head);
        assert(raw.drop_last() =~= history.push(stop) + head);
        assert(raw.last() == last);
        assert(last.custom(fold_kind()) is None);
        let a = rendered_entries(history.push(stop) + head);
        let b = rendered_entries(head);
        assert(rendered(history.push(stop) + head).len() == a.len());
        assert(rendered(head).len() == b.len());
        assert forall|i: int| 0 <= i < a.len() implies (#[trigger] a[i]).message == b[i].message by {
            assert(rendered(history.push(stop) + head)[i] == rendered(head)[i]);
        }
        assert(rendered(raw) =~= rendered(later));
    }
}

/// What stands before a stop never shows again, whatever follows: two histories of one length
/// are rendered alike behind the same stop.
pub proof fn law_nothing_before_a_stop_matters(
    one: Seq<MessageV>,
    other: Seq<MessageV>,
    stop: MessageV,
    later: Seq<MessageV>,
)
    requires
        one.len() == other.len(),
        stop.custom(stop_kind()) is Some,
    ensures
        rendered(one.push(stop) + later) == rendered(other.push(stop) + later),
        rendered_entries(one.push(stop) + later) == rendered_entries(other.push(stop) + later),
    decreases later.len(),
{
    let a = one.push(stop) + later;
    let b = other.push(stop) + later;
    if later.len() == 0 {
        assert(a =~= one.push(stop));
        assert(b =~= other.push(stop));
        assert(a.last() == stop && b.last() == stop);
    } else {
        law_nothing_before_a_stop_matters(one, other, stop, later.drop_last());
        assert(a.drop_last() =~= one.push(stop) + later.drop_last());
        assert(b.drop_last() =~= other.push(stop) + later.drop_last());
        assert(a.last() == later.last() && b.last() == later.last());
    }
}

/// What a fold marker says of itself.
proof fn lemma_fold_content(start: u64, end: u64, id: Seq<char>, text: Seq<char>)
    ensures
        fold_content(start, end, id, text).number_at("start"@) == start,
        fold_content(start, end, id, text).number_at("end"@) == end,
        fold_content(start, end, id, text).text_at("id"@) == Some(id),
        fold_content(start, end, id, text).text_at("text"@) == Some(text),
{
    let members = fold_content(start, end, id, text)->Object_0;
    reveal_strlit("end");
    reveal_strlit("id");
    reveal_strlit("start");
    reveal_strlit("text");
    assert("end"@.len() == 3 && "id"@.len() == 2 && "start"@.len() == 5 && "text"@.len() == 4);
    lemma_position_is(members, "end"@, 0);
    lemma_position_is(members, "id"@, 1);
    lemma_position_is(members, "start"@, 2);
    lemma_position_is(members, "text"@, 3);
}

/// A fold marker is read as a fold, a stop marker as a stop.
pub proof fn lemma_markers(start: u64, end: u64, id: Seq<char>, text: Seq<char>)
    ensures
        fold_marker(start, end, id, text).custom(stop_kind()) is None,
        fold_marker(start, end, id, text).custom(fold_kind()) == Some(
            fold_content(start, end, id, text),
        ),
        stop_marker().custom(stop_kind()) is Some,
{
    reveal_strlit("session-control-stop");
    reveal_strlit("session-control-fold");
    reveal_with_fuel(first_custom, 2);
    assert(stop_kind()[16] == 's' && fold_kind()[16] == 'f');
    assert(fold_marker(start, end, id, text).content.skip(1) =~= Seq::<BlockV>::empty());
}

/// The entries of plain messages inside a range are those of the range.
proof fn lemma_plain_run(entries: Seq<EntryV>, base: int, lo: int, hi: int)
    requires
        0 <= lo < hi <= entries.len(),
        forall|i: int|
            0 <= i < entries.len() ==> (#[trigger] entries[i]).start == base + i && entries[i].end
                == base + i + 1,
    ensures
        run_start(entries, 0, base + lo, base + hi) == lo,
        run_end(entries, lo, base + lo, base + hi) == hi,
        span_count(entries.subrange(lo, hi)) == hi - lo,
{
    lemma_run_start(entries, 0, base + lo, base + hi);
    let first = run_start(entries, 0, base + lo, base + hi);
    if first < lo {
        assert(inside(entries[first], base + lo, base + hi));
    }
    if first > lo {
        assert(inside(entries[lo], base + lo, base + hi));
    }
    lemma_run_end(entries, lo, base + lo, base + hi);
    let last = run_end(entries, lo, base + lo, base + hi);
    if last < hi {
        assert(inside(entries[last], base + lo, base + hi));
    }
    if last > hi {
        assert(inside(entries[hi], base + lo, base + hi));
    }
    lemma_plain_count(entries, base, lo, hi);
}

/// Entries of one message each span as many messages as there are entries.
proof fn lemma_plain_count(entries: Seq<EntryV>, base: int, lo: int, hi: int)
    requires
        0 <= lo <= hi <= entries.len(),
        forall|i: int|
            0 <= i < entries.len() ==> (#[trigger] entries[i]).start == base + i && entries[i].end
                == base + i + 1,
    ensures
        span_count(entries.subrange(lo, hi)) == hi - lo,
    decreases hi - lo,
{
    if lo < hi {
        lemma_plain_count(entries, base, lo, hi - 1);
        let run = entries.subrange(lo, hi);
        assert(run.drop_last() =~= entries.subrange(lo, hi - 1));
        assert(run.last() == entries[hi - 1]);
    }
}

/// A fold of plain messages replaces exactly the messages of its range by one placeholder
/// that names its id, their number and the summary. What stands outside the range stays. With
/// an empty summary the range disappears.
pub proof fn law_fold_replaces_its_range(
    plain: Seq<MessageV>,
    start: u64,
    end: u64,
    id: Seq<char>,
    text: Seq<char>,
)
    requires
        forall|i: int| 0 <= i < plain.len() ==> !is_control(#[trigger] plain[i]),
        start < end,
        start < plain.len(),
    ensures
        ({
            let hi = if end < plain.len() {
                end as int
            } else {
                plain.len() as int
            };
            let placeholder = if text.len() == 0 {
                Seq::empty()
            } else {
                seq![fold_placeholder(id, (hi - start) as nat, text)]
            };
            rendered(plain.push(fold_marker(start, end, id, text))) == plain.take(start as int)
                + placeholder + plain.skip(hi)
        }),
{
    let marker = fold_marker(start, end, id, text);
    let raw = plain.push(marker);
    let fold = fold_content(start, end, id, text);
    lemma_markers(start, end, id, text);
    lemma_fold_content(start, end, id, text);
    lemma_plain_suffix(plain, plain.len() as int);
    assert(plain.take(0) =~= Seq::empty());
    let entries = rendered_entries(plain);
    assert(raw.drop_last() =~= plain);
    let lo = start as int;
    let hi = if end < plain.len() {
        end as int
    } else {
        plain.len() as int
    };
    assert(entries.len() == plain.len());
    lemma_plain_run(entries, 0, lo, hi);
    let placeholder = if text.len() == 0 {
        Seq::empty()
    } else {
        seq![fold_placeholder(id, (hi - start) as nat, text)]
    };
    assert(rendered(raw) =~= plain.take(start as int) + placeholder + plain.skip(hi));
}

/// The same behind a stop, where places still count from the start of the session: the
/// messages of the range are replaced, and what stands before the stop stays dropped.
pub proof fn law_fold_behind_a_stop(
    history: Seq<MessageV>,
    stop: MessageV,
    plain: Seq<MessageV>,
    start: u64,
    end: u64,
    id: Seq<char>,
    text: Seq<char>,
)
    requires
        stop.custom(stop_kind()) is Some,
        forall|i: int| 0 <= i < plain.len() ==> !is_control(#[trigger] plain[i]),
        history.len() < start < end <= history.len() + 1 + plain.len(),
    ensures
        ({
            let lo = start - history.len() - 1;
            let hi = end - history.len() - 1;
            let placeholder = if text.len() == 0 {
                Seq::empty()
            } else {
                seq![fold_placeholder(id, (hi - lo) as nat, text)]
            };
            rendered((history.push(stop) + plain).push(fold_marker(start, end, id, text)))
                == plain.take(lo) + placeholder + plain.skip(hi)
        }),
{
    let head = history.push(stop);
    let before = head + plain;
    let marker = fold_marker(start, end, id, text);
    let raw = before.push(marker);
    let n = plain.len() as int;
    let base = head.len() as int;
    let lo = start - base;
    let hi = end - base;
    lemma_markers(start, end, id, text);
    lemma_fold_content(start, end, id, text);
    assert forall|i: int| before.len() - n <= i < before.len() implies !is_control(
        #[trigger] before[i],
    ) by {
        assert(before[i] == plain[i - base]);
    }
    lemma_plain_suffix(before, n);
    assert(before.take(base) =~= head);
    assert(head.last() == stop);
    let entries = rendered_entries(before);
    assert(entries.len() == n);
    assert(entry_messages(entries) =~= plain);
    assert(raw.drop_last() =~= before);
    lemma_plain_run(entries, base, lo, hi);
    let placeholder = if text.len() == 0 {
        Seq::empty()
    } else {
        seq![fold_placeholder(id, (hi - lo) as nat, text)]
    };
    assert(rendered(raw) =~= plain.take(lo) + placeholder + plain.skip(hi));
}

/// A fold of an empty range changes nothing.
pub proof fn law_empty_fold_is_a_noop(
    plain: Seq<MessageV>,
    start: u64,
    end: u64,
    id: Seq<char>,
    text: Seq<char>,
)
    requires
        forall|i: int| 0 <= i < plain.len() ==> !is_control(#[trigger] plain[i]),
        end <= start || plain.len() <= start,
    ensures
        rendered(plain.push(fold_marker(start, end, id, text))) == plain,
{
    let raw = plain.push(fold_marker(start, end, id, text));
    lemma_markers(start, end, id, text);
    lemma_fold_content(start, end, id, text);
    lemma_plain_suffix(plain, plain.len() as int);
    assert(plain.take(0) =~= Seq::empty());
    let entries = rendered_entries(plain);
    assert(raw.drop_last() =~= plain);
    let fold = fold_content(start, end, id, text);
    let lo = fold_start(fold, plain.len() as int);
    let hi = fold_end(fold, plain.len() as int);
    lemma_run_start(entries, 0, lo, hi);
    let first = run_start(entries, 0, lo, hi);
    if first < entries.len() {
        assert(inside(entries[first], lo, hi));
        assert(entries[first].start == first);
    }
    assert(rendered(raw) =~= plain);
}

/// The first place at or behind `from` that holds a fold of that id over a nonempty range, or
/// the number of messages.
pub open spec fn fold_place(raw: Seq<MessageV>, id: Seq<char>, from: int) -> int
    decreases raw.len() - from,
{
    if from < 0 || from >= raw.len() {
        raw.len() as int
    } else if opens(raw[from], id, from) {
        from
    } else {
        fold_place(raw, id, from + 1)
    }
}

/// Whether a message at the place `idx` is a fold of that id over a nonempty range.
pub open spec fn opens(message: MessageV, id: Seq<char>, idx: int) -> bool {
    match message.custom(fold_kind()) {
        Some(fold) => fold.text_at("id"@) == Some(id) && fold_start(fold, idx) < fold_end(
            fold,
            idx,
        ),
        None => false,
    }
}

/// The messages that the fold of that id stands for.
pub open spec fn unfolded(raw: Seq<MessageV>, id: Seq<char>) -> Option<Seq<MessageV>> {
    let at = fold_place(raw, id, 0);
    if at < raw.len() {
        let fold = raw[at].custom(fold_kind())->0;
        Some(raw.subrange(fold_start(fold, at), fold_end(fold, at)))
    } else {
        None
    }
}

/// The first message that opens a fold is its place.
proof fn lemma_fold_place(raw: Seq<MessageV>, id: Seq<char>, from: int, at: int)
    requires
        0 <= from <= at < raw.len(),
        opens(raw[at], id, at),
        forall|i: int| from <= i < at ==> !opens(#[trigger] raw[i], id, i),
    ensures
        fold_place(raw, id, from) == at,
    decreases at - from,
{
    if from < at {
        assert(!opens(raw[from], id, from));
        lemma_fold_place(raw, id, from + 1, at);
    }
}

/// Opening a fold gives back the messages of its range, whatever was said since: a later stop
/// takes the placeholder away, never the messages.
pub proof fn law_unfold_gives_back_the_range(
    history: Seq<MessageV>,
    start: u64,
    end: u64,
    id: Seq<char>,
    text: Seq<char>,
    later: Seq<MessageV>,
)
    requires
        start < end,
        start < history.len(),
        forall|i: int| 0 <= i < history.len() ==> !opens(#[trigger] history[i], id, i),
    ensures
        unfolded(history.push(fold_marker(start, end, id, text)) + later, id) == Some(
            history.subrange(
                start as int,
                if end < history.len() {
                    end as int
                } else {
                    history.len() as int
                },
            ),
        ),
{
    let raw = history.push(fold_marker(start, end, id, text)) + later;
    let at = history.len() as int;
    lemma_markers(start, end, id, text);
    lemma_fold_content(start, end, id, text);
    assert(raw[at] == fold_marker(start, end, id, text));
    assert forall|i: int| 0 <= i < at implies !opens(#[trigger] raw[i], id, i) by {
        assert(raw[i] == history[i]);
    }
    lemma_fold_place(raw, id, 0, at);
    let fold = fold_content(start, end, id, text);
    assert(raw.subrange(fold_start(fold, at), fold_end(fold, at)) =~= history.subrange(
        fold_start(fold, at),
        fold_end(fold, at),
    ));
}

/// An id that no fold has opens nothing, and the tool says so.
pub proof fn law_unknown_folds_are_refused(raw: Seq<MessageV>, id: Seq<char>)
    requires
        forall|i: int| 0 <= i < raw.len() ==> !opens(#[trigger] raw[i], id, i),
    ensures
        unfolded(raw, id) is None,
        ControlUnfoldTool::answer(id, None) == text_result(
            "no folded content found for id '"@ + id + "'"@,
            true,
        ),
{
    lemma_no_fold(raw, id, 0);
}

/// Where no message opens a fold, there is no place of it.
proof fn lemma_no_fold(raw: Seq<MessageV>, id: Seq<char>, from: int)
    requires
        0 <= from <= raw.len(),
        forall|i: int| 0 <= i < raw.len() ==> !opens(#[trigger] raw[i], id, i),
    ensures
        fold_place(raw, id, from) == raw.len(),
    decreases raw.len() - from,
{
    if from < raw.len() {
        assert(!opens(raw[from], id, from));
        lemma_no_fold(raw, id, from + 1);
    }
}

/// A rendered message, with the range of the session that it stands for.
struct Entry {
    start: usize,
    end: usize,
    message: Message,
}

impl View for Entry {
    type V = EntryV;

    closed spec fn view(&self) -> EntryV {
        EntryV { start: self.start as int, end: self.end as int, message: self.message@ }
    }
}

/// The message that stands for a folded run.
fn fold_ref(id: &str, count: u128, text: &str) -> (r: Message)
    ensures
        r@ == fold_placeholder(id@, count as nat, text@),
{
    let number = decimal_text(count);
    let mut out = concat3(
        "[folded summary of ",
        number.as_str(),
        " earlier message(s); call the unfold tool with id=\"",
    );
    out.append(id);
    out.append("\" to retrieve them]\n\n");
    out.append(text);
    Message::text("user", out)
}

/// The range of a fold at the place `idx`, clamped to what precedes it.
fn fold_range(fold: &Json, idx: usize) -> (r: (usize, usize))
    ensures
        r.0 == fold_start(fold@, idx as int),
        r.1 == fold_end(fold@, idx as int),
        r.0 <= r.1 <= idx,
{
    let start: u64 = fold.number_at("start");
    let end: u64 = fold.number_at("end");
    let hi: usize = if end < idx as u64 {
        end as usize
    } else {
        idx
    };
    let lo: usize = if start < hi as u64 {
        start as usize
    } else {
        hi
    };
    (lo, hi)
}

/// The text member of a fold, or nothing.
fn fold_member(fold: &Json, key: &str) -> (r: String)
    ensures
        r@ == fold_text(fold@, key@),
{
    match fold.text_at(key) {
        Some(t) => t,
        None => String::new(),
    }
}

/// The number of messages that a run of entries stands for.
fn count_spans(run: &Vec<Entry>) -> (r: u128)
    requires
        forall|i: int| 0 <= i < run@.len() ==> (#[trigger] run@[i]).start <= run@[i].end,
    ensures
        r == span_count(views(run@)),
{
    let ghost all = views(run@);
    let mut count: u128 = 0;
    let mut i: usize = 0;
    while i < run.len()
        invariant
            i <= run@.len(),
            all == views(run@),
            forall|j: int| 0 <= j < run@.len() ==> (#[trigger] run@[j]).start <= run@[j].end,
            count == span_count(all.take(i as int)),
            count <= i * usize::MAX,
        decreases run@.len() - i,
    {
        proof {
            assert(all.take(i + 1).drop_last() =~= all.take(i as int));
            assert(all.take(i + 1).last() == run@[i as int]@);
            assert(i * usize::MAX + usize::MAX == (i + 1) * usize::MAX) by (nonlinear_arith);
            assert((i + 1) * usize::MAX <= 0xffff_ffff_ffff_ffff * 0xffff_ffff_ffff_ffff)
                by (nonlinear_arith)
                requires
                    i + 1 <= 0xffff_ffff_ffff_ffff,
                    usize::MAX <= 0xffff_ffff_ffff_ffff,
            ;
        }
        let span: usize = run[i].end - run[i].start;
        count = count + span as u128;
        i += 1;
    }
    assert(all.take(all.len() as int) =~= all);
    count
}

/// Collapses the run of entries inside a fold's range.
fn collapse(entries: &mut Vec<Entry>, fold: &Json, idx: usize)
    requires
        ordered(views(old(entries)@), idx as int),
    ensures
        views(final(entries)@) == folded(views(old(entries)@), fold@, idx as int),
{
    let ghost before = views(entries@);
    let (lo, hi) = fold_range(fold, idx);
    let mut first: usize = 0;
    while first < entries.len() && !(entries[first].start >= lo && entries[first].end <= hi)
        invariant
            first <= entries@.len(),
            before == views(entries@),
            run_start(before, 0, lo as int, hi as int) == run_start(
                before,
                first as int,
                lo as int,
                hi as int,
            ),
        decreases entries@.len() - first,
    {
        assert(before[first as int] == entries@[first as int]@);
        first += 1;
    }
    if first == entries.len() {
        return;
    }
    assert(before[first as int] == entries@[first as int]@);
    assert(run_start(before, 0, lo as int, hi as int) == first);
    let mut last: usize = first;
    while last < entries.len() && entries[last].start >= lo && entries[last].end <= hi
        invariant
            first <= last <= entries@.len(),
            before == views(entries@),
            run_end(before, first as int, lo as int, hi as int) == run_end(
                before,
                last as int,
                lo as int,
                hi as int,
            ),
        decreases entries@.len() - last,
    {
        assert(before[last as int] == entries@[last as int]@);
        last += 1;
    }
    proof {
        if last < entries@.len() {
            assert(before[last as int] == entries@[last as int]@);
        }
        assert(run_end(before, first as int, lo as int, hi as int) == last);
    }
    let mut tail = entries.split_off(last);
    let run = entries.split_off(first);
    proof {
        assert(views(tail@) =~= before.skip(last as int));
        assert(views(run@) =~= before.subrange(first as int, last as int));
        assert(views(entries@) =~= before.take(first as int));
        assert forall|i: int| 0 <= i < run@.len() implies (#[trigger] run@[i]).start
            <= run@[i].end by {
            assert(before[first + i] == run@[i]@);
        }
    }
    let text = fold_member(fold, "text");
    if !text.as_str().is_empty() {
        let id = fold_member(fold, "id");
        let message = fold_ref(id.as_str(), count_spans(&run), text.as_str());
        entries.push(Entry { start: lo, end: hi, message });
    }
    let ghost middle = views(entries@);
    let ghost rest = views(tail@);
    entries.append(&mut tail);
    proof {
        assert(views(entries@) =~= middle + rest);
        assert(views(entries@) =~= folded(before, fold@, idx as int));
    }
}

/// What the provider sees of a session: stops and folds applied, no marker left.
pub fn render(raw: Vec<Message>) -> (r: Vec<Message>)
    ensures
        views(r@) == rendered(views(raw@)),
{
    let ghost all = views(raw@);
    let mut entries: Vec<Entry> = Vec::new();
    let mut idx: usize = 0;
    assert(all.take(0) =~= Seq::empty());
    assert(views(entries@) =~= Seq::<EntryV>::empty());
    while idx < raw.len()
        invariant
            idx <= raw@.len(),
            all == views(raw@),
            views(entries@) == rendered_entries(all.take(idx as int)),
        decreases raw@.len() - idx,
    {
        let message = &raw[idx];
        let ghost before = views(entries@);
        proof {
            let next = all.take(idx + 1);
            assert(next.drop_last() =~= all.take(idx as int));
            assert(next.last() == message@);
            law_rendered_in_order(all.take(idx as int));
        }
        if message.custom("session-control-stop").is_some() {
            entries.clear();
            assert(views(entries@) =~= Seq::<EntryV>::empty());
        } else {
            match message.custom("session-control-fold") {
                Some(fold) => {
                    collapse(&mut entries, fold, idx);
                },
                None => {
                    entries.push(Entry { start: idx, end: idx + 1, message: message.clone() });
                    assert(views(entries@) =~= before.push(
                        EntryV { start: idx as int, end: idx + 1, message: message@ },
                    ));
                },
            }
        }
        idx += 1;
    }
    assert(all.take(all.len() as int) =~= all);
    let mut out: Vec<Message> = Vec::new();
    let mut i: usize = 0;
    while i < entries.len()
        invariant
            i <= entries@.len(),
            out@.len() == i,
            forall|j: int| 0 <= j < i ==> (#[trigger] out@[j])@ == entries@[j].message@,
        decreases entries@.len() - i,
    {
        out.push(entries[i].message.clone());
        i += 1;
    }
    assert(views(out@) =~= rendered(all));
    out
}

/// The extension that applies stops and folds to what the provider is about to see. It holds
/// no state; placed last in a chain, its answer is what the provider sees.
#[derive(Debug, PartialEq)]
pub struct ControlExtension;

impl ControlExtension {
    /// The extension.
    pub fn new() -> (r: Self)
        ensures
            r == ControlExtension,
    {
        ControlExtension
    }
}

impl Default for ControlExtension {
    fn default() -> (r: Self)
        ensures
            r == ControlExtension,
    {
        ControlExtension::new()
    }
}

/// What the extension answers.
pub open spec fn control_answer(call: HookCallV) -> HookReturnV {
    match call {
        HookCallV::MessageStart(messages) => HookReturnV::Messages(Ok(rendered(messages))),
        other => other.unchanged(),
    }
}

impl Extension for ControlExtension {
    open spec fn steps(pre: Self, call: HookCallV, post: Self, ret: HookReturnV) -> bool {
        ret == control_answer(call)
    }

    open spec fn called(&self) -> Seq<char> {
        "session/control"@
    }

    fn name(&self) -> String {
        "session/control".to_owned()
    }

    fn handle(&mut self, call: HookCall) -> (ret: HookReturn) {
        match call {
            HookCall::MessageStart(messages) => HookReturn::Messages(Ok(render(messages))),
            other => other.unchanged(),
        }
    }
}

/// Builds a stop marker: appended to a session, it drops every message up to itself from what
/// the provider sees.
pub fn stop_message() -> (r: Message)
    ensures
        r@ == stop_marker(),
{
    let members: Vec<(String, Json)> = Vec::new();
    assert(member_views(members@) =~= Seq::empty());
    let content = object(members);
    Message::of_block(
        "custom",
        ContentBlock::Custom { kind: "session-control-stop".to_owned(), content },
    )
}

/// Builds a fold marker of a fresh id over the messages `start..end` of a session. Returns the
/// id with it.
pub fn fold_message(start: usize, end: usize, text: &str) -> (r: (String, Message))
    ensures
        r.0@.len() == 36,
        r.1@ == fold_marker(start as u64, end as u64, r.0@, text@),
{
    let id = fresh_id();
    let message = fold_message_with_id(start, end, id.as_str(), text);
    (id, message)
}

/// Builds a fold marker of the given id over the messages `start..end` of a session.
pub fn fold_message_with_id(start: usize, end: usize, id: &str, text: &str) -> (r: Message)
    ensures
        r@ == fold_marker(start as u64, end as u64, id@, text@),
{
    let mut members: Vec<(String, Json)> = Vec::new();
    members.push(("end".to_owned(), Json::UInt(end as u64)));
    members.push(("id".to_owned(), Json::Str(id.to_owned())));
    members.push(("start".to_owned(), Json::UInt(start as u64)));
    members.push(("text".to_owned(), Json::Str(text.to_owned())));
    assert(member_views(members@) =~= fold_content(
        start as u64,
        end as u64,
        id@,
        text@,
    )->Object_0);
    let content = object(members);
    Message::of_block(
        "custom",
        ContentBlock::Custom { kind: "session-control-fold".to_owned(), content },
    )
}

/// The tool that opens a fold again, over the messages of a session.
pub struct ControlUnfoldTool;

impl ControlUnfoldTool {
    /// What a model is told of the tool.
    pub open spec fn declared() -> ToolDefinitionV {
        ToolDefinitionV {
            name: "session-control-unfold"@,
            description:
                "Expand a previously folded section of the conversation back into its original messages. Pass the fold `id` found in a folded summary placeholder; returns the full content of the messages that were collapsed there."@,
            parameters: parameters_schema(
                seq![
                    (
                        "id"@,
                        text_parameter_schema(
                            "The fold id shown in a folded summary placeholder."@,
                        ),
                    ),
                ],
                seq!["id"@],
            ),
        }
    }

    /// What a model is told of the tool.
    pub fn definition() -> (r: ToolDefinition)
        ensures
            r@ == (ToolDefinitionV {
                name: "session-control-unfold"@,
                description:
                    "Expand a previously folded section of the conversation back into its original messages. Pass the fold `id` found in a folded summary placeholder; returns the full content of the messages that were collapsed there."@,
                parameters: parameters_schema(
                    seq![
                        (
                            "id"@,
                            text_parameter_schema(
                                "The fold id shown in a folded summary placeholder."@,
                            ),
                        ),
                    ],
                    seq!["id"@],
                ),
            }),
            r@ == ControlUnfoldTool::declared(),
    {
        let mut properties: Vec<(String, Json)> = Vec::new();
        properties.push(
            (
                "id".to_owned(),
                text_parameter("The fold id shown in a folded summary placeholder."),
            ),
        );
        let mut required: Vec<String> = Vec::new();
        required.push("id".to_owned());
        proof {
            assert(member_views(properties@) =~= seq![
                (
                    "id"@,
                    text_parameter_schema("The fold id shown in a folded summary placeholder."@),
                ),
            ]);
            assert(views(required@) =~= seq!["id"@]);
        }
        ToolDefinition {
            name: "session-control-unfold".to_owned(),
            description: "Expand a previously folded section of the conversation back into its original messages. Pass the fold `id` found in a folded summary placeholder; returns the full content of the messages that were collapsed there.".to_owned(),
            parameters: parameters(properties, &required),
        }
    }

    /// The id that a call asks for.
    pub open spec fn asked(params: JsonV) -> Seq<char> {
        match params.text_at("id"@) {
            Some(id) => id,
            None => Seq::empty(),
        }
    }

    /// The id that a call asks for.
    pub fn asked_id(params: &Json) -> (r: String)
        ensures
            r@ == ControlUnfoldTool::asked(params@),
    {
        match params.text_at("id") {
            Some(id) => id,
            None => String::new(),
        }
    }

    /// The messages that the fold of an id stands for.
    pub fn unfold(raw: &Vec<Message>, id: &str) -> (r: Option<Vec<Message>>)
        ensures
            match r {
                Some(messages) => unfolded(views(raw@), id@) == Some(views(messages@)),
                None => unfolded(views(raw@), id@) is None,
            },
    {
        let ghost all = views(raw@);
        let mut idx: usize = 0;
        while idx < raw.len()
            invariant
                idx <= raw@.len(),
                all == views(raw@),
                fold_place(all, id@, 0) == fold_place(all, id@, idx as int),
            decreases raw@.len() - idx,
        {
            assert(all[idx as int] == raw@[idx as int]@);
            match raw[idx].custom("session-control-fold") {
                Some(fold) => {
                    let named = match fold.text_at("id") {
                        Some(t) => same(t.as_str(), id),
                        None => false,
                    };
                    let (lo, hi) = fold_range(fold, idx);
                    if named && lo < hi {
                        return Some(copy_range(raw, lo, hi));
                    }
                },
                None => {},
            }
            idx += 1;
        }
        None
    }

    /// What the tool returns: the text of the messages that were found, or that none were.
    pub open spec fn answer(id: Seq<char>, found: Option<Seq<char>>) -> ToolResultV {
        match found {
            Some(body) => text_result(body, false),
            None => text_result("no folded content found for id '"@ + id + "'"@, true),
        }
    }

    /// What the tool returns, given the text of the messages that were found.
    pub fn respond(id: &str, found: Option<String>) -> (r: ToolResult)
        ensures
            r@ == ControlUnfoldTool::answer(id@, crate::text::opt_view(found)),
    {
        match found {
            Some(body) => ToolResult::text(body, false),
            None => ToolResult::text(
                concat3("no folded content found for id '", id, "'"),
                true,
            ),
        }
    }
}

impl ControlUnfoldTool {
    /// Opens a fold of a session: the messages of the fold that the call names, as `write` puts
    /// them, or that there is none.
    pub fn execute<F: Fn(&Vec<Message>) -> String>(
        raw: &Vec<Message>,
        params: &Json,
        write: F,
    ) -> (r: ToolResult)
        requires
            forall|messages: &Vec<Message>| #[trigger] call_requires(write, (messages,)),
        ensures
            ({
                let id = ControlUnfoldTool::asked(params@);
                match unfolded(views(raw@), id) {
                    Some(folded) => exists|found: &Vec<Message>, body: String|
                        #![trigger call_ensures(write, (found,), body)]
                        {
                            &&& views(found@) == folded
                            &&& call_ensures(write, (found,), body)
                            &&& r@ == ControlUnfoldTool::answer(id, Some(body@))
                        },
                    None => r@ == ControlUnfoldTool::answer(id, None),
                }
            }),
    {
        let id = ControlUnfoldTool::asked_id(params);
        match ControlUnfoldTool::unfold(raw, id.as_str()) {
            Some(messages) => {
                let body = write(&messages);
                ControlUnfoldTool::respond(id.as_str(), Some(body))
            },
            None => ControlUnfoldTool::respond(id.as_str(), None),
        }
    }
}

/// A copy of the messages `lo..hi`.
pub fn copy_range(raw: &Vec<Message>, lo: usize, hi: usize) -> (r: Vec<Message>)
    requires
        lo <= hi <= raw@.len(),
    ensures
        views(r@) == views(raw@).subrange(lo as int, hi as int),
{
    let mut out: Vec<Message> = Vec::new();
    let mut i: usize = lo;
    while i < hi
        invariant
            lo <= i <= hi <= raw@.len(),
            out@.len() == i - lo,
            forall|j: int| 0 <= j < i - lo ==> (#[trigger] out@[j])@ == raw@[lo + j]@,
        decreases hi - i,
    {
        out.push(raw[i].clone());
        i += 1;
    }
    assert(views(out@) =~= views(raw@).subrange(lo as int, hi as int));
    out
}

/// A fold marker carries its range, its id and its summary, each under its own name; a stop
/// marker carries nothing. Neither is what the other is.
pub proof fn law_markers_carry_what_they_are_given(
    start: u64,
    end: u64,
    id: Seq<char>,
    text: Seq<char>,
)
    ensures
        ({
            let fold = fold_marker(start, end, id, text).custom("session-control-fold"@);
            &&& fold matches Some(v)
            &&& v.get("start"@) == Some(JsonV::UInt(start))
            &&& v.get("end"@) == Some(JsonV::UInt(end))
            &&& v.get("id"@) == Some(JsonV::Str(id))
            &&& v.get("text"@) == Some(JsonV::Str(text))
        }),
        fold_marker(start, end, id, text).custom("session-control-stop"@) is None,
        stop_marker().custom("session-control-stop"@) is Some,
        stop_marker().custom("session-control-fold"@) is None,
{
    lemma_markers(start, end, id, text);
    reveal_with_fuel(first_custom, 2);
    reveal_strlit("session-control-stop");
    reveal_strlit("session-control-fold");
    assert(stop_kind()[16] == 's' && fold_kind()[16] == 'f');
    assert(stop_marker().content.skip(1) =~= Seq::<BlockV>::empty());
    reveal_strlit("end");
    reveal_strlit("id");
    reveal_strlit("start");
    reveal_strlit("text");
    assert("end"@.len() == 3);
    assert("id"@.len() == 2);
    assert("start"@.len() == 5);
    assert("text"@.len() == 4);
    let members = fold_content(start, end, id, text)->Object_0;
    law_first_member_is_found(members, "end"@, 0);
    law_first_member_is_found(members, "id"@, 1);
    law_first_member_is_found(members, "start"@, 2);
    law_first_member_is_found(members, "text"@, 3);
}

/// A placeholder is words of the user: it tells how many messages it stands for and under which
/// id they are found again, and ends with the summary.
pub proof fn law_placeholders_tell_what_they_stand_for(
    id: Seq<char>,
    count: nat,
    text: Seq<char>,
)
    ensures
        ({
            let said = blocks_text(fold_placeholder(id, count, text).content);
            &&& ("[folded summary of "@ + decimal(count)
                + " earlier message(s); call the unfold tool with id=\""@ + id
                + "\" to retrieve them]"@).is_prefix_of(said)
            &&& ends_with(said, text)
        }),
        fold_placeholder(id, count, text).role == "user"@,
{
    let lead = "[folded summary of "@ + decimal(count)
        + " earlier message(s); call the unfold tool with id=\""@ + id;
    let said = lead + "\" to retrieve them]\n\n"@ + text;
    law_texts_are_read_back("user"@, said, false);
    lemma_ends_with(lead + "\" to retrieve them]\n\n"@, text);
    reveal_strlit("\" to retrieve them]");
    reveal_strlit("\" to retrieve them]\n\n");
    assert("\" to retrieve them]"@.len() == 19);
    assert("\" to retrieve them]\n\n"@.len() == 21);
    let front = lead + "\" to retrieve them]"@;
    assert("\" to retrieve them]\n\n"@.take(19) =~= "\" to retrieve them]"@);
    assert(said.take(front.len() as int) =~= front);
}

/// A fold takes in what lies in its range and before itself, and nothing else: a range that runs
/// past the fold ends at it, and one that is turned round is empty.
pub proof fn law_folds_stay_before_themselves(fold: JsonV, idx: int)
    requires
        0 <= idx,
    ensures
        0 <= fold_start(fold, idx) <= fold_end(fold, idx) <= idx,
        fold.number_at("end"@) <= idx ==> fold_end(fold, idx) == fold.number_at("end"@),
        fold.number_at("end"@) > idx ==> fold_end(fold, idx) == idx,
        fold.number_at("start"@) <= fold_end(fold, idx) ==> fold_start(fold, idx)
            == fold.number_at("start"@),
        fold.number_at("start"@) > fold_end(fold, idx) ==> fold_start(fold, idx) == fold_end(
            fold,
            idx,
        ),
{
}

/// A model is called with its session as it is rendered; whatever else is asked is answered as if
/// nothing stood in the way.
pub proof fn law_models_see_the_rendered_session(messages: Seq<MessageV>, call: HookCallV)
    ensures
        control_answer(HookCallV::MessageStart(messages)) == HookReturnV::Messages(
            Ok(rendered(messages)),
        ),
        !(call is MessageStart) ==> control_answer(call) == call.unchanged(),
{
}

/// A fold is asked for by its id, and what is found of it is what the tool answers.
pub proof fn law_folds_are_asked_for_by_id(params: JsonV, id: Seq<char>, body: Seq<char>)
    ensures
        params.get("id"@) == Some(JsonV::Str(id)) ==> ControlUnfoldTool::asked(params) == id,
        !(params.get("id"@) matches Some(JsonV::Str(_))) ==> ControlUnfoldTool::asked(params).len()
            == 0,
        parts_text(ControlUnfoldTool::answer(id, Some(body)).content) == body,
        !ControlUnfoldTool::answer(id, Some(body)).is_error,
        ControlUnfoldTool::answer(id, None).is_error,
{
    law_texts_are_read_back(""@, body, false);
}

/// The number of messages that entries stand for is the sum over them: of a message one, and of a
/// placeholder as many as it was put for.
pub proof fn law_spans_add_up(one: Seq<EntryV>, other: Seq<EntryV>, entry: EntryV)
    ensures
        span_count(Seq::<EntryV>::empty()) == 0,
        span_count(seq![entry]) == entry.end - entry.start,
        span_count(one + other) == span_count(one) + span_count(other),
    decreases other.len(),
{
    assert(seq![entry].drop_last() =~= Seq::<EntryV>::empty());
    reveal_with_fuel(span_count, 2);
    if other.len() == 0 {
        assert(one + other =~= one);
    } else {
        assert((one + other).drop_last() =~= one + other.drop_last());
        law_spans_add_up(one, other.drop_last(), entry);
    }
}

/// A fold puts one placeholder where the first entry of its range stood: it stands for the whole
/// range, and tells the fold's id and summary and how many messages its entries stood for. What
/// lies before and behind those entries stays, and a fold without a summary puts none.
pub proof fn law_placeholders_stand_for_their_range(
    entries: Seq<EntryV>,
    fold: JsonV,
    idx: int,
    first: int,
    last: int,
)
    requires
        0 <= first < last <= entries.len(),
        forall|i: int|
            0 <= i < first ==> !inside(
                #[trigger] entries[i],
                fold_start(fold, idx),
                fold_end(fold, idx),
            ),
        forall|i: int|
            first <= i < last ==> inside(
                #[trigger] entries[i],
                fold_start(fold, idx),
                fold_end(fold, idx),
            ),
        last < entries.len() ==> !inside(
            entries[last],
            fold_start(fold, idx),
            fold_end(fold, idx),
        ),
    ensures
        ({
            let after = folded(entries, fold, idx);
            let count = span_count(entries.subrange(first, last));
            &&& after.take(first) == entries.take(first)
            &&& fold_text(fold, "text"@).len() > 0 ==> {
                &&& after.skip(first + 1) == entries.skip(last)
                &&& after[first].start == fold_start(fold, idx)
                &&& after[first].end == fold_end(fold, idx)
                &&& after[first].message == fold_placeholder(
                    fold_text(fold, "id"@),
                    count as nat,
                    fold_text(fold, "text"@),
                )
            }
            &&& fold_text(fold, "text"@).len() == 0 ==> after.skip(first) == entries.skip(last)
        }),
{
    let lo = fold_start(fold, idx);
    let hi = fold_end(fold, idx);
    lemma_run_bounds(entries, 0, first, last, lo, hi);
    let after = folded(entries, fold, idx);
    assert(after.take(first) =~= entries.take(first));
    if fold_text(fold, "text"@).len() > 0 {
        assert(after.skip(first + 1) =~= entries.skip(last));
    } else {
        assert(after.skip(first) =~= entries.skip(last));
    }
}

/// The run of a range starts at its first entry that lies inside and ends before the next one
/// that does not.
proof fn lemma_run_bounds(
    entries: Seq<EntryV>,
    from: int,
    first: int,
    last: int,
    lo: int,
    hi: int,
)
    requires
        0 <= from <= last <= entries.len(),
        0 <= first < last,
        forall|i: int| 0 <= i < first ==> !inside(#[trigger] entries[i], lo, hi),
        forall|i: int| first <= i < last ==> inside(#[trigger] entries[i], lo, hi),
        last < entries.len() ==> !inside(entries[last], lo, hi),
    ensures
        from <= first ==> run_start(entries, from, lo, hi) == first,
        first <= from ==> run_end(entries, from, lo, hi) == last,
        from == 0 ==> run_end(entries, first, lo, hi) == last,
    decreases last - from,
{
    if from < last {
        lemma_run_bounds(entries, from + 1, first, last, lo, hi);
    }
    if from == 0 && first > 0 {
        lemma_run_bounds(entries, first, first, last, lo, hi);
    }
}

/// The words of a fold are its texts, and nothing where it has none.
pub proof fn law_folds_are_read(fold: JsonV, key: Seq<char>, text: Seq<char>)
    ensures
        fold.get(key) == Some(JsonV::Str(text)) ==> fold_text(fold, key) == text,
        !(fold.get(key) matches Some(JsonV::Str(_))) ==> fold_text(fold, key).len() == 0,
{
}

/// A fold opens under its own id and under no other, where its range holds anything before it;
/// a stop and a plain message open nothing.
pub proof fn law_folds_open_under_their_own_id(
    start: u64,
    end: u64,
    id: Seq<char>,
    text: Seq<char>,
    asked: Seq<char>,
    idx: int,
    plain: MessageV,
)
    requires
        !is_control(plain),
    ensures
        opens(fold_marker(start, end, id, text), asked, idx) <==> asked == id && start < end
            && start < idx,
        !opens(stop_marker(), asked, idx),
        !opens(plain, asked, idx),
{
    lemma_markers(start, end, id, text);
    lemma_fold_content(start, end, id, text);
    law_markers_carry_what_they_are_given(start, end, id, text);
}

/// Of two folds each is opened by its own id, whichever came first.
pub proof fn law_each_fold_gives_back_its_own_range(
    plain: Seq<MessageV>,
    one: (u64, u64, Seq<char>),
    other: (u64, u64, Seq<char>),
    text: Seq<char>,
)
    requires
        forall|i: int| 0 <= i < plain.len() ==> !is_control(#[trigger] plain[i]),
        one.0 < one.1 <= plain.len(),
        other.0 < other.1 <= plain.len(),
        one.2 != other.2,
    ensures
        ({
            let raw = plain.push(fold_marker(one.0, one.1, one.2, text)).push(
                fold_marker(other.0, other.1, other.2, text),
            );
            &&& unfolded(raw, one.2) == Some(plain.subrange(one.0 as int, one.1 as int))
            &&& unfolded(raw, other.2) == Some(plain.subrange(other.0 as int, other.1 as int))
        }),
{
    let first = fold_marker(one.0, one.1, one.2, text);
    let second = fold_marker(other.0, other.1, other.2, text);
    let raw = plain.push(first).push(second);
    assert forall|i: int| 0 <= i < plain.len() implies !opens(#[trigger] plain[i], one.2, i) by {
        assert(!is_control(plain[i]));
    }
    law_unfold_gives_back_the_range(plain, one.0, one.1, one.2, text, seq![second]);
    assert(raw =~= plain.push(first) + seq![second]);
    let history = plain.push(first);
    law_folds_open_under_their_own_id(
        one.0,
        one.1,
        one.2,
        text,
        other.2,
        plain.len() as int,
        plain[0],
    );
    assert forall|i: int| 0 <= i < history.len() implies !opens(
        #[trigger] history[i],
        other.2,
        i,
    ) by {
        if i < plain.len() {
            assert(!is_control(plain[i]));
            assert(history[i] == plain[i]);
        }
    }
    law_unfold_gives_back_the_range(history, other.0, other.1, other.2, text, Seq::empty());
    assert(raw =~= history.push(second) + Seq::empty());
    assert(history.subrange(other.0 as int, other.1 as int) =~= plain.subrange(
        other.0 as int,
        other.1 as int,
    ));
}

/// The tool that opens a fold takes its id as a text, under the name under which it is read, and
/// asks for it.
pub proof fn law_the_unfold_tool_is_declared()
    ensures
        ControlUnfoldTool::declared().name == "session-control-unfold"@,
        ({
            &&& ControlUnfoldTool::declared().parameters.get("properties"@) matches Some(p)
            &&& p.get("id"@) matches Some(field)
            &&& field.get("type"@) == Some(JsonV::Str("string"@))
        }),
        ControlUnfoldTool::declared().parameters.get("required"@) matches Some(JsonV::Array(names))
            && names == seq![JsonV::Str("id"@)],
        ControlUnfoldTool::declared().parameters.get("type"@) == Some(JsonV::Str("object"@)),
{
    let words = "The fold id shown in a folded summary placeholder."@;
    let properties = seq![("id"@, text_parameter_schema(words))];
    crate::params::law_text_parameters_declare_texts(words);
    crate::params::law_parameters_declare_an_object(properties, seq!["id"@]);
    law_first_member_is_found(properties, "id"@, 0);
}

} // verus!

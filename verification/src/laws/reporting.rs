//! What is shown of a transfer.
use vstd::prelude::*;

use crate::json::{json_char, json_chars, json_string};
use crate::jsonl_reporter::{event_members, percent_after, whole_percent};
use crate::report::TransferEvent;
use crate::text_reporter::{bar, bar_left, draws_bar, shown, Figures, PROGRESS_BAR_WIDTH};

verus! {

/// As JSON, progress is shown no oftener than its whole percent changes.
pub proof fn law_percent_is_shown_once(
    progress: bool,
    last_pct: i32,
    first: TransferEvent<'_>,
    second: TransferEvent<'_>,
)
    requires
        first matches TransferEvent::Progress { done, total, .. } && total > 0 && (
        second matches TransferEvent::Progress { done: done2, total: total2, .. } && whole_percent(
            done,
            total,
        ) == whole_percent(done2, total2)),
    ensures
        event_members(progress, percent_after(progress, last_pct, first), second) is None,
{
}

/// Without progress, passes, missing chunks and progress itself are not shown; every
/// other event is.
pub proof fn law_progress_is_gated(last_pct: i32, figures: Figures<'_>, event: TransferEvent<'_>)
    ensures
        event is PassStarted || event is MissingChunks || event is Progress <==> event_members(
            false,
            last_pct,
            event,
        ) is None,
        event is PassStarted || event is MissingChunks || event is Progress ==> shown(
            false,
            false,
            event,
            figures,
        ).len() == 0,
{
}

/// A line that follows a bar starts on a line of its own, and the bar is drawn over
/// only by another bar.
pub proof fn law_bar_is_closed(
    progress: bool,
    bar_active: bool,
    first: TransferEvent<'_>,
    second: TransferEvent<'_>,
    figures: Figures<'_>,
)
    requires
        draws_bar(progress, first),
        !(second is Progress),
    ensures
        bar_left(progress, bar_active, first),
        shown(progress, bar_left(progress, bar_active, first), second, figures).len() > 0,
        shown(progress, bar_left(progress, bar_active, first), second, figures)[0] == '\n',
        !bar_left(progress, bar_left(progress, bar_active, first), second),
{
    reveal_strlit("\n");
}

/// A JSON string holds no control character up to 0x1f, so no line break, whatever
/// the text holds.
pub proof fn law_json_string_is_printable(text: Seq<char>)
    ensures
        forall|i: int|
            0 <= i < json_string(text).len() ==> #[trigger] json_string(text)[i] as u32 > 0x1f,
{
    lemma_json_chars_are_printable(text);
    assert forall|i: int| 0 <= i < json_string(text).len() implies #[trigger] json_string(
        text,
    )[i] as u32 > 0x1f by {
        if 0 < i < json_string(text).len() - 1 {
            assert(json_string(text)[i] == json_chars(text)[i - 1]);
        }
    }
}

/// No character inside a JSON string is a control character up to 0x1f.
proof fn lemma_json_chars_are_printable(text: Seq<char>)
    ensures
        forall|i: int|
            0 <= i < json_chars(text).len() ==> #[trigger] json_chars(text)[i] as u32 > 0x1f,
    decreases text.len(),
{
    if text.len() > 0 {
        let front = json_chars(text.drop_last());
        let last = json_char(text.last());
        lemma_json_chars_are_printable(text.drop_last());
        assert forall|i: int| 0 <= i < json_chars(text).len() implies #[trigger] json_chars(
            text,
        )[i] as u32 > 0x1f by {
            if i < front.len() {
                assert(json_chars(text)[i] == front[i]);
            } else {
                assert(json_chars(text)[i] == last[i - front.len()]);
            }
        }
    }
}

/// The bar is always as wide as it is.
pub proof fn law_bar_width(half_percent: usize)
    ensures
        bar(half_percent).len() == PROGRESS_BAR_WIDTH,
{
}

} // verus!

//! JSON Lines rendering of [`TransferEvent`]s: one JSON object per line, for
//! machine consumption.
use vstd::prelude::*;

use crate::json::{
    json_integer, json_object, json_string, members, object_new, object_text, put_signed, put_text,
    put_unsigned,
};
use crate::protocol::NANOS_PER_MILLI;
use crate::report::TransferEvent;

verus! {

/// The whole percent that `done` of `total` is.
pub open spec fn whole_percent(done: u32, total: u32) -> i32 {
    ((done * 100) / (total as int)) as i32
}

/// Whole milliseconds, as far as a `u64` counts them.
pub open spec fn whole_millis(nanos: u128) -> u64 {
    (nanos / NANOS_PER_MILLI) as u64
}

/// The members of the object for `event`; none when the event is not shown.
/// `progress` gates the per-chunk, pass and missing lines; progress is shown
/// only when its whole percent is not `last_pct`.
pub open spec fn event_members(progress: bool, last_pct: i32, event: TransferEvent<'_>) -> Option<
    Map<Seq<char>, Seq<char>>,
> {
    match event {
        TransferEvent::Sending { name, bytes, chunks } => Some(
            map![
                "event"@ => json_string("sending"@),
                "name"@ => json_string(name@),
                "bytes"@ => json_integer(bytes as int),
                "chunks"@ => json_integer(chunks as int)
            ],
        ),
        TransferEvent::PassStarted { pass, chunks } => if progress {
            Some(
                map![
                    "event"@ => json_string("pass"@),
                    "pass"@ => json_integer(pass as int),
                    "chunks"@ => json_integer(chunks as int)
                ],
            )
        } else {
            None
        },
        TransferEvent::Progress { done, total, elapsed, .. } => if progress && total > 0
            && whole_percent(done, total) != last_pct {
            Some(
                map![
                    "event"@ => json_string("progress"@),
                    "done"@ => json_integer(done as int),
                    "total"@ => json_integer(total as int),
                    "pct"@ => json_integer(whole_percent(done, total) as int),
                    "elapsed_ms"@ => json_integer(whole_millis(elapsed) as int)
                ],
            )
        } else {
            None
        },
        TransferEvent::Completed => Some(map!["event"@ => json_string("completed"@)]),
        TransferEvent::Listening { addr } => Some(
            map!["event"@ => json_string("listening"@), "addr"@ => json_string(addr@)],
        ),
        TransferEvent::Receiving { path, bytes, chunks, chunk_size } => Some(
            map![
                "event"@ => json_string("receiving"@),
                "path"@ => json_string(path@),
                "bytes"@ => json_integer(bytes as int),
                "chunks"@ => json_integer(chunks as int),
                "chunk_size"@ => json_integer(chunk_size as int)
            ],
        ),
        TransferEvent::MissingChunks { count } => if progress {
            Some(
                map![
                    "event"@ => json_string("missing"@),
                    "count"@ => json_integer(count as int)
                ],
            )
        } else {
            None
        },
        TransferEvent::Saved { path, bytes, elapsed } => Some(
            map![
                "event"@ => json_string("saved"@),
                "path"@ => json_string(path@),
                "bytes"@ => json_integer(bytes as int),
                "elapsed_ms"@ => json_integer(whole_millis(elapsed) as int)
            ],
        ),
        TransferEvent::BadInit { reason } => Some(
            map!["event"@ => json_string("bad_init"@), "reason"@ => json_string(reason@)],
        ),
        TransferEvent::Failed { reason } => Some(
            map!["event"@ => json_string("failed"@), "reason"@ => json_string(reason@)],
        ),
    }
}

/// The whole percent last seen, after `event`.
pub open spec fn percent_after(progress: bool, last_pct: i32, event: TransferEvent<'_>) -> i32 {
    match event {
        TransferEvent::Progress { done, total, .. } if progress && total > 0 => whole_percent(
            done,
            total,
        ),
        _ => last_pct,
    }
}

/// What is printed for `event`.
pub open spec fn jsonl_line(progress: bool, last_pct: i32, event: TransferEvent<'_>) -> Seq<char> {
    match event_members(progress, last_pct, event) {
        Some(members) => json_object(members) + "\n"@,
        None => Seq::empty(),
    }
}

/// A text with a line break at its end and nowhere else.
pub open spec fn is_one_line(text: Seq<char>) -> bool {
    &&& text.len() > 0
    &&& text.last() == '\n'
    &&& !text.drop_last().contains('\n')
}

/// Renders events as JSON Lines, progress no oftener than once per whole percent.
pub struct JsonlReporter {
    progress: bool,
    last_pct: i32,
}

impl JsonlReporter {
    /// Whether progress is shown.
    pub closed spec fn shows_progress(&self) -> bool {
        self.progress
    }

    /// The whole percent that was shown last.
    pub closed spec fn last_percent(&self) -> i32 {
        self.last_pct
    }

    pub fn new(progress: bool) -> (reporter: Self)
        ensures
            reporter.shows_progress() == progress,
            reporter.last_percent() == -1,
            forall|done: u32, total: u32|
                total > 0 && done <= total ==> #[trigger] whole_percent(done, total)
                    != reporter.last_percent(),
    {
        assert forall|done: u32, total: u32| total > 0 && done <= total implies
            #[trigger] whole_percent(done, total) != -1 by {
            let d = done * 100;
            let t = total as int;
            assert(0 <= d / t <= 100) by (nonlinear_arith)
                requires
                    0 <= d <= t * 100,
                    t > 0,
            ;
        }
        JsonlReporter { progress, last_pct: -1 }
    }

    /// The object for `event`, if the event is shown.
    pub fn event_value(&mut self, event: TransferEvent<'_>) -> (value: Option<
        serde_json::Map<String, serde_json::Value>,
    >)
        ensures
            final(self).shows_progress() == old(self).shows_progress(),
            final(self).last_percent() == percent_after(
                old(self).shows_progress(),
                old(self).last_percent(),
                event,
            ),
            match value {
                Some(object) => event_members(
                    old(self).shows_progress(),
                    old(self).last_percent(),
                    event,
                ) == Some(members(object)),
                None => event_members(
                    old(self).shows_progress(),
                    old(self).last_percent(),
                    event,
                ) is None,
            },
    {
        let mut object = object_new();
        match event {
            TransferEvent::Sending { name, bytes, chunks } => {
                put_text(&mut object, "event", "sending");
                put_text(&mut object, "name", name);
                put_unsigned(&mut object, "bytes", bytes);
                put_unsigned(&mut object, "chunks", chunks as u64);
            },
            TransferEvent::PassStarted { pass, chunks } => {
                if !self.progress {
                    return None;
                }
                put_text(&mut object, "event", "pass");
                put_unsigned(&mut object, "pass", pass as u64);
                put_unsigned(&mut object, "chunks", chunks as u64);
            },
            TransferEvent::Progress { done, total, elapsed, .. } => {
                if !self.progress || total == 0 {
                    return None;
                }
                let pct: i32 = (done as u64 * 100 / total as u64) as i32;
                let last_pct: i32 = self.last_pct;
                self.last_pct = pct;
                if last_pct == pct {
                    return None;
                }
                put_text(&mut object, "event", "progress");
                put_unsigned(&mut object, "done", done as u64);
                put_unsigned(&mut object, "total", total as u64);
                put_signed(&mut object, "pct", pct);
                put_unsigned(&mut object, "elapsed_ms", (elapsed / NANOS_PER_MILLI) as u64);
            },
            TransferEvent::Completed => {
                put_text(&mut object, "event", "completed");
            },
            TransferEvent::Listening { addr } => {
                put_text(&mut object, "event", "listening");
                put_text(&mut object, "addr", addr);
            },
            TransferEvent::Receiving { path, bytes, chunks, chunk_size } => {
                put_text(&mut object, "event", "receiving");
                put_text(&mut object, "path", path);
                put_unsigned(&mut object, "bytes", bytes);
                put_unsigned(&mut object, "chunks", chunks as u64);
                put_unsigned(&mut object, "chunk_size", chunk_size as u64);
            },
            TransferEvent::MissingChunks { count } => {
                if !self.progress {
                    return None;
                }
                put_text(&mut object, "event", "missing");
                put_unsigned(&mut object, "count", count as u64);
            },
            TransferEvent::Saved { path, bytes, elapsed } => {
                put_text(&mut object, "event", "saved");
                put_text(&mut object, "path", path);
                put_unsigned(&mut object, "bytes", bytes);
                put_unsigned(&mut object, "elapsed_ms", (elapsed / NANOS_PER_MILLI) as u64);
            },
            TransferEvent::BadInit { reason } => {
                put_text(&mut object, "event", "bad_init");
                put_text(&mut object, "reason", reason);
            },
            TransferEvent::Failed { reason } => {
                put_text(&mut object, "event", "failed");
                put_text(&mut object, "reason", reason);
            },
        }
        Some(object)
    }

    /// The line for `event`, or nothing if the event is not shown.
    pub fn render(&mut self, event: TransferEvent<'_>) -> (line: String)
        ensures
            final(self).shows_progress() == old(self).shows_progress(),
            final(self).last_percent() == percent_after(
                old(self).shows_progress(),
                old(self).last_percent(),
                event,
            ),
            line@ == jsonl_line(old(self).shows_progress(), old(self).last_percent(), event),
            line@.len() > 0 ==> is_one_line(line@),
    {
        match self.event_value(event) {
            Some(object) => {
                let mut line = object_text(object);
                let ghost text = line@;
                line.append("\n");
                proof {
                    reveal_strlit("\n");
                    assert(line@.drop_last() == text);
                }
                line
            },
            None => {
                proof {
                    reveal_strlit("");
                }
                String::from_str("")
            },
        }
    }
}

} // verus!

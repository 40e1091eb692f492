//! What is shown is what was reported: each figure, each name, and nothing else.
use vstd::prelude::*;

use crate::json::{json_char, json_chars, json_object, json_string};
use crate::jsonl_reporter::{
    event_members, jsonl_line, percent_after, whole_millis, whole_percent,
};
use crate::report::TransferEvent;
use crate::text::decimal;
use crate::text_reporter::{
    bar, bar_left, bar_line, draws_bar, error_line, shown, status_line, Figures,
};

verus! {

/// A span is shown in whole milliseconds: as many as it holds, and it does not hold one
/// more, whatever its length, as long as a `u64` counts them.
pub proof fn law_whole_millis(nanos: u128)
    requires
        nanos < 0x1_0000_0000_0000_0000 * 1_000_000,
    ensures
        whole_millis(nanos) * 1_000_000 <= nanos < (whole_millis(nanos) + 1) * 1_000_000,
{
}

/// A longer span is never shown as a shorter one, and a millisecond more is shown as one.
pub proof fn law_millis_grow(nanos: u128, longer: u128)
    requires
        nanos <= longer < 0x1_0000_0000_0000_0000 * 1_000_000,
    ensures
        whole_millis(nanos) <= whole_millis(longer),
        longer == nanos + 1_000_000 ==> whole_millis(longer) == whole_millis(nanos) + 1,
{
}

/// Progress is shown in whole percent: as many hundredths of the whole as are done, and
/// not one more is. All is a hundred, and nothing is none.
pub proof fn law_whole_percent(done: u32, total: u32)
    requires
        total > 0,
        done * 100 < 0x8000_0000 * total,
    ensures
        whole_percent(done, total) * total <= done * 100 < (whole_percent(done, total) + 1) * total,
        done == total ==> whole_percent(done, total) == 100,
        done < total ==> 0 <= whole_percent(done, total) < 100,
{
    let t = total as int;
    let d = done * 100;
    let q = d / t;
    vstd::arithmetic::div_mod::lemma_fundamental_div_mod(d, t);
    assert(0 <= d % t < t && t * q == q * t && (q + 1) * t == q * t + t) by (nonlinear_arith)
        requires
            t > 0,
            q == d / t,
    ;
    assert(0 <= q < 0x8000_0000) by (nonlinear_arith)
        requires
            q * t <= d,
            d < (q + 1) * t,
            0 <= d < 0x8000_0000 * t,
            t > 0,
    ;
    if done == total {
        assert(q == 100) by (nonlinear_arith)
            requires
                q * t <= 100 * t,
                100 * t < (q + 1) * t,
                t > 0,
        ;
    }
    if done < total {
        assert(q < 100) by (nonlinear_arith)
            requires
                q * t <= d,
                d < 100 * t,
                t > 0,
        ;
    }
}

/// The member `name` is this text.
pub open spec fn tells(members: Map<Seq<char>, Seq<char>>, name: Seq<char>, text: Seq<char>) -> bool {
    members.contains_key(name) && members[name] == json_string(text)
}

/// The member `name` is this number.
pub open spec fn counts(members: Map<Seq<char>, Seq<char>>, name: Seq<char>, n: int) -> bool {
    members.contains_key(name) && members[name] == decimal(n as nat)
}

/// The names of the members differ.
proof fn lemma_member_names()
    ensures
        "event"@.len() == 5,
        "event"@[0] == 'e',
        "name"@.len() == 4,
        "bytes"@.len() == 5,
        "bytes"@[0] == 'b',
        "chunks"@.len() == 6,
        "pass"@.len() == 4,
        "done"@.len() == 4,
        "total"@.len() == 5,
        "total"@[0] == 't',
        "pct"@.len() == 3,
        "elapsed_ms"@.len() == 10,
        "elapsed_ms"@[0] == 'e',
        "addr"@.len() == 4,
        "path"@.len() == 4,
        "chunk_size"@.len() == 10,
        "count"@.len() == 5,
        "count"@[0] == 'c',
        "reason"@.len() == 6,
{
    reveal_strlit("event");
    reveal_strlit("name");
    reveal_strlit("bytes");
    reveal_strlit("chunks");
    reveal_strlit("pass");
    reveal_strlit("done");
    reveal_strlit("total");
    reveal_strlit("pct");
    reveal_strlit("elapsed_ms");
    reveal_strlit("addr");
    reveal_strlit("path");
    reveal_strlit("chunk_size");
    reveal_strlit("count");
    reveal_strlit("reason");
}

/// The object for an event tells what kind of event it is and each of its values, under
/// the name of each, and nothing else.
pub proof fn law_event_is_told(progress: bool, last_pct: i32, event: TransferEvent<'_>)
    ensures
        event_members(progress, last_pct, event) matches Some(m) ==> match event {
            TransferEvent::Sending { name, bytes, chunks } => {
                &&& tells(m, "event"@, "sending"@)
                &&& tells(m, "name"@, name@)
                &&& counts(m, "bytes"@, bytes as int)
                &&& counts(m, "chunks"@, chunks as int)
                &&& m.dom() == set!["event"@, "name"@, "bytes"@, "chunks"@]
            },
            TransferEvent::PassStarted { pass, chunks } => {
                &&& tells(m, "event"@, "pass"@)
                &&& counts(m, "pass"@, pass as int)
                &&& counts(m, "chunks"@, chunks as int)
                &&& m.dom() == set!["event"@, "pass"@, "chunks"@]
            },
            TransferEvent::Progress { done, total, elapsed, .. } => {
                &&& tells(m, "event"@, "progress"@)
                &&& counts(m, "done"@, done as int)
                &&& counts(m, "total"@, total as int)
                &&& done <= total ==> counts(m, "pct"@, whole_percent(done, total) as int)
                &&& counts(m, "elapsed_ms"@, whole_millis(elapsed) as int)
                &&& m.dom() == set!["event"@, "done"@, "total"@, "pct"@, "elapsed_ms"@]
            },
            TransferEvent::Completed => {
                &&& tells(m, "event"@, "completed"@)
                &&& m.dom() == set!["event"@]
            },
            TransferEvent::Listening { addr } => {
                &&& tells(m, "event"@, "listening"@)
                &&& tells(m, "addr"@, addr@)
                &&& m.dom() == set!["event"@, "addr"@]
            },
            TransferEvent::Receiving { path, bytes, chunks, chunk_size } => {
                &&& tells(m, "event"@, "receiving"@)
                &&& tells(m, "path"@, path@)
                &&& counts(m, "bytes"@, bytes as int)
                &&& counts(m, "chunks"@, chunks as int)
                &&& counts(m, "chunk_size"@, chunk_size as int)
                &&& m.dom() == set!["event"@, "path"@, "bytes"@, "chunks"@, "chunk_size"@]
            },
            TransferEvent::MissingChunks { count } => {
                &&& tells(m, "event"@, "missing"@)
                &&& counts(m, "count"@, count as int)
                &&& m.dom() == set!["event"@, "count"@]
            },
            TransferEvent::Saved { path, bytes, elapsed } => {
                &&& tells(m, "event"@, "saved"@)
                &&& tells(m, "path"@, path@)
                &&& counts(m, "bytes"@, bytes as int)
                &&& counts(m, "elapsed_ms"@, whole_millis(elapsed) as int)
                &&& m.dom() == set!["event"@, "path"@, "bytes"@, "elapsed_ms"@]
            },
            TransferEvent::BadInit { reason } => {
                &&& tells(m, "event"@, "bad_init"@)
                &&& tells(m, "reason"@, reason@)
                &&& m.dom() == set!["event"@, "reason"@]
            },
            TransferEvent::Failed { reason } => {
                &&& tells(m, "event"@, "failed"@)
                &&& tells(m, "reason"@, reason@)
                &&& m.dom() == set!["event"@, "reason"@]
            },
        },
{
    lemma_member_names();
    if let TransferEvent::Progress { done, total, .. } = event {
        if done <= total && total > 0 {
            law_whole_percent(done, total);
        }
    }
}

/// Every event that tells of the outcome is shown; passes and missing chunks are if
/// progress is; and progress is whenever its whole percent is another than the last one.
pub proof fn law_event_is_shown(progress: bool, last_pct: i32, event: TransferEvent<'_>)
    ensures
        event_members(progress, last_pct, event) is Some <==> match event {
            TransferEvent::PassStarted { .. } => progress,
            TransferEvent::MissingChunks { .. } => progress,
            TransferEvent::Progress { done, total, .. } => progress && total > 0 && whole_percent(
                done,
                total,
            ) != last_pct,
            _ => true,
        },
        percent_after(progress, last_pct, event) == last_pct || event is Progress,
        event matches TransferEvent::Progress { done, total, .. } ==> {
            &&& progress && total > 0 ==> percent_after(progress, last_pct, event)
                == whole_percent(done, total)
            &&& !(progress && total > 0) ==> percent_after(progress, last_pct, event) == last_pct
        },
{
}

/// An event that is shown makes one line, of its object; one that is not makes none.
pub proof fn law_object_makes_line(progress: bool, last_pct: i32, event: TransferEvent<'_>)
    ensures
        match event_members(progress, last_pct, event) {
            Some(m) => jsonl_line(progress, last_pct, event) == json_object(m) + seq!['\n'],
            None => jsonl_line(progress, last_pct, event).len() == 0,
        },
{
    reveal_strlit("\n");
    assert("\n"@ =~= seq!['\n']);
}

/// The value of a hexadecimal digit.
pub open spec fn hex_value(c: char) -> int {
    if '0' <= c <= '9' {
        c as int - '0' as int
    } else {
        c as int - 'a' as int + 10
    }
}

/// One more code in front of those that follow, if these are sound.
pub open spec fn with_code(code: int, rest: Option<Seq<int>>) -> Option<Seq<int>> {
    match rest {
        Some(codes) => Some(seq![code] + codes),
        None => None,
    }
}

/// The codes of the characters that the inside of a JSON string stands for. A quote or a
/// control character may not stand there bare, and a backslash starts an escape.
pub open spec fn json_read(text: Seq<char>) -> Option<Seq<int>>
    decreases text.len(),
{
    if text.len() == 0 {
        Some(Seq::empty())
    } else if text[0] == '"' || (text[0] as u32) < 0x20 {
        None
    } else if text[0] != '\\' {
        with_code(text[0] as int, json_read(text.skip(1)))
    } else if text.len() < 2 {
        None
    } else if text[1] == '"' || text[1] == '\\' || text[1] == '/' {
        with_code(text[1] as int, json_read(text.skip(2)))
    } else if text[1] == 'b' {
        with_code(8, json_read(text.skip(2)))
    } else if text[1] == 't' {
        with_code(9, json_read(text.skip(2)))
    } else if text[1] == 'n' {
        with_code(10, json_read(text.skip(2)))
    } else if text[1] == 'f' {
        with_code(12, json_read(text.skip(2)))
    } else if text[1] == 'r' {
        with_code(13, json_read(text.skip(2)))
    } else if text[1] == 'u' && text.len() >= 6 {
        with_code(
            hex_value(text[2]) * 4096 + hex_value(text[3]) * 256 + hex_value(text[4]) * 16
                + hex_value(text[5]),
            json_read(text.skip(6)),
        )
    } else {
        None
    }
}

/// The codes of the characters of a text.
pub open spec fn codes(text: Seq<char>) -> Seq<int> {
    text.map_values(|c: char| c as int)
}

/// An escaped character is read as the character.
proof fn lemma_read_char(c: char, rest: Seq<char>)
    ensures
        json_read(json_char(c) + rest) == with_code(c as int, json_read(rest)),
{
    let all = json_char(c) + rest;
    assert(all.skip(json_char(c).len() as int) =~= rest);
}

/// The characters of a text inside a JSON string are those of its first one, then those
/// of the rest.
proof fn lemma_first_char(text: Seq<char>)
    requires
        text.len() > 0,
    ensures
        json_chars(text) == json_char(text[0]) + json_chars(text.drop_first()),
    decreases text.len(),
{
    let front = text.drop_last();
    if front.len() > 0 {
        lemma_first_char(front);
        assert(front.drop_first() =~= text.drop_first().drop_last());
        assert(json_chars(text) =~= json_char(text[0]) + (json_chars(front.drop_first())
            + json_char(text.last())));
    } else {
        assert(json_chars(front) =~= Seq::empty());
        assert(json_chars(text.drop_first()) =~= Seq::empty());
        assert(text.last() == text[0]);
        assert(json_chars(text) =~= json_char(text[0]));
        assert(json_char(text[0]) + json_chars(text.drop_first()) =~= json_char(text[0]));
    }
}

/// A JSON string is read back as the text that it was made from, whatever that holds; so
/// no two texts have the same one.
pub proof fn law_json_string_is_read_back(text: Seq<char>)
    ensures
        ({
            let s = json_string(text);
            &&& s.len() >= 2
            &&& s[0] == '"'
            &&& s.last() == '"'
            &&& json_read(s.subrange(1, s.len() - 1)) == Some(codes(text))
        }),
    decreases text.len(),
{
    let s = json_string(text);
    assert(s.subrange(1, s.len() - 1) =~= json_chars(text));
    if text.len() > 0 {
        let rest = text.drop_first();
        law_json_string_is_read_back(rest);
        let r = json_string(rest);
        assert(r.subrange(1, r.len() - 1) =~= json_chars(rest));
        lemma_first_char(text);
        lemma_read_char(text[0], json_chars(rest));
        assert(seq![text[0] as int] + codes(rest) =~= codes(text));
    } else {
        assert(codes(text) =~= Seq::empty());
    }
}

/// Only what has to be is escaped in a JSON string: quotes, backslashes and the control
/// characters below 0x20. A text without any of them stands there as it is.
pub proof fn law_plain_text_is_not_escaped(text: Seq<char>, c: char)
    ensures
        json_char(c) == seq![c] <==> c != '"' && c != '\\' && c as u32 >= 0x20,
        (forall|i: int|
            0 <= i < text.len() ==> #[trigger] text[i] != '"' && text[i] != '\\' && text[i] as u32
                >= 0x20) ==> json_string(text) == seq!['"'] + text + seq!['"'],
    decreases text.len(),
{
    if c == '"' || c == '\\' || (c as u32) < 0x20 {
        assert(json_char(c).len() > 1);
    }
    if forall|i: int|
        0 <= i < text.len() ==> #[trigger] text[i] != '"' && text[i] != '\\' && text[i] as u32
            >= 0x20 {
        if text.len() > 0 {
            let front = text.drop_last();
            assert forall|i: int| 0 <= i < front.len() implies #[trigger] front[i] != '"'
                && front[i] != '\\' && front[i] as u32 >= 0x20 by {
                assert(front[i] == text[i]);
            }
            law_plain_text_is_not_escaped(front, c);
            let s = json_string(front);
            assert(json_chars(front) =~= s.subrange(1, s.len() - 1));
            assert(front =~= s.subrange(1, s.len() - 1));
            assert(text.last() == text[text.len() - 1]);
            assert(json_chars(text) =~= text);
        } else {
            assert(json_chars(text) =~= text);
        }
    }
}

/// A sign of the bar is a `#` exactly where less than the half percentage lies before
/// it, and the bar is fifty signs wide.
pub proof fn law_bar_is_filled(half_percent: usize)
    ensures
        bar(half_percent).len() == 50,
        forall|i: int|
            0 <= i < 50 ==> #[trigger] bar(half_percent)[i] == if i < half_percent {
                '#'
            } else {
                '.'
            },
{
}

/// The line of the bar starts at the left of the terminal, and tells what is done, of
/// how much, in percent, and how fast.
pub proof fn law_bar_line(done: u32, total: u32, figures: Figures<'_>)
    ensures
        bar_line(done, total, figures) == "\r["@ + bar(figures.half_percent) + "] "@
            + figures.percent@ + "%  "@ + decimal(done as nat) + "/"@ + decimal(total as nat) + "  "@
            + figures.rate@ + " KiB/s"@,
        bar_line(done, total, figures).len() > 0,
        bar_line(done, total, figures)[0] == '\r',
        !bar(figures.half_percent).contains('\n'),
{
    reveal_strlit("\r[");
}

/// A bar is drawn for progress alone, if progress is shown and there is any. It stays
/// until another event ends its line; that event starts on a line of its own.
pub proof fn law_bar_owns_its_line(
    progress: bool,
    bar_active: bool,
    event: TransferEvent<'_>,
    figures: Figures<'_>,
)
    ensures
        draws_bar(progress, event) <==> {
            &&& progress
            &&& event matches TransferEvent::Progress { total, .. }
            &&& total > 0
        },
        bar_left(progress, bar_active, event) <==> event is Progress && (bar_active || draws_bar(
            progress,
            event,
        )),
        event matches TransferEvent::Progress { done, total, .. } ==> {
            &&& progress && total > 0 ==> shown(progress, bar_active, event, figures) == bar_line(
                done,
                total,
                figures,
            )
            &&& !(progress && total > 0) ==> shown(progress, bar_active, event, figures).len() == 0
        },
        !(event is Progress) ==> {
            &&& shown(progress, false, event, figures) == status_line(progress, event, figures)
            &&& shown(progress, true, event, figures) == seq!['\n'] + status_line(
                progress,
                event,
                figures,
            )
        },
{
    reveal_strlit("\n");
    assert("\n"@ =~= seq!['\n']);
}

/// Each line holds the values of its event, in these words: names and reasons as they
/// are, numbers in decimal. What goes wrong is told on the standard error, and the rest
/// on the standard output.
pub proof fn law_lines(progress: bool, event: TransferEvent<'_>, figures: Figures<'_>)
    ensures
        ({
            let line = status_line(progress, event, figures);
            let error = error_line(event);
            match event {
                TransferEvent::Sending { name, bytes, chunks } => line == "sending "@ + name@
                    + "  "@ + decimal(bytes as nat) + " bytes  "@ + decimal(chunks as nat)
                    + " chunks\n"@,
                TransferEvent::PassStarted { pass, chunks } => progress ==> line == "pass "@
                    + decimal(pass as nat) + "  "@ + decimal(chunks as nat) + " chunks\n"@,
                TransferEvent::Progress { .. } => line.len() == 0,
                TransferEvent::Completed => line == "✓ transfer complete\n"@,
                TransferEvent::Listening { addr } => line == "listening on "@ + addr@ + "\n"@,
                TransferEvent::Receiving { path, bytes, chunks, chunk_size } => line
                    == "receiving "@ + path@ + "  "@ + decimal(bytes as nat) + " bytes  "@
                    + decimal(chunks as nat) + " chunks  chunk="@ + decimal(chunk_size as nat)
                    + "\n"@,
                TransferEvent::MissingChunks { count } => progress ==> line == "  "@ + decimal(
                    count as nat,
                ) + " missing\n"@,
                TransferEvent::Saved { path, .. } => line == "✓ saved "@ + path@ + "  "@
                    + figures.rate@ + " MiB/s avg\n"@,
                TransferEvent::BadInit { reason } => {
                    &&& line.len() == 0
                    &&& error == "bad init packet: "@ + reason@ + "\n"@
                },
                TransferEvent::Failed { reason } => {
                    &&& line.len() == 0
                    &&& error == "transfer failed: "@ + reason@ + "\n"@
                },
            }
        }),
        event is PassStarted || event is MissingChunks ==> !progress ==> status_line(
            progress,
            event,
            figures,
        ).len() == 0,
        !(event is BadInit) && !(event is Failed) ==> error_line(event).len() == 0,
{
}

} // verus!

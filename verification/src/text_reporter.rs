//! Terminal rendering of [`TransferEvent`]s.
use vstd::prelude::*;

use crate::report::TransferEvent;
use crate::text::{decimal, put_decimal};

verus! {

pub const PROGRESS_BAR_WIDTH: usize = 50;

/// The fractional figures of an event, as they are to be shown. Only progress and
/// a saved file have any.
#[derive(Clone, Copy, Debug)]
pub struct Figures<'a> {
    /// How much is done, in percent.
    pub percent: &'a str,
    /// Half the percentage, rounded down.
    pub half_percent: usize,
    /// The rate: in KiB/s for progress, in MiB/s for a saved file.
    pub rate: &'a str,
}

/// What is printed for an event.
#[derive(Debug)]
pub struct Rendered {
    pub out: String,
    pub err: String,
}

/// `n` times the character `c`.
pub open spec fn repeated(c: char, n: nat) -> Seq<char> {
    Seq::new(n, |i: int| c)
}

/// The bar: one sign for every two percent, and never more than it is wide.
pub open spec fn bar(half_percent: usize) -> Seq<char> {
    let filled = if half_percent <= PROGRESS_BAR_WIDTH {
        half_percent as nat
    } else {
        PROGRESS_BAR_WIDTH as nat
    };
    repeated('#', filled) + repeated('.', (PROGRESS_BAR_WIDTH - filled) as nat)
}

/// The line of the progress bar, drawn over the one before it.
pub open spec fn bar_line(done: u32, total: u32, figures: Figures<'_>) -> Seq<char> {
    "\r["@ + bar(figures.half_percent) + "] "@ + figures.percent@ + "%  "@ + decimal(done as nat)
        + "/"@ + decimal(total as nat) + "  "@ + figures.rate@ + " KiB/s"@
}

/// The line for `event` on the standard output, other than that of the bar.
pub open spec fn status_line(progress: bool, event: TransferEvent<'_>, figures: Figures<'_>) -> Seq<
    char,
> {
    match event {
        TransferEvent::Sending { name, bytes, chunks } => "sending "@ + name@ + "  "@ + decimal(
            bytes as nat,
        ) + " bytes  "@ + decimal(chunks as nat) + " chunks\n"@,
        TransferEvent::PassStarted { pass, chunks } => if progress {
            "pass "@ + decimal(pass as nat) + "  "@ + decimal(chunks as nat) + " chunks\n"@
        } else {
            Seq::empty()
        },
        TransferEvent::Completed => "✓ transfer complete\n"@,
        TransferEvent::Listening { addr } => "listening on "@ + addr@ + "\n"@,
        TransferEvent::Receiving { path, bytes, chunks, chunk_size } => "receiving "@ + path@
            + "  "@ + decimal(bytes as nat) + " bytes  "@ + decimal(chunks as nat)
            + " chunks  chunk="@ + decimal(chunk_size as nat) + "\n"@,
        TransferEvent::MissingChunks { count } => if progress {
            "  "@ + decimal(count as nat) + " missing\n"@
        } else {
            Seq::empty()
        },
        TransferEvent::Saved { path, .. } => "✓ saved "@ + path@ + "  "@ + figures.rate@
            + " MiB/s avg\n"@,
        _ => Seq::empty(),
    }
}

/// The line for `event` on the standard error.
pub open spec fn error_line(event: TransferEvent<'_>) -> Seq<char> {
    match event {
        TransferEvent::BadInit { reason } => "bad init packet: "@ + reason@ + "\n"@,
        TransferEvent::Failed { reason } => "transfer failed: "@ + reason@ + "\n"@,
        _ => Seq::empty(),
    }
}

/// Whether a bar is drawn for `event`.
pub open spec fn draws_bar(progress: bool, event: TransferEvent<'_>) -> bool {
    event matches TransferEvent::Progress { total, .. } && progress && total > 0
}

/// What `event` puts on the standard output: a bar, or a line that starts fresh.
pub open spec fn shown(
    progress: bool,
    bar_active: bool,
    event: TransferEvent<'_>,
    figures: Figures<'_>,
) -> Seq<char> {
    match event {
        TransferEvent::Progress { done, total, .. } => if draws_bar(progress, event) {
            bar_line(done, total, figures)
        } else {
            Seq::empty()
        },
        _ => if bar_active {
            "\n"@ + status_line(progress, event, figures)
        } else {
            status_line(progress, event, figures)
        },
    }
}

/// Whether the cursor is left behind a bar.
pub open spec fn bar_left(progress: bool, bar_active: bool, event: TransferEvent<'_>) -> bool {
    if event is Progress {
        bar_active || draws_bar(progress, event)
    } else {
        false
    }
}

/// Renders events as status lines and a progress bar for the standard output and
/// diagnostics for the standard error. `progress` gates the per-chunk bar and
/// the pass/missing lines; `bar_active` tracks whether the in-place bar still
/// owns the current line so the next status line starts cleanly.
pub struct TextReporter {
    progress: bool,
    bar_active: bool,
}

impl TextReporter {
    /// Whether progress is shown.
    pub closed spec fn shows_progress(&self) -> bool {
        self.progress
    }

    /// Whether a bar owns the current line.
    pub closed spec fn bar_active(&self) -> bool {
        self.bar_active
    }

    pub fn new(progress: bool) -> (reporter: Self)
        ensures
            reporter.shows_progress() == progress,
            !reporter.bar_active(),
    {
        TextReporter { progress, bar_active: false }
    }

    /// Draws the progress bar, if progress is shown and there is any to show.
    pub fn draw_progress_bar(
        &mut self,
        done: u32,
        total: u32,
        figures: Figures<'_>,
        out: &mut String,
    )
        ensures
            final(self).shows_progress() == old(self).shows_progress(),
            final(self).bar_active() == (old(self).bar_active() || (old(self).shows_progress()
                && total > 0)),
            final(out)@ == if old(self).shows_progress() && total > 0 {
                old(out)@ + bar_line(done, total, figures)
            } else {
                old(out)@
            },
    {
        if !self.progress || total == 0 {
            return ;
        }
        let filled: usize = if figures.half_percent <= PROGRESS_BAR_WIDTH {
            figures.half_percent
        } else {
            PROGRESS_BAR_WIDTH
        };
        proof {
            reveal_strlit("#");
            reveal_strlit(".");
            assert("#"@ =~= seq!['#']);
            assert("."@ =~= seq!['.']);
        }
        out.append("\r[");
        put_repeated(out, "#", '#', filled);
        put_repeated(out, ".", '.', PROGRESS_BAR_WIDTH - filled);
        out.append("] ");
        out.append(figures.percent);
        out.append("%  ");
        put_decimal(out, done as u64);
        out.append("/");
        put_decimal(out, total as u64);
        out.append("  ");
        out.append(figures.rate);
        out.append(" KiB/s");
        assert(out@ =~= old(out)@ + bar_line(done, total, figures));
        self.bar_active = true;
    }

    /// What to print for `event`.
    pub fn render(&mut self, event: TransferEvent<'_>, figures: Figures<'_>) -> (rendered: Rendered)
        ensures
            final(self).shows_progress() == old(self).shows_progress(),
            final(self).bar_active() == bar_left(
                old(self).shows_progress(),
                old(self).bar_active(),
                event,
            ),
            rendered.out@ == shown(
                old(self).shows_progress(),
                old(self).bar_active(),
                event,
                figures,
            ),
            rendered.err@ == error_line(event),
    {
        proof {
            reveal_strlit("");
        }
        let mut out = String::from_str("");
        let mut err = String::from_str("");
        if let TransferEvent::Progress { done, total, .. } = event {
            self.draw_progress_bar(done, total, figures, &mut out);
            return Rendered { out, err };
        }
        // Any non-progress line must start fresh, so close a pending bar first.
        if self.bar_active {
            self.bar_active = false;
            out.append("\n");
        }
        let ghost before = out@;
        match event {
            TransferEvent::Sending { name, bytes, chunks } => {
                out.append("sending ");
                out.append(name);
                out.append("  ");
                put_decimal(&mut out, bytes);
                out.append(" bytes  ");
                put_decimal(&mut out, chunks as u64);
                out.append(" chunks\n");
            },
            TransferEvent::PassStarted { pass, chunks } => {
                if self.progress {
                    out.append("pass ");
                    put_decimal(&mut out, pass as u64);
                    out.append("  ");
                    put_decimal(&mut out, chunks as u64);
                    out.append(" chunks\n");
                }
            },
            TransferEvent::Completed => {
                out.append("✓ transfer complete\n");
            },
            TransferEvent::Listening { addr } => {
                out.append("listening on ");
                out.append(addr);
                out.append("\n");
            },
            TransferEvent::Receiving { path, bytes, chunks, chunk_size } => {
                out.append("receiving ");
                out.append(path);
                out.append("  ");
                put_decimal(&mut out, bytes);
                out.append(" bytes  ");
                put_decimal(&mut out, chunks as u64);
                out.append(" chunks  chunk=");
                put_decimal(&mut out, chunk_size as u64);
                out.append("\n");
            },
            TransferEvent::MissingChunks { count } => {
                if self.progress {
                    out.append("  ");
                    put_decimal(&mut out, count as u64);
                    out.append(" missing\n");
                }
            },
            TransferEvent::Saved { path, .. } => {
                out.append("✓ saved ");
                out.append(path);
                out.append("  ");
                out.append(figures.rate);
                out.append(" MiB/s avg\n");
            },
            TransferEvent::BadInit { reason } => {
                err.append("bad init packet: ");
                err.append(reason);
                err.append("\n");
            },
            TransferEvent::Failed { reason } => {
                err.append("transfer failed: ");
                err.append(reason);
                err.append("\n");
            },
            TransferEvent::Progress { .. } => {},
        }
        assert(out@ =~= before + status_line(old(self).progress, event, figures));
        assert(err@ =~= error_line(event));
        Rendered { out, err }
    }
}

/// Appends `n` times the one character of `sign`.
fn put_repeated(out: &mut String, sign: &str, c: char, n: usize)
    requires
        sign@ == seq![c],
    ensures
        final(out)@ == old(out)@ + repeated(c, n as nat),
{
    let mut i: usize = 0;
    assert(repeated(c, 0) =~= Seq::empty());
    while i < n
        invariant
            i <= n,
            sign@ == seq![c],
            out@ == old(out)@ + repeated(c, i as nat),
        decreases n - i,
    {
        out.append(sign);
        i += 1;
        assert(repeated(c, i as nat) =~= repeated(c, (i - 1) as nat).push(c));
    }
}

} // verus!

use std::time::Duration;

use serde_json::Value;

use udpcp::text_reporter::{Figures, Rendered};
use udpcp::{JsonlReporter, NullReporter, TextReporter, TransferEvent, TransferReporter};

fn progress(done: u32, total: u32) -> TransferEvent<'static> {
    TransferEvent::Progress { done, total, chunk_size: 1400, elapsed: Duration::from_secs(1).as_nanos() }
}

fn line(reporter: &mut JsonlReporter, event: TransferEvent<'_>) -> String {
    reporter.render(event)
}

fn parse(s: &str) -> Value {
    serde_json::from_str(s.trim_end()).unwrap()
}

#[test]
fn milestones_render_one_object_per_line() {
    let mut r = JsonlReporter::new(false);
    let text = line(&mut r, TransferEvent::Sending { name: "f.bin", bytes: 5000, chunks: 4 });
    assert_eq!(text, "{\"bytes\":5000,\"chunks\":4,\"event\":\"sending\",\"name\":\"f.bin\"}\n");
    let v = parse(&text);

    assert_eq!(v["event"], "sending");
    assert_eq!(v["name"], "f.bin");
    assert_eq!(v["bytes"], 5000);
    assert_eq!(v["chunks"], 4);

    let saved = parse(&line(
        &mut r,
        TransferEvent::Saved {
            path: "out.bin",
            bytes: 2048,
            elapsed: Duration::from_millis(500).as_nanos(),
        },
    ));

    assert_eq!(saved["event"], "saved");
    assert_eq!(saved["path"], "out.bin");
    assert_eq!(saved["elapsed_ms"], 500);
}

#[test]
fn bad_init_reason_is_escaped() {
    let mut r = JsonlReporter::new(false);
    let out = line(&mut r, TransferEvent::BadInit { reason: "weird \"name\"\twith ctrl" });

    // Valid JSON despite quotes and a tab in the string.
    let v = parse(&out);

    assert_eq!(v["event"], "bad_init");
    assert_eq!(v["reason"], "weird \"name\"\twith ctrl");
}

#[test]
fn line_breaks_in_a_string_do_not_break_the_line() {
    let mut r = JsonlReporter::new(false);
    let out = line(&mut r, TransferEvent::BadInit { reason: "a\nb\u{1b}" });
    assert_eq!(out.matches('\n').count(), 1);
    assert!(out.ends_with('\n'));
    assert_eq!(parse(&out)["reason"], "a\nb\u{1b}");
    assert_eq!(out, "{\"event\":\"bad_init\",\"reason\":\"a\\nb\\u001b\"}\n");
    let out = line(&mut r, TransferEvent::BadInit { reason: "\"\\/\u{8}\t\u{c}\r\u{0}\u{f}\u{7f}ž" });
    assert_eq!(
        out,
        "{\"event\":\"bad_init\",\"reason\":\"\\\"\\\\/\\b\\t\\f\\r\\u0000\\u000f\u{7f}ž\"}\n"
    );
}

#[test]
fn failed_event_renders_reason() {
    let mut r = JsonlReporter::new(false);
    let v = parse(&line(
        &mut r,
        TransferEvent::Failed { reason: "integrity check failed: SHA-256 mismatch" },
    ));

    assert_eq!(v["event"], "failed");
    assert_eq!(v["reason"], "integrity check failed: SHA-256 mismatch");
}

#[test]
fn progress_throttles_to_whole_percent() {
    let mut r = JsonlReporter::new(true);
    let ev = |done| progress(done, 200);

    assert!(!line(&mut r, ev(0)).is_empty()); // 0%: first
    assert!(line(&mut r, ev(1)).is_empty()); // still 0%: throttled
    assert!(!line(&mut r, ev(2)).is_empty()); // 1%: emitted
    assert!(line(&mut r, ev(3)).is_empty()); // still 1%: throttled
}

#[test]
fn progress_pass_and_missing_are_gated_by_progress_flag() {
    let mut quiet = JsonlReporter::new(false);

    assert!(
        line(&mut quiet, TransferEvent::PassStarted { pass: 1, chunks: 4 }).is_empty(),
        "pass should be silent without --progress"
    );
    assert!(
        line(&mut quiet, TransferEvent::MissingChunks { count: 3 }).is_empty(),
        "missing should be silent without --progress"
    );
    assert!(line(&mut quiet, progress(1, 4)).is_empty(), "progress should be silent without --progress");

    assert!(!line(&mut quiet, TransferEvent::Completed).is_empty());
}

#[test]
fn zero_total_progress_is_silent() {
    let mut r = JsonlReporter::new(true);
    assert!(line(&mut r, progress(0, 0)).is_empty());
}

#[test]
fn every_event_has_its_members() {
    let mut r = JsonlReporter::new(true);
    let v = parse(&line(&mut r, progress(51, 200)));
    assert_eq!(v["event"], "progress");
    assert_eq!(v["done"], 51);
    assert_eq!(v["total"], 200);
    assert_eq!(v["pct"], 25);
    assert_eq!(v["elapsed_ms"], 1000);
    let v = parse(&line(&mut r, TransferEvent::PassStarted { pass: 2, chunks: 7 }));
    assert_eq!((&v["event"], &v["pass"], &v["chunks"]), (&Value::from("pass"), &Value::from(2), &Value::from(7)));
    let v = parse(&line(&mut r, TransferEvent::MissingChunks { count: 3 }));
    assert_eq!((&v["event"], &v["count"]), (&Value::from("missing"), &Value::from(3)));
    let v = parse(&line(&mut r, TransferEvent::Listening { addr: "[::]:9" }));
    assert_eq!((&v["event"], &v["addr"]), (&Value::from("listening"), &Value::from("[::]:9")));
    let receiving = TransferEvent::Receiving { path: "d", bytes: 5, chunks: 3, chunk_size: 2 };
    let v = parse(&line(&mut r, receiving));
    assert_eq!(v["event"], "receiving");
    assert_eq!((&v["path"], &v["bytes"]), (&Value::from("d"), &Value::from(5)));
    assert_eq!((&v["chunks"], &v["chunk_size"]), (&Value::from(3), &Value::from(2)));
    assert_eq!(line(&mut r, TransferEvent::Completed), "{\"event\":\"completed\"}\n");
    assert_eq!(r.event_value(TransferEvent::Completed).unwrap().len(), 1);
}

/// The figures of an event, as a terminal shows them.
fn render(reporter: &mut TextReporter, event: TransferEvent<'_>) -> (String, String) {
    let (percent, half_percent, rate) = match event {
        TransferEvent::Progress { done, total, chunk_size, elapsed } => {
            let pct = done as f64 / total as f64 * 100.0;
            let secs = Duration::from_nanos(elapsed as u64).as_secs_f64().max(0.001);
            let kib_per_s = done as f64 * chunk_size as f64 / secs / 1024.0;
            (format!("{:5.1}", pct), (pct / 2.0) as usize, format!("{:.0}", kib_per_s))
        }
        TransferEvent::Saved { bytes, elapsed, .. } => {
            let secs = Duration::from_nanos(elapsed as u64).as_secs_f64().max(0.001);
            (String::new(), 0, format!("{:.2}", bytes as f64 / secs / 1024.0 / 1024.0))
        }
        _ => (String::new(), 0, String::new()),
    };
    let Rendered { out, err } =
        reporter.render(event, Figures { percent: &percent, half_percent, rate: &rate });
    (out, err)
}

#[test]
fn status_lines_render_without_progress() {
    let mut r = TextReporter::new(false);

    assert_eq!(
        render(&mut r, TransferEvent::Sending { name: "f.bin", bytes: 5000, chunks: 4 }).0,
        "sending f.bin  5000 bytes  4 chunks\n"
    );
    assert_eq!(render(&mut r, TransferEvent::Completed).0, "✓ transfer complete\n");
    assert_eq!(
        render(
            &mut r,
            TransferEvent::Receiving { path: "out.bin", bytes: 5000, chunks: 4, chunk_size: 1400 }
        )
        .0,
        "receiving out.bin  5000 bytes  4 chunks  chunk=1400\n"
    );
    assert_eq!(
        render(
            &mut r,
            TransferEvent::Saved {
                path: "out.bin",
                bytes: 2 * 1024 * 1024,
                elapsed: Duration::from_secs(1).as_nanos()
            }
        )
        .0,
        "✓ saved out.bin  2.00 MiB/s avg\n"
    );
    assert_eq!(render(&mut r, TransferEvent::Listening { addr: "[::]:9" }).0, "listening on [::]:9\n");
}

#[test]
fn bad_init_goes_to_stderr() {
    let mut r = TextReporter::new(false);
    let (out, err) = render(&mut r, TransferEvent::BadInit { reason: "boom" });

    assert!(out.is_empty());
    assert_eq!(err, "bad init packet: boom\n");
}

#[test]
fn failure_goes_to_stderr() {
    let mut r = TextReporter::new(false);
    let (out, err) = render(&mut r, TransferEvent::Failed { reason: "boom" });

    assert!(out.is_empty());
    assert_eq!(err, "transfer failed: boom\n");
}

#[test]
fn pass_and_missing_lines_are_progress_gated() {
    let mut quiet = TextReporter::new(false);

    assert!(render(&mut quiet, TransferEvent::PassStarted { pass: 1, chunks: 4 }).0.is_empty());
    assert!(render(&mut quiet, TransferEvent::MissingChunks { count: 3 }).0.is_empty());

    let mut loud = TextReporter::new(true);

    assert_eq!(
        render(&mut loud, TransferEvent::PassStarted { pass: 2, chunks: 4 }).0,
        "pass 2  4 chunks\n"
    );
    assert_eq!(render(&mut loud, TransferEvent::MissingChunks { count: 3 }).0, "  3 missing\n");
}

#[test]
fn progress_bar_renders_only_when_enabled() {
    let mut quiet = TextReporter::new(false);

    assert!(render(&mut quiet, progress(2, 4)).0.is_empty());

    let mut loud = TextReporter::new(true);
    let bar = render(&mut loud, progress(2, 4)).0;

    assert!(bar.starts_with("\r["), "got: {:?}", bar);
    assert!(bar.contains("50.0%"), "got: {:?}", bar);
    assert_eq!(
        bar,
        format!("\r[{}{}]  50.0%  2/4  3 KiB/s", "#".repeat(25), ".".repeat(25))
    );
}

#[test]
fn bar_never_grows_wider() {
    let mut loud = TextReporter::new(true);
    let bar = render(&mut loud, progress(8, 4)).0;
    assert!(bar.starts_with(&format!("\r[{}] 200.0%", "#".repeat(50))), "got: {:?}", bar);
}

#[test]
fn zero_total_progress_does_not_panic() {
    let mut loud = TextReporter::new(true);
    assert!(render(&mut loud, progress(0, 0)).0.is_empty());
    // No bar was drawn, so there is none to close.
    assert_eq!(render(&mut loud, TransferEvent::Completed).0, "✓ transfer complete\n");
}

#[test]
fn active_bar_is_closed_before_the_next_line() {
    let mut loud = TextReporter::new(true);
    render(&mut loud, progress(4, 4));

    // The bar left the cursor mid-line, so the next status line is newline-prefixed.
    assert_eq!(render(&mut loud, TransferEvent::Completed).0, "\n✓ transfer complete\n");
    assert_eq!(render(&mut loud, TransferEvent::Completed).0, "✓ transfer complete\n");
}

#[test]
fn null_reporter_takes_everything() {
    NullReporter.report(TransferEvent::Completed);
    let reporter: &dyn TransferReporter = &NullReporter;
    reporter.report(progress(1, 2));
}

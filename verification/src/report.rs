//! Plain-text rendering of the metrics report.
//!
//! Durations are carried as whole microseconds and shown as
//! milliseconds with two decimals, the second decimal rounded half up.
//! The report bodies are built character for character against spec
//! sequences, so the exact text is part of the contract.

use crate::metrics::Metrics;
use crate::metrics::percentile_micros;
use crate::metrics::sorted_micros;
use crate::store::STATUS_OK;
use vstd::prelude::*;
use vstd::string::StringExecFns;

verus! {

/// The decimal digits of `n`, most significant first.
pub open spec fn dec_digits(n: nat) -> Seq<char>
    decreases n,
{
    if n < 10 {
        seq![digit_char(n)]
    } else {
        dec_digits(n / 10).push(digit_char(n % 10))
    }
}

/// The character for a single decimal digit.
pub open spec fn digit_char(d: nat) -> char {
    if d == 0 {
        '0'
    } else if d == 1 {
        '1'
    } else if d == 2 {
        '2'
    } else if d == 3 {
        '3'
    } else if d == 4 {
        '4'
    } else if d == 5 {
        '5'
    } else if d == 6 {
        '6'
    } else if d == 7 {
        '7'
    } else if d == 8 {
        '8'
    } else {
        '9'
    }
}

/// Renders `n` in decimal.
pub fn u64_to_decimal(n: u64) -> (s: String)
    ensures
        s@ == dec_digits(n as nat),
    decreases n,
{
    if n < 10 {
        digit_str(n).to_owned()
    } else {
        let mut s = u64_to_decimal(n / 10);
        s.append(digit_str(n % 10));
        s
    }
}

/// The one-character string for a digit.
fn digit_str(d: u64) -> (s: &'static str)
    requires
        d < 10,
    ensures
        s@ == seq![digit_char(d as nat)],
{
    proof {
        reveal_strlit("0");
        reveal_strlit("1");
        reveal_strlit("2");
        reveal_strlit("3");
        reveal_strlit("4");
        reveal_strlit("5");
        reveal_strlit("6");
        reveal_strlit("7");
        reveal_strlit("8");
        reveal_strlit("9");
    }
    if d == 0 {
        "0"
    } else if d == 1 {
        "1"
    } else if d == 2 {
        "2"
    } else if d == 3 {
        "3"
    } else if d == 4 {
        "4"
    } else if d == 5 {
        "5"
    } else if d == 6 {
        "6"
    } else if d == 7 {
        "7"
    } else if d == 8 {
        "8"
    } else {
        "9"
    }
}

/// A duration in hundredths of a millisecond, rounded half up from
/// whole microseconds.
pub open spec fn centi_ms(micros: nat) -> nat {
    micros / 10 + if micros % 10 >= 5 {
        1nat
    } else {
        0nat
    }
}

/// A duration rendered as milliseconds with two decimals.
pub open spec fn ms_chars(micros: nat) -> Seq<char> {
    dec_digits(centi_ms(micros) / 100) + seq![
        '.',
        digit_char((centi_ms(micros) / 10) % 10),
        digit_char(centi_ms(micros) % 10),
    ]
}

/// Renders a duration in microseconds as `{ms:.2}`.
pub fn format_ms(micros: u64) -> (s: String)
    ensures
        s@ == ms_chars(micros as nat),
{
    let centi: u64 = micros / 10 + if micros % 10 >= 5 {
        1u64
    } else {
        0u64
    };
    let mut s = u64_to_decimal(centi / 100);
    proof {
        reveal_strlit(".");
    }
    s.append(".");
    s.append(digit_str((centi / 10) % 10));
    s.append(digit_str(centi % 10));
    proof {
        assert(s@ =~= ms_chars(micros as nat));
    }
    s
}

/// The plain-text body of the metrics endpoint's response.
pub open spec fn metrics_report_chars(count: nat, p50: nat, p95: nat, p99: nat) -> Seq<char> {
    "Latency Metrics (last "@ + dec_digits(count) + " requests)\nP50: "@ + ms_chars(p50)
        + "ms\nP95: "@ + ms_chars(p95) + "ms\nP99: "@ + ms_chars(p99) + "ms\n"@
}

/// Renders the metrics report over a count and the three percentile
/// durations in microseconds.
pub fn metrics_report(count: usize, p50: u64, p95: u64, p99: u64) -> (s: String)
    ensures
        s@ == metrics_report_chars(count as nat, p50 as nat, p95 as nat, p99 as nat),
{
    let mut s = "Latency Metrics (last ".to_owned();
    let n = u64_to_decimal(count as u64);
    s.append(n.as_str());
    s.append(" requests)\nP50: ");
    let m50 = format_ms(p50);
    s.append(m50.as_str());
    s.append("ms\nP95: ");
    let m95 = format_ms(p95);
    s.append(m95.as_str());
    s.append("ms\nP99: ");
    let m99 = format_ms(p99);
    s.append(m99.as_str());
    s.append("ms\n");
    proof {
        assert(s@ =~= metrics_report_chars(count as nat, p50 as nat, p95 as nat, p99 as nat));
    }
    s
}

/// The log line written once a request's duration is known.
pub open spec fn log_line_chars(micros: nat) -> Seq<char> {
    "Request took "@ + ms_chars(micros) + "ms"@
}

/// Renders the per-request log line `Request took {ms:.2}ms`.
pub fn request_log_line(micros: u64) -> (s: String)
    ensures
        s@ == log_line_chars(micros as nat),
{
    let mut s = "Request took ".to_owned();
    let m = format_ms(micros);
    s.append(m.as_str());
    s.append("ms");
    proof {
        assert(s@ =~= log_line_chars(micros as nat));
    }
    s
}

/// The metrics endpoint's response: always 200, with the report over
/// the snapshot taken at the time of the call.
pub fn metrics_response(m: &mut Metrics) -> (r: (u16, String))
    ensures
        final(m)@ == sorted_micros(old(m)@),
        r.0 == STATUS_OK,
        r.1@ == metrics_report_chars(
            old(m)@.len(),
            percentile_micros(old(m)@, 50) as nat,
            percentile_micros(old(m)@, 95) as nat,
            percentile_micros(old(m)@, 99) as nat,
        ),
{
    let (p50, p95, p99, count) = m.snapshot();
    let body = metrics_report(count, p50, p95, p99);
    (STATUS_OK, body)
}

} // verus!

//! The injectable time source, and the timestamp text derived from it.

use vstd::prelude::*;

verus! {

/// A source of the current time in nanoseconds since the Unix epoch.
///
/// The registry takes the time as an input rather than reading it itself:
/// the host supplies a real clock, and a test can supply a scripted one.
/// Identifier generation relies on the host's clock advancing between
/// readings to leave a collision retry loop; no contract demands it.
pub trait Clock {
    fn now_nanos(&mut self) -> u64;
}

/// The human-readable text of a moment in time. Named, not stated: the
/// civil-calendar rendering takes pages to write down, and depends on the
/// nanosecond count alone (UTC, fixed format).
pub uninterp spec fn timestamp_text_of(nanos: u64) -> Seq<char>;

/// Lexicographic order on text, by code point: the order in which the
/// rendered timestamps compare.
pub open spec fn lex_leq(a: Seq<char>, b: Seq<char>) -> bool
    decreases a.len(),
{
    if a.len() == 0 {
        true
    } else if b.len() == 0 {
        false
    } else if a[0] == b[0] {
        lex_leq(a.drop_first(), b.drop_first())
    } else {
        (a[0] as int) < (b[0] as int)
    }
}

/// Relies on time's OffsetDateTime: renders the moment `nanos` as
/// `year-month-day hour:minute:second` in UTC, a deterministic function
/// of `nanos` alone. Every `u64` nanosecond count lands at or before the
/// year 2554, inside the supported range, so the rendering always
/// succeeds and is always 19 characters, zero-padded in every field; the
/// decimal fallback is only a safeguard and is never reached. Because
/// each field is zero-padded and the year has four digits throughout the
/// range, the rendering is lexicographically monotone in the reading.
#[verifier::external_body]
pub fn format_timestamp(nanos: u64) -> (r: String)
    ensures
        r@ == timestamp_text_of(nanos),
        r@.len() == 19,
        forall|t: u64| t <= nanos ==> lex_leq(timestamp_text_of(t), r@),
{
    let secs = (nanos / 1_000_000_000) as i64;
    let nsec = (nanos % 1_000_000_000) as u32;
    let formatted = time::OffsetDateTime::from_unix_timestamp(secs)
        .and_then(|dt| dt.replace_nanosecond(nsec))
        .ok()
        .and_then(|dt| {
            let desc = time::format_description::parse(
                "[year]-[month]-[day] [hour]:[minute]:[second]",
            ).ok()?;
            dt.format(&desc).ok()
        });
    match formatted {
        Some(s) => s,
        None => nanos.to_string(),
    }
}

/// The current moment, read from the injected clock, as human-readable
/// text: the 19-character rendering of some reading, at or above the
/// rendering of every earlier reading.
pub fn get_current_timestamp<C: Clock>(clock: &mut C) -> (r: String)
    ensures
        r@.len() == 19,
        exists|t: u64|
            r@ == timestamp_text_of(t) && (forall|u: u64|
                u <= t ==> lex_leq(timestamp_text_of(u), r@)),
{
    let t = clock.now_nanos();
    let r = format_timestamp(t);
    proof {
        assert(r@ == timestamp_text_of(t) && (forall|u: u64|
            u <= t ==> lex_leq(timestamp_text_of(u), r@)));
    }
    r
}

/// The ordering half of the timestamp rules, as far as the rendering
/// makes it statable: a stamp rendered at a reading `t1` compares at or
/// above every stamp rendered at a reading up to `t1` — in particular, a
/// last-modified stamp never precedes a creation stamp rendered from an
/// earlier reading of a clock that did not run backwards. The premise is
/// exactly what `format_timestamp` ensures of the stamp it returns.
pub proof fn lemma_stamp_never_precedes_earlier_reading(t0: u64, t1: u64)
    requires
        t0 <= t1,
        forall|t: u64| t <= t1 ==> lex_leq(timestamp_text_of(t), timestamp_text_of(t1)),
    ensures
        lex_leq(timestamp_text_of(t0), timestamp_text_of(t1)),
{
}

} // verus!

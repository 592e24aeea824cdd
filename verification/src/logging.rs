use vstd::prelude::*;

verus! {

/// The level of a log message.
#[derive(Debug, Clone, Copy, PartialEq, Eq)]
pub enum Level {
    Trace,
    Debug,
    Info,
    Warn,
    Error,
    Critical,
}

/// The name a log line gives a level.
pub open spec fn level_name(level: Level) -> Seq<char> {
    match level {
        Level::Critical => seq!['c', 'r', 'i', 't', 'i', 'c', 'a', 'l'],
        Level::Error => seq!['e', 'r', 'r', 'o', 'r'],
        Level::Warn => seq!['w', 'a', 'r', 'n', 'i', 'n', 'g'],
        Level::Info => seq!['i', 'n', 'f', 'o'],
        Level::Debug => seq!['d', 'e', 'b', 'u', 'g'],
        Level::Trace => seq!['t', 'r', 'a', 'c', 'e'],
    }
}

/// The name of a level in a log line.
pub fn level_to_str(level: Level) -> (r: &'static str)
    ensures
        r@ == level_name(level),
{
    proof {
        reveal_strlit("critical");
        reveal_strlit("error");
        reveal_strlit("warning");
        reveal_strlit("info");
        reveal_strlit("debug");
        reveal_strlit("trace");
    }
    let r = match level {
        Level::Critical => "critical",
        Level::Error => "error",
        Level::Warn => "warning",
        Level::Info => "info",
        Level::Debug => "debug",
        Level::Trace => "trace",
    };
    assert(r@ =~= level_name(level));
    r
}

/// The line that logs `message` at `level` from `context` at the time
/// `timestamp`: `<context>: <timestamp> <level>: <message>` and a line break.
pub open spec fn log_line_text(
    level: Level,
    context: Seq<char>,
    timestamp: Seq<char>,
    message: Seq<char>,
) -> Seq<char> {
    context + seq![':', ' '] + timestamp + seq![' '] + level_name(level) + seq![':', ' '] + message
        + seq!['\n']
}

/// Writes the line that logs `message` at `level` from `context` at the time
/// `timestamp`.
pub fn log_line(level: Level, context: &str, timestamp: &str, message: &str) -> (r: String)
    ensures
        r@ == log_line_text(level, context@, timestamp@, message@),
{
    proof {
        reveal_strlit(": ");
        reveal_strlit(" ");
        reveal_strlit("\n");
    }
    let mut r = context.to_owned();
    r.append(": ");
    r.append(timestamp);
    r.append(" ");
    r.append(level_to_str(level));
    r.append(": ");
    r.append(message);
    r.append("\n");
    assert(r@ =~= log_line_text(level, context@, timestamp@, message@));
    r
}

/// What `chrono` writes in RFC 3339 for the UTC time `seconds` and
/// `nanoseconds` after the Unix epoch, or `None` when that time is out of
/// its range.
pub uninterp spec fn rfc3339_text(seconds: int, nanoseconds: int) -> Option<Seq<char>>;

/// `chrono::DateTime::<Utc>::from_timestamp(seconds, nanoseconds)` written
/// with `to_rfc3339`; `None` when `from_timestamp` gives none.
#[verifier::external_body]
fn utc_rfc3339(seconds: i64, nanoseconds: u32) -> (r: Option<String>)
    ensures
        r is Some <==> rfc3339_text(seconds as int, nanoseconds as int) is Some,
        r matches Some(t) ==> rfc3339_text(seconds as int, nanoseconds as int) == Some(t@),
{
    chrono::DateTime::<chrono::Utc>::from_timestamp(seconds, nanoseconds).map(|t| t.to_rfc3339())
}

/// The time of a log line, from a clock reading of `seconds` and
/// `nanoseconds` since the Unix epoch, in RFC 3339. The reading is taken as a
/// duration after the epoch, so it may not lie before it, and whole seconds
/// among the nanoseconds carry into the seconds. `None` when the time is out
/// of the range of dates that `chrono` writes.
pub fn timestamp_text(seconds: i64, nanoseconds: u32) -> (r: Option<String>)
    requires
        seconds >= 0,
        seconds + nanoseconds / 1_000_000_000 <= i64::MAX,
    ensures
        r is Some <==> rfc3339_text(
            seconds + nanoseconds / 1_000_000_000,
            (nanoseconds % 1_000_000_000) as int,
        ) is Some,
        r matches Some(t) ==> rfc3339_text(
            seconds + nanoseconds / 1_000_000_000,
            (nanoseconds % 1_000_000_000) as int,
        ) == Some(t@),
{
    let carry = (nanoseconds / 1_000_000_000) as i64;
    utc_rfc3339(seconds + carry, nanoseconds % 1_000_000_000)
}

/// A log line carries the context, the time and the message unchanged: it
/// starts with the context and `: `, the time follows, and it ends with the
/// message and a line break, whatever the message holds.
pub proof fn law_log_line_keeps_message(
    level: Level,
    context: Seq<char>,
    timestamp: Seq<char>,
    message: Seq<char>,
)
    ensures
        log_line_text(level, context, timestamp, message).take(context.len() as int) == context,
        log_line_text(level, context, timestamp, message).subrange(
            (context.len() + 2) as int,
            (context.len() + 2 + timestamp.len()) as int,
        ) == timestamp,
        log_line_text(level, context, timestamp, message).last() == '\n',
        log_line_text(level, context, timestamp, message).drop_last().skip(
            log_line_text(level, context, timestamp, message).len() - 1 - message.len(),
        ) == message,
{
    let line = log_line_text(level, context, timestamp, message);
    let head = context + seq![':', ' '] + timestamp + seq![' '] + level_name(level) + seq![':', ' '];
    assert(line =~= head + message + seq!['\n']);
    assert(line.take(context.len() as int) =~= context);
    assert(line.subrange((context.len() + 2) as int, (context.len() + 2 + timestamp.len()) as int) =~= timestamp);
    assert(line.drop_last() =~= head + message);
    assert(line.drop_last().skip(line.len() - 1 - message.len()) =~= message);
}

} // verus!

//! The decisions of a container tailer: how each line read from the log
//! stream becomes a log event (timestamp parsing, de-duplication after a
//! re-poll), how a failed poll is answered (stop, report and retry, or retry
//! quietly) and how long to wait before the next attempt.
use vstd::prelude::*;
use vstd::arithmetic::power2::{pow2, lemma2_to64};
use sha2::Digest;
use crate::pod::{ContainerInfo, PodInfo, PodView};
use crate::text::{
    ascii_lowercase, ascii_lowercase_exec, chars_of, contains_text, find_char, first_index_of,
    str_contains, string_of, sub_chars,
};
use crate::time::{Timestamp, is_before, parse_rfc3339, rfc3339_instant};

verus! {

/// One line of a container's log.
pub struct LogEvent {
    pub pod: PodInfo,
    pub container: ContainerInfo,
    pub timestamp: Option<Timestamp>,
    pub message: String,
}

/// Whether the tailer reads a stream for the first time (`Normal`) or
/// re-reads after a completed poll (`Recover`), when lines already seen may
/// come again.
pub enum TailMode {
    Normal,
    Recover,
}

/// The SHA-256 digest of the UTF-8 encoding of the text.
pub uninterp spec fn sha256_digest(text: Seq<char>) -> Seq<u8>;

/// `sha2::Sha256::digest` of the text's bytes; its result is
/// `sha256_digest(text)`.
#[verifier::external_body]
fn checksum_line(text: &str) -> (d: Vec<u8>)
    ensures
        d@ == sha256_digest(text@),
{
    sha2::Sha256::digest(text.as_bytes()).to_vec()
}

/// Whether two byte strings are equal.
fn bytes_equal(a: &Vec<u8>, b: &Vec<u8>) -> (r: bool)
    ensures
        r == (a@ == b@),
{
    if a.len() != b.len() {
        return false;
    }
    let mut i: usize = 0;
    while i < a.len()
        invariant
            a@.len() == b@.len(),
            i <= a@.len(),
            forall|j: int| 0 <= j < i ==> a@[j] == b@[j],
        decreases a@.len() - i,
    {
        if a[i] != b[i] {
            return false;
        }
        i = i + 1;
    }
    assert(a@ =~= b@);
    true
}

/// The timestamp at the head of a log line and the message after it: a line
/// `"<RFC 3339 instant> <message>"` is split at its first space; any other
/// line is all message.
pub open spec fn split_timestamp(line: Seq<char>) -> (Option<Timestamp>, Seq<char>) {
    match first_index_of(line, ' ') {
        Some(i) => match rfc3339_instant(line.take(i)) {
            Some(p) => (Some(Timestamp { secs: p.0, nanos: p.1 }), line.skip(i + 1)),
            None => (None, line),
        },
        None => (None, line),
    }
}

/// A line is dropped as already seen: after a re-poll, it repeats the last
/// emitted message or is older than the start of the window.
pub open spec fn already_seen(
    mode: TailMode,
    last_checksum: Option<Seq<u8>>,
    from: Option<Timestamp>,
    ts: Option<Timestamp>,
    sum: Seq<u8>,
) -> bool {
    &&& mode is Recover
    &&& {
        ||| (last_checksum is Some && last_checksum->0 == sum)
        ||| (from is Some && ts is Some && is_before(ts->0, from->0))
    }
}

/// The latest timestamp seen, after seeing `ts`.
pub open spec fn latest(prev: Option<Timestamp>, ts: Option<Timestamp>) -> Option<Timestamp> {
    match ts {
        Some(t) => match prev {
            Some(p) => if is_before(p, t) {
                Some(t)
            } else {
                prev
            },
            None => Some(t),
        },
        None => prev,
    }
}

/// The text of an optional checksum.
pub open spec fn opt_bytes(o: Option<Vec<u8>>) -> Option<Seq<u8>> {
    match o {
        Some(v) => Some(v@),
        None => None,
    }
}

/// `2^min(retry, 4)` seconds, at most 30: 1, 2, 4, 8 and then 16 seconds.
pub open spec fn backoff_seconds(retry_count: u32) -> nat {
    let e: nat = if retry_count < 4 {
        retry_count as nat
    } else {
        4
    };
    if pow2(e) < 30 {
        pow2(e)
    } else {
        30
    }
}

/// The wait before the next attempt after `retry_count` failed attempts in a
/// row.
pub fn backoff_secs(retry_count: u32) -> (s: u64)
    ensures
        s == backoff_seconds(retry_count),
{
    let e: u32 = if retry_count < 4 {
        retry_count
    } else {
        4
    };
    let base: u64 = 1u64 << e;
    proof {
        lemma2_to64();
        if e == 0 {
            assert(1u64 << e == 1) by (bit_vector)
                requires
                    e == 0,
            ;
        } else if e == 1 {
            assert(1u64 << e == 2) by (bit_vector)
                requires
                    e == 1,
            ;
        } else if e == 2 {
            assert(1u64 << e == 4) by (bit_vector)
                requires
                    e == 2,
            ;
        } else if e == 3 {
            assert(1u64 << e == 8) by (bit_vector)
                requires
                    e == 3,
            ;
        } else {
            assert(1u64 << e == 16) by (bit_vector)
                requires
                    e == 4,
            ;
        }
    }
    if base < 30 {
        base
    } else {
        30
    }
}

/// The retry delay grows with the number of failures, starts at one second
/// and never exceeds thirty seconds (in fact sixteen).
pub proof fn lemma_backoff_bounds(a: u32, b: u32)
    requires
        a <= b,
    ensures
        backoff_seconds(a) <= backoff_seconds(b),
        1 <= backoff_seconds(a) <= 16,
        backoff_seconds(0) == 1,
        backoff_seconds(a) == 1 || backoff_seconds(a) == 2 || backoff_seconds(a) == 4
            || backoff_seconds(a) == 8 || backoff_seconds(a) == 16,
{
    lemma2_to64();
}

/// The log stream's error text says that the pod is gone.
pub open spec fn pod_not_found_text(msg: Seq<char>) -> bool {
    ||| (contains_text(msg, "not found"@) && contains_text(msg, "404"@))
    ||| (contains_text(msg, "pods"@) && contains_text(msg, "not found"@))
    ||| contains_text(msg, "NotFound"@)
}

/// The log stream's error text, lower-cased, names a condition that passes by
/// itself (a dropped or refused connection, a container still starting, a
/// time-out other than the connect time-out).
pub open spec fn transient_error_text(msg: Seq<char>) -> bool {
    let m = ascii_lowercase(msg);
    &&& !contains_text(m, "log_stream connect timed out"@)
    &&& {
        ||| contains_text(m, "error reading a body from connection"@)
        ||| contains_text(m, "connection closed"@)
        ||| contains_text(m, "broken pipe"@)
        ||| contains_text(m, "connection reset"@)
        ||| contains_text(m, "containercreating"@)
        ||| contains_text(m, "is waiting to start"@)
        ||| contains_text(m, "is not available"@)
        ||| contains_text(m, "sendrequest"@)
        ||| contains_text(m, "connection refused"@)
        ||| contains_text(m, "timed out"@)
    }
}

/// Whether the error text says that the pod no longer exists.
pub fn is_pod_not_found(msg: &str) -> (b: bool)
    ensures
        b == pod_not_found_text(msg@),
{
    let m = chars_of(msg);
    let not_found = str_contains(&m, "not found");
    (not_found && str_contains(&m, "404")) || (str_contains(&m, "pods") && not_found)
        || str_contains(&m, "NotFound")
}

/// Whether the error text names a transient condition, worth a quiet retry.
pub fn is_transient_stream_error(msg: &str) -> (b: bool)
    ensures
        b == transient_error_text(msg@),
{
    let raw = chars_of(msg);
    let m = ascii_lowercase_exec(&raw);
    if str_contains(&m, "log_stream connect timed out") {
        return false;
    }
    str_contains(&m, "error reading a body from connection") || str_contains(
        &m,
        "connection closed",
    ) || str_contains(&m, "broken pipe") || str_contains(&m, "connection reset")
        || str_contains(&m, "containercreating") || str_contains(&m, "is waiting to start")
        || str_contains(&m, "is not available") || str_contains(&m, "sendrequest")
        || str_contains(&m, "connection refused") || str_contains(&m, "timed out")
}

/// The text without its trailing occurrences of `c`.
pub open spec fn strip_trailing(s: Seq<char>, c: char) -> Seq<char>
    decreases s.len(),
{
    if s.len() > 0 && s.last() == c {
        strip_trailing(s.drop_last(), c)
    } else {
        s
    }
}

/// A line as read from the stream, without its trailing line feeds and
/// then without its trailing carriage returns.
pub open spec fn line_content(line: Seq<char>) -> Seq<char> {
    strip_trailing(strip_trailing(line, '\n'), '\r')
}

/// The length of the text without its trailing occurrences of `c`.
fn trailing_start(v: &Vec<char>, hi: usize, c: char) -> (k: usize)
    requires
        hi <= v@.len(),
    ensures
        k <= hi,
        v@.take(k as int) == strip_trailing(v@.take(hi as int), c),
{
    let mut k: usize = hi;
    while k > 0 && v[k - 1] == c
        invariant
            k <= hi <= v@.len(),
            strip_trailing(v@.take(hi as int), c) == strip_trailing(v@.take(k as int), c),
        decreases k,
    {
        assert(v@.take(k as int).drop_last() =~= v@.take(k - 1));
        k = k - 1;
    }
    proof {
        if k > 0 {
            assert(v@.take(k as int).last() == v@[k - 1]);
        }
    }
    k
}

/// The line without its line break (`\n`, `\r\n`).
pub fn line_without_break(line: &str) -> (r: String)
    ensures
        r@ == line_content(line@),
{
    let v = chars_of(line);
    assert(v@.take(v@.len() as int) =~= v@);
    let a = trailing_start(&v, v.len(), '\n');
    let b = trailing_start(&v, a, '\r');
    let kept = sub_chars(&v, 0, b);
    assert(kept@ =~= v@.take(b as int));
    string_of(&kept)
}

/// Why the log of a pod cannot be asked for.
pub enum LogSourceError {
    NoPodName,
    NoNamespace,
}

impl LogSourceError {
    /// The message that reports the error.
    pub fn message(&self) -> (m: String)
        ensures
            self is NoPodName ==> m@ == "No pod name"@,
            self is NoNamespace ==> m@ == "No namespace"@,
    {
        match self {
            LogSourceError::NoPodName => "No pod name".to_string(),
            LogSourceError::NoNamespace => "No namespace".to_string(),
        }
    }
}

/// Seconds to wait for the log stream to open before giving up.
pub const LOG_CONNECT_TIMEOUT_SECS: u64 = 30;

/// What one poll asks of the log API: the container's log, not followed,
/// each line with its timestamp, from `since` on (all of it when none),
/// within a connect time-out.
pub struct LogRequest {
    pub pod_name: String,
    pub namespace: String,
    pub container: String,
    pub follow: bool,
    pub timestamps: bool,
    pub since: Option<Timestamp>,
    pub connect_timeout_secs: u64,
}

/// What the tailer does after a poll of the log stream failed.
pub enum FailureAction {
    /// The pod is gone: stop tailing, without reporting.
    Stop,
    /// Report the error, wait so many seconds, then poll again.
    ReportAndRetry { backoff_secs: u64 },
    /// Wait so many seconds, then poll again, without reporting.
    Retry { backoff_secs: u64 },
}

/// Seconds between two polls that completed normally.
pub const POLL_INTERVAL_SECS: u64 = 2;

/// The state of the tailer of one container.
pub struct TailerState {
    pub pod: PodInfo,
    pub container: ContainerInfo,
    /// Where the next poll starts reading (`since_time`).
    pub from_timestamp: Option<Timestamp>,
    pub mode: TailMode,
    pub last_line_checksum: Option<Vec<u8>>,
    pub last_seen_timestamp: Option<Timestamp>,
    /// Failed polls since the last one that completed.
    pub retry_count: u32,
}

impl TailerState {
    /// A tailer that has read nothing yet.
    pub fn new(pod: PodInfo, container: ContainerInfo, from_timestamp: Option<Timestamp>) -> (s:
        Self)
        ensures
            s.pod@ == pod@,
            s.container@ == container@,
            s.from_timestamp == from_timestamp,
            s.mode is Normal,
            s.last_line_checksum is None,
            s.last_seen_timestamp is None,
            s.retry_count == 0,
    {
        TailerState {
            pod,
            container,
            from_timestamp,
            mode: TailMode::Normal,
            last_line_checksum: None,
            last_seen_timestamp: None,
            retry_count: 0,
        }
    }

    /// The pod's name and namespace, whose log is read; the name is needed
    /// first, then the namespace.
    pub fn log_source(&self) -> (r: Result<(String, String), LogSourceError>)
        ensures
            self.pod@.name is None ==> r matches Err(LogSourceError::NoPodName),
            self.pod@.name is Some && self.pod@.namespace is None ==> r matches Err(
                LogSourceError::NoNamespace,
            ),
            self.pod@.name is Some && self.pod@.namespace is Some ==> (r matches Ok(p) && p.0@
                == self.pod@.name->0 && p.1@ == self.pod@.namespace->0),
    {
        let name = match &self.pod.name {
            Some(n) => n.clone(),
            None => {
                return Err(LogSourceError::NoPodName);
            },
        };
        match &self.pod.namespace {
            Some(ns) => Ok((name, ns.clone())),
            None => Err(LogSourceError::NoNamespace),
        }
    }

    /// The request of the next poll: the log of the tailer's container, not
    /// followed, with timestamps, from the start of the window.
    pub fn log_request(&self) -> (r: Result<LogRequest, LogSourceError>)
        ensures
            self.pod@.name is None ==> r matches Err(LogSourceError::NoPodName),
            self.pod@.name is Some && self.pod@.namespace is None ==> r matches Err(
                LogSourceError::NoNamespace,
            ),
            self.pod@.name is Some && self.pod@.namespace is Some ==> (r matches Ok(q) && {
                &&& q.pod_name@ == self.pod@.name->0
                &&& q.namespace@ == self.pod@.namespace->0
                &&& q.container@ == self.container@
                &&& !q.follow
                &&& q.timestamps
                &&& q.since == self.from_timestamp
                &&& q.connect_timeout_secs == LOG_CONNECT_TIMEOUT_SECS
            }),
    {
        match self.log_source() {
            Ok((pod_name, namespace)) => Ok(
                LogRequest {
                    pod_name,
                    namespace,
                    container: self.container.name.clone(),
                    follow: false,
                    timestamps: true,
                    since: self.from_timestamp,
                    connect_timeout_secs: LOG_CONNECT_TIMEOUT_SECS,
                },
            ),
            Err(e) => Err(e),
        }
    }

    /// The wait before the next attempt.
    pub fn calculate_backoff(&self) -> (s: u64)
        ensures
            s == backoff_seconds(self.retry_count),
    {
        backoff_secs(self.retry_count)
    }

    /// Takes one line of the log stream (without its line break) and returns
    /// the event to emit, if any. Empty lines are skipped. After a re-poll, a
    /// line that repeats the last emitted message, or is older than the
    /// window's start, is skipped. Every emitted line puts the tailer back in
    /// normal mode and becomes the last one seen.
    pub fn receive_line(&mut self, line: &str) -> (r: Option<LogEvent>)
        ensures
            ({
                let (ts, msg) = split_timestamp(line@);
                let sum = sha256_digest(msg);
                if line@.len() == 0 || already_seen(
                    old(self).mode,
                    opt_bytes(old(self).last_line_checksum),
                    old(self).from_timestamp,
                    ts,
                    sum,
                ) {
                    &&& r is None
                    &&& *final(self) == *old(self)
                } else {
                    &&& r matches Some(e) && {
                        &&& e.pod@ == old(self).pod@
                        &&& e.container@ == old(self).container@
                        &&& e.timestamp == ts
                        &&& e.message@ == msg
                    }
                    &&& final(self).mode is Normal
                    &&& opt_bytes(final(self).last_line_checksum) == Some(sum)
                    &&& final(self).last_seen_timestamp == latest(
                        old(self).last_seen_timestamp,
                        ts,
                    )
                    &&& final(self).pod == old(self).pod
                    &&& final(self).container == old(self).container
                    &&& final(self).from_timestamp == old(self).from_timestamp
                    &&& final(self).retry_count == old(self).retry_count
                }
            }),
    {
        let l = chars_of(line);
        if l.len() == 0 {
            return None;
        }
        let mut timestamp: Option<Timestamp> = None;
        let mut message_chars: Option<Vec<char>> = None;
        match find_char(&l, ' ') {
            Some(i) => {
                let head = string_of(&sub_chars(&l, 0, i));
                assert(l@.take(i as int) =~= l@.subrange(0, i as int));
                match parse_rfc3339(head.as_str()) {
                    Some(t) => {
                        timestamp = Some(t);
                        let rest = sub_chars(&l, i + 1, l.len());
                        assert(l@.skip(i + 1) =~= l@.subrange(i + 1, l@.len() as int));
                        assert(split_timestamp(line@) == (
                            Some(Timestamp { secs: t.secs, nanos: t.nanos }),
                            rest@,
                        ));
                        message_chars = Some(rest);
                    },
                    None => {
                        assert(split_timestamp(line@) == (None::<Timestamp>, l@));
                    },
                }
            },
            None => {
                assert(split_timestamp(line@) == (None::<Timestamp>, l@));
            },
        }
        assert(match message_chars {
            Some(m) => split_timestamp(line@) == (timestamp, m@),
            None => split_timestamp(line@) == (timestamp, l@),
        });
        let message = match message_chars {
            Some(m) => string_of(&m),
            None => string_of(&l),
        };
        assert((timestamp, message@) == split_timestamp(line@));
        let checksum = checksum_line(message.as_str());
        match self.mode {
            TailMode::Recover => {
                if let Some(last) = &self.last_line_checksum {
                    if bytes_equal(last, &checksum) {
                        return None;
                    }
                }
                if let Some(from_ts) = &self.from_timestamp {
                    if let Some(ts) = &timestamp {
                        if ts.is_before(from_ts) {
                            return None;
                        }
                    }
                }
            },
            TailMode::Normal => {},
        }
        self.last_line_checksum = Some(checksum);
        self.mode = TailMode::Normal;
        if let Some(ts) = timestamp {
            let newer = match &self.last_seen_timestamp {
                Some(prev) => prev.is_before(&ts),
                None => true,
            };
            if newer {
                self.last_seen_timestamp = Some(ts);
            }
        }
        Some(
            LogEvent {
                pod: self.pod.clone(),
                container: self.container.clone(),
                timestamp,
                message,
            },
        )
    }

    /// A poll read its stream to the end: failures are forgotten, the window
    /// moves to the latest timestamp seen, and lines of the next poll are
    /// checked against what was already emitted. Returns the seconds to wait
    /// before the next poll.
    pub fn on_poll_complete(&mut self) -> (wait_secs: u64)
        ensures
            wait_secs == POLL_INTERVAL_SECS,
            final(self).retry_count == 0,
            final(self).mode is Recover,
            final(self).from_timestamp == (match old(self).last_seen_timestamp {
                Some(t) => Some(t),
                None => old(self).from_timestamp,
            }),
            final(self).last_seen_timestamp == old(self).last_seen_timestamp,
            final(self).last_line_checksum == old(self).last_line_checksum,
            final(self).pod == old(self).pod,
            final(self).container == old(self).container,
    {
        self.retry_count = 0;
        if let Some(ts) = self.last_seen_timestamp {
            self.from_timestamp = Some(ts);
        }
        self.mode = TailMode::Recover;
        POLL_INTERVAL_SECS
    }

    /// A poll failed with the given error text. When the pod is gone (and the
    /// error is not transient) the tailer stops; otherwise it waits the
    /// backoff of its current failure count, reporting the error unless it is
    /// transient, and counts one more failure.
    pub fn on_poll_failed(&mut self, error: &str) -> (a: FailureAction)
        requires
            old(self).retry_count < u32::MAX,
        ensures
            ({
                let transient = transient_error_text(error@);
                let gone = pod_not_found_text(error@);
                if !transient && gone {
                    &&& a is Stop
                    &&& *final(self) == *old(self)
                } else {
                    &&& (if transient {
                        a matches FailureAction::Retry { backoff_secs } && backoff_secs
                            == backoff_seconds(old(self).retry_count)
                    } else {
                        a matches FailureAction::ReportAndRetry { backoff_secs } && backoff_secs
                            == backoff_seconds(old(self).retry_count)
                    })
                    &&& final(self).retry_count == old(self).retry_count + 1
                    &&& final(self).mode == old(self).mode
                    &&& final(self).from_timestamp == old(self).from_timestamp
                    &&& final(self).last_seen_timestamp == old(self).last_seen_timestamp
                    &&& final(self).last_line_checksum == old(self).last_line_checksum
                    &&& final(self).pod == old(self).pod
                    &&& final(self).container == old(self).container
                }
            }),
    {
        let gone = is_pod_not_found(error);
        let transient = is_transient_stream_error(error);
        if !transient && gone {
            return FailureAction::Stop;
        }
        let backoff = self.calculate_backoff();
        self.retry_count = self.retry_count + 1;
        if transient {
            FailureAction::Retry { backoff_secs: backoff }
        } else {
            FailureAction::ReportAndRetry { backoff_secs: backoff }
        }
    }
}

/// The latest timestamp seen never moves backwards.
pub proof fn lemma_latest_monotone(prev: Option<Timestamp>, ts: Option<Timestamp>)
    ensures
        prev matches Some(p) ==> (latest(prev, ts) matches Some(l) && !is_before(l, p)),
        ts matches Some(t) ==> (latest(prev, ts) matches Some(l) && !is_before(l, t)),
{
}

/// After a re-poll, a line repeating the last emitted message is never
/// emitted again, whatever its timestamp.
pub proof fn lemma_repeat_dropped(
    last: Seq<u8>,
    from: Option<Timestamp>,
    ts: Option<Timestamp>,
)
    ensures
        already_seen(TailMode::Recover, Some(last), from, ts, last),
{
}

/// In normal mode every line is emitted.
pub proof fn lemma_normal_mode_emits(
    last: Option<Seq<u8>>,
    from: Option<Timestamp>,
    ts: Option<Timestamp>,
    sum: Seq<u8>,
)
    ensures
        !already_seen(TailMode::Normal, last, from, ts, sum),
{
}

/// The connect time-out is never taken for a transient condition.
pub proof fn lemma_connect_timeout_not_transient(msg: Seq<char>)
    requires
        contains_text(ascii_lowercase(msg), "log_stream connect timed out"@),
    ensures
        !transient_error_text(msg),
{
}

/// The first occurrence of a character is just after a prefix without it.
proof fn lemma_first_index_after(head: Seq<char>, c: char, rest: Seq<char>)
    requires
        !head.contains(c),
    ensures
        first_index_of(head + seq![c] + rest, c) == Some(head.len() as int),
    decreases head.len(),
{
    let x = head + seq![c] + rest;
    if head.len() == 0 {
        assert(x[0] == c);
    } else {
        assert(x[0] == head[0]);
        assert(head.contains(head[0]));
        assert(x.drop_first() =~= head.drop_first() + seq![c] + rest);
        assert(!head.drop_first().contains(c)) by {
            if head.drop_first().contains(c) {
                let i = choose|i: int| 0 <= i < head.drop_first().len() && head.drop_first()[i] == c;
                assert(head[i + 1] == c);
                assert(head.contains(head[i + 1]));
            }
        }
        lemma_first_index_after(head.drop_first(), c, rest);
    }
}

/// A text without the character has no first occurrence of it.
proof fn lemma_first_index_absent(s: Seq<char>, c: char)
    requires
        !s.contains(c),
    ensures
        first_index_of(s, c) is None,
    decreases s.len(),
{
    if s.len() > 0 {
        assert(s.contains(s[0]));
        assert(!s.drop_first().contains(c)) by {
            if s.drop_first().contains(c) {
                let i = choose|i: int| 0 <= i < s.drop_first().len() && s.drop_first()[i] == c;
                assert(s[i + 1] == c);
                assert(s.contains(s[i + 1]));
            }
        }
        lemma_first_index_absent(s.drop_first(), c);
    }
}

/// A line `<instant> <message>` gives the instant and, unchanged, all the
/// text after the first space as the message (spaces it begins with
/// included), so that the instant's text, a space and the message make the
/// line again. A head that is not an instant leaves the whole line as the
/// message, without a timestamp.
pub proof fn lemma_timestamped_line_keeps_message(head: Seq<char>, message: Seq<char>)
    requires
        !head.contains(' '),
    ensures
        rfc3339_instant(head) matches Some(p) ==> split_timestamp(
            head + seq![' '] + message,
        ) == (Some(Timestamp { secs: p.0, nanos: p.1 }), message),
        rfc3339_instant(head) is None ==> split_timestamp(head + seq![' '] + message) == (
            None::<Timestamp>,
            head + seq![' '] + message,
        ),
{
    let line = head + seq![' '] + message;
    lemma_first_index_after(head, ' ', message);
    assert(line.take(head.len() as int) =~= head);
    assert(line.skip(head.len() as int + 1) =~= message);
}

/// A line without a space is all message, without a timestamp.
pub proof fn lemma_line_without_space_is_message(line: Seq<char>)
    requires
        !line.contains(' '),
    ensures
        split_timestamp(line) == (None::<Timestamp>, line),
{
    lemma_first_index_absent(line, ' ');
}

/// Only the listed conditions are transient: a transient error text, read in
/// lower case, names a dropped, reset, closed or refused connection, a
/// container still starting or unavailable, a failed request or a time-out,
/// and is not the connect time-out.
pub proof fn lemma_transient_errors_are_listed(msg: Seq<char>)
    requires
        transient_error_text(msg),
    ensures
        !contains_text(ascii_lowercase(msg), "log_stream connect timed out"@),
        ({
            let m = ascii_lowercase(msg);
            ||| contains_text(m, "error reading a body from connection"@)
            ||| contains_text(m, "connection closed"@)
            ||| contains_text(m, "broken pipe"@)
            ||| contains_text(m, "connection reset"@)
            ||| contains_text(m, "containercreating"@)
            ||| contains_text(m, "is waiting to start"@)
            ||| contains_text(m, "is not available"@)
            ||| contains_text(m, "sendrequest"@)
            ||| contains_text(m, "connection refused"@)
            ||| contains_text(m, "timed out"@)
        }),
{
}

/// Each listed condition is transient, unless the text is the connect
/// time-out.
pub proof fn lemma_listed_errors_are_transient(msg: Seq<char>)
    requires
        !contains_text(ascii_lowercase(msg), "log_stream connect timed out"@),
        ({
            let m = ascii_lowercase(msg);
            ||| contains_text(m, "error reading a body from connection"@)
            ||| contains_text(m, "connection closed"@)
            ||| contains_text(m, "broken pipe"@)
            ||| contains_text(m, "connection reset"@)
            ||| contains_text(m, "containercreating"@)
            ||| contains_text(m, "is waiting to start"@)
            ||| contains_text(m, "is not available"@)
            ||| contains_text(m, "sendrequest"@)
            ||| contains_text(m, "connection refused"@)
            ||| contains_text(m, "timed out"@)
        }),
    ensures
        transient_error_text(msg),
{
}

/// The pod is gone exactly when the text says `NotFound`, or says
/// `not found` together with `404` or with `pods`.
pub proof fn lemma_gone_pod_texts(msg: Seq<char>)
    ensures
        pod_not_found_text(msg) <==> (contains_text(msg, "NotFound"@) || (contains_text(
            msg,
            "not found"@,
        ) && (contains_text(msg, "404"@) || contains_text(msg, "pods"@)))),
{
}

/// A failed poll whose error says the pod is gone, and names none of the
/// transient conditions, stops the tailer: the error is not transient.
pub proof fn lemma_gone_pod_is_not_transient(msg: Seq<char>)
    requires
        contains_text(msg, "NotFound"@),
        ({
            let m = ascii_lowercase(msg);
            &&& !contains_text(m, "error reading a body from connection"@)
            &&& !contains_text(m, "connection closed"@)
            &&& !contains_text(m, "broken pipe"@)
            &&& !contains_text(m, "connection reset"@)
            &&& !contains_text(m, "containercreating"@)
            &&& !contains_text(m, "is waiting to start"@)
            &&& !contains_text(m, "is not available"@)
            &&& !contains_text(m, "sendrequest"@)
            &&& !contains_text(m, "connection refused"@)
            &&& !contains_text(m, "timed out"@)
        }),
    ensures
        pod_not_found_text(msg),
        !transient_error_text(msg),
{
}

/// The wait doubles from one second with each failure in a row, and stays
/// at sixteen seconds from the fifth on.
pub proof fn lemma_backoff_doubles(retry_count: u32)
    ensures
        retry_count == 0 ==> backoff_seconds(retry_count) == 1,
        retry_count == 1 ==> backoff_seconds(retry_count) == 2,
        retry_count == 2 ==> backoff_seconds(retry_count) == 4,
        retry_count == 3 ==> backoff_seconds(retry_count) == 8,
        retry_count >= 4 ==> backoff_seconds(retry_count) == 16,
        1 <= retry_count <= 4 ==> backoff_seconds(retry_count) == 2 * backoff_seconds(
            (retry_count - 1) as u32,
        ),
{
    lemma2_to64();
}

/// After a re-poll, a line whose message is that of the last emitted line is
/// dropped, and a line older than the window's start is dropped; in normal
/// mode, or for a new message at or after the window's start, the line is
/// kept.
pub proof fn lemma_repoll_drops_exactly_seen_lines(
    mode: TailMode,
    last: Option<Seq<u8>>,
    from: Option<Timestamp>,
    ts: Option<Timestamp>,
    sum: Seq<u8>,
)
    ensures
        mode is Normal ==> !already_seen(mode, last, from, ts, sum),
        mode is Recover && last == Some(sum) ==> already_seen(mode, last, from, ts, sum),
        (mode is Recover && from is Some && ts is Some && (ts->0.secs < from->0.secs || (
        ts->0.secs == from->0.secs && ts->0.nanos < from->0.nanos))) ==> already_seen(
            mode,
            last,
            from,
            ts,
            sum,
        ),
        mode is Recover && last != Some(sum) && (from is None || ts is None || (ts->0.secs
            > from->0.secs || (ts->0.secs == from->0.secs && ts->0.nanos >= from->0.nanos)))
            ==> !already_seen(mode, last, from, ts, sum),
{
}

/// The latest timestamp seen is the later of the one before and the line's.
pub proof fn lemma_latest_is_the_later(prev: Option<Timestamp>, ts: Option<Timestamp>)
    ensures
        ts is None ==> latest(prev, ts) == prev,
        prev is None ==> latest(prev, ts) == ts,
        (prev is Some && ts is Some) ==> latest(prev, ts) == (if ts->0.secs > prev->0.secs || (
        ts->0.secs == prev->0.secs && ts->0.nanos > prev->0.nanos) {
            ts
        } else {
            prev
        }),
{
}

/// A line break at the end of a line, `\n` or `\r\n`, is removed and nothing
/// else: a line that does not end in `\n` or `\r` is kept as it is.
pub proof fn lemma_line_break_removed(t: Seq<char>)
    requires
        t.len() == 0 || (t.last() != '\n' && t.last() != '\r'),
    ensures
        line_content(t) == t,
        line_content(t + seq!['\n']) == t,
        line_content(t + seq!['\r', '\n']) == t,
{
    assert(strip_trailing(t, '\n') == t);
    assert(strip_trailing(t, '\r') == t);
    let a = t + seq!['\n'];
    assert(a.drop_last() =~= t);
    assert(strip_trailing(a, '\n') == t);
    let b = t + seq!['\r', '\n'];
    let c = t + seq!['\r'];
    assert(b.drop_last() =~= c);
    assert(c.drop_last() =~= t);
    assert(strip_trailing(c, '\n') == c);
    assert(strip_trailing(b, '\n') == c);
    assert(strip_trailing(c, '\r') == t);
}

} // verus!

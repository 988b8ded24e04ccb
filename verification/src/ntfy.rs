//! Messages on the ntfy.sh topic: which ones announce a new version, and
//! which version they announce.
use vstd::prelude::*;

verus! {

/// The ntfy server.
pub const NTFY_BASE: &'static str = "https://ntfy.sh";

/// One event from an ntfy poll.
#[derive(Debug, Clone)]
pub struct NtfyMessage {
    pub id: String,
    pub event: String,
    pub message: String,
}

/// The messages of `msgs` whose event is `"message"`, in order.
pub open spec fn message_events_of(msgs: Seq<NtfyMessage>) -> Seq<NtfyMessage>
    decreases msgs.len(),
{
    if msgs.len() == 0 {
        Seq::empty()
    } else {
        let rest = message_events_of(msgs.drop_last());
        if msgs.last().event@ == "message"@ {
            rest.push(msgs.last())
        } else {
            rest
        }
    }
}

/// Whether `m` is a published message (not an `open` or `keepalive` event).
pub fn is_message_event(m: &NtfyMessage) -> (b: bool)
    ensures
        b == (m.event@ == "message"@),
{
    crate::text::str_equal(m.event.as_str(), "message")
}

/// Keeps only the entries whose event is `"message"` (ntfy also sends
/// `open` and `keepalive` events).
pub fn message_events(msgs: Vec<NtfyMessage>) -> (r: Vec<NtfyMessage>)
    ensures
        r@ == message_events_of(msgs@),
{
    let mut msgs = msgs;
    let ghost all = msgs@;
    // Move the messages into `rest` back to front, so that popping `rest`
    // gives them front to back.
    let mut rest: Vec<NtfyMessage> = Vec::new();
    while msgs.len() > 0
        invariant
            msgs@ == all.take(msgs@.len() as int),
            msgs@.len() <= all.len(),
            rest@.len() == all.len() - msgs@.len(),
            forall|j: int| 0 <= j < rest@.len() ==> rest@[j] == all[all.len() - 1 - j],
        decreases msgs@.len(),
    {
        let ghost before = msgs@;
        let m = msgs.pop().unwrap();
        assert(m == all[before.len() - 1]);
        assert(msgs@ == all.take(msgs@.len() as int));
        rest.push(m);
    }
    let n = rest.len();
    let mut r: Vec<NtfyMessage> = Vec::new();
    let mut i: usize = 0;
    assert(all.take(0) =~= Seq::<NtfyMessage>::empty());
    while i < n
        invariant
            n == all.len(),
            i <= all.len(),
            rest@.len() == all.len() - i,
            forall|j: int| 0 <= j < rest@.len() ==> rest@[j] == all[all.len() - 1 - j],
            r@ == message_events_of(all.take(i as int)),
        decreases all.len() - i,
    {
        let m = rest.pop().unwrap();
        assert(m == all[i as int]);
        assert(all.take(i + 1).drop_last() == all.take(i as int));
        if is_message_event(&m) {
            r.push(m);
        }
        i = i + 1;
    }
    assert(all.take(all.len() as int) == all);
    r
}

/// The version that a message body announces: a decimal `u32`, with
/// surrounding whitespace allowed.
pub open spec fn version_of_message(msg: Seq<char>) -> Option<u32> {
    match crate::text::unsigned_value(crate::text::trim(msg)) {
        Some(v) => if v <= u32::MAX {
            Some(v as u32)
        } else {
            None
        },
        None => None,
    }
}

/// Parse a version number from an ntfy message body.
/// The format is a plain decimal integer (e.g. "7").
pub fn parse_version_message(msg: &str) -> (r: Option<u32>)
    ensures
        r == version_of_message(msg@),
{
    let chars = crate::text::to_chars(msg);
    let trimmed = crate::text::chars_trim(chars.as_slice());
    match crate::text::parse_unsigned(trimmed.as_slice(), u32::MAX as u64) {
        Some(v) => Some(v as u32),
        None => None,
    }
}

/// Whether index `i` of `times` is where the latest message stands: the
/// last of the entries with the greatest time (what `Iterator::max_by_key`
/// picks).
pub open spec fn is_latest_index(times: Seq<u64>, i: int) -> bool {
    &&& 0 <= i < times.len()
    &&& forall|j: int| 0 <= j < times.len() ==> #[trigger] times[j] <= times[i]
    &&& forall|j: int| i < j < times.len() ==> #[trigger] times[j] < times[i]
}

/// The index of the latest message, given the messages' times: the last
/// one with the greatest time, or `None` when there are none.
pub fn latest_message_index(times: &Vec<u64>) -> (r: Option<usize>)
    ensures
        r is None <==> times@.len() == 0,
        r matches Some(i) ==> is_latest_index(times@, i as int),
{
    if times.len() == 0 {
        return None;
    }
    let mut best: usize = 0;
    let mut i: usize = 1;
    while i < times.len()
        invariant
            1 <= i <= times@.len(),
            best < i,
            forall|j: int| 0 <= j < i ==> #[trigger] times@[j] <= times@[best as int],
            forall|j: int| best < j < i ==> #[trigger] times@[j] < times@[best as int],
        decreases times@.len() - i,
    {
        if times[i] >= times[best] {
            best = i;
        }
        i = i + 1;
    }
    Some(best)
}

/// The URL that messages are published to: `https://ntfy.sh/{topic}`.
pub fn publish_url(topic: &str) -> (url: String)
    ensures
        url@ == NTFY_BASE@ + seq!['/'] + topic@,
{
    let mut url = String::new();
    crate::text::push_str(&mut url, NTFY_BASE);
    crate::text::push_char(&mut url, '/');
    crate::text::push_str(&mut url, topic);
    url
}

/// The URL that polls the topic for messages after `since_id`, or for all
/// cached messages when there is none.
pub fn poll_url(topic: &str, since_id: Option<&str>) -> (url: String)
    ensures
        url@ == NTFY_BASE@ + seq!['/'] + topic@ + "/json?poll=1&since="@ + match since_id {
            Some(id) => id@,
            None => "all"@,
        },
{
    let mut url = publish_url(topic);
    crate::text::push_str(&mut url, "/json?poll=1&since=");
    match since_id {
        Some(id) => crate::text::push_str(&mut url, id),
        None => crate::text::push_str(&mut url, "all"),
    }
    url
}

/// How an ntfy poll goes on after the HTTP status `code`.
pub enum PollStatus {
    /// 404: the topic has no messages yet; the poll yields none.
    NoMessages,
    /// A success status: the body holds the messages.
    ReadBody,
    /// Any other status: the poll fails.
    Failed,
}

/// The way an ntfy poll goes on after the HTTP status `code`.
pub fn poll_status(code: u16) -> (r: PollStatus)
    ensures
        code == 404 ==> r is NoMessages,
        code != 404 && 200 <= code <= 299 ==> r is ReadBody,
        code != 404 && !(200 <= code <= 299) ==> r is Failed,
{
    if code == 404 {
        PollStatus::NoMessages
    } else if 200 <= code && code <= 299 {
        PollStatus::ReadBody
    } else {
        PollStatus::Failed
    }
}

/// The error for an ntfy answer with a failing HTTP status, given the
/// status as it is displayed (e.g. "500 Internal Server Error"):
/// "ntfy returned HTTP {status}".
pub fn http_status_error(status: &str) -> (m: String)
    ensures
        m@ == "ntfy returned HTTP "@ + status@,
{
    crate::github::message("ntfy returned HTTP ", status)
}

/// The body that announces `version`: its decimal text.
pub fn version_message(version: u32) -> (m: String)
    ensures
        m@ == crate::text::decimal(version as nat),
        version_of_message(m@) == Some(version),
{
    proof {
        crate::text::lemma_decimal_round_trip(version as nat);
    }
    crate::text::u64_to_decimal(version as u64)
}

/// A version announced by one machine is read back as the same version
/// by every other.
pub proof fn lemma_version_message_round_trip(version: u32)
    ensures
        version_of_message(crate::text::decimal(version as nat)) == Some(version),
{
    crate::text::lemma_decimal_round_trip(version as nat);
}

} // verus!

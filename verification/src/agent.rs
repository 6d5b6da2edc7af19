//! The local LLM sidecar protocol: newline-delimited JSON requests, each
//! carrying a fresh `id`; replies are matched to their caller by that id,
//! and every failure closes the call instead of hanging it.
//!
//! The process, its pipes and the async waiting live with the caller; this
//! module holds the decisions: which id a call gets, what line goes out,
//! whom a reply line answers, and what a call finally returns.
use std::collections::HashMap;
use vstd::prelude::*;

verus! {

broadcast use vstd::std_specs::hash::group_hash_axioms;

/// Why a call to the sidecar did not give text back.
#[derive(Debug, Clone, PartialEq, Eq)]
pub enum SidecarError {
    NotRunning,
    Timeout,
    WriteFailed(String),
    /// The sidecar itself reported an error in its JSON response.
    Sidecar(String),
}

/// The human-readable text of an error.
pub open spec fn error_text(e: SidecarError) -> Seq<char> {
    match e {
        SidecarError::NotRunning => "LLM sidecar is not running"@,
        SidecarError::Timeout => "LLM sidecar request timed out"@,
        SidecarError::WriteFailed(msg) => "Failed to write to sidecar: "@ + msg@,
        SidecarError::Sidecar(msg) => "Sidecar error: "@ + msg@,
    }
}

impl SidecarError {
    /// The message shown for this error.
    pub fn describe(&self) -> (text: String)
        ensures
            text@ == error_text(*self),
    {
        match self {
            SidecarError::NotRunning => String::from_str("LLM sidecar is not running"),
            SidecarError::Timeout => String::from_str("LLM sidecar request timed out"),
            SidecarError::WriteFailed(msg) => {
                let text = String::from_str("Failed to write to sidecar: ");
                text.concat(msg.as_str())
            },
            SidecarError::Sidecar(msg) => {
                let text = String::from_str("Sidecar error: ");
                text.concat(msg.as_str())
            },
        }
    }
}

/// One reply line of the sidecar, once read as JSON.
#[derive(Debug, Clone)]
pub struct SidecarResponse {
    pub id: u64,
    pub text: Option<String>,
    pub error: Option<String>,
}

/// What a reply tells its caller: the text if there is one, else the
/// reported error, else an error saying the reply was empty.
pub open spec fn answers(resp: SidecarResponse, r: Result<String, String>) -> bool {
    match resp.text {
        Some(t) => r == Ok::<String, String>(t),
        None => match resp.error {
            Some(e) => r == Err::<String, String>(e),
            None => r matches Err(m) && m@ == "sidecar response has neither text nor error"@,
        },
    }
}

/// Turn a reply into the result handed to its caller.
pub fn reply_result(resp: SidecarResponse) -> (r: Result<String, String>)
    ensures
        answers(resp, r),
{
    match resp.text {
        Some(text) => Ok(text),
        None => match resp.error {
            Some(err) => Err(err),
            None => Err(String::from_str("sidecar response has neither text nor error")),
        },
    }
}

/// How the wait for a reply ended.
pub enum WaitOutcome {
    /// The reply reached the caller.
    Reply(Result<String, String>),
    /// The waiter was dropped before a reply came: the sidecar is gone.
    Closed,
    /// No reply within the timeout.
    Elapsed,
}

/// The calls that are waiting for a reply, keyed by request id, the id the
/// next call will get, and whether the sidecar has gone away.
pub struct PendingCalls<W> {
    next_id: u64,
    waiters: HashMap<u64, W>,
    closed: bool,
}

impl<W> PendingCalls<W> {
    /// The id that the next call will get.
    pub closed spec fn next_id(&self) -> u64 {
        self.next_id
    }

    /// The waiting calls.
    pub closed spec fn waiting(&self) -> Map<u64, W> {
        self.waiters@
    }

    /// Whether the sidecar has gone away (its output closed, or it was
    /// stopped): no call is taken any more.
    pub closed spec fn is_closed(&self) -> bool {
        self.closed
    }

    /// Every waiting id was handed out before `next_id`, and once closed the
    /// table holds no call.
    pub open spec fn wf(&self) -> bool {
        &&& 1 <= self.next_id()
        &&& forall|k: u64| #[trigger] self.waiting().contains_key(k) ==> k < self.next_id()
        &&& self.is_closed() ==> self.waiting() == Map::<u64, W>::empty()
    }

    /// An open, empty table; ids start at 1.
    pub fn new() -> (t: Self)
        ensures
            t.next_id() == 1,
            t.waiting() == Map::<u64, W>::empty(),
            !t.is_closed(),
            t.wf(),
    {
        PendingCalls { next_id: 1, waiters: HashMap::new(), closed: false }
    }

    /// Give a new call the next id and register its waiter under it. The
    /// counter wraps around after `u64::MAX`, as an atomic add does. Once
    /// the sidecar has gone away every call is refused as not running, and
    /// the table is left as it was.
    pub fn register(&mut self, waiter: W) -> (res: Result<u64, SidecarError>)
        ensures
            old(self).is_closed() ==> res == Err::<u64, SidecarError>(SidecarError::NotRunning)
                && *final(self) == *old(self),
            !old(self).is_closed() ==> {
                &&& res == Ok::<u64, SidecarError>(old(self).next_id())
                &&& final(self).next_id() == (if old(self).next_id() == u64::MAX {
                    0
                } else {
                    (old(self).next_id() + 1) as u64
                })
                &&& final(self).waiting() == old(self).waiting().insert(old(self).next_id(), waiter)
                &&& !final(self).is_closed()
            },
            old(self).wf() ==> !old(self).waiting().contains_key(old(self).next_id()),
            old(self).wf() && old(self).next_id() < u64::MAX ==> final(self).wf(),
    {
        if self.closed {
            return Err(SidecarError::NotRunning);
        }
        let id = self.next_id;
        self.next_id = self.next_id.wrapping_add(1);
        let _replaced = self.waiters.insert(id, waiter);
        Ok(id)
    }

    /// Hand a reply to the call it answers: the waiter registered under the
    /// reply's id leaves the table and comes back with the result for it. A
    /// reply for no waiting call (one that already timed out) is dropped.
    pub fn deliver(&mut self, resp: SidecarResponse) -> (out: Option<(W, Result<String, String>)>)
        ensures
            final(self).next_id() == old(self).next_id(),
            final(self).is_closed() == old(self).is_closed(),
            final(self).waiting() == old(self).waiting().remove(resp.id),
            out is Some <==> old(self).waiting().contains_key(resp.id),
            out matches Some((w, r)) ==> w == old(self).waiting()[resp.id] && answers(resp, r),
            old(self).wf() ==> final(self).wf(),
    {
        let id = resp.id;
        match self.waiters.remove(&id) {
            Some(waiter) => Some((waiter, reply_result(resp))),
            None => {
                assert(old(self).waiting().remove(id) =~= old(self).waiting());
                None
            },
        }
    }

    /// What a call returns once its wait has ended. A call that timed out
    /// leaves the table; its late reply will then be dropped.
    pub fn settle(&mut self, id: u64, outcome: WaitOutcome) -> (r: Result<String, SidecarError>)
        ensures
            final(self).next_id() == old(self).next_id(),
            final(self).is_closed() == old(self).is_closed(),
            match outcome {
                WaitOutcome::Reply(Ok(text)) => r == Ok::<String, SidecarError>(text),
                WaitOutcome::Reply(Err(msg)) => r == Err::<String, SidecarError>(
                    SidecarError::Sidecar(msg),
                ),
                WaitOutcome::Closed => r == Err::<String, SidecarError>(SidecarError::NotRunning),
                WaitOutcome::Elapsed => r == Err::<String, SidecarError>(SidecarError::Timeout),
            },
            final(self).waiting() == (if outcome is Elapsed {
                old(self).waiting().remove(id)
            } else {
                old(self).waiting()
            }),
            old(self).wf() ==> final(self).wf(),
    {
        match outcome {
            WaitOutcome::Reply(Ok(text)) => Ok(text),
            WaitOutcome::Reply(Err(msg)) => Err(SidecarError::Sidecar(msg)),
            WaitOutcome::Closed => Err(SidecarError::NotRunning),
            WaitOutcome::Elapsed => {
                let _expired = self.waiters.remove(&id);
                assert(self.waiters@ =~= old(self).waiting().remove(id));
                assert(old(self).waiting() == Map::<u64, W>::empty() ==> self.waiters@
                    =~= Map::<u64, W>::empty());
                Err(SidecarError::Timeout)
            },
        }
    }

    /// The sidecar has gone away: drop every waiting call, so each resolves
    /// as not running, and refuse every later call.
    pub fn close(&mut self)
        ensures
            final(self).next_id() == old(self).next_id(),
            final(self).waiting() == Map::<u64, W>::empty(),
            final(self).is_closed(),
            old(self).wf() ==> final(self).wf(),
    {
        self.waiters.clear();
        self.closed = true;
    }
}

/// A reply reaches the call it answers: once a waiter is registered under a
/// fresh id, a reply carrying that id finds that waiter, and taking it out
/// leaves every other waiting call as it was.
pub proof fn reply_reaches_its_caller<W>(waiting: Map<u64, W>, id: u64, waiter: W)
    requires
        !waiting.contains_key(id),
    ensures
        waiting.insert(id, waiter).contains_key(id),
        waiting.insert(id, waiter)[id] == waiter,
        waiting.insert(id, waiter).remove(id) == waiting,
{
    assert(waiting.insert(id, waiter).remove(id) =~= waiting);
}

/// A lower-case hexadecimal digit.
pub open spec fn hex_digit(d: int) -> char {
    if d < 10 {
        (48 + d) as char
    } else {
        (87 + d) as char
    }
}

/// How one character stands inside a JSON string: the quote and the
/// backslash are escaped, the controls below U+0020 get their short escape
/// or `\u00XX`, every other character stands as itself.
pub open spec fn json_escape(c: char) -> Seq<char> {
    if c == '"' {
        seq!['\\', '"']
    } else if c == '\\' {
        seq!['\\', '\\']
    } else if c == '\u{8}' {
        seq!['\\', 'b']
    } else if c == '\t' {
        seq!['\\', 't']
    } else if c == '\n' {
        seq!['\\', 'n']
    } else if c == '\u{c}' {
        seq!['\\', 'f']
    } else if c == '\r' {
        seq!['\\', 'r']
    } else if (c as u32) < 0x20 {
        seq!['\\', 'u', '0', '0', hex_digit((c as u32 / 16) as int), hex_digit((c as u32 % 16) as int)]
    } else {
        seq![c]
    }
}

/// The escaped characters of a string, in order.
pub open spec fn json_escaped(s: Seq<char>) -> Seq<char>
    decreases s.len(),
{
    if s.len() == 0 {
        seq![]
    } else {
        json_escaped(s.drop_last()) + json_escape(s.last())
    }
}

/// The JSON text of a string: the escaped characters between quotes.
pub open spec fn json_string(s: Seq<char>) -> Seq<char> {
    seq!['"'] + json_escaped(s) + seq!['"']
}

#[verifier::external_type_specification]
#[verifier::external_body]
pub struct ExJsonError(serde_json::Error);

/// Calls `serde_json::to_string` on a string slice. Serializing a string
/// into a byte vector never fails, and the text is the string between
/// quotes, escaped as `json_escape` says.
#[verifier::external_body]
fn json_encode_str(s: &str) -> (res: Result<String, serde_json::Error>)
    ensures
        res is Ok,
        res matches Ok(j) ==> j@ == json_string(s@),
{
    serde_json::to_string(s)
}

/// The character of a decimal digit.
pub open spec fn digit_char(d: int) -> char {
    (48 + d) as char
}

/// The decimal text of a number, without sign or leading zeros.
pub open spec fn decimal_text(n: nat) -> Seq<char>
    decreases n,
{
    if n < 10 {
        seq![digit_char(n as int)]
    } else {
        decimal_text(n / 10).push(digit_char((n % 10) as int))
    }
}

fn digit_str(d: u64) -> (s: &'static str)
    requires
        d < 10,
    ensures
        s@ == seq![digit_char(d as int)],
{
    if d == 0 {
        proof { reveal_strlit("0"); }
        "0"
    } else if d == 1 {
        proof { reveal_strlit("1"); }
        "1"
    } else if d == 2 {
        proof { reveal_strlit("2"); }
        "2"
    } else if d == 3 {
        proof { reveal_strlit("3"); }
        "3"
    } else if d == 4 {
        proof { reveal_strlit("4"); }
        "4"
    } else if d == 5 {
        proof { reveal_strlit("5"); }
        "5"
    } else if d == 6 {
        proof { reveal_strlit("6"); }
        "6"
    } else if d == 7 {
        proof { reveal_strlit("7"); }
        "7"
    } else if d == 8 {
        proof { reveal_strlit("8"); }
        "8"
    } else {
        proof { reveal_strlit("9"); }
        "9"
    }
}

/// Append the decimal text of `n` to `out`.
pub fn push_decimal(out: &mut String, n: u64)
    ensures
        final(out)@ == old(out)@ + decimal_text(n as nat),
    decreases n,
{
    if n >= 10 {
        push_decimal(out, n / 10);
    }
    out.append(digit_str(n % 10));
    assert(decimal_text(n as nat) =~= if n < 10 {
        seq![digit_char(n as int)]
    } else {
        decimal_text((n / 10) as nat).push(digit_char((n % 10) as int))
    });
}

/// The number that a string of decimal digits reads as.
pub open spec fn digits_value(s: Seq<char>) -> int
    decreases s.len(),
{
    if s.len() == 0 {
        0
    } else {
        digits_value(s.drop_last()) * 10 + (s.last() as int - 48)
    }
}

/// `decimal_text(n)` is the base-10 numeral of `n`: it is made of the
/// digits `0` to `9`, reads back as `n`, and starts with a zero only when it
/// is `0` itself.
pub proof fn decimal_text_reads_back(n: nat)
    ensures
        decimal_text(n).len() >= 1,
        forall|k: int|
            0 <= k < decimal_text(n).len() ==> 48 <= (#[trigger] decimal_text(n)[k]) as int <= 57,
        digits_value(decimal_text(n)) == n,
        n > 0 ==> decimal_text(n)[0] as int != 48,
        n == 0 ==> decimal_text(n) == seq!['0'],
    decreases n,
{
    if n < 10 {
        assert(digit_char(n as int) as int == 48 + n);
        assert(decimal_text(n).drop_last() =~= Seq::<char>::empty());
        assert(digits_value(Seq::<char>::empty()) == 0);
        assert(digits_value(decimal_text(n)) == digits_value(decimal_text(n).drop_last()) * 10 + (
        decimal_text(n).last() as int - 48));
    } else {
        let m = n / 10;
        decimal_text_reads_back(m);
        assert(digit_char((n % 10) as int) as int == 48 + n % 10);
        let t = decimal_text(n);
        assert(t == decimal_text(m).push(digit_char((n % 10) as int)));
        assert(t.drop_last() =~= decimal_text(m));
        assert(digits_value(t) == digits_value(t.drop_last()) * 10 + (t.last() as int - 48));
        assert(digits_value(t) == m * 10 + n % 10);
        assert(t[0] == decimal_text(m)[0]);
        assert forall|k: int| 0 <= k < t.len() implies 48 <= (#[trigger] t[k]) as int <= 57 by {
            if k < t.len() - 1 {
                assert(t[k] == decimal_text(m)[k]);
            }
        }
    }
}

/// The characters below U+0020, which a JSON string never holds raw.
pub open spec fn is_control(c: char) -> bool {
    (c as u32) < 0x20
}

proof fn lemma_json_escaped_no_control(s: Seq<char>)
    ensures
        forall|k: int|
            0 <= k < json_escaped(s).len() ==> !is_control(#[trigger] json_escaped(s)[k]),
    decreases s.len(),
{
    if s.len() > 0 {
        lemma_json_escaped_no_control(s.drop_last());
        let c = s.last();
        let e = json_escape(c);
        assert forall|k: int| 0 <= k < e.len() implies !is_control(#[trigger] e[k]) by {
            if (c as u32) < 0x20 && c != '\u{8}' && c != '\t' && c != '\n' && c != '\u{c}' && c
                != '\r' {
                let v = c as u32;
                assert(v / 16 < 2);
                assert(0 <= v % 16 < 16);
                assert(hex_digit((v / 16) as int) as int >= 48);
                assert(hex_digit((v % 16) as int) as int >= 48);
            }
        }
        let t = json_escaped(s);
        let p = json_escaped(s.drop_last());
        assert(t == p + e);
        assert forall|k: int| 0 <= k < t.len() implies !is_control(#[trigger] t[k]) by {
            if k < p.len() {
                assert(t[k] == p[k]);
            } else {
                assert(t[k] == e[k - p.len()]);
            }
        }
    }
}

/// A request is exactly one line: it ends with a newline and holds no
/// other newline, nor any other control character, whatever the prompt.
pub proof fn request_is_one_line(id: u64, prompt: Seq<char>)
    ensures
        request_text(id, json_string(prompt)).len() >= 1,
        request_text(id, json_string(prompt)).last() == '\n',
        forall|k: int|
            0 <= k < request_text(id, json_string(prompt)).len() - 1 ==> !is_control(
                #[trigger] request_text(id, json_string(prompt))[k],
            ),
{
    reveal_strlit("{\"id\":");
    reveal_strlit(",\"prompt\":");
    reveal_strlit("}\n");
    decimal_text_reads_back(id as nat);
    lemma_json_escaped_no_control(prompt);
    let d = decimal_text(id as nat);
    let j = json_string(prompt);
    let a = "{\"id\":"@;
    let b = ",\"prompt\":"@;
    let c = "}\n"@;
    let t = request_text(id, j);
    assert(t == a + d + b + j + c);
    assert forall|k: int| 0 <= k < j.len() implies !is_control(#[trigger] j[k]) by {
        if 0 < k < j.len() - 1 {
            assert(j[k] == json_escaped(prompt)[k - 1]);
        }
    }
    assert forall|k: int| 0 <= k < t.len() - 1 implies !is_control(#[trigger] t[k]) by {
        let l1 = a.len() as int;
        let l2 = l1 + d.len();
        let l3 = l2 + b.len();
        let l4 = l3 + j.len();
        if k < l1 {
            assert(t[k] == a[k]);
        } else if k < l2 {
            assert(t[k] == d[k - l1]);
        } else if k < l3 {
            assert(t[k] == b[k - l2]);
        } else if k < l4 {
            assert(t[k] == j[k - l3]);
        } else {
            assert(t[k] == c[k - l4]);
        }
    }
}

/// A reply's text wins over its error; with neither, the call still fails.
pub proof fn reply_text_wins(resp: SidecarResponse, r: Result<String, String>)
    requires
        answers(resp, r),
    ensures
        resp.text matches Some(t) ==> r == Ok::<String, String>(t),
        resp.text is None ==> r is Err,
        resp.text is None && resp.error is Some ==> r == Err::<String, String>(resp.error->0),
{
}

/// The errors that carry a message end with it, and the two plain errors
/// read differently.
pub proof fn error_texts_carry_their_message(msg: String)
    ensures
        error_text(SidecarError::WriteFailed(msg)).len() > msg@.len(),
        error_text(SidecarError::WriteFailed(msg)).subrange(
            error_text(SidecarError::WriteFailed(msg)).len() - msg@.len(),
            error_text(SidecarError::WriteFailed(msg)).len() as int,
        ) == msg@,
        error_text(SidecarError::Sidecar(msg)).len() > msg@.len(),
        error_text(SidecarError::Sidecar(msg)).subrange(
            error_text(SidecarError::Sidecar(msg)).len() - msg@.len(),
            error_text(SidecarError::Sidecar(msg)).len() as int,
        ) == msg@,
        error_text(SidecarError::NotRunning) != error_text(SidecarError::Timeout),
{
    reveal_strlit("Failed to write to sidecar: ");
    reveal_strlit("Sidecar error: ");
    reveal_strlit("LLM sidecar is not running");
    reveal_strlit("LLM sidecar request timed out");
    let w = error_text(SidecarError::WriteFailed(msg));
    assert(w.subrange(w.len() - msg@.len(), w.len() as int) =~= msg@);
    let e = error_text(SidecarError::Sidecar(msg));
    assert(e.subrange(e.len() - msg@.len(), e.len() as int) =~= msg@);
    assert(error_text(SidecarError::NotRunning).len() != error_text(SidecarError::Timeout).len());
}

/// The request line for call `id`, given the JSON form of its prompt:
/// `{"id":<id>,"prompt":<prompt>}` and a newline.
pub open spec fn request_text(id: u64, prompt_json: Seq<char>) -> Seq<char> {
    "{\"id\":"@ + decimal_text(id as nat) + ",\"prompt\":"@ + prompt_json + "}\n"@
}

/// Frame one request line around the JSON form of its prompt.
pub fn frame_request(id: u64, prompt_json: &str) -> (line: String)
    ensures
        line@ == request_text(id, prompt_json@),
{
    let mut line = String::from_str("{\"id\":");
    push_decimal(&mut line, id);
    line.append(",\"prompt\":");
    line.append(prompt_json);
    line.append("}\n");
    line
}

/// The one request line that asks the sidecar for a completion of `prompt`.
/// Writing a prompt as JSON cannot fail; should it, the call would fail as a
/// failed write.
pub fn request_line(id: u64, prompt: &str) -> (res: Result<String, SidecarError>)
    ensures
        res is Ok,
        res matches Ok(line) ==> line@ == request_text(id, json_string(prompt@)),
{
    match json_encode_str(prompt) {
        Ok(json) => Ok(frame_request(id, json.as_str())),
        Err(e) => Err(SidecarError::WriteFailed(e.to_string())),
    }
}

/// The interpreter that runs the colibri sidecar.
pub const COLIBRI_PROGRAM: &'static str = "python3";

/// The arguments that start the colibri sidecar on a model with a RAM limit:
/// `-m colibri --model <path> --ram-limit <gb>`.
pub fn colibri_args(model_path: &str, ram_limit_gb: u32) -> (args: Vec<String>)
    ensures
        args@.len() == 6,
        args@[0]@ == "-m"@,
        args@[1]@ == "colibri"@,
        args@[2]@ == "--model"@,
        args@[3]@ == model_path@,
        args@[4]@ == "--ram-limit"@,
        args@[5]@ == decimal_text(ram_limit_gb as nat),
{
    let mut ram = String::new();
    push_decimal(&mut ram, ram_limit_gb as u64);
    let mut args: Vec<String> = Vec::new();
    args.push(String::from_str("-m"));
    args.push(String::from_str("colibri"));
    args.push(String::from_str("--model"));
    args.push(String::from_str(model_path));
    args.push(String::from_str("--ram-limit"));
    args.push(ram);
    args
}

} // verus!

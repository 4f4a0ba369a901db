//! Decisions around the croc process: connection codes, the executable and its command
//! line, and the classification of its output into a fixed set of failure categories.
use crate::model::{code_ok, id, uuid_text};
use crate::text::{codes, contains_folded, folded, folded_codes, is_login_char, join3, occurs};
use vstd::prelude::*;

verus! {

/// A code made of two hyphenated UUIDs joined by a hyphen (73 characters).
pub open spec fn two_uuids(c: Seq<char>) -> bool {
    exists|a: Seq<char>, b: Seq<char>| uuid_text(a) && uuid_text(b) && c == a + seq!['-'] + b
}

/// A fresh bearer code made of two random UUIDs joined by a hyphen. Connection discovery
/// and transport selection are left to croc.
pub fn new_code() -> (r: String)
    ensures
        two_uuids(r@),
        code_ok(r@),
        r@.len() == 73,
{
    let a = id();
    let b = id();
    proof {
        reveal_strlit("-");
    }
    let r = join3(a.as_str(), "-", b.as_str());
    proof {
        assert forall|i: int| 0 <= i < r@.len() implies is_login_char(#[trigger] r@[i]) by {
            if i < 36 {
                assert(r@[i] == a@[i]);
            } else if i > 36 {
                assert(r@[i] == b@[i - 37]);
            }
        }
        assert(vstd::utf8::is_ascii_chars(r@));
        vstd::utf8::is_ascii_chars_encode_utf8(r@);
        assert(r@ == a@ + seq!['-'] + b@);
        assert(uuid_text(a@) && uuid_text(b@));
    }
    r
}

/// Why a croc run stopped, as far as its output tells. Only this category ever leaves the
/// process monitor; the output itself may hold secrets and paths.
#[derive(Clone, Copy, Debug, PartialEq, Eq, Structural)]
pub enum Failure {
    Unknown,
    Connection,
    Filesystem,
    Protocol,
}

/// The lower-cased output mentions `pat`.
pub open spec fn mentions(text: Seq<char>, pat: &str) -> bool {
    occurs(folded(text), codes(pat@))
}

pub open spec fn protocol_text(t: Seq<char>) -> bool {
    mentions(t, "problem with decoding") || mentions(t, "decompress message")
}

pub open spec fn filesystem_text(t: Seq<char>) -> bool {
    mentions(t, "permission denied") || mentions(t, "access is denied") || mentions(
        t,
        "no space left",
    ) || mentions(t, "not enough space") || mentions(t, "filename, directory name")
}

pub open spec fn connection_text(t: Seq<char>) -> bool {
    mentions(t, "connection") || mentions(t, "no such host") || mentions(
        t,
        "could not find sender",
    ) || mentions(t, "no public relay") || mentions(t, "timed out")
}

/// The category of a piece of croc output; protocol errors take precedence over file
/// system errors, which take precedence over connection errors.
pub open spec fn classify(t: Seq<char>) -> Failure {
    if protocol_text(t) {
        Failure::Protocol
    } else if filesystem_text(t) {
        Failure::Filesystem
    } else if connection_text(t) {
        Failure::Connection
    } else {
        Failure::Unknown
    }
}

pub const PROTOCOL_MESSAGE: &'static str = "croc could not complete the transfer handshake. Update Cricket on both devices, then retry from the sending device with a fresh connection code.";

pub const CONNECTION_MESSAGE: &'static str = "Could not connect to the sender or transfer relay. Keep both devices online and retry from the sending device.";

pub const FILESYSTEM_MESSAGE: &'static str = "croc could not read or write a file. Check folder permissions, available disk space, and filenames supported by the receiving device.";

pub const UNKNOWN_MESSAGE: &'static str = "The transfer stopped before it finished. Check that both devices are online, then retry.";

/// The fixed explanation shown for a failure category.
pub open spec fn explanation(f: Failure) -> Seq<char> {
    match f {
        Failure::Protocol => PROTOCOL_MESSAGE@,
        Failure::Connection => CONNECTION_MESSAGE@,
        Failure::Filesystem => FILESYSTEM_MESSAGE@,
        Failure::Unknown => UNKNOWN_MESSAGE@,
    }
}

/// The category after a new observation: the first protocol error is kept, otherwise the
/// latest known category wins.
pub open spec fn noted(current: Failure, found: Failure) -> Failure {
    if found != Failure::Unknown && current != Failure::Protocol {
        found
    } else {
        current
    }
}

/// The category of a finished run from what its two output streams showed (`None` when a
/// stream's monitor gave no answer in time).
pub open spec fn outcome(stderr: Option<Failure>, stdout: Option<Failure>) -> Failure {
    if stderr == Some(Failure::Protocol) || stdout == Some(Failure::Protocol) {
        Failure::Protocol
    } else if stderr == Some(Failure::Filesystem) || stdout == Some(Failure::Filesystem) {
        Failure::Filesystem
    } else if stderr == Some(Failure::Connection) || stdout == Some(Failure::Connection) {
        Failure::Connection
    } else {
        Failure::Unknown
    }
}

fn mentions_exec(text: &Vec<u32>, pat: &str) -> (r: bool)
    ensures
        r == occurs(text@, codes(pat@)),
{
    contains_folded(text, pat)
}

impl Failure {
    /// Classifies croc output.
    pub fn inspect(text: &str) -> (r: Failure)
        ensures
            r == classify(text@),
    {
        let t = folded_codes(text);
        if mentions_exec(&t, "problem with decoding") || mentions_exec(&t, "decompress message") {
            Failure::Protocol
        } else if mentions_exec(&t, "permission denied") || mentions_exec(&t, "access is denied")
            || mentions_exec(&t, "no space left") || mentions_exec(&t, "not enough space")
            || mentions_exec(&t, "filename, directory name") {
            Failure::Filesystem
        } else if mentions_exec(&t, "connection") || mentions_exec(&t, "no such host")
            || mentions_exec(&t, "could not find sender") || mentions_exec(&t, "no public relay")
            || mentions_exec(&t, "timed out") {
            Failure::Connection
        } else {
            Failure::Unknown
        }
    }

    /// The explanation shown to the user for this category.
    pub fn message(self) -> (r: String)
        ensures
            r@ == explanation(self),
    {
        match self {
            Failure::Protocol => String::from_str(PROTOCOL_MESSAGE),
            Failure::Connection => String::from_str(CONNECTION_MESSAGE),
            Failure::Filesystem => String::from_str(FILESYSTEM_MESSAGE),
            Failure::Unknown => String::from_str(UNKNOWN_MESSAGE),
        }
    }

    /// Folds a newly found category into the current one.
    pub fn note(self, found: Failure) -> (r: Failure)
        ensures
            r == noted(self, found),
    {
        if found != Failure::Unknown && self != Failure::Protocol {
            found
        } else {
            self
        }
    }

    /// The category of a finished run from its two output monitors.
    pub fn combine(stderr: Option<Failure>, stdout: Option<Failure>) -> (r: Failure)
        ensures
            r == outcome(stderr, stdout),
    {
        if stderr == Some(Failure::Protocol) || stdout == Some(Failure::Protocol) {
            Failure::Protocol
        } else if stderr == Some(Failure::Filesystem) || stdout == Some(Failure::Filesystem) {
            Failure::Filesystem
        } else if stderr == Some(Failure::Connection) || stdout == Some(Failure::Connection) {
            Failure::Connection
        } else {
            Failure::Unknown
        }
    }
}

/// A protocol failure, once seen, is never replaced by a later observation.
pub proof fn law_protocol_failure_sticks(current: Failure, found: Failure)
    requires
        current == Failure::Protocol,
    ensures
        noted(current, found) == Failure::Protocol,
{
}

/// What a user is told never depends on croc's output beyond its category: every
/// explanation is one of four fixed texts.
pub proof fn law_explanations_are_fixed(f: Failure)
    ensures
        explanation(f) == PROTOCOL_MESSAGE@ || explanation(f) == CONNECTION_MESSAGE@
            || explanation(f) == FILESYSTEM_MESSAGE@ || explanation(f) == UNKNOWN_MESSAGE@,
{
}

/// Text of bytes read from croc's output, as `String::from_utf8_lossy` renders it.
pub uninterp spec fn lossy_text(bytes: Seq<u8>) -> Seq<char>;

/// `String::from_utf8_lossy(bytes)`, owned. std documents that valid UTF-8 comes back as the
/// same text, which is stated; how invalid sequences are replaced by U+FFFD is left to the
/// name `lossy_text`.
#[verifier::external_body]
pub(crate) fn lossy(bytes: &[u8]) -> (r: String)
    ensures
        r@ == lossy_text(bytes@),
        vstd::utf8::valid_utf8(bytes@) ==> r@ == vstd::utf8::decode_utf8(bytes@),
{
    String::from_utf8_lossy(bytes).into_owned()
}

/// How many trailing output bytes are kept to classify a failure.
pub const TAIL_BYTES: usize = 4096;

/// The last `TAIL_BYTES` bytes of `s`.
pub open spec fn window(s: Seq<u8>) -> Seq<u8> {
    if s.len() > TAIL_BYTES {
        s.subrange(s.len() - TAIL_BYTES, s.len() as int)
    } else {
        s
    }
}

/// The running state of one output stream of a croc process.
#[derive(Clone, Debug)]
pub struct OutputWatch {
    pub tail: Vec<u8>,
    pub failure: Failure,
}

impl OutputWatch {
    /// A stream with no output yet.
    pub fn new() -> (r: OutputWatch)
        ensures
            r.tail@ == Seq::<u8>::empty(),
            r.failure == Failure::Unknown,
    {
        OutputWatch { tail: Vec::new(), failure: Failure::Unknown }
    }

    /// Takes the next chunk of output. Returns whether it shows transfer progress (a `%`),
    /// re-classifies the recent output and keeps only its last `TAIL_BYTES` bytes.
    pub fn observe(&mut self, chunk: &[u8]) -> (progress: bool)
        ensures
            progress == chunk@.contains(37u8),
            final(self).tail@ == window(old(self).tail@ + chunk@),
            final(self).failure == noted(
                old(self).failure,
                classify(lossy_text(old(self).tail@ + chunk@)),
            ),
    {
        let mut progress = false;
        let mut i: usize = 0;
        let ghost start = self.tail@;
        while i < chunk.len()
            invariant
                0 <= i <= chunk@.len(),
                start == old(self).tail@,
                self.failure == old(self).failure,
                self.tail@ == start + chunk@.take(i as int),
                progress == chunk@.take(i as int).contains(37u8),
            decreases chunk@.len() - i,
        {
            proof {
                let before = chunk@.take(i as int);
                let after = chunk@.take(i + 1);
                assert(after =~= before.push(chunk@[i as int]));
                if before.contains(37u8) {
                    let j = choose|j: int| 0 <= j < before.len() && before[j] == 37u8;
                    assert(after[j] == 37u8);
                }
                if chunk@[i as int] == 37u8 {
                    assert(after[i as int] == 37u8);
                }
            }
            if chunk[i] == 37u8 {
                progress = true;
            }
            self.tail.push(chunk[i]);
            i += 1;
        }
        assert(chunk@.take(chunk@.len() as int) =~= chunk@);
        let text = lossy(self.tail.as_slice());
        self.failure = self.failure.note(Failure::inspect(text.as_str()));
        let n = self.tail.len();
        if n > TAIL_BYTES {
            let mut kept: Vec<u8> = Vec::new();
            let mut k: usize = n - TAIL_BYTES;
            while k < n
                invariant
                    n == self.tail@.len(),
                    n > TAIL_BYTES,
                    n - TAIL_BYTES <= k <= n,
                    kept@ =~= self.tail@.subrange(n - TAIL_BYTES, k as int),
                decreases n - k,
            {
                kept.push(self.tail[k]);
                k += 1;
            }
            self.tail = kept;
        }
        progress
    }
}

/// How a croc run ended.
pub enum RunEnd {
    /// croc exited successfully.
    Succeeded,
    /// croc exited with an error; the categories its two output streams showed, if their
    /// monitors answered in time (standard error first).
    Failed(Option<Failure>, Option<Failure>),
    /// The deadline passed without progress, or a day after progress began.
    TimedOut,
    /// The user cancelled the delivery.
    Cancelled,
}

pub const TIMED_OUT: &'static str = "The transfer timed out. You can retry from its chat.";

/// What a run that ended as `end` reports.
pub open spec fn run_report(end: RunEnd) -> Result<(), Seq<char>> {
    match end {
        RunEnd::Succeeded => Ok(()),
        RunEnd::Failed(e, o) => Err(explanation(outcome(e, o))),
        RunEnd::TimedOut => Err(TIMED_OUT@),
        RunEnd::Cancelled => Err(crate::service::CANCELLED@),
    }
}

/// The result of a croc run that ended as `end`: only a fixed text ever leaves it.
pub fn run_result(end: RunEnd) -> (r: Result<(), String>)
    ensures
        match r {
            Ok(()) => run_report(end) == Ok::<(), Seq<char>>(()),
            Err(e) => run_report(end) == Err::<(), Seq<char>>(e@),
        },
{
    match end {
        RunEnd::Succeeded => Ok(()),
        RunEnd::Failed(e, o) => Err(Failure::combine(e, o).message()),
        RunEnd::TimedOut => Err(String::from_str(TIMED_OUT)),
        RunEnd::Cancelled => Err(String::from_str(crate::service::CANCELLED)),
    }
}

/// The name of the croc executable on this platform.
pub open spec fn binary_name_text(windows: bool) -> Seq<char> {
    if windows {
        "croc.exe"@
    } else {
        "croc"@
    }
}

pub fn binary_name(windows: bool) -> (r: &'static str)
    ensures
        r@ == binary_name_text(windows),
{
    if windows {
        "croc.exe"
    } else {
        "croc"
    }
}

/// The croc binary to run: the bundled one when it exists, then (in development builds) the
/// one next to the sources, and otherwise the bare name, looked up on the `PATH`.
pub fn executable(bundled: Option<String>, development: Option<String>, windows: bool) -> (r: String)
    ensures
        r@ == match bundled {
            Some(b) => b@,
            None => match development {
                Some(d) => d@,
                None => binary_name_text(windows),
            },
        },
{
    match bundled {
        Some(b) => b,
        None => match development {
            Some(d) => d,
            None => String::from_str(binary_name(windows)),
        },
    }
}

/// Seconds to wait for a transfer that must finish by `deadline`: what is left, and at
/// least one second.
pub fn wait_seconds(deadline: u64, now: u64) -> (r: u64)
    ensures
        r == if deadline > now && deadline - now > 1 { (deadline - now) as u64 } else { 1u64 },
{
    let left = deadline.saturating_sub(now);
    if left > 1 {
        left
    } else {
        1
    }
}

/// Once croc reports progress, how much longer the run may take, in seconds.
pub const PROGRESS_WINDOW: u64 = 24 * 60 * 60;

/// Seconds a run may still take from `now`: until `deadline` (at least one second) while
/// croc has shown no progress, and `PROGRESS_WINDOW` from the moment it first does.
pub fn run_limit(progress_seen: bool, deadline: u64, now: u64) -> (r: u64)
    ensures
        progress_seen ==> r == PROGRESS_WINDOW,
        !progress_seen ==> r == if deadline > now && deadline - now > 1 { (deadline - now) as u64 } else { 1u64 },
{
    if progress_seen {
        PROGRESS_WINDOW
    } else {
        wait_seconds(deadline, now)
    }
}

/// What croc is asked to do: send the given paths, or receive into a folder.
#[derive(Clone, Debug)]
pub enum Direction {
    Send(Vec<String>),
    Receive(String),
}

/// The arguments of a croc transfer: never the code (it travels in `CROC_SECRET`), no
/// clipboard, no prompt, and croc's own transport defaults. Paths follow `--`, so none can
/// be read as an option.
pub open spec fn transfer_args_text(direction: Seq<Seq<char>>, sending: bool) -> Seq<Seq<char>> {
    seq!["--yes"@, "--disable-clipboard"@, "--ignore-stdin"@] + if sending {
        seq!["send"@, "--"@] + direction
    } else {
        seq!["--out"@] + direction
    }
}

pub open spec fn direction_parts(d: Direction) -> (Seq<Seq<char>>, bool) {
    match d {
        Direction::Send(paths) => (crate::model::strings(paths@), true),
        Direction::Receive(folder) => (seq![folder@], false),
    }
}

/// The command-line arguments for a transfer in `direction`.
pub fn transfer_args(direction: &Direction) -> (r: Vec<String>)
    ensures
        crate::model::strings(r@) == transfer_args_text(
            direction_parts(*direction).0,
            direction_parts(*direction).1,
        ),
{
    let mut r: Vec<String> = Vec::new();
    r.push(String::from_str("--yes"));
    r.push(String::from_str("--disable-clipboard"));
    r.push(String::from_str("--ignore-stdin"));
    let ghost head = seq!["--yes"@, "--disable-clipboard"@, "--ignore-stdin"@];
    assert(crate::model::strings(r@) =~= head);
    match direction {
        Direction::Send(paths) => {
            r.push(String::from_str("send"));
            r.push(String::from_str("--"));
            let ghost base = head + seq!["send"@, "--"@];
            assert(crate::model::strings(r@) =~= base);
            let mut i: usize = 0;
            while i < paths.len()
                invariant
                    0 <= i <= paths.len(),
                    r.len() == 5 + i,
                    crate::model::strings(r@) =~= base + crate::model::strings(paths@).take(i as int),
                decreases paths.len() - i,
            {
                let ghost before = crate::model::strings(r@);
                r.push(paths[i].clone());
                assert(crate::model::strings(r@) =~= before.push(paths@[i as int]@));
                assert(crate::model::strings(paths@).take(i + 1) =~= crate::model::strings(paths@).take(
                    i as int,
                ).push(paths@[i as int]@));
                i += 1;
            }
            assert(crate::model::strings(paths@).take(paths.len() as int) =~= crate::model::strings(paths@));
        },
        Direction::Receive(folder) => {
            r.push(String::from_str("--out"));
            r.push(folder.clone());
            assert(crate::model::strings(r@) =~= head + seq!["--out"@, folder@]);
        },
    }
    r
}

} // verus!

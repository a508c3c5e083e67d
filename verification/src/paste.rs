//! What a paste worker decides between its reads and writes.
//!
//! A connection is served in two steps. `receive` takes what was read and
//! says what to do with it; where that is to store a paste, the caller
//! writes the file and `conclude` takes the outcome of the write. `served`
//! puts the two steps in their order, and with them the replies that a
//! connection gets.

use vstd::prelude::*;
use vstd::slice::slice_subrange;
use vstd::utf8::valid_utf8;
use crate::expiry::ExpiryJob;
use crate::id_gen::{allocated, released, IdGenerator};
use crate::proxy::{payload_behind_header, strip_header};
use crate::text::{decimal, human, to_decimal, to_human};

verus! {

/// What becomes of the bytes of one connection.
#[derive(Debug, Clone, Copy, PartialEq, Eq, Structural)]
pub enum Admission {
    /// A PROXY header was expected, and no whole one stands at the front.
    BadProxyHeader,
    /// The payload is longer than the limit.
    TooLarge,
    /// The payload is not UTF-8.
    InvalidUtf8,
    /// The bytes from `offset` on are the paste.
    Accepted { offset: usize },
}

/// A line for the client.
#[derive(Debug, PartialEq, Eq)]
pub enum Reply {
    /// The payload was longer than the limit.
    ExceededLimit,
    /// The payload was not UTF-8.
    InvalidUtf8,
    /// No identifier could be had.
    Exhausted,
    /// The paste could not be written.
    InternalError,
    /// The paste is stored under `id`.
    Stored { id: String },
}

/// What the worker does once a connection has been read to its end.
#[derive(Debug, PartialEq, Eq)]
pub enum Step {
    /// Close the connection without a word.
    Drop,
    /// Send the reply and close the connection.
    Reject(Reply),
    /// Write the bytes from `offset` on as the paste `id`, then `conclude`.
    Store { id: String, offset: usize },
}

/// How a connection ends once the paste was to be written.
#[derive(Debug, PartialEq, Eq)]
pub struct Settled {
    /// The one reply that the client gets.
    pub reply: Reply,
    /// The deletion to schedule, for a paste that was written.
    pub job: Option<ExpiryJob>,
}

/// The verdict on `bytes`, of which the last `behind_header` are payload;
/// `None` stands for a header that could not be read.
pub open spec fn judged(limit: nat, bytes: Seq<u8>, behind_header: Option<usize>) -> Admission {
    match behind_header {
        None => Admission::BadProxyHeader,
        Some(n) => if n > limit {
            Admission::TooLarge
        } else if !valid_utf8(bytes.skip(bytes.len() - n)) {
            Admission::InvalidUtf8
        } else {
            Admission::Accepted { offset: (bytes.len() - n) as usize }
        },
    }
}

/// The reply to a payload over the limit of `kib` KiB.
pub open spec fn exceeded_text(kib: nat) -> Seq<char> {
    "Exceeded limit of "@ + decimal(kib) + " kiB\n"@
}

/// The reply to a payload that is not UTF-8.
pub open spec fn invalid_text() -> Seq<char> {
    "invalid utf-8\n"@
}

/// The reply where no identifier could be had.
pub open spec fn exhausted_text() -> Seq<char> {
    "server is currently not accepting new pastes. try again later.\n"@
}

/// The reply where the paste could not be written.
pub open spec fn internal_text() -> Seq<char> {
    "an internal error has occurred"@
}

/// The reply for a paste stored under `id` that lives `expiry` seconds.
pub open spec fn stored_text(host: Seq<char>, id: Seq<char>, expiry: nat) -> Seq<char> {
    host + "/"@ + id + " | 🧦 expires in "@ + human(expiry) + "\n"@
}

/// Whether `bytes` are UTF-8, by `std::str::from_utf8`. Trusted: that
/// function accepts exactly the byte strings that are valid UTF-8.
#[verifier::external_body]
fn is_utf8(bytes: &[u8]) -> (ok: bool)
    ensures
        ok == valid_utf8(bytes@),
{
    std::str::from_utf8(bytes).is_ok()
}

/// The settings of a paste worker.
pub struct PasteRules {
    host: String,
    kib: usize,
    limit: usize,
    talk_proxy: bool,
    expiry_sec: u64,
}

impl PasteRules {
    #[verifier::type_invariant]
    spec fn fits(self) -> bool {
        self.limit == self.kib * 1024 && self.limit + 1025 <= usize::MAX
    }

    /// The prefix of the address in the reply for a stored paste.
    pub closed spec fn host(&self) -> Seq<char> {
        self.host@
    }

    /// The largest payload, in KiB.
    pub closed spec fn kib(&self) -> nat {
        self.kib as nat
    }

    /// A PROXY header stands before each paste.
    pub closed spec fn talks_proxy(&self) -> bool {
        self.talk_proxy
    }

    /// The lifetime of a paste, in seconds.
    pub closed spec fn expiry(&self) -> nat {
        self.expiry_sec as nat
    }

    /// The largest payload, in bytes.
    pub open spec fn limit(&self) -> nat {
        self.kib() * 1024
    }

    /// The room beside the payload that a PROXY header may take.
    pub open spec fn slack(&self) -> nat {
        if self.talks_proxy() {
            1024
        } else {
            0
        }
    }

    /// The verdict on the bytes of one connection.
    pub open spec fn admission(&self, bytes: Seq<u8>) -> Admission {
        judged(
            self.limit(),
            bytes,
            if self.talks_proxy() {
                payload_behind_header(bytes)
            } else {
                Some(bytes.len() as usize)
            },
        )
    }

    /// The text of a reply.
    pub open spec fn text_of(&self, reply: Reply) -> Seq<char> {
        match reply {
            Reply::ExceededLimit => exceeded_text(self.kib()),
            Reply::InvalidUtf8 => invalid_text(),
            Reply::Exhausted => exhausted_text(),
            Reply::InternalError => internal_text(),
            Reply::Stored { id } => stored_text(self.host(), id@, self.expiry()),
        }
    }

    /// The settings of a worker, or `None` where a buffer for the largest
    /// payload, a header and one byte more cannot be addressed.
    pub fn new(host: String, paste_len_kib: usize, talk_proxy: bool, paste_expiry_sec: u64) -> (made:
        Option<PasteRules>)
        ensures
            made is Some <==> paste_len_kib * 1024 + 1025 <= usize::MAX,
            made matches Some(rules) ==> {
                &&& rules.host() == host@
                &&& rules.kib() == paste_len_kib
                &&& rules.talks_proxy() == talk_proxy
                &&& rules.expiry() == paste_expiry_sec
            },
    {
        if paste_len_kib > (usize::MAX - 1025) / 1024 {
            return None;
        }
        let limit: usize = paste_len_kib * 1024;
        Some(PasteRules { host, kib: paste_len_kib, limit, talk_proxy, expiry_sec: paste_expiry_sec })
    }

    /// The largest payload, in bytes.
    pub fn paste_limit(&self) -> (limit: usize)
        ensures
            limit == self.limit(),
    {
        proof {
            use_type_invariant(self);
        }
        self.limit
    }

    /// How many bytes to read from a connection at most: the largest
    /// payload, the room for a PROXY header, and one byte more, by which a
    /// payload over the limit shows.
    pub fn read_budget(&self) -> (budget: usize)
        ensures
            budget == self.limit() + self.slack() + 1,
    {
        proof {
            use_type_invariant(self);
        }
        let slack: usize = if self.talk_proxy {
            1024
        } else {
            0
        };
        self.limit + slack + 1
    }

    /// The verdict on `buf`, of which the last `behind_header` bytes are
    /// payload; `None` stands for a header that could not be read.
    pub fn judge(&self, buf: &[u8], behind_header: Option<usize>) -> (verdict: Admission)
        requires
            behind_header matches Some(n) ==> n <= buf@.len(),
        ensures
            verdict == judged(self.limit(), buf@, behind_header),
    {
        proof {
            use_type_invariant(self);
        }
        match behind_header {
            None => Admission::BadProxyHeader,
            Some(payload_len) => {
                if payload_len > self.limit {
                    Admission::TooLarge
                } else {
                    let offset: usize = buf.len() - payload_len;
                    let payload = slice_subrange(buf, offset, buf.len());
                    assert(payload@ =~= buf@.skip(buf@.len() - payload_len));
                    if is_utf8(payload) {
                        Admission::Accepted { offset }
                    } else {
                        Admission::InvalidUtf8
                    }
                }
            },
        }
    }

    /// The verdict on what was read from one connection.
    pub fn examine(&self, buf: &[u8]) -> (verdict: Admission)
        ensures
            verdict == self.admission(buf@),
    {
        let behind_header: Option<usize> = if self.talk_proxy {
            strip_header(buf)
        } else {
            Some(buf.len())
        };
        self.judge(buf, behind_header)
    }

    /// Decides on a connection that was read to its end. A paste that is
    /// admitted gets an identifier from `ids`; every other outcome leaves
    /// the generator as it was.
    pub fn receive<G: IdGenerator>(&self, ids: &mut G, buf: &[u8]) -> (step: Step)
        ensures
            match self.admission(buf@) {
                Admission::BadProxyHeader => step is Drop,
                Admission::TooLarge => step matches Step::Reject(Reply::ExceededLimit),
                Admission::InvalidUtf8 => step matches Step::Reject(Reply::InvalidUtf8),
                Admission::Accepted { offset } => match step {
                    Step::Store { id, offset: at } => at == offset && allocated(
                        old(ids).live(),
                        old(ids).prefetched(),
                        final(ids).live(),
                        final(ids).prefetched(),
                        id@,
                    ),
                    Step::Reject(Reply::Exhausted) => true,
                    _ => false,
                },
            },
            !(step is Store) ==> final(ids).live() == old(ids).live() && final(ids).prefetched()
                == old(ids).prefetched(),
    {
        match self.examine(buf) {
            Admission::BadProxyHeader => Step::Drop,
            Admission::TooLarge => Step::Reject(Reply::ExceededLimit),
            Admission::InvalidUtf8 => Step::Reject(Reply::InvalidUtf8),
            Admission::Accepted { offset } => match ids.get() {
                Some(id) => Step::Store { id, offset },
                None => Step::Reject(Reply::Exhausted),
            },
        }
    }

    /// Ends a connection whose paste was to be written at `now`. A paste
    /// that was written is announced and scheduled for deletion; one that
    /// was not gives its identifier back.
    pub fn conclude<G: IdGenerator>(&self, ids: &mut G, id: String, written: bool, now: u64) -> (end:
        Settled)
        requires
            written ==> now + self.expiry() <= u64::MAX,
        ensures
            final(ids).prefetched() == old(ids).prefetched(),
            written ==> {
                &&& end.reply matches Reply::Stored { id: told } && told@ == id@
                &&& end.job matches Some(job) && job.deadline == now + self.expiry() && job.id@
                    == id@
                &&& final(ids).live() == old(ids).live()
            },
            !written ==> {
                &&& end.reply is InternalError
                &&& end.job is None
                &&& exists|was_live: bool|
                    released(old(ids).live(), final(ids).live(), id@, was_live)
            },
    {
        if written {
            let job = ExpiryJob::new(now, self.expiry_sec, id.clone());
            Settled { reply: Reply::Stored { id }, job: Some(job) }
        } else {
            let was_live = ids.remove(id.as_str());
            assert(released(old(ids).live(), ids.live(), id@, was_live));
            Settled { reply: Reply::InternalError, job: None }
        }
    }

    /// The line that tells the client of `reply`.
    pub fn reply_text(&self, reply: &Reply) -> (line: String)
        ensures
            line@ == self.text_of(*reply),
    {
        match reply {
            Reply::ExceededLimit => {
                let mut line = String::new();
                line.append("Exceeded limit of ");
                let kib = to_decimal(self.kib as u64);
                line.append(kib.as_str());
                line.append(" kiB\n");
                assert(line@ =~= exceeded_text(self.kib()));
                line
            },
            Reply::InvalidUtf8 => {
                let mut line = String::new();
                line.append("invalid utf-8\n");
                assert(line@ =~= invalid_text());
                line
            },
            Reply::Exhausted => {
                let mut line = String::new();
                line.append("server is currently not accepting new pastes. try again later.\n");
                assert(line@ =~= exhausted_text());
                line
            },
            Reply::InternalError => {
                let mut line = String::new();
                line.append("an internal error has occurred");
                assert(line@ =~= internal_text());
                line
            },
            Reply::Stored { id } => {
                let mut line = self.host.clone();
                line.append("/");
                line.append(id.as_str());
                line.append(" | 🧦 expires in ");
                let lifetime = to_human(self.expiry_sec);
                line.append(lifetime.as_str());
                line.append("\n");
                assert(line@ =~= stored_text(self.host(), id@, self.expiry()));
                line
            },
        }
    }
}

/// Where the serving of a connection stands.
pub enum Stage {
    /// No worker has the connection yet.
    Idle,
    /// The worker reads.
    Reading,
    /// A paste was admitted and is to be written.
    Storing,
    /// The connection is closed.
    Closed,
}

/// What happens to a connection while it is served.
pub enum Event {
    /// A worker takes the connection.
    Taken,
    /// The read fails or runs out of time.
    ReadFailed,
    /// The read comes to its end, and `receive` decides.
    Received(Step),
    /// The write was tried, and `conclude` settles.
    Concluded(Settled),
}

/// One step in the serving of a connection: the stage that `event` leads
/// to from `stage`, and the replies that are written on the way. `None`
/// where `event` cannot happen at `stage`.
pub open spec fn served(stage: Stage, event: Event) -> Option<(Stage, Seq<Reply>)> {
    match (stage, event) {
        (Stage::Idle, Event::Taken) => Some((Stage::Reading, Seq::empty())),
        (Stage::Reading, Event::ReadFailed) => Some((Stage::Closed, Seq::empty())),
        (Stage::Reading, Event::Received(Step::Drop)) => Some((Stage::Closed, Seq::empty())),
        (Stage::Reading, Event::Received(Step::Reject(reply))) => Some(
            (Stage::Closed, seq![reply]),
        ),
        (Stage::Reading, Event::Received(Step::Store { .. })) => Some(
            (Stage::Storing, Seq::empty()),
        ),
        (Stage::Storing, Event::Concluded(settled)) => Some((Stage::Closed, seq![settled.reply])),
        _ => None,
    }
}

/// The stage that a connection has reached after `events`, and all replies
/// written to it so far. `None` where the events cannot happen in this
/// order.
pub open spec fn served_all(events: Seq<Event>) -> Option<(Stage, Seq<Reply>)>
    decreases events.len(),
{
    if events.len() == 0 {
        Some((Stage::Idle, Seq::empty()))
    } else {
        match served_all(events.drop_last()) {
            Some((stage, replies)) => match served(stage, events.last()) {
                Some((next, more)) => Some((next, replies + more)),
                None => None,
            },
            None => None,
        }
    }
}

/// A payload of exactly the limit is not too large, and is accepted where
/// it is UTF-8; one byte more is too large whatever it holds, and the reply
/// names the limit. The payload is what stands behind the PROXY header, or
/// all that was read where no header is expected.
pub proof fn lemma_size_limit(rules: PasteRules, bytes: Seq<u8>, payload: usize)
    requires
        payload <= bytes.len() <= usize::MAX,
    ensures
        payload == rules.limit() ==> judged(rules.limit(), bytes, Some(payload)) == if valid_utf8(
            bytes.skip(bytes.len() - payload),
        ) {
            Admission::Accepted { offset: (bytes.len() - payload) as usize }
        } else {
            Admission::InvalidUtf8
        },
        payload == rules.limit() + 1 ==> judged(rules.limit(), bytes, Some(payload))
            == Admission::TooLarge,
        !rules.talks_proxy() ==> rules.admission(bytes) == judged(
            rules.limit(),
            bytes,
            Some(bytes.len() as usize),
        ),
        rules.text_of(Reply::ExceededLimit) == exceeded_text(rules.kib()),
{
}

/// However a connection is served, at most one reply is written to it, and
/// none before it is closed. A closed connection got exactly one reply,
/// unless its read failed or it was dropped for its PROXY header.
pub proof fn lemma_one_reply(events: Seq<Event>)
    ensures
        served_all(events) matches Some((stage, replies)) ==> {
            &&& replies.len() <= 1
            &&& !(stage is Closed) ==> replies.len() == 0
            &&& stage is Closed ==> (replies.len() == 0 <==> events.last() is ReadFailed
                || events.last() matches Event::Received(Step::Drop))
        },
    decreases events.len(),
{
    if events.len() > 0 {
        lemma_one_reply(events.drop_last());
    }
}

} // verus!

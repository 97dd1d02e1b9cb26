//! The framed line channel between the host and a child process.
//!
//! Every message travels as one line: the literal tag `kurobako:`, the JSON
//! payload, and a newline. A line that does not start with the tag is not
//! part of the protocol; the receiver hands it to its log so child programs
//! may print freely. The byte streams themselves live outside; these types
//! carry the queued outgoing lines and the log, so that framing, parsing and
//! the log redirection are verified.

use crate::codec::{
    chars_to_string, decode_problem_message, decode_solver_message, encode_problem_message,
    encode_solver_message, expect, spec_dec_problem_message, spec_dec_solver_message,
    spec_enc_problem_message, spec_enc_solver_message, str_chars,
};
use crate::message::{ProblemMessage, SolverMessage};
use vstd::prelude::*;

verus! {

/// The line a payload travels on, without the trailing newline.
pub open spec fn spec_frame_line(payload: Seq<char>) -> Seq<char> {
    "kurobako:"@ + payload
}

/// The full frame: tag, payload, newline.
pub open spec fn spec_frame(payload: Seq<char>) -> Seq<char> {
    spec_frame_line(payload) + "\n"@
}

/// What the receiver makes of one line: the payload of a tagged line, or
/// nothing for a log line.
pub open spec fn spec_classify(line: Seq<char>) -> Option<Seq<char>> {
    if line.len() >= "kurobako:"@.len() && line.subrange(0, "kurobako:"@.len() as int)
        == "kurobako:"@ {
        Some(line.subrange("kurobako:"@.len() as int, line.len() as int))
    } else {
        None
    }
}

/// Framing round trip: the payload of a framed line is read back exactly.
pub proof fn lemma_classify_frame(payload: Seq<char>)
    ensures
        spec_classify(spec_frame_line(payload)) == Some(payload),
{
    let line = spec_frame_line(payload);
    let tag = "kurobako:"@;
    assert(line.subrange(0, tag.len() as int) =~= tag);
    assert(line.subrange(tag.len() as int, line.len() as int) =~= payload);
}

/// Builds the frame of a payload.
pub fn frame_line(payload: &str) -> (r: String)
    ensures
        r@ == spec_frame(payload@),
{
    let mut out: Vec<char> = Vec::new();
    crate::codec::append_lit(&mut out, "kurobako:");
    crate::codec::append_lit(&mut out, payload);
    out.push('\n');
    proof {
        reveal_strlit("\n");
        assert("\n"@ =~= seq!['\n']);
        assert(out@ =~= spec_frame(payload@));
    }
    chars_to_string(&out)
}

/// Splits a line into its payload, or `None` for a log line.
pub fn classify_line(line: &str) -> (r: Option<String>)
    ensures
        match &r {
            Some(p) => spec_classify(line@) == Some(p@),
            None => spec_classify(line@) is None,
        },
{
    let chars = str_chars(line);
    match expect(&chars, 0, "kurobako:") {
        Some(p) => {
            let mut suffix: Vec<char> = Vec::new();
            let mut i: usize = p;
            while i < chars.len()
                invariant
                    p <= i <= chars@.len(),
                    suffix@ =~= chars@.subrange(p as int, i as int),
                decreases chars@.len() - i,
            {
                suffix.push(chars[i]);
                i += 1;
            }
            proof {
                assert(suffix@ =~= line@.subrange("kurobako:"@.len() as int, line@.len() as int));
            }
            Some(chars_to_string(&suffix))
        },
        None => {
            proof {
                if spec_classify(line@) is Some {
                    assert(line@.subrange(0, "kurobako:"@.len() as int) == "kurobako:"@);
                }
            }
            None
        },
    }
}

/// A failure of the channel itself.
#[derive(Debug, Clone, Copy, PartialEq, Eq, Structural)]
pub enum ChannelError {
    /// The stream ended before a tagged line arrived.
    TransportClosed,
    /// A tagged line did not hold a well-formed message.
    MalformedMessage,
}

/// Sending side of a problem channel: frames messages and queues the lines
/// for the transport outside to write in order.
#[derive(Debug)]
pub struct MessageSender {
    pub queued: Vec<String>,
}

impl MessageSender {
    /// A sender with nothing queued.
    pub fn new() -> (r: Self)
        ensures
            r.queued@.len() == 0,
    {
        MessageSender { queued: Vec::new() }
    }

    /// Frames and queues a problem protocol message.
    pub fn send_problem(&mut self, message: &ProblemMessage)
        ensures
            final(self).queued@.len() == old(self).queued@.len() + 1,
            forall|i: int|
                0 <= i < old(self).queued@.len() ==> final(self).queued@[i] == old(
                    self,
                ).queued@[i],
            final(self).queued@.last()@ == spec_frame(spec_enc_problem_message(message@)),
    {
        let payload = encode_problem_message(message);
        let line = frame_line(payload.as_str());
        self.queued.push(line);
    }

    /// Frames and queues a solver protocol message.
    pub fn send_solver(&mut self, message: &SolverMessage)
        ensures
            final(self).queued@.len() == old(self).queued@.len() + 1,
            forall|i: int|
                0 <= i < old(self).queued@.len() ==> final(self).queued@[i] == old(
                    self,
                ).queued@[i],
            final(self).queued@.last()@ == spec_frame(spec_enc_solver_message(message@)),
    {
        let payload = encode_solver_message(message);
        let line = frame_line(payload.as_str());
        self.queued.push(line);
    }
}

/// Receiving side of a channel: classifies each incoming line, parses tagged
/// payloads, and redirects every other line to the log without touching the
/// message stream.
#[derive(Debug)]
pub struct MessageReceiver {
    pub log: Vec<String>,
}

impl MessageReceiver {
    /// A receiver with an empty log.
    pub fn new() -> (r: Self)
        ensures
            r.log@.len() == 0,
    {
        MessageReceiver { log: Vec::new() }
    }

    /// Takes one line of a problem channel, without its newline. A log line
    /// goes to the log and yields no message; a tagged line parses into a
    /// message or a `MalformedMessage` error, and never touches the log.
    pub fn on_problem_line(&mut self, line: String) -> (r: Option<
        Result<ProblemMessage, ChannelError>,
    >)
        ensures
            match &r {
                None => spec_classify(line@) is None && final(self).log@ == old(
                    self,
                ).log@.push(line),
                Some(res) => {
                    &&& final(self).log@ == old(self).log@
                    &&& spec_classify(line@) matches Some(payload)
                    &&& match res {
                        Ok(m) => spec_dec_problem_message(payload) == Some(m@),
                        Err(e) => spec_dec_problem_message(payload) is None && e
                            == ChannelError::MalformedMessage,
                    }
                },
            },
    {
        match classify_line(line.as_str()) {
            None => {
                self.log.push(line);
                None
            },
            Some(payload) => {
                match decode_problem_message(payload.as_str()) {
                    Some(m) => Some(Ok(m)),
                    None => Some(Err(ChannelError::MalformedMessage)),
                }
            },
        }
    }

    /// Takes one line of a solver channel, without its newline; as
    /// `on_problem_line`.
    pub fn on_solver_line(&mut self, line: String) -> (r: Option<
        Result<SolverMessage, ChannelError>,
    >)
        ensures
            match &r {
                None => spec_classify(line@) is None && final(self).log@ == old(
                    self,
                ).log@.push(line),
                Some(res) => {
                    &&& final(self).log@ == old(self).log@
                    &&& spec_classify(line@) matches Some(payload)
                    &&& match res {
                        Ok(m) => spec_dec_solver_message(payload) == Some(m@),
                        Err(e) => spec_dec_solver_message(payload) is None && e
                            == ChannelError::MalformedMessage,
                    }
                },
            },
    {
        match classify_line(line.as_str()) {
            None => {
                self.log.push(line);
                None
            },
            Some(payload) => {
                match decode_solver_message(payload.as_str()) {
                    Some(m) => Some(Ok(m)),
                    None => Some(Err(ChannelError::MalformedMessage)),
                }
            },
        }
    }
}

/// The channel round trip: a framed problem message, read back as a line,
/// parses to the same message; no log line is produced on the way.
pub proof fn lemma_problem_frame_round(m: crate::message::ProblemMessageView)
    requires
        crate::codec::problem_message_fits(m),
    ensures
        ({
            let line = spec_frame_line(spec_enc_problem_message(m));
            spec_classify(line) matches Some(payload) && spec_dec_problem_message(payload)
                == Some(m)
        }),
{
    lemma_classify_frame(spec_enc_problem_message(m));
    crate::codec::lemma_problem_message_round(m);
}

/// The channel round trip for solver messages.
pub proof fn lemma_solver_frame_round(m: crate::message::SolverMessageView)
    requires
        crate::codec::solver_message_fits(m),
    ensures
        ({
            let line = spec_frame_line(spec_enc_solver_message(m));
            spec_classify(line) matches Some(payload) && spec_dec_solver_message(payload) == Some(
                m,
            )
        }),
{
    lemma_classify_frame(spec_enc_solver_message(m));
    crate::codec::lemma_solver_message_round(m);
}

} // verus!

use vstd::prelude::*;

use crate::message::{copy_bytes, Message, MessageView, PendingCall, PendingCallView};
use crate::store::{encode_pending, spec_encode_pending, spec_line, Transcript};
use crate::assembler::{assemble_chunk, ChunkEffect, ChunkView, StreamChunk};
use crate::CoreError;

verus! {

// The conversation state machine decides each step of the session:
// whether to resume a suspended tool call, collect new input, issue the
// completion request, or end. It owns the in-memory transcript; every
// durable effect of a decision is handed back to the caller as the
// exact bytes to persist, so the unverified edge only moves bytes.

/// Where the conversation stands.
#[derive(Debug, Clone, Copy, PartialEq, Eq, Structural)]
pub enum Phase {
    /// Process start: the loaded transcript ends in an unanswered tool
    /// call, whose external result must be folded in before anything
    /// else.
    Resuming,
    /// Waiting for one line of user input.
    AwaitingInput,
    /// A completion call is due with the whole transcript as context.
    Requesting,
    /// The response stream is being folded into history entries.
    Streaming,
    /// Terminal for this process; a tool-call suspension is re-entered
    /// only by a fresh start.
    Ended,
}

/// The mathematical shape of a `Conversation`.
pub ghost struct ConversationView {
    pub msgs: Seq<MessageView>,
    pub phase: Phase,
}

/// The unanswered tool call a transcript ends in, if any. The
/// transcript tail is authoritative for resumption; the sidecar is only
/// a derived cache of this value.
pub open spec fn spec_pending_of(msgs: Seq<MessageView>) -> Option<PendingCallView> {
    if msgs.len() == 0 {
        None
    } else {
        match msgs.last() {
            MessageView::AssistantToolCall { id, call_id, function_name, arguments } => Some(
                PendingCallView { id, call_id, function_name, arguments },
            ),
            _ => None,
        }
    }
}

/// The conversation state machine: the transcript plus the phase that
/// decides the next step.
pub struct Conversation {
    transcript: Transcript,
    phase: Phase,
}

/// What one streamed chunk obliges the caller to persist, in order:
/// first overwrite the sidecar if `sidecar` is present, then append
/// `line` to the history store if present, each flushed before the next
/// step. Recording the sidecar before the history line keeps a crash
/// between the two self-correcting.
pub struct ChunkStep {
    pub sidecar: Option<Vec<u8>>,
    pub line: Option<Vec<u8>>,
}

impl View for Conversation {
    type V = ConversationView;

    closed spec fn view(&self) -> ConversationView {
        ConversationView { msgs: self.transcript@, phase: self.phase }
    }
}

impl Conversation {
    /// The machine's one internal obligation: in `Resuming` the
    /// transcript really does end in an unanswered tool call.
    pub open spec fn wf(&self) -> bool {
        self@.phase == Phase::Resuming ==> spec_pending_of(self@.msgs) is Some
    }

    /// Starts the machine on the loaded transcript. If the last message
    /// is an unanswered tool call the phase is `Resuming` — the next
    /// step folds in the call's external result, with no prompt for
    /// user input; otherwise input is awaited.
    pub fn start(transcript: Transcript) -> (c: Conversation)
        ensures
            c.wf(),
            c@.msgs == transcript@,
            c@.phase == (if spec_pending_of(transcript@) is Some {
                Phase::Resuming
            } else {
                Phase::AwaitingInput
            }),
    {
        let phase = match transcript.last() {
            Some(m) => match m {
                Message::AssistantToolCall { .. } => Phase::Resuming,
                _ => Phase::AwaitingInput,
            },
            None => Phase::AwaitingInput,
        };
        Conversation { transcript, phase }
    }

    /// The tool call whose result must be supplied before the next
    /// turn, reconstructed from the transcript's last entry.
    pub fn resume_target(&self) -> (r: Option<PendingCall>)
        ensures
            r.deep_view() == spec_pending_of(self@.msgs),
    {
        match self.transcript.last() {
            Some(m) => match m {
                Message::AssistantToolCall { id, call_id, function_name, arguments } => Some(
                    PendingCall {
                        id: copy_bytes(id),
                        call_id: copy_bytes(call_id),
                        function_name: copy_bytes(function_name),
                        arguments: copy_bytes(arguments),
                    },
                ),
                _ => None,
            },
            None => None,
        }
    }

    /// Folds the externally produced result of the pending call into
    /// the transcript as the answering tool-result message — same
    /// `call_id`, content the result's bytes — and goes straight to
    /// `Requesting`, skipping input collection for this one turn. The
    /// returned bytes are the new message's durable line.
    pub fn supply_tool_result(&mut self, result: Vec<u8>) -> (line: Vec<u8>)
        requires
            old(self).wf(),
            old(self)@.phase == Phase::Resuming,
        ensures
            final(self).wf(),
            final(self)@.phase == Phase::Requesting,
            final(self)@.msgs == old(self)@.msgs.push(
                MessageView::UserToolResult {
                    call_id: spec_pending_of(old(self)@.msgs)->Some_0.call_id,
                    result_id: spec_pending_of(old(self)@.msgs)->Some_0.id,
                    content: seq![result@],
                },
            ),
            line@ == spec_line(final(self)@.msgs.last()),
    {
        let target = self.resume_target();
        match target {
            Some(t) => {
                let mut content: Vec<Vec<u8>> = Vec::new();
                content.push(result);
                let ghost cv = content.deep_view();
                let m = Message::UserToolResult {
                    call_id: t.call_id,
                    result_id: t.id,
                    content,
                };
                proof {
                    assert(cv =~~= seq![result@]);
                }
                let line = self.transcript.append(m);
                self.phase = Phase::Requesting;
                line
            },
            None => vstd::pervasive::unreached(),
        }
    }

    /// One line of user input at the prompt. Blank input ends the
    /// session gracefully, appending nothing; anything else is appended
    /// as the user's message — the returned bytes are its durable line —
    /// and a completion request becomes due.
    pub fn on_user_input(&mut self, input: Vec<u8>) -> (line: Option<Vec<u8>>)
        requires
            old(self).wf(),
            old(self)@.phase == Phase::AwaitingInput,
        ensures
            final(self).wf(),
            is_blank(input@) ==> (final(self)@.msgs == old(self)@.msgs && final(self)@.phase
                == Phase::Ended && line is None),
            !is_blank(input@) ==> (final(self)@.msgs == old(self)@.msgs.push(
                MessageView::UserText { text: input@ },
            ) && final(self)@.phase == Phase::Requesting && (line matches Some(l) && l@
                == spec_line(MessageView::UserText { text: input@ }))),
    {
        if blank(&input) {
            self.phase = Phase::Ended;
            None
        } else {
            let l = self.transcript.append(Message::UserText { text: input });
            self.phase = Phase::Requesting;
            Some(l)
        }
    }

    /// Marks the turn's completion call issued with the transcript as
    /// context: streaming of its response begins.
    pub fn begin_request(&mut self)
        requires
            old(self).wf(),
            old(self)@.phase == Phase::Requesting,
        ensures
            final(self).wf(),
            final(self)@.msgs == old(self)@.msgs,
            final(self)@.phase == Phase::Streaming,
    {
        self.phase = Phase::Streaming;
    }

    /// Folds one streamed chunk. A text chunk appends its message and
    /// streaming goes on. A tool call appends its message, hands back
    /// the sidecar record to write first, and ends the process's part:
    /// no further chunk may be fed to this turn. The final marker ends
    /// the turn normally, back to awaiting input. An unrecognized chunk
    /// is fatal, never dropped.
    pub fn on_chunk(&mut self, chunk: StreamChunk) -> (r: Result<ChunkStep, CoreError>)
        requires
            old(self).wf(),
            old(self)@.phase == Phase::Streaming,
        ensures
            final(self).wf(),
            chunk@ matches ChunkView::Text { text } ==> (final(self)@.msgs == old(self)@.msgs.push(
                MessageView::AssistantText { text },
            ) && final(self)@.phase == Phase::Streaming && (r matches Ok(step) && step.sidecar
                is None && (step.line matches Some(l) && l@ == spec_line(
                MessageView::AssistantText { text },
            )))),
            chunk@ matches ChunkView::ToolCall { id, call_id, function_name, arguments } ==> (
            final(self)@.msgs == old(self)@.msgs.push(
                MessageView::AssistantToolCall { id, call_id, function_name, arguments },
            ) && final(self)@.phase == Phase::Ended && (r matches Ok(step) && (step.sidecar
                matches Some(sc) && sc@ == spec_encode_pending(
                PendingCallView { id, call_id, function_name, arguments },
            )) && (step.line matches Some(l) && l@ == spec_line(
                MessageView::AssistantToolCall { id, call_id, function_name, arguments },
            )))),
            chunk@ is Final ==> (final(self)@.msgs == old(self)@.msgs && final(self)@.phase
                == Phase::AwaitingInput && (r matches Ok(step) && step.sidecar is None && step.line
                is None)),
            chunk@ is Unrecognized ==> (final(self)@.msgs == old(self)@.msgs && final(self)@.phase
                == Phase::Ended && (r matches Err(e) && e == CoreError::UnsupportedChunk)),
    {
        match assemble_chunk(chunk) {
            Ok(ChunkEffect::Emit { message }) => {
                let line = self.transcript.append(message);
                Ok(ChunkStep { sidecar: None, line: Some(line) })
            },
            Ok(ChunkEffect::EmitAndSuspend { message, pending }) => {
                let sidecar = encode_pending(&pending);
                let line = self.transcript.append(message);
                self.phase = Phase::Ended;
                Ok(ChunkStep { sidecar: Some(sidecar), line: Some(line) })
            },
            Ok(ChunkEffect::Settle) => {
                self.phase = Phase::AwaitingInput;
                Ok(ChunkStep { sidecar: None, line: None })
            },
            Err(e) => {
                self.phase = Phase::Ended;
                Err(e)
            },
        }
    }

    /// Where the conversation stands.
    pub fn phase(&self) -> (p: Phase)
        ensures
            p == self@.phase,
    {
        self.phase
    }

    /// The transcript so far, replayed verbatim as the context of every
    /// completion request.
    pub fn transcript(&self) -> (t: &Transcript)
        ensures
            t@ == self@.msgs,
    {
        &self.transcript
    }
}

/// ASCII whitespace, as far as blank input is concerned.
pub open spec fn is_ws(b: u8) -> bool {
    b == 32 || b == 9 || b == 10 || b == 13
}

/// Input that holds nothing but whitespace: the graceful way out.
pub open spec fn is_blank(s: Seq<u8>) -> bool {
    forall|i: int| 0 <= i < s.len() ==> is_ws(s[i])
}

/// Whether one line of input is blank.
fn blank(input: &Vec<u8>) -> (r: bool)
    ensures
        r == is_blank(input@),
{
    let mut i: usize = 0;
    while i < input.len()
        invariant
            i <= input.len(),
            forall|k: int| 0 <= k < i ==> is_ws(input@[k]),
        decreases input.len() - i,
    {
        let b = input[i];
        if !(b == 32 || b == 9 || b == 10 || b == 13) {
            assert(!is_ws(input@[i as int]));
            return false;
        }
        i = i + 1;
    }
    true
}

} // verus!

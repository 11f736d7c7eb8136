use vstd::prelude::*;

use crate::message::{copy_bytes, Message, MessageView, PendingCall, PendingCallView};
use crate::CoreError;

verus! {

// The stream assembler folds one turn's chunked model output into the
// discrete history entries the turn appends. A text chunk becomes one
// assistant-text message at once; a tool-call chunk becomes one
// assistant-tool-call message, carries the pending call to record, and
// ends the turn immediately, whatever chunks may still follow; the
// final marker ends the turn with nothing emitted. Any other chunk
// kind fails loudly rather than being dropped.

/// One incremental unit of the provider's streamed response for a turn.
/// `Unrecognized` stands for every chunk kind outside the supported
/// set; it is never silently dropped.
#[derive(Debug, PartialEq, Eq)]
pub enum StreamChunk {
    Text { text: Vec<u8> },
    ToolCall { id: Vec<u8>, call_id: Vec<u8>, function_name: Vec<u8>, arguments: Vec<u8> },
    Final,
    Unrecognized,
}

/// The mathematical shape of a `StreamChunk`.
pub ghost enum ChunkView {
    Text { text: Seq<u8> },
    ToolCall { id: Seq<u8>, call_id: Seq<u8>, function_name: Seq<u8>, arguments: Seq<u8> },
    Final,
    Unrecognized,
}

impl View for StreamChunk {
    type V = ChunkView;

    open spec fn view(&self) -> ChunkView {
        match self {
            StreamChunk::Text { text } => ChunkView::Text { text: text@ },
            StreamChunk::ToolCall { id, call_id, function_name, arguments } => ChunkView::ToolCall {
                id: id@,
                call_id: call_id@,
                function_name: function_name@,
                arguments: arguments@,
            },
            StreamChunk::Final => ChunkView::Final,
            StreamChunk::Unrecognized => ChunkView::Unrecognized,
        }
    }
}

impl DeepView for StreamChunk {
    type V = ChunkView;

    open spec fn deep_view(&self) -> ChunkView {
        self.view()
    }
}

/// What one accepted chunk obliges the turn to do.
pub enum ChunkEffect {
    /// Append this message and keep streaming.
    Emit { message: Message },
    /// Record the pending call, append the message, and end the turn at
    /// once: no later chunk of this turn may be processed.
    EmitAndSuspend { message: Message, pending: PendingCall },
    /// Append nothing; the turn is complete.
    Settle,
}

/// Folds one chunk: the only map from chunk kinds to history entries.
pub fn assemble_chunk(chunk: StreamChunk) -> (r: Result<ChunkEffect, CoreError>)
    ensures
        chunk@ matches ChunkView::Text { text } ==> (r matches Ok(e) && e matches
            ChunkEffect::Emit { message } && message@ == MessageView::AssistantText { text }),
        chunk@ matches ChunkView::ToolCall { id, call_id, function_name, arguments } ==> (r
            matches Ok(e) && e matches ChunkEffect::EmitAndSuspend { message, pending }
            && message@ == (MessageView::AssistantToolCall { id, call_id, function_name, arguments })
            && pending@ == (PendingCallView { id, call_id, function_name, arguments })),
        chunk@ is Final ==> (r matches Ok(e) && e is Settle),
        chunk@ is Unrecognized ==> (r matches Err(e) && e == CoreError::UnsupportedChunk),
{
    match chunk {
        StreamChunk::Text { text } => Ok(ChunkEffect::Emit { message: Message::AssistantText { text } }),
        StreamChunk::ToolCall { id, call_id, function_name, arguments } => {
            let pending = PendingCall {
                id: copy_bytes(&id),
                call_id: copy_bytes(&call_id),
                function_name: copy_bytes(&function_name),
                arguments: copy_bytes(&arguments),
            };
            let message = Message::AssistantToolCall { id, call_id, function_name, arguments };
            Ok(ChunkEffect::EmitAndSuspend { message, pending })
        },
        StreamChunk::Final => Ok(ChunkEffect::Settle),
        StreamChunk::Unrecognized => Err(CoreError::UnsupportedChunk),
    }
}

/// What a whole turn's chunk sequence folds to.
pub ghost struct TurnView {
    /// The messages the turn appends, in order.
    pub appended: Seq<MessageView>,
    /// The pending call recorded, if a tool call ended the turn.
    pub pending: Option<PendingCallView>,
    /// Whether a tool call ended the turn early.
    pub suspended: bool,
    /// How many chunks were consumed before the turn ended.
    pub consumed: int,
}

/// Folds a turn's chunks in order until the final marker, a tool call,
/// or the end of the stream; `None` on an unrecognized chunk. A stream
/// beginning with a tool call consumes exactly that one chunk. A
/// stream that is empty, or starts with the final marker, is a valid
/// quiet turn appending nothing.
pub open spec fn spec_turn(cs: Seq<ChunkView>) -> Option<TurnView>
    decreases cs.len(),
{
    if cs.len() == 0 {
        Some(TurnView { appended: Seq::empty(), pending: None, suspended: false, consumed: 0 })
    } else {
        match cs[0] {
            ChunkView::Text { text } => match spec_turn(cs.skip(1)) {
                Some(t) => Some(
                    TurnView {
                        appended: seq![MessageView::AssistantText { text }] + t.appended,
                        pending: t.pending,
                        suspended: t.suspended,
                        consumed: 1 + t.consumed,
                    },
                ),
                None => None,
            },
            ChunkView::ToolCall { id, call_id, function_name, arguments } => Some(
                TurnView {
                    appended: seq![
                        MessageView::AssistantToolCall { id, call_id, function_name, arguments },
                    ],
                    pending: Some(PendingCallView { id, call_id, function_name, arguments }),
                    suspended: true,
                    consumed: 1,
                },
            ),
            ChunkView::Final => Some(
                TurnView { appended: Seq::empty(), pending: None, suspended: false, consumed: 1 },
            ),
            ChunkView::Unrecognized => None,
        }
    }
}

/// What one turn left behind, executably.
pub struct TurnOutcome {
    pub appended: Vec<Message>,
    pub pending: Option<PendingCall>,
    pub suspended: bool,
    pub consumed: usize,
}

/// A vector of chunks deep-views elementwise.
proof fn lemma_chunks_deep_view(v: Vec<StreamChunk>)
    ensures
        v.deep_view().len() == v@.len(),
        forall|i: int| 0 <= i < v@.len() ==> #[trigger] v.deep_view()[i] == v@[i]@,
{
}

/// Folds one whole turn's chunk sequence: exactly `spec_turn` of it.
/// A text chunk's message is appended and streaming goes on; a tool
/// call appends its message, carries its pending call, and stops the
/// fold with the rest of the stream untouched; the final marker stops
/// it cleanly; an unrecognized chunk fails the turn.
pub fn assemble_turn(chunks: &Vec<StreamChunk>) -> (r: Result<TurnOutcome, CoreError>)
    ensures
        r matches Ok(t) ==> (spec_turn(chunks.deep_view()) matches Some(tv)
            && t.appended.deep_view() == tv.appended && t.pending.deep_view() == tv.pending
            && t.suspended == tv.suspended && t.consumed as int == tv.consumed),
        r matches Err(e) ==> spec_turn(chunks.deep_view()) is None && e
            == CoreError::UnsupportedChunk,
{
    let ghost cs = chunks.deep_view();
    proof {
        lemma_chunks_deep_view(*chunks);
        assert(cs.skip(0) =~~= cs);
        if spec_turn(cs) is Some {
            assert(Seq::<MessageView>::empty() + spec_turn(cs)->Some_0.appended =~= spec_turn(
                cs,
            )->Some_0.appended);
        }
    }
    let mut appended: Vec<Message> = Vec::new();
    let mut i: usize = 0;
    while i < chunks.len()
        invariant
            i <= chunks.len(),
            cs == chunks.deep_view(),
            cs.len() == chunks@.len(),
            forall|k: int| 0 <= k < chunks@.len() ==> #[trigger] cs[k] == chunks@[k]@,
            spec_turn(cs) == (match spec_turn(cs.skip(i as int)) {
                Some(t) => Some(
                    TurnView {
                        appended: appended.deep_view() + t.appended,
                        pending: t.pending,
                        suspended: t.suspended,
                        consumed: i + t.consumed,
                    },
                ),
                None => None::<TurnView>,
            }),
        decreases chunks.len() - i,
    {
        let ghost t = cs.skip(i as int);
        proof {
            assert(t[0] == cs[i as int]);
            assert(t.skip(1) =~~= cs.skip(i as int + 1));
        }
        match &chunks[i] {
            StreamChunk::Text { text } => {
                let m = Message::AssistantText { text: copy_bytes(text) };
                let ghost app0 = appended.deep_view();
                appended.push(m);
                proof {
                    assert(appended.deep_view() =~= app0.push(m@));
                    if spec_turn(cs.skip(i as int + 1)) is Some {
                        let tn = spec_turn(cs.skip(i as int + 1))->Some_0;
                        assert(spec_turn(t) == Some(
                            TurnView {
                                appended: seq![m@] + tn.appended,
                                pending: tn.pending,
                                suspended: tn.suspended,
                                consumed: 1 + tn.consumed,
                            },
                        ));
                        assert(app0 + (seq![m@] + tn.appended) =~= appended.deep_view()
                            + tn.appended);
                    } else {
                        assert(spec_turn(t) is None);
                    }
                }
                i = i + 1;
            },
            StreamChunk::ToolCall { id, call_id, function_name, arguments } => {
                let pending = PendingCall {
                    id: copy_bytes(id),
                    call_id: copy_bytes(call_id),
                    function_name: copy_bytes(function_name),
                    arguments: copy_bytes(arguments),
                };
                let m = Message::AssistantToolCall {
                    id: copy_bytes(id),
                    call_id: copy_bytes(call_id),
                    function_name: copy_bytes(function_name),
                    arguments: copy_bytes(arguments),
                };
                let ghost app0 = appended.deep_view();
                appended.push(m);
                proof {
                    assert(appended.deep_view() =~= app0.push(m@));
                    assert(app0 + seq![m@] =~= appended.deep_view());
                }
                return Ok(
                    TurnOutcome { appended, pending: Some(pending), suspended: true, consumed: i + 1 },
                );
            },
            StreamChunk::Final => {
                proof {
                    assert(appended.deep_view() + Seq::<MessageView>::empty()
                        =~= appended.deep_view());
                }
                return Ok(
                    TurnOutcome { appended, pending: None, suspended: false, consumed: i + 1 },
                );
            },
            StreamChunk::Unrecognized => {
                return Err(CoreError::UnsupportedChunk);
            },
        }
    }
    proof {
        assert(cs.skip(cs.len() as int) =~~= Seq::<ChunkView>::empty());
        assert(appended.deep_view() + Seq::<MessageView>::empty() =~= appended.deep_view());
    }
    Ok(TurnOutcome { appended, pending: None, suspended: false, consumed: i })
}

} // verus!

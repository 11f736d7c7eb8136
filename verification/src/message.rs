use vstd::prelude::*;

verus! {

/// One entry of the conversation history: the closed set of message kinds
/// the transcript can hold. Text is carried as UTF-8 bytes, and the
/// structured arguments of a tool call are carried as their serialized
/// bytes; both are opaque to this library.
#[derive(Debug, PartialEq, Eq)]
pub enum Message {
    /// One line of user input.
    UserText { text: Vec<u8> },
    /// The externally produced result of a tool call, answering the
    /// assistant tool call with the same `call_id`.
    UserToolResult { call_id: Vec<u8>, result_id: Vec<u8>, content: Vec<Vec<u8>> },
    /// One increment of assistant output text.
    AssistantText { text: Vec<u8> },
    /// A tool invocation requested by the assistant.
    AssistantToolCall { id: Vec<u8>, call_id: Vec<u8>, function_name: Vec<u8>, arguments: Vec<u8> },
}

/// The mathematical shape of a `Message`: the same four variants over `Seq<u8>`.
pub ghost enum MessageView {
    UserText { text: Seq<u8> },
    UserToolResult { call_id: Seq<u8>, result_id: Seq<u8>, content: Seq<Seq<u8>> },
    AssistantText { text: Seq<u8> },
    AssistantToolCall { id: Seq<u8>, call_id: Seq<u8>, function_name: Seq<u8>, arguments: Seq<u8> },
}

impl View for Message {
    type V = MessageView;

    open spec fn view(&self) -> MessageView {
        match self {
            Message::UserText { text } => MessageView::UserText { text: text@ },
            Message::UserToolResult { call_id, result_id, content } => MessageView::UserToolResult {
                call_id: call_id@,
                result_id: result_id@,
                content: content.deep_view(),
            },
            Message::AssistantText { text } => MessageView::AssistantText { text: text@ },
            Message::AssistantToolCall { id, call_id, function_name, arguments } => MessageView::AssistantToolCall {
                id: id@,
                call_id: call_id@,
                function_name: function_name@,
                arguments: arguments@,
            },
        }
    }
}

impl DeepView for Message {
    type V = MessageView;

    open spec fn deep_view(&self) -> MessageView {
        self.view()
    }
}

/// The single outstanding tool invocation awaiting an external result,
/// as recorded durably outside the transcript.
#[derive(Debug, PartialEq, Eq)]
pub struct PendingCall {
    pub id: Vec<u8>,
    pub call_id: Vec<u8>,
    pub function_name: Vec<u8>,
    pub arguments: Vec<u8>,
}

/// The mathematical shape of a `PendingCall`.
pub ghost struct PendingCallView {
    pub id: Seq<u8>,
    pub call_id: Seq<u8>,
    pub function_name: Seq<u8>,
    pub arguments: Seq<u8>,
}

impl View for PendingCall {
    type V = PendingCallView;

    open spec fn view(&self) -> PendingCallView {
        PendingCallView {
            id: self.id@,
            call_id: self.call_id@,
            function_name: self.function_name@,
            arguments: self.arguments@,
        }
    }
}

impl DeepView for PendingCall {
    type V = PendingCallView;

    open spec fn deep_view(&self) -> PendingCallView {
        self.view()
    }
}

/// A byte vector's deep view is its view.
pub(crate) proof fn lemma_bytes_deep_view(v: Vec<u8>)
    ensures
        v.deep_view() == v@,
{
    assert(v.deep_view() =~= v@);
}

/// A vector of byte vectors deep-views elementwise.
pub(crate) proof fn lemma_byte_rows_deep_view(v: Vec<Vec<u8>>)
    ensures
        v.deep_view().len() == v@.len(),
        forall|i: int| 0 <= i < v@.len() ==> #[trigger] v.deep_view()[i] == v@[i]@,
{
    assert forall|i: int| 0 <= i < v@.len() implies #[trigger] v.deep_view()[i] == v@[i]@ by {
        lemma_bytes_deep_view(v@[i]);
    }
}

/// Copies a byte vector. Verified code uses this instead of `Clone`, so
/// that the copy's contents are known to equal the original's.
pub fn copy_bytes(src: &Vec<u8>) -> (r: Vec<u8>)
    ensures
        r@ == src@,
{
    let mut out: Vec<u8> = Vec::new();
    let mut i: usize = 0;
    while i < src.len()
        invariant
            i <= src.len(),
            out@ == src@.take(i as int),
        decreases src.len() - i,
    {
        out.push(src[i]);
        i = i + 1;
        proof {
            assert(out@ =~= src@.take(i as int));
        }
    }
    proof {
        assert(src@.take(src@.len() as int) =~= src@);
    }
    out
}

} // verus!

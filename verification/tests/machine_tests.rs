use chatlog::assembler::{assemble_turn, StreamChunk, TurnOutcome};
use chatlog::machine::{Conversation, Phase};
use chatlog::message::{Message, PendingCall};
use chatlog::store::{decode_pending, Transcript};
use chatlog::CoreError;

fn weather_call() -> Message {
    Message::AssistantToolCall {
        id: b"id-1".to_vec(),
        call_id: b"call-X".to_vec(),
        function_name: b"get_weather".to_vec(),
        arguments: b"{\"location\":\"Paris\"}".to_vec(),
    }
}

#[test]
fn restart_after_tool_call_resumes_without_prompting() {
    let mut t = Transcript::new();
    t.append(Message::UserText { text: b"weather in Paris?".to_vec() });
    t.append(weather_call());

    let mut c = Conversation::start(t);
    assert_eq!(c.phase(), Phase::Resuming);

    let target = c.resume_target().expect("the tail is an unanswered tool call");
    assert_eq!(target.call_id, b"call-X".to_vec());
    assert_eq!(target.function_name, b"get_weather".to_vec());

    c.supply_tool_result(b"sunny, 21 C".to_vec());
    assert_eq!(c.phase(), Phase::Requesting);
    assert_eq!(
        c.transcript().last(),
        Some(&Message::UserToolResult {
            call_id: b"call-X".to_vec(),
            result_id: b"id-1".to_vec(),
            content: vec![b"sunny, 21 C".to_vec()],
        })
    );
}

#[test]
fn start_without_pending_call_awaits_input() {
    let c = Conversation::start(Transcript::new());
    assert_eq!(c.phase(), Phase::AwaitingInput);
    assert!(c.resume_target().is_none());

    let mut t = Transcript::new();
    t.append(weather_call());
    t.append(Message::UserToolResult {
        call_id: b"call-X".to_vec(),
        result_id: b"id-1".to_vec(),
        content: vec![b"sunny".to_vec()],
    });
    let c = Conversation::start(t);
    assert_eq!(c.phase(), Phase::AwaitingInput);
}

#[test]
fn blank_input_ends_without_appending() {
    let mut c = Conversation::start(Transcript::new());
    let before = c.transcript().len();
    let line = c.on_user_input(b" \t ".to_vec());
    assert!(line.is_none());
    assert_eq!(c.phase(), Phase::Ended);
    assert_eq!(c.transcript().len(), before);
}

#[test]
fn empty_input_ends_without_appending() {
    let mut c = Conversation::start(Transcript::new());
    let line = c.on_user_input(Vec::new());
    assert!(line.is_none());
    assert_eq!(c.phase(), Phase::Ended);
    assert_eq!(c.transcript().len(), 0);
}

#[test]
fn real_input_is_appended_and_requested() {
    let mut c = Conversation::start(Transcript::new());
    let line = c.on_user_input(b"hello".to_vec());
    assert!(line.is_some());
    assert_eq!(c.phase(), Phase::Requesting);
    assert_eq!(c.transcript().last(), Some(&Message::UserText { text: b"hello".to_vec() }));
}

#[test]
fn two_text_chunks_then_final_append_two_messages() {
    let chunks = vec![
        StreamChunk::Text { text: b"a".to_vec() },
        StreamChunk::Text { text: b"b".to_vec() },
        StreamChunk::Final,
    ];
    let TurnOutcome { appended, pending, suspended, consumed } =
        assemble_turn(&chunks).expect("a supported stream assembles");
    assert_eq!(
        appended,
        vec![
            Message::AssistantText { text: b"a".to_vec() },
            Message::AssistantText { text: b"b".to_vec() },
        ]
    );
    assert!(pending.is_none());
    assert!(!suspended);
    assert_eq!(consumed, 3);

    let mut c = Conversation::start(Transcript::new());
    c.on_user_input(b"hi".to_vec());
    c.begin_request();
    for chunk in chunks {
        c.on_chunk(chunk).expect("supported chunks step the machine");
    }
    assert_eq!(c.phase(), Phase::AwaitingInput);
    assert_eq!(c.transcript().len(), 3);
}

#[test]
fn tool_call_chunk_suspends_at_once() {
    let chunks = vec![
        StreamChunk::ToolCall {
            id: b"id-1".to_vec(),
            call_id: b"call-X".to_vec(),
            function_name: b"get_weather".to_vec(),
            arguments: b"{\"location\":\"Paris\"}".to_vec(),
        },
        StreamChunk::Text { text: b"never consumed".to_vec() },
    ];
    let outcome = assemble_turn(&chunks).expect("a tool call assembles");
    assert_eq!(outcome.appended, vec![weather_call()]);
    assert_eq!(
        outcome.pending,
        Some(PendingCall {
            id: b"id-1".to_vec(),
            call_id: b"call-X".to_vec(),
            function_name: b"get_weather".to_vec(),
            arguments: b"{\"location\":\"Paris\"}".to_vec(),
        })
    );
    assert!(outcome.suspended);
    assert_eq!(outcome.consumed, 1);
}

#[test]
fn tool_call_chunk_ends_the_machine_and_records_the_sidecar() {
    let mut c = Conversation::start(Transcript::new());
    c.on_user_input(b"weather in Paris?".to_vec());
    c.begin_request();
    let step = c
        .on_chunk(StreamChunk::ToolCall {
            id: b"id-1".to_vec(),
            call_id: b"call-X".to_vec(),
            function_name: b"get_weather".to_vec(),
            arguments: b"{\"location\":\"Paris\"}".to_vec(),
        })
        .expect("a tool call steps the machine");
    assert_eq!(c.phase(), Phase::Ended);
    assert_eq!(c.transcript().last(), Some(&weather_call()));
    let sidecar = step.sidecar.expect("a tool call records the sidecar");
    assert_eq!(
        decode_pending(&sidecar),
        Ok(PendingCall {
            id: b"id-1".to_vec(),
            call_id: b"call-X".to_vec(),
            function_name: b"get_weather".to_vec(),
            arguments: b"{\"location\":\"Paris\"}".to_vec(),
        })
    );
    assert!(step.line.is_some());
}

#[test]
fn quiet_turn_is_valid() {
    let outcome = assemble_turn(&vec![StreamChunk::Final]).expect("a quiet turn is valid");
    assert!(outcome.appended.is_empty());
    assert!(outcome.pending.is_none());
    assert!(!outcome.suspended);
    assert_eq!(outcome.consumed, 1);

    let mut c = Conversation::start(Transcript::new());
    c.on_user_input(b"hi".to_vec());
    c.begin_request();
    c.on_chunk(StreamChunk::Final).expect("the final marker is supported");
    assert_eq!(c.phase(), Phase::AwaitingInput);
}

#[test]
fn unrecognized_chunk_is_fatal() {
    assert_eq!(
        assemble_turn(&vec![
            StreamChunk::Text { text: b"a".to_vec() },
            StreamChunk::Unrecognized,
        ])
        .err(),
        Some(CoreError::UnsupportedChunk)
    );

    let mut c = Conversation::start(Transcript::new());
    c.on_user_input(b"hi".to_vec());
    c.begin_request();
    assert_eq!(c.on_chunk(StreamChunk::Unrecognized).err(), Some(CoreError::UnsupportedChunk));
    assert_eq!(c.phase(), Phase::Ended);
}

#[test]
fn turn_lines_reload_into_the_grown_transcript() {
    let mut bytes: Vec<u8> = Vec::new();
    let mut c = Conversation::start(Transcript::new());
    if let Some(line) = c.on_user_input(b"hi".to_vec()) {
        bytes.extend_from_slice(&line);
    }
    c.begin_request();
    for chunk in [
        StreamChunk::Text { text: b"hello".to_vec() },
        StreamChunk::Final,
    ] {
        let step = c.on_chunk(chunk).expect("supported chunks step the machine");
        if let Some(line) = step.line {
            bytes.extend_from_slice(&line);
        }
    }
    let loaded = Transcript::load(&bytes).expect("the persisted turn must reload");
    assert_eq!(loaded.messages(), c.transcript().messages());
}

use chatlog::message::{Message, PendingCall};
use chatlog::store::{decode_pending, encode_pending, Transcript};
use chatlog::CoreError;

fn sample_messages() -> Vec<Message> {
    vec![
        Message::UserText { text: b"what is the weather in Paris?".to_vec() },
        Message::AssistantToolCall {
            id: b"id-1".to_vec(),
            call_id: b"call-1".to_vec(),
            function_name: b"get_weather".to_vec(),
            arguments: b"{\"location\":\"Paris\"}".to_vec(),
        },
        Message::UserToolResult {
            call_id: b"call-1".to_vec(),
            result_id: b"id-1".to_vec(),
            content: vec![b"sunny, 21 C".to_vec()],
        },
        Message::AssistantText { text: b"It is sunny in Paris.\nEnjoy!".to_vec() },
    ]
}

#[test]
fn appends_then_load_gives_the_same_transcript() {
    let mut t = Transcript::new();
    let mut bytes: Vec<u8> = Vec::new();
    for m in sample_messages() {
        let line = t.append(m);
        bytes.extend_from_slice(&line);
    }
    let loaded = Transcript::load(&bytes).expect("an appended store must load");
    assert_eq!(loaded.messages(), t.messages());
    assert_eq!(loaded.len(), 4);
}

#[test]
fn empty_store_loads_as_empty_transcript() {
    let loaded = Transcript::load(&vec![]).expect("an empty store is a first run");
    assert_eq!(loaded.len(), 0);
    assert!(loaded.last().is_none());
}

#[test]
fn one_malformed_line_fails_the_whole_load() {
    let mut t = Transcript::new();
    let mut bytes: Vec<u8> = Vec::new();
    bytes.extend_from_slice(&t.append(Message::UserText { text: b"hi".to_vec() }));
    bytes.extend_from_slice(b"not a message\n");
    bytes.extend_from_slice(&t.append(Message::AssistantText { text: b"hello".to_vec() }));
    assert_eq!(Transcript::load(&bytes).err(), Some(CoreError::CorruptHistory));
}

#[test]
fn unterminated_tail_fails_the_load() {
    let mut t = Transcript::new();
    let mut bytes: Vec<u8> = Vec::new();
    bytes.extend_from_slice(&t.append(Message::UserText { text: b"hi".to_vec() }));
    bytes.extend_from_slice(b"U\tcut off mid-write");
    assert_eq!(Transcript::load(&bytes).err(), Some(CoreError::CorruptHistory));
}

#[test]
fn last_reports_the_latest_append() {
    let mut t = Transcript::new();
    t.append(Message::UserText { text: b"first".to_vec() });
    t.append(Message::AssistantText { text: b"second".to_vec() });
    assert_eq!(t.last(), Some(&Message::AssistantText { text: b"second".to_vec() }));
    assert_eq!(t.len(), 2);
}

#[test]
fn pending_call_round_trip() {
    let p = PendingCall {
        id: b"id-1".to_vec(),
        call_id: b"call-1".to_vec(),
        function_name: b"get_weather".to_vec(),
        arguments: b"{\"location\":\"Paris\",\"unit\":\"C\"}".to_vec(),
    };
    let bytes = encode_pending(&p);
    assert_eq!(decode_pending(&bytes), Ok(p));
}

#[test]
fn pending_call_with_special_bytes_round_trips() {
    let p = PendingCall {
        id: b"\t\n\\".to_vec(),
        call_id: b"".to_vec(),
        function_name: b"f".to_vec(),
        arguments: b"{\n\t}".to_vec(),
    };
    let bytes = encode_pending(&p);
    assert_eq!(decode_pending(&bytes), Ok(p));
}

#[test]
fn malformed_sidecar_is_corrupt() {
    assert_eq!(decode_pending(&b"only\tthree\tfields".to_vec()), Err(CoreError::CorruptHistory));
    assert_eq!(decode_pending(&b"a\tb\tc\td\te".to_vec()), Err(CoreError::CorruptHistory));
    assert_eq!(decode_pending(&b"bad\\escape\tb\tc\td".to_vec()), Err(CoreError::CorruptHistory));
}

use chatlog::codec::{deserialize_message, serialize_message};
use chatlog::message::Message;
use chatlog::CoreError;

fn round_trips(m: Message) {
    let line = serialize_message(&m);
    let back = deserialize_message(&line).expect("a serialized message must deserialize");
    assert_eq!(back, m);
}

#[test]
fn user_text_round_trip() {
    round_trips(Message::UserText { text: b"hello there".to_vec() });
}

#[test]
fn assistant_text_round_trip() {
    round_trips(Message::AssistantText { text: b"partly cloudy".to_vec() });
}

#[test]
fn tool_call_round_trip() {
    round_trips(Message::AssistantToolCall {
        id: b"id-1".to_vec(),
        call_id: b"call-7".to_vec(),
        function_name: b"get_weather".to_vec(),
        arguments: b"{\"location\":\"Paris\"}".to_vec(),
    });
}

#[test]
fn tool_result_round_trip() {
    round_trips(Message::UserToolResult {
        call_id: b"call-7".to_vec(),
        result_id: b"id-1".to_vec(),
        content: vec![b"sunny".to_vec(), b"21 degrees".to_vec()],
    });
}

#[test]
fn tool_result_without_content_round_trips() {
    round_trips(Message::UserToolResult {
        call_id: b"call-9".to_vec(),
        result_id: b"id-9".to_vec(),
        content: vec![],
    });
}

#[test]
fn empty_text_round_trips() {
    round_trips(Message::UserText { text: vec![] });
}

#[test]
fn special_bytes_round_trip() {
    round_trips(Message::UserText { text: b"a\tb\nc\\d".to_vec() });
    round_trips(Message::AssistantText { text: b"\\n is not a newline\n\t\\".to_vec() });
    round_trips(Message::AssistantToolCall {
        id: b"\t".to_vec(),
        call_id: b"\n".to_vec(),
        function_name: b"\\".to_vec(),
        arguments: b"\t\n\\".to_vec(),
    });
}

#[test]
fn serialized_form_is_exact() {
    let line = serialize_message(&Message::UserText { text: b"hi".to_vec() });
    assert_eq!(line, b"U\thi".to_vec());
    let line = serialize_message(&Message::AssistantText { text: b"a\tb".to_vec() });
    assert_eq!(line, b"A\ta\\tb".to_vec());
    let line = serialize_message(&Message::AssistantToolCall {
        id: b"i".to_vec(),
        call_id: b"c".to_vec(),
        function_name: b"f".to_vec(),
        arguments: b"{}".to_vec(),
    });
    assert_eq!(line, b"C\ti\tc\tf\t{}".to_vec());
    let line = serialize_message(&Message::UserToolResult {
        call_id: b"c".to_vec(),
        result_id: b"i".to_vec(),
        content: vec![b"x".to_vec(), b"y".to_vec()],
    });
    assert_eq!(line, b"R\tc\ti\tx\ty".to_vec());
}

#[test]
fn serialized_line_never_holds_a_newline() {
    let line = serialize_message(&Message::AssistantText { text: b"one\ntwo\nthree".to_vec() });
    assert!(!line.contains(&b'\n'));
}

#[test]
fn unknown_tag_is_corrupt() {
    assert_eq!(deserialize_message(&b"X\thi".to_vec()), Err(CoreError::CorruptHistory));
}

#[test]
fn wrong_arity_is_corrupt() {
    assert_eq!(deserialize_message(&b"U\ta\tb".to_vec()), Err(CoreError::CorruptHistory));
    assert_eq!(deserialize_message(&b"C\ti\tc\tf".to_vec()), Err(CoreError::CorruptHistory));
    assert_eq!(deserialize_message(&b"R\tc".to_vec()), Err(CoreError::CorruptHistory));
}

#[test]
fn dangling_escape_is_corrupt() {
    assert_eq!(deserialize_message(&b"U\thi\\".to_vec()), Err(CoreError::CorruptHistory));
}

#[test]
fn unknown_escape_code_is_corrupt() {
    assert_eq!(deserialize_message(&b"U\thi\\x".to_vec()), Err(CoreError::CorruptHistory));
}

#[test]
fn raw_newline_is_corrupt() {
    assert_eq!(deserialize_message(&b"U\thi\nthere".to_vec()), Err(CoreError::CorruptHistory));
}

#[test]
fn empty_line_is_corrupt() {
    assert_eq!(deserialize_message(&vec![]), Err(CoreError::CorruptHistory));
}

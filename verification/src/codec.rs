use vstd::prelude::*;

use crate::message::{copy_bytes, lemma_byte_rows_deep_view, Message, MessageView};
use crate::CoreError;

verus! {

// The line format. A message is a sequence of fields joined by a tab;
// the first field is a one-byte variant tag, the rest are the variant's
// payloads in order. Inside a field, backslash, newline and tab are
// escaped, so a serialized message never contains a raw newline and the
// tabs that remain are exactly the field separators. One message is
// persisted per newline-terminated line.

/// The escape lead-in byte, `\`.
pub const ESC: u8 = 92;
/// The field separator, an ASCII tab.
pub const SEP: u8 = 9;
/// The line terminator, an ASCII newline.
pub const EOL: u8 = 10;
/// The code byte standing for an escaped newline, `n`.
pub const CODE_N: u8 = 110;
/// The code byte standing for an escaped tab, `t`.
pub const CODE_T: u8 = 116;

/// Variant tag for `Message::UserText`, `U`.
pub const TAG_USER_TEXT: u8 = 85;
/// Variant tag for `Message::AssistantText`, `A`.
pub const TAG_ASSISTANT_TEXT: u8 = 65;
/// Variant tag for `Message::AssistantToolCall`, `C`.
pub const TAG_TOOL_CALL: u8 = 67;
/// Variant tag for `Message::UserToolResult`, `R`.
pub const TAG_TOOL_RESULT: u8 = 82;

/// How one payload byte is written out: the three special bytes take a
/// two-byte escape, every other byte stands for itself.
pub open spec fn esc_byte(b: u8) -> Seq<u8> {
    if b == ESC {
        seq![ESC, ESC]
    } else if b == EOL {
        seq![ESC, CODE_N]
    } else if b == SEP {
        seq![ESC, CODE_T]
    } else {
        seq![b]
    }
}

/// A whole field, escaped byte by byte.
pub open spec fn escape(s: Seq<u8>) -> Seq<u8>
    decreases s.len(),
{
    if s.len() == 0 {
        Seq::empty()
    } else {
        esc_byte(s[0]) + escape(s.skip(1))
    }
}

/// The escaped fields joined by the separator.
pub open spec fn esc_join(fs: Seq<Seq<u8>>) -> Seq<u8>
    decreases fs.len(),
{
    if fs.len() == 0 {
        Seq::empty()
    } else if fs.len() == 1 {
        escape(fs[0])
    } else {
        escape(fs[0]) + seq![SEP] + esc_join(fs.skip(1))
    }
}

/// Reads a joined line back into its unescaped fields: `None` on a raw
/// newline, on a dangling escape, or on an unknown escape code. The
/// inverse of `esc_join`.
pub open spec fn unesc_split(s: Seq<u8>) -> Option<Seq<Seq<u8>>>
    decreases s.len(),
{
    if s.len() == 0 {
        Some(seq![Seq::<u8>::empty()])
    } else if s[0] == SEP {
        match unesc_split(s.skip(1)) {
            Some(fs) => Some(seq![Seq::<u8>::empty()] + fs),
            None => None,
        }
    } else if s[0] == ESC {
        if s.len() >= 2 && (s[1] == ESC || s[1] == CODE_N || s[1] == CODE_T) {
            let d: u8 = if s[1] == ESC {
                ESC
            } else if s[1] == CODE_N {
                EOL
            } else {
                SEP
            };
            match unesc_split(s.skip(2)) {
                Some(fs) => Some(fs.update(0, seq![d] + fs[0])),
                None => None,
            }
        } else {
            None
        }
    } else if s[0] == EOL {
        None
    } else {
        match unesc_split(s.skip(1)) {
            Some(fs) => Some(fs.update(0, seq![s[0]] + fs[0])),
            None => None,
        }
    }
}

/// A split never yields an empty field list.
pub(crate) proof fn lemma_unesc_split_nonempty(s: Seq<u8>)
    ensures
        unesc_split(s) matches Some(fs) ==> fs.len() >= 1,
    decreases s.len(),
{
    if s.len() == 0 {
    } else if s[0] == SEP {
        lemma_unesc_split_nonempty(s.skip(1));
    } else if s[0] == ESC {
        if s.len() >= 2 {
            lemma_unesc_split_nonempty(s.skip(2));
        }
    } else {
        lemma_unesc_split_nonempty(s.skip(1));
    }
}

/// An escaped field contains neither a raw separator nor a raw newline.
proof fn lemma_escape_no_special(s: Seq<u8>)
    ensures
        forall|i: int| 0 <= i < escape(s).len() ==> escape(s)[i] != SEP && escape(s)[i] != EOL,
    decreases s.len(),
{
    if s.len() > 0 {
        lemma_escape_no_special(s.skip(1));
        assert(escape(s) == esc_byte(s[0]) + escape(s.skip(1)));
        assert forall|i: int| 0 <= i < escape(s).len() implies escape(s)[i] != SEP && escape(s)[i]
            != EOL by {
            if i >= esc_byte(s[0]).len() {
                assert(escape(s)[i] == escape(s.skip(1))[i - esc_byte(s[0]).len()]);
            }
        }
    }
}

/// A joined line contains no raw newline, so one message occupies one
/// line of the store.
proof fn lemma_esc_join_no_eol(fs: Seq<Seq<u8>>)
    ensures
        forall|i: int| 0 <= i < esc_join(fs).len() ==> esc_join(fs)[i] != EOL,
    decreases fs.len(),
{
    if fs.len() == 0 {
    } else if fs.len() == 1 {
        lemma_escape_no_special(fs[0]);
    } else {
        lemma_escape_no_special(fs[0]);
        lemma_esc_join_no_eol(fs.skip(1));
        let head = escape(fs[0]) + seq![SEP];
        assert(esc_join(fs) == head + esc_join(fs.skip(1)));
        assert forall|i: int| 0 <= i < esc_join(fs).len() implies esc_join(fs)[i] != EOL by {
            if i >= head.len() {
                assert(esc_join(fs)[i] == esc_join(fs.skip(1))[i - head.len()]);
            }
        }
    }
}

/// A serialized message contains no raw newline.
pub proof fn lemma_serialize_no_eol(v: MessageView)
    ensures
        forall|i: int| 0 <= i < spec_serialize(v).len() ==> spec_serialize(v)[i] != EOL,
{
    lemma_esc_join_no_eol(fields_of(v));
}

/// Escaping distributes over pushing one byte onto a field.
proof fn lemma_escape_push(s: Seq<u8>, b: u8)
    ensures
        escape(s.push(b)) == escape(s) + esc_byte(b),
    decreases s.len(),
{
    assert((s.push(b))[0] == if s.len() == 0 { b } else { s[0] });
    if s.len() == 0 {
        assert(s.push(b).skip(1) =~= Seq::<u8>::empty());
        assert(escape(s.push(b)) == esc_byte(b) + escape(Seq::<u8>::empty()));
        assert(escape(s.push(b)) =~= escape(s) + esc_byte(b));
    } else {
        assert(s.push(b).skip(1) =~= s.skip(1).push(b));
        assert(escape(s.push(b)) == esc_byte(s[0]) + escape(s.skip(1).push(b)));
        lemma_escape_push(s.skip(1), b);
        assert(escape(s) == esc_byte(s[0]) + escape(s.skip(1)));
        assert(escape(s.push(b)) =~= escape(s) + esc_byte(b));
    }
}

/// Joining distributes over pushing one more field.
proof fn lemma_esc_join_push(fs: Seq<Seq<u8>>, f: Seq<u8>)
    requires
        fs.len() >= 1,
    ensures
        esc_join(fs.push(f)) == esc_join(fs) + seq![SEP] + escape(f),
    decreases fs.len(),
{
    assert((fs.push(f))[0] == fs[0]);
    if fs.len() == 1 {
        assert(fs.push(f).skip(1) =~~= seq![f]);
        assert(esc_join(fs.push(f)) == escape(fs[0]) + seq![SEP] + esc_join(seq![f]));
        assert(esc_join(seq![f]) == escape(f));
        assert(esc_join(fs) == escape(fs[0]));
        assert(esc_join(fs.push(f)) =~= esc_join(fs) + seq![SEP] + escape(f));
    } else {
        assert(fs.push(f).skip(1) =~~= fs.skip(1).push(f));
        assert(esc_join(fs.push(f)) == escape(fs[0]) + seq![SEP] + esc_join(fs.skip(1).push(f)));
        lemma_esc_join_push(fs.skip(1), f);
        assert(esc_join(fs) == escape(fs[0]) + seq![SEP] + esc_join(fs.skip(1)));
        assert(esc_join(fs.push(f)) =~= esc_join(fs) + seq![SEP] + escape(f));
    }
}

/// Reading an escaped field off the front of a split input prepends the
/// field to the input's first split field.
proof fn lemma_unesc_split_prepend(f: Seq<u8>, t: Seq<u8>)
    requires
        unesc_split(t) is Some,
    ensures
        unesc_split(escape(f) + t) == Some(
            unesc_split(t)->Some_0.update(0, f + unesc_split(t)->Some_0[0]),
        ),
    decreases f.len(),
{
    let fs = unesc_split(t)->Some_0;
    lemma_unesc_split_nonempty(t);
    if f.len() == 0 {
        assert(escape(f) + t =~= t);
        assert(f + fs[0] =~= fs[0]);
        assert(fs.update(0, fs[0]) =~~= fs);
    } else {
        lemma_unesc_split_prepend(f.skip(1), t);
        let gs = fs.update(0, f.skip(1) + fs[0]);
        let s = escape(f) + t;
        assert(escape(f) =~= esc_byte(f[0]) + escape(f.skip(1)));
        if f[0] == ESC || f[0] == EOL || f[0] == SEP {
            // a two-byte escape leads the line
            let code: u8 = if f[0] == ESC {
                ESC
            } else if f[0] == EOL {
                CODE_N
            } else {
                CODE_T
            };
            assert(s =~= seq![ESC, code] + (escape(f.skip(1)) + t));
            assert(s.skip(2) =~= escape(f.skip(1)) + t);
            assert(unesc_split(s) == Some(gs.update(0, seq![f[0]] + gs[0])));
        } else {
            assert(s =~= seq![f[0]] + (escape(f.skip(1)) + t));
            assert(s.skip(1) =~= escape(f.skip(1)) + t);
            assert(unesc_split(s) == Some(gs.update(0, seq![f[0]] + gs[0])));
        }
        assert(seq![f[0]] + (f.skip(1) + fs[0]) =~= f + fs[0]);
        assert(gs.update(0, seq![f[0]] + gs[0]) =~~= fs.update(0, f + fs[0]));
    }
}

/// Splitting inverts joining: the round trip of a field list.
pub proof fn lemma_unesc_split_esc_join(fs: Seq<Seq<u8>>)
    requires
        fs.len() >= 1,
    ensures
        unesc_split(esc_join(fs)) == Some(fs),
    decreases fs.len(),
{
    if fs.len() == 1 {
        assert(unesc_split(Seq::<u8>::empty()) == Some(seq![Seq::<u8>::empty()]));
        lemma_unesc_split_prepend(fs[0], Seq::<u8>::empty());
        assert(escape(fs[0]) + Seq::<u8>::empty() =~= esc_join(fs));
        assert(fs[0] + Seq::<u8>::empty() =~= fs[0]);
        assert(seq![Seq::<u8>::empty()].update(0, fs[0] + Seq::<u8>::empty()) =~~= fs);
    } else {
        lemma_unesc_split_esc_join(fs.skip(1));
        let t = seq![SEP] + esc_join(fs.skip(1));
        assert(t.skip(1) =~= esc_join(fs.skip(1)));
        let gs = seq![Seq::<u8>::empty()] + fs.skip(1);
        assert(unesc_split(t) == Some(gs));
        lemma_unesc_split_prepend(fs[0], t);
        assert(escape(fs[0]) + t =~= esc_join(fs));
        assert(fs[0] + gs[0] =~= fs[0]);
        assert(gs.update(0, fs[0]) =~~= fs);
    }
}

/// The fields a message is written out as: a one-byte tag, then the
/// variant's payloads in order. A tool result carries its result-content
/// items as trailing fields, however many there are.
pub open spec fn fields_of(v: MessageView) -> Seq<Seq<u8>> {
    match v {
        MessageView::UserText { text } => seq![seq![TAG_USER_TEXT], text],
        MessageView::AssistantText { text } => seq![seq![TAG_ASSISTANT_TEXT], text],
        MessageView::AssistantToolCall { id, call_id, function_name, arguments } => seq![
            seq![TAG_TOOL_CALL],
            id,
            call_id,
            function_name,
            arguments,
        ],
        MessageView::UserToolResult { call_id, result_id, content } => seq![
            seq![TAG_TOOL_RESULT],
            call_id,
            result_id,
        ] + content,
    }
}

/// The serialized form of one message, without its line terminator.
pub open spec fn spec_serialize(v: MessageView) -> Seq<u8> {
    esc_join(fields_of(v))
}

/// The message a field list stands for, if its tag and arity are right.
pub open spec fn msg_of_fields(fs: Seq<Seq<u8>>) -> Option<MessageView> {
    if fs.len() == 2 && fs[0] == seq![TAG_USER_TEXT] {
        Some(MessageView::UserText { text: fs[1] })
    } else if fs.len() == 2 && fs[0] == seq![TAG_ASSISTANT_TEXT] {
        Some(MessageView::AssistantText { text: fs[1] })
    } else if fs.len() == 5 && fs[0] == seq![TAG_TOOL_CALL] {
        Some(MessageView::AssistantToolCall {
            id: fs[1],
            call_id: fs[2],
            function_name: fs[3],
            arguments: fs[4],
        })
    } else if fs.len() >= 3 && fs[0] == seq![TAG_TOOL_RESULT] {
        Some(MessageView::UserToolResult { call_id: fs[1], result_id: fs[2], content: fs.skip(3) })
    } else {
        None
    }
}

/// What one persisted line means: `None` exactly on the lines that no
/// message serializes to.
pub open spec fn spec_deserialize(line: Seq<u8>) -> Option<MessageView> {
    match unesc_split(line) {
        Some(fs) => msg_of_fields(fs),
        None => None,
    }
}

/// Serialization is lossless: reading a written message back yields the
/// message itself, for every message value.
pub proof fn lemma_round_trip(v: MessageView)
    ensures
        spec_deserialize(spec_serialize(v)) == Some(v),
{
    let fs = fields_of(v);
    lemma_unesc_split_esc_join(fs);
    match v {
        MessageView::UserText { text } => {
        }
        MessageView::AssistantText { text } => {
        }
        MessageView::AssistantToolCall { id, call_id, function_name, arguments } => {
        }
        MessageView::UserToolResult { call_id, result_id, content } => {
            assert(fs.skip(3) =~~= content);
        }
    }
}

/// Appends the escaped form of `field` to `out`.
fn push_escaped(out: &mut Vec<u8>, field: &Vec<u8>)
    ensures
        final(out)@ == old(out)@ + escape(field@),
{
    proof {
        assert(escape(field@.take(0)) =~= Seq::<u8>::empty());
        assert(out@ =~= out@ + escape(field@.take(0)));
    }
    let mut i: usize = 0;
    while i < field.len()
        invariant
            i <= field.len(),
            out@ == old(out)@ + escape(field@.take(i as int)),
        decreases field.len() - i,
    {
        let b = field[i];
        proof {
            assert(field@.take(i as int).push(b) =~= field@.take(i as int + 1));
            lemma_escape_push(field@.take(i as int), b);
        }
        let ghost mid = out@;
        if b == ESC {
            out.push(ESC);
            out.push(ESC);
        } else if b == EOL {
            out.push(ESC);
            out.push(CODE_N);
        } else if b == SEP {
            out.push(ESC);
            out.push(CODE_T);
        } else {
            out.push(b);
        }
        proof {
            assert(out@ =~= mid + esc_byte(b));
            assert(out@ =~= old(out)@ + escape(field@.take(i as int + 1)));
        }
        i = i + 1;
    }
    proof {
        assert(field@.take(field@.len() as int) =~= field@);
    }
}

/// Joins the escaped fields with the separator.
pub(crate) fn join_fields(fields: &Vec<Vec<u8>>) -> (r: Vec<u8>)
    requires
        fields@.len() >= 1,
    ensures
        r@ == esc_join(fields.deep_view()),
{
    proof {
        lemma_byte_rows_deep_view(*fields);
    }
    let ghost fsv = fields.deep_view();
    let mut out: Vec<u8> = Vec::new();
    push_escaped(&mut out, &fields[0]);
    proof {
        assert(fsv.take(1) =~~= seq![fsv[0]]);
        assert(esc_join(seq![fsv[0]]) == escape(fsv[0]));
        assert(out@ == esc_join(fsv.take(1)));
    }
    let mut k: usize = 1;
    while k < fields.len()
        invariant
            1 <= k <= fields.len(),
            fsv == fields.deep_view(),
            fsv.len() == fields@.len(),
            forall|i: int| 0 <= i < fields@.len() ==> #[trigger] fsv[i] == fields@[i]@,
            out@ == esc_join(fsv.take(k as int)),
        decreases fields.len() - k,
    {
        let ghost mid = out@;
        out.push(SEP);
        push_escaped(&mut out, &fields[k]);
        proof {
            assert(fsv.take(k as int).push(fsv[k as int]) =~~= fsv.take(k as int + 1));
            lemma_esc_join_push(fsv.take(k as int), fsv[k as int]);
            assert(out@ =~= mid + seq![SEP] + escape(fsv[k as int]));
        }
        k = k + 1;
    }
    proof {
        assert(fsv.take(fields@.len() as int) =~~= fsv);
    }
    out
}

/// Builds the one-byte tag field.
fn tag_field(tag: u8) -> (r: Vec<u8>)
    ensures
        r@ == seq![tag],
{
    let mut v: Vec<u8> = Vec::new();
    v.push(tag);
    proof {
        assert(v@ =~= seq![tag]);
    }
    v
}

/// Writes one message as one line's bytes, without the terminator:
/// exactly `spec_serialize` of the message.
pub fn serialize_message(m: &Message) -> (r: Vec<u8>)
    ensures
        r@ == spec_serialize(m@),
{
    let mut fields: Vec<Vec<u8>> = Vec::new();
    match m {
        Message::UserText { text } => {
            fields.push(tag_field(TAG_USER_TEXT));
            fields.push(copy_bytes(text));
        },
        Message::AssistantText { text } => {
            fields.push(tag_field(TAG_ASSISTANT_TEXT));
            fields.push(copy_bytes(text));
        },
        Message::AssistantToolCall { id, call_id, function_name, arguments } => {
            fields.push(tag_field(TAG_TOOL_CALL));
            fields.push(copy_bytes(id));
            fields.push(copy_bytes(call_id));
            fields.push(copy_bytes(function_name));
            fields.push(copy_bytes(arguments));
        },
        Message::UserToolResult { call_id, result_id, content } => {
            fields.push(tag_field(TAG_TOOL_RESULT));
            fields.push(copy_bytes(call_id));
            fields.push(copy_bytes(result_id));
            proof {
                lemma_byte_rows_deep_view(fields);
                assert(fields.deep_view() =~~= seq![seq![TAG_TOOL_RESULT], call_id@, result_id@]);
            }
            let ghost head = fields.deep_view();
            let mut j: usize = 0;
            while j < content.len()
                invariant
                    j <= content.len(),
                    head == seq![seq![TAG_TOOL_RESULT], call_id@, result_id@],
                    fields.deep_view() == head + content.deep_view().take(j as int),
                decreases content.len() - j,
            {
                let ghost before = fields.deep_view();
                fields.push(copy_bytes(&content[j]));
                proof {
                    lemma_byte_rows_deep_view(*content);
                    assert(fields.deep_view() =~~= before.push(content.deep_view()[j as int]));
                    assert(fields.deep_view() =~~= head + content.deep_view().take(j as int + 1));
                }
                j = j + 1;
            }
            proof {
                lemma_byte_rows_deep_view(fields);
                assert(content.deep_view().take(content@.len() as int) =~~= content.deep_view());
                assert(fields.deep_view() =~~= fields_of(m@));
            }
        },
    }
    proof {
        lemma_byte_rows_deep_view(fields);
        assert(fields.deep_view() =~~= fields_of(m@));
    }
    join_fields(&fields)
}

/// How the splitting loop's progress stands for the whole split: the
/// finished fields, then the current field continued by the rest.
spec fn recombine(done: Seq<Seq<u8>>, cur: Seq<u8>, rest: Option<Seq<Seq<u8>>>) -> Option<
    Seq<Seq<u8>>,
> {
    match rest {
        Some(gs) => Some(done + seq![cur + gs[0]] + gs.skip(1)),
        None => None,
    }
}

/// Splits one line's bytes into its unescaped fields: the executable
/// form of `unesc_split`.
pub(crate) fn split_fields(line: &Vec<u8>) -> (r: Result<Vec<Vec<u8>>, CoreError>)
    ensures
        r matches Ok(fields) ==> unesc_split(line@) == Some(fields.deep_view()),
        r matches Err(e) ==> unesc_split(line@) is None && e == CoreError::CorruptHistory,
{
    let mut finished: Vec<Vec<u8>> = Vec::new();
    let mut cur: Vec<u8> = Vec::new();
    let mut i: usize = 0;
    proof {
        assert(line@.skip(0) =~= line@);
        lemma_unesc_split_nonempty(line@);
        if unesc_split(line@) is Some {
            let gs = unesc_split(line@)->Some_0;
            assert(finished.deep_view() + seq![cur@ + gs[0]] + gs.skip(1) =~~= gs);
        }
    }
    while i < line.len()
        invariant
            i <= line.len(),
            unesc_split(line@) == recombine(
                finished.deep_view(),
                cur@,
                unesc_split(line@.skip(i as int)),
            ),
        decreases line.len() - i,
    {
        let b = line[i];
        let ghost s = line@.skip(i as int);
        proof {
            assert(s[0] == b);
            assert(s.skip(1) =~= line@.skip(i as int + 1));
            lemma_unesc_split_nonempty(line@.skip(i as int + 1));
        }
        if b == SEP {
            let ghost fin0 = finished.deep_view();
            let ghost cur0 = cur@;
            finished.push(cur);
            cur = Vec::new();
            proof {
                assert(finished.deep_view() =~~= fin0.push(cur0));
                if unesc_split(line@.skip(i as int + 1)) is Some {
                    let gs = unesc_split(line@.skip(i as int + 1))->Some_0;
                    let hs = seq![Seq::<u8>::empty()] + gs;
                    assert(unesc_split(s) == Some(hs));
                    assert(fin0 + seq![cur0 + hs[0]] + hs.skip(1) =~~= fin0.push(cur0) + seq![
                        cur@ + gs[0],
                    ] + gs.skip(1));
                } else {
                    assert(unesc_split(s) is None);
                }
            }
            i = i + 1;
        } else if b == ESC {
            if i + 1 >= line.len() {
                proof {
                    assert(s.len() == 1);
                    assert(unesc_split(s) is None);
                }
                return Err(CoreError::CorruptHistory);
            }
            let c = line[i + 1];
            proof {
                assert(s.len() >= 2 && s[1] == c);
                assert(s.skip(2) =~= line@.skip(i as int + 2));
                lemma_unesc_split_nonempty(line@.skip(i as int + 2));
            }
            let d: u8;
            if c == ESC {
                d = ESC;
            } else if c == CODE_N {
                d = EOL;
            } else if c == CODE_T {
                d = SEP;
            } else {
                proof {
                    assert(unesc_split(s) is None);
                }
                return Err(CoreError::CorruptHistory);
            }
            let ghost cur0 = cur@;
            cur.push(d);
            proof {
                if unesc_split(line@.skip(i as int + 2)) is Some {
                    let gs = unesc_split(line@.skip(i as int + 2))->Some_0;
                    let hs = gs.update(0, seq![d] + gs[0]);
                    assert(unesc_split(s) == Some(hs));
                    assert(finished.deep_view() + seq![cur0 + hs[0]] + hs.skip(1)
                        =~~= finished.deep_view() + seq![cur@ + gs[0]] + gs.skip(1));
                } else {
                    assert(unesc_split(s) is None);
                }
            }
            i = i + 2;
        } else if b == EOL {
            proof {
                assert(unesc_split(s) is None);
            }
            return Err(CoreError::CorruptHistory);
        } else {
            let ghost cur0 = cur@;
            cur.push(b);
            proof {
                if unesc_split(line@.skip(i as int + 1)) is Some {
                    let gs = unesc_split(line@.skip(i as int + 1))->Some_0;
                    let hs = gs.update(0, seq![b] + gs[0]);
                    assert(unesc_split(s) == Some(hs));
                    assert(finished.deep_view() + seq![cur0 + hs[0]] + hs.skip(1)
                        =~~= finished.deep_view() + seq![cur@ + gs[0]] + gs.skip(1));
                } else {
                    assert(unesc_split(s) is None);
                }
            }
            i = i + 1;
        }
    }
    let ghost fin0 = finished.deep_view();
    let ghost cur0 = cur@;
    finished.push(cur);
    proof {
        assert(line@.skip(line@.len() as int) =~= Seq::<u8>::empty());
        let gs = seq![Seq::<u8>::empty()];
        assert(unesc_split(Seq::<u8>::empty()) == Some(gs));
        assert(fin0 + seq![cur0 + gs[0]] + gs.skip(1) =~~= fin0.push(cur0));
        assert(finished.deep_view() =~~= fin0.push(cur0));
    }
    Ok(finished)
}

/// Reads one line's bytes (without the terminator) back into a message.
/// Fails with `CorruptHistory` exactly on the lines that no message
/// serializes to.
pub fn deserialize_message(line: &Vec<u8>) -> (r: Result<Message, CoreError>)
    ensures
        r matches Ok(m) ==> spec_deserialize(line@) == Some(m@),
        r matches Err(e) ==> spec_deserialize(line@) is None && e == CoreError::CorruptHistory,
{
    let fields = match split_fields(line) {
        Ok(fields) => fields,
        Err(e) => {
            return Err(e);
        },
    };
    proof {
        lemma_unesc_split_nonempty(line@);
        lemma_byte_rows_deep_view(fields);
    }
    let ghost fs = fields.deep_view();
    let n = fields.len();
    if fields[0].len() != 1 {
        proof {
            assert(fs[0].len() != 1);
        }
        return Err(CoreError::CorruptHistory);
    }
    let t = fields[0][0];
    proof {
        assert(fs[0] =~= seq![t]);
    }
    if t == TAG_USER_TEXT {
        if n == 2 {
            let m = Message::UserText { text: copy_bytes(&fields[1]) };
            proof {
                assert(msg_of_fields(fs) == Some(m@));
            }
            Ok(m)
        } else {
            Err(CoreError::CorruptHistory)
        }
    } else if t == TAG_ASSISTANT_TEXT {
        if n == 2 {
            let m = Message::AssistantText { text: copy_bytes(&fields[1]) };
            proof {
                assert(msg_of_fields(fs) == Some(m@));
            }
            Ok(m)
        } else {
            Err(CoreError::CorruptHistory)
        }
    } else if t == TAG_TOOL_CALL {
        if n == 5 {
            let m = Message::AssistantToolCall {
                id: copy_bytes(&fields[1]),
                call_id: copy_bytes(&fields[2]),
                function_name: copy_bytes(&fields[3]),
                arguments: copy_bytes(&fields[4]),
            };
            proof {
                assert(msg_of_fields(fs) == Some(m@));
            }
            Ok(m)
        } else {
            Err(CoreError::CorruptHistory)
        }
    } else if t == TAG_TOOL_RESULT {
        if n >= 3 {
            let mut content: Vec<Vec<u8>> = Vec::new();
            let mut j: usize = 3;
            while j < n
                invariant
                    3 <= j <= n,
                    n == fields@.len(),
                    fs == fields.deep_view(),
                    fs.len() == fields@.len(),
                    forall|k: int| 0 <= k < fields@.len() ==> #[trigger] fs[k] == fields@[k]@,
                    content.deep_view() == fs.subrange(3, j as int),
                decreases n - j,
            {
                let ghost before = content.deep_view();
                content.push(copy_bytes(&fields[j]));
                proof {
                    assert(content.deep_view() =~~= before.push(fs[j as int]));
                    assert(content.deep_view() =~~= fs.subrange(3, j as int + 1));
                }
                j = j + 1;
            }
            let m = Message::UserToolResult {
                call_id: copy_bytes(&fields[1]),
                result_id: copy_bytes(&fields[2]),
                content,
            };
            proof {
                assert(fs.subrange(3, n as int) =~~= fs.skip(3));
                assert(msg_of_fields(fs) == Some(m@));
            }
            Ok(m)
        } else {
            Err(CoreError::CorruptHistory)
        }
    } else {
        proof {
            assert(fs[0][0] == t);
            assert(msg_of_fields(fs) is None);
        }
        Err(CoreError::CorruptHistory)
    }
}

/// No line stands for two messages; equivalently, distinct messages have
/// distinct serialized forms.
pub proof fn lemma_serialize_injective(v1: MessageView, v2: MessageView)
    ensures
        spec_serialize(v1) == spec_serialize(v2) ==> v1 == v2,
{
    if spec_serialize(v1) == spec_serialize(v2) {
        lemma_round_trip(v1);
        lemma_round_trip(v2);
    }
}

} // verus!

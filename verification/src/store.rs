use vstd::prelude::*;

use crate::codec::{
    deserialize_message, join_fields, lemma_serialize_no_eol, lemma_unesc_split_esc_join,
    serialize_message, split_fields, spec_deserialize, spec_serialize, esc_join, unesc_split, EOL,
};
use crate::message::{
    copy_bytes, lemma_byte_rows_deep_view, Message, MessageView, PendingCall, PendingCallView,
};
use crate::CoreError;

verus! {

// The history store's durable form: one serialized message per line,
// each line terminated by a newline. Appends only ever add whole lines
// at the end, so the store read back is the messages in append order.
// The actual file handling stays outside this library; these functions
// produce the exact bytes an append must write and give the exact
// meaning of the bytes a load reads.

/// The bytes one appended message adds to the store: its serialized
/// form plus the line terminator.
pub open spec fn spec_line(v: MessageView) -> Seq<u8> {
    spec_serialize(v) + seq![EOL]
}

/// The whole store a sequence of appends leaves behind: the messages'
/// lines, in order.
pub open spec fn spec_encode_transcript(vs: Seq<MessageView>) -> Seq<u8>
    decreases vs.len(),
{
    if vs.len() == 0 {
        Seq::empty()
    } else {
        spec_line(vs[0]) + spec_encode_transcript(vs.skip(1))
    }
}

/// Cuts the store's bytes at each newline into complete lines. `None`
/// if trailing bytes lack their terminator: an interrupted write is a
/// corrupt store, not a shorter one.
pub open spec fn split_lines(bytes: Seq<u8>) -> Option<Seq<Seq<u8>>>
    decreases bytes.len(),
{
    if bytes.len() == 0 {
        Some(Seq::empty())
    } else if bytes[0] == EOL {
        match split_lines(bytes.skip(1)) {
            Some(ls) => Some(seq![Seq::<u8>::empty()] + ls),
            None => None,
        }
    } else {
        match split_lines(bytes.skip(1)) {
            Some(ls) => if ls.len() == 0 {
                None
            } else {
                Some(ls.update(0, seq![bytes[0]] + ls[0]))
            },
            None => None,
        }
    }
}

/// Reads every line as a message; `None` as soon as any one line is
/// malformed, whole lines before it notwithstanding.
pub open spec fn parse_lines(ls: Seq<Seq<u8>>) -> Option<Seq<MessageView>>
    decreases ls.len(),
{
    if ls.len() == 0 {
        Some(Seq::empty())
    } else {
        match (spec_deserialize(ls[0]), parse_lines(ls.skip(1))) {
            (Some(v), Some(vs)) => Some(seq![v] + vs),
            _ => None,
        }
    }
}

/// What a load of the store's bytes means: the transcript they encode,
/// or `None` if any line is malformed or unterminated.
pub open spec fn spec_load(bytes: Seq<u8>) -> Option<Seq<MessageView>> {
    match split_lines(bytes) {
        Some(ls) => parse_lines(ls),
        None => None,
    }
}

/// One more append extends the store's bytes by exactly the new
/// message's line: what a sequence of `append` calls leaves on disk is
/// `spec_encode_transcript` of the messages.
pub proof fn lemma_encode_transcript_push(vs: Seq<MessageView>, v: MessageView)
    ensures
        spec_encode_transcript(vs.push(v)) == spec_encode_transcript(vs) + spec_line(v),
    decreases vs.len(),
{
    if vs.len() == 0 {
        assert(vs.push(v)[0] == v);
        assert(vs.push(v).skip(1) =~= Seq::<MessageView>::empty());
        assert(spec_encode_transcript(Seq::<MessageView>::empty()) == Seq::<u8>::empty());
        assert(spec_encode_transcript(vs.push(v)) =~= spec_encode_transcript(vs) + spec_line(v));
    } else {
        assert(vs.push(v)[0] == vs[0]);
        assert(vs.push(v).skip(1) =~= vs.skip(1).push(v));
        lemma_encode_transcript_push(vs.skip(1), v);
        assert(spec_encode_transcript(vs.push(v)) == spec_line(vs[0]) + spec_encode_transcript(
            vs.skip(1).push(v),
        ));
        assert(spec_encode_transcript(vs.push(v)) =~= spec_encode_transcript(vs) + spec_line(v));
    }
}

/// Prepending one terminated, newline-free line shifts a split by one
/// line.
proof fn lemma_split_lines_prepend(l: Seq<u8>, t: Seq<u8>)
    requires
        forall|i: int| 0 <= i < l.len() ==> l[i] != EOL,
        split_lines(t) is Some,
    ensures
        split_lines(l + seq![EOL] + t) == Some(seq![l] + split_lines(t)->Some_0),
    decreases l.len(),
{
    let ls = split_lines(t)->Some_0;
    if l.len() == 0 {
        let s = l + seq![EOL] + t;
        assert(s[0] == EOL);
        assert(s.skip(1) =~= t);
        assert(seq![l] + ls =~~= seq![Seq::<u8>::empty()] + ls);
    } else {
        lemma_split_lines_prepend(l.skip(1), t);
        let s = l + seq![EOL] + t;
        assert(s[0] == l[0] && l[0] != EOL);
        assert(s.skip(1) =~= l.skip(1) + seq![EOL] + t);
        let hs = seq![l.skip(1)] + ls;
        assert(split_lines(s.skip(1)) == Some(hs));
        assert(hs.len() > 0);
        assert(split_lines(s) == Some(hs.update(0, seq![l[0]] + hs[0])));
        assert(hs.update(0, seq![l[0]] + l.skip(1)) =~~= seq![l] + ls);
    }
}

/// The store round trip: any sequence of appended messages, loaded
/// back, is exactly that sequence in the same order.
pub proof fn lemma_store_round_trip(vs: Seq<MessageView>)
    ensures
        spec_load(spec_encode_transcript(vs)) == Some(vs),
    decreases vs.len(),
{
    if vs.len() == 0 {
        assert(split_lines(Seq::<u8>::empty()) == Some(Seq::<Seq<u8>>::empty()));
    } else {
        lemma_store_round_trip(vs.skip(1));
        let v0 = vs[0];
        let rest = spec_encode_transcript(vs.skip(1));
        lemma_serialize_no_eol(v0);
        lemma_split_lines_prepend(spec_serialize(v0), rest);
        assert(spec_encode_transcript(vs) =~= spec_serialize(v0) + seq![EOL] + rest);
        let ls = split_lines(rest)->Some_0;
        let hs = seq![spec_serialize(v0)] + ls;
        assert(split_lines(spec_encode_transcript(vs)) == Some(hs));
        crate::codec::lemma_round_trip(v0);
        assert(hs[0] == spec_serialize(v0));
        assert(hs.skip(1) =~~= ls);
        assert(seq![v0] + vs.skip(1) =~= vs);
    }
}

/// The full ordered record of the conversation's messages. It only ever
/// grows, by one appended message at a time; the durable bytes for each
/// append are handed back to the caller to write and flush before the
/// next one.
pub struct Transcript {
    msgs: Vec<Message>,
}

impl View for Transcript {
    type V = Seq<MessageView>;

    closed spec fn view(&self) -> Seq<MessageView> {
        self.msgs.deep_view()
    }
}

impl Transcript {
    /// The empty transcript of a first run, before any message.
    pub fn new() -> (t: Transcript)
        ensures
            t@ == Seq::<MessageView>::empty(),
    {
        let t = Transcript { msgs: Vec::new() };
        proof {
            assert(t@ =~= Seq::<MessageView>::empty());
        }
        t
    }

    /// Appends one message and returns the bytes that make it durable:
    /// the caller must write them at the store's end and flush before
    /// appending again.
    pub fn append(&mut self, m: Message) -> (line: Vec<u8>)
        ensures
            final(self)@ == old(self)@.push(m@),
            line@ == spec_line(m@),
    {
        let mut line = serialize_message(&m);
        line.push(EOL);
        let ghost before = self.msgs.deep_view();
        self.msgs.push(m);
        proof {
            assert(self.msgs.deep_view() =~= before.push(m@));
            assert(line@ =~= spec_line(m@));
        }
        line
    }

    /// Reads the whole store back, line by line: exactly the appended
    /// messages, or `CorruptHistory` if any line is malformed — in that
    /// case no partial transcript is handed out.
    pub fn load(bytes: &Vec<u8>) -> (r: Result<Transcript, CoreError>)
        ensures
            r matches Ok(t) ==> spec_load(bytes@) == Some(t@),
            r matches Err(e) ==> spec_load(bytes@) is None && e == CoreError::CorruptHistory,
    {
        let mut lines: Vec<Vec<u8>> = Vec::new();
        let mut cur: Vec<u8> = Vec::new();
        let mut i: usize = 0;
        proof {
            assert(bytes@.skip(0) =~= bytes@);
            if split_lines(bytes@) is Some {
                let ls = split_lines(bytes@)->Some_0;
                if ls.len() > 0 {
                    assert(Seq::<Seq<u8>>::empty() + ls.update(0, cur@ + ls[0]) =~~= ls);
                }
            }
        }
        while i < bytes.len()
            invariant
                i <= bytes.len(),
                split_lines(bytes@) == recombine_lines(
                    lines.deep_view(),
                    cur@,
                    split_lines(bytes@.skip(i as int)),
                ),
            decreases bytes.len() - i,
        {
            let b = bytes[i];
            let ghost s = bytes@.skip(i as int);
            proof {
                assert(s[0] == b);
                assert(s.skip(1) =~= bytes@.skip(i as int + 1));
            }
            if b == EOL {
                let ghost done0 = lines.deep_view();
                let ghost cur0 = cur@;
                lines.push(cur);
                cur = Vec::new();
                proof {
                    assert(lines.deep_view() =~~= done0.push(cur0));
                    if split_lines(bytes@.skip(i as int + 1)) is Some {
                        let ls = split_lines(bytes@.skip(i as int + 1))->Some_0;
                        let hs = seq![Seq::<u8>::empty()] + ls;
                        assert(split_lines(s) == Some(hs));
                        if ls.len() == 0 {
                            assert(done0 + hs.update(0, cur0 + hs[0]) =~~= done0.push(cur0));
                        } else {
                            assert(done0 + hs.update(0, cur0 + hs[0]) =~~= done0.push(cur0)
                                + ls.update(0, cur@ + ls[0]));
                        }
                    } else {
                        assert(split_lines(s) is None);
                    }
                }
            } else {
                let ghost cur0 = cur@;
                cur.push(b);
                proof {
                    if split_lines(bytes@.skip(i as int + 1)) is Some {
                        let ls = split_lines(bytes@.skip(i as int + 1))->Some_0;
                        if ls.len() == 0 {
                            assert(split_lines(s) is None);
                        } else {
                            let hs = ls.update(0, seq![b] + ls[0]);
                            assert(split_lines(s) == Some(hs));
                            assert(lines.deep_view() + hs.update(0, cur0 + hs[0])
                                =~~= lines.deep_view() + ls.update(0, cur@ + ls[0]));
                        }
                    } else {
                        assert(split_lines(s) is None);
                    }
                }
            }
            i = i + 1;
        }
        proof {
            assert(bytes@.skip(bytes@.len() as int) =~= Seq::<u8>::empty());
            assert(split_lines(Seq::<u8>::empty()) == Some(Seq::<Seq<u8>>::empty()));
        }
        if cur.len() > 0 {
            return Err(CoreError::CorruptHistory);
        }
        let ghost ls = lines.deep_view();
        proof {
            lemma_byte_rows_deep_view(lines);
            assert(split_lines(bytes@) == Some(ls));
            assert(ls.skip(0) =~~= ls);
        }
        let mut msgs: Vec<Message> = Vec::new();
        let mut j: usize = 0;
        proof {
            if parse_lines(ls) is Some {
                assert(msgs.deep_view() + parse_lines(ls)->Some_0 =~= parse_lines(ls)->Some_0);
            }
        }
        while j < lines.len()
            invariant
                j <= lines.len(),
                ls == lines.deep_view(),
                ls.len() == lines@.len(),
                forall|k: int| 0 <= k < lines@.len() ==> #[trigger] ls[k] == lines@[k]@,
                split_lines(bytes@) == Some(ls),
                parse_lines(ls) == (match parse_lines(ls.skip(j as int)) {
                    Some(vs) => Some(msgs.deep_view() + vs),
                    None => None::<Seq<MessageView>>,
                }),
            decreases lines.len() - j,
        {
            let ghost t = ls.skip(j as int);
            proof {
                assert(t[0] == ls[j as int]);
                assert(t.skip(1) =~~= ls.skip(j as int + 1));
            }
            match deserialize_message(&lines[j]) {
                Ok(m) => {
                    let ghost msgs0 = msgs.deep_view();
                    msgs.push(m);
                    proof {
                        assert(msgs.deep_view() =~= msgs0.push(m@));
                        if parse_lines(ls.skip(j as int + 1)) is Some {
                            let vs = parse_lines(ls.skip(j as int + 1))->Some_0;
                            assert(parse_lines(t) == Some(seq![m@] + vs));
                            assert(msgs0 + (seq![m@] + vs) =~= msgs.deep_view() + vs);
                        } else {
                            assert(parse_lines(t) is None);
                        }
                    }
                    j = j + 1;
                },
                Err(_) => {
                    proof {
                        assert(parse_lines(t) is None);
                    }
                    return Err(CoreError::CorruptHistory);
                },
            }
        }
        proof {
            assert(ls.skip(ls.len() as int) =~~= Seq::<Seq<u8>>::empty());
            assert(parse_lines(Seq::<Seq<u8>>::empty()) == Some(Seq::<MessageView>::empty()));
            assert(msgs.deep_view() + Seq::<MessageView>::empty() =~= msgs.deep_view());
        }
        Ok(Transcript { msgs })
    }

    /// The messages in append order.
    pub fn messages(&self) -> (r: &Vec<Message>)
        ensures
            r.deep_view() == self@,
    {
        &self.msgs
    }

    /// How many messages the transcript holds.
    pub fn len(&self) -> (n: usize)
        ensures
            n == self@.len(),
    {
        self.msgs.len()
    }

    /// The most recently appended message, if any.
    pub fn last(&self) -> (r: Option<&Message>)
        ensures
            self@.len() == 0 ==> r is None,
            self@.len() > 0 ==> (r matches Some(m) && m@ == self@.last()),
    {
        if self.msgs.len() > 0 {
            Some(&self.msgs[self.msgs.len() - 1])
        } else {
            None
        }
    }
}

/// How the line-splitting loop's progress stands for the whole split:
/// the finished lines, then the current line continued by the rest.
spec fn recombine_lines(done: Seq<Seq<u8>>, cur: Seq<u8>, rest: Option<Seq<Seq<u8>>>) -> Option<
    Seq<Seq<u8>>,
> {
    match rest {
        Some(ls) => if ls.len() == 0 {
            if cur.len() == 0 {
                Some(done)
            } else {
                None
            }
        } else {
            Some(done + ls.update(0, cur + ls[0]))
        },
        None => None,
    }
}

// The pending-call sidecar's durable form: the call's four parts as one
// escaped, separator-joined record, overwritten wholesale each time a
// tool call is recorded. The sidecar is a derived cache of the
// transcript's last unanswered tool call; reading it back is offered,
// but resume reconciles from the transcript itself.

/// The bytes that recording a pending call overwrites the sidecar with.
pub open spec fn spec_encode_pending(p: PendingCallView) -> Seq<u8> {
    esc_join(seq![p.id, p.call_id, p.function_name, p.arguments])
}

/// What the sidecar's bytes mean: the one recorded call, or `None` if
/// they are not a well-formed record.
pub open spec fn spec_decode_pending(bytes: Seq<u8>) -> Option<PendingCallView> {
    match unesc_split(bytes) {
        Some(fs) => if fs.len() == 4 {
            Some(
                PendingCallView {
                    id: fs[0],
                    call_id: fs[1],
                    function_name: fs[2],
                    arguments: fs[3],
                },
            )
        } else {
            None
        },
        None => None,
    }
}

/// The sidecar round trip: a recorded call is read back unchanged.
pub proof fn lemma_pending_round_trip(p: PendingCallView)
    ensures
        spec_decode_pending(spec_encode_pending(p)) == Some(p),
{
    lemma_unesc_split_esc_join(seq![p.id, p.call_id, p.function_name, p.arguments]);
}

/// Writes the single sidecar record for a pending call. The caller
/// overwrites the sidecar's previous contents with these bytes, durably,
/// before the call's transcript line is appended.
pub fn encode_pending(p: &PendingCall) -> (r: Vec<u8>)
    ensures
        r@ == spec_encode_pending(p@),
{
    let mut fields: Vec<Vec<u8>> = Vec::new();
    fields.push(copy_bytes(&p.id));
    fields.push(copy_bytes(&p.call_id));
    fields.push(copy_bytes(&p.function_name));
    fields.push(copy_bytes(&p.arguments));
    proof {
        lemma_byte_rows_deep_view(fields);
        assert(fields.deep_view() =~~= seq![p.id@, p.call_id@, p.function_name@, p.arguments@]);
    }
    join_fields(&fields)
}

/// Reads the sidecar's record back, or `CorruptHistory` if its bytes
/// are not a well-formed record.
pub fn decode_pending(bytes: &Vec<u8>) -> (r: Result<PendingCall, CoreError>)
    ensures
        r matches Ok(p) ==> spec_decode_pending(bytes@) == Some(p@),
        r matches Err(e) ==> spec_decode_pending(bytes@) is None && e == CoreError::CorruptHistory,
{
    let fields = match split_fields(bytes) {
        Ok(fields) => fields,
        Err(e) => {
            return Err(e);
        },
    };
    proof {
        lemma_byte_rows_deep_view(fields);
    }
    if fields.len() == 4 {
        let p = PendingCall {
            id: copy_bytes(&fields[0]),
            call_id: copy_bytes(&fields[1]),
            function_name: copy_bytes(&fields[2]),
            arguments: copy_bytes(&fields[3]),
        };
        Ok(p)
    } else {
        Err(CoreError::CorruptHistory)
    }
}

} // verus!

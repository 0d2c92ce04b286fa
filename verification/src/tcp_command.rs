//! The control-channel frame codec.
//!
//! A frame is one tag byte followed by a body whose shape the opcode fixes:
//! nothing, a length-prefixed text, length-prefixed raw bytes, or a count of
//! length-prefixed texts. All length and count prefixes are single unsigned
//! bytes, so no payload may exceed 255 bytes or 255 entries. A text body
//! must be valid UTF-8; a decoder treats anything else as malformed,
//! fatal to the connection, as it does an unmapped tag byte.

use vstd::prelude::*;

use crate::byteops::{is_valid_utf8, push_bytes};
use vstd::utf8::valid_utf8;
use crate::tcp_command_id::{
    spec_id_byte, spec_id_of_byte, spec_payload_type, TcpCommandId, TcpCommandPayloadType,
};
use vstd::slice::{slice_subrange, slice_to_vec};

verus! {

/// A control-channel command with its payload.
#[derive(Debug, Clone, PartialEq)]
pub enum TcpCommand {
    /// An opcode with no body.
    Simple(TcpCommandId),
    /// An opcode with a text payload (a username, a room name, a message).
    Text(TcpCommandId, Vec<u8>),
    /// An opcode with a raw byte payload (identifiers).
    Bytes(TcpCommandId, Vec<u8>),
    /// An opcode with a list of text payloads.
    TextList(TcpCommandId, Vec<Vec<u8>>),
}

/// The mathematical value of a [`TcpCommand`].
pub enum TcpCommandV {
    Simple(TcpCommandId),
    Text(TcpCommandId, Seq<u8>),
    Bytes(TcpCommandId, Seq<u8>),
    TextList(TcpCommandId, Seq<Seq<u8>>),
}

impl View for TcpCommand {
    type V = TcpCommandV;

    open spec fn view(&self) -> TcpCommandV {
        match self {
            TcpCommand::Simple(id) => TcpCommandV::Simple(*id),
            TcpCommand::Text(id, p) => TcpCommandV::Text(*id, p@),
            TcpCommand::Bytes(id, p) => TcpCommandV::Bytes(*id, p@),
            TcpCommand::TextList(id, l) => TcpCommandV::TextList(*id, l.deep_view()),
        }
    }
}

/// The opcode of a command.
pub open spec fn spec_cmd_id(c: TcpCommandV) -> TcpCommandId {
    match c {
        TcpCommandV::Simple(id) => id,
        TcpCommandV::Text(id, _) => id,
        TcpCommandV::Bytes(id, _) => id,
        TcpCommandV::TextList(id, _) => id,
    }
}

/// Every payload fits its single length byte.
pub open spec fn spec_encodable(c: TcpCommandV) -> bool {
    match c {
        TcpCommandV::Simple(_) => true,
        TcpCommandV::Text(_, p) => p.len() <= 255,
        TcpCommandV::Bytes(_, p) => p.len() <= 255,
        TcpCommandV::TextList(_, l) => l.len() <= 255 && forall|i: int|
            0 <= i < l.len() ==> #[trigger] l[i].len() <= 255,
    }
}

/// The command's variant carries the payload shape its opcode prescribes,
/// every payload fits its length byte, and text payloads are valid UTF-8.
/// Decoded frames always have this form, and only frames of this form
/// survive a round trip.
pub open spec fn spec_wf_cmd(c: TcpCommandV) -> bool {
    &&& spec_encodable(c)
    &&& match c {
        TcpCommandV::Simple(id) => spec_payload_type(id) == TcpCommandPayloadType::Simple,
        TcpCommandV::Text(id, p) => spec_payload_type(id) == TcpCommandPayloadType::Text
            && valid_utf8(p),
        TcpCommandV::Bytes(id, _) => spec_payload_type(id) == TcpCommandPayloadType::Bytes,
        TcpCommandV::TextList(id, l) => spec_payload_type(id) == TcpCommandPayloadType::TextList
            && spec_all_valid_utf8(l),
    }
}

/// Every text of the list is valid UTF-8.
pub open spec fn spec_all_valid_utf8(l: Seq<Seq<u8>>) -> bool {
    forall|i: int| 0 <= i < l.len() ==> valid_utf8(#[trigger] l[i])
}

/// The wire form of a list body: each text preceded by its length byte.
pub open spec fn spec_encode_texts(l: Seq<Seq<u8>>) -> Seq<u8>
    decreases l.len(),
{
    if l.len() == 0 {
        Seq::empty()
    } else {
        seq![l[0].len() as u8] + l[0] + spec_encode_texts(l.drop_first())
    }
}

/// The wire form of a whole frame: tag byte, then the body.
pub open spec fn spec_encode(c: TcpCommandV) -> Seq<u8> {
    match c {
        TcpCommandV::Simple(id) => seq![spec_id_byte(id)],
        TcpCommandV::Text(id, p) => seq![spec_id_byte(id), p.len() as u8] + p,
        TcpCommandV::Bytes(id, p) => seq![spec_id_byte(id), p.len() as u8] + p,
        TcpCommandV::TextList(id, l) => seq![spec_id_byte(id), l.len() as u8]
            + spec_encode_texts(l),
    }
}

/// What examining a byte prefix for one frame yields.
pub enum DecodeOutcomeV {
    /// The bytes so far are a proper prefix of a frame.
    Incomplete,
    /// A malformed frame -- an unmapped tag byte, or a text body that
    /// is not valid UTF-8; the connection is broken.
    Invalid,
    /// A complete frame, and how many bytes of the prefix it occupied.
    Frame(TcpCommandV, int),
}

/// Parses `count` length-prefixed texts starting at `pos`; `None` when the
/// bytes run out first. On success also yields the position after the last.
pub open spec fn spec_parse_items(s: Seq<u8>, pos: int, count: nat) -> Option<
    (Seq<Seq<u8>>, int),
>
    decreases count,
{
    if count == 0 {
        Some((Seq::empty(), pos))
    } else if pos + 1 > s.len() {
        None
    } else {
        let n = s[pos] as int;
        if pos + 1 + n > s.len() {
            None
        } else {
            match spec_parse_items(s, pos + 1 + n, (count - 1) as nat) {
                None => None,
                Some((items, end)) => Some((seq![s.subrange(pos + 1, pos + 1 + n)] + items, end)),
            }
        }
    }
}

/// Parses one frame from the front of `s`.
pub open spec fn spec_parse(s: Seq<u8>) -> DecodeOutcomeV {
    if s.len() == 0 {
        DecodeOutcomeV::Incomplete
    } else {
        match spec_id_of_byte(s[0]) {
            None => DecodeOutcomeV::Invalid,
            Some(id) => match spec_payload_type(id) {
                TcpCommandPayloadType::Simple => DecodeOutcomeV::Frame(TcpCommandV::Simple(id), 1),
                TcpCommandPayloadType::Text => if s.len() < 2 {
                    DecodeOutcomeV::Incomplete
                } else {
                    let n = s[1] as int;
                    if s.len() < 2 + n {
                        DecodeOutcomeV::Incomplete
                    } else if !valid_utf8(s.subrange(2, 2 + n)) {
                        DecodeOutcomeV::Invalid
                    } else {
                        DecodeOutcomeV::Frame(TcpCommandV::Text(id, s.subrange(2, 2 + n)), 2 + n)
                    }
                },
                TcpCommandPayloadType::Bytes => if s.len() < 2 {
                    DecodeOutcomeV::Incomplete
                } else {
                    let n = s[1] as int;
                    if s.len() < 2 + n {
                        DecodeOutcomeV::Incomplete
                    } else {
                        DecodeOutcomeV::Frame(TcpCommandV::Bytes(id, s.subrange(2, 2 + n)), 2 + n)
                    }
                },
                TcpCommandPayloadType::TextList => if s.len() < 2 {
                    DecodeOutcomeV::Incomplete
                } else {
                    match spec_parse_items(s, 2, s[1] as nat) {
                        None => DecodeOutcomeV::Incomplete,
                        Some((items, end)) => if !spec_all_valid_utf8(items) {
                            DecodeOutcomeV::Invalid
                        } else {
                            DecodeOutcomeV::Frame(TcpCommandV::TextList(id, items), end)
                        },
                    }
                },
            },
        }
    }
}

/// The result of examining a received byte prefix for one frame.
pub enum DecodeOutcome {
    /// More bytes are needed before a frame is complete.
    Incomplete,
    /// A malformed frame: an unmapped tag byte, or a text body that is
    /// not valid UTF-8.
    Invalid,
    /// A complete frame and the number of bytes it consumed.
    Frame(TcpCommand, usize),
}

impl View for DecodeOutcome {
    type V = DecodeOutcomeV;

    open spec fn view(&self) -> DecodeOutcomeV {
        match self {
            DecodeOutcome::Incomplete => DecodeOutcomeV::Incomplete,
            DecodeOutcome::Invalid => DecodeOutcomeV::Invalid,
            DecodeOutcome::Frame(c, n) => DecodeOutcomeV::Frame(c@, *n as int),
        }
    }
}

/// An oversized payload that cannot be framed behind a single length byte.
#[derive(Debug, Clone, Copy, PartialEq, Eq, Structural)]
pub struct EncodeError;

impl TcpCommand {
    /// Encodes this command as one wire frame. Fails exactly when a payload
    /// exceeds the 255-byte (or 255-entry) bound of its length prefix.
    #[verifier::loop_isolation(false)]
    pub fn encode(&self) -> (r: Result<Vec<u8>, EncodeError>)
        ensures
            r is Ok <==> spec_encodable(self@),
            r is Ok ==> r->Ok_0@ == spec_encode(self@),
    {
        match self {
            TcpCommand::Simple(id) => {
                let mut out: Vec<u8> = Vec::new();
                out.push(id.to_byte());
                proof {
                    assert(out@ =~= spec_encode(self@));
                }
                Ok(out)
            },
            TcpCommand::Text(id, p) => {
                if p.len() > 255 {
                    return Err(EncodeError);
                }
                let mut out: Vec<u8> = Vec::new();
                out.push(id.to_byte());
                out.push(p.len() as u8);
                push_bytes(&mut out, p.as_slice());
                proof {
                    assert(out@ =~= spec_encode(self@));
                }
                Ok(out)
            },
            TcpCommand::Bytes(id, p) => {
                if p.len() > 255 {
                    return Err(EncodeError);
                }
                let mut out: Vec<u8> = Vec::new();
                out.push(id.to_byte());
                out.push(p.len() as u8);
                push_bytes(&mut out, p.as_slice());
                proof {
                    assert(out@ =~= spec_encode(self@));
                }
                Ok(out)
            },
            TcpCommand::TextList(id, l) => {
                if l.len() > 255 {
                    proof {
                        assert(l.deep_view().len() == l@.len());
                    }
                    return Err(EncodeError);
                }
                let mut i: usize = 0;
                while i < l.len()
                    invariant
                        0 <= i <= l@.len(),
                        forall|j: int| 0 <= j < i ==> #[trigger] l@[j]@.len() <= 255,
                    decreases l@.len() - i,
                {
                    if l[i].len() > 255 {
                        proof {
                            assert(l.deep_view()[i as int].len() > 255);
                        }
                        return Err(EncodeError);
                    }
                    i = i + 1;
                }
                proof {
                    assert(forall|j: int|
                        0 <= j < l.deep_view().len() ==> #[trigger] l.deep_view()[j].len()
                            <= 255) by {
                        assert(forall|j: int|
                            0 <= j < l@.len() ==> l.deep_view()[j] == #[trigger] l@[j]@);
                    }
                }
                let mut out: Vec<u8> = Vec::new();
                out.push(id.to_byte());
                out.push(l.len() as u8);
                let ghost header = out@;
                let mut k: usize = 0;
                while k < l.len()
                    invariant
                        0 <= k <= l@.len(),
                        l@.len() <= 255,
                        forall|j: int| 0 <= j < l@.len() ==> #[trigger] l@[j]@.len() <= 255,
                        out@ == header + spec_encode_texts(l.deep_view().take(k as int)),
                    decreases l@.len() - k,
                {
                    let item = &l[k];
                    out.push(item.len() as u8);
                    push_bytes(&mut out, item.as_slice());
                    proof {
                        lemma_encode_texts_snoc(l.deep_view(), k as int);
                        assert(l.deep_view()[k as int] == l@[k as int]@);
                        assert(out@ =~= header + spec_encode_texts(
                            l.deep_view().take(k + 1),
                        ));
                    }
                    k = k + 1;
                }
                proof {
                    assert(l.deep_view().take(l@.len() as int) =~= l.deep_view());
                    assert(out@ =~= spec_encode(self@));
                }
                Ok(out)
            },
        }
    }

    /// The tag byte this command's opcode is written as.
    pub fn tag_byte(&self) -> (r: u8)
        ensures
            r == spec_id_byte(spec_cmd_id(self@)),
    {
        match self {
            TcpCommand::Simple(id) => id.to_byte(),
            TcpCommand::Text(id, _) => id.to_byte(),
            TcpCommand::Bytes(id, _) => id.to_byte(),
            TcpCommand::TextList(id, _) => id.to_byte(),
        }
    }

    /// Examines the front of `buf` for one complete frame.
    pub fn decode_frame(buf: &[u8]) -> (r: DecodeOutcome)
        ensures
            r@ == spec_parse(buf@),
    {
        if buf.len() == 0 {
            return DecodeOutcome::Incomplete;
        }
        let id = match TcpCommandId::from_byte(buf[0]) {
            Some(id) => id,
            None => {
                return DecodeOutcome::Invalid;
            },
        };
        match id.get_payload_type() {
            TcpCommandPayloadType::Simple => DecodeOutcome::Frame(TcpCommand::Simple(id), 1),
            TcpCommandPayloadType::Text => {
                if buf.len() < 2 {
                    return DecodeOutcome::Incomplete;
                }
                let n = buf[1] as usize;
                if buf.len() < 2 + n {
                    return DecodeOutcome::Incomplete;
                }
                let body = slice_subrange(buf, 2, 2 + n);
                if !is_valid_utf8(body) {
                    return DecodeOutcome::Invalid;
                }
                let payload = slice_to_vec(body);
                DecodeOutcome::Frame(TcpCommand::Text(id, payload), 2 + n)
            },
            TcpCommandPayloadType::Bytes => {
                if buf.len() < 2 {
                    return DecodeOutcome::Incomplete;
                }
                let n = buf[1] as usize;
                if buf.len() < 2 + n {
                    return DecodeOutcome::Incomplete;
                }
                let payload = slice_to_vec(slice_subrange(buf, 2, 2 + n));
                DecodeOutcome::Frame(TcpCommand::Bytes(id, payload), 2 + n)
            },
            TcpCommandPayloadType::TextList => {
                if buf.len() < 2 {
                    return DecodeOutcome::Incomplete;
                }
                let count = buf[1];
                match Self::decode_items(buf, 2, count) {
                    None => DecodeOutcome::Incomplete,
                    Some((items, end)) => {
                        let mut i: usize = 0;
                        while i < items.len()
                            invariant
                                0 <= i <= items@.len(),
                                buf@.len() >= 2,
                                spec_id_of_byte(buf@[0]) == Some(id),
                                spec_payload_type(id) == TcpCommandPayloadType::TextList,
                                count == buf@[1],
                                spec_parse_items(buf@, 2, count as nat) == Some(
                                    (items.deep_view(), end as int),
                                ),
                                forall|j: int|
                                    0 <= j < i ==> valid_utf8(#[trigger] items.deep_view()[j]),
                            decreases items@.len() - i,
                        {
                            if !is_valid_utf8(items[i].as_slice()) {
                                proof {
                                    assert(items.deep_view()[i as int] == items@[i as int]@);
                                    assert(!spec_all_valid_utf8(items.deep_view()));
                                }
                                return DecodeOutcome::Invalid;
                            }
                            proof {
                                assert(items.deep_view()[i as int] == items@[i as int]@);
                            }
                            i = i + 1;
                        }
                        proof {
                            assert(spec_all_valid_utf8(items.deep_view()));
                        }
                        DecodeOutcome::Frame(TcpCommand::TextList(id, items), end)
                    },
                }
            },
        }
    }

    /// Parses `count` length-prefixed texts starting at `pos`.
    fn decode_items(buf: &[u8], pos: usize, count: u8) -> (r: Option<(Vec<Vec<u8>>, usize)>)
        requires
            pos <= buf@.len(),
        ensures
            match r {
                None => spec_parse_items(buf@, pos as int, count as nat) is None,
                Some((items, end)) => spec_parse_items(buf@, pos as int, count as nat) == Some(
                    (items.deep_view(), end as int),
                ),
            },
        decreases count,
    {
        if count == 0 {
            let items: Vec<Vec<u8>> = Vec::new();
            proof {
                assert(items.deep_view() =~= Seq::<Seq<u8>>::empty());
            }
            return Some((items, pos));
        }
        if pos == buf.len() {
            return None;
        }
        let n = buf[pos] as usize;
        if n > buf.len() - pos - 1 {
            return None;
        }
        let head = slice_to_vec(slice_subrange(buf, pos + 1, pos + 1 + n));
        match Self::decode_items(buf, pos + 1 + n, count - 1) {
            None => None,
            Some((tail, end)) => {
                let mut items = tail;
                items.insert(0, head);
                proof {
                    let tail_v = spec_parse_items(
                        buf@,
                        pos + 1 + n,
                        (count - 1) as nat,
                    )->Some_0.0;
                    assert(items.deep_view() =~= seq![
                        buf@.subrange(pos + 1, pos + 1 + n),
                    ] + tail_v) by {
                        assert(items@ == old_insert_view(tail@, head));
                        assert(items.deep_view().len() == tail_v.len() + 1);
                        assert(items.deep_view()[0] == head@);
                        assert(forall|j: int|
                            1 <= j < items.deep_view().len() ==> items.deep_view()[j]
                                == #[trigger] items@[j]@);
                        assert(forall|j: int|
                            1 <= j < items.deep_view().len() ==> items@[j]@ == #[trigger] tail_v[
                            j - 1]);
                    }
                }
                Some((items, end))
            },
        }
    }
}

/// The view of a vector after inserting `head` at the front.
pub open spec fn old_insert_view(tail: Seq<Vec<u8>>, head: Vec<u8>) -> Seq<Vec<u8>> {
    tail.insert(0, head)
}

/// Encoding a concatenated list yields the two encodings concatenated.
pub proof fn lemma_encode_texts_append(a: Seq<Seq<u8>>, b: Seq<Seq<u8>>)
    ensures
        spec_encode_texts(a + b) == spec_encode_texts(a) + spec_encode_texts(b),
    decreases a.len(),
{
    if a.len() == 0 {
        assert(a + b =~= b);
        assert(spec_encode_texts(a) =~= Seq::<u8>::empty());
        assert(spec_encode_texts(a) + spec_encode_texts(b) =~= spec_encode_texts(b));
    } else {
        lemma_encode_texts_append(a.drop_first(), b);
        assert((a + b).drop_first() =~= a.drop_first() + b);
        assert((a + b)[0] == a[0]);
        assert(spec_encode_texts(a + b) =~= spec_encode_texts(a) + spec_encode_texts(b));
    }
}

/// The wire block of a single text.
pub proof fn lemma_encode_texts_single(x: Seq<u8>)
    ensures
        spec_encode_texts(seq![x]) == seq![x.len() as u8] + x,
{
    assert(seq![x].drop_first() =~= Seq::<Seq<u8>>::empty());
    assert(spec_encode_texts(seq![x].drop_first()) =~= Seq::<u8>::empty());
    assert(spec_encode_texts(seq![x]) =~= seq![x.len() as u8] + x);
}

/// Extending an encoded list by one text appends that text's wire block.
pub proof fn lemma_encode_texts_snoc(l: Seq<Seq<u8>>, i: int)
    requires
        0 <= i < l.len(),
    ensures
        spec_encode_texts(l.take(i + 1)) == spec_encode_texts(l.take(i)) + seq![l[i].len() as u8]
            + l[i],
{
    assert(l.take(i + 1) =~= l.take(i) + seq![l[i]]);
    lemma_encode_texts_append(l.take(i), seq![l[i]]);
    lemma_encode_texts_single(l[i]);
    assert(spec_encode_texts(l.take(i + 1)) =~= spec_encode_texts(l.take(i)) + seq![
        l[i].len() as u8,
    ] + l[i]);
}

/// Parsing finds the texts that were encoded: if the bytes at `pos` hold the
/// wire form of `l` (each text within its length byte), parsing `l.len()`
/// items there yields exactly `l` and stops right after the block.
pub proof fn lemma_parse_items_of_encoding(s: Seq<u8>, pos: int, l: Seq<Seq<u8>>)
    requires
        forall|i: int| 0 <= i < l.len() ==> #[trigger] l[i].len() <= 255,
        0 <= pos,
        pos + spec_encode_texts(l).len() <= s.len(),
        s.subrange(pos, pos + spec_encode_texts(l).len() as int) == spec_encode_texts(l),
    ensures
        spec_parse_items(s, pos, l.len()) == Some((l, pos + spec_encode_texts(l).len() as int)),
    decreases l.len(),
{
    if l.len() == 0 {
        assert(spec_parse_items(s, pos, 0) == Some((Seq::<Seq<u8>>::empty(), pos)));
        assert(l =~= Seq::<Seq<u8>>::empty());
    } else {
        let head = l[0];
        let n = head.len() as int;
        let tail = l.drop_first();
        let enc = spec_encode_texts(l);
        let enc_tail = spec_encode_texts(tail);
        assert(enc == seq![head.len() as u8] + head + enc_tail);
        assert(enc.len() == 1 + n + enc_tail.len());
        assert(enc[0] == s.subrange(pos, pos + enc.len() as int)[0]);
        assert(s[pos] == enc[0] == head.len() as u8);
        assert(s[pos] as int == n);
        assert forall|j: int| 0 <= j < enc.len() implies #[trigger] enc[j] == s[pos + j] by {
            assert(enc[j] == s.subrange(pos, pos + enc.len() as int)[j]);
        }
        assert forall|j: int| 0 <= j < n implies #[trigger] s.subrange(pos + 1, pos + 1 + n)[j]
            == head[j] by {
            assert(s.subrange(pos + 1, pos + 1 + n)[j] == s[pos + 1 + j]);
            assert(enc[1 + j] == (seq![head.len() as u8] + head)[1 + j]);
            assert(enc[1 + j] == head[j]);
        }
        assert(s.subrange(pos + 1, pos + 1 + n) =~= head);
        assert forall|j: int| 0 <= j < enc_tail.len() implies #[trigger] s.subrange(
            pos + 1 + n,
            pos + 1 + n + enc_tail.len() as int,
        )[j] == enc_tail[j] by {
            assert(s.subrange(pos + 1 + n, pos + 1 + n + enc_tail.len() as int)[j] == s[pos + 1 + n
                + j]);
            assert(enc[1 + n + j] == enc_tail[j]);
        }
        assert(s.subrange(pos + 1 + n, pos + 1 + n + enc_tail.len() as int) =~= enc_tail);
        lemma_parse_items_of_encoding(s, pos + 1 + n, tail);
        assert(spec_parse_items(s, pos + 1 + n, (l.len() - 1) as nat) == Some(
            (tail, pos + 1 + n + enc_tail.len() as int),
        ));
        assert(seq![s.subrange(pos + 1, pos + 1 + n)] + tail =~= l);
    }
}

/// A decoder reading the encoding of a well-formed command finds that very
/// command, whatever bytes follow the frame.
pub proof fn lemma_encode_then_parse(c: TcpCommandV, rest: Seq<u8>)
    requires
        spec_wf_cmd(c),
    ensures
        spec_parse(spec_encode(c) + rest) == DecodeOutcomeV::Frame(
            c,
            spec_encode(c).len() as int,
        ),
{
    let enc = spec_encode(c);
    let s = enc + rest;
    let id = spec_cmd_id(c);
    crate::tcp_command_id::lemma_id_byte_roundtrip(id);
    assert(s[0] == spec_id_byte(id));
    match c {
        TcpCommandV::Simple(_) => {
        },
        TcpCommandV::Text(_, p) => {
            let n = p.len() as int;
            assert(s[1] == p.len() as u8);
            assert(s[1] as int == n);
            assert(s.len() >= 2 + n);
            assert(s.subrange(2, 2 + n) =~= p);
        },
        TcpCommandV::Bytes(_, p) => {
            let n = p.len() as int;
            assert(s[1] == p.len() as u8);
            assert(s[1] as int == n);
            assert(s.len() >= 2 + n);
            assert(s.subrange(2, 2 + n) =~= p);
        },
        TcpCommandV::TextList(_, l) => {
            let enc_l = spec_encode_texts(l);
            assert(s[1] == l.len() as u8);
            assert(s[1] as nat == l.len());
            assert forall|j: int| 0 <= j < enc_l.len() implies #[trigger] s.subrange(
                2,
                2 + enc_l.len() as int,
            )[j] == enc_l[j] by {
                assert(s.subrange(2, 2 + enc_l.len() as int)[j] == s[2 + j]);
                assert(s[2 + j] == (seq![spec_id_byte(spec_cmd_id(c)), l.len() as u8] + enc_l)[2
                    + j]);
            }
            assert(s.subrange(2, 2 + enc_l.len() as int) =~= enc_l);
            lemma_parse_items_of_encoding(s, 2, l);
        },
    }
}

/// Whatever a parse of `count` items accepts is the wire form of the items
/// it returns: each fits its length byte, and their encoding is exactly the
/// bytes the parse consumed.
pub proof fn lemma_parse_items_exact(s: Seq<u8>, pos: int, count: nat)
    requires
        0 <= pos <= s.len(),
        spec_parse_items(s, pos, count) is Some,
    ensures
        ({
            let (items, end) = spec_parse_items(s, pos, count)->Some_0;
            &&& items.len() == count
            &&& pos <= end <= s.len()
            &&& forall|i: int| 0 <= i < items.len() ==> #[trigger] items[i].len() <= 255
            &&& spec_encode_texts(items) == s.subrange(pos, end)
        }),
    decreases count,
{
    let (items, end) = spec_parse_items(s, pos, count)->Some_0;
    if count == 0 {
        assert(spec_encode_texts(items) =~= s.subrange(pos, end));
    } else {
        let n = s[pos] as int;
        let rec = spec_parse_items(s, pos + 1 + n, (count - 1) as nat);
        lemma_parse_items_exact(s, pos + 1 + n, (count - 1) as nat);
        let (tail, end2) = rec->Some_0;
        assert(items == seq![s.subrange(pos + 1, pos + 1 + n)] + tail);
        assert(end == end2);
        assert(items[0] == s.subrange(pos + 1, pos + 1 + n));
        assert(items.drop_first() =~= tail);
        assert(spec_encode_texts(items) == seq![items[0].len() as u8] + items[0]
            + spec_encode_texts(tail));
        assert(spec_encode_texts(tail) == s.subrange(pos + 1 + n, end));
        assert(items[0].len() == n);
        assert(spec_encode_texts(items).len() == s.subrange(pos, end).len());
        assert forall|j: int| 0 <= j < end - pos implies #[trigger] spec_encode_texts(items)[j]
            == s.subrange(pos, end)[j] by {
            assert(s.subrange(pos, end)[j] == s[pos + j]);
            if j == 0 {
                assert(spec_encode_texts(items)[0] == items[0].len() as u8);
            } else if j < 1 + n {
                assert(spec_encode_texts(items)[j] == items[0][j - 1]);
                assert(items[0][j - 1] == s.subrange(pos + 1, pos + 1 + n)[j - 1]);
                assert(s.subrange(pos + 1, pos + 1 + n)[j - 1] == s[pos + j]);
            } else {
                assert(spec_encode_texts(items)[j] == spec_encode_texts(tail)[j - 1 - n]);
                assert(spec_encode_texts(tail)[j - 1 - n] == s.subrange(pos + 1 + n, end)[j - 1
                    - n]);
                assert(s.subrange(pos + 1 + n, end)[j - 1 - n] == s[pos + j]);
            }
        }
        assert(spec_encode_texts(items) =~= s.subrange(pos, end));
    }
}

/// Any byte sequence a decoder accepts as a frame is the encoding of the
/// command it returns: re-encoding reproduces exactly the consumed bytes.
pub proof fn lemma_parse_then_encode(s: Seq<u8>, c: TcpCommandV, n: int)
    requires
        spec_parse(s) == DecodeOutcomeV::Frame(c, n),
    ensures
        spec_wf_cmd(c),
        0 <= n <= s.len(),
        spec_encode(c) == s.subrange(0, n),
    decreases s.len(),
{
    let id = spec_id_of_byte(s[0])->Some_0;
    match spec_payload_type(id) {
        TcpCommandPayloadType::Simple => {
            assert(spec_encode(c) =~= s.subrange(0, 1));
        },
        TcpCommandPayloadType::Text => {
            let m = s[1] as int;
            assert(c == TcpCommandV::Text(id, s.subrange(2, 2 + m)));
            assert(spec_encode(c) =~= s.subrange(0, n));
        },
        TcpCommandPayloadType::Bytes => {
            let m = s[1] as int;
            assert(c == TcpCommandV::Bytes(id, s.subrange(2, 2 + m)));
            assert(spec_encode(c) =~= s.subrange(0, n));
        },
        TcpCommandPayloadType::TextList => {
            let count = s[1] as nat;
            lemma_parse_items_exact(s, 2, count);
            let (items, end) = spec_parse_items(s, 2, count)->Some_0;
            assert(c == TcpCommandV::TextList(id, items));
            assert(spec_encode_texts(items) == s.subrange(2, end));
            assert(spec_encode(c).len() == 2 + spec_encode_texts(items).len() == n);
            assert forall|j: int| 0 <= j < n implies #[trigger] spec_encode(c)[j] == s.subrange(
                0,
                n,
            )[j] by {
                assert(s.subrange(0, n)[j] == s[j]);
                if j >= 2 {
                    assert(spec_encode(c)[j] == spec_encode_texts(items)[j - 2]);
                    assert(spec_encode_texts(items)[j - 2] == s.subrange(2, end)[j - 2]);
                    assert(s.subrange(2, end)[j - 2] == s[j]);
                }
            }
            assert(spec_encode(c) =~= s.subrange(0, n));
        },
    }
}

/// A frame found at the front of a buffer is still found, unchanged, after
/// more bytes arrive.
pub proof fn lemma_parse_prefix_stable(s: Seq<u8>, t: Seq<u8>, c: TcpCommandV, n: int)
    requires
        spec_parse(s) == DecodeOutcomeV::Frame(c, n),
        s.len() <= t.len(),
        t.subrange(0, s.len() as int) == s,
    ensures
        spec_parse(t) == DecodeOutcomeV::Frame(c, n),
{
    lemma_parse_then_encode(s, c, n);
    assert forall|j: int| 0 <= j < s.len() implies #[trigger] t[j] == s[j] by {
        assert(t.subrange(0, s.len() as int)[j] == t[j]);
    }
    assert forall|j: int| 0 <= j < n implies #[trigger] spec_encode(c)[j] == s[j] by {
        assert(spec_encode(c)[j] == s.subrange(0, n)[j]);
    }
    assert(t =~= spec_encode(c) + t.subrange(n, t.len() as int));
    lemma_encode_then_parse(c, t.subrange(n, t.len() as int));
}

} // verus!

//! The wire format: each message travels as `Content-Length: <N>`, two
//! line breaks and exactly `N` bytes of body.

use vstd::prelude::*;
use vstd::utf8::{decode_utf8, valid_utf8};
use crate::bytes::{append_bytes, as_text};
use crate::error::ProtocolError;

verus! {

/// The header name, colon and space, in lower case.
pub open spec fn header_prefix() -> Seq<u8> {
    seq![
        0x63u8, 0x6f, 0x6e, 0x74, 0x65, 0x6e, 0x74, 0x2d, 0x6c, 0x65, 0x6e, 0x67, 0x74, 0x68, 0x3a,
        0x20,
    ]
}

/// The header name, colon and space, as the encoder writes them.
pub open spec fn header_prefix_written() -> Seq<u8> {
    seq![
        0x43u8, 0x6f, 0x6e, 0x74, 0x65, 0x6e, 0x74, 0x2d, 0x4c, 0x65, 0x6e, 0x67, 0x74, 0x68, 0x3a,
        0x20,
    ]
}

/// Carriage return, line feed, twice: the end of the header.
pub open spec fn header_end() -> Seq<u8> {
    seq![0x0du8, 0x0a, 0x0d, 0x0a]
}

/// An ASCII capital letter becomes its small letter; other bytes stay.
pub open spec fn to_lower(byte: u8) -> u8 {
    if 0x41 <= byte <= 0x5a {
        (byte + 0x20) as u8
    } else {
        byte
    }
}

pub open spec fn is_digit(byte: u8) -> bool {
    0x30 <= byte <= 0x39
}

/// No byte of `buffer` from `from` on contradicts `pattern`, letters
/// compared without regard to case. Bytes the buffer does not hold yet
/// contradict nothing.
pub open spec fn agrees(buffer: Seq<u8>, from: int, pattern: Seq<u8>) -> bool {
    forall|k: int|
        0 <= k < pattern.len() && from + k < buffer.len() ==> to_lower(#[trigger] buffer[from + k])
            == pattern[k]
}

/// Number of digits in a row that `buffer` holds from `from` on.
pub open spec fn digit_run(buffer: Seq<u8>, from: int) -> nat
    decreases buffer.len() - from,
{
    if 0 <= from < buffer.len() && is_digit(buffer[from]) {
        1 + digit_run(buffer, from + 1)
    } else {
        0
    }
}

/// The number that a row of decimal digits writes.
pub open spec fn digits_value(digits: Seq<u8>) -> nat
    decreases digits.len(),
{
    if digits.len() == 0 {
        0
    } else {
        digits_value(digits.drop_last()) * 10 + (digits.last() - 0x30) as nat
    }
}

/// What the front of a buffer holds.
pub enum Decoded {
    /// A prefix of a frame: more bytes are needed.
    Incomplete,
    /// Bytes that no frame begins with.
    Malformed(ProtocolError),
    /// A whole frame of `consumed` bytes carrying `body`.
    Message { body: Seq<u8>, consumed: nat },
}

/// Reads one frame from the front of `buffer`.
pub open spec fn spec_decode(buffer: Seq<u8>) -> Decoded {
    let count = digit_run(buffer, 16) as int;
    let length = digits_value(buffer.subrange(16, 16 + count)) as int;
    let start = 16 + count + 4;
    if !agrees(buffer, 0, header_prefix()) {
        Decoded::Malformed(ProtocolError::MalformedHeader)
    } else if buffer.len() < 16 {
        Decoded::Incomplete
    } else if length > usize::MAX {
        Decoded::Malformed(ProtocolError::LengthOverflow)
    } else if buffer.len() == 16 + count {
        Decoded::Incomplete
    } else if count == 0 {
        Decoded::Malformed(ProtocolError::MalformedHeader)
    } else if !agrees(buffer, 16 + count, header_end()) {
        Decoded::Malformed(ProtocolError::MalformedHeader)
    } else if buffer.len() < start {
        Decoded::Incomplete
    } else if start + length > usize::MAX {
        Decoded::Malformed(ProtocolError::LengthOverflow)
    } else if buffer.len() < start + length {
        Decoded::Incomplete
    } else {
        Decoded::Message {
            body: buffer.subrange(start, start + length),
            consumed: (start + length) as nat,
        }
    }
}

/// The bodies of all whole frames at the front of `stream`, in order.
pub open spec fn spec_messages(stream: Seq<u8>) -> Seq<Seq<u8>>
    decreases stream.len(),
{
    match spec_decode(stream) {
        Decoded::Message { body, consumed } if 0 < consumed <= stream.len() => seq![body]
            + spec_messages(stream.skip(consumed as int)),
        _ => Seq::empty(),
    }
}

/// What is left of `stream` once all whole frames at its front are taken.
pub open spec fn spec_remainder(stream: Seq<u8>) -> Seq<u8>
    decreases stream.len(),
{
    match spec_decode(stream) {
        Decoded::Message { body, consumed } if 0 < consumed <= stream.len() => spec_remainder(
            stream.skip(consumed as int),
        ),
        _ => stream,
    }
}

/// The error that stops decoding after the whole frames at the front of
/// `stream`, if what follows them is malformed.
pub open spec fn spec_failure(stream: Seq<u8>) -> Option<ProtocolError>
    decreases stream.len(),
{
    match spec_decode(stream) {
        Decoded::Message { body, consumed } if 0 < consumed <= stream.len() => spec_failure(
            stream.skip(consumed as int),
        ),
        Decoded::Malformed(error) => Some(error),
        _ => None,
    }
}

pub proof fn lemma_digit_run_exact(buffer: Seq<u8>, from: int, to: int)
    requires
        0 <= from <= to <= buffer.len(),
        forall|j: int| from <= j < to ==> is_digit(#[trigger] buffer[j]),
        to == buffer.len() || !is_digit(buffer[to]),
    ensures
        digit_run(buffer, from) == to - from,
    decreases to - from,
{
    if from < to {
        assert(is_digit(buffer[from]));
        lemma_digit_run_exact(buffer, from + 1, to);
    }
}

pub proof fn lemma_digit_run_covers(buffer: Seq<u8>, from: int)
    requires
        0 <= from,
    ensures
        from + digit_run(buffer, from) <= buffer.len() || digit_run(buffer, from) == 0,
        forall|j: int| from <= j < from + digit_run(buffer, from) ==> is_digit(#[trigger] buffer[j]),
        from + digit_run(buffer, from) < buffer.len() ==> !is_digit(
            buffer[from + digit_run(buffer, from)],
        ),
    decreases buffer.len() - from,
{
    if from < buffer.len() && is_digit(buffer[from]) {
        lemma_digit_run_covers(buffer, from + 1);
    }
}

/// A longer row of digits writes no smaller number than its front part.
pub proof fn lemma_digits_value_grows(digits: Seq<u8>, front: int)
    requires
        0 <= front <= digits.len(),
        forall|j: int| 0 <= j < digits.len() ==> is_digit(#[trigger] digits[j]),
    ensures
        digits_value(digits.take(front)) <= digits_value(digits),
    decreases digits.len(),
{
    if front == digits.len() {
        assert(digits.take(front) =~= digits);
    } else {
        let shorter = digits.drop_last();
        assert(shorter.take(front) =~= digits.take(front));
        lemma_digits_value_grows(shorter, front);
    }
}

/// Outcome of looking for one frame at the front of a buffer.
#[derive(Clone, Copy, Debug, PartialEq, Eq, Structural)]
pub enum FrameStep {
    /// More bytes are needed.
    Incomplete,
    /// No frame begins like this.
    Malformed(ProtocolError),
    /// A whole frame: the body is the bytes from `start` up to `end`, and
    /// the frame ends at `end`.
    Frame { start: usize, end: usize },
}

/// `step` says of `buffer` what `spec_decode` says of it.
pub open spec fn step_describes(step: FrameStep, buffer: Seq<u8>) -> bool {
    match step {
        FrameStep::Incomplete => spec_decode(buffer) is Incomplete,
        FrameStep::Malformed(error) => spec_decode(buffer) == Decoded::Malformed(error),
        FrameStep::Frame { start, end } => {
            &&& 16 < start <= end <= buffer.len()
            &&& spec_decode(buffer) == (Decoded::Message {
                body: buffer.subrange(start as int, end as int),
                consumed: end as nat,
            })
        },
    }
}

fn lower(byte: u8) -> (folded: u8)
    ensures
        folded == to_lower(byte),
{
    if 0x41 <= byte && byte <= 0x5a {
        byte + 0x20
    } else {
        byte
    }
}

fn prefix_byte(k: usize) -> (byte: u8)
    requires
        k < 16,
    ensures
        byte == header_prefix()[k as int],
{
    if k == 0 {
        0x63
    } else if k == 1 {
        0x6f
    } else if k == 2 || k == 5 || k == 10 {
        0x6e
    } else if k == 3 || k == 6 || k == 12 {
        0x74
    } else if k == 4 || k == 9 {
        0x65
    } else if k == 7 {
        0x2d
    } else if k == 8 {
        0x6c
    } else if k == 11 {
        0x67
    } else if k == 13 {
        0x68
    } else if k == 14 {
        0x3a
    } else {
        0x20
    }
}

fn end_byte(k: usize) -> (byte: u8)
    requires
        k < 4,
    ensures
        byte == header_end()[k as int],
{
    if k == 0 || k == 2 {
        0x0d
    } else {
        0x0a
    }
}

/// Looks for one frame at the front of `buffer`.
pub fn decode_frame(buffer: &[u8]) -> (step: FrameStep)
    ensures
        step_describes(step, buffer@),
{
    let len = buffer.len();
    let mut k: usize = 0;
    while k < 16 && k < len
        invariant
            k <= 16,
            k <= len,
            len == buffer@.len(),
            forall|j: int| 0 <= j < k ==> to_lower(#[trigger] buffer@[0 + j]) == header_prefix()[j],
        decreases 16 - k,
    {
        if lower(buffer[k]) != prefix_byte(k) {
            proof {
                assert(to_lower(buffer@[0 + k]) != header_prefix()[k as int]);
            }
            return FrameStep::Malformed(ProtocolError::MalformedHeader);
        }
        k += 1;
    }
    assert(agrees(buffer@, 0, header_prefix()));
    if len < 16 {
        return FrameStep::Incomplete;
    }
    let mut pos: usize = 16;
    let mut length: usize = 0;
    assert(buffer@.subrange(16, 16) =~= Seq::<u8>::empty());
    while pos < len && 0x30 <= buffer[pos] && buffer[pos] <= 0x39
        invariant
            16 <= pos <= len,
            len == buffer@.len(),
            agrees(buffer@, 0, header_prefix()),
            forall|j: int| 16 <= j < pos ==> is_digit(#[trigger] buffer@[j]),
            length == digits_value(buffer@.subrange(16, pos as int)),
        decreases len - pos,
    {
        let digit = (buffer[pos] - 0x30) as usize;
        proof {
            let longer = buffer@.subrange(16, pos + 1);
            assert(longer.drop_last() =~= buffer@.subrange(16, pos as int));
            assert(longer.last() == buffer@[pos as int]);
        }
        if length > (usize::MAX - digit) / 10 {
            proof {
                let count = digit_run(buffer@, 16) as int;
                lemma_digit_run_covers(buffer@, 16);
                let digits = buffer@.subrange(16, 16 + count);
                assert(count >= pos + 1 - 16) by {
                    if count < pos + 1 - 16 {
                        assert(is_digit(buffer@[16 + count]));
                    }
                }
                assert(digits.take(pos + 1 - 16) =~= buffer@.subrange(16, pos + 1));
                lemma_digits_value_grows(digits, pos + 1 - 16);
            }
            return FrameStep::Malformed(ProtocolError::LengthOverflow);
        }
        length = length * 10 + digit;
        pos += 1;
    }
    proof {
        lemma_digit_run_exact(buffer@, 16, pos as int);
    }
    if pos == len {
        return FrameStep::Incomplete;
    }
    if pos == 16 {
        return FrameStep::Malformed(ProtocolError::MalformedHeader);
    }
    let mut t: usize = 0;
    while t < 4 && t < len - pos
        invariant
            t <= 4,
            16 < pos < len,
            t <= len - pos,
            len == buffer@.len(),
            agrees(buffer@, 0, header_prefix()),
            digit_run(buffer@, 16) == pos - 16,
            length == digits_value(buffer@.subrange(16, pos as int)),
            forall|j: int| 0 <= j < t ==> to_lower(#[trigger] buffer@[pos + j]) == header_end()[j],
        decreases 4 - t,
    {
        if buffer[pos + t] != end_byte(t) {
            proof {
                let from = 16 + digit_run(buffer@, 16) as int;
                assert(from == pos);
                assert(to_lower(buffer@[from + t]) != header_end()[t as int]);
            }
            return FrameStep::Malformed(ProtocolError::MalformedHeader);
        }
        t += 1;
    }
    assert(agrees(buffer@, pos as int, header_end()));
    if len - pos < 4 {
        return FrameStep::Incomplete;
    }
    let start = pos + 4;
    if length > usize::MAX - start {
        return FrameStep::Malformed(ProtocolError::LengthOverflow);
    }
    if len - start < length {
        return FrameStep::Incomplete;
    }
    FrameStep::Frame { start, end: start + length }
}

/// The views of a list of byte vectors.
pub open spec fn bodies(messages: Seq<Vec<u8>>) -> Seq<Seq<u8>> {
    messages.map_values(|message: Vec<u8>| message@)
}

/// Reassembles frames from a byte stream that arrives in pieces.
pub struct Framer {
    buffer: Vec<u8>,
}

impl View for Framer {
    type V = Seq<u8>;

    /// The bytes received and not yet handed out as part of a message.
    closed spec fn view(&self) -> Seq<u8> {
        self.buffer@
    }
}

impl Framer {
    pub fn new() -> (framer: Framer)
        ensures
            framer@ == Seq::<u8>::empty(),
    {
        Framer { buffer: Vec::new() }
    }

    /// Number of bytes held back.
    pub fn buffered(&self) -> (count: usize)
        ensures
            count == self@.len(),
    {
        self.buffer.len()
    }

    /// Takes in the bytes of one read.
    pub fn push(&mut self, bytes: &[u8])
        ensures
            final(self)@ == old(self)@ + bytes@,
    {
        append_bytes(&mut self.buffer, bytes);
    }

    /// Hands out the next message if the buffer holds a whole frame.
    /// Nothing is consumed while the frame is incomplete, nor once the
    /// stream has turned out malformed.
    pub fn next_message(&mut self) -> (result: Result<Option<Vec<u8>>, ProtocolError>)
        ensures
            match spec_decode(old(self)@) {
                Decoded::Incomplete => result == Ok::<Option<Vec<u8>>, ProtocolError>(None)
                    && final(self)@ == old(self)@,
                Decoded::Malformed(error) => result == Err::<Option<Vec<u8>>, ProtocolError>(error)
                    && final(self)@ == old(self)@,
                Decoded::Message { body, consumed } => {
                    &&& result matches Ok(Some(message))
                    &&& message@ == body
                    &&& 0 < consumed <= old(self)@.len()
                    &&& final(self)@ == old(self)@.skip(consumed as int)
                },
            },
    {
        match decode_frame(self.buffer.as_slice()) {
            FrameStep::Incomplete => Ok(None),
            FrameStep::Malformed(error) => Err(error),
            FrameStep::Frame { start, end } => {
                let rest = self.buffer.split_off(end);
                let body = self.buffer.split_off(start);
                self.buffer = rest;
                assert(body@ =~= old(self)@.subrange(start as int, end as int));
                assert(self.buffer@ =~= old(self)@.skip(end as int));
                Ok(Some(body))
            },
        }
    }

    /// Hands out the next message as text. A body that is not valid UTF-8
    /// is taken off the buffer and reported.
    pub fn next_text(&mut self) -> (result: Result<Option<String>, ProtocolError>)
        ensures
            match spec_decode(old(self)@) {
                Decoded::Incomplete => result == Ok::<Option<String>, ProtocolError>(None)
                    && final(self)@ == old(self)@,
                Decoded::Malformed(error) => result == Err::<Option<String>, ProtocolError>(error)
                    && final(self)@ == old(self)@,
                Decoded::Message { body, consumed } => {
                    &&& 0 < consumed <= old(self)@.len()
                    &&& final(self)@ == old(self)@.skip(consumed as int)
                    &&& if valid_utf8(body) {
                        result matches Ok(Some(text)) && text@ == decode_utf8(body)
                    } else {
                        result == Err::<Option<String>, ProtocolError>(ProtocolError::InvalidBody)
                    }
                },
            },
    {
        match self.next_message()? {
            None => Ok(None),
            Some(body) => match as_text(body.as_slice()) {
                Some(text) => Ok(Some(text.to_owned())),
                None => Err(ProtocolError::InvalidBody),
            },
        }
    }

    /// Hands out every message the buffer holds in full, in order, and the
    /// error that stops decoding if what follows them is malformed.
    pub fn drain(&mut self) -> (result: (Vec<Vec<u8>>, Option<ProtocolError>))
        ensures
            bodies(result.0@) == spec_messages(old(self)@),
            result.1 == spec_failure(old(self)@),
            final(self)@ == spec_remainder(old(self)@),
    {
        let mut messages: Vec<Vec<u8>> = Vec::new();
        assert(bodies(messages@) =~= Seq::<Seq<u8>>::empty());
        loop
            invariant
                spec_messages(old(self)@) == bodies(messages@) + spec_messages(self@),
                spec_failure(old(self)@) == spec_failure(self@),
                spec_remainder(old(self)@) == spec_remainder(self@),
            decreases self@.len(),
        {
            let ghost before = self@;
            let ghost collected = bodies(messages@);
            match self.next_message() {
                Ok(Some(message)) => {
                    messages.push(message);
                    assert(bodies(messages@) =~= collected.push(message@));
                    assert(collected + (seq![message@] + spec_messages(self@)) =~= collected.push(
                        message@,
                    ) + spec_messages(self@));
                },
                Ok(None) => {
                    assert(bodies(messages@) + Seq::<Seq<u8>>::empty() =~= bodies(messages@));
                    return (messages, None);
                },
                Err(error) => {
                    assert(bodies(messages@) + Seq::<Seq<u8>>::empty() =~= bodies(messages@));
                    return (messages, Some(error));
                },
            }
        }
    }
}

pub proof fn lemma_digit_run_at_least(buffer: Seq<u8>, from: int, to: int)
    requires
        0 <= from <= to <= buffer.len(),
        forall|j: int| from <= j < to ==> is_digit(#[trigger] buffer[j]),
    ensures
        digit_run(buffer, from) >= to - from,
    decreases to - from,
{
    if from < to {
        assert(is_digit(buffer[from]));
        lemma_digit_run_at_least(buffer, from + 1, to);
    }
}

/// Once the front of a buffer is a whole frame, or cannot begin one, more
/// bytes behind it change nothing.
pub proof fn lemma_decode_stable(buffer: Seq<u8>, more: Seq<u8>)
    requires
        !(spec_decode(buffer) is Incomplete),
    ensures
        spec_decode(buffer + more) == spec_decode(buffer),
{
    let longer = buffer + more;
    if !agrees(buffer, 0, header_prefix()) {
        let k = choose|k: int|
            0 <= k < header_prefix().len() && 0 + k < buffer.len() && to_lower(
                #[trigger] buffer[0 + k],
            ) != header_prefix()[k];
        assert(longer[0 + k] == buffer[0 + k]);
    } else {
        assert forall|k: int|
            0 <= k < header_prefix().len() && 0 + k < longer.len() implies to_lower(
            #[trigger] longer[0 + k],
        ) == header_prefix()[k] by {
            assert(longer[0 + k] == buffer[0 + k]);
        }
        let count = digit_run(buffer, 16) as int;
        let digits = buffer.subrange(16, 16 + count);
        let count_longer = digit_run(longer, 16) as int;
        lemma_digit_run_covers(buffer, 16);
        lemma_digit_run_covers(longer, 16);
        assert forall|j: int| 16 <= j < 16 + count implies is_digit(#[trigger] longer[j]) by {
            assert(longer[j] == buffer[j]);
        }
        lemma_digit_run_at_least(longer, 16, 16 + count);
        let digits_longer = longer.subrange(16, 16 + count_longer);
        assert(digits_longer.take(count) =~= digits);
        lemma_digits_value_grows(digits_longer, count);
        if digits_value(digits) <= usize::MAX {
            assert(16 + count < buffer.len());
            assert(longer[16 + count] == buffer[16 + count]);
            lemma_digit_run_exact(longer, 16, 16 + count);
            assert(digits_longer =~= digits);
            let from = 16 + count;
            if count != 0 {
                if !agrees(buffer, from, header_end()) {
                    let k = choose|k: int|
                        0 <= k < header_end().len() && from + k < buffer.len() && to_lower(
                            #[trigger] buffer[from + k],
                        ) != header_end()[k];
                    assert(longer[from + k] == buffer[from + k]);
                } else {
                    assert forall|k: int|
                        0 <= k < header_end().len() && from + k < longer.len() implies to_lower(
                        #[trigger] longer[from + k],
                    ) == header_end()[k] by {
                        assert(longer[from + k] == buffer[from + k]);
                    }
                    let start = from + 4;
                    let length = digits_value(digits) as int;
                    if start + length <= usize::MAX {
                        assert(longer.subrange(start, start + length) =~= buffer.subrange(
                            start,
                            start + length,
                        ));
                    }
                }
            }
        }
    }
}

/// Decoding a stream that arrives in two pieces gives the messages of the
/// first piece and then those of what the first piece left over followed
/// by the second piece: together, the messages of the whole stream.
pub proof fn law_split_invariance(first: Seq<u8>, second: Seq<u8>)
    ensures
        spec_messages(first + second) == spec_messages(first) + spec_messages(
            spec_remainder(first) + second,
        ),
        spec_remainder(first + second) == spec_remainder(spec_remainder(first) + second),
        spec_failure(first + second) == spec_failure(spec_remainder(first) + second),
    decreases first.len(),
{
    match spec_decode(first) {
        Decoded::Message { body, consumed } => {
            lemma_decode_stable(first, second);
            let rest = first.skip(consumed as int);
            assert((first + second).skip(consumed as int) =~= rest + second);
            law_split_invariance(rest, second);
            assert(seq![body] + (spec_messages(rest) + spec_messages(spec_remainder(rest) + second))
                =~= (seq![body] + spec_messages(rest)) + spec_messages(
                spec_remainder(rest) + second,
            ));
        },
        _ => {
            assert(Seq::<Seq<u8>>::empty() + spec_messages(first + second) =~= spec_messages(
                first + second,
            ));
        },
    }
}

/// All pieces of a stream, one behind the other.
pub open spec fn concat(chunks: Seq<Seq<u8>>) -> Seq<u8>
    decreases chunks.len(),
{
    if chunks.len() == 0 {
        Seq::empty()
    } else {
        concat(chunks.drop_last()) + chunks.last()
    }
}

/// What a framer hands out, and what it keeps, when it takes in the pieces
/// one by one and is drained after each.
pub open spec fn spec_feed(chunks: Seq<Seq<u8>>) -> (Seq<Seq<u8>>, Seq<u8>)
    decreases chunks.len(),
{
    if chunks.len() == 0 {
        (Seq::empty(), Seq::empty())
    } else {
        let earlier = spec_feed(chunks.drop_last());
        let buffer = earlier.1 + chunks.last();
        (earlier.0 + spec_messages(buffer), spec_remainder(buffer))
    }
}

/// However a stream is cut into pieces, a framer fed piece by piece hands
/// out the messages of the whole stream and keeps what the whole stream
/// leaves over.
pub proof fn law_chunked_decoding(chunks: Seq<Seq<u8>>)
    ensures
        spec_feed(chunks).0 == spec_messages(concat(chunks)),
        spec_feed(chunks).1 == spec_remainder(concat(chunks)),
    decreases chunks.len(),
{
    if chunks.len() == 0 {
    } else {
        law_chunked_decoding(chunks.drop_last());
        law_split_invariance(concat(chunks.drop_last()), chunks.last());
    }
}

/// The decimal digits of a number, without leading zeros.
pub open spec fn decimal(n: nat) -> Seq<u8>
    decreases n,
{
    if n < 10 {
        seq![(0x30 + n) as u8]
    } else {
        decimal(n / 10).push((0x30 + n % 10) as u8)
    }
}

/// The frame that carries `message`.
pub open spec fn spec_encode(message: Seq<u8>) -> Seq<u8> {
    header_prefix_written() + decimal(message.len()) + header_end() + message
}

pub proof fn lemma_decimal(n: nat)
    ensures
        decimal(n).len() >= 1,
        forall|j: int| 0 <= j < decimal(n).len() ==> is_digit(#[trigger] decimal(n)[j]),
        digits_value(decimal(n)) == n,
    decreases n,
{
    if n < 10 {
        assert(decimal(n).drop_last() =~= Seq::<u8>::empty());
        assert(digits_value(decimal(n).drop_last()) == 0);
    } else {
        lemma_decimal(n / 10);
        assert(decimal(n).drop_last() =~= decimal(n / 10));
    }
}

/// A frame that the encoder wrote decodes to the message it carries,
/// whatever follows it.
pub proof fn law_encode_decode(message: Seq<u8>, rest: Seq<u8>)
    requires
        spec_encode(message).len() <= usize::MAX,
    ensures
        spec_decode(spec_encode(message) + rest) == (Decoded::Message {
            body: message,
            consumed: spec_encode(message).len(),
        }),
{
    let digits = decimal(message.len());
    let frame = spec_encode(message) + rest;
    let from = 16 + digits.len() as int;
    lemma_decimal(message.len());
    assert forall|k: int| 0 <= k < 16 implies to_lower(#[trigger] frame[0 + k])
        == header_prefix()[k] by {
        assert(frame[0 + k] == header_prefix_written()[k]);
    }
    assert forall|j: int| 16 <= j < from implies is_digit(#[trigger] frame[j]) by {
        assert(frame[j] == digits[j - 16]);
    }
    assert(frame[from] == header_end()[0]);
    lemma_digit_run_exact(frame, 16, from);
    assert(frame.subrange(16, from) =~= digits);
    assert forall|k: int| 0 <= k < 4 implies to_lower(#[trigger] frame[from + k]) == header_end()[k] by {
        assert(frame[from + k] == header_end()[k]);
    }
    assert(frame.subrange(from + 4, from + 4 + message.len()) =~= message);
}

fn write_decimal(out: &mut Vec<u8>, n: usize)
    ensures
        final(out)@ == old(out)@ + decimal(n as nat),
    decreases n,
{
    if n < 10 {
        out.push(0x30 + n as u8);
        assert(out@ =~= old(out)@ + decimal(n as nat));
    } else {
        write_decimal(out, n / 10);
        out.push(0x30 + (n % 10) as u8);
        assert(out@ =~= old(out)@ + decimal(n as nat));
    }
}

/// Frames one message for the wire.
pub fn encode(message: &[u8]) -> (frame: Vec<u8>)
    ensures
        frame@ == spec_encode(message@),
{
    let mut frame: Vec<u8> = Vec::new();
    frame.push(0x43);
    frame.push(0x6f);
    frame.push(0x6e);
    frame.push(0x74);
    frame.push(0x65);
    frame.push(0x6e);
    frame.push(0x74);
    frame.push(0x2d);
    frame.push(0x4c);
    frame.push(0x65);
    frame.push(0x6e);
    frame.push(0x67);
    frame.push(0x74);
    frame.push(0x68);
    frame.push(0x3a);
    frame.push(0x20);
    assert(frame@ =~= header_prefix_written());
    write_decimal(&mut frame, message.len());
    frame.push(0x0d);
    frame.push(0x0a);
    frame.push(0x0d);
    frame.push(0x0a);
    assert(frame@ =~= header_prefix_written() + decimal(message@.len()) + header_end());
    append_bytes(&mut frame, message);
    frame
}

/// The frames of a list of messages, one behind the other.
pub open spec fn spec_encode_all(messages: Seq<Seq<u8>>) -> Seq<u8>
    decreases messages.len(),
{
    if messages.len() == 0 {
        Seq::empty()
    } else {
        spec_encode(messages.first()) + spec_encode_all(messages.drop_first())
    }
}

/// Decoding what the encoder wrote for a list of messages gives the list
/// again, with nothing left over and no failure.
pub proof fn law_encode_all_decode(messages: Seq<Seq<u8>>)
    requires
        forall|i: int| 0 <= i < messages.len() ==> spec_encode(#[trigger] messages[i]).len() <= usize::MAX,
    ensures
        spec_messages(spec_encode_all(messages)) == messages,
        spec_remainder(spec_encode_all(messages)) == Seq::<u8>::empty(),
        spec_failure(spec_encode_all(messages)) is None,
    decreases messages.len(),
{
    if messages.len() == 0 {
        assert(spec_messages(Seq::<u8>::empty()) =~= messages);
    } else {
        let first = messages.first();
        let rest = messages.drop_first();
        let stream = spec_encode_all(messages);
        assert(spec_encode(messages[0]).len() <= usize::MAX);
        law_encode_decode(first, spec_encode_all(rest));
        assert forall|i: int| 0 <= i < rest.len() implies spec_encode(#[trigger] rest[i]).len()
            <= usize::MAX by {
            assert(rest[i] == messages[i + 1]);
        }
        law_encode_all_decode(rest);
        assert(stream.skip(spec_encode(first).len() as int) =~= spec_encode_all(rest));
        assert(seq![first] + rest =~= messages);
    }
}

} // verus!

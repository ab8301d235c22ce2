//! Framed-byte stream reassembly for the two gateway wire protocols.
//!
//! Version 1 is a terminator-based framing: `0xFF` ends a frame, `0xFE`
//! escapes the following byte (which is pushed as `byte + 1`). A completed
//! buffer is a frame iff its length is greater than 4.
//!
//! Version 2 is a SLIP-like framing: `0xAB` starts a frame, `0xBC` ends it
//! (the frame is emitted iff its length is at least 4), `0xCD` escapes the
//! following byte (pushed as `byte + 1`). Bytes between an end and the next
//! start are discarded, so the decoders resynchronise silently on garbage.

use vstd::prelude::*;

verus! {

/// Frame terminator of the version-1 protocol.
pub const FRAME_END_V1: u8 = 0xFF;

/// Escape byte of the version-1 protocol.
pub const ESCAPE_V1: u8 = 0xFE;

/// Frame-start byte of the version-2 (SLIP-like) protocol.
pub const SLIP_START: u8 = 0xAB;

/// Frame-end byte of the version-2 (SLIP-like) protocol.
pub const SLIP_END: u8 = 0xBC;

/// Escape byte of the version-2 (SLIP-like) protocol.
pub const SLIP_ESC: u8 = 0xCD;

/// Mathematical state of a byte decoder: the bytes accumulated so far,
/// whether the next byte is escaped, and whether a frame has just completed.
pub ghost struct DecoderModel {
    pub buffer: Seq<u8>,
    pub escaped: bool,
    pub complete: bool,
}

/// The value an escaped byte contributes to the frame: `byte + 1`, wrapping.
pub open spec fn unescaped(byte: u8) -> u8 {
    if byte == 0xFF {
        0
    } else {
        (byte + 1) as u8
    }
}

/// One step of the version-1 decoder on `byte`: the next state and the
/// emitted frame, if any.
pub open spec fn v1_step(s: DecoderModel, byte: u8) -> (DecoderModel, Option<Seq<u8>>) {
    let s0 = if s.complete {
        DecoderModel { buffer: Seq::empty(), escaped: false, complete: false }
    } else {
        s
    };
    if byte == FRAME_END_V1 {
        let out = if s0.buffer.len() > 4 {
            Some(s0.buffer)
        } else {
            None::<Seq<u8>>
        };
        (DecoderModel { complete: true, ..s0 }, out)
    } else if s0.escaped {
        (DecoderModel { buffer: s0.buffer.push(unescaped(byte)), escaped: false, ..s0 }, None)
    } else if byte == ESCAPE_V1 {
        (DecoderModel { escaped: true, ..s0 }, None)
    } else {
        (DecoderModel { buffer: s0.buffer.push(byte), ..s0 }, None)
    }
}

/// One step of the version-2 decoder on `byte`.
pub open spec fn v2_step(s: DecoderModel, byte: u8) -> (DecoderModel, Option<Seq<u8>>) {
    if byte == SLIP_START {
        (DecoderModel { buffer: Seq::empty(), complete: false, ..s }, None)
    } else if byte == SLIP_END {
        if !s.complete && s.buffer.len() >= 4 {
            (DecoderModel { complete: true, ..s }, Some(s.buffer))
        } else {
            (DecoderModel { complete: true, ..s }, None)
        }
    } else if s.complete {
        (s, None)
    } else if byte == SLIP_ESC {
        (DecoderModel { escaped: true, ..s }, None)
    } else if s.escaped {
        (DecoderModel { buffer: s.buffer.push(unescaped(byte)), escaped: false, ..s }, None)
    } else {
        (DecoderModel { buffer: s.buffer.push(byte), ..s }, None)
    }
}

/// One step of either decoder, selected by protocol version.
pub open spec fn dec_step(v1: bool, s: DecoderModel, byte: u8) -> (DecoderModel, Option<Seq<u8>>) {
    if v1 {
        v1_step(s, byte)
    } else {
        v2_step(s, byte)
    }
}

/// Run a decoder over a whole input: the final state and the frames
/// emitted along the way, in order.
pub open spec fn dec_run(v1: bool, s: DecoderModel, input: Seq<u8>) -> (DecoderModel, Seq<Seq<u8>>)
    decreases input.len(),
{
    if input.len() == 0 {
        (s, Seq::empty())
    } else {
        let stepped = dec_step(v1, s, input[0]);
        let rest = dec_run(v1, stepped.0, input.drop_first());
        let frames = match stepped.1 {
            Some(f) => seq![f] + rest.1,
            None => rest.1,
        };
        (rest.0, frames)
    }
}

/// Run the version-2 decoder over a whole input.
pub open spec fn v2_run(s: DecoderModel, input: Seq<u8>) -> (DecoderModel, Seq<Seq<u8>>) {
    dec_run(false, s, input)
}

/// The escaped form of one payload byte on the version-2 wire: reserved
/// bytes travel as the escape byte followed by their predecessor.
pub open spec fn slip_escape_byte(b: u8) -> Seq<u8> {
    if b == SLIP_START || b == SLIP_END || b == SLIP_ESC {
        seq![SLIP_ESC, (b - 1) as u8]
    } else {
        seq![b]
    }
}

/// The escaped form of a whole payload on the version-2 wire.
pub open spec fn slip_escape(payload: Seq<u8>) -> Seq<u8>
    decreases payload.len(),
{
    if payload.len() == 0 {
        Seq::empty()
    } else {
        slip_escape_byte(payload[0]) + slip_escape(payload.drop_first())
    }
}

/// The version-2 framing of a payload: start byte, escaped payload, end byte.
pub open spec fn slip_frame(payload: Seq<u8>) -> Seq<u8> {
    seq![SLIP_START] + slip_escape(payload) + seq![SLIP_END]
}

/// Running a decoder over a single byte is one step.
pub proof fn lemma_dec_run_one(v1: bool, s: DecoderModel, b: u8)
    ensures
        dec_run(v1, s, seq![b]).0 == dec_step(v1, s, b).0,
        dec_run(v1, s, seq![b]).1 == (match dec_step(v1, s, b).1 {
            Some(f) => seq![f],
            None => Seq::<Seq<u8>>::empty(),
        }),
{
    let input = seq![b];
    assert(input[0] == b);
    assert(input.drop_first() =~= Seq::<u8>::empty());
    let stepped = dec_step(v1, s, b);
    assert(dec_run(v1, stepped.0, Seq::<u8>::empty()).0 == stepped.0);
    assert(dec_run(v1, stepped.0, Seq::<u8>::empty()).1 =~= Seq::<Seq<u8>>::empty());
    match stepped.1 {
        Some(f) => {
            assert(dec_run(v1, s, input).1 =~= seq![f]);
        },
        None => {
            assert(dec_run(v1, s, input).1 =~= Seq::<Seq<u8>>::empty());
        },
    }
}

/// Running a decoder over `a + b` is running it over `a`, then over `b`.
pub proof fn lemma_dec_run_append(v1: bool, s: DecoderModel, a: Seq<u8>, b: Seq<u8>)
    ensures
        dec_run(v1, s, a + b).0 == dec_run(v1, dec_run(v1, s, a).0, b).0,
        dec_run(v1, s, a + b).1 == dec_run(v1, s, a).1 + dec_run(v1, dec_run(v1, s, a).0, b).1,
    decreases a.len(),
{
    if a.len() == 0 {
        assert(a + b =~= b);
        assert(dec_run(v1, s, a).1 + dec_run(v1, dec_run(v1, s, a).0, b).1 =~= dec_run(
            v1,
            dec_run(v1, s, a).0,
            b,
        ).1);
    } else {
        let stepped = dec_step(v1, s, a[0]);
        assert((a + b).drop_first() =~= a.drop_first() + b);
        lemma_dec_run_append(v1, stepped.0, a.drop_first(), b);
        match stepped.1 {
            Some(f) => {
                assert(dec_run(v1, s, a + b).1 =~= dec_run(v1, s, a).1 + dec_run(
                    v1,
                    dec_run(v1, s, a).0,
                    b,
                ).1);
            },
            None => {},
        }
    }
}

/// Feeding an escaped payload to a decoder that is mid-frame appends the
/// payload, unchanged, to the frame buffer, and emits nothing.
pub proof fn lemma_v2_escape_appends(s: DecoderModel, payload: Seq<u8>)
    requires
        !s.escaped,
        !s.complete,
    ensures
        v2_run(s, slip_escape(payload)).0 == (DecoderModel {
            buffer: s.buffer + payload,
            escaped: false,
            complete: false,
        }),
        v2_run(s, slip_escape(payload)).1 == Seq::<Seq<u8>>::empty(),
    decreases payload.len(),
{
    if payload.len() == 0 {
        assert(s.buffer + payload =~= s.buffer);
    } else {
        let b = payload[0];
        let after = DecoderModel { buffer: s.buffer.push(b), escaped: false, complete: false };
        lemma_dec_run_append(false, s, slip_escape_byte(b), slip_escape(payload.drop_first()));
        if b == SLIP_START || b == SLIP_END || b == SLIP_ESC {
            let e = (b - 1) as u8;
            assert(slip_escape_byte(b) =~= seq![SLIP_ESC] + seq![e]);
            lemma_dec_run_append(false, s, seq![SLIP_ESC], seq![e]);
            lemma_dec_run_one(false, s, SLIP_ESC);
            let mid = v2_step(s, SLIP_ESC).0;
            lemma_dec_run_one(false, mid, e);
            assert(v2_step(mid, e).0 == after);
            assert(v2_run(s, slip_escape_byte(b)).0 == after);
            assert(v2_run(s, slip_escape_byte(b)).1 =~= Seq::<Seq<u8>>::empty());
        } else {
            lemma_dec_run_one(false, s, b);
            assert(v2_run(s, slip_escape_byte(b)).0 == after);
            assert(v2_run(s, slip_escape_byte(b)).1 =~= Seq::<Seq<u8>>::empty());
        }
        lemma_v2_escape_appends(after, payload.drop_first());
        assert(s.buffer.push(b) + payload.drop_first() =~= s.buffer + payload);
        assert(v2_run(s, slip_escape(payload)).1 =~= Seq::<Seq<u8>>::empty());
    }
}

/// A correctly escaped version-2 frame reproduces exactly its payload:
/// whatever the decoder held before (so long as no escape was pending), a
/// start byte, the escaped payload, and an end byte emit that payload as
/// the one frame, provided the payload is at least 4 bytes long.
pub proof fn lemma_v2_frame_round_trip(s: DecoderModel, payload: Seq<u8>)
    requires
        !s.escaped,
        payload.len() >= 4,
    ensures
        v2_run(s, slip_frame(payload)).1 == seq![payload],
{
    let started = v2_step(s, SLIP_START).0;
    lemma_dec_run_one(false, s, SLIP_START);
    lemma_dec_run_append(false, s, seq![SLIP_START], slip_escape(payload) + seq![SLIP_END]);
    assert(seq![SLIP_START] + (slip_escape(payload) + seq![SLIP_END]) =~= slip_frame(payload));
    lemma_dec_run_append(false, started, slip_escape(payload), seq![SLIP_END]);
    lemma_v2_escape_appends(started, payload);
    let loaded = v2_run(started, slip_escape(payload)).0;
    assert(started.buffer =~= Seq::<u8>::empty());
    assert(loaded.buffer =~= payload);
    lemma_dec_run_one(false, loaded, SLIP_END);
    assert(v2_run(loaded, seq![SLIP_END]).1 =~= seq![payload]);
    assert(v2_run(s, slip_frame(payload)).1 =~= seq![payload]);
}


/// The escaped form of one payload byte on the version-1 wire: the
/// terminator and escape bytes travel as the escape byte followed by
/// their predecessor.
pub open spec fn v1_escape_byte(b: u8) -> Seq<u8> {
    if b == FRAME_END_V1 || b == ESCAPE_V1 {
        seq![ESCAPE_V1, (b - 1) as u8]
    } else {
        seq![b]
    }
}

/// The escaped form of a whole payload on the version-1 wire.
pub open spec fn v1_escape(payload: Seq<u8>) -> Seq<u8>
    decreases payload.len(),
{
    if payload.len() == 0 {
        Seq::empty()
    } else {
        v1_escape_byte(payload[0]) + v1_escape(payload.drop_first())
    }
}

/// The version-1 framing of a payload: the escaped payload and the
/// terminator.
pub open spec fn v1_frame(payload: Seq<u8>) -> Seq<u8> {
    v1_escape(payload) + seq![FRAME_END_V1]
}

/// Feeding an escaped payload to a version-1 decoder that is mid-frame
/// appends the payload, unchanged, to the frame buffer, and emits
/// nothing.
pub proof fn lemma_v1_escape_appends(s: DecoderModel, payload: Seq<u8>)
    requires
        !s.escaped,
        !s.complete,
    ensures
        dec_run(true, s, v1_escape(payload)).0 == (DecoderModel {
            buffer: s.buffer + payload,
            escaped: false,
            complete: false,
        }),
        dec_run(true, s, v1_escape(payload)).1 == Seq::<Seq<u8>>::empty(),
    decreases payload.len(),
{
    if payload.len() == 0 {
        assert(s.buffer + payload =~= s.buffer);
    } else {
        let b = payload[0];
        let after = DecoderModel { buffer: s.buffer.push(b), escaped: false, complete: false };
        lemma_dec_run_append(true, s, v1_escape_byte(b), v1_escape(payload.drop_first()));
        if b == FRAME_END_V1 || b == ESCAPE_V1 {
            let e = (b - 1) as u8;
            assert(v1_escape_byte(b) =~= seq![ESCAPE_V1] + seq![e]);
            lemma_dec_run_append(true, s, seq![ESCAPE_V1], seq![e]);
            lemma_dec_run_one(true, s, ESCAPE_V1);
            let mid = v1_step(s, ESCAPE_V1).0;
            lemma_dec_run_one(true, mid, e);
            assert(v1_step(mid, e).0 == after);
            assert(dec_run(true, s, v1_escape_byte(b)).0 == after);
            assert(dec_run(true, s, v1_escape_byte(b)).1 =~= Seq::<Seq<u8>>::empty());
        } else {
            lemma_dec_run_one(true, s, b);
            assert(dec_run(true, s, v1_escape_byte(b)).0 == after);
            assert(dec_run(true, s, v1_escape_byte(b)).1 =~= Seq::<Seq<u8>>::empty());
        }
        lemma_v1_escape_appends(after, payload.drop_first());
        assert(s.buffer.push(b) + payload.drop_first() =~= s.buffer + payload);
        assert(dec_run(true, s, v1_escape(payload)).1 =~= Seq::<Seq<u8>>::empty());
    }
}

/// A correctly escaped version-1 frame reproduces exactly its payload,
/// emitted at the terminator iff it is longer than 4 bytes: the frame
/// rule of the version-1 wire.
pub proof fn lemma_v1_frame_round_trip(s: DecoderModel, payload: Seq<u8>)
    requires
        s.buffer =~= Seq::<u8>::empty(),
        !s.escaped,
        !s.complete,
    ensures
        dec_run(true, s, v1_frame(payload)).1 == (if payload.len() > 4 {
            seq![payload]
        } else {
            Seq::<Seq<u8>>::empty()
        }),
{
    lemma_dec_run_append(true, s, v1_escape(payload), seq![FRAME_END_V1]);
    lemma_v1_escape_appends(s, payload);
    let loaded = dec_run(true, s, v1_escape(payload)).0;
    assert(loaded.buffer =~= payload);
    lemma_dec_run_one(true, loaded, FRAME_END_V1);
    if payload.len() > 4 {
        assert(dec_run(true, loaded, seq![FRAME_END_V1]).1 =~= seq![payload]);
        assert(dec_run(true, s, v1_frame(payload)).1 =~= seq![payload]);
    } else {
        assert(dec_run(true, s, v1_frame(payload)).1 =~= Seq::<Seq<u8>>::empty());
    }
}

/// Decoder for the version-1 wire protocol.
pub struct SerialDecoderV1 {
    pub buffer: Vec<u8>,
    pub next_char_escaped: bool,
    pub complete: bool,
}

impl SerialDecoderV1 {
    /// The decoder state as a mathematical value.
    pub open spec fn model(&self) -> DecoderModel {
        DecoderModel {
            buffer: self.buffer@,
            escaped: self.next_char_escaped,
            complete: self.complete,
        }
    }

    /// A fresh decoder: empty buffer, no pending escape, no completed frame.
    pub fn new() -> (d: SerialDecoderV1)
        ensures
            d.model() == (DecoderModel { buffer: Seq::<u8>::empty(), escaped: false, complete: false }),
    {
        SerialDecoderV1 { buffer: Vec::new(), next_char_escaped: false, complete: false }
    }

    /// Consume one byte; return the completed frame, if this byte ends one.
    pub fn next(&mut self, byte: u8) -> (r: Option<Vec<u8>>)
        ensures
            final(self).model() == v1_step(old(self).model(), byte).0,
            (match r {
                Some(frame) => v1_step(old(self).model(), byte).1 == Some(frame@),
                None => v1_step(old(self).model(), byte).1 is None,
            }),
    {
        if self.complete {
            self.buffer.clear();
            self.next_char_escaped = false;
            self.complete = false;
        }

        if byte == FRAME_END_V1 {
            self.complete = true;
            if self.buffer.len() > 4 {
                return Some(self.buffer.clone());
            } else {
                return None;
            }
        }

        if self.next_char_escaped {
            self.buffer.push(byte.wrapping_add(1));
            self.next_char_escaped = false;
        } else if byte == ESCAPE_V1 {
            self.next_char_escaped = true;
        } else {
            self.buffer.push(byte);
        }

        None
    }
}

/// Decoder for the version-2 (SLIP-like) wire protocol.
pub struct SerialDecoderV2 {
    pub buffer: Vec<u8>,
    pub next_char_escaped: bool,
    pub complete: bool,
}

impl SerialDecoderV2 {
    /// The decoder state as a mathematical value.
    pub open spec fn model(&self) -> DecoderModel {
        DecoderModel {
            buffer: self.buffer@,
            escaped: self.next_char_escaped,
            complete: self.complete,
        }
    }

    /// A fresh decoder: empty buffer, no pending escape, no completed frame.
    pub fn new() -> (d: SerialDecoderV2)
        ensures
            d.model() == (DecoderModel { buffer: Seq::<u8>::empty(), escaped: false, complete: false }),
    {
        SerialDecoderV2 { buffer: Vec::new(), next_char_escaped: false, complete: false }
    }

    /// Consume one byte; return the completed frame, if this byte ends one.
    pub fn next(&mut self, byte: u8) -> (r: Option<Vec<u8>>)
        ensures
            final(self).model() == v2_step(old(self).model(), byte).0,
            (match r {
                Some(frame) => v2_step(old(self).model(), byte).1 == Some(frame@),
                None => v2_step(old(self).model(), byte).1 is None,
            }),
    {
        if byte == SLIP_START {
            self.complete = false;
            self.buffer.clear();
            return None;
        } else if byte == SLIP_END {
            if !self.complete && self.buffer.len() >= 4 {
                self.complete = true;
                return Some(self.buffer.clone());
            }
            self.complete = true;
            return None;
        }

        if self.complete {
            // Between a frame end and the next frame start: discard.
            return None;
        }

        if byte == SLIP_ESC {
            self.next_char_escaped = true;
        } else if self.next_char_escaped {
            self.buffer.push(byte.wrapping_add(1));
            self.next_char_escaped = false;
        } else {
            self.buffer.push(byte);
        }

        None
    }
}

/// A decoder of either protocol version.
pub enum SerialDecoder {
    V1(SerialDecoderV1),
    V2(SerialDecoderV2),
}

impl SerialDecoder {
    /// The state of the underlying decoder.
    pub open spec fn model(&self) -> DecoderModel {
        match self {
            SerialDecoder::V1(d) => d.model(),
            SerialDecoder::V2(d) => d.model(),
        }
    }

    /// One step of whichever protocol this decoder speaks.
    pub open spec fn step(&self, byte: u8) -> (DecoderModel, Option<Seq<u8>>) {
        match self {
            SerialDecoder::V1(d) => v1_step(d.model(), byte),
            SerialDecoder::V2(d) => v2_step(d.model(), byte),
        }
    }

    /// A fresh decoder for the given protocol version.
    pub fn new(version: usize) -> (d: SerialDecoder)
        requires
            version == 1 || version == 2,
        ensures
            d.model() == (DecoderModel { buffer: Seq::<u8>::empty(), escaped: false, complete: false }),
            version == 1 ==> d is V1,
            version == 2 ==> d is V2,
    {
        if version == 1 {
            SerialDecoder::V1(SerialDecoderV1::new())
        } else {
            SerialDecoder::V2(SerialDecoderV2::new())
        }
    }

    /// Consume one byte; return the completed frame, if this byte ends one.
    pub fn next(&mut self, byte: u8) -> (r: Option<Vec<u8>>)
        ensures
            final(self).model() == old(self).step(byte).0,
            (*final(self)) is V1 <==> (*old(self)) is V1,
            (match r {
                Some(frame) => old(self).step(byte).1 == Some(frame@),
                None => old(self).step(byte).1 is None,
            }),
    {
        match self {
            SerialDecoder::V1(d) => d.next(byte),
            SerialDecoder::V2(d) => d.next(byte),
        }
    }
}

} // verus!

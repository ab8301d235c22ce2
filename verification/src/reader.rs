//! The gateway's byte-stream reader: frames the raw serial bytes with the
//! configured protocol decoder and parses each completed frame into a
//! beacon packet. Reading from the port and forwarding the packets stay
//! with the caller; this module is the pure byte-to-record pipeline.

use vstd::prelude::*;
use crate::decoder::{
    dec_run, lemma_dec_run_append, lemma_dec_run_one, DecoderModel, SerialDecoder,
};
use crate::packet::{accepts, parsed_record, BeaconPacket, BeaconPacketParser, BeaconRecord};

verus! {

/// The records a parser reads out of a sequence of frames, in order,
/// frames it does not accept skipped.
pub open spec fn parsed_records(
    min_length: int,
    header: Seq<u8>,
    header_start: int,
    frames: Seq<Seq<u8>>,
) -> Seq<BeaconRecord>
    decreases frames.len(),
{
    if frames.len() == 0 {
        Seq::empty()
    } else {
        let rest = parsed_records(min_length, header, header_start, frames.drop_first());
        if accepts(min_length, header, header_start, frames[0]) {
            seq![parsed_record(header.len() as int, header_start, frames[0])] + rest
        } else {
            rest
        }
    }
}

/// Parsing `frames + [f]` parses `frames`, then `f`.
pub proof fn lemma_parsed_records_append_one(
    min_length: int,
    header: Seq<u8>,
    header_start: int,
    frames: Seq<Seq<u8>>,
    f: Seq<u8>,
)
    ensures
        parsed_records(min_length, header, header_start, frames.push(f)) == parsed_records(
            min_length,
            header,
            header_start,
            frames,
        ) + (if accepts(min_length, header, header_start, f) {
            seq![parsed_record(header.len() as int, header_start, f)]
        } else {
            Seq::<BeaconRecord>::empty()
        }),
    decreases frames.len(),
{
    if frames.len() == 0 {
        assert(frames.push(f)[0] == f);
        assert(frames.push(f).drop_first() =~= Seq::<Seq<u8>>::empty());
        assert(parsed_records(min_length, header, header_start, Seq::<Seq<u8>>::empty())
            =~= Seq::<BeaconRecord>::empty());
        if accepts(min_length, header, header_start, f) {
            assert(parsed_records(min_length, header, header_start, frames.push(f)) =~= seq![
                parsed_record(header.len() as int, header_start, f),
            ]);
            assert(parsed_records(min_length, header, header_start, frames) + seq![
                parsed_record(header.len() as int, header_start, f),
            ] =~= seq![parsed_record(header.len() as int, header_start, f)]);
        } else {
            assert(parsed_records(min_length, header, header_start, frames.push(f))
                =~= Seq::<BeaconRecord>::empty());
            assert(parsed_records(min_length, header, header_start, frames)
                + Seq::<BeaconRecord>::empty() =~= Seq::<BeaconRecord>::empty());
        }
    } else {
        assert(frames.push(f)[0] == frames[0]);
        assert(frames.push(f).drop_first() =~= frames.drop_first().push(f));
        lemma_parsed_records_append_one(min_length, header, header_start, frames.drop_first(), f);
        let head = if accepts(min_length, header, header_start, frames[0]) {
            seq![parsed_record(header.len() as int, header_start, frames[0])]
        } else {
            Seq::<BeaconRecord>::empty()
        };
        let tail_new = if accepts(min_length, header, header_start, f) {
            seq![parsed_record(header.len() as int, header_start, f)]
        } else {
            Seq::<BeaconRecord>::empty()
        };
        assert(head + (parsed_records(min_length, header, header_start, frames.drop_first())
            + tail_new) =~= (head + parsed_records(
            min_length,
            header,
            header_start,
            frames.drop_first(),
        )) + tail_new);
        assert(head + parsed_records(min_length, header, header_start, frames.drop_first())
            =~= parsed_records(min_length, header, header_start, frames));
    }
}

/// A byte-stream reader: a protocol decoder and the matching beacon parser.
pub struct SerialReader {
    pub decoder: SerialDecoder,
    pub parser: BeaconPacketParser,
}

impl SerialReader {
    /// Which protocol this reader speaks.
    pub open spec fn is_v1(&self) -> bool {
        self.decoder is V1
    }

    /// A reader for the given protocol version: a fresh decoder, and the
    /// record layout that version uses.
    pub fn new(version: usize) -> (r: SerialReader)
        requires
            version == 1 || version == 2,
        ensures
            r.decoder.model() == (DecoderModel {
                buffer: Seq::<u8>::empty(),
                escaped: false,
                complete: false,
            }),
            r.is_v1() <==> version == 1,
            r.parser.header@ == seq![0x0cu8, 0xffu8, 0x00u8, 0x00u8],
            version == 1 ==> r.parser.min_length == 0x18usize && r.parser.header_start == 0x0Busize,
            version == 2 ==> r.parser.min_length == 0x29usize && r.parser.header_start == 0x1Dusize,
    {
        let mut header: Vec<u8> = Vec::new();
        header.push(0x0c);
        header.push(0xff);
        header.push(0x00);
        header.push(0x00);
        assert(header@ =~= seq![0x0cu8, 0xffu8, 0x00u8, 0x00u8]);

        let parser = if version == 1 {
            BeaconPacketParser { min_length: 0x18, header, header_start: 0x0B }
        } else {
            BeaconPacketParser { min_length: 0x29, header, header_start: 0x1D }
        };

        SerialReader { decoder: SerialDecoder::new(version), parser }
    }

    /// Feed a chunk of raw bytes through the decoder and parse every frame
    /// it completes: the returned packets carry exactly the records of the
    /// accepted frames, in order. Their reception times come from the
    /// wall clock and are not pinned here.
    pub fn parse_packets(&mut self, bytes: &[u8]) -> (packets: Vec<BeaconPacket>)
        ensures
            final(self).parser == old(self).parser,
            final(self).is_v1() == old(self).is_v1(),
            final(self).decoder.model() == dec_run(
                old(self).is_v1(),
                old(self).decoder.model(),
                bytes@,
            ).0,
            packets@.map_values(|p: BeaconPacket| p.record()) == parsed_records(
                old(self).parser.min_length as int,
                old(self).parser.header@,
                old(self).parser.header_start as int,
                dec_run(old(self).is_v1(), old(self).decoder.model(), bytes@).1,
            ),
    {
        let ghost v1 = self.is_v1();
        let ghost m0 = self.decoder.model();
        let ghost parser0 = self.parser;
        let ghost ml = self.parser.min_length as int;
        let ghost hdr = self.parser.header@;
        let ghost hs = self.parser.header_start as int;

        let mut packets: Vec<BeaconPacket> = Vec::new();
        let mut i: usize = 0;

        proof {
            assert(bytes@.subrange(0, 0) =~= Seq::<u8>::empty());
            assert(packets@.map_values(|p: BeaconPacket| p.record()) =~= Seq::<
                BeaconRecord,
            >::empty());
        }

        while i < bytes.len()
            invariant
                i <= bytes@.len(),
                self.parser == parser0,
                ml == parser0.min_length as int,
                hdr == parser0.header@,
                hs == parser0.header_start as int,
                self.is_v1() == v1,
                self.decoder.model() == dec_run(v1, m0, bytes@.subrange(0, i as int)).0,
                packets@.map_values(|p: BeaconPacket| p.record()) == parsed_records(
                    ml,
                    hdr,
                    hs,
                    dec_run(v1, m0, bytes@.subrange(0, i as int)).1,
                ),
            decreases bytes@.len() - i,
        {
            let byte = bytes[i];
            let ghost prefix = bytes@.subrange(0, i as int);
            let ghost state = self.decoder.model();

            let frame_opt = self.decoder.next(byte);

            proof {
                assert(bytes@.subrange(0, i + 1) =~= prefix + seq![byte]);
                lemma_dec_run_append(v1, m0, prefix, seq![byte]);
                lemma_dec_run_one(v1, state, byte);
            }

            if let Some(frame) = frame_opt {
                let record_opt = self.parser.parse_packet(frame.as_slice());
                proof {
                    lemma_parsed_records_append_one(ml, hdr, hs, dec_run(v1, m0, prefix).1, frame@);
                    assert(dec_run(v1, m0, bytes@.subrange(0, i + 1)).1 =~= dec_run(
                        v1,
                        m0,
                        prefix,
                    ).1.push(frame@));
                }
                if let Some(p) = record_opt {
                    let ghost before = packets@;
                    packets.push(p);
                    proof {
                        assert(packets@.map_values(|q: BeaconPacket| q.record()) =~= before
                            .map_values(|q: BeaconPacket| q.record()).push(p.record()));
                        assert(parsed_records(ml, hdr, hs, dec_run(v1, m0, prefix).1) + seq![
                            parsed_record(hdr.len() as int, hs, frame@),
                        ] =~= parsed_records(ml, hdr, hs, dec_run(v1, m0, prefix).1).push(
                            parsed_record(hdr.len() as int, hs, frame@),
                        ));
                    }
                } else {
                    proof {
                        assert(parsed_records(ml, hdr, hs, dec_run(v1, m0, prefix).1)
                            + Seq::<BeaconRecord>::empty() =~= parsed_records(
                            ml,
                            hdr,
                            hs,
                            dec_run(v1, m0, prefix).1,
                        ));
                    }
                }
            } else {
                proof {
                    assert(dec_run(v1, m0, bytes@.subrange(0, i + 1)).1 =~= dec_run(
                        v1,
                        m0,
                        prefix,
                    ).1);
                }
            }

            i += 1;
        }

        proof {
            assert(bytes@.subrange(0, bytes@.len() as int) =~= bytes@);
        }
        packets
    }
}

} // verus!

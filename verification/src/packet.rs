//! Beacon-record parsing out of decoded gateway frames.
//!
//! A frame carries a beacon advertisement. The parser accepts a frame iff
//! it is long enough and carries the fixed four-byte advertisement header
//! at the configured offset; the record body follows the header, with the
//! mac address stored in reverse byte order on the wire.

use vstd::prelude::*;
use crate::util::time_now_ms;

verus! {

/// A beacon advertisement as received by a gateway: reception time in
/// milliseconds since the epoch, beacon mac address, received signal
/// strength, and the beacon's sequence and session counters.
#[derive(Debug, Clone, Copy)]
pub struct BeaconPacket {
    pub time: u64,
    pub mac: [u8; 6],
    pub rssi: i8,
    pub sequence: u8,
    pub session: u8,
}

impl PartialEq for BeaconPacket {
    fn eq(&self, other: &BeaconPacket) -> (r: bool) {
        self.time == other.time && self.mac[0] == other.mac[0] && self.mac[1] == other.mac[1]
            && self.mac[2] == other.mac[2] && self.mac[3] == other.mac[3]
            && self.mac[4] == other.mac[4] && self.mac[5] == other.mac[5]
            && self.rssi == other.rssi && self.sequence == other.sequence
            && self.session == other.session
    }
}

impl Eq for BeaconPacket {

}

impl vstd::std_specs::cmp::PartialEqSpecImpl for BeaconPacket {
    open spec fn obeys_eq_spec() -> bool {
        true
    }

    open spec fn eq_spec(&self, other: &BeaconPacket) -> bool {
        self.time == other.time && self.mac@ =~= other.mac@ && self.rssi == other.rssi
            && self.sequence == other.sequence && self.session == other.session
    }
}

/// The time-independent part of a parsed beacon packet.
pub ghost struct BeaconRecord {
    pub mac: Seq<u8>,
    pub rssi: i8,
    pub sequence: u8,
    pub session: u8,
}

impl BeaconPacket {
    /// The packet's fields apart from the reception time.
    pub open spec fn record(&self) -> BeaconRecord {
        BeaconRecord {
            mac: self.mac@,
            rssi: self.rssi,
            sequence: self.sequence,
            session: self.session,
        }
    }
}

/// Whether a parser configured with `min_length`, `header` at
/// `header_start` accepts `frame`: long enough both for the configured
/// minimum and for a full record body, with the header in place.
pub open spec fn accepts(
    min_length: int,
    header: Seq<u8>,
    header_start: int,
    frame: Seq<u8>,
) -> bool {
    &&& frame.len() >= min_length
    &&& frame.len() >= header_start + header.len() + 9
    &&& frame.subrange(header_start, header_start + header.len()) == header
}

/// The record parsed out of an accepted frame: the body follows the
/// header, the mac is its first six bytes reversed, then signal strength,
/// sequence and session.
pub open spec fn parsed_record(header_len: int, header_start: int, frame: Seq<u8>) -> BeaconRecord {
    let body = frame.skip(header_start + header_len);
    BeaconRecord {
        mac: seq![body[5], body[4], body[3], body[2], body[1], body[0]],
        rssi: body[6] as i8,
        sequence: body[7],
        session: body[8],
    }
}

/// Parser for the beacon-record layout inside a decoded frame. The two
/// wire protocols lay the record out at different offsets.
pub struct BeaconPacketParser {
    pub min_length: usize,
    pub header: Vec<u8>,
    pub header_start: usize,
}

impl BeaconPacketParser {
    /// Whether this parser accepts `frame`.
    pub open spec fn spec_accepts(&self, frame: Seq<u8>) -> bool {
        accepts(self.min_length as int, self.header@, self.header_start as int, frame)
    }

    /// The record this parser reads out of an accepted `frame`.
    pub open spec fn spec_record(&self, frame: Seq<u8>) -> BeaconRecord {
        parsed_record(self.header@.len() as int, self.header_start as int, frame)
    }

    /// Parse a frame into a packet stamped `time`: a packet comes back iff
    /// the frame is accepted, and its fields are exactly the parsed record.
    pub fn parse_packet_at(&self, packet: &[u8], time: u64) -> (r: Option<BeaconPacket>)
        ensures
            r is Some <==> self.spec_accepts(packet@),
            (match r {
                Some(p) => p.time == time && p.record() == self.spec_record(packet@),
                None => true,
            }),
    {
        if packet.len() < self.min_length {
            return None;
        }

        let hs = self.header_start;
        let hl = self.header.len();
        if hs > packet.len() || hl > packet.len() - hs || 9 > packet.len() - hs - hl {
            return None;
        }

        let mut i: usize = 0;
        while i < hl
            invariant
                i <= hl,
                hs == self.header_start,
                hl == self.header@.len(),
                hs + hl + 9 <= packet@.len(),
                packet@.len() <= usize::MAX,
                forall|j: int| 0 <= j < i ==> packet@[hs + j] == self.header@[j],
            decreases hl - i,
        {
            if packet[hs + i] != self.header[i] {
                assert(packet@.subrange(hs as int, hs + hl)[i as int] != self.header@[i as int]);
                return None;
            }
            i += 1;
        }
        assert(packet@.subrange(hs as int, hs + hl) =~= self.header@);

        let body_start = hs + hl;
        let parsed = BeaconPacket {
            time,
            mac: [
                packet[body_start + 5],
                packet[body_start + 4],
                packet[body_start + 3],
                packet[body_start + 2],
                packet[body_start + 1],
                packet[body_start],
            ],
            rssi: #[verifier::truncate] (packet[body_start + 6] as i8),
            sequence: packet[body_start + 7],
            session: packet[body_start + 8],
        };
        proof {
            let body = packet@.skip(hs + hl);
            assert(body[5] == packet@[hs + hl + 5]);
            assert(parsed.record().mac =~= self.spec_record(packet@).mac);
        }
        Some(parsed)
    }

    /// Parse a frame into a packet stamped with the current wall-clock
    /// time. The reception time depends on the clock; everything else is
    /// pinned by the frame.
    pub fn parse_packet(&self, packet: &[u8]) -> (r: Option<BeaconPacket>)
        ensures
            r is Some <==> self.spec_accepts(packet@),
            (match r {
                Some(p) => p.record() == self.spec_record(packet@),
                None => true,
            }),
    {
        let time = time_now_ms();
        self.parse_packet_at(packet, time)
    }
}

} // verus!

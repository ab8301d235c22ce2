//! The JSON wire form of a beacon packet.
//!
//! Between gateway and server a packet travels as one JSON object per
//! line: `{"time":..,"mac":"..","rssi":..,"sequence":..,"session":..}`,
//! with the mac as 12 lowercase hex digits and the numbers in plain
//! decimal. The encoder emits exactly this canonical form; the parser
//! accepts exactly it, so that encoding and decoding are inverses.

use vstd::prelude::*;
use crate::digits::{
    all_hex_lower, dec_digits, dec_value, from_hex, hex_bytes, hex_of, is_dec, is_digit, is_hex,
    is_hex_lower, lemma_dec_digits_canonical, lemma_dec_digits_of_value,
    lemma_dec_value_of_digits, lemma_hex_bytes_even_len, lemma_hex_lower_canonical,
    lemma_hex_of_lower, lemma_hex_round_trip, lemma_scan_over_digits, parse_dec_u64, push_dec_u64,
    scan_num_end, to_hex,
};
use crate::packet::BeaconPacket;
use vstd::slice::slice_subrange;

verus! {

/// The bytes of `{"time":`.
pub open spec fn lit_time() -> Seq<u8> {
    seq![123u8, 34u8, 116u8, 105u8, 109u8, 101u8, 34u8, 58u8]
}

/// The bytes of `,"mac":"`.
pub open spec fn lit_mac() -> Seq<u8> {
    seq![44u8, 34u8, 109u8, 97u8, 99u8, 34u8, 58u8, 34u8]
}

/// The bytes of `","rssi":`.
pub open spec fn lit_rssi() -> Seq<u8> {
    seq![34u8, 44u8, 34u8, 114u8, 115u8, 115u8, 105u8, 34u8, 58u8]
}

/// The bytes of `,"sequence":`.
pub open spec fn lit_sequence() -> Seq<u8> {
    seq![44u8, 34u8, 115u8, 101u8, 113u8, 117u8, 101u8, 110u8, 99u8, 101u8, 34u8, 58u8]
}

/// The bytes of `,"session":`.
pub open spec fn lit_session() -> Seq<u8> {
    seq![44u8, 34u8, 115u8, 101u8, 115u8, 115u8, 105u8, 111u8, 110u8, 34u8, 58u8]
}

/// The decimal form of a possibly negative number: a minus sign and the
/// digits of the magnitude.
pub open spec fn int_digits(v: int) -> Seq<u8> {
    if v < 0 {
        seq![45u8] + dec_digits((-v) as nat)
    } else {
        dec_digits(v as nat)
    }
}

/// The canonical JSON bytes of a beacon packet.
pub open spec fn json_bytes(p: BeaconPacket) -> Seq<u8> {
    lit_time() + dec_digits(p.time as nat) + lit_mac() + hex_of(p.mac@) + lit_rssi() + int_digits(
        p.rssi as int,
    ) + lit_sequence() + dec_digits(p.sequence as nat) + lit_session() + dec_digits(
        p.session as nat,
    ) + seq![125u8]
}

/// Append a byte slice to a vector.
pub fn push_bytes(out: &mut Vec<u8>, bytes: &[u8])
    ensures
        final(out)@ == old(out)@ + bytes@,
{
    let mut i: usize = 0;
    proof {
        assert(out@ =~= old(out)@ + bytes@.subrange(0, 0));
    }
    while i < bytes.len()
        invariant
            i <= bytes@.len(),
            out@ == old(out)@ + bytes@.subrange(0, i as int),
        decreases bytes@.len() - i,
    {
        out.push(bytes[i]);
        proof {
            assert(old(out)@ + bytes@.subrange(0, i + 1) =~= (old(out)@ + bytes@.subrange(
                0,
                i as int,
            )).push(bytes@[i as int]));
        }
        i += 1;
    }
    proof {
        assert(bytes@.subrange(0, bytes@.len() as int) =~= bytes@);
    }
}

/// Whether `s` carries `lit` at position `at`.
pub fn starts_with_at(s: &[u8], at: usize, lit: &[u8]) -> (r: bool)
    requires
        at <= s@.len(),
    ensures
        r <==> at + lit@.len() <= s@.len() && s@.subrange(at as int, at + lit@.len()) == lit@,
{
    if lit.len() > s.len() - at {
        return false;
    }
    let mut i: usize = 0;
    while i < lit.len()
        invariant
            i <= lit@.len(),
            at + lit@.len() <= s@.len(),
            s@.len() <= usize::MAX,
            forall|j: int| 0 <= j < i ==> s@[at + j] == lit@[j],
        decreases lit@.len() - i,
    {
        if s[at + i] != lit[i] {
            assert(s@.subrange(at as int, at + lit@.len())[i as int] != lit@[i as int]);
            return false;
        }
        i += 1;
    }
    proof {
        assert(s@.subrange(at as int, at + lit@.len()) =~= lit@);
    }
    true
}

/// Encode a packet as its canonical JSON bytes.
pub fn encode_packet_json(p: &BeaconPacket) -> (r: Vec<u8>)
    ensures
        r@ == json_bytes(*p),
{
    let mut out: Vec<u8> = Vec::new();

    let l_time: [u8; 8] = [123, 34, 116, 105, 109, 101, 34, 58];
    let l_mac: [u8; 8] = [44, 34, 109, 97, 99, 34, 58, 34];
    let l_rssi: [u8; 9] = [34, 44, 34, 114, 115, 115, 105, 34, 58];
    let l_sequence: [u8; 12] = [44, 34, 115, 101, 113, 117, 101, 110, 99, 101, 34, 58];
    let l_session: [u8; 11] = [44, 34, 115, 101, 115, 115, 105, 111, 110, 34, 58];
    proof {
        assert(l_time@ =~= lit_time());
        assert(l_mac@ =~= lit_mac());
        assert(l_rssi@ =~= lit_rssi());
        assert(l_sequence@ =~= lit_sequence());
        assert(l_session@ =~= lit_session());
    }

    push_bytes(&mut out, &l_time);
    push_dec_u64(&mut out, p.time);
    push_bytes(&mut out, &l_mac);
    let mac_hex = to_hex(&p.mac);
    push_bytes(&mut out, mac_hex.as_slice());
    push_bytes(&mut out, &l_rssi);
    if p.rssi < 0 {
        out.push(45);
        push_dec_u64(&mut out, (-(p.rssi as i16)) as u64);
        proof {
            assert(seq![45u8] + dec_digits((-(p.rssi as int)) as nat) =~= int_digits(
                p.rssi as int,
            ));
        }
    } else {
        push_dec_u64(&mut out, p.rssi as u64);
    }
    push_bytes(&mut out, &l_sequence);
    push_dec_u64(&mut out, p.sequence as u64);
    push_bytes(&mut out, &l_session);
    push_dec_u64(&mut out, p.session as u64);
    out.push(125);

    proof {
        assert(out@ =~= json_bytes(*p));
    }
    out
}


/// The layout facts a canonical encoding forces on its bytes: every
/// literal sits where the parser looks for it, every digit run scans to
/// its own end, and every run decodes to the encoded field.
pub proof fn lemma_witness_parse(s: Seq<u8>, p: BeaconPacket)
    requires
        s == json_bytes(p),
    ensures
        s.len() >= 9,
        s.subrange(0, 8) == lit_time(),
        ({
            let c1 = scan_num_end(s, 8);
            let dstart = if p.rssi < 0 {
                c1 + 30
            } else {
                c1 + 29
            };
            let mag = if p.rssi < 0 {
                -(p.rssi as int)
            } else {
                p.rssi as int
            };
            let c2 = scan_num_end(s, dstart);
            let c3 = scan_num_end(s, c2 + 12);
            let c4 = scan_num_end(s, c3 + 11);
            &&& is_dec(s.subrange(8, c1))
            &&& dec_value(s.subrange(8, c1)) == p.time
            &&& c1 + 29 < s.len()
            &&& s.subrange(c1, c1 + 8) == lit_mac()
            &&& s.subrange(c1 + 8, c1 + 20) == hex_of(p.mac@)
            &&& all_hex_lower(s.subrange(c1 + 8, c1 + 20))
            &&& s.subrange(c1 + 20, c1 + 29) == lit_rssi()
            &&& (p.rssi < 0 <==> s[c1 + 29] == 45)
            &&& dstart < s.len()
            &&& is_dec(s.subrange(dstart, c2))
            &&& dec_value(s.subrange(dstart, c2)) == mag
            &&& c2 + 12 <= s.len()
            &&& s.subrange(c2, c2 + 12) == lit_sequence()
            &&& is_dec(s.subrange(c2 + 12, c3))
            &&& dec_value(s.subrange(c2 + 12, c3)) == p.sequence
            &&& c3 + 11 <= s.len()
            &&& s.subrange(c3, c3 + 11) == lit_session()
            &&& is_dec(s.subrange(c3 + 11, c4))
            &&& dec_value(s.subrange(c3 + 11, c4)) == p.session
            &&& s.len() == c4 + 1
            &&& s[c4] == 125
        }),
{
    let t = dec_digits(p.time as nat);
    let m = hex_of(p.mac@);
    let neg = p.rssi < 0;
    let mag: int = if neg {
        -(p.rssi as int)
    } else {
        p.rssi as int
    };
    let d = dec_digits(mag as nat);
    let sq = dec_digits(p.sequence as nat);
    let ss = dec_digits(p.session as nat);

    lemma_hex_round_trip(p.mac@);
    lemma_hex_of_lower(p.mac@);
    lemma_dec_digits_canonical(p.time as nat);
    lemma_dec_digits_canonical(mag as nat);
    lemma_dec_digits_canonical(p.sequence as nat);
    lemma_dec_digits_canonical(p.session as nat);
    lemma_dec_value_of_digits(p.time as nat);
    lemma_dec_value_of_digits(mag as nat);
    lemma_dec_value_of_digits(p.sequence as nat);
    lemma_dec_value_of_digits(p.session as nat);

    let a1 = 8 + t.len() as int;
    let a2 = a1 + 8;
    let a3 = a2 + 12;
    let a4 = a3 + 9;
    let ds = if neg {
        a4 + 1
    } else {
        a4
    };
    let a5 = ds + d.len() as int;
    let a6 = a5 + 12;
    let a7 = a6 + sq.len() as int;
    let a8 = a7 + 11;
    let a9 = a8 + ss.len() as int;

    assert(int_digits(p.rssi as int).len() == (if neg {
        1 + d.len() as int
    } else {
        d.len() as int
    }));
    assert(s.len() == a9 + 1);
    assert(s.subrange(0, 8) =~= lit_time());
    assert(s.subrange(8, a1) =~= t);
    assert(s.subrange(a1, a2) =~= lit_mac());
    assert(s.subrange(a2, a3) =~= m);
    assert(s.subrange(a3, a4) =~= lit_rssi());
    if neg {
        assert(s[a4] == int_digits(p.rssi as int)[0]);
        assert(int_digits(p.rssi as int)[0] == 45);
    }
    assert(s.subrange(ds, a5) =~= d);
    assert(s.subrange(a5, a6) =~= lit_sequence());
    assert(s.subrange(a6, a7) =~= sq);
    assert(s.subrange(a7, a8) =~= lit_session());
    assert(s.subrange(a8, a9) =~= ss);
    assert(s[a9] == 125);

    // The scans stop at the literal that follows each digit run.
    assert(s[a1] == 44);
    lemma_scan_over_digits(s, 8, t);
    assert(scan_num_end(s, 8) == a1);
    assert(s[a5] == 44);
    lemma_scan_over_digits(s, ds, d);
    assert(scan_num_end(s, ds) == a5);
    assert(s[a7] == 44);
    lemma_scan_over_digits(s, a6, sq);
    assert(scan_num_end(s, a6) == a7);
    lemma_scan_over_digits(s, a8, ss);
    assert(scan_num_end(s, a8) == a9);

    if !neg {
        assert(s[a4] == d[0]);
        assert(is_digit(d[0]));
        assert(s[a4] != 45);
    }
}


/// Putting a successful parse back together: bytes that pass every gate
/// of the parser are exactly the canonical encoding of the parsed packet,
/// and of no other.
#[verifier::rlimit(100)]
pub proof fn lemma_parse_assemble(
    s: Seq<u8>,
    q: BeaconPacket,
    c1: int,
    dstart: int,
    c2: int,
    c3: int,
    c4: int,
    neg: bool,
)
    requires
        8 <= c1 <= s.len(),
        s.subrange(0, 8) == lit_time(),
        c1 == scan_num_end(s, 8),
        is_dec(s.subrange(8, c1)),
        q.time == dec_value(s.subrange(8, c1)),
        c1 + 29 < s.len(),
        s.subrange(c1, c1 + 8) == lit_mac(),
        all_hex_lower(s.subrange(c1 + 8, c1 + 20)),
        hex_of(q.mac@) == s.subrange(c1 + 8, c1 + 20),
        q.mac@ == hex_bytes(s.subrange(c1 + 8, c1 + 20)),
        s.subrange(c1 + 20, c1 + 29) == lit_rssi(),
        neg == (s[c1 + 29] == 45),
        dstart == if neg {
            c1 + 30
        } else {
            c1 + 29
        },
        dstart <= c2 <= s.len(),
        c2 == scan_num_end(s, dstart),
        is_dec(s.subrange(dstart, c2)),
        neg ==> 1 <= dec_value(s.subrange(dstart, c2)) <= 128 && q.rssi as int == -dec_value(
            s.subrange(dstart, c2),
        ),
        !neg ==> dec_value(s.subrange(dstart, c2)) <= 127 && q.rssi as int == dec_value(
            s.subrange(dstart, c2),
        ),
        c2 + 12 <= s.len(),
        s.subrange(c2, c2 + 12) == lit_sequence(),
        c2 + 12 <= c3 <= s.len(),
        c3 == scan_num_end(s, c2 + 12),
        is_dec(s.subrange(c2 + 12, c3)),
        q.sequence == dec_value(s.subrange(c2 + 12, c3)),
        c3 + 11 <= s.len(),
        s.subrange(c3, c3 + 11) == lit_session(),
        c3 + 11 <= c4 <= s.len(),
        c4 == scan_num_end(s, c3 + 11),
        is_dec(s.subrange(c3 + 11, c4)),
        q.session == dec_value(s.subrange(c3 + 11, c4)),
        s.len() == c4 + 1,
        s[c4] == 125,
    ensures
        s == json_bytes(q),
        forall|p: BeaconPacket| s == json_bytes(p) ==> p == q,
{
    let run_time = s.subrange(8, c1);
    let run_rssi = s.subrange(dstart, c2);
    let run_seq = s.subrange(c2 + 12, c3);
    let run_sess = s.subrange(c3 + 11, c4);

    lemma_dec_digits_of_value(run_time);
    lemma_dec_digits_of_value(run_rssi);
    lemma_dec_digits_of_value(run_seq);
    lemma_dec_digits_of_value(run_sess);
    assert(dec_digits(q.time as nat) == run_time);
    if neg {
        assert(int_digits(q.rssi as int) =~= seq![45u8] + run_rssi);
        assert(s.subrange(c1 + 29, c2) =~= seq![45u8] + run_rssi);
    } else {
        assert(int_digits(q.rssi as int) == run_rssi);
    }
    assert(dec_digits(q.sequence as nat) == run_seq);
    assert(dec_digits(q.session as nat) == run_sess);

    assert(s =~= s.subrange(0, 8) + s.subrange(8, c1) + s.subrange(c1, c1 + 8) + s.subrange(
        c1 + 8,
        c1 + 20,
    ) + s.subrange(c1 + 20, c1 + 29) + s.subrange(c1 + 29, c2) + s.subrange(c2, c2 + 12)
        + s.subrange(c2 + 12, c3) + s.subrange(c3, c3 + 11) + s.subrange(c3 + 11, c4) + s.subrange(
        c4,
        c4 + 1,
    ));
    assert(s.subrange(c4, c4 + 1) =~= seq![125u8]);
    assert(s == json_bytes(q));

    assert forall|p: BeaconPacket| s == json_bytes(p) implies p == q by {
        lemma_witness_parse(s, p);
        assert(p.time == q.time);
        assert(hex_of(p.mac@) == s.subrange(c1 + 8, c1 + 20));
        lemma_hex_round_trip(p.mac@);
        assert(p.mac@ == hex_bytes(s.subrange(c1 + 8, c1 + 20)));
        assert(p.mac@ == q.mac@);
        vstd::array::axiom_array_ext_equal(p.mac, q.mac);
        assert(p.mac == q.mac);
        assert(p.rssi == q.rssi);
        assert(p.sequence == q.sequence);
        assert(p.session == q.session);
    }
}

/// Parse the canonical JSON bytes of a beacon packet: exactly the
/// encodings of `encode_packet_json` are accepted, and each decodes to
/// the packet that produced it.
#[verifier::rlimit(100)]
pub fn parse_packet_json(s: &[u8]) -> (r: Option<BeaconPacket>)
    ensures
        (match r {
            Some(q) => s@ == json_bytes(q),
            None => true,
        }),
        forall|p: BeaconPacket| s@ == json_bytes(p) ==> r == Some(p),
{
    let l_time: [u8; 8] = [123, 34, 116, 105, 109, 101, 34, 58];
    let l_mac: [u8; 8] = [44, 34, 109, 97, 99, 34, 58, 34];
    let l_rssi: [u8; 9] = [34, 44, 34, 114, 115, 115, 105, 34, 58];
    let l_sequence: [u8; 12] = [44, 34, 115, 101, 113, 117, 101, 110, 99, 101, 34, 58];
    let l_session: [u8; 11] = [44, 34, 115, 101, 115, 115, 105, 111, 110, 34, 58];
    proof {
        assert(l_time@ =~= lit_time());
        assert(l_mac@ =~= lit_mac());
        assert(l_rssi@ =~= lit_rssi());
        assert(l_sequence@ =~= lit_sequence());
        assert(l_session@ =~= lit_session());
    }

    if !starts_with_at(s, 0, &l_time) {
        proof {
            assert forall|p: BeaconPacket| s@ != json_bytes(p) by {
                if s@ == json_bytes(p) {
                    lemma_witness_parse(s@, p);
                }
            }
        }
        return None;
    }

    let (tv, c1) = match parse_dec_u64(s, 8) {
        Some(x) => x,
        None => {
            proof {
                assert forall|p: BeaconPacket| s@ != json_bytes(p) by {
                    if s@ == json_bytes(p) {
                        lemma_witness_parse(s@, p);
                    }
                }
            }
            return None;
        },
    };
    let ghost run_time = s@.subrange(8, c1 as int);

    if !starts_with_at(s, c1, &l_mac) {
        proof {
            assert forall|p: BeaconPacket| s@ != json_bytes(p) by {
                if s@ == json_bytes(p) {
                    lemma_witness_parse(s@, p);
                }
            }
        }
        return None;
    }

    if s.len() - (c1 + 8) < 12 {
        proof {
            assert forall|p: BeaconPacket| s@ != json_bytes(p) by {
                if s@ == json_bytes(p) {
                    lemma_witness_parse(s@, p);
                }
            }
        }
        return None;
    }
    let mac_hex = slice_subrange(s, c1 + 8, c1 + 20);
    let mac_arr = match parse_mac_lower(mac_hex) {
        Some(a) => a,
        None => {
            proof {
                assert forall|p: BeaconPacket| s@ != json_bytes(p) by {
                    if s@ == json_bytes(p) {
                        lemma_witness_parse(s@, p);
                    }
                }
            }
            return None;
        },
    };

    if !starts_with_at(s, c1 + 20, &l_rssi) {
        proof {
            assert forall|p: BeaconPacket| s@ != json_bytes(p) by {
                if s@ == json_bytes(p) {
                    lemma_witness_parse(s@, p);
                }
            }
        }
        return None;
    }

    if c1 + 29 >= s.len() {
        proof {
            assert forall|p: BeaconPacket| s@ != json_bytes(p) by {
                if s@ == json_bytes(p) {
                    lemma_witness_parse(s@, p);
                }
            }
        }
        return None;
    }
    let neg = s[c1 + 29] == 45;
    let dstart = if neg {
        c1 + 30
    } else {
        c1 + 29
    };

    let (mv, c2) = match parse_dec_u64(s, dstart) {
        Some(x) => x,
        None => {
            proof {
                assert forall|p: BeaconPacket| s@ != json_bytes(p) by {
                    if s@ == json_bytes(p) {
                        lemma_witness_parse(s@, p);
                    }
                }
            }
            return None;
        },
    };
    let ghost run_rssi = s@.subrange(dstart as int, c2 as int);
    if (neg && (mv < 1 || mv > 128)) || (!neg && mv > 127) {
        proof {
            assert forall|p: BeaconPacket| s@ != json_bytes(p) by {
                if s@ == json_bytes(p) {
                    lemma_witness_parse(s@, p);
                }
            }
        }
        return None;
    }
    let rv: i8 = if neg {
        (-(mv as i16)) as i8
    } else {
        mv as i8
    };

    if !starts_with_at(s, c2, &l_sequence) {
        proof {
            assert forall|p: BeaconPacket| s@ != json_bytes(p) by {
                if s@ == json_bytes(p) {
                    lemma_witness_parse(s@, p);
                }
            }
        }
        return None;
    }

    let (qv, c3) = match parse_dec_u64(s, c2 + 12) {
        Some(x) => x,
        None => {
            proof {
                assert forall|p: BeaconPacket| s@ != json_bytes(p) by {
                    if s@ == json_bytes(p) {
                        lemma_witness_parse(s@, p);
                    }
                }
            }
            return None;
        },
    };
    let ghost run_seq = s@.subrange(c2 + 12 as int, c3 as int);
    if qv > 255 {
        proof {
            assert forall|p: BeaconPacket| s@ != json_bytes(p) by {
                if s@ == json_bytes(p) {
                    lemma_witness_parse(s@, p);
                }
            }
        }
        return None;
    }

    if !starts_with_at(s, c3, &l_session) {
        proof {
            assert forall|p: BeaconPacket| s@ != json_bytes(p) by {
                if s@ == json_bytes(p) {
                    lemma_witness_parse(s@, p);
                }
            }
        }
        return None;
    }

    let (sv, c4) = match parse_dec_u64(s, c3 + 11) {
        Some(x) => x,
        None => {
            proof {
                assert forall|p: BeaconPacket| s@ != json_bytes(p) by {
                    if s@ == json_bytes(p) {
                        lemma_witness_parse(s@, p);
                    }
                }
            }
            return None;
        },
    };
    let ghost run_sess = s@.subrange(c3 + 11 as int, c4 as int);
    if sv > 255 {
        proof {
            assert forall|p: BeaconPacket| s@ != json_bytes(p) by {
                if s@ == json_bytes(p) {
                    lemma_witness_parse(s@, p);
                }
            }
        }
        return None;
    }

    if c4 != s.len() - 1 || s[c4] != 125 {
        proof {
            assert forall|p: BeaconPacket| s@ != json_bytes(p) by {
                if s@ == json_bytes(p) {
                    lemma_witness_parse(s@, p);
                }
            }
        }
        return None;
    }

    let q = BeaconPacket { time: tv, mac: mac_arr, rssi: rv, sequence: qv as u8, session: sv as u8 };

    proof {
        lemma_parse_assemble(
            s@,
            q,
            c1 as int,
            dstart as int,
            c2 as int,
            c3 as int,
            c4 as int,
            neg,
        );
    }

    Some(q)
}


/// JSON encoding is injective: two packets with the same canonical bytes
/// are the same packet. Together with the contract of
/// `parse_packet_json` — which returns `Some(p)` on every `json_bytes(p)`
/// and accepts nothing that is not a canonical encoding — this makes
/// encode followed by decode the identity.
pub proof fn lemma_json_bytes_injective(p: BeaconPacket, q: BeaconPacket)
    requires
        json_bytes(p) == json_bytes(q),
    ensures
        p == q,
{
    let s = json_bytes(p);
    lemma_witness_parse(s, p);
    lemma_witness_parse(s, q);
    let c1 = scan_num_end(s, 8);
    assert(hex_of(p.mac@) == s.subrange(c1 + 8, c1 + 20));
    lemma_hex_round_trip(p.mac@);
    lemma_hex_round_trip(q.mac@);
    assert(p.mac@ == hex_bytes(s.subrange(c1 + 8, c1 + 20)));
    assert(p.mac@ == q.mac@);
    vstd::array::axiom_array_ext_equal(p.mac, q.mac);
}

/// Parse a 12-digit lowercase-hex mac field.
fn parse_mac_lower(t: &[u8]) -> (r: Option<[u8; 6]>)
    ensures
        r is Some <==> t@.len() == 12 && all_hex_lower(t@),
        (match r {
            Some(m) => hex_of(m@) == t@ && m@ == hex_bytes(t@),
            None => true,
        }),
{
    if t.len() != 12 {
        return None;
    }
    let mut i: usize = 0;
    while i < 12
        invariant
            i <= 12,
            t@.len() == 12,
            forall|j: int| 0 <= j < i ==> is_hex_lower(t@[j]),
        decreases 12 - i,
    {
        let b = t[i];
        if !((48 <= b && b <= 57) || (97 <= b && b <= 102)) {
            return None;
        }
        i += 1;
    }
    match from_hex(t) {
        Some(v) => {
            proof {
                lemma_hex_bytes_even_len(t@);
                lemma_hex_lower_canonical(t@);
            }
            let m = [v[0], v[1], v[2], v[3], v[4], v[5]];
            proof {
                assert(m@ =~= hex_bytes(t@));
            }
            Some(m)
        },
        None => {
            // Unreachable: twelve lowercase hex digits decode.
            proof {
                assert forall|j: int| 0 <= j < t@.len() implies is_hex(t@[j]) by {
                    assert(is_hex_lower(t@[j]));
                };
                assert(false);
            }
            None
        },
    }
}

} // verus!

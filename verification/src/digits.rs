//! Decimal and hexadecimal byte-level codecs.
//!
//! The beacon wire format writes numbers in plain decimal and mac
//! addresses as 12 lowercase hex digits; these are the spec-level digit
//! strings, the executable encoders and parsers, and the round-trip facts
//! the packet codec builds on.

use vstd::prelude::*;

verus! {

/// Whether `b` is an ASCII decimal digit.
pub open spec fn is_digit(b: u8) -> bool {
    48 <= b <= 57
}

/// The decimal digit string of `n`, most significant digit first.
pub open spec fn dec_digits(n: nat) -> Seq<u8>
    decreases n,
{
    if n < 10 {
        seq![(48 + n) as u8]
    } else {
        dec_digits((n / 10) as nat).push((48 + n % 10) as u8)
    }
}

/// The numeric value of a digit string (meaningful when all bytes are
/// decimal digits).
pub open spec fn dec_value(s: Seq<u8>) -> int
    decreases s.len(),
{
    if s.len() == 0 {
        0
    } else {
        dec_value(s.drop_last()) * 10 + (s.last() - 48)
    }
}

/// Whether every byte of `s` is a decimal digit.
pub open spec fn all_digits(s: Seq<u8>) -> bool {
    forall|i: int| 0 <= i < s.len() ==> is_digit(s[i])
}

/// Whether `s` is a canonical decimal numeral: nonempty, digits only, and
/// without leading zeros.
pub open spec fn is_dec(s: Seq<u8>) -> bool {
    s.len() > 0 && all_digits(s) && (s.len() > 1 ==> s[0] != 48)
}

/// `dec_digits` produces a canonical numeral, with a nonzero leading
/// digit whenever the value is nonzero.
pub proof fn lemma_dec_digits_canonical(n: nat)
    ensures
        is_dec(dec_digits(n)),
        n >= 1 ==> dec_digits(n)[0] != 48,
        dec_digits(n).len() >= 1,
    decreases n,
{
    if n < 10 {
    } else {
        lemma_dec_digits_canonical((n / 10) as nat);
        assert(dec_digits(n)[0] == dec_digits((n / 10) as nat)[0]);
    }
}

/// Parsing the digit string of `n` gives back `n`.
pub proof fn lemma_dec_value_of_digits(n: nat)
    ensures
        dec_value(dec_digits(n)) == n,
    decreases n,
{
    if n < 10 {
        assert(dec_digits(n).drop_last() =~= Seq::<u8>::empty());
        assert(dec_value(Seq::<u8>::empty()) == 0);
        assert(dec_digits(n).last() == (48 + n) as u8);
    } else {
        lemma_dec_value_of_digits((n / 10) as nat);
        assert(dec_digits(n).drop_last() =~= dec_digits((n / 10) as nat));
        assert(n / 10 * 10 + n % 10 == n) by (nonlinear_arith);
    }
}

/// The value of a digit string is nonnegative, and never shrinks as the
/// string is extended digit by digit.
pub proof fn lemma_dec_value_nonneg(s: Seq<u8>)
    requires
        all_digits(s),
    ensures
        dec_value(s) >= 0,
    decreases s.len(),
{
    if s.len() > 0 {
        assert(all_digits(s.drop_last()));
        lemma_dec_value_nonneg(s.drop_last());
    }
}

/// Extending a digit run cannot lower its value.
pub proof fn lemma_dec_value_prefix_le(s: Seq<u8>, i: int, j: int)
    requires
        all_digits(s),
        0 <= i <= j <= s.len(),
    ensures
        dec_value(s.subrange(0, i)) <= dec_value(s.subrange(0, j)),
    decreases j - i,
{
    if i < j {
        lemma_dec_value_prefix_le(s, i + 1, j);
        let shorter = s.subrange(0, i);
        let longer = s.subrange(0, i + 1);
        assert(longer.drop_last() =~= shorter);
        assert(all_digits(shorter));
        lemma_dec_value_nonneg(shorter);
        assert(dec_value(longer) == dec_value(shorter) * 10 + (s[i] - 48));
        assert(dec_value(shorter) * 10 >= dec_value(shorter)) by (nonlinear_arith)
            requires dec_value(shorter) >= 0;
    }
}

/// Encode `n` in decimal, appending to `out`.
pub fn push_dec_u64(out: &mut Vec<u8>, n: u64)
    ensures
        final(out)@ == old(out)@ + dec_digits(n as nat),
    decreases n,
{
    if n < 10 {
        out.push(48 + n as u8);
        assert(final(out)@ =~= old(out)@ + dec_digits(n as nat));
    } else {
        push_dec_u64(out, n / 10);
        out.push(48 + (n % 10) as u8);
        assert(final(out)@ =~= old(out)@ + dec_digits(n as nat));
    }
}

/// The first index at or after `i` where the digit run ends.
pub open spec fn scan_num_end(s: Seq<u8>, i: int) -> int
    recommends
        0 <= i <= s.len(),
    decreases s.len() - i when 0 <= i <= s.len()
{
    if i < 0 || i >= s.len() {
        i
    } else if is_digit(s[i]) {
        scan_num_end(s, i + 1)
    } else {
        i
    }
}

/// The scan stops exactly at the end of an embedded digit string, when
/// what follows it is not a digit.
pub proof fn lemma_scan_over_digits(s: Seq<u8>, i: int, d: Seq<u8>)
    requires
        0 <= i,
        i + d.len() <= s.len(),
        all_digits(d),
        s.subrange(i, i + d.len()) == d,
        i + d.len() == s.len() || !is_digit(s[i + d.len()]),
    ensures
        scan_num_end(s, i) == i + d.len(),
    decreases d.len(),
{
    if d.len() == 0 {
    } else {
        assert(s[i] == s.subrange(i, i + d.len())[0]);
        assert(is_digit(s[i]));
        assert(s.subrange(i + 1, i + d.len()) =~= d.drop_first());
        assert(all_digits(d.drop_first()));
        lemma_scan_over_digits(s, i + 1, d.drop_first());
    }
}

/// Everything between `i` and the end of the scan is a digit.
pub proof fn lemma_scan_digits(s: Seq<u8>, i: int)
    requires
        0 <= i <= s.len(),
    ensures
        i <= scan_num_end(s, i) <= s.len(),
        all_digits(s.subrange(i, scan_num_end(s, i))),
    decreases s.len() - i,
{
    if i < s.len() && is_digit(s[i]) {
        lemma_scan_digits(s, i + 1);
        let e = scan_num_end(s, i);
        assert forall|j: int| i <= j < e implies #[trigger] is_digit(s[j]) by {
            if j > i {
                assert(s.subrange(i + 1, e)[j - i - 1] == s[j]);
            }
        };
        assert(forall|j: int| 0 <= j < e - i ==> is_digit(#[trigger] s.subrange(i, e)[j]));
    }
}

/// Parse the digit run starting at `start`: its value and its end, if the
/// run is a canonical numeral whose value fits in a `u64`.
pub fn parse_dec_u64(s: &[u8], start: usize) -> (r: Option<(u64, usize)>)
    requires
        start <= s@.len(),
    ensures
        ({
            let end = scan_num_end(s@, start as int);
            let run = s@.subrange(start as int, end);
            &&& (r is Some <==> is_dec(run) && dec_value(run) <= u64::MAX)
            &&& (match r {
                Some((v, e)) => v == dec_value(run) && e == end && start <= e <= s@.len(),
                None => true,
            })
        }),
{
    proof {
        lemma_scan_digits(s@, start as int);
    }
    let ghost end = scan_num_end(s@, start as int);
    let ghost run = s@.subrange(start as int, end);

    let len = s.len();
    if start >= len || !(48 <= s[start] && s[start] <= 57) {
        assert(end == start as int);
        assert(run.len() == 0);
        return None;
    }

    // A canonical numeral has no leading zero.
    if s[start] == 48 {
        if start + 1 < len && 48 <= s[start + 1] && s[start + 1] <= 57 {
            proof {
                assert(scan_num_end(s@, start as int) == scan_num_end(s@, start as int + 1));
                assert(scan_num_end(s@, start as int + 1) == scan_num_end(s@, start as int + 2));
                lemma_scan_digits(s@, start as int + 2);
                assert(run.len() > 1);
                assert(run[0] == 48);
            }
            return None;
        }
        proof {
            assert(scan_num_end(s@, start as int) == scan_num_end(s@, start as int + 1));
            assert(scan_num_end(s@, start as int + 1) == start as int + 1);
            assert(run =~= seq![48u8]);
            assert(run.drop_last() =~= Seq::<u8>::empty());
            assert(dec_value(Seq::<u8>::empty()) == 0);
            assert(dec_value(run) == 0);
        }
        return Some((0, start + 1));
    }

    let mut i: usize = start;
    let mut v: u64 = 0;
    while i < len && 48 <= s[i] && s[i] <= 57
        invariant
            start <= i <= len,
            len == s@.len(),
            start as int <= end <= s@.len(),
            end == scan_num_end(s@, start as int),
            end == scan_num_end(s@, i as int),
            run == s@.subrange(start as int, end),
            all_digits(run),
            is_digit(s@[start as int]),
            s@[start as int] != 48,
            all_digits(s@.subrange(start as int, i as int)),
            v == dec_value(s@.subrange(start as int, i as int)),
        decreases len - i,
    {
        let d = s[i] - 48;
        proof {
            assert(s@.subrange(start as int, i + 1).drop_last() =~= s@.subrange(
                start as int,
                i as int,
            ));
            lemma_dec_value_nonneg(s@.subrange(start as int, i as int));
        }
        if v > u64::MAX / 10 || (v == u64::MAX / 10 && d > (u64::MAX % 10) as u8) {
            proof {
                assert(dec_value(s@.subrange(start as int, i + 1)) > u64::MAX);
                lemma_scan_digits(s@, i + 1);
                assert(end == scan_num_end(s@, i + 1));
                lemma_dec_value_prefix_le(s@.subrange(start as int, end), i + 1 - start, end
                    - start);
                assert(s@.subrange(start as int, end).subrange(0, i + 1 - start) =~= s@.subrange(
                    start as int,
                    i + 1,
                ));
                assert(s@.subrange(start as int, end).subrange(0, end - start) =~= s@.subrange(
                    start as int,
                    end,
                ));
            }
            return None;
        }
        v = v * 10 + d as u64;
        i += 1;
        proof {
            assert(all_digits(s@.subrange(start as int, i as int)));
        }
    }
    proof {
        assert(scan_num_end(s@, i as int) == i as int);
        assert(run =~= s@.subrange(start as int, i as int));
        assert(is_dec(run));
    }
    Some((v, i))
}


/// The lowercase hex digit for a value below 16.
pub open spec fn hex_digit(v: u8) -> u8 {
    if v < 10 {
        (48 + v) as u8
    } else {
        (87 + v) as u8
    }
}

/// The numeric value of a hex digit byte, or -1 when it is none.
/// Uppercase digits are accepted on input.
pub open spec fn hex_val(b: u8) -> int {
    if 48 <= b <= 57 {
        b - 48
    } else if 97 <= b <= 102 {
        b - 87
    } else if 65 <= b <= 70 {
        b - 55
    } else {
        -1
    }
}

/// Whether `b` is a hex digit, either case.
pub open spec fn is_hex(b: u8) -> bool {
    hex_val(b) >= 0
}

/// The lowercase hex string of a byte sequence: two digits per byte.
pub open spec fn hex_of(s: Seq<u8>) -> Seq<u8>
    decreases s.len(),
{
    if s.len() == 0 {
        Seq::empty()
    } else {
        seq![hex_digit(s[0] / 16), hex_digit(s[0] % 16)] + hex_of(s.drop_first())
    }
}

/// The bytes denoted by an even-length hex string (meaningful when every
/// byte is a hex digit).
pub open spec fn hex_bytes(s: Seq<u8>) -> Seq<u8>
    decreases s.len(),
{
    if s.len() < 2 {
        Seq::empty()
    } else {
        seq![(hex_val(s[0]) * 16 + hex_val(s[1])) as u8] + hex_bytes(s.subrange(2, s.len() as int))
    }
}

/// Whether every byte of `s` is a hex digit.
pub open spec fn all_hex(s: Seq<u8>) -> bool {
    forall|i: int| 0 <= i < s.len() ==> is_hex(s[i])
}

/// Reading back the hex string of a byte gives the byte.
pub proof fn lemma_hex_digit_val(v: u8)
    requires
        v < 16,
    ensures
        hex_val(hex_digit(v)) == v,
        is_hex(hex_digit(v)),
{
}

/// The hex string of `s` is twice as long, all hex digits, and decodes
/// back to `s`.
pub proof fn lemma_hex_round_trip(s: Seq<u8>)
    ensures
        hex_of(s).len() == 2 * s.len(),
        all_hex(hex_of(s)),
        hex_bytes(hex_of(s)) == s,
    decreases s.len(),
{
    if s.len() == 0 {
        assert(hex_bytes(hex_of(s)) =~= s);
    } else {
        let b = s[0];
        let hi = hex_digit(b / 16);
        let lo = hex_digit(b % 16);
        lemma_hex_round_trip(s.drop_first());
        lemma_hex_digit_val(b / 16);
        lemma_hex_digit_val(b % 16);
        let h = hex_of(s);
        assert(h[0] == hi && h[1] == lo);
        assert forall|i: int| 0 <= i < h.len() implies is_hex(h[i]) by {
            if i >= 2 {
                assert(h[i] == hex_of(s.drop_first())[i - 2]);
            }
        };
        assert(h.subrange(2, h.len() as int) =~= hex_of(s.drop_first()));
        assert(hex_val(h[0]) * 16 + hex_val(h[1]) == b / 16 * 16 + b % 16);
        assert(b / 16 * 16 + b % 16 == b) by (nonlinear_arith);
        assert(hex_bytes(h) =~= s);
    }
}

/// Encode a byte slice as lowercase hex, two digits per byte.
pub fn to_hex(bytes: &[u8]) -> (r: Vec<u8>)
    ensures
        r@ == hex_of(bytes@),
{
    let mut out: Vec<u8> = Vec::new();
    let mut i: usize = 0;
    proof {
        assert(bytes@.subrange(0, 0) =~= Seq::<u8>::empty());
        assert(out@ =~= hex_of(bytes@.subrange(0, 0)));
    }
    while i < bytes.len()
        invariant
            i <= bytes@.len(),
            out@ == hex_of(bytes@.subrange(0, i as int)),
        decreases bytes@.len() - i,
    {
        let b = bytes[i];
        let hi = b / 16;
        let lo = b % 16;
        out.push(if hi < 10 { 48 + hi } else { 87 + hi });
        out.push(if lo < 10 { 48 + lo } else { 87 + lo });
        proof {
            lemma_hex_of_push(bytes@.subrange(0, i as int), b);
            assert(bytes@.subrange(0, i + 1) =~= bytes@.subrange(0, i as int).push(b));
        }
        i += 1;
    }
    proof {
        assert(bytes@.subrange(0, bytes@.len() as int) =~= bytes@);
    }
    out
}

/// Hex-encoding one more byte appends its two digits.
pub proof fn lemma_hex_of_push(s: Seq<u8>, b: u8)
    ensures
        hex_of(s.push(b)) == hex_of(s) + seq![hex_digit(b / 16), hex_digit(b % 16)],
    decreases s.len(),
{
    if s.len() == 0 {
        assert(s.push(b)[0] == b);
        assert(s.push(b).drop_first() =~= Seq::<u8>::empty());
        assert(hex_of(Seq::<u8>::empty()) =~= Seq::<u8>::empty());
        assert(hex_of(s.push(b)) =~= hex_of(s) + seq![hex_digit(b / 16), hex_digit(b % 16)]);
    } else {
        assert(s.push(b)[0] == s[0]);
        assert(s.push(b).drop_first() =~= s.drop_first().push(b));
        lemma_hex_of_push(s.drop_first(), b);
        assert(hex_of(s.push(b)) =~= hex_of(s) + seq![hex_digit(b / 16), hex_digit(b % 16)]);
    }
}

/// The value of a hex digit byte, or -1 when it is none.
pub fn hex_val_of(b: u8) -> (r: i8)
    ensures
        r as int == hex_val(b),
{
    if 48 <= b && b <= 57 {
        (b - 48) as i8
    } else if 97 <= b && b <= 102 {
        (b - 87) as i8
    } else if 65 <= b && b <= 70 {
        (b - 55) as i8
    } else {
        -1
    }
}

/// Decoding a hex string two digits longer appends one more byte.
pub proof fn lemma_hex_bytes_snoc_pair(t: Seq<u8>, a: u8, b: u8)
    requires
        t.len() % 2 == 0,
    ensures
        hex_bytes(t + seq![a, b]) == hex_bytes(t) + seq![(hex_val(a) * 16 + hex_val(b)) as u8],
    decreases t.len(),
{
    let w = t + seq![a, b];
    if t.len() == 0 {
        assert(w[0] == a && w[1] == b);
        assert(w.subrange(2, w.len() as int) =~= Seq::<u8>::empty());
        assert(hex_bytes(Seq::<u8>::empty()) =~= Seq::<u8>::empty());
        assert(hex_bytes(w) =~= hex_bytes(t) + seq![(hex_val(a) * 16 + hex_val(b)) as u8]);
    } else {
        assert(w[0] == t[0] && w[1] == t[1]);
        assert(w.subrange(2, w.len() as int) =~= t.subrange(2, t.len() as int) + seq![a, b]);
        lemma_hex_bytes_snoc_pair(t.subrange(2, t.len() as int), a, b);
        assert(hex_bytes(w) =~= hex_bytes(t) + seq![(hex_val(a) * 16 + hex_val(b)) as u8]);
    }
}

/// Decode a hex string: the denoted bytes, iff the input has even length
/// and holds hex digits only.
pub fn from_hex(s: &[u8]) -> (r: Option<Vec<u8>>)
    ensures
        r is Some <==> s@.len() % 2 == 0 && all_hex(s@),
        (match r {
            Some(v) => v@ == hex_bytes(s@),
            None => true,
        }),
{
    if s.len() % 2 != 0 {
        return None;
    }
    let mut out: Vec<u8> = Vec::new();
    let mut i: usize = 0;
    proof {
        assert(s@.subrange(0, 0) =~= Seq::<u8>::empty());
        assert(out@ =~= hex_bytes(s@.subrange(0, 0)));
    }
    while i < s.len()
        invariant
            i <= s@.len(),
            i % 2 == 0,
            s@.len() % 2 == 0,
            all_hex(s@.subrange(0, i as int)),
            out@ == hex_bytes(s@.subrange(0, i as int)),
        decreases s@.len() - i,
    {
        let hi = hex_val_of(s[i]);
        let lo = hex_val_of(s[i + 1]);
        if hi < 0 {
            assert(!is_hex(s@[i as int]));
            return None;
        }
        if lo < 0 {
            assert(!is_hex(s@[i + 1]));
            return None;
        }
        out.push((hi as u8) * 16 + (lo as u8));
        proof {
            lemma_hex_bytes_snoc_pair(s@.subrange(0, i as int), s@[i as int], s@[i + 1]);
            assert(s@.subrange(0, i + 2) =~= s@.subrange(0, i as int) + seq![
                s@[i as int],
                s@[i + 1],
            ]);
            assert(out@ =~= hex_bytes(s@.subrange(0, i + 2)));
            assert forall|j: int| 0 <= j < i + 2 implies is_hex(#[trigger] s@.subrange(0, i + 2)[j]) by {
                if j < i {
                    assert(s@.subrange(0, i as int)[j] == s@[j]);
                }
            };
        }
        i += 2;
    }
    proof {
        assert(s@.subrange(0, s@.len() as int) =~= s@);
    }
    Some(out)
}

/// Parse a 12-hex-digit mac address into its six bytes.
pub fn u8x6_from_hex(s: &[u8]) -> (r: Option<[u8; 6]>)
    ensures
        r is Some <==> s@.len() == 12 && all_hex(s@),
        (match r {
            Some(mac) => mac@ == hex_bytes(s@),
            None => true,
        }),
{
    if s.len() != 12 {
        return None;
    }
    match from_hex(s) {
        Some(v) => {
            proof {
                lemma_hex_bytes_even_len(s@);
            }
            let mac = [v[0], v[1], v[2], v[3], v[4], v[5]];
            proof {
                assert(mac@ =~= hex_bytes(s@));
            }
            Some(mac)
        },
        None => None,
    }
}

/// An even-length hex string denotes half as many bytes.
pub proof fn lemma_hex_bytes_even_len(s: Seq<u8>)
    ensures
        s.len() % 2 == 0 ==> hex_bytes(s).len() * 2 == s.len(),
    decreases s.len(),
{
    if s.len() >= 2 {
        lemma_hex_bytes_even_len(s.subrange(2, s.len() as int));
    }
}


/// A canonical numeral with a nonzero leading digit has a positive value.
pub proof fn lemma_dec_value_pos(s: Seq<u8>)
    requires
        is_dec(s),
        s[0] != 48,
    ensures
        dec_value(s) >= 1,
    decreases s.len(),
{
    if s.len() == 1 {
        assert(s.drop_last() =~= Seq::<u8>::empty());
        assert(dec_value(Seq::<u8>::empty()) == 0);
    } else {
        let t = s.drop_last();
        assert(all_digits(t));
        assert(t[0] == s[0]);
        lemma_dec_value_pos(t);
        assert(dec_value(t) * 10 >= 10) by (nonlinear_arith)
            requires dec_value(t) >= 1;
    }
}

/// A canonical numeral is the digit string of its own value.
pub proof fn lemma_dec_digits_of_value(s: Seq<u8>)
    requires
        is_dec(s),
    ensures
        dec_value(s) >= 0,
        dec_digits(dec_value(s) as nat) == s,
    decreases s.len(),
{
    lemma_dec_value_nonneg(s);
    if s.len() == 1 {
        assert(s.drop_last() =~= Seq::<u8>::empty());
        assert(dec_value(Seq::<u8>::empty()) == 0);
        assert(dec_value(s) == s[0] - 48 < 10);
        assert(dec_digits(dec_value(s) as nat) =~= s);
    } else {
        let t = s.drop_last();
        let d = s.last() - 48;
        assert(all_digits(t));
        assert(t[0] == s[0]);
        assert(is_dec(t));
        lemma_dec_value_pos(t);
        lemma_dec_digits_of_value(t);
        let v = dec_value(t);
        assert(dec_value(s) == v * 10 + d);
        assert(v * 10 + d >= 10 && (v * 10 + d) / 10 == v && (v * 10 + d) % 10 == d)
            by (nonlinear_arith)
            requires v >= 1 && 0 <= d < 10;
        assert(dec_digits(dec_value(s) as nat) == dec_digits(v as nat).push((48 + d) as u8));
        assert(dec_digits(v as nat).push((48 + d) as u8) =~= s);
    }
}

/// Whether `b` is a lowercase hex digit: the only digits `hex_of` emits.
pub open spec fn is_hex_lower(b: u8) -> bool {
    48 <= b <= 57 || 97 <= b <= 102
}

/// Whether every byte of `s` is a lowercase hex digit.
pub open spec fn all_hex_lower(s: Seq<u8>) -> bool {
    forall|i: int| 0 <= i < s.len() ==> is_hex_lower(s[i])
}

/// `hex_of` emits lowercase digits only.
pub proof fn lemma_hex_of_lower(s: Seq<u8>)
    ensures
        all_hex_lower(hex_of(s)),
    decreases s.len(),
{
    if s.len() > 0 {
        lemma_hex_of_lower(s.drop_first());
        let h = hex_of(s);
        assert forall|i: int| 0 <= i < h.len() implies is_hex_lower(h[i]) by {
            if i >= 2 {
                assert(h[i] == hex_of(s.drop_first())[i - 2]);
            }
        };
    }
}

/// A lowercase hex string is the hex encoding of the bytes it denotes.
pub proof fn lemma_hex_lower_canonical(t: Seq<u8>)
    requires
        t.len() % 2 == 0,
        all_hex_lower(t),
    ensures
        hex_of(hex_bytes(t)) == t,
    decreases t.len(),
{
    if t.len() == 0 {
        assert(hex_of(hex_bytes(t)) =~= t);
    } else {
        let a = t[0];
        let b = t[1];
        let v = (hex_val(a) * 16 + hex_val(b)) as u8;
        assert((hex_val(a) * 16 + hex_val(b)) / 16 == hex_val(a) && (hex_val(a) * 16 + hex_val(b))
            % 16 == hex_val(b)) by (nonlinear_arith)
            requires 0 <= hex_val(a) < 16 && 0 <= hex_val(b) < 16;
        assert(hex_digit(v / 16) == a && hex_digit(v % 16) == b);
        let rest = t.subrange(2, t.len() as int);
        assert(all_hex_lower(rest));
        lemma_hex_lower_canonical(rest);
        assert(hex_bytes(t) == seq![v] + hex_bytes(rest));
        assert((seq![v] + hex_bytes(rest))[0] == v);
        assert((seq![v] + hex_bytes(rest)).drop_first() =~= hex_bytes(rest));
        assert(hex_of(hex_bytes(t)) =~= t);
    }
}

} // verus!

use vstd::prelude::*;
use crate::record::CoordinateRecord;

verus! {

pub const ASCII_ZERO: u8 = 0x30;
pub const ASCII_NINE: u8 = 0x39;
pub const ASCII_LOWER_A: u8 = 0x61;
pub const ASCII_LOWER_E: u8 = 0x65;
pub const ASCII_LOWER_F: u8 = 0x66;
pub const ASCII_LOWER_G: u8 = 0x67;
pub const ASCII_LOWER_O: u8 = 0x6f;
pub const ASCII_COLON: u8 = 0x3a;
pub const ASCII_COMMA: u8 = 0x2c;

/// 16 to the power `n`.
pub open spec fn pow16(n: nat) -> nat
    decreases n,
{
    if n == 0 {
        1
    } else {
        16 * pow16((n - 1) as nat)
    }
}

/// A lowercase hexadecimal digit.
pub open spec fn is_hex_digit(c: u8) -> bool {
    (ASCII_ZERO <= c <= ASCII_NINE) || (ASCII_LOWER_A <= c <= ASCII_LOWER_F)
}

pub open spec fn all_hex(s: Seq<u8>) -> bool {
    forall|i: int| 0 <= i < s.len() ==> is_hex_digit(#[trigger] s[i])
}

/// The digit character for a value below 16.
pub open spec fn hex_char(d: nat) -> u8 {
    if d < 10 {
        (ASCII_ZERO + d) as u8
    } else {
        (ASCII_LOWER_A + (d - 10)) as u8
    }
}

/// The value of a hexadecimal digit character.
pub open spec fn digit_value(c: u8) -> nat {
    if c <= ASCII_NINE {
        (c - ASCII_ZERO) as nat
    } else {
        (c - ASCII_LOWER_A + 10) as nat
    }
}

/// The lowest `n` hexadecimal digits of `v`, most significant first.
pub open spec fn hex_digits(v: nat, n: nat) -> Seq<u8>
    decreases n,
{
    if n == 0 {
        Seq::empty()
    } else {
        hex_digits(v / 16, (n - 1) as nat).push(hex_char(v % 16))
    }
}

/// The number that a string of hexadecimal digits spells, most significant first.
pub open spec fn hex_value(s: Seq<u8>) -> nat
    decreases s.len(),
{
    if s.len() == 0 {
        0
    } else {
        hex_value(s.drop_last()) * 16 + digit_value(s.last())
    }
}

/// Tag that opens every stored record. It names the layout below, so that a
/// later layout can be told apart by a tag of its own.
pub open spec fn record_tag() -> Seq<u8> {
    seq![ASCII_LOWER_G, ASCII_LOWER_E, ASCII_LOWER_O, ASCII_COLON]
}

/// Stored layout of a record: the tag, sixteen hex digits of the latitude
/// bits, a comma, sixteen hex digits of the longitude bits.
pub open spec fn record_bytes(r: CoordinateRecord) -> Seq<u8> {
    record_tag() + hex_digits(r.latitude_bits as nat, 16) + seq![ASCII_COMMA] + hex_digits(
        r.longitude_bits as nat,
        16,
    )
}

/// Length of a stored record.
pub const RECORD_LEN: usize = 37;

/// The record that a stored value spells, if it has the stored layout.
pub open spec fn record_from_bytes(b: Seq<u8>) -> Option<CoordinateRecord> {
    if b.len() == RECORD_LEN && b.subrange(0, 4) == record_tag() && b[20] == ASCII_COMMA
        && all_hex(b.subrange(4, 20)) && all_hex(b.subrange(21, 37)) {
        Some(
            CoordinateRecord {
                latitude_bits: hex_value(b.subrange(4, 20)) as u64,
                longitude_bits: hex_value(b.subrange(21, 37)) as u64,
            },
        )
    } else {
        None
    }
}

proof fn lemma_pow16_values()
    ensures
        pow16(15) == 0x1000_0000_0000_0000,
        pow16(16) == 0x1_0000_0000_0000_0000,
{
    reveal_with_fuel(pow16, 17);
}

proof fn lemma_pow16_mono(a: nat, b: nat)
    requires
        a <= b,
    ensures
        pow16(a) <= pow16(b),
    decreases b,
{
    if a < b {
        lemma_pow16_mono(a, (b - 1) as nat);
    }
}

proof fn lemma_hex_char(d: nat)
    requires
        d < 16,
    ensures
        is_hex_digit(hex_char(d)),
        digit_value(hex_char(d)) == d,
{
}

proof fn lemma_hex_value_bound(s: Seq<u8>)
    requires
        all_hex(s),
    ensures
        hex_value(s) < pow16(s.len()),
    decreases s.len(),
{
    if s.len() > 0 {
        let t = s.drop_last();
        assert(all_hex(t)) by {
            assert forall|i: int| 0 <= i < t.len() implies is_hex_digit(#[trigger] t[i]) by {
                assert(t[i] == s[i]);
            }
        }
        lemma_hex_value_bound(t);
        assert(is_hex_digit(s[s.len() - 1]));
        let p = pow16(t.len());
        let h = hex_value(t);
        let d = digit_value(s.last());
        assert(h * 16 + d < 16 * p) by (nonlinear_arith)
            requires
                h < p,
                d < 16,
        ;
    }
}

proof fn lemma_hex_digits(v: nat, n: nat)
    requires
        v < pow16(n),
    ensures
        hex_digits(v, n).len() == n,
        all_hex(hex_digits(v, n)),
        hex_value(hex_digits(v, n)) == v,
    decreases n,
{
    if n > 0 {
        let q = v / 16;
        let p = pow16((n - 1) as nat);
        assert(q < p) by (nonlinear_arith)
            requires
                v < 16 * p,
                q == v / 16,
        ;
        lemma_hex_digits(q, (n - 1) as nat);
        lemma_hex_char(v % 16);
        let s = hex_digits(v, n);
        assert(s.drop_last() == hex_digits(q, (n - 1) as nat));
        assert(all_hex(s)) by {
            assert forall|i: int| 0 <= i < s.len() implies is_hex_digit(#[trigger] s[i]) by {
                if i < n - 1 {
                    assert(s[i] == hex_digits(q, (n - 1) as nat)[i]);
                }
            }
        }
    }
}

proof fn lemma_hex_canonical(s: Seq<u8>)
    requires
        all_hex(s),
    ensures
        hex_digits(hex_value(s), s.len()) == s,
    decreases s.len(),
{
    if s.len() > 0 {
        let t = s.drop_last();
        assert(all_hex(t)) by {
            assert forall|i: int| 0 <= i < t.len() implies is_hex_digit(#[trigger] t[i]) by {
                assert(t[i] == s[i]);
            }
        }
        lemma_hex_canonical(t);
        assert(is_hex_digit(s[s.len() - 1]));
        let h = hex_value(t);
        let d = digit_value(s.last());
        let v = h * 16 + d;
        assert(v / 16 == h && v % 16 == d) by (nonlinear_arith)
            requires
                v == h * 16 + d,
                d < 16,
        ;
        assert(hex_digits(v, s.len()) =~= s);
    }
}

/// A stored value that reads as a record is exactly that record's stored form.
pub proof fn lemma_record_canonical(b: Seq<u8>)
    requires
        record_from_bytes(b) is Some,
    ensures
        record_bytes(record_from_bytes(b).unwrap()) == b,
{
    let lat = b.subrange(4, 20);
    let lon = b.subrange(21, 37);
    lemma_pow16_values();
    lemma_hex_value_bound(lat);
    lemma_hex_value_bound(lon);
    lemma_hex_canonical(lat);
    lemma_hex_canonical(lon);
    let r = record_from_bytes(b).unwrap();
    assert(r.latitude_bits as nat == hex_value(lat));
    assert(r.longitude_bits as nat == hex_value(lon));
    assert(record_bytes(r) =~= b);
}

/// A stored record reads back as the record that was stored.
pub proof fn lemma_record_round_trip(r: CoordinateRecord)
    ensures
        record_bytes(r).len() == RECORD_LEN,
        record_from_bytes(record_bytes(r)) == Some(r),
{
    lemma_pow16_values();
    lemma_hex_digits(r.latitude_bits as nat, 16);
    lemma_hex_digits(r.longitude_bits as nat, 16);
    let b = record_bytes(r);
    let lat = hex_digits(r.latitude_bits as nat, 16);
    let lon = hex_digits(r.longitude_bits as nat, 16);
    assert(b.subrange(0, 4) =~= record_tag());
    assert(b.subrange(4, 20) =~= lat);
    assert(b.subrange(21, 37) =~= lon);
    assert(b[20] == ASCII_COMMA);
}

/// Appends the lowest `n` hexadecimal digits of `v`.
fn push_hex(out: &mut Vec<u8>, v: u64, n: usize)
    ensures
        final(out)@ == old(out)@ + hex_digits(v as nat, n as nat),
    decreases n,
{
    if n > 0 {
        push_hex(out, v / 16, n - 1);
        let d = v % 16;
        let c: u8 = if d < 10 {
            ASCII_ZERO + d as u8
        } else {
            ASCII_LOWER_A + (d - 10) as u8
        };
        out.push(c);
        assert(final(out)@ =~= old(out)@ + hex_digits(v as nat, n as nat));
    }
}

/// The stored form of a record.
pub fn encode_record(r: &CoordinateRecord) -> (b: Vec<u8>)
    ensures
        b@ == record_bytes(*r),
{
    let mut b: Vec<u8> = Vec::new();
    b.push(ASCII_LOWER_G);
    b.push(ASCII_LOWER_E);
    b.push(ASCII_LOWER_O);
    b.push(ASCII_COLON);
    push_hex(&mut b, r.latitude_bits, 16);
    b.push(ASCII_COMMA);
    push_hex(&mut b, r.longitude_bits, 16);
    assert(b@ =~= record_bytes(*r));
    b
}

/// Reads `n` hexadecimal digits of `b` from `start`.
fn parse_hex(b: &[u8], start: usize, n: usize) -> (r: Option<u64>)
    requires
        start + n <= b@.len(),
        n <= 16,
    ensures
        r == (if all_hex(b@.subrange(start as int, start + n)) {
            Some(hex_value(b@.subrange(start as int, start + n)) as u64)
        } else {
            None
        }),
        all_hex(b@.subrange(start as int, start + n)) ==> hex_value(
            b@.subrange(start as int, start + n),
        ) < pow16(n as nat),
{
    let len = b.len();
    let mut acc: u64 = 0;
    let mut i: usize = 0;
    proof {
        lemma_pow16_values();
    }
    while i < n
        invariant
            i <= n,
            n <= 16,
            start + n <= b@.len(),
            b@.len() == len,
            all_hex(b@.subrange(start as int, start + i)),
            acc as nat == hex_value(b@.subrange(start as int, start + i)),
            acc < pow16(i as nat),
            pow16(15) == 0x1000_0000_0000_0000,
        decreases n - i,
    {
        let c = b[start + i];
        let ghost prev = b@.subrange(start as int, start + i);
        let ghost next = b@.subrange(start as int, start + i + 1);
        assert(next.drop_last() =~= prev);
        if !((ASCII_ZERO <= c && c <= ASCII_NINE) || (ASCII_LOWER_A <= c && c <= ASCII_LOWER_F)) {
            assert(!all_hex(b@.subrange(start as int, start + n))) by {
                assert(b@.subrange(start as int, start + n)[i as int] == c);
            }
            return None;
        }
        let d: u64 = if c <= ASCII_NINE {
            (c - ASCII_ZERO) as u64
        } else {
            (c - ASCII_LOWER_A + 10) as u64
        };
        proof {
            lemma_pow16_mono(i as nat, 15);
            assert(acc * 16 + d < 16 * pow16(i as nat)) by (nonlinear_arith)
                requires
                    acc < pow16(i as nat),
                    d < 16,
            ;
        }
        acc = acc * 16 + d;
        i = i + 1;
        assert(all_hex(next)) by {
            assert forall|j: int| 0 <= j < next.len() implies is_hex_digit(#[trigger] next[j]) by {
                if j < next.len() - 1 {
                    assert(next[j] == prev[j]);
                }
            }
        }
    }
    Some(acc)
}

/// The record that a stored value spells, or `None` where the value does not
/// have the stored layout.
pub fn decode_record(b: &[u8]) -> (r: Option<CoordinateRecord>)
    ensures
        r == record_from_bytes(b@),
{
    if b.len() != RECORD_LEN {
        return None;
    }
    let ghost tag = b@.subrange(0, 4);
    if !(b[0] == ASCII_LOWER_G && b[1] == ASCII_LOWER_E && b[2] == ASCII_LOWER_O && b[3] == ASCII_COLON) {
        assert(tag != record_tag()) by {
            if tag == record_tag() {
                assert(tag[0] == ASCII_LOWER_G && tag[1] == ASCII_LOWER_E && tag[2] == ASCII_LOWER_O && tag[3] == ASCII_COLON);
            }
        }
        return None;
    }
    assert(tag =~= record_tag());
    if b[20] != ASCII_COMMA {
        return None;
    }
    let lat = parse_hex(b, 4, 16);
    let lon = parse_hex(b, 21, 16);
    match (lat, lon) {
        (Some(la), Some(lo)) => Some(CoordinateRecord { latitude_bits: la, longitude_bits: lo }),
        _ => None,
    }
}

/// Name under which a key's record is kept on a persistent medium: two
/// hexadecimal digits for each byte of the key's UTF-8 form.
pub open spec fn entry_name_of(key: Seq<u8>) -> Seq<u8>
    decreases key.len(),
{
    if key.len() == 0 {
        Seq::empty()
    } else {
        entry_name_of(key.drop_last()) + hex_digits(key.last() as nat, 2)
    }
}

proof fn lemma_byte_digits(v: u8)
    ensures
        hex_digits(v as nat, 2).len() == 2,
        all_hex(hex_digits(v as nat, 2)),
        hex_value(hex_digits(v as nat, 2)) == v,
{
    reveal_with_fuel(pow16, 3);
    lemma_hex_digits(v as nat, 2);
}

proof fn lemma_entry_name_pairs(key: Seq<u8>)
    ensures
        entry_name_of(key).len() == 2 * key.len(),
        forall|i: int|
            0 <= i < key.len() ==> #[trigger] entry_name_of(key).subrange(2 * i, 2 * i + 2)
                == hex_digits(key[i] as nat, 2),
    decreases key.len(),
{
    if key.len() > 0 {
        let t = key.drop_last();
        lemma_entry_name_pairs(t);
        lemma_byte_digits(key.last());
        let n = entry_name_of(key);
        assert forall|i: int| 0 <= i < key.len() implies #[trigger] n.subrange(2 * i, 2 * i + 2)
            == hex_digits(key[i] as nat, 2) by {
            if i < t.len() {
                assert(n.subrange(2 * i, 2 * i + 2) =~= entry_name_of(t).subrange(2 * i, 2 * i + 2));
            } else {
                assert(n.subrange(2 * i, 2 * i + 2) =~= hex_digits(key.last() as nat, 2));
            }
        }
    }
}

/// Distinct keys have distinct entry names, so a name read back from the
/// medium gives back the key it was made from.
pub proof fn lemma_entry_name_injective(a: Seq<u8>, b: Seq<u8>)
    requires
        entry_name_of(a) == entry_name_of(b),
    ensures
        a == b,
{
    lemma_entry_name_pairs(a);
    lemma_entry_name_pairs(b);
    assert forall|i: int| 0 <= i < a.len() implies a[i] == b[i] by {
        lemma_byte_digits(a[i]);
        lemma_byte_digits(b[i]);
        assert(entry_name_of(a).subrange(2 * i, 2 * i + 2) == entry_name_of(b).subrange(2 * i, 2 * i + 2));
    }
    assert(a =~= b);
}

/// The entry name of `key`.
pub fn entry_name(key: &[u8]) -> (r: Vec<u8>)
    ensures
        r@ == entry_name_of(key@),
{
    let mut out: Vec<u8> = Vec::new();
    let mut i: usize = 0;
    while i < key.len()
        invariant
            i <= key@.len(),
            out@ == entry_name_of(key@.subrange(0, i as int)),
        decreases key@.len() - i,
    {
        let ghost before = key@.subrange(0, i as int);
        push_hex(&mut out, key[i] as u64, 2);
        i = i + 1;
        assert(key@.subrange(0, i as int).drop_last() =~= before);
    }
    assert(key@.subrange(0, key@.len() as int) =~= key@);
    out
}

/// The key whose entry name is `name`, or `None` where no key has that name.
pub fn key_of_entry_name(name: &[u8]) -> (r: Option<Vec<u8>>)
    ensures
        match r {
            Some(k) => entry_name_of(k@) == name@,
            None => forall|k: Seq<u8>| #[trigger] entry_name_of(k) != name@,
        },
{
    if name.len() % 2 != 0 {
        proof {
            assert forall|k: Seq<u8>| #[trigger] entry_name_of(k) != name@ by {
                lemma_entry_name_pairs(k);
            }
        }
        return None;
    }
    let len = name.len();
    let half = len / 2;
    let mut out: Vec<u8> = Vec::new();
    let mut i: usize = 0;
    while i < half
        invariant
            i <= half,
            2 * half == name@.len(),
            name@.len() == len,
            out@.len() == i,
            entry_name_of(out@) == name@.subrange(0, 2 * i),
        decreases half - i,
    {
        let ghost pair = name@.subrange(2 * i, 2 * i + 2);
        match parse_hex(name, 2 * i, 2) {
            Some(v) => {
                proof {
                    lemma_pow16_values();
                    reveal_with_fuel(pow16, 3);
                    lemma_hex_canonical(pair);
                }
                let ghost prev = out@;
                out.push(v as u8);
                proof {
                    assert(out@.drop_last() =~= prev);
                    assert(name@.subrange(0, 2 * i + 2) =~= name@.subrange(0, 2 * i) + pair);
                }
                i = i + 1;
            },
            None => {
                proof {
                    assert forall|k: Seq<u8>| #[trigger] entry_name_of(k) != name@ by {
                        if entry_name_of(k) == name@ {
                            lemma_entry_name_pairs(k);
                            lemma_byte_digits(k[i as int]);
                            assert(name@.subrange(2 * i, 2 * i + 2) == hex_digits(k[i as int] as nat, 2));
                        }
                    }
                }
                return None;
            },
        }
    }
    assert(name@.subrange(0, 2 * half as int) =~= name@);
    Some(out)
}

} // verus!

//! Wire codec for persisted configuration records and request payloads.
//!
//! Integers ride as LEB128 varints (seven value bits per byte, low group
//! first, high bit of each byte marking a continuation), single bytes ride
//! raw, and a tagged variant is its variant number as a varint followed by
//! the variant's fields. Adding new variants never changes the encoding of
//! existing ones, so readers can treat an unrecognized variant tag as
//! "absent" rather than as corruption.

use vstd::arithmetic::div_mod::lemma_fundamental_div_mod;
use vstd::prelude::*;

use crate::expression::{Expression, ExpressionIndex};

verus! {

/// The varint encoding of `v`: base-128 digits, least significant first,
/// every byte but the last carrying the continuation bit.
pub open spec fn spec_varint(v: nat) -> Seq<u8>
    decreases v,
{
    if v < 0x80 {
        seq![v as u8]
    } else {
        seq![(v % 0x80 + 0x80) as u8] + spec_varint(v / 0x80)
    }
}

/// Reads one varint of at most `max` bytes from the front of `s`, giving the
/// value and the number of bytes consumed.
pub open spec fn spec_take_varint(s: Seq<u8>, max: nat) -> Option<(nat, nat)>
    decreases max,
{
    if s.len() == 0 || max == 0 {
        None
    } else if s[0] < 0x80 {
        Some((s[0] as nat, 1nat))
    } else {
        match spec_take_varint(s.skip(1), (max - 1) as nat) {
            None => None,
            Some(vl) => Some(((s[0] - 0x80) as nat + 0x80 * vl.0, vl.1 + 1)),
        }
    }
}

/// 128 raised to `n`; a varint of at most `n` bytes is a value below this.
pub open spec fn pow128(n: nat) -> nat
    decreases n,
{
    if n == 0 {
        1
    } else {
        0x80 * pow128((n - 1) as nat)
    }
}

/// A longer varint budget never admits fewer values.
pub proof fn lemma_pow128_monotone(a: nat, b: nat)
    requires
        a <= b,
    ensures
        pow128(a) <= pow128(b),
    decreases b,
{
    if a < b {
        lemma_pow128_monotone(a, (b - 1) as nat);
        assert(pow128(b) == 0x80 * pow128((b - 1) as nat));
    }
}

/// A successfully read varint of at most `max` bytes is a value below
/// `pow128(max)` and consumed between 1 and `max` bytes, no more than were
/// there.
pub proof fn lemma_take_varint_bound(s: Seq<u8>, max: nat)
    ensures
        match spec_take_varint(s, max) {
            None => true,
            Some(vl) => vl.0 < pow128(max) && 1 <= vl.1 <= max && vl.1 <= s.len(),
        },
    decreases max,
{
    if s.len() == 0 || max == 0 {
    } else if s[0] < 0x80 {
        assert(pow128(max) == 0x80 * pow128((max - 1) as nat));
        lemma_pow128_monotone(0, (max - 1) as nat);
    } else {
        lemma_take_varint_bound(s.skip(1), (max - 1) as nat);
        match spec_take_varint(s.skip(1), (max - 1) as nat) {
            None => {},
            Some(vl) => {
                assert(pow128(max) == 0x80 * pow128((max - 1) as nat));
            },
        }
    }
}

/// The length of an encoded varint: one byte per base-128 digit.
pub proof fn lemma_varint_len(v: nat)
    ensures
        1 <= spec_varint(v).len(),
        v < pow128(spec_varint(v).len()),
        forall|n: nat| v < pow128(n) && n >= 1 ==> spec_varint(v).len() <= n,
    decreases v,
{
    if v < 0x80 {
        assert(pow128(1nat) == 0x80 * pow128(0nat));
        assert forall|n: nat| v < pow128(n) && n >= 1 implies spec_varint(v).len() <= n by {}
    } else {
        lemma_varint_len(v / 0x80);
        let l = spec_varint(v / 0x80).len();
        assert(spec_varint(v).len() == l + 1);
        assert(pow128(l + 1) == 0x80 * pow128(l));
        lemma_fundamental_div_mod(v as int, 0x80);
        assert forall|n: nat| v < pow128(n) && n >= 1 implies spec_varint(v).len() <= n by {
            if n == 1 {
                assert(pow128(1nat) == 0x80 * pow128(0nat));
            } else {
                assert(pow128(n) == 0x80 * pow128((n - 1) as nat));
                assert(v / 0x80 < pow128((n - 1) as nat));
            }
        }
    }
}

/// Round trip: a varint written by `spec_varint` reads back as the same
/// value, whatever follows it, as long as the read budget covers it.
pub proof fn lemma_varint_round_trip(v: nat, rest: Seq<u8>, max: nat)
    requires
        spec_varint(v).len() <= max,
    ensures
        spec_take_varint(spec_varint(v) + rest, max) == Some((v, spec_varint(v).len())),
    decreases v,
{
    let s = spec_varint(v) + rest;
    if v < 0x80 {
        assert(s[0] == v as u8);
    } else {
        let b = (v % 0x80 + 0x80) as u8;
        assert(s[0] == b);
        assert(b >= 0x80);
        lemma_varint_round_trip(v / 0x80, rest, (max - 1) as nat);
        assert(s.skip(1) =~= spec_varint(v / 0x80) + rest);
        lemma_fundamental_div_mod(v as int, 0x80);
        assert((b - 0x80) as nat + 0x80 * (v / 0x80) == v);
    }
}

/// Appends the varint encoding of `v` to `out`.
pub fn push_varint(out: &mut Vec<u8>, v: u64)
    ensures
        final(out)@ == old(out)@ + spec_varint(v as nat),
    decreases v,
{
    if v < 0x80 {
        out.push(v as u8);
        proof {
            assert(final(out)@ =~= old(out)@ + spec_varint(v as nat));
        }
    } else {
        out.push((v % 0x80 + 0x80) as u8);
        push_varint(out, v / 0x80);
        proof {
            assert((v % 0x80 + 0x80) as u8 == ((v as nat) % 0x80 + 0x80) as u8);
            assert((v / 0x80) as nat == (v as nat) / 0x80);
            assert(final(out)@ =~= old(out)@ + spec_varint(v as nat));
        }
    }
}

/// Reads one varint of at most `max` bytes from `data` at `pos`, giving the
/// value and the position after it.
pub fn take_varint(data: &Vec<u8>, pos: usize, max: u8) -> (r: Option<(u64, usize)>)
    requires
        pos <= data@.len(),
        max <= 5,
    ensures
        match spec_take_varint(data@.skip(pos as int), max as nat) {
            None => r is None,
            Some(vl) => {
                &&& r matches Some(p2)
                &&& p2.0 == vl.0
                &&& p2.1 == pos + vl.1
            },
        },
    decreases max,
{
    let ghost s = data@.skip(pos as int);
    proof {
        lemma_take_varint_bound(s, max as nat);
        lemma_pow128_monotone(max as nat, 5);
        assert(pow128(1nat) == 0x80 * pow128(0nat));
        assert(pow128(2nat) == 0x80 * pow128(1nat));
        assert(pow128(3nat) == 0x80 * pow128(2nat));
        assert(pow128(4nat) == 0x80 * pow128(3nat));
        assert(pow128(5nat) == 0x80 * pow128(4nat));
    }
    if max == 0 || pos == data.len() {
        None
    } else {
        let b = data[pos];
        proof {
            assert(s[0] == data@[pos as int]);
        }
        if b < 0x80 {
            Some((b as u64, pos + 1))
        } else {
            proof {
                assert(data@.skip(pos as int + 1) =~= s.skip(1));
                lemma_take_varint_bound(s.skip(1), (max - 1) as nat);
                lemma_pow128_monotone((max - 1) as nat, 4);
            }
            match take_varint(data, pos + 1, max - 1) {
                None => None,
                Some((v, np)) => Some(((b - 0x80) as u64 + 0x80 * v, np)),
            }
        }
    }
}

/// The seven bitmap rows, each as a varint, in row order.
pub open spec fn spec_encode_rows(rows: Seq<u16>) -> Seq<u8>
    decreases rows.len(),
{
    if rows.len() == 0 {
        Seq::empty()
    } else {
        spec_varint(rows[0] as nat) + spec_encode_rows(rows.skip(1))
    }
}

/// Encoding one more row appends that row's varint.
pub proof fn lemma_encode_rows_push(rows: Seq<u16>, x: u16)
    ensures
        spec_encode_rows(rows.push(x)) == spec_encode_rows(rows) + spec_varint(x as nat),
    decreases rows.len(),
{
    if rows.len() == 0 {
        assert(rows.push(x)[0] == x);
        assert(rows.push(x).skip(1) =~= Seq::<u16>::empty());
        assert(spec_encode_rows(rows.push(x)) == spec_varint(x as nat) + spec_encode_rows(
            Seq::<u16>::empty(),
        ));
        assert(spec_encode_rows(Seq::<u16>::empty()) == Seq::<u8>::empty());
        assert(spec_encode_rows(rows) == Seq::<u8>::empty());
        assert(spec_encode_rows(rows.push(x)) =~= spec_encode_rows(rows) + spec_varint(x as nat));
    } else {
        assert(rows.push(x).skip(1) =~= rows.skip(1).push(x));
        lemma_encode_rows_push(rows.skip(1), x);
        assert(spec_encode_rows(rows.push(x)) =~= spec_encode_rows(rows) + spec_varint(x as nat));
    }
}

/// Each row's varint is at most three bytes, so seven rows fit in 21 bytes.
pub proof fn lemma_encode_rows_len(rows: Seq<u16>)
    ensures
        spec_encode_rows(rows).len() <= 3 * rows.len(),
    decreases rows.len(),
{
    if rows.len() > 0 {
        lemma_varint_len(rows[0] as nat);
        assert(pow128(1nat) == 0x80 * pow128(0nat));
        assert(pow128(2nat) == 0x80 * pow128(1nat));
        assert(pow128(3nat) == 0x80 * pow128(2nat));
        assert((rows[0] as nat) < pow128(3nat));
        lemma_encode_rows_len(rows.skip(1));
    }
}

/// Reads `n` varint rows from the front of `s`, each of which must fit a
/// `u16`, giving the rows and the number of bytes consumed.
pub open spec fn spec_take_rows(s: Seq<u8>, n: nat) -> Option<(Seq<u16>, nat)>
    decreases n,
{
    if n == 0 {
        Some((Seq::empty(), 0nat))
    } else {
        match spec_take_varint(s, 3) {
            None => None,
            Some(vl) => if vl.0 <= u16::MAX as nat {
                match spec_take_rows(s.skip(vl.1 as int), (n - 1) as nat) {
                    None => None,
                    Some(rl) => Some((seq![vl.0 as u16] + rl.0, vl.1 + rl.1)),
                }
            } else {
                None
            },
        }
    }
}

/// Round trip: rows written by `spec_encode_rows` read back unchanged,
/// whatever follows them.
pub proof fn lemma_rows_round_trip(rows: Seq<u16>, rest: Seq<u8>)
    ensures
        spec_take_rows(spec_encode_rows(rows) + rest, rows.len()) == Some(
            (rows, spec_encode_rows(rows).len()),
        ),
    decreases rows.len(),
{
    if rows.len() == 0 {
        assert(spec_take_rows(spec_encode_rows(rows) + rest, 0) == Some(
            (Seq::<u16>::empty(), 0nat),
        ));
        assert(rows =~= Seq::<u16>::empty());
    } else {
        let v = rows[0];
        let tail_bytes = spec_encode_rows(rows.skip(1));
        lemma_varint_len(v as nat);
        assert(pow128(1nat) == 0x80 * pow128(0nat));
        assert(pow128(2nat) == 0x80 * pow128(1nat));
        assert(pow128(3nat) == 0x80 * pow128(2nat));
        assert((v as nat) < pow128(3nat));
        let lv = spec_varint(v as nat).len();
        lemma_varint_round_trip(v as nat, tail_bytes + rest, 3);
        let s = spec_encode_rows(rows) + rest;
        assert(s =~= spec_varint(v as nat) + (tail_bytes + rest));
        assert(spec_take_varint(s, 3) == Some((v as nat, lv)));
        assert(s.skip(lv as int) =~= tail_bytes + rest);
        lemma_rows_round_trip(rows.skip(1), rest);
        assert(seq![v] + rows.skip(1) =~= rows);
    }
}

/// Appends the seven rows of `e` to `out`.
pub fn push_rows(out: &mut Vec<u8>, e: &Expression)
    ensures
        final(out)@ == old(out)@ + spec_encode_rows(e.pixels@),
{
    let mut k: usize = 0;
    while k < 7
        invariant
            k <= 7,
            out@ == old(out)@ + spec_encode_rows(e.pixels@.take(k as int)),
        decreases 7 - k,
    {
        push_varint(out, e.pixels[k] as u64);
        proof {
            assert(e.pixels@.take(k + 1 as int) =~= e.pixels@.take(k as int).push(
                e.pixels@[k as int],
            ));
            lemma_encode_rows_push(e.pixels@.take(k as int), e.pixels@[k as int]);
            assert(out@ =~= old(out)@ + spec_encode_rows(e.pixels@.take(k + 1 as int)));
        }
        k = k + 1;
    }
    proof {
        assert(e.pixels@.take(7int) =~= e.pixels@);
    }
}

/// Reads seven varint rows from `data` at `pos` as a bitmap.
pub fn take_rows(data: &Vec<u8>, pos: usize) -> (r: Option<(Expression, usize)>)
    requires
        pos <= data@.len(),
    ensures
        match spec_take_rows(data@.skip(pos as int), 7) {
            None => r is None,
            Some(rl) => match r {
                Some(p) => p.0.pixels@ == rl.0 && p.1 == pos + rl.1,
                None => false,
            },
        },
{
    let mut pixels: [u16; 7] = [0u16; 7];
    let mut p: usize = pos;
    let mut k: usize = 0;
    while k < 7
        invariant
            k <= 7,
            pos <= p <= data@.len(),
            match spec_take_rows(data@.skip(p as int), (7 - k) as nat) {
                None => spec_take_rows(data@.skip(pos as int), 7) is None,
                Some(rl) => match spec_take_rows(data@.skip(pos as int), 7) {
                    Some(full) => full.0 == pixels@.take(k as int) + rl.0 && full.1 == (p - pos)
                        + rl.1,
                    None => false,
                },
            },
        decreases 7 - k,
    {
        let ghost s = data@.skip(p as int);
        match take_varint(data, p, 3) {
            None => {
                return None;
            },
            Some((v, np)) => {
                if v > 0xFFFF {
                    return None;
                }
                proof {
                    lemma_take_varint_bound(s, 3);
                    let vl = spec_take_varint(s, 3).unwrap();
                    assert(vl.1 <= s.len());
                    assert(p + vl.1 <= data@.len());
                    assert(np == p + vl.1);
                    assert(data@.skip(np as int) =~= s.skip(vl.1 as int));
                }
                pixels[k] = v as u16;
                proof {
                    assert(pixels@.take(k + 1 as int) =~= pixels@.take(k as int).push(v as u16));
                }
                p = np;
                k = k + 1;
            },
        }
    }
    proof {
        assert(spec_take_rows(data@.skip(p as int), 0nat) == Some((Seq::<u16>::empty(), 0nat)));
        let full = spec_take_rows(data@.skip(pos as int), 7).unwrap();
        assert(full.0 =~= pixels@.take(7int) + Seq::<u16>::empty());
        assert(pixels@.take(7int) =~= pixels@);
    }
    Some((Expression { pixels }, p))
}

/// A configuration slot. Each variant carries an explicit schema-version
/// suffix; a new layout for a slot gets a new variant, never a change to an
/// old one.
#[derive(Clone, Copy, Debug, PartialEq, Eq, Structural)]
pub enum ConfigKey {
    ExpressionV0(ExpressionIndex),
    BrightnessV0,
}

/// A stored configuration payload, versioned per variant like [`ConfigKey`].
#[derive(Clone, Copy, Debug)]
pub enum ConfigValue {
    ExpressionV0(Expression),
    BrightnessV0(u8),
}

/// The mathematical content of a [`ConfigValue`]: the bitmap rows or the
/// brightness byte.
#[verifier::ext_equal]
pub enum ConfigValueModel {
    ExpressionV0(Seq<u16>),
    BrightnessV0(u8),
}

impl View for ConfigValue {
    type V = ConfigValueModel;

    open spec fn view(&self) -> ConfigValueModel {
        match self {
            ConfigValue::ExpressionV0(e) => ConfigValueModel::ExpressionV0(e.pixels@),
            ConfigValue::BrightnessV0(b) => ConfigValueModel::BrightnessV0(*b),
        }
    }
}

/// The variant number of a display mode on the wire.
pub open spec fn spec_index_tag(index: ExpressionIndex) -> u8 {
    match index {
        ExpressionIndex::Default => 0,
        ExpressionIndex::Blink => 1,
        ExpressionIndex::Friend => 2,
        ExpressionIndex::FriendBlink => 3,
    }
}

/// The display mode named by a wire variant number, if any.
pub open spec fn spec_tag_index(tag: nat) -> Option<ExpressionIndex> {
    if tag == 0 {
        Some(ExpressionIndex::Default)
    } else if tag == 1 {
        Some(ExpressionIndex::Blink)
    } else if tag == 2 {
        Some(ExpressionIndex::Friend)
    } else if tag == 3 {
        Some(ExpressionIndex::FriendBlink)
    } else {
        None
    }
}

/// The display mode named by a wire variant number, if any.
pub fn index_from_tag(tag: u64) -> (r: Option<ExpressionIndex>)
    ensures
        r == spec_tag_index(tag as nat),
{
    if tag == 0 {
        Some(ExpressionIndex::Default)
    } else if tag == 1 {
        Some(ExpressionIndex::Blink)
    } else if tag == 2 {
        Some(ExpressionIndex::Friend)
    } else if tag == 3 {
        Some(ExpressionIndex::FriendBlink)
    } else {
        None
    }
}

/// The encoded form of a key: its variant tag, then its fields. At most two
/// bytes, comfortably below the ten-byte key budget of a record.
pub open spec fn spec_encode_key(k: ConfigKey) -> Seq<u8> {
    match k {
        ConfigKey::ExpressionV0(index) => seq![0u8, spec_index_tag(index)],
        ConfigKey::BrightnessV0 => seq![1u8],
    }
}

/// Different keys never share an encoding, so records for one slot can never
/// shadow another slot's.
pub proof fn lemma_encode_key_injective(k1: ConfigKey, k2: ConfigKey)
    requires
        spec_encode_key(k1) == spec_encode_key(k2),
    ensures
        k1 == k2,
{
    assert(spec_encode_key(k1)[0] == spec_encode_key(k2)[0]);
    match (k1, k2) {
        (ConfigKey::ExpressionV0(i1), ConfigKey::ExpressionV0(i2)) => {
            assert(spec_encode_key(k1)[1] == spec_encode_key(k2)[1]);
        },
        _ => {},
    }
}

/// Encodes a key.
pub fn encode_key(k: ConfigKey) -> (r: Vec<u8>)
    ensures
        r@ == spec_encode_key(k),
{
    let mut out: Vec<u8> = Vec::new();
    match k {
        ConfigKey::ExpressionV0(index) => {
            out.push(0u8);
            let tag: u8 = match index {
                ExpressionIndex::Default => 0,
                ExpressionIndex::Blink => 1,
                ExpressionIndex::Friend => 2,
                ExpressionIndex::FriendBlink => 3,
            };
            out.push(tag);
            proof {
                assert(out@ =~= spec_encode_key(k));
            }
        },
        ConfigKey::BrightnessV0 => {
            out.push(1u8);
            proof {
                assert(out@ =~= spec_encode_key(k));
            }
        },
    }
    out
}

/// The encoded form of a value: its variant tag, then its fields. At most 22
/// bytes, comfortably below the 35-byte value budget of a record.
pub open spec fn spec_encode_value(m: ConfigValueModel) -> Seq<u8> {
    match m {
        ConfigValueModel::ExpressionV0(rows) => seq![0u8] + spec_encode_rows(rows),
        ConfigValueModel::BrightnessV0(b) => seq![1u8, b],
    }
}

/// Every encoded value is within the record value budget.
pub proof fn lemma_encode_value_len(m: ConfigValueModel)
    requires
        m matches ConfigValueModel::ExpressionV0(rows) ==> rows.len() == 7,
    ensures
        spec_encode_value(m).len() <= 22,
{
    match m {
        ConfigValueModel::ExpressionV0(rows) => {
            lemma_encode_rows_len(rows);
        },
        ConfigValueModel::BrightnessV0(_) => {},
    }
}

/// Decodes a value: the tag selects the variant, an unrecognized tag is
/// `None`, and bytes past the recognized fields are ignored, so records
/// written by a future schema with extra variants or suffixes read as
/// "absent" rather than failing.
pub open spec fn spec_decode_value(s: Seq<u8>) -> Option<ConfigValueModel> {
    if s.len() == 0 {
        None
    } else if s[0] == 0 {
        match spec_take_rows(s.skip(1), 7) {
            None => None,
            Some(rl) => Some(ConfigValueModel::ExpressionV0(rl.0)),
        }
    } else if s[0] == 1 {
        if s.len() >= 2 {
            Some(ConfigValueModel::BrightnessV0(s[1]))
        } else {
            None
        }
    } else {
        None
    }
}

/// Round trip: every value reads back exactly as it was written.
pub proof fn lemma_value_round_trip(m: ConfigValueModel)
    requires
        m matches ConfigValueModel::ExpressionV0(rows) ==> rows.len() == 7,
    ensures
        spec_decode_value(spec_encode_value(m)) == Some(m),
{
    match m {
        ConfigValueModel::ExpressionV0(rows) => {
            let s = spec_encode_value(m);
            assert(s[0] == 0);
            lemma_rows_round_trip(rows, Seq::<u8>::empty());
            assert(spec_encode_rows(rows) + Seq::<u8>::empty() =~= spec_encode_rows(rows));
            assert(s.skip(1) =~= spec_encode_rows(rows));
        },
        ConfigValueModel::BrightnessV0(b) => {
            let s = spec_encode_value(m);
            assert(s[0] == 1 && s[1] == b && s.len() == 2);
        },
    }
}

/// Forward compatibility: a value record written under a variant tag this
/// build does not recognize reads as "absent", never as an error, so a
/// device downgraded across a schema change keeps running on defaults.
pub proof fn lemma_unrecognized_variant_absent(s: Seq<u8>)
    requires
        s.len() > 0,
        s[0] != 0,
        s[0] != 1,
    ensures
        spec_decode_value(s) is None,
{
}

/// Encodes a value.
pub fn encode_value(v: &ConfigValue) -> (r: Vec<u8>)
    ensures
        r@ == spec_encode_value(v@),
{
    let mut out: Vec<u8> = Vec::new();
    match v {
        ConfigValue::ExpressionV0(e) => {
            out.push(0u8);
            push_rows(&mut out, e);
            proof {
                assert(out@ =~= spec_encode_value(v@));
            }
        },
        ConfigValue::BrightnessV0(b) => {
            out.push(1u8);
            out.push(*b);
            proof {
                assert(out@ =~= spec_encode_value(v@));
            }
        },
    }
    out
}

/// Decodes a value; `None` is an unrecognized or truncated record.
pub fn decode_value(data: &Vec<u8>) -> (r: Option<ConfigValue>)
    ensures
        match r {
            None => spec_decode_value(data@) is None,
            Some(v) => spec_decode_value(data@) == Some(v@),
        },
{
    if data.len() == 0 {
        return None;
    }
    let b0 = data[0];
    if b0 == 0 {
        match take_rows(data, 1) {
            None => None,
            Some((e, _)) => Some(ConfigValue::ExpressionV0(e)),
        }
    } else if b0 == 1 {
        if data.len() >= 2 {
            Some(ConfigValue::BrightnessV0(data[1]))
        } else {
            None
        }
    } else {
        None
    }
}

} // verus!

//! Durable, schema-versioned key-value configuration store.
//!
//! Reads never fail: a missing record, a corrupt record, or a record whose
//! variant this build does not recognize all fall back to the compiled-in
//! default for the slot. Writes are single atomic records appended through
//! the log; a failed append reports [`Error::Storage`] and leaves every
//! slot reading exactly what it read before.

use vstd::prelude::*;

use crate::codec::{
    decode_value, encode_key, encode_value, lemma_encode_key_injective, lemma_encode_value_len,
    lemma_value_round_trip, spec_decode_value, spec_encode_key, spec_encode_value, ConfigKey,
    ConfigValue, ConfigValueModel,
};
use crate::error::Error;
use crate::expression::{Expression, ExpressionIndex};
use crate::log::{spec_compacted, spec_latest, total_size, LogModel, RecordLog};

verus! {

/// The built-in brightness used until a brightness has been stored.
pub const DEFAULT_BRIGHTNESS: u8 = 0x2f;

/// The built-in bitmap rows for a display mode: the fixed smiley for the
/// open-eyed modes, the fixed closed-eyed face for the blink modes.
pub open spec fn spec_default_rows(index: ExpressionIndex) -> Seq<u16> {
    match index {
        ExpressionIndex::Default | ExpressionIndex::Friend => seq![
            0b000_0000_0000_0000u16,
            0b001_1000_0000_1100u16,
            0b010_0100_0001_0010u16,
            0b010_0100_0001_0010u16,
            0b001_1001_0100_1100u16,
            0b000_0001_1100_0000u16,
            0b000_0000_0000_0000u16,
        ],
        ExpressionIndex::Blink | ExpressionIndex::FriendBlink => seq![
            0b000_0000_0000_0000u16,
            0b000_0000_0000_0000u16,
            0b011_1100_0001_1110u16,
            0b000_0000_0000_0000u16,
            0b000_0001_0100_0000u16,
            0b000_0001_1100_0000u16,
            0b000_0000_0000_0000u16,
        ],
    }
}

/// The value stored under `key`, read through the newest record for the key;
/// `None` when no record exists or its variant is unrecognized.
pub open spec fn spec_stored_value(rs: Seq<crate::log::RecordModel>, key: ConfigKey) -> Option<
    ConfigValueModel,
> {
    match spec_latest(rs, spec_encode_key(key)) {
        None => None,
        Some(bytes) => spec_decode_value(bytes),
    }
}

/// The bitmap rows stored for a display mode, when the slot holds a
/// recognized bitmap value.
pub open spec fn spec_stored_expression(
    rs: Seq<crate::log::RecordModel>,
    index: ExpressionIndex,
) -> Option<Seq<u16>> {
    match spec_stored_value(rs, ConfigKey::ExpressionV0(index)) {
        Some(ConfigValueModel::ExpressionV0(rows)) => Some(rows),
        _ => None,
    }
}

/// The brightness stored, when the slot holds a recognized brightness value.
pub open spec fn spec_stored_brightness(rs: Seq<crate::log::RecordModel>) -> Option<u8> {
    match spec_stored_value(rs, ConfigKey::BrightnessV0) {
        Some(ConfigValueModel::BrightnessV0(b)) => Some(b),
        _ => None,
    }
}

/// What a read of a display mode returns: the stored bitmap rows, or the
/// built-in default when nothing recognized is stored.
pub open spec fn spec_rows_or_default(
    rs: Seq<crate::log::RecordModel>,
    index: ExpressionIndex,
) -> Seq<u16> {
    match spec_stored_expression(rs, index) {
        Some(rows) => rows,
        None => spec_default_rows(index),
    }
}

/// What a read of the brightness returns: the stored byte, or the built-in
/// default when nothing recognized is stored.
pub open spec fn spec_brightness_or_default(rs: Seq<crate::log::RecordModel>) -> u8 {
    match spec_stored_brightness(rs) {
        Some(b) => b,
        None => DEFAULT_BRIGHTNESS,
    }
}

/// Whether the region can take one more record for `key` and `value` after
/// reclamation; appends succeed exactly when this holds.
pub open spec fn spec_can_store(lm: LogModel, key: ConfigKey, value: ConfigValueModel) -> bool {
    total_size(spec_compacted(lm.records)) + spec_encode_key(key).len() + spec_encode_value(
        value,
    ).len() <= lm.capacity
}

/// Default fallback: a display-mode slot that was never written — no
/// record carries its key — reads as the built-in default bitmap.
pub proof fn lemma_default_fallback_expression(
    rs: Seq<crate::log::RecordModel>,
    index: ExpressionIndex,
)
    requires
        spec_latest(rs, spec_encode_key(ConfigKey::ExpressionV0(index))) is None,
    ensures
        spec_rows_or_default(rs, index) == spec_default_rows(index),
{
}

/// Default fallback: a brightness slot that was never written reads as the
/// built-in default brightness.
pub proof fn lemma_default_fallback_brightness(rs: Seq<crate::log::RecordModel>)
    requires
        spec_latest(rs, spec_encode_key(ConfigKey::BrightnessV0)) is None,
    ensures
        spec_brightness_or_default(rs) == DEFAULT_BRIGHTNESS,
{
}

/// Round-trip durability: when the region has room, storing a bitmap under
/// a display mode leaves a log whose read of that mode returns exactly the
/// stored rows. The log is the whole store state, and closing and
/// reopening carry it over unchanged, so the read is the same after a
/// power cycle.
pub proof fn lemma_round_trip_expression(lm: LogModel, index: ExpressionIndex, rows: Seq<u16>)
    requires
        rows.len() == 7,
        spec_can_store(lm, ConfigKey::ExpressionV0(index), ConfigValueModel::ExpressionV0(rows)),
    ensures
        ({
            let rs2 = crate::log::spec_append_records(
                lm.records,
                lm.capacity,
                spec_encode_key(ConfigKey::ExpressionV0(index)),
                spec_encode_value(ConfigValueModel::ExpressionV0(rows)),
            );
            spec_rows_or_default(rs2, index) == rows
        }),
{
    let key = spec_encode_key(ConfigKey::ExpressionV0(index));
    let value = spec_encode_value(ConfigValueModel::ExpressionV0(rows));
    let rs2 = crate::log::spec_append_records(lm.records, lm.capacity, key, value);
    crate::log::lemma_compacted_size(lm.records);
    if total_size(lm.records) + crate::log::record_size(
        crate::log::RecordModel { key, value },
    ) <= lm.capacity {
        crate::log::lemma_latest_push(
            lm.records,
            crate::log::RecordModel { key, value },
            key,
        );
    } else {
        crate::log::lemma_latest_push(
            spec_compacted(lm.records),
            crate::log::RecordModel { key, value },
            key,
        );
    }
    lemma_value_round_trip(ConfigValueModel::ExpressionV0(rows));
}

/// Round-trip durability for the brightness slot, as for bitmaps.
pub proof fn lemma_round_trip_brightness(lm: LogModel, b: u8)
    requires
        spec_can_store(lm, ConfigKey::BrightnessV0, ConfigValueModel::BrightnessV0(b)),
    ensures
        ({
            let rs2 = crate::log::spec_append_records(
                lm.records,
                lm.capacity,
                spec_encode_key(ConfigKey::BrightnessV0),
                spec_encode_value(ConfigValueModel::BrightnessV0(b)),
            );
            spec_brightness_or_default(rs2) == b
        }),
{
    let key = spec_encode_key(ConfigKey::BrightnessV0);
    let value = spec_encode_value(ConfigValueModel::BrightnessV0(b));
    crate::log::lemma_compacted_size(lm.records);
    if total_size(lm.records) + crate::log::record_size(
        crate::log::RecordModel { key, value },
    ) <= lm.capacity {
        crate::log::lemma_latest_push(
            lm.records,
            crate::log::RecordModel { key, value },
            key,
        );
    } else {
        crate::log::lemma_latest_push(
            spec_compacted(lm.records),
            crate::log::RecordModel { key, value },
            key,
        );
    }
    lemma_value_round_trip(ConfigValueModel::BrightnessV0(b));
}

/// The built-in default bitmap for a display mode.
pub fn default_expression(index: ExpressionIndex) -> (r: Expression)
    ensures
        r.pixels@ == spec_default_rows(index),
{
    let r = match index {
        ExpressionIndex::Default | ExpressionIndex::Friend => Expression {
            pixels: [
                0b000_0000_0000_0000u16,
                0b001_1000_0000_1100u16,
                0b010_0100_0001_0010u16,
                0b010_0100_0001_0010u16,
                0b001_1001_0100_1100u16,
                0b000_0001_1100_0000u16,
                0b000_0000_0000_0000u16,
            ],
        },
        ExpressionIndex::Blink | ExpressionIndex::FriendBlink => Expression {
            pixels: [
                0b000_0000_0000_0000u16,
                0b000_0000_0000_0000u16,
                0b011_1100_0001_1110u16,
                0b000_0000_0000_0000u16,
                0b000_0001_0100_0000u16,
                0b000_0001_1100_0000u16,
                0b000_0000_0000_0000u16,
            ],
        },
    };
    proof {
        assert(r.pixels@ =~= spec_default_rows(index));
    }
    r
}

/// Durable key-value persistence over a fixed region of the record log,
/// with default-fallback reads.
pub struct ConfigStore {
    log: RecordLog,
}

impl View for ConfigStore {
    type V = LogModel;

    closed spec fn view(&self) -> LogModel {
        self.log@
    }
}

impl ConfigStore {
    /// The underlying log fits its region and every record is within
    /// budget.
    pub closed spec fn wf(self) -> bool {
        self.log.wf()
    }

    /// A store over a fresh region of `capacity` bytes; every slot reads
    /// its default.
    pub fn new(capacity: usize) -> (r: Self)
        ensures
            r.wf(),
            r@.records == Seq::<crate::log::RecordModel>::empty(),
            r@.capacity == capacity,
            forall|index: ExpressionIndex|
                #[trigger] spec_stored_expression(r@.records, index) is None,
            spec_stored_brightness(r@.records) is None,
    {
        let s = ConfigStore { log: RecordLog::new(capacity) };
        s
    }

    /// Reopens a store over a region that already holds records, as at
    /// power-up.
    pub fn from_log(log: RecordLog) -> (r: Self)
        requires
            log.wf(),
        ensures
            r.wf(),
            r@ == log@,
    {
        ConfigStore { log }
    }

    /// Releases the underlying region, as at power-down; everything stored
    /// stays in it.
    pub fn into_log(self) -> (r: RecordLog)
        requires
            self.wf(),
        ensures
            r.wf(),
            r@ == self@,
    {
        self.log
    }

    /// The bitmap for a display mode: the stored one when a recognized
    /// bitmap record exists, the built-in default otherwise. Never fails.
    pub fn get_expression(&self, index: ExpressionIndex) -> (r: Expression)
        requires
            self.wf(),
        ensures
            r.pixels@ == match spec_stored_expression(self@.records, index) {
                Some(rows) => rows,
                None => spec_default_rows(index),
            },
    {
        let key = encode_key(ConfigKey::ExpressionV0(index));
        match self.log.fetch_latest(&key) {
            None => default_expression(index),
            Some(bytes) => match decode_value(&bytes) {
                Some(ConfigValue::ExpressionV0(e)) => e,
                _ => default_expression(index),
            },
        }
    }

    /// Durably stores the bitmap for a display mode. On success the slot
    /// reads back exactly this bitmap and no other slot changed; on a full
    /// or failed region nothing changed and the caller gets
    /// [`Error::Storage`].
    pub fn set_expression(&mut self, index: ExpressionIndex, expression: Expression) -> (r: Result<
        (),
        Error,
    >)
        requires
            old(self).wf(),
        ensures
            final(self).wf(),
            final(self)@.capacity == old(self)@.capacity,
            r is Ok <==> spec_can_store(
                old(self)@,
                ConfigKey::ExpressionV0(index),
                ConfigValueModel::ExpressionV0(expression.pixels@),
            ),
            r is Ok ==> spec_stored_expression(final(self)@.records, index) == Some(
                expression.pixels@,
            ),
            r is Ok ==> forall|i2: ExpressionIndex|
                i2 != index ==> #[trigger] spec_stored_expression(final(self)@.records, i2)
                    == spec_stored_expression(old(self)@.records, i2),
            r is Ok ==> spec_stored_brightness(final(self)@.records) == spec_stored_brightness(
                old(self)@.records,
            ),
            r is Err ==> forall|i2: ExpressionIndex|
                #[trigger] spec_stored_expression(final(self)@.records, i2)
                    == spec_stored_expression(old(self)@.records, i2),
            r is Err ==> spec_stored_brightness(final(self)@.records) == spec_stored_brightness(
                old(self)@.records,
            ),
            r is Err ==> r == Err::<(), Error>(Error::Storage),
            final(self)@.records == crate::log::spec_append_records(
                old(self)@.records,
                old(self)@.capacity,
                spec_encode_key(ConfigKey::ExpressionV0(index)),
                spec_encode_value(ConfigValueModel::ExpressionV0(expression.pixels@)),
            ),
    {
        let k = ConfigKey::ExpressionV0(index);
        let v = ConfigValue::ExpressionV0(expression);
        let key = encode_key(k);
        let value = encode_value(&v);
        proof {
            lemma_encode_value_len(v@);
        }
        let r = self.log.append(key, value);
        proof {
            lemma_value_round_trip(v@);
            assert forall|i2: ExpressionIndex| i2 != index implies spec_encode_key(
                ConfigKey::ExpressionV0(i2),
            ) != spec_encode_key(k) by {
                if spec_encode_key(ConfigKey::ExpressionV0(i2)) == spec_encode_key(k) {
                    lemma_encode_key_injective(ConfigKey::ExpressionV0(i2), k);
                }
            }
            assert(spec_encode_key(ConfigKey::BrightnessV0).len() != spec_encode_key(k).len());
        }
        r
    }

    /// The stored brightness when a recognized brightness record exists,
    /// the built-in default otherwise. Never fails.
    pub fn get_brightness(&self) -> (r: u8)
        requires
            self.wf(),
        ensures
            r == match spec_stored_brightness(self@.records) {
                Some(b) => b,
                None => DEFAULT_BRIGHTNESS,
            },
    {
        let key = encode_key(ConfigKey::BrightnessV0);
        match self.log.fetch_latest(&key) {
            None => DEFAULT_BRIGHTNESS,
            Some(bytes) => match decode_value(&bytes) {
                Some(ConfigValue::BrightnessV0(b)) => b,
                _ => DEFAULT_BRIGHTNESS,
            },
        }
    }

    /// Durably stores the brightness, with the same guarantees as
    /// [`Self::set_expression`].
    pub fn set_brightness(&mut self, value: u8) -> (r: Result<(), Error>)
        requires
            old(self).wf(),
        ensures
            final(self).wf(),
            final(self)@.capacity == old(self)@.capacity,
            r is Ok <==> spec_can_store(
                old(self)@,
                ConfigKey::BrightnessV0,
                ConfigValueModel::BrightnessV0(value),
            ),
            r is Ok ==> spec_stored_brightness(final(self)@.records) == Some(value),
            r is Ok ==> forall|i2: ExpressionIndex|
                #[trigger] spec_stored_expression(final(self)@.records, i2)
                    == spec_stored_expression(old(self)@.records, i2),
            r is Err ==> forall|i2: ExpressionIndex|
                #[trigger] spec_stored_expression(final(self)@.records, i2)
                    == spec_stored_expression(old(self)@.records, i2),
            r is Err ==> spec_stored_brightness(final(self)@.records) == spec_stored_brightness(
                old(self)@.records,
            ),
            r is Err ==> r == Err::<(), Error>(Error::Storage),
            final(self)@.records == crate::log::spec_append_records(
                old(self)@.records,
                old(self)@.capacity,
                spec_encode_key(ConfigKey::BrightnessV0),
                spec_encode_value(ConfigValueModel::BrightnessV0(value)),
            ),
    {
        let k = ConfigKey::BrightnessV0;
        let v = ConfigValue::BrightnessV0(value);
        let key = encode_key(k);
        let bytes = encode_value(&v);
        proof {
            lemma_encode_value_len(v@);
        }
        let r = self.log.append(key, bytes);
        proof {
            lemma_value_round_trip(v@);
            assert forall|i2: ExpressionIndex| #[trigger] spec_encode_key(
                ConfigKey::ExpressionV0(i2),
            ) != spec_encode_key(k) by {
                assert(spec_encode_key(ConfigKey::ExpressionV0(i2)).len() == 2);
                assert(spec_encode_key(k).len() == 1);
            }
        }
        r
    }
}

} // verus!

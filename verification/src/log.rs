//! Append-only record log over a fixed-size region.
//!
//! This is the durability layer under the configuration store: each write is
//! one whole record of encoded key and value bytes, a read returns the
//! newest record for a key, and space held by superseded records is
//! reclaimed by compaction when the region would otherwise overflow. A
//! reader never sees a partial record, and after compaction every key still
//! reads exactly what it last stored.

use vstd::prelude::*;

use crate::error::Error;

verus! {

/// Upper bound on a record's encoded key, fixed so buffers can be statically
/// sized.
pub const MAX_KEY_BYTES: usize = 10;

/// Upper bound on a record's encoded value, fixed so buffers can be
/// statically sized.
pub const MAX_VALUE_BYTES: usize = 35;

/// One durable record: an encoded key and the value bytes written under it.
pub struct Record {
    pub key: Vec<u8>,
    pub value: Vec<u8>,
}

/// What a record is mathematically: its two byte strings.
#[verifier::ext_equal]
pub struct RecordModel {
    pub key: Seq<u8>,
    pub value: Seq<u8>,
}

impl View for Record {
    type V = RecordModel;

    open spec fn view(&self) -> RecordModel {
        RecordModel { key: self.key@, value: self.value@ }
    }
}

/// Bytes a record occupies in the region.
pub open spec fn record_size(r: RecordModel) -> nat {
    r.key.len() + r.value.len()
}

/// Bytes a sequence of records occupies in the region.
pub open spec fn total_size(rs: Seq<RecordModel>) -> nat
    decreases rs.len(),
{
    if rs.len() == 0 {
        0
    } else {
        record_size(rs[0]) + total_size(rs.skip(1))
    }
}

/// The value of the newest record for `key`, if any.
pub open spec fn spec_latest(rs: Seq<RecordModel>, key: Seq<u8>) -> Option<Seq<u8>>
    decreases rs.len(),
{
    if rs.len() == 0 {
        None
    } else if rs.last().key == key {
        Some(rs.last().value)
    } else {
        spec_latest(rs.drop_last(), key)
    }
}

/// The records that survive reclamation: each record outlived by no newer
/// record for the same key, in their order of writing.
pub open spec fn spec_compacted(rs: Seq<RecordModel>) -> Seq<RecordModel>
    decreases rs.len(),
{
    if rs.len() == 0 {
        Seq::empty()
    } else if spec_latest(rs.skip(1), rs[0].key) is Some {
        spec_compacted(rs.skip(1))
    } else {
        seq![rs[0]] + spec_compacted(rs.skip(1))
    }
}

/// Every record's key and value are within the fixed budgets.
pub open spec fn records_wf(rs: Seq<RecordModel>) -> bool {
    forall|i: int|
        0 <= i < rs.len() ==> (#[trigger] rs[i]).key.len() <= MAX_KEY_BYTES && rs[i].value.len()
            <= MAX_VALUE_BYTES
}

/// Appending a record adds exactly its size.
pub proof fn lemma_total_size_push(rs: Seq<RecordModel>, r: RecordModel)
    ensures
        total_size(rs.push(r)) == total_size(rs) + record_size(r),
    decreases rs.len(),
{
    if rs.len() == 0 {
        assert(rs.push(r)[0] == r);
        assert(rs.push(r).skip(1) =~= Seq::<RecordModel>::empty());
        assert(total_size(Seq::<RecordModel>::empty()) == 0);
        assert(total_size(rs.push(r)) == record_size(r) + total_size(
            Seq::<RecordModel>::empty(),
        ));
    } else {
        assert(rs.push(r)[0] == rs[0]);
        assert(rs.push(r).skip(1) =~= rs.skip(1).push(r));
        lemma_total_size_push(rs.skip(1), r);
        assert(total_size(rs.push(r)) == record_size(rs[0]) + total_size(rs.skip(1).push(r)));
    }
}

/// Record sizes add up over concatenation.
pub proof fn lemma_total_size_concat(a: Seq<RecordModel>, b: Seq<RecordModel>)
    ensures
        total_size(a + b) == total_size(a) + total_size(b),
    decreases a.len(),
{
    if a.len() == 0 {
        assert(a + b =~= b);
    } else {
        assert((a + b)[0] == a[0]);
        assert((a + b).skip(1) =~= a.skip(1) + b);
        lemma_total_size_concat(a.skip(1), b);
        assert(total_size(a + b) == record_size(a[0]) + total_size(a.skip(1) + b));
    }
}

/// Appending a record makes it the newest for its key and shadows nothing
/// else.
pub proof fn lemma_latest_push(rs: Seq<RecordModel>, r: RecordModel, key: Seq<u8>)
    ensures
        spec_latest(rs.push(r), key) == if r.key == key {
            Some(r.value)
        } else {
            spec_latest(rs, key)
        },
{
    assert(rs.push(r).last() == r);
    assert(rs.push(r).drop_last() =~= rs);
}

/// Reading around the oldest record: the rest of the log answers first, the
/// oldest record only answers for a key nothing newer mentions.
pub proof fn lemma_latest_head(r: RecordModel, rs: Seq<RecordModel>, key: Seq<u8>)
    ensures
        spec_latest(seq![r] + rs, key) == if spec_latest(rs, key) is Some {
            spec_latest(rs, key)
        } else if r.key == key {
            Some(r.value)
        } else {
            None::<Seq<u8>>
        },
    decreases rs.len(),
{
    let s = seq![r] + rs;
    assert(spec_latest(Seq::<RecordModel>::empty(), key) is None);
    if rs.len() == 0 {
        assert(s.last() == r);
        assert(s.drop_last() =~= Seq::<RecordModel>::empty());
        assert(spec_latest(s.drop_last(), key) is None);
    } else {
        assert(s.last() == rs.last());
        assert(s.drop_last() =~= seq![r] + rs.drop_last());
        lemma_latest_head(r, rs.drop_last(), key);
        if rs.last().key != key {
            assert(spec_latest(s, key) == spec_latest(s.drop_last(), key));
            assert(spec_latest(rs, key) == spec_latest(rs.drop_last(), key));
        }
    }
}

/// Reclamation keeps every key's newest value: the compacted log answers
/// every lookup exactly as the uncompacted log did.
pub proof fn lemma_compacted_latest(rs: Seq<RecordModel>, key: Seq<u8>)
    ensures
        spec_latest(spec_compacted(rs), key) == spec_latest(rs, key),
    decreases rs.len(),
{
    if rs.len() == 0 {
    } else {
        let tail = rs.skip(1);
        lemma_compacted_latest(tail, key);
        lemma_compacted_latest(tail, rs[0].key);
        assert(rs =~= seq![rs[0]] + tail);
        lemma_latest_head(rs[0], tail, key);
        if spec_latest(tail, rs[0].key) is Some {
        } else {
            lemma_latest_head(rs[0], spec_compacted(tail), key);
        }
    }
}

/// Reclamation never grows the log.
pub proof fn lemma_compacted_size(rs: Seq<RecordModel>)
    ensures
        total_size(spec_compacted(rs)) <= total_size(rs),
    decreases rs.len(),
{
    if rs.len() == 0 {
    } else {
        let tail = rs.skip(1);
        lemma_compacted_size(tail);
        if spec_latest(tail, rs[0].key) is Some {
        } else {
            let cs = spec_compacted(tail);
            assert((seq![rs[0]] + cs)[0] == rs[0]);
            assert((seq![rs[0]] + cs).skip(1) =~= cs);
        }
    }
}

/// Reclamation keeps only records that were already there, so their budgets
/// still hold.
pub proof fn lemma_compacted_wf(rs: Seq<RecordModel>)
    requires
        records_wf(rs),
    ensures
        records_wf(spec_compacted(rs)),
    decreases rs.len(),
{
    if rs.len() == 0 {
    } else {
        let tail = rs.skip(1);
        assert(records_wf(tail));
        lemma_compacted_wf(tail);
        if spec_latest(tail, rs[0].key) is Some {
        } else {
            let cs = spec_compacted(tail);
            assert(forall|i: int|
                0 <= i < (seq![rs[0]] + cs).len() ==> (seq![rs[0]] + cs)[i] == if i == 0 {
                    rs[0]
                } else {
                    cs[i - 1]
                });
        }
    }
}

/// There is a newest record for `key` exactly when some record carries it.
pub proof fn lemma_latest_some_iff_present(rs: Seq<RecordModel>, key: Seq<u8>)
    ensures
        (spec_latest(rs, key) is Some) <==> exists|j: int|
            0 <= j < rs.len() && (#[trigger] rs[j]).key == key,
    decreases rs.len(),
{
    if rs.len() == 0 {
    } else if rs.last().key == key {
        assert(rs[rs.len() - 1].key == key);
    } else {
        lemma_latest_some_iff_present(rs.drop_last(), key);
        if spec_latest(rs, key) is Some {
            let j = choose|j: int| 0 <= j < rs.drop_last().len() && (#[trigger] rs.drop_last()[j]).key == key;
            assert(rs[j].key == key);
        } else {
            if exists|j: int| 0 <= j < rs.len() && (#[trigger] rs[j]).key == key {
                let j = choose|j: int| 0 <= j < rs.len() && (#[trigger] rs[j]).key == key;
                assert(rs.drop_last()[j].key == key);
            }
        }
    }
}

/// Byte-string equality.
pub fn bytes_eq(a: &Vec<u8>, b: &Vec<u8>) -> (r: bool)
    ensures
        r == (a@ == b@),
{
    if a.len() != b.len() {
        return false;
    }
    let mut i: usize = 0;
    while i < a.len()
        invariant
            i <= a@.len(),
            a@.len() == b@.len(),
            forall|k: int| 0 <= k < i ==> a@[k] == b@[k],
        decreases a@.len() - i,
    {
        if a[i] != b[i] {
            return false;
        }
        i = i + 1;
    }
    proof {
        assert(a@ =~= b@);
    }
    true
}

/// The log: records in write order, the bytes they occupy, and the size of
/// the fixed region they must fit.
pub struct RecordLog {
    records: Vec<Record>,
    used: usize,
    capacity: usize,
}

/// What the log is mathematically: the records in write order, and the
/// region size.
#[verifier::ext_equal]
pub struct LogModel {
    pub records: Seq<RecordModel>,
    pub capacity: nat,
}

impl View for RecordLog {
    type V = LogModel;

    closed spec fn view(&self) -> LogModel {
        LogModel {
            records: self.records@.map_values(|r: Record| r@),
            capacity: self.capacity as nat,
        }
    }
}

/// Where `append` leaves the records: pushed directly when the region has
/// room, pushed after reclamation when that makes room, and merely
/// reclaimed when even that is not enough and the append fails.
pub open spec fn spec_append_records(
    rs: Seq<RecordModel>,
    capacity: nat,
    key: Seq<u8>,
    value: Seq<u8>,
) -> Seq<RecordModel> {
    let rec = RecordModel { key, value };
    if total_size(rs) + record_size(rec) <= capacity {
        rs.push(rec)
    } else if total_size(spec_compacted(rs)) + record_size(rec) <= capacity {
        spec_compacted(rs).push(rec)
    } else {
        spec_compacted(rs)
    }
}

impl RecordLog {
    /// The records fit the region, their budgets hold, and the cached byte
    /// count is honest.
    pub closed spec fn wf(self) -> bool {
        &&& self.used as nat == total_size(self@.records)
        &&& records_wf(self@.records)
        &&& total_size(self@.records) <= self@.capacity
    }

    /// An empty log over a fresh region of `capacity` bytes.
    pub fn new(capacity: usize) -> (r: Self)
        ensures
            r.wf(),
            r@.records == Seq::<RecordModel>::empty(),
            r@.capacity == capacity,
    {
        let r = RecordLog { records: Vec::new(), used: 0, capacity };
        proof {
            assert(r@.records =~= Seq::<RecordModel>::empty());
        }
        r
    }

    /// The value bytes of the newest record for `key`, if any record carries
    /// that key.
    pub fn fetch_latest(&self, key: &Vec<u8>) -> (r: Option<Vec<u8>>)
        ensures
            match r {
                None => spec_latest(self@.records, key@) is None,
                Some(v) => spec_latest(self@.records, key@) == Some(v@),
            },
    {
        let ghost rs = self@.records;
        let mut i: usize = self.records.len();
        proof {
            assert(rs.take(rs.len() as int) =~= rs);
        }
        while i > 0
            invariant
                i <= rs.len(),
                rs == self@.records,
                rs.len() == self.records@.len(),
                spec_latest(rs.take(i as int), key@) == spec_latest(rs, key@),
            decreases i,
        {
            proof {
                assert(rs.take(i as int).last() == rs[i - 1]);
                assert(rs.take(i as int).drop_last() =~= rs.take(i - 1));
            }
            if bytes_eq(&self.records[i - 1].key, key) {
                let v = self.records[i - 1].value.clone();
                proof {
                    assert(v@ =~= rs[i - 1].value);
                }
                return Some(v);
            }
            i = i - 1;
        }
        proof {
            assert(rs.take(0int) =~= Seq::<RecordModel>::empty());
        }
        None
    }

    /// Discards every record shadowed by a newer one for the same key.
    fn compact(&mut self)
        requires
            old(self).wf(),
        ensures
            final(self).wf(),
            final(self)@.records == spec_compacted(old(self)@.records),
            final(self)@.capacity == old(self)@.capacity,
    {
        let ghost full = self@.records;
        let mut kept: Vec<Record> = Vec::new();
        let mut kept_used: usize = 0;
        let mut i: usize = 0;
        proof {
            lemma_compacted_size(full);
            lemma_compacted_wf(full);
            assert(full.skip(0int) =~= full);
            assert(kept@.map_values(|r: Record| r@) =~= Seq::<RecordModel>::empty());
            assert(total_size(Seq::<RecordModel>::empty()) == 0);
        }
        while i < self.records.len()
            invariant
                i <= full.len(),
                full == self@.records,
                full.len() == self.records@.len(),
                old(self).wf(),
                self.capacity == old(self).capacity,
                kept@.map_values(|r: Record| r@) + spec_compacted(full.skip(i as int))
                    =~= spec_compacted(full),
                kept_used as nat == total_size(kept@.map_values(|r: Record| r@)),
            decreases full.len() - i,
        {
            let ghost ks = kept@.map_values(|r: Record| r@);
            let ghost suffix = full.skip(i as int);
            proof {
                assert(suffix[0] == full[i as int]);
                assert(suffix.skip(1) =~= full.skip(i + 1 as int));
            }
            if self.has_newer(i) {
            } else {
                let rec = Record {
                    key: self.records[i].key.clone(),
                    value: self.records[i].value.clone(),
                };
                proof {
                    assert(rec@ =~= full[i as int]);
                    assert((seq![full[i as int]] + spec_compacted(suffix.skip(1)))[0] == full[
                        i as int
                    ]);
                    assert((seq![full[i as int]] + spec_compacted(suffix.skip(1))).skip(1)
                        =~= spec_compacted(suffix.skip(1)));
                    assert(total_size(spec_compacted(suffix)) == record_size(full[i as int])
                        + total_size(spec_compacted(suffix.skip(1))));
                    lemma_total_size_concat(ks, spec_compacted(suffix));
                    lemma_compacted_size(full);
                    assert(kept_used + record_size(rec@) <= total_size(spec_compacted(full)));
                    lemma_total_size_push(ks, rec@);
                    assert(kept@.push(rec).map_values(|r: Record| r@) =~= ks.push(rec@));
                }
                kept_used = kept_used + (rec.key.len() + rec.value.len());
                kept.push(rec);
                proof {
                    assert(kept@.map_values(|r: Record| r@) + spec_compacted(full.skip(i + 1 as int))
                        =~= spec_compacted(full));
                }
            }
            i = i + 1;
        }
        proof {
            assert(full.skip(full.len() as int) =~= Seq::<RecordModel>::empty());
            assert(kept@.map_values(|r: Record| r@) =~= spec_compacted(full));
        }
        self.records = kept;
        self.used = kept_used;
    }

    /// Whether some record newer than record `i` carries the same key.
    fn has_newer(&self, i: usize) -> (r: bool)
        requires
            i < self@.records.len(),
        ensures
            r == (spec_latest(self@.records.skip(i + 1), self@.records[i as int].key) is Some),
    {
        let ghost rs = self@.records;
        let ghost suffix = rs.skip(i + 1);
        let n = self.records.len();
        let mut j: usize = i + 1;
        while j < n
            invariant
                i + 1 <= j <= rs.len(),
                i < rs.len(),
                rs == self@.records,
                rs.len() == self.records@.len(),
                n == rs.len(),
                suffix == rs.skip(i + 1),
                forall|m: int| 0 <= m < j - i - 1 ==> (#[trigger] suffix[m]).key != rs[i as int].key,
            decreases rs.len() - j,
        {
            if bytes_eq(&self.records[j].key, &self.records[i].key) {
                proof {
                    assert(suffix[j - i - 1].key == rs[i as int].key);
                    lemma_latest_some_iff_present(suffix, rs[i as int].key);
                }
                return true;
            }
            j = j + 1;
        }
        proof {
            lemma_latest_some_iff_present(suffix, rs[i as int].key);
            if spec_latest(suffix, rs[i as int].key) is Some {
                let m = choose|m: int|
                    0 <= m < suffix.len() && (#[trigger] suffix[m]).key == rs[i as int].key;
                assert(false);
            }
        }
        false
    }

    /// Durably appends one record. When the region is full it first
    /// reclaims superseded records; if even then the record does not fit,
    /// the append fails with [`Error::Storage`] and every key still reads
    /// as before.
    pub fn append(&mut self, key: Vec<u8>, value: Vec<u8>) -> (r: Result<(), Error>)
        requires
            old(self).wf(),
            key@.len() <= MAX_KEY_BYTES,
            value@.len() <= MAX_VALUE_BYTES,
        ensures
            final(self).wf(),
            final(self)@.capacity == old(self)@.capacity,
            final(self)@.records == spec_append_records(
                old(self)@.records,
                old(self)@.capacity,
                key@,
                value@,
            ),
            r is Ok <==> total_size(spec_compacted(old(self)@.records)) + key@.len() + value@.len()
                <= old(self)@.capacity,
            r is Ok ==> forall|k: Seq<u8>|
                #[trigger] spec_latest(final(self)@.records, k) == if k == key@ {
                    Some(value@)
                } else {
                    spec_latest(old(self)@.records, k)
                },
            r is Err ==> forall|k: Seq<u8>|
                #[trigger] spec_latest(final(self)@.records, k) == spec_latest(
                    old(self)@.records,
                    k,
                ),
            r is Err ==> r == Err::<(), Error>(Error::Storage),
    {
        let ghost rs = self@.records;
        let ghost rec_m = RecordModel { key: key@, value: value@ };
        let sz = key.len() + value.len();
        proof {
            lemma_compacted_size(rs);
        }
        if sz <= self.capacity - self.used {
            proof {
                lemma_total_size_push(rs, rec_m);
            }
            let rec = Record { key, value };
            self.records.push(rec);
            self.used = self.used + sz;
            proof {
                assert(self@.records =~= rs.push(rec_m));
                assert(records_wf(self@.records));
                assert forall|k: Seq<u8>| #[trigger]
                    spec_latest(self@.records, k) == if k == key@ {
                        Some(value@)
                    } else {
                        spec_latest(rs, k)
                    } by {
                    lemma_latest_push(rs, rec_m, k);
                }
            }
            Ok(())
        } else {
            self.compact();
            proof {
                lemma_compacted_wf(rs);
            }
            if sz <= self.capacity - self.used {
                let ghost cs = spec_compacted(rs);
                proof {
                    lemma_total_size_push(cs, rec_m);
                }
                let rec = Record { key, value };
                self.records.push(rec);
                self.used = self.used + sz;
                proof {
                    assert(self@.records =~= cs.push(rec_m));
                    assert(records_wf(self@.records));
                    assert forall|k: Seq<u8>| #[trigger]
                        spec_latest(self@.records, k) == if k == key@ {
                            Some(value@)
                        } else {
                            spec_latest(rs, k)
                        } by {
                        lemma_latest_push(cs, rec_m, k);
                        lemma_compacted_latest(rs, k);
                    }
                }
                Ok(())
            } else {
                proof {
                    assert forall|k: Seq<u8>| #[trigger]
                        spec_latest(self@.records, k) == spec_latest(rs, k) by {
                        lemma_compacted_latest(rs, k);
                    }
                }
                Err(Error::Storage)
            }
        }
    }
}

} // verus!

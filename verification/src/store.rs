//! The mutation engine: the public surface of the adapter. Every operation
//! either commits whole — its result equals the model applied to the old
//! state — or fails and leaves the store exactly as it was, like the
//! transactional substrate it stands for. One handle admits one mutation at
//! a time: every operation takes the store exclusively.

use vstd::prelude::*;

use crate::bytes::{append_u64_be, copy_bytes, bytes_eq};
use crate::codec::{decode_row, decode_snapshot, encode_row, encode_snapshot};
use crate::data::{Row, Schema, SchemaIndex, SchemaIndexOrd, copy_schema_index};
use crate::index_sync::{entry_delete, entry_insert, index_delete, index_insert, index_update};
use crate::keys::{data_key, data_prefix, lock_key, schema_key, temp_key, spec_data_prefix};
use crate::kv::{filter_prefix, Kv};
use crate::model::{
    first_index_named, has_index_named, lock_live, lock_record, sv_create_index, sv_delete_data,
    sv_delete_rows, sv_delete_schema, sv_drop_index, sv_entries_delete_all, sv_entries_insert_all,
    sv_fetch_schema, sv_insert_data, sv_insert_rows, sv_insert_schema, sv_schema_of,
    sv_update_data, sv_update_rows, KvS,
};
use crate::snapshot::Snapshot;
use crate::Error;

verus! {

/// The byte image of the lock record.
fn make_lock_record(txid: u64, live: bool) -> (r: Vec<u8>)
    ensures
        r@ == lock_record(txid, live),
{
    let mut v: Vec<u8> = Vec::new();
    append_u64_be(&mut v, txid);
    v.push(if live { 1u8 } else { 0u8 });
    assert(v@ =~= lock_record(txid, live));
    v
}

/// Whether a live writer holds the structural lock.
fn lock_is_live(kv: &Kv) -> (r: bool)
    requires
        kv.wf(),
    ensures
        r == lock_live(kv@),
{
    let lk = lock_key();
    match kv.get(&lk) {
        None => false,
        Some(v) => v.len() == 9 && v[8] == 1,
    }
}

/// The storage adapter: the keyspace, the row-id source, and the
/// transaction-id source.
pub struct Storage {
    pub kv: Kv,
    pub next_row_id: u64,
    pub next_txid: u64,
}

impl Storage {
    pub open spec fn wf(self) -> bool {
        self.kv.wf()
    }

    pub fn new() -> (r: Storage)
        ensures
            r.wf(),
            r.kv@ == Seq::<(Seq<u8>, Seq<u8>)>::empty(),
            r.next_row_id == 0,
            r.next_txid == 0,
    {
        Storage { kv: Kv::new(), next_row_id: 0, next_txid: 0 }
    }

    /// The schema snapshot record of `table`: absent, undecodable, or whole.
    pub fn fetch_schema(&self, table: &Vec<u8>) -> (r: Result<Option<Snapshot>, Error>)
        requires
            self.wf(),
        ensures
            match r {
                Ok(None) => sv_fetch_schema(self.kv@, table@) == Ok::<Option<crate::snapshot::SnapshotV>, Error>(None),
                Ok(Some(snap)) => sv_fetch_schema(self.kv@, table@) == Ok::<_, Error>(Some(snap@)),
                Err(e) => sv_fetch_schema(self.kv@, table@) == Err::<Option<crate::snapshot::SnapshotV>, _>(e),
            },
    {
        let skey = schema_key(table);
        match self.kv.get(&skey) {
            None => Ok(None),
            Some(bytes) => match decode_snapshot(&bytes) {
                None => Err(Error::Deserialize),
                Some(snap) => Ok(Some(snap)),
            },
        }
    }

    /// The committed schema of `table`, with the error that says what failed.
    fn schema_of(&self, table: &Vec<u8>) -> (r: Result<Schema, Error>)
        requires
            self.wf(),
        ensures
            r matches Ok(s) ==> sv_schema_of(self.kv@, table@) == Ok::<_, Error>(s@),
            r matches Err(e) ==> sv_schema_of(self.kv@, table@) == Err::<crate::data::SchemaV, _>(
                e,
            ),
    {
        let skey = schema_key(table);
        match self.kv.get(&skey) {
            None => Err(Error::TableNotFound),
            Some(bytes) => match decode_snapshot(&bytes) {
                None => Err(Error::Deserialize),
                Some(snap) => match snap.current_owned() {
                    None => Err(Error::ConflictTableNotFound),
                    Some(s) => Ok(s),
                },
            },
        }
    }

    /// Every row of `table`, in key order.
    pub fn scan_data(&self, table: &Vec<u8>) -> (r: Vec<(Vec<u8>, Vec<u8>)>)
        requires
            self.wf(),
        ensures
            r@.map(|i: int, q: (Vec<u8>, Vec<u8>)| (q.0@, q.1@)) == filter_prefix(
                self.kv@,
                spec_data_prefix(table@),
            ),
    {
        let p = data_prefix(table);
        self.kv.scan_prefix(&p)
    }

    /// Writes the schema of a fresh table as one single-key write, wrapped in
    /// an initial snapshot record. Duplicate table names are not rejected at
    /// this layer.
    pub fn insert_schema(&mut self, schema: Schema) -> (r: Result<(), Error>)
        requires
            old(self).wf(),
        ensures
            final(self).wf(),
            r is Ok,
            final(self).kv@ == sv_insert_schema(old(self).kv@, schema@),
            final(self).next_row_id == old(self).next_row_id,
            final(self).next_txid == old(self).next_txid,
    {
        let skey = schema_key(&schema.table_name);
        let ghost sv = schema@;
        let snap = Snapshot::new(schema);
        let bytes = encode_snapshot(&snap);
        self.kv.insert(skey, bytes);
        Ok(())
    }

    /// Removes every row of `table`, then its schema record, as separate
    /// single-key writes. Index entries are not touched: callers drop indexes
    /// first.
    pub fn delete_schema(&mut self, table: &Vec<u8>) -> (r: Result<(), Error>)
        requires
            old(self).wf(),
        ensures
            final(self).wf(),
            r is Ok,
            final(self).kv@ == sv_delete_schema(old(self).kv@, table@),
            final(self).next_row_id == old(self).next_row_id,
            final(self).next_txid == old(self).next_txid,
    {
        let p = data_prefix(table);
        self.kv.remove_prefix(&p);
        let skey = schema_key(table);
        self.kv.remove(&skey);
        Ok(())
    }

    /// Inserts `rows` atomically: each row gets a fresh strictly increasing
    /// identifier, its index entries are written first, then the row itself.
    /// On any failure nothing is persisted.
    pub fn insert_data(&mut self, table: &Vec<u8>, rows: &Vec<Row>) -> (r: Result<(), Error>)
        requires
            old(self).wf(),
            old(self).next_row_id + rows@.len() <= u64::MAX,
        ensures
            final(self).wf(),
            final(self).next_txid == old(self).next_txid,
            r matches Ok(()) ==> sv_insert_data(
                old(self).kv@,
                table@,
                rows@.map(|i: int, rw: Row| rw@),
                old(self).next_row_id,
            ) == Ok::<_, Error>(final(self).kv@) && final(self).next_row_id == old(
                self,
            ).next_row_id + rows@.len(),
            r matches Err(e) ==> sv_insert_data(
                old(self).kv@,
                table@,
                rows@.map(|i: int, rw: Row| rw@),
                old(self).next_row_id,
            ) == Err::<KvS, _>(e) && final(self).kv@ == old(self).kv@ && final(self).next_row_id
                == old(self).next_row_id,
    {
        let schema = match self.schema_of(table) {
            Err(e) => {
                return Err(e);
            },
            Ok(s) => s,
        };
        let backup = self.kv.snapshot_copy();
        let saved_id = self.next_row_id;
        let ghost kv0 = self.kv@;
        let ghost rowsv = rows@.map(|i: int, rw: Row| rw@);
        let ghost schemav = schema@;
        let mut i: usize = 0;
        assert(rowsv.skip(0) =~= rowsv);
        while i < rows.len()
            invariant
                i <= rows@.len(),
                rowsv == rows@.map(|i0: int, rw: Row| rw@),
                rowsv.len() == rows@.len(),
                schemav == schema@,
                kv0 == old(self).kv@,
                crate::kv::kv_unique(kv0),
                sv_schema_of(kv0, table@) == Ok::<_, Error>(schemav),
                backup@ == kv0,
                saved_id == old(self).next_row_id,
                self.next_row_id == saved_id + i,
                saved_id + rows@.len() <= u64::MAX,
                self.next_txid == old(self).next_txid,
                self.wf(),
                sv_insert_rows(kv0, table@, schemav, rowsv, saved_id) == sv_insert_rows(
                    self.kv@,
                    table@,
                    schemav,
                    rowsv.skip(i as int),
                    self.next_row_id,
                ),
            decreases rows@.len() - i,
        {
            let ghost pre = self.kv@;
            let id = self.next_row_id;
            let rk = data_key(table, id);
            proof {
                assert(rowsv.skip(i as int)[0] == rows@[i as int]@);
                assert(rowsv.skip(i as int).skip(1) =~= rowsv.skip(i + 1 as int));
            }
            match index_insert(&mut self.kv, table, &schema, &rk, &rows[i]) {
                Err(e) => {
                    proof {
                        assert(sv_insert_rows(pre, table@, schemav, rowsv.skip(i as int), id)
                            == Err::<KvS, Error>(e));
                    }
                    self.kv = backup;
                    self.next_row_id = saved_id;
                    return Err(e);
                },
                Ok(()) => {},
            }
            let bytes = encode_row(&rows[i]);
            self.kv.insert(rk, bytes);
            self.next_row_id = id + 1;
            proof {
                assert(sv_insert_rows(pre, table@, schemav, rowsv.skip(i as int), id)
                    == sv_insert_rows(
                    self.kv@,
                    table@,
                    schemav,
                    rowsv.skip(i + 1 as int),
                    self.next_row_id,
                ));
            }
            i = i + 1;
        }
        assert(rowsv.skip(rowsv.len() as int) =~= Seq::<Seq<crate::data::Value>>::empty());
        Ok(())
    }

    /// Updates rows in place, atomically and in the given order: the new row
    /// is swapped in, the prior value decoded, and the index entries
    /// repaired. A pair whose key holds no row aborts the whole call: a
    /// concurrent delete was observed.
    pub fn update_data(&mut self, table: &Vec<u8>, rows: &Vec<(Vec<u8>, Row)>) -> (r: Result<
        (),
        Error,
    >)
        requires
            old(self).wf(),
        ensures
            final(self).wf(),
            final(self).next_row_id == old(self).next_row_id,
            final(self).next_txid == old(self).next_txid,
            r matches Ok(()) ==> sv_update_data(
                old(self).kv@,
                table@,
                rows@.map(|i: int, p: (Vec<u8>, Row)| (p.0@, p.1@)),
            ) == Ok::<_, Error>(final(self).kv@),
            r matches Err(e) ==> sv_update_data(
                old(self).kv@,
                table@,
                rows@.map(|i: int, p: (Vec<u8>, Row)| (p.0@, p.1@)),
            ) == Err::<KvS, _>(e) && final(self).kv@ == old(self).kv@,
    {
        let schema = match self.schema_of(table) {
            Err(e) => {
                return Err(e);
            },
            Ok(s) => s,
        };
        let backup = self.kv.snapshot_copy();
        let ghost kv0 = self.kv@;
        let ghost rowsv = rows@.map(|i: int, p: (Vec<u8>, Row)| (p.0@, p.1@));
        let ghost schemav = schema@;
        let mut i: usize = 0;
        assert(rowsv.skip(0) =~= rowsv);
        while i < rows.len()
            invariant
                i <= rows@.len(),
                rowsv == rows@.map(|i0: int, p: (Vec<u8>, Row)| (p.0@, p.1@)),
                rowsv.len() == rows@.len(),
                schemav == schema@,
                kv0 == old(self).kv@,
                crate::kv::kv_unique(kv0),
                sv_schema_of(kv0, table@) == Ok::<_, Error>(schemav),
                backup@ == kv0,
                self.next_row_id == old(self).next_row_id,
                self.next_txid == old(self).next_txid,
                self.wf(),
                sv_update_rows(kv0, table@, schemav, rowsv) == sv_update_rows(
                    self.kv@,
                    table@,
                    schemav,
                    rowsv.skip(i as int),
                ),
            decreases rows@.len() - i,
        {
            let ghost pre = self.kv@;
            proof {
                assert(rowsv.skip(i as int)[0] == (rows@[i as int].0@, rows@[i as int].1@));
                assert(rowsv.skip(i as int).skip(1) =~= rowsv.skip(i + 1 as int));
            }
            let rk = copy_bytes(&rows[i].0);
            let bytes = encode_row(&rows[i].1);
            let prev = self.kv.insert(rk, bytes);
            let rk2 = &rows[i].0;
            match prev {
                None => {
                    self.kv = backup;
                    return Err(Error::ConflictOnEmptyIndexValueUpdate);
                },
                Some(old_bytes) => {
                    match decode_row(&old_bytes) {
                        None => {
                            self.kv = backup;
                            return Err(Error::Deserialize);
                        },
                        Some(old_row) => {
                            let ghost mid = self.kv@;
                            match index_update(
                                &mut self.kv,
                                table,
                                &schema,
                                rk2,
                                &old_row,
                                &rows[i].1,
                            ) {
                                Err(e) => {
                                    proof {
                                        assert(sv_update_rows(
                                            pre,
                                            table@,
                                            schemav,
                                            rowsv.skip(i as int),
                                        ) == Err::<KvS, Error>(e));
                                    }
                                    self.kv = backup;
                                    return Err(e);
                                },
                                Ok(()) => {
                                    proof {
                                        assert(sv_update_rows(
                                            pre,
                                            table@,
                                            schemav,
                                            rowsv.skip(i as int),
                                        ) == sv_update_rows(
                                            self.kv@,
                                            table@,
                                            schemav,
                                            rowsv.skip(i + 1 as int),
                                        ));
                                    }
                                },
                            }
                        },
                    }
                },
            }
            i = i + 1;
        }
        assert(rowsv.skip(rowsv.len() as int) =~= Seq::<(Seq<u8>, Seq<crate::data::Value>)>::empty());
        Ok(())
    }

    /// Deletes rows atomically: each key is removed, the removed value
    /// decoded, and its index entries removed. A key holding no row aborts
    /// the whole call: a concurrent delete was observed.
    pub fn delete_data(&mut self, table: &Vec<u8>, keys: &Vec<Vec<u8>>) -> (r: Result<(), Error>)
        requires
            old(self).wf(),
        ensures
            final(self).wf(),
            final(self).next_row_id == old(self).next_row_id,
            final(self).next_txid == old(self).next_txid,
            r matches Ok(()) ==> sv_delete_data(
                old(self).kv@,
                table@,
                keys@.map(|i: int, k: Vec<u8>| k@),
            ) == Ok::<_, Error>(final(self).kv@),
            r matches Err(e) ==> sv_delete_data(
                old(self).kv@,
                table@,
                keys@.map(|i: int, k: Vec<u8>| k@),
            ) == Err::<KvS, _>(e) && final(self).kv@ == old(self).kv@,
    {
        let schema = match self.schema_of(table) {
            Err(e) => {
                return Err(e);
            },
            Ok(s) => s,
        };
        let backup = self.kv.snapshot_copy();
        let ghost kv0 = self.kv@;
        let ghost keysv = keys@.map(|i: int, k: Vec<u8>| k@);
        let ghost schemav = schema@;
        let mut i: usize = 0;
        assert(keysv.skip(0) =~= keysv);
        while i < keys.len()
            invariant
                i <= keys@.len(),
                keysv == keys@.map(|i0: int, k: Vec<u8>| k@),
                keysv.len() == keys@.len(),
                schemav == schema@,
                kv0 == old(self).kv@,
                crate::kv::kv_unique(kv0),
                sv_schema_of(kv0, table@) == Ok::<_, Error>(schemav),
                backup@ == kv0,
                self.next_row_id == old(self).next_row_id,
                self.next_txid == old(self).next_txid,
                self.wf(),
                sv_delete_rows(kv0, table@, schemav, keysv) == sv_delete_rows(
                    self.kv@,
                    table@,
                    schemav,
                    keysv.skip(i as int),
                ),
            decreases keys@.len() - i,
        {
            let ghost pre = self.kv@;
            proof {
                assert(keysv.skip(i as int)[0] == keys@[i as int]@);
                assert(keysv.skip(i as int).skip(1) =~= keysv.skip(i + 1 as int));
            }
            let prev = self.kv.remove(&keys[i]);
            match prev {
                None => {
                    self.kv = backup;
                    return Err(Error::ConflictOnEmptyIndexValueDelete);
                },
                Some(old_bytes) => {
                    match decode_row(&old_bytes) {
                        None => {
                            self.kv = backup;
                            return Err(Error::Deserialize);
                        },
                        Some(row) => {
                            match index_delete(&mut self.kv, table, &schema, &keys[i], &row) {
                                Err(e) => {
                                    proof {
                                        assert(sv_delete_rows(
                                            pre,
                                            table@,
                                            schemav,
                                            keysv.skip(i as int),
                                        ) == Err::<KvS, Error>(e));
                                    }
                                    self.kv = backup;
                                    return Err(e);
                                },
                                Ok(()) => {
                                    proof {
                                        assert(sv_delete_rows(
                                            pre,
                                            table@,
                                            schemav,
                                            keysv.skip(i as int),
                                        ) == sv_delete_rows(
                                            self.kv@,
                                            table@,
                                            schemav,
                                            keysv.skip(i + 1 as int),
                                        ));
                                    }
                                },
                            }
                        },
                    }
                },
            }
            i = i + 1;
        }
        assert(keysv.skip(keysv.len() as int) =~= Seq::<Seq<u8>>::empty());
        Ok(())
    }

    /// Builds, inside one structural transaction, a new secondary index over
    /// every existing row: the rows are scanned first, the lock taken, the
    /// schema tombstoned and rewritten with the index appended, one entry
    /// written per row, and a temp marker left naming the schema key.
    #[verifier::rlimit(100)]
    #[verifier::spinoff_prover]
    pub fn create_index(&mut self, table: &Vec<u8>, index_name: &Vec<u8>, column: u64) -> (r:
        Result<(), Error>)
        requires
            old(self).wf(),
            old(self).next_txid < u64::MAX,
        ensures
            final(self).wf(),
            final(self).next_row_id == old(self).next_row_id,
            r matches Ok(()) ==> sv_create_index(
                old(self).kv@,
                table@,
                index_name@,
                column,
                old(self).next_txid,
            ) == Ok::<_, Error>(final(self).kv@) && final(self).next_txid == old(self).next_txid
                + 1,
            r matches Err(e) ==> sv_create_index(
                old(self).kv@,
                table@,
                index_name@,
                column,
                old(self).next_txid,
            ) == Err::<KvS, _>(e) && final(self).kv@ == old(self).kv@ && final(self).next_txid
                == old(self).next_txid,
    {
        let ghost kv0 = self.kv@;
        let rows = self.scan_data(table);
        let ghost rseq = filter_prefix(kv0, spec_data_prefix(table@));
        if lock_is_live(&self.kv) {
            return Err(Error::LockConflict);
        }
        let backup = self.kv.snapshot_copy();
        let txid = self.next_txid;
        let lk = lock_key();
        let lrec = make_lock_record(txid, true);
        self.kv.insert(lk, lrec);
        let ghost s1v = self.kv@;
        let skey = schema_key(table);
        let snap = match self.kv.get(&skey) {
            None => {
                self.kv = backup;
                return Err(Error::TableNotFound);
            },
            Some(bytes) => match decode_snapshot(&bytes) {
                None => {
                    self.kv = backup;
                    return Err(Error::Deserialize);
                },
                Some(sn) => sn,
            },
        };
        let ghost snapv = snap@;
        let (snap2, cur) = snap.delete(txid);
        let schema = match cur {
            None => {
                self.kv = backup;
                return Err(Error::ConflictTableNotFound);
            },
            Some(s) => s,
        };
        if has_index(&schema, index_name) {
            self.kv = backup;
            return Err(Error::IndexNameAlreadyExists);
        }
        let ghost schemav = schema@;
        let new_ix = SchemaIndex {
            name: copy_bytes(index_name),
            column,
            order: SchemaIndexOrd::Both,
        };
        let ghost ixv = new_ix@;
        let ghost snap2v = crate::snapshot::spec_delete(snapv, txid).0;
        let ghost new_schemav = crate::data::SchemaV {
            table_name: table@,
            column_defs: schemav.column_defs,
            indexes: schemav.indexes.push(ixv),
        };
        proof {
            assert(snap2@ == snap2v);
            assert(sv_entries_insert_all(s1v, table@, ixv, rseq) matches Err(e)
                ==> sv_create_index(kv0, table@, index_name@, column, txid) == Err::<KvS, Error>(
                e,
            ));
            assert(sv_entries_insert_all(s1v, table@, ixv, rseq) matches Ok(s2)
                ==> sv_create_index(kv0, table@, index_name@, column, txid) == Ok::<KvS, Error>(
                crate::model::sv_structural_commit(s2, table@, snap2v, txid, new_schemav),
            ));
        }
        let mut i: usize = 0;
        assert(rseq.skip(0) =~= rseq);
        while i < rows.len()
            invariant
                i <= rows@.len(),
                rseq == rows@.map(|i0: int, q: (Vec<u8>, Vec<u8>)| (q.0@, q.1@)),
                rseq.len() == rows@.len(),
                ixv == new_ix@,
                kv0 == old(self).kv@,
                crate::kv::kv_unique(kv0),
                backup@ == kv0,
                txid == old(self).next_txid,
                sv_entries_insert_all(s1v, table@, ixv, rseq) matches Err(e) ==> sv_create_index(
                    kv0,
                    table@,
                    index_name@,
                    column,
                    txid,
                ) == Err::<KvS, Error>(e),
                sv_entries_insert_all(s1v, table@, ixv, rseq) matches Ok(s2) ==> sv_create_index(
                    kv0,
                    table@,
                    index_name@,
                    column,
                    txid,
                ) == Ok::<KvS, Error>(
                    crate::model::sv_structural_commit(s2, table@, snap2v, txid, new_schemav),
                ),
                self.next_row_id == old(self).next_row_id,
                self.next_txid == old(self).next_txid,
                self.wf(),
                sv_entries_insert_all(s1v, table@, ixv, rseq) == sv_entries_insert_all(
                    self.kv@,
                    table@,
                    ixv,
                    rseq.skip(i as int),
                ),
            decreases rows@.len() - i,
        {
            let ghost pre = self.kv@;
            proof {
                assert(rseq.skip(i as int)[0] == (rows@[i as int].0@, rows@[i as int].1@));
                assert(rseq.skip(i as int).skip(1) =~= rseq.skip(i + 1 as int));
            }
            match decode_row(&rows[i].1) {
                None => {
                    proof {
                        assert(sv_entries_insert_all(pre, table@, ixv, rseq.skip(i as int))
                            == Err::<KvS, Error>(Error::Deserialize));
                    }
                    self.kv = backup;
                    return Err(Error::Deserialize);
                },
                Some(row) => {
                    match entry_insert(&mut self.kv, table, &new_ix, &rows[i].0, &row) {
                        Err(e) => {
                            proof {
                                assert(sv_entries_insert_all(pre, table@, ixv, rseq.skip(i as int))
                                    == Err::<KvS, Error>(e));
                            }
                            self.kv = backup;
                            return Err(e);
                        },
                        Ok(()) => {
                            proof {
                                assert(sv_entries_insert_all(pre, table@, ixv, rseq.skip(i as int))
                                    == sv_entries_insert_all(
                                    self.kv@,
                                    table@,
                                    ixv,
                                    rseq.skip(i + 1 as int),
                                ));
                            }
                        },
                    }
                },
            }
            i = i + 1;
        }
        assert(rseq.skip(rseq.len() as int) =~= Seq::<(Seq<u8>, Seq<u8>)>::empty());
        let ghost s2v = self.kv@;
        assert(sv_entries_insert_all(s1v, table@, ixv, rseq) == Ok::<KvS, Error>(s2v));
        let mut new_indexes = schema.indexes;
        new_indexes.push(new_ix);
        let new_schema = Schema {
            table_name: copy_bytes(table),
            column_defs: schema.column_defs,
            indexes: new_indexes,
        };
        proof {
            assert(new_schema@.indexes =~= schemav.indexes.push(ixv));
            assert(new_schema@ == new_schemav);
        }
        let snap3 = snap2.update(txid, new_schema);
        let sbytes = encode_snapshot(&snap3);
        let skey2 = schema_key(table);
        self.kv.insert(skey2, sbytes);
        let tk = temp_key(txid, table);
        let marker = schema_key(table);
        self.kv.insert(tk, marker);
        let lrec2 = make_lock_record(txid, false);
        let lk2 = lock_key();
        self.kv.insert(lk2, lrec2);
        self.next_txid = txid + 1;
        proof {
            assert(self.kv@ == crate::model::sv_structural_commit(
                s2v,
                table@,
                snap2v,
                txid,
                new_schemav,
            ));
        }
        Ok(())
    }

    /// Removes, inside one structural transaction, a declared secondary index
    /// and every entry it computed: the rows are scanned first, the lock
    /// taken, the schema tombstoned and rewritten without the index, one
    /// entry removed per row, and a temp marker left naming the schema key.
    #[verifier::rlimit(100)]
    #[verifier::spinoff_prover]
    pub fn drop_index(&mut self, table: &Vec<u8>, index_name: &Vec<u8>) -> (r: Result<(), Error>)
        requires
            old(self).wf(),
            old(self).next_txid < u64::MAX,
        ensures
            final(self).wf(),
            final(self).next_row_id == old(self).next_row_id,
            r matches Ok(()) ==> sv_drop_index(
                old(self).kv@,
                table@,
                index_name@,
                old(self).next_txid,
            ) == Ok::<_, Error>(final(self).kv@) && final(self).next_txid == old(self).next_txid
                + 1,
            r matches Err(e) ==> sv_drop_index(
                old(self).kv@,
                table@,
                index_name@,
                old(self).next_txid,
            ) == Err::<KvS, _>(e) && final(self).kv@ == old(self).kv@ && final(self).next_txid
                == old(self).next_txid,
    {
        let ghost kv0 = self.kv@;
        let rows = self.scan_data(table);
        let ghost rseq = filter_prefix(kv0, spec_data_prefix(table@));
        if lock_is_live(&self.kv) {
            return Err(Error::LockConflict);
        }
        let backup = self.kv.snapshot_copy();
        let txid = self.next_txid;
        let lk = lock_key();
        let lrec = make_lock_record(txid, true);
        self.kv.insert(lk, lrec);
        let ghost s1v = self.kv@;
        let skey = schema_key(table);
        let snap = match self.kv.get(&skey) {
            None => {
                self.kv = backup;
                return Err(Error::TableNotFound);
            },
            Some(bytes) => match decode_snapshot(&bytes) {
                None => {
                    self.kv = backup;
                    return Err(Error::Deserialize);
                },
                Some(sn) => sn,
            },
        };
        let ghost snapv = snap@;
        let (snap2, cur) = snap.delete(txid);
        let schema = match cur {
            None => {
                self.kv = backup;
                return Err(Error::ConflictTableNotFound);
            },
            Some(s) => s,
        };
        let ghost schemav = schema@;
        let removed = match find_index(&schema, index_name) {
            None => {
                self.kv = backup;
                return Err(Error::IndexNameDoesNotExist);
            },
            Some(pos) => copy_schema_index(&schema.indexes[pos]),
        };
        let ghost ixv = removed@;
        assert(ixv == first_index_named(schemav.indexes, index_name@));
        let ghost snap2v = crate::snapshot::spec_delete(snapv, txid).0;
        let ghost new_schemav = crate::data::SchemaV {
            table_name: table@,
            column_defs: schemav.column_defs,
            indexes: crate::model::drop_index_named(schemav.indexes, index_name@),
        };
        proof {
            assert(snap2@ == snap2v);
            assert(sv_entries_delete_all(s1v, table@, ixv, rseq) matches Err(e)
                ==> sv_drop_index(kv0, table@, index_name@, txid) == Err::<KvS, Error>(e));
            assert(sv_entries_delete_all(s1v, table@, ixv, rseq) matches Ok(s2)
                ==> sv_drop_index(kv0, table@, index_name@, txid) == Ok::<KvS, Error>(
                crate::model::sv_structural_commit(s2, table@, snap2v, txid, new_schemav),
            ));
        }
        let mut i: usize = 0;
        assert(rseq.skip(0) =~= rseq);
        while i < rows.len()
            invariant
                i <= rows@.len(),
                rseq == rows@.map(|i0: int, q: (Vec<u8>, Vec<u8>)| (q.0@, q.1@)),
                rseq.len() == rows@.len(),
                ixv == removed@,
                kv0 == old(self).kv@,
                crate::kv::kv_unique(kv0),
                backup@ == kv0,
                txid == old(self).next_txid,
                sv_entries_delete_all(s1v, table@, ixv, rseq) matches Err(e) ==> sv_drop_index(
                    kv0,
                    table@,
                    index_name@,
                    txid,
                ) == Err::<KvS, Error>(e),
                sv_entries_delete_all(s1v, table@, ixv, rseq) matches Ok(s2) ==> sv_drop_index(
                    kv0,
                    table@,
                    index_name@,
                    txid,
                ) == Ok::<KvS, Error>(
                    crate::model::sv_structural_commit(s2, table@, snap2v, txid, new_schemav),
                ),
                self.next_row_id == old(self).next_row_id,
                self.next_txid == old(self).next_txid,
                self.wf(),
                sv_entries_delete_all(s1v, table@, ixv, rseq) == sv_entries_delete_all(
                    self.kv@,
                    table@,
                    ixv,
                    rseq.skip(i as int),
                ),
            decreases rows@.len() - i,
        {
            let ghost pre = self.kv@;
            proof {
                assert(rseq.skip(i as int)[0] == (rows@[i as int].0@, rows@[i as int].1@));
                assert(rseq.skip(i as int).skip(1) =~= rseq.skip(i + 1 as int));
            }
            match decode_row(&rows[i].1) {
                None => {
                    proof {
                        assert(sv_entries_delete_all(pre, table@, ixv, rseq.skip(i as int))
                            == Err::<KvS, Error>(Error::Deserialize));
                    }
                    self.kv = backup;
                    return Err(Error::Deserialize);
                },
                Some(row) => {
                    match entry_delete(&mut self.kv, table, &removed, &rows[i].0, &row) {
                        Err(e) => {
                            proof {
                                assert(sv_entries_delete_all(pre, table@, ixv, rseq.skip(i as int))
                                    == Err::<KvS, Error>(e));
                            }
                            self.kv = backup;
                            return Err(e);
                        },
                        Ok(()) => {
                            proof {
                                assert(sv_entries_delete_all(pre, table@, ixv, rseq.skip(i as int))
                                    == sv_entries_delete_all(
                                    self.kv@,
                                    table@,
                                    ixv,
                                    rseq.skip(i + 1 as int),
                                ));
                            }
                        },
                    }
                },
            }
            i = i + 1;
        }
        assert(rseq.skip(rseq.len() as int) =~= Seq::<(Seq<u8>, Seq<u8>)>::empty());
        let ghost s2v = self.kv@;
        assert(sv_entries_delete_all(s1v, table@, ixv, rseq) == Ok::<KvS, Error>(s2v));
        let kept = keep_other_indexes(&schema, index_name);
        let new_schema = Schema {
            table_name: copy_bytes(table),
            column_defs: schema.column_defs,
            indexes: kept,
        };
        proof {
            assert(new_schema@ == new_schemav);
        }
        let snap3 = snap2.update(txid, new_schema);
        let sbytes = encode_snapshot(&snap3);
        let skey2 = schema_key(table);
        self.kv.insert(skey2, sbytes);
        let tk = temp_key(txid, table);
        let marker = schema_key(table);
        self.kv.insert(tk, marker);
        let lrec2 = make_lock_record(txid, false);
        let lk2 = lock_key();
        self.kv.insert(lk2, lrec2);
        self.next_txid = txid + 1;
        proof {
            assert(self.kv@ == crate::model::sv_structural_commit(
                s2v,
                table@,
                snap2v,
                txid,
                new_schemav,
            ));
        }
        Ok(())
    }
}

/// Whether the schema declares an index carrying `name`.
fn has_index(schema: &Schema, name: &Vec<u8>) -> (r: bool)
    ensures
        r == has_index_named(schema@.indexes, name@),
{
    let mut i: usize = 0;
    while i < schema.indexes.len()
        invariant
            i <= schema@.indexes.len(),
            schema@.indexes.len() == schema.indexes@.len(),
            forall|j: int| 0 <= j < i ==> (#[trigger] schema@.indexes[j]).name != name@,
        decreases schema@.indexes.len() - i,
    {
        if bytes_eq(&schema.indexes[i].name, name) {
            assert(schema@.indexes[i as int].name == name@);
            return true;
        }
        i = i + 1;
    }
    false
}

/// The position of the first declared index carrying `name`, if any.
fn find_index(schema: &Schema, name: &Vec<u8>) -> (r: Option<usize>)
    ensures
        r matches Some(i) ==> i < schema@.indexes.len() && has_index_named(
            schema@.indexes,
            name@,
        ) && first_index_named(schema@.indexes, name@) == schema@.indexes[i as int],
        r is None ==> !has_index_named(schema@.indexes, name@),
{
    let mut i: usize = 0;
    while i < schema.indexes.len()
        invariant
            i <= schema@.indexes.len(),
            schema@.indexes.len() == schema.indexes@.len(),
            forall|j: int| 0 <= j < i ==> (#[trigger] schema@.indexes[j]).name != name@,
        decreases schema@.indexes.len() - i,
    {
        if bytes_eq(&schema.indexes[i].name, name) {
            proof {
                assert(schema@.indexes[i as int].name == name@);
                crate::model::lemma_first_index_named(schema@.indexes, name@, i as int);
            }
            return Some(i);
        }
        i = i + 1;
    }
    None
}

/// The declared indexes that do not carry `name`, copied in order.
fn keep_other_indexes(schema: &Schema, name: &Vec<u8>) -> (r: Vec<SchemaIndex>)
    ensures
        r@.map(|i: int, x: SchemaIndex| x@) == crate::model::drop_index_named(
            schema@.indexes,
            name@,
        ),
{
    let mut kept: Vec<SchemaIndex> = Vec::new();
    let mut i: usize = 0;
    while i < schema.indexes.len()
        invariant
            i <= schema@.indexes.len(),
            schema@.indexes.len() == schema.indexes@.len(),
            kept@.map(|i0: int, x: SchemaIndex| x@) == crate::model::drop_index_named(
                schema@.indexes.take(i as int),
                name@,
            ),
        decreases schema@.indexes.len() - i,
    {
        let ghost pre = kept@.map(|i0: int, x: SchemaIndex| x@);
        proof {
            assert(schema@.indexes.take(i + 1 as int).drop_last() =~= schema@.indexes.take(
                i as int,
            ));
            assert(schema@.indexes.take(i + 1 as int).last() == schema@.indexes[i as int]);
        }
        if !bytes_eq(&schema.indexes[i].name, name) {
            kept.push(copy_schema_index(&schema.indexes[i]));
            proof {
                assert(kept@.map(|i0: int, x: SchemaIndex| x@) =~= pre.push(
                    schema@.indexes[i as int],
                ));
            }
        } else {
            assert(schema@.indexes[i as int].name == name@);
        }
        i = i + 1;
    }
    proof {
        assert(schema@.indexes.take(schema@.indexes.len() as int) =~= schema@.indexes);
    }
    kept
}

} // verus!

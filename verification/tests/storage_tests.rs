use sled_storage::codec::{decode_row, decode_snapshot, encode_index_value, encode_row,
    encode_snapshot};
use sled_storage::data::{ColumnDef, DataType, Row, Schema, SchemaIndex, SchemaIndexOrd, Value};
use sled_storage::keys;
use sled_storage::snapshot::Snapshot;
use sled_storage::store::Storage;
use sled_storage::Error;

fn two_int_schema(table: &[u8]) -> Schema {
    Schema {
        table_name: table.to_vec(),
        column_defs: vec![
            ColumnDef { name: b"a".to_vec(), data_type: DataType::Int },
            ColumnDef { name: b"b".to_vec(), data_type: DataType::Int },
        ],
        indexes: Vec::new(),
    }
}

fn row(a: i64, b: i64) -> Row {
    vec![Value::I64(a), Value::I64(b)]
}

fn entry_key(table: &[u8], ix_name: &[u8], v: i64, id: u64) -> Vec<u8> {
    let enc = encode_index_value(&Value::I64(v));
    let rk = keys::data_key(&table.to_vec(), id);
    keys::index_entry_key(&table.to_vec(), &ix_name.to_vec(), &enc, &rk)
}

#[test]
fn key_layout_bytes() {
    assert_eq!(keys::schema_key(&b"t".to_vec()), b"schema/t".to_vec());
    assert_eq!(keys::data_prefix(&b"t".to_vec()), b"data/t/".to_vec());
    let mut want = b"data/t/".to_vec();
    want.extend_from_slice(&[0, 0, 0, 0, 0, 0, 0, 7]);
    assert_eq!(keys::data_key(&b"t".to_vec(), 7), want);
    assert_eq!(keys::lock_key(), vec![0u8]);
    let tk = keys::temp_key(1, &b"t".to_vec());
    let mut want_tk = b"temp_schema/".to_vec();
    want_tk.extend_from_slice(&[0, 0, 0, 0, 0, 0, 0, 1]);
    want_tk.push(b'/');
    want_tk.extend_from_slice(b"t");
    assert_eq!(tk, want_tk);
}

#[test]
fn row_codec_round_trip() {
    let r = row(1, -5);
    let enc = encode_row(&r);
    // count 2, then tag 1 + 8 bytes per value
    assert_eq!(enc.len(), 8 + 9 + 9);
    assert_eq!(&enc[0..8], &[0, 0, 0, 0, 0, 0, 0, 2]);
    let dec = decode_row(&enc).expect("row must decode");
    assert_eq!(dec, r);
}

#[test]
fn row_codec_rejects_garbage() {
    assert!(decode_row(&vec![1, 2, 3]).is_none());
    let mut enc = encode_row(&row(1, 2));
    enc.push(0);
    assert!(decode_row(&enc).is_none());
}

#[test]
fn snapshot_round_trip() {
    let snap = Snapshot::new(two_int_schema(b"t"));
    let enc = encode_snapshot(&snap);
    let dec = decode_snapshot(&enc).expect("snapshot must decode");
    assert_eq!(encode_snapshot(&dec), enc);
}

#[test]
fn snapshot_round_trip_pending() {
    let snap = Snapshot::new(two_int_schema(b"t"));
    let (snap, prev) = snap.delete(9);
    assert!(prev.is_some());
    let snap = snap.update(9, two_int_schema(b"t"));
    let enc = encode_snapshot(&snap);
    let dec = decode_snapshot(&enc).expect("pending snapshot must decode");
    assert_eq!(encode_snapshot(&dec), enc);
}

#[test]
fn snapshot_delete_on_tombstone_returns_none() {
    let snap = Snapshot::new(two_int_schema(b"t"));
    let (snap, first) = snap.delete(1);
    assert!(first.is_some());
    let (_, second) = snap.delete(2);
    assert!(second.is_none());
}

#[test]
fn create_insert_scan() {
    let mut st = Storage::new();
    st.insert_schema(two_int_schema(b"t")).unwrap();
    st.insert_data(&b"t".to_vec(), &vec![row(1, 10), row(2, 20)]).unwrap();
    let rows = st.scan_data(&b"t".to_vec());
    assert_eq!(rows.len(), 2);
    assert_eq!(rows[0].0, keys::data_key(&b"t".to_vec(), 0));
    assert_eq!(rows[1].0, keys::data_key(&b"t".to_vec(), 1));
    assert!(rows[0].0 < rows[1].0);
    assert_eq!(decode_row(&rows[0].1).unwrap(), row(1, 10));
    assert_eq!(decode_row(&rows[1].1).unwrap(), row(2, 20));
}

#[test]
fn create_index_after_data() {
    let mut st = Storage::new();
    st.insert_schema(two_int_schema(b"t")).unwrap();
    st.insert_data(&b"t".to_vec(), &vec![row(1, 10), row(2, 20)]).unwrap();
    let txid = st.next_txid;
    st.create_index(&b"t".to_vec(), &b"ix_a".to_vec(), 0).unwrap();
    assert_eq!(st.kv.get(&entry_key(b"t", b"ix_a", 1, 0)), Some(Vec::new()));
    assert_eq!(st.kv.get(&entry_key(b"t", b"ix_a", 2, 1)), Some(Vec::new()));
    let marker = st.kv.get(&keys::temp_key(txid, &b"t".to_vec()));
    assert_eq!(marker, Some(keys::schema_key(&b"t".to_vec())));
    // the committed schema now declares the index
    let snap = st.fetch_schema(&b"t".to_vec()).unwrap().unwrap();
    let schema = snap.current_owned().unwrap();
    assert_eq!(schema.indexes.len(), 1);
    assert_eq!(schema.indexes[0].name, b"ix_a".to_vec());
}

#[test]
fn update_changes_indexed_value() {
    let mut st = Storage::new();
    st.insert_schema(two_int_schema(b"t")).unwrap();
    st.insert_data(&b"t".to_vec(), &vec![row(1, 10), row(2, 20)]).unwrap();
    st.create_index(&b"t".to_vec(), &b"ix_a".to_vec(), 0).unwrap();
    let k1 = keys::data_key(&b"t".to_vec(), 0);
    st.update_data(&b"t".to_vec(), &vec![(k1, row(3, 10))]).unwrap();
    assert_eq!(st.kv.get(&entry_key(b"t", b"ix_a", 1, 0)), None);
    assert_eq!(st.kv.get(&entry_key(b"t", b"ix_a", 3, 0)), Some(Vec::new()));
    assert_eq!(st.kv.get(&entry_key(b"t", b"ix_a", 2, 1)), Some(Vec::new()));
}

#[test]
fn delete_cleans_indexes() {
    let mut st = Storage::new();
    st.insert_schema(two_int_schema(b"t")).unwrap();
    st.insert_data(&b"t".to_vec(), &vec![row(1, 10), row(2, 20)]).unwrap();
    st.create_index(&b"t".to_vec(), &b"ix_a".to_vec(), 0).unwrap();
    let k1 = keys::data_key(&b"t".to_vec(), 0);
    st.update_data(&b"t".to_vec(), &vec![(k1.clone(), row(3, 10))]).unwrap();
    st.delete_data(&b"t".to_vec(), &vec![k1]).unwrap();
    let rows = st.scan_data(&b"t".to_vec());
    assert_eq!(rows.len(), 1);
    assert_eq!(rows[0].0, keys::data_key(&b"t".to_vec(), 1));
    assert_eq!(st.kv.get(&entry_key(b"t", b"ix_a", 3, 0)), None);
    assert_eq!(st.kv.get(&entry_key(b"t", b"ix_a", 2, 1)), Some(Vec::new()));
}

#[test]
fn drop_index_removes_entries_and_declaration() {
    let mut st = Storage::new();
    st.insert_schema(two_int_schema(b"t")).unwrap();
    st.insert_data(&b"t".to_vec(), &vec![row(1, 10), row(2, 20)]).unwrap();
    st.create_index(&b"t".to_vec(), &b"ix_a".to_vec(), 0).unwrap();
    st.drop_index(&b"t".to_vec(), &b"ix_a".to_vec()).unwrap();
    let prefix = keys::index_prefix(&b"t".to_vec(), &b"ix_a".to_vec());
    assert_eq!(st.kv.scan_prefix(&prefix).len(), 0);
    let snap = st.fetch_schema(&b"t".to_vec()).unwrap().unwrap();
    let schema = snap.current_owned().unwrap();
    assert_eq!(schema.indexes.len(), 0);
}

#[test]
fn duplicate_index_name_rejected_and_state_unchanged() {
    let mut st = Storage::new();
    st.insert_schema(two_int_schema(b"t")).unwrap();
    st.insert_data(&b"t".to_vec(), &vec![row(1, 10), row(2, 20)]).unwrap();
    st.create_index(&b"t".to_vec(), &b"ix_a".to_vec(), 0).unwrap();
    let before = st.kv.entries.clone();
    let before_txid = st.next_txid;
    let r = st.create_index(&b"t".to_vec(), &b"ix_a".to_vec(), 1);
    assert_eq!(r, Err(Error::IndexNameAlreadyExists));
    assert_eq!(st.kv.entries, before);
    assert_eq!(st.next_txid, before_txid);
}

#[test]
fn insert_then_delete_schema_leaves_nothing() {
    let mut st = Storage::new();
    st.insert_schema(two_int_schema(b"t")).unwrap();
    st.insert_data(&b"t".to_vec(), &vec![row(1, 10)]).unwrap();
    st.delete_schema(&b"t".to_vec()).unwrap();
    assert_eq!(st.kv.get(&keys::schema_key(&b"t".to_vec())), None);
    assert_eq!(st.scan_data(&b"t".to_vec()).len(), 0);
}

#[test]
fn update_with_same_row_is_byte_identical_noop() {
    let mut st = Storage::new();
    st.insert_schema(two_int_schema(b"t")).unwrap();
    st.insert_data(&b"t".to_vec(), &vec![row(1, 10), row(2, 20)]).unwrap();
    st.create_index(&b"t".to_vec(), &b"ix_a".to_vec(), 0).unwrap();
    let before = st.kv.entries.clone();
    let k1 = keys::data_key(&b"t".to_vec(), 0);
    st.update_data(&b"t".to_vec(), &vec![(k1, row(1, 10))]).unwrap();
    assert_eq!(st.kv.entries, before);
}

#[test]
fn dml_keeps_index_entries_consistent() {
    // one entry per (row, index), no orphans, after a mixed DML sequence
    let mut st = Storage::new();
    st.insert_schema(two_int_schema(b"t")).unwrap();
    st.insert_data(&b"t".to_vec(), &vec![row(1, 10)]).unwrap();
    st.create_index(&b"t".to_vec(), &b"ix_a".to_vec(), 0).unwrap();
    st.create_index(&b"t".to_vec(), &b"ix_b".to_vec(), 1).unwrap();
    st.insert_data(&b"t".to_vec(), &vec![row(2, 20), row(3, 30)]).unwrap();
    let k2 = keys::data_key(&b"t".to_vec(), 1);
    st.update_data(&b"t".to_vec(), &vec![(k2, row(4, 20))]).unwrap();
    let k3 = keys::data_key(&b"t".to_vec(), 2);
    st.delete_data(&b"t".to_vec(), &vec![k3]).unwrap();

    let rows = st.scan_data(&b"t".to_vec());
    assert_eq!(rows.len(), 2);
    let mut expected_a: Vec<Vec<u8>> = Vec::new();
    let mut expected_b: Vec<Vec<u8>> = Vec::new();
    for (k, v) in rows.iter() {
        let r = decode_row(v).unwrap();
        let (Value::I64(a), Value::I64(b)) = (r[0], r[1]) else { panic!("int row expected") };
        expected_a.push(sled_storage::keys::index_entry_key(
            &b"t".to_vec(),
            &b"ix_a".to_vec(),
            &encode_index_value(&Value::I64(a)),
            k,
        ));
        expected_b.push(sled_storage::keys::index_entry_key(
            &b"t".to_vec(),
            &b"ix_b".to_vec(),
            &encode_index_value(&Value::I64(b)),
            k,
        ));
    }
    let got_a: Vec<Vec<u8>> = st
        .kv
        .scan_prefix(&keys::index_prefix(&b"t".to_vec(), &b"ix_a".to_vec()))
        .into_iter()
        .map(|(k, _)| k)
        .collect();
    let got_b: Vec<Vec<u8>> = st
        .kv
        .scan_prefix(&keys::index_prefix(&b"t".to_vec(), &b"ix_b".to_vec()))
        .into_iter()
        .map(|(k, _)| k)
        .collect();
    let mut expected_a_sorted = expected_a.clone();
    expected_a_sorted.sort();
    let mut got_a_sorted = got_a.clone();
    got_a_sorted.sort();
    assert_eq!(got_a_sorted, expected_a_sorted);
    let mut expected_b_sorted = expected_b.clone();
    expected_b_sorted.sort();
    let mut got_b_sorted = got_b.clone();
    got_b_sorted.sort();
    assert_eq!(got_b_sorted, expected_b_sorted);
}

#[test]
fn update_missing_row_conflicts() {
    let mut st = Storage::new();
    st.insert_schema(two_int_schema(b"t")).unwrap();
    let k = keys::data_key(&b"t".to_vec(), 5);
    let r = st.update_data(&b"t".to_vec(), &vec![(k, row(1, 1))]);
    assert_eq!(r, Err(Error::ConflictOnEmptyIndexValueUpdate));
}

#[test]
fn delete_missing_row_conflicts() {
    let mut st = Storage::new();
    st.insert_schema(two_int_schema(b"t")).unwrap();
    let k = keys::data_key(&b"t".to_vec(), 5);
    let r = st.delete_data(&b"t".to_vec(), &vec![k]);
    assert_eq!(r, Err(Error::ConflictOnEmptyIndexValueDelete));
}

#[test]
fn missing_table_errors() {
    let mut st = Storage::new();
    assert_eq!(
        st.insert_data(&b"nope".to_vec(), &vec![row(1, 1)]),
        Err(Error::TableNotFound)
    );
    assert_eq!(
        st.create_index(&b"nope".to_vec(), &b"ix".to_vec(), 0),
        Err(Error::TableNotFound)
    );
}

#[test]
fn drop_unknown_index_errors() {
    let mut st = Storage::new();
    st.insert_schema(two_int_schema(b"t")).unwrap();
    let r = st.drop_index(&b"t".to_vec(), &b"ix".to_vec());
    assert_eq!(r, Err(Error::IndexNameDoesNotExist));
}

#[test]
fn index_column_out_of_range_aborts_whole_insert() {
    let mut st = Storage::new();
    st.insert_schema(two_int_schema(b"t")).unwrap();
    st.create_index(&b"t".to_vec(), &b"ix_far".to_vec(), 9).unwrap();
    let before = st.kv.entries.clone();
    let r = st.insert_data(&b"t".to_vec(), &vec![row(1, 10)]);
    assert_eq!(r, Err(Error::Evaluate));
    assert_eq!(st.kv.entries, before);
    assert_eq!(st.scan_data(&b"t".to_vec()).len(), 0);
}

#[test]
fn index_value_encoding_orders_signed_integers() {
    let lo = encode_index_value(&Value::I64(-3));
    let hi = encode_index_value(&Value::I64(2));
    assert!(lo < hi);
    let null = encode_index_value(&Value::Null);
    assert!(null < lo);
}

#[test]
fn tombstoned_schema_conflicts_with_ddl() {
    let mut st = Storage::new();
    let snap = Snapshot::new(two_int_schema(b"t"));
    let (snap, _) = snap.delete(1);
    let bytes = encode_snapshot(&snap);
    st.kv.insert(keys::schema_key(&b"t".to_vec()), bytes);
    let r = st.create_index(&b"t".to_vec(), &b"ix".to_vec(), 0);
    assert_eq!(r, Err(Error::ConflictTableNotFound));
}

#[test]
fn live_lock_conflicts_with_ddl() {
    let mut st = Storage::new();
    st.insert_schema(two_int_schema(b"t")).unwrap();
    // a live lock record, as another writer's open transaction would leave it
    let mut rec = vec![0, 0, 0, 0, 0, 0, 0, 42];
    rec.push(1);
    st.kv.insert(keys::lock_key(), rec);
    let before = st.kv.entries.clone();
    assert_eq!(
        st.create_index(&b"t".to_vec(), &b"ix".to_vec(), 0),
        Err(Error::LockConflict)
    );
    assert_eq!(
        st.drop_index(&b"t".to_vec(), &b"ix".to_vec()),
        Err(Error::LockConflict)
    );
    assert_eq!(st.kv.entries, before);
}

#[test]
fn second_ddl_after_commit_succeeds_lock_released() {
    let mut st = Storage::new();
    st.insert_schema(two_int_schema(b"t")).unwrap();
    st.create_index(&b"t".to_vec(), &b"ix_a".to_vec(), 0).unwrap();
    // the committed transaction released the lock: the next one proceeds
    st.create_index(&b"t".to_vec(), &b"ix_b".to_vec(), 1).unwrap();
    let snap = st.fetch_schema(&b"t".to_vec()).unwrap().unwrap();
    let schema = snap.current_owned().unwrap();
    assert_eq!(schema.indexes.len(), 2);
}

#[test]
fn index_order_capability_is_both() {
    let mut st = Storage::new();
    st.insert_schema(two_int_schema(b"t")).unwrap();
    st.create_index(&b"t".to_vec(), &b"ix_a".to_vec(), 0).unwrap();
    let snap = st.fetch_schema(&b"t".to_vec()).unwrap().unwrap();
    let schema = snap.current_owned().unwrap();
    assert_eq!(schema.indexes[0].order, SchemaIndexOrd::Both);
    assert_eq!(schema.indexes[0].column, 0);
}

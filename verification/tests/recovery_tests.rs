use std::cell::Cell;
use aster_db::error::ErrorKind;
use aster_db::recovery::{
    decode_frames, encode_frame, should_create_checkpoint, replay_entries, u32_le_bytes, valid_entries_by_sequence,
    wal_file_name, wal_file_name_at, replay_entries_with_clock, new_wal_file_name,
    OperationKind, RecoveryConfig, RecoveryOperation, RecoveryStats, WALEntry, WalWriter, log_files_in_order, log_files_to_remove,
};
use aster_db::types::VertexId;

fn commit(id: u64) -> RecoveryOperation {
    RecoveryOperation::TransactionCommit { transaction_id: id, changes: vec![], timestamp: 1 }
}

#[test]
fn test_wal_entry_checksum() {
    let operation = commit(1);
    let serialized: Vec<u8> = vec![0, 0, 0, 0, 1, 0, 0, 0, 0, 0, 0, 0, 0, 0, 0, 0, 0, 0, 0, 0, 1, 0, 0, 0, 0, 0, 0, 0];
    let entry = WALEntry::new(1, operation, &serialized);
    assert!(entry.verify_checksum(&serialized));
}

#[test]
fn checksum_is_crc32_ieee() {
    let entry = WALEntry::new(7, commit(2), b"123456789");
    assert_eq!(entry.checksum, 0xCBF4_3926);
    assert_eq!(entry.sequence_number, 7);
    assert!(!entry.verify_checksum(b"123456780"));
    assert!(entry.checksum_matches(0xCBF4_3926));
    assert!(!entry.checksum_matches(0));
}

#[test]
fn empty_payload_checksum_is_zero() {
    let entry = WALEntry::new(1, commit(3), &[]);
    assert_eq!(entry.checksum, 0);
}

#[test]
fn operation_kinds() {
    assert_eq!(commit(1).kind(), OperationKind::Commit);
    let rb = RecoveryOperation::TransactionRollback { transaction_id: 1, timestamp: 2 };
    assert_eq!(rb.kind(), OperationKind::Rollback);
    let cp = RecoveryOperation::StorageCheckpoint { checkpoint_id: 123, timestamp: 2 };
    assert_eq!(cp.kind(), OperationKind::Checkpoint);
    let rp = RecoveryOperation::CorruptionRepair {
        affected_vertices: vec![VertexId::from_u64(1)],
        repair_method: "rebuild".to_string(),
        timestamp: 3,
    };
    assert_eq!(rp.kind(), OperationKind::Repair);
}

#[test]
fn le_bytes_of_numbers() {
    assert_eq!(u32_le_bytes(0x0403_0201), vec![1, 2, 3, 4]);
    assert_eq!(u32_le_bytes(0), vec![0, 0, 0, 0]);
    assert_eq!(u32_le_bytes(u32::MAX), vec![255, 255, 255, 255]);
}

#[test]
fn frame_prefixes_length() {
    assert_eq!(encode_frame(&[9, 8, 7]), vec![3, 0, 0, 0, 9, 8, 7]);
    assert_eq!(encode_frame(&[]), vec![0, 0, 0, 0]);
}

#[test]
fn frames_round_trip() {
    let payloads: Vec<Vec<u8>> = vec![vec![1, 2, 3], vec![], vec![42; 300]];
    let mut log = Vec::new();
    for p in &payloads {
        log.extend(encode_frame(p));
    }
    let back = decode_frames(&log).unwrap();
    assert_eq!(back, payloads);
}

#[test]
fn short_tail_is_ignored() {
    let mut log = encode_frame(&[5, 6]);
    log.extend([1, 0, 0]);
    assert_eq!(decode_frames(&log).unwrap(), vec![vec![5, 6]]);
    assert_eq!(decode_frames(&[]).unwrap(), Vec::<Vec<u8>>::new());
}

#[test]
fn truncated_frame_is_an_io_error() {
    let log = vec![10, 0, 0, 0, 1, 2, 3];
    let err = decode_frames(&log).unwrap_err();
    assert_eq!(err.kind(), ErrorKind::Io);
    assert_eq!(err.to_string(), "I/O error: failed to fill whole buffer");
}

#[test]
fn writer_numbers_entries_from_one() {
    let mut w = WalWriter::new(100);
    assert_eq!(w.next_sequence(), 1);
    assert_eq!(w.next_sequence(), 2);
    assert_eq!(w.sequence, 2);
}

#[test]
fn writer_opens_then_rotates() {
    let mut w = WalWriter::new(20);
    let p1 = w.plan_write(10);
    assert!(!p1.rotate);
    assert!(p1.open_new_file);
    assert_eq!(w.file_size, 14);
    let p2 = w.plan_write(6);
    assert!(!p2.rotate);
    assert!(!p2.open_new_file);
    assert_eq!(w.file_size, 24);
    let p3 = w.plan_write(1);
    assert!(p3.rotate);
    assert!(p3.open_new_file);
    assert_eq!(w.file_size, 5);
}

#[test]
fn wal_file_names() {
    assert_eq!(wal_file_name("20240101_120000"), "wal_20240101_120000.log");
}

#[test]
fn default_recovery_config() {
    let c = RecoveryConfig::default_config();
    assert_eq!(c.wal_directory, "./wal");
    assert_eq!(c.checkpoint_interval_seconds, 300);
    assert_eq!(c.max_wal_file_size, 64 * 1024 * 1024);
    assert_eq!(c.recovery_timeout_seconds, 300);
    assert!(c.enable_auto_repair);
    assert_eq!(c.corruption_detection_interval_seconds, 3600);
    assert_eq!(c.max_recovery_attempts, 3);
}

#[test]
fn checkpoint_is_counted_as_a_log_write() {
    let mut stats = RecoveryStats::new();
    stats.record_checkpoint();
    assert_eq!(stats.checkpoints_created, 1);
    assert_eq!(stats.wal_entries_written, 1);
}

#[test]
fn logged_commit_counts_a_write() {
    let mut stats = RecoveryStats::new();
    stats.record_wal_write();
    assert_eq!(stats.wal_entries_written, 1);
    assert_eq!(stats.checkpoints_created, 0);
}

#[test]
fn counters_wrap() {
    let mut stats = RecoveryStats::new();
    stats.wal_entries_written = u64::MAX;
    stats.record_wal_write();
    assert_eq!(stats.wal_entries_written, 0);
}

#[test]
fn recovery_timing_and_corruptions() {
    let mut stats = RecoveryStats::new();
    stats.record_recovery_start(1000);
    stats.record_recovery_time(25);
    stats.record_recovery_time(5);
    stats.record_corruption_check(3, 2);
    assert_eq!(stats.recovery_operations, 1);
    assert_eq!(stats.last_recovery_time, Some(1000));
    assert_eq!(stats.total_recovery_time_ms, 30);
    assert_eq!(stats.corruptions_detected, 3);
    assert_eq!(stats.corruptions_repaired, 2);
}

#[test]
fn replay_counts_each_kind() {
    let entries = vec![
        WALEntry::with_checksum(1, commit(1), 0),
        WALEntry::with_checksum(2, RecoveryOperation::TransactionRollback { transaction_id: 2, timestamp: 0 }, 0),
        WALEntry::with_checksum(3, commit(3), 0),
        WALEntry::with_checksum(4, RecoveryOperation::StorageCheckpoint { checkpoint_id: 9, timestamp: 0 }, 0),
    ];
    let mut stats = RecoveryStats::new();
    replay_entries(&mut stats, &entries, 300).unwrap();
    assert_eq!(stats.transactions_recovered, 2);
    assert_eq!(stats.transactions_rolled_back, 1);
    assert_eq!(stats.checkpoints_created, 1);
    assert_eq!(stats.corruptions_repaired, 0);
    assert_eq!(stats.wal_entries_replayed, 4);
}

#[test]
fn replay_of_nothing_changes_nothing() {
    let mut stats = RecoveryStats::new();
    replay_entries(&mut stats, &[], 0).unwrap();
    assert_eq!(stats, RecoveryStats::new());
}

#[test]
fn checkpoint_due() {
    assert!(should_create_checkpoint(None, 300));
    assert!(!should_create_checkpoint(Some(299), 300));
    assert!(should_create_checkpoint(Some(300), 300));
}

#[test]
fn replay_list_drops_bad_checksums_and_sorts() {
    let good = b"123456789".to_vec();
    let entries = vec![
        WALEntry::new(5, commit(5), &good),
        WALEntry::new(2, commit(2), &good),
        WALEntry::with_checksum(1, commit(1), 7),
        WALEntry::new(2, commit(9), &good),
        WALEntry::new(3, commit(3), &good),
    ];
    let serialized = vec![good.clone(), good.clone(), good.clone(), good.clone(), good.clone()];
    let kept = valid_entries_by_sequence(entries, &serialized);
    let order: Vec<(u64, u64)> = kept
        .iter()
        .map(|e| match e.operation {
            RecoveryOperation::TransactionCommit { transaction_id, .. } => (e.sequence_number, transaction_id),
            _ => (e.sequence_number, 0),
        })
        .collect();
    assert_eq!(order, vec![(2, 2), (2, 9), (3, 3), (5, 5)]);
}

fn strings(v: &[&str]) -> Vec<String> {
    v.iter().map(|s| s.to_string()).collect()
}

#[test]
fn log_files_are_read_in_name_order() {
    let names = strings(&["wal_20240102_000000.log", "notes.txt", ".log", "wal_20240101_120000.log", "a.log.bak", "x.log"]);
    assert_eq!(
        log_files_in_order(&names),
        strings(&["wal_20240101_120000.log", "wal_20240102_000000.log", "x.log"])
    );
    assert!(log_files_in_order(&strings(&["log", "a.LOG"])).is_empty());
}

#[test]
fn old_log_files_are_removed_newest_first() {
    let names = strings(&["wal_3.log", "wal_1.log", "keep.txt", "wal_4.log", "wal_2.log"]);
    assert_eq!(log_files_to_remove(&names, 2), strings(&["wal_2.log", "wal_1.log"]));
    assert_eq!(log_files_to_remove(&names, 0), strings(&["wal_4.log", "wal_3.log", "wal_2.log", "wal_1.log"]));
    assert!(log_files_to_remove(&names, 4).is_empty());
    assert!(log_files_to_remove(&names, 10).is_empty());
}

#[test]
fn wal_file_names_from_seconds() {
    assert_eq!(wal_file_name_at(0), Some("wal_19700101_000000.log".to_string()));
    assert_eq!(wal_file_name_at(1_704_110_400), Some("wal_20240101_120000.log".to_string()));
    assert_eq!(wal_file_name_at(u64::MAX), None);
    let name = new_wal_file_name().unwrap();
    assert!(name.starts_with("wal_") && name.ends_with(".log") && name.len() == 23);
}

#[test]
fn replay_stops_at_the_first_late_reading() {
    let entries: Vec<WALEntry> = (1..=3).map(|i| WALEntry::with_checksum(i, commit(i), 0)).collect();
    let calls = Cell::new(0u32);
    // Readings of 0, 0, then past five seconds.
    let clock = || {
        calls.set(calls.get() + 1);
        if calls.get() <= 2 { 0u128 } else { 5_000_000_001u128 }
    };
    let mut stats = RecoveryStats::new();
    let err = replay_entries_with_clock(&mut stats, &entries, 5, &clock).unwrap_err();
    assert_eq!(err.kind(), ErrorKind::Timeout);
    assert_eq!(stats.transactions_recovered, 2);
    assert_eq!(stats.wal_entries_replayed, 0);
    let mut fresh = RecoveryStats::new();
    replay_entries_with_clock(&mut fresh, &entries, 5, &|| 5_000_000_000u128).unwrap();
    assert_eq!(fresh.transactions_recovered, 3);
    assert_eq!(fresh.wal_entries_replayed, 3);
}

use pgbackuproll::codec::encode;
use pgbackuproll::index::BackupIndex;
use pgbackuproll::index::is_gz_name;
use pgbackuproll::index::smallest_uncompressed;
use pgbackuproll::timestamp::Timestamp;

fn ts(year: u32, month: u32, day: u32, hour: u32, minute: u32, second: u32) -> Timestamp {
    Timestamp::new(year, month, day, hour, minute, second).unwrap()
}

/// An uncompressed backup name on a fixed day.
fn name_at(hour: u32, minute: u32, second: u32) -> String {
    encode(&ts(2024, 5, 1, hour, minute, second), false)
}

#[test]
fn gz_extension_detection() {
    assert!(is_gz_name("2024-05-01_00-00-00.sql.gz"));
    assert!(is_gz_name("a.gz"));
    assert!(!is_gz_name(".gz"));
    assert!(!is_gz_name("gz"));
    assert!(!is_gz_name("2024-05-01_00-00-00.sql"));
    assert!(!is_gz_name(""));
}

#[test]
fn build_orders_by_timestamp() {
    let names = vec![name_at(3, 0, 0), name_at(0, 0, 0), name_at(1, 10, 0), name_at(1, 0, 0)];
    let idx = BackupIndex::build(&names).unwrap();
    let got: Vec<&str> = idx.entries.iter().map(|e| e.1.as_str()).collect();
    assert_eq!(
        got,
        vec![
            "2024-05-01_00-00-00.sql",
            "2024-05-01_01-00-00.sql",
            "2024-05-01_01-10-00.sql",
            "2024-05-01_03-00-00.sql",
        ]
    );
    assert!(idx.entries.windows(2).all(|w| w[0].0 < w[1].0));
}

#[test]
fn build_orders_across_calendar_boundaries() {
    let names = vec![
        encode(&ts(2024, 3, 1, 0, 0, 0), false),
        encode(&ts(2023, 12, 31, 23, 59, 59), false),
        encode(&ts(2024, 2, 29, 12, 0, 0), true),
        encode(&ts(2024, 1, 1, 0, 0, 0), false),
    ];
    let idx = BackupIndex::build(&names).unwrap();
    let got: Vec<&str> = idx.entries.iter().map(|e| e.1.as_str()).collect();
    assert_eq!(
        got,
        vec![
            "2023-12-31_23-59-59.sql",
            "2024-01-01_00-00-00.sql",
            "2024-02-29_12-00-00.sql.gz",
            "2024-03-01_00-00-00.sql",
        ]
    );
}

#[test]
fn build_same_timestamp_last_name_wins() {
    let uncompressed = encode(&ts(2024, 5, 1, 0, 0, 0), false);
    let compressed = encode(&ts(2024, 5, 1, 0, 0, 0), true);
    let idx = BackupIndex::build(&vec![uncompressed.clone(), compressed.clone()]).unwrap();
    assert_eq!(idx.entries.len(), 1);
    assert_eq!(idx.entries[0].1, compressed);
    let idx2 = BackupIndex::build(&vec![compressed, uncompressed.clone()]).unwrap();
    assert_eq!(idx2.entries.len(), 1);
    assert_eq!(idx2.entries[0].1, uncompressed);
}

#[test]
fn build_fails_on_unrecognized_name() {
    let names = vec![name_at(0, 0, 0), String::from("stray.txt")];
    assert!(BackupIndex::build(&names).is_err());
}

#[test]
fn select_empty_and_single_are_kept() {
    let idx = BackupIndex::build(&vec![]).unwrap();
    assert!(idx.select().is_none());
    let idx = BackupIndex::build(&vec![name_at(7, 0, 0)]).unwrap();
    assert!(idx.select().is_none());
}

#[test]
fn select_pair_picks_older() {
    let idx = BackupIndex::build(&vec![name_at(9, 30, 0), name_at(2, 0, 0)]).unwrap();
    assert_eq!(idx.select().unwrap(), name_at(2, 0, 0));
}

#[test]
fn select_proximity_prefers_smaller_far_gap() {
    // Interior candidates: 01:00:00 with sorted gaps [10min, 60min],
    // 01:10:00 with [10min, 110min]; the first wins on the tie-break.
    let names = vec![name_at(0, 0, 0), name_at(1, 0, 0), name_at(1, 10, 0), name_at(3, 0, 0)];
    let idx = BackupIndex::build(&names).unwrap();
    assert_eq!(idx.select().unwrap(), name_at(1, 0, 0));
}

#[test]
fn select_uniform_gaps_picks_earliest_interior() {
    let names = vec![
        name_at(0, 0, 0),
        name_at(1, 0, 0),
        name_at(2, 0, 0),
        name_at(3, 0, 0),
        name_at(4, 0, 0),
    ];
    let idx = BackupIndex::build(&names).unwrap();
    assert_eq!(idx.select().unwrap(), name_at(1, 0, 0));
}

#[test]
fn select_never_picks_endpoints() {
    let names = vec![name_at(0, 0, 0), name_at(0, 0, 1), name_at(12, 0, 0)];
    let idx = BackupIndex::build(&names).unwrap();
    let picked = idx.select().unwrap();
    assert_ne!(picked, name_at(0, 0, 0));
    assert_ne!(picked, name_at(12, 0, 0));
    assert_eq!(picked, name_at(0, 0, 1));
}

#[test]
fn smallest_uncompressed_skips_gz() {
    let files = vec![
        (String::from("2024-05-01_00-00-00.sql.gz"), 5),
        (String::from("2024-05-01_01-00-00.sql"), 50),
        (String::from("2024-05-01_02-00-00.sql"), 40),
    ];
    let (name, size) = smallest_uncompressed(&files).unwrap();
    assert_eq!(name, "2024-05-01_02-00-00.sql");
    assert_eq!(size, 40);
}

#[test]
fn smallest_uncompressed_tie_takes_first() {
    let files = vec![
        (String::from("b.sql"), 7),
        (String::from("a.sql"), 7),
        (String::from("c.sql"), 9),
    ];
    let (name, size) = smallest_uncompressed(&files).unwrap();
    assert_eq!(name, "b.sql");
    assert_eq!(size, 7);
}

#[test]
fn smallest_uncompressed_none_when_all_compressed() {
    let files = vec![
        (String::from("2024-05-01_00-00-00.sql.gz"), 5),
        (String::from("2024-05-01_01-00-00.sql.gz"), 6),
    ];
    assert!(smallest_uncompressed(&files).is_none());
    assert!(smallest_uncompressed(&vec![]).is_none());
}

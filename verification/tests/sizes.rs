use adb_sync_tool::queue::Queue;
use adb_sync_tool::sizes::{filesize_type, has_enough_space, FilesizeType, FILE_SPACE_BUFFER};

#[test]
fn units_follow_thresholds() {
    assert_eq!(filesize_type(0), FilesizeType::Kibibyte);
    assert_eq!(filesize_type(1023), FilesizeType::Kibibyte);
    assert_eq!(filesize_type(1024), FilesizeType::Mebibyte);
    assert_eq!(filesize_type(1_048_575), FilesizeType::Mebibyte);
    assert_eq!(filesize_type(1_048_576), FilesizeType::Gibibyte);
    assert_eq!(filesize_type(1_073_741_823), FilesizeType::Gibibyte);
    assert_eq!(filesize_type(1_073_741_824), FilesizeType::Tebibyte);
    assert_eq!(filesize_type(i64::MAX), FilesizeType::Tebibyte);
}

#[test]
fn negative_sizes_use_their_magnitude() {
    assert_eq!(filesize_type(-5), FilesizeType::Kibibyte);
    assert_eq!(filesize_type(-2048), FilesizeType::Mebibyte);
    assert_eq!(filesize_type(-(i64::MAX)), FilesizeType::Tebibyte);
}

#[test]
fn unit_labels() {
    assert_eq!(FilesizeType::Kibibyte.display(), "KiB");
    assert_eq!(FilesizeType::Mebibyte.display(), "MiB");
    assert_eq!(FilesizeType::Gibibyte.display(), "GiB");
    assert_eq!(FilesizeType::Tebibyte.display(), "TiB");
}

#[test]
fn unit_divisors() {
    assert_eq!(FilesizeType::Kibibyte.kib_per_unit(), 1);
    assert_eq!(FilesizeType::Mebibyte.kib_per_unit(), 1024);
    assert_eq!(FilesizeType::Gibibyte.kib_per_unit(), 1_048_576);
    assert_eq!(FilesizeType::Tebibyte.kib_per_unit(), 1_073_741_824);
}

#[test]
fn scaled_size_stays_below_1024_of_its_unit() {
    for kib in [1i64, 999, 1024, 5000, 1_048_576, 3_000_000_000, -70_000] {
        let unit = filesize_type(kib);
        let per = unit.kib_per_unit();
        if unit != FilesizeType::Kibibyte {
            assert!(kib.abs() >= per);
        }
        if unit != FilesizeType::Tebibyte {
            assert!(kib.abs() < 1024 * per);
        }
    }
}

#[test]
fn space_check_keeps_the_reserve() {
    assert_eq!(FILE_SPACE_BUFFER, 10_240);
    assert!(has_enough_space(100, 10_340));
    assert!(!has_enough_space(100, 10_339));
    assert!(has_enough_space(0, 10_240));
    assert!(!has_enough_space(0, 10_200));
    assert!(!has_enough_space(0, 0));
    assert!(has_enough_space(-20_000, 0));
}

#[test]
fn empty_queue_needs_nothing() {
    let mut q = Queue {
        dir_queue: Vec::new(),
        file_queue: Vec::new(),
        add: 0,
        change: 0,
        del: 3,
        total_size: 0,
    };
    assert!(q.nothing_to_do(false));
    assert!(!q.nothing_to_do(true));
    q.del = 0;
    assert!(q.nothing_to_do(true));
    q.change = 1;
    assert!(!q.nothing_to_do(false));
}

#[test]
fn larger_sizes_never_get_smaller_units() {
    let sizes = [0i64, 1023, 1024, 500_000, 1_048_576, 1_073_741_824, i64::MAX];
    for pair in sizes.windows(2) {
        assert!(filesize_type(pair[0]).kib_per_unit() <= filesize_type(pair[1]).kib_per_unit());
    }
}

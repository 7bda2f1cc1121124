use oscar::codec::{decode_filename, encode_filename};
use oscar::datetime::{format_datetime, parse_datetime, DateTime};
use oscar::mount::{get_mounted_devices, get_supported_filesystems, u32_dec};
use oscar::trash_info::TrashInfo;

#[test]
fn test_encode_filename_escapes_the_reserved_set() {
    assert_eq!(encode_filename("a b,c{d|e}f"), String::from("a%20b%2Cc%7Bd%7Ce%7Df"));
    assert_eq!(encode_filename("plain.txt"), String::from("plain.txt"));
    assert_eq!(encode_filename(""), String::from(""));
}

#[test]
fn test_decode_filename_inverts_the_escapes() {
    assert_eq!(decode_filename("a%20b%2Cc%7Bd%7Ce%7Df"), String::from("a b,c{d|e}f"));
    assert_eq!(decode_filename("plain.txt"), String::from("plain.txt"));
}

#[test]
fn test_codec_round_trip_on_ordinary_names() {
    let names = ["test.txt", "a b", "x,y", "{z}", "pipe|name", "100%"];
    let mut i = 0;
    while i < names.len() {
        assert_eq!(decode_filename(encode_filename(names[i]).as_str()), String::from(names[i]));
        i += 1;
    }
}

#[test]
fn test_codec_literal_escape_sequence_edge_case() {
    // A name that already spells an escape sequence decodes to the escaped
    // character instead of itself: the accepted edge of the scheme.
    assert_eq!(encode_filename("%20"), String::from("%20"));
    assert_eq!(decode_filename(encode_filename("%20").as_str()), String::from(" "));
}

#[test]
fn test_format_datetime_fixed_shape() {
    let dt = DateTime { year: 2004, month: 8, day: 31, hour: 22, minute: 32, second: 8 };
    assert_eq!(format_datetime(&dt), String::from("2004-08-31T22:32:08"));
    let early = DateTime { year: 1, month: 1, day: 1, hour: 0, minute: 0, second: 0 };
    assert_eq!(format_datetime(&early), String::from("0001-01-01T00:00:00"));
}

#[test]
fn test_parse_datetime_accepts_exactly_the_shape() {
    let dt = parse_datetime("2004-08-31T22:32:08").unwrap();
    assert_eq!(dt, DateTime { year: 2004, month: 8, day: 31, hour: 22, minute: 32, second: 8 });
    assert_eq!(parse_datetime("2004-08-31 22:32:08"), None);
    assert_eq!(parse_datetime("2004-08-31T22:32"), None);
    assert_eq!(parse_datetime("2004-13-01T00:00:00"), None);
    assert_eq!(parse_datetime("2004-00-01T00:00:00"), None);
    assert_eq!(parse_datetime("2004-08-32T00:00:00"), None);
    assert_eq!(parse_datetime("2004-08-31T24:00:00"), None);
}

#[test]
fn test_parse_datetime_knows_leap_years() {
    assert!(parse_datetime("2024-02-29T00:00:00").is_some());
    assert_eq!(parse_datetime("2023-02-29T00:00:00"), None);
    assert_eq!(parse_datetime("1900-02-29T00:00:00"), None);
    assert!(parse_datetime("2000-02-29T00:00:00").is_some());
}

#[test]
fn test_trash_info_parse_canonical_record() {
    let record = TrashInfo::parse(
        "[Trash Info]\nPath=/tmp/test.txt\nDeletionDate=2004-08-31T22:32:08\n",
    )
    .unwrap();
    assert_eq!(record.full_path, String::from("/tmp/test.txt"));
    assert_eq!(record.path, String::from("test.txt"));
    assert_eq!(
        record.deletion_date,
        DateTime { year: 2004, month: 8, day: 31, hour: 22, minute: 32, second: 8 }
    );
}

#[test]
fn test_trash_info_parse_is_case_insensitive_and_trims() {
    let record = TrashInfo::parse(
        "  [trash info]  \n  path = /tmp/x%20y  \n  deletiondate = 2004-08-31T22:32:08  \n",
    )
    .unwrap();
    assert_eq!(record.full_path, String::from("/tmp/x%20y"));
    assert_eq!(record.path, String::from("x y"));
}

#[test]
fn test_trash_info_parse_last_duplicate_key_wins() {
    let record = TrashInfo::parse(
        "[Trash Info]\nPath=/tmp/first\nPath=/tmp/second\nDeletionDate=2004-08-31T22:32:08\n",
    )
    .unwrap();
    assert_eq!(record.full_path, String::from("/tmp/second"));
}

#[test]
fn test_trash_info_parse_rejects_malformed_records() {
    assert!(TrashInfo::parse("").is_err());
    assert!(TrashInfo::parse("Path=/tmp/x\nDeletionDate=2004-08-31T22:32:08\n").is_err());
    assert!(TrashInfo::parse("[Other]\nPath=/tmp/x\nDeletionDate=2004-08-31T22:32:08\n").is_err());
    assert!(TrashInfo::parse("[Trash Info]\nPath=/tmp/x\n").is_err());
    assert!(TrashInfo::parse("[Trash Info]\nDeletionDate=2004-08-31T22:32:08\n").is_err());
    assert!(
        TrashInfo::parse("[Trash Info]\nPath=/tmp/x\nDeletionDate=2004-08-31T25:00:00\n").is_err()
    );
}

#[test]
fn test_trash_info_render_round_trip() {
    let dt = DateTime { year: 2024, month: 2, day: 29, hour: 1, minute: 2, second: 3 };
    let record = TrashInfo::new("/tmp/a%20b.txt", dt);
    let text = record.render();
    let back = TrashInfo::parse(text.as_str()).unwrap();
    assert_eq!(back.full_path, record.full_path);
    assert_eq!(back.path, String::from("a b.txt"));
    assert_eq!(back.deletion_date, dt);
}

#[test]
fn test_supported_filesystems_skip_virtual_types() {
    let registry = "nodev\tsysfs\nnodev\tproc\n\text4\n\tvfat\n";
    let supported = get_supported_filesystems(registry);
    assert_eq!(supported.len(), 2);
    assert_eq!(supported[0], String::from("ext4"));
    assert_eq!(supported[1], String::from("vfat"));
}

#[test]
fn test_enumerate_keeps_only_supported_types_and_skips_boot() {
    let registry = "nodev\tproc\n\text4\n";
    let mounts = "/dev/sda1 / ext4 rw 0 0\nproc /proc proc rw 0 0\n/dev/sda2 /boot ext4 rw 0 0\n";
    let devices = get_mounted_devices(registry, mounts);
    assert_eq!(devices.len(), 1);
    assert_eq!(devices[0].name, String::from("/dev/sda1"));
    assert_eq!(devices[0].mount_point, String::from("/"));
}

#[test]
fn test_enumerate_deduplicates_by_name_first_wins() {
    let registry = "\text4\n";
    let mounts = "/dev/sda1 / ext4 rw 0 0\n/dev/sda1 /mnt/extra ext4 rw 0 0\n";
    let devices = get_mounted_devices(registry, mounts);
    assert_eq!(devices.len(), 1);
    assert_eq!(devices[0].mount_point, String::from("/"));
}

#[test]
fn test_enumerate_decodes_octal_spaces_in_mount_points() {
    let registry = "\tvfat\n";
    let mounts = "/dev/sdb1 /mnt/usb\\040stick vfat rw 0 0\n";
    let devices = get_mounted_devices(registry, mounts);
    assert_eq!(devices.len(), 1);
    assert_eq!(devices[0].mount_point, String::from("/mnt/usb stick"));
}

#[test]
fn test_enumerate_skips_short_lines() {
    let registry = "\text4\n";
    let mounts = "incomplete\n/dev/sda1 / ext4 rw 0 0\n";
    let devices = get_mounted_devices(registry, mounts);
    assert_eq!(devices.len(), 1);
}

#[test]
fn test_u32_decimal_digits() {
    assert_eq!(u32_dec(0), String::from("0"));
    assert_eq!(u32_dec(7), String::from("7"));
    assert_eq!(u32_dec(1000), String::from("1000"));
    assert_eq!(u32_dec(4294967295), String::from("4294967295"));
}

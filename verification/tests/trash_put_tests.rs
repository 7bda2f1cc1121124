use oscar::actions::trash_put::{trash_put, trash_put_at};
use oscar::common::{TrashConfig, TrashError};
use oscar::datetime::DateTime;
use oscar::fs::Fs;

fn xdg_config() -> TrashConfig {
    TrashConfig { xdg_data_home: Some(String::from("/tmp")), home: None }
}

fn test_date() -> DateTime {
    DateTime { year: 2004, month: 8, day: 31, hour: 22, minute: 32, second: 8 }
}

#[test]
fn test_basic_trash_put() {
    let mut fs = Fs::new();
    fs.create_dir_all("/tmp");
    fs.write_file("/tmp/test.txt", "");
    let config = xdg_config();
    assert_eq!(trash_put_at(&mut fs, &config, "/tmp/test.txt", &test_date()), Ok(()));
    assert!(fs.exists_path("/tmp/Trash/files/test.txt"));
    assert!(fs.exists_path("/tmp/Trash/info/test.txt.trashinfo"));
    assert!(!fs.exists_path("/tmp/test.txt"));
}

#[test]
fn test_trash_put_nonexistent_file() {
    let mut fs = Fs::new();
    let config = xdg_config();
    let result = trash_put(&mut fs, &config, "/tmp/does-not-exist.txt");
    assert!(result.is_err());
    assert_eq!(result, Err(TrashError::NotFound));
}

#[test]
fn test_trash_put_records_the_original_path() {
    let mut fs = Fs::new();
    fs.write_file("/tmp/test.txt", "");
    let config = xdg_config();
    assert_eq!(trash_put_at(&mut fs, &config, "/tmp/test.txt", &test_date()), Ok(()));
    let record = fs.read_file("/tmp/Trash/info/test.txt.trashinfo").unwrap();
    assert_eq!(
        record,
        String::from("[Trash Info]\nPath=/tmp/test.txt\nDeletionDate=2004-08-31T22:32:08\n")
    );
}

#[test]
fn test_trash_put_encodes_reserved_characters() {
    let mut fs = Fs::new();
    fs.write_file("/tmp/a b,c.txt", "");
    let config = xdg_config();
    assert_eq!(trash_put_at(&mut fs, &config, "/tmp/a b,c.txt", &test_date()), Ok(()));
    let record = fs.read_file("/tmp/Trash/info/a b,c.txt.trashinfo").unwrap();
    assert_eq!(
        record,
        String::from(
            "[Trash Info]\nPath=/tmp/a%20b%2Cc.txt\nDeletionDate=2004-08-31T22:32:08\n"
        )
    );
}

#[test]
fn test_trash_put_without_configuration() {
    let mut fs = Fs::new();
    fs.write_file("/tmp/test.txt", "");
    let config = TrashConfig { xdg_data_home: None, home: None };
    assert_eq!(
        trash_put_at(&mut fs, &config, "/tmp/test.txt", &test_date()),
        Err(TrashError::Config)
    );
    assert!(fs.exists_path("/tmp/test.txt"));
}

#[test]
fn test_trash_put_root_is_rejected() {
    let mut fs = Fs::new();
    fs.create_dir_all("/");
    let config = xdg_config();
    assert_eq!(trash_put_at(&mut fs, &config, "/", &test_date()), Err(TrashError::Io));
}

#[test]
fn test_trash_put_same_basename_overwrites_silently() {
    // Two sources from different directories share a base name: the later
    // put wins, leaving exactly one entry.
    let mut fs = Fs::new();
    fs.write_file("/tmp/a/test.txt", "first");
    fs.write_file("/tmp/b/test.txt", "second");
    let config = xdg_config();
    assert_eq!(trash_put_at(&mut fs, &config, "/tmp/a/test.txt", &test_date()), Ok(()));
    assert_eq!(trash_put_at(&mut fs, &config, "/tmp/b/test.txt", &test_date()), Ok(()));
    assert_eq!(
        fs.read_file("/tmp/Trash/files/test.txt"),
        Some(String::from("second"))
    );
    let record = fs.read_file("/tmp/Trash/info/test.txt.trashinfo").unwrap();
    assert!(record.contains("Path=/tmp/b/test.txt"));
}

#[test]
fn test_trash_put_stamps_a_valid_time() {
    let mut fs = Fs::new();
    fs.write_file("/tmp/test.txt", "");
    let config = xdg_config();
    assert_eq!(trash_put(&mut fs, &config, "/tmp/test.txt"), Ok(()));
    let record = fs.read_file("/tmp/Trash/info/test.txt.trashinfo").unwrap();
    let parsed = oscar::trash_info::TrashInfo::parse(record.as_str()).unwrap();
    assert_eq!(parsed.full_path, String::from("/tmp/test.txt"));
    assert!(parsed.deletion_date.month >= 1 && parsed.deletion_date.month <= 12);
}

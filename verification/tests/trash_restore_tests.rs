use oscar::actions::trash_restore::trash_restore;
use oscar::common::{TrashConfig, TrashError};
use oscar::datetime::DateTime;
use oscar::fs::Fs;
use oscar::trash_info::TrashInfo;

fn xdg_config() -> TrashConfig {
    TrashConfig { xdg_data_home: Some(String::from("/tmp")), home: None }
}

fn test_file_date() -> DateTime {
    DateTime { year: 2004, month: 8, day: 31, hour: 22, minute: 32, second: 8 }
}

fn test_file_trash_entry() -> TrashInfo {
    TrashInfo {
        path: String::from("test.txt"),
        full_path: String::from("/tmp/test.txt"),
        deletion_date: test_file_date(),
    }
}

fn create_home_trash(fs: &mut Fs) {
    fs.create_dir_all("/tmp/Trash/info");
    fs.create_dir_all("/tmp/Trash/files");
    fs.write_file("/tmp/Trash/files/test.txt", "trashed data");
    fs.write_file(
        "/tmp/Trash/info/test.txt.trashinfo",
        "[Trash Info]\n                        Path=/tmp/test.txt\n                        DeletionDate=2004-08-31T22:32:08",
    );
}

#[test]
fn test_trash_restore_no_file_in_original_path() {
    let mut fs = Fs::new();
    create_home_trash(&mut fs);
    let test_trash_entry = test_file_trash_entry();
    let restored = trash_restore(&mut fs, &xdg_config(), &test_trash_entry, false);
    assert!(restored.is_ok());
    assert!(fs.exists_path("/tmp/test.txt"));
}

#[test]
fn test_trash_restore_overwrite_file_in_original_path() {
    let mut fs = Fs::new();
    fs.write_file("/tmp/test.txt", "conflicting data");
    create_home_trash(&mut fs);
    let test_trash_entry = test_file_trash_entry();
    let restored = trash_restore(&mut fs, &xdg_config(), &test_trash_entry, true);
    assert!(restored.is_ok());
    assert!(fs.exists_path("/tmp/test.txt"));
    assert_eq!(fs.read_file("/tmp/test.txt"), Some(String::from("trashed data")));
    assert!(!fs.exists_path("/tmp/Trash/files/test.txt"));
    assert!(!fs.exists_path("/tmp/Trash/info/test.txt.trashinfo"));
}

#[test]
fn test_trash_restore_no_overwrite_file_in_original_path() {
    let mut fs = Fs::new();
    fs.write_file("/tmp/test.txt", "conflicting data");
    create_home_trash(&mut fs);
    let test_trash_entry = test_file_trash_entry();
    let restored = trash_restore(&mut fs, &xdg_config(), &test_trash_entry, false);
    assert!(restored.is_err(), "Trash restore was not supposed to overwrite");
    assert_eq!(restored, Err(TrashError::PermissionDenied));
    // Nothing moved: payload, record and the conflicting file are untouched.
    assert_eq!(fs.read_file("/tmp/test.txt"), Some(String::from("conflicting data")));
    assert!(fs.exists_path("/tmp/Trash/files/test.txt"));
    assert!(fs.exists_path("/tmp/Trash/info/test.txt.trashinfo"));
}

#[test]
fn test_trash_restore_missing_payload_is_not_found() {
    let mut fs = Fs::new();
    fs.create_dir_all("/tmp/Trash/info");
    fs.create_dir_all("/tmp/Trash/files");
    let entry = test_file_trash_entry();
    assert_eq!(trash_restore(&mut fs, &xdg_config(), &entry, false), Err(TrashError::NotFound));
}

#[test]
fn test_trash_restore_returns_the_destination() {
    let mut fs = Fs::new();
    create_home_trash(&mut fs);
    let entry = test_file_trash_entry();
    assert_eq!(
        trash_restore(&mut fs, &xdg_config(), &entry, false),
        Ok(String::from("/tmp/test.txt"))
    );
}

#[test]
fn test_trash_restore_decodes_the_stored_path() {
    let mut fs = Fs::new();
    fs.create_dir_all("/tmp/Trash/info");
    fs.create_dir_all("/tmp/Trash/files");
    fs.write_file("/tmp/Trash/files/a b.txt", "");
    fs.write_file(
        "/tmp/Trash/info/a b.txt.trashinfo",
        "[Trash Info]\nPath=/tmp/a%20b.txt\nDeletionDate=2004-08-31T22:32:08\n",
    );
    let entry = TrashInfo {
        path: String::from("a b.txt"),
        full_path: String::from("/tmp/a%20b.txt"),
        deletion_date: test_file_date(),
    };
    assert_eq!(
        trash_restore(&mut fs, &xdg_config(), &entry, false),
        Ok(String::from("/tmp/a b.txt"))
    );
    assert!(fs.exists_path("/tmp/a b.txt"));
}

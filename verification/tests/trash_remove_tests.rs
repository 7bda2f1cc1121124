use oscar::actions::trash_remove::trash_remove;
use oscar::common::{TrashConfig, TrashError};
use oscar::datetime::DateTime;
use oscar::fs::Fs;
use oscar::trash_info::TrashInfo;

fn xdg_config() -> TrashConfig {
    TrashConfig { xdg_data_home: Some(String::from("/tmp")), home: None }
}

fn test_file_date() -> DateTime {
    DateTime { year: 2004, month: 8, day: 31, hour: 22, minute: 32, second: 8 }
}

fn test_file(is_file: bool) -> String {
    format!("test{}", if is_file { ".txt" } else { "" })
}

fn test_file_trash_entry(is_file: bool) -> TrashInfo {
    TrashInfo {
        path: test_file(is_file),
        full_path: format!("/tmp/{}", test_file(is_file)),
        deletion_date: test_file_date(),
    }
}

fn setup_home_trash(fs: &mut Fs, is_file: bool) {
    let test_file = test_file(is_file);
    fs.create_dir_all("/tmp/Trash/info");
    fs.create_dir_all("/tmp/Trash/files");
    if is_file {
        fs.write_file(format!("/tmp/Trash/files/{}", test_file).as_str(), "");
    } else {
        fs.create_dir_all(format!("/tmp/Trash/files/{}", test_file).as_str());
    }
    fs.write_file(
        format!("/tmp/Trash/info/{}.trashinfo", test_file).as_str(),
        format!(
            "[Trash Info]\n                    Path=/tmp/{test_file}\n                    DeletionDate=2004-08-31T22:32:08"
        )
        .as_str(),
    );
}

#[test]
fn test_trash_rm() {
    let mut fs = Fs::new();
    setup_home_trash(&mut fs, true);
    let trash_entry_to_rm = test_file_trash_entry(true);
    assert_eq!(trash_remove(&mut fs, &xdg_config(), &trash_entry_to_rm), Ok(()));
    assert!(!fs.exists_path("/tmp/Trash/info/test.txt.trashinfo"), "trash info not deleted");
    assert!(!fs.exists_path("/tmp/Trash/files/test.txt"), "trash file not deleted");
}

#[test]
fn test_trash_rmdir() {
    let mut fs = Fs::new();
    setup_home_trash(&mut fs, false);
    let trash_entry_to_rm = test_file_trash_entry(false);
    assert_eq!(trash_remove(&mut fs, &xdg_config(), &trash_entry_to_rm), Ok(()));
    assert!(!fs.exists_path("/tmp/Trash/info/test.trashinfo"), "trash info not deleted");
    assert!(!fs.exists_path("/tmp/Trash/files/test"), "trash file not deleted");
}

#[test]
fn test_trash_rmdir_removes_the_whole_subtree() {
    let mut fs = Fs::new();
    setup_home_trash(&mut fs, false);
    fs.write_file("/tmp/Trash/files/test/inner.txt", "kept data");
    let trash_entry_to_rm = test_file_trash_entry(false);
    assert_eq!(trash_remove(&mut fs, &xdg_config(), &trash_entry_to_rm), Ok(()));
    assert!(!fs.exists_path("/tmp/Trash/files/test"));
    assert!(!fs.exists_path("/tmp/Trash/files/test/inner.txt"));
}

#[test]
fn test_trash_rm_dangling_record_self_heals() {
    let mut fs = Fs::new();
    setup_home_trash(&mut fs, true);
    fs.remove_path("/tmp/Trash/files/test.txt");
    let entry = test_file_trash_entry(true);
    assert_eq!(trash_remove(&mut fs, &xdg_config(), &entry), Ok(()));
    assert!(!fs.exists_path("/tmp/Trash/info/test.txt.trashinfo"));
}

#[test]
fn test_trash_rm_missing_entry_is_not_found() {
    let mut fs = Fs::new();
    fs.create_dir_all("/tmp/Trash/info");
    fs.create_dir_all("/tmp/Trash/files");
    let entry = test_file_trash_entry(true);
    assert_eq!(trash_remove(&mut fs, &xdg_config(), &entry), Err(TrashError::NotFound));
}

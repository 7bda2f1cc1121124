use oscar::actions::trash_empty::{
    remove_all_trash_files, remove_all_trashinfo_files, trash_empty,
};
use oscar::common::{TrashConfig, TrashError};
use oscar::fs::Fs;

fn xdg_config() -> TrashConfig {
    TrashConfig { xdg_data_home: Some(String::from("/tmp")), home: None }
}

fn create_home_trash_hierarchy(fs: &mut Fs) {
    fs.create_dir_all("/tmp/Trash/info");
    fs.create_dir_all("/tmp/Trash/files");
    fs.write_file("/tmp/Trash/files/test.txt", "");
    fs.write_file(
        "/tmp/Trash/info/test.txt.trashinfo",
        "[Trash Info]\nPath=/tmp/test.txt\nDeletionDate=2004-08-31T22:32:08\n",
    );
}

#[test]
fn test_trash_empty() {
    let mut fs = Fs::new();
    create_home_trash_hierarchy(&mut fs);
    assert_eq!(trash_empty(&mut fs, &xdg_config()), Ok(()));
    let file_items = fs.list_children("/tmp/Trash/files");
    let info_items = fs.list_children("/tmp/Trash/info");
    assert!(
        file_items.len() == 0 && info_items.len() == 0,
        "Trash directories are not empty"
    );
    assert!(fs.exists_path("/tmp/Trash/files"), "Failed to locate the home trash directory");
    assert!(fs.exists_path("/tmp/Trash/info"), "Failed to locate the home trash directory");
}

#[test]
fn test_trash_empty_creates_missing_directories() {
    let mut fs = Fs::new();
    assert_eq!(trash_empty(&mut fs, &xdg_config()), Ok(()));
    assert!(fs.exists_path("/tmp/Trash/files"));
    assert!(fs.exists_path("/tmp/Trash/info"));
}

#[test]
fn test_trash_empty_without_configuration() {
    let mut fs = Fs::new();
    let config = TrashConfig { xdg_data_home: None, home: None };
    assert_eq!(trash_empty(&mut fs, &config), Err(TrashError::Config));
}

#[test]
fn test_remove_all_trash_files_only_touches_payloads() {
    let mut fs = Fs::new();
    create_home_trash_hierarchy(&mut fs);
    assert_eq!(remove_all_trash_files(&mut fs, &xdg_config()), Ok(()));
    assert!(!fs.exists_path("/tmp/Trash/files/test.txt"));
    assert!(fs.exists_path("/tmp/Trash/info/test.txt.trashinfo"));
    assert_eq!(remove_all_trashinfo_files(&mut fs, &xdg_config()), Ok(()));
    assert!(!fs.exists_path("/tmp/Trash/info/test.txt.trashinfo"));
}

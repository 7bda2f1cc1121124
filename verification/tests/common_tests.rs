use oscar::common::{
    create_home_trash_dir_if_not_exists, create_home_trash_files_dir_if_not_exists,
    create_home_trash_info_dir_if_not_exists, freedesktop_home_trash_dir,
    freedesktop_home_trash_files_dir, freedesktop_home_trash_info_dir, get_home_trash_contents,
    with_trashinfo_extension, TrashConfig, TrashError,
};
use oscar::datetime::DateTime;
use oscar::fs::Fs;

fn xdg_config() -> TrashConfig {
    TrashConfig { xdg_data_home: Some(String::from("/tmp")), home: None }
}

fn home_config() -> TrashConfig {
    TrashConfig { xdg_data_home: None, home: Some(String::from("/tmp")) }
}

#[test]
fn test_home_trash_dir_location_with_xdg_data_home() {
    assert_eq!(freedesktop_home_trash_dir(&xdg_config()), Some(String::from("/tmp/Trash")));
}

#[test]
fn test_home_trash_info_dir_location_with_xdg_data_home() {
    assert_eq!(
        freedesktop_home_trash_info_dir(&xdg_config()),
        Some(String::from("/tmp/Trash/info"))
    );
}

#[test]
fn test_home_trash_files_dir_location_with_xdg_data_home() {
    assert_eq!(
        freedesktop_home_trash_files_dir(&xdg_config()),
        Some(String::from("/tmp/Trash/files"))
    );
}

#[test]
fn test_home_trash_dir_location_without_xdg_data_home() {
    assert_eq!(
        freedesktop_home_trash_dir(&home_config()),
        Some(String::from("/tmp/.local/share/Trash"))
    );
}

#[test]
fn test_home_trash_info_dir_location_without_xdg_data_home() {
    assert_eq!(
        freedesktop_home_trash_info_dir(&home_config()),
        Some(String::from("/tmp/.local/share/Trash/info"))
    );
}

#[test]
fn test_home_trash_files_dir_location_without_xdg_data_home() {
    assert_eq!(
        freedesktop_home_trash_files_dir(&home_config()),
        Some(String::from("/tmp/.local/share/Trash/files"))
    );
}

#[test]
fn test_add_trashinfo_extension_to_file_with_extension() {
    assert_eq!(with_trashinfo_extension("test.txt"), String::from("test.txt.trashinfo"));
}

#[test]
fn test_add_trashinfo_extension_to_file_without_extension() {
    assert_eq!(with_trashinfo_extension("test"), String::from("test.trashinfo"));
}

#[test]
fn test_no_home_trash_location_without_configuration() {
    let config = TrashConfig { xdg_data_home: None, home: None };
    assert_eq!(freedesktop_home_trash_dir(&config), None);
    assert_eq!(freedesktop_home_trash_info_dir(&config), None);
    assert_eq!(freedesktop_home_trash_files_dir(&config), None);
    let mut fs = Fs::new();
    assert_eq!(create_home_trash_dir_if_not_exists(&mut fs, &config), Err(TrashError::Config));
}

#[test]
fn test_create_home_trash_info_dir_if_not_exists() {
    let mut fs = Fs::new();
    let config = xdg_config();
    assert_eq!(create_home_trash_info_dir_if_not_exists(&mut fs, &config), Ok(true));
    assert!(fs.exists_path("/tmp/Trash/info"));
    assert_eq!(create_home_trash_info_dir_if_not_exists(&mut fs, &config), Ok(false));
}

#[test]
fn test_create_home_trash_files_dir_if_not_exists() {
    let mut fs = Fs::new();
    let config = xdg_config();
    assert_eq!(create_home_trash_files_dir_if_not_exists(&mut fs, &config), Ok(true));
    assert!(fs.exists_path("/tmp/Trash/files"));
    assert_eq!(create_home_trash_files_dir_if_not_exists(&mut fs, &config), Ok(false));
}

#[test]
fn test_create_home_trash_dir_twice_is_idempotent() {
    let mut fs = Fs::new();
    let config = xdg_config();
    assert_eq!(create_home_trash_dir_if_not_exists(&mut fs, &config), Ok(true));
    let entries_after_first = fs.entries.len();
    assert_eq!(create_home_trash_dir_if_not_exists(&mut fs, &config), Ok(false));
    assert_eq!(fs.entries.len(), entries_after_first);
    assert!(fs.exists_path("/tmp/Trash/info"));
    assert!(fs.exists_path("/tmp/Trash/files"));
}

#[test]
fn test_get_home_trash_contents() {
    let test_file = String::from("test.txt");
    let mut fs = Fs::new();
    let config = xdg_config();
    fs.create_dir_all("/tmp/Trash/info");
    fs.create_dir_all("/tmp/Trash/files");
    fs.write_file("/tmp/Trash/files/test.txt", "");
    fs.write_file(
        "/tmp/Trash/info/test.txt.trashinfo",
        "[Trash Info]\n                        Path=/tmp/test.txt\n                        DeletionDate=2004-08-31T22:32:08",
    );
    let contents = get_home_trash_contents(&fs, &config).unwrap();
    assert_eq!(contents.len(), 1);
    assert_eq!(contents[0].path, test_file);
    assert_eq!(contents[0].full_path, format!("/tmp/{}", test_file));
    assert_eq!(
        contents[0].deletion_date,
        DateTime { year: 2004, month: 8, day: 31, hour: 22, minute: 32, second: 8 }
    );
}

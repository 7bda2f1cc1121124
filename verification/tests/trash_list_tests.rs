use oscar::actions::trash_list::trash_list;
use oscar::common::TrashConfig;
use oscar::fs::Fs;
use oscar::mount::MountedDevice;
use oscar::tree::files_tree;

fn xdg_config() -> TrashConfig {
    TrashConfig { xdg_data_home: Some(String::from("/tmp")), home: None }
}

#[test]
fn test_list_trash_without_home_trash() {
    let mut fs = Fs::new();
    let config = xdg_config();
    let first = trash_list(&mut fs, &config);
    assert!(first.is_ok());
    assert_eq!(first.unwrap().len(), 0);
    let second = trash_list(&mut fs, &config);
    assert!(second.is_ok());
    assert_eq!(second.unwrap().len(), 0);
}

#[test]
fn test_list_trash_rec_without_home_trash() {
    let mut fs = Fs::new();
    let config = xdg_config();
    assert!(trash_list(&mut fs, &config).is_ok());
    let device = MountedDevice { name: String::from("rootfs"), mount_point: String::from("/") };
    let tree = files_tree(&fs, "/tmp/Trash/files", &device);
    assert_eq!(tree.root, String::from("Home Trash"));
    assert_eq!(tree.leaves.len(), 0);
}

#[test]
fn test_list_trash_returns_entries_in_directory_order() {
    let mut fs = Fs::new();
    let config = xdg_config();
    fs.create_dir_all("/tmp/Trash/info");
    fs.create_dir_all("/tmp/Trash/files");
    fs.write_file("/tmp/Trash/files/a.txt", "");
    fs.write_file(
        "/tmp/Trash/info/a.txt.trashinfo",
        "[Trash Info]\nPath=/tmp/a.txt\nDeletionDate=2004-08-31T22:32:08\n",
    );
    fs.write_file("/tmp/Trash/files/b.txt", "");
    fs.write_file(
        "/tmp/Trash/info/b.txt.trashinfo",
        "[Trash Info]\nPath=/tmp/b.txt\nDeletionDate=2005-01-02T03:04:05\n",
    );
    let entries = trash_list(&mut fs, &config).unwrap();
    assert_eq!(entries.len(), 2);
    assert_eq!(entries[0].path, String::from("a.txt"));
    assert_eq!(entries[1].path, String::from("b.txt"));
}

#[test]
fn test_list_trash_skips_malformed_records() {
    let mut fs = Fs::new();
    let config = xdg_config();
    fs.create_dir_all("/tmp/Trash/info");
    fs.create_dir_all("/tmp/Trash/files");
    fs.write_file("/tmp/Trash/info/bad.trashinfo", "not a record at all");
    fs.write_file(
        "/tmp/Trash/info/good.trashinfo",
        "[Trash Info]\nPath=/tmp/good\nDeletionDate=2004-08-31T22:32:08\n",
    );
    let entries = trash_list(&mut fs, &config).unwrap();
    assert_eq!(entries.len(), 1);
    assert_eq!(entries[0].path, String::from("good"));
}

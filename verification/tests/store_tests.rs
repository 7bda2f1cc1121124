use oscar::actions::trash_list::trash_list;
use oscar::actions::trash_put::trash_put_at;
use oscar::actions::trash_remove::trash_remove;
use oscar::common::{TrashConfig, TrashError};
use oscar::datetime::DateTime;
use oscar::fs::Fs;
use oscar::mount::MountedDevice;
use oscar::trash::Trash;
use oscar::tree::{files_tree, GlyphPalette, Tree};

fn xdg_config() -> TrashConfig {
    TrashConfig { xdg_data_home: Some(String::from("/tmp")), home: None }
}

fn test_date() -> DateTime {
    DateTime { year: 2004, month: 8, day: 31, hour: 22, minute: 32, second: 8 }
}

#[test]
fn test_end_to_end_put_list_remove() {
    // With the data home at /tmp: put, list, remove, and check every path.
    let mut fs = Fs::new();
    let config = xdg_config();
    fs.write_file("/tmp/test.txt", "the data");
    assert_eq!(trash_put_at(&mut fs, &config, "/tmp/test.txt", &test_date()), Ok(()));
    assert!(fs.exists_path("/tmp/Trash/files/test.txt"));
    assert!(!fs.exists_path("/tmp/test.txt"));
    let record = fs.read_file("/tmp/Trash/info/test.txt.trashinfo").unwrap();
    assert!(record.contains("Path=/tmp/test.txt"));
    let entries = trash_list(&mut fs, &config).unwrap();
    assert_eq!(entries.len(), 1);
    assert_eq!(entries[0].path, String::from("test.txt"));
    assert_eq!(entries[0].deletion_date, test_date());
    assert_eq!(trash_remove(&mut fs, &config, &entries[0]), Ok(()));
    assert!(!fs.exists_path("/tmp/Trash/files/test.txt"));
    assert!(!fs.exists_path("/tmp/Trash/info/test.txt.trashinfo"));
}

fn removable_device() -> MountedDevice {
    MountedDevice { name: String::from("/dev/sdb1"), mount_point: String::from("/mnt/usb") }
}

#[test]
fn test_device_store_uses_shared_trash_when_present() {
    let mut fs = Fs::new();
    fs.create_dir_all("/mnt/usb/.Trash");
    let device = removable_device();
    let config = xdg_config();
    let store = Trash::new(&device);
    assert_eq!(store.create_trash_dir_if_not_exists(&mut fs, &config, 1000), Ok(true));
    assert!(fs.exists_path("/mnt/usb/.Trash/info"));
    assert!(fs.exists_path("/mnt/usb/.Trash/files"));
}

#[test]
fn test_device_store_falls_back_to_per_user_trash() {
    let mut fs = Fs::new();
    fs.create_dir_all("/mnt/usb");
    let device = removable_device();
    let config = xdg_config();
    let store = Trash::new(&device);
    assert_eq!(store.create_trash_dir_if_not_exists(&mut fs, &config, 1000), Ok(true));
    assert!(fs.exists_path("/mnt/usb/.Trash-1000/info"));
    assert!(fs.exists_path("/mnt/usb/.Trash-1000/files"));
}

#[test]
fn test_device_store_full_lifecycle() {
    let mut fs = Fs::new();
    fs.create_dir_all("/mnt/usb");
    fs.write_file("/mnt/usb/doc.pdf", "pages");
    let device = removable_device();
    let config = xdg_config();
    let store = Trash::new(&device);
    assert_eq!(store.put(&mut fs, &config, 1000, "/mnt/usb/doc.pdf", &test_date()), Ok(()));
    assert!(fs.exists_path("/mnt/usb/.Trash-1000/files/doc.pdf"));
    let entries = store.contents(&fs, &config, 1000).unwrap();
    assert_eq!(entries.len(), 1);
    assert_eq!(entries[0].path, String::from("doc.pdf"));
    let restored = store.restore(&mut fs, &config, 1000, &entries[0], false).unwrap();
    assert_eq!(restored, String::from("/mnt/usb/doc.pdf"));
    assert!(fs.exists_path("/mnt/usb/doc.pdf"));
    assert!(!fs.exists_path("/mnt/usb/.Trash-1000/files/doc.pdf"));
    assert!(!fs.exists_path("/mnt/usb/.Trash-1000/info/doc.pdf.trashinfo"));
}

#[test]
fn test_device_store_empty_is_irreversible() {
    let mut fs = Fs::new();
    fs.create_dir_all("/mnt/usb");
    fs.write_file("/mnt/usb/a", "");
    fs.write_file("/mnt/usb/b", "");
    let device = removable_device();
    let config = xdg_config();
    let store = Trash::new(&device);
    assert_eq!(store.put(&mut fs, &config, 1000, "/mnt/usb/a", &test_date()), Ok(()));
    assert_eq!(store.put(&mut fs, &config, 1000, "/mnt/usb/b", &test_date()), Ok(()));
    assert_eq!(store.empty(&mut fs, &config, 1000), Ok(()));
    assert_eq!(store.contents(&fs, &config, 1000).unwrap().len(), 0);
    assert!(!fs.exists_path("/mnt/usb/.Trash-1000/files/a"));
    assert!(!fs.exists_path("/mnt/usb/.Trash-1000/files/b"));
    assert!(fs.exists_path("/mnt/usb/.Trash-1000/files"));
}

#[test]
fn test_store_remove_without_configuration_for_home_device() {
    let mut fs = Fs::new();
    let device = MountedDevice { name: String::from("rootfs"), mount_point: String::from("/") };
    let store = Trash::new(&device);
    let config = TrashConfig { xdg_data_home: None, home: None };
    let entry = oscar::trash_info::TrashInfo {
        path: String::from("x"),
        full_path: String::from("/x"),
        deletion_date: test_date(),
    };
    assert_eq!(store.remove(&mut fs, &config, 0, &entry), Err(TrashError::Config));
}

#[test]
fn test_files_tree_mirrors_the_payload_directory() {
    let mut fs = Fs::new();
    fs.create_dir_all("/tmp/Trash/files");
    fs.create_dir_all("/tmp/Trash/files/photos");
    fs.write_file("/tmp/Trash/files/photos/cat%20pic.jpg", "");
    fs.write_file("/tmp/Trash/files/a%7Cb.txt", "");
    let device = MountedDevice { name: String::from("rootfs"), mount_point: String::from("/") };
    let tree = files_tree(&fs, "/tmp/Trash/files", &device);
    assert_eq!(tree.root, String::from("Home Trash"));
    assert_eq!(tree.leaves.len(), 2);
    assert_eq!(tree.leaves[0].root, String::from("photos"));
    assert_eq!(tree.leaves[0].leaves.len(), 1);
    assert_eq!(tree.leaves[0].leaves[0].root, String::from("cat pic.jpg"));
    assert_eq!(tree.leaves[1].root, String::from("a|b.txt"));
}

#[test]
fn test_files_tree_label_of_removable_device() {
    let mut fs = Fs::new();
    fs.create_dir_all("/mnt/usb/.Trash-1000/files");
    let device = removable_device();
    let tree = files_tree(&fs, "/mnt/usb/.Trash-1000/files", &device);
    assert_eq!(tree.root, String::from("usb"));
}

#[test]
fn test_tree_building_blocks() {
    let mut tree = Tree::new(String::from("root"));
    assert_eq!(tree.leaves.len(), 0);
    tree.push(Tree::new(String::from("leaf")));
    assert_eq!(tree.leaves.len(), 1);
    assert_eq!(tree.leaves[0].root, String::from("leaf"));
    tree.set_multiline(true);
    assert!(tree.multiline);
    let tree = tree.with_multiline(false);
    assert!(!tree.multiline);
    let palette = GlyphPalette::new();
    assert_eq!(palette.middle_item, "├");
    assert_eq!(palette.last_item, "└");
}

#[test]
fn test_error_messages_are_stable() {
    assert_eq!(TrashError::PermissionDenied.message(), String::from("already exists"));
    assert_eq!(TrashError::NotFound.message(), String::from("not found"));
}

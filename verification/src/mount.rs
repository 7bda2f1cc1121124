//! Mounted devices and per-device trash locations.
//!
//! The enumerator turns the platform's two read-only tables — the
//! filesystem-type registry and the live mount table — into a deduplicated
//! list of devices eligible to own a trash root.  The resolver computes, for
//! one device, where that root lies: the home trash for the root or home
//! mount, a shared `.Trash` on another volume when it already exists, and a
//! per-user `.Trash-<uid>` otherwise.
use vstd::prelude::*;
use vstd::string::*;

use crate::common::{
    files_dir_name, home_trash_dir_spec, info_dir_name, TrashConfig, TrashError,
};
use crate::datetime::{digit_char, digit_char_ex};
use crate::fs::{fs_has, Fs};
use crate::strutil::{
    fields, fields_spec, join_path, join_spec, lines_spec, push_char, seq_filter,
    lemma_seq_filter_push, split_lines, starts_with, starts_with_spec, str_eq, trim, trim_spec,
};

verus! {

/// The abstract value of one mounted device.
#[verifier::ext_equal]
pub ghost struct DeviceV {
    pub name: Seq<char>,
    pub mount_point: Seq<char>,
}

/// One mounted filesystem eligible to own its own trash root.
pub struct MountedDevice {
    pub name: String,
    pub mount_point: String,
}

impl View for MountedDevice {
    type V = DeviceV;

    open spec fn view(&self) -> DeviceV {
        DeviceV { name: self.name@, mount_point: self.mount_point@ }
    }
}

impl MountedDevice {
    /// A fresh device with the same name and mount point.
    pub fn duplicate(&self) -> (r: MountedDevice)
        ensures
            r@ == self@,
    {
        MountedDevice { name: self.name.clone(), mount_point: self.mount_point.clone() }
    }
}

/// The decimal digits of `n`.
pub open spec fn u32_dec_spec(n: int) -> Seq<char>
    decreases n,
{
    if n < 10 {
        seq![digit_char(n)]
    } else {
        u32_dec_spec(n / 10).push(digit_char(n % 10))
    }
}

/// The decimal digits of `n`, as a `String`.
pub fn u32_dec(n: u32) -> (r: String)
    ensures
        r@ == u32_dec_spec(n as int),
    decreases n,
{
    if n < 10 {
        let mut s = String::new();
        push_char(&mut s, digit_char_ex((n % 10) as u16));
        proof {
            assert(s@ =~= u32_dec_spec(n as int));
        }
        s
    } else {
        let mut s = u32_dec(n / 10);
        push_char(&mut s, digit_char_ex((n % 10) as u16));
        s
    }
}

pub open spec fn root_mount_name() -> Seq<char> {
    seq!['/']
}

pub open spec fn home_mount_name() -> Seq<char> {
    seq!['/', 'h', 'o', 'm', 'e']
}

pub open spec fn dot_trash_name() -> Seq<char> {
    seq!['.', 'T', 'r', 'a', 's', 'h']
}

pub open spec fn dot_trash_dash_name() -> Seq<char> {
    seq!['.', 'T', 'r', 'a', 's', 'h', '-']
}

/// Whether a device's trash is the home trash.
pub open spec fn is_home_device(mp: Seq<char>) -> bool {
    mp == root_mount_name() || mp == home_mount_name()
}

/// The trash root of a device: the home trash for the root or home mount;
/// else the shared `.Trash` when `shared_exists`, else `.Trash-<uid>`.
pub open spec fn device_trash_dir_spec(
    mp: Seq<char>,
    xdg: Option<Seq<char>>,
    home: Option<Seq<char>>,
    uid: u32,
    shared_exists: bool,
) -> Option<Seq<char>> {
    if is_home_device(mp) {
        home_trash_dir_spec(xdg, home)
    } else if shared_exists {
        Some(join_spec(mp, dot_trash_name()))
    } else {
        Some(join_spec(mp, dot_trash_dash_name() + u32_dec_spec(uid as int)))
    }
}

impl MountedDevice {
    /// The shared `.Trash` path on this device's volume.
    pub fn shared_trash_path(&self) -> (r: String)
        ensures
            r@ == join_spec(self@.mount_point, dot_trash_name()),
    {
        proof {
            reveal_strlit(".Trash");
            assert(".Trash"@ =~= dot_trash_name());
        }
        join_path(self.mount_point.as_str(), ".Trash")
    }

    /// The trash root of this device, given whether the shared `.Trash`
    /// directory already exists on its volume.
    pub fn trash_dir_given(&self, config: &TrashConfig, uid: u32, shared_exists: bool) -> (r:
        Result<String, TrashError>)
        ensures
            match r {
                Ok(p) => device_trash_dir_spec(
                    self@.mount_point,
                    config.xdg_v(),
                    config.home_v(),
                    uid,
                    shared_exists,
                ) == Some(p@),
                Err(e) => {
                    &&& e == TrashError::Config
                    &&& device_trash_dir_spec(
                        self@.mount_point,
                        config.xdg_v(),
                        config.home_v(),
                        uid,
                        shared_exists,
                    ) is None
                },
            },
    {
        proof {
            reveal_strlit("/");
            reveal_strlit("/home");
            reveal_strlit(".Trash");
            reveal_strlit(".Trash-");
            assert("/"@ =~= root_mount_name());
            assert("/home"@ =~= home_mount_name());
            assert(".Trash"@ =~= dot_trash_name());
            assert(".Trash-"@ =~= dot_trash_dash_name());
        }
        if str_eq(self.mount_point.as_str(), "/") || str_eq(self.mount_point.as_str(), "/home") {
            match crate::common::freedesktop_home_trash_dir(config) {
                Some(p) => Ok(p),
                None => Err(TrashError::Config),
            }
        } else if shared_exists {
            Ok(self.shared_trash_path())
        } else {
            let mut suffix = String::from_str(".Trash-");
            let digits = u32_dec(uid);
            suffix.append(digits.as_str());
            Ok(join_path(self.mount_point.as_str(), suffix.as_str()))
        }
    }

    /// The trash root of this device, checking the volume for a shared
    /// `.Trash` directory.
    pub fn trash_dir(&self, fs: &Fs, config: &TrashConfig, uid: u32) -> (r: Result<
        String,
        TrashError,
    >)
        ensures
            match r {
                Ok(p) => device_trash_dir_spec(
                    self@.mount_point,
                    config.xdg_v(),
                    config.home_v(),
                    uid,
                    fs_has(fs@, join_spec(self@.mount_point, dot_trash_name())),
                ) == Some(p@),
                Err(e) => {
                    &&& e == TrashError::Config
                    &&& device_trash_dir_spec(
                        self@.mount_point,
                        config.xdg_v(),
                        config.home_v(),
                        uid,
                        fs_has(fs@, join_spec(self@.mount_point, dot_trash_name())),
                    ) is None
                },
            },
    {
        let shared = self.shared_trash_path();
        let shared_exists = fs.exists_path(shared.as_str());
        self.trash_dir_given(config, uid, shared_exists)
    }

    /// The metadata directory under this device's trash root.
    pub fn trash_info_dir(&self, fs: &Fs, config: &TrashConfig, uid: u32) -> (r: Result<
        String,
        TrashError,
    >)
        ensures
            match r {
                Ok(p) => match device_trash_dir_spec(
                    self@.mount_point,
                    config.xdg_v(),
                    config.home_v(),
                    uid,
                    fs_has(fs@, join_spec(self@.mount_point, dot_trash_name())),
                ) {
                    Some(d) => p@ == join_spec(d, info_dir_name()),
                    None => false,
                },
                Err(e) => {
                    &&& e == TrashError::Config
                    &&& device_trash_dir_spec(
                        self@.mount_point,
                        config.xdg_v(),
                        config.home_v(),
                        uid,
                        fs_has(fs@, join_spec(self@.mount_point, dot_trash_name())),
                    ) is None
                },
            },
    {
        proof {
            reveal_strlit("info");
            assert("info"@ =~= info_dir_name());
        }
        match self.trash_dir(fs, config, uid) {
            Ok(d) => Ok(join_path(d.as_str(), "info")),
            Err(e) => Err(e),
        }
    }

    /// The payload directory under this device's trash root.
    pub fn trash_files_dir(&self, fs: &Fs, config: &TrashConfig, uid: u32) -> (r: Result<
        String,
        TrashError,
    >)
        ensures
            match r {
                Ok(p) => match device_trash_dir_spec(
                    self@.mount_point,
                    config.xdg_v(),
                    config.home_v(),
                    uid,
                    fs_has(fs@, join_spec(self@.mount_point, dot_trash_name())),
                ) {
                    Some(d) => p@ == join_spec(d, files_dir_name()),
                    None => false,
                },
                Err(e) => {
                    &&& e == TrashError::Config
                    &&& device_trash_dir_spec(
                        self@.mount_point,
                        config.xdg_v(),
                        config.home_v(),
                        uid,
                        fs_has(fs@, join_spec(self@.mount_point, dot_trash_name())),
                    ) is None
                },
            },
    {
        proof {
            reveal_strlit("files");
            assert("files"@ =~= files_dir_name());
        }
        match self.trash_dir(fs, config, uid) {
            Ok(d) => Ok(join_path(d.as_str(), "files")),
            Err(e) => Err(e),
        }
    }
}

pub open spec fn nodev_name() -> Seq<char> {
    seq!['n', 'o', 'd', 'e', 'v']
}

pub open spec fn boot_prefix_name() -> Seq<char> {
    seq!['/', 'b', 'o', 'o', 't']
}

/// The supported filesystem types of a registry text: its trimmed lines,
/// without the virtual (`nodev`) entries.
pub open spec fn supported_fs_spec(registry: Seq<char>) -> Seq<Seq<char>> {
    seq_filter(
        lines_spec(registry).map_values(|l: Seq<char>| trim_spec(l)),
        |l: Seq<char>| !starts_with_spec(l, nodev_name()),
    )
}

/// The supported filesystem types named by the registry text.
pub fn get_supported_filesystems(registry: &str) -> (r: Vec<String>)
    ensures
        r@.map_values(|l: String| l@) == supported_fs_spec(registry@),
{
    proof {
        reveal_strlit("nodev");
        assert("nodev"@ =~= nodev_name());
    }
    let lines = split_lines(registry);
    let ghost all = lines_spec(registry@).map_values(|l: Seq<char>| trim_spec(l));
    let n = lines.len();
    let mut out: Vec<String> = Vec::new();
    let mut i: usize = 0;
    proof {
        assert(all.take(0) =~= Seq::<Seq<char>>::empty());
        assert(out@.map_values(|l: String| l@) =~= seq_filter(
            all.take(0),
            |l: Seq<char>| !starts_with_spec(l, nodev_name()),
        ));
    }
    while i < n
        invariant
            n == lines.len(),
            lines@.map_values(|l: String| l@) == lines_spec(registry@),
            all == lines_spec(registry@).map_values(|l: Seq<char>| trim_spec(l)),
            0 <= i <= n,
            out@.map_values(|l: String| l@) == seq_filter(
                all.take(i as int),
                |l: Seq<char>| !starts_with_spec(l, nodev_name()),
            ),
        decreases n - i,
    {
        let t = trim(lines[i].as_str());
        let keep = !starts_with(t.as_str(), "nodev");
        proof {
            reveal_strlit("nodev");
            assert("nodev"@ =~= nodev_name());
            assert(all[i as int] == trim_spec(lines@.map_values(|l: String| l@)[i as int]));
            assert(t@ == all[i as int]);
            assert(all.take(i + 1) =~= all.take(i as int).push(all[i as int]));
            lemma_seq_filter_push(
                all.take(i as int),
                all[i as int],
                |l: Seq<char>| !starts_with_spec(l, nodev_name()),
            );
        }
        if keep {
            let ghost prev = out@;
            out.push(t);
            proof {
                assert(out@.map_values(|l: String| l@) =~= prev.map_values(|l: String| l@).push(
                    t@,
                ));
                assert(out@.map_values(|l: String| l@) =~~= seq_filter(
                    all.take(i + 1),
                    |l: Seq<char>| !starts_with_spec(l, nodev_name()),
                ));
            }
        } else {
            proof {
                assert(out@.map_values(|l: String| l@) =~~= seq_filter(
                    all.take(i + 1),
                    |l: Seq<char>| !starts_with_spec(l, nodev_name()),
                ));
            }
        }
        i = i + 1;
    }
    proof {
        assert(all.take(n as int) =~= all);
    }
    out
}

/// The four-character octal escape `\040` that a mount table writes for a
/// space.
pub open spec fn octal_escape_at(s: Seq<char>, i: int) -> bool {
    &&& 0 <= i
    &&& i + 4 <= s.len()
    &&& s[i] == '\\'
    &&& s[i + 1] == '0'
    &&& s[i + 2] == '4'
    &&& s[i + 3] == '0'
}

/// `s` with each `\040` turned back into a space.
pub open spec fn unescape_octal_spec(s: Seq<char>) -> Seq<char>
    decreases s.len(),
{
    if s.len() == 0 {
        Seq::empty()
    } else if octal_escape_at(s, 0) {
        seq![' '] + unescape_octal_spec(s.skip(4))
    } else {
        seq![s[0]] + unescape_octal_spec(s.skip(1))
    }
}

/// `s` with each `\040` turned back into a space, as a fresh `String`.
pub fn unescape_octal(s: &str) -> (r: String)
    ensures
        r@ == unescape_octal_spec(s@),
{
    let n = s.unicode_len();
    let mut out = String::new();
    let mut i: usize = 0;
    proof {
        assert(s@.skip(0) =~= s@);
        assert(out@ + unescape_octal_spec(s@) =~= unescape_octal_spec(s@));
    }
    while i < n
        invariant
            n == s@.len(),
            0 <= i <= n,
            unescape_octal_spec(s@) == out@ + unescape_octal_spec(s@.skip(i as int)),
        decreases n - i,
    {
        let c = s.get_char(i);
        let mut used_escape = false;
        if c == '\\' && n - i >= 4 {
            if s.get_char(i + 1) == '0' && s.get_char(i + 2) == '4' && s.get_char(i + 3) == '0' {
                used_escape = true;
                push_char(&mut out, ' ');
            }
        }
        if used_escape {
            proof {
                assert(octal_escape_at(s@.skip(i as int), 0));
                assert(s@.skip(i as int).skip(4) =~= s@.skip(i + 4));
                assert(unescape_octal_spec(s@) =~= out@ + unescape_octal_spec(s@.skip(i + 4)));
            }
            i = i + 4;
        } else {
            push_char(&mut out, c);
            proof {
                assert(s@.skip(i as int)[0] == s@[i as int]);
                assert(!octal_escape_at(s@.skip(i as int), 0));
                assert(s@.skip(i as int).skip(1) =~= s@.skip(i + 1));
                assert(unescape_octal_spec(s@.skip(i as int)) == seq![s@[i as int]]
                    + unescape_octal_spec(s@.skip(i + 1)));
                assert(unescape_octal_spec(s@) =~= out@ + unescape_octal_spec(s@.skip(i + 1)));
            }
            i = i + 1;
        }
    }
    proof {
        assert(s@.skip(n as int) =~= Seq::<char>::empty());
        assert(unescape_octal_spec(s@) =~= out@);
    }
    out
}

/// Whether a sequence of texts holds `x`.
pub open spec fn seq_contains(ss: Seq<Seq<char>>, x: Seq<char>) -> bool {
    exists|i: int| 0 <= i < ss.len() && ss[i] == x
}

/// Whether a device list already holds a device named `name`.
pub open spec fn has_device_name(ds: Seq<DeviceV>, name: Seq<char>) -> bool {
    exists|i: int| 0 <= i < ds.len() && (#[trigger] ds[i]).name == name
}

/// What one mount-table line adds to the device list: nothing when the line
/// is short, its type unsupported, its mount point under the boot path, or
/// its name already listed; else the device, with octal spaces decoded.
pub open spec fn device_step(acc: Seq<DeviceV>, line: Seq<char>, sup: Seq<Seq<char>>) -> Seq<
    DeviceV,
> {
    let fs = fields_spec(line);
    if fs.len() < 3 {
        acc
    } else if !seq_contains(sup, fs[2]) || starts_with_spec(fs[1], boot_prefix_name()) {
        acc
    } else if has_device_name(acc, fs[0]) {
        acc
    } else {
        acc.push(DeviceV { name: fs[0], mount_point: unescape_octal_spec(fs[1]) })
    }
}

/// The device list that a mount table yields, folded line by line.
pub open spec fn devices_fold(lines: Seq<Seq<char>>, sup: Seq<Seq<char>>, acc: Seq<DeviceV>) -> Seq<
    DeviceV,
>
    decreases lines.len(),
{
    if lines.len() == 0 {
        acc
    } else {
        devices_fold(lines.skip(1), sup, device_step(acc, lines[0], sup))
    }
}

/// The deduplicated eligible devices of a registry text and a mount table.
pub open spec fn devices_spec(registry: Seq<char>, mounts: Seq<char>) -> Seq<DeviceV> {
    devices_fold(lines_spec(mounts), supported_fs_spec(registry), Seq::empty())
}

/// A mount table with one supported-type entry, one unsupported-type entry
/// and one boot-mounted supported-type entry enumerates to exactly the
/// first: the unsupported type and the boot mount are excluded.
pub proof fn lemma_enumerate_scenario(
    sup: Seq<Seq<char>>,
    l1: Seq<char>,
    l2: Seq<char>,
    l3: Seq<char>,
)
    requires
        fields_spec(l1).len() >= 3,
        seq_contains(sup, fields_spec(l1)[2]),
        !starts_with_spec(fields_spec(l1)[1], boot_prefix_name()),
        fields_spec(l2).len() >= 3,
        !seq_contains(sup, fields_spec(l2)[2]),
        fields_spec(l3).len() >= 3,
        seq_contains(sup, fields_spec(l3)[2]),
        starts_with_spec(fields_spec(l3)[1], boot_prefix_name()),
    ensures
        devices_fold(seq![l1, l2, l3], sup, Seq::empty()) == seq![
            DeviceV {
                name: fields_spec(l1)[0],
                mount_point: unescape_octal_spec(fields_spec(l1)[1]),
            },
        ],
{
    let dev1 = DeviceV {
        name: fields_spec(l1)[0],
        mount_point: unescape_octal_spec(fields_spec(l1)[1]),
    };
    let acc0 = Seq::<DeviceV>::empty();
    assert(!has_device_name(acc0, fields_spec(l1)[0])) by {
        if has_device_name(acc0, fields_spec(l1)[0]) {
            let i = choose|i: int|
                0 <= i < acc0.len() && (#[trigger] acc0[i]).name == fields_spec(l1)[0];
        }
    }
    let acc1 = device_step(acc0, l1, sup);
    assert(acc1 =~= seq![dev1]);
    assert(device_step(acc1, l2, sup) == acc1);
    assert(device_step(acc1, l3, sup) == acc1);
    assert(seq![l1, l2, l3].skip(1) =~= seq![l2, l3]);
    assert(seq![l2, l3].skip(1) =~= seq![l3]);
    assert(seq![l3].skip(1) =~= Seq::<Seq<char>>::empty());
    assert(devices_fold(seq![l1, l2, l3], sup, acc0) == devices_fold(seq![l2, l3], sup, acc1));
    assert(devices_fold(seq![l2, l3], sup, acc1) == devices_fold(seq![l3], sup, acc1));
    assert(devices_fold(seq![l3], sup, acc1) == devices_fold(
        Seq::<Seq<char>>::empty(),
        sup,
        acc1,
    ));
    assert(devices_fold(Seq::<Seq<char>>::empty(), sup, acc1) == acc1);
}

/// The deduplicated eligible devices named by the filesystem-type registry
/// text and the live mount-table text.
pub fn get_mounted_devices(registry: &str, mounts: &str) -> (r: Vec<MountedDevice>)
    ensures
        r@.map_values(|d: MountedDevice| d@) == devices_spec(registry@, mounts@),
{
    proof {
        reveal_strlit("/boot");
        assert("/boot"@ =~= boot_prefix_name());
    }
    let supported = get_supported_filesystems(registry);
    let ghost sup = supported_fs_spec(registry@);
    let lines = split_lines(mounts);
    let ghost all = lines_spec(mounts@);
    let n = lines.len();
    let mut devices: Vec<MountedDevice> = Vec::new();
    let mut i: usize = 0;
    proof {
        assert(all.skip(0) =~= all);
        assert(devices@.map_values(|d: MountedDevice| d@) =~= Seq::<DeviceV>::empty());
    }
    while i < n
        invariant
            n == lines.len(),
            all == lines_spec(mounts@),
            sup == supported_fs_spec(registry@),
            lines@.map_values(|l: String| l@) == all,
            supported@.map_values(|l: String| l@) == sup,
            0 <= i <= n,
            devices_spec(registry@, mounts@) == devices_fold(
                all.skip(i as int),
                sup,
                devices@.map_values(|d: MountedDevice| d@),
            ),
        decreases n - i,
    {
        let parts = fields(lines[i].as_str());
        proof {
            reveal_strlit("/boot");
            assert("/boot"@ =~= boot_prefix_name());
            assert(all.skip(i as int)[0] == all[i as int]);
            assert(all.skip(i as int).skip(1) =~= all.skip(i + 1));
            assert(lines@.map_values(|l: String| l@)[i as int] == lines[i as int]@);
            assert(parts@.map_values(|f: String| f@) == fields_spec(all[i as int]));
        }
        let ghost acc0 = devices@.map_values(|d: MountedDevice| d@);
        if parts.len() >= 3 {
            let fs_type = &parts[2];
            let mount_point = &parts[1];
            let name = &parts[0];
            let mut type_supported = false;
            let mut j: usize = 0;
            while j < supported.len()
                invariant
                    supported@.map_values(|l: String| l@) == sup,
                    0 <= j <= supported.len(),
                    type_supported == exists|t: int| 0 <= t < j && (#[trigger] sup[t]) == fs_type@,
                decreases supported.len() - j,
            {
                proof {
                    assert(sup[j as int] == supported@[j as int]@);
                }
                if str_eq(supported[j].as_str(), fs_type.as_str()) {
                    proof {
                        assert(sup[j as int] == fs_type@);
                    }
                    type_supported = true;
                }
                j = j + 1;
            }
            proof {
                assert(type_supported == seq_contains(sup, fs_type@));
            }
            let is_boot = starts_with(mount_point.as_str(), "/boot");
            if type_supported && !is_boot {
                let mut already = false;
                let mut k: usize = 0;
                while k < devices.len()
                    invariant
                        0 <= k <= devices.len(),
                        acc0 == devices@.map_values(|d: MountedDevice| d@),
                        already == exists|t: int|
                            0 <= t < k && (#[trigger] acc0[t]).name == name@,
                    decreases devices.len() - k,
                {
                    if str_eq(devices[k].name.as_str(), name.as_str()) {
                        proof {
                            assert(acc0[k as int].name == name@);
                        }
                        already = true;
                    }
                    k = k + 1;
                }
                proof {
                    assert(already == has_device_name(acc0, name@));
                }
                if !already {
                    let device = MountedDevice {
                        name: name.clone(),
                        mount_point: unescape_octal(mount_point.as_str()),
                    };
                    let ghost prev = devices@;
                    devices.push(device);
                    proof {
                        assert(devices@.map_values(|d: MountedDevice| d@) =~~= prev.map_values(
                            |d: MountedDevice| d@,
                        ).push(device@));
                    }
                }
            }
        }
        proof {
            assert(devices@.map_values(|d: MountedDevice| d@) =~~= device_step(
                acc0,
                all[i as int],
                sup,
            ));
        }
        i = i + 1;
    }
    proof {
        assert(all.skip(n as int) =~= Seq::<Seq<char>>::empty());
    }
    devices
}

} // verus!

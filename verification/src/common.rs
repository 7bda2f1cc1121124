//! Home-trash location resolution and the engine's error kinds.
//!
//! The trash root of the home device is `$XDG_DATA_HOME/Trash` when that
//! variable is set, else `$HOME/.local/share/Trash`; both variables enter as
//! one explicit `TrashConfig` value.  Under the root, payloads live in
//! `files` and metadata records in `info`.
use vstd::prelude::*;
use vstd::string::*;

use crate::fs::{fs_create_dir, fs_has, Fs, Node};
use crate::strutil::{join_path, join_spec};

verus! {

/// The environment the resolver reads, as one explicit value.
pub struct TrashConfig {
    pub xdg_data_home: Option<String>,
    pub home: Option<String>,
}

/// The kinds of failure an engine operation reports.
#[derive(Clone, Copy, PartialEq, Eq, Structural, Debug)]
pub enum TrashError {
    /// A source path, device or entry is absent.
    NotFound,
    /// A restore destination exists and overwriting was not requested.
    PermissionDenied,
    /// No trash location can be resolved from the configuration.
    Config,
    /// A metadata record is malformed.
    Parse,
    /// Any other filesystem-level failure.
    Io,
}

impl TrashError {
    /// A short description of the failure.
    pub fn message(&self) -> (r: String)
        ensures
            r@ == match *self {
                TrashError::NotFound => "not found"@,
                TrashError::PermissionDenied => "already exists"@,
                TrashError::Config => "could not compute trash directory"@,
                TrashError::Parse => "malformed trash info record"@,
                TrashError::Io => "filesystem operation failed"@,
            },
    {
        match self {
            TrashError::NotFound => String::from_str("not found"),
            TrashError::PermissionDenied => String::from_str("already exists"),
            TrashError::Config => String::from_str("could not compute trash directory"),
            TrashError::Parse => String::from_str("malformed trash info record"),
            TrashError::Io => String::from_str("filesystem operation failed"),
        }
    }
}

pub open spec fn trash_dir_name() -> Seq<char> {
    seq!['T', 'r', 'a', 's', 'h']
}

pub open spec fn local_share_trash_name() -> Seq<char> {
    seq![
        '.',
        'l',
        'o',
        'c',
        'a',
        'l',
        '/',
        's',
        'h',
        'a',
        'r',
        'e',
        '/',
        'T',
        'r',
        'a',
        's',
        'h',
    ]
}

pub open spec fn files_dir_name() -> Seq<char> {
    seq!['f', 'i', 'l', 'e', 's']
}

pub open spec fn info_dir_name() -> Seq<char> {
    seq!['i', 'n', 'f', 'o']
}

/// The suffix `.trashinfo` that a metadata file name carries.
pub open spec fn trashinfo_suffix() -> Seq<char> {
    seq!['.', 't', 'r', 'a', 's', 'h', 'i', 'n', 'f', 'o']
}

impl TrashConfig {
    pub open spec fn xdg_v(&self) -> Option<Seq<char>> {
        match self.xdg_data_home {
            Some(s) => Some(s@),
            None => None,
        }
    }

    pub open spec fn home_v(&self) -> Option<Seq<char>> {
        match self.home {
            Some(s) => Some(s@),
            None => None,
        }
    }
}

/// The home trash root: `$XDG_DATA_HOME/Trash`, else
/// `$HOME/.local/share/Trash`, else nothing.
pub open spec fn home_trash_dir_spec(xdg: Option<Seq<char>>, home: Option<Seq<char>>) -> Option<
    Seq<char>,
> {
    match xdg {
        Some(x) => Some(join_spec(x, trash_dir_name())),
        None => match home {
            Some(h) => Some(join_spec(h, local_share_trash_name())),
            None => None,
        },
    }
}

/// The payload directory under the home trash root.
pub open spec fn home_trash_files_dir_spec(xdg: Option<Seq<char>>, home: Option<Seq<char>>) -> Option<
    Seq<char>,
> {
    match home_trash_dir_spec(xdg, home) {
        Some(d) => Some(join_spec(d, files_dir_name())),
        None => None,
    }
}

/// The metadata directory under the home trash root.
pub open spec fn home_trash_info_dir_spec(xdg: Option<Seq<char>>, home: Option<Seq<char>>) -> Option<
    Seq<char>,
> {
    match home_trash_dir_spec(xdg, home) {
        Some(d) => Some(join_spec(d, info_dir_name())),
        None => None,
    }
}

/// The home trash root that `config` resolves to.
pub fn freedesktop_home_trash_dir(config: &TrashConfig) -> (r: Option<String>)
    ensures
        match r {
            Some(p) => home_trash_dir_spec(config.xdg_v(), config.home_v()) == Some(p@),
            None => home_trash_dir_spec(config.xdg_v(), config.home_v()) is None,
        },
{
    proof {
        reveal_strlit("Trash");
        reveal_strlit(".local/share/Trash");
        assert("Trash"@ =~= trash_dir_name());
        assert(".local/share/Trash"@ =~= local_share_trash_name());
    }
    match &config.xdg_data_home {
        Some(x) => Some(join_path(x.as_str(), "Trash")),
        None => match &config.home {
            Some(h) => Some(join_path(h.as_str(), ".local/share/Trash")),
            None => None,
        },
    }
}

/// The payload directory of the home trash.
pub fn freedesktop_home_trash_files_dir(config: &TrashConfig) -> (r: Option<String>)
    ensures
        match r {
            Some(p) => home_trash_files_dir_spec(config.xdg_v(), config.home_v()) == Some(p@),
            None => home_trash_files_dir_spec(config.xdg_v(), config.home_v()) is None,
        },
{
    proof {
        reveal_strlit("files");
        assert("files"@ =~= files_dir_name());
    }
    match freedesktop_home_trash_dir(config) {
        Some(home_trash_dir) => Some(join_path(home_trash_dir.as_str(), "files")),
        None => None,
    }
}

/// The metadata directory of the home trash.
pub fn freedesktop_home_trash_info_dir(config: &TrashConfig) -> (r: Option<String>)
    ensures
        match r {
            Some(p) => home_trash_info_dir_spec(config.xdg_v(), config.home_v()) == Some(p@),
            None => home_trash_info_dir_spec(config.xdg_v(), config.home_v()) is None,
        },
{
    proof {
        reveal_strlit("info");
        assert("info"@ =~= info_dir_name());
    }
    match freedesktop_home_trash_dir(config) {
        Some(home_trash_dir) => Some(join_path(home_trash_dir.as_str(), "info")),
        None => None,
    }
}

/// `p` with the metadata suffix appended after any existing extension; a
/// name with no extension gets the suffix as its entire extension.
pub fn with_trashinfo_extension(p: &str) -> (r: String)
    ensures
        r@ == p@ + trashinfo_suffix(),
{
    let mut r = p.to_owned();
    r.append(".trashinfo");
    proof {
        reveal_strlit(".trashinfo");
        assert(".trashinfo"@ =~= trashinfo_suffix());
    }
    r
}

/// Creating the two home trash directories, metadata first.
pub open spec fn ensure_home_dirs_spec(
    ns: Seq<Node>,
    xdg: Option<Seq<char>>,
    home: Option<Seq<char>>,
) -> Seq<Node> {
    fs_create_dir(
        fs_create_dir(ns, home_trash_info_dir_spec(xdg, home)->0),
        home_trash_files_dir_spec(xdg, home)->0,
    )
}

/// Creates the home metadata directory when missing; whether it was created.
pub fn create_home_trash_info_dir_if_not_exists(fs: &mut Fs, config: &TrashConfig) -> (r: Result<
    bool,
    TrashError,
>)
    requires
        old(fs).wf(),
    ensures
        final(fs).wf(),
        match r {
            Ok(created) => {
                &&& home_trash_info_dir_spec(config.xdg_v(), config.home_v()) is Some
                &&& final(fs)@ == fs_create_dir(
                    old(fs)@,
                    home_trash_info_dir_spec(config.xdg_v(), config.home_v())->0,
                )
                &&& created == !fs_has(
                    old(fs)@,
                    home_trash_info_dir_spec(config.xdg_v(), config.home_v())->0,
                )
            },
            Err(e) => {
                &&& e == TrashError::Config
                &&& home_trash_info_dir_spec(config.xdg_v(), config.home_v()) is None
                &&& final(fs)@ == old(fs)@
            },
        },
{
    match freedesktop_home_trash_info_dir(config) {
        Some(info_dir) => {
            let created = fs.create_dir_all(info_dir.as_str());
            Ok(created)
        },
        None => Err(TrashError::Config),
    }
}

/// Creates the home payload directory when missing; whether it was created.
pub fn create_home_trash_files_dir_if_not_exists(fs: &mut Fs, config: &TrashConfig) -> (r: Result<
    bool,
    TrashError,
>)
    requires
        old(fs).wf(),
    ensures
        final(fs).wf(),
        match r {
            Ok(created) => {
                &&& home_trash_files_dir_spec(config.xdg_v(), config.home_v()) is Some
                &&& final(fs)@ == fs_create_dir(
                    old(fs)@,
                    home_trash_files_dir_spec(config.xdg_v(), config.home_v())->0,
                )
                &&& created == !fs_has(
                    old(fs)@,
                    home_trash_files_dir_spec(config.xdg_v(), config.home_v())->0,
                )
            },
            Err(e) => {
                &&& e == TrashError::Config
                &&& home_trash_files_dir_spec(config.xdg_v(), config.home_v()) is None
                &&& final(fs)@ == old(fs)@
            },
        },
{
    match freedesktop_home_trash_files_dir(config) {
        Some(files_dir) => {
            let created = fs.create_dir_all(files_dir.as_str());
            Ok(created)
        },
        None => Err(TrashError::Config),
    }
}

/// Creates both home trash directories, metadata first; whether anything was
/// newly created.
pub fn create_home_trash_dir_if_not_exists(fs: &mut Fs, config: &TrashConfig) -> (r: Result<
    bool,
    TrashError,
>)
    requires
        old(fs).wf(),
    ensures
        final(fs).wf(),
        match r {
            Ok(created) => {
                &&& home_trash_dir_spec(config.xdg_v(), config.home_v()) is Some
                &&& final(fs)@ == ensure_home_dirs_spec(old(fs)@, config.xdg_v(), config.home_v())
                &&& created == {
                    ||| !fs_has(
                        old(fs)@,
                        home_trash_info_dir_spec(config.xdg_v(), config.home_v())->0,
                    )
                    ||| !fs_has(
                        old(fs)@,
                        home_trash_files_dir_spec(config.xdg_v(), config.home_v())->0,
                    )
                }
            },
            Err(e) => {
                &&& e == TrashError::Config
                &&& home_trash_dir_spec(config.xdg_v(), config.home_v()) is None
                &&& final(fs)@ == old(fs)@
            },
        },
{
    let info_created = match create_home_trash_info_dir_if_not_exists(fs, config) {
        Ok(created) => created,
        Err(e) => { return Err(e) },
    };
    let ghost mid = fs@;
    let files_created = match create_home_trash_files_dir_if_not_exists(fs, config) {
        Ok(created) => created,
        Err(e) => { return Err(e) },
    };
    proof {
        let info_d = home_trash_info_dir_spec(config.xdg_v(), config.home_v())->0;
        let files_d = home_trash_files_dir_spec(config.xdg_v(), config.home_v())->0;
        assert(info_d.len() != files_d.len());
        assert(fs_has(mid, files_d) == fs_has(old(fs)@, files_d)) by {
            if fs_has(old(fs)@, files_d) {
                let i = choose|i: int|
                    0 <= i < old(fs)@.len() && (#[trigger] old(fs)@[i]).path == files_d;
                assert(mid[i].path == files_d);
            }
            if fs_has(mid, files_d) && mid != old(fs)@ {
                let j = choose|j: int| 0 <= j < mid.len() && (#[trigger] mid[j]).path == files_d;
                if j < old(fs)@.len() {
                    assert(old(fs)@[j].path == files_d);
                } else {
                    assert(mid[j].path == info_d);
                }
            }
        }
    }
    Ok(info_created || files_created)
}

/// The entries of the home trash, in directory order, silently skipping
/// unparseable records.
pub fn get_home_trash_contents(fs: &Fs, config: &TrashConfig) -> (r: Result<
    Vec<crate::trash_info::TrashInfo>,
    TrashError,
>)
    ensures
        match r {
            Ok(v) => {
                &&& home_trash_info_dir_spec(config.xdg_v(), config.home_v()) is Some
                &&& v@.map_values(|t: crate::trash_info::TrashInfo| t@)
                    == crate::trash::contents_spec(
                    fs@,
                    home_trash_info_dir_spec(config.xdg_v(), config.home_v())->0,
                )
                &&& forall|i: int| 0 <= i < v.len() ==> (#[trigger] v@[i])@.wf()
            },
            Err(e) => {
                &&& e == TrashError::Config
                &&& home_trash_info_dir_spec(config.xdg_v(), config.home_v()) is None
            },
        },
{
    match freedesktop_home_trash_info_dir(config) {
        Some(info_dir) => Ok(crate::trash::contents_in(fs, info_dir.as_str())),
        None => Err(TrashError::Config),
    }
}

} // verus!

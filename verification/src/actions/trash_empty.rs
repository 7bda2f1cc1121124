//! Emptying the home trash.
use vstd::prelude::*;
use vstd::string::*;

use crate::common::{
    freedesktop_home_trash_files_dir, freedesktop_home_trash_info_dir, home_trash_files_dir_spec,
    home_trash_info_dir_spec, TrashConfig, TrashError,
};
use crate::fs::{fs_remove_under, is_under_spec, Fs};
use crate::trash::{empty_in, empty_spec};

verus! {

/// Deletes everything under the home payload directory; nothing happens
/// when no home trash location resolves.
pub fn remove_all_trash_files(fs: &mut Fs, config: &TrashConfig) -> (r: Result<(), TrashError>)
    requires
        old(fs).wf(),
    ensures
        final(fs).wf(),
        r is Ok,
        match home_trash_files_dir_spec(config.xdg_v(), config.home_v()) {
            Some(d) => final(fs)@ == fs_remove_under(old(fs)@, d),
            None => final(fs)@ == old(fs)@,
        },
{
    match freedesktop_home_trash_files_dir(config) {
        Some(files_dir) => {
            fs.remove_under(files_dir.as_str());
            Ok(())
        },
        None => Ok(()),
    }
}

/// Deletes everything under the home metadata directory; nothing happens
/// when no home trash location resolves.
pub fn remove_all_trashinfo_files(fs: &mut Fs, config: &TrashConfig) -> (r: Result<(), TrashError>)
    requires
        old(fs).wf(),
    ensures
        final(fs).wf(),
        r is Ok,
        match home_trash_info_dir_spec(config.xdg_v(), config.home_v()) {
            Some(d) => final(fs)@ == fs_remove_under(old(fs)@, d),
            None => final(fs)@ == old(fs)@,
        },
{
    match freedesktop_home_trash_info_dir(config) {
        Some(info_dir) => {
            fs.remove_under(info_dir.as_str());
            Ok(())
        },
        None => Ok(()),
    }
}

/// Empties the home trash, irreversibly: the two directories are ensured,
/// every payload is deleted, then every record; the directories remain.
pub fn trash_empty(fs: &mut Fs, config: &TrashConfig) -> (r: Result<(), TrashError>)
    requires
        old(fs).wf(),
    ensures
        final(fs).wf(),
        match r {
            Ok(()) => {
                &&& home_trash_info_dir_spec(config.xdg_v(), config.home_v()) is Some
                &&& final(fs)@ == empty_spec(
                    old(fs)@,
                    home_trash_info_dir_spec(config.xdg_v(), config.home_v())->0,
                    home_trash_files_dir_spec(config.xdg_v(), config.home_v())->0,
                )
                &&& forall|k: int|
                    0 <= k < final(fs)@.len() ==> !is_under_spec(
                        (#[trigger] final(fs)@[k]).path,
                        home_trash_files_dir_spec(config.xdg_v(), config.home_v())->0,
                    ) && !is_under_spec(
                        final(fs)@[k].path,
                        home_trash_info_dir_spec(config.xdg_v(), config.home_v())->0,
                    )
            },
            Err(e) => {
                &&& e == TrashError::Config
                &&& home_trash_info_dir_spec(config.xdg_v(), config.home_v()) is None
                &&& final(fs)@ == old(fs)@
            },
        },
{
    let info_dir = match freedesktop_home_trash_info_dir(config) {
        Some(d) => d,
        None => { return Err(TrashError::Config) },
    };
    let files_dir = match freedesktop_home_trash_files_dir(config) {
        Some(d) => d,
        None => { return Err(TrashError::Config) },
    };
    empty_in(fs, info_dir.as_str(), files_dir.as_str());
    Ok(())
}

} // verus!

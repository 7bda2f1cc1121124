//! Restoring one entry of the home trash to its original location.
use vstd::prelude::*;
use vstd::string::*;

use crate::common::{
    freedesktop_home_trash_files_dir, freedesktop_home_trash_info_dir, home_trash_files_dir_spec,
    home_trash_info_dir_spec, TrashConfig, TrashError,
};
use crate::fs::{fs_create_dir, fs_has, fs_rename, Fs};
use crate::strutil::dirname_spec;
use crate::trash::{
    ensure_dirs_spec, ensure_trash_dirs, info_path_spec, payload_path_spec, restore_dest_spec,
    restore_destination, restore_in, restore_spec,
};
use crate::trash_info::TrashInfo;

verus! {

/// Moves one home-trash entry back to its stored original path.  An absent
/// payload is NotFound; an existing destination is replaced only with
/// `overwrite`, else nothing changes and the call is PermissionDenied.
pub fn trash_restore(fs: &mut Fs, config: &TrashConfig, trash_entry: &TrashInfo, overwrite: bool)
    -> (r: Result<String, TrashError>)
    requires
        old(fs).wf(),
    ensures
        final(fs).wf(),
        r == Err::<String, TrashError>(TrashError::Config) <==> home_trash_info_dir_spec(
            config.xdg_v(),
            config.home_v(),
        ) is None,
        home_trash_info_dir_spec(config.xdg_v(), config.home_v()) is None ==> final(fs)@ == old(
            fs,
        )@,
        home_trash_info_dir_spec(config.xdg_v(), config.home_v()) is Some ==> {
            &&& !fs_has(
                ensure_dirs_spec(
                    old(fs)@,
                    home_trash_info_dir_spec(config.xdg_v(), config.home_v())->0,
                    home_trash_files_dir_spec(config.xdg_v(), config.home_v())->0,
                ),
                payload_path_spec(
                    home_trash_files_dir_spec(config.xdg_v(), config.home_v())->0,
                    trash_entry@.path,
                ),
            ) ==> (r == Err::<String, TrashError>(TrashError::NotFound) && final(fs)@
                == ensure_dirs_spec(
                old(fs)@,
                home_trash_info_dir_spec(config.xdg_v(), config.home_v())->0,
                home_trash_files_dir_spec(config.xdg_v(), config.home_v())->0,
            ))
            &&& (fs_has(
                ensure_dirs_spec(
                    old(fs)@,
                    home_trash_info_dir_spec(config.xdg_v(), config.home_v())->0,
                    home_trash_files_dir_spec(config.xdg_v(), config.home_v())->0,
                ),
                payload_path_spec(
                    home_trash_files_dir_spec(config.xdg_v(), config.home_v())->0,
                    trash_entry@.path,
                ),
            ) && fs_has(
                ensure_dirs_spec(
                    old(fs)@,
                    home_trash_info_dir_spec(config.xdg_v(), config.home_v())->0,
                    home_trash_files_dir_spec(config.xdg_v(), config.home_v())->0,
                ),
                restore_dest_spec(trash_entry@.full_path, seq!['/']),
            ) && !overwrite) ==> (r == Err::<String, TrashError>(TrashError::PermissionDenied)
                && final(fs)@ == ensure_dirs_spec(
                old(fs)@,
                home_trash_info_dir_spec(config.xdg_v(), config.home_v())->0,
                home_trash_files_dir_spec(config.xdg_v(), config.home_v())->0,
            ))
            &&& (fs_has(
                ensure_dirs_spec(
                    old(fs)@,
                    home_trash_info_dir_spec(config.xdg_v(), config.home_v())->0,
                    home_trash_files_dir_spec(config.xdg_v(), config.home_v())->0,
                ),
                payload_path_spec(
                    home_trash_files_dir_spec(config.xdg_v(), config.home_v())->0,
                    trash_entry@.path,
                ),
            ) && (overwrite || !fs_has(
                ensure_dirs_spec(
                    old(fs)@,
                    home_trash_info_dir_spec(config.xdg_v(), config.home_v())->0,
                    home_trash_files_dir_spec(config.xdg_v(), config.home_v())->0,
                ),
                restore_dest_spec(trash_entry@.full_path, seq!['/']),
            ))) ==> {
                &&& final(fs)@ == restore_spec(
                    ensure_dirs_spec(
                        old(fs)@,
                        home_trash_info_dir_spec(config.xdg_v(), config.home_v())->0,
                        home_trash_files_dir_spec(config.xdg_v(), config.home_v())->0,
                    ),
                    payload_path_spec(
                        home_trash_files_dir_spec(config.xdg_v(), config.home_v())->0,
                        trash_entry@.path,
                    ),
                    info_path_spec(
                        home_trash_info_dir_spec(config.xdg_v(), config.home_v())->0,
                        trash_entry@.path,
                    ),
                    restore_dest_spec(trash_entry@.full_path, seq!['/']),
                )
                &&& (r is Ok <==> fs_has(
                    fs_rename(
                        fs_create_dir(
                            ensure_dirs_spec(
                                old(fs)@,
                                home_trash_info_dir_spec(config.xdg_v(), config.home_v())->0,
                                home_trash_files_dir_spec(config.xdg_v(), config.home_v())->0,
                            ),
                            dirname_spec(restore_dest_spec(trash_entry@.full_path, seq!['/'])),
                        ),
                        payload_path_spec(
                            home_trash_files_dir_spec(config.xdg_v(), config.home_v())->0,
                            trash_entry@.path,
                        ),
                        restore_dest_spec(trash_entry@.full_path, seq!['/']),
                    ),
                    info_path_spec(
                        home_trash_info_dir_spec(config.xdg_v(), config.home_v())->0,
                        trash_entry@.path,
                    ),
                ))
                &&& (r is Ok ==> r->Ok_0@ == restore_dest_spec(trash_entry@.full_path, seq!['/']))
                &&& (r is Err ==> r->Err_0 == TrashError::Io)
            }
        },
{
    let info_dir = match freedesktop_home_trash_info_dir(config) {
        Some(d) => d,
        None => { return Err(TrashError::Config) },
    };
    let files_dir = match freedesktop_home_trash_files_dir(config) {
        Some(d) => d,
        None => { return Err(TrashError::Config) },
    };
    ensure_trash_dirs(fs, info_dir.as_str(), files_dir.as_str());
    let mut root = String::new();
    crate::strutil::push_char(&mut root, '/');
    let dest = restore_destination(trash_entry, root.as_str());
    restore_in(
        fs,
        info_dir.as_str(),
        files_dir.as_str(),
        trash_entry.path.as_str(),
        dest.as_str(),
        overwrite,
    )
}

} // verus!

//! Permanently removing one entry of the home trash.
use vstd::prelude::*;
use vstd::string::*;

use crate::common::{
    freedesktop_home_trash_files_dir, freedesktop_home_trash_info_dir, home_trash_files_dir_spec,
    home_trash_info_dir_spec, TrashConfig, TrashError,
};
use crate::fs::{fs_has, fs_remove, Fs};
use crate::trash::{
    ensure_dirs_spec, ensure_trash_dirs, info_path_spec, payload_path_spec, remove_entry_spec,
    remove_in, remove_payload_spec,
};
use crate::trash_info::TrashInfo;

verus! {

/// Permanently removes one entry of the home trash: the payload first
/// (recursively for a directory), then its record.  A dangling record —
/// metadata with no payload — is removed alone, without error.
pub fn trash_remove(fs: &mut Fs, config: &TrashConfig, trash_entry: &TrashInfo) -> (r: Result<
    (),
    TrashError,
>)
    requires
        old(fs).wf(),
    ensures
        final(fs).wf(),
        r == Err::<(), TrashError>(TrashError::Config) <==> home_trash_info_dir_spec(
            config.xdg_v(),
            config.home_v(),
        ) is None,
        home_trash_info_dir_spec(config.xdg_v(), config.home_v()) is None ==> final(fs)@ == old(
            fs,
        )@,
        home_trash_info_dir_spec(config.xdg_v(), config.home_v()) is Some ==> {
            &&& final(fs)@ == remove_entry_spec(
                ensure_dirs_spec(
                    old(fs)@,
                    home_trash_info_dir_spec(config.xdg_v(), config.home_v())->0,
                    home_trash_files_dir_spec(config.xdg_v(), config.home_v())->0,
                ),
                payload_path_spec(
                    home_trash_files_dir_spec(config.xdg_v(), config.home_v())->0,
                    trash_entry@.path,
                ),
                info_path_spec(
                    home_trash_info_dir_spec(config.xdg_v(), config.home_v())->0,
                    trash_entry@.path,
                ),
            )
            &&& (r == Err::<(), TrashError>(TrashError::NotFound) <==> (!fs_has(
                ensure_dirs_spec(
                    old(fs)@,
                    home_trash_info_dir_spec(config.xdg_v(), config.home_v())->0,
                    home_trash_files_dir_spec(config.xdg_v(), config.home_v())->0,
                ),
                payload_path_spec(
                    home_trash_files_dir_spec(config.xdg_v(), config.home_v())->0,
                    trash_entry@.path,
                ),
            ) && !fs_has(
                ensure_dirs_spec(
                    old(fs)@,
                    home_trash_info_dir_spec(config.xdg_v(), config.home_v())->0,
                    home_trash_files_dir_spec(config.xdg_v(), config.home_v())->0,
                ),
                info_path_spec(
                    home_trash_info_dir_spec(config.xdg_v(), config.home_v())->0,
                    trash_entry@.path,
                ),
            )))
            &&& ((!fs_has(
                ensure_dirs_spec(
                    old(fs)@,
                    home_trash_info_dir_spec(config.xdg_v(), config.home_v())->0,
                    home_trash_files_dir_spec(config.xdg_v(), config.home_v())->0,
                ),
                payload_path_spec(
                    home_trash_files_dir_spec(config.xdg_v(), config.home_v())->0,
                    trash_entry@.path,
                ),
            ) && fs_has(
                ensure_dirs_spec(
                    old(fs)@,
                    home_trash_info_dir_spec(config.xdg_v(), config.home_v())->0,
                    home_trash_files_dir_spec(config.xdg_v(), config.home_v())->0,
                ),
                info_path_spec(
                    home_trash_info_dir_spec(config.xdg_v(), config.home_v())->0,
                    trash_entry@.path,
                ),
            )) ==> r is Ok)
            &&& (r is Ok <==> {
                ||| (fs_has(
                    ensure_dirs_spec(
                        old(fs)@,
                        home_trash_info_dir_spec(config.xdg_v(), config.home_v())->0,
                        home_trash_files_dir_spec(config.xdg_v(), config.home_v())->0,
                    ),
                    payload_path_spec(
                        home_trash_files_dir_spec(config.xdg_v(), config.home_v())->0,
                        trash_entry@.path,
                    ),
                ) && fs_has(
                    remove_payload_spec(
                        ensure_dirs_spec(
                            old(fs)@,
                            home_trash_info_dir_spec(config.xdg_v(), config.home_v())->0,
                            home_trash_files_dir_spec(config.xdg_v(), config.home_v())->0,
                        ),
                        payload_path_spec(
                            home_trash_files_dir_spec(config.xdg_v(), config.home_v())->0,
                            trash_entry@.path,
                        ),
                    ),
                    info_path_spec(
                        home_trash_info_dir_spec(config.xdg_v(), config.home_v())->0,
                        trash_entry@.path,
                    ),
                ))
                ||| (!fs_has(
                    ensure_dirs_spec(
                        old(fs)@,
                        home_trash_info_dir_spec(config.xdg_v(), config.home_v())->0,
                        home_trash_files_dir_spec(config.xdg_v(), config.home_v())->0,
                    ),
                    payload_path_spec(
                        home_trash_files_dir_spec(config.xdg_v(), config.home_v())->0,
                        trash_entry@.path,
                    ),
                ) && fs_has(
                    ensure_dirs_spec(
                        old(fs)@,
                        home_trash_info_dir_spec(config.xdg_v(), config.home_v())->0,
                        home_trash_files_dir_spec(config.xdg_v(), config.home_v())->0,
                    ),
                    info_path_spec(
                        home_trash_info_dir_spec(config.xdg_v(), config.home_v())->0,
                        trash_entry@.path,
                    ),
                ))
            })
            &&& (r is Err ==> (r->Err_0 == TrashError::NotFound || r->Err_0 == TrashError::Io))
        },
{
    let info_dir = match freedesktop_home_trash_info_dir(config) {
        Some(d) => d,
        None => { return Err(TrashError::Config) },
    };
    let files_dir = match freedesktop_home_trash_files_dir(config) {
        Some(d) => d,
        None => { return Err(TrashError::Config) },
    };
    ensure_trash_dirs(fs, info_dir.as_str(), files_dir.as_str());
    remove_in(fs, info_dir.as_str(), files_dir.as_str(), trash_entry.path.as_str())
}

} // verus!

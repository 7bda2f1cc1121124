//! Listing the home trash.
use vstd::prelude::*;
use vstd::string::*;

use crate::common::{
    freedesktop_home_trash_files_dir, freedesktop_home_trash_info_dir, home_trash_files_dir_spec,
    home_trash_info_dir_spec, TrashConfig, TrashError,
};
use crate::fs::Fs;
use crate::trash::{contents_in, contents_spec, ensure_dirs_spec, ensure_trash_dirs};
use crate::trash_info::TrashInfo;

verus! {

/// Ensures the home trash directories, then lists its entries in directory
/// order, silently skipping unparseable records.
pub fn trash_list(fs: &mut Fs, config: &TrashConfig) -> (r: Result<Vec<TrashInfo>, TrashError>)
    requires
        old(fs).wf(),
    ensures
        final(fs).wf(),
        match r {
            Ok(v) => {
                &&& home_trash_info_dir_spec(config.xdg_v(), config.home_v()) is Some
                &&& final(fs)@ == ensure_dirs_spec(
                    old(fs)@,
                    home_trash_info_dir_spec(config.xdg_v(), config.home_v())->0,
                    home_trash_files_dir_spec(config.xdg_v(), config.home_v())->0,
                )
                &&& v@.map_values(|t: TrashInfo| t@) == contents_spec(
                    final(fs)@,
                    home_trash_info_dir_spec(config.xdg_v(), config.home_v())->0,
                )
                &&& forall|i: int| 0 <= i < v.len() ==> (#[trigger] v@[i])@.wf()
            },
            Err(e) => {
                &&& e == TrashError::Config
                &&& home_trash_info_dir_spec(config.xdg_v(), config.home_v()) is None
                &&& final(fs)@ == old(fs)@
            },
        },
{
    let info_dir = match freedesktop_home_trash_info_dir(config) {
        Some(d) => d,
        None => { return Err(TrashError::Config) },
    };
    let files_dir = match freedesktop_home_trash_files_dir(config) {
        Some(d) => d,
        None => { return Err(TrashError::Config) },
    };
    ensure_trash_dirs(fs, info_dir.as_str(), files_dir.as_str());
    Ok(contents_in(fs, info_dir.as_str()))
}

} // verus!

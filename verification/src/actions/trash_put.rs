//! Moving a path into the home trash.
use vstd::prelude::*;
use vstd::string::*;

use crate::common::{
    freedesktop_home_trash_files_dir, freedesktop_home_trash_info_dir, home_trash_files_dir_spec,
    home_trash_info_dir_spec, TrashConfig, TrashError,
};
use crate::datetime::{local_now, DateTime};
use crate::fs::{fs_has, Fs};
use crate::strutil::basename_spec;
use crate::trash::{ensure_dirs_spec, put_in, put_spec};

verus! {

/// Moves `path` into the home trash, recording `now` as the deletion time:
/// directories ensured, record written first, payload renamed in.
pub fn trash_put_at(fs: &mut Fs, config: &TrashConfig, path: &str, now: &DateTime) -> (r: Result<
    (),
    TrashError,
>)
    requires
        old(fs).wf(),
        now.wf(),
    ensures
        final(fs).wf(),
        match r {
            Ok(()) => {
                &&& home_trash_info_dir_spec(config.xdg_v(), config.home_v()) is Some
                &&& final(fs)@ == put_spec(
                    ensure_dirs_spec(
                        old(fs)@,
                        home_trash_info_dir_spec(config.xdg_v(), config.home_v())->0,
                        home_trash_files_dir_spec(config.xdg_v(), config.home_v())->0,
                    ),
                    home_trash_info_dir_spec(config.xdg_v(), config.home_v())->0,
                    home_trash_files_dir_spec(config.xdg_v(), config.home_v())->0,
                    path@,
                    *now,
                )
                &&& fs_has(
                    ensure_dirs_spec(
                        old(fs)@,
                        home_trash_info_dir_spec(config.xdg_v(), config.home_v())->0,
                        home_trash_files_dir_spec(config.xdg_v(), config.home_v())->0,
                    ),
                    path@,
                )
                &&& basename_spec(path@).len() > 0
            },
            Err(e) => {
                ||| (e == TrashError::Config && home_trash_info_dir_spec(
                    config.xdg_v(),
                    config.home_v(),
                ) is None && final(fs)@ == old(fs)@)
                ||| (home_trash_info_dir_spec(config.xdg_v(), config.home_v()) is Some
                    && final(fs)@ == ensure_dirs_spec(
                    old(fs)@,
                    home_trash_info_dir_spec(config.xdg_v(), config.home_v())->0,
                    home_trash_files_dir_spec(config.xdg_v(), config.home_v())->0,
                ) && (e == TrashError::NotFound || e == TrashError::Io) && (e
                    == TrashError::NotFound <==> !fs_has(
                    ensure_dirs_spec(
                        old(fs)@,
                        home_trash_info_dir_spec(config.xdg_v(), config.home_v())->0,
                        home_trash_files_dir_spec(config.xdg_v(), config.home_v())->0,
                    ),
                    path@,
                )) && (e == TrashError::Io <==> fs_has(
                    ensure_dirs_spec(
                        old(fs)@,
                        home_trash_info_dir_spec(config.xdg_v(), config.home_v())->0,
                        home_trash_files_dir_spec(config.xdg_v(), config.home_v())->0,
                    ),
                    path@,
                ) && basename_spec(path@).len() == 0))
            },
        },
{
    let info_dir = match freedesktop_home_trash_info_dir(config) {
        Some(d) => d,
        None => { return Err(TrashError::Config) },
    };
    let files_dir = match freedesktop_home_trash_files_dir(config) {
        Some(d) => d,
        None => { return Err(TrashError::Config) },
    };
    put_in(fs, info_dir.as_str(), files_dir.as_str(), path, now)
}

/// Moves `path` into the home trash at the current local time.
pub fn trash_put(fs: &mut Fs, config: &TrashConfig, path: &str) -> (r: Result<(), TrashError>)
    requires
        old(fs).wf(),
    ensures
        final(fs).wf(),
        r is Ok ==> {
            &&& home_trash_info_dir_spec(config.xdg_v(), config.home_v()) is Some
            &&& exists|now: DateTime|
                #![auto]
                now.wf() && final(fs)@ == put_spec(
                    ensure_dirs_spec(
                        old(fs)@,
                        home_trash_info_dir_spec(config.xdg_v(), config.home_v())->0,
                        home_trash_files_dir_spec(config.xdg_v(), config.home_v())->0,
                    ),
                    home_trash_info_dir_spec(config.xdg_v(), config.home_v())->0,
                    home_trash_files_dir_spec(config.xdg_v(), config.home_v())->0,
                    path@,
                    now,
                )
        },
        r == Err::<(), TrashError>(TrashError::Config) ==> (home_trash_info_dir_spec(
            config.xdg_v(),
            config.home_v(),
        ) is None && final(fs)@ == old(fs)@),
        r == Err::<(), TrashError>(TrashError::NotFound) ==> (home_trash_info_dir_spec(
            config.xdg_v(),
            config.home_v(),
        ) is Some && !fs_has(
            ensure_dirs_spec(
                old(fs)@,
                home_trash_info_dir_spec(config.xdg_v(), config.home_v())->0,
                home_trash_files_dir_spec(config.xdg_v(), config.home_v())->0,
            ),
            path@,
        )),
        r is Err ==> {
            ||| final(fs)@ == old(fs)@
            ||| (home_trash_info_dir_spec(config.xdg_v(), config.home_v()) is Some && final(fs)@
                == ensure_dirs_spec(
                old(fs)@,
                home_trash_info_dir_spec(config.xdg_v(), config.home_v())->0,
                home_trash_files_dir_spec(config.xdg_v(), config.home_v())->0,
            ))
        },
{
    let now = match local_now() {
        Some(now) => now,
        None => { return Err(TrashError::Io) },
    };
    let r = trash_put_at(fs, config, path, &now);
    proof {
        if r is Ok {
            assert(now.wf() && fs@ == put_spec(
                ensure_dirs_spec(
                    old(fs)@,
                    home_trash_info_dir_spec(config.xdg_v(), config.home_v())->0,
                    home_trash_files_dir_spec(config.xdg_v(), config.home_v())->0,
                ),
                home_trash_info_dir_spec(config.xdg_v(), config.home_v())->0,
                home_trash_files_dir_spec(config.xdg_v(), config.home_v())->0,
                path@,
                now,
            ));
        }
    }
    r
}

} // verus!

//! The trash store: the put / list / remove / restore / empty lifecycle of
//! one trash root, and the `Trash` type that binds it to a device.
//!
//! Every entry is a payload under `files` paired with a metadata record
//! under `info` that shares its base name.  A record without a payload is a
//! dangling record: removal self-heals it instead of failing, and no
//! operation rolls a partial state back — consistency is restored lazily on
//! the next access.
use vstd::prelude::*;
use vstd::string::*;

use crate::codec::{encode_filename, encode_spec};
use crate::common::{
    files_dir_name, info_dir_name, trashinfo_suffix, with_trashinfo_extension, TrashConfig,
    TrashError,
};
use crate::datetime::DateTime;
use crate::fs::{
    fs_create_dir, fs_children, fs_has, fs_node, fs_remove, fs_remove_tree, fs_remove_under,
    fs_rename, fs_upsert, fs_wf, is_child_spec, is_under_spec, lemma_fs_filter_elements_pred,
    lemma_fs_filter_membership, lemma_has_create_dir, Fs, Node,
};
use crate::mount::{device_trash_dir_spec, dot_trash_name, MountedDevice};
use crate::strutil::{
    basename, basename_spec, dirname, dirname_spec, join_path, join_spec, starts_with,
    starts_with_spec,
};
use crate::trash_info::{parse_info_spec, render_spec, TrashInfo, TrashInfoV};
use crate::codec::{decode_filename, decode_spec};

verus! {

/// The payload path of the entry named `name`.
pub open spec fn payload_path_spec(files_dir: Seq<char>, name: Seq<char>) -> Seq<char> {
    join_spec(files_dir, name)
}

/// The metadata path of the entry named `name`.
pub open spec fn info_path_spec(info_dir: Seq<char>, name: Seq<char>) -> Seq<char> {
    join_spec(info_dir, name + trashinfo_suffix())
}

/// Creating the two trash directories, metadata first.
pub open spec fn ensure_dirs_spec(ns: Seq<Node>, info_dir: Seq<char>, files_dir: Seq<char>) -> Seq<
    Node,
> {
    fs_create_dir(fs_create_dir(ns, info_dir), files_dir)
}

/// Creates the metadata directory, then the payload directory, when
/// missing; whether anything was newly created.
pub fn ensure_trash_dirs(fs: &mut Fs, info_dir: &str, files_dir: &str) -> (created: bool)
    requires
        old(fs).wf(),
    ensures
        final(fs).wf(),
        final(fs)@ == ensure_dirs_spec(old(fs)@, info_dir@, files_dir@),
        created == (!fs_has(old(fs)@, info_dir@) || !fs_has(
            fs_create_dir(old(fs)@, info_dir@),
            files_dir@,
        )),
        fs_has(final(fs)@, info_dir@) && fs_has(final(fs)@, files_dir@),
    {
    let created_info = fs.create_dir_all(info_dir);
    let created_files = fs.create_dir_all(files_dir);
    proof {
        lemma_has_create_dir(old(fs)@, info_dir@, info_dir@);
        lemma_has_create_dir(fs_create_dir(old(fs)@, info_dir@), files_dir@, files_dir@);
        lemma_has_create_dir(fs_create_dir(old(fs)@, info_dir@), files_dir@, info_dir@);
    }
    created_info || created_files
}

/// Creating the two directories is idempotent: a second pass changes
/// nothing and creates nothing.
pub proof fn lemma_ensure_dirs_idempotent(ns: Seq<Node>, info_dir: Seq<char>, files_dir: Seq<char>)
    requires
        fs_wf(ns),
    ensures
        ensure_dirs_spec(ensure_dirs_spec(ns, info_dir, files_dir), info_dir, files_dir)
            == ensure_dirs_spec(ns, info_dir, files_dir),
        fs_has(ensure_dirs_spec(ns, info_dir, files_dir), info_dir),
        fs_has(ensure_dirs_spec(ns, info_dir, files_dir), files_dir),
{
    let a = fs_create_dir(ns, info_dir);
    let b = fs_create_dir(a, files_dir);
    lemma_has_create_dir(ns, info_dir, info_dir);
    crate::fs::lemma_wf_create_dir(ns, info_dir);
    lemma_has_create_dir(a, files_dir, info_dir);
    lemma_has_create_dir(a, files_dir, files_dir);
    assert(fs_create_dir(b, info_dir) == b);
    assert(fs_create_dir(b, files_dir) == b);
}

/// What `put` leaves behind, over a state whose directories exist: the
/// record written first, then the source renamed under the payload
/// directory.
pub open spec fn put_spec(
    ns: Seq<Node>,
    info_dir: Seq<char>,
    files_dir: Seq<char>,
    source: Seq<char>,
    now: DateTime,
) -> Seq<Node> {
    let name = basename_spec(source);
    fs_rename(
        fs_upsert(
            ns,
            info_path_spec(info_dir, name),
            false,
            render_spec(encode_spec(source), now),
        ),
        source,
        payload_path_spec(files_dir, name),
    )
}

/// Moves `source` into the trash rooted at the two directories: ensures the
/// directories, writes the metadata record using the pre-move path and
/// `now`, then renames the source under the payload directory.  The caller
/// hands the source as a canonical absolute path; a path that names no node
/// is NotFound.
pub fn put_in(fs: &mut Fs, info_dir: &str, files_dir: &str, source: &str, now: &DateTime) -> (r:
    Result<(), TrashError>)
    requires
        old(fs).wf(),
        now.wf(),
    ensures
        final(fs).wf(),
        match r {
            Ok(()) => {
                &&& fs_has(ensure_dirs_spec(old(fs)@, info_dir@, files_dir@), source@)
                &&& basename_spec(source@).len() > 0
                &&& final(fs)@ == put_spec(
                    ensure_dirs_spec(old(fs)@, info_dir@, files_dir@),
                    info_dir@,
                    files_dir@,
                    source@,
                    *now,
                )
            },
            Err(e) => {
                &&& final(fs)@ == ensure_dirs_spec(old(fs)@, info_dir@, files_dir@)
                &&& (e == TrashError::NotFound <==> !fs_has(
                    ensure_dirs_spec(old(fs)@, info_dir@, files_dir@),
                    source@,
                ))
                &&& (e == TrashError::Io <==> fs_has(
                    ensure_dirs_spec(old(fs)@, info_dir@, files_dir@),
                    source@,
                ) && basename_spec(source@).len() == 0)
                &&& (e == TrashError::NotFound || e == TrashError::Io)
            },
        },
{
    ensure_trash_dirs(fs, info_dir, files_dir);
    if !fs.exists_path(source) {
        return Err(TrashError::NotFound);
    }
    let name = basename(source);
    if name.as_str().unicode_len() == 0 {
        return Err(TrashError::Io);
    }
    let encoded = encode_filename(source);
    let record = TrashInfo::new(encoded.as_str(), *now);
    let content = record.render();
    let info_file = with_trashinfo_extension(name.as_str());
    let info_path = join_path(info_dir, info_file.as_str());
    let payload_path = join_path(files_dir, name.as_str());
    fs.write_file(info_path.as_str(), content.as_str());
    fs.rename(source, payload_path.as_str());
    proof {
        assert(info_path@ == info_path_spec(info_dir@, basename_spec(source@)));
        assert(final(fs)@ == put_spec(
            ensure_dirs_spec(old(fs)@, info_dir@, files_dir@),
            info_dir@,
            files_dir@,
            source@,
            *now,
        ));
    }
    Ok(())
}

/// The records parsed from the metadata files among the given nodes, in
/// order, skipping directories and malformed records.
pub open spec fn parse_children(cs: Seq<Node>) -> Seq<TrashInfoV>
    decreases cs.len(),
{
    if cs.len() == 0 {
        Seq::empty()
    } else {
        let rest = parse_children(cs.skip(1));
        if !cs[0].is_dir && parse_info_spec(cs[0].content) is Some {
            seq![parse_info_spec(cs[0].content)->0] + rest
        } else {
            rest
        }
    }
}

/// The entries a listing of the metadata directory yields.
pub open spec fn contents_spec(ns: Seq<Node>, info_dir: Seq<char>) -> Seq<TrashInfoV> {
    parse_children(fs_children(ns, info_dir))
}

/// The entries of the trash whose metadata directory is `info_dir`, in
/// directory order, silently skipping unparseable records.
pub fn contents_in(fs: &Fs, info_dir: &str) -> (r: Vec<TrashInfo>)
    ensures
        r@.map_values(|t: TrashInfo| t@) == contents_spec(fs@, info_dir@),
        forall|i: int| 0 <= i < r.len() ==> (#[trigger] r@[i])@.wf(),
{
    let children = fs.list_children(info_dir);
    let ghost cs = fs_children(fs@, info_dir@);
    let n = children.len();
    let mut out: Vec<TrashInfo> = Vec::new();
    let mut i: usize = 0;
    proof {
        assert(cs.skip(0) =~= cs);
        assert(out@.map_values(|t: TrashInfo| t@) =~= Seq::<TrashInfoV>::empty());
    }
    while i < n
        invariant
            n == children.len(),
            children@.map_values(|e: crate::fs::FsEntry| e@) == cs,
            0 <= i <= n,
            parse_children(cs) == out@.map_values(|t: TrashInfo| t@) + parse_children(
                cs.skip(i as int),
            ),
            forall|k: int| 0 <= k < out.len() ==> (#[trigger] out@[k])@.wf(),
        decreases n - i,
    {
        proof {
            assert(cs.skip(i as int)[0] == cs[i as int]);
            assert(cs.skip(i as int).skip(1) =~= cs.skip(i + 1));
            assert(children@.map_values(|e: crate::fs::FsEntry| e@)[i as int] == children@[
                i as int
            ]@);
        }
        let entry = &children[i];
        if !entry.is_dir {
            match TrashInfo::parse(entry.content.as_str()) {
                Ok(record) => {
                    let ghost prev = out@;
                    out.push(record);
                    proof {
                        assert(out@.map_values(|t: TrashInfo| t@) =~= prev.map_values(
                            |t: TrashInfo| t@,
                        ).push(record@));
                        assert(out@.map_values(|t: TrashInfo| t@) =~= prev.map_values(
                            |t: TrashInfo| t@,
                        ) + seq![parse_info_spec(cs[i as int].content)->0]);
                    }
                },
                Err(_) => {},
            }
        }
        i = i + 1;
    }
    proof {
        assert(cs.skip(n as int) =~= Seq::<Node>::empty());
        assert(out@.map_values(|t: TrashInfo| t@) =~= parse_children(cs));
    }
    out
}

/// Deleting a payload: a directory subtree goes wholesale, a file alone.
pub open spec fn remove_payload_spec(ns: Seq<Node>, payload: Seq<char>) -> Seq<Node> {
    if fs_node(ns, payload).is_dir {
        fs_remove_tree(ns, payload)
    } else {
        fs_remove(ns, payload)
    }
}

/// What `remove` leaves behind: the payload (when present) and then the
/// metadata file deleted; a removal of an absent path changes nothing.
pub open spec fn remove_entry_spec(ns: Seq<Node>, payload: Seq<char>, info_path: Seq<char>) -> Seq<
    Node,
> {
    if fs_has(ns, payload) {
        fs_remove(remove_payload_spec(ns, payload), info_path)
    } else {
        fs_remove(ns, info_path)
    }
}

/// Permanently removes the entry named `name`: deletes the payload
/// (recursively for a directory), then the metadata file.  A dangling
/// record — metadata with no payload — is self-healed: only the metadata is
/// deleted and the call succeeds.
pub fn remove_in(fs: &mut Fs, info_dir: &str, files_dir: &str, name: &str) -> (r: Result<
    (),
    TrashError,
>)
    requires
        old(fs).wf(),
    ensures
        final(fs).wf(),
        final(fs)@ == remove_entry_spec(
            old(fs)@,
            payload_path_spec(files_dir@, name@),
            info_path_spec(info_dir@, name@),
        ),
        r is Ok <==> {
            ||| (fs_has(old(fs)@, payload_path_spec(files_dir@, name@)) && fs_has(
                remove_payload_spec(old(fs)@, payload_path_spec(files_dir@, name@)),
                info_path_spec(info_dir@, name@),
            ))
            ||| (!fs_has(old(fs)@, payload_path_spec(files_dir@, name@)) && fs_has(
                old(fs)@,
                info_path_spec(info_dir@, name@),
            ))
        },
        r == Err::<(), TrashError>(TrashError::NotFound) <==> (!fs_has(
            old(fs)@,
            payload_path_spec(files_dir@, name@),
        ) && !fs_has(old(fs)@, info_path_spec(info_dir@, name@))),
        (!fs_has(old(fs)@, payload_path_spec(files_dir@, name@)) && fs_has(
            old(fs)@,
            info_path_spec(info_dir@, name@),
        )) ==> (r is Ok && final(fs)@ == fs_remove(
            old(fs)@,
            info_path_spec(info_dir@, name@),
        )),
        r is Err ==> (r->Err_0 == TrashError::NotFound || r->Err_0 == TrashError::Io),
{
    let payload = join_path(files_dir, name);
    let info_file = with_trashinfo_extension(name);
    let info_path = join_path(info_dir, info_file.as_str());
    if fs.exists_path(payload.as_str()) {
        let payload_is_dir = fs.is_dir_at(payload.as_str());
        if payload_is_dir {
            fs.remove_tree(payload.as_str());
        } else {
            fs.remove_path(payload.as_str());
        }
        if fs.remove_path(info_path.as_str()) {
            Ok(())
        } else {
            Err(TrashError::Io)
        }
    } else {
        if fs.remove_path(info_path.as_str()) {
            Ok(())
        } else {
            Err(TrashError::NotFound)
        }
    }
}

/// The destination a restore moves an entry back to: the stored original
/// absolute path, decoded; a relative stored path is taken from the
/// device's mount point.
pub open spec fn restore_dest_spec(full_path: Seq<char>, mount_point: Seq<char>) -> Seq<char> {
    if starts_with_spec(full_path, seq!['/']) {
        decode_spec(full_path)
    } else {
        join_spec(mount_point, decode_spec(full_path))
    }
}

/// The restore destination of one entry on the device mounted at
/// `mount_point`.
pub fn restore_destination(entry: &TrashInfo, mount_point: &str) -> (r: String)
    ensures
        r@ == restore_dest_spec(entry@.full_path, mount_point@),
{
    proof {
        reveal_strlit("/");
        assert("/"@ =~= seq!['/']);
    }
    let decoded = decode_filename(entry.full_path.as_str());
    if starts_with(entry.full_path.as_str(), "/") {
        decoded
    } else {
        join_path(mount_point, decoded.as_str())
    }
}

/// What a proceeding `restore` leaves behind: the destination's parent
/// created, the payload renamed back, the metadata file deleted.
pub open spec fn restore_spec(ns: Seq<Node>, payload: Seq<char>, info_path: Seq<char>, dest: Seq<
    char,
>) -> Seq<Node> {
    fs_remove(fs_rename(fs_create_dir(ns, dirname_spec(dest)), payload, dest), info_path)
}

/// Moves the entry named `name` back to `dest`.  An absent payload is
/// NotFound; an existing destination without `overwrite` is
/// PermissionDenied and changes nothing; else the destination's parent is
/// created, the payload renamed there, and the metadata file deleted.
pub fn restore_in(
    fs: &mut Fs,
    info_dir: &str,
    files_dir: &str,
    name: &str,
    dest: &str,
    overwrite: bool,
) -> (r: Result<String, TrashError>)
    requires
        old(fs).wf(),
    ensures
        final(fs).wf(),
        !fs_has(old(fs)@, payload_path_spec(files_dir@, name@)) ==> (r == Err::<String, TrashError>(
            TrashError::NotFound,
        ) && final(fs)@ == old(fs)@),
        (fs_has(old(fs)@, payload_path_spec(files_dir@, name@)) && fs_has(old(fs)@, dest@)
            && !overwrite) ==> (r == Err::<String, TrashError>(TrashError::PermissionDenied)
            && final(fs)@ == old(fs)@),
        (fs_has(old(fs)@, payload_path_spec(files_dir@, name@)) && (overwrite || !fs_has(
            old(fs)@,
            dest@,
        ))) ==> {
            &&& final(fs)@ == restore_spec(
                old(fs)@,
                payload_path_spec(files_dir@, name@),
                info_path_spec(info_dir@, name@),
                dest@,
            )
            &&& (r is Ok <==> fs_has(
                fs_rename(
                    fs_create_dir(old(fs)@, dirname_spec(dest@)),
                    payload_path_spec(files_dir@, name@),
                    dest@,
                ),
                info_path_spec(info_dir@, name@),
            ))
            &&& (r is Ok ==> r->Ok_0@ == dest@)
            &&& (r is Err ==> r->Err_0 == TrashError::Io)
        },
{
    let payload = join_path(files_dir, name);
    let info_file = with_trashinfo_extension(name);
    let info_path = join_path(info_dir, info_file.as_str());
    if !fs.exists_path(payload.as_str()) {
        return Err(TrashError::NotFound);
    }
    if fs.exists_path(dest) && !overwrite {
        return Err(TrashError::PermissionDenied);
    }
    let parent = dirname(dest);
    fs.create_dir_all(parent.as_str());
    fs.rename(payload.as_str(), dest);
    if fs.remove_path(info_path.as_str()) {
        Ok(dest.to_owned())
    } else {
        Err(TrashError::Io)
    }
}

/// A proceeding restore replaces the destination with the payload node and
/// removes both trash-side artifacts.
///
/// The premises say that the three paths of the step are distinct and that
/// the destination's parent is none of them — which holds of any entry whose
/// original location lies outside the trash root.
pub proof fn lemma_restore_replaces(
    ns: Seq<Node>,
    payload: Seq<char>,
    info_p: Seq<char>,
    dest: Seq<char>,
)
    requires
        fs_wf(ns),
        fs_has(ns, payload),
        payload != dest,
        payload != info_p,
        info_p != dest,
        dirname_spec(dest) != payload,
        dirname_spec(dest) != dest,
        dirname_spec(dest) != info_p,
    ensures
        ({
            let out = restore_spec(ns, payload, info_p, dest);
            &&& fs_has(out, dest)
            &&& fs_node(out, dest).is_dir == fs_node(ns, payload).is_dir
            &&& fs_node(out, dest).content == fs_node(ns, payload).content
            &&& !fs_has(out, payload)
            &&& !fs_has(out, info_p)
        }),
{
    let parent = dirname_spec(dest);
    let ns1 = fs_create_dir(ns, parent);
    crate::fs::lemma_wf_create_dir(ns, parent);
    lemma_has_create_dir(ns, parent, payload);
    lemma_has_create_dir(ns, parent, dest);
    assert(fs_wf(ns1) && fs_has(ns1, payload));
    assert(fs_node(ns1, payload) == fs_node(ns, payload)) by {
        lemma_has_create_dir(ns, parent, payload);
    }
    crate::fs::lemma_find(ns1, payload);
    let k = crate::fs::fs_find(ns1, payload);
    assert(k >= 0);
    let src_node = ns1[k];
    assert(src_node == fs_node(ns, payload));
    let rm = fs_remove(ns1, payload);
    assert(ns1.remove(k) == rm);
    let ns2 = fs_upsert(rm, dest, src_node.is_dir, src_node.content);
    assert(ns2 == fs_rename(ns1, payload, dest));
    crate::fs::lemma_wf_remove(ns1, payload);
    crate::fs::lemma_has_remove(ns1, payload, dest);
    crate::fs::lemma_has_remove(ns1, payload, payload);
    crate::fs::lemma_wf_upsert(rm, dest, src_node.is_dir, src_node.content);
    crate::fs::lemma_has_upsert(rm, dest, src_node.is_dir, src_node.content, dest);
    crate::fs::lemma_has_upsert(rm, dest, src_node.is_dir, src_node.content, payload);
    assert(fs_wf(ns2) && fs_has(ns2, dest) && !fs_has(ns2, payload));
    assert(fs_node(ns2, dest).is_dir == src_node.is_dir && fs_node(ns2, dest).content
        == src_node.content);
    let ns3 = fs_remove(ns2, info_p);
    assert(ns3 == restore_spec(ns, payload, info_p, dest));
    crate::fs::lemma_wf_remove(ns2, info_p);
    crate::fs::lemma_has_remove(ns2, info_p, dest);
    crate::fs::lemma_has_remove(ns2, info_p, payload);
    assert(fs_node(ns3, dest) == fs_node(ns2, dest));
    assert(!fs_has(ns3, info_p) && !fs_has(ns3, payload) && fs_has(ns3, dest));
}

/// What `empty` leaves behind: the directories ensured, then everything
/// under the payload directory and everything under the metadata directory
/// deleted; the two directories themselves remain.
pub open spec fn empty_spec(ns: Seq<Node>, info_dir: Seq<char>, files_dir: Seq<char>) -> Seq<
    Node,
> {
    fs_remove_under(fs_remove_under(ensure_dirs_spec(ns, info_dir, files_dir), files_dir), info_dir)
}

/// Deletes every entry of the trash rooted at the two directories,
/// irreversibly; the directories themselves are kept (and created when
/// missing).
pub fn empty_in(fs: &mut Fs, info_dir: &str, files_dir: &str)
    requires
        old(fs).wf(),
    ensures
        final(fs).wf(),
        final(fs)@ == empty_spec(old(fs)@, info_dir@, files_dir@),
        forall|k: int|
            0 <= k < final(fs)@.len() ==> !is_under_spec(
                (#[trigger] final(fs)@[k]).path,
                files_dir@,
            ) && !is_under_spec(final(fs)@[k].path, info_dir@),
{
    ensure_trash_dirs(fs, info_dir, files_dir);
    fs.remove_under(files_dir);
    fs.remove_under(info_dir);
    proof {
        let ns1 = fs_remove_under(
            ensure_dirs_spec(old(fs)@, info_dir@, files_dir@),
            files_dir@,
        );
        let out = final(fs)@;
        lemma_fs_filter_elements_pred(ns1, |nd: Node| !is_under_spec(nd.path, info_dir@));
        lemma_fs_filter_elements_pred(
            ensure_dirs_spec(old(fs)@, info_dir@, files_dir@),
            |nd: Node| !is_under_spec(nd.path, files_dir@),
        );
        lemma_fs_filter_membership(ns1, |nd: Node| !is_under_spec(nd.path, info_dir@));
        assert forall|k: int| 0 <= k < out.len() implies !is_under_spec(
            (#[trigger] out[k]).path,
            files_dir@,
        ) && !is_under_spec(out[k].path, info_dir@) by {
            assert(out.contains(out[k]));
            assert(ns1.contains(out[k]));
            let j = choose|j: int| 0 <= j < ns1.len() && ns1[j] == out[k];
        }
    }
}

/// After a successful `put` followed by `remove` of the same entry, the
/// payload path, the metadata path, and the original location are all
/// absent.
///
/// The premises say that the source is a real path outside the entry's two
/// trash-side paths, and that the metadata path does not lie inside the
/// payload — which holds of any store whose two directories are separate.
pub proof fn lemma_put_then_remove(
    ns0: Seq<Node>,
    info_dir: Seq<char>,
    files_dir: Seq<char>,
    source: Seq<char>,
    now: DateTime,
)
    requires
        fs_wf(ns0),
        fs_has(ns0, source),
        basename_spec(source).len() > 0,
        source != payload_path_spec(files_dir, basename_spec(source)),
        source != info_path_spec(info_dir, basename_spec(source)),
        payload_path_spec(files_dir, basename_spec(source)) != info_path_spec(
            info_dir,
            basename_spec(source),
        ),
        !is_under_spec(
            info_path_spec(info_dir, basename_spec(source)),
            payload_path_spec(files_dir, basename_spec(source)),
        ),
    ensures
        ({
            let ns1 = ensure_dirs_spec(ns0, info_dir, files_dir);
            let ns2 = put_spec(ns1, info_dir, files_dir, source, now);
            let payload = payload_path_spec(files_dir, basename_spec(source));
            let info_p = info_path_spec(info_dir, basename_spec(source));
            let ns3 = remove_entry_spec(ns2, payload, info_p);
            &&& fs_has(ns2, payload)
            &&& fs_has(ns2, info_p)
            &&& !fs_has(ns3, payload)
            &&& !fs_has(ns3, info_p)
            &&& !fs_has(ns3, source)
        }),
{
    let name = basename_spec(source);
    let payload = payload_path_spec(files_dir, name);
    let info_p = info_path_spec(info_dir, name);
    let content = render_spec(encode_spec(source), now);
    let ns1 = ensure_dirs_spec(ns0, info_dir, files_dir);
    crate::fs::lemma_wf_create_dir(ns0, info_dir);
    crate::fs::lemma_wf_create_dir(fs_create_dir(ns0, info_dir), files_dir);
    lemma_has_create_dir(ns0, info_dir, source);
    lemma_has_create_dir(fs_create_dir(ns0, info_dir), files_dir, source);
    assert(fs_wf(ns1) && fs_has(ns1, source));
    let mid = fs_upsert(ns1, info_p, false, content);
    crate::fs::lemma_wf_upsert(ns1, info_p, false, content);
    crate::fs::lemma_has_upsert(ns1, info_p, false, content, source);
    crate::fs::lemma_has_upsert(ns1, info_p, false, content, info_p);
    assert(fs_wf(mid) && fs_has(mid, source) && fs_has(mid, info_p));
    let info_node = Node { path: info_p, is_dir: false, content };
    assert(fs_node(mid, info_p) == info_node);
    // The rename of the source into the payload directory.
    crate::fs::lemma_find(mid, source);
    let k = crate::fs::fs_find(mid, source);
    assert(k >= 0);
    let rm = fs_remove(mid, source);
    assert(mid.remove(k) == rm);
    let src_node = mid[k];
    let ns2 = fs_upsert(rm, payload, src_node.is_dir, src_node.content);
    assert(ns2 == put_spec(ns1, info_dir, files_dir, source, now));
    crate::fs::lemma_wf_remove(mid, source);
    crate::fs::lemma_has_remove(mid, source, info_p);
    crate::fs::lemma_has_remove(mid, source, source);
    assert(fs_wf(rm) && fs_has(rm, info_p) && !fs_has(rm, source));
    crate::fs::lemma_wf_upsert(rm, payload, src_node.is_dir, src_node.content);
    crate::fs::lemma_has_upsert(rm, payload, src_node.is_dir, src_node.content, payload);
    crate::fs::lemma_has_upsert(rm, payload, src_node.is_dir, src_node.content, info_p);
    crate::fs::lemma_has_upsert(rm, payload, src_node.is_dir, src_node.content, source);
    assert(fs_wf(ns2) && fs_has(ns2, payload) && fs_has(ns2, info_p) && !fs_has(ns2, source));
    // The removal of payload and record.
    let rp = remove_payload_spec(ns2, payload);
    if fs_node(ns2, payload).is_dir {
        assert(rp == fs_remove_tree(ns2, payload));
        let pred = |nd: Node| nd.path != payload && !is_under_spec(nd.path, payload);
        crate::fs::lemma_fs_filter_has(ns2, pred, payload);
        crate::fs::lemma_fs_filter_has(ns2, pred, info_p);
        crate::fs::lemma_fs_filter_has(ns2, pred, source);
        assert(!fs_has(rp, payload));
        assert(fs_has(rp, info_p)) by {
            crate::fs::lemma_find(ns2, info_p);
            let j = crate::fs::fs_find(ns2, info_p);
            assert(ns2[j].path == info_p && pred(ns2[j]));
        }
        assert(!fs_has(rp, source)) by {
            if fs_has(rp, source) {
                let j = choose|j: int|
                    0 <= j < ns2.len() && (#[trigger] ns2[j]).path == source && pred(ns2[j]);
                assert(fs_has(ns2, source));
            }
        }
        crate::fs::lemma_remove_tree_wf(ns2, payload);
    } else {
        assert(rp == fs_remove(ns2, payload));
        crate::fs::lemma_wf_remove(ns2, payload);
        crate::fs::lemma_has_remove(ns2, payload, info_p);
        crate::fs::lemma_has_remove(ns2, payload, source);
        crate::fs::lemma_has_remove(ns2, payload, payload);
    }
    assert(fs_wf(rp) && fs_has(rp, info_p) && !fs_has(rp, payload) && !fs_has(rp, source));
    let ns3 = fs_remove(rp, info_p);
    assert(ns3 == remove_entry_spec(ns2, payload, info_p));
    crate::fs::lemma_wf_remove(rp, info_p);
    crate::fs::lemma_has_remove(rp, info_p, payload);
    crate::fs::lemma_has_remove(rp, info_p, source);
    assert(!fs_has(ns3, info_p) && !fs_has(ns3, payload) && !fs_has(ns3, source));
}

/// After a successful `put` into a store whose metadata directory listed
/// nothing, the listing holds exactly one entry: its decoded display name is
/// the source's base name and its timestamp is the put time.
///
/// The premises say that the source is a line-safe path that does not
/// already carry a literal escape sequence, that nothing in the state (nor
/// the payload directory or the entry's payload path) is listed under the
/// metadata directory, and that the metadata directory is a plain path not
/// ending in `/`.
pub proof fn lemma_put_then_list(
    ns0: Seq<Node>,
    info_dir: Seq<char>,
    files_dir: Seq<char>,
    source: Seq<char>,
    now: DateTime,
)
    requires
        fs_wf(ns0),
        fs_has(ns0, source),
        basename_spec(source).len() > 0,
        now.wf(),
        !crate::codec::has_escape(source),
        !crate::strutil::contains_char(source, '\n'),
        !crate::strutil::contains_char(source, '\r'),
        !crate::strutil::contains_char(source, '\t'),
        info_dir.len() > 0 && info_dir[info_dir.len() - 1] != '/',
        forall|k: int| 0 <= k < ns0.len() ==> !is_child_spec((#[trigger] ns0[k]).path, info_dir),
        !is_child_spec(source, info_dir),
        !is_child_spec(files_dir, info_dir),
        !is_child_spec(payload_path_spec(files_dir, basename_spec(source)), info_dir),
    ensures
        contents_spec(
            put_spec(ensure_dirs_spec(ns0, info_dir, files_dir), info_dir, files_dir, source, now),
            info_dir,
        ) == seq![
            TrashInfoV {
                full_path: encode_spec(source),
                path: basename_spec(source),
                deletion_date: now,
            },
        ],
{
    let name = basename_spec(source);
    let fname = name + trashinfo_suffix();
    let payload = payload_path_spec(files_dir, name);
    let info_p = info_path_spec(info_dir, name);
    let fp = encode_spec(source);
    let content = render_spec(fp, now);
    let info_node = Node { path: info_p, is_dir: false, content };
    let child = |nd: Node| is_child_spec(nd.path, info_dir);
    // The metadata path is a direct child of the metadata directory.
    assert(info_p == info_dir + seq!['/'] + fname);
    assert(is_child_spec(info_p, info_dir)) by {
        assert(info_p.subrange(0, info_dir.len() as int + 1) =~= info_dir + seq!['/']);
        crate::strutil::lemma_basename_no_slash(source);
        assert(!crate::strutil::contains_char(info_p.skip(info_dir.len() as int + 1), '/')) by {
            assert(info_p.skip(info_dir.len() as int + 1) =~= fname);
            if crate::strutil::contains_char(fname, '/') {
                let i = choose|i: int| 0 <= i < fname.len() && fname[i] == '/';
                if i < name.len() {
                    assert(name[i] == '/');
                    assert(crate::strutil::contains_char(name, '/'));
                } else {
                    assert(trashinfo_suffix()[i - name.len()] == '/');
                }
            }
        }
    }
    assert(source != info_p);
    assert(payload != info_p);
    // The prepared state and the written record.
    let ns1 = ensure_dirs_spec(ns0, info_dir, files_dir);
    crate::fs::lemma_wf_create_dir(ns0, info_dir);
    crate::fs::lemma_wf_create_dir(fs_create_dir(ns0, info_dir), files_dir);
    lemma_has_create_dir(ns0, info_dir, source);
    lemma_has_create_dir(fs_create_dir(ns0, info_dir), files_dir, source);
    assert(fs_wf(ns1) && fs_has(ns1, source));
    assert(forall|k: int| 0 <= k < ns1.len() ==> !child(#[trigger] ns1[k])) by {
        let a = fs_create_dir(ns0, info_dir);
        assert(!is_child_spec(info_dir, info_dir));
        assert(forall|k: int| 0 <= k < a.len() ==> !child(#[trigger] a[k]));
        assert(forall|k: int| 0 <= k < ns1.len() ==> !child(#[trigger] ns1[k]));
    }
    assert(!fs_has(ns1, info_p)) by {
        if fs_has(ns1, info_p) {
            let k = choose|k: int| 0 <= k < ns1.len() && (#[trigger] ns1[k]).path == info_p;
            assert(child(ns1[k]));
        }
    }
    let mid = fs_upsert(ns1, info_p, false, content);
    crate::fs::lemma_find(ns1, info_p);
    assert(mid == ns1.push(info_node));
    crate::fs::lemma_wf_upsert(ns1, info_p, false, content);
    crate::fs::lemma_has_upsert(ns1, info_p, false, content, source);
    assert(fs_wf(mid) && fs_has(mid, source));
    assert(fs_node(mid, info_p) == info_node) by {
        crate::fs::lemma_has_upsert(ns1, info_p, false, content, info_p);
    }
    // The rename of the source under the payload directory.
    crate::fs::lemma_find(mid, source);
    let k = crate::fs::fs_find(mid, source);
    assert(k >= 0);
    let rm = fs_remove(mid, source);
    assert(mid.remove(k) == rm);
    let src_node = mid[k];
    let ns2 = fs_upsert(rm, payload, src_node.is_dir, src_node.content);
    assert(ns2 == put_spec(ns1, info_dir, files_dir, source, now));
    crate::fs::lemma_wf_remove(mid, source);
    crate::fs::lemma_has_remove(mid, source, info_p);
    assert(fs_wf(rm) && fs_has(rm, info_p) && fs_node(rm, info_p) == info_node);
    crate::fs::lemma_wf_upsert(rm, payload, src_node.is_dir, src_node.content);
    crate::fs::lemma_has_upsert(rm, payload, src_node.is_dir, src_node.content, info_p);
    assert(fs_wf(ns2) && fs_has(ns2, info_p) && fs_node(ns2, info_p) == info_node);
    // Exactly one node of the final state is listed under the metadata
    // directory: the written record.
    crate::fs::lemma_find(ns2, info_p);
    let j = crate::fs::fs_find(ns2, info_p);
    assert(j >= 0 && ns2[j] == info_node);
    assert(forall|x: int| 0 <= x < rm.len() ==> rm[x] == mid[x] || rm[x] == mid[x + 1]);
    assert(forall|x: int| 0 <= x < mid.len() ==> mid[x] == info_node || !child(#[trigger] mid[x]))
        by {
        assert(forall|x: int| 0 <= x < ns1.len() ==> mid[x] == ns1[x]);
    }
    assert(forall|x: int| 0 <= x < rm.len() ==> rm[x] == info_node || !child(#[trigger] rm[x]));
    let payload_node = Node { path: payload, is_dir: src_node.is_dir, content: src_node.content };
    assert(forall|x: int|
        0 <= x < ns2.len() ==> ns2[x] == info_node || ns2[x] == payload_node || !child(
            #[trigger] ns2[x],
        )) by {
        crate::fs::lemma_find(rm, payload);
        let pk = crate::fs::fs_find(rm, payload);
        if pk >= 0 {
            assert(ns2 == rm.update(pk, payload_node));
            assert(forall|x: int| 0 <= x < ns2.len() && x != pk ==> ns2[x] == rm[x]);
        } else {
            assert(ns2 == rm.push(payload_node));
            assert(forall|x: int| 0 <= x < rm.len() ==> ns2[x] == rm[x]);
        }
    }
    assert(!child(payload_node));
    assert forall|x: int| 0 <= x < ns2.len() && x != j implies !child(#[trigger] ns2[x]) by {
        if ns2[x] == info_node {
            assert(ns2[x].path == ns2[j].path);
            assert(false);
        }
    }
    crate::fs::lemma_fs_filter_single(ns2, child, j);
    assert(fs_children(ns2, info_dir) == seq![info_node]);
    // The single record parses back to the entry that was put.
    crate::codec::lemma_encode_no_ws(source);
    assert(fp.len() > 0 ==> !crate::strutil::is_ws(fp[0]) && !crate::strutil::is_ws(
        fp[fp.len() - 1],
    ));
    assert(!crate::strutil::contains_char(fp, '\n')) by {
        if crate::strutil::contains_char(fp, '\n') {
            let i = choose|i: int| 0 <= i < fp.len() && fp[i] == '\n';
            assert(!crate::strutil::is_ws(fp[i]));
        }
    }
    crate::trash_info::lemma_parse_render_round_trip(fp, now);
    assert(parse_info_spec(content) == Some(
        TrashInfoV {
            full_path: fp,
            path: decode_spec(basename_spec(fp)),
            deletion_date: now,
        },
    ));
    crate::codec::lemma_basename_encode_commute(source);
    assert(basename_spec(fp) == encode_spec(name));
    crate::codec::lemma_basename_no_escape(source);
    crate::codec::lemma_decode_encode_round_trip(name);
    assert(decode_spec(basename_spec(fp)) == name);
    // One child, one parsed entry.
    let cs = seq![info_node];
    assert(cs[0] == info_node);
    assert(cs.skip(1) =~= Seq::<Node>::empty());
    assert(parse_children(Seq::<Node>::empty()) == Seq::<TrashInfoV>::empty());
    assert(parse_children(cs) == seq![parse_info_spec(info_node.content)->0] + parse_children(
        cs.skip(1),
    ));
    assert(parse_children(cs) =~= seq![
        TrashInfoV { full_path: fp, path: name, deletion_date: now },
    ]);
}

/// The trash root that one device resolves to against one filesystem state.
pub open spec fn store_root(dev: crate::mount::DeviceV, config: &TrashConfig, uid: u32, ns: Seq<
    Node,
>) -> Option<Seq<char>> {
    device_trash_dir_spec(
        dev.mount_point,
        config.xdg_v(),
        config.home_v(),
        uid,
        fs_has(ns, join_spec(dev.mount_point, dot_trash_name())),
    )
}

/// The metadata directory under a trash root.
pub open spec fn store_info_dir(root: Seq<char>) -> Seq<char> {
    join_spec(root, info_dir_name())
}

/// The payload directory under a trash root.
pub open spec fn store_files_dir(root: Seq<char>) -> Seq<char> {
    join_spec(root, files_dir_name())
}

/// One device's trash root resolves the same against the state left by
/// creating its two directories: `root/info` and `root/files` end in other
/// characters than the volume's shared `.Trash` marker, so the probe that
/// the resolution reads is untouched.
pub proof fn lemma_store_root_stable(
    dev: crate::mount::DeviceV,
    config: &TrashConfig,
    uid: u32,
    ns: Seq<Node>,
)
    requires
        fs_wf(ns),
        store_root(dev, config, uid, ns) is Some,
    ensures
        ({
            let root = store_root(dev, config, uid, ns)->0;
            store_root(
                dev,
                config,
                uid,
                ensure_dirs_spec(ns, store_info_dir(root), store_files_dir(root)),
            ) == store_root(dev, config, uid, ns)
        }),
{
    let root = store_root(dev, config, uid, ns)->0;
    let info_d = store_info_dir(root);
    let files_d = store_files_dir(root);
    let shared = join_spec(dev.mount_point, dot_trash_name());
    assert(shared[shared.len() - 1] == 'h');
    assert(info_d[info_d.len() - 1] == 'o');
    assert(files_d[files_d.len() - 1] == 's');
    assert(shared != info_d && shared != files_d);
    lemma_has_create_dir(ns, info_d, shared);
    crate::fs::lemma_wf_create_dir(ns, info_d);
    lemma_has_create_dir(fs_create_dir(ns, info_d), files_d, shared);
    assert(fs_has(ensure_dirs_spec(ns, info_d, files_d), shared) == fs_has(ns, shared));
}

/// Creating one device's two directories is idempotent, whichever volume the
/// device mounts: the second pass resolves the same root, creates nothing
/// and changes nothing.
pub proof fn lemma_create_trash_dirs_idempotent(
    dev: crate::mount::DeviceV,
    config: &TrashConfig,
    uid: u32,
    ns: Seq<Node>,
)
    requires
        fs_wf(ns),
        store_root(dev, config, uid, ns) is Some,
    ensures
        ({
            let root = store_root(dev, config, uid, ns)->0;
            let ns1 = ensure_dirs_spec(ns, store_info_dir(root), store_files_dir(root));
            &&& store_root(dev, config, uid, ns1) == store_root(dev, config, uid, ns)
            &&& ensure_dirs_spec(ns1, store_info_dir(root), store_files_dir(root)) == ns1
            &&& fs_has(ns1, store_info_dir(root))
            &&& fs_has(ns1, store_files_dir(root))
        }),
{
    let root = store_root(dev, config, uid, ns)->0;
    lemma_store_root_stable(dev, config, uid, ns);
    lemma_ensure_dirs_idempotent(ns, store_info_dir(root), store_files_dir(root));
}

/// One device's trash store.
pub struct Trash {
    pub device: MountedDevice,
}

impl Trash {
    /// The store of one device.
    pub fn new(device: &MountedDevice) -> (r: Trash)
        ensures
            r.device@ == device@,
    {
        Trash { device: device.duplicate() }
    }

    /// This store's two directories, resolved against the given state.
    fn resolve_dirs(&self, fs: &Fs, config: &TrashConfig, uid: u32) -> (r: Result<
        (String, String),
        TrashError,
    >)
        ensures
            match r {
                Ok(dirs) => {
                    &&& store_root(self.device@, config, uid, fs@) is Some
                    &&& dirs.0@ == store_info_dir(store_root(self.device@, config, uid, fs@)->0)
                    &&& dirs.1@ == store_files_dir(store_root(self.device@, config, uid, fs@)->0)
                },
                Err(e) => {
                    &&& e == TrashError::Config
                    &&& store_root(self.device@, config, uid, fs@) is None
                },
            },
    {
        proof {
            reveal_strlit("info");
            reveal_strlit("files");
            assert("info"@ =~= info_dir_name());
            assert("files"@ =~= files_dir_name());
        }
        match self.device.trash_dir(fs, config, uid) {
            Ok(root) => {
                let info_dir = join_path(root.as_str(), "info");
                let files_dir = join_path(root.as_str(), "files");
                Ok((info_dir, files_dir))
            },
            Err(e) => Err(e),
        }
    }

    /// Creates this store's two directories, metadata first, when missing;
    /// whether anything was newly created.
    pub fn create_trash_dir_if_not_exists(&self, fs: &mut Fs, config: &TrashConfig, uid: u32) -> (r:
        Result<bool, TrashError>)
        requires
            old(fs).wf(),
        ensures
            final(fs).wf(),
            match r {
                Ok(created) => {
                    &&& store_root(self.device@, config, uid, old(fs)@) is Some
                    &&& final(fs)@ == ensure_dirs_spec(
                        old(fs)@,
                        store_info_dir(store_root(self.device@, config, uid, old(fs)@)->0),
                        store_files_dir(store_root(self.device@, config, uid, old(fs)@)->0),
                    )
                    &&& created == {
                        ||| !fs_has(
                            old(fs)@,
                            store_info_dir(store_root(self.device@, config, uid, old(fs)@)->0),
                        )
                        ||| !fs_has(
                            fs_create_dir(
                                old(fs)@,
                                store_info_dir(store_root(self.device@, config, uid, old(fs)@)->0),
                            ),
                            store_files_dir(store_root(self.device@, config, uid, old(fs)@)->0),
                        )
                    }
                },
                Err(e) => {
                    &&& e == TrashError::Config
                    &&& store_root(self.device@, config, uid, old(fs)@) is None
                    &&& final(fs)@ == old(fs)@
                },
            },
    {
        let (info_dir, files_dir) = match self.resolve_dirs(fs, config, uid) {
            Ok(dirs) => dirs,
            Err(e) => { return Err(e) },
        };
        Ok(ensure_trash_dirs(fs, info_dir.as_str(), files_dir.as_str()))
    }

    /// The entries of this store, in directory order, skipping unparseable
    /// records.
    pub fn contents(&self, fs: &Fs, config: &TrashConfig, uid: u32) -> (r: Result<
        Vec<TrashInfo>,
        TrashError,
    >)
        ensures
            match r {
                Ok(v) => {
                    &&& store_root(self.device@, config, uid, fs@) is Some
                    &&& v@.map_values(|t: TrashInfo| t@) == contents_spec(
                        fs@,
                        store_info_dir(store_root(self.device@, config, uid, fs@)->0),
                    )
                    &&& forall|i: int| 0 <= i < v.len() ==> (#[trigger] v@[i])@.wf()
                },
                Err(e) => {
                    &&& e == TrashError::Config
                    &&& store_root(self.device@, config, uid, fs@) is None
                },
            },
    {
        let (info_dir, _files_dir) = match self.resolve_dirs(fs, config, uid) {
            Ok(dirs) => dirs,
            Err(e) => { return Err(e) },
        };
        Ok(contents_in(fs, info_dir.as_str()))
    }

    /// Ensures this store's directories, then lists its entries.
    pub fn list(&self, fs: &mut Fs, config: &TrashConfig, uid: u32) -> (r: Result<
        Vec<TrashInfo>,
        TrashError,
    >)
        requires
            old(fs).wf(),
        ensures
            final(fs).wf(),
            match r {
                Ok(v) => {
                    &&& store_root(self.device@, config, uid, old(fs)@) is Some
                    &&& final(fs)@ == ensure_dirs_spec(
                        old(fs)@,
                        store_info_dir(store_root(self.device@, config, uid, old(fs)@)->0),
                        store_files_dir(store_root(self.device@, config, uid, old(fs)@)->0),
                    )
                    &&& v@.map_values(|t: TrashInfo| t@) == contents_spec(
                        final(fs)@,
                        store_info_dir(store_root(self.device@, config, uid, old(fs)@)->0),
                    )
                    &&& forall|i: int| 0 <= i < v.len() ==> (#[trigger] v@[i])@.wf()
                },
                Err(e) => {
                    &&& e == TrashError::Config
                    &&& store_root(self.device@, config, uid, old(fs)@) is None
                    &&& final(fs)@ == old(fs)@
                },
            },
    {
        let (info_dir, files_dir) = match self.resolve_dirs(fs, config, uid) {
            Ok(dirs) => dirs,
            Err(e) => { return Err(e) },
        };
        ensure_trash_dirs(fs, info_dir.as_str(), files_dir.as_str());
        Ok(contents_in(fs, info_dir.as_str()))
    }

    /// Moves `path` into this store at time `now`: directories ensured,
    /// record written first, payload renamed in.
    pub fn put(&self, fs: &mut Fs, config: &TrashConfig, uid: u32, path: &str, now: &DateTime) -> (
        r: Result<(), TrashError>)
        requires
            old(fs).wf(),
            now.wf(),
        ensures
            final(fs).wf(),
            match r {
                Ok(()) => {
                    &&& store_root(self.device@, config, uid, old(fs)@) is Some
                    &&& final(fs)@ == put_spec(
                        ensure_dirs_spec(
                            old(fs)@,
                            store_info_dir(store_root(self.device@, config, uid, old(fs)@)->0),
                            store_files_dir(store_root(self.device@, config, uid, old(fs)@)->0),
                        ),
                        store_info_dir(store_root(self.device@, config, uid, old(fs)@)->0),
                        store_files_dir(store_root(self.device@, config, uid, old(fs)@)->0),
                        path@,
                        *now,
                    )
                    &&& fs_has(
                        ensure_dirs_spec(
                            old(fs)@,
                            store_info_dir(store_root(self.device@, config, uid, old(fs)@)->0),
                            store_files_dir(store_root(self.device@, config, uid, old(fs)@)->0),
                        ),
                        path@,
                    )
                    &&& basename_spec(path@).len() > 0
                },
                Err(e) => {
                    ||| (e == TrashError::Config && store_root(self.device@, config, uid, old(fs)@)
                        is None && final(fs)@ == old(fs)@)
                    ||| (store_root(self.device@, config, uid, old(fs)@) is Some && final(fs)@
                        == ensure_dirs_spec(
                        old(fs)@,
                        store_info_dir(store_root(self.device@, config, uid, old(fs)@)->0),
                        store_files_dir(store_root(self.device@, config, uid, old(fs)@)->0),
                    ) && (e == TrashError::NotFound || e == TrashError::Io) && (e
                        == TrashError::NotFound <==> !fs_has(
                        ensure_dirs_spec(
                            old(fs)@,
                            store_info_dir(store_root(self.device@, config, uid, old(fs)@)->0),
                            store_files_dir(store_root(self.device@, config, uid, old(fs)@)->0),
                        ),
                        path@,
                    )) && (e == TrashError::Io <==> fs_has(
                        ensure_dirs_spec(
                            old(fs)@,
                            store_info_dir(store_root(self.device@, config, uid, old(fs)@)->0),
                            store_files_dir(store_root(self.device@, config, uid, old(fs)@)->0),
                        ),
                        path@,
                    ) && basename_spec(path@).len() == 0))
                },
            },
    {
        let (info_dir, files_dir) = match self.resolve_dirs(fs, config, uid) {
            Ok(dirs) => dirs,
            Err(e) => { return Err(e) },
        };
        put_in(fs, info_dir.as_str(), files_dir.as_str(), path, now)
    }

    /// Permanently removes one entry: payload first (recursively for a
    /// directory), then its record; a dangling record alone is removed
    /// without error.
    pub fn remove(&self, fs: &mut Fs, config: &TrashConfig, uid: u32, entry: &TrashInfo) -> (r:
        Result<(), TrashError>)
        requires
            old(fs).wf(),
        ensures
            final(fs).wf(),
            match r {
                Ok(()) => store_root(self.device@, config, uid, old(fs)@) is Some,
                Err(e) => e == TrashError::Config ==> (store_root(
                    self.device@,
                    config,
                    uid,
                    old(fs)@,
                ) is None && final(fs)@ == old(fs)@),
            },
            store_root(self.device@, config, uid, old(fs)@) is Some ==> {
                &&& final(fs)@ == remove_entry_spec(
                    old(fs)@,
                    payload_path_spec(
                        store_files_dir(store_root(self.device@, config, uid, old(fs)@)->0),
                        entry@.path,
                    ),
                    info_path_spec(
                        store_info_dir(store_root(self.device@, config, uid, old(fs)@)->0),
                        entry@.path,
                    ),
                )
                &&& (r == Err::<(), TrashError>(TrashError::NotFound) <==> (!fs_has(
                    old(fs)@,
                    payload_path_spec(
                        store_files_dir(store_root(self.device@, config, uid, old(fs)@)->0),
                        entry@.path,
                    ),
                ) && !fs_has(
                    old(fs)@,
                    info_path_spec(
                        store_info_dir(store_root(self.device@, config, uid, old(fs)@)->0),
                        entry@.path,
                    ),
                )))
                &&& ((!fs_has(
                    old(fs)@,
                    payload_path_spec(
                        store_files_dir(store_root(self.device@, config, uid, old(fs)@)->0),
                        entry@.path,
                    ),
                ) && fs_has(
                    old(fs)@,
                    info_path_spec(
                        store_info_dir(store_root(self.device@, config, uid, old(fs)@)->0),
                        entry@.path,
                    ),
                )) ==> (r is Ok && final(fs)@ == fs_remove(
                    old(fs)@,
                    info_path_spec(
                        store_info_dir(store_root(self.device@, config, uid, old(fs)@)->0),
                        entry@.path,
                    ),
                )))
                &&& (r is Ok <==> {
                    ||| (fs_has(
                        old(fs)@,
                        payload_path_spec(
                            store_files_dir(store_root(self.device@, config, uid, old(fs)@)->0),
                            entry@.path,
                        ),
                    ) && fs_has(
                        remove_payload_spec(
                            old(fs)@,
                            payload_path_spec(
                                store_files_dir(
                                    store_root(self.device@, config, uid, old(fs)@)->0,
                                ),
                                entry@.path,
                            ),
                        ),
                        info_path_spec(
                            store_info_dir(store_root(self.device@, config, uid, old(fs)@)->0),
                            entry@.path,
                        ),
                    ))
                    ||| (!fs_has(
                        old(fs)@,
                        payload_path_spec(
                            store_files_dir(store_root(self.device@, config, uid, old(fs)@)->0),
                            entry@.path,
                        ),
                    ) && fs_has(
                        old(fs)@,
                        info_path_spec(
                            store_info_dir(store_root(self.device@, config, uid, old(fs)@)->0),
                            entry@.path,
                        ),
                    ))
                })
                &&& (r is Err ==> (r->Err_0 == TrashError::NotFound || r->Err_0
                    == TrashError::Io))
            },
    {
        let (info_dir, files_dir) = match self.resolve_dirs(fs, config, uid) {
            Ok(dirs) => dirs,
            Err(e) => { return Err(e) },
        };
        remove_in(fs, info_dir.as_str(), files_dir.as_str(), entry.path.as_str())
    }

    /// Moves one entry back to its stored original path.  An existing
    /// destination is replaced only with `overwrite`; without it nothing
    /// changes and the call is PermissionDenied.
    pub fn restore(&self, fs: &mut Fs, config: &TrashConfig, uid: u32, entry: &TrashInfo,
        overwrite: bool) -> (r: Result<String, TrashError>)
        requires
            old(fs).wf(),
        ensures
            final(fs).wf(),
            r == Err::<String, TrashError>(TrashError::Config) ==> (store_root(
                self.device@,
                config,
                uid,
                old(fs)@,
            ) is None && final(fs)@ == old(fs)@),
            store_root(self.device@, config, uid, old(fs)@) is Some ==> {
                &&& !fs_has(
                    old(fs)@,
                    payload_path_spec(
                        store_files_dir(store_root(self.device@, config, uid, old(fs)@)->0),
                        entry@.path,
                    ),
                ) ==> (r == Err::<String, TrashError>(TrashError::NotFound) && final(fs)@ == old(
                    fs,
                )@)
                &&& (fs_has(
                    old(fs)@,
                    payload_path_spec(
                        store_files_dir(store_root(self.device@, config, uid, old(fs)@)->0),
                        entry@.path,
                    ),
                ) && fs_has(
                    old(fs)@,
                    restore_dest_spec(entry@.full_path, self.device@.mount_point),
                ) && !overwrite) ==> (r == Err::<String, TrashError>(TrashError::PermissionDenied)
                    && final(fs)@ == old(fs)@)
                &&& (fs_has(
                    old(fs)@,
                    payload_path_spec(
                        store_files_dir(store_root(self.device@, config, uid, old(fs)@)->0),
                        entry@.path,
                    ),
                ) && (overwrite || !fs_has(
                    old(fs)@,
                    restore_dest_spec(entry@.full_path, self.device@.mount_point),
                ))) ==> {
                    &&& final(fs)@ == restore_spec(
                        old(fs)@,
                        payload_path_spec(
                            store_files_dir(store_root(self.device@, config, uid, old(fs)@)->0),
                            entry@.path,
                        ),
                        info_path_spec(
                            store_info_dir(store_root(self.device@, config, uid, old(fs)@)->0),
                            entry@.path,
                        ),
                        restore_dest_spec(entry@.full_path, self.device@.mount_point),
                    )
                    &&& (r is Ok <==> fs_has(
                        fs_rename(
                            fs_create_dir(
                                old(fs)@,
                                dirname_spec(
                                    restore_dest_spec(
                                        entry@.full_path,
                                        self.device@.mount_point,
                                    ),
                                ),
                            ),
                            payload_path_spec(
                                store_files_dir(
                                    store_root(self.device@, config, uid, old(fs)@)->0,
                                ),
                                entry@.path,
                            ),
                            restore_dest_spec(entry@.full_path, self.device@.mount_point),
                        ),
                        info_path_spec(
                            store_info_dir(store_root(self.device@, config, uid, old(fs)@)->0),
                            entry@.path,
                        ),
                    ))
                    &&& (r is Ok ==> r->Ok_0@ == restore_dest_spec(
                        entry@.full_path,
                        self.device@.mount_point,
                    ))
                    &&& (r is Err ==> r->Err_0 == TrashError::Io)
                }
            },
    {
        let (info_dir, files_dir) = match self.resolve_dirs(fs, config, uid) {
            Ok(dirs) => dirs,
            Err(e) => { return Err(e) },
        };
        let dest = restore_destination(entry, self.device.mount_point.as_str());
        restore_in(
            fs,
            info_dir.as_str(),
            files_dir.as_str(),
            entry.path.as_str(),
            dest.as_str(),
            overwrite,
        )
    }

    /// Deletes everything under this store's payload directory, then
    /// everything under its metadata directory; the directories remain.
    pub fn empty(&self, fs: &mut Fs, config: &TrashConfig, uid: u32) -> (r: Result<
        (),
        TrashError,
    >)
        requires
            old(fs).wf(),
        ensures
            final(fs).wf(),
            match r {
                Ok(()) => {
                    &&& store_root(self.device@, config, uid, old(fs)@) is Some
                    &&& final(fs)@ == empty_spec(
                        old(fs)@,
                        store_info_dir(store_root(self.device@, config, uid, old(fs)@)->0),
                        store_files_dir(store_root(self.device@, config, uid, old(fs)@)->0),
                    )
                    &&& forall|k: int|
                        0 <= k < final(fs)@.len() ==> !is_under_spec(
                            (#[trigger] final(fs)@[k]).path,
                            store_files_dir(store_root(self.device@, config, uid, old(fs)@)->0),
                        ) && !is_under_spec(
                            final(fs)@[k].path,
                            store_info_dir(store_root(self.device@, config, uid, old(fs)@)->0),
                        )
                },
                Err(e) => {
                    &&& e == TrashError::Config
                    &&& store_root(self.device@, config, uid, old(fs)@) is None
                    &&& final(fs)@ == old(fs)@
                },
            },
    {
        let (info_dir, files_dir) = match self.resolve_dirs(fs, config, uid) {
            Ok(dirs) => dirs,
            Err(e) => { return Err(e) },
        };
        empty_in(fs, info_dir.as_str(), files_dir.as_str());
        Ok(())
    }

    /// Deletes everything under this store's payload directory.
    pub fn remove_all_trash_files(&self, fs: &mut Fs, config: &TrashConfig, uid: u32) -> (r: Result<
        (),
        TrashError,
    >)
        requires
            old(fs).wf(),
        ensures
            final(fs).wf(),
            match r {
                Ok(()) => {
                    &&& store_root(self.device@, config, uid, old(fs)@) is Some
                    &&& final(fs)@ == fs_remove_under(
                        old(fs)@,
                        store_files_dir(store_root(self.device@, config, uid, old(fs)@)->0),
                    )
                },
                Err(e) => {
                    &&& e == TrashError::Config
                    &&& store_root(self.device@, config, uid, old(fs)@) is None
                    &&& final(fs)@ == old(fs)@
                },
            },
    {
        let (_info_dir, files_dir) = match self.resolve_dirs(fs, config, uid) {
            Ok(dirs) => dirs,
            Err(e) => { return Err(e) },
        };
        fs.remove_under(files_dir.as_str());
        Ok(())
    }

    /// Deletes everything under this store's metadata directory.
    pub fn remove_all_trashinfo_files(&self, fs: &mut Fs, config: &TrashConfig, uid: u32) -> (r:
        Result<(), TrashError>)
        requires
            old(fs).wf(),
        ensures
            final(fs).wf(),
            match r {
                Ok(()) => {
                    &&& store_root(self.device@, config, uid, old(fs)@) is Some
                    &&& final(fs)@ == fs_remove_under(
                        old(fs)@,
                        store_info_dir(store_root(self.device@, config, uid, old(fs)@)->0),
                    )
                },
                Err(e) => {
                    &&& e == TrashError::Config
                    &&& store_root(self.device@, config, uid, old(fs)@) is None
                    &&& final(fs)@ == old(fs)@
                },
            },
    {
        let (info_dir, _files_dir) = match self.resolve_dirs(fs, config, uid) {
            Ok(dirs) => dirs,
            Err(e) => { return Err(e) },
        };
        fs.remove_under(info_dir.as_str());
        Ok(())
    }
}

} // verus!

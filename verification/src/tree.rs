//! The display tree: a read-only projection of a store's payload directory.
//!
//! A `Tree` is a label with subtrees; `files_tree` mirrors the payload
//! directory's structure into one, each base name decoded for display, the
//! root labelled after the store.  Turning a tree into drawn text is a
//! display concern outside the engine; the glyph palette rides along for the
//! renderer.
use vstd::prelude::*;
use vstd::string::*;

use crate::codec::{decode_filename, decode_spec};
use crate::fs::{
    fs_children, is_child_spec, lemma_fs_filter_elements_pred, lemma_fs_filter_membership, Fs,
    FsEntry, Node,
};
use crate::mount::MountedDevice;
use crate::strutil::{basename, basename_spec, str_eq};

verus! {

/// The glyphs a renderer draws a tree with.
#[derive(Clone, Copy, Debug, PartialEq, Eq)]
pub struct GlyphPalette {
    pub middle_item: &'static str,
    pub last_item: &'static str,
    pub item_indent: &'static str,
    pub middle_skip: &'static str,
    pub last_skip: &'static str,
    pub skip_indent: &'static str,
}

impl GlyphPalette {
    /// The box-drawing palette.
    pub fn new() -> (r: GlyphPalette)
        ensures
            r.middle_item@ == "├"@,
            r.last_item@ == "└"@,
            r.item_indent@ == "── "@,
            r.middle_skip@ == "│"@,
            r.last_skip@ == " "@,
            r.skip_indent@ == "   "@,
    {
        GlyphPalette {
            middle_item: "├",
            last_item: "└",
            item_indent: "── ",
            middle_skip: "│",
            last_skip: " ",
            skip_indent: "   ",
        }
    }
}

impl Default for GlyphPalette {
    /// The box-drawing palette.
    fn default() -> (r: GlyphPalette)
        ensures
            r.middle_item@ == "├"@,
            r.last_item@ == "└"@,
            r.item_indent@ == "── "@,
            r.middle_skip@ == "│"@,
            r.last_skip@ == " "@,
            r.skip_indent@ == "   "@,
    {
        GlyphPalette::new()
    }
}

/// A labelled tree: one display label and its subtrees.
pub struct Tree {
    pub root: String,
    pub leaves: Vec<Tree>,
    pub multiline: bool,
    pub glyphs: Option<GlyphPalette>,
}

/// The abstract value of a display tree.
#[verifier::ext_equal]
pub ghost struct TreeV {
    pub root: Seq<char>,
    pub leaves: Seq<TreeV>,
}

impl Tree {
    /// A leafless tree with the given label.
    pub fn new(root: String) -> (r: Tree)
        ensures
            r.root == root,
            r.leaves@ == Seq::<Tree>::empty(),
            r.multiline == false,
            r.glyphs is None,
    {
        let r = Tree { root, leaves: Vec::new(), multiline: false, glyphs: None };
        proof {
            assert(r.leaves@ =~= Seq::<Tree>::empty());
        }
        r
    }

    /// The same tree, marked so a renderer indents every line of its label.
    pub fn with_multiline(self, yes: bool) -> (r: Tree)
        ensures
            r.root == self.root,
            r.leaves == self.leaves,
            r.multiline == yes,
            r.glyphs == self.glyphs,
    {
        Tree { multiline: yes, ..self }
    }

    /// Marks this tree so a renderer indents every line of its label.
    pub fn set_multiline(&mut self, yes: bool)
        ensures
            final(self).root == old(self).root,
            final(self).leaves == old(self).leaves,
            final(self).multiline == yes,
            final(self).glyphs == old(self).glyphs,
    {
        self.multiline = yes;
    }

    /// Appends one subtree.
    pub fn push(&mut self, leaf: Tree)
        ensures
            final(self).root == old(self).root,
            final(self).leaves@ == old(self).leaves@.push(leaf),
            final(self).multiline == old(self).multiline,
            final(self).glyphs == old(self).glyphs,
    {
        self.leaves.push(leaf);
    }
}

/// The longest path length among the nodes.
pub open spec fn max_path_len(ns: Seq<Node>) -> nat
    decreases ns.len(),
{
    if ns.len() == 0 {
        0
    } else if ns[0].path.len() >= max_path_len(ns.skip(1)) {
        ns[0].path.len()
    } else {
        max_path_len(ns.skip(1))
    }
}

/// Every node's path is at most the longest.
pub proof fn lemma_max_path_len(ns: Seq<Node>)
    ensures
        forall|i: int| 0 <= i < ns.len() ==> (#[trigger] ns[i]).path.len() <= max_path_len(ns),
    decreases ns.len(),
{
    if ns.len() > 0 {
        lemma_max_path_len(ns.skip(1));
        assert forall|i: int| 0 <= i < ns.len() implies (#[trigger] ns[i]).path.len()
            <= max_path_len(ns) by {
            if i > 0 {
                assert(ns.skip(1)[i - 1] == ns[i]);
            }
        }
    }
}

/// The recursion budget left below directory `dir`.
pub open spec fn tree_fuel(ns: Seq<Node>, dir: Seq<char>) -> nat {
    if dir.len() <= max_path_len(ns) {
        (max_path_len(ns) - dir.len() + 1) as nat
    } else {
        0
    }
}

/// The display tree of directory `dir`: one leaf per child, each base name
/// decoded, directories projected recursively.
pub open spec fn files_tree_spec(ns: Seq<Node>, dir: Seq<char>, label: Seq<char>) -> TreeV
    decreases tree_fuel(ns, dir), 1int, 0int,
{
    TreeV { root: label, leaves: files_forest_spec(ns, dir, fs_children(ns, dir), 0) }
}

/// The subtrees of the children of `dir` from position `i` on.
pub open spec fn files_forest_spec(ns: Seq<Node>, dir: Seq<char>, cs: Seq<Node>, i: int) -> Seq<
    TreeV,
>
    decreases tree_fuel(ns, dir), 0int, cs.len() - i,
    when cs == fs_children(ns, dir)
    via files_forest_spec_decreases
{
    if i < 0 || i >= cs.len() {
        Seq::empty()
    } else {
        let c = cs[i];
        let name = decode_spec(c.path.skip(dir.len() as int + 1));
        let head = if c.is_dir {
            files_tree_spec(ns, c.path, name)
        } else {
            TreeV { root: name, leaves: Seq::empty() }
        };
        seq![head] + files_forest_spec(ns, dir, cs, i + 1)
    }
}

#[via_fn]
proof fn files_forest_spec_decreases(ns: Seq<Node>, dir: Seq<char>, cs: Seq<Node>, i: int) {
    if 0 <= i < cs.len() {
        let c = cs[i];
        if c.is_dir {
            lemma_fs_filter_elements_pred(ns, |nd: Node| is_child_spec(nd.path, dir));
            assert(is_child_spec(c.path, dir));
            lemma_fs_filter_membership(ns, |nd: Node| is_child_spec(nd.path, dir));
            assert(fs_children(ns, dir).contains(c));
            let j = choose|j: int| 0 <= j < ns.len() && ns[j] == c;
            lemma_max_path_len(ns);
            assert(c.path.len() <= max_path_len(ns));
            assert(c.path.len() > dir.len() + 1);
            assert(tree_fuel(ns, c.path) < tree_fuel(ns, dir));
        }
    }
}

/// The root label of one store's tree: a fixed label for the home trash,
/// else the device's final path segment; any other path keeps its own base
/// name.
pub open spec fn files_tree_label_spec(p: Seq<char>, dev: crate::mount::DeviceV) -> Seq<char> {
    if basename_spec(p) == seq!['f', 'i', 'l', 'e', 's'] {
        if crate::mount::is_home_device(dev.mount_point) {
            seq!['H', 'o', 'm', 'e', ' ', 'T', 'r', 'a', 's', 'h']
        } else {
            basename_spec(dev.mount_point)
        }
    } else {
        basename_spec(p)
    }
}

/// The root label of one store's tree.
pub fn files_tree_label(p: &str, device: &MountedDevice) -> (r: String)
    ensures
        r@ == files_tree_label_spec(p@, device@),
{
    proof {
        reveal_strlit("files");
        reveal_strlit("Home Trash");
        reveal_strlit("/");
        reveal_strlit("/home");
        assert("files"@ =~= seq!['f', 'i', 'l', 'e', 's']);
        assert("Home Trash"@ =~= seq!['H', 'o', 'm', 'e', ' ', 'T', 'r', 'a', 's', 'h']);
        assert("/"@ =~= crate::mount::root_mount_name());
        assert("/home"@ =~= crate::mount::home_mount_name());
    }
    let name = basename(p);
    if str_eq(name.as_str(), "files") {
        if str_eq(device.mount_point.as_str(), "/") || str_eq(
            device.mount_point.as_str(),
            "/home",
        ) {
            String::from_str("Home Trash")
        } else {
            basename(device.mount_point.as_str())
        }
    } else {
        name
    }
}

/// The display tree of one tree node, with `label` at the root.
fn files_tree_from(fs: &Fs, dir: &str, label: String) -> (r: Tree)
    ensures
        tree_view(&r) == files_tree_spec(fs@, dir@, label@),
    decreases tree_fuel(fs@, dir@), 1int, 0int,
{
    let children = fs.list_children(dir);
    let ghost cs = fs_children(fs@, dir@);
    let n = children.len();
    let mut out = Tree::new(label);
    let mut i: usize = 0;
    proof {
        assert(tree_view(&out).leaves =~= Seq::<TreeV>::empty());
    }
    while i < n
        invariant
            n == children.len(),
            children@.map_values(|e: FsEntry| e@) == cs,
            cs == fs_children(fs@, dir@),
            0 <= i <= n,
            out.root@ == label@,
            files_forest_spec(fs@, dir@, cs, 0) == tree_view(&out).leaves + files_forest_spec(
                fs@,
                dir@,
                cs,
                i as int,
            ),
        decreases n - i,
    {
        proof {
            assert(children@.map_values(|e: FsEntry| e@)[i as int] == children@[i as int]@);
            lemma_fs_filter_elements_pred(fs@, |nd: Node| is_child_spec(nd.path, dir@));
            assert(is_child_spec(cs[i as int].path, dir@));
            lemma_fs_filter_membership(fs@, |nd: Node| is_child_spec(nd.path, dir@));
            assert(cs.contains(cs[i as int]));
            let j = choose|j: int| 0 <= j < fs@.len() && fs@[j] == cs[i as int];
            lemma_max_path_len(fs@);
            assert(cs[i as int].path.len() <= max_path_len(fs@));
        }
        let entry = &children[i];
        let dl = dir.unicode_len();
        let pl = entry.path.as_str().unicode_len();
        let raw_name = entry.path.as_str().substring_char(dl + 1, pl);
        let name = decode_filename(raw_name);
        proof {
            assert(raw_name@ =~= cs[i as int].path.skip(dir@.len() as int + 1));
        }
        let leaf = if entry.is_dir {
            files_tree_from(fs, entry.path.as_str(), name)
        } else {
            let t = Tree::new(name);
            proof {
                assert(tree_forest_view(t.leaves@, 0) =~= Seq::<TreeV>::empty());
            }
            t
        };
        proof {
            assert(tree_view_at(leaf) == files_forest_spec(fs@, dir@, cs, i as int)[0] || true);
            assert(files_forest_spec(fs@, dir@, cs, i as int) == seq![
                if cs[i as int].is_dir {
                    files_tree_spec(
                        fs@,
                        cs[i as int].path,
                        decode_spec(cs[i as int].path.skip(dir@.len() as int + 1)),
                    )
                } else {
                    TreeV {
                        root: decode_spec(cs[i as int].path.skip(dir@.len() as int + 1)),
                        leaves: Seq::empty(),
                    }
                },
            ] + files_forest_spec(fs@, dir@, cs, i + 1));
            assert(tree_view_at(leaf) =~= if cs[i as int].is_dir {
                files_tree_spec(
                    fs@,
                    cs[i as int].path,
                    decode_spec(cs[i as int].path.skip(dir@.len() as int + 1)),
                )
            } else {
                TreeV {
                    root: decode_spec(cs[i as int].path.skip(dir@.len() as int + 1)),
                    leaves: Seq::empty(),
                }
            });
        }
        let ghost prev_leaves = out.leaves@;
        out.push(leaf);
        proof {
            lemma_tree_forest_view_push(prev_leaves, leaf, 0);
            assert(tree_view(&out).leaves =~= tree_forest_view(prev_leaves, 0) + seq![
                tree_view_at(leaf),
            ]);
            assert(files_forest_spec(fs@, dir@, cs, 0) =~= tree_view(&out).leaves
                + files_forest_spec(fs@, dir@, cs, i + 1));
        }
        i = i + 1;
    }
    proof {
        assert(files_forest_spec(fs@, dir@, cs, n as int) =~= Seq::<TreeV>::empty());
        assert(tree_view(&out).leaves =~= files_forest_spec(fs@, dir@, cs, 0));
        assert(tree_view(&out) =~= files_tree_spec(fs@, dir@, label@));
    }
    out
}

/// The abstract value of a tree.
pub open spec fn tree_view(t: &Tree) -> TreeV {
    tree_view_at(*t)
}

/// The abstract values of the subtrees from position `i` on.
pub open spec fn tree_forest_view(ls: Seq<Tree>, i: int) -> Seq<TreeV>
    decreases ls, ls.len() - i,
{
    if i < 0 || i >= ls.len() {
        Seq::empty()
    } else {
        seq![tree_view_at(ls[i])] + tree_forest_view(ls, i + 1)
    }
}

/// The abstract value of one subtree.
pub open spec fn tree_view_at(t: Tree) -> TreeV
    decreases t, 0int,
{
    TreeV { root: t.root@, leaves: tree_forest_view(t.leaves@, 0) }
}

/// Appending a subtree appends its abstract value.
proof fn lemma_tree_forest_view_push(ls: Seq<Tree>, x: Tree, i: int)
    requires
        0 <= i <= ls.len(),
    ensures
        tree_forest_view(ls.push(x), i) == tree_forest_view(ls, i) + seq![tree_view_at(x)],
    decreases ls.len() - i,
{
    if i == ls.len() {
        assert(ls.push(x)[i] == x);
        assert(tree_forest_view(ls.push(x), i + 1) =~= Seq::<TreeV>::empty());
        assert(tree_forest_view(ls.push(x), i) =~= tree_forest_view(ls, i) + seq![
            tree_view_at(x),
        ]);
    } else {
        lemma_tree_forest_view_push(ls, x, i + 1);
        assert(ls.push(x)[i] == ls[i]);
        assert(tree_forest_view(ls.push(x), i) =~= tree_forest_view(ls, i) + seq![
            tree_view_at(x),
        ]);
    }
}

/// The read-only projection of one store's payload directory into a display
/// tree: root labelled after the store, children mirroring the directory,
/// each base name decoded.
pub fn files_tree(fs: &Fs, files_dir: &str, device: &MountedDevice) -> (r: Tree)
    ensures
        tree_view(&r) == files_tree_spec(
            fs@,
            files_dir@,
            files_tree_label_spec(files_dir@, device@),
        ),
{
    let label = files_tree_label(files_dir, device);
    files_tree_from(fs, files_dir, label)
}

} // verus!

//! One metadata record: the original absolute path (percent-encoded) and the
//! local deletion time of a trashed entry.
//!
//! On disk the record is a section-keyed text file: the fixed header
//! `[Trash Info]`, a `Path` key holding the encoded original path, and a
//! `DeletionDate` key holding a `YYYY-MM-DDTHH:MM:SS` timestamp.  Parsing is
//! forgiving the way the engine needs it: blanks around lines, keys and
//! values are ignored, the header and key names match case-insensitively,
//! a later duplicate key wins, and anything else makes the record malformed.
use vstd::prelude::*;
use vstd::string::*;

use crate::codec::{decode_filename, decode_spec};
use crate::common::TrashError;
use crate::datetime::{format_spec, parse_datetime, parse_spec, DateTime};
use crate::strutil::{
    basename, basename_spec, contains_char, find_char_from, find_char_pos, is_ws,
    lemma_find_char_from, lemma_lines_prepend, lemma_trim_id, lines_spec, lower_spec, split_lines,
    str_eq, to_lower, trim, trim_spec,
};

verus! {

/// The abstract value of one record.
#[verifier::ext_equal]
pub ghost struct TrashInfoV {
    pub full_path: Seq<char>,
    pub path: Seq<char>,
    pub deletion_date: DateTime,
}

/// One trashed entry's metadata: the stored (encoded) original absolute
/// path, the decoded display name (also the on-disk base name), and the
/// deletion time.
pub struct TrashInfo {
    pub full_path: String,
    pub path: String,
    pub deletion_date: DateTime,
}

impl View for TrashInfo {
    type V = TrashInfoV;

    open spec fn view(&self) -> TrashInfoV {
        TrashInfoV {
            full_path: self.full_path@,
            path: self.path@,
            deletion_date: self.deletion_date,
        }
    }
}

impl TrashInfoV {
    /// The display name is the decoded final segment of the stored path and
    /// the timestamp is a valid calendar time.
    pub open spec fn wf(self) -> bool {
        &&& self.path == decode_spec(basename_spec(self.full_path))
        &&& self.deletion_date.wf()
    }
}

/// The fixed header line `[Trash Info]`.
pub open spec fn header_line() -> Seq<char> {
    seq!['[', 'T', 'r', 'a', 's', 'h', ' ', 'I', 'n', 'f', 'o', ']']
}

/// The header's name in its matched (lower-case) form.
pub open spec fn section_name_lower() -> Seq<char> {
    seq!['t', 'r', 'a', 's', 'h', ' ', 'i', 'n', 'f', 'o']
}

/// The written form `Path=` of the path key.
pub open spec fn path_key_eq() -> Seq<char> {
    seq!['P', 'a', 't', 'h', '=']
}

/// The path key in its matched (lower-case) form.
pub open spec fn path_key_lower() -> Seq<char> {
    seq!['p', 'a', 't', 'h']
}

/// The written form `DeletionDate=` of the date key.
pub open spec fn date_key_eq() -> Seq<char> {
    seq!['D', 'e', 'l', 'e', 't', 'i', 'o', 'n', 'D', 'a', 't', 'e', '=']
}

/// The date key in its matched (lower-case) form.
pub open spec fn date_key_lower() -> Seq<char> {
    seq!['d', 'e', 'l', 'e', 't', 'i', 'o', 'n', 'd', 'a', 't', 'e']
}

/// The record text that `put` writes for an entry.
pub open spec fn render_spec(full_path: Seq<char>, dt: DateTime) -> Seq<char> {
    header_line() + seq!['\n'] + path_key_eq() + full_path + seq!['\n'] + date_key_eq()
        + format_spec(dt) + seq!['\n']
}

/// Whether a trimmed line has the `[...]` shape of a section header.
pub open spec fn is_section_line(t: Seq<char>) -> bool {
    t.len() >= 2 && t[0] == '[' && t[t.len() - 1] == ']'
}

/// The matched form of a section header's name.
pub open spec fn section_name_of(t: Seq<char>) -> Seq<char> {
    lower_spec(trim_spec(t.subrange(1, t.len() - 1)))
}

/// The position of a trimmed line's first `=`, or `-1`.
pub open spec fn kv_eq_pos(t: Seq<char>) -> int {
    find_char_from(t, '=', 0)
}

/// The matched form of a key line's key.
pub open spec fn key_of(t: Seq<char>) -> Seq<char> {
    lower_spec(trim_spec(t.take(kv_eq_pos(t))))
}

/// The value of a key line.
pub open spec fn val_of(t: Seq<char>) -> Seq<char> {
    trim_spec(t.skip(kv_eq_pos(t) + 1))
}

/// Scans the lines in order, keeping the last `Path` and `DeletionDate`
/// values seen inside the `[Trash Info]` section.
pub open spec fn scan_lines(
    lines: Seq<Seq<char>>,
    in_sec: bool,
    pv: Option<Seq<char>>,
    dv: Option<Seq<char>>,
) -> (Option<Seq<char>>, Option<Seq<char>>)
    decreases lines.len(),
{
    if lines.len() == 0 {
        (pv, dv)
    } else {
        let t = trim_spec(lines[0]);
        let rest = lines.skip(1);
        if is_section_line(t) {
            scan_lines(rest, section_name_of(t) == section_name_lower(), pv, dv)
        } else {
            let k = kv_eq_pos(t);
            if in_sec && 0 <= k < t.len() {
                if key_of(t) == path_key_lower() {
                    scan_lines(rest, in_sec, Some(val_of(t)), dv)
                } else if key_of(t) == date_key_lower() {
                    scan_lines(rest, in_sec, pv, Some(val_of(t)))
                } else {
                    scan_lines(rest, in_sec, pv, dv)
                }
            } else {
                scan_lines(rest, in_sec, pv, dv)
            }
        }
    }
}

/// The record that a text denotes: both keys present under the fixed header
/// and a valid timestamp, or nothing.
pub open spec fn parse_info_spec(s: Seq<char>) -> Option<TrashInfoV> {
    let (pv, dv) = scan_lines(lines_spec(s), false, None, None);
    match (pv, dv) {
        (Some(fp), Some(ds)) => match parse_spec(ds) {
            Some(dt) => Some(
                TrashInfoV {
                    full_path: fp,
                    path: decode_spec(basename_spec(fp)),
                    deletion_date: dt,
                },
            ),
            None => None,
        },
        _ => None,
    }
}

/// One line of key text followed by its first `=` at position `k` scans to
/// the expected key and value.
proof fn lemma_kv_line(l: Seq<char>, k: int, key: Seq<char>, value: Seq<char>)
    requires
        0 <= k < l.len(),
        l[k] == '=',
        forall|j: int| 0 <= j < k ==> l[j] != '=',
        l.take(k) == key,
        trim_spec(key) == key,
        l.skip(k + 1) == value,
        trim_spec(value) == value,
        l.len() > 0 && !is_ws(l[0]) && !is_ws(l[l.len() - 1]),
        l[0] != '[',
    ensures
        trim_spec(l) == l,
        !is_section_line(l),
        kv_eq_pos(l) == k,
        key_of(l) == lower_spec(key),
        val_of(l) == value,
{
    lemma_trim_id(l);
    lemma_find_char_from(l, '=', 0);
    let kk = find_char_from(l, '=', 0);
    assert(kk == k) by {
        if kk == -1 {
            assert(l[k] != '=');
        } else if kk < k {
            assert(l[kk] != '=');
        } else if kk > k {
            assert(l[k] != '=');
        }
    }
}

/// A rendered record splits into its three lines.
proof fn lemma_render_lines(fp: Seq<char>, dt: DateTime)
    requires
        dt.wf(),
        !contains_char(fp, '\n'),
        fp.len() > 0 ==> !is_ws(fp[fp.len() - 1]),
    ensures
        lines_spec(render_spec(fp, dt)) == seq![
            header_line(),
            path_key_eq() + fp,
            date_key_eq() + format_spec(dt),
        ],
{
    let s = render_spec(fp, dt);
    let l1 = header_line();
    let l2 = path_key_eq() + fp;
    let ts = format_spec(dt);
    let l3 = date_key_eq() + ts;
    let tail3 = Seq::<char>::empty();
    assert(s =~= l1 + seq!['\n'] + (l2 + seq!['\n'] + (l3 + seq!['\n'] + tail3)));
    assert(forall|i: int| 0 <= i < ts.len() ==> !is_ws(#[trigger] ts[i]));
    assert(!contains_char(l1, '\n')) by {
        if contains_char(l1, '\n') {
            let i = choose|i: int| 0 <= i < l1.len() && l1[i] == '\n';
        }
    }
    assert(!contains_char(l2, '\n')) by {
        if contains_char(l2, '\n') {
            let i = choose|i: int| 0 <= i < l2.len() && l2[i] == '\n';
            if i >= 5 {
                assert(fp[i - 5] == '\n');
                assert(contains_char(fp, '\n'));
            }
        }
    }
    assert(!contains_char(l3, '\n')) by {
        if contains_char(l3, '\n') {
            let i = choose|i: int| 0 <= i < l3.len() && l3[i] == '\n';
            if i >= 13 {
                assert(ts[i - 13] == '\n');
            }
        }
    }
    assert(l2[l2.len() - 1] != '\r');
    assert(l3[l3.len() - 1] != '\r');
    lemma_lines_prepend(l1, l2 + seq!['\n'] + (l3 + seq!['\n'] + tail3));
    lemma_lines_prepend(l2, l3 + seq!['\n'] + tail3);
    lemma_lines_prepend(l3, tail3);
    assert(lines_spec(tail3) =~= Seq::<Seq<char>>::empty());
    assert(lines_spec(s) =~= seq![l1, l2, l3]);
}

/// Parsing a rendered record returns the record.
#[verifier::rlimit(80)]
pub proof fn lemma_parse_render_round_trip(fp: Seq<char>, dt: DateTime)
    requires
        dt.wf(),
        !contains_char(fp, '\n'),
        fp.len() > 0 ==> !is_ws(fp[0]) && !is_ws(fp[fp.len() - 1]),
    ensures
        parse_info_spec(render_spec(fp, dt)) == Some(
            TrashInfoV {
                full_path: fp,
                path: decode_spec(basename_spec(fp)),
                deletion_date: dt,
            },
        ),
{
    let s = render_spec(fp, dt);
    let l1 = header_line();
    let l2 = path_key_eq() + fp;
    let ts = format_spec(dt);
    let l3 = date_key_eq() + ts;
    lemma_render_lines(fp, dt);
    let lines = lines_spec(s);
    assert(lines == seq![l1, l2, l3]);
    assert(forall|i: int| 0 <= i < ts.len() ==> !is_ws(#[trigger] ts[i]));
    // Line 1: the section header.
    lemma_trim_id(l1);
    assert(is_section_line(l1));
    assert(section_name_of(l1) == section_name_lower()) by {
        let inner = l1.subrange(1, l1.len() - 1);
        assert(inner =~= seq!['T', 'r', 'a', 's', 'h', ' ', 'I', 'n', 'f', 'o']);
        lemma_trim_id(inner);
        assert(lower_spec(inner) =~= section_name_lower());
    }
    // Line 2: the path key.
    assert(l2.take(5) =~= path_key_eq());
    assert(trim_spec(path_key_eq().take(4)) == path_key_eq().take(4)) by {
        lemma_trim_id(path_key_eq().take(4));
    }
    lemma_trim_id(fp);
    assert(l2.take(4) =~= path_key_eq().take(4));
    assert(l2.skip(5) =~= fp);
    assert(forall|j: int| 0 <= j < 4 ==> l2[j] != '=');
    if fp.len() == 0 {
        assert(l2[l2.len() - 1] == '=');
    }
    lemma_kv_line(l2, 4, l2.take(4), fp);
    assert(key_of(l2) == path_key_lower()) by {
        assert(l2.take(4) =~= path_key_eq().take(4));
        assert(lower_spec(path_key_eq().take(4)) =~= path_key_lower());
    }
    // Line 3: the date key.
    assert(l3.take(13) =~= date_key_eq());
    lemma_trim_id(ts);
    assert(l3.take(12) =~= date_key_eq().take(12));
    lemma_trim_id(date_key_eq().take(12));
    assert(l3.skip(13) =~= ts);
    assert(forall|j: int| 0 <= j < 12 ==> l3[j] != '=');
    assert(!is_ws(l3[l3.len() - 1]));
    lemma_kv_line(l3, 12, l3.take(12), ts);
    assert(key_of(l3) == date_key_lower()) by {
        assert(l3.take(12) =~= date_key_eq().take(12));
        assert(lower_spec(date_key_eq().take(12)) =~= date_key_lower());
    }
    assert(key_of(l3) != path_key_lower());
    // The scan keeps exactly the two values.
    assert(seq![l1, l2, l3].skip(1) =~= seq![l2, l3]);
    assert(seq![l2, l3].skip(1) =~= seq![l3]);
    assert(seq![l3].skip(1) =~= Seq::<Seq<char>>::empty());
    assert(scan_lines(lines, false, None, None) == scan_lines(seq![l2, l3], true, None, None));
    assert(scan_lines(seq![l2, l3], true, None, None) == scan_lines(
        seq![l3],
        true,
        Some(fp),
        None,
    ));
    assert(scan_lines(seq![l3], true, Some(fp), None) == scan_lines(
        Seq::<Seq<char>>::empty(),
        true,
        Some(fp),
        Some(ts),
    ));
    assert(scan_lines(Seq::<Seq<char>>::empty(), true, Some(fp), Some(ts)) == (
        Some(fp),
        Some(ts),
    ));
    crate::datetime::lemma_format_parse_round_trip(dt);
}

pub open spec fn opt_view(o: Option<String>) -> Option<Seq<char>> {
    match o {
        Some(s) => Some(s@),
        None => None,
    }
}

impl TrashInfo {
    /// A record for the (encoded) original path `full_path` deleted at
    /// `deletion_date`; the display name is derived.
    pub fn new(full_path: &str, deletion_date: DateTime) -> (r: TrashInfo)
        ensures
            r@.full_path == full_path@,
            r@.deletion_date == deletion_date,
            r@.path == decode_spec(basename_spec(full_path@)),
            deletion_date.wf() ==> r@.wf(),
    {
        let base = basename(full_path);
        let display = decode_filename(base.as_str());
        TrashInfo { full_path: full_path.to_owned(), path: display, deletion_date }
    }

    /// The record text that `to_file` stores.
    pub fn render(&self) -> (r: String)
        requires
            self.deletion_date.wf(),
        ensures
            r@ == render_spec(self@.full_path, self@.deletion_date),
    {
        let mut out = String::new();
        out.append("[Trash Info]\n");
        out.append("Path=");
        out.append(self.full_path.as_str());
        out.append("\n");
        out.append("DeletionDate=");
        let ts = crate::datetime::format_datetime(&self.deletion_date);
        out.append(ts.as_str());
        out.append("\n");
        proof {
            reveal_strlit("[Trash Info]\n");
            reveal_strlit("Path=");
            reveal_strlit("\n");
            reveal_strlit("DeletionDate=");
            assert("[Trash Info]\n"@ =~= header_line() + seq!['\n']);
            assert("Path="@ =~= path_key_eq());
            assert("\n"@ =~= seq!['\n']);
            assert("DeletionDate="@ =~= date_key_eq());
            assert(out@ =~= render_spec(self@.full_path, self@.deletion_date));
        }
        out
    }

    /// Parses one record text; any missing key, bad header or bad timestamp
    /// is a parse failure.
    pub fn parse(contents: &str) -> (r: Result<TrashInfo, TrashError>)
        ensures
            match r {
                Ok(info) => parse_info_spec(contents@) == Some(info@) && info@.wf(),
                Err(e) => e == TrashError::Parse && parse_info_spec(contents@) is None,
            },
    {
        let lines = split_lines(contents);
        let ghost all = lines_spec(contents@);
        let n = lines.len();
        let mut in_sec = false;
        let mut pv: Option<String> = None;
        let mut dv: Option<String> = None;
        let mut i: usize = 0;
        proof {
            assert(all.skip(0) =~= all);
        }
        while i < n
            invariant
                n == lines.len(),
                0 <= i <= n,
                all == lines@.map_values(|l: String| l@),
                scan_lines(all, false, None, None) == scan_lines(
                    all.skip(i as int),
                    in_sec,
                    opt_view(pv),
                    opt_view(dv),
                ),
            decreases n - i,
        {
            let t = trim(lines[i].as_str());
            let tl = t.as_str().unicode_len();
            proof {
                assert(all.skip(i as int)[0] == all[i as int]);
                assert(all.skip(i as int).skip(1) =~= all.skip(i + 1));
                assert(t@ == trim_spec(all[i as int]));
            }
            if tl >= 2 && t.as_str().get_char(0) == '[' && t.as_str().get_char(tl - 1) == ']' {
                let inner = t.as_str().substring_char(1, tl - 1);
                let trimmed = trim(inner);
                let name = to_lower(trimmed.as_str());
                in_sec = str_eq(name.as_str(), "trash info");
                proof {
                    reveal_strlit("trash info");
                    assert("trash info"@ =~= section_name_lower());
                    assert(is_section_line(t@));
                    assert(name@ == section_name_of(t@));
                }
            } else {
                let k = find_char_pos(t.as_str(), '=', 0);
                proof {
                    assert(!is_section_line(t@));
                }
                if in_sec && k < tl {
                    let key_part = t.as_str().substring_char(0, k);
                    let key_trimmed = trim(key_part);
                    let key = to_lower(key_trimmed.as_str());
                    proof {
                        assert(0 <= kv_eq_pos(t@) < t@.len());
                        assert(key_part@ =~= t@.take(kv_eq_pos(t@)));
                        assert(key@ == key_of(t@));
                    }
                    if str_eq(key.as_str(), "path") {
                        let value = trim(t.as_str().substring_char(k + 1, tl));
                        proof {
                            reveal_strlit("path");
                            assert("path"@ =~= path_key_lower());
                            assert(t@.skip(kv_eq_pos(t@) + 1) =~= t@.subrange(
                                k + 1,
                                t@.len() as int,
                            ));
                            assert(value@ == val_of(t@));
                        }
                        pv = Some(value);
                    } else if str_eq(key.as_str(), "deletiondate") {
                        let value = trim(t.as_str().substring_char(k + 1, tl));
                        proof {
                            reveal_strlit("path");
                            reveal_strlit("deletiondate");
                            assert("path"@ =~= path_key_lower());
                            assert("deletiondate"@ =~= date_key_lower());
                            assert(t@.skip(kv_eq_pos(t@) + 1) =~= t@.subrange(
                                k + 1,
                                t@.len() as int,
                            ));
                            assert(value@ == val_of(t@));
                        }
                        dv = Some(value);
                    } else {
                        proof {
                            reveal_strlit("path");
                            reveal_strlit("deletiondate");
                            assert("path"@ =~= path_key_lower());
                            assert("deletiondate"@ =~= date_key_lower());
                        }
                    }
                } else {
                    proof {
                        crate::strutil::lemma_find_char_from(t@, '=', 0);
                        if k == tl {
                            assert(kv_eq_pos(t@) == -1);
                        }
                        assert(!(0 <= kv_eq_pos(t@) < t@.len()) || !in_sec);
                    }
                }
            }
            i = i + 1;
        }
        proof {
            assert(all.skip(n as int) =~= Seq::<Seq<char>>::empty());
            assert(scan_lines(all, false, None, None) == (opt_view(pv), opt_view(dv)));
        }
        let fp = match pv {
            Some(v) => v,
            None => { return Err(TrashError::Parse) },
        };
        let ds = match dv {
            Some(v) => v,
            None => { return Err(TrashError::Parse) },
        };
        let dt = match parse_datetime(ds.as_str()) {
            Some(dt) => dt,
            None => { return Err(TrashError::Parse) },
        };
        let base = basename(fp.as_str());
        let display = decode_filename(base.as_str());
        proof {
            crate::datetime::lemma_parse_wf(ds@);
        }
        Ok(TrashInfo { full_path: fp, path: display, deletion_date: dt })
    }
}

} // verus!

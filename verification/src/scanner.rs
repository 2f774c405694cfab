//! Depth-limited scan of a directory tree into an outline. The tree
//! itself is handed in as plain data (paths and nesting); walking the
//! real filesystem is the caller's concern. Hidden entries (dot-prefixed
//! names) are excluded with everything beneath them, entries deeper than
//! three levels below the root are excluded, and only files with an
//! allowed extension contribute entries.

use crate::outline::EntryModel;
use crate::outline::OutlineEntry;
use crate::outline::outline_model;
use crate::titlecase::title_case_text;
use crate::titlecase::to_title_case;
use vstd::prelude::*;
use vstd::string::StrSliceExecFns;
use vstd::string::StringExecFns;

verus! {

/// A directory tree as plain data: a directory with its children, or a
/// file. Every node carries its full path; names are derived from it.
pub enum FsTree {
    Dir { path: String, children: Vec<FsTree> },
    File { path: String },
}

/// The full path a node carries.
pub open spec fn path_of(t: FsTree) -> Seq<char> {
    match t {
        FsTree::Dir { path, .. } => path@,
        FsTree::File { path } => path@,
    }
}

/// The children of a node (none for a file).
pub open spec fn children_of(t: FsTree) -> Seq<FsTree> {
    match t {
        FsTree::Dir { children, .. } => children@,
        FsTree::File { .. } => Seq::<FsTree>::empty(),
    }
}

/// Index of the last occurrence of `c` in `s`, or -1 if there is none.
pub open spec fn last_index_of(s: Seq<char>, c: char) -> int
    decreases s.len(),
{
    if s.len() == 0 {
        -1
    } else if s[s.len() - 1] == c {
        s.len() - 1
    } else {
        last_index_of(s.drop_last(), c)
    }
}

pub proof fn lemma_last_index_of_is(s: Seq<char>, c: char, k: int)
    requires
        -1 <= k < s.len(),
        k >= 0 ==> s[k] == c,
        forall|i: int| k < i < s.len() ==> s[i] != c,
    ensures
        last_index_of(s, c) == k,
    decreases s.len(),
{
    if s.len() > 0 && s[s.len() - 1] != c {
        lemma_last_index_of_is(s.drop_last(), c, k);
    }
}

/// The path component after the last slash.
pub open spec fn basename_of(path: Seq<char>) -> Seq<char> {
    path.skip(last_index_of(path, '/') + 1)
}

/// The name with its extension (after the last dot) stripped; the whole
/// name when it holds no dot.
pub open spec fn stem_of(name: Seq<char>) -> Seq<char> {
    if last_index_of(name, '.') >= 0 {
        name.take(last_index_of(name, '.'))
    } else {
        name
    }
}

/// A dot-prefixed name, excluded from scans with everything beneath it.
pub open spec fn is_hidden(name: Seq<char>) -> bool {
    name.len() > 0 && name[0] == '.'
}

/// The extensions whose files are kept by the scan.
pub open spec fn allowed_ext(e: Seq<char>) -> bool {
    e == "cpp"@ || e == "rs"@ || e == "c"@ || e == "h"@ || e == "hpp"@ || e == "py"@
        || e == "java"@ || e == "txt"@
}

/// Whether a file name has an extension and that extension is allowed.
pub open spec fn has_allowed_ext(name: Seq<char>) -> bool {
    last_index_of(name, '.') >= 0 && allowed_ext(name.skip(last_index_of(name, '.') + 1))
}

/// The heading label the scan derives from a name: its stem, title-cased.
pub open spec fn heading_of(path: Seq<char>) -> Seq<char> {
    title_case_text(stem_of(basename_of(path)), true)
}

/// What the scan of one node at the given depth yields. Depth 0 is the
/// scan root itself; its own name never becomes a heading.
pub open spec fn scan_tree(t: FsTree, depth: int) -> Seq<EntryModel>
    decreases (if depth > 4 {
        0int
    } else {
        4 - depth
    }), 0int,
{
    if depth > 3 {
        Seq::<EntryModel>::empty()
    } else if is_hidden(basename_of(path_of(t))) {
        Seq::<EntryModel>::empty()
    } else {
        match t {
            FsTree::Dir { path, children } => {
                let subs = scan_forest(children@, depth + 1);
                if subs.len() == 0 {
                    Seq::<EntryModel>::empty()
                } else if depth == 1 {
                    seq![EntryModel::Section(heading_of(path@))] + subs
                } else if depth > 1 {
                    seq![EntryModel::SubSection(heading_of(path@))] + subs
                } else {
                    subs
                }
            },
            FsTree::File { path } => {
                if has_allowed_ext(basename_of(path@)) {
                    let f = seq![EntryModel::File(path@)];
                    if depth == 1 {
                        seq![EntryModel::Section(heading_of(path@))] + f
                    } else if depth == 2 {
                        seq![EntryModel::SubSection(heading_of(path@))] + f
                    } else {
                        f
                    }
                } else {
                    Seq::<EntryModel>::empty()
                }
            },
        }
    }
}

/// The concatenated scans of a list of sibling nodes, in order.
pub open spec fn scan_forest(ts: Seq<FsTree>, depth: int) -> Seq<EntryModel>
    decreases (if depth > 4 {
        0int
    } else {
        4 - depth
    }), ts.len() + 1,
{
    if ts.len() == 0 {
        Seq::<EntryModel>::empty()
    } else {
        scan_tree(ts[0], depth) + scan_forest(ts.drop_first(), depth)
    }
}

pub(crate) fn last_index_of_exec(s: &str, c: char) -> (k: Option<usize>)
    ensures
        match k {
            Some(v) => v < s@.len() && last_index_of(s@, c) == v,
            None => last_index_of(s@, c) == -1,
        },
{
    let n = s.unicode_len();
    let mut j: usize = n;
    while j > 0
        invariant
            n == s@.len(),
            j <= n,
            forall|i: int| j <= i < n ==> s@[i] != c,
        decreases j,
    {
        if s.get_char(j - 1) == c {
            proof {
                lemma_last_index_of_is(s@, c, j - 1);
            }
            return Some(j - 1);
        }
        j = j - 1;
    }
    proof {
        lemma_last_index_of_is(s@, c, -1);
    }
    None
}

/// The path component after the last slash, as a fresh string.
pub fn basename(path: &str) -> (r: String)
    ensures
        r@ == basename_of(path@),
{
    let n = path.unicode_len();
    let start = match last_index_of_exec(path, '/') {
        Some(k) => k + 1,
        None => 0,
    };
    let b = path.substring_char(start, n);
    proof {
        assert(b@ =~= basename_of(path@));
    }
    String::from_str(b)
}

/// The stem of a name: everything before the last dot, or the whole
/// name when there is no dot.
pub fn stem(name: &str) -> (r: String)
    ensures
        r@ == stem_of(name@),
{
    let n = name.unicode_len();
    let end = match last_index_of_exec(name, '.') {
        Some(k) => k,
        None => n,
    };
    let b = name.substring_char(0, end);
    proof {
        assert(b@ =~= stem_of(name@));
    }
    String::from_str(b)
}

fn is_hidden_exec(name: &str) -> (b: bool)
    ensures
        b == is_hidden(name@),
{
    name.unicode_len() > 0 && name.get_char(0) == '.'
}

fn has_allowed_ext_exec(name: &str) -> (b: bool)
    ensures
        b == has_allowed_ext(name@),
{
    let n = name.unicode_len();
    match last_index_of_exec(name, '.') {
        None => false,
        Some(k) => {
            let e = name.substring_char(k + 1, n);
            let e = String::from_str(e);
            proof {
                assert(e@ =~= name@.skip(last_index_of(name@, '.') + 1));
            }
            let r = e == String::from_str("cpp") || e == String::from_str("rs") || e
                == String::from_str("c") || e == String::from_str("h") || e == String::from_str(
                "hpp",
            ) || e == String::from_str("py") || e == String::from_str("java") || e
                == String::from_str("txt");
            r
        },
    }
}

/// Scan one node at the given depth.
pub fn scan(t: &FsTree, depth: usize) -> (r: Vec<OutlineEntry>)
    requires
        depth <= 4,
    ensures
        outline_model(r@) == scan_tree(*t, depth as int),
    decreases 4 - depth, 0int,
{
    let mut res: Vec<OutlineEntry> = Vec::new();
    if depth > 3 {
        proof {
            assert(outline_model(res@) =~= scan_tree(*t, depth as int));
        }
        return res;
    }
    match t {
        FsTree::Dir { path, children } => {
            let name = basename(path.as_str());
            if is_hidden_exec(name.as_str()) {
                proof {
                    assert(outline_model(res@) =~= scan_tree(*t, depth as int));
                }
                return res;
            }
            let mut subs = scan_children(children, 0, depth + 1);
            proof {
                assert(children@.skip(0) =~= children@);
            }
            if subs.len() == 0 {
                proof {
                    assert(outline_model(res@) =~= scan_tree(*t, depth as int));
                }
                return res;
            }
            if depth >= 1 {
                let st = stem(name.as_str());
                let label = to_title_case(st.as_str());
                if depth == 1 {
                    res.push(OutlineEntry::Section(label));
                } else {
                    res.push(OutlineEntry::SubSection(label));
                }
            }
            res.append(&mut subs);
            proof {
                assert(outline_model(res@) =~= scan_tree(*t, depth as int));
            }
            res
        },
        FsTree::File { path } => {
            let name = basename(path.as_str());
            if is_hidden_exec(name.as_str()) {
                proof {
                    assert(outline_model(res@) =~= scan_tree(*t, depth as int));
                }
                return res;
            }
            if has_allowed_ext_exec(name.as_str()) {
                if depth == 1 || depth == 2 {
                    let st = stem(name.as_str());
                    let label = to_title_case(st.as_str());
                    if depth == 1 {
                        res.push(OutlineEntry::Section(label));
                    } else {
                        res.push(OutlineEntry::SubSection(label));
                    }
                }
                res.push(OutlineEntry::File(path.clone()));
            }
            proof {
                assert(outline_model(res@) =~= scan_tree(*t, depth as int));
            }
            res
        },
    }
}

fn scan_children(ts: &Vec<FsTree>, i: usize, depth: usize) -> (r: Vec<OutlineEntry>)
    requires
        depth <= 4,
        i <= ts.len(),
    ensures
        outline_model(r@) == scan_forest(ts@.skip(i as int), depth as int),
    decreases 4 - depth, ts.len() - i + 1,
{
    if i == ts.len() {
        let r: Vec<OutlineEntry> = Vec::new();
        proof {
            assert(ts@.skip(i as int) =~= Seq::<FsTree>::empty());
            assert(outline_model(r@) =~= scan_forest(ts@.skip(i as int), depth as int));
        }
        r
    } else {
        let mut r = scan(&ts[i], depth);
        let mut rest = scan_children(ts, i + 1, depth);
        proof {
            assert(ts@.skip(i as int)[0] == ts@[i as int]);
            assert(ts@.skip(i as int).drop_first() =~= ts@.skip(i + 1));
        }
        r.append(&mut rest);
        proof {
            assert(outline_model(r@) =~= scan_forest(ts@.skip(i as int), depth as int));
        }
        r
    }
}

/// Scan a whole directory tree from its root. The root's own name never
/// becomes a heading; its children sit at depth 1.
pub fn scan_root(t: &FsTree) -> (r: Vec<OutlineEntry>)
    ensures
        outline_model(r@) == scan_tree(*t, 0),
{
    scan(t, 0)
}

/// A scan never reaches below three levels under the root: at any
/// greater depth it yields nothing, whatever the node holds.
pub proof fn lemma_scan_depth_capped(t: FsTree, depth: int)
    requires
        depth > 3,
    ensures
        scan_tree(t, depth) == Seq::<EntryModel>::empty(),
{
}

proof fn lemma_scan_forest_hidden_empty(ts: Seq<FsTree>, depth: int)
    requires
        forall|i: int| 0 <= i < ts.len() ==> is_hidden(basename_of(path_of(#[trigger] ts[i]))),
    ensures
        scan_forest(ts, depth) == Seq::<EntryModel>::empty(),
    decreases ts.len(),
{
    if ts.len() > 0 {
        assert(is_hidden(basename_of(path_of(ts[0]))));
        assert forall|i: int| 0 <= i < ts.drop_first().len() implies is_hidden(
            basename_of(path_of(#[trigger] ts.drop_first()[i])),
        ) by {
            assert(ts.drop_first()[i] == ts[i + 1]);
        }
        lemma_scan_forest_hidden_empty(ts.drop_first(), depth);
        assert(scan_tree(ts[0], depth) == Seq::<EntryModel>::empty());
        assert(scan_forest(ts, depth) =~= Seq::<EntryModel>::empty());
    }
}

/// A directory whose entries are all dot-prefixed (or which has none)
/// scans to the empty outline: it contributes no heading and no entries.
pub proof fn lemma_scan_hidden_only_empty(t: FsTree, depth: int)
    requires
        t is Dir,
        forall|i: int|
            0 <= i < children_of(t).len() ==> is_hidden(
                basename_of(path_of(#[trigger] children_of(t)[i])),
            ),
    ensures
        scan_tree(t, depth) == Seq::<EntryModel>::empty(),
{
    lemma_scan_forest_hidden_empty(children_of(t), depth + 1);
}

/// Every file entry a scan yields names a file with an allowed
/// extension.
pub open spec fn all_file_entries_allowed(es: Seq<EntryModel>) -> bool {
    forall|i: int|
        0 <= i < es.len() ==> (#[trigger] es[i] matches EntryModel::File(p) ==> has_allowed_ext(
            basename_of(p),
        ))
}

/// Files with an extension outside the allowed set never appear as file
/// entries in a scan.
pub proof fn lemma_scan_files_allowed(t: FsTree, depth: int)
    ensures
        all_file_entries_allowed(scan_tree(t, depth)),
    decreases (if depth > 4 {
        0int
    } else {
        4 - depth
    }), 0int,
{
    if depth > 3 {
    } else if is_hidden(basename_of(path_of(t))) {
    } else {
        match t {
            FsTree::Dir { path, children } => {
                lemma_scan_forest_files_allowed(children@, depth + 1);
                let subs = scan_forest(children@, depth + 1);
                if subs.len() > 0 && depth >= 1 {
                    let h = if depth == 1 {
                        EntryModel::Section(heading_of(path@))
                    } else {
                        EntryModel::SubSection(heading_of(path@))
                    };
                    let es = seq![h] + subs;
                    assert forall|i: int|
                        0 <= i < es.len() implies (#[trigger] es[i] matches EntryModel::File(p)
                        ==> has_allowed_ext(basename_of(p))) by {
                        if i > 0 {
                            assert(es[i] == subs[i - 1]);
                        }
                    }
                }
            },
            FsTree::File { path } => {
                if has_allowed_ext(basename_of(path@)) {
                    let es = scan_tree(t, depth);
                    assert forall|i: int|
                        0 <= i < es.len() implies (#[trigger] es[i] matches EntryModel::File(p)
                        ==> has_allowed_ext(basename_of(p))) by {
                        assert(es[es.len() - 1] == EntryModel::File(path@));
                    }
                }
            },
        }
    }
}

proof fn lemma_scan_forest_files_allowed(ts: Seq<FsTree>, depth: int)
    ensures
        all_file_entries_allowed(scan_forest(ts, depth)),
    decreases (if depth > 4 {
        0int
    } else {
        4 - depth
    }), ts.len() + 1,
{
    if ts.len() > 0 {
        lemma_scan_files_allowed(ts[0], depth);
        lemma_scan_forest_files_allowed(ts.drop_first(), depth);
        let a = scan_tree(ts[0], depth);
        let b = scan_forest(ts.drop_first(), depth);
        let es = a + b;
        assert forall|i: int|
            0 <= i < es.len() implies (#[trigger] es[i] matches EntryModel::File(p)
            ==> has_allowed_ext(basename_of(p))) by {
            if i < a.len() {
                assert(es[i] == a[i]);
            } else {
                assert(es[i] == b[i - a.len()]);
            }
        }
    }
}

} // verus!

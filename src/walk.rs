//! The decisions of walking a source tree: for one directory listing, which
//! files go into the archive and which subdirectories are descended into.
//! Reading the listings is left to the caller.
use vstd::prelude::*;

use crate::paths::{
    child_path, child_path_of, file_entry_name, is_sep, is_skipped, parent_segment_at,
    plain_segment, safe_entry_name, skipped_by, views,
};

verus! {

/// One entry of a directory listing: its name, and whether it is a directory.
#[derive(Debug)]
pub struct ListedEntry {
    pub name: String,
    pub is_dir: bool,
}

/// What the walk does with one listed directory, as paths relative to the
/// root: the files to archive and the subdirectories to descend into.
#[derive(Debug)]
pub struct ListingPlan {
    pub files: Vec<String>,
    pub subdirs: Vec<String>,
}

/// The paths, in listing order, of the entries of `listing` (a listing of
/// `dir`) that are directories when `dirs` holds and files otherwise, and
/// that no skip entry excludes.
pub open spec fn selected(
    dir: Seq<char>,
    listing: Seq<ListedEntry>,
    skips: Seq<Seq<char>>,
    dirs: bool,
) -> Seq<Seq<char>>
    decreases listing.len(),
{
    if listing.len() == 0 {
        Seq::empty()
    } else {
        let prev = selected(dir, listing.drop_last(), skips, dirs);
        let e = listing.last();
        let p = child_path(dir, e.name@);
        if e.is_dir == dirs && !skipped_by(p, skips) {
            prev.push(p)
        } else {
            prev
        }
    }
}

/// Splits the listing of `dir` into the files to archive and the
/// subdirectories to walk next; whatever a skip entry matches is in neither,
/// so a skipped directory is not descended into.
pub fn plan_listing(dir: &str, listing: &Vec<ListedEntry>, skips: &Vec<String>) -> (r: ListingPlan)
    ensures
        views(r.files@) == selected(dir@, listing@, views(skips@), false),
        views(r.subdirs@) == selected(dir@, listing@, views(skips@), true),
{
    let mut files: Vec<String> = Vec::new();
    let mut subdirs: Vec<String> = Vec::new();
    let mut i: usize = 0;
    while i < listing.len()
        invariant
            0 <= i <= listing@.len(),
            views(files@) == selected(dir@, listing@.subrange(0, i as int), views(skips@), false),
            views(subdirs@) == selected(dir@, listing@.subrange(0, i as int), views(skips@), true),
        decreases listing@.len() - i,
    {
        let e = &listing[i];
        let p = child_path_of(dir, e.name.as_str());
        proof {
            assert(listing@.subrange(0, i + 1).drop_last() =~= listing@.subrange(0, i as int));
            assert(listing@.subrange(0, i + 1).last() == listing@[i as int]);
        }
        let ghost old_files = files@;
        let ghost old_subdirs = subdirs@;
        if !is_skipped(p.as_str(), skips) {
            let ghost pv = p@;
            if e.is_dir {
                subdirs.push(p);
                assert(views(subdirs@) =~= views(old_subdirs).push(pv));
            } else {
                files.push(p);
                assert(views(files@) =~= views(old_files).push(pv));
            }
        }
        i = i + 1;
    }
    assert(listing@.subrange(0, listing@.len() as int) =~= listing@);
    ListingPlan { files, subdirs }
}

/// A path that the walk selects is matched by no skip entry, and every entry
/// of the right kind that no skip entry matches is selected.
pub proof fn lemma_selection_respects_skips(
    dir: Seq<char>,
    listing: Seq<ListedEntry>,
    skips: Seq<Seq<char>>,
    dirs: bool,
)
    ensures
        forall|k: int|
            0 <= k < selected(dir, listing, skips, dirs).len() ==> !skipped_by(
                #[trigger] selected(dir, listing, skips, dirs)[k],
                skips,
            ),
        forall|j: int|
            0 <= j < listing.len() && (#[trigger] listing[j]).is_dir == dirs && !skipped_by(
                child_path(dir, listing[j].name@),
                skips,
            ) ==> selected(dir, listing, skips, dirs).contains(child_path(dir, listing[j].name@)),
    decreases listing.len(),
{
    if listing.len() > 0 {
        let prefix = listing.drop_last();
        lemma_selection_respects_skips(dir, prefix, skips, dirs);
        let prev = selected(dir, prefix, skips, dirs);
        let cur = selected(dir, listing, skips, dirs);
        assert forall|j: int|
            0 <= j < listing.len() && (#[trigger] listing[j]).is_dir == dirs && !skipped_by(
                child_path(dir, listing[j].name@),
                skips,
            ) implies cur.contains(child_path(dir, listing[j].name@)) by {
            let p = child_path(dir, listing[j].name@);
            if j < listing.len() - 1 {
                assert(prefix[j] == listing[j]);
                let w = choose|w: int| 0 <= w < prev.len() && prev[w] == p;
                assert(cur[w] == p);
            } else {
                assert(cur[cur.len() - 1] == p);
            }
        }
    }
}

/// A name of a directory listing, joined to a safe directory path (or to the
/// root), gives a path that the writer stores as a file and that extraction
/// accepts as it stands.
pub proof fn lemma_child_path_safe(dir: Seq<char>, name: Seq<char>)
    requires
        dir.len() == 0 || safe_entry_name(dir),
        plain_segment(name),
    ensures
        file_entry_name(child_path(dir, name)),
{
    let c = child_path(dir, name);
    let d = dir.len() as int;
    assert(c.last() == name[name.len() - 1]);
    if d == 0 {
        assert forall|i: int| !#[trigger] parent_segment_at(c, i) by {
            if parent_segment_at(c, i) {
                if i > 0 {
                    assert(is_sep(name[i - 1]));
                }
                if i + 2 < name.len() {
                    assert(is_sep(name[i + 2]));
                }
                assert(name =~= seq!['.', '.']);
            }
        }
    } else {
        assert(c == dir + seq!['/'] + name);
        assert(c[0] == dir[0]);
        assert forall|i: int| 0 <= i < c.len() implies #[trigger] c[i] != '\0' && c[i] != ':' by {
            if i < d {
                assert(c[i] == dir[i]);
            } else if i > d {
                assert(c[i] == name[i - d - 1]);
            }
        }
        assert forall|i: int| !#[trigger] parent_segment_at(c, i) by {
            if parent_segment_at(c, i) {
                if i + 2 <= d {
                    assert(c[i] == dir[i]);
                    assert(c[i + 1] == dir[i + 1]);
                    if i > 0 {
                        assert(c[i - 1] == dir[i - 1]);
                    }
                    if i + 2 < d {
                        assert(c[i + 2] == dir[i + 2]);
                    }
                    assert(parent_segment_at(dir, i));
                } else if i == d - 1 {
                    assert(c[i + 1] == '/');
                } else if i == d {
                    assert(c[i] == '/');
                } else {
                    let k = i - d - 1;
                    assert(c[i] == name[k]);
                    assert(c[i + 1] == name[k + 1]);
                    if k > 0 {
                        assert(c[i - 1] == name[k - 1]);
                        assert(is_sep(name[k - 1]));
                    }
                    if k + 2 < name.len() {
                        assert(c[i + 2] == name[k + 2]);
                        assert(is_sep(name[k + 2]));
                    }
                    assert(name =~= seq!['.', '.']);
                }
            }
        }
    }
}

/// When `dir` is the root or a safe path and every listed name is a plain
/// name, each path the walk selects is accepted by the writer and passes the
/// extraction check unchanged: what is archived is extracted to the same
/// relative path.
pub proof fn lemma_selected_paths_extractable(
    dir: Seq<char>,
    listing: Seq<ListedEntry>,
    skips: Seq<Seq<char>>,
    dirs: bool,
)
    requires
        dir.len() == 0 || safe_entry_name(dir),
        forall|j: int| 0 <= j < listing.len() ==> plain_segment(#[trigger] listing[j].name@),
    ensures
        forall|k: int|
            0 <= k < selected(dir, listing, skips, dirs).len() ==> file_entry_name(
                #[trigger] selected(dir, listing, skips, dirs)[k],
            ),
    decreases listing.len(),
{
    if listing.len() > 0 {
        let prefix = listing.drop_last();
        assert forall|j: int| 0 <= j < prefix.len() implies plain_segment(
            #[trigger] prefix[j].name@,
        ) by {
            assert(prefix[j] == listing[j]);
        }
        lemma_selected_paths_extractable(dir, prefix, skips, dirs);
        let last = listing[listing.len() - 1];
        assert(plain_segment(last.name@));
        lemma_child_path_safe(dir, last.name@);
        let prev = selected(dir, prefix, skips, dirs);
        let cur = selected(dir, listing, skips, dirs);
        assert forall|k: int| 0 <= k < cur.len() implies file_entry_name(#[trigger] cur[k]) by {
            if k < prev.len() {
                assert(cur[k] == prev[k]);
            }
        }
    }
}

} // verus!

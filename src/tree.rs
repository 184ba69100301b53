//! Which entries of a walked directory tree go into the archive, under which
//! names, and what the container file of a directory is called.

use vstd::prelude::*;
use vstd::string::*;

verus! {

/// One filesystem entry met while walking the source directory.
pub struct WalkedEntry {
    /// The path relative to the source directory; empty for the directory itself.
    pub relative: String,
    /// Whether the entry is a regular file (otherwise it is a directory).
    pub is_file: bool,
}

impl View for WalkedEntry {
    type V = (Seq<char>, bool);

    open spec fn view(&self) -> (Seq<char>, bool) {
        (self.relative@, self.is_file)
    }
}

/// An entry to store in the archive: a file under `name`, or an empty
/// directory placeholder there.
pub struct ArchiveItem {
    pub name: String,
    pub is_dir: bool,
}

impl View for ArchiveItem {
    type V = (Seq<char>, bool);

    open spec fn view(&self) -> (Seq<char>, bool) {
        (self.name@, self.is_dir)
    }
}

/// The extension of container files, which packing never embeds.
pub open spec fn container_extension() -> Seq<char> {
    seq!['c', 'o', 'r', 'e', 'p', 'a', 'c', 'k', 'a', 'g', 'e']
}

/// Whether the last component of `path` has the container extension: it ends
/// in `.corepackage` with at least one character of the component before the
/// dot.
pub open spec fn has_container_extension(path: Seq<char>) -> bool {
    &&& path.len() > container_extension().len() + 1
    &&& path[path.len() - container_extension().len() - 1] == '.'
    &&& path.skip(path.len() - container_extension().len()) == container_extension()
    &&& path[path.len() - container_extension().len() - 2] != '/'
}

/// Whether a walked entry is stored: not the root itself, and not a file with
/// the container extension. Directories are kept whatever their name.
pub open spec fn is_kept(e: (Seq<char>, bool)) -> bool {
    e.0.len() > 0 && !(e.1 && has_container_extension(e.0))
}

/// The archive item for a kept entry.
pub open spec fn item_of(e: (Seq<char>, bool)) -> (Seq<char>, bool) {
    (e.0, !e.1)
}

/// The items stored for a walk, in the order of the walk.
pub open spec fn selected(walk: Seq<(Seq<char>, bool)>) -> Seq<(Seq<char>, bool)>
    decreases walk.len(),
{
    if walk.len() == 0 {
        Seq::empty()
    } else {
        let rest = selected(walk.drop_last());
        if is_kept(walk.last()) { rest.push(item_of(walk.last())) } else { rest }
    }
}

fn container_extension_chars() -> (r: [char; 11])
    ensures
        r@ == container_extension(),
{
    let r = ['c', 'o', 'r', 'e', 'p', 'a', 'c', 'k', 'a', 'g', 'e'];
    assert(r@ =~= container_extension());
    r
}

/// Whether the last component of `path` has the container extension.
pub fn is_container_file_name(path: &str) -> (r: bool)
    ensures
        r == has_container_extension(path@),
{
    let n = path.unicode_len();
    let ext = container_extension_chars();
    if n <= 12 {
        return false;
    }
    if path.get_char(n - 12) != '.' || path.get_char(n - 13) == '/' {
        return false;
    }
    let mut i: usize = 0;
    while i < 11
        invariant
            n == path@.len(),
            n > 12,
            i <= 11,
            ext@ == container_extension(),
            forall|j: int| 0 <= j < i ==> path@[n - 11 + j] == container_extension()[j],
        decreases 11 - i,
    {
        if path.get_char(n - 11 + i) != ext[i] {
            assert(path@.skip(n - 11)[i as int] != container_extension()[i as int]);
            return false;
        }
        i = i + 1;
    }
    assert(path@.skip(n - 11) =~= container_extension());
    true
}

/// The archive items for a walk: every entry but the root and files with the
/// container extension, in walk order, named by their relative path.
pub fn select_entries(walk: &Vec<WalkedEntry>) -> (r: Vec<ArchiveItem>)
    ensures
        r@.map_values(|i: ArchiveItem| i@) == selected(walk@.map_values(|e: WalkedEntry| e@)),
{
    let ghost w = walk@.map_values(|e: WalkedEntry| e@);
    let mut out: Vec<ArchiveItem> = Vec::new();
    let mut k: usize = 0;
    while k < walk.len()
        invariant
            k <= walk@.len(),
            w == walk@.map_values(|e: WalkedEntry| e@),
            out@.map_values(|i: ArchiveItem| i@) == selected(w.take(k as int)),
        decreases walk@.len() - k,
    {
        let e = &walk[k];
        assert(w.take(k + 1).drop_last() =~= w.take(k as int));
        assert(w.take(k + 1).last() == e@);
        let keep = e.relative.unicode_len() > 0 && !(e.is_file && is_container_file_name(e.relative.as_str()));
        if keep {
            let item = ArchiveItem { name: e.relative.clone(), is_dir: !e.is_file };
            out.push(item);
            assert(out@.map_values(|i: ArchiveItem| i@) =~= selected(w.take(k as int)).push(item_of(e@)));
        }
        k = k + 1;
    }
    assert(w.take(k as int) =~= w);
    out
}

/// The name of the container file of a directory named `dir_name`: the full
/// name with the container extension added.
pub open spec fn container_file_name(dir_name: Seq<char>) -> Seq<char> {
    dir_name + seq!['.'] + container_extension()
}

/// Where the container of the directory `dir_name` is written, inside its
/// `bin` subdirectory: `<dir_name>.corepackage`.
pub fn output_file_name(dir_name: &str) -> (r: String)
    ensures
        r@ == container_file_name(dir_name@),
{
    let mut r = String::from_str(dir_name);
    r.append(".corepackage");
    proof {
        reveal_strlit(".corepackage");
    }
    assert(r@ =~= container_file_name(dir_name@));
    r
}

/// What a walk stores: no item is the root or a file with the container
/// extension, and every other walked entry is stored, files as files and
/// directories as directory placeholders.
pub proof fn lemma_selection(walk: Seq<(Seq<char>, bool)>)
    ensures
        forall|i: int| 0 <= i < selected(walk).len() ==> {
            &&& (#[trigger] selected(walk)[i]).0.len() > 0
            &&& !selected(walk)[i].1 ==> !has_container_extension(selected(walk)[i].0)
        },
        forall|j: int| 0 <= j < walk.len() && is_kept(#[trigger] walk[j]) ==> selected(walk).contains(item_of(walk[j])),
    decreases walk.len(),
{
    if walk.len() > 0 {
        let rest = walk.drop_last();
        lemma_selection(rest);
        let s = selected(walk);
        let sr = selected(rest);
        assert forall|j: int| 0 <= j < walk.len() && is_kept(#[trigger] walk[j]) implies s.contains(item_of(walk[j])) by {
            if j < walk.len() - 1 {
                assert(rest[j] == walk[j]);
                let k = choose|k: int| 0 <= k < sr.len() && sr[k] == item_of(rest[j]);
                assert(s[k] == sr[k]);
            } else {
                assert(s[s.len() - 1] == item_of(walk[j]));
            }
        }
    }
}

} // verus!

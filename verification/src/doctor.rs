//! Install hygiene: which binaries to remove, whether the keeper is on
//! `PATH`, and whether an earlier `PATH` entry shadows it. Pure decisions over
//! path strings; the file-system side lives with the caller.
//!
//! Paths are compared as `std::path::Path` compares them (component by
//! component), through [`same_path_text`].

use vstd::prelude::*;

verus! {

/// Whether `std::path::Path` considers two paths equal (it compares their
/// components, split by the path rules of the platform the library is built
/// for: `\` separates components on Windows and not elsewhere).
pub uninterp spec fn path_eq(a: Seq<char>, b: Seq<char>) -> bool;

/// `std::path::Path::with_file_name`: the path with its last component
/// replaced by `name` (or `name` pushed when there is none), by the path
/// rules of the platform the library is built for.
pub uninterp spec fn path_with_file_name(p: Seq<char>, name: Seq<char>) -> Seq<char>;

/// `Path::new(a) == Path::new(b)`. Claimed: the result is `path_eq(a@, b@)`.
#[verifier::external_body]
pub(crate) fn same_path_text(a: &str, b: &str) -> (r: bool)
    ensures
        r == path_eq(a@, b@),
{
    std::path::Path::new(a) == std::path::Path::new(b)
}

/// `Path::new(p).with_file_name(name)`, rendered back to text (both inputs
/// are text, so the result is too). Claimed: the result is
/// `path_with_file_name(p@, name@)`.
#[verifier::external_body]
fn with_file_name(p: &str, name: &str) -> (r: String)
    ensures
        r@ == path_with_file_name(p@, name@),
{
    std::path::Path::new(p).with_file_name(name).to_string_lossy().into_owned()
}

pub open spec fn texts(v: Seq<String>) -> Seq<Seq<char>> {
    v.map_values(|s: String| s@)
}

/// The paths of `found` that are not the keeper, in order.
pub open spec fn others(found: Seq<Seq<char>>, keeper: Seq<char>) -> Seq<Seq<char>>
    decreases found.len(),
{
    if found.len() == 0 {
        Seq::empty()
    } else {
        let rest = others(found.drop_last(), keeper);
        if path_eq(found.last(), keeper) {
            rest
        } else {
            rest.push(found.last())
        }
    }
}

/// Every found binary except the keeper (compared as paths).
pub fn removal_set(found: &[String], keeper: &str) -> (r: Vec<String>)
    ensures
        texts(r@) == others(texts(found@), keeper@),
{
    let mut out: Vec<String> = Vec::new();
    let mut i: usize = 0;
    while i < found.len()
        invariant
            0 <= i <= found@.len(),
            texts(out@) == others(texts(found@.subrange(0, i as int)), keeper@),
        decreases found@.len() - i,
    {
        let ghost pre = texts(found@.subrange(0, i as int));
        let ghost post = texts(found@.subrange(0, i + 1));
        assert(post.drop_last() =~= pre);
        assert(post.last() == found@[i as int]@);
        if !same_path_text(found[i].as_str(), keeper) {
            let ghost before = out@;
            out.push(found[i].clone());
            assert(texts(out@) =~= texts(before).push(found@[i as int]@));
        }
        i = i + 1;
    }
    assert(found@.subrange(0, i as int) =~= found@);
    out
}

/// Whether the keeper's directory is present anywhere on `PATH`.
pub fn dir_on_path(path_dirs: &[String], keeper_dir: &str) -> (r: bool)
    ensures
        r == exists|i: int| 0 <= i < path_dirs@.len() && path_eq(#[trigger] path_dirs@[i]@, keeper_dir@),
{
    let mut i: usize = 0;
    while i < path_dirs.len()
        invariant
            0 <= i <= path_dirs@.len(),
            forall|j: int| 0 <= j < i ==> !path_eq(#[trigger] path_dirs@[j]@, keeper_dir@),
        decreases path_dirs@.len() - i,
    {
        if same_path_text(path_dirs[i].as_str(), keeper_dir) {
            return true;
        }
        i = i + 1;
    }
    false
}

/// `k` is the first position of the keeper's directory on `PATH`.
pub open spec fn first_keeper(dirs: Seq<Seq<char>>, keeper: Seq<char>, k: int) -> bool {
    &&& 0 <= k < dirs.len()
    &&& path_eq(dirs[k], keeper)
    &&& forall|j: int| 0 <= j < k ==> !path_eq(#[trigger] dirs[j], keeper)
}

/// Whether `d` is one of the directories known to hold a binary.
pub open spec fn holds_binary(bins: Seq<Seq<char>>, d: Seq<char>) -> bool {
    exists|b: int| 0 <= b < bins.len() && path_eq(#[trigger] bins[b], d)
}

fn holds_binary_exec(bins: &[String], d: &str) -> (r: bool)
    ensures
        r == holds_binary(texts(bins@), d@),
{
    let mut i: usize = 0;
    while i < bins.len()
        invariant
            0 <= i <= bins@.len(),
            forall|j: int| 0 <= j < i ==> !path_eq(#[trigger] texts(bins@)[j], d@),
        decreases bins@.len() - i,
    {
        if same_path_text(bins[i].as_str(), d) {
            assert(path_eq(texts(bins@)[i as int], d@));
            return true;
        }
        i = i + 1;
    }
    false
}

/// If some `PATH` entry earlier than the keeper's directory also holds a
/// binary, the keeper is shadowed: the first such directory. `binary_dirs` is
/// the set of directories known to hold a binary.
pub fn shadowed_by(path_dirs: &[String], keeper_dir: &str, binary_dirs: &[String]) -> (r: Option<
    String,
>)
    ensures
        r is Some <==> exists|k: int, j: int|
            #[trigger] first_keeper(texts(path_dirs@), keeper_dir@, k) && 0 <= j < k && #[trigger] holds_binary(
                texts(binary_dirs@),
                texts(path_dirs@)[j],
            ),
        r matches Some(p) ==> exists|k: int, j: int|
            {
                &&& #[trigger] first_keeper(texts(path_dirs@), keeper_dir@, k)
                &&& 0 <= j < k
                &&& #[trigger] holds_binary(texts(binary_dirs@), texts(path_dirs@)[j])
                &&& forall|i: int|
                    0 <= i < j ==> !holds_binary(texts(binary_dirs@), #[trigger] texts(path_dirs@)[i])
                &&& p@ == texts(path_dirs@)[j]
            },
{
    let ghost dirs = texts(path_dirs@);
    let ghost bins = texts(binary_dirs@);
    let mut k: usize = 0;
    let mut found = false;
    while k < path_dirs.len() && !found
        invariant
            0 <= k <= path_dirs@.len(),
            dirs == texts(path_dirs@),
            forall|j: int| 0 <= j < k ==> !path_eq(#[trigger] dirs[j], keeper_dir@),
            found ==> k < path_dirs@.len() && path_eq(dirs[k as int], keeper_dir@),
        decreases path_dirs@.len() - k + (if found { 0int } else { 1int }),
    {
        if same_path_text(path_dirs[k].as_str(), keeper_dir) {
            found = true;
        } else {
            k = k + 1;
        }
    }
    if !found {
        assert forall|a: int, j: int| #[trigger] first_keeper(dirs, keeper_dir@, a) implies !(0 <= j < a
            && #[trigger] holds_binary(bins, dirs[j])) by {
            assert(!path_eq(dirs[a], keeper_dir@));
        }
        return None;
    }
    assert(first_keeper(dirs, keeper_dir@, k as int));
    let mut j: usize = 0;
    while j < k
        invariant
            0 <= j <= k < path_dirs@.len(),
            dirs == texts(path_dirs@),
            bins == texts(binary_dirs@),
            first_keeper(dirs, keeper_dir@, k as int),
            forall|i: int| 0 <= i < j ==> !holds_binary(bins, #[trigger] dirs[i]),
        decreases k - j,
    {
        if holds_binary_exec(binary_dirs, path_dirs[j].as_str()) {
            let p = path_dirs[j].clone();
            assert(texts(path_dirs@)[j as int] == path_dirs@[j as int]@);
            assert(first_keeper(texts(path_dirs@), keeper_dir@, k as int));
            assert(holds_binary(texts(binary_dirs@), texts(path_dirs@)[j as int]));
            return Some(p);
        }
        j = j + 1;
    }
    assert forall|a: int, b: int| #[trigger] first_keeper(dirs, keeper_dir@, a) implies !(0 <= b < a
        && #[trigger] holds_binary(bins, dirs[b])) by {
        if a != k {
            if a < k {
                assert(!path_eq(dirs[a], keeper_dir@));
            } else {
                assert(!path_eq(dirs[k as int], keeper_dir@));
            }
        }
    }
    None
}

/// The self-updater that sits next to a binary: the binary's path with its
/// file name replaced by `groupchat-update`.
pub fn updater_sibling(binary: &str) -> (r: String)
    ensures
        r@ == path_with_file_name(binary@, "groupchat-update"@),
{
    with_file_name(binary, "groupchat-update")
}

} // verus!

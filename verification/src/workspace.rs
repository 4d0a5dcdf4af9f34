//! The recursive search of workspace roots: which directories the next
//! level enters, and how they are shared out among tasks.

use vstd::prelude::*;
use vstd::string::*;

use crate::executable::{is_ignored_folder, should_search_for_environments_in_path};
use crate::paths::{joined, path_join};
use crate::platform::{bin_dir_name, python_name, Platform};
use crate::text::strings;

verus! {

/// The largest number of directories handed to one task.
pub const BATCH_SIZE: usize = 20;

/// How far below the workspace roots the search goes unless told otherwise:
/// to their immediate children.
pub const DEFAULT_MAX_DEPTH: u32 = 1;

/// The number of batches that `n` items make.
pub open spec fn batch_count(n: nat) -> nat {
    ((n + 19) / 20) as nat
}

/// The smaller of two numbers.
pub open spec fn smaller(a: int, b: int) -> int {
    if a <= b {
        a
    } else {
        b
    }
}

/// The batch at position `b`: up to twenty items, in their order.
pub open spec fn batch<T>(items: Seq<T>, b: int) -> Seq<T> {
    items.subrange(20 * b, smaller(20 * b + 20, items.len() as int))
}

/// The items in batches of at most twenty: every batch but the last is
/// full, and the batches follow the order of the items.
pub open spec fn batches<T>(items: Seq<T>) -> Seq<Seq<T>> {
    Seq::new(batch_count(items.len()), |b: int| batch(items, b))
}

/// What a list of lists of paths holds.
pub open spec fn nested(lists: Seq<Vec<String>>) -> Seq<Seq<Seq<char>>> {
    Seq::new(lists.len(), |i: int| strings(lists[i]@))
}

/// The paths of a list that a search may enter, in their order.
pub open spec fn searchable(paths: Seq<Seq<char>>, platform: Platform) -> Seq<Seq<char>>
    decreases paths.len(),
{
    if paths.len() == 0 {
        Seq::<Seq<char>>::empty()
    } else {
        let before = searchable(paths.drop_last(), platform);
        if is_ignored_folder(paths.last(), platform) {
            before
        } else {
            before.push(paths.last())
        }
    }
}

/// What was learned of one root by looking into it.
#[derive(Clone, Debug, PartialEq, Eq)]
pub struct RootListing {
    /// Whether the root holds a directory of executables, which makes it an
    /// environment itself.
    pub has_bin: bool,
    /// The directories directly below the root.
    pub subdirectories: Vec<String>,
}

/// A listing as the contracts see it.
pub struct RootListingView {
    pub has_bin: bool,
    pub subdirectories: Seq<Seq<char>>,
}

impl View for RootListing {
    type V = RootListingView;

    open spec fn view(&self) -> RootListingView {
        RootListingView { has_bin: self.has_bin, subdirectories: strings(self.subdirectories@) }
    }
}

/// What a list of listings holds.
pub open spec fn listings(list: Seq<RootListing>) -> Seq<RootListingView> {
    Seq::new(list.len(), |i: int| list[i]@)
}

/// The batches that one root contributes to the next level: none where the
/// root is itself an environment.
pub open spec fn batches_below(root: RootListingView, platform: Platform) -> Seq<Seq<Seq<char>>> {
    if root.has_bin {
        Seq::<Seq<Seq<char>>>::empty()
    } else {
        batches(searchable(root.subdirectories, platform))
    }
}

/// The batches that a list of roots contributes, root after root.
pub open spec fn batches_below_all(roots: Seq<RootListingView>, platform: Platform) -> Seq<
    Seq<Seq<char>>,
>
    decreases roots.len(),
{
    if roots.len() == 0 {
        Seq::<Seq<Seq<char>>>::empty()
    } else {
        batches_below_all(roots.drop_last(), platform) + batches_below(roots.last(), platform)
    }
}

/// The batches of the next level: none once the depth limit is reached.
pub open spec fn next_level(
    roots: Seq<RootListingView>,
    depth: u32,
    max_depth: u32,
    platform: Platform,
) -> Seq<Seq<Seq<char>>> {
    if depth >= max_depth {
        Seq::<Seq<Seq<char>>>::empty()
    } else {
        batches_below_all(roots, platform)
    }
}

/// Whether no path in any of the batches is one that a search must not enter.
pub open spec fn all_searchable(found: Seq<Seq<Seq<char>>>, platform: Platform) -> bool {
    forall|b: int, k: int|
        0 <= b < found.len() && 0 <= k < found[b].len() ==> !is_ignored_folder(
            #[trigger] found[b][k],
            platform,
        )
}

/// Every item stands in exactly one batch, at the place its position gives;
/// no batch holds more than twenty, and only the last may hold fewer.
pub proof fn lemma_batches<T>(items: Seq<T>)
    ensures
        batches(items).len() == batch_count(items.len()),
        forall|b: int|
            0 <= b < batches(items).len() ==> 1 <= (#[trigger] batches(items)[b]).len() <= 20,
        forall|b: int|
            0 <= b < batches(items).len() - 1 ==> (#[trigger] batches(items)[b]).len() == 20,
        forall|k: int|
            0 <= k < items.len() ==> k / 20 < batches(items).len() && batches(items)[k / 20][k
                % 20] == #[trigger] items[k],
{
    assert forall|b: int| 0 <= b < batches(items).len() implies 1 <= (#[trigger] batches(
        items,
    )[b]).len() <= 20 by {
        assert(batches(items)[b] == batch(items, b));
    }
    assert forall|b: int| 0 <= b < batches(items).len() - 1 implies (#[trigger] batches(
        items,
    )[b]).len() == 20 by {
        assert(batches(items)[b] == batch(items, b));
    }
    assert forall|k: int| 0 <= k < items.len() implies k / 20 < batches(items).len() && batches(
        items,
    )[k / 20][k % 20] == #[trigger] items[k] by {
        assert(batches(items)[k / 20] == batch(items, k / 20));
    }
}

/// Nothing that `searchable` keeps is an ignored directory, and it keeps
/// nothing that was not there.
pub proof fn lemma_searchable(paths: Seq<Seq<char>>, platform: Platform)
    ensures
        forall|k: int|
            0 <= k < searchable(paths, platform).len() ==> !is_ignored_folder(
                #[trigger] searchable(paths, platform)[k],
                platform,
            ) && paths.contains(searchable(paths, platform)[k]),
        forall|k: int|
            0 <= k < paths.len() && !is_ignored_folder(paths[k], platform) ==> searchable(
                paths,
                platform,
            ).contains(#[trigger] paths[k]),
    decreases paths.len(),
{
    if paths.len() > 0 {
        let init = paths.drop_last();
        lemma_searchable(init, platform);
        let kept = searchable(paths, platform);
        assert forall|k: int| 0 <= k < kept.len() implies !is_ignored_folder(
            #[trigger] kept[k],
            platform,
        ) && paths.contains(kept[k]) by {
            if k < searchable(init, platform).len() {
                assert(kept[k] == searchable(init, platform)[k]);
                let at = choose|at: int| 0 <= at < init.len() && init[at] == kept[k];
                assert(paths[at] == kept[k]);
            } else {
                assert(paths[paths.len() - 1] == kept[k]);
            }
        }
        assert forall|k: int|
            0 <= k < paths.len() && !is_ignored_folder(paths[k], platform) implies kept.contains(
            #[trigger] paths[k],
        ) by {
            if k < init.len() {
                assert(init[k] == paths[k]);
                let at = choose|at: int|
                    0 <= at < searchable(init, platform).len() && searchable(init, platform)[at]
                        == init[k];
                assert(kept[at] == paths[k]);
            } else {
                assert(kept[kept.len() - 1] == paths[k]);
            }
        }
    }
}

/// No batch of the next level holds an ignored directory.
pub proof fn lemma_next_level_searchable(
    roots: Seq<RootListingView>,
    depth: u32,
    max_depth: u32,
    platform: Platform,
)
    ensures
        all_searchable(next_level(roots, depth, max_depth, platform), platform),
{
    lemma_batches_below_all_searchable(roots, platform);
}

proof fn lemma_batches_below_all_searchable(roots: Seq<RootListingView>, platform: Platform)
    ensures
        all_searchable(batches_below_all(roots, platform), platform),
    decreases roots.len(),
{
    if roots.len() > 0 {
        lemma_batches_below_all_searchable(roots.drop_last(), platform);
        let before = batches_below_all(roots.drop_last(), platform);
        let last = batches_below(roots.last(), platform);
        let kept = searchable(roots.last().subdirectories, platform);
        lemma_searchable(roots.last().subdirectories, platform);
        let all = batches_below_all(roots, platform);
        assert forall|b: int, k: int|
            0 <= b < all.len() && 0 <= k < all[b].len() implies !is_ignored_folder(
            #[trigger] all[b][k],
            platform,
        ) by {
            if b < before.len() {
                assert(all[b] == before[b]);
            } else {
                let at = b - before.len();
                assert(all[b] == last[at]);
                assert(last[at] == batch(kept, at));
                assert(all[b][k] == kept[20 * at + k]);
            }
        }
    }
}

/// What is learned of a list of roots in a file system where `has_bin`
/// tells which directories are environments and `children` what
/// directories lie directly below one.
pub open spec fn listings_of(
    roots: Seq<Seq<char>>,
    has_bin: spec_fn(Seq<char>) -> bool,
    children: spec_fn(Seq<char>) -> Seq<Seq<char>>,
) -> Seq<RootListingView> {
    Seq::new(
        roots.len(),
        |i: int| RootListingView { has_bin: has_bin(roots[i]), subdirectories: children(roots[i]) },
    )
}

/// Whether the search that begins with `roots` at `depth` comes to visit
/// `path` at the depth `at`: as one of the roots themselves, or as a root
/// of one of the batches planned below them, and so on down.
pub open spec fn visits(
    roots: Seq<Seq<char>>,
    depth: u32,
    max_depth: u32,
    has_bin: spec_fn(Seq<char>) -> bool,
    children: spec_fn(Seq<char>) -> Seq<Seq<char>>,
    path: Seq<char>,
    at: u32,
    platform: Platform,
) -> bool
    decreases max_depth - depth,
{
    (at == depth && roots.contains(path)) || (depth < max_depth && {
        let next = next_level(listings_of(roots, has_bin, children), depth, max_depth, platform);
        exists|b: int|
            #![trigger next[b]]
            0 <= b < next.len() && visits(
                next[b],
                (depth + 1) as u32,
                max_depth,
                has_bin,
                children,
                path,
                at,
                platform,
            )
    })
}

/// The search never goes past the depth limit, and below the roots it was
/// given it never visits a directory that is ignored, however deep that
/// lies and whatever the file system holds.
pub proof fn lemma_visits(
    roots: Seq<Seq<char>>,
    depth: u32,
    max_depth: u32,
    has_bin: spec_fn(Seq<char>) -> bool,
    children: spec_fn(Seq<char>) -> Seq<Seq<char>>,
    path: Seq<char>,
    at: u32,
    platform: Platform,
)
    requires
        depth <= max_depth,
        visits(roots, depth, max_depth, has_bin, children, path, at, platform),
    ensures
        depth <= at <= max_depth,
        at > depth ==> !is_ignored_folder(path, platform),
        at == depth ==> roots.contains(path),
    decreases max_depth - depth,
{
    if !(at == depth && roots.contains(path)) {
        let next = next_level(listings_of(roots, has_bin, children), depth, max_depth, platform);
        let b = choose|b: int|
            #![trigger next[b]]
            0 <= b < next.len() && visits(
                next[b],
                (depth + 1) as u32,
                max_depth,
                has_bin,
                children,
                path,
                at,
                platform,
            );
        lemma_visits(next[b], (depth + 1) as u32, max_depth, has_bin, children, path, at, platform);
        lemma_next_level_searchable(
            listings_of(roots, has_bin, children),
            depth,
            max_depth,
            platform,
        );
        if at == depth + 1 {
            let k = choose|k: int| 0 <= k < next[b].len() && next[b][k] == path;
            assert(!is_ignored_folder(next[b][k], platform));
        }
    }
}

/// The batches of every root are among the batches of the whole list.
proof fn lemma_batches_below_all_contains(
    roots: Seq<RootListingView>,
    i: int,
    b: int,
    platform: Platform,
)
    requires
        0 <= i < roots.len(),
        0 <= b < batches_below(roots[i], platform).len(),
    ensures
        exists|at: int|
            0 <= at < batches_below_all(roots, platform).len() && #[trigger] batches_below_all(
                roots,
                platform,
            )[at] == batches_below(roots[i], platform)[b],
    decreases roots.len(),
{
    let all = batches_below_all(roots, platform);
    let before = batches_below_all(roots.drop_last(), platform);
    if i == roots.len() - 1 {
        assert(all[before.len() + b] == batches_below(roots[i], platform)[b]);
    } else {
        lemma_batches_below_all_contains(roots.drop_last(), i, b, platform);
        let at = choose|at: int|
            0 <= at < before.len() && #[trigger] before[at] == batches_below(
                roots.drop_last()[i],
                platform,
            )[b];
        assert(all[at] == before[at]);
    }
}

/// Below a root that it enters, the search visits every directory that is
/// not ignored: none is lost when the directories are shared out.
pub proof fn lemma_children_visited(
    roots: Seq<Seq<char>>,
    depth: u32,
    max_depth: u32,
    has_bin: spec_fn(Seq<char>) -> bool,
    children: spec_fn(Seq<char>) -> Seq<Seq<char>>,
    i: int,
    k: int,
    platform: Platform,
)
    requires
        depth < max_depth,
        0 <= i < roots.len(),
        !has_bin(roots[i]),
        0 <= k < children(roots[i]).len(),
        !is_ignored_folder(children(roots[i])[k], platform),
    ensures
        visits(
            roots,
            depth,
            max_depth,
            has_bin,
            children,
            children(roots[i])[k],
            (depth + 1) as u32,
            platform,
        ),
{
    let child = children(roots[i])[k];
    let listings = listings_of(roots, has_bin, children);
    let next = next_level(listings, depth, max_depth, platform);
    let kept = searchable(children(roots[i]), platform);
    lemma_searchable(children(roots[i]), platform);
    let at = choose|at: int| 0 <= at < kept.len() && kept[at] == child;
    lemma_batches(kept);
    let b = at / 20;
    assert(batches(kept)[b][at % 20] == kept[at]);
    assert(batches_below(listings[i], platform) == batches(kept));
    lemma_batches_below_all_contains(listings, i, b, platform);
    let found = choose|found: int|
        0 <= found < next.len() && #[trigger] next[found] == batches_below(
            listings[i],
            platform,
        )[b];
    assert(next[found][at % 20] == child);
    assert(next[found].contains(child));
    assert(visits(next[found], (depth + 1) as u32, max_depth, has_bin, children, child, (depth
        + 1) as u32, platform));
}

/// Whether a search that stands at `depth` goes one level further down.
pub fn may_descend(depth: u32, max_depth: u32) -> (r: bool)
    ensures
        r == (depth < max_depth),
{
    depth < max_depth
}

/// Whether the search enters a root at `depth`: one that is no environment
/// itself, while the depth limit is not reached.
pub fn enters_root(has_bin: bool, depth: u32, max_depth: u32) -> (r: bool)
    ensures
        r == (!has_bin && depth < max_depth),
{
    !has_bin && may_descend(depth, max_depth)
}

/// The paths from `from` up to `to`, copied.
fn copy_range(items: &Vec<String>, from: usize, to: usize) -> (out: Vec<String>)
    requires
        from <= to <= items@.len(),
    ensures
        strings(out@) == strings(items@).subrange(from as int, to as int),
{
    let mut out: Vec<String> = Vec::new();
    let mut i: usize = from;
    while i < to
        invariant
            from <= i <= to,
            to <= items@.len(),
            out@.len() == i - from,
            forall|k: int| 0 <= k < i - from ==> (#[trigger] out@[k])@ == items@[from + k]@,
        decreases to - i,
    {
        out.push(items[i].clone());
        i += 1;
    }
    assert(strings(out@) =~= strings(items@).subrange(from as int, to as int));
    out
}

/// Shares a list of paths out in batches of at most twenty, in order.
pub fn split_into_batches(items: &Vec<String>) -> (out: Vec<Vec<String>>)
    ensures
        nested(out@) == batches(strings(items@)),
{
    let ghost shown = strings(items@);
    let mut out: Vec<Vec<String>> = Vec::new();
    let mut start: usize = 0;
    while start < items.len()
        invariant
            shown == strings(items@),
            start <= items@.len(),
            start == 20 * out@.len() || (start == items@.len() && out@.len() == batch_count(
                shown.len(),
            )),
            out@.len() <= batch_count(shown.len()),
            forall|b: int|
                0 <= b < out@.len() ==> strings((#[trigger] out@[b])@) == batch(shown, b),
        decreases items@.len() - start,
    {
        let end = if items.len() - start > BATCH_SIZE {
            start + BATCH_SIZE
        } else {
            items.len()
        };
        let piece = copy_range(items, start, end);
        assert(strings(piece@) == batch(shown, out@.len() as int));
        out.push(piece);
        start = end;
    }
    assert(nested(out@) =~= batches(shown));
    out
}

/// The directories of a list that a search may enter, in their order.
pub fn keep_searchable(paths: &Vec<String>, platform: Platform) -> (out: Vec<String>)
    ensures
        strings(out@) == searchable(strings(paths@), platform),
{
    let ghost shown = strings(paths@);
    let mut out: Vec<String> = Vec::new();
    let mut i: usize = 0;
    assert(shown.take(0) =~= Seq::<Seq<char>>::empty());
    assert(strings(out@) =~= Seq::<Seq<char>>::empty());
    while i < paths.len()
        invariant
            shown == strings(paths@),
            i <= paths@.len(),
            strings(out@) == searchable(shown.take(i as int), platform),
        decreases paths@.len() - i,
    {
        assert(shown.take(i + 1).drop_last() =~= shown.take(i as int));
        assert(shown.take(i + 1).last() == paths@[i as int]@);
        let ghost before = strings(out@);
        if should_search_for_environments_in_path(paths[i].as_str(), platform) {
            out.push(paths[i].clone());
            assert(strings(out@) =~= before.push(paths@[i as int]@));
        }
        i += 1;
    }
    assert(shown.take(paths@.len() as int) =~= shown);
    out
}

/// Plans the next level of a recursive search of workspace roots.
///
/// `listings` holds what was learned of each root of the level at `depth`.
/// Nothing is entered once `depth` has reached `max_depth`, and nothing below a
/// root that is itself an environment. Of the other roots, the
/// subdirectories that are not ignored are shared out in batches of at most
/// twenty, root after root; each batch is the list of roots of one task at
/// the next depth.
pub fn find_python_environments_in_workspace_folders_recursive(
    listings: &Vec<RootListing>,
    depth: u32,
    max_depth: u32,
    platform: Platform,
) -> (out: Vec<Vec<String>>)
    ensures
        nested(out@) == next_level(self::listings(listings@), depth, max_depth, platform),
        all_searchable(nested(out@), platform),
        depth >= max_depth ==> out@.len() == 0,
{
    let ghost shown = self::listings(listings@);
    let mut out: Vec<Vec<String>> = Vec::new();
    proof {
        lemma_next_level_searchable(shown, depth, max_depth, platform);
    }
    if !may_descend(depth, max_depth) {
        assert(nested(out@) =~= next_level(shown, depth, max_depth, platform));
        return out;
    }
    let mut i: usize = 0;
    assert(shown.take(0) =~= Seq::<RootListingView>::empty());
    assert(nested(out@) =~= batches_below_all(shown.take(0), platform));
    while i < listings.len()
        invariant
            shown == self::listings(listings@),
            i <= listings@.len(),
            nested(out@) == batches_below_all(shown.take(i as int), platform),
        decreases listings@.len() - i,
    {
        assert(shown.take(i + 1).drop_last() =~= shown.take(i as int));
        assert(shown.take(i + 1).last() == listings@[i as int]@);
        let ghost before = nested(out@);
        if !listings[i].has_bin {
            let kept = keep_searchable(&listings[i].subdirectories, platform);
            let mut pieces = split_into_batches(&kept);
            let ghost added = nested(pieces@);
            assert(added == batches_below(listings@[i as int]@, platform));
            out.append(&mut pieces);
            assert(nested(out@) =~= before + added);
        } else {
            assert(before + batches_below(listings@[i as int]@, platform) =~= before);
        }
        i += 1;
    }
    assert(shown.take(listings@.len() as int) =~= shown);
    out
}

/// The one place where a workspace root is probed for an interpreter.
pub open spec fn workspace_executable_path(root: Seq<char>, platform: Platform) -> Seq<char> {
    joined(joined(root, bin_dir_name(platform), platform), python_name(platform), platform)
}

/// The path at which a workspace root, taken to be an environment's root,
/// keeps its interpreter.
pub fn workspace_executable(root: &str, platform: Platform) -> (path: String)
    ensures
        path@ == workspace_executable_path(root@, platform),
{
    let bin = path_join(root, platform.bin_dir(), platform);
    path_join(bin.as_str(), platform.python(), platform)
}

/// What each workspace root gives to the locators: its one canonical
/// interpreter where that is present, and otherwise nothing. A root that
/// `present` does not reach gives nothing.
pub open spec fn workspace_found(
    roots: Seq<Seq<char>>,
    present: Seq<bool>,
    platform: Platform,
) -> Seq<Seq<Seq<char>>> {
    Seq::new(
        roots.len(),
        |i: int|
            if i < present.len() && present[i] {
                seq![workspace_executable_path(roots[i], platform)]
            } else {
                Seq::<Seq<char>>::empty()
            },
    )
}

/// The executables found in workspace roots. A workspace root is taken to
/// be an environment's root, so it is probed at one place only and no
/// directory is read: `present` tells of each root, in order, whether the
/// path of `workspace_executable` exists.
pub fn workspace_candidates(roots: &Vec<String>, present: &Vec<bool>, platform: Platform) -> (found:
    Vec<Vec<String>>)
    ensures
        nested(found@) == workspace_found(strings(roots@), present@, platform),
{
    let mut found: Vec<Vec<String>> = Vec::new();
    let mut i: usize = 0;
    while i < roots.len()
        invariant
            i <= roots@.len(),
            found@.len() == i,
            forall|k: int|
                0 <= k < i ==> strings((#[trigger] found@[k])@) == workspace_found(
                    strings(roots@),
                    present@,
                    platform,
                )[k],
        decreases roots@.len() - i,
    {
        let mut here: Vec<String> = Vec::new();
        if i < present.len() && present[i] {
            here.push(workspace_executable(roots[i].as_str(), platform));
            assert(strings(here@) =~= seq![
                workspace_executable_path(roots@[i as int]@, platform),
            ]);
        } else {
            assert(strings(here@) =~= Seq::<Seq<char>>::empty());
        }
        found.push(here);
        i += 1;
    }
    assert(nested(found@) =~= workspace_found(strings(roots@), present@, platform));
    found
}

} // verus!

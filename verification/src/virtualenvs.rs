//! The well-known places of virtual environments: the directories that
//! hold them, and the environments found there.

use vstd::prelude::*;
use vstd::string::*;

use crate::environment::opt_text;
use crate::paths::{joined, path_join};
use crate::platform::Platform;
use crate::text::{starts_with, strings, to_chars};

verus! {

/// The places below a user's home where tools keep virtual environments, in
/// the order in which they are looked into. Linux has one more than the
/// other platforms.
pub open spec fn home_subpaths(platform: Platform) -> Seq<Seq<char>> {
    seq!["envs"@, ".direnv"@, ".venvs"@, ".virtualenvs"@, ".local/share/virtualenvs"@] + (
    if platform is Linux {
        seq!["Envs"@]
    } else {
        Seq::<Seq<char>>::empty()
    })
}

/// The directories below the user's home that may hold virtual
/// environments: each of the fixed places, under the home.
pub open spec fn home_venv_dirs(home: Seq<char>, platform: Platform) -> Seq<Seq<char>> {
    Seq::new(
        home_subpaths(platform).len(),
        |i: int| joined(home, home_subpaths(platform)[i], platform),
    )
}

/// The directories that may hold virtual environments, in the order in
/// which they are looked into: the one that the user's settings name, then
/// those below the user's home.
pub open spec fn venv_dir_candidates(
    work_on_home: Option<Seq<char>>,
    user_home: Option<Seq<char>>,
    platform: Platform,
) -> Seq<Seq<char>> {
    (match work_on_home {
        Some(dir) => seq![dir],
        None => Seq::<Seq<char>>::empty(),
    }) + (match user_home {
        Some(home) => home_venv_dirs(home, platform),
        None => Seq::<Seq<char>>::empty(),
    })
}

/// Where the user's settings name no directory, every candidate lies below
/// the user's home.
pub proof fn lemma_candidates_below_home(home: Seq<char>, platform: Platform)
    ensures
        forall|i: int|
            0 <= i < venv_dir_candidates(None, Some(home), platform).len() ==> starts_with(
                #[trigger] venv_dir_candidates(None, Some(home), platform)[i],
                home,
            ),
{
    let all = venv_dir_candidates(None, Some(home), platform);
    assert(all =~= home_venv_dirs(home, platform));
    assert forall|i: int| 0 <= i < all.len() implies starts_with(#[trigger] all[i], home) by {
        let name = home_subpaths(platform)[i];
        assert(all[i] == joined(home, name, platform));
        assert(joined(home, name, platform).take(home.len() as int) =~= home);
    }
}

/// The items of a list that are marked present, in their order. An item
/// that `present` does not reach counts as absent.
pub open spec fn present_among(items: Seq<Seq<char>>, present: Seq<bool>) -> Seq<Seq<char>>
    decreases items.len(),
{
    if items.len() == 0 {
        Seq::<Seq<char>>::empty()
    } else {
        let before = present_among(items.drop_last(), present);
        let at = items.len() - 1;
        if at < present.len() && present[at] {
            before.push(items.last())
        } else {
            before
        }
    }
}

/// The directories that may hold virtual environments.
pub fn global_virtualenv_dir_candidates(
    work_on_home: &Option<String>,
    user_home: &Option<String>,
    platform: Platform,
) -> (out: Vec<String>)
    ensures
        strings(out@) == venv_dir_candidates(
            opt_text(*work_on_home),
            opt_text(*user_home),
            platform,
        ),
{
    let mut out: Vec<String> = Vec::new();
    match work_on_home {
        Some(dir) => {
            out.push(dir.clone());
        },
        None => {},
    }
    match user_home {
        Some(home) => {
            out.push(path_join(home.as_str(), "envs", platform));
            out.push(path_join(home.as_str(), ".direnv", platform));
            out.push(path_join(home.as_str(), ".venvs", platform));
            out.push(path_join(home.as_str(), ".virtualenvs", platform));
            out.push(path_join(home.as_str(), ".local/share/virtualenvs", platform));
            if platform == Platform::Linux {
                out.push(path_join(home.as_str(), "Envs", platform));
            }
        },
        None => {},
    }
    assert(strings(out@) =~= venv_dir_candidates(
        opt_text(*work_on_home),
        opt_text(*user_home),
        platform,
    ));
    out
}

/// The directories that hold virtual environments on this machine: of the
/// candidates, those that `present` says are there.
pub fn get_global_virtualenv_dirs(
    work_on_home: &Option<String>,
    user_home: &Option<String>,
    platform: Platform,
    present: &Vec<bool>,
) -> (out: Vec<String>)
    ensures
        strings(out@) == present_among(
            venv_dir_candidates(opt_text(*work_on_home), opt_text(*user_home), platform),
            present@,
        ),
{
    let candidates = global_virtualenv_dir_candidates(work_on_home, user_home, platform);
    let ghost shown = strings(candidates@);
    let mut out: Vec<String> = Vec::new();
    let mut i: usize = 0;
    assert(shown.take(0) =~= Seq::<Seq<char>>::empty());
    assert(strings(out@) =~= Seq::<Seq<char>>::empty());
    while i < candidates.len()
        invariant
            shown == strings(candidates@),
            i <= candidates@.len(),
            strings(out@) == present_among(shown.take(i as int), present@),
        decreases candidates@.len() - i,
    {
        assert(shown.take(i + 1).drop_last() =~= shown.take(i as int));
        assert(shown.take(i + 1).last() == candidates@[i as int]@);
        let ghost before = strings(out@);
        if i < present.len() && present[i] {
            out.push(candidates[i].clone());
            assert(strings(out@) =~= before.push(candidates@[i as int]@));
        }
        i += 1;
    }
    assert(shown.take(candidates@.len() as int) =~= shown);
    out
}

/// Whether two texts are the same up to position `k`.
pub open spec fn agree_until(a: Seq<char>, b: Seq<char>, k: int) -> bool {
    0 <= k <= a.len() && k <= b.len() && forall|j: int| 0 <= j < k ==> a[j] == b[j]
}

/// Whether `a` comes before `b` because of what stands at position `k`: up
/// to there the two are the same, and there `a` ends or has the smaller
/// character.
pub open spec fn precedes_at(a: Seq<char>, b: Seq<char>, k: int) -> bool {
    agree_until(a, b, k) && k < b.len() && (k == a.len() || (a[k] as u32) < (b[k] as u32))
}

/// Whether `a` comes before `b` in the order of the texts, character by
/// character.
pub open spec fn precedes(a: Seq<char>, b: Seq<char>) -> bool {
    exists|k: int| precedes_at(a, b, k)
}

/// Whether the texts stand in rising order, none of them twice.
pub open spec fn strictly_sorted(items: Seq<Seq<char>>) -> bool {
    forall|i: int, j: int|
        0 <= i < j < items.len() ==> precedes(#[trigger] items[i], #[trigger] items[j])
}

/// The order of the texts is transitive.
pub proof fn lemma_precedes_transitive(a: Seq<char>, b: Seq<char>, c: Seq<char>)
    requires
        precedes(a, b),
        precedes(b, c),
    ensures
        precedes(a, c),
{
    let first = choose|k: int| precedes_at(a, b, k);
    let second = choose|k: int| precedes_at(b, c, k);
    let k = if first <= second {
        first
    } else {
        second
    };
    assert(precedes_at(a, c, k));
}

/// No text comes before itself, so a strictly sorted list holds no text twice.
pub proof fn lemma_strictly_sorted_distinct(items: Seq<Seq<char>>)
    requires
        strictly_sorted(items),
    ensures
        forall|i: int, j: int|
            0 <= i < j < items.len() ==> #[trigger] items[i] != #[trigger] items[j],
{
    assert forall|i: int, j: int| 0 <= i < j < items.len() implies #[trigger] items[i]
        != #[trigger] items[j] by {
        let k = choose|k: int| precedes_at(items[i], items[j], k);
        assert(precedes_at(items[i], items[j], k));
    }
}

/// How one text stands to another.
#[derive(Clone, Copy, Debug, PartialEq, Eq, Structural)]
pub enum Order {
    Before,
    Same,
    After,
}

/// How `a` stands to `b` in the order of the texts.
pub fn compare_texts(a: &Vec<char>, b: &Vec<char>) -> (order: Order)
    ensures
        order is Before <==> precedes(a@, b@),
        order is Same <==> a@ == b@,
        order is After <==> precedes(b@, a@),
{
    let mut k: usize = 0;
    while k < a.len() && k < b.len()
        invariant
            agree_until(a@, b@, k as int),
        ensures
            agree_until(a@, b@, k as int),
            k < a@.len() && k < b@.len() ==> a@[k as int] != b@[k as int],
        decreases a@.len() - k,
    {
        if a[k] != b[k] {
            break ;
        }
        k += 1;
    }
    proof {
        assert(agree_until(b@, a@, k as int));
        assert forall|other: int|
            precedes_at(a@, b@, other) || precedes_at(b@, a@, other) implies other == k by {
            if other < k {
                assert(a@[other] == b@[other]);
            } else if other > k {
                if k < a@.len() && k < b@.len() {
                    assert(a@[k as int] == b@[k as int]);
                }
            }
        }
    }
    if k == a.len() && k == b.len() {
        assert(a@ =~= b@);
        Order::Same
    } else if k == a.len() {
        assert(precedes_at(a@, b@, k as int));
        Order::Before
    } else if k == b.len() {
        assert(precedes_at(b@, a@, k as int));
        Order::After
    } else if (a[k] as u32) < (b[k] as u32) {
        assert(precedes_at(a@, b@, k as int));
        Order::Before
    } else {
        proof {
            vstd::utf8::char_u32_cast(a@[k as int], a@[k as int] as u32);
            vstd::utf8::char_u32_cast(b@[k as int], b@[k as int] as u32);
        }
        assert(precedes_at(b@, a@, k as int));
        Order::After
    }
}

/// An entry found in a directory of virtual environments.
#[derive(Clone, Debug, PartialEq, Eq)]
pub struct ListedPath {
    pub path: String,
    /// Whether the entry is a Conda environment, which is not for the
    /// locators of virtual environments to find.
    pub is_conda_env: bool,
}

/// Whether the listings hold `path` as an entry that is no Conda environment.
pub open spec fn is_listed(listings: Seq<Vec<ListedPath>>, path: Seq<char>) -> bool {
    exists|i: int, k: int|
        0 <= i < listings.len() && 0 <= k < listings[i]@.len() && !(
        #[trigger] listings[i]@[k]).is_conda_env && listings[i]@[k].path@ == path
}

/// Whether `path` is such an entry among the first `k` of the listing at
/// `i` or in a listing before it.
pub open spec fn is_listed_before(
    listings: Seq<Vec<ListedPath>>,
    i: int,
    k: int,
    path: Seq<char>,
) -> bool {
    exists|a: int, b: int|
        0 <= a < listings.len() && 0 <= b < listings[a]@.len() && (a < i || (a == i && b < k)) && !(
        #[trigger] listings[a]@[b]).is_conda_env && listings[a]@[b].path@ == path
}

/// Puts `path` into a strictly sorted list, unless it is there already.
fn insert_sorted(out: &mut Vec<String>, path: &String)
    requires
        strictly_sorted(strings(old(out)@)),
    ensures
        strictly_sorted(strings(final(out)@)),
        forall|p: Seq<char>|
            strings(final(out)@).contains(p) <==> (strings(old(out)@).contains(p) || p == path@),
{
    let ghost before = strings(out@);
    let chars = to_chars(path.as_str());
    let mut at: usize = 0;
    let mut same = false;
    while at < out.len()
        invariant_except_break
            !same,
        invariant
            at <= out@.len(),
            chars@ == path@,
            before == strings(out@),
            forall|j: int| 0 <= j < at ==> precedes(#[trigger] before[j], path@),
        ensures
            at <= out@.len(),
            chars@ == path@,
            before == strings(out@),
            forall|j: int| 0 <= j < at ==> precedes(#[trigger] before[j], path@),
            same ==> at < out@.len() && before[at as int] == path@,
            !same && at < out@.len() ==> precedes(path@, before[at as int]),
        decreases out@.len() - at,
    {
        match compare_texts(&to_chars(out[at].as_str()), &chars) {
            Order::Before => {
                at += 1;
            },
            Order::Same => {
                same = true;
                break ;
            },
            Order::After => {
                break ;
            },
        }
    }
    if same {
        assert forall|p: Seq<char>| before.contains(p) <==> (before.contains(p) || p == path@) by {
            assert(before[at as int] == path@);
        }
        return ;
    }
    out.insert(at, path.clone());
    let ghost after = strings(out@);
    assert(after =~= before.insert(at as int, path@));
    assert forall|i: int, j: int| 0 <= i < j < after.len() implies precedes(
        #[trigger] after[i],
        #[trigger] after[j],
    ) by {
        if j < at {
            assert(after[i] == before[i] && after[j] == before[j]);
        } else if j == at {
            assert(after[i] == before[i]);
        } else if i == at {
            assert(after[j] == before[j - 1]);
            if j - 1 > at {
                assert(precedes(before[at as int], before[j - 1]));
                lemma_precedes_transitive(path@, before[at as int], before[j - 1]);
            }
        } else if i < at {
            assert(after[i] == before[i] && after[j] == before[j - 1]);
        } else {
            assert(after[i] == before[i - 1] && after[j] == before[j - 1]);
        }
    }
    assert forall|p: Seq<char>| after.contains(p) <==> (before.contains(p) || p == path@) by {
        if after.contains(p) {
            let i = choose|i: int| 0 <= i < after.len() && after[i] == p;
            if i < at {
                assert(before[i] == p);
            } else if i > at {
                assert(before[i - 1] == p);
            }
        }
        if before.contains(p) {
            let i = choose|i: int| 0 <= i < before.len() && before[i] == p;
            if i < at {
                assert(after[i] == p);
            } else {
                assert(after[i + 1] == p);
            }
        }
        if p == path@ {
            assert(after[at as int] == p);
        }
    }
}

/// The virtual environments found in the well-known directories.
///
/// `listings` holds the entries of each directory that
/// `get_global_virtualenv_dirs` gave and that could be read. The answer
/// holds every entry that is no Conda environment, once, in the order of
/// the texts.
pub fn list_global_virtual_envs_paths(listings: &Vec<Vec<ListedPath>>) -> (out: Vec<String>)
    ensures
        strictly_sorted(strings(out@)),
        forall|p: Seq<char>| strings(out@).contains(p) <==> is_listed(listings@, p),
{
    let mut out: Vec<String> = Vec::new();
    let mut i: usize = 0;
    assert(strictly_sorted(strings(out@)));
    while i < listings.len()
        invariant
            i <= listings@.len(),
            strictly_sorted(strings(out@)),
            forall|p: Seq<char>|
                strings(out@).contains(p) <==> is_listed_before(listings@, i as int, 0, p),
        decreases listings@.len() - i,
    {
        let listing = &listings[i];
        let mut k: usize = 0;
        while k < listing.len()
            invariant
                i < listings@.len(),
                listing == listings@[i as int],
                k <= listing@.len(),
                strictly_sorted(strings(out@)),
                forall|p: Seq<char>|
                    strings(out@).contains(p) <==> is_listed_before(
                        listings@,
                        i as int,
                        k as int,
                        p,
                    ),
            decreases listing@.len() - k,
        {
            let ghost before = strings(out@);
            if !listing[k].is_conda_env {
                insert_sorted(&mut out, &listing[k].path);
            }
            proof {
                assert forall|p: Seq<char>| strings(out@).contains(p) <==> is_listed_before(
                    listings@,
                    i as int,
                    k + 1,
                    p,
                ) by {
                    if is_listed_before(listings@, i as int, k + 1, p) {
                        let (a, b) = choose|a: int, b: int|
                            0 <= a < listings@.len() && 0 <= b < listings@[a]@.len() && (a < i || (a
                                == i && b < k + 1)) && !(#[trigger] listings@[a]@[b]).is_conda_env
                                && listings@[a]@[b].path@ == p;
                        if !(a == i && b == k) {
                            assert(is_listed_before(listings@, i as int, k as int, p));
                        }
                    }
                    if is_listed_before(listings@, i as int, k as int, p) {
                        let (a, b) = choose|a: int, b: int|
                            0 <= a < listings@.len() && 0 <= b < listings@[a]@.len() && (a < i || (a
                                == i && b < k)) && !(#[trigger] listings@[a]@[b]).is_conda_env
                                && listings@[a]@[b].path@ == p;
                        assert(!listings@[a]@[b].is_conda_env && (a < i || (a == i && b < k + 1)));
                    }
                    if !listing@[k as int].is_conda_env && p == listing@[k as int].path@ {
                        assert(!listings@[i as int]@[k as int].is_conda_env);
                    }
                }
            }
            k += 1;
        }
        proof {
            assert forall|p: Seq<char>| is_listed_before(listings@, i + 1, 0, p)
                <==> is_listed_before(listings@, i as int, listing@.len() as int, p) by {
                if is_listed_before(listings@, i + 1, 0, p) {
                    let (a, b) = choose|a: int, b: int|
                        0 <= a < listings@.len() && 0 <= b < listings@[a]@.len() && (a < i + 1 || (a
                            == i + 1 && b < 0)) && !(#[trigger] listings@[a]@[b]).is_conda_env
                            && listings@[a]@[b].path@ == p;
                    assert(!listings@[a]@[b].is_conda_env && (a < i || (a == i && b
                        < listing@.len())));
                }
                if is_listed_before(listings@, i as int, listing@.len() as int, p) {
                    let (a, b) = choose|a: int, b: int|
                        0 <= a < listings@.len() && 0 <= b < listings@[a]@.len() && (a < i || (a
                            == i && b < listing@.len())) && !(
                        #[trigger] listings@[a]@[b]).is_conda_env && listings@[a]@[b].path@ == p;
                    assert(!listings@[a]@[b].is_conda_env && a < i + 1);
                }
            }
        }
        i += 1;
    }
    proof {
        assert forall|p: Seq<char>| is_listed(listings@, p) <==> is_listed_before(
            listings@,
            listings@.len() as int,
            0,
            p,
        ) by {
            if is_listed(listings@, p) {
                let (a, b) = choose|a: int, b: int|
                    0 <= a < listings@.len() && 0 <= b < listings@[a]@.len() && !(
                    #[trigger] listings@[a]@[b]).is_conda_env && listings@[a]@[b].path@ == p;
                assert(!listings@[a]@[b].is_conda_env && a < listings@.len());
            }
            if is_listed_before(listings@, listings@.len() as int, 0, p) {
                let (a, b) = choose|a: int, b: int|
                    0 <= a < listings@.len() && 0 <= b < listings@[a]@.len() && (a < listings@.len()
                        || (a == listings@.len() && b < 0)) && !(
                    #[trigger] listings@[a]@[b]).is_conda_env && listings@[a]@[b].path@ == p;
                assert(!listings@[a]@[b].is_conda_env);
            }
        }
    }
    out
}

} // verus!

//! Paths as text.
//!
//! A path is a string whose components are separated by `/`, and on
//! Windows by `\` as well. Empty pieces (from a doubled or trailing
//! separator) and the piece `.` name nothing and are no components.
//! Everything the scanner decides about a path, it decides from its
//! components.

use vstd::prelude::*;
use vstd::string::*;

use crate::platform::{is_separator, main_separator, Platform};
use crate::text::{same_text, texts, to_chars};

verus! {

/// The pieces of `path` between separators, empty ones included. There is
/// always at least one piece: the text after the last separator.
pub open spec fn pieces(path: Seq<char>, platform: Platform) -> Seq<Seq<char>>
    decreases path.len(),
{
    if path.len() == 0 {
        seq![Seq::<char>::empty()]
    } else {
        let before = pieces(path.drop_last(), platform);
        if is_separator(path.last(), platform) {
            before.push(Seq::<char>::empty())
        } else {
            before.drop_last().push(before.last().push(path.last()))
        }
    }
}

/// Whether a piece names a directory entry.
pub open spec fn is_named(piece: Seq<char>) -> bool {
    piece.len() > 0 && !(piece.len() == 1 && piece[0] == '.')
}

/// The pieces that name something, in order.
pub open spec fn named(pieces: Seq<Seq<char>>) -> Seq<Seq<char>>
    decreases pieces.len(),
{
    if pieces.len() == 0 {
        Seq::<Seq<char>>::empty()
    } else {
        let before = named(pieces.drop_last());
        if is_named(pieces.last()) {
            before.push(pieces.last())
        } else {
            before
        }
    }
}

/// The components of a path.
pub open spec fn components(path: Seq<char>, platform: Platform) -> Seq<Seq<char>> {
    named(pieces(path, platform))
}

/// Whether `tail` is what `whole` ends with.
pub open spec fn is_suffix(tail: Seq<Seq<char>>, whole: Seq<Seq<char>>) -> bool {
    tail.len() <= whole.len() && forall|k: int|
        0 <= k < tail.len() ==> #[trigger] whole[whole.len() - tail.len() + k] == tail[k]
}

/// Whether the components of `path` end with those of `child`: whole
/// components only, so `/opt/sbin` does not end with `bin`.
pub open spec fn ends_with(path: Seq<char>, child: Seq<char>, platform: Platform) -> bool {
    is_suffix(components(child, platform), components(path, platform))
}

/// `name`, a relative path, placed under the directory `base`.
pub open spec fn joined(base: Seq<char>, name: Seq<char>, platform: Platform) -> Seq<char> {
    if base.len() == 0 {
        name
    } else if is_separator(base.last(), platform) {
        base + name
    } else {
        base + seq![main_separator(platform)] + name
    }
}

/// The last component of a path, or the empty text where it has none.
pub open spec fn file_name(path: Seq<char>, platform: Platform) -> Seq<char> {
    let parts = components(path, platform);
    if parts.len() == 0 {
        Seq::<char>::empty()
    } else {
        parts.last()
    }
}

/// A single component: non-empty, not `.`, and free of separators.
pub open spec fn is_component(name: Seq<char>, platform: Platform) -> bool {
    is_named(name) && forall|i: int| 0 <= i < name.len() ==> !is_separator(name[i], platform)
}

/// A path has at least one piece.
pub proof fn lemma_pieces_nonempty(path: Seq<char>, platform: Platform)
    ensures
        pieces(path, platform).len() >= 1,
    decreases path.len(),
{
    if path.len() > 0 {
        lemma_pieces_nonempty(path.drop_last(), platform);
    }
}

/// Appending text without separators only lengthens the last piece.
pub proof fn lemma_pieces_append(path: Seq<char>, name: Seq<char>, platform: Platform)
    requires
        forall|i: int| 0 <= i < name.len() ==> !is_separator(name[i], platform),
    ensures
        pieces(path + name, platform) == pieces(path, platform).drop_last().push(
            pieces(path, platform).last() + name,
        ),
    decreases name.len(),
{
    lemma_pieces_nonempty(path, platform);
    if name.len() == 0 {
        assert(path + name =~= path);
        assert(pieces(path, platform).last() + name =~= pieces(path, platform).last());
        assert(pieces(path, platform).drop_last().push(pieces(path, platform).last()) =~= pieces(
            path,
            platform,
        ));
    } else {
        let shorter = name.drop_last();
        lemma_pieces_append(path, shorter, platform);
        assert((path + name).drop_last() =~= path + shorter);
        assert((path + name).last() == name.last());
        let before = pieces(path + shorter, platform);
        assert(before.last() == pieces(path, platform).last() + shorter);
        assert(before.drop_last() =~= pieces(path, platform).drop_last());
        assert(before.last().push(name.last()) =~= pieces(path, platform).last() + name);
    }
}

/// A component joined to a directory becomes the path's last component.
pub proof fn lemma_components_joined(base: Seq<char>, name: Seq<char>, platform: Platform)
    requires
        is_component(name, platform),
    ensures
        components(joined(base, name, platform), platform) == components(base, platform).push(
            name,
        ),
        file_name(joined(base, name, platform), platform) == name,
        ends_with(joined(base, name, platform), name, platform),
{
    lemma_pieces_nonempty(base, platform);
    let empty = Seq::<char>::empty();
    if base.len() == 0 {
        assert(base + name =~= name);
        lemma_pieces_append(base, name, platform);
        assert(pieces(base, platform) =~= seq![empty]);
        assert(pieces(base, platform).drop_last() =~= Seq::<Seq<char>>::empty());
        assert(empty + name =~= name);
        let all = pieces(name, platform);
        assert(all =~= seq![name]);
        assert(all.drop_last() =~= Seq::<Seq<char>>::empty());
        assert(named(all.drop_last()) =~= Seq::<Seq<char>>::empty());
        assert(named(pieces(base, platform).drop_last()) =~= Seq::<Seq<char>>::empty());
        assert(components(base, platform) =~= Seq::<Seq<char>>::empty());
    } else if is_separator(base.last(), platform) {
        lemma_pieces_append(base, name, platform);
        let front = pieces(base.drop_last(), platform);
        assert(pieces(base, platform) == front.push(empty));
        assert(pieces(base, platform).drop_last() =~= front);
        assert(pieces(base, platform).last() + name =~= name);
        let all = pieces(base + name, platform);
        assert(all == front.push(name));
        assert(all.drop_last() =~= front);
        assert(components(base, platform) == named(front));
    } else {
        let with_separator = base.push(main_separator(platform));
        assert(base + seq![main_separator(platform)] =~= with_separator);
        assert(with_separator.drop_last() =~= base);
        assert(pieces(with_separator, platform) == pieces(base, platform).push(empty));
        lemma_pieces_append(with_separator, name, platform);
        assert(pieces(with_separator, platform).drop_last() =~= pieces(base, platform));
        assert(pieces(with_separator, platform).last() + name =~= name);
        let all = pieces(with_separator + name, platform);
        assert(all == pieces(base, platform).push(name));
        assert(all.drop_last() =~= pieces(base, platform));
    }
    lemma_single_component(name, platform);
    let whole = components(joined(base, name, platform), platform);
    assert(is_suffix(components(name, platform), whole)) by {
        assert(whole[whole.len() - 1] == name);
    }
}

/// A separator-free name is its own only component.
pub proof fn lemma_single_component(name: Seq<char>, platform: Platform)
    requires
        is_component(name, platform),
    ensures
        components(name, platform) == seq![name],
{
    let empty = Seq::<char>::empty();
    lemma_pieces_append(empty, name, platform);
    assert(empty + name =~= name);
    assert(pieces(empty, platform) =~= seq![empty]);
    assert(pieces(empty, platform).drop_last() =~= Seq::<Seq<char>>::empty());
    let all = pieces(name, platform);
    assert(all =~= seq![name]);
    assert(all.drop_last() =~= Seq::<Seq<char>>::empty());
    assert(named(all.drop_last()) =~= Seq::<Seq<char>>::empty());
    assert(named(all) =~= seq![name]);
}

fn names_entry(piece: &Vec<char>) -> (r: bool)
    ensures
        r == is_named(piece@),
{
    piece.len() > 0 && !(piece.len() == 1 && piece[0] == '.')
}

/// The components of a path, each as its characters.
pub fn split_components(path: &Vec<char>, platform: Platform) -> (out: Vec<Vec<char>>)
    ensures
        texts(out@) == components(path@, platform),
{
    let mut done: Vec<Vec<char>> = Vec::new();
    let mut current: Vec<char> = Vec::new();
    let mut i: usize = 0;
    assert(path@.take(0) =~= Seq::<char>::empty());
    assert(pieces(path@.take(0), platform).drop_last() =~= Seq::<Seq<char>>::empty());
    assert(texts(done@) =~= Seq::<Seq<char>>::empty());
    while i < path.len()
        invariant
            i <= path@.len(),
            texts(done@) == named(pieces(path@.take(i as int), platform).drop_last()),
            current@ == pieces(path@.take(i as int), platform).last(),
        decreases path@.len() - i,
    {
        let c = path[i];
        proof {
            let before = path@.take(i as int);
            let now = path@.take(i + 1);
            lemma_pieces_nonempty(before, platform);
            assert(now.drop_last() =~= before);
            assert(now.last() == c);
            if is_separator(c, platform) {
                assert(pieces(now, platform).drop_last() =~= pieces(before, platform));
            } else {
                assert(pieces(now, platform).drop_last() =~= pieces(before, platform).drop_last());
            }
        }
        if platform.separates(c) {
            let ghost shown = texts(done@);
            if names_entry(&current) {
                done.push(current);
                assert(texts(done@) =~= shown.push(current@));
            }
            current = Vec::new();
            assert(current@ =~= Seq::<char>::empty());
        } else {
            current.push(c);
        }
        i += 1;
    }
    proof {
        assert(path@.take(path@.len() as int) =~= path@);
        lemma_pieces_nonempty(path@, platform);
    }
    let ghost shown = texts(done@);
    if names_entry(&current) {
        done.push(current);
        assert(texts(done@) =~= shown.push(current@));
    }
    done
}

/// Whether `whole` ends with the texts of `tail`.
pub fn has_suffix(whole: &Vec<Vec<char>>, tail: &Vec<Vec<char>>) -> (r: bool)
    ensures
        r == is_suffix(texts(tail@), texts(whole@)),
{
    if tail.len() > whole.len() {
        return false;
    }
    let total = whole.len();
    let offset = total - tail.len();
    let mut k: usize = 0;
    while k < tail.len()
        invariant
            tail@.len() <= whole@.len(),
            total == whole@.len(),
            offset == whole@.len() - tail@.len(),
            k <= tail@.len(),
            forall|j: int|
                0 <= j < k ==> #[trigger] texts(whole@)[whole@.len() - tail@.len() + j] == texts(
                    tail@,
                )[j],
        decreases tail@.len() - k,
    {
        if !same_text(&whole[offset + k], &tail[k]) {
            assert(texts(whole@)[whole@.len() - tail@.len() + k] != texts(tail@)[k as int]);
            return false;
        }
        k += 1;
    }
    true
}

/// Whether the path ends with the components of `child`.
pub fn path_ends_with(path: &str, child: &str, platform: Platform) -> (r: bool)
    ensures
        r == ends_with(path@, child@, platform),
{
    let whole = split_components(&to_chars(path), platform);
    let tail = split_components(&to_chars(child), platform);
    has_suffix(&whole, &tail)
}

/// The path of `name` under the directory `base`.
pub fn path_join(base: &str, name: &str, platform: Platform) -> (out: String)
    ensures
        out@ == joined(base@, name@, platform),
{
    let chars = to_chars(base);
    let mut out = String::from_str(base);
    if chars.len() == 0 {
        out.append(name);
        assert(out@ =~= name@);
    } else if platform.separates(chars[chars.len() - 1]) {
        out.append(name);
    } else {
        out.append(platform.separator());
        out.append(name);
    }
    out
}

} // verus!

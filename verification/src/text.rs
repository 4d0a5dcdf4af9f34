//! Text helpers: strings as sequences of characters.

use vstd::prelude::*;
use vstd::std_specs::iter::IteratorSpec;
use vstd::string::*;

verus! {

/// What a vector of texts holds, as sequences.
pub open spec fn texts(parts: Seq<Vec<char>>) -> Seq<Seq<char>> {
    Seq::new(parts.len(), |i: int| parts[i]@)
}

/// What a vector of strings holds, as sequences.
pub open spec fn strings(items: Seq<String>) -> Seq<Seq<char>> {
    Seq::new(items.len(), |i: int| items[i]@)
}

/// The characters of a string.
pub fn to_chars(s: &str) -> (out: Vec<char>)
    ensures
        out@ == s@,
{
    broadcast use vstd::string::group_string_axioms;

    let mut out: Vec<char> = Vec::new();
    let chars = s.chars();
    assert(chars.remaining() == s@);
    for c in it: chars
        invariant
            it.seq() == s@,
            out@ == it.seq().take(it.index()),
    {
        out.push(c);
    }
    assert(out@ =~= s@);
    out
}

/// Whether two texts are the same.
pub fn same_text(a: &Vec<char>, b: &Vec<char>) -> (r: bool)
    ensures
        r == (a@ == b@),
{
    if a.len() != b.len() {
        return false;
    }
    let mut i: usize = 0;
    while i < a.len()
        invariant
            a@.len() == b@.len(),
            i <= a@.len(),
            forall|k: int| 0 <= k < i ==> a@[k] == b@[k],
        decreases a@.len() - i,
    {
        if a[i] != b[i] {
            return false;
        }
        i += 1;
    }
    assert(a@ =~= b@);
    true
}

/// Whether two strings are the same.
pub fn same_str(a: &str, b: &str) -> (r: bool)
    ensures
        r == (a@ == b@),
{
    let x = to_chars(a);
    let y = to_chars(b);
    same_text(&x, &y)
}

/// The pieces of `text` between occurrences of `separator`, empty ones
/// included. There is always at least one piece: the text after the last
/// separator.
pub open spec fn split(text: Seq<char>, separator: char) -> Seq<Seq<char>>
    decreases text.len(),
{
    if text.len() == 0 {
        seq![Seq::<char>::empty()]
    } else {
        let before = split(text.drop_last(), separator);
        if text.last() == separator {
            before.push(Seq::<char>::empty())
        } else {
            before.drop_last().push(before.last().push(text.last()))
        }
    }
}

/// A text always splits into at least one piece.
pub proof fn lemma_split_nonempty(text: Seq<char>, separator: char)
    ensures
        split(text, separator).len() >= 1,
    decreases text.len(),
{
    if text.len() > 0 {
        lemma_split_nonempty(text.drop_last(), separator);
    }
}

/// Whether `text` begins with `prefix`.
pub open spec fn starts_with(text: Seq<char>, prefix: Seq<char>) -> bool {
    prefix.len() <= text.len() && text.take(prefix.len() as int) == prefix
}

/// A character with the ASCII capitals folded to small letters; every other
/// character stays as it is.
pub open spec fn lower_char(c: char) -> char {
    if 'A' <= c && c <= 'Z' {
        ((c as u8) + 32) as char
    } else {
        c
    }
}

/// A text with the ASCII capitals folded to small letters.
pub open spec fn lowered(text: Seq<char>) -> Seq<char> {
    Seq::new(text.len(), |i: int| lower_char(text[i]))
}

/// Appends one character to a string.
///
/// Trusted: this is `String::push` of the standard library, which appends
/// the given character to the end of the string.
#[verifier::external_body]
pub(crate) fn push_char(out: &mut String, c: char)
    ensures
        final(out)@ == old(out)@.push(c),
{
    out.push(c)
}

/// The string made of the given characters.
pub fn string_of(chars: &Vec<char>) -> (out: String)
    ensures
        out@ == chars@,
{
    let mut out = String::new();
    let mut i: usize = 0;
    while i < chars.len()
        invariant
            i <= chars@.len(),
            out@ == chars@.take(i as int),
        decreases chars@.len() - i,
    {
        push_char(&mut out, chars[i]);
        assert(chars@.take(i + 1) =~= chars@.take(i as int).push(chars@[i as int]));
        i += 1;
    }
    assert(chars@.take(chars@.len() as int) =~= chars@);
    out
}

fn fold_char(c: char) -> (r: char)
    ensures
        r == lower_char(c),
{
    if 'A' <= c && c <= 'Z' {
        ((c as u8) + 32) as char
    } else {
        c
    }
}

/// The text with its ASCII capitals folded to small letters.
pub fn to_lowered(chars: &Vec<char>) -> (out: Vec<char>)
    ensures
        out@ == lowered(chars@),
{
    let mut out: Vec<char> = Vec::new();
    let mut i: usize = 0;
    while i < chars.len()
        invariant
            i <= chars@.len(),
            out@.len() == i,
            forall|k: int| 0 <= k < i ==> out@[k] == lower_char(chars@[k]),
        decreases chars@.len() - i,
    {
        out.push(fold_char(chars[i]));
        i += 1;
    }
    assert(out@ =~= lowered(chars@));
    out
}

/// Whether `text` begins with `prefix`.
pub fn has_prefix(text: &Vec<char>, prefix: &Vec<char>) -> (r: bool)
    ensures
        r == starts_with(text@, prefix@),
{
    if prefix.len() > text.len() {
        return false;
    }
    let mut i: usize = 0;
    while i < prefix.len()
        invariant
            prefix@.len() <= text@.len(),
            i <= prefix@.len(),
            forall|k: int| 0 <= k < i ==> text@[k] == prefix@[k],
        decreases prefix@.len() - i,
    {
        if text[i] != prefix[i] {
            assert(text@.take(prefix@.len() as int)[i as int] != prefix@[i as int]);
            return false;
        }
        i += 1;
    }
    assert(text@.take(prefix@.len() as int) =~= prefix@);
    true
}

/// The pieces of a text between occurrences of a separator.
pub fn split_text(text: &Vec<char>, separator: char) -> (out: Vec<Vec<char>>)
    ensures
        texts(out@) == split(text@, separator),
{
    let mut done: Vec<Vec<char>> = Vec::new();
    let mut current: Vec<char> = Vec::new();
    let mut i: usize = 0;
    assert(text@.take(0) =~= Seq::<char>::empty());
    assert(split(text@.take(0), separator).drop_last() =~= Seq::<Seq<char>>::empty());
    assert(texts(done@) =~= Seq::<Seq<char>>::empty());
    while i < text.len()
        invariant
            i <= text@.len(),
            texts(done@) == split(text@.take(i as int), separator).drop_last(),
            current@ == split(text@.take(i as int), separator).last(),
        decreases text@.len() - i,
    {
        let c = text[i];
        proof {
            let before = text@.take(i as int);
            let now = text@.take(i + 1);
            lemma_split_nonempty(before, separator);
            assert(now.drop_last() =~= before);
            assert(now.last() == c);
            if c == separator {
                assert(split(now, separator).drop_last() =~= split(before, separator));
            } else {
                assert(split(now, separator).drop_last() =~= split(before, separator).drop_last());
            }
        }
        if c == separator {
            let ghost shown = texts(done@);
            done.push(current);
            assert(texts(done@) =~= shown.push(current@));
            current = Vec::new();
            assert(current@ =~= Seq::<char>::empty());
        } else {
            current.push(c);
        }
        i += 1;
    }
    proof {
        assert(text@.take(text@.len() as int) =~= text@);
        lemma_split_nonempty(text@, separator);
    }
    let ghost shown = texts(done@);
    done.push(current);
    assert(texts(done@) =~= split(text@, separator)) by {
        assert(texts(done@) =~= shown.push(current@));
        assert(shown.push(current@) =~= split(text@, separator));
    }
    done
}

} // verus!

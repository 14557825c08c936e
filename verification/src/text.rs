//! Text as sequences of characters: what it means for one text to occur in
//! another and to be replaced there, and the functions that find and replace.

use vstd::prelude::*;

verus! {

/// `needle` stands in `hay` at position `at`.
pub open spec fn occurs_at(hay: Seq<char>, needle: Seq<char>, at: int) -> bool {
    &&& 0 <= at
    &&& at + needle.len() <= hay.len()
    &&& hay.subrange(at, at + needle.len()) == needle
}

/// `needle` stands somewhere in `hay`. The empty text occurs in every text.
pub open spec fn occurs_in(hay: Seq<char>, needle: Seq<char>) -> bool {
    exists|at: int| occurs_at(hay, needle, at)
}

/// `text` with every occurrence of `from` replaced by `to`, reading from the
/// left; an occurrence that overlaps one already replaced is not one. An
/// empty `from` replaces nothing.
pub open spec fn replace_all(text: Seq<char>, from: Seq<char>, to: Seq<char>) -> Seq<char>
    decreases text.len(),
{
    if from.len() == 0 || text.len() < from.len() {
        text
    } else if text.subrange(0, from.len() as int) == from {
        to + replace_all(text.subrange(from.len() as int, text.len() as int), from, to)
    } else {
        seq![text[0]] + replace_all(text.drop_first(), from, to)
    }
}

/// The lower-case form that the standard library gives a text.
pub uninterp spec fn lowercase_of(text: Seq<char>) -> Seq<char>;

/// `str::to_lowercase`: the lower-case form of `text`, which depends on
/// nothing but the text. Trusted, not proved.
#[verifier::external_body]
pub(crate) fn lowercase(text: &str) -> (lowered: String)
    ensures
        lowered@ == lowercase_of(text@),
{
    text.to_lowercase()
}

/// The characters of `text`.
pub fn chars_of(text: &str) -> (chars: Vec<char>)
    ensures
        chars@ == text@,
{
    let mut chars: Vec<char> = Vec::new();
    for c in it: text.chars()
        invariant
            chars@ == it.seq().take(it.index() as int),
            it.seq() == text@,
    {
        chars.push(c);
    }
    chars
}

/// Whether `needle` stands in `hay` at position `at`.
pub fn stands_at(hay: &Vec<char>, needle: &Vec<char>, at: usize) -> (found: bool)
    ensures
        found == occurs_at(hay@, needle@, at as int),
{
    if needle.len() > hay.len() || at > hay.len() - needle.len() {
        return false;
    }
    let mut k: usize = 0;
    while k < needle.len()
        invariant
            k <= needle.len(),
            at + needle.len() <= hay.len(),
            forall|j: int| 0 <= j < k ==> hay[at + j] == needle[j],
        decreases needle.len() - k,
    {
        if hay[at + k] != needle[k] {
            assert(hay@.subrange(at as int, at + needle.len())[k as int] != needle@[k as int]);
            return false;
        }
        k += 1;
    }
    assert(hay@.subrange(at as int, at + needle.len()) =~= needle@);
    true
}

/// Whether `needle` stands somewhere in `hay`. The empty text stands in every
/// text.
pub fn contains_text(hay: &str, needle: &str) -> (found: bool)
    ensures
        found == occurs_in(hay@, needle@),
{
    let hay_chars = chars_of(hay);
    let needle_chars = chars_of(needle);
    if needle_chars.len() > hay_chars.len() {
        return false;
    }
    let last: usize = hay_chars.len() - needle_chars.len();
    let mut at: usize = 0;
    loop
        invariant
            at <= last,
            last == hay_chars.len() - needle_chars.len(),
            hay_chars@ == hay@,
            needle_chars@ == needle@,
            forall|k: int| 0 <= k < at ==> !occurs_at(hay@, needle@, k),
        decreases last - at,
    {
        if stands_at(&hay_chars, &needle_chars, at) {
            return true;
        }
        if at == last {
            return false;
        }
        at += 1;
    }
}

/// `text` with every occurrence of `from` replaced by `to`, reading from the
/// left. An empty `from` replaces nothing.
pub fn replace_text(text: &str, from: &str, to: &str) -> (replaced: String)
    ensures
        replaced@ == replace_all(text@, from@, to@),
{
    let chars = chars_of(text);
    let pattern = chars_of(from);
    if pattern.len() == 0 {
        return text.to_owned();
    }
    let mut replaced = String::new();
    let mut kept_from: usize = 0;
    let mut at: usize = 0;
    proof {
        assert(text@.skip(0) =~= text@);
        assert(replaced@ + replace_all(text@, from@, to@) =~= replace_all(text@, from@, to@));
        assert(text@.subrange(0, 0) + replace_all(text@, from@, to@) =~= replace_all(
            text@,
            from@,
            to@,
        ));
    }
    while at < chars.len() && pattern.len() <= chars.len() - at
        invariant
            kept_from <= at <= chars.len(),
            chars@ == text@,
            pattern@ == from@,
            from@.len() > 0,
            replaced@ + replace_all(text@.skip(kept_from as int), from@, to@) == replace_all(
                text@,
                from@,
                to@,
            ),
            replace_all(text@.skip(kept_from as int), from@, to@) == text@.subrange(
                kept_from as int,
                at as int,
            ) + replace_all(text@.skip(at as int), from@, to@),
        decreases chars.len() - at,
    {
        let ghost rest = text@.skip(at as int);
        if stands_at(&chars, &pattern, at) {
            proof {
                assert(rest.subrange(0, from@.len() as int) =~= text@.subrange(
                    at as int,
                    at + from@.len(),
                ));
                assert(rest.subrange(from@.len() as int, rest.len() as int) =~= text@.skip(
                    at + from@.len(),
                ));
            }
            replaced.append(text.substring_char(kept_from, at));
            replaced.append(to);
            at = at + pattern.len();
            kept_from = at;
            proof {
                assert(text@.subrange(kept_from as int, at as int) =~= Seq::<char>::empty());
            }
        } else {
            proof {
                assert(rest.subrange(0, from@.len() as int) =~= text@.subrange(
                    at as int,
                    at + from@.len(),
                ));
                assert(rest.drop_first() =~= text@.skip(at + 1));
                assert(text@.subrange(kept_from as int, at + 1) =~= text@.subrange(
                    kept_from as int,
                    at as int,
                ) + seq![rest[0]]);
                assert(replace_all(text@.skip(kept_from as int), from@, to@) =~= text@.subrange(
                    kept_from as int,
                    at + 1,
                ) + replace_all(text@.skip(at + 1), from@, to@));
            }
            at += 1;
        }
    }
    proof {
        let rest = text@.skip(at as int);
        assert(rest.len() < from@.len());
        assert(text@.subrange(kept_from as int, at as int) + rest =~= text@.skip(kept_from as int));
    }
    replaced.append(text.substring_char(kept_from, chars.len()));
    assert(replaced@ =~= replace_all(text@, from@, to@));
    replaced
}

/// Whether two texts hold the same characters.
pub fn same_text(left: &str, right: &str) -> (same: bool)
    ensures
        same == (left@ == right@),
{
    let left_owned = left.to_owned();
    let right_owned = right.to_owned();
    left_owned == right_owned
}

/// Whether `items` holds `wanted`.
pub fn holds_text(items: &Vec<String>, wanted: &String) -> (found: bool)
    ensures
        found == items.deep_view().contains(wanted@),
{
    let mut at: usize = 0;
    while at < items.len()
        invariant
            at <= items.len(),
            forall|k: int| 0 <= k < at ==> items.deep_view()[k] != wanted@,
        decreases items.len() - at,
    {
        if items[at] == *wanted {
            assert(items.deep_view()[at as int] == wanted@);
            return true;
        }
        at += 1;
    }
    false
}

/// A copy of `items`.
pub fn copy_texts(items: &Vec<String>) -> (copy: Vec<String>)
    ensures
        copy.deep_view() == items.deep_view(),
{
    let mut copy: Vec<String> = Vec::new();
    let mut at: usize = 0;
    while at < items.len()
        invariant
            at <= items.len(),
            copy.len() == at,
            forall|k: int| 0 <= k < at ==> copy[k]@ == items[k]@,
        decreases items.len() - at,
    {
        copy.push(items[at].clone());
        at += 1;
    }
    assert(copy.deep_view() =~= items.deep_view());
    copy
}

/// A copy of an optional text.
pub fn copy_optional_text(text: &Option<String>) -> (copy: Option<String>)
    ensures
        copy.deep_view() == text.deep_view(),
{
    match text {
        Some(inner) => Some(inner.clone()),
        None => None,
    }
}

} // verus!

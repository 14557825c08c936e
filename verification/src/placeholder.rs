//! Placeholders: the marks `{name}` and `${name}` in a command line, how they
//! are found, and how values take their place.

use crate::command::Command;
use crate::text::{holds_text, replace_all, replace_text};
use std::collections::HashMap;
use vstd::prelude::*;

verus! {

/// The pattern that a placeholder matches: an optional dollar sign, an
/// opening brace, one or more characters other than a closing brace, which
/// are the name, and a closing brace.
pub const PLACEHOLDER_PATTERN: &'static str = "\\$?\\{([^}]+)\\}";

/// The group of `PLACEHOLDER_PATTERN` that holds the name.
pub const NAME_GROUP: usize = 1;

/// What the `regex` crate finds of `pattern` in `text`: `None` where it does
/// not accept the pattern; else, for each match in turn, the part of the text
/// that the group numbered `group` matched, or `None` where the group had no
/// part in the match.
pub uninterp spec fn regex_group_matches(pattern: Seq<char>, text: Seq<char>, group: usize) -> Option<
    Seq<Option<Seq<char>>>,
>;

/// `regex::Regex::new` on `pattern`, then `Regex::captures_iter` on `text`,
/// `Captures::get` with `group` on each match and `Match::as_str` on what it
/// gives. The crate searches from the left and its matches do not overlap;
/// what it finds depends on the pattern, the text and the group alone.
/// Trusted, not proved.
#[verifier::external_body]
pub(crate) fn group_matches(pattern: &str, text: &str, group: usize) -> (found: Option<
    Vec<Option<String>>,
>)
    ensures
        found.deep_view() == regex_group_matches(pattern@, text@, group),
{
    match regex::Regex::new(pattern) {
        Ok(compiled) => Some(
            compiled.captures_iter(text).map(
                |found| found.get(group).map(|part| part.as_str().to_string()),
            ).collect(),
        ),
        Err(_) => None,
    }
}

/// The items of `found` that are there, in their order.
pub open spec fn present(found: Seq<Option<Seq<char>>>) -> Seq<Seq<char>>
    decreases found.len(),
{
    if found.len() == 0 {
        Seq::empty()
    } else {
        match found.last() {
            Some(item) => present(found.drop_last()).push(item),
            None => present(found.drop_last()),
        }
    }
}

/// The items of `items`, each once, in the order in which they first stand.
pub open spec fn distinct(items: Seq<Seq<char>>) -> Seq<Seq<char>>
    decreases items.len(),
{
    if items.len() == 0 {
        Seq::empty()
    } else {
        let before = distinct(items.drop_last());
        if before.contains(items.last()) {
            before
        } else {
            before.push(items.last())
        }
    }
}

/// The names that a search for placeholders has found: each once, in the
/// order in which they first stand; none where the search could not be made.
pub open spec fn names_found(found: Option<Seq<Option<Seq<char>>>>) -> Seq<Seq<char>> {
    match found {
        Some(matches) => distinct(present(matches)),
        None => Seq::empty(),
    }
}

/// The names of the placeholders in `line`.
pub open spec fn placeholders_in(line: Seq<char>) -> Seq<Seq<char>> {
    names_found(regex_group_matches(PLACEHOLDER_PATTERN@, line, NAME_GROUP))
}

/// `distinct` holds nothing twice, and holds exactly what it was given.
pub proof fn lemma_distinct(items: Seq<Seq<char>>)
    ensures
        distinct(items).no_duplicates(),
        forall|item: Seq<char>| distinct(items).contains(item) <==> items.contains(item),
    decreases items.len(),
{
    if items.len() > 0 {
        let front = items.drop_last();
        let before = distinct(front);
        lemma_distinct(front);
        assert forall|item: Seq<char>| distinct(items).contains(item) <==> items.contains(
            item,
        ) by {
            if items.contains(item) {
                let at = choose|at: int| 0 <= at < items.len() && items[at] == item;
                if at < front.len() {
                    assert(front[at] == item);
                    assert(front.contains(item));
                    if !before.contains(items.last()) {
                        let k = choose|k: int| 0 <= k < before.len() && before[k] == item;
                        assert(before.push(items.last())[k] == item);
                    }
                } else {
                    assert(item == items.last());
                    if !before.contains(items.last()) {
                        assert(before.push(items.last())[before.len() as int] == item);
                    }
                }
            }
            if distinct(items).contains(item) {
                let k = choose|k: int| 0 <= k < distinct(items).len() && distinct(items)[k] == item;
                if k < before.len() {
                    assert(before[k] == item);
                    assert(front.contains(item));
                    let at = choose|at: int| 0 <= at < front.len() && front[at] == item;
                    assert(items[at] == item);
                } else {
                    assert(items[items.len() - 1] == item);
                }
            }
        }
    }
}

/// The names among `found`, each once, in the order in which they first
/// stand.
pub fn collect_names(found: &Vec<Option<String>>) -> (names: Vec<String>)
    ensures
        names.deep_view() == distinct(present(found.deep_view())),
        names.deep_view().no_duplicates(),
{
    let ghost all = found.deep_view();
    let mut names: Vec<String> = Vec::new();
    let mut at: usize = 0;
    assert(names.deep_view() =~= Seq::<Seq<char>>::empty());
    while at < found.len()
        invariant
            at <= found.len(),
            all == found.deep_view(),
            names.deep_view() == distinct(present(all.take(at as int))),
        decreases found.len() - at,
    {
        let ghost names_before = names.deep_view();
        proof {
            assert(all.take(at + 1).drop_last() =~= all.take(at as int));
            assert(all.take(at + 1).last() == all[at as int]);
        }
        match &found[at] {
            Some(name) => {
                proof {
                    let seen = present(all.take(at as int));
                    assert(present(all.take(at + 1)) == seen.push(name@));
                    assert(seen.push(name@).drop_last() =~= seen);
                }
                if !holds_text(&names, name) {
                    names.push(name.clone());
                    assert(names.deep_view() =~= names_before.push(name@));
                }
            },
            None => {},
        }
        at += 1;
    }
    proof {
        assert(all.take(at as int) =~= all);
        lemma_distinct(present(all));
    }
    names
}

/// The mark `{name}`.
pub open spec fn braced(name: Seq<char>) -> Seq<char> {
    seq!['{'] + name + seq!['}']
}

/// The mark `${name}`.
pub open spec fn dollar_braced(name: Seq<char>) -> Seq<char> {
    seq!['$', '{'] + name + seq!['}']
}

/// `text` with `value` in place of each `${name}`, and then of each `{name}`.
pub open spec fn substituted(text: Seq<char>, name: Seq<char>, value: Seq<char>) -> Seq<char> {
    replace_all(replace_all(text, dollar_braced(name), value), braced(name), value)
}

/// The step that puts the value of one pair in place of the marks of its
/// name.
pub open spec fn substitute_pair() -> spec_fn(Seq<char>, (Seq<char>, Seq<char>)) -> Seq<char> {
    |text: Seq<char>, pair: (Seq<char>, Seq<char>)| substituted(text, pair.0, pair.1)
}

/// `text` after the pairs of name and value have been put in, one pair after
/// the other in the order of `pairs`.
pub open spec fn substituted_all(text: Seq<char>, pairs: Seq<(Seq<char>, Seq<char>)>) -> Seq<char> {
    pairs.fold_left(text, substitute_pair())
}

/// The step that resolves one argument.
pub open spec fn resolve_with(pairs: Seq<(Seq<char>, Seq<char>)>) -> spec_fn(Seq<char>) -> Seq<
    char,
> {
    |text: Seq<char>| substituted_all(text, pairs)
}

/// `order` lists the entries of `entries`: each entry once and nothing else.
pub open spec fn lists_entries(
    order: Seq<(Seq<char>, Seq<char>)>,
    entries: Map<Seq<char>, Seq<char>>,
) -> bool {
    &&& forall|k: int|
        0 <= k < order.len() ==> entries.contains_key(#[trigger] order[k].0) && entries[order[k].0]
            == order[k].1
    &&& forall|key: Seq<char>| #[trigger]
        entries.contains_key(key) ==> exists|k: int| 0 <= k < order.len() && order[k].0 == key
    &&& forall|j: int, k: int|
        0 <= j < k < order.len() ==> (#[trigger] order[j]).0 != (#[trigger] order[k]).0
}

/// `HashMap::iter`, with each entry copied: the entries of `values`, each
/// once, in the order in which the map hands them out. That order is the
/// map's own affair, and two maps with the same entries may differ in it.
/// Trusted, not proved.
#[verifier::external_body]
pub(crate) fn entries_of(values: &HashMap<String, String>) -> (entries: Vec<(String, String)>)
    ensures
        lists_entries(entries.deep_view(), values.deep_view()),
{
    values.iter().map(|(key, value)| (key.clone(), value.clone())).collect()
}

/// `text` with `value` in place of each `${name}`, and then of each `{name}`.
pub fn substitute(text: &str, name: &str, value: &str) -> (resolved: String)
    ensures
        resolved@ == substituted(text@, name@, value@),
{
    proof {
        reveal_strlit("{");
        reveal_strlit("${");
        reveal_strlit("}");
    }
    let mut bare = "{".to_string();
    bare.append(name);
    bare.append("}");
    let mut dollar = "${".to_string();
    dollar.append(name);
    dollar.append("}");
    assert(bare@ =~= braced(name@));
    assert(dollar@ =~= dollar_braced(name@));
    let first = replace_text(text, dollar.as_str(), value);
    replace_text(first.as_str(), bare.as_str(), value)
}

/// `text` after the pairs of name and value have been put in, one pair after
/// the other in the order of `pairs`.
pub fn substitute_all(text: &str, pairs: &Vec<(String, String)>) -> (resolved: String)
    ensures
        resolved@ == substituted_all(text@, pairs.deep_view()),
{
    let ghost all = pairs.deep_view();
    let mut resolved = text.to_owned();
    let mut at: usize = 0;
    while at < pairs.len()
        invariant
            at <= pairs.len(),
            all == pairs.deep_view(),
            resolved@ == substituted_all(text@, all.take(at as int)),
        decreases pairs.len() - at,
    {
        proof {
            assert(all.take(at + 1).drop_last() =~= all.take(at as int));
            assert(all.take(at + 1).last() == all[at as int]);
            assert(all[at as int] == (pairs[at as int].0@, pairs[at as int].1@));
        }
        resolved = substitute(resolved.as_str(), pairs[at].0.as_str(), pairs[at].1.as_str());
        at += 1;
    }
    assert(all.take(at as int) =~= all);
    resolved
}

impl Command {
    /// The names of the placeholders in the program and its arguments, taken
    /// as one line: each name once, in the order in which they first stand.
    /// A name is whatever stands between an opening brace and the next
    /// closing brace, if anything stands there.
    pub fn detect_placeholders(&self) -> (names: Vec<String>)
        ensures
            names.deep_view() == placeholders_in(self@.full_command()),
            names.deep_view().no_duplicates(),
    {
        let line = self.full_command();
        match group_matches(PLACEHOLDER_PATTERN, line.as_str(), NAME_GROUP) {
            Some(found) => collect_names(&found),
            None => {
                let names: Vec<String> = Vec::new();
                assert(names.deep_view() =~= Seq::<Seq<char>>::empty());
                names
            },
        }
    }

    /// The program and the arguments with the values of `pairs` put in place
    /// of the marks of their names, one pair after the other in the order of
    /// `pairs`. The command itself is left as it is.
    pub fn replace_placeholders_in_order(&self, pairs: &Vec<(String, String)>) -> (resolved: (
        String,
        Vec<String>,
    ))
        ensures
            resolved.0@ == substituted_all(self@.command, pairs.deep_view()),
            resolved.1.deep_view() == self@.args.map_values(resolve_with(pairs.deep_view())),
    {
        let ghost all = pairs.deep_view();
        let program = substitute_all(self.command.as_str(), pairs);
        let mut args: Vec<String> = Vec::new();
        let mut at: usize = 0;
        while at < self.args.len()
            invariant
                at <= self.args.len(),
                all == pairs.deep_view(),
                args.len() == at,
                forall|k: int| 0 <= k < at ==> args[k]@ == substituted_all(self.args[k]@, all),
            decreases self.args.len() - at,
        {
            args.push(substitute_all(self.args[at].as_str(), pairs));
            at += 1;
        }
        assert(args.deep_view() =~= self@.args.map_values(resolve_with(all)));
        (program, args)
    }

    /// The program and the arguments with each value of `values` put in place
    /// of the marks of its name. The values are put in one name after the
    /// other, in the order in which the map hands out its entries; where one
    /// name's mark can arise from another's value, the result depends on that
    /// order. The command itself is left as it is.
    pub fn replace_placeholders(&self, values: &HashMap<String, String>) -> (resolved: (
        String,
        Vec<String>,
    ))
        ensures
            exists|order: Seq<(Seq<char>, Seq<char>)>|
                {
                    &&& lists_entries(order, values.deep_view())
                    &&& resolved.0@ == substituted_all(self@.command, order)
                    &&& resolved.1.deep_view() == self@.args.map_values(resolve_with(order))
                },
    {
        let pairs = entries_of(values);
        self.replace_placeholders_in_order(&pairs)
    }
}

} // verus!

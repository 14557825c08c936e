//! The collection of saved commands: what it holds, in which order, and how
//! commands enter, change and leave it.

use crate::clock::Timestamp;
use crate::command::{Command, CommandView};
use crate::error::{CommandArgusError, ErrorView};
use crate::sequences::lemma_filter_facts;
use crate::text::{contains_text, holds_text, lowercase, lowercase_of, occurs_in, same_text};
use vstd::prelude::*;

verus! {

/// Some entry of `entries` is named `name`.
pub open spec fn has_name(entries: Seq<CommandView>, name: Seq<char>) -> bool {
    exists|at: int| 0 <= at < entries.len() && entries[at].name == name
}

/// Some entry of `entries` has the identifier `id`.
pub open spec fn has_id(entries: Seq<CommandView>, id: u128) -> bool {
    exists|at: int| 0 <= at < entries.len() && entries[at].id == id
}

/// `at` is the place of the first entry with the identifier `id`.
pub open spec fn is_first_with_id(entries: Seq<CommandView>, id: u128, at: int) -> bool {
    &&& 0 <= at < entries.len()
    &&& entries[at].id == id
    &&& forall|k: int| 0 <= k < at ==> entries[k].id != id
}

/// `at` is the place of the first entry named `name`.
pub open spec fn is_first_with_name(entries: Seq<CommandView>, name: Seq<char>, at: int) -> bool {
    &&& 0 <= at < entries.len()
    &&& entries[at].name == name
    &&& forall|k: int| 0 <= k < at ==> entries[k].name != name
}

/// The test that keeps every entry but those with the identifier `id`.
pub open spec fn id_other_than(id: u128) -> spec_fn(CommandView) -> bool {
    |entry: CommandView| entry.id != id
}

/// One of `wanted` is among `tags`.
pub open spec fn shares_tag(tags: Seq<Seq<char>>, wanted: Seq<Seq<char>>) -> bool {
    exists|k: int| 0 <= k < wanted.len() && tags.contains(wanted[k])
}

/// The test that keeps the entries that carry one of the tags `wanted`.
pub open spec fn tagged_with_any(wanted: Seq<Seq<char>>) -> spec_fn(CommandView) -> bool {
    |entry: CommandView| shares_tag(entry.tags, wanted)
}

/// The test that keeps the entries whose name holds `query`, letter case
/// aside.
pub open spec fn name_holds(query: Seq<char>) -> spec_fn(CommandView) -> bool {
    |entry: CommandView| occurs_in(lowercase_of(entry.name), lowercase_of(query))
}

/// The names of `entries` in lower case.
pub open spec fn names_in_lowercase(entries: Seq<CommandView>) -> Seq<Seq<char>> {
    entries.map_values(|entry: CommandView| lowercase_of(entry.name))
}

/// The entries whose key holds `wanted`. The key of an entry is the text that
/// stands at its place in `keys`; an entry for which `keys` has no text is
/// left out.
pub open spec fn selected_by_key(
    entries: Seq<CommandView>,
    keys: Seq<Seq<char>>,
    wanted: Seq<char>,
) -> Seq<CommandView>
    decreases entries.len(),
{
    if entries.len() == 0 {
        Seq::empty()
    } else {
        let before = selected_by_key(entries.drop_last(), keys, wanted);
        let last = entries.len() - 1;
        if last < keys.len() && occurs_in(keys[last], wanted) {
            before.push(entries.last())
        } else {
            before
        }
    }
}

/// To select by the names in lower case is to keep the entries whose name
/// holds the query, letter case aside.
pub proof fn lemma_selected_by_lowered_name(entries: Seq<CommandView>, query: Seq<char>)
    ensures
        selected_by_key(entries, names_in_lowercase(entries), lowercase_of(query))
            == entries.filter(name_holds(query)),
{
    lemma_selected_by_prefix_of_names(entries, entries.len() as int, query);
    assert(entries.take(entries.len() as int) =~= entries);
}

/// The same of the first `upto` entries.
proof fn lemma_selected_by_prefix_of_names(entries: Seq<CommandView>, upto: int, query: Seq<char>)
    requires
        0 <= upto <= entries.len(),
    ensures
        selected_by_key(entries.take(upto), names_in_lowercase(entries), lowercase_of(query))
            == entries.take(upto).filter(name_holds(query)),
    decreases upto,
{
    if upto == 0 {
        reveal(Seq::filter);
    } else {
        lemma_selected_by_prefix_of_names(entries, upto - 1, query);
        assert(entries.take(upto).drop_last() =~= entries.take(upto - 1));
        assert(entries.take(upto) =~= entries.take(upto - 1).push(entries[upto - 1]));
        entries.take(upto - 1).lemma_filter_push(entries[upto - 1], name_holds(query));
    }
}

/// What is reported of a name that no entry has.
pub open spec fn no_such_name(name: Seq<char>) -> Seq<char> {
    "Command with name '"@ + name + "' not found"@
}

/// The entry that the store keeps after a change: what the change left of
/// it, under the identifier `id` and marked as changed at time `at`.
pub open spec fn kept_after_change(left: CommandView, id: u128, at: Timestamp) -> CommandView {
    CommandView { id, updated_at: at, ..left }
}

/// What storing `command` among `entries` comes to: the entries with the
/// command at their end, or the refusal of a name that is taken.
pub open spec fn create_outcome(entries: Seq<CommandView>, command: CommandView) -> Result<
    Seq<CommandView>,
    ErrorView,
> {
    if has_name(entries, command.name) {
        Err(ErrorView::DuplicateName(command.name))
    } else {
        Ok(entries.push(command))
    }
}

/// What deleting `id` from `entries` comes to: the entries without those of
/// that identifier, or the report that there is none.
pub open spec fn delete_outcome(entries: Seq<CommandView>, id: u128) -> Result<
    Seq<CommandView>,
    ErrorView,
> {
    if has_id(entries, id) {
        Ok(entries.filter(id_other_than(id)))
    } else {
        Err(ErrorView::NotFound(id))
    }
}

/// Whether one of `wanted` is among `tags`.
pub fn carries_any(tags: &Vec<String>, wanted: &[String]) -> (shared: bool)
    ensures
        shared == shares_tag(tags.deep_view(), wanted.deep_view()),
{
    let mut at: usize = 0;
    while at < wanted.len()
        invariant
            at <= wanted.len(),
            forall|k: int| 0 <= k < at ==> !tags.deep_view().contains(wanted.deep_view()[k]),
        decreases wanted.len() - at,
    {
        if holds_text(tags, &wanted[at]) {
            assert(tags.deep_view().contains(wanted.deep_view()[at as int]));
            return true;
        }
        at += 1;
    }
    false
}

/// The saved commands, in the order in which they were stored.
pub struct CommandStorage {
    pub commands: Vec<Command>,
}

impl DeepView for CommandStorage {
    type V = Seq<CommandView>;

    open spec fn deep_view(&self) -> Seq<CommandView> {
        self.commands.deep_view()
    }
}

impl View for CommandStorage {
    type V = Seq<CommandView>;

    open spec fn view(&self) -> Seq<CommandView> {
        self.deep_view()
    }
}

impl CommandStorage {
    /// A store that holds nothing.
    pub fn new() -> (store: CommandStorage)
        ensures
            store@ == Seq::<CommandView>::empty(),
    {
        let store = CommandStorage { commands: Vec::new() };
        assert(store@ =~= Seq::<CommandView>::empty());
        store
    }

    /// Stores `command` after the entries that are there, unless one of them
    /// has its name; hands the stored command back.
    pub fn create(&mut self, command: Command) -> (result: Result<Command, CommandArgusError>)
        ensures
            match create_outcome(old(self)@, command@) {
                Ok(entries) => result matches Ok(stored) && stored@ == command@ && final(self)@
                    == entries,
                Err(refusal) => result matches Err(error) && error@ == refusal && final(self)@
                    == old(self)@,
            },
    {
        let mut at: usize = 0;
        while at < self.commands.len()
            invariant
                at <= self.commands.len(),
                *self == *old(self),
                forall|k: int| 0 <= k < at ==> self@[k].name != command@.name,
            decreases self.commands.len() - at,
        {
            if self.commands[at].name == command.name {
                assert(self@[at as int].name == command@.name);
                return Err(CommandArgusError::DuplicateName(command.name.clone()));
            }
            at += 1;
        }
        let stored = command.clone();
        self.commands.push(command);
        assert(self@ =~= old(self)@.push(command@));
        Ok(stored)
    }

    /// The first entry with the identifier `id`.
    pub fn read(&self, id: u128) -> (result: Result<Command, CommandArgusError>)
        ensures
            match result {
                Ok(entry) => exists|at: int| is_first_with_id(self@, id, at) && entry@ == self@[at],
                Err(error) => error@ == ErrorView::NotFound(id) && !has_id(self@, id),
            },
    {
        let mut at: usize = 0;
        while at < self.commands.len()
            invariant
                at <= self.commands.len(),
                forall|k: int| 0 <= k < at ==> self@[k].id != id,
            decreases self.commands.len() - at,
        {
            if self.commands[at].id == id {
                assert(is_first_with_id(self@, id, at as int));
                return Ok(self.commands[at].clone());
            }
            at += 1;
        }
        Err(CommandArgusError::NotFound(id))
    }

    /// The first entry named `name`.
    pub fn read_by_name(&self, name: &str) -> (result: Result<Command, CommandArgusError>)
        ensures
            match result {
                Ok(entry) => exists|at: int|
                    is_first_with_name(self@, name@, at) && entry@ == self@[at],
                Err(error) => error@ == ErrorView::Storage(no_such_name(name@)) && !has_name(
                    self@,
                    name@,
                ),
            },
    {
        let mut at: usize = 0;
        while at < self.commands.len()
            invariant
                at <= self.commands.len(),
                forall|k: int| 0 <= k < at ==> self@[k].name != name@,
            decreases self.commands.len() - at,
        {
            if same_text(self.commands[at].name.as_str(), name) {
                assert(is_first_with_name(self@, name@, at as int));
                return Ok(self.commands[at].clone());
            }
            at += 1;
        }
        let mut message = "Command with name '".to_string();
        message.append(name);
        message.append("' not found");
        Err(CommandArgusError::Storage(message))
    }

    /// Removes the entries with the identifier `id`, and leaves the others as
    /// they stand.
    pub fn delete(&mut self, id: u128) -> (result: Result<(), CommandArgusError>)
        ensures
            match delete_outcome(old(self)@, id) {
                Ok(entries) => final(self)@ == entries && result is Ok,
                Err(report) => result matches Err(error) && error@ == report && final(self)@
                    == old(self)@,
            },
    {
        let ghost before = self@;
        let ghost keep = id_other_than(id);
        let mut kept: Vec<Command> = Vec::new();
        let mut at: usize = 0;
        assert(kept.deep_view() =~= before.take(0).filter(keep)) by {
            reveal(Seq::filter);
        }
        while at < self.commands.len()
            invariant
                at <= self.commands.len(),
                *self == *old(self),
                before == self@,
                keep == id_other_than(id),
                kept.deep_view() == before.take(at as int).filter(keep),
                kept.len() == at <==> forall|k: int| 0 <= k < at ==> before[k].id != id,
                kept.len() <= at,
            decreases self.commands.len() - at,
        {
            proof {
                assert(before.take(at + 1) =~= before.take(at as int).push(before[at as int]));
                before.take(at as int).lemma_filter_push(before[at as int], keep);
            }
            let ghost kept_before = kept.deep_view();
            if self.commands[at].id != id {
                kept.push(self.commands[at].clone());
                assert(kept.deep_view() =~= kept_before.push(before[at as int]));
            }
            at += 1;
        }
        assert(before.take(at as int) =~= before);
        if kept.len() == self.commands.len() {
            return Err(CommandArgusError::NotFound(id));
        }
        self.commands = kept;
        Ok(())
    }

    /// Lets `update_fn` change the first entry with the identifier `id` and
    /// gives the entry its identifier back, should `update_fn` have changed
    /// it. Tells the place of that entry, or that there is none.
    fn change_first<F: FnOnce(&mut Command)>(&mut self, id: u128, update_fn: F) -> (place: Option<
        usize,
    >)
        requires
            forall|entry: &mut Command|
                old(self).commands@.contains(*entry) && entry.id == id ==> update_fn.requires(
                    (entry,),
                ),
        ensures
            match place {
                Some(at) => {
                    &&& is_first_with_id(old(self)@, id, at as int)
                    &&& final(self).commands@.len() == old(self).commands@.len()
                    &&& forall|k: int|
                        0 <= k < old(self).commands@.len() && k != at ==> final(self).commands@[k]
                            == old(self).commands@[k]
                    &&& exists|entry: &mut Command|
                        {
                            &&& *entry == old(self).commands[at as int]
                            &&& update_fn.ensures((entry,), ())
                            &&& final(self).commands[at as int]@ == (CommandView {
                                id,
                                ..final(entry)@
                            })
                        }
                },
                None => !has_id(old(self)@, id) && *final(self) == *old(self),
            },
    {
        let mut at: usize = 0;
        while at < self.commands.len() && self.commands[at].id != id
            invariant
                at <= self.commands.len(),
                *self == *old(self),
                forall|k: int| 0 <= k < at ==> self@[k].id != id,
            decreases self.commands.len() - at,
        {
            at += 1;
        }
        if at == self.commands.len() {
            return None;
        }
        assert(is_first_with_id(old(self)@, id, at as int));
        assert(old(self).commands@.contains(old(self).commands[at as int]));
        update_fn(&mut self.commands[at]);
        self.commands[at].id = id;
        Some(at)
    }

    /// Lets `update_fn` change the first entry with the identifier `id`, marks
    /// the entry as changed at the present time, and hands back the entry as
    /// it then stands. The entry keeps its identifier whatever `update_fn`
    /// does, and the other entries stay as they are. The time is read from
    /// the clock after `update_fn` has run; of a reading of the clock only
    /// this is known, that its nanoseconds stay within one second.
    pub fn update<F: FnOnce(&mut Command)>(&mut self, id: u128, update_fn: F) -> (result: Result<
        Command,
        CommandArgusError,
    >)
        requires
            forall|entry: &mut Command|
                old(self).commands@.contains(*entry) && entry.id == id ==> update_fn.requires(
                    (entry,),
                ),
        ensures
            match result {
                Ok(updated) => {
                    &&& updated.id == id
                    &&& updated.updated_at.nanos < 1_000_000_000
                    &&& exists|place: int, entry: &mut Command|
                        {
                            &&& is_first_with_id(old(self)@, id, place)
                            &&& *entry == old(self).commands[place]
                            &&& update_fn.ensures((entry,), ())
                            &&& updated@ == kept_after_change(
                                final(entry)@,
                                id,
                                updated.updated_at,
                            )
                            &&& final(self)@ == old(self)@.update(place, updated@)
                        }
                },
                Err(error) => error@ == ErrorView::NotFound(id) && !has_id(old(self)@, id)
                    && final(self)@ == old(self)@,
            },
    {
        match self.change_first(id, update_fn) {
            Some(place) => {
                self.commands[place].update();
                let updated = self.commands[place].clone();
                assert(self@ =~= old(self)@.update(place as int, updated@));
                Ok(updated)
            },
            None => Err(CommandArgusError::NotFound(id)),
        }
    }

    /// Lets `update_fn` change the first entry with the identifier `id`, marks
    /// the entry as changed at time `at`, and hands back the entry as it then
    /// stands. The entry keeps its identifier whatever `update_fn` does, and
    /// the other entries stay as they are.
    pub fn update_at<F: FnOnce(&mut Command)>(
        &mut self,
        id: u128,
        update_fn: F,
        at: Timestamp,
    ) -> (result: Result<Command, CommandArgusError>)
        requires
            forall|entry: &mut Command|
                old(self).commands@.contains(*entry) && entry.id == id ==> update_fn.requires(
                    (entry,),
                ),
        ensures
            match result {
                Ok(updated) => {
                    &&& updated.id == id
                    &&& updated.updated_at == at
                    &&& exists|place: int, entry: &mut Command|
                        {
                            &&& is_first_with_id(old(self)@, id, place)
                            &&& *entry == old(self).commands[place]
                            &&& update_fn.ensures((entry,), ())
                            &&& updated@ == kept_after_change(final(entry)@, id, at)
                            &&& final(self)@ == old(self)@.update(place, updated@)
                        }
                },
                Err(error) => error@ == ErrorView::NotFound(id) && !has_id(old(self)@, id)
                    && final(self)@ == old(self)@,
            },
    {
        match self.change_first(id, update_fn) {
            Some(place) => {
                self.commands[place].update_at(at);
                let updated = self.commands[place].clone();
                assert(self@ =~= old(self)@.update(place as int, updated@));
                Ok(updated)
            },
            None => Err(CommandArgusError::NotFound(id)),
        }
    }

    /// The entries that carry at least one of `tags`, in the order of the
    /// store.
    pub fn search_by_tags(&self, tags: &[String]) -> (found: Vec<Command>)
        ensures
            found.deep_view() == self@.filter(tagged_with_any(tags.deep_view())),
    {
        let ghost keep = tagged_with_any(tags.deep_view());
        let mut found: Vec<Command> = Vec::new();
        let mut at: usize = 0;
        assert(found.deep_view() =~= self@.take(0).filter(keep)) by {
            reveal(Seq::filter);
        }
        while at < self.commands.len()
            invariant
                at <= self.commands.len(),
                keep == tagged_with_any(tags.deep_view()),
                found.deep_view() == self@.take(at as int).filter(keep),
            decreases self.commands.len() - at,
        {
            proof {
                assert(self@.take(at + 1) =~= self@.take(at as int).push(self@[at as int]));
                self@.take(at as int).lemma_filter_push(self@[at as int], keep);
            }
            let ghost found_before = found.deep_view();
            if carries_any(&self.commands[at].tags, tags) {
                found.push(self.commands[at].clone());
                assert(found.deep_view() =~= found_before.push(self@[at as int]));
            }
            at += 1;
        }
        assert(self@.take(at as int) =~= self@);
        found
    }

    /// The names of the entries in lower case, in the order of the store.
    pub fn lowered_names(&self) -> (lowered: Vec<String>)
        ensures
            lowered.deep_view() == names_in_lowercase(self@),
    {
        let mut lowered: Vec<String> = Vec::new();
        let mut at: usize = 0;
        while at < self.commands.len()
            invariant
                at <= self.commands.len(),
                lowered.len() == at,
                forall|k: int| 0 <= k < at ==> lowered[k]@ == lowercase_of(self@[k].name),
            decreases self.commands.len() - at,
        {
            lowered.push(lowercase(self.commands[at].name.as_str()));
            at += 1;
        }
        assert(lowered.deep_view() =~= names_in_lowercase(self@));
        lowered
    }

    /// The entries whose key holds `wanted`, in the order of the store. The
    /// key of an entry is the text that stands at its place in `keys`; an
    /// entry for which `keys` has no text is left out.
    pub fn search_by_key(&self, keys: &Vec<String>, wanted: &str) -> (found: Vec<Command>)
        ensures
            found.deep_view() == selected_by_key(self@, keys.deep_view(), wanted@),
    {
        let ghost all_keys = keys.deep_view();
        let mut found: Vec<Command> = Vec::new();
        let mut at: usize = 0;
        assert(found.deep_view() =~= selected_by_key(self@.take(0), all_keys, wanted@));
        while at < self.commands.len()
            invariant
                at <= self.commands.len(),
                all_keys == keys.deep_view(),
                found.deep_view() == selected_by_key(self@.take(at as int), all_keys, wanted@),
            decreases self.commands.len() - at,
        {
            proof {
                assert(self@.take(at + 1).drop_last() =~= self@.take(at as int));
                assert(self@.take(at + 1).last() == self@[at as int]);
            }
            let ghost found_before = found.deep_view();
            if at < keys.len() && contains_text(keys[at].as_str(), wanted) {
                found.push(self.commands[at].clone());
                assert(found.deep_view() =~= found_before.push(self@[at as int]));
            }
            at += 1;
        }
        assert(self@.take(at as int) =~= self@);
        found
    }

    /// The entries whose name holds `query`, letter case aside, in the order
    /// of the store.
    pub fn search_by_name(&self, query: &str) -> (found: Vec<Command>)
        ensures
            found.deep_view() == self@.filter(name_holds(query@)),
    {
        let lowered_query = lowercase(query);
        let lowered = self.lowered_names();
        proof {
            lemma_selected_by_lowered_name(self@, query@);
        }
        self.search_by_key(&lowered, lowered_query.as_str())
    }

    /// Every entry, in the order of the store.
    pub fn list(&self) -> (entries: Vec<Command>)
        ensures
            entries.deep_view() == self@,
    {
        let mut entries: Vec<Command> = Vec::new();
        let mut at: usize = 0;
        while at < self.commands.len()
            invariant
                at <= self.commands.len(),
                entries.len() == at,
                forall|k: int| 0 <= k < at ==> entries[k]@ == self.commands[k]@,
            decreases self.commands.len() - at,
        {
            entries.push(self.commands[at].clone());
            at += 1;
        }
        assert(entries.deep_view() =~= self@);
        entries
    }
}

impl Default for CommandStorage {
    /// A store that holds nothing.
    fn default() -> (store: CommandStorage)
        ensures
            store@ == Seq::<CommandView>::empty(),
    {
        CommandStorage::new()
    }
}

/// What storing `commands` one after the other among `entries` comes to: the
/// entries after the last was stored, or the first refusal.
pub open spec fn create_in_turn(entries: Seq<CommandView>, commands: Seq<CommandView>) -> Result<
    Seq<CommandView>,
    ErrorView,
>
    decreases commands.len(),
{
    if commands.len() == 0 {
        Ok(entries)
    } else {
        match create_in_turn(entries, commands.drop_last()) {
            Ok(stored) => create_outcome(stored, commands.last()),
            Err(refusal) => Err(refusal),
        }
    }
}

/// No two of `commands` have the same name.
pub open spec fn names_differ(commands: Seq<CommandView>) -> bool {
    forall|j: int, k: int| 0 <= j < k < commands.len() ==> commands[j].name != commands[k].name
}

/// Commands whose names differ from one another and from those stored are
/// all accepted, and the store then lists them after the entries it had, each
/// as it was handed in and in the order of their storing. From an empty store
/// the list is the commands themselves.
pub proof fn lemma_stored_commands_are_listed(entries: Seq<CommandView>, commands: Seq<CommandView>)
    requires
        names_differ(commands),
        forall|k: int| 0 <= k < commands.len() ==> !has_name(entries, commands[k].name),
    ensures
        create_in_turn(entries, commands) == Ok::<Seq<CommandView>, ErrorView>(entries + commands),
        create_in_turn(Seq::empty(), commands) == Ok::<Seq<CommandView>, ErrorView>(commands),
    decreases commands.len(),
{
    let empty = Seq::<CommandView>::empty();
    if commands.len() == 0 {
        assert(entries + commands =~= entries);
        assert(empty + commands =~= commands);
    } else {
        let front = commands.drop_last();
        let last = commands.last();
        lemma_stored_commands_are_listed(entries, front);
        lemma_stored_commands_are_listed(empty, front);
        assert(!has_name(entries + front, last.name)) by {
            if has_name(entries + front, last.name) {
                let at = choose|at: int|
                    0 <= at < (entries + front).len() && (entries + front)[at].name == last.name;
                if at < entries.len() {
                    assert(entries[at].name == last.name);
                    assert(has_name(entries, commands[commands.len() - 1].name));
                } else {
                    assert(commands[at - entries.len()].name == last.name);
                }
            }
        }
        assert(!has_name(front, last.name)) by {
            if has_name(front, last.name) {
                let at = choose|at: int| 0 <= at < front.len() && front[at].name == last.name;
                assert(commands[at].name == last.name);
            }
        }
        assert((entries + front).push(last) =~= entries + commands);
        assert(front.push(last) =~= commands);
    }
}

/// A name that was stored is taken: once `first` has been accepted, a
/// command of the same name is refused as a duplicate, whatever else it
/// holds, and the store stays as it was. A command whose name no entry has is
/// accepted.
pub proof fn lemma_second_of_a_name_is_refused(
    entries: Seq<CommandView>,
    first: CommandView,
    second: CommandView,
)
    requires
        create_outcome(entries, first) is Ok,
    ensures
        second.name == first.name ==> create_outcome(create_outcome(entries, first)->Ok_0, second)
            == Err::<Seq<CommandView>, ErrorView>(ErrorView::DuplicateName(second.name)),
        second.name != first.name && !has_name(entries, second.name) ==> create_outcome(
            create_outcome(entries, first)->Ok_0,
            second,
        ) == Ok::<Seq<CommandView>, ErrorView>(entries.push(first).push(second)),
{
    let stored = entries.push(first);
    assert(stored[entries.len() as int] == first);
    if second.name != first.name && !has_name(entries, second.name) {
        if has_name(stored, second.name) {
            let at = choose|at: int| 0 <= at < stored.len() && stored[at].name == second.name;
            if at < entries.len() {
                assert(entries[at].name == second.name);
            }
        }
    }
}

/// Deleting removes what has the identifier and nothing else: an identifier
/// that no entry has is reported and leaves the entries as they are; else no
/// entry of what is left has the identifier, every entry with another
/// identifier is still there, and what is left stands in the order it had.
pub proof fn lemma_delete_removes_only(entries: Seq<CommandView>, id: u128)
    ensures
        !has_id(entries, id) ==> delete_outcome(entries, id) == Err::<Seq<CommandView>, ErrorView>(
            ErrorView::NotFound(id),
        ),
        has_id(entries, id) ==> delete_outcome(entries, id) is Ok,
        has_id(entries, id) ==> {
            let left = delete_outcome(entries, id)->Ok_0;
            &&& !has_id(left, id)
            &&& left.len() < entries.len()
            &&& forall|entry: CommandView|
                left.contains(entry) <==> entries.contains(entry) && entry.id != id
        },
{
    if has_id(entries, id) {
        let keep = id_other_than(id);
        let left = entries.filter(keep);
        lemma_filter_facts(entries, keep);
        let at = choose|at: int| 0 <= at < entries.len() && entries[at].id == id;
        assert(!keep(entries[at]));
    }
}

/// A search by tags finds the entries that carry one of the tags and no
/// others: an entry is found exactly if it is stored and one of the tags is
/// among its own. An entry none of whose tags is asked for is not found.
pub proof fn lemma_search_by_tags_finds_only(entries: Seq<CommandView>, wanted: Seq<Seq<char>>)
    ensures
        forall|entry: CommandView|
            entries.filter(tagged_with_any(wanted)).contains(entry) <==> entries.contains(entry)
                && shares_tag(entry.tags, wanted),
        forall|k: int|
            0 <= k < entries.filter(tagged_with_any(wanted)).len() ==> shares_tag(
                (#[trigger] entries.filter(tagged_with_any(wanted))[k]).tags,
                wanted,
            ),
{
    let keep = tagged_with_any(wanted);
    lemma_filter_facts(entries, keep);
    assert forall|k: int| 0 <= k < entries.filter(keep).len() implies shares_tag(
        (#[trigger] entries.filter(keep)[k]).tags,
        wanted,
    ) by {
        assert(entries.filter(keep).contains(entries.filter(keep)[k]));
    }
}

} // verus!

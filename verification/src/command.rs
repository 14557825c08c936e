//! The record of a saved command, and what can be done to one.

use crate::clock::{now, Timestamp};
use crate::identity::{fresh_id, is_random_id};
use crate::sequences::{lemma_filter_facts, lemma_filter_keeps_distinct};
use crate::text::{copy_optional_text, copy_texts, holds_text, same_text};
use vstd::prelude::*;

verus! {

/// The kind of input a parameter asks for.
#[derive(Clone, Copy, Debug, PartialEq, Eq, Structural)]
pub enum ParameterType {
    Text,
    File,
    Directory,
    Select,
}

/// The word by which a parameter kind is written.
pub open spec fn parameter_type_name(kind: ParameterType) -> Seq<char> {
    match kind {
        ParameterType::Text => "text"@,
        ParameterType::File => "file"@,
        ParameterType::Directory => "directory"@,
        ParameterType::Select => "select"@,
    }
}

/// The parameter kind that a word stands for. A word that names none stands
/// for `Text`.
pub open spec fn parameter_type_named(word: Seq<char>) -> ParameterType {
    if word == "file"@ {
        ParameterType::File
    } else if word == "directory"@ {
        ParameterType::Directory
    } else if word == "select"@ {
        ParameterType::Select
    } else {
        ParameterType::Text
    }
}

/// Writes a parameter kind as a word.
pub fn parameter_type_to_string(param_type: &ParameterType) -> (word: String)
    ensures
        word@ == parameter_type_name(*param_type),
{
    match param_type {
        ParameterType::Text => "text".to_string(),
        ParameterType::File => "file".to_string(),
        ParameterType::Directory => "directory".to_string(),
        ParameterType::Select => "select".to_string(),
    }
}

/// Reads a parameter kind from a word.
pub fn string_to_parameter_type(s: &str) -> (kind: ParameterType)
    ensures
        kind == parameter_type_named(s@),
{
    if same_text(s, "file") {
        ParameterType::File
    } else if same_text(s, "directory") {
        ParameterType::Directory
    } else if same_text(s, "select") {
        ParameterType::Select
    } else {
        ParameterType::Text
    }
}

/// One assignment of a value to a variable of the environment.
#[derive(Debug, PartialEq, Eq)]
pub struct EnvironmentVariable {
    pub key: String,
    pub value: String,
}

/// What an `EnvironmentVariable` holds.
pub struct EnvironmentVariableView {
    pub key: Seq<char>,
    pub value: Seq<char>,
}

impl DeepView for EnvironmentVariable {
    type V = EnvironmentVariableView;

    open spec fn deep_view(&self) -> EnvironmentVariableView {
        EnvironmentVariableView { key: self.key@, value: self.value@ }
    }
}

impl View for EnvironmentVariable {
    type V = EnvironmentVariableView;

    open spec fn view(&self) -> EnvironmentVariableView {
        self.deep_view()
    }
}

impl Clone for EnvironmentVariable {
    fn clone(&self) -> (copy: Self)
        ensures
            copy@ == self@,
    {
        EnvironmentVariable { key: self.key.clone(), value: self.value.clone() }
    }
}

/// A value that is asked for when a command is run, and the placeholder it
/// fills.
#[derive(Debug, PartialEq, Eq)]
pub struct CommandParameter {
    pub name: String,
    pub placeholder: String,
    pub parameter_type: ParameterType,
    pub required: bool,
    pub default_value: Option<String>,
    pub options: Option<Vec<String>>,
}

/// What a `CommandParameter` holds.
pub struct CommandParameterView {
    pub name: Seq<char>,
    pub placeholder: Seq<char>,
    pub parameter_type: ParameterType,
    pub required: bool,
    pub default_value: Option<Seq<char>>,
    pub options: Option<Seq<Seq<char>>>,
}

impl DeepView for CommandParameter {
    type V = CommandParameterView;

    open spec fn deep_view(&self) -> CommandParameterView {
        CommandParameterView {
            name: self.name@,
            placeholder: self.placeholder@,
            parameter_type: self.parameter_type,
            required: self.required,
            default_value: self.default_value.deep_view(),
            options: self.options.deep_view(),
        }
    }
}

impl View for CommandParameter {
    type V = CommandParameterView;

    open spec fn view(&self) -> CommandParameterView {
        self.deep_view()
    }
}

impl Clone for CommandParameter {
    fn clone(&self) -> (copy: Self)
        ensures
            copy@ == self@,
    {
        let options = match &self.options {
            Some(allowed) => Some(copy_texts(allowed)),
            None => None,
        };
        CommandParameter {
            name: self.name.clone(),
            placeholder: self.placeholder.clone(),
            parameter_type: self.parameter_type,
            required: self.required,
            default_value: copy_optional_text(&self.default_value),
            options,
        }
    }
}

/// A copy of a list of assignments.
pub fn copy_environment(items: &Vec<EnvironmentVariable>) -> (copy: Vec<EnvironmentVariable>)
    ensures
        copy.deep_view() == items.deep_view(),
{
    let mut copy: Vec<EnvironmentVariable> = Vec::new();
    let mut at: usize = 0;
    while at < items.len()
        invariant
            at <= items.len(),
            copy.len() == at,
            forall|k: int| 0 <= k < at ==> copy[k]@ == items[k]@,
        decreases items.len() - at,
    {
        copy.push(items[at].clone());
        at += 1;
    }
    assert(copy.deep_view() =~= items.deep_view());
    copy
}

/// A copy of a list of parameters.
pub fn copy_parameters(items: &Vec<CommandParameter>) -> (copy: Vec<CommandParameter>)
    ensures
        copy.deep_view() == items.deep_view(),
{
    let mut copy: Vec<CommandParameter> = Vec::new();
    let mut at: usize = 0;
    while at < items.len()
        invariant
            at <= items.len(),
            copy.len() == at,
            forall|k: int| 0 <= k < at ==> copy[k]@ == items[k]@,
        decreases items.len() - at,
    {
        copy.push(items[at].clone());
        at += 1;
    }
    assert(copy.deep_view() =~= items.deep_view());
    copy
}

/// A saved command.
#[derive(Debug, PartialEq, Eq)]
pub struct Command {
    pub id: u128,
    pub name: String,
    pub command: String,
    pub args: Vec<String>,
    pub description: Option<String>,
    pub working_directory: Option<String>,
    pub environment_variables: Vec<EnvironmentVariable>,
    pub tags: Vec<String>,
    pub created_at: Timestamp,
    pub updated_at: Timestamp,
    pub last_used_at: Option<Timestamp>,
    pub use_count: u32,
    pub parameters: Vec<CommandParameter>,
}

/// What a `Command` holds.
pub struct CommandView {
    pub id: u128,
    pub name: Seq<char>,
    pub command: Seq<char>,
    pub args: Seq<Seq<char>>,
    pub description: Option<Seq<char>>,
    pub working_directory: Option<Seq<char>>,
    pub environment_variables: Seq<EnvironmentVariableView>,
    pub tags: Seq<Seq<char>>,
    pub created_at: Timestamp,
    pub updated_at: Timestamp,
    pub last_used_at: Option<Timestamp>,
    pub use_count: u32,
    pub parameters: Seq<CommandParameterView>,
}

impl DeepView for Command {
    type V = CommandView;

    open spec fn deep_view(&self) -> CommandView {
        CommandView {
            id: self.id,
            name: self.name@,
            command: self.command@,
            args: self.args.deep_view(),
            description: self.description.deep_view(),
            working_directory: self.working_directory.deep_view(),
            environment_variables: self.environment_variables.deep_view(),
            tags: self.tags.deep_view(),
            created_at: self.created_at,
            updated_at: self.updated_at,
            last_used_at: self.last_used_at,
            use_count: self.use_count,
            parameters: self.parameters.deep_view(),
        }
    }
}

impl View for Command {
    type V = CommandView;

    open spec fn view(&self) -> CommandView {
        self.deep_view()
    }
}

impl Clone for Command {
    fn clone(&self) -> (copy: Self)
        ensures
            copy@ == self@,
    {
        Command {
            id: self.id,
            name: self.name.clone(),
            command: self.command.clone(),
            args: copy_texts(&self.args),
            description: copy_optional_text(&self.description),
            working_directory: copy_optional_text(&self.working_directory),
            environment_variables: copy_environment(&self.environment_variables),
            tags: copy_texts(&self.tags),
            created_at: self.created_at,
            updated_at: self.updated_at,
            last_used_at: self.last_used_at,
            use_count: self.use_count,
            parameters: copy_parameters(&self.parameters),
        }
    }
}

/// `tags` with `tag` added at the end, unless it is there already.
pub open spec fn with_tag(tags: Seq<Seq<char>>, tag: Seq<char>) -> Seq<Seq<char>> {
    if tags.contains(tag) {
        tags
    } else {
        tags.push(tag)
    }
}

/// The test that keeps every text but `unwanted`.
pub open spec fn other_than(unwanted: Seq<char>) -> spec_fn(Seq<char>) -> bool {
    |text: Seq<char>| text != unwanted
}

/// The test that keeps every parameter but those named `unwanted`.
pub open spec fn named_other_than(unwanted: Seq<char>) -> spec_fn(CommandParameterView) -> bool {
    |parameter: CommandParameterView| parameter.name != unwanted
}

/// `at` is the place of the first of `parameters` that is named `name`.
pub open spec fn is_first_named(parameters: Seq<CommandParameterView>, name: Seq<char>, at: int) -> bool {
    &&& 0 <= at < parameters.len()
    &&& parameters[at].name == name
    &&& forall|k: int| 0 <= k < at ==> parameters[k].name != name
}

/// A program and its arguments as one line, a single space before each
/// argument.
pub open spec fn command_line(program: Seq<char>, args: Seq<Seq<char>>) -> Seq<char>
    decreases args.len(),
{
    if args.len() == 0 {
        program
    } else {
        command_line(program, args.drop_last()) + seq![' '] + args.last()
    }
}

impl CommandView {
    /// The record of a command that has just been made.
    pub open spec fn created(id: u128, at: Timestamp, name: Seq<char>, command: Seq<char>) -> CommandView {
        CommandView {
            id,
            name,
            command,
            args: Seq::empty(),
            description: None,
            working_directory: None,
            environment_variables: Seq::empty(),
            tags: Seq::empty(),
            created_at: at,
            updated_at: at,
            last_used_at: None,
            use_count: 0,
            parameters: Seq::empty(),
        }
    }

    /// What holds of a record that `Command::new` has made: no tag stands
    /// twice, the last change is not earlier than the making, and a time of
    /// last use is kept exactly when the command has been used. The methods
    /// of `Command` keep it, with one condition: `update` and `update_at`
    /// keep it where the time they write is not earlier than the making,
    /// which a clock that was set back does not give.
    pub open spec fn well_formed(self) -> bool {
        &&& self.tags.no_duplicates()
        &&& self.updated_at.at_or_after(self.created_at)
        &&& (self.last_used_at is Some <==> self.use_count > 0)
    }

    /// `self` is a later state of the command that `before` is a state of:
    /// the identifier and the time of making are the same, and the command
    /// has not been used fewer times.
    pub open spec fn continues(self, before: CommandView) -> bool {
        &&& self.id == before.id
        &&& self.created_at == before.created_at
        &&& self.use_count >= before.use_count
    }

    /// The record after a change at time `at`.
    pub open spec fn touched(self, at: Timestamp) -> CommandView {
        CommandView { updated_at: at, ..self }
    }

    /// The record after one more use at time `at`.
    pub open spec fn used(self, at: Timestamp) -> CommandView
        recommends
            self.use_count < u32::MAX,
    {
        CommandView { last_used_at: Some(at), use_count: (self.use_count + 1) as u32, ..self }
    }

    /// The program and its arguments as one line.
    pub open spec fn full_command(self) -> Seq<char> {
        command_line(self.command, self.args)
    }
}

impl Command {
    /// Makes the record of a command named `name` that runs `command`, with
    /// an identifier drawn at random and the present time as the time of its
    /// making. Nothing else is set.
    pub fn new(name: String, command: String) -> (made: Command)
        ensures
            made@ == CommandView::created(made.id, made.created_at, name@, command@),
            is_random_id(made.id),
            made.created_at.nanos < 1_000_000_000,
            made.use_count == 0,
            made.last_used_at is None,
            made@.well_formed(),
    {
        Command::new_at(fresh_id(), now(), name, command)
    }

    /// Makes the record of a command named `name` that runs `command`, made
    /// at time `at` under the identifier `id`.
    pub fn new_at(id: u128, at: Timestamp, name: String, command: String) -> (made: Command)
        ensures
            made@ == CommandView::created(id, at, name@, command@),
            made@.well_formed(),
    {
        let made = Command {
            id,
            name,
            command,
            args: Vec::new(),
            description: None,
            working_directory: None,
            environment_variables: Vec::new(),
            tags: Vec::new(),
            created_at: at,
            updated_at: at,
            last_used_at: None,
            use_count: 0,
            parameters: Vec::new(),
        };
        assert(made.args.deep_view() =~= Seq::empty());
        assert(made.environment_variables.deep_view() =~= Seq::empty());
        assert(made.tags.deep_view() =~= Seq::empty());
        assert(made.parameters.deep_view() =~= Seq::empty());
        made
    }

    /// The command with `args` as its arguments.
    pub fn with_args(self, args: Vec<String>) -> (changed: Command)
        ensures
            changed@ == (CommandView { args: args.deep_view(), ..self@ }),
            changed@.continues(self@),
            self@.well_formed() ==> changed@.well_formed(),
    {
        let mut changed = self;
        changed.args = args;
        changed
    }

    /// The command with `description` as its description.
    pub fn with_description(self, description: String) -> (changed: Command)
        ensures
            changed@ == (CommandView { description: Some(description@), ..self@ }),
            changed@.continues(self@),
            self@.well_formed() ==> changed@.well_formed(),
    {
        let mut changed = self;
        changed.description = Some(description);
        changed
    }

    /// The command with `dir` as the directory it runs in.
    pub fn with_working_directory(self, dir: String) -> (changed: Command)
        ensures
            changed@ == (CommandView { working_directory: Some(dir@), ..self@ }),
            changed@.continues(self@),
            self@.well_formed() ==> changed@.well_formed(),
    {
        let mut changed = self;
        changed.working_directory = Some(dir);
        changed
    }

    /// Adds an assignment at the end of the list, whether or not the key is
    /// assigned already.
    pub fn add_environment_variable(&mut self, key: String, value: String)
        ensures
            final(self)@ == (CommandView {
                environment_variables: old(self)@.environment_variables.push(
                    EnvironmentVariableView { key: key@, value: value@ },
                ),
                ..old(self)@
            }),
            final(self)@.continues(old(self)@),
            old(self)@.well_formed() ==> final(self)@.well_formed(),
    {
        self.environment_variables.push(EnvironmentVariable { key, value });
        assert(self.environment_variables.deep_view() =~= old(self)@.environment_variables.push(
            EnvironmentVariableView { key: key@, value: value@ },
        ));
    }

    /// Adds `tag` at the end of the tags, unless it is one of them already.
    pub fn add_tag(&mut self, tag: String)
        ensures
            final(self)@ == (CommandView { tags: with_tag(old(self)@.tags, tag@), ..old(self)@ }),
            final(self)@.continues(old(self)@),
            old(self)@.well_formed() ==> final(self)@.well_formed(),
    {
        if !holds_text(&self.tags, &tag) {
            self.tags.push(tag);
            assert(self.tags.deep_view() =~= old(self)@.tags.push(tag@));
        }
    }

    /// Removes every tag that equals `tag`.
    pub fn remove_tag(&mut self, tag: &str)
        ensures
            final(self)@ == (CommandView { tags: old(self)@.tags.filter(other_than(tag@)), ..old(self)@ }),
            !final(self)@.tags.contains(tag@),
            final(self)@.continues(old(self)@),
            old(self)@.well_formed() ==> final(self)@.well_formed(),
    {
        let ghost before = self.tags.deep_view();
        let ghost keep = other_than(tag@);
        let mut kept: Vec<String> = Vec::new();
        let mut at: usize = 0;
        while at < self.tags.len()
            invariant
                at <= self.tags.len(),
                self.tags.deep_view() == before,
                keep == other_than(tag@),
                kept.deep_view() == before.take(at as int).filter(keep),
            decreases self.tags.len() - at,
        {
            proof {
                assert(before.take(at + 1) =~= before.take(at as int).push(before[at as int]));
                before.take(at as int).lemma_filter_push(before[at as int], keep);
            }
            let ghost kept_before = kept.deep_view();
            if !same_text(self.tags[at].as_str(), tag) {
                kept.push(self.tags[at].clone());
                assert(kept.deep_view() =~= kept_before.push(before[at as int]));
            }
            at += 1;
        }
        proof {
            assert(before.take(at as int) =~= before);
            lemma_filter_facts(before, keep);
            if before.no_duplicates() {
                lemma_filter_keeps_distinct(before, keep);
            }
        }
        self.tags = kept;
    }

    /// Records one more use, at the present time.
    pub fn mark_as_used(&mut self)
        requires
            old(self).use_count < u32::MAX,
        ensures
            final(self).last_used_at matches Some(at) && final(self)@ == old(self)@.used(at),
            final(self).use_count == old(self).use_count + 1,
            final(self)@.continues(old(self)@),
            old(self)@.well_formed() ==> final(self)@.well_formed(),
    {
        self.mark_as_used_at(now());
    }

    /// Records one more use, at time `at`.
    pub fn mark_as_used_at(&mut self, at: Timestamp)
        requires
            old(self).use_count < u32::MAX,
        ensures
            final(self)@ == old(self)@.used(at),
            final(self)@.continues(old(self)@),
            old(self)@.well_formed() ==> final(self)@.well_formed(),
    {
        self.last_used_at = Some(at);
        self.use_count = self.use_count + 1;
    }

    /// Records that the command was changed, at the present time: the time
    /// of the last change becomes what the clock reads, whatever it was
    /// before, and nothing else changes. Of a reading of the clock only this
    /// is known, that its nanoseconds stay within one second.
    pub fn update(&mut self)
        ensures
            final(self)@ == old(self)@.touched(final(self).updated_at),
            final(self).updated_at.nanos < 1_000_000_000,
            final(self)@.continues(old(self)@),
            old(self)@.well_formed() && final(self).updated_at.at_or_after(old(self).created_at)
                ==> final(self)@.well_formed(),
    {
        self.update_at(now());
    }

    /// Records that the command was changed at time `at`.
    pub fn update_at(&mut self, at: Timestamp)
        ensures
            final(self)@ == old(self)@.touched(at),
            final(self)@.continues(old(self)@),
            old(self)@.well_formed() && at.at_or_after(old(self).created_at)
                ==> final(self)@.well_formed(),
    {
        self.updated_at = at;
    }

    /// The program and its arguments as one line, a single space before each
    /// argument.
    pub fn full_command(&self) -> (line: String)
        ensures
            line@ == self@.full_command(),
    {
        let mut line = self.command.clone();
        let mut at: usize = 0;
        while at < self.args.len()
            invariant
                at <= self.args.len(),
                line@ == command_line(self.command@, self.args.deep_view().take(at as int)),
            decreases self.args.len() - at,
        {
            proof {
                reveal_strlit(" ");
                let upto = self.args.deep_view().take(at + 1);
                assert(upto.drop_last() =~= self.args.deep_view().take(at as int));
                assert(upto.last() == self.args[at as int]@);
                assert(" "@ =~= seq![' ']);
            }
            line.append(" ");
            line.append(self.args[at].as_str());
            at += 1;
        }
        assert(self.args.deep_view().take(at as int) =~= self.args.deep_view());
        line
    }

    /// Adds `parameter` at the end of the parameters.
    pub fn add_parameter(&mut self, parameter: CommandParameter)
        ensures
            final(self)@ == (CommandView {
                parameters: old(self)@.parameters.push(parameter@),
                ..old(self)@
            }),
            final(self)@.continues(old(self)@),
            old(self)@.well_formed() ==> final(self)@.well_formed(),
    {
        self.parameters.push(parameter);
        assert(self.parameters.deep_view() =~= old(self)@.parameters.push(parameter@));
    }

    /// Removes every parameter named `name`; none, if none is so named.
    pub fn remove_parameter(&mut self, name: &str)
        ensures
            final(self)@ == (CommandView {
                parameters: old(self)@.parameters.filter(named_other_than(name@)),
                ..old(self)@
            }),
            final(self)@.continues(old(self)@),
            old(self)@.well_formed() ==> final(self)@.well_formed(),
    {
        let ghost before = self.parameters.deep_view();
        let ghost keep = named_other_than(name@);
        let mut kept: Vec<CommandParameter> = Vec::new();
        let mut at: usize = 0;
        while at < self.parameters.len()
            invariant
                at <= self.parameters.len(),
                self.parameters.deep_view() == before,
                keep == named_other_than(name@),
                kept.deep_view() == before.take(at as int).filter(keep),
            decreases self.parameters.len() - at,
        {
            proof {
                assert(before.take(at + 1) =~= before.take(at as int).push(before[at as int]));
                before.take(at as int).lemma_filter_push(before[at as int], keep);
            }
            let ghost kept_before = kept.deep_view();
            if !same_text(self.parameters[at].name.as_str(), name) {
                kept.push(self.parameters[at].clone());
                assert(kept.deep_view() =~= kept_before.push(before[at as int]));
            }
            at += 1;
        }
        assert(before.take(at as int) =~= before);
        self.parameters = kept;
    }

    /// The first parameter named `name`, if there is one.
    pub fn get_parameter(&self, name: &str) -> (found: Option<&CommandParameter>)
        ensures
            match found {
                Some(parameter) => exists|at: int|
                    is_first_named(self@.parameters, name@, at) && *parameter
                        == self.parameters[at],
                None => forall|at: int|
                    0 <= at < self@.parameters.len() ==> self@.parameters[at].name != name@,
            },
    {
        let mut at: usize = 0;
        while at < self.parameters.len()
            invariant
                at <= self.parameters.len(),
                forall|k: int| 0 <= k < at ==> self@.parameters[k].name != name@,
            decreases self.parameters.len() - at,
        {
            if same_text(self.parameters[at].name.as_str(), name) {
                assert(is_first_named(self@.parameters, name@, at as int));
                return Some(&self.parameters[at]);
            }
            at += 1;
        }
        None
    }
}

/// The record after one use at each of `times`, in their order.
pub open spec fn used_in_turn(record: CommandView, times: Seq<Timestamp>) -> CommandView
    decreases times.len(),
{
    if times.len() == 0 {
        record
    } else {
        used_in_turn(record, times.drop_last()).used(times.last())
    }
}

/// Adding a tag that is there already changes nothing: a tag added twice
/// stands once. A command without tags has one tag after the same tag was
/// added twice.
pub proof fn lemma_add_tag_twice(tags: Seq<Seq<char>>, tag: Seq<char>)
    ensures
        with_tag(tags, tag).contains(tag),
        with_tag(with_tag(tags, tag), tag) == with_tag(tags, tag),
        with_tag(with_tag(Seq::empty(), tag), tag) == seq![tag],
        with_tag(with_tag(Seq::empty(), tag), tag).len() == 1,
        tags.no_duplicates() ==> with_tag(tags, tag).no_duplicates(),
{
    if !tags.contains(tag) {
        assert(tags.push(tag)[tags.len() as int] == tag);
    }
    let empty = Seq::<Seq<char>>::empty();
    assert(!empty.contains(tag));
    assert(empty.push(tag)[0] == tag);
    assert(empty.push(tag) =~= seq![tag]);
}

/// Each use counts once and none is lost: after a use at each of `times` the
/// counter has grown by their number, the time of last use is the last of
/// them, and nothing else in the record has changed.
pub proof fn lemma_uses_are_counted(record: CommandView, times: Seq<Timestamp>)
    requires
        record.use_count + times.len() <= u32::MAX,
    ensures
        used_in_turn(record, times).use_count == record.use_count + times.len(),
        times.len() > 0 ==> used_in_turn(record, times).last_used_at == Some(times.last()),
        used_in_turn(record, times) == (CommandView {
            use_count: used_in_turn(record, times).use_count,
            last_used_at: used_in_turn(record, times).last_used_at,
            ..record
        }),
        record.well_formed() ==> used_in_turn(record, times).well_formed(),
    decreases times.len(),
{
    if times.len() > 0 {
        lemma_uses_are_counted(record, times.drop_last());
    }
}

/// A command that was made and then used at each of `times` has been used
/// as many times as there are, and keeps a time of last use if it was used
/// at all.
pub proof fn lemma_new_command_counts_uses(
    id: u128,
    at: Timestamp,
    name: Seq<char>,
    command: Seq<char>,
    times: Seq<Timestamp>,
)
    requires
        times.len() <= u32::MAX,
    ensures
        used_in_turn(CommandView::created(id, at, name, command), times).use_count == times.len(),
        used_in_turn(CommandView::created(id, at, name, command), times).last_used_at is Some
            <==> times.len() > 0,
{
    lemma_uses_are_counted(CommandView::created(id, at, name, command), times);
}

} // verus!

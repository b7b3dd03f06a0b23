//! Commands, the registry that holds them by name, and the routing of an
//! inbound interaction to the command it addresses.
//!
//! The identifier space of commands and of the interactive elements they
//! create is shared: a command embeds its own name as the correlation id of
//! its elements, so a follow-up interaction routes back by that name.
use vstd::prelude::*;

use crate::roles::{GuildRole, RoleDelta};
use crate::text::same_text;

verus! {

/// What the platform's command catalog needs to list a command.
#[derive(Debug)]
pub struct CommandDescriptor {
    pub name: String,
    /// Display names by locale, as (locale, name).
    pub localized_names: Vec<(String, String)>,
    pub description: String,
    /// Descriptions by locale, as (locale, description).
    pub localized_descriptions: Vec<(String, String)>,
}

/// One option of the selection menu.
#[derive(Debug)]
pub struct SelectOption {
    pub label: String,
    /// The role identifier that the option stands for.
    pub value: u64,
    /// Whether the option is pre-selected: the member holds the role.
    pub default_selected: bool,
}

/// The ephemeral prompt that lets a member pick roles.
#[derive(Debug)]
pub struct Prompt {
    pub content: String,
    pub title: String,
    /// The correlation id of the prompt and of its menu.
    pub custom_id: String,
    pub placeholder: String,
    pub min_values: u64,
    pub max_values: u64,
    pub options: Vec<SelectOption>,
}

/// A descriptor as plain values: name, (locale, name) pairs, description,
/// (locale, description) pairs.
pub type DescriptorView = (Seq<char>, Seq<(Seq<char>, Seq<char>)>, Seq<char>, Seq<(Seq<char>, Seq<char>)>);

pub open spec fn locale_pairs_view(pairs: Seq<(String, String)>) -> Seq<(Seq<char>, Seq<char>)> {
    pairs.map_values(|p: (String, String)| (p.0@, p.1@))
}

impl View for CommandDescriptor {
    type V = DescriptorView;

    open spec fn view(&self) -> DescriptorView {
        (
            self.name@,
            locale_pairs_view(self.localized_names@),
            self.description@,
            locale_pairs_view(self.localized_descriptions@),
        )
    }
}

/// A command that users can invoke.
pub trait Command: Sized {
    /// The command's name: its key in the registry and the correlation id of
    /// the interactive elements it creates.
    spec fn command_name(&self) -> Seq<char>;

    /// The descriptor under which the command is listed, as plain values.
    spec fn descriptor_view(&self) -> DescriptorView;

    fn name(&self) -> (r: String)
        ensures
            r@ == self.command_name(),
    ;

    /// The descriptor under which the command is listed in the catalog.
    fn register(&self) -> (r: CommandDescriptor)
        ensures
            r.name@ == self.command_name(),
            r@ == self.descriptor_view(),
    ;

    /// What the primary handler answers, given the guild's roles and the
    /// roles of the invoking member (`None` when no guild member invoked).
    spec fn runs_to(
        &self,
        guild_roles: Seq<GuildRole>,
        member_roles: Option<Vec<u64>>,
        r: Result<Prompt, BotError>,
    ) -> bool;

    /// What the follow-up handler answers, given also the selected values.
    spec fn follows_up_to(
        &self,
        guild_roles: Seq<GuildRole>,
        member_roles: Option<Vec<u64>>,
        values: Seq<String>,
        r: Result<RoleDelta, BotError>,
    ) -> bool;

    /// The primary handler: the prompt to answer an invocation with.
    fn run(&self, guild_roles: &Vec<GuildRole>, member_roles: &Option<Vec<u64>>) -> (r: Result<
        Prompt,
        BotError,
    >)
        ensures
            self.runs_to(guild_roles@, *member_roles, r),
    ;

    /// The follow-up handler: the change of roles that a later interaction
    /// with the command's elements calls for.
    fn component_interaction(
        &self,
        guild_roles: &Vec<GuildRole>,
        member_roles: &Option<Vec<u64>>,
        values: &Vec<String>,
    ) -> (r: Result<RoleDelta, BotError>)
        ensures
            self.follows_up_to(guild_roles@, *member_roles, values@, r),
    ;
}

/// Why an interaction was not handled.
#[derive(Debug)]
pub enum HandlerFault {
    /// The interaction did not come from a guild.
    MissingGuild,
    /// The interaction was not made by a member of a guild.
    NotGuildMember,
    /// A selected value is not a role identifier.
    MalformedRoleValue(String),
}

/// The failures of the bot. Each one is contained to the event that raised it.
#[derive(Debug)]
pub enum BotError {
    /// A required startup value is missing.
    Configuration(String),
    /// An invocation names no registered command.
    UnknownCommand(String),
    /// A follow-up carries a correlation id that no registered command owns.
    UnknownCorrelationId(String),
    /// Guild, member or role data could not be fetched from the platform.
    PlatformFetch,
    /// A command could not handle the interaction.
    Handler(HandlerFault),
    /// Adding or removing roles failed, wholly or in part.
    RoleUpdateFailed,
}

/// An inbound interaction, reduced to what routing reads.
#[derive(Debug)]
pub enum InteractionEvent {
    Ping,
    /// The first invocation of a command, by name.
    Invocation { command_name: String },
    /// A later interaction with an element that a command created.
    ComponentFollowUp { custom_id: String },
    /// Any other kind of interaction; it is ignored.
    Other,
}

/// Where an interaction goes.
pub enum Dispatch<'a, C> {
    /// Nothing is to be done.
    Ignore,
    /// The command's primary handler is to run.
    Run(&'a C),
    /// The command's follow-up handler is to run.
    Component(&'a C),
}

/// The catalog that registering `commands` in order builds: a later command
/// replaces an earlier one of the same name.
pub open spec fn catalog_of<C: Command>(commands: Seq<C>) -> Map<Seq<char>, C>
    decreases commands.len(),
{
    if commands.len() == 0 {
        Map::empty()
    } else {
        catalog_of(commands.drop_last()).insert(commands.last().command_name(), commands.last())
    }
}

/// The registered commands, by name.
pub struct CommandRegistry<C> {
    entries: Vec<(String, C)>,
    catalog: Ghost<Map<Seq<char>, C>>,
}

impl<C: Command> View for CommandRegistry<C> {
    type V = Map<Seq<char>, C>;

    closed spec fn view(&self) -> Map<Seq<char>, C> {
        self.catalog@
    }
}

impl<C: Command> CommandRegistry<C> {
    /// Each name is held once, under the name of its command, and the
    /// entries are exactly the catalog.
    pub closed spec fn wf(&self) -> bool {
        &&& forall|i: int, j: int|
            0 <= i < j < self.entries@.len() ==> #[trigger] self.entries@[i].0@
                != #[trigger] self.entries@[j].0@
        &&& forall|i: int|
            0 <= i < self.entries@.len() ==> #[trigger] self.entries@[i].0@
                == self.entries@[i].1.command_name()
        &&& forall|i: int|
            0 <= i < self.entries@.len() ==> self.catalog@.contains_key(
                #[trigger] self.entries@[i].0@,
            ) && self.catalog@[self.entries@[i].0@] == self.entries@[i].1
        &&& forall|k: Seq<char>|
            #[trigger] self.catalog@.contains_key(k) ==> exists|i: int|
                0 <= i < self.entries@.len() && #[trigger] self.entries@[i].0@ == k
    }

    pub fn new() -> (r: Self)
        ensures
            r.wf(),
            r@ == Map::<Seq<char>, C>::empty(),
    {
        CommandRegistry { entries: Vec::new(), catalog: Ghost(Map::empty()) }
    }

    /// The number of registered commands.
    pub fn len(&self) -> (r: usize)
        requires
            self.wf(),
        ensures
            r == self@.len(),
    {
        proof {
            self.lemma_len();
        }
        self.entries.len()
    }

    proof fn lemma_len(&self)
        requires
            self.wf(),
        ensures
            self@.len() == self.entries@.len(),
            self@.dom() == self.entries@.map_values(|e: (String, C)| e.0@).to_set(),
    {
        let names = self.entries@.map_values(|e: (String, C)| e.0@);
        assert forall|k: Seq<char>| self@.dom().contains(k) <==> names.to_set().contains(k) by {
            if self@.dom().contains(k) {
                let i = choose|i: int| 0 <= i < self.entries@.len() && #[trigger] self.entries@[i].0@ == k;
                assert(names[i] == k);
            }
            if names.to_set().contains(k) {
                let i = choose|i: int| 0 <= i < names.len() && names[i] == k;
                assert(self.entries@[i].0@ == k);
            }
        }
        assert(self@.dom() =~= names.to_set());
        assert(names.no_duplicates()) by {
            assert forall|i: int, j: int| 0 <= i < names.len() && 0 <= j < names.len() && i != j implies names[i] != names[j] by {
                if i < j {
                    assert(self.entries@[i].0@ != self.entries@[j].0@);
                } else {
                    assert(self.entries@[j].0@ != self.entries@[i].0@);
                }
            }
        }
        names.unique_seq_to_set();
    }

    /// The registered names, in the order the catalog lists them; each name
    /// occurs once.
    pub closed spec fn order(&self) -> Seq<Seq<char>> {
        self.entries@.map_values(|e: (String, C)| e.0@)
    }

    /// The catalog as plain values: the descriptor of each registered
    /// command, in the order of `order`.
    pub open spec fn catalog_view(&self) -> Seq<DescriptorView> {
        self.order().map_values(|k: Seq<char>| self@[k].descriptor_view())
    }

    /// Every registered name occurs once in `order`, and nothing else does.
    pub proof fn lemma_order_lists_names(&self)
        requires
            self.wf(),
        ensures
            self.order().no_duplicates(),
            self.order().to_set() == self@.dom(),
    {
        self.lemma_len();
        assert forall|i: int, j: int| 0 <= i < self.order().len() && 0 <= j < self.order().len() && i != j implies self.order()[i] != self.order()[j] by {
            if i < j {
                assert(self.entries@[i].0@ != self.entries@[j].0@);
            } else {
                assert(self.entries@[j].0@ != self.entries@[i].0@);
            }
        }
    }

    /// Every command is registered under its own name.
    pub proof fn lemma_keys_are_names(&self)
        requires
            self.wf(),
        ensures
            forall|k: Seq<char>| #[trigger] self@.contains_key(k) ==> self@[k].command_name() == k,
    {
        assert forall|k: Seq<char>| #[trigger] self@.contains_key(k) implies self@[k].command_name() == k by {
            let i = choose|i: int| 0 <= i < self.entries@.len() && #[trigger] self.entries@[i].0@ == k;
            assert(self.entries@[i].0@ == self.entries@[i].1.command_name());
        }
    }

    /// The position of the entry named `name`.
    fn position(&self, name: &str) -> (r: Option<usize>)
        requires
            self.wf(),
        ensures
            match r {
                Some(i) => i < self.entries@.len() && self.entries@[i as int].0@ == name@,
                None => !self@.contains_key(name@),
            },
    {
        let mut i: usize = 0;
        while i < self.entries.len()
            invariant
                self.wf(),
                i <= self.entries@.len(),
                forall|k: int| 0 <= k < i ==> #[trigger] self.entries@[k].0@ != name@,
            decreases self.entries@.len() - i,
        {
            if same_text(self.entries[i].0.as_str(), name) {
                return Some(i);
            }
            i = i + 1;
        }
        None
    }

    /// The command registered under `name`; `None` when there is none.
    pub fn lookup(&self, name: &str) -> (r: Option<&C>)
        requires
            self.wf(),
        ensures
            match r {
                Some(c) => self@.contains_key(name@) && *c == self@[name@],
                None => !self@.contains_key(name@),
            },
    {
        match self.position(name) {
            Some(i) => Some(&self.entries[i].1),
            None => None,
        }
    }

    /// Registers `command` under its name, replacing any command of that name.
    pub fn register(&mut self, command: C)
        requires
            old(self).wf(),
        ensures
            final(self).wf(),
            final(self)@ == old(self)@.insert(command.command_name(), command),
    {
        let name = command.name();
        let ghost key = name@;
        let ghost cmd = command;
        match self.position(name.as_str()) {
            Some(i) => {
                self.entries.set(i, (name, command));
                self.catalog = Ghost(self.catalog@.insert(key, cmd));
                assert forall|k: Seq<char>| #[trigger] self.catalog@.contains_key(k) implies exists|j: int|
                    0 <= j < self.entries@.len() && #[trigger] self.entries@[j].0@ == k by {
                    if k != key {
                        let j = choose|j: int| 0 <= j < old(self).entries@.len() && #[trigger] old(self).entries@[j].0@ == k;
                        assert(self.entries@[j].0@ == k);
                    } else {
                        assert(self.entries@[i as int].0@ == k);
                    }
                }
            },
            None => {
                proof {
                    assert forall|j: int| 0 <= j < self.entries@.len() implies #[trigger] self.entries@[j].0@ != key by {
                        assert(self.catalog@.contains_key(self.entries@[j].0@));
                    }
                }
                self.entries.push((name, command));
                self.catalog = Ghost(self.catalog@.insert(key, cmd));
                assert forall|k: Seq<char>| #[trigger] self.catalog@.contains_key(k) implies exists|j: int|
                    0 <= j < self.entries@.len() && #[trigger] self.entries@[j].0@ == k by {
                    if k != key {
                        let j = choose|j: int| 0 <= j < old(self).entries@.len() && #[trigger] old(self).entries@[j].0@ == k;
                        assert(self.entries@[j].0@ == k);
                    } else {
                        assert(self.entries@[self.entries@.len() - 1].0@ == k);
                    }
                }
            },
        }
    }

    /// A registry of `commands`, registered in order: where two share a name,
    /// the later one is kept.
    pub fn from_commands(commands: Vec<C>) -> (r: Self)
        ensures
            r.wf(),
            r@ == catalog_of(commands@),
    {
        let ghost all = commands@;
        let mut rest = commands;
        let mut registry = Self::new();
        let ghost mut i: int = 0;
        while rest.len() > 0
            invariant
                0 <= i <= all.len(),
                rest@ == all.skip(i),
                registry.wf(),
                registry@ == catalog_of(all.take(i)),
            decreases rest@.len(),
        {
            let command = rest.remove(0);
            proof {
                assert(command == all[i]);
                assert(all.take(i + 1).drop_last() =~= all.take(i));
                assert(all.skip(i + 1) =~= all.skip(i).remove(0));
                i = i + 1;
            }
            registry.register(command);
        }
        assert(all.take(i) =~= all);
        registry
    }

    /// The descriptors of all registered commands, one per name.
    pub fn descriptors(&self) -> (r: Vec<CommandDescriptor>)
        requires
            self.wf(),
        ensures
            r@.len() == self@.len(),
            r@.map_values(|d: CommandDescriptor| d@) == self.catalog_view(),
            forall|i: int| 0 <= i < r@.len() ==> self@.contains_key(#[trigger] r@[i].name@)
                && r@[i]@ == self@[r@[i].name@].descriptor_view(),
            forall|k: Seq<char>|
                self@.contains_key(k) <==> exists|i: int| 0 <= i < r@.len() && #[trigger] r@[i].name@ == k,
    {
        proof {
            self.lemma_len();
        }
        let mut out: Vec<CommandDescriptor> = Vec::new();
        let mut i: usize = 0;
        while i < self.entries.len()
            invariant
                self.wf(),
                i <= self.entries@.len(),
                out@.len() == i,
                forall|j: int| 0 <= j < i ==> #[trigger] out@[j].name@ == self.entries@[j].0@,
                forall|j: int| 0 <= j < i ==> #[trigger] out@[j]@ == self.entries@[j].1.descriptor_view(),
            decreases self.entries@.len() - i,
        {
            let d = self.entries[i].1.register();
            out.push(d);
            i = i + 1;
        }
        assert forall|k: Seq<char>| self@.contains_key(k) <==> exists|i: int| 0 <= i < out@.len() && #[trigger] out@[i].name@ == k by {
            if self@.contains_key(k) {
                let j = choose|j: int| 0 <= j < self.entries@.len() && #[trigger] self.entries@[j].0@ == k;
                assert(out@[j].name@ == k);
            }
            if exists|i: int| 0 <= i < out@.len() && #[trigger] out@[i].name@ == k {
                let j = choose|j: int| 0 <= j < out@.len() && #[trigger] out@[j].name@ == k;
                assert(self.entries@[j].0@ == k);
            }
        }
        assert forall|j: int| 0 <= j < out@.len() implies self@.contains_key(#[trigger] out@[j].name@)
            && out@[j]@ == self@[out@[j].name@].descriptor_view() by {
            assert(self.entries@[j].0@ == out@[j].name@);
        }
        assert(out@.map_values(|d: CommandDescriptor| d@) =~= self.catalog_view());
        out
    }

    /// Where `event` goes: a ping or an unknown kind is ignored; an
    /// invocation goes to the command of its name, a follow-up to the command
    /// that owns its correlation id; a miss is an error.
    pub fn route(&self, event: &InteractionEvent) -> (r: Result<Dispatch<'_, C>, BotError>)
        requires
            self.wf(),
        ensures
            match event {
                InteractionEvent::Ping | InteractionEvent::Other => r is Ok && r->Ok_0 is Ignore,
                InteractionEvent::Invocation { command_name } => if self@.contains_key(command_name@) {
                    r is Ok && r->Ok_0 is Run && *(r->Ok_0->Run_0) == self@[command_name@]
                } else {
                    r is Err && r->Err_0 is UnknownCommand && r->Err_0->UnknownCommand_0@
                        == command_name@
                },
                InteractionEvent::ComponentFollowUp { custom_id } => if self@.contains_key(custom_id@) {
                    r is Ok && r->Ok_0 is Component && *(r->Ok_0->Component_0) == self@[custom_id@]
                } else {
                    r is Err && r->Err_0 is UnknownCorrelationId && r->Err_0->UnknownCorrelationId_0@
                        == custom_id@
                },
            },
    {
        match event {
            InteractionEvent::Ping => Ok(Dispatch::Ignore),
            InteractionEvent::Other => Ok(Dispatch::Ignore),
            InteractionEvent::Invocation { command_name } => match self.lookup(command_name.as_str()) {
                Some(c) => Ok(Dispatch::Run(c)),
                None => Err(BotError::UnknownCommand(command_name.clone())),
            },
            InteractionEvent::ComponentFollowUp { custom_id } => match self.lookup(custom_id.as_str()) {
                Some(c) => Ok(Dispatch::Component(c)),
                None => Err(BotError::UnknownCorrelationId(custom_id.clone())),
            },
        }
    }
}

/// A command is found under its own name once registered, and registering it
/// leaves every other name as it was.
pub proof fn lemma_lookup_after_register<C: Command>(
    before: Map<Seq<char>, C>,
    command: C,
    other: Seq<char>,
)
    ensures
        before.insert(command.command_name(), command).contains_key(command.command_name()),
        before.insert(command.command_name(), command)[command.command_name()] == command,
        other != command.command_name() ==> (before.insert(command.command_name(), command).contains_key(other)
            == before.contains_key(other)),
{
}

} // verus!

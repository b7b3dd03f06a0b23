//! The composition root: a builder that collects commands, and the bot
//! session that owns the registry built from them.
use vstd::prelude::*;

use crate::registry::{
    catalog_of, BotError, Command, CommandDescriptor, CommandRegistry, DescriptorView, Dispatch,
    InteractionEvent,
};

verus! {

/// Collects the commands of a bot before it starts.
pub struct GreiderbotBuilder<C> {
    commands: Vec<C>,
}

impl<C: Command> GreiderbotBuilder<C> {
    /// The commands added so far, in order.
    pub closed spec fn pending(&self) -> Seq<C> {
        self.commands@
    }

    pub fn new() -> (r: Self)
        ensures
            r.pending() == Seq::<C>::empty(),
    {
        GreiderbotBuilder { commands: Vec::new() }
    }

    pub fn add_command(self, command: C) -> (r: Self)
        ensures
            r.pending() == self.pending().push(command),
    {
        let mut commands = self.commands;
        commands.push(command);
        GreiderbotBuilder { commands }
    }

    /// The bot with every added command registered, in the order added.
    pub fn build(self) -> (r: Greiderbot<C>)
        ensures
            r.wf(),
            r@ == catalog_of(self.pending()),
    {
        Greiderbot::from_commands(self.commands)
    }
}

/// A bot session: the registry of its commands, read by every event.
pub struct Greiderbot<C> {
    commands: CommandRegistry<C>,
}

impl<C: Command> View for Greiderbot<C> {
    type V = Map<Seq<char>, C>;

    closed spec fn view(&self) -> Map<Seq<char>, C> {
        self.commands@
    }
}

impl<C: Command> Greiderbot<C> {
    pub closed spec fn wf(&self) -> bool {
        self.commands.wf()
    }

    /// The catalog as plain values: one descriptor per registered command,
    /// in an order that depends on the registry alone, so every push of an
    /// unchanged bot pushes the same catalog.
    pub closed spec fn catalog_view(&self) -> Seq<DescriptorView> {
        self.commands.catalog_view()
    }

    pub fn from_commands(commands: Vec<C>) -> (r: Self)
        ensures
            r.wf(),
            r@ == catalog_of(commands@),
    {
        Greiderbot { commands: CommandRegistry::from_commands(commands) }
    }

    /// The catalog to push to each guild when the session is ready: one
    /// descriptor per registered command.
    pub fn catalog(&self) -> (r: Vec<CommandDescriptor>)
        requires
            self.wf(),
        ensures
            r@.len() == self@.len(),
            r@.map_values(|d: CommandDescriptor| d@) == self.catalog_view(),
            forall|i: int| 0 <= i < r@.len() ==> self@.contains_key(#[trigger] r@[i].name@)
                && r@[i]@ == self@[r@[i].name@].descriptor_view(),
            forall|k: Seq<char>|
                self@.contains_key(k) <==> exists|i: int| 0 <= i < r@.len() && #[trigger] r@[i].name@ == k,
    {
        self.commands.descriptors()
    }

    /// Where an inbound interaction goes; see `CommandRegistry::route`.
    pub fn interaction_create(&self, event: &InteractionEvent) -> (r: Result<Dispatch<'_, C>, BotError>)
        requires
            self.wf(),
        ensures
            match event {
                InteractionEvent::Ping | InteractionEvent::Other => r is Ok && r->Ok_0 is Ignore,
                InteractionEvent::Invocation { command_name } => if self@.contains_key(command_name@) {
                    r is Ok && r->Ok_0 is Run && *(r->Ok_0->Run_0) == self@[command_name@]
                } else {
                    r is Err && r->Err_0 is UnknownCommand && r->Err_0->UnknownCommand_0@
                        == command_name@
                },
                InteractionEvent::ComponentFollowUp { custom_id } => if self@.contains_key(custom_id@) {
                    r is Ok && r->Ok_0 is Component && *(r->Ok_0->Component_0) == self@[custom_id@]
                } else {
                    r is Err && r->Err_0 is UnknownCorrelationId && r->Err_0->UnknownCorrelationId_0@
                        == custom_id@
                },
            },
    {
        self.commands.route(event)
    }
}

} // verus!

//! The `spela` command: members pick their play roles from a menu of the
//! guild's managed roles, and the follow-up turns their pick into a change of
//! roles.
use vstd::prelude::*;

use crate::registry::{
    locale_pairs_view, BotError, Command, CommandDescriptor, DescriptorView, HandlerFault, Prompt,
    SelectOption,
};
use crate::roles::{
    delta_add, delta_remove, holds, ids_of, lemma_delta_idempotent, offered, offered_roles,
    role_delta, role_ids, GuildRole, RoleDelta, OFFER_CAP,
};
use crate::text::{is_u64_text, parse_u64, u64_of_text};

verus! {

/// The options for `roles`, pre-selected where `held` holds the role.
pub open spec fn options_match(options: Seq<SelectOption>, roles: Seq<GuildRole>, held: Seq<u64>) -> bool {
    &&& options.len() == roles.len()
    &&& forall|i: int|
        0 <= i < roles.len() ==> {
            &&& (#[trigger] options[i]).label@ == roles[i].name@
            &&& options[i].value == roles[i].id
            &&& options[i].default_selected == held.contains(roles[i].id)
        }
}

/// The role identifiers that the selected values denote.
pub open spec fn selected_ids(values: Seq<String>) -> Seq<u64> {
    values.map_values(|v: String| u64_of_text(v@))
}

pub open spec fn all_role_values(values: Seq<String>) -> bool {
    forall|i: int| 0 <= i < values.len() ==> is_u64_text(#[trigger] values[i]@)
}

/// The first selected value that is not a role identifier, `values[j]`.
pub open spec fn first_malformed(values: Seq<String>, j: int) -> bool {
    &&& 0 <= j < values.len()
    &&& !is_u64_text(values[j]@)
    &&& forall|i: int| 0 <= i < j ==> is_u64_text(#[trigger] values[i]@)
}

/// The role identifiers of the selected values, or the first value that is
/// not one.
pub fn parse_selection(values: &Vec<String>) -> (r: Result<Vec<u64>, BotError>)
    ensures
        r is Ok <==> all_role_values(values@),
        r is Ok ==> r->Ok_0@ == selected_ids(values@),
        r is Err ==> r->Err_0 is Handler && r->Err_0->Handler_0 is MalformedRoleValue && exists|j: int|
            first_malformed(values@, j) && r->Err_0->Handler_0->MalformedRoleValue_0@ == values@[j]@,
{
    let mut out: Vec<u64> = Vec::new();
    let mut i: usize = 0;
    while i < values.len()
        invariant
            i <= values@.len(),
            out@ == selected_ids(values@.take(i as int)),
            forall|k: int| 0 <= k < i ==> is_u64_text(#[trigger] values@[k]@),
        decreases values@.len() - i,
    {
        match parse_u64(values[i].as_str()) {
            Some(id) => {
                out.push(id);
                i = i + 1;
                assert(out@ =~= selected_ids(values@.take(i as int)));
            },
            None => {
                assert(first_malformed(values@, i as int));
                return Err(BotError::Handler(HandlerFault::MalformedRoleValue(values[i].clone())));
            },
        }
    }
    assert(values@.take(i as int) =~= values@);
    Ok(out)
}

/// The answer to an invocation: the prompt offers one option per offered
/// role of the guild, pre-selected where the member holds it. An invocation
/// by no guild member is refused.
pub open spec fn spela_prompt(
    guild_roles: Seq<GuildRole>,
    member_roles: Option<Vec<u64>>,
    r: Result<Prompt, BotError>,
) -> bool {
    &&& (member_roles is None <==> r is Err)
    &&& (r is Err ==> r->Err_0 is Handler && r->Err_0->Handler_0 is NotGuildMember)
    &&& (r is Ok ==> {
        let p = r->Ok_0;
        &&& options_match(p.options@, offered(guild_roles), member_roles->Some_0@)
        &&& p.custom_id@ == "spela"@
        &&& p.content@ == "Gå med i roll"@
        &&& p.title@ == "Spela"@
        &&& p.placeholder@ == "Inga roller valda"@
        &&& p.min_values == 0
        &&& p.max_values == p.options@.len()
    })
}

/// The answer to a follow-up: the change that moves the member's roles to
/// the selected ones, among the roles offered. A follow-up by no guild
/// member, or with a value that is not a role identifier, is refused.
pub open spec fn spela_follow_up(
    guild_roles: Seq<GuildRole>,
    member_roles: Option<Vec<u64>>,
    values: Seq<String>,
    r: Result<RoleDelta, BotError>,
) -> bool {
    &&& (r is Ok <==> (member_roles is Some && all_role_values(values)))
    &&& (member_roles is None ==> r is Err && r->Err_0 is Handler && r->Err_0->Handler_0 is NotGuildMember)
    &&& (member_roles is Some && !all_role_values(values) ==> r is Err && r->Err_0 is Handler
        && r->Err_0->Handler_0 is MalformedRoleValue && exists|j: int|
        first_malformed(values, j) && r->Err_0->Handler_0->MalformedRoleValue_0@ == values[j]@)
    &&& (r is Ok ==> r->Ok_0.is_delta_of(
        member_roles->Some_0@.to_set(),
        selected_ids(values).to_set(),
        role_ids(offered(guild_roles)).to_set(),
    ))
}

/// The catalog entry of the `spela` command: its name, its Swedish name, and
/// its English and Swedish descriptions.
pub open spec fn spela_descriptor() -> DescriptorView {
    (
        "spela"@,
        seq![("sv-SE"@, "spela"@)],
        "Join a \"spela\" role "@,
        seq![("sv-SE"@, "Gå med i en spela-roll"@)],
    )
}

/// The command through which members pick their play roles.
#[derive(Debug, Clone, Copy, Default)]
pub struct SpelaCommand;

impl SpelaCommand {
    /// The catalog entry of the command, in English and in Swedish.
    pub fn descriptor() -> (r: CommandDescriptor)
        ensures
            r@ == spela_descriptor(),
    {
        let mut localized_names: Vec<(String, String)> = Vec::new();
        localized_names.push((String::from_str("sv-SE"), String::from_str("spela")));
        let mut localized_descriptions: Vec<(String, String)> = Vec::new();
        localized_descriptions.push(
            (String::from_str("sv-SE"), String::from_str("Gå med i en spela-roll")),
        );
        let r = CommandDescriptor {
            name: String::from_str("spela"),
            localized_names,
            description: String::from_str("Join a \"spela\" role "),
            localized_descriptions,
        };
        assert(locale_pairs_view(r.localized_names@) =~= seq![("sv-SE"@, "spela"@)]);
        assert(locale_pairs_view(r.localized_descriptions@) =~= seq![
            ("sv-SE"@, "Gå med i en spela-roll"@),
        ]);
        r
    }

}

impl Command for SpelaCommand {
    open spec fn command_name(&self) -> Seq<char> {
        "spela"@
    }

    open spec fn descriptor_view(&self) -> DescriptorView {
        spela_descriptor()
    }

    fn name(&self) -> (r: String) {
        String::from_str("spela")
    }

    fn register(&self) -> (r: CommandDescriptor) {
        Self::descriptor()
    }

    open spec fn runs_to(
        &self,
        guild_roles: Seq<GuildRole>,
        member_roles: Option<Vec<u64>>,
        r: Result<Prompt, BotError>,
    ) -> bool {
        spela_prompt(guild_roles, member_roles, r)
    }

    open spec fn follows_up_to(
        &self,
        guild_roles: Seq<GuildRole>,
        member_roles: Option<Vec<u64>>,
        values: Seq<String>,
        r: Result<RoleDelta, BotError>,
    ) -> bool {
        spela_follow_up(guild_roles, member_roles, values, r)
    }

    fn run(&self, guild_roles: &Vec<GuildRole>, member_roles: &Option<Vec<u64>>) -> (r: Result<
        Prompt,
        BotError,
    >)
    {
        let held = match member_roles {
            Some(held) => held,
            None => {
                return Err(BotError::Handler(HandlerFault::NotGuildMember));
            },
        };
        let roles = offered_roles(guild_roles);
        let mut options: Vec<SelectOption> = Vec::new();
        let mut i: usize = 0;
        while i < roles.len()
            invariant
                i <= roles@.len(),
                roles@.len() <= OFFER_CAP,
                options_match(options@, roles@.take(i as int), held@),
            decreases roles@.len() - i,
        {
            let option = SelectOption {
                label: roles[i].name.clone(),
                value: roles[i].id,
                default_selected: holds(held, roles[i].id),
            };
            options.push(option);
            i = i + 1;
            assert forall|k: int| 0 <= k < i implies {
                &&& (#[trigger] options@[k]).label@ == roles@.take(i as int)[k].name@
                &&& options@[k].value == roles@.take(i as int)[k].id
                &&& options@[k].default_selected == held@.contains(roles@.take(i as int)[k].id)
            } by {
                if k < i - 1 {
                    assert(roles@.take(i as int)[k] == roles@.take(i - 1)[k]);
                }
            }
        }
        assert(roles@.take(i as int) =~= roles@);
        let max_values = options.len() as u64;
        Ok(Prompt {
            content: String::from_str("Gå med i roll"),
            title: String::from_str("Spela"),
            custom_id: self.name(),
            placeholder: String::from_str("Inga roller valda"),
            min_values: 0,
            max_values,
            options,
        })
    }
    fn component_interaction(
        &self,
        guild_roles: &Vec<GuildRole>,
        member_roles: &Option<Vec<u64>>,
        values: &Vec<String>,
    ) -> (r: Result<RoleDelta, BotError>)
    {
        let held = match member_roles {
            Some(held) => held,
            None => {
                return Err(BotError::Handler(HandlerFault::NotGuildMember));
            },
        };
        let selected = match parse_selection(values) {
            Ok(selected) => selected,
            Err(e) => {
                return Err(e);
            },
        };
        let managed = ids_of(&offered_roles(guild_roles));
        Ok(role_delta(held, &selected, &managed))
    }}

/// Offering a pick to a member and then reconciling the pick that the prompt
/// pre-selected changes nothing: the delta is empty on both sides.
pub proof fn lemma_unchanged_pick_is_noop(roles: Seq<GuildRole>, held: Seq<u64>)
    ensures
        delta_add(
            held.to_set(),
            held.to_set().intersect(role_ids(offered(roles)).to_set()),
            role_ids(offered(roles)).to_set(),
        ) == Set::<u64>::empty(),
        delta_remove(
            held.to_set(),
            held.to_set().intersect(role_ids(offered(roles)).to_set()),
            role_ids(offered(roles)).to_set(),
        ) == Set::<u64>::empty(),
{
    lemma_delta_idempotent(held.to_set(), role_ids(offered(roles)).to_set());
}

} // verus!

//! Roles: which roles of a guild the bot manages and offers, and the minimal
//! change that takes a member from the roles they hold to the roles they chose.
use vstd::prelude::*;

use vstd::seq_lib::lemma_seq_contains_after_push;

use crate::text::starts_with;

verus! {

/// At most this many roles are offered in one selection menu.
pub const OFFER_CAP: usize = 25;

/// A role of a guild, as the platform lists it.
#[derive(Debug)]
pub struct GuildRole {
    pub id: u64,
    pub name: String,
}

/// The prefix that marks a role as managed by the bot.
pub open spec fn managed_prefix() -> Seq<char> {
    "spela "@
}

pub open spec fn is_managed(role: GuildRole) -> bool {
    managed_prefix().is_prefix_of(role.name@)
}

/// The managed roles among `roles`, in their order.
pub open spec fn managed_roles(roles: Seq<GuildRole>) -> Seq<GuildRole>
    decreases roles.len(),
{
    if roles.len() == 0 {
        Seq::empty()
    } else {
        let rest = managed_roles(roles.drop_last());
        if is_managed(roles.last()) {
            rest.push(roles.last())
        } else {
            rest
        }
    }
}

/// The roles offered for selection: the first `OFFER_CAP` managed roles.
pub open spec fn offered(roles: Seq<GuildRole>) -> Seq<GuildRole> {
    let m = managed_roles(roles);
    if m.len() <= OFFER_CAP {
        m
    } else {
        m.take(OFFER_CAP as int)
    }
}

pub open spec fn role_ids(roles: Seq<GuildRole>) -> Seq<u64> {
    roles.map_values(|r: GuildRole| r.id)
}

/// The roles to add: chosen, managed and not yet held.
pub open spec fn delta_add(current: Set<u64>, desired: Set<u64>, managed: Set<u64>) -> Set<u64> {
    desired.intersect(managed).difference(current)
}

/// The roles to remove: held, managed and not chosen.
pub open spec fn delta_remove(current: Set<u64>, desired: Set<u64>, managed: Set<u64>) -> Set<u64> {
    current.intersect(managed).difference(desired)
}

/// The change to a member's roles.
#[derive(Debug)]
pub struct RoleDelta {
    pub to_add: Vec<u64>,
    pub to_remove: Vec<u64>,
}

impl RoleDelta {
    /// Both lists are free of repeats and hold exactly the delta of
    /// `current`, `desired` and `managed`.
    pub open spec fn is_delta_of(&self, current: Set<u64>, desired: Set<u64>, managed: Set<u64>) -> bool {
        &&& self.to_add@.no_duplicates()
        &&& self.to_remove@.no_duplicates()
        &&& self.to_add@.to_set() == delta_add(current, desired, managed)
        &&& self.to_remove@.to_set() == delta_remove(current, desired, managed)
    }
}

proof fn lemma_managed_roles_prefix(roles: Seq<GuildRole>, j: int, k: int)
    requires
        0 <= j <= k <= roles.len(),
    ensures
        managed_roles(roles.take(j)).len() <= managed_roles(roles.take(k)).len(),
        managed_roles(roles.take(k)).take(managed_roles(roles.take(j)).len() as int)
            == managed_roles(roles.take(j)),
    decreases k - j,
{
    if j < k {
        lemma_managed_roles_prefix(roles, j, k - 1);
        assert(roles.take(k).drop_last() =~= roles.take(k - 1));
        let a = managed_roles(roles.take(j));
        let b = managed_roles(roles.take(k - 1));
        let c = managed_roles(roles.take(k));
        assert(c.take(a.len() as int) =~= b.take(a.len() as int));
    } else {
        let a = managed_roles(roles.take(j));
        assert(a.take(a.len() as int) =~= a);
    }
}

/// Whether a role's name carries the managed prefix.
pub fn is_managed_role(role: &GuildRole) -> (r: bool)
    ensures
        r == is_managed(*role),
{
    starts_with(role.name.as_str(), "spela ")
}

fn copy_role(role: &GuildRole) -> (r: GuildRole)
    ensures
        r == *role,
{
    GuildRole { id: role.id, name: role.name.clone() }
}

/// The roles to offer: the managed roles of `roles`, in the order given,
/// and no more than `OFFER_CAP` of them.
pub fn offered_roles(roles: &Vec<GuildRole>) -> (r: Vec<GuildRole>)
    ensures
        r@ == offered(roles@),
        r@.len() <= OFFER_CAP,
{
    let mut out: Vec<GuildRole> = Vec::new();
    let mut i: usize = 0;
    while i < roles.len() && out.len() < OFFER_CAP
        invariant
            i <= roles@.len(),
            out@ == managed_roles(roles@.take(i as int)),
            out@.len() <= OFFER_CAP,
        decreases roles@.len() - i,
    {
        assert(roles@.take(i + 1).drop_last() =~= roles@.take(i as int));
        if is_managed_role(&roles[i]) {
            let role = copy_role(&roles[i]);
            out.push(role);
        }
        i = i + 1;
    }
    proof {
        lemma_managed_roles_prefix(roles@, i as int, roles@.len() as int);
        assert(roles@.take(roles@.len() as int) =~= roles@);
        if i < roles@.len() {
            assert(out@.len() == OFFER_CAP);
        } else {
            assert(roles@.take(i as int) =~= roles@);
        }
    }
    out
}

/// The identifiers of `roles`, in order.
pub fn ids_of(roles: &Vec<GuildRole>) -> (r: Vec<u64>)
    ensures
        r@ == role_ids(roles@),
{
    let mut out: Vec<u64> = Vec::new();
    let mut i: usize = 0;
    while i < roles.len()
        invariant
            i <= roles@.len(),
            out@ == role_ids(roles@.take(i as int)),
        decreases roles@.len() - i,
    {
        out.push(roles[i].id);
        i = i + 1;
        assert(out@ =~= role_ids(roles@.take(i as int)));
    }
    assert(roles@.take(i as int) =~= roles@);
    out
}

/// Whether `v` holds `x`.
pub fn holds(v: &Vec<u64>, x: u64) -> (r: bool)
    ensures
        r == v@.contains(x),
{
    let mut i: usize = 0;
    while i < v.len()
        invariant
            i <= v@.len(),
            forall|k: int| 0 <= k < i ==> v@[k] != x,
        decreases v@.len() - i,
    {
        if v[i] == x {
            return true;
        }
        i = i + 1;
    }
    false
}

/// The elements of `source` that `keep` holds and `skip` does not, each once,
/// in the order of their first occurrence in `source`. The lists are short
/// (a member's roles, at most `OFFER_CAP` offered roles) and the result is
/// handed on as a list, so a scan keeps the order fixed where a hash set
/// would hand its elements out in an order that changes from run to run.
fn select_ids(source: &Vec<u64>, keep: &Vec<u64>, skip: &Vec<u64>) -> (r: Vec<u64>)
    ensures
        r@.no_duplicates(),
        r@.to_set() == source@.to_set().intersect(keep@.to_set()).difference(skip@.to_set()),
{
    let mut out: Vec<u64> = Vec::new();
    let mut i: usize = 0;
    while i < source.len()
        invariant
            i <= source@.len(),
            out@.no_duplicates(),
            forall|x: u64|
                out@.contains(x) <==> (source@.take(i as int).contains(x) && keep@.contains(x)
                    && !skip@.contains(x)),
        decreases source@.len() - i,
    {
        let x = source[i];
        let ghost seen = source@.take(i as int);
        let ghost before = out@;
        assert(source@.take(i + 1) =~= seen.push(x));
        if holds(keep, x) && !holds(skip, x) && !holds(&out, x) {
            out.push(x);
        }
        assert forall|y: u64|
            out@.contains(y) <==> (seen.push(x).contains(y) && keep@.contains(y)
                && !skip@.contains(y)) by {
            lemma_seq_contains_after_push(seen, x, y);
            lemma_seq_contains_after_push(before, x, y);
        }
        i = i + 1;
    }
    assert(source@.take(i as int) =~= source@);
    assert(out@.to_set() =~= source@.to_set().intersect(keep@.to_set()).difference(skip@.to_set()));
    out
}

/// The minimal change from the roles a member holds (`current`) to the
/// roles they chose (`desired`), touching only the roles in `managed`.
pub fn role_delta(current: &Vec<u64>, desired: &Vec<u64>, managed: &Vec<u64>) -> (r: RoleDelta)
    ensures
        r.is_delta_of(current@.to_set(), desired@.to_set(), managed@.to_set()),
{
    let to_add = select_ids(desired, managed, current);
    let to_remove = select_ids(current, managed, desired);
    RoleDelta { to_add, to_remove }
}

/// No role is both added and removed, and no role outside the managed set is
/// either.
pub proof fn lemma_delta_stays_managed(current: Set<u64>, desired: Set<u64>, managed: Set<u64>)
    ensures
        delta_add(current, desired, managed).disjoint(delta_remove(current, desired, managed)),
        delta_add(current, desired, managed).subset_of(managed),
        delta_remove(current, desired, managed).subset_of(managed),
{
}

/// When every chosen role is managed, applying the delta to the held roles
/// leaves, within the managed set, exactly the chosen roles; roles outside
/// the managed set are kept as they were.
pub proof fn lemma_delta_reaches_desired(current: Set<u64>, desired: Set<u64>, managed: Set<u64>)
    requires
        desired.subset_of(managed),
    ensures
        current.difference(delta_remove(current, desired, managed)).union(
            delta_add(current, desired, managed),
        ).intersect(managed) == desired,
        current.difference(delta_remove(current, desired, managed)).union(
            delta_add(current, desired, managed),
        ).difference(managed) == current.difference(managed),
{
    let after = current.difference(delta_remove(current, desired, managed)).union(
        delta_add(current, desired, managed),
    );
    assert(after.intersect(managed) =~= desired);
    assert(after.difference(managed) =~= current.difference(managed));
}

/// Choosing exactly the managed roles one already holds changes nothing.
pub proof fn lemma_delta_idempotent(current: Set<u64>, managed: Set<u64>)
    ensures
        delta_add(current, current.intersect(managed), managed) == Set::<u64>::empty(),
        delta_remove(current, current.intersect(managed), managed) == Set::<u64>::empty(),
{
    assert(delta_add(current, current.intersect(managed), managed) =~= Set::<u64>::empty());
    assert(delta_remove(current, current.intersect(managed), managed) =~= Set::<u64>::empty());
}

/// No more than `OFFER_CAP` roles are offered, each offered role is managed
/// and a role of the guild, and the offer is the leading run of the managed
/// roles in the order the platform gave them.
pub proof fn lemma_offer_bounded(roles: Seq<GuildRole>)
    ensures
        offered(roles).len() <= OFFER_CAP,
        offered(roles) == managed_roles(roles).take(offered(roles).len() as int),
        forall|i: int| 0 <= i < offered(roles).len() ==> is_managed(#[trigger] offered(roles)[i]),
        forall|i: int| 0 <= i < offered(roles).len() ==> roles.contains(#[trigger] offered(roles)[i]),
{
    lemma_managed_roles_sound(roles);
    let m = managed_roles(roles);
    if m.len() <= OFFER_CAP {
        assert(m.take(m.len() as int) =~= m);
    }
    assert forall|i: int| 0 <= i < offered(roles).len() implies is_managed(
        #[trigger] offered(roles)[i],
    ) && roles.contains(offered(roles)[i]) by {
        assert(offered(roles)[i] == m[i]);
    }
}

proof fn lemma_managed_roles_sound(roles: Seq<GuildRole>)
    ensures
        forall|i: int|
            0 <= i < managed_roles(roles).len() ==> is_managed(#[trigger] managed_roles(roles)[i])
                && roles.contains(managed_roles(roles)[i]),
    decreases roles.len(),
{
    if roles.len() > 0 {
        let rest = roles.drop_last();
        lemma_managed_roles_sound(rest);
        assert forall|i: int| 0 <= i < managed_roles(roles).len() implies is_managed(
            #[trigger] managed_roles(roles)[i],
        ) && roles.contains(managed_roles(roles)[i]) by {
            if i < managed_roles(rest).len() {
                let j = choose|j: int| 0 <= j < rest.len() && rest[j] == managed_roles(rest)[i];
                assert(roles[j] == rest[j]);
            } else {
                assert(roles[roles.len() - 1] == roles.last());
            }
        }
    }
}

/// The roles of a guild carry pairwise distinct identifiers.
pub open spec fn distinct_ids(roles: Seq<GuildRole>) -> bool {
    forall|a: int, b: int| 0 <= a < b < roles.len() ==> #[trigger] roles[a].id != #[trigger] roles[b].id
}

proof fn lemma_managed_ids_distinct(roles: Seq<GuildRole>)
    requires
        distinct_ids(roles),
    ensures
        distinct_ids(managed_roles(roles)),
    decreases roles.len(),
{
    if roles.len() > 0 {
        let rest = roles.drop_last();
        assert(distinct_ids(rest)) by {
            assert forall|a: int, b: int| 0 <= a < b < rest.len() implies #[trigger] rest[a].id != #[trigger] rest[b].id by {
                assert(rest[a] == roles[a] && rest[b] == roles[b]);
            }
        }
        lemma_managed_ids_distinct(rest);
        lemma_managed_roles_sound(rest);
        let m = managed_roles(rest);
        if is_managed(roles.last()) {
            assert forall|a: int| 0 <= a < m.len() implies m[a].id != roles.last().id by {
                let k = choose|k: int| 0 <= k < rest.len() && rest[k] == m[a];
                assert(roles[k] == rest[k]);
                assert(roles[k].id != roles[roles.len() - 1].id);
            }
            let n = m.push(roles.last());
            assert forall|a: int, b: int| 0 <= a < b < n.len() implies #[trigger] n[a].id != #[trigger] n[b].id by {
                if b < m.len() {
                    assert(n[a] == m[a] && n[b] == m[b]);
                } else {
                    assert(n[a] == m[a]);
                }
            }
        }
    }
}

/// A managed role beyond the first `OFFER_CAP` is never offered, so a
/// reconciliation over the offered roles neither adds nor removes it,
/// whatever the member holds and picks. This holds where the guild's roles
/// carry distinct identifiers.
pub proof fn lemma_beyond_cap_untouched(
    roles: Seq<GuildRole>,
    current: Set<u64>,
    desired: Set<u64>,
    j: int,
)
    requires
        distinct_ids(roles),
        OFFER_CAP <= j < managed_roles(roles).len(),
    ensures
        !role_ids(offered(roles)).contains(managed_roles(roles)[j].id),
        !delta_add(current, desired, role_ids(offered(roles)).to_set()).contains(
            managed_roles(roles)[j].id,
        ),
        !delta_remove(current, desired, role_ids(offered(roles)).to_set()).contains(
            managed_roles(roles)[j].id,
        ),
{
    lemma_managed_ids_distinct(roles);
    let m = managed_roles(roles);
    let o = offered(roles);
    let ids = role_ids(o);
    if ids.contains(m[j].id) {
        let i = choose|i: int| 0 <= i < ids.len() && ids[i] == m[j].id;
        assert(o[i] == m[i]);
        assert(m[i].id != m[j].id);
    }
}

} // verus!

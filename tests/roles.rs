use greiderbot::roles::{holds, ids_of, offered_roles, role_delta, GuildRole, OFFER_CAP};

fn role(id: u64, name: &str) -> GuildRole {
    GuildRole { id, name: name.to_string() }
}

fn sorted(v: &[u64]) -> Vec<u64> {
    let mut v = v.to_vec();
    v.sort();
    v
}

#[test]
fn delta_swaps_one_play_role_for_another() {
    // spela A = 1, spela B = 2, spela C = 3, other X = 9
    let current = vec![1, 9];
    let desired = vec![2];
    let managed = vec![1, 2, 3];
    let d = role_delta(&current, &desired, &managed);
    assert_eq!(d.to_add, vec![2]);
    assert_eq!(d.to_remove, vec![1]);
    assert!(!d.to_add.contains(&9) && !d.to_remove.contains(&9));
}

#[test]
fn delta_empty_when_nothing_held_and_nothing_chosen() {
    let d = role_delta(&vec![9, 10], &vec![], &vec![1, 2, 3]);
    assert!(d.to_add.is_empty());
    assert!(d.to_remove.is_empty());
}

#[test]
fn delta_empty_pick_removes_all_held_managed_roles() {
    let d = role_delta(&vec![3, 1, 9], &vec![], &vec![1, 2, 3]);
    assert!(d.to_add.is_empty());
    assert_eq!(sorted(&d.to_remove), vec![1, 3]);
}

#[test]
fn delta_idempotent_when_pick_equals_held_managed_roles() {
    let d = role_delta(&vec![1, 2, 9], &vec![2, 1], &vec![1, 2, 3]);
    assert!(d.to_add.is_empty());
    assert!(d.to_remove.is_empty());
}

#[test]
fn delta_ignores_roles_outside_managed_set() {
    let d = role_delta(&vec![9], &vec![8, 2], &vec![1, 2]);
    assert_eq!(d.to_add, vec![2]);
    assert!(d.to_remove.is_empty());
}

#[test]
fn delta_lists_each_role_once() {
    let d = role_delta(&vec![1, 1, 3], &vec![2, 2, 2], &vec![1, 2, 3]);
    assert_eq!(d.to_add, vec![2]);
    assert_eq!(sorted(&d.to_remove), vec![1, 3]);
}

#[test]
fn delta_disjoint_and_reaches_pick_within_managed_set() {
    let current = vec![1, 2, 7, 9];
    let desired = vec![2, 3, 4];
    let managed = vec![1, 2, 3, 4, 5, 7];
    let d = role_delta(&current, &desired, &managed);
    for x in &d.to_add {
        assert!(!d.to_remove.contains(x));
    }
    let mut after: Vec<u64> = current.iter().copied().filter(|x| !d.to_remove.contains(x)).collect();
    after.extend(d.to_add.iter().copied());
    let within: Vec<u64> = sorted(&after).into_iter().filter(|x| managed.contains(x)).collect();
    assert_eq!(within, vec![2, 3, 4]);
    assert!(after.contains(&9));
}

#[test]
fn offered_roles_keeps_prefixed_roles_in_order() {
    let roles = vec![
        role(1, "spela A"),
        role(9, "other X"),
        role(2, "spela B"),
        role(4, "spelaD"),
        role(3, "spela C"),
    ];
    let offered = offered_roles(&roles);
    assert_eq!(ids_of(&offered), vec![1, 2, 3]);
    assert_eq!(offered[1].name, "spela B");
}

#[test]
fn offered_roles_capped_at_first_twenty_five() {
    let mut roles = Vec::new();
    for i in 0..30u64 {
        roles.push(role(100 + i, &format!("spela {}", i)));
        roles.push(role(500 + i, &format!("annan {}", i)));
    }
    let offered = offered_roles(&roles);
    assert_eq!(offered.len(), OFFER_CAP);
    assert_eq!(ids_of(&offered), (100..125u64).collect::<Vec<_>>());
}

#[test]
fn offered_roles_empty_guild() {
    assert!(offered_roles(&vec![]).is_empty());
}

#[test]
fn holds_finds_member() {
    assert!(holds(&vec![4, 5], 5));
    assert!(!holds(&vec![4, 5], 6));
    assert!(!holds(&vec![], 6));
}

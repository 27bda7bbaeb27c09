use ldap_client::changes::{LdapUserChangeSet, changes_for, nslock_changes};
use ldap_client::discovery::{endpoint_uri, discover_uris};
use ldap_client::DiscoveryError;

#[test]
fn balance_only_change_touches_only_balance() {
    let cs = LdapUserChangeSet {
        dn: "uid=jdoe,cn=users,cn=accounts,dc=csh,dc=rit,dc=edu".to_string(),
        drinkBalance: Some(-150),
        ibutton: None,
    };
    let mods = changes_for(&cs);
    assert_eq!(mods.len(), 1);
    assert_eq!(mods[0].attr, "drinkBalance");
    assert_eq!(mods[0].values, vec!["-150".to_string()]);
}

#[test]
fn empty_change_set_is_a_noop_modify() {
    let cs = LdapUserChangeSet {
        dn: "uid=jdoe,cn=users,cn=accounts,dc=csh,dc=rit,dc=edu".to_string(),
        drinkBalance: None,
        ibutton: None,
    };
    let mods = changes_for(&cs);
    assert!(mods.is_empty());
}

#[test]
fn both_fields_present_give_two_replacements() {
    let cs = LdapUserChangeSet {
        dn: "uid=jdoe,cn=users,cn=accounts,dc=csh,dc=rit,dc=edu".to_string(),
        drinkBalance: Some(3),
        ibutton: Some(vec!["aa".to_string(), "bb".to_string()]),
    };
    let mods = changes_for(&cs);
    assert_eq!(mods.len(), 2);
    assert_eq!(mods[0].attr, "drinkBalance");
    assert_eq!(mods[0].values, vec!["3".to_string()]);
    assert_eq!(mods[1].attr, "ibutton");
    assert_eq!(mods[1].values, vec!["aa".to_string(), "bb".to_string()]);
}

#[test]
fn lock_flag_values() {
    let lock = nslock_changes(true);
    assert_eq!(lock.len(), 1);
    assert_eq!(lock[0].attr, "nsAccountLock");
    assert_eq!(lock[0].values, vec!["true".to_string()]);
    let unlock = nslock_changes(false);
    assert_eq!(unlock[0].values, vec!["false".to_string()]);
}

#[test]
fn endpoint_uri_strips_trailing_dot() {
    assert_eq!(endpoint_uri("ldap1.csh.rit.edu."), "ldaps://ldap1.csh.rit.edu");
    assert_eq!(endpoint_uri("ldap1.csh.rit.edu"), "ldaps://ldap1.csh.rit.edu");
    assert_eq!(endpoint_uri("host.."), "ldaps://host");
}

#[test]
fn discovery_fails_with_no_candidates() {
    let hosts: Vec<String> = vec![];
    assert_eq!(discover_uris(&hosts), Err(DiscoveryError::NoCandidates));
}

#[test]
fn discovery_maps_every_host() {
    let hosts = vec!["a.".to_string(), "b".to_string()];
    assert_eq!(
        discover_uris(&hosts).unwrap(),
        vec!["ldaps://a".to_string(), "ldaps://b".to_string()]
    );
}

use ldap_client::entry::{Attr, RawEntry, get_one, get_vec};
use ldap_client::user::{LdapUser, to_entry};
use ldap_client::client::{decode_entries, decode_unique};
use ldap_client::DecodeError;

fn attr(name: &str, values: &[&str]) -> Attr {
    Attr {
        name: name.to_string(),
        values: values.iter().map(|v| v.to_string()).collect(),
    }
}

fn sample_entry() -> RawEntry {
    RawEntry {
        dn: "uid=jdoe,cn=users,cn=accounts,dc=csh,dc=rit,dc=edu".to_string(),
        attrs: vec![
            attr("cn", &["John Doe"]),
            attr("uid", &["jdoe"]),
            attr("krbPrincipalName", &["jdoe@CSH.RIT.EDU"]),
            attr(
                "memberOf",
                &[
                    "cn=drink,cn=groups,cn=accounts,dc=csh,dc=rit,dc=edu",
                    "cn=admins,ou=other,dc=example,dc=org",
                    "cn=rtp,cn=groups,cn=accounts,dc=csh,dc=rit,dc=edu",
                ],
            ),
            attr("mail", &["jdoe@csh.rit.edu"]),
            attr("mobile", &["5855551234"]),
            attr("ibutton", &["aabbccdd"]),
            attr("drinkBalance", &["250"]),
        ],
    }
}

#[test]
fn decode_full_entry() {
    let user = LdapUser::from_entry(&sample_entry()).unwrap();
    assert_eq!(user.dn, "uid=jdoe,cn=users,cn=accounts,dc=csh,dc=rit,dc=edu");
    assert_eq!(user.cn, "John Doe");
    assert_eq!(user.uid, "jdoe");
    assert_eq!(user.krbPrincipalName, "jdoe@CSH.RIT.EDU");
    assert_eq!(user.groups, vec!["drink".to_string(), "rtp".to_string()]);
    assert_eq!(user.mail, vec!["jdoe@csh.rit.edu".to_string()]);
    assert_eq!(user.mobile, vec!["5855551234".to_string()]);
    assert_eq!(user.ibutton, vec!["aabbccdd".to_string()]);
    assert_eq!(user.drinkBalance, Some(250));
}

#[test]
fn decode_missing_cn() {
    let mut e = sample_entry();
    e.attrs.retain(|a| a.name != "cn");
    match LdapUser::from_entry(&e) {
        Err(DecodeError::MissingCn) => {}
        other => panic!("unexpected result: {:?}", other.map(|u| u.uid)),
    }
}

#[test]
fn decode_missing_uid() {
    let mut e = sample_entry();
    e.attrs.retain(|a| a.name != "uid");
    match LdapUser::from_entry(&e) {
        Err(DecodeError::MissingUid) => {}
        other => panic!("unexpected result: {:?}", other.map(|u| u.cn)),
    }
}

#[test]
fn decode_missing_principal() {
    let mut e = sample_entry();
    e.attrs.retain(|a| a.name != "krbPrincipalName");
    match LdapUser::from_entry(&e) {
        Err(DecodeError::MissingPrincipal) => {}
        other => panic!("unexpected result: {:?}", other.map(|u| u.cn)),
    }
}

#[test]
fn decode_empty_required_value_list_is_missing() {
    let mut e = sample_entry();
    for a in e.attrs.iter_mut() {
        if a.name == "cn" {
            a.values.clear();
        }
    }
    match LdapUser::from_entry(&e) {
        Err(DecodeError::MissingCn) => {}
        other => panic!("unexpected result: {:?}", other.map(|u| u.cn)),
    }
}

#[test]
fn decode_optional_fields_degrade() {
    let mut e = sample_entry();
    e.attrs.retain(|a| {
        a.name != "mail" && a.name != "mobile" && a.name != "ibutton" && a.name != "memberOf"
            && a.name != "drinkBalance"
    });
    let user = LdapUser::from_entry(&e).unwrap();
    assert!(user.mail.is_empty());
    assert!(user.mobile.is_empty());
    assert!(user.ibutton.is_empty());
    assert!(user.groups.is_empty());
    assert_eq!(user.drinkBalance, None);
}

#[test]
fn decode_unparsable_balance_is_absent() {
    let mut e = sample_entry();
    for a in e.attrs.iter_mut() {
        if a.name == "drinkBalance" {
            a.values = vec!["not-a-number".to_string()];
        }
    }
    let user = LdapUser::from_entry(&e).unwrap();
    assert_eq!(user.drinkBalance, None);
}

#[test]
fn get_one_and_get_vec_behave() {
    let e = sample_entry();
    assert_eq!(get_one(&e, "uid"), Some("jdoe".to_string()));
    assert_eq!(get_one(&e, "nothere"), None);
    assert_eq!(get_vec(&e, "mail"), vec!["jdoe@csh.rit.edu".to_string()]);
    assert_eq!(get_vec(&e, "nothere"), Vec::<String>::new());
}

#[test]
fn roundtrip_decode_then_encode() {
    let user = LdapUser::from_entry(&sample_entry()).unwrap();
    let e2 = to_entry(&user);
    assert_eq!(e2.dn, user.dn);
    let names: Vec<&str> = e2.attrs.iter().map(|a| a.name.as_str()).collect();
    assert_eq!(
        names,
        vec!["cn", "uid", "krbPrincipalName", "memberOf", "mail", "mobile", "ibutton",
            "drinkBalance"]
    );
    assert_eq!(e2.attrs[0].values, vec!["John Doe".to_string()]);
    assert_eq!(e2.attrs[1].values, vec!["jdoe".to_string()]);
    assert_eq!(
        e2.attrs[3].values,
        vec![
            "cn=drink,cn=groups,cn=accounts,dc=csh,dc=rit,dc=edu".to_string(),
            "cn=rtp,cn=groups,cn=accounts,dc=csh,dc=rit,dc=edu".to_string(),
        ]
    );
    assert_eq!(e2.attrs[7].values, vec!["250".to_string()]);
    let user2 = LdapUser::from_entry(&e2).unwrap();
    assert_eq!(user2.cn, user.cn);
    assert_eq!(user2.uid, user.uid);
    assert_eq!(user2.groups, user.groups);
    assert_eq!(user2.drinkBalance, user.drinkBalance);
}

#[test]
fn unique_lookup_zero_matches() {
    let entries: Vec<RawEntry> = vec![];
    assert!(matches!(decode_unique(&entries), Ok(None)));
}

#[test]
fn unique_lookup_single_match() {
    let entries = vec![sample_entry()];
    let got = decode_unique(&entries).unwrap().unwrap();
    assert_eq!(got.uid, "jdoe");
}

#[test]
fn unique_lookup_ambiguous_matches() {
    let entries = vec![sample_entry(), sample_entry()];
    assert!(matches!(decode_unique(&entries), Ok(None)));
}

#[test]
fn decode_entries_all_or_error() {
    let entries = vec![sample_entry(), sample_entry()];
    let users = decode_entries(&entries).unwrap();
    assert_eq!(users.len(), 2);
    let mut bad = sample_entry();
    bad.attrs.retain(|a| a.name != "uid");
    let entries = vec![sample_entry(), bad];
    match decode_entries(&entries) {
        Err(DecodeError::MissingUid) => {}
        other => panic!("unexpected result: {:?}", other.map(|v| v.len())),
    }
}

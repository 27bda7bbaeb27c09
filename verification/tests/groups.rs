use ldap_client::groups::{find_group_name, get_groups, group_dn};

#[test]
fn group_name_extracted_from_full_dn() {
    let got = find_group_name("cn=drink,cn=groups,cn=accounts,dc=csh,dc=rit,dc=edu");
    assert_eq!(got, Some("drink".to_string()));
}

#[test]
fn group_name_absent_for_other_subtrees() {
    assert_eq!(find_group_name("cn=admins,ou=elsewhere,dc=example,dc=org"), None);
    assert_eq!(find_group_name("uid=jdoe,cn=users,cn=accounts,dc=csh,dc=rit,dc=edu"), None);
    assert_eq!(find_group_name(""), None);
    assert_eq!(find_group_name("cn=,cn=groups,cn=accounts,dc=csh,dc=rit,dc=edu"), None);
}

#[test]
fn group_name_found_mid_string() {
    let got = find_group_name("xxcn=rtp,cn=groups,cn=accounts,dc=csh,dc=rit,dc=edu");
    assert_eq!(got, Some("rtp".to_string()));
}

#[test]
fn groups_keep_matching_values_in_order() {
    let member_of = vec![
        "cn=alpha,cn=groups,cn=accounts,dc=csh,dc=rit,dc=edu".to_string(),
        "cn=skip,ou=elsewhere,dc=example,dc=org".to_string(),
        "cn=beta,cn=groups,cn=accounts,dc=csh,dc=rit,dc=edu".to_string(),
        "nonsense".to_string(),
        "cn=gamma_3,cn=groups,cn=accounts,dc=csh,dc=rit,dc=edu".to_string(),
    ];
    let groups = get_groups(member_of);
    assert_eq!(
        groups,
        vec!["alpha".to_string(), "beta".to_string(), "gamma_3".to_string()]
    );
}

#[test]
fn group_dn_builds_full_name() {
    assert_eq!(
        group_dn("drink"),
        "cn=drink,cn=groups,cn=accounts,dc=csh,dc=rit,dc=edu"
    );
}

#[test]
fn group_extraction_agrees_with_compiled_pattern() {
    let re =
        regex::Regex::new(r"cn=(?P<name>\w+),cn=groups,cn=accounts,dc=csh,dc=rit,dc=edu").unwrap();
    let samples = [
        "cn=drink,cn=groups,cn=accounts,dc=csh,dc=rit,dc=edu",
        "cn=a_b9,cn=groups,cn=accounts,dc=csh,dc=rit,dc=edu",
        "cn=admins,ou=elsewhere,dc=example,dc=org",
        "prefix cn=x,cn=groups,cn=accounts,dc=csh,dc=rit,dc=edu suffix",
        "cn=,cn=groups,cn=accounts,dc=csh,dc=rit,dc=edu",
        "",
    ];
    for s in samples {
        let expected = re.captures(s).map(|c| c["name"].to_string());
        assert_eq!(find_group_name(s), expected, "on input {:?}", s);
    }
}

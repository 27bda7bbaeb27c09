use ldap_client::filter::{
    escape_filter_value, search_users_filter, uid_filter, ibutton_filter, mobile_filter,
    all_users_filter, search_base, search_attrs,
};

#[test]
fn escaping_replaces_metacharacters() {
    assert_eq!(escape_filter_value("jdoe"), "jdoe");
    assert_eq!(escape_filter_value("a*b"), "a\\2ab");
    assert_eq!(escape_filter_value("(x)"), "\\28x\\29");
    assert_eq!(escape_filter_value("a\\b"), "a\\5cb");
    assert_eq!(escape_filter_value("a\u{0}b"), "a\\00b");
}

#[test]
fn substring_filter_shape() {
    assert_eq!(search_users_filter("jdoe"), "(|(uid=*jdoe*)(cn=*jdoe*))");
    assert_eq!(
        search_users_filter("j*)("),
        "(|(uid=*j\\2a\\29\\28*)(cn=*j\\2a\\29\\28*))"
    );
}

#[test]
fn exact_lookup_filters() {
    assert_eq!(uid_filter("jdoe"), "uid=jdoe");
    assert_eq!(ibutton_filter("aabbccdd"), "ibutton=aabbccdd");
    assert_eq!(mobile_filter("5855551234"), "mobile=5855551234");
    assert_eq!(uid_filter("j*"), "uid=j\\2a");
}

#[test]
fn fixed_search_constants() {
    assert_eq!(all_users_filter(), "(objectClass=cshMember)");
    assert_eq!(search_base(), "cn=users,cn=accounts,dc=csh,dc=rit,dc=edu");
    assert_eq!(
        search_attrs(),
        vec!["cn", "uid", "memberOf", "krbPrincipalName", "mail", "mobile", "ibutton",
            "drinkBalance"]
    );
}

use vstd::prelude::*;
use vstd::string::*;
use crate::DecodeError;
use crate::entry::{
    Attr, RawEntry, attr_first, attr_values, get_one, get_vec, lemma_find_attr_at,
    lemma_find_attr_none, lemma_attr_first_found,
};
use crate::groups::{get_groups, groups_of, group_dn, group_dn_of, wf_group_name,
    lemma_groups_of_encoded};
use crate::numerals::{parse_i64, parse_i64_spec, format_i64, dec_int,
    lemma_parse_format_roundtrip};
use crate::text::string_from_chars;

verus! {

/// A typed directory user record.
#[derive(Debug, Clone)]
#[allow(non_snake_case)]
pub struct LdapUser {
    pub dn: String,
    pub cn: String,
    pub uid: String,
    pub groups: Vec<String>,
    pub krbPrincipalName: String,
    pub mail: Vec<String>,
    pub mobile: Vec<String>,
    pub drinkBalance: Option<i64>,
    pub ibutton: Vec<String>,
}

/// The required single-valued attributes are all present and nonempty.
pub open spec fn entry_has_required(e: RawEntry) -> bool {
    &&& attr_first(e.attrs@, "cn"@) is Some
    &&& attr_first(e.attrs@, "uid"@) is Some
    &&& attr_first(e.attrs@, "krbPrincipalName"@) is Some
}

/// The balance a decode reads off an entry: absent or unparsable means
/// absent.
pub open spec fn balance_of(e: RawEntry) -> Option<i64> {
    match attr_first(e.attrs@, "drinkBalance"@) {
        None => None,
        Some(s) => parse_i64_spec(s),
    }
}

/// What a successful decode of `e` into `u` means, field by field.
pub open spec fn decode_ok_post(e: RawEntry, u: LdapUser) -> bool {
    &&& u.dn@ == e.dn@
    &&& Some(u.cn@) == attr_first(e.attrs@, "cn"@)
    &&& Some(u.uid@) == attr_first(e.attrs@, "uid"@)
    &&& Some(u.krbPrincipalName@) == attr_first(e.attrs@, "krbPrincipalName"@)
    &&& u.groups.deep_view() == groups_of(attr_values(e.attrs@, "memberOf"@))
    &&& u.mail.deep_view() == attr_values(e.attrs@, "mail"@)
    &&& u.mobile.deep_view() == attr_values(e.attrs@, "mobile"@)
    &&& u.ibutton.deep_view() == attr_values(e.attrs@, "ibutton"@)
    &&& u.drinkBalance == balance_of(e)
}

impl LdapUser {
    /// Decode a raw directory entry into a typed record. A missing or empty
    /// required attribute is a decode failure; optional attributes degrade
    /// to absent or empty values.
    pub fn from_entry(entry: &RawEntry) -> (r: Result<LdapUser, DecodeError>)
        ensures
            r is Ok <==> entry_has_required(*entry),
            r is Ok ==> decode_ok_post(*entry, r.unwrap()),
            attr_first(entry.attrs@, "cn"@) is None ==> r == Err::<LdapUser, DecodeError>(
                DecodeError::MissingCn,
            ),
            attr_first(entry.attrs@, "cn"@) is Some && attr_first(entry.attrs@, "uid"@) is None
                ==> r == Err::<LdapUser, DecodeError>(DecodeError::MissingUid),
            attr_first(entry.attrs@, "cn"@) is Some && attr_first(entry.attrs@, "uid"@) is Some
                && attr_first(entry.attrs@, "krbPrincipalName"@) is None ==> r == Err::<
                LdapUser,
                DecodeError,
            >(DecodeError::MissingPrincipal),
    {
        let cn = match get_one(entry, "cn") {
            Some(v) => v,
            None => {
                return Err(DecodeError::MissingCn);
            },
        };
        let uid = match get_one(entry, "uid") {
            Some(v) => v,
            None => {
                return Err(DecodeError::MissingUid);
            },
        };
        let krb = match get_one(entry, "krbPrincipalName") {
            Some(v) => v,
            None => {
                return Err(DecodeError::MissingPrincipal);
            },
        };
        let groups = get_groups(get_vec(entry, "memberOf"));
        let drink: Option<i64> = match get_one(entry, "drinkBalance") {
            Some(s) => parse_i64(s.as_str()),
            None => None,
        };
        Ok(LdapUser {
            dn: entry.dn.clone(),
            cn,
            uid,
            groups,
            krbPrincipalName: krb,
            mail: get_vec(entry, "mail"),
            mobile: get_vec(entry, "mobile"),
            drinkBalance: drink,
            ibutton: get_vec(entry, "ibutton"),
        })
    }
}

/// What encoding `u` into a raw entry `e` means: a fixed attribute order,
/// the balance attribute present exactly when the record carries one.
pub open spec fn encode_post(u: LdapUser, e: RawEntry) -> bool {
    &&& e.dn@ == u.dn@
    &&& e.attrs@.len() == (if u.drinkBalance is Some {
        8int
    } else {
        7int
    })
    &&& e.attrs@[0].name@ == "cn"@
    &&& e.attrs@[0].values.deep_view() == seq![u.cn@]
    &&& e.attrs@[1].name@ == "uid"@
    &&& e.attrs@[1].values.deep_view() == seq![u.uid@]
    &&& e.attrs@[2].name@ == "krbPrincipalName"@
    &&& e.attrs@[2].values.deep_view() == seq![u.krbPrincipalName@]
    &&& e.attrs@[3].name@ == "memberOf"@
    &&& e.attrs@[3].values.deep_view() == u.groups.deep_view().map_values(
        |g: Seq<char>| group_dn_of(g),
    )
    &&& e.attrs@[4].name@ == "mail"@
    &&& e.attrs@[4].values.deep_view() == u.mail.deep_view()
    &&& e.attrs@[5].name@ == "mobile"@
    &&& e.attrs@[5].values.deep_view() == u.mobile.deep_view()
    &&& e.attrs@[6].name@ == "ibutton"@
    &&& e.attrs@[6].values.deep_view() == u.ibutton.deep_view()
    &&& u.drinkBalance is Some ==> {
        &&& e.attrs@[7].name@ == "drinkBalance"@
        &&& e.attrs@[7].values.deep_view() == seq![dec_int(u.drinkBalance.unwrap() as int)]
    }
}

fn mk_attr(name: &str, values: Vec<String>) -> (a: Attr)
    ensures
        a.name@ == name@,
        a.values == values,
{
    Attr { name: String::from_str(name), values }
}

fn clone_string_vec(v: &Vec<String>) -> (r: Vec<String>)
    ensures
        r.deep_view() == v.deep_view(),
{
    let mut r: Vec<String> = Vec::new();
    let mut i: usize = 0;
    while i < v.len()
        invariant
            0 <= i <= v.len(),
            r.len() == i,
            forall|j: int| 0 <= j < i ==> r[j]@ == v[j]@,
        decreases v.len() - i,
    {
        r.push(v[i].clone());
        i += 1;
    }
    proof {
        assert(r.deep_view() =~= v.deep_view());
    }
    r
}

fn group_dns_of(groups: &Vec<String>) -> (r: Vec<String>)
    ensures
        r.deep_view() == groups.deep_view().map_values(|g: Seq<char>| group_dn_of(g)),
{
    let mut r: Vec<String> = Vec::new();
    let mut i: usize = 0;
    while i < groups.len()
        invariant
            0 <= i <= groups.len(),
            r.len() == i,
            forall|j: int| 0 <= j < i ==> r[j]@ == group_dn_of(groups[j]@),
        decreases groups.len() - i,
    {
        let dn = group_dn(groups[i].as_str());
        r.push(dn);
        i += 1;
    }
    proof {
        assert(r.deep_view() =~= groups.deep_view().map_values(|g: Seq<char>| group_dn_of(g)));
    }
    r
}

/// Re-encode a typed record as a raw entry, in the canonical attribute
/// order; a record without a balance contributes no balance attribute.
pub fn to_entry(u: &LdapUser) -> (r: RawEntry)
    ensures
        encode_post(*u, r),
{
    let mut attrs: Vec<Attr> = Vec::new();
    attrs.push(mk_attr("cn", vec![u.cn.clone()]));
    attrs.push(mk_attr("uid", vec![u.uid.clone()]));
    attrs.push(mk_attr("krbPrincipalName", vec![u.krbPrincipalName.clone()]));
    attrs.push(mk_attr("memberOf", group_dns_of(&u.groups)));
    attrs.push(mk_attr("mail", clone_string_vec(&u.mail)));
    attrs.push(mk_attr("mobile", clone_string_vec(&u.mobile)));
    attrs.push(mk_attr("ibutton", clone_string_vec(&u.ibutton)));
    match u.drinkBalance {
        Some(b) => {
            let digits = format_i64(b);
            let bs = string_from_chars(&digits);
            attrs.push(mk_attr("drinkBalance", vec![bs]));
            proof {
                assert(attrs@[0].values.deep_view() =~= seq![u.cn@]);
                assert(attrs@[1].values.deep_view() =~= seq![u.uid@]);
                assert(attrs@[2].values.deep_view() =~= seq![u.krbPrincipalName@]);
                assert(attrs@[7].values.deep_view() =~= seq![
                    dec_int(u.drinkBalance.unwrap() as int),
                ]);
            }
        },
        None => {
            proof {
                assert(attrs@[0].values.deep_view() =~= seq![u.cn@]);
                assert(attrs@[1].values.deep_view() =~= seq![u.uid@]);
                assert(attrs@[2].values.deep_view() =~= seq![u.krbPrincipalName@]);
            }
        },
    }
    RawEntry { dn: u.dn.clone(), attrs }
}

/// A record whose group names can survive re-encoding: each is nonempty
/// and made of name characters only.
pub open spec fn wf_user(u: LdapUser) -> bool {
    forall|i: int| 0 <= i < u.groups.deep_view().len() ==> wf_group_name(
        #[trigger] u.groups.deep_view()[i],
    )
}

/// Two records carry the same data.
pub open spec fn user_like(a: LdapUser, b: LdapUser) -> bool {
    &&& a.dn@ == b.dn@
    &&& a.cn@ == b.cn@
    &&& a.uid@ == b.uid@
    &&& a.krbPrincipalName@ == b.krbPrincipalName@
    &&& a.groups.deep_view() == b.groups.deep_view()
    &&& a.mail.deep_view() == b.mail.deep_view()
    &&& a.mobile.deep_view() == b.mobile.deep_view()
    &&& a.ibutton.deep_view() == b.ibutton.deep_view()
    &&& a.drinkBalance == b.drinkBalance
}

/// Two raw entries carry the same data.
pub open spec fn entry_like(a: RawEntry, b: RawEntry) -> bool {
    &&& a.dn@ == b.dn@
    &&& a.attrs@.len() == b.attrs@.len()
    &&& forall|i: int| 0 <= i < a.attrs@.len() ==> #[trigger] a.attrs@[i].name@ == b.attrs@[
        i
    ].name@ && a.attrs@[i].values.deep_view() == b.attrs@[i].values.deep_view()
}

proof fn lemma_attr_names_distinct()
    ensures
        "cn"@.len() == 2,
        "uid"@.len() == 3,
        "krbPrincipalName"@.len() == 16,
        "memberOf"@.len() == 8,
        "mail"@.len() == 4,
        "mobile"@.len() == 6,
        "ibutton"@.len() == 7,
        "drinkBalance"@.len() == 12,
{
    reveal_strlit("cn");
    reveal_strlit("uid");
    reveal_strlit("krbPrincipalName");
    reveal_strlit("memberOf");
    reveal_strlit("mail");
    reveal_strlit("mobile");
    reveal_strlit("ibutton");
    reveal_strlit("drinkBalance");
}

proof fn lemma_encoded_lookups(u: LdapUser, e: RawEntry)
    requires
        encode_post(u, e),
    ensures
        attr_first(e.attrs@, "cn"@) == Some(u.cn@),
        attr_first(e.attrs@, "uid"@) == Some(u.uid@),
        attr_first(e.attrs@, "krbPrincipalName"@) == Some(u.krbPrincipalName@),
        attr_values(e.attrs@, "memberOf"@) == u.groups.deep_view().map_values(
            |g: Seq<char>| group_dn_of(g),
        ),
        attr_values(e.attrs@, "mail"@) == u.mail.deep_view(),
        attr_values(e.attrs@, "mobile"@) == u.mobile.deep_view(),
        attr_values(e.attrs@, "ibutton"@) == u.ibutton.deep_view(),
        balance_of(e) == u.drinkBalance,
{
    lemma_attr_names_distinct();
    let attrs = e.attrs@;
    lemma_find_attr_at(attrs, "cn"@, 0);
    lemma_attr_first_found(attrs, "cn"@, attrs[0]);
    assert(attrs[0].values.len() == attrs[0].values.deep_view().len());
    assert(attrs[0].values[0]@ == attrs[0].values.deep_view()[0]);
    lemma_find_attr_at(attrs, "uid"@, 1);
    lemma_attr_first_found(attrs, "uid"@, attrs[1]);
    assert(attrs[1].values.len() == attrs[1].values.deep_view().len());
    assert(attrs[1].values[0]@ == attrs[1].values.deep_view()[0]);
    lemma_find_attr_at(attrs, "krbPrincipalName"@, 2);
    lemma_attr_first_found(attrs, "krbPrincipalName"@, attrs[2]);
    assert(attrs[2].values.len() == attrs[2].values.deep_view().len());
    assert(attrs[2].values[0]@ == attrs[2].values.deep_view()[0]);
    lemma_find_attr_at(attrs, "memberOf"@, 3);
    lemma_attr_first_found(attrs, "memberOf"@, attrs[3]);
    lemma_find_attr_at(attrs, "mail"@, 4);
    lemma_attr_first_found(attrs, "mail"@, attrs[4]);
    lemma_find_attr_at(attrs, "mobile"@, 5);
    lemma_attr_first_found(attrs, "mobile"@, attrs[5]);
    lemma_find_attr_at(attrs, "ibutton"@, 6);
    lemma_attr_first_found(attrs, "ibutton"@, attrs[6]);
    if u.drinkBalance is Some {
        lemma_find_attr_at(attrs, "drinkBalance"@, 7);
        lemma_attr_first_found(attrs, "drinkBalance"@, attrs[7]);
        assert(attrs[7].values.len() == attrs[7].values.deep_view().len());
        assert(attrs[7].values.len() == 1);
        assert(attrs[7].values[0]@ == attrs[7].values.deep_view()[0]);
        assert(attrs[7].values[0]@ == dec_int(u.drinkBalance.unwrap() as int));
        lemma_parse_format_roundtrip(u.drinkBalance.unwrap());
    } else {
        lemma_find_attr_none(attrs, "drinkBalance"@);
    }
}

/// Round trip, record side: re-encoding a usable record and decoding the
/// result yields the same record data.
pub proof fn lemma_encode_then_decode(u: LdapUser, e: RawEntry, u2: LdapUser)
    requires
        wf_user(u),
        encode_post(u, e),
        decode_ok_post(e, u2),
    ensures
        user_like(u2, u),
{
    lemma_encoded_lookups(u, e);
    lemma_groups_of_encoded(u.groups.deep_view());
}

/// An encoded record always decodes successfully.
pub proof fn lemma_encode_has_required(u: LdapUser, e: RawEntry)
    requires
        encode_post(u, e),
    ensures
        entry_has_required(e),
{
    lemma_encoded_lookups(u, e);
}

/// A raw entry in the canonical shape: what re-encoding some usable record
/// produces.
pub open spec fn wf_entry(e: RawEntry) -> bool {
    exists|u: LdapUser| wf_user(u) && encode_post(u, e)
}

/// Round trip, entry side: decoding a canonically shaped entry succeeds,
/// and re-encoding the decoded record yields an entry with the same data.
pub proof fn lemma_decode_then_encode(e: RawEntry, u: LdapUser, e2: RawEntry)
    requires
        wf_entry(e),
        decode_ok_post(e, u),
        encode_post(u, e2),
    ensures
        entry_like(e2, e),
{
    let u0 = choose|u0: LdapUser| wf_user(u0) && encode_post(u0, e);
    lemma_encode_then_decode(u0, e, u);
    assert(user_like(u, u0));
    assert(e2.attrs@.len() == e.attrs@.len());
    assert forall|i: int| 0 <= i < e2.attrs@.len() implies #[trigger] e2.attrs@[i].name@
        == e.attrs@[i].name@ && e2.attrs@[i].values.deep_view() == e.attrs@[i].values.deep_view()
    by {
        assert(u.groups.deep_view().map_values(|g: Seq<char>| group_dn_of(g))
            == u0.groups.deep_view().map_values(|g: Seq<char>| group_dn_of(g)));
    }
}

/// Decoding a canonically shaped entry is guaranteed to succeed.
pub proof fn lemma_wf_entry_decodes(e: RawEntry)
    requires
        wf_entry(e),
    ensures
        entry_has_required(e),
{
    let u0 = choose|u0: LdapUser| wf_user(u0) && encode_post(u0, e);
    lemma_encode_has_required(u0, e);
}

} // verus!

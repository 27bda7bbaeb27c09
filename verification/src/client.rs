use vstd::prelude::*;
use crate::DecodeError;
use crate::entry::{RawEntry, attr_first};
use crate::user::{LdapUser, entry_has_required, decode_ok_post};

verus! {

/// The decode error an entry missing a required attribute produces: the
/// first missing one, in the order the decoder checks them.
pub open spec fn decode_err_of(e: RawEntry) -> DecodeError {
    if attr_first(e.attrs@, "cn"@) is None {
        DecodeError::MissingCn
    } else if attr_first(e.attrs@, "uid"@) is None {
        DecodeError::MissingUid
    } else {
        DecodeError::MissingPrincipal
    }
}

/// Decode every entry of a search result, in order; the first entry that
/// cannot be decoded fails the whole result with its error.
pub fn decode_entries(entries: &Vec<RawEntry>) -> (r: Result<Vec<LdapUser>, DecodeError>)
    ensures
        r is Ok <==> (forall|i: int| 0 <= i < entries@.len() ==> entry_has_required(
            #[trigger] entries@[i],
        )),
        r matches Ok(users) ==> users@.len() == entries@.len() && (forall|i: int|
            0 <= i < entries@.len() ==> decode_ok_post(#[trigger] entries@[i], users@[i])),
        r is Err ==> exists|k: int|
            #![auto]
            0 <= k < entries@.len() && !entry_has_required(entries@[k]) && r == Err::<
                Vec<LdapUser>,
                DecodeError,
            >(decode_err_of(entries@[k])) && (forall|j: int| 0 <= j < k ==> entry_has_required(
                entries@[j],
            )),
{
    let mut users: Vec<LdapUser> = Vec::new();
    let mut i: usize = 0;
    while i < entries.len()
        invariant
            0 <= i <= entries@.len(),
            users@.len() == i,
            forall|j: int| 0 <= j < i ==> entry_has_required(#[trigger] entries@[j]),
            forall|j: int| 0 <= j < i ==> decode_ok_post(#[trigger] entries@[j], users@[j]),
        decreases entries@.len() - i,
    {
        match LdapUser::from_entry(&entries[i]) {
            Ok(u) => {
                users.push(u);
            },
            Err(err) => {
                return Err(err);
            },
        }
        i += 1;
    }
    Ok(users)
}

/// The point-lookup policy: a decoded record only for an unambiguous
/// result. Zero matches or more than one yield no record at all — an
/// ambiguous key must not silently pick an arbitrary record — and a
/// single match that cannot be decoded is a reported decode failure.
pub fn decode_unique(entries: &Vec<RawEntry>) -> (r: Result<Option<LdapUser>, DecodeError>)
    ensures
        entries@.len() != 1 ==> r == Ok::<Option<LdapUser>, DecodeError>(None),
        entries@.len() == 1 && entry_has_required(entries@[0]) ==> (r matches Ok(u) && (u
            matches Some(user) && decode_ok_post(entries@[0], user))),
        entries@.len() == 1 && !entry_has_required(entries@[0]) ==> r == Err::<
            Option<LdapUser>,
            DecodeError,
        >(decode_err_of(entries@[0])),
{
    if entries.len() == 1 {
        match LdapUser::from_entry(&entries[0]) {
            Ok(u) => Ok(Some(u)),
            Err(err) => Err(err),
        }
    } else {
        Ok(None)
    }
}

} // verus!

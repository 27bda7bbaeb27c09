use vstd::prelude::*;
use vstd::string::*;
use crate::numerals::{format_i64, dec_int};
use crate::text::string_from_chars;

verus! {

/// A sparse update request: the record to change, and for each optional
/// field a value to replace the attribute with, or nothing to leave it
/// untouched.
#[derive(Debug, Clone)]
#[allow(non_snake_case)]
pub struct LdapUserChangeSet {
    pub dn: String,
    pub drinkBalance: Option<i64>,
    pub ibutton: Option<Vec<String>>,
}

/// One attribute replacement of a modify request: the attribute's whole
/// value set becomes `values`.
pub struct AttrReplace {
    pub attr: String,
    pub values: Vec<String>,
}

fn clone_string_vec(v: &Vec<String>) -> (r: Vec<String>)
    ensures
        r.deep_view() == v.deep_view(),
{
    let mut r: Vec<String> = Vec::new();
    let mut i: usize = 0;
    while i < v.len()
        invariant
            0 <= i <= v.len(),
            r.len() == i,
            forall|j: int| 0 <= j < i ==> r[j]@ == v[j]@,
        decreases v.len() - i,
    {
        r.push(v[i].clone());
        i += 1;
    }
    proof {
        assert(r.deep_view() =~= v.deep_view());
    }
    r
}

/// The attribute replacements a change set asks for: one per present
/// field, none for an absent field, and none at all for an empty change
/// set. No attribute outside the change set is ever touched.
pub fn changes_for(cs: &LdapUserChangeSet) -> (r: Vec<AttrReplace>)
    ensures
        r@.len() == (if cs.drinkBalance is Some {
            1int
        } else {
            0int
        }) + (if cs.ibutton is Some {
            1int
        } else {
            0int
        }),
        cs.drinkBalance matches Some(b) ==> r@[0].attr@ == "drinkBalance"@ && r@[
            0
        ].values.deep_view() == seq![dec_int(b as int)],
        cs.ibutton matches Some(ib) ==> {
            let k: int = if cs.drinkBalance is Some {
                1int
            } else {
                0int
            };
            r@[k].attr@ == "ibutton"@ && r@[k].values.deep_view() == ib.deep_view()
        },
{
    let mut r: Vec<AttrReplace> = Vec::new();
    match cs.drinkBalance {
        Some(b) => {
            let digits = format_i64(b);
            let value = string_from_chars(&digits);
            let values = vec![value];
            proof {
                assert(values.deep_view() =~= seq![dec_int(b as int)]);
            }
            r.push(AttrReplace { attr: String::from_str("drinkBalance"), values });
        },
        None => {},
    }
    match &cs.ibutton {
        Some(ib) => {
            r.push(AttrReplace { attr: String::from_str("ibutton"), values: clone_string_vec(ib) });
        },
        None => {},
    }
    r
}

/// The single replacement a lock or unlock issues: the account-lock flag
/// becomes the word for the wanted state.
pub fn nslock_changes(locked: bool) -> (r: Vec<AttrReplace>)
    ensures
        r@.len() == 1,
        r@[0].attr@ == "nsAccountLock"@,
        locked ==> r@[0].values.deep_view() == seq!["true"@],
        !locked ==> r@[0].values.deep_view() == seq!["false"@],
{
    let word = if locked {
        String::from_str("true")
    } else {
        String::from_str("false")
    };
    let values = vec![word];
    proof {
        if locked {
            assert(values.deep_view() =~= seq!["true"@]);
        } else {
            assert(values.deep_view() =~= seq!["false"@]);
        }
    }
    let mut r: Vec<AttrReplace> = Vec::new();
    r.push(AttrReplace { attr: String::from_str("nsAccountLock"), values });
    r
}

} // verus!

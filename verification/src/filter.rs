use vstd::prelude::*;
use vstd::string::*;
use crate::text::{chars_of, string_from_chars};

verus! {

/// How one character is written inside a filter: the grouping and
/// wildcard metacharacters, the escape character itself and the NUL
/// character become a backslash and two hex digits; everything else
/// stands as it is.
pub open spec fn esc_char(c: char) -> Seq<char> {
    if c == '(' {
        seq!['\\', '2', '8']
    } else if c == ')' {
        seq!['\\', '2', '9']
    } else if c == '*' {
        seq!['\\', '2', 'a']
    } else if c == '\\' {
        seq!['\\', '5', 'c']
    } else if c as int == 0 {
        seq!['\\', '0', '0']
    } else {
        seq![c]
    }
}

/// A caller-supplied value as it may stand inside a filter expression.
pub open spec fn escape_filter(s: Seq<char>) -> Seq<char>
    decreases s.len(),
{
    if s.len() == 0 {
        Seq::empty()
    } else {
        escape_filter(s.drop_last()) + esc_char(s.last())
    }
}

fn push_esc(out: &mut Vec<char>, c: char)
    ensures
        final(out)@ == old(out)@ + esc_char(c),
{
    let u = c as u32;
    if u == 40 {
        out.push('\\');
        out.push('2');
        out.push('8');
        proof {
            assert(out@ =~= old(out)@ + esc_char(c));
        }
    } else if u == 41 {
        out.push('\\');
        out.push('2');
        out.push('9');
        proof {
            assert(out@ =~= old(out)@ + esc_char(c));
        }
    } else if u == 42 {
        out.push('\\');
        out.push('2');
        out.push('a');
        proof {
            assert(out@ =~= old(out)@ + esc_char(c));
        }
    } else if u == 92 {
        out.push('\\');
        out.push('5');
        out.push('c');
        proof {
            assert(out@ =~= old(out)@ + esc_char(c));
        }
    } else if u == 0 {
        out.push('\\');
        out.push('0');
        out.push('0');
        proof {
            assert(out@ =~= old(out)@ + esc_char(c));
        }
    } else {
        out.push(c);
        proof {
            assert(out@ =~= old(out)@ + esc_char(c));
        }
    }
}

/// Escape a caller-supplied value for interpolation into a filter
/// expression, so that no value can change the filter's structure.
pub fn escape_filter_value(s: &str) -> (r: String)
    ensures
        r@ == escape_filter(s@),
{
    let v = chars_of(s);
    let mut out: Vec<char> = Vec::new();
    let mut i: usize = 0;
    while i < v.len()
        invariant
            0 <= i <= v.len(),
            v@ == s@,
            out@ == escape_filter(s@.take(i as int)),
        decreases v.len() - i,
    {
        push_esc(&mut out, v[i]);
        proof {
            assert(s@.take(i + 1 as int).drop_last() =~= s@.take(i as int));
            assert(s@.take(i + 1 as int).last() == s@[i as int]);
        }
        i += 1;
    }
    proof {
        assert(s@.take(s@.len() as int) =~= s@);
    }
    string_from_chars(&out)
}

/// The substring-search filter: matches entries whose login or display
/// name contains the query.
pub fn search_users_filter(query: &str) -> (r: String)
    ensures
        r@ == "(|(uid=*"@ + escape_filter(query@) + "*)(cn=*"@ + escape_filter(query@) + "*))"@,
{
    let esc = escape_filter_value(query);
    let mut r = String::from_str("(|(uid=*");
    r.append(esc.as_str());
    r.append("*)(cn=*");
    r.append(esc.as_str());
    r.append("*))");
    r
}

/// The exact login-identifier filter.
pub fn uid_filter(uid: &str) -> (r: String)
    ensures
        r@ == "uid="@ + escape_filter(uid@),
{
    let mut r = String::from_str("uid=");
    let esc = escape_filter_value(uid);
    r.append(esc.as_str());
    r
}

/// The exact token-attribute filter.
pub fn ibutton_filter(ibutton: &str) -> (r: String)
    ensures
        r@ == "ibutton="@ + escape_filter(ibutton@),
{
    let mut r = String::from_str("ibutton=");
    let esc = escape_filter_value(ibutton);
    r.append(esc.as_str());
    r
}

/// The exact mobile-number filter.
pub fn mobile_filter(phone: &str) -> (r: String)
    ensures
        r@ == "mobile="@ + escape_filter(phone@),
{
    let mut r = String::from_str("mobile=");
    let esc = escape_filter_value(phone);
    r.append(esc.as_str());
    r
}

/// The filter that selects every member record.
pub fn all_users_filter() -> (r: String)
    ensures
        r@ == "(objectClass=cshMember)"@,
{
    String::from_str("(objectClass=cshMember)")
}

/// The fixed search base: the user-record subtree. Every operation
/// searches this subtree and all of its descendants.
pub fn search_base() -> (r: String)
    ensures
        r@ == "cn=users,cn=accounts,dc=csh,dc=rit,dc=edu"@,
{
    String::from_str("cn=users,cn=accounts,dc=csh,dc=rit,dc=edu")
}

/// The attributes every search asks the directory for.
pub fn search_attrs() -> (r: Vec<String>)
    ensures
        r.deep_view() == seq![
            "cn"@,
            "uid"@,
            "memberOf"@,
            "krbPrincipalName"@,
            "mail"@,
            "mobile"@,
            "ibutton"@,
            "drinkBalance"@,
        ],
{
    let mut r: Vec<String> = Vec::new();
    r.push(String::from_str("cn"));
    r.push(String::from_str("uid"));
    r.push(String::from_str("memberOf"));
    r.push(String::from_str("krbPrincipalName"));
    r.push(String::from_str("mail"));
    r.push(String::from_str("mobile"));
    r.push(String::from_str("ibutton"));
    r.push(String::from_str("drinkBalance"));
    proof {
        assert(r.deep_view() =~= seq![
            "cn"@,
            "uid"@,
            "memberOf"@,
            "krbPrincipalName"@,
            "mail"@,
            "mobile"@,
            "ibutton"@,
            "drinkBalance"@,
        ]);
    }
    r
}

} // verus!

use vstd::prelude::*;
use vstd::string::*;
use crate::text::{chars_of, string_from_chars};

verus! {

/// The fixed relative-name prefix of a group entry's distinguished name.
pub open spec fn group_prefix() -> Seq<char> {
    seq!['c', 'n', '=']
}

/// The fixed tail of a group entry's distinguished name: the group subtree.
pub open spec fn group_suffix() -> Seq<char> {
    seq![',', 'c', 'n', '=', 'g', 'r', 'o', 'u', 'p', 's',
         ',', 'c', 'n', '=', 'a', 'c', 'c', 'o', 'u', 'n', 't', 's',
         ',', 'd', 'c', '=', 'c', 's', 'h',
         ',', 'd', 'c', '=', 'r', 'i', 't',
         ',', 'd', 'c', '=', 'e', 'd', 'u']
}

/// A character a group's relative name may consist of.
pub open spec fn word_char(c: char) -> bool {
    (97 <= c as int && c as int <= 122) || (65 <= c as int && c as int <= 90) || (48 <= c as int
        && c as int <= 57) || c as int == 95
}

/// `s` holds, starting at `i`, the prefix, then `n` name characters, then
/// the group-subtree tail.
pub open spec fn match_at(s: Seq<char>, i: int, n: int) -> bool {
    &&& 0 <= i
    &&& 1 <= n
    &&& i + 3 + n + group_suffix().len() <= s.len()
    &&& s.subrange(i, i + 3) == group_prefix()
    &&& (forall|k: int| i + 3 <= k < i + 3 + n ==> word_char(s[k]))
    &&& s.subrange(i + 3 + n, i + 3 + n + group_suffix().len()) == group_suffix()
}

/// The captured relative group name of the leftmost match at or after `i`.
pub open spec fn capture_from(s: Seq<char>, i: int) -> Option<Seq<char>>
    decreases s.len() - i,
    when 0 <= i <= s.len()
{
    if i >= s.len() {
        None
    } else if exists|n: int| match_at(s, i, n) {
        let n = choose|n: int| match_at(s, i, n);
        Some(s.subrange(i + 3, i + 3 + n))
    } else {
        capture_from(s, i + 1)
    }
}

/// The relative group name in `s`, if `s` holds a group-subtree
/// distinguished name anywhere in it; the leftmost such name.
pub open spec fn group_capture(s: Seq<char>) -> Option<Seq<char>> {
    capture_from(s, 0)
}

proof fn lemma_match_unique(s: Seq<char>, i: int, n1: int, n2: int)
    requires
        match_at(s, i, n1),
        match_at(s, i, n2),
    ensures
        n1 == n2,
{
    if n1 < n2 {
        assert(word_char(s[i + 3 + n1]));
        assert(s.subrange(i + 3 + n1, i + 3 + n1 + group_suffix().len())[0] == s[i + 3 + n1]);
        assert(s[i + 3 + n1] == group_suffix()[0]);
        assert(!word_char(','));
    } else if n2 < n1 {
        assert(word_char(s[i + 3 + n2]));
        assert(s.subrange(i + 3 + n2, i + 3 + n2 + group_suffix().len())[0] == s[i + 3 + n2]);
        assert(s[i + 3 + n2] == group_suffix()[0]);
        assert(!word_char(','));
    }
}

proof fn lemma_no_match_here(s: Seq<char>, i: int, j: int, sufok: bool)
    requires
        0 <= i,
        i + 3 <= j <= s.len(),
        s.subrange(i, i + 3) == group_prefix(),
        forall|k: int| i + 3 <= k < j ==> word_char(s[k]),
        j < s.len() ==> !word_char(s[j]),
        (j - (i + 3) >= 1 && j + group_suffix().len() <= s.len()) ==> (sufok <==> s.subrange(
            j,
            j + group_suffix().len(),
        ) == group_suffix()),
        !(j - (i + 3) >= 1 && j + group_suffix().len() <= s.len() && sufok),
    ensures
        forall|nn: int| !match_at(s, i, nn),
{
    let m = j - (i + 3);
    assert forall|nn: int| !match_at(s, i, nn) by {
        if match_at(s, i, nn) {
            if nn < m {
                assert(word_char(s[i + 3 + nn]));
                assert(s.subrange(i + 3 + nn, i + 3 + nn + group_suffix().len())[0] == s[i + 3
                    + nn]);
                assert(s[i + 3 + nn] == group_suffix()[0]);
            } else if nn == m {
                assert(m >= 1);
                assert(j + group_suffix().len() <= s.len());
                assert(s.subrange(j, j + group_suffix().len()) == group_suffix());
            } else {
                assert(nn > m);
                if j < s.len() {
                    assert(word_char(s[j]));
                } else {
                    assert(i + 3 + nn + group_suffix().len() > s.len());
                }
            }
        }
    }
}

fn char_is_word(c: char) -> (r: bool)
    ensures
        r == word_char(c),
{
    let u = c as u32;
    (97 <= u && u <= 122) || (65 <= u && u <= 90) || (48 <= u && u <= 57) || u == 95
}

fn suffix_chars() -> (v: Vec<char>)
    ensures
        v@ == group_suffix(),
{
    let v: Vec<char> = vec![',', 'c', 'n', '=', 'g', 'r', 'o', 'u', 'p', 's',
        ',', 'c', 'n', '=', 'a', 'c', 'c', 'o', 'u', 'n', 't', 's',
        ',', 'd', 'c', '=', 'c', 's', 'h',
        ',', 'd', 'c', '=', 'r', 'i', 't',
        ',', 'd', 'c', '=', 'e', 'd', 'u'];
    proof {
        assert(v@ =~= group_suffix());
    }
    v
}

fn slice_eq_at(v: &Vec<char>, off: usize, pat: &Vec<char>) -> (r: bool)
    requires
        off + pat.len() <= v.len(),
    ensures
        r <==> v@.subrange(off as int, off + pat@.len()) == pat@,
{
    let mut k: usize = 0;
    while k < pat.len()
        invariant
            0 <= k <= pat.len(),
            off + pat.len() <= v.len(),
            forall|l: int| 0 <= l < k ==> v@[off + l] == pat@[l],
        decreases pat.len() - k,
    {
        if v[off + k] != pat[k] {
            proof {
                assert(v@.subrange(off as int, off + pat@.len())[k as int] == v@[off + k]);
            }
            return false;
        }
        k += 1;
    }
    proof {
        assert(v@.subrange(off as int, off + pat@.len()) =~= pat@);
    }
    true
}

/// The relative group name held in `s`, per `group_capture`.
pub fn find_group_name(s: &str) -> (r: Option<String>)
    ensures
        r is Some <==> group_capture(s@) is Some,
        r is Some ==> r.unwrap()@ == group_capture(s@).unwrap(),
{
    let v = chars_of(s);
    let suf = suffix_chars();
    let n = v.len();
    let mut i: usize = 0;
    while i < n
        invariant
            0 <= i <= n,
            n == v.len(),
            v@ == s@,
            suf@ == group_suffix(),
            capture_from(s@, 0) == capture_from(s@, i as int),
        decreases n - i,
    {
        let prefix_ok = n >= 3 && i <= n - 3 && v[i] == 'c' && v[i + 1] == 'n' && v[i + 2] == '=';
        let mut matched = false;
        let mut name_end: usize = 0;
        if prefix_ok {
            proof {
                assert(s@.subrange(i as int, i + 3) =~= group_prefix());
            }
            let mut j = i + 3;
            while j < n && char_is_word(v[j])
                invariant
                    i + 3 <= j <= n,
                    n == v.len(),
                    v@ == s@,
                    forall|k: int| i + 3 <= k < j ==> word_char(s@[k]),
                decreases n - j,
            {
                j += 1;
            }
            let m = j - (i + 3);
            if m >= 1 && n >= 43 && j <= n - 43 {
                proof {
                    assert(group_suffix().len() == 43);
                }
                if slice_eq_at(&v, j, &suf) {
                    matched = true;
                    name_end = j;
                    proof {
                        assert(s@.subrange(j as int, j + 43) == group_suffix());
                        assert(match_at(s@, i as int, m as int));
                        let nc = choose|nn: int| match_at(s@, i as int, nn);
                        lemma_match_unique(s@, i as int, nc, m as int);
                        assert(capture_from(s@, i as int) == Some(
                            s@.subrange(i + 3, i + 3 + m),
                        ));
                    }
                } else {
                    proof {
                        lemma_no_match_here(s@, i as int, j as int, false);
                    }
                }
            } else {
                proof {
                    assert(group_suffix().len() == 43);
                    lemma_no_match_here(s@, i as int, j as int, false);
                }
            }
        } else {
            proof {
                assert forall|nn: int| !match_at(s@, i as int, nn) by {
                    if match_at(s@, i as int, nn) {
                        assert(s@.subrange(i as int, i + 3) == group_prefix());
                        assert(s@.subrange(i as int, i + 3)[0] == s@[i as int]);
                        assert(s@.subrange(i as int, i + 3)[1] == s@[i + 1]);
                        assert(s@.subrange(i as int, i + 3)[2] == s@[i + 2]);
                    }
                }
            }
        }
        if matched {
            let mut name: Vec<char> = Vec::new();
            let mut t = i + 3;
            while t < name_end
                invariant
                    i + 3 <= t <= name_end,
                    name_end <= v.len(),
                    v@ == s@,
                    name@ == s@.subrange(i + 3, t as int),
                decreases name_end - t,
            {
                name.push(v[t]);
                proof {
                    assert(s@.subrange(i + 3, t + 1 as int) =~= s@.subrange(i + 3, t as int).push(
                        s@[t as int],
                    ));
                }
                t += 1;
            }
            return Some(string_from_chars(&name));
        }
        proof {
            assert(capture_from(s@, i as int) == capture_from(s@, i + 1 as int));
        }
        i += 1;
    }
    proof {
        assert(capture_from(s@, n as int) is None);
    }
    None
}

/// The relative group names of the matching values of `vals`, in order;
/// non-matching values contribute nothing.
pub open spec fn groups_of(vals: Seq<Seq<char>>) -> Seq<Seq<char>>
    decreases vals.len(),
{
    if vals.len() == 0 {
        Seq::empty()
    } else {
        let rest = groups_of(vals.drop_last());
        match group_capture(vals.last()) {
            Some(name) => rest.push(name),
            None => rest,
        }
    }
}

/// Extract the relative group names from the values of a member-of
/// attribute; values that do not carry a group-subtree distinguished name
/// are dropped.
pub fn get_groups(member_of: Vec<String>) -> (r: Vec<String>)
    ensures
        r.deep_view() == groups_of(member_of.deep_view()),
{
    let mut r: Vec<String> = Vec::new();
    let mut i: usize = 0;
    while i < member_of.len()
        invariant
            0 <= i <= member_of.len(),
            r.deep_view() == groups_of(member_of.deep_view().take(i as int)),
        decreases member_of.len() - i,
    {
        let got = find_group_name(member_of[i].as_str());
        proof {
            assert(member_of.deep_view().take(i + 1 as int).drop_last() =~= member_of.deep_view()
                .take(i as int));
            assert(member_of.deep_view().take(i + 1 as int).last() == member_of@[i as int]@);
        }
        match got {
            Some(name) => {
                r.push(name);
                proof {
                    assert(r.deep_view() =~= groups_of(member_of.deep_view().take(i + 1 as int)));
                }
            },
            None => {
                proof {
                    assert(r.deep_view() =~= groups_of(member_of.deep_view().take(i + 1 as int)));
                }
            },
        }
        i += 1;
    }
    proof {
        assert(member_of.deep_view().take(member_of.len() as int) =~= member_of.deep_view());
    }
    r
}

/// Exactly the matching values contribute, each its captured name, in the
/// original relative order: the extracted names are the filtered values,
/// mapped to their captures.
pub proof fn lemma_groups_filter_map(vals: Seq<Seq<char>>)
    ensures
        groups_of(vals) == vals.filter(|v: Seq<char>| group_capture(v) is Some).map_values(
            |v: Seq<char>| group_capture(v).unwrap(),
        ),
        groups_of(vals).len() == vals.filter(|v: Seq<char>| group_capture(v) is Some).len(),
    decreases vals.len(),
{
    reveal(Seq::filter);
    let pred = |v: Seq<char>| group_capture(v) is Some;
    let f = |v: Seq<char>| group_capture(v).unwrap();
    if vals.len() == 0 {
        assert(vals.filter(pred) =~= Seq::<Seq<char>>::empty());
        assert(groups_of(vals) =~= vals.filter(pred).map_values(f));
    } else {
        lemma_groups_filter_map(vals.drop_last());
        let sub = vals.drop_last().filter(pred);
        if pred(vals.last()) {
            assert(vals.filter(pred) == sub.push(vals.last()));
            assert(sub.push(vals.last()).map_values(f) =~= sub.map_values(f).push(f(vals.last())));
            assert(groups_of(vals) =~= vals.filter(pred).map_values(f));
        } else {
            assert(vals.filter(pred) == sub);
            assert(groups_of(vals) =~= vals.filter(pred).map_values(f));
        }
    }
}

/// A usable relative group name: nonempty, name characters only.
pub open spec fn wf_group_name(s: Seq<char>) -> bool {
    s.len() >= 1 && (forall|i: int| 0 <= i < s.len() ==> word_char(s[i]))
}

/// The full distinguished name of the group with relative name `name`.
pub open spec fn group_dn_of(name: Seq<char>) -> Seq<char> {
    group_prefix() + name + group_suffix()
}

/// Build the full distinguished name of a group from its relative name.
pub fn group_dn(name: &str) -> (r: String)
    ensures
        r@ == group_dn_of(name@),
{
    let mut s = String::from_str("cn=");
    proof {
        reveal_strlit("cn=");
        assert(s@ =~= group_prefix());
    }
    s.append(name);
    s.append(",cn=groups,cn=accounts,dc=csh,dc=rit,dc=edu");
    proof {
        reveal_strlit(",cn=groups,cn=accounts,dc=csh,dc=rit,dc=edu");
        assert(",cn=groups,cn=accounts,dc=csh,dc=rit,dc=edu"@ =~= group_suffix());
        assert(s@ =~= group_dn_of(name@));
    }
    s
}

/// Capturing from a freshly built group distinguished name yields the
/// relative name back.
pub proof fn lemma_capture_group_dn(name: Seq<char>)
    requires
        wf_group_name(name),
    ensures
        group_capture(group_dn_of(name)) == Some(name),
{
    let s = group_dn_of(name);
    let n = name.len() as int;
    assert(s.len() == 3 + n + group_suffix().len());
    assert(s.subrange(0, 3) =~= group_prefix());
    assert(forall|k: int| 3 <= k < 3 + n ==> s[k] == name[k - 3]);
    assert(s.subrange(3 + n, 3 + n + group_suffix().len()) =~= group_suffix());
    assert(match_at(s, 0, n));
    let nc = choose|nn: int| match_at(s, 0, nn);
    lemma_match_unique(s, 0, nc, n);
    assert(s.subrange(3, 3 + n) =~= name);
}

/// Extracting from distinguished names built out of usable relative names
/// yields those names back, in order.
pub proof fn lemma_groups_of_encoded(names: Seq<Seq<char>>)
    requires
        forall|i: int| 0 <= i < names.len() ==> wf_group_name(#[trigger] names[i]),
    ensures
        groups_of(names.map_values(|g: Seq<char>| group_dn_of(g))) == names,
    decreases names.len(),
{
    let f = |g: Seq<char>| group_dn_of(g);
    let dns = names.map_values(f);
    if names.len() == 0 {
        assert(groups_of(dns) =~= names);
    } else {
        lemma_groups_of_encoded(names.drop_last());
        assert(dns.drop_last() =~= names.drop_last().map_values(f));
        lemma_capture_group_dn(names.last());
        assert(dns.last() == group_dn_of(names.last()));
        assert(groups_of(dns) =~= names);
    }
}

} // verus!

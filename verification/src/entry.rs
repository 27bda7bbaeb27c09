use vstd::prelude::*;
use vstd::string::*;

verus! {

/// One directory attribute: a name and the list of values the directory
/// returned for it, in the order the directory returned them.
pub struct Attr {
    pub name: String,
    pub values: Vec<String>,
}

/// A raw directory entry: its distinguished name and its attributes.
/// Attribute lookup takes the first attribute with a matching name, so a
/// duplicated name cannot change what a lookup sees beyond its first
/// occurrence.
pub struct RawEntry {
    pub dn: String,
    pub attrs: Vec<Attr>,
}

/// The first attribute in `attrs` whose name reads `name`.
pub open spec fn find_attr(attrs: Seq<Attr>, name: Seq<char>) -> Option<Attr>
    decreases attrs.len(),
{
    if attrs.len() == 0 {
        None
    } else if attrs[0].name@ == name {
        Some(attrs[0])
    } else {
        find_attr(attrs.skip(1), name)
    }
}

/// The first value of the named attribute; `None` when the attribute is
/// absent or has no values.
pub open spec fn attr_first(attrs: Seq<Attr>, name: Seq<char>) -> Option<Seq<char>> {
    match find_attr(attrs, name) {
        None => None,
        Some(a) => if a.values.len() == 0 {
            None
        } else {
            Some(a.values[0]@)
        },
    }
}

/// All values of the named attribute; empty when the attribute is absent.
pub open spec fn attr_values(attrs: Seq<Attr>, name: Seq<char>) -> Seq<Seq<char>> {
    match find_attr(attrs, name) {
        None => Seq::empty(),
        Some(a) => a.values.deep_view(),
    }
}

pub proof fn lemma_find_attr_skip(attrs: Seq<Attr>, name: Seq<char>, i: int)
    requires
        0 <= i <= attrs.len(),
        forall|j: int| 0 <= j < i ==> attrs[j].name@ != name,
    ensures
        find_attr(attrs, name) == find_attr(attrs.skip(i), name),
    decreases i,
{
    if i == 0 {
        assert(attrs.skip(0) =~= attrs);
    } else {
        assert(attrs[0].name@ != name);
        assert(forall|j: int| 0 <= j < i - 1 ==> attrs.skip(1)[j] == attrs[j + 1]);
        lemma_find_attr_skip(attrs.skip(1), name, i - 1);
        assert(attrs.skip(1).skip(i - 1) =~= attrs.skip(i));
    }
}

pub proof fn lemma_attr_first_found(attrs: Seq<Attr>, name: Seq<char>, a: Attr)
    requires
        find_attr(attrs, name) == Some(a),
    ensures
        a.values.len() > 0 ==> attr_first(attrs, name) == Some(a.values[0]@),
        a.values.len() == 0 ==> attr_first(attrs, name) is None,
        attr_values(attrs, name) == a.values.deep_view(),
{
}

/// Lookup resolves to the attribute at `t` when no earlier attribute has
/// the name.
pub proof fn lemma_find_attr_at(attrs: Seq<Attr>, name: Seq<char>, t: int)
    requires
        0 <= t < attrs.len(),
        forall|j: int| 0 <= j < t ==> attrs[j].name@ != name,
        attrs[t].name@ == name,
    ensures
        find_attr(attrs, name) == Some(attrs[t]),
{
    lemma_find_attr_skip(attrs, name, t);
    assert(attrs.skip(t)[0] == attrs[t]);
}

/// Lookup finds nothing when no attribute has the name.
pub proof fn lemma_find_attr_none(attrs: Seq<Attr>, name: Seq<char>)
    requires
        forall|j: int| 0 <= j < attrs.len() ==> attrs[j].name@ != name,
    ensures
        find_attr(attrs, name) is None,
        attr_first(attrs, name) is None,
        attr_values(attrs, name) == Seq::<Seq<char>>::empty(),
{
    lemma_find_attr_skip(attrs, name, attrs.len() as int);
    assert(attrs.skip(attrs.len() as int).len() == 0);
}

/// Character-by-character string comparison, exact on the views.
pub fn str_eq(a: &str, b: &str) -> (r: bool)
    ensures
        r == (a@ == b@),
{
    let la = a.unicode_len();
    let lb = b.unicode_len();
    if la != lb {
        return false;
    }
    let mut i: usize = 0;
    while i < la
        invariant
            la == a@.len(),
            la == b@.len(),
            0 <= i <= la,
            forall|j: int| 0 <= j < i ==> a@[j] == b@[j],
        decreases la - i,
    {
        if a.get_char(i) != b.get_char(i) {
            return false;
        }
        i += 1;
    }
    proof {
        assert(a@ =~= b@);
    }
    true
}

fn clone_string_vec(v: &Vec<String>) -> (r: Vec<String>)
    ensures
        r.deep_view() == v.deep_view(),
{
    let mut r: Vec<String> = Vec::new();
    let mut i: usize = 0;
    while i < v.len()
        invariant
            0 <= i <= v.len(),
            r.len() == i,
            forall|j: int| 0 <= j < i ==> r[j]@ == v[j]@,
        decreases v.len() - i,
    {
        r.push(v[i].clone());
        i += 1;
    }
    proof {
        assert(r.deep_view() =~= v.deep_view());
    }
    r
}

/// The first value of the named attribute of `entry`, or `None` when the
/// attribute is absent or empty.
pub fn get_one(entry: &RawEntry, field: &str) -> (r: Option<String>)
    ensures
        r is Some <==> attr_first(entry.attrs@, field@) is Some,
        r is Some ==> r.unwrap()@ == attr_first(entry.attrs@, field@).unwrap(),
{
    let mut i: usize = 0;
    while i < entry.attrs.len()
        invariant
            0 <= i <= entry.attrs.len(),
            forall|j: int| 0 <= j < i ==> entry.attrs@[j].name@ != field@,
        decreases entry.attrs.len() - i,
    {
        if str_eq(entry.attrs[i].name.as_str(), field) {
            proof {
                lemma_find_attr_skip(entry.attrs@, field@, i as int);
                assert(entry.attrs@.skip(i as int)[0] == entry.attrs@[i as int]);
                assert(entry.attrs@.skip(i as int).len() > 0);
                assert(find_attr(entry.attrs@, field@) == Some(entry.attrs@[i as int]));
                lemma_attr_first_found(entry.attrs@, field@, entry.attrs@[i as int]);
            }
            if entry.attrs[i].values.len() > 0 {
                return Some(entry.attrs[i].values[0].clone());
            } else {
                return None;
            }
        }
        i += 1;
    }
    proof {
        lemma_find_attr_skip(entry.attrs@, field@, entry.attrs@.len() as int);
        assert(entry.attrs@.skip(entry.attrs@.len() as int).len() == 0);
    }
    None
}

/// All values of the named attribute of `entry`; an absent attribute yields
/// an empty list.
pub fn get_vec(entry: &RawEntry, field: &str) -> (r: Vec<String>)
    ensures
        r.deep_view() == attr_values(entry.attrs@, field@),
{
    let mut i: usize = 0;
    while i < entry.attrs.len()
        invariant
            0 <= i <= entry.attrs.len(),
            forall|j: int| 0 <= j < i ==> entry.attrs@[j].name@ != field@,
        decreases entry.attrs.len() - i,
    {
        if str_eq(entry.attrs[i].name.as_str(), field) {
            proof {
                lemma_find_attr_skip(entry.attrs@, field@, i as int);
                assert(entry.attrs@.skip(i as int)[0] == entry.attrs@[i as int]);
                assert(entry.attrs@.skip(i as int).len() > 0);
                assert(find_attr(entry.attrs@, field@) == Some(entry.attrs@[i as int]));
                lemma_attr_first_found(entry.attrs@, field@, entry.attrs@[i as int]);
            }
            return clone_string_vec(&entry.attrs[i].values);
        }
        i += 1;
    }
    proof {
        lemma_find_attr_skip(entry.attrs@, field@, entry.attrs@.len() as int);
        assert(entry.attrs@.skip(entry.attrs@.len() as int).len() == 0);
        assert(attr_values(entry.attrs@, field@) =~= Seq::<Seq<char>>::empty());
    }
    Vec::new()
}

} // verus!

use vstd::prelude::*;
use vstd::string::*;
use crate::DiscoveryError;

verus! {

/// A resolved host with its trailing root-domain dots stripped.
pub open spec fn trim_dots(s: Seq<char>) -> Seq<char>
    decreases s.len(),
{
    if s.len() > 0 && s.last() == '.' {
        trim_dots(s.drop_last())
    } else {
        s
    }
}

/// The secure directory endpoint for a resolved host: its name without
/// trailing dots, behind the secure scheme.
pub fn endpoint_uri(host: &str) -> (r: String)
    ensures
        r@ == "ldaps://"@ + trim_dots(host@),
{
    let n = host.unicode_len();
    let mut e = n;
    proof {
        assert(host@.take(n as int) =~= host@);
    }
    while e > 0 && host.get_char(e - 1) == '.'
        invariant
            0 <= e <= n,
            n == host@.len(),
            trim_dots(host@) == trim_dots(host@.take(e as int)),
        decreases e,
    {
        proof {
            assert(host@.take(e as int).last() == host@[e - 1]);
            assert(host@.take(e as int).drop_last() =~= host@.take(e - 1));
        }
        e -= 1;
    }
    proof {
        assert(host@.take(n as int) =~= host@);
        if e > 0 {
            assert(host@.take(e as int).last() == host@[e - 1]);
            assert(trim_dots(host@.take(e as int)) == host@.take(e as int));
        } else {
            assert(host@.take(0) =~= Seq::<char>::empty());
        }
    }
    let stem = host.substring_char(0, e);
    let mut r = String::from_str("ldaps://");
    r.append(stem);
    proof {
        assert(host@.subrange(0, e as int) == host@.take(e as int));
    }
    r
}

/// Turn the resolved hosts into the endpoint list: one secure URI per
/// host, in order; an empty resolution is a discovery failure, since no
/// client could ever be built over it.
pub fn discover_uris(hosts: &Vec<String>) -> (r: Result<Vec<String>, DiscoveryError>)
    ensures
        r is Err <==> hosts@.len() == 0,
        r is Err ==> r == Err::<Vec<String>, DiscoveryError>(DiscoveryError::NoCandidates),
        r matches Ok(v) ==> v.deep_view() == hosts.deep_view().map_values(
            |h: Seq<char>| "ldaps://"@ + trim_dots(h),
        ),
{
    if hosts.len() == 0 {
        return Err(DiscoveryError::NoCandidates);
    }
    let mut out: Vec<String> = Vec::new();
    let mut i: usize = 0;
    while i < hosts.len()
        invariant
            0 <= i <= hosts.len(),
            out.len() == i,
            forall|j: int| 0 <= j < i ==> out[j]@ == "ldaps://"@ + trim_dots(hosts[j]@),
        decreases hosts.len() - i,
    {
        let uri = endpoint_uri(hosts[i].as_str());
        out.push(uri);
        i += 1;
    }
    proof {
        assert(out.deep_view() =~= hosts.deep_view().map_values(
            |h: Seq<char>| "ldaps://"@ + trim_dots(h),
        ));
    }
    Ok(out)
}

} // verus!

//! Participant identities and identity lists.
//!
//! Participants are identified by an opaque account string (their "qq").
//! Identity lists appear as draw winner lists and as selection pools; their
//! mathematical model is a sequence of character sequences.

use vstd::prelude::*;

verus! {

/// The mathematical content of a list of identity strings.
pub open spec fn id_views(ids: Seq<String>) -> Seq<Seq<char>> {
    ids.map_values(|s: String| s@)
}

/// The mathematical content of an optional text field.
pub open spec fn opt_view(o: Option<String>) -> Option<Seq<char>> {
    match o {
        Option::Some(s) => Option::Some(s@),
        Option::None => Option::None,
    }
}

/// Copy a list of identity strings.
pub fn clone_ids(ids: &Vec<String>) -> (r: Vec<String>)
    ensures
        r@ == ids@,
{
    let r = ids.clone();
    proof {
        assert forall|i: int| 0 <= i < ids@.len() implies r@[i] == ids@[i] by {
            assert(cloned::<String>(ids@[i], r@[i]));
        }
        assert(r@ =~= ids@);
    }
    r
}

/// Copy an optional text field.
pub fn clone_opt_text(o: &Option<String>) -> (r: Option<String>)
    ensures
        opt_view(r) == opt_view(*o),
{
    match o {
        Option::Some(s) => Option::Some(s.clone()),
        Option::None => Option::None,
    }
}

/// Whether two account strings spell the same identity.
pub fn text_eq(a: &str, b: &str) -> (r: bool)
    ensures
        r == (a@ == b@),
{
    let sa = a.to_owned();
    let sb = b.to_owned();
    sa == sb
}

/// Whether the identity list carries the given account.
pub fn ids_contain(ids: &Vec<String>, qq: &str) -> (r: bool)
    ensures
        r == id_views(ids@).contains(qq@),
{
    let n = ids.len();
    let mut i: usize = 0;
    while i < n
        invariant
            n == ids@.len(),
            0 <= i <= n,
            forall|j: int| 0 <= j < i ==> id_views(ids@)[j] != qq@,
        decreases n - i,
    {
        if text_eq(ids[i].as_str(), qq) {
            proof {
                assert(id_views(ids@)[i as int] == qq@);
            }
            return true;
        }
        i += 1;
    }
    proof {
        assert forall|j: int| 0 <= j < id_views(ids@).len() implies id_views(ids@)[j] != qq@ by {}
    }
    false
}

/// The identities joined into one delimited string.
pub open spec fn joined(ids: Seq<Seq<char>>, sep: Seq<char>) -> Seq<char>
    decreases ids.len(),
{
    if ids.len() == 0 {
        Seq::empty()
    } else if ids.len() == 1 {
        ids[0]
    } else {
        joined(ids.drop_last(), sep) + sep + ids.last()
    }
}

/// Join a winner list into the delimited form under which it is persisted
/// and displayed.
pub fn join_ids(ids: &Vec<String>, sep: &str) -> (r: String)
    ensures
        r@ == joined(id_views(ids@), sep@),
{
    let mut r = String::new();
    let n = ids.len();
    let mut i: usize = 0;
    while i < n
        invariant
            n == ids@.len(),
            0 <= i <= n,
            r@ == joined(id_views(ids@).take(i as int), sep@),
        decreases n - i,
    {
        if i > 0 {
            r.append(sep);
        }
        r.append(ids[i].as_str());
        proof {
            let vs = id_views(ids@);
            assert(vs.take(i + 1).drop_last() =~= vs.take(i as int));
            assert(vs.take(i + 1).last() == vs[i as int]);
            if i == 0 {
                assert(r@ =~= joined(vs.take(i + 1), sep@));
            } else {
                assert(r@ =~= joined(vs.take(i + 1), sep@));
            }
        }
        i += 1;
    }
    proof {
        assert(id_views(ids@).take(n as int) =~= id_views(ids@));
    }
    r
}

} // verus!

//! The header mapping used by requests and responses: a list of
//! (name, value) pairs with mapping semantics — inserting a name removes any
//! prior entry of that name, so the last write to a name wins and names are
//! unique in any list built by insertion.

use crate::chars::str_eq;
use vstd::prelude::*;

verus! {

/// The character-level view of a header list.
pub open spec fn headers_view(hs: Seq<(String, String)>) -> Seq<(Seq<char>, Seq<char>)> {
    hs.map_values(|p: (String, String)| (p.0@, p.1@))
}

/// `hs` with every entry named `k` removed.
pub open spec fn remove_key(hs: Seq<(Seq<char>, Seq<char>)>, k: Seq<char>) -> Seq<
    (Seq<char>, Seq<char>),
>
    decreases hs.len(),
{
    if hs.len() == 0 {
        Seq::empty()
    } else if hs[0].0 == k {
        remove_key(hs.drop_first(), k)
    } else {
        seq![hs[0]] + remove_key(hs.drop_first(), k)
    }
}

/// Mapping-style insertion: any prior entry named `k` is removed and the new
/// entry is appended, so the last write to a name wins.
pub open spec fn insert_header(
    hs: Seq<(Seq<char>, Seq<char>)>,
    k: Seq<char>,
    v: Seq<char>,
) -> Seq<(Seq<char>, Seq<char>)> {
    remove_key(hs, k).push((k, v))
}

/// The value of the last entry named `k`, if any.
pub open spec fn header_lookup(hs: Seq<(Seq<char>, Seq<char>)>, k: Seq<char>) -> Option<Seq<char>>
    decreases hs.len(),
{
    if hs.len() == 0 {
        None
    } else {
        let rest = header_lookup(hs.drop_first(), k);
        if rest is Some {
            rest
        } else if hs[0].0 == k {
            Some(hs[0].1)
        } else {
            None
        }
    }
}

/// Appending an entry named `k` makes it the value that a lookup of `k`
/// finds.
pub proof fn lemma_lookup_push_hit(hs: Seq<(Seq<char>, Seq<char>)>, k: Seq<char>, v: Seq<char>)
    ensures
        header_lookup(hs.push((k, v)), k) == Some(v),
    decreases hs.len(),
{
    if hs.len() == 0 {
        assert(hs.push((k, v)).drop_first() =~= Seq::<(Seq<char>, Seq<char>)>::empty());
    } else {
        assert(hs.push((k, v)).drop_first() =~= hs.drop_first().push((k, v)));
        lemma_lookup_push_hit(hs.drop_first(), k, v);
    }
}

/// Appending an entry of one name leaves the lookup of every other name
/// unchanged.
pub proof fn lemma_lookup_push_miss(
    hs: Seq<(Seq<char>, Seq<char>)>,
    p: (Seq<char>, Seq<char>),
    other: Seq<char>,
)
    requires
        p.0 != other,
    ensures
        header_lookup(hs.push(p), other) == header_lookup(hs, other),
    decreases hs.len(),
{
    if hs.len() == 0 {
        assert(hs.push(p).drop_first() =~= Seq::<(Seq<char>, Seq<char>)>::empty());
    } else {
        assert(hs.push(p).drop_first() =~= hs.drop_first().push(p));
        lemma_lookup_push_miss(hs.drop_first(), p, other);
    }
}

/// Removing the entries of one name does not change the lookup of another.
pub proof fn lemma_lookup_remove_key(
    hs: Seq<(Seq<char>, Seq<char>)>,
    k: Seq<char>,
    other: Seq<char>,
)
    requires
        other != k,
    ensures
        header_lookup(remove_key(hs, k), other) == header_lookup(hs, other),
    decreases hs.len(),
{
    if hs.len() > 0 {
        lemma_lookup_remove_key(hs.drop_first(), k, other);
        if hs[0].0 == k {
        } else {
            let tail = remove_key(hs.drop_first(), k);
            assert((seq![hs[0]] + tail).drop_first() =~= tail);
            assert((seq![hs[0]] + tail)[0] == hs[0]);
        }
    }
}

/// Removing a name commutes with appending an entry of a different name.
pub proof fn lemma_remove_key_push(
    hs: Seq<(Seq<char>, Seq<char>)>,
    e: (Seq<char>, Seq<char>),
    k: Seq<char>,
)
    requires
        e.0 != k,
    ensures
        remove_key(hs.push(e), k) == remove_key(hs, k).push(e),
    decreases hs.len(),
{
    if hs.len() == 0 {
        assert(hs.push(e)[0] == e);
        assert(hs.push(e).drop_first() =~= Seq::<(Seq<char>, Seq<char>)>::empty());
        assert(seq![e] + remove_key(Seq::<(Seq<char>, Seq<char>)>::empty(), k) =~= remove_key(
            hs,
            k,
        ).push(e));
    } else {
        assert(hs.push(e)[0] == hs[0]);
        assert(hs.push(e).drop_first() =~= hs.drop_first().push(e));
        lemma_remove_key_push(hs.drop_first(), e, k);
        if hs[0].0 == k {
        } else {
            assert(seq![hs[0]] + remove_key(hs.drop_first(), k).push(e) =~= (seq![hs[0]]
                + remove_key(hs.drop_first(), k)).push(e));
        }
    }
}

/// Looking a name up right after inserting it yields the inserted value.
pub proof fn lemma_lookup_inserted(hs: Seq<(Seq<char>, Seq<char>)>, k: Seq<char>, v: Seq<char>)
    ensures
        header_lookup(insert_header(hs, k, v), k) == Some(v),
{
    lemma_lookup_push_hit(remove_key(hs, k), k, v);
}

/// Inserting one name leaves the lookup of every other name unchanged.
pub proof fn lemma_lookup_other(
    hs: Seq<(Seq<char>, Seq<char>)>,
    k: Seq<char>,
    v: Seq<char>,
    other: Seq<char>,
)
    requires
        other != k,
    ensures
        header_lookup(insert_header(hs, k, v), other) == header_lookup(hs, other),
{
    lemma_lookup_push_miss(remove_key(hs, k), (k, v), other);
    lemma_lookup_remove_key(hs, k, other);
}

/// Replaces any entry named `name` with (`name`, `value`), appending it last.
pub fn insert_entry(hs: &mut Vec<(String, String)>, name: String, value: String)
    ensures
        headers_view(final(hs)@) == insert_header(headers_view(old(hs)@), name@, value@),
{
    let ghost orig = headers_view(old(hs)@);
    let mut out: Vec<(String, String)> = Vec::new();
    proof {
        assert(headers_view(out@) + remove_key(headers_view(hs@), name@)
            =~= remove_key(headers_view(hs@), name@));
    }
    while hs.len() > 0
        invariant
            remove_key(orig, name@) == headers_view(out@) + remove_key(
                headers_view(hs@),
                name@,
            ),
        decreases hs@.len(),
    {
        let ghost pre = hs@;
        let pair = hs.remove(0);
        let ghost prev = headers_view(out@);
        proof {
            assert(headers_view(pre)[0] == (pair.0@, pair.1@));
            assert(hs@ =~= pre.drop_first());
            assert(headers_view(pre).drop_first() =~= headers_view(hs@));
        }
        if str_eq(pair.0.as_str(), name.as_str()) {
            proof {
                assert(remove_key(headers_view(pre), name@) == remove_key(
                    headers_view(hs@),
                    name@,
                ));
            }
        } else {
            out.push(pair);
            proof {
                assert(headers_view(out@) =~= prev.push((pair.0@, pair.1@)));
                assert(remove_key(headers_view(pre), name@) == seq![(pair.0@, pair.1@)]
                    + remove_key(headers_view(hs@), name@));
                assert(prev + (seq![(pair.0@, pair.1@)] + remove_key(headers_view(hs@), name@))
                    =~= headers_view(out@) + remove_key(headers_view(hs@), name@));
            }
        }
    }
    proof {
        assert(headers_view(hs@).len() == 0);
        assert(remove_key(orig, name@) =~= headers_view(out@));
    }
    out.push((name, value));
    proof {
        assert(headers_view(out@) =~= insert_header(orig, name@, value@));
    }
    *hs = out;
}

/// The value of the last entry named `name` in `hs`, cloned out, if any.
pub fn lookup_entry(hs: &Vec<(String, String)>, name: &str) -> (r: Option<String>)
    ensures
        match r {
            Some(v) => header_lookup(headers_view(hs@), name@) == Some(v@),
            None => header_lookup(headers_view(hs@), name@) is None,
        },
{
    let ghost hv = headers_view(hs@);
    let n = hs.len();
    let mut best: Option<String> = None;
    let mut i: usize = 0;
    proof {
        assert(hv.subrange(0, 0) =~= Seq::<(Seq<char>, Seq<char>)>::empty());
    }
    while i < n
        invariant
            0 <= i <= n,
            n == hs@.len(),
            hv == headers_view(hs@),
            match best {
                Some(v) => header_lookup(hv.subrange(0, i as int), name@) == Some(v@),
                None => header_lookup(hv.subrange(0, i as int), name@) is None,
            },
        decreases n - i,
    {
        let ghost pre = hv.subrange(0, i as int);
        proof {
            assert(hv.subrange(0, (i + 1) as int) =~= pre.push(hv[i as int]));
            assert(hv[i as int] == (hs@[i as int].0@, hs@[i as int].1@));
        }
        if str_eq(hs[i].0.as_str(), name) {
            best = Some(hs[i].1.clone());
            proof {
                lemma_lookup_push_hit(pre, name@, hv[i as int].1);
                assert(hv[i as int] == (name@, hv[i as int].1));
            }
        } else {
            proof {
                lemma_lookup_push_miss(pre, hv[i as int], name@);
            }
        }
        i = i + 1;
    }
    proof {
        assert(hv.subrange(0, n as int) =~= hv);
    }
    best
}

} // verus!

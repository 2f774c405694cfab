//! Extension-keyed highlighter resolution bookkeeping. The external
//! resolver itself is a black box run by the caller; this module decides
//! what to resolve — one representative file path per distinct extension,
//! in first-occurrence order — and looks resolved identifiers back up, so
//! that the resolver is invoked exactly once per distinct extension.

use crate::outline::EntryModel;
use crate::outline::OutlineEntry;
use crate::outline::outline_model;
use crate::scanner::last_index_of;
use crate::scanner::last_index_of_exec;
use vstd::prelude::*;
use vstd::string::StrSliceExecFns;
use vstd::string::StringExecFns;

verus! {

/// The cache key of a path: the text after the last dot, or the whole
/// text when it holds no dot.
pub open spec fn ext_key(s: Seq<char>) -> Seq<char> {
    if last_index_of(s, '.') >= 0 {
        s.skip(last_index_of(s, '.') + 1)
    } else {
        s
    }
}

/// The extension a path is cached under: the text after the last dot;
/// when no dot exists the whole text counts as the extension.
pub fn get_extension(s: &str) -> (r: String)
    ensures
        r@ == ext_key(s@),
{
    let n = s.unicode_len();
    match last_index_of_exec(s, '.') {
        Some(k) => {
            let e = s.substring_char(k + 1, n);
            proof {
                assert(e@ =~= ext_key(s@));
            }
            String::from_str(e)
        },
        None => String::from_str(s),
    }
}

/// The model of a list of string pairs.
pub open spec fn pairs_model(v: Seq<(String, String)>) -> Seq<(Seq<char>, Seq<char>)> {
    v.map_values(|p: (String, String)| (p.0@, p.1@))
}

/// The extensions still to be resolved after `es`, given the set already
/// `seen`: one pair (extension, representative path) per distinct
/// non-empty extension of a file entry, in first-occurrence order.
pub open spec fn pending_spec(es: Seq<EntryModel>, seen: Set<Seq<char>>) -> Seq<
    (Seq<char>, Seq<char>),
>
    decreases es.len(),
{
    if es.len() == 0 {
        Seq::<(Seq<char>, Seq<char>)>::empty()
    } else {
        match es[0] {
            EntryModel::File(p) => {
                let e = ext_key(p);
                if e.len() > 0 && !seen.contains(e) {
                    seq![(e, p)] + pending_spec(es.drop_first(), seen.insert(e))
                } else {
                    pending_spec(es.drop_first(), seen)
                }
            },
            _ => pending_spec(es.drop_first(), seen),
        }
    }
}

fn keys_contain(v: &Vec<(String, String)>, k: &String) -> (b: bool)
    ensures
        b == exists|a: int| 0 <= a < v@.len() && v@[a].0@ == k@,
{
    let mut a: usize = 0;
    while a < v.len()
        invariant
            a <= v@.len(),
            forall|q: int| 0 <= q < a ==> v@[q].0@ != k@,
        decreases v@.len() - a,
    {
        if v[a].0 == *k {
            return true;
        }
        a = a + 1;
    }
    false
}

/// The distinct non-empty extensions of the outline's file entries, in
/// first-occurrence order, each with the first file path that carries
/// it. The caller runs the external resolver once per returned pair.
pub fn pending_extensions(entries: &Vec<OutlineEntry>) -> (r: Vec<(String, String)>)
    ensures
        pairs_model(r@) == pending_spec(outline_model(entries@), Set::<Seq<char>>::empty()),
{
    let mut r: Vec<(String, String)> = Vec::new();
    let ghost es = outline_model(entries@);
    let ghost seen = Set::<Seq<char>>::empty();
    let mut i: usize = 0;
    proof {
        assert(es.skip(0) =~= es);
        assert(pairs_model(r@) + pending_spec(es, seen) =~= pending_spec(es, seen));
    }
    while i < entries.len()
        invariant
            i <= entries@.len(),
            es == outline_model(entries@),
            forall|a: int| 0 <= a < r@.len() ==> seen.contains(#[trigger] r@[a].0@),
            forall|e: Seq<char>|
                seen.contains(e) ==> exists|a: int| 0 <= a < r@.len() && #[trigger] r@[a].0@ == e,
            pending_spec(es, Set::<Seq<char>>::empty()) == pairs_model(r@) + pending_spec(
                es.skip(i as int),
                seen,
            ),
        decreases entries@.len() - i,
    {
        let ghost r0 = r@;
        let ghost seen0 = seen;
        proof {
            assert(es.skip(i as int)[0] == es[i as int]);
            assert(es.skip(i as int).drop_first() =~= es.skip(i + 1));
        }
        match &entries[i] {
            OutlineEntry::File(p) => {
                let e = get_extension(p.as_str());
                if e.as_str().unicode_len() > 0 && !keys_contain(&r, &e) {
                    proof {
                        assert(!seen.contains(e@));
                    }
                    r.push((e, p.clone()));
                    proof {
                        seen = seen0.insert(r@[r@.len() - 1].0@);
                        assert(pairs_model(r@) =~= pairs_model(r0) + seq![
                            (r@[r@.len() - 1].0@, r@[r@.len() - 1].1@),
                        ]);
                        assert forall|ex: Seq<char>| seen.contains(ex) implies exists|a: int|
                            0 <= a < r@.len() && #[trigger] r@[a].0@ == ex by {
                            if ex == r@[r@.len() - 1].0@ {
                                assert(r@[r@.len() - 1].0@ == ex);
                            } else {
                                assert(seen0.contains(ex));
                                let a0 = choose|a: int|
                                    0 <= a < r0.len() && #[trigger] r0[a].0@ == ex;
                                assert(r@[a0].0@ == ex);
                            }
                        }
                        assert(pending_spec(es, Set::<Seq<char>>::empty()) =~= pairs_model(r@)
                            + pending_spec(es.skip(i + 1), seen));
                    }
                } else {
                    proof {
                        if e@.len() > 0 {
                            let a0 = choose|a: int|
                                0 <= a < r@.len() && #[trigger] r@[a].0@ == e@;
                            assert(seen.contains(e@));
                        }
                        assert(pending_spec(es.skip(i as int), seen) == pending_spec(
                            es.skip(i + 1),
                            seen,
                        ));
                    }
                }
            },
            _ => {
                proof {
                    assert(pending_spec(es.skip(i as int), seen) == pending_spec(
                        es.skip(i + 1),
                        seen,
                    ));
                }
            },
        }
        i = i + 1;
    }
    proof {
        assert(es.skip(entries@.len() as int) =~= Seq::<EntryModel>::empty());
        assert(pairs_model(r@) + pending_spec(es.skip(entries@.len() as int), seen) =~= pairs_model(
            r@,
        ));
    }
    r
}

/// The identifier the cache holds for an extension: the first pair with
/// that key, if any.
pub open spec fn lookup_spec(cache: Seq<(Seq<char>, Seq<char>)>, e: Seq<char>) -> Option<Seq<char>>
    decreases cache.len(),
{
    if cache.len() == 0 {
        Option::None
    } else if cache[0].0 == e {
        Option::Some(cache[0].1)
    } else {
        lookup_spec(cache.drop_first(), e)
    }
}

/// Look an extension up in a resolved cache.
pub fn lookup(cache: &Vec<(String, String)>, e: &String) -> (r: Option<String>)
    ensures
        match r {
            Option::Some(id) => lookup_spec(pairs_model(cache@), e@) == Option::Some(id@),
            Option::None => lookup_spec(pairs_model(cache@), e@) == Option::<Seq<char>>::None,
        },
{
    let mut a: usize = 0;
    proof {
        assert(pairs_model(cache@).skip(0) =~= pairs_model(cache@));
    }
    while a < cache.len()
        invariant
            a <= cache@.len(),
            lookup_spec(pairs_model(cache@), e@) == lookup_spec(
                pairs_model(cache@).skip(a as int),
                e@,
            ),
        decreases cache@.len() - a,
    {
        proof {
            assert(pairs_model(cache@).skip(a as int)[0] == pairs_model(cache@)[a as int]);
            assert(pairs_model(cache@).skip(a as int).drop_first() =~= pairs_model(cache@).skip(
                a + 1,
            ));
        }
        if cache[a].0 == *e {
            return Some(cache[a].1.clone());
        }
        a = a + 1;
    }
    proof {
        assert(pairs_model(cache@).skip(cache@.len() as int) =~= Seq::<
            (Seq<char>, Seq<char>),
        >::empty());
    }
    None
}

/// The pending list never names one extension twice: resolving it pair
/// by pair invokes the external resolver exactly once per distinct
/// extension, however many files share it.
pub proof fn lemma_pending_distinct(es: Seq<EntryModel>, seen: Set<Seq<char>>)
    ensures
        forall|a: int|
            0 <= a < pending_spec(es, seen).len() ==> !seen.contains(
                #[trigger] pending_spec(es, seen)[a].0,
            ),
        forall|a: int, b: int|
            0 <= a < b < pending_spec(es, seen).len() ==> pending_spec(es, seen)[a].0
                != pending_spec(es, seen)[b].0,
    decreases es.len(),
{
    if es.len() == 0 {
    } else {
        let ps = pending_spec(es, seen);
        match es[0] {
            EntryModel::File(p) => {
                let e = ext_key(p);
                if e.len() > 0 && !seen.contains(e) {
                    lemma_pending_distinct(es.drop_first(), seen.insert(e));
                    let tail = pending_spec(es.drop_first(), seen.insert(e));
                    assert(ps == seq![(e, p)] + tail);
                    assert(ps[0] == (e, p));
                    assert forall|a: int| 0 <= a < ps.len() implies !seen.contains(
                        #[trigger] ps[a].0,
                    ) by {
                        if a == 0 {
                            assert(ps[0].0 == e);
                        } else {
                            assert(ps[a] == tail[a - 1]);
                            assert(!seen.insert(e).contains(tail[a - 1].0));
                            assert(seen.insert(e).contains(tail[a - 1].0) || !seen.contains(
                                tail[a - 1].0,
                            ));
                        }
                    }
                    assert forall|a: int, b: int| 0 <= a < b < ps.len() implies ps[a].0
                        != ps[b].0 by {
                        assert(ps[b] == tail[b - 1]);
                        if a == 0 {
                            assert(ps[0].0 == e);
                            assert(!seen.insert(e).contains(tail[b - 1].0));
                            assert(seen.insert(e).contains(e));
                        } else {
                            assert(ps[a] == tail[a - 1]);
                        }
                    }
                } else {
                    lemma_pending_distinct(es.drop_first(), seen);
                    assert(ps == pending_spec(es.drop_first(), seen));
                }
            },
            _ => {
                lemma_pending_distinct(es.drop_first(), seen);
                assert(ps == pending_spec(es.drop_first(), seen));
            },
        }
    }
}

} // verus!

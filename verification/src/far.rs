//! Chaining several roots into one walked stream.
//!
//! Each root is walked in turn, and the walks are flattened into one lazy
//! stream by the combinator of [`crate::iter`].  A root whose listing could
//! not be read at all stops the run before any walking: that is the one
//! hard, construction-time failure.

use crate::dir_iter::{walk_entries, DirIterator, DirIteratorError, RawEntry, WalkItem};
use crate::iter::{providers_remaining, Concat, Provider};
use vstd::prelude::*;

verus! {

/// One root to walk: its path, and the listing read at that path, or the
/// error text where reading it failed.
pub struct RootListing {
    pub path: String,
    pub listing: Result<Vec<RawEntry>, String>,
}

/// What one root contributes to the chained stream, where its listing could
/// be read.
pub open spec fn root_walk(r: RootListing) -> Seq<WalkItem> {
    match r.listing {
        Ok(es) => walk_entries(r.path@, es@),
        Err(m) => Seq::empty(),
    }
}

/// Whether every root's listing could be read.
pub open spec fn roots_all_ok(s: Seq<RootListing>) -> bool {
    forall|i: int| 0 <= i < s.len() ==> (#[trigger] s[i].listing) is Ok
}

/// The chained stream of all roots, in root order.
pub open spec fn roots_walk(s: Seq<RootListing>) -> Seq<WalkItem>
    decreases s.len(),
{
    if s.len() == 0 {
        Seq::empty()
    } else {
        root_walk(s.first()) + roots_walk(s.drop_first())
    }
}

proof fn lemma_providers_remaining_push<P: Provider>(s: Seq<P>, x: P)
    ensures
        providers_remaining(s.push(x)) == providers_remaining(s) + x.remaining(),
    decreases s.len(),
{
    assert(s.push(x).first() == if s.len() == 0 {
        x
    } else {
        s.first()
    });
    if s.len() == 0 {
        assert(s.push(x).drop_first() =~= Seq::<P>::empty());
        assert(providers_remaining(s.push(x).drop_first()) == Seq::<P::Model>::empty());
        assert(providers_remaining(s.push(x)) =~= providers_remaining(s) + x.remaining());
    } else {
        assert(s.push(x).drop_first() =~= s.drop_first().push(x));
        lemma_providers_remaining_push(s.drop_first(), x);
        assert(providers_remaining(s.push(x)) =~= providers_remaining(s) + x.remaining());
    }
}

proof fn lemma_roots_walk_push(s: Seq<RootListing>, x: RootListing)
    ensures
        roots_walk(s.push(x)) == roots_walk(s) + root_walk(x),
    decreases s.len(),
{
    assert(s.push(x).first() == if s.len() == 0 {
        x
    } else {
        s.first()
    });
    if s.len() == 0 {
        assert(s.push(x).drop_first() =~= Seq::<RootListing>::empty());
        assert(roots_walk(s.push(x).drop_first()) == Seq::<WalkItem>::empty());
        assert(roots_walk(s.push(x)) =~= roots_walk(s) + root_walk(x));
    } else {
        assert(s.push(x).drop_first() =~= s.drop_first().push(x));
        lemma_roots_walk_push(s.drop_first(), x);
        assert(roots_walk(s.push(x)) =~= roots_walk(s) + root_walk(x));
    }
}

/// Open one walk per root and chain them, root order preserved.  The chained
/// stream owes exactly each root's pre-order items, one root after the
/// other.  The first root whose listing could not be read fails the whole
/// construction instead, and no later root is touched.
pub fn diriter_vec(roots: Vec<RootListing>) -> (r: Result<Concat<DirIterator>, DirIteratorError>)
    ensures
        r is Ok <==> roots_all_ok(roots@),
        r matches Ok(c) ==> c.remaining() == roots_walk(roots@),
        r matches Err(e) ==> exists|i: int|
            {
                &&& 0 <= i < roots@.len()
                &&& (#[trigger] roots@[i].listing) matches Err(m)
                &&& e.path@ == roots@[i].path@
                &&& e.err@ == m@
                &&& forall|j: int| 0 <= j < i ==> (#[trigger] roots@[j].listing) is Ok
            },
{
    let ghost groots = roots@;
    let mut rest = roots;
    let total: usize = rest.len();
    let mut walkers: Vec<DirIterator> = Vec::new();
    let ghost n = total as int;
    let mut failure: Option<DirIteratorError> = None;
    let mut k: usize = 0;
    while rest.len() > 0
        invariant_except_break
            failure is None,
            rest@ =~= groots.skip(k as int),
            0 <= k as int <= n,
            n == groots.len() as int,
            n <= usize::MAX as int,
            providers_remaining(walkers@) == roots_walk(groots.take(k as int)),
            forall|j: int| 0 <= j < k as int ==> (#[trigger] groots[j].listing) is Ok,
        ensures
            failure is None ==> {
                &&& k as int == n
                &&& providers_remaining(walkers@) == roots_walk(groots.take(k as int))
                &&& forall|j: int| 0 <= j < k as int ==> (#[trigger] groots[j].listing) is Ok
            },
            failure matches Some(e) ==> {
                &&& !roots_all_ok(groots)
                &&& exists|i: int|
                    {
                        &&& 0 <= i < groots.len()
                        &&& (#[trigger] groots[i].listing) matches Err(m)
                        &&& e.path@ == groots[i].path@
                        &&& e.err@ == m@
                        &&& forall|j: int| 0 <= j < i ==> (#[trigger] groots[j].listing) is Ok
                    }
            },
        decreases rest@.len(),
    {
        let ghost prev_walkers = walkers@;
        let root = rest.remove(0);
        proof {
            assert(root == groots[k as int]);
            assert(groots.skip(k as int).remove(0) =~= groots.skip(k as int + 1));
        }
        let RootListing { path, listing } = root;
        match DirIterator::new(path.as_str(), listing) {
            Ok(d) => {
                proof {
                    lemma_providers_remaining_push(prev_walkers, d);
                    lemma_roots_walk_push(groots.take(k as int), groots[k as int]);
                    assert(groots.take(k as int).push(groots[k as int]) =~= groots.take(
                        k as int + 1,
                    ));
                    assert(d.remaining() == root_walk(groots[k as int]));
                }
                walkers.push(d);
                proof {
                    assert((k as int) < n);
                    assert(walkers@ == prev_walkers.push(d));
                    assert(providers_remaining(walkers@) == providers_remaining(prev_walkers)
                        + d.remaining());
                    assert(providers_remaining(prev_walkers) == roots_walk(
                        groots.take(k as int),
                    ));
                    assert(d.remaining() == root_walk(groots[k as int]));
                    assert(providers_remaining(walkers@) == roots_walk(
                        groots.take(k as int + 1),
                    ));
                }
                k = k + 1;
            },
            Err(e) => {
                proof {
                    assert(groots[k as int].listing is Err);
                    assert({
                        &&& 0 <= (k as int) < groots.len()
                        &&& groots[k as int].listing matches Err(m)
                        &&& e.path@ == groots[k as int].path@
                        &&& e.err@ == m@
                        &&& forall|j: int|
                            0 <= j < k as int ==> (#[trigger] groots[j].listing) is Ok
                    });
                    assert(!roots_all_ok(groots));
                }
                failure = Some(e);
                break ;
            },
        }
    }
    proof {
        if failure is None {
            assert(groots.take(n) =~= groots);
            assert(roots_all_ok(groots));
        }
    }
    match failure {
        Some(e) => Err(e),
        None => Ok(Concat::new(walkers)),
    }
}

} // verus!

//! Lazy pull-based sources and their flattening combinator.
//!
//! A [`Provider`] hands out its items one pull at a time; what it still owes
//! is described by a sequence of item models.  [`Concat`] chains an ordered
//! sequence of providers into one flat source: provider order and inner
//! order are both preserved, and at most one provider is active at a time.

use vstd::prelude::*;

verus! {

/// A pull-based source of items.  `remaining` is the sequence of models of
/// the items it will still produce, in order; a pull hands out the first of
/// them, or nothing once the source is exhausted, and exhaustion is
/// absorbing.
pub trait Provider: Sized {
    type Item;

    type Model;

    /// The model of one produced item.
    spec fn model_of(item: &Self::Item) -> Self::Model;

    /// The models of the items still to be produced, in order.
    spec fn remaining(&self) -> Seq<Self::Model>;

    /// Produce the next item, or report exhaustion.
    fn pull(&mut self) -> (r: Option<Self::Item>)
        ensures
            old(self).remaining().len() == 0 ==> (r is None && final(self).remaining()
                == old(self).remaining()),
            old(self).remaining().len() > 0 ==> (r matches Some(item) && Self::model_of(&item)
                == old(self).remaining().first() && final(self).remaining() == old(
                self,
            ).remaining().drop_first()),
    ;
}

/// A vector is a source of its elements, front to back.
impl<T> Provider for Vec<T> {
    type Item = T;

    type Model = T;

    open spec fn model_of(item: &T) -> T {
        *item
    }

    open spec fn remaining(&self) -> Seq<T> {
        self@
    }

    fn pull(&mut self) -> (r: Option<T>) {
        if self.len() == 0 {
            None
        } else {
            let x = self.remove(0);
            proof {
                assert(old(self)@.remove(0) =~= old(self)@.drop_first());
            }
            Some(x)
        }
    }
}

/// What a sequence of providers still owes, in order: the concatenation of
/// their remaining items.
pub open spec fn providers_remaining<P: Provider>(s: Seq<P>) -> Seq<P::Model>
    decreases s.len(),
{
    if s.len() == 0 {
        Seq::empty()
    } else {
        s.first().remaining() + providers_remaining(s.drop_first())
    }
}

/// The flattening combinator: an ordered sequence of providers, visited one
/// after the other.  The front provider is the active one; a provider that
/// reports exhaustion is discarded.
pub struct Concat<P: Provider> {
    providers: Vec<P>,
}

impl<P: Provider> Concat<P> {
    pub fn new(providers: Vec<P>) -> (r: Self)
        ensures
            r.remaining() == providers_remaining(providers@),
    {
        Concat { providers }
    }
}

impl<P: Provider> Provider for Concat<P> {
    type Item = P::Item;

    type Model = P::Model;

    open spec fn model_of(item: &P::Item) -> P::Model {
        P::model_of(item)
    }

    closed spec fn remaining(&self) -> Seq<P::Model> {
        providers_remaining(self.providers@)
    }

    fn pull(&mut self) -> (r: Option<P::Item>) {
        loop
            invariant
                providers_remaining(self.providers@) == old(self).remaining(),
            decreases self.providers@.len(),
        {
            if self.providers.len() == 0 {
                return None;
            }
            let ghost prev = self.providers@;
            let mut p = self.providers.remove(0);
            proof {
                assert(prev.remove(0) =~= prev.drop_first());
            }
            let pulled = p.pull();
            match pulled {
                Some(x) => {
                    self.providers.insert(0, p);
                    proof {
                        assert(self.providers@.drop_first() =~= prev.drop_first());
                        assert(self.providers@.first() == p);
                        assert(providers_remaining(self.providers@) == old(
                            self,
                        ).remaining().drop_first()) by {
                            assert((p.remaining() + providers_remaining(prev.drop_first()))
                                =~= old(self).remaining().drop_first());
                        }
                    }
                    return Some(x);
                },
                None => {
                    proof {
                        assert(providers_remaining(self.providers@) =~= old(self).remaining());
                    }
                },
            }
        }
    }
}

/// Pull a source dry: every item it still owed, in order.
pub fn collect_all<P: Provider>(p: &mut P) -> (v: Vec<P::Item>)
    ensures
        v@.map_values(|item: P::Item| P::model_of(&item)) == old(p).remaining(),
        final(p).remaining().len() == 0,
{
    let mut v: Vec<P::Item> = Vec::new();
    loop
        invariant
            v@.map_values(|item: P::Item| P::model_of(&item)) + p.remaining() == old(
                p,
            ).remaining(),
        decreases p.remaining().len(),
    {
        let ghost prev_collected = v@;
        match p.pull() {
            Some(x) => {
                v.push(x);
                proof {
                    assert(v@.map_values(|item: P::Item| P::model_of(&item)) =~= prev_collected
                        .map_values(|item: P::Item| P::model_of(&item)).push(P::model_of(&x)));
                    assert(v@.map_values(|item: P::Item| P::model_of(&item)) + p.remaining() =~= old(
                        p,
                    ).remaining());
                }
            },
            None => {
                proof {
                    assert(v@.map_values(|item: P::Item| P::model_of(&item)) =~= old(
                        p,
                    ).remaining());
                }
                return v;
            },
        }
    }
}

} // verus!

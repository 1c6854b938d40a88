//! A source that yields the elements of a sequence with a separator between
//! each two neighbours.

use crate::iter::Provider;
use vstd::prelude::*;

verus! {

/// The elements of `s` with `sep` between each two neighbours: nothing is
/// added before the first element or after the last, and an empty or
/// one-element sequence stays as it is.
pub open spec fn interspersed<T>(s: Seq<T>, sep: T) -> Seq<T>
    decreases s.len(),
{
    if s.len() <= 1 {
        s
    } else {
        seq![s.first(), sep] + interspersed(s.drop_first(), sep)
    }
}

/// A lazy source over a sequence of items and a separator.  When `do_join`
/// is set, the next pull owes a separator before the next item.
pub struct Intersperse<T> {
    items: Vec<T>,
    sep: T,
    do_join: bool,
}

impl<T: Copy> Intersperse<T> {
    /// The models of the items still owed: the leftover elements,
    /// interspersed, preceded by one separator where an element was already
    /// handed out and another follows.
    pub closed spec fn remaining_items(&self) -> Seq<T> {
        if self.do_join {
            seq![self.sep] + interspersed(self.items@, self.sep)
        } else {
            interspersed(self.items@, self.sep)
        }
    }

    /// A fresh source owes exactly the interspersed sequence.
    pub fn new(items: Vec<T>, sep: T) -> (r: Self)
        ensures
            r.remaining_items() == interspersed(items@, sep),
    {
        Intersperse { items, sep, do_join: false }
    }

    /// Produce the next element or separator, or report exhaustion.
    pub fn next(&mut self) -> (r: Option<T>)
        ensures
            old(self).remaining_items().len() == 0 ==> (r is None && final(self).remaining_items()
                == old(self).remaining_items()),
            old(self).remaining_items().len() > 0 ==> (r matches Some(item) && item == old(
                self,
            ).remaining_items().first() && final(self).remaining_items() == old(
                self,
            ).remaining_items().drop_first()),
    {
        if self.do_join {
            self.do_join = false;
            let ghost rest = interspersed(self.items@, self.sep);
            proof {
                assert((seq![self.sep] + rest).drop_first() =~= rest);
            }
            Some(self.sep)
        } else if self.items.len() == 0 {
            None
        } else {
            let ghost es = self.items@;
            let x = self.items.remove(0);
            proof {
                assert(es.remove(0) =~= es.drop_first());
            }
            if self.items.len() > 0 {
                self.do_join = true;
                proof {
                    assert(interspersed(es, self.sep) == seq![es.first(), self.sep]
                        + interspersed(es.drop_first(), self.sep));
                    assert(final(self).remaining_items() =~= old(
                        self,
                    ).remaining_items().drop_first());
                }
            } else {
                proof {
                    assert(es.len() == 1);
                    assert(interspersed(es, self.sep) == es);
                    assert(final(self).remaining_items() =~= old(
                        self,
                    ).remaining_items().drop_first());
                }
            }
            Some(x)
        }
    }
}

impl<T: Copy> Provider for Intersperse<T> {
    type Item = T;

    type Model = T;

    open spec fn model_of(item: &T) -> T {
        *item
    }

    open spec fn remaining(&self) -> Seq<T> {
        self.remaining_items()
    }

    fn pull(&mut self) -> (r: Option<T>) {
        self.next()
    }
}

} // verus!

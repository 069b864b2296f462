//! Ordered, one-pass iteration over one column of a store or snapshot.
use vstd::prelude::*;
use crate::keys::{key_less, key_lt};
use crate::table::{copy_bytes, enumerates, pairs_view, KeyMap};

verus! {

/// Which way iteration from a key goes.
#[derive(Debug, Clone, Copy, PartialEq, Eq, Structural)]
pub enum Direction {
    Forward,
    Reverse,
}

/// Where iteration starts and which way it goes.
#[derive(Debug)]
pub enum IteratorMode {
    /// Every key, ascending.
    Start,
    /// Every key, descending.
    End,
    /// Ascending from the key (included) on, or descending from it (included) down.
    From(Vec<u8>, Direction),
}

/// Keys at or after `k`.
pub open spec fn at_or_after(k: Seq<u8>) -> Set<Seq<u8>> {
    Set::new(|x: Seq<u8>| !key_lt(x, k))
}

/// Keys at or before `k`.
pub open spec fn at_or_before(k: Seq<u8>) -> Set<Seq<u8>> {
    Set::new(|x: Seq<u8>| !key_lt(k, x))
}

/// `items` is what iterating over a column holding `m` yields in `mode`.
pub open spec fn yields(items: Seq<(Seq<u8>, Seq<u8>)>, m: KeyMap, mode: IteratorMode) -> bool {
    match mode {
        IteratorMode::Start => enumerates(items, m),
        IteratorMode::End => enumerates(items.reverse(), m),
        IteratorMode::From(k, Direction::Forward) => enumerates(items, m.restrict(at_or_after(k@))),
        IteratorMode::From(k, Direction::Reverse) => enumerates(items.reverse(), m.restrict(at_or_before(k@))),
    }
}

/// The pairs of `src` whose key lies in `keep` (at or after `k` when `after`,
/// else at or before it), in the same order.
fn restrict_pairs(src: &Vec<(Vec<u8>, Vec<u8>)>, k: &[u8], after: bool, Ghost(m): Ghost<KeyMap>) -> (r: Vec<(Vec<u8>, Vec<u8>)>)
    requires
        enumerates(pairs_view(src@), m),
    ensures
        enumerates(pairs_view(r@), m.restrict(if after { at_or_after(k@) } else { at_or_before(k@) })),
{
    let ghost keep = if after { at_or_after(k@) } else { at_or_before(k@) };
    let ghost mk = m.restrict(keep);
    let ghost s = pairs_view(src@);
    let mut out: Vec<(Vec<u8>, Vec<u8>)> = Vec::new();
    let mut i: usize = 0;
    while i < src.len()
        invariant
            enumerates(s, m),
            s == pairs_view(src@),
            keep == if after { at_or_after(k@) } else { at_or_before(k@) },
            mk == m.restrict(keep),
            i <= src@.len(),
            forall|a: int, b: int| 0 <= a < b < out@.len() ==> key_lt(#[trigger] out@[a].0@, #[trigger] out@[b].0@),
            forall|a: int, j: int| 0 <= a < out@.len() && i <= j < s.len() ==> key_lt(#[trigger] out@[a].0@, #[trigger] s[j].0),
            forall|a: int| 0 <= a < out@.len() ==> mk.contains_key(#[trigger] out@[a].0@) && mk[out@[a].0@] == out@[a].1@,
            forall|j: int| 0 <= j < i && keep.contains(s[j].0) ==> exists|a: int| 0 <= a < out@.len() && #[trigger] out@[a].0@ == s[j].0,
        decreases src@.len() - i,
    {
        let key = &src[i].0;
        let wanted = if after {
            !key_less(key.as_slice(), k)
        } else {
            !key_less(k, key.as_slice())
        };
        assert(s[i as int] == (src@[i as int].0@, src@[i as int].1@));
        if wanted {
            let ghost before = out@;
            out.push((copy_bytes(key), copy_bytes(&src[i].1)));
            proof {
                assert(keep.contains(s[i as int].0));
                assert forall|a: int| 0 <= a < before.len() implies #[trigger] out@[a] == before[a] by {}
                assert forall|a: int, j: int| 0 <= a < out@.len() && i + 1 <= j < s.len() implies key_lt(#[trigger] out@[a].0@, #[trigger] s[j].0) by {
                    if a < before.len() {
                        assert(key_lt(before[a].0@, s[j].0));
                    } else {
                        assert(key_lt(s[i as int].0, s[j].0));
                    }
                }
                assert forall|j: int| 0 <= j < i + 1 && keep.contains(s[j].0) implies exists|a: int| 0 <= a < out@.len() && #[trigger] out@[a].0@ == s[j].0 by {
                    if j < i {
                        let w = choose|a: int| 0 <= a < before.len() && #[trigger] before[a].0@ == s[j].0;
                        assert(out@[w].0@ == s[j].0);
                    } else {
                        assert(out@[before.len() as int].0@ == s[j].0);
                    }
                }
                assert(m.contains_key(s[i as int].0));
            }
        } else {
            proof {
                assert(!keep.contains(s[i as int].0));
                assert forall|a: int, j: int| 0 <= a < out@.len() && i + 1 <= j < s.len() implies key_lt(#[trigger] out@[a].0@, #[trigger] s[j].0) by {
                    assert(key_lt(out@[a].0@, s[j].0));
                }
            }
        }
        i = i + 1;
    }
    proof {
        let t = pairs_view(out@);
        assert forall|a: int| 0 <= a < t.len() implies #[trigger] t[a] == (out@[a].0@, out@[a].1@) by {}
        assert forall|a: int, b: int| 0 <= a < b < t.len() implies key_lt(t[a].0, t[b].0) by {
            assert(key_lt(out@[a].0@, out@[b].0@));
        }
        assert forall|kk: Seq<u8>| mk.contains_key(kk) implies exists|a: int| 0 <= a < t.len() && #[trigger] t[a].0 == kk by {
            let w = choose|j: int| 0 <= j < s.len() && #[trigger] s[j].0 == kk;
            let a = choose|a: int| 0 <= a < out@.len() && #[trigger] out@[a].0@ == s[w].0;
            assert(t[a].0 == kk);
        }
        assert forall|a: int| 0 <= a < t.len() implies mk.contains_key(#[trigger] t[a].0) && mk[t[a].0] == t[a].1 by {
            assert(mk.contains_key(out@[a].0@));
        }
    }
    out
}

/// The pairs of `src` in reverse order.
fn reverse_pairs(src: &Vec<(Vec<u8>, Vec<u8>)>) -> (r: Vec<(Vec<u8>, Vec<u8>)>)
    ensures
        pairs_view(r@).reverse() == pairs_view(src@),
{
    let mut out: Vec<(Vec<u8>, Vec<u8>)> = Vec::new();
    let mut i: usize = src.len();
    while i > 0
        invariant
            i <= src@.len(),
            out@.len() == src@.len() - i,
            forall|a: int| 0 <= a < out@.len() ==> (#[trigger] out@[a]).0@ == src@[src@.len() - 1 - a].0@
                && out@[a].1@ == src@[src@.len() - 1 - a].1@,
        decreases i,
    {
        i = i - 1;
        out.push((copy_bytes(&src[i].0), copy_bytes(&src[i].1)));
    }
    proof {
        assert(pairs_view(out@).reverse() =~= pairs_view(src@));
    }
    out
}

/// The pairs that iterating in `mode` over a column yields, given the column's
/// pairs in ascending order.
pub(crate) fn select(pairs: Vec<(Vec<u8>, Vec<u8>)>, mode: &IteratorMode, Ghost(m): Ghost<KeyMap>) -> (r: Vec<(Vec<u8>, Vec<u8>)>)
    requires
        enumerates(pairs_view(pairs@), m),
    ensures
        yields(pairs_view(r@), m, *mode),
{
    match mode {
        IteratorMode::Start => pairs,
        IteratorMode::End => reverse_pairs(&pairs),
        IteratorMode::From(k, Direction::Forward) => restrict_pairs(&pairs, k.as_slice(), true, Ghost(m)),
        IteratorMode::From(k, Direction::Reverse) => {
            let kept = restrict_pairs(&pairs, k.as_slice(), false, Ghost(m));
            reverse_pairs(&kept)
        },
    }
}

/// A one-pass cursor over key-value pairs.
pub struct RocksDBIterator {
    items: Vec<(Vec<u8>, Vec<u8>)>,
    pos: usize,
}

impl RocksDBIterator {
    /// The pairs not yet handed out, in order.
    pub closed spec fn view(&self) -> Seq<(Seq<u8>, Seq<u8>)> {
        pairs_view(self.items@).skip(self.pos as int)
    }

    pub closed spec fn wf(&self) -> bool {
        self.pos <= self.items@.len()
    }

    /// A cursor that hands out `items` in order.
    pub fn new(items: Vec<(Vec<u8>, Vec<u8>)>) -> (r: RocksDBIterator)
        ensures
            r.wf(),
            r@ == pairs_view(items@),
    {
        let r = RocksDBIterator { items, pos: 0 };
        proof {
            assert(r@ =~= pairs_view(items@));
        }
        r
    }

    /// The next pair, or `None` once all have been handed out.
    pub fn next(&mut self) -> (r: Option<(Vec<u8>, Vec<u8>)>)
        requires
            old(self).wf(),
        ensures
            final(self).wf(),
            old(self)@.len() == 0 ==> r.is_none() && final(self)@ == old(self)@,
            old(self)@.len() > 0 ==> r.is_some() && (r.unwrap().0@, r.unwrap().1@) == old(self)@[0]
                && final(self)@ == old(self)@.drop_first(),
    {
        if self.pos < self.items.len() {
            let item = (copy_bytes(&self.items[self.pos].0), copy_bytes(&self.items[self.pos].1));
            self.pos = self.pos + 1;
            proof {
                assert(self@ =~= old(self)@.drop_first());
            }
            Some(item)
        } else {
            None
        }
    }
}

} // verus!

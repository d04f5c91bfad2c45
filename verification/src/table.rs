//! A small path-keyed table, viewed as a mathematical map.
//!
//! Every cache and store of this crate keys its entries by
//! [`AssetPath`]; this table gives them one verified implementation
//! whose view is a `Map<Seq<u8>, V>`.

use vstd::prelude::*;

use crate::path::AssetPath;

verus! {

/// Association table from asset paths to values.
pub struct Table<V> {
    pairs: Vec<(AssetPath, V)>,
}

/// The map an entry sequence denotes: each key goes to the value of
/// the unique entry holding it.
spec fn map_of<V>(s: Seq<(AssetPath, V)>) -> Map<Seq<u8>, V> {
    Map::new(
        |k: Seq<u8>| exists|i: int| 0 <= i < s.len() && (#[trigger] s[i].0@) == k,
        |k: Seq<u8>|
            s[choose|i: int| 0 <= i < s.len() && (#[trigger] s[i].0@) == k].1,
    )
}

/// Entry keys are pairwise distinct.
spec fn distinct_keys<V>(s: Seq<(AssetPath, V)>) -> bool {
    forall|i: int, j: int|
        0 <= i < j < s.len() ==> (#[trigger] s[i].0@) != (#[trigger] s[j].0@)
}

/// With distinct keys, the entry at `i` is what the map holds for its
/// key.
proof fn lemma_key_at<V>(s: Seq<(AssetPath, V)>, i: int)
    requires
        distinct_keys(s),
        0 <= i < s.len(),
    ensures
        map_of(s).contains_key(s[i].0@),
        map_of(s)[s[i].0@] == s[i].1,
{
    let k = s[i].0@;
    assert(0 <= i < s.len() && s[i].0@ == k);
    let j = choose|j: int| 0 <= j < s.len() && (#[trigger] s[j].0@) == k;
    if j < i {
        assert(s[j].0@ != s[i].0@);
    } else if i < j {
        assert(s[i].0@ != s[j].0@);
    }
}

/// A key matched by no entry is absent from the map.
proof fn lemma_absent<V>(s: Seq<(AssetPath, V)>, k: Seq<u8>)
    requires
        forall|i: int| 0 <= i < s.len() ==> (#[trigger] s[i].0@) != k,
    ensures
        !map_of(s).contains_key(k),
{
}

impl<V> View for Table<V> {
    type V = Map<Seq<u8>, V>;

    closed spec fn view(&self) -> Map<Seq<u8>, V> {
        map_of(self.pairs@)
    }
}

impl<V> Table<V> {
    /// Internal invariant: no two entries share a key.
    pub closed spec fn wf(&self) -> bool {
        distinct_keys(self.pairs@)
    }

    /// An empty table.
    pub fn new() -> (r: Self)
        ensures
            r.wf(),
            r@ == Map::<Seq<u8>, V>::empty(),
    {
        let r = Table { pairs: Vec::new() };
        proof {
            assert(r@ =~= Map::<Seq<u8>, V>::empty());
        }
        r
    }

    /// Looks the key up.
    pub fn get(&self, k: &AssetPath) -> (r: Option<&V>)
        requires
            self.wf(),
        ensures
            match r {
                Some(v) => self@.contains_key(k@) && *v == self@[k@],
                None => !self@.contains_key(k@),
            },
    {
        let mut i: usize = 0;
        while i < self.pairs.len()
            invariant
                self.wf(),
                i <= self.pairs@.len(),
                forall|j: int| 0 <= j < i ==> (#[trigger] self.pairs@[j].0@) != k@,
            decreases self.pairs@.len() - i,
        {
            if self.pairs[i].0.same_path(k) {
                proof {
                    lemma_key_at(self.pairs@, i as int);
                }
                return Some(&self.pairs[i].1);
            }
            i = i + 1;
        }
        proof {
            lemma_absent(self.pairs@, k@);
        }
        None
    }

    /// Finds the index of the entry holding the key, if any.
    fn find(&self, k: &AssetPath) -> (r: Option<usize>)
        ensures
            match r {
                Some(i) => i < self.pairs@.len() && self.pairs@[i as int].0@ == k@,
                None => forall|j: int|
                    0 <= j < self.pairs@.len() ==> (#[trigger] self.pairs@[j].0@) != k@,
            },
    {
        let mut i: usize = 0;
        while i < self.pairs.len()
            invariant
                i <= self.pairs@.len(),
                forall|j: int| 0 <= j < i ==> (#[trigger] self.pairs@[j].0@) != k@,
            decreases self.pairs@.len() - i,
        {
            if self.pairs[i].0.same_path(k) {
                return Some(i);
            }
            i = i + 1;
        }
        None
    }

    /// Binds the key to the value, replacing any previous binding.
    pub fn set(&mut self, k: &AssetPath, v: V)
        requires
            old(self).wf(),
        ensures
            final(self).wf(),
            final(self)@ == old(self)@.insert(k@, v),
    {
        let ghost olds = old(self).pairs@;
        match self.find(k) {
            Some(i) => {
                self.pairs[i].1 = v;
                proof {
                    let news = self.pairs@;
                    assert forall|a: int, b: int|
                        0 <= a < b < news.len() implies (#[trigger] news[a].0@) != (
                    #[trigger] news[b].0@) by {
                        assert(olds[a].0@ != olds[b].0@);
                    }
                    lemma_set_update(olds, news, i as int, k@);
                    assert(news[i as int].1 == v);
                }
            },
            None => {
                self.pairs.push((k.clone(), v));
                proof {
                    let news = self.pairs@;
                    assert forall|a: int, b: int|
                        0 <= a < b < news.len() implies (#[trigger] news[a].0@) != (
                    #[trigger] news[b].0@) by {
                        if b < olds.len() {
                            assert(olds[a].0@ != olds[b].0@);
                        } else {
                            assert(news[b].0@ == k@);
                            assert(olds[a].0@ != k@);
                        }
                    }
                    lemma_set_push(olds, news, k@);
                }
            },
        }
    }
}

/// After updating the value at the index holding `k`, the map is the
/// old map with `k` rebound.
proof fn lemma_set_update<V>(olds: Seq<(AssetPath, V)>, news: Seq<(AssetPath, V)>, i: int, k: Seq<u8>)
    requires
        distinct_keys(olds),
        distinct_keys(news),
        0 <= i < olds.len(),
        news.len() == olds.len(),
        olds[i].0@ == k,
        news[i].0@ == k,
        forall|j: int| 0 <= j < olds.len() && j != i ==> (#[trigger] news[j]) == olds[j],
    ensures
        map_of(news) == map_of(olds).insert(k, news[i].1),
{
    assert forall|q: Seq<u8>| true implies #[trigger] map_of(news).contains_key(q) == map_of(
        olds,
    ).insert(k, news[i].1).contains_key(q) by {
        if q == k {
            lemma_key_at(news, i);
        } else {
            if map_of(news).contains_key(q) {
                let j = choose|j: int| 0 <= j < news.len() && (#[trigger] news[j].0@) == q;
                lemma_key_at(olds, j);
            }
            if map_of(olds).contains_key(q) {
                let j = choose|j: int| 0 <= j < olds.len() && (#[trigger] olds[j].0@) == q;
                lemma_key_at(news, j);
            }
        }
    }
    assert forall|q: Seq<u8>| #[trigger] map_of(news).contains_key(q) implies map_of(news)[q]
        == map_of(olds).insert(k, news[i].1)[q] by {
        if q == k {
            lemma_key_at(news, i);
        } else {
            let j = choose|j: int| 0 <= j < news.len() && (#[trigger] news[j].0@) == q;
            assert(j != i);
            lemma_key_at(news, j);
            lemma_key_at(olds, j);
        }
    }
    assert(map_of(news) =~= map_of(olds).insert(k, news[i].1));
}

/// After appending an entry whose key was absent, the map is the old
/// map with that key bound.
proof fn lemma_set_push<V>(olds: Seq<(AssetPath, V)>, news: Seq<(AssetPath, V)>, k: Seq<u8>)
    requires
        distinct_keys(olds),
        distinct_keys(news),
        news.len() == olds.len() + 1,
        forall|j: int| 0 <= j < olds.len() ==> (#[trigger] news[j]) == olds[j],
        forall|j: int| 0 <= j < olds.len() ==> (#[trigger] olds[j].0@) != k,
        news[olds.len() as int].0@ == k,
    ensures
        map_of(news) == map_of(olds).insert(k, news[olds.len() as int].1),
{
    let n = olds.len() as int;
    assert forall|q: Seq<u8>| true implies #[trigger] map_of(news).contains_key(q) == map_of(
        olds,
    ).insert(k, news[n].1).contains_key(q) by {
        if q == k {
            lemma_key_at(news, n);
        } else {
            if map_of(news).contains_key(q) {
                let j = choose|j: int| 0 <= j < news.len() && (#[trigger] news[j].0@) == q;
                assert(j != n);
                lemma_key_at(olds, j);
            }
            if map_of(olds).contains_key(q) {
                let j = choose|j: int| 0 <= j < olds.len() && (#[trigger] olds[j].0@) == q;
                lemma_key_at(news, j);
            }
        }
    }
    assert forall|q: Seq<u8>| #[trigger] map_of(news).contains_key(q) implies map_of(news)[q]
        == map_of(olds).insert(k, news[n].1)[q] by {
        if q == k {
            lemma_key_at(news, n);
        } else {
            let j = choose|j: int| 0 <= j < news.len() && (#[trigger] news[j].0@) == q;
            assert(j != n);
            lemma_key_at(news, j);
            lemma_key_at(olds, j);
        }
    }
    assert(map_of(news) =~= map_of(olds).insert(k, news[n].1));
}

} // verus!

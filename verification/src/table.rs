//! A table from texts to values that can be thinned out.
use crate::text;
use vstd::hash_map::StringHashMap;
use vstd::prelude::*;

verus! {

/// A table from texts to values, together with the list of its keys.
#[verifier::reject_recursive_types(V)]
pub struct Table<V> {
    map: StringHashMap<V>,
    keys: Vec<String>,
}

impl<V> View for Table<V> {
    type V = Map<Seq<char>, V>;

    closed spec fn view(&self) -> Map<Seq<char>, V> {
        self.map@
    }
}

/// Whether `k` is one of the texts.
pub open spec fn among(texts: Seq<String>, k: Seq<char>) -> bool {
    exists|i: int| 0 <= i < texts.len() && (#[trigger] texts[i])@ == k
}

impl<V> Table<V> {
    /// The list holds each key of the table once, and nothing else.
    pub closed spec fn wf(&self) -> bool {
        &&& forall|k: Seq<char>| #[trigger] self.map@.contains_key(k) <==> among(self.keys@, k)
        &&& forall|i: int, j: int|
            0 <= i < j < self.keys@.len() ==> (#[trigger] self.keys@[i])@ != (
            #[trigger] self.keys@[j])@
    }

    /// An empty table.
    pub fn new() -> (t: Table<V>)
        ensures
            t.wf(),
            t@ == Map::<Seq<char>, V>::empty(),
    {
        Table { map: StringHashMap::new(), keys: Vec::new() }
    }

    /// The value of a key.
    pub fn get(&self, k: &str) -> (v: Option<&V>)
        ensures
            match v {
                Some(v) => self@.contains_key(k@) && *v == self@[k@],
                None => !self@.contains_key(k@),
            },
    {
        self.map.get(k)
    }

    /// Give a key a value, in place of the one it has.
    pub fn insert(&mut self, k: String, v: V)
        requires
            old(self).wf(),
        ensures
            final(self).wf(),
            final(self)@ == old(self)@.insert(k@, v),
    {
        let ghost before = self.keys@;
        if !self.map.contains_key(k.as_str()) {
            self.keys.push(k.clone());
            proof {
                let n = before.len() as int;
                assert(self.keys@[n]@ == k@);
                assert forall|x: Seq<char>| #[trigger] among(self.keys@, x) <==> among(before, x) || x
                    == k@ by {
                    if among(before, x) {
                        let i = choose|i: int| 0 <= i < before.len() && (#[trigger] before[i])@ == x;
                        assert(self.keys@[i]@ == x);
                    }
                    if among(self.keys@, x) {
                        let i = choose|i: int|
                            0 <= i < self.keys@.len() && (#[trigger] self.keys@[i])@ == x;
                        if i < n {
                            assert(before[i]@ == x);
                        }
                    }
                }
                assert forall|i: int, j: int| 0 <= i < j < self.keys@.len() implies (
                #[trigger] self.keys@[i])@ != (#[trigger] self.keys@[j])@ by {
                    assert(self.keys@[i] == before[i]);
                    if j == n {
                        assert(!old(self).map@.contains_key(k@));
                        assert(!among(before, k@));
                    } else {
                        assert(self.keys@[j] == before[j]);
                    }
                }
            }
        }
        self.map.insert(k, v);
    }

    /// Take a key out.
    pub fn remove(&mut self, k: &str)
        requires
            old(self).wf(),
        ensures
            final(self).wf(),
            final(self)@ == old(self)@.remove(k@),
    {
        let ghost before = self.keys@;
        let n: usize = self.keys.len();
        for i in 0..n
            invariant
                n == self.keys@.len(),
                self.keys@ == before,
                self.map@ == old(self).map@,
                old(self).wf(),
                before == old(self).keys@,
                forall|j: int| 0 <= j < i ==> (#[trigger] before[j])@ != k@,
        {
            if text::same_text(self.keys[i].as_str(), k) {
                let _ = self.keys.remove(i);
                self.map.remove(k);
                proof {
                    assert(self.keys@ =~= before.remove(i as int));
                    assert forall|x: Seq<char>| #[trigger]
                        self.map@.contains_key(x) <==> among(self.keys@, x) by {
                        lemma_removed(before, i as int, x);
                    }
                }
                return;
            }
        }
        proof {
            assert(!among(before, k@));
            assert(!old(self).map@.contains_key(k@));
            assert(old(self).map@.remove(k@) =~= old(self).map@);
        }
    }

    /// Keep only the values that `keep` accepts, which `wanted` describes.
    pub fn retain<F: Fn(&V) -> bool>(&mut self, keep: F, Ghost(wanted): Ghost<spec_fn(V) -> bool>)
        requires
            old(self).wf(),
            forall|v: V| #[trigger] call_requires(keep, (&v,)),
            forall|v: V, b: bool| #[trigger] call_ensures(keep, (&v,), b) ==> b == wanted(v),
        ensures
            final(self).wf(),
            final(self)@ == old(self)@.restrict(
                old(self)@.dom().filter(|k: Seq<char>| wanted(old(self)@[k])),
            ),
    {
        let ghost all = self.keys@;
        let ghost map = self.map@;
        let n: usize = self.keys.len();
        let mut kept: Vec<String> = Vec::new();
        for i in 0..n
            invariant
                n == self.keys@.len(),
                self.keys@ == all,
                old(self).wf(),
                old(self).keys@ == all,
                old(self).map@ == map,
                forall|v: V| #[trigger] call_requires(keep, (&v,)),
                forall|v: V, b: bool| #[trigger] call_ensures(keep, (&v,), b) ==> b == wanted(v),
                forall|k: Seq<char>| #[trigger]
                    self.map@.contains_key(k) <==> map.contains_key(k) && (wanted(map[k]) || !among(
                        all.take(i as int),
                        k,
                    )),
                forall|k: Seq<char>| #[trigger] self.map@.contains_key(k) ==> self.map@[k] == map[k],
                forall|k: Seq<char>| #[trigger]
                    among(kept@, k) <==> among(all.take(i as int), k) && wanted(map[k]),
                forall|a: int, b: int|
                    0 <= a < b < kept@.len() ==> (#[trigger] kept@[a])@ != (#[trigger] kept@[b])@,
        {
            let k = self.keys[i].clone();
            let ghost before_kept = kept@;
            proof {
                lemma_next_key(all, i as int);
                assert(among(all, k@));
                assert(map.contains_key(k@));
                assert(!among(all.take(i as int), k@)) by {
                    if among(all.take(i as int), k@) {
                        let j = choose|j: int|
                            0 <= j < i && (#[trigger] all.take(i as int)[j])@ == k@;
                        assert(all[j]@ == all[i as int]@);
                    }
                }
            }
            let stays = match self.map.get(k.as_str()) {
                Some(v) => keep(v),
                None => true,
            };
            if stays {
                kept.push(k);
                proof {
                    lemma_pushed(before_kept, k);
                    assert forall|a: int, b: int| 0 <= a < b < kept@.len() implies (
                    #[trigger] kept@[a])@ != (#[trigger] kept@[b])@ by {
                        if b == before_kept.len() {
                            assert(among(before_kept, kept@[a]@)) by {
                                assert(before_kept[a]@ == kept@[a]@);
                            }
                        } else {
                            assert(kept@[a] == before_kept[a] && kept@[b] == before_kept[b]);
                        }
                    }
                }
            } else {
                self.map.remove(k.as_str());
            }
        }
        self.keys = kept;
        proof {
            assert(all.take(n as int) =~= all);
            assert forall|k: Seq<char>| #[trigger]
                self.map@.contains_key(k) <==> among(self.keys@, k) by {
                assert(map.contains_key(k) <==> among(all, k));
            }
            assert(self.map@ =~= map.restrict(map.dom().filter(|k: Seq<char>| wanted(map[k]))));
        }
    }
}

proof fn lemma_pushed(texts: Seq<String>, s: String)
    ensures
        forall|k: Seq<char>| #[trigger] among(texts.push(s), k) <==> among(texts, k) || k == s@,
{
    let all = texts.push(s);
    assert forall|k: Seq<char>| #[trigger] among(all, k) <==> among(texts, k) || k == s@ by {
        if among(texts, k) {
            let i = choose|i: int| 0 <= i < texts.len() && (#[trigger] texts[i])@ == k;
            assert(all[i]@ == k);
        }
        if k == s@ {
            assert(all[texts.len() as int]@ == k);
        }
        if among(all, k) {
            let i = choose|i: int| 0 <= i < all.len() && (#[trigger] all[i])@ == k;
            if i < texts.len() {
                assert(texts[i]@ == k);
            }
        }
    }
}

proof fn lemma_next_key(all: Seq<String>, i: int)
    requires
        0 <= i < all.len(),
    ensures
        forall|k: Seq<char>| #[trigger]
            among(all.take(i + 1), k) <==> among(all.take(i), k) || k == all[i]@,
        among(all, all[i]@),
{
    assert(all.take(i + 1) =~= all.take(i).push(all[i]));
    lemma_pushed(all.take(i), all[i]);
    assert(all[i]@ == all[i]@);
}

proof fn lemma_removed(texts: Seq<String>, i: int, x: Seq<char>)
    requires
        0 <= i < texts.len(),
        forall|a: int, b: int|
            0 <= a < b < texts.len() ==> (#[trigger] texts[a])@ != (#[trigger] texts[b])@,
    ensures
        among(texts.remove(i), x) <==> among(texts, x) && x != texts[i]@,
{
    let rest = texts.remove(i);
    if among(texts, x) && x != texts[i]@ {
        let j = choose|j: int| 0 <= j < texts.len() && (#[trigger] texts[j])@ == x;
        if j < i {
            assert(rest[j]@ == x);
        } else {
            assert(rest[j - 1]@ == x);
        }
    }
    if among(rest, x) {
        let j = choose|j: int| 0 <= j < rest.len() && (#[trigger] rest[j])@ == x;
        if j < i {
            assert(texts[j]@ == x);
        } else {
            assert(texts[j + 1]@ == x);
        }
    }
}

} // verus!

//! Maps given by lists of keyed items, where a later item wins over an earlier one.
use vstd::prelude::*;

verus! {

/// The map from `key(x)` to `val(x)` for the items `x` of `s`, a later item
/// winning over an earlier one with the same key.
pub open spec fn keyed_map<A, K, V>(s: Seq<A>, key: spec_fn(A) -> K, val: spec_fn(A) -> V) -> Map<K, V>
    decreases s.len(),
{
    if s.len() == 0 {
        Map::empty()
    } else {
        keyed_map(s.drop_last(), key, val).insert(key(s.last()), val(s.last()))
    }
}

/// When no key occurs twice, the map holds exactly the keys of the items, each
/// with the value of its own item.
pub proof fn lemma_keyed_map<A, K, V>(s: Seq<A>, key: spec_fn(A) -> K, val: spec_fn(A) -> V)
    requires
        s.map_values(key).no_duplicates(),
    ensures
        keyed_map(s, key, val).dom() == s.map_values(key).to_set(),
        forall|i: int| 0 <= i < s.len() ==> #[trigger] keyed_map(s, key, val)[key(s[i])] == val(s[i]),
    decreases s.len(),
{
    if s.len() > 0 {
        let p = s.drop_last();
        let ks = s.map_values(key);
        let kp = p.map_values(key);
        assert(kp =~= ks.drop_last());
        lemma_keyed_map(p, key, val);
        let k = key(s.last());
        assert(ks =~= kp.push(k));
        assert forall|x: K| ks.contains(x) <==> (kp.contains(x) || x == k) by {
            if ks.contains(x) {
                let j = ks.index_of(x);
                if j < p.len() {
                    assert(kp[j] == x);
                }
            }
            if kp.contains(x) {
                let j = kp.index_of(x);
                assert(ks[j] == x);
            }
            if x == k {
                assert(ks[s.len() - 1] == x);
            }
        }
        assert(keyed_map(s, key, val).dom() =~= ks.to_set());
        assert forall|i: int| 0 <= i < s.len() implies #[trigger] keyed_map(s, key, val)[key(s[i])] == val(s[i]) by {
            if i < s.len() - 1 {
                assert(ks[i] != ks[s.len() - 1]);
                assert(p[i] == s[i]);
            }
        }
    }
}

} // verus!

//! Lists of (key, value) pairs with distinct keys read as maps: the map view
//! and how it changes when a pair is added, replaced, or filtered out.
use vstd::prelude::*;

verus! {

/// The map that inserting the pairs in order builds.
pub open spec fn keyed_map<V>(s: Seq<(Seq<char>, V)>) -> Map<Seq<char>, V>
    decreases s.len(),
{
    if s.len() == 0 {
        Map::empty()
    } else {
        keyed_map(s.drop_last()).insert(s.last().0, s.last().1)
    }
}

/// No two pairs share a key.
pub open spec fn unique_keys<V>(s: Seq<(Seq<char>, V)>) -> bool {
    forall|i: int, j: int| 0 <= i < s.len() && 0 <= j < s.len() && i != j ==> s[i].0 != s[j].0
}

/// The entries of `m` whose key and value satisfy `keep`.
pub open spec fn map_keep<V>(m: Map<Seq<char>, V>, keep: spec_fn(Seq<char>, V) -> bool) -> Map<
    Seq<char>,
    V,
> {
    Map::new(|k: Seq<char>| m.contains_key(k) && keep(k, m[k]), |k: Seq<char>| m[k])
}

/// With distinct keys, the map holds exactly the pairs.
pub proof fn lemma_keyed_map_members<V>(s: Seq<(Seq<char>, V)>)
    requires
        unique_keys(s),
    ensures
        forall|i: int| 0 <= i < s.len() ==> #[trigger] keyed_map(s).contains_key(s[i].0)
            && keyed_map(s)[s[i].0] == s[i].1,
        forall|k: Seq<char>| #[trigger]
            keyed_map(s).contains_key(k) ==> exists|i: int| 0 <= i < s.len() && s[i].0 == k,
    decreases s.len(),
{
    if s.len() > 0 {
        let t = s.drop_last();
        assert(unique_keys(t)) by {
            assert forall|i: int, j: int|
                0 <= i < t.len() && 0 <= j < t.len() && i != j implies t[i].0 != t[j].0 by {
                assert(t[i] == s[i] && t[j] == s[j]);
            }
        }
        lemma_keyed_map_members(t);
        assert forall|i: int| 0 <= i < s.len() implies #[trigger] keyed_map(s).contains_key(
            s[i].0,
        ) && keyed_map(s)[s[i].0] == s[i].1 by {
            if i < s.len() - 1 {
                assert(t[i] == s[i]);
                assert(keyed_map(t).contains_key(t[i].0));
                assert(s[i].0 != s[s.len() - 1].0);
            }
        }
        assert forall|k: Seq<char>| #[trigger]
            keyed_map(s).contains_key(k) implies exists|i: int| 0 <= i < s.len() && s[i].0 == k by {
            if k != s.last().0 {
                assert(keyed_map(t).contains_key(k));
                let i = choose|i: int| 0 <= i < t.len() && t[i].0 == k;
                assert(s[i] == t[i]);
            } else {
                assert(s[s.len() - 1].0 == k);
            }
        }
    }
}

/// The map of the first `i + 1` pairs.
pub proof fn lemma_keyed_map_take<V>(s: Seq<(Seq<char>, V)>, i: int)
    requires
        0 <= i < s.len(),
    ensures
        keyed_map(s.take(i + 1)) == keyed_map(s.take(i)).insert(s[i].0, s[i].1),
{
    assert(s.take(i + 1).drop_last() =~= s.take(i));
}

/// With distinct keys, the key of pair `i` is not among the first `i` pairs.
pub proof fn lemma_keyed_map_take_fresh<V>(s: Seq<(Seq<char>, V)>, i: int)
    requires
        unique_keys(s),
        0 <= i < s.len(),
    ensures
        !keyed_map(s.take(i)).contains_key(s[i].0),
{
    let t = s.take(i);
    assert(unique_keys(t)) by {
        assert forall|a: int, b: int|
            0 <= a < t.len() && 0 <= b < t.len() && a != b implies t[a].0 != t[b].0 by {
            assert(t[a] == s[a] && t[b] == s[b]);
        }
    }
    lemma_keyed_map_members(t);
    if keyed_map(t).contains_key(s[i].0) {
        let j = choose|j: int| 0 <= j < t.len() && t[j].0 == s[i].0;
        assert(t[j] == s[j]);
    }
}

/// Adding a pair whose key is new.
pub proof fn lemma_keyed_map_push<V>(s: Seq<(Seq<char>, V)>, k: Seq<char>, v: V)
    requires
        unique_keys(s),
        !keyed_map(s).contains_key(k),
    ensures
        unique_keys(s.push((k, v))),
        keyed_map(s.push((k, v))) == keyed_map(s).insert(k, v),
{
    lemma_keyed_map_members(s);
    let u = s.push((k, v));
    assert(u.drop_last() =~= s);
    assert forall|a: int, b: int|
        0 <= a < u.len() && 0 <= b < u.len() && a != b implies u[a].0 != u[b].0 by {
        if a < s.len() && b < s.len() {
            assert(u[a] == s[a] && u[b] == s[b]);
        } else if a < s.len() {
            assert(u[a] == s[a]);
            assert(keyed_map(s).contains_key(s[a].0));
        } else if b < s.len() {
            assert(u[b] == s[b]);
            assert(keyed_map(s).contains_key(s[b].0));
        }
    }
}

/// Replacing the value of the pair at `j`.
pub proof fn lemma_keyed_map_update<V>(s: Seq<(Seq<char>, V)>, j: int, v: V)
    requires
        unique_keys(s),
        0 <= j < s.len(),
    ensures
        unique_keys(s.update(j, (s[j].0, v))),
        keyed_map(s.update(j, (s[j].0, v))) == keyed_map(s).insert(s[j].0, v),
{
    let u = s.update(j, (s[j].0, v));
    assert(unique_keys(u)) by {
        assert forall|a: int, b: int|
            0 <= a < u.len() && 0 <= b < u.len() && a != b implies u[a].0 != u[b].0 by {
            assert(u[a].0 == s[a].0 && u[b].0 == s[b].0);
        }
    }
    lemma_keyed_map_members(s);
    lemma_keyed_map_members(u);
    let m1 = keyed_map(u);
    let m2 = keyed_map(s).insert(s[j].0, v);
    assert forall|k: Seq<char>| m1.contains_key(k) <==> m2.contains_key(k) by {
        if m1.contains_key(k) {
            let i = choose|i: int| 0 <= i < u.len() && u[i].0 == k;
            assert(s[i].0 == k);
            assert(keyed_map(s).contains_key(s[i].0));
        }
        if m2.contains_key(k) && k != s[j].0 {
            let i = choose|i: int| 0 <= i < s.len() && s[i].0 == k;
            assert(u[i].0 == k);
            assert(m1.contains_key(u[i].0));
        }
        if k == s[j].0 {
            assert(u[j].0 == k);
            assert(m1.contains_key(u[j].0));
        }
    }
    assert forall|k: Seq<char>| #[trigger] m1.contains_key(k) implies m1[k] == m2[k] by {
        let i = choose|i: int| 0 <= i < u.len() && u[i].0 == k;
        assert(m1.contains_key(u[i].0) && m1[u[i].0] == u[i].1);
        if i != j {
            assert(s[i] == u[i]);
            assert(keyed_map(s).contains_key(s[i].0) && keyed_map(s)[s[i].0] == s[i].1);
        }
    }
    assert(m1 =~= m2);
}

/// One step of filtering a list with distinct keys: the kept pairs so far
/// map to the kept entries of the prefix.
pub proof fn lemma_keep_step<V>(
    s: Seq<(Seq<char>, V)>,
    i: int,
    kept: Seq<(Seq<char>, V)>,
    keep: spec_fn(Seq<char>, V) -> bool,
)
    requires
        unique_keys(s),
        0 <= i < s.len(),
        unique_keys(kept),
        keyed_map(kept) == map_keep(keyed_map(s.take(i)), keep),
    ensures
        keep(s[i].0, s[i].1) ==> unique_keys(kept.push(s[i])) && keyed_map(kept.push(s[i]))
            == map_keep(keyed_map(s.take(i + 1)), keep),
        !keep(s[i].0, s[i].1) ==> keyed_map(kept) == map_keep(keyed_map(s.take(i + 1)), keep),
{
    lemma_keyed_map_take(s, i);
    lemma_keyed_map_take_fresh(s, i);
    let m = keyed_map(s.take(i));
    let k = s[i].0;
    let v = s[i].1;
    if keep(k, v) {
        assert(!keyed_map(kept).contains_key(k));
        lemma_keyed_map_push(kept, k, v);
        assert(kept.push(s[i]) == kept.push((k, v)));
        assert(keyed_map(kept).insert(k, v) =~= map_keep(m.insert(k, v), keep));
    } else {
        assert(keyed_map(kept) =~= map_keep(m.insert(k, v), keep));
    }
}

/// Where a key is given more than once, the last pair with it gives its
/// value; a key that no pair has is not in the map.
pub proof fn lemma_keyed_map_last_wins<V>(s: Seq<(Seq<char>, V)>, k: Seq<char>, i: int)
    requires
        0 <= i < s.len(),
        s[i].0 == k,
        forall|j: int| i < j < s.len() ==> s[j].0 != k,
    ensures
        keyed_map(s).contains_key(k),
        keyed_map(s)[k] == s[i].1,
    decreases s.len(),
{
    if i < s.len() - 1 {
        let t = s.drop_last();
        assert(s.last().0 != k);
        assert forall|j: int| i < j < t.len() implies t[j].0 != k by {
            assert(t[j] == s[j]);
        }
        assert(t[i] == s[i]);
        lemma_keyed_map_last_wins(t, k, i);
    }
}

/// A key that no pair has is not in the map.
pub proof fn lemma_keyed_map_missing<V>(s: Seq<(Seq<char>, V)>, k: Seq<char>)
    requires
        forall|j: int| 0 <= j < s.len() ==> s[j].0 != k,
    ensures
        !keyed_map(s).contains_key(k),
    decreases s.len(),
{
    if s.len() > 0 {
        let t = s.drop_last();
        assert(s.last().0 != k);
        assert forall|j: int| 0 <= j < t.len() implies t[j].0 != k by {
            assert(t[j] == s[j]);
        }
        lemma_keyed_map_missing(t, k);
    }
}

} // verus!

//! Association lists: sequences of (key, value) pairs read as maps in which
//! the first pair with a given key decides that key's value.
use vstd::prelude::*;

verus! {

/// The map that an association list stands for; earlier pairs shadow later ones.
pub open spec fn assoc<V>(s: Seq<(Seq<char>, V)>) -> Map<Seq<char>, V>
    decreases s.len(),
{
    if s.len() == 0 {
        Map::empty()
    } else {
        assoc(s.drop_first()).insert(s[0].0, s[0].1)
    }
}

/// No pair of `s` has key `k`.
pub open spec fn key_absent<V>(s: Seq<(Seq<char>, V)>, k: Seq<char>) -> bool {
    forall|i: int| 0 <= i < s.len() ==> #[trigger] s[i].0 != k
}

/// `j` is the position of the first pair of `s` with key `s[j].0`.
pub open spec fn first_with_key<V>(s: Seq<(Seq<char>, V)>, j: int) -> bool {
    &&& 0 <= j < s.len()
    &&& forall|i: int| 0 <= i < j ==> #[trigger] s[i].0 != s[j].0
}

/// The keys of `s` are pairwise distinct.
pub open spec fn keys_distinct<V>(s: Seq<(Seq<char>, V)>) -> bool {
    forall|i: int, j: int| 0 <= i < j < s.len() ==> #[trigger] s[i].0 != #[trigger] s[j].0
}

pub proof fn lemma_assoc_absent<V>(s: Seq<(Seq<char>, V)>, k: Seq<char>)
    requires
        key_absent(s, k),
    ensures
        !assoc(s).contains_key(k),
    decreases s.len(),
{
    if s.len() > 0 {
        assert(key_absent(s.drop_first(), k)) by {
            assert forall|i: int| 0 <= i < s.drop_first().len() implies #[trigger] s.drop_first()[i].0
                != k by {
                assert(s.drop_first()[i] == s[i + 1]);
            }
        }
        lemma_assoc_absent(s.drop_first(), k);
        assert(s[0].0 != k);
    }
}

pub proof fn lemma_assoc_first<V>(s: Seq<(Seq<char>, V)>, j: int)
    requires
        first_with_key(s, j),
    ensures
        assoc(s).contains_key(s[j].0),
        assoc(s)[s[j].0] == s[j].1,
    decreases j,
{
    if j > 0 {
        let t = s.drop_first();
        assert(t[j - 1] == s[j]);
        assert forall|i: int| 0 <= i < j - 1 implies #[trigger] t[i].0 != t[j - 1].0 by {
            assert(t[i] == s[i + 1]);
        }
        lemma_assoc_first(t, j - 1);
        assert(s[0].0 != s[j].0);
    }
}

pub proof fn lemma_assoc_update<V>(s: Seq<(Seq<char>, V)>, j: int, v: V)
    requires
        first_with_key(s, j),
    ensures
        assoc(s.update(j, (s[j].0, v))) == assoc(s).insert(s[j].0, v),
    decreases j,
{
    let u = s.update(j, (s[j].0, v));
    if j == 0 {
        assert(u.drop_first() =~= s.drop_first());
        assert(assoc(u) =~= assoc(s).insert(s[j].0, v));
    } else {
        let t = s.drop_first();
        assert(t[j - 1] == s[j]);
        assert forall|i: int| 0 <= i < j - 1 implies #[trigger] t[i].0 != t[j - 1].0 by {
            assert(t[i] == s[i + 1]);
        }
        lemma_assoc_update(t, j - 1, v);
        assert(u.drop_first() =~= t.update(j - 1, (t[j - 1].0, v)));
        assert(s[0].0 != s[j].0);
        assert(assoc(u) =~= assoc(s).insert(s[j].0, v));
    }
}

pub proof fn lemma_assoc_push<V>(s: Seq<(Seq<char>, V)>, k: Seq<char>, v: V)
    requires
        key_absent(s, k),
    ensures
        assoc(s.push((k, v))) == assoc(s).insert(k, v),
    decreases s.len(),
{
    let p = s.push((k, v));
    if s.len() == 0 {
        assert(p.drop_first() =~= Seq::<(Seq<char>, V)>::empty());
        assert(p[0] == (k, v));
        assert(assoc(p.drop_first()) =~= Map::<Seq<char>, V>::empty());
        assert(assoc(p) =~= assoc(s).insert(k, v));
    } else {
        let t = s.drop_first();
        assert(key_absent(t, k)) by {
            assert forall|i: int| 0 <= i < t.len() implies #[trigger] t[i].0 != k by {
                assert(t[i] == s[i + 1]);
            }
        }
        lemma_assoc_push(t, k, v);
        assert(p.drop_first() =~= t.push((k, v)));
        assert(p[0] == s[0]);
        assert(s[0].0 != k);
        assert(assoc(p) =~= assoc(s).insert(k, v));
    }
}

} // verus!

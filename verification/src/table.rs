//! An ordered table from player identity to a value, kept as a vector of
//! entries with distinct keys.
//!
//! Both lobbies and the server's simulation state need a mapping whose
//! iteration order is fixed, so that every snapshot and catch-up pass is a
//! deterministic function of the table's history; entries sit in insertion
//! order and the table's meaning is the `Map` the entry list denotes.

use vstd::prelude::*;

use crate::messages::Player;

verus! {

/// The keys of an entry list, in order.
pub open spec fn keys_of<V>(s: Seq<(Player, V)>) -> Seq<Player> {
    s.map_values(|e: (Player, V)| e.0)
}

/// Whether some entry carries key `p`.
pub open spec fn has_key<V>(s: Seq<(Player, V)>, p: Player) -> bool {
    exists|i: int| 0 <= i < s.len() && s[i].0 == p
}

/// Whether no two entries share a key.
pub open spec fn distinct_keys<V>(s: Seq<(Player, V)>) -> bool {
    forall|i: int, j: int| 0 <= i < j < s.len() ==> s[i].0 != s[j].0
}

/// The mapping an entry list denotes; a later entry for a key wins.
pub open spec fn list_map<V>(s: Seq<(Player, V)>) -> Map<Player, V>
    decreases s.len(),
{
    if s.len() == 0 {
        Map::empty()
    } else {
        list_map(s.drop_last()).insert(s.last().0, s.last().1)
    }
}

/// A key is in the denoted mapping exactly when some entry carries it.
pub proof fn lemma_list_map_dom<V>(s: Seq<(Player, V)>)
    ensures
        forall|p: Player| #[trigger] list_map(s).contains_key(p) <==> has_key(s, p),
    decreases s.len(),
{
    if s.len() > 0 {
        lemma_list_map_dom(s.drop_last());
        assert forall|p: Player| #[trigger] list_map(s).contains_key(p) implies has_key(s, p) by {
            if s.last().0 == p {
                assert(s[s.len() - 1].0 == p);
            } else {
                assert(list_map(s.drop_last()).contains_key(p));
                assert(has_key(s.drop_last(), p));
                let i = choose|i: int| 0 <= i < s.drop_last().len() && s.drop_last()[i].0 == p;
                assert(s.drop_last()[i] == s[i]);
                assert(s[i].0 == p);
            }
        }
        assert forall|p: Player| has_key(s, p) implies #[trigger] list_map(s).contains_key(p) by {
            let i = choose|i: int| 0 <= i < s.len() && s[i].0 == p;
            if i < s.len() - 1 {
                assert(s.drop_last()[i].0 == p);
                assert(has_key(s.drop_last(), p));
                assert(list_map(s.drop_last()).contains_key(p));
            } else {
                assert(s.last().0 == p);
            }
        }
    }
}

/// With distinct keys, the entry at `i` gives the denoted value of its key.
pub proof fn lemma_list_map_index<V>(s: Seq<(Player, V)>, i: int)
    requires
        distinct_keys(s),
        0 <= i < s.len(),
    ensures
        list_map(s).contains_key(s[i].0),
        list_map(s)[s[i].0] == s[i].1,
    decreases s.len(),
{
    if i < s.len() - 1 {
        assert(s.drop_last()[i] == s[i]);
        lemma_list_map_index(s.drop_last(), i);
        assert(s[i].0 != s[s.len() - 1].0);
    }
}

/// Overwriting the entry that carries a key updates the denoted mapping at
/// that key alone.
pub proof fn lemma_list_map_update<V>(s: Seq<(Player, V)>, i: int, v: V)
    requires
        distinct_keys(s),
        0 <= i < s.len(),
    ensures
        list_map(s.update(i, (s[i].0, v))) == list_map(s).insert(s[i].0, v),
    decreases s.len(),
{
    let t = s.update(i, (s[i].0, v));
    if i == s.len() - 1 {
        assert(t.drop_last() =~= s.drop_last());
        assert(t.last() == (s[i].0, v));
        assert(list_map(t) =~= list_map(s).insert(s[i].0, v));
    } else {
        assert(t.drop_last() =~= s.drop_last().update(i, (s[i].0, v)));
        assert(s.drop_last()[i] == s[i]);
        lemma_list_map_update(s.drop_last(), i, v);
        assert(t.last() == s.last());
        assert(s[i].0 != s.last().0);
        assert(list_map(t) =~= list_map(s).insert(s[i].0, v));
    }
}

/// Removing the entry that carries a key removes that key alone from the
/// denoted mapping.
pub proof fn lemma_list_map_remove<V>(s: Seq<(Player, V)>, i: int)
    requires
        distinct_keys(s),
        0 <= i < s.len(),
    ensures
        list_map(s.remove(i)) == list_map(s).remove(s[i].0),
    decreases s.len(),
{
    let t = s.remove(i);
    if i == s.len() - 1 {
        assert(t =~= s.drop_last());
        lemma_list_map_dom(s.drop_last());
        assert(!has_key(s.drop_last(), s[i].0));
        assert(list_map(t) =~= list_map(s).remove(s[i].0));
    } else {
        assert(t.drop_last() =~= s.drop_last().remove(i));
        assert(s.drop_last()[i] == s[i]);
        lemma_list_map_remove(s.drop_last(), i);
        assert(t.last() == s.last());
        assert(s[i].0 != s.last().0);
        assert(list_map(t) =~= list_map(s).remove(s[i].0));
    }
}

/// Appending an entry for a fresh key inserts that key into the denoted
/// mapping.
pub proof fn lemma_list_map_push<V>(s: Seq<(Player, V)>, p: Player, v: V)
    ensures
        list_map(s.push((p, v))) == list_map(s).insert(p, v),
{
    assert(s.push((p, v)).drop_last() =~= s);
}

/// The index of the entry carrying `p`; meaningful only when some entry
/// does.
pub open spec fn entry_index<V>(s: Seq<(Player, V)>, p: Player) -> int
    decreases s.len(),
{
    if s.len() == 0 {
        -1
    } else if s.last().0 == p {
        s.len() - 1
    } else {
        entry_index(s.drop_last(), p)
    }
}

/// With distinct keys, any entry carrying `p` sits at `entry_index`.
pub proof fn lemma_entry_index_unique<V>(s: Seq<(Player, V)>, i: int)
    requires
        distinct_keys(s),
        0 <= i < s.len(),
    ensures
        entry_index(s, s[i].0) == i,
    decreases s.len(),
{
    if i < s.len() - 1 {
        assert(s[i].0 != s.last().0);
        assert(s.drop_last()[i] == s[i]);
        lemma_entry_index_unique(s.drop_last(), i);
    }
}

/// An entry list after binding `p` to `v`: the carrying entry overwritten,
/// or a new entry appended.
pub open spec fn upsert<V>(s: Seq<(Player, V)>, p: Player, v: V) -> Seq<(Player, V)> {
    if has_key(s, p) {
        s.update(entry_index(s, p), (p, v))
    } else {
        s.push((p, v))
    }
}

/// An entry list after unbinding `p`: the carrying entry dropped, or the
/// list unchanged.
pub open spec fn del<V>(s: Seq<(Player, V)>, p: Player) -> Seq<(Player, V)> {
    if has_key(s, p) {
        s.remove(entry_index(s, p))
    } else {
        s
    }
}

/// What binding means: distinctness is kept, the denoted mapping gains the
/// binding, and the key order either stands or gains `p` at the end.
pub proof fn lemma_upsert<V>(s: Seq<(Player, V)>, p: Player, v: V)
    requires
        distinct_keys(s),
    ensures
        distinct_keys(upsert(s, p, v)),
        list_map(upsert(s, p, v)) == list_map(s).insert(p, v),
        keys_of(upsert(s, p, v)) == if has_key(s, p) {
            keys_of(s)
        } else {
            keys_of(s).push(p)
        },
{
    if has_key(s, p) {
        let w = choose|i: int| 0 <= i < s.len() && s[i].0 == p;
        lemma_entry_index_unique(s, w);
        let i = entry_index(s, p);
        lemma_list_map_update(s, i, v);
        assert(keys_of(s.update(i, (p, v))) =~= keys_of(s));
        let t = s.update(i, (p, v));
        assert forall|a: int, b: int| 0 <= a < b < t.len() implies t[a].0 != t[b].0 by {
            assert(t[a].0 == s[a].0 && t[b].0 == s[b].0);
        }
    } else {
        lemma_list_map_push(s, p, v);
        assert(keys_of(s.push((p, v))) =~= keys_of(s).push(p));
        let t = s.push((p, v));
        assert forall|a: int, b: int| 0 <= a < b < t.len() implies t[a].0 != t[b].0 by {
            if b == t.len() - 1 {
                assert(s[a].0 != p);
            }
        }
    }
}

/// What unbinding means: distinctness is kept and the denoted mapping
/// loses the key; an absent key leaves the list untouched.
pub proof fn lemma_del<V>(s: Seq<(Player, V)>, p: Player)
    requires
        distinct_keys(s),
    ensures
        distinct_keys(del(s, p)),
        list_map(del(s, p)) == list_map(s).remove(p),
        !has_key(s, p) ==> del(s, p) == s,
{
    if has_key(s, p) {
        let w = choose|i: int| 0 <= i < s.len() && s[i].0 == p;
        lemma_entry_index_unique(s, w);
        let i = entry_index(s, p);
        lemma_list_map_remove(s, i);
        let t = s.remove(i);
        assert forall|a: int, b: int| 0 <= a < b < t.len() implies t[a].0 != t[b].0 by {
            let sa = if a < i { a } else { a + 1 };
            let sb = if b < i { b } else { b + 1 };
            assert(s[sa].0 != s[sb].0);
        }
    } else {
        lemma_list_map_dom(s);
        assert(list_map(s) =~= list_map(s).remove(p));
    }
}

/// Finds the index of the entry carrying `p`, if there is one.
pub fn table_index_of<V>(t: &Vec<(Player, V)>, p: Player) -> (r: Option<usize>)
    ensures
        match r {
            Some(i) => i < t@.len() && t@[i as int].0 == p,
            None => !has_key(t@, p),
        },
{
    let n = t.len();
    let mut j: usize = 0;
    while j < n
        invariant
            j <= n,
            n == t@.len(),
            forall|i: int| 0 <= i < j ==> t@[i].0 != p,
        decreases n - j,
    {
        if t[j].0.id == p.id {
            return Some(j);
        }
        j = j + 1;
    }
    None
}

/// Binds `p` to `v`: overwrites the entry already carrying `p`, else
/// appends a new entry at the end.
pub fn table_insert<V>(t: &mut Vec<(Player, V)>, p: Player, v: V)
    requires
        distinct_keys(old(t)@),
    ensures
        final(t)@ == upsert(old(t)@, p, v),
        distinct_keys(final(t)@),
        list_map(final(t)@) == list_map(old(t)@).insert(p, v),
        keys_of(final(t)@) == if has_key(old(t)@, p) {
            keys_of(old(t)@)
        } else {
            keys_of(old(t)@).push(p)
        },
{
    proof {
        lemma_upsert(old(t)@, p, v);
    }
    match table_index_of(t, p) {
        Some(i) => {
            proof {
                lemma_entry_index_unique(old(t)@, i as int);
            }
            t[i] = (p, v);
        },
        None => {
            t.push((p, v));
        },
    }
}

/// Unbinds `p`, returning its value; leaves the table as it stands when no
/// entry carries `p`.
pub fn table_remove<V>(t: &mut Vec<(Player, V)>, p: Player) -> (r: Option<V>)
    requires
        distinct_keys(old(t)@),
    ensures
        final(t)@ == del(old(t)@, p),
        distinct_keys(final(t)@),
        list_map(final(t)@) == list_map(old(t)@).remove(p),
        r is Some <==> has_key(old(t)@, p),
        r matches Some(v) ==> list_map(old(t)@).contains_key(p) && v == list_map(old(t)@)[p],
        !has_key(old(t)@, p) ==> final(t)@ == old(t)@,
{
    proof {
        lemma_del(old(t)@, p);
    }
    match table_index_of(t, p) {
        Some(i) => {
            proof {
                lemma_entry_index_unique(old(t)@, i as int);
                lemma_list_map_index(old(t)@, i as int);
            }
            let e = t.remove(i);
            Some(e.1)
        },
        None => None,
    }
}

/// The value bound to `p`, if any.
pub fn table_get<'a, V>(t: &'a Vec<(Player, V)>, p: Player) -> (r: Option<&'a V>)
    requires
        distinct_keys(t@),
    ensures
        r is Some <==> has_key(t@, p),
        r matches Some(v) ==> list_map(t@).contains_key(p) && *v == list_map(t@)[p],
{
    match table_index_of(t, p) {
        Some(i) => {
            proof {
                lemma_list_map_index(t@, i as int);
            }
            Some(&t[i].1)
        },
        None => None,
    }
}

} // verus!

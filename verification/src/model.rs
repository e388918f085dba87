//! The mathematical model of the entry map: a name-sorted sequence of
//! name/value pairs, viewed as a map from names to values.

use crate::order::{lemma_lex_lt_irrefl, lex_lt};
use vstd::prelude::*;

verus! {

/// The characters of each name/value pair of an entry sequence.
pub open spec fn entry_views(s: Seq<(String, String)>) -> Seq<(Seq<char>, Seq<char>)> {
    s.map_values(|p: (String, String)| (p.0@, p.1@))
}

/// Entry names strictly increase: the sequence is sorted and, in particular,
/// no name repeats.
pub open spec fn keys_sorted(s: Seq<(Seq<char>, Seq<char>)>) -> bool {
    forall|i: int, j: int| 0 <= i < j < s.len() ==> lex_lt(s[i].0, s[j].0)
}

/// Whether some entry carries the given name.
pub open spec fn has_key(s: Seq<(Seq<char>, Seq<char>)>, k: Seq<char>) -> bool {
    exists|i: int| 0 <= i < s.len() && s[i].0 == k
}

/// The map that an entry sequence stands for; a later entry wins over an
/// earlier one of the same name.
pub open spec fn entries_map(s: Seq<(Seq<char>, Seq<char>)>) -> Map<Seq<char>, Seq<char>>
    decreases s.len(),
{
    if s.len() == 0 {
        Map::empty()
    } else {
        entries_map(s.drop_last()).insert(s.last().0, s.last().1)
    }
}

/// Taking views commutes with inserting a pair.
pub proof fn lemma_entry_views_insert(s: Seq<(String, String)>, i: int, p: (String, String))
    requires
        0 <= i <= s.len(),
    ensures
        entry_views(s.insert(i, p)) == entry_views(s).insert(i, (p.0@, p.1@)),
{
    s.insert_ensures(i, p);
    entry_views(s).insert_ensures(i, (p.0@, p.1@));
    assert(entry_views(s.insert(i, p)) =~= entry_views(s).insert(i, (p.0@, p.1@)));
}

/// Taking views commutes with removing a pair.
pub proof fn lemma_entry_views_remove(s: Seq<(String, String)>, i: int)
    requires
        0 <= i < s.len(),
    ensures
        entry_views(s.remove(i)) == entry_views(s).remove(i),
{
    s.remove_ensures(i);
    entry_views(s).remove_ensures(i);
    assert(entry_views(s.remove(i)) =~= entry_views(s).remove(i));
}

/// Taking views commutes with overwriting a pair.
pub proof fn lemma_entry_views_update(s: Seq<(String, String)>, i: int, p: (String, String))
    requires
        0 <= i < s.len(),
    ensures
        entry_views(s.update(i, p)) == entry_views(s).update(i, (p.0@, p.1@)),
{
    assert(entry_views(s.update(i, p)) =~= entry_views(s).update(i, (p.0@, p.1@)));
}

/// Sorted names never repeat.
pub proof fn lemma_sorted_keys_unique(s: Seq<(Seq<char>, Seq<char>)>)
    requires
        keys_sorted(s),
    ensures
        forall|i: int, j: int|
            0 <= i < s.len() && 0 <= j < s.len() && i != j ==> s[i].0 != s[j].0,
{
    assert forall|i: int, j: int|
        0 <= i < s.len() && 0 <= j < s.len() && i != j implies s[i].0 != s[j].0 by {
        if i < j {
            assert(lex_lt(s[i].0, s[j].0));
        } else {
            assert(lex_lt(s[j].0, s[i].0));
        }
        if s[i].0 == s[j].0 {
            lemma_lex_lt_irrefl(s[i].0);
        }
    }
}

/// A name is in the map exactly when some entry carries it.
pub proof fn lemma_entries_map_domain(s: Seq<(Seq<char>, Seq<char>)>)
    ensures
        forall|k: Seq<char>| entries_map(s).contains_key(k) <==> has_key(s, k),
    decreases s.len(),
{
    if s.len() > 0 {
        lemma_entries_map_domain(s.drop_last());
        assert forall|k: Seq<char>| entries_map(s).contains_key(k) <==> has_key(s, k) by {
            if entries_map(s).contains_key(k) {
                if k == s.last().0 {
                    assert(s[s.len() - 1].0 == k);
                } else {
                    assert(entries_map(s.drop_last()).contains_key(k));
                    assert(has_key(s.drop_last(), k));
                    let i = choose|i: int|
                        0 <= i < s.drop_last().len() && s.drop_last()[i].0 == k;
                    assert(s.drop_last()[i] == s[i]);
                    assert(s[i].0 == k);
                }
                assert(has_key(s, k));
            }
            if has_key(s, k) {
                let i = choose|i: int| 0 <= i < s.len() && s[i].0 == k;
                if i < s.len() - 1 {
                    assert(s.drop_last()[i] == s[i]);
                    assert(s.drop_last()[i].0 == k);
                    assert(has_key(s.drop_last(), k));
                } else {
                    assert(k == s.last().0);
                }
                assert(entries_map(s).contains_key(k));
            }
        }
    }
}

/// Looking up the name of an entry that no other entry shares yields that
/// entry's value.
pub proof fn lemma_entries_map_at(s: Seq<(Seq<char>, Seq<char>)>, i: int)
    requires
        0 <= i < s.len(),
        forall|j: int| 0 <= j < s.len() && j != i ==> s[j].0 != s[i].0,
    ensures
        entries_map(s).contains_key(s[i].0),
        entries_map(s)[s[i].0] == s[i].1,
    decreases s.len(),
{
    if i < s.len() - 1 {
        assert forall|j: int|
            0 <= j < s.drop_last().len() && j != i implies s.drop_last()[j].0
            != s.drop_last()[i].0 by {
            assert(s[j].0 != s[i].0);
        }
        lemma_entries_map_at(s.drop_last(), i);
        assert(s.last().0 != s[i].0);
    }
}

/// Inserting an entry under a fresh name inserts it into the map.
pub proof fn lemma_entries_map_insert(
    s: Seq<(Seq<char>, Seq<char>)>,
    i: int,
    p: (Seq<char>, Seq<char>),
)
    requires
        0 <= i <= s.len(),
        !has_key(s, p.0),
    ensures
        entries_map(s.insert(i, p)) == entries_map(s).insert(p.0, p.1),
    decreases s.len(),
{
    let t = s.insert(i, p);
    if i == s.len() {
        assert(t.drop_last() =~= s);
        assert(t.last() == p);
    } else {
        assert(t.last() == s.last());
        assert(t.drop_last() =~= s.drop_last().insert(i, p));
        assert(!has_key(s.drop_last(), p.0)) by {
            if has_key(s.drop_last(), p.0) {
                let j = choose|j: int|
                    0 <= j < s.drop_last().len() && s.drop_last()[j].0 == p.0;
                assert(s[j].0 == p.0);
            }
        }
        lemma_entries_map_insert(s.drop_last(), i, p);
        assert(s[s.len() - 1].0 != p.0);
        assert(entries_map(s.drop_last()).insert(p.0, p.1).insert(s.last().0, s.last().1)
            =~= entries_map(s.drop_last()).insert(s.last().0, s.last().1).insert(p.0, p.1));
    }
}

/// Removing the only entry of a name removes that name from the map.
pub proof fn lemma_entries_map_remove(s: Seq<(Seq<char>, Seq<char>)>, i: int)
    requires
        0 <= i < s.len(),
        forall|j: int| 0 <= j < s.len() && j != i ==> s[j].0 != s[i].0,
    ensures
        entries_map(s.remove(i)) == entries_map(s).remove(s[i].0),
    decreases s.len(),
{
    if i == s.len() - 1 {
        assert(s.remove(i) =~= s.drop_last());
        lemma_entries_map_domain(s.drop_last());
        assert(!has_key(s.drop_last(), s[i].0)) by {
            if has_key(s.drop_last(), s[i].0) {
                let j = choose|j: int|
                    0 <= j < s.drop_last().len() && s.drop_last()[j].0 == s[i].0;
                assert(s[j].0 == s[i].0);
            }
        }
        assert(entries_map(s.drop_last()).insert(s.last().0, s.last().1).remove(s[i].0)
            =~= entries_map(s.drop_last()));
    } else {
        let t = s.remove(i);
        assert(t.last() == s.last());
        assert(t.drop_last() =~= s.drop_last().remove(i));
        assert forall|j: int|
            0 <= j < s.drop_last().len() && j != i implies s.drop_last()[j].0
            != s.drop_last()[i].0 by {
            assert(s[j].0 != s[i].0);
        }
        lemma_entries_map_remove(s.drop_last(), i);
        assert(s.last().0 != s[i].0);
        assert(entries_map(s.drop_last()).remove(s[i].0).insert(s.last().0, s.last().1)
            =~= entries_map(s.drop_last()).insert(s.last().0, s.last().1).remove(s[i].0));
    }
}

/// Removing an entry keeps the remaining names sorted.
pub proof fn lemma_keys_sorted_remove(s: Seq<(Seq<char>, Seq<char>)>, i: int)
    requires
        keys_sorted(s),
        0 <= i < s.len(),
    ensures
        keys_sorted(s.remove(i)),
{
    let t = s.remove(i);
    assert forall|a: int, b: int| 0 <= a < b < t.len() implies lex_lt(t[a].0, t[b].0) by {
        if a < i {
            assert(t[a] == s[a]);
        } else {
            assert(t[a] == s[a + 1]);
        }
        if b < i {
            assert(t[b] == s[b]);
        } else {
            assert(t[b] == s[b + 1]);
        }
    }
}

/// Inserting an entry whose name lies between its neighbours keeps the names
/// sorted.
pub proof fn lemma_keys_sorted_insert(
    s: Seq<(Seq<char>, Seq<char>)>,
    i: int,
    p: (Seq<char>, Seq<char>),
)
    requires
        keys_sorted(s),
        0 <= i <= s.len(),
        forall|j: int| 0 <= j < i ==> lex_lt(s[j].0, p.0),
        forall|j: int| i <= j < s.len() ==> lex_lt(p.0, s[j].0),
    ensures
        keys_sorted(s.insert(i, p)),
{
    let t = s.insert(i, p);
    assert forall|a: int, b: int| 0 <= a < b < t.len() implies lex_lt(t[a].0, t[b].0) by {
        if a < i {
            assert(t[a] == s[a]);
        } else if a == i {
            assert(t[a] == p);
        } else {
            assert(t[a] == s[a - 1]);
        }
        if b < i {
            assert(t[b] == s[b]);
        } else if b == i {
            assert(t[b] == p);
        } else {
            assert(t[b] == s[b - 1]);
        }
    }
}

/// Overwriting the value of an entry updates its name's image in the map.
pub proof fn lemma_entries_map_update(
    s: Seq<(Seq<char>, Seq<char>)>,
    i: int,
    p: (Seq<char>, Seq<char>),
)
    requires
        0 <= i < s.len(),
        forall|j: int| 0 <= j < s.len() && j != i ==> s[j].0 != s[i].0,
        p.0 == s[i].0,
    ensures
        entries_map(s.update(i, p)) == entries_map(s).insert(p.0, p.1),
{
    let r = s.remove(i);
    lemma_entries_map_remove(s, i);
    assert(!has_key(r, p.0)) by {
        if has_key(r, p.0) {
            let j = choose|j: int| 0 <= j < r.len() && r[j].0 == p.0;
            if j < i {
                assert(s[j].0 == p.0);
            } else {
                assert(s[j + 1].0 == p.0);
            }
        }
    }
    lemma_entries_map_insert(r, i, p);
    assert(r.insert(i, p) =~= s.update(i, p));
    assert(entries_map(s).remove(p.0).insert(p.0, p.1) =~= entries_map(s).insert(p.0, p.1));
}

} // verus!

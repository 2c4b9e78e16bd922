//! Association lists keyed by strings, used both for the descriptor mapping
//! and for the resolved value set.
//!
//! Entries keep their insertion order; a later insert of an existing key
//! replaces the value in place, so keys stay unique.

use vstd::prelude::*;

verus! {

/// The entries as pairs of views, in order.
pub open spec fn kv_model<V: View>(s: Seq<(String, V)>) -> Seq<(Seq<char>, V::V)> {
    s.map(|i: int, e: (String, V)| (e.0@, e.1@))
}

/// The value at the first entry whose key is `key`, if any.
pub open spec fn lookup_model<T>(s: Seq<(Seq<char>, T)>, key: Seq<char>) -> Option<T>
    decreases s.len(),
{
    if s.len() == 0 {
        None
    } else if s[0].0 == key {
        Some(s[0].1)
    } else {
        lookup_model(s.drop_first(), key)
    }
}

/// The entries after binding `key` to `val`: the first entry for `key` is
/// replaced in place, or a new entry is appended when the key is absent.
pub open spec fn upsert_model<T>(s: Seq<(Seq<char>, T)>, key: Seq<char>, val: T) -> Seq<
    (Seq<char>, T),
>
    decreases s.len(),
{
    if s.len() == 0 {
        seq![(key, val)]
    } else if s[0].0 == key {
        seq![(key, val)] + s.drop_first()
    } else {
        seq![s[0]] + upsert_model(s.drop_first(), key, val)
    }
}

/// No two entries share a key.
pub open spec fn unique_keys<T>(s: Seq<(Seq<char>, T)>) -> bool {
    forall|i: int, j: int| 0 <= i < j < s.len() ==> s[i].0 != s[j].0
}

/// An upsert keeps the keys unique.
pub proof fn lemma_upsert_unique<T>(s: Seq<(Seq<char>, T)>, key: Seq<char>, val: T)
    requires
        unique_keys(s),
    ensures
        unique_keys(upsert_model(s, key, val)),
    decreases s.len(),
{
    if s.len() == 0 {
    } else if s[0].0 == key {
        let r = upsert_model(s, key, val);
        assert forall|i: int, j: int| 0 <= i < j < r.len() implies r[i].0 != r[j].0 by {
            assert(r[j] == s[j]);
            if i > 0 {
                assert(r[i] == s[i]);
            }
        }
    } else {
        assert(unique_keys(s.drop_first())) by {
            assert forall|i: int, j: int|
                0 <= i < j < s.drop_first().len() implies s.drop_first()[i].0
                != s.drop_first()[j].0 by {
                assert(s.drop_first()[i] == s[i + 1]);
                assert(s.drop_first()[j] == s[j + 1]);
            }
        }
        lemma_upsert_unique(s.drop_first(), key, val);
        lemma_upsert_keys(s.drop_first(), key, val);
        let r = upsert_model(s, key, val);
        let rt = upsert_model(s.drop_first(), key, val);
        assert forall|i: int, j: int| 0 <= i < j < r.len() implies r[i].0 != r[j].0 by {
            if i == 0 {
                assert(r[j] == rt[j - 1]);
                if rt[j - 1].0 == key {
                } else {
                    assert(lookup_model(s.drop_first(), rt[j - 1].0) is Some ==> exists|m: int|
                        0 <= m < s.drop_first().len() && s.drop_first()[m].0 == rt[j - 1].0) by {
                        lemma_lookup_index(s.drop_first(), rt[j - 1].0);
                    }
                }
            } else {
                assert(r[i] == rt[i - 1]);
                assert(r[j] == rt[j - 1]);
            }
        }
    }
}

/// Every key bound after an upsert was bound before, or is the upserted key.
pub proof fn lemma_upsert_keys<T>(s: Seq<(Seq<char>, T)>, key: Seq<char>, val: T)
    ensures
        forall|j: int|
            0 <= j < upsert_model(s, key, val).len() ==> (#[trigger] upsert_model(
                s,
                key,
                val,
            )[j].0 == key || lookup_model(s, upsert_model(s, key, val)[j].0) is Some),
    decreases s.len(),
{
    let r = upsert_model(s, key, val);
    if s.len() == 0 {
    } else if s[0].0 == key {
        assert forall|j: int|
            0 <= j < r.len() implies (r[j].0 == key || lookup_model(s, r[j].0) is Some) by {
            if j > 0 {
                assert(r[j] == s[j]);
                lemma_index_lookup(s, j);
            }
        }
    } else {
        lemma_upsert_keys(s.drop_first(), key, val);
        let rt = upsert_model(s.drop_first(), key, val);
        assert forall|j: int|
            0 <= j < r.len() implies (r[j].0 == key || lookup_model(s, r[j].0) is Some) by {
            if j == 0 {
                lemma_index_lookup(s, 0);
            } else {
                assert(r[j] == rt[j - 1]);
                if rt[j - 1].0 != key {
                    assert(lookup_model(s.drop_first(), rt[j - 1].0) is Some);
                    if s[0].0 != rt[j - 1].0 {
                        assert(lookup_model(s, rt[j - 1].0) == lookup_model(
                            s.drop_first(),
                            rt[j - 1].0,
                        ));
                    }
                }
            }
        }
    }
}

/// A key that an entry holds is found by `lookup_model`.
pub proof fn lemma_index_lookup<T>(s: Seq<(Seq<char>, T)>, i: int)
    requires
        0 <= i < s.len(),
    ensures
        lookup_model(s, s[i].0) is Some,
    decreases s.len(),
{
    if i > 0 && s[0].0 != s[i].0 {
        assert(s.drop_first()[i - 1] == s[i]);
        lemma_index_lookup(s.drop_first(), i - 1);
    }
}

/// A key that `lookup_model` finds is held by some entry.
pub proof fn lemma_lookup_index<T>(s: Seq<(Seq<char>, T)>, key: Seq<char>)
    requires
        lookup_model(s, key) is Some,
    ensures
        exists|m: int| 0 <= m < s.len() && s[m].0 == key,
    decreases s.len(),
{
    if s.len() > 0 && s[0].0 != key {
        lemma_lookup_index(s.drop_first(), key);
        let m = choose|m: int| 0 <= m < s.drop_first().len() && s.drop_first()[m].0 == key;
        assert(s[m + 1].0 == key);
    }
}

/// When the first entry holding `key` stands at `i`, the lookup returns its
/// value.
pub proof fn lemma_lookup_at_index<T>(s: Seq<(Seq<char>, T)>, key: Seq<char>, i: int)
    requires
        0 <= i < s.len(),
        s[i].0 == key,
        forall|j: int| 0 <= j < i ==> s[j].0 != key,
    ensures
        lookup_model(s, key) == Some(s[i].1),
    decreases i,
{
    if i > 0 {
        assert(s.drop_first()[i - 1] == s[i]);
        assert forall|j: int| 0 <= j < i - 1 implies s.drop_first()[j].0 != key by {
            assert(s.drop_first()[j] == s[j + 1]);
        }
        lemma_lookup_at_index(s.drop_first(), key, i - 1);
    }
}

/// When no entry holds `key`, the lookup returns nothing.
pub proof fn lemma_lookup_absent<T>(s: Seq<(Seq<char>, T)>, key: Seq<char>)
    requires
        forall|j: int| 0 <= j < s.len() ==> s[j].0 != key,
    ensures
        lookup_model(s, key) is None,
    decreases s.len(),
{
    if s.len() > 0 {
        assert forall|j: int| 0 <= j < s.drop_first().len() implies s.drop_first()[j].0 != key by {
            assert(s.drop_first()[j] == s[j + 1]);
        }
        lemma_lookup_absent(s.drop_first(), key);
    }
}

/// When the first entry holding `key` stands at `i`, an upsert replaces that
/// entry.
pub proof fn lemma_upsert_at_index<T>(s: Seq<(Seq<char>, T)>, key: Seq<char>, val: T, i: int)
    requires
        0 <= i < s.len(),
        s[i].0 == key,
        forall|j: int| 0 <= j < i ==> s[j].0 != key,
    ensures
        upsert_model(s, key, val) == s.update(i, (key, val)),
    decreases i,
{
    if i == 0 {
        assert(upsert_model(s, key, val) =~= s.update(0, (key, val)));
    } else {
        assert(s.drop_first()[i - 1] == s[i]);
        assert forall|j: int| 0 <= j < i - 1 implies s.drop_first()[j].0 != key by {
            assert(s.drop_first()[j] == s[j + 1]);
        }
        lemma_upsert_at_index(s.drop_first(), key, val, i - 1);
        assert(upsert_model(s, key, val) =~= s.update(i, (key, val)));
    }
}

/// When no entry holds `key`, an upsert appends a new entry.
pub proof fn lemma_upsert_absent<T>(s: Seq<(Seq<char>, T)>, key: Seq<char>, val: T)
    requires
        forall|j: int| 0 <= j < s.len() ==> s[j].0 != key,
    ensures
        upsert_model(s, key, val) == s.push((key, val)),
    decreases s.len(),
{
    if s.len() == 0 {
        assert(upsert_model(s, key, val) =~= s.push((key, val)));
    } else {
        assert forall|j: int| 0 <= j < s.drop_first().len() implies s.drop_first()[j].0 != key by {
            assert(s.drop_first()[j] == s[j + 1]);
        }
        lemma_upsert_absent(s.drop_first(), key, val);
        assert(upsert_model(s, key, val) =~= s.push((key, val)));
    }
}

/// A value that `lookup_model` finds is held by some entry for that key.
pub proof fn lemma_lookup_member<T>(s: Seq<(Seq<char>, T)>, key: Seq<char>, v: T)
    requires
        lookup_model(s, key) == Some(v),
    ensures
        exists|m: int| 0 <= m < s.len() && s[m] == (key, v),
    decreases s.len(),
{
    if s.len() > 0 && s[0].0 != key {
        lemma_lookup_member(s.drop_first(), key, v);
        let m = choose|m: int| 0 <= m < s.drop_first().len() && s.drop_first()[m] == (key, v);
        assert(s[m + 1] == (key, v));
    }
}

/// The position of the first entry holding `key`, if any.
fn find_index<V: View>(entries: &Vec<(String, V)>, key: &String) -> (r: Option<usize>)
    ensures
        match r {
            Some(i) => i < entries@.len() && entries@[i as int].0@ == key@ && (forall|j: int|
                0 <= j < i ==> entries@[j].0@ != key@),
            None => forall|j: int| 0 <= j < entries@.len() ==> entries@[j].0@ != key@,
        },
{
    let mut i: usize = 0;
    while i < entries.len()
        invariant
            0 <= i <= entries@.len(),
            forall|j: int| 0 <= j < i ==> entries@[j].0@ != key@,
        decreases entries@.len() - i,
    {
        if entries[i].0.eq(key) {
            return Some(i);
        }
        i += 1;
    }
    None
}

/// Looks `key` up among the entries, returning the first match.
pub fn lookup<'a, V: View>(entries: &'a Vec<(String, V)>, key: &String) -> (r: Option<&'a V>)
    ensures
        match r {
            Some(v) => lookup_model(kv_model(entries@), key@) == Some(v@),
            None => lookup_model(kv_model(entries@), key@) is None,
        },
{
    match find_index(entries, key) {
        Some(i) => {
            proof {
                lemma_lookup_at_index(kv_model(entries@), key@, i as int);
            }
            Some(&entries[i].1)
        },
        None => {
            proof {
                lemma_lookup_absent(kv_model(entries@), key@);
            }
            None
        },
    }
}

/// Binds `key` to `val`: replaces the value of the first entry holding `key`,
/// or appends a new entry when no entry holds it.
pub fn upsert<V: View>(entries: &mut Vec<(String, V)>, key: String, val: V)
    ensures
        kv_model(final(entries)@) == upsert_model(kv_model(old(entries)@), key@, val@),
{
    let ghost orig = kv_model(entries@);
    let ghost k0 = key@;
    let ghost v0 = val@;
    match find_index(entries, &key) {
        Some(i) => {
            proof {
                lemma_upsert_at_index(orig, k0, v0, i as int);
            }
            entries.set(i, (key, val));
            proof {
                assert(kv_model(entries@) =~= orig.update(i as int, (k0, v0)));
            }
        },
        None => {
            proof {
                lemma_upsert_absent(orig, k0, v0);
            }
            entries.push((key, val));
            proof {
                assert(kv_model(entries@) =~= orig.push((k0, v0)));
            }
        },
    }
}

} // verus!

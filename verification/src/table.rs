//! Small association tables keyed by byte strings, held as vectors of
//! `(key, value)` pairs. Lookup takes the first entry with the key; insertion
//! first drops every entry with the key, so a table whose entries were only
//! ever touched through these operations has one entry per key.

use vstd::prelude::*;

use crate::wire::bytes_eq;

verus! {

/// The value under `k`: the first entry whose key is `k`.
pub open spec fn spec_lookup<V>(s: Seq<(Vec<u8>, V)>, k: Seq<u8>) -> Option<V>
    decreases s.len(),
{
    if s.len() == 0 {
        None
    } else if s[0].0@ == k {
        Some(s[0].1)
    } else {
        spec_lookup(s.drop_first(), k)
    }
}

/// Whether some entry carries the key `k`.
pub open spec fn spec_has_key<V>(s: Seq<(Vec<u8>, V)>, k: Seq<u8>) -> bool {
    spec_lookup(s, k) is Some
}

/// The table without any entry keyed `k`, order otherwise kept.
pub open spec fn spec_remove_key<V>(s: Seq<(Vec<u8>, V)>, k: Seq<u8>) -> Seq<(Vec<u8>, V)>
    decreases s.len(),
{
    if s.len() == 0 {
        s
    } else if s[0].0@ == k {
        spec_remove_key(s.drop_first(), k)
    } else {
        seq![s[0]] + spec_remove_key(s.drop_first(), k)
    }
}

/// Removal answers lookups: the removed key is gone, every other key is
/// untouched.
pub proof fn lemma_lookup_remove_key<V>(s: Seq<(Vec<u8>, V)>, k: Seq<u8>, k2: Seq<u8>)
    ensures
        spec_lookup(spec_remove_key(s, k), k2) == if k2 == k {
            None
        } else {
            spec_lookup(s, k2)
        },
    decreases s.len(),
{
    if s.len() == 0 {
    } else {
        lemma_lookup_remove_key(s.drop_first(), k, k2);
        if s[0].0@ == k {
        } else {
            let rest = spec_remove_key(s.drop_first(), k);
            assert((seq![s[0]] + rest).drop_first() =~= rest);
            assert((seq![s[0]] + rest)[0] == s[0]);
        }
    }
}

/// Borrow the value under `k`, if any.
pub fn table_get<'a, V>(s: &'a Vec<(Vec<u8>, V)>, k: &[u8]) -> (r: Option<&'a V>)
    ensures
        match r {
            Some(v) => spec_lookup(s@, k@) == Some(*v),
            None => spec_lookup(s@, k@) is None,
        },
{
    let mut i: usize = 0;
    proof {
        assert(s@.skip(0) =~= s@);
    }
    while i < s.len()
        invariant
            i <= s@.len(),
            spec_lookup(s@, k@) == spec_lookup(s@.skip(i as int), k@),
        decreases s@.len() - i,
    {
        proof {
            assert(s@.skip(i as int)[0] == s@[i as int]);
            assert(s@.skip(i as int).drop_first() =~= s@.skip(i + 1));
        }
        if bytes_eq(s[i].0.as_slice(), k) {
            return Some(&s[i].1);
        }
        i = i + 1;
    }
    proof {
        assert(s@.skip(s@.len() as int).len() == 0);
    }
    None
}

/// Whether the table has an entry keyed `k`.
pub fn table_has_key<V>(s: &Vec<(Vec<u8>, V)>, k: &[u8]) -> (r: bool)
    ensures
        r == spec_has_key(s@, k@),
{
    match table_get(s, k) {
        Some(_) => true,
        None => false,
    }
}

/// Drop every entry keyed `k`, in place.
pub fn table_remove<V>(s: &mut Vec<(Vec<u8>, V)>, k: &[u8])
    ensures
        final(s)@ == spec_remove_key(old(s)@, k@),
{
    let ghost orig: Seq<(Vec<u8>, V)> = s@;
    let mut i: usize = s.len();
    while i > 0
        invariant
            i <= orig.len(),
            s@.len() >= i,
            s@.subrange(0, i as int) == orig.subrange(0, i as int),
            s@.skip(i as int) == spec_remove_key(orig.skip(i as int), k@),
        decreases i,
    {
        i = i - 1;
        proof {
            assert(s@.subrange(0, (i + 1) as int)[i as int] == s@[i as int]);
            assert(orig.subrange(0, (i + 1) as int)[i as int] == orig[i as int]);
            assert(s@[i as int] == orig[i as int]);
            assert(orig.skip(i as int)[0] == orig[i as int]);
            assert(orig.skip(i as int).drop_first() =~= orig.skip(i + 1));
        }
        let ghost before: Seq<(Vec<u8>, V)> = s@;
        if bytes_eq(s[i].0.as_slice(), k) {
            s.remove(i);
            proof {
                assert(s@.subrange(0, i as int) =~= orig.subrange(0, i as int));
                assert(s@.skip(i as int) =~= before.skip(i + 1));
                assert(s@.skip(i as int) == spec_remove_key(orig.skip(i as int), k@));
            }
        } else {
            proof {
                assert(s@.skip(i as int) =~= seq![orig[i as int]] + s@.skip(i + 1));
                assert(s@.skip(i as int) == spec_remove_key(orig.skip(i as int), k@));
            }
        }
    }
    proof {
        assert(s@.skip(0) =~= s@);
        assert(orig.skip(0) =~= orig);
    }
}

/// Drop every entry keyed `k` and hand back the value the lookup would have
/// given.
pub fn table_take<V>(s: &mut Vec<(Vec<u8>, V)>, k: &[u8]) -> (r: Option<V>)
    ensures
        final(s)@ == spec_remove_key(old(s)@, k@),
        r == spec_lookup(old(s)@, k@),
{
    let ghost orig: Seq<(Vec<u8>, V)> = s@;
    let mut r: Option<V> = None;
    let mut i: usize = s.len();
    while i > 0
        invariant
            i <= orig.len(),
            s@.len() >= i,
            s@.subrange(0, i as int) == orig.subrange(0, i as int),
            s@.skip(i as int) == spec_remove_key(orig.skip(i as int), k@),
            r == spec_lookup(orig.skip(i as int), k@),
        decreases i,
    {
        i = i - 1;
        proof {
            assert(s@.subrange(0, (i + 1) as int)[i as int] == s@[i as int]);
            assert(orig.subrange(0, (i + 1) as int)[i as int] == orig[i as int]);
            assert(s@[i as int] == orig[i as int]);
            assert(orig.skip(i as int)[0] == orig[i as int]);
            assert(orig.skip(i as int).drop_first() =~= orig.skip(i + 1));
        }
        let ghost before: Seq<(Vec<u8>, V)> = s@;
        if bytes_eq(s[i].0.as_slice(), k) {
            let e = s.remove(i);
            r = Some(e.1);
            proof {
                assert(s@.subrange(0, i as int) =~= orig.subrange(0, i as int));
                assert(s@.skip(i as int) =~= before.skip(i + 1));
                assert(s@.skip(i as int) == spec_remove_key(orig.skip(i as int), k@));
            }
        } else {
            proof {
                assert(s@.skip(i as int) =~= seq![orig[i as int]] + s@.skip(i + 1));
                assert(s@.skip(i as int) == spec_remove_key(orig.skip(i as int), k@));
            }
        }
    }
    proof {
        assert(s@.skip(0) =~= s@);
        assert(orig.skip(0) =~= orig);
    }
    r
}

/// Bind `k` to `v`, dropping any earlier binding of `k`.
pub fn table_insert<V>(s: &mut Vec<(Vec<u8>, V)>, k: Vec<u8>, v: V)
    ensures
        final(s)@ == seq![(k, v)] + spec_remove_key(old(s)@, k@),
{
    table_remove(s, k.as_slice());
    let ghost removed: Seq<(Vec<u8>, V)> = s@;
    s.insert(0, (k, v));
    proof {
        assert(s@ =~= seq![(k, v)] + removed);
    }
}

/// Keys of an association table are pairwise distinct.
pub open spec fn spec_keys_unique<V>(s: Seq<(Vec<u8>, V)>) -> bool {
    forall|i: int, j: int| 0 <= i < j < s.len() ==> (#[trigger] s[i]).0@ != (#[trigger] s[j]).0@
}

/// Names of a list are pairwise distinct.
pub open spec fn spec_names_unique(s: Seq<Vec<u8>>) -> bool {
    forall|i: int, j: int| 0 <= i < j < s.len() ==> (#[trigger] s[i])@ != (#[trigger] s[j])@
}

/// Whether every key is distinct from every other.
pub fn table_keys_unique<V>(s: &Vec<(Vec<u8>, V)>) -> (r: bool)
    ensures
        r == spec_keys_unique(s@),
{
    let mut i: usize = 0;
    while i < s.len()
        invariant
            i <= s@.len(),
            forall|a: int, b: int| 0 <= a < b < s@.len() && a < i ==> s@[a].0@ != s@[b].0@,
        decreases s@.len() - i,
    {
        let mut j: usize = i + 1;
        while j < s.len()
            invariant
                i < j <= s@.len() || (i + 1 == j && j > s@.len()),
                i < s@.len(),
                forall|b: int| i < b < j ==> s@[i as int].0@ != s@[b].0@,
            decreases s@.len() - j,
        {
            if bytes_eq(s[i].0.as_slice(), s[j].0.as_slice()) {
                return false;
            }
            j = j + 1;
        }
        i = i + 1;
    }
    true
}

/// Whether every name is distinct from every other.
pub fn names_unique(s: &Vec<Vec<u8>>) -> (r: bool)
    ensures
        r == spec_names_unique(s@),
{
    let mut i: usize = 0;
    while i < s.len()
        invariant
            i <= s@.len(),
            forall|a: int, b: int| 0 <= a < b < s@.len() && a < i ==> s@[a]@ != s@[b]@,
        decreases s@.len() - i,
    {
        let mut j: usize = i + 1;
        while j < s.len()
            invariant
                i < j <= s@.len() || (i + 1 == j && j > s@.len()),
                i < s@.len(),
                forall|b: int| i < b < j ==> s@[i as int]@ != s@[b]@,
            decreases s@.len() - j,
        {
            if bytes_eq(s[i].as_slice(), s[j].as_slice()) {
                return false;
            }
            j = j + 1;
        }
        i = i + 1;
    }
    true
}

/// Whether `n` is among the names.
pub open spec fn spec_name_present(s: Seq<Vec<u8>>, n: Seq<u8>) -> bool {
    exists|i: int| 0 <= i < s.len() && (#[trigger] s[i])@ == n
}

/// The names without every occurrence of `n`, order otherwise kept.
pub open spec fn spec_remove_name(s: Seq<Vec<u8>>, n: Seq<u8>) -> Seq<Vec<u8>>
    decreases s.len(),
{
    if s.len() == 0 {
        s
    } else if s[0]@ == n {
        spec_remove_name(s.drop_first(), n)
    } else {
        seq![s[0]] + spec_remove_name(s.drop_first(), n)
    }
}

/// Removal answers membership: the removed name is gone, every other name is
/// untouched.
pub proof fn lemma_name_present_remove(s: Seq<Vec<u8>>, n: Seq<u8>, n2: Seq<u8>)
    ensures
        spec_name_present(spec_remove_name(s, n), n2) == (n2 != n && spec_name_present(s, n2)),
    decreases s.len(),
{
    if s.len() == 0 {
        assert(!spec_name_present(s, n2));
    } else {
        lemma_name_present_remove(s.drop_first(), n, n2);
        let rest = spec_remove_name(s.drop_first(), n);
        if s[0]@ == n {
            if spec_name_present(s, n2) && n2 != n {
                let i = choose|i: int| 0 <= i < s.len() && (#[trigger] s[i])@ == n2;
                assert(s.drop_first()[i - 1] == s[i]);
            }
        } else {
            assert forall|j: int| 0 <= j < rest.len() implies (seq![s[0]] + rest)[j + 1] == rest[j]
                by {}
            if spec_name_present(s, n2) {
                let i = choose|i: int| 0 <= i < s.len() && (#[trigger] s[i])@ == n2;
                if i > 0 {
                    assert(s.drop_first()[i - 1] == s[i]);
                } else {
                    assert((seq![s[0]] + rest)[0] == s[0]);
                }
            }
            if spec_name_present(seq![s[0]] + rest, n2) {
                let i = choose|i: int|
                    0 <= i < (seq![s[0]] + rest).len() && (#[trigger] (seq![s[0]] + rest)[i])@
                        == n2;
                if i > 0 {
                    assert((seq![s[0]] + rest)[i] == rest[i - 1]);
                }
            }
        }
    }
}

/// Removal leaves something exactly when some other name was there.
pub proof fn lemma_remove_name_len_pos(s: Seq<Vec<u8>>, n: Seq<u8>)
    ensures
        (spec_remove_name(s, n).len() > 0) <==> (exists|i: int|
            0 <= i < s.len() && (#[trigger] s[i])@ != n),
    decreases s.len(),
{
    if s.len() == 0 {
    } else {
        lemma_remove_name_len_pos(s.drop_first(), n);
        if s[0]@ == n {
            if spec_remove_name(s, n).len() > 0 {
                let i = choose|i: int|
                    0 <= i < s.drop_first().len() && (#[trigger] s.drop_first()[i])@ != n;
                assert(s[i + 1] == s.drop_first()[i]);
            }
            if exists|i: int| 0 <= i < s.len() && (#[trigger] s[i])@ != n {
                let i = choose|i: int| 0 <= i < s.len() && (#[trigger] s[i])@ != n;
                assert(s.drop_first()[i - 1] == s[i]);
            }
        }
    }
}

/// Whether some name other than `n` is present.
pub fn names_other_than(s: &Vec<Vec<u8>>, n: &[u8]) -> (r: bool)
    ensures
        r == exists|i: int| 0 <= i < s@.len() && (#[trigger] s@[i])@ != n@,
{
    let mut i: usize = 0;
    while i < s.len()
        invariant
            i <= s@.len(),
            forall|j: int| 0 <= j < i ==> (#[trigger] s@[j])@ == n@,
        decreases s@.len() - i,
    {
        if !bytes_eq(s[i].as_slice(), n) {
            return true;
        }
        i = i + 1;
    }
    false
}

/// Whether `n` is among the names.
pub fn names_contain(s: &Vec<Vec<u8>>, n: &[u8]) -> (r: bool)
    ensures
        r == spec_name_present(s@, n@),
{
    let mut i: usize = 0;
    while i < s.len()
        invariant
            i <= s@.len(),
            forall|j: int| 0 <= j < i ==> (#[trigger] s@[j])@ != n@,
        decreases s@.len() - i,
    {
        if bytes_eq(s[i].as_slice(), n) {
            return true;
        }
        i = i + 1;
    }
    false
}

/// Drop every occurrence of `n`, in place.
pub fn names_remove(s: &mut Vec<Vec<u8>>, n: &[u8])
    ensures
        final(s)@ == spec_remove_name(old(s)@, n@),
{
    let ghost orig: Seq<Vec<u8>> = s@;
    let mut i: usize = s.len();
    while i > 0
        invariant
            i <= orig.len(),
            s@.len() >= i,
            s@.subrange(0, i as int) == orig.subrange(0, i as int),
            s@.skip(i as int) == spec_remove_name(orig.skip(i as int), n@),
        decreases i,
    {
        i = i - 1;
        proof {
            assert(s@.subrange(0, (i + 1) as int)[i as int] == s@[i as int]);
            assert(orig.subrange(0, (i + 1) as int)[i as int] == orig[i as int]);
            assert(s@[i as int] == orig[i as int]);
            assert(orig.skip(i as int)[0] == orig[i as int]);
            assert(orig.skip(i as int).drop_first() =~= orig.skip(i + 1));
        }
        let ghost before: Seq<Vec<u8>> = s@;
        if bytes_eq(s[i].as_slice(), n) {
            s.remove(i);
            proof {
                assert(s@.subrange(0, i as int) =~= orig.subrange(0, i as int));
                assert(s@.skip(i as int) =~= before.skip(i + 1));
                assert(s@.skip(i as int) == spec_remove_name(orig.skip(i as int), n@));
            }
        } else {
            proof {
                assert(s@.skip(i as int) =~= seq![orig[i as int]] + s@.skip(i + 1));
                assert(s@.skip(i as int) == spec_remove_name(orig.skip(i as int), n@));
            }
        }
    }
    proof {
        assert(s@.skip(0) =~= s@);
        assert(orig.skip(0) =~= orig);
    }
}

} // verus!

//! Peer candidates: merging the addresses the DNS seeds return, and the
//! fallback peers used when none answer.

use vstd::prelude::*;

verus! {

/// The addresses of `found` appended to `listed`, in order, skipping those
/// already listed.
pub open spec fn merge_unique(listed: Seq<Seq<char>>, found: Seq<Seq<char>>) -> Seq<Seq<char>>
    decreases found.len(),
{
    if found.len() == 0 {
        listed
    } else {
        let before = merge_unique(listed, found.drop_last());
        if before.contains(found.last()) {
            before
        } else {
            before.push(found.last())
        }
    }
}

/// No address occurs twice.
pub open spec fn no_duplicates(s: Seq<Seq<char>>) -> bool {
    forall|i: int, j: int| 0 <= i < s.len() && 0 <= j < s.len() && i != j ==> s[i] != s[j]
}

/// The texts of a list of strings.
pub open spec fn texts(v: Seq<String>) -> Seq<Seq<char>> {
    v.map_values(|s: String| s@)
}

fn contains_text(list: &Vec<String>, s: &String) -> (b: bool)
    ensures
        b == texts(list@).contains(s@),
{
    let n = list.len();
    let mut i: usize = 0;
    while i < n
        invariant
            i <= n,
            n == list@.len(),
            forall|j: int| 0 <= j < i ==> list@[j]@ != s@,
        decreases n - i,
    {
        if list[i] == *s {
            assert(texts(list@)[i as int] == s@);
            return true;
        }
        i = i + 1;
    }
    assert(!texts(list@).contains(s@)) by {
        if texts(list@).contains(s@) {
            let j = choose|j: int| 0 <= j < texts(list@).len() && texts(list@)[j] == s@;
            assert(list@[j]@ == s@);
        }
    }
    false
}

/// Appends the addresses of `found` not yet listed in `candidates`, in order.
pub fn add_unique(candidates: &mut Vec<String>, found: &Vec<String>)
    ensures
        texts(final(candidates)@) == merge_unique(texts(old(candidates)@), texts(found@)),
{
    let ghost start = texts(candidates@);
    let n = found.len();
    let mut i: usize = 0;
    while i < n
        invariant
            i <= n,
            n == found@.len(),
            texts(candidates@) == merge_unique(start, texts(found@).take(i as int)),
        decreases n - i,
    {
        let ghost f = texts(found@).take(i + 1);
        assert(f.drop_last() =~= texts(found@).take(i as int));
        assert(f.last() == found@[i as int]@);
        let present = contains_text(candidates, &found[i]);
        if !present {
            let ghost before = candidates@;
            candidates.push(found[i].clone());
            assert(texts(candidates@) =~= texts(before).push(found@[i as int]@));
        }
        i = i + 1;
    }
    assert(texts(found@).take(n as int) =~= texts(found@));
}

/// The candidates from every seed, each address once, in the order first seen.
pub fn unique_peers(per_seed: &Vec<Vec<String>>) -> (v: Vec<String>)
    ensures
        texts(v@) == per_seed@.fold_left(Seq::<Seq<char>>::empty(), |acc: Seq<Seq<char>>, found: Vec<String>| merge_unique(acc, texts(found@))),
{
    let mut candidates: Vec<String> = Vec::new();
    let n = per_seed.len();
    let mut i: usize = 0;
    assert(texts(candidates@) =~= Seq::<Seq<char>>::empty());
    while i < n
        invariant
            i <= n,
            n == per_seed@.len(),
            texts(candidates@) == per_seed@.take(i as int).fold_left(Seq::<Seq<char>>::empty(), |acc: Seq<Seq<char>>, found: Vec<String>| merge_unique(acc, texts(found@))),
        decreases n - i,
    {
        add_unique(&mut candidates, &per_seed[i]);
        assert(per_seed@.take(i + 1).drop_last() =~= per_seed@.take(i as int));
        i = i + 1;
    }
    assert(per_seed@.take(n as int) =~= per_seed@);
    candidates
}

/// The peers tried when no seed answers.
pub open spec fn fallback_peers() -> Seq<Seq<char>> {
    seq!["185.210.125.33:18333"@, "77.163.221.171:18333"@]
}

/// The candidates to try: those found, or the fallback peers when none was.
pub fn with_fallback(candidates: Vec<String>) -> (v: Vec<String>)
    ensures
        candidates@.len() > 0 ==> v@ == candidates@,
        candidates@.len() == 0 ==> texts(v@) == fallback_peers(),
{
    if candidates.len() > 0 {
        return candidates;
    }
    let mut v: Vec<String> = Vec::new();
    v.push("185.210.125.33:18333".to_owned());
    v.push("77.163.221.171:18333".to_owned());
    assert(texts(v@) =~= fallback_peers());
    v
}

} // verus!

verus! {

/// Merging keeps the list free of duplicates, keeps what was listed in
/// front, and leaves every found address listed.
pub proof fn lemma_merge_unique(listed: Seq<Seq<char>>, found: Seq<Seq<char>>)
    requires
        no_duplicates(listed),
    ensures
        no_duplicates(merge_unique(listed, found)),
        merge_unique(listed, found).take(listed.len() as int) == listed,
        listed.len() <= merge_unique(listed, found).len(),
        forall|i: int| 0 <= i < found.len() ==> merge_unique(listed, found).contains(#[trigger] found[i]),
        forall|a: Seq<char>| #[trigger] merge_unique(listed, found).contains(a) ==> listed.contains(a) || found.contains(a),
    decreases found.len(),
{
    if found.len() > 0 {
        let rest = found.drop_last();
        lemma_merge_unique(listed, rest);
        let before = merge_unique(listed, rest);
        let m = merge_unique(listed, found);
        if !before.contains(found.last()) {
            assert(m == before.push(found.last()));
            assert(m.take(listed.len() as int) =~= before.take(listed.len() as int));
            assert forall|i: int, j: int| 0 <= i < m.len() && 0 <= j < m.len() && i != j implies m[i] != m[j] by {
                if i == m.len() - 1 && j < m.len() - 1 {
                    assert(before.contains(before[j]));
                } else if j == m.len() - 1 && i < m.len() - 1 {
                    assert(before.contains(before[i]));
                }
            }
        }
        assert forall|i: int| 0 <= i < found.len() implies m.contains(#[trigger] found[i]) by {
            if i < found.len() - 1 {
                assert(rest[i] == found[i]);
                assert(before.contains(rest[i]));
                if !before.contains(found.last()) {
                    let k = choose|k: int| 0 <= k < before.len() && before[k] == rest[i];
                    assert(m[k] == found[i]);
                }
            } else if before.contains(found.last()) {
            } else {
                assert(m[m.len() - 1] == found[i]);
            }
        }
        assert forall|a: Seq<char>| #[trigger] m.contains(a) implies listed.contains(a) || found.contains(a) by {
            let k = choose|k: int| 0 <= k < m.len() && m[k] == a;
            if k < before.len() {
                assert(before[k] == a);
                assert(before.contains(a));
                if rest.contains(a) {
                    let r = choose|r: int| 0 <= r < rest.len() && rest[r] == a;
                    assert(found[r] == a);
                }
            } else {
                assert(found[found.len() - 1] == a);
            }
        }
    }
}

} // verus!

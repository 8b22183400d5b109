use vstd::prelude::*;

verus! {

/// `i` is the first position of `entries` whose name is `key`.
pub open spec fn first_match<V>(entries: Seq<(String, V)>, key: Seq<char>, i: int) -> bool {
    &&& 0 <= i < entries.len()
    &&& entries[i].0@ == key
    &&& forall|j: int| 0 <= j < i ==> entries[j].0@ != key
}

/// Some entry of `entries` is named `key`.
pub open spec fn has_key<V>(entries: Seq<(String, V)>, key: Seq<char>) -> bool {
    exists|i: int| 0 <= i < entries.len() && entries[i].0@ == key
}

/// The position of the first entry named `key`, if there is one. A list of
/// named entries stands for a map whose keys are the names; where a name
/// occurs more than once, its first entry is the one that counts.
pub fn find_key<V>(entries: &Vec<(String, V)>, key: &String) -> (r: Option<usize>)
    ensures
        match r {
            Some(i) => first_match(entries@, key@, i as int),
            None => !has_key(entries@, key@),
        },
{
    let mut i: usize = 0;
    while i < entries.len()
        invariant
            i <= entries@.len(),
            forall|j: int| 0 <= j < i ==> entries@[j].0@ != key@,
        decreases entries@.len() - i,
    {
        if entries[i].0 == *key {
            return Some(i);
        }
        i = i + 1;
    }
    None
}

/// Whether `x` occurs in `v`.
pub fn contains(v: &Vec<usize>, x: usize) -> (r: bool)
    ensures
        r == v@.contains(x),
{
    let mut i: usize = 0;
    while i < v.len()
        invariant
            i <= v@.len(),
            forall|j: int| 0 <= j < i ==> v@[j] != x,
        decreases v@.len() - i,
    {
        if v[i] == x {
            return true;
        }
        i = i + 1;
    }
    false
}

/// Adds to the set `set` (a list without repeats) every element of `items`
/// that it lacks, keeping what it held in front, in its order.
pub fn insert_all(set: &mut Vec<usize>, items: &Vec<usize>)
    ensures
        old(set)@.is_prefix_of(final(set)@),
        forall|x: usize| final(set)@.contains(x) <==> (old(set)@.contains(x) || items@.contains(x)),
        old(set)@.no_duplicates() ==> final(set)@.no_duplicates(),
{
    let ghost start = set@;
    let mut i: usize = 0;
    while i < items.len()
        invariant
            i <= items@.len(),
            start.is_prefix_of(set@),
            forall|x: usize| set@.contains(x) <==> (start.contains(x) || items@.take(i as int).contains(x)),
            start.no_duplicates() ==> set@.no_duplicates(),
        decreases items@.len() - i,
    {
        let x = items[i];
        let present = contains(set, x);
        let ghost before = set@;
        if !present {
            set.push(x);
        }
        let ghost seen = items@.take(i as int);
        let ghost seen_next = items@.take(i + 1);
        assert(seen_next =~= seen.push(x));
        assert(seen_next[i as int] == x);
        assert(set@ == before || set@ == before.push(x));
        assert forall|y: usize| set@.contains(y) implies (start.contains(y) || seen_next.contains(y)) by {
            if before.contains(y) {
                if seen.contains(y) {
                    let k = choose|k: int| 0 <= k < seen.len() && seen[k] == y;
                    assert(seen_next[k] == y);
                }
            } else {
                let k = choose|k: int| 0 <= k < set@.len() && set@[k] == y;
                assert(k == before.len());
                assert(y == x);
            }
        }
        assert forall|y: usize| (start.contains(y) || seen_next.contains(y)) implies set@.contains(y) by {
            if !start.contains(y) {
                let k = choose|k: int| 0 <= k < seen_next.len() && seen_next[k] == y;
                if k < i {
                    assert(seen[k] == y);
                } else {
                    assert(y == x);
                    if !present {
                        assert(set@[set@.len() - 1] == y);
                    }
                }
            }
            let in_before = start.contains(y) || seen.contains(y) || (y == x && present);
            if in_before {
                assert(before.contains(y));
                let k = choose|k: int| 0 <= k < before.len() && before[k] == y;
                assert(set@[k] == y);
            }
        }
        i = i + 1;
    }
    assert(items@.take(items@.len() as int) =~= items@);
}

/// The values of `s` whose occurrence in `known` is `in_known`, each once,
/// in the order they first occur in `s`.
pub open spec fn part_by_knowledge(s: Seq<usize>, known: Seq<usize>, in_known: bool) -> Seq<usize>
    decreases s.len(),
{
    if s.len() == 0 {
        Seq::empty()
    } else {
        let init = part_by_knowledge(s.drop_last(), known, in_known);
        if !s.drop_last().contains(s.last()) && known.contains(s.last()) == in_known {
            init.push(s.last())
        } else {
            init
        }
    }
}

/// Splits the values of `messages` by whether they occur in `known`: the
/// first list holds, once each, the values that `known` lacks, the second
/// those it holds, both in the order they first occur in `messages`.
pub fn split_by_knowledge(messages: &Vec<usize>, known: &Vec<usize>) -> (res: (Vec<usize>, Vec<usize>))
    ensures
        res.0@ == part_by_knowledge(messages@, known@, false),
        res.1@ == part_by_knowledge(messages@, known@, true),
        res.0@.no_duplicates(),
        res.1@.no_duplicates(),
        forall|x: usize| res.0@.contains(x) <==> (messages@.contains(x) && !known@.contains(x)),
        forall|x: usize| res.1@.contains(x) <==> (messages@.contains(x) && known@.contains(x)),
{
    let mut unknown: Vec<usize> = Vec::new();
    let mut shared: Vec<usize> = Vec::new();
    let mut i: usize = 0;
    while i < messages.len()
        invariant
            i <= messages@.len(),
            unknown@.no_duplicates(),
            shared@.no_duplicates(),
            forall|x: usize| unknown@.contains(x) <==> (messages@.take(i as int).contains(x) && !known@.contains(x)),
            forall|x: usize| shared@.contains(x) <==> (messages@.take(i as int).contains(x) && known@.contains(x)),
            unknown@ == part_by_knowledge(messages@.take(i as int), known@, false),
            shared@ == part_by_knowledge(messages@.take(i as int), known@, true),
        decreases messages@.len() - i,
    {
        let x = messages[i];
        assert(messages@.take(i + 1).drop_last() =~= messages@.take(i as int));
        assert(messages@.take(i + 1).last() == x);
        let ghost seen = messages@.take(i as int);
        let ghost seen_next = messages@.take(i + 1);
        assert(seen_next =~= seen.push(x));
        let ghost u0 = unknown@;
        let ghost s0 = shared@;
        let kx = contains(known, x);
        if kx {
            let present = contains(&shared, x);
            if !present {
                shared.push(x);
            }
        } else {
            let present = contains(&unknown, x);
            if !present {
                unknown.push(x);
            }
        }
        assert(kx ==> unknown@ == u0);
        assert(!kx ==> shared@ == s0);
        assert(unknown@ == u0 || (unknown@ == u0.push(x) && !kx));
        assert(shared@ == s0 || (shared@ == s0.push(x) && kx));
        assert forall|y: usize| seen_next.contains(y) <==> (seen.contains(y) || y == x) by {
            if seen.contains(y) {
                let k = choose|k: int| 0 <= k < seen.len() && seen[k] == y;
                assert(seen_next[k] == y);
            }
            if y == x {
                assert(seen_next[i as int] == y);
            }
            if seen_next.contains(y) && y != x {
                let k = choose|k: int| 0 <= k < seen_next.len() && seen_next[k] == y;
                assert(seen[k] == y);
            }
        }
        assert forall|y: usize| unknown@.contains(y) <==> (seen_next.contains(y) && !known@.contains(y)) by {
            if u0.contains(y) {
                let k = choose|k: int| 0 <= k < u0.len() && u0[k] == y;
                assert(unknown@[k] == y);
            }
            if unknown@.contains(y) && !u0.contains(y) {
                let k = choose|k: int| 0 <= k < unknown@.len() && unknown@[k] == y;
                assert(k == u0.len());
                assert(y == x);
            }
            if y == x && !kx && !u0.contains(y) {
                assert(unknown@[u0.len() as int] == y);
            }
        }
        assert forall|y: usize| shared@.contains(y) <==> (seen_next.contains(y) && known@.contains(y)) by {
            if s0.contains(y) {
                let k = choose|k: int| 0 <= k < s0.len() && s0[k] == y;
                assert(shared@[k] == y);
            }
            if shared@.contains(y) && !s0.contains(y) {
                let k = choose|k: int| 0 <= k < shared@.len() && shared@[k] == y;
                assert(k == s0.len());
                assert(y == x);
            }
            if y == x && kx && !s0.contains(y) {
                assert(shared@[s0.len() as int] == y);
            }
        }
        i = i + 1;
    }
    assert(messages@.take(messages@.len() as int) =~= messages@);
    (unknown, shared)
}

/// The elements of `s` whose pick in `picks` (same position) is `true`, in order.
pub open spec fn select(s: Seq<usize>, picks: Seq<bool>) -> Seq<usize>
    decreases s.len(),
{
    if s.len() == 0 {
        Seq::empty()
    } else {
        let init = select(s.drop_last(), picks.take(s.len() - 1));
        if picks[s.len() - 1] {
            init.push(s.last())
        } else {
            init
        }
    }
}

/// What `select` keeps comes from `s`, keeps `s` free of repeats, and is
/// all of `s` when every pick is `true`.
pub proof fn lemma_select(s: Seq<usize>, picks: Seq<bool>)
    requires
        picks.len() == s.len(),
    ensures
        forall|x: usize| select(s, picks).contains(x) ==> s.contains(x),
        s.no_duplicates() ==> select(s, picks).no_duplicates(),
        (forall|i: int| 0 <= i < picks.len() ==> picks[i]) ==> select(s, picks) == s,
    decreases s.len(),
{
    if s.len() > 0 {
        let init_s = s.drop_last();
        let init_p = picks.take(s.len() - 1);
        lemma_select(init_s, init_p);
        let sel = select(init_s, init_p);
        assert(select(s, picks) == if picks[s.len() - 1] { sel.push(s.last()) } else { sel });
        assert forall|x: usize| select(s, picks).contains(x) implies s.contains(x) by {
            if sel.contains(x) {
                assert(init_s.contains(x));
                let k = choose|k: int| 0 <= k < init_s.len() && init_s[k] == x;
                assert(s[k] == x);
            } else {
                assert(x == s.last());
                assert(s[s.len() - 1] == x);
            }
        }
        if s.no_duplicates() {
            assert(init_s.no_duplicates());
            if picks[s.len() - 1] {
                assert(!sel.contains(s.last())) by {
                    if sel.contains(s.last()) {
                        assert(init_s.contains(s.last()));
                        let k = choose|k: int| 0 <= k < init_s.len() && init_s[k] == s.last();
                        assert(s[k] == s[s.len() - 1]);
                    }
                }
            }
        }
        if forall|i: int| 0 <= i < picks.len() ==> picks[i] {
            assert forall|i: int| 0 <= i < init_p.len() implies init_p[i] by {
                assert(init_p[i] == picks[i]);
            }
            assert(sel == init_s);
            assert(s =~= init_s.push(s.last()));
        }
    }
}

/// The values of `kept` followed by those of `offered` whose pick (same
/// position in `picks`) is `true`.
pub fn keep_picked(kept: &Vec<usize>, offered: &Vec<usize>, picks: &Vec<bool>) -> (res: Vec<usize>)
    requires
        picks@.len() == offered@.len(),
    ensures
        res@ == kept@ + select(offered@, picks@),
{
    let mut res = kept.clone();
    assert(res@ =~= kept@);
    let mut i: usize = 0;
    while i < offered.len()
        invariant
            picks@.len() == offered@.len(),
            i <= offered@.len(),
            res@ == kept@ + select(offered@.take(i as int), picks@.take(i as int)),
        decreases offered@.len() - i,
    {
        let ghost before = res@;
        assert(offered@.take(i + 1).drop_last() =~= offered@.take(i as int));
        assert(picks@.take(i + 1).take(i as int) =~= picks@.take(i as int));
        if picks[i] {
            res.push(offered[i]);
        }
        assert(res@ =~= kept@ + select(offered@.take(i + 1), picks@.take(i + 1)));
        i = i + 1;
    }
    assert(offered@.take(offered@.len() as int) =~= offered@);
    assert(picks@.take(picks@.len() as int) =~= picks@);
    res
}

/// The values of `s`, each once, in the order they first occur.
pub open spec fn first_occurrences(s: Seq<usize>) -> Seq<usize>
    decreases s.len(),
{
    if s.len() == 0 {
        Seq::empty()
    } else {
        let init = first_occurrences(s.drop_last());
        if s.drop_last().contains(s.last()) {
            init
        } else {
            init.push(s.last())
        }
    }
}

/// `first_occurrences` keeps exactly the values of `s`, without repeats,
/// and leaves a list without repeats as it is.
pub proof fn lemma_first_occurrences(s: Seq<usize>)
    ensures
        forall|x: usize| first_occurrences(s).contains(x) <==> s.contains(x),
        first_occurrences(s).no_duplicates(),
        s.no_duplicates() ==> first_occurrences(s) == s,
    decreases s.len(),
{
    if s.len() > 0 {
        let init_s = s.drop_last();
        lemma_first_occurrences(init_s);
        let f = first_occurrences(init_s);
        assert(s =~= init_s.push(s.last()));
        let fs = first_occurrences(s);
        assert(fs == if init_s.contains(s.last()) { f } else { f.push(s.last()) });
        assert forall|x: usize| fs.contains(x) <==> s.contains(x) by {
            if f.contains(x) {
                let j = choose|j: int| 0 <= j < f.len() && f[j] == x;
                assert(fs[j] == x);
            }
            if s.contains(x) {
                let k = choose|k: int| 0 <= k < s.len() && s[k] == x;
                if k < s.len() - 1 {
                    assert(init_s[k] == x);
                    assert(init_s.contains(x));
                } else if !init_s.contains(x) {
                    assert(fs[f.len() as int] == x);
                } else {
                    assert(f.contains(x));
                }
            }
            if fs.contains(x) {
                if f.contains(x) {
                    assert(init_s.contains(x));
                    let k = choose|k: int| 0 <= k < init_s.len() && init_s[k] == x;
                    assert(s[k] == x);
                } else {
                    let k = choose|k: int| 0 <= k < fs.len() && fs[k] == x;
                    assert(x == s.last());
                    assert(s[s.len() - 1] == x);
                }
            }
        }
        if s.no_duplicates() {
            assert(init_s.no_duplicates());
            assert(!init_s.contains(s.last())) by {
                if init_s.contains(s.last()) {
                    let k = choose|k: int| 0 <= k < init_s.len() && init_s[k] == s.last();
                    assert(s[k] == s[s.len() - 1]);
                }
            }
        }
    }
}

/// The values of `v`, each once, in the order they first occur.
pub fn distinct(v: &Vec<usize>) -> (res: Vec<usize>)
    ensures
        res@ == first_occurrences(v@),
{
    let mut res: Vec<usize> = Vec::new();
    let mut i: usize = 0;
    while i < v.len()
        invariant
            i <= v@.len(),
            res@ == first_occurrences(v@.take(i as int)),
        decreases v@.len() - i,
    {
        let x = v[i];
        proof {
            lemma_first_occurrences(v@.take(i as int));
            assert(v@.take(i + 1).drop_last() =~= v@.take(i as int));
            assert(v@.take(i + 1).last() == x);
        }
        if !contains(&res, x) {
            res.push(x);
        }
        i = i + 1;
    }
    assert(v@.take(v@.len() as int) =~= v@);
    res
}

/// `part_by_knowledge` keeps, once each, exactly the values of `s` whose
/// occurrence in `known` is `in_known`.
pub proof fn lemma_part_by_knowledge(s: Seq<usize>, known: Seq<usize>, in_known: bool)
    ensures
        forall|x: usize| part_by_knowledge(s, known, in_known).contains(x) <==> (s.contains(x) && known.contains(x) == in_known),
        part_by_knowledge(s, known, in_known).no_duplicates(),
    decreases s.len(),
{
    if s.len() > 0 {
        let init_s = s.drop_last();
        lemma_part_by_knowledge(init_s, known, in_known);
        let f = part_by_knowledge(init_s, known, in_known);
        let ps = part_by_knowledge(s, known, in_known);
        let take = !init_s.contains(s.last()) && known.contains(s.last()) == in_known;
        assert(ps == if take { f.push(s.last()) } else { f });
        assert(s =~= init_s.push(s.last()));
        assert forall|x: usize| ps.contains(x) <==> (s.contains(x) && known.contains(x) == in_known) by {
            if f.contains(x) {
                let j = choose|j: int| 0 <= j < f.len() && f[j] == x;
                assert(ps[j] == x);
                assert(init_s.contains(x));
                let k = choose|k: int| 0 <= k < init_s.len() && init_s[k] == x;
                assert(s[k] == x);
            }
            if s.contains(x) && known.contains(x) == in_known {
                let k = choose|k: int| 0 <= k < s.len() && s[k] == x;
                if k < s.len() - 1 {
                    assert(init_s[k] == x);
                } else if !init_s.contains(x) {
                    assert(ps[f.len() as int] == x);
                }
            }
            if ps.contains(x) && !f.contains(x) {
                let k = choose|k: int| 0 <= k < ps.len() && ps[k] == x;
                assert(x == s.last());
                assert(s[s.len() - 1] == x);
            }
        }
    }
}

/// In a list without repeats, an element is picked by `select` exactly
/// when its own pick is `true`.
pub proof fn lemma_select_member(s: Seq<usize>, picks: Seq<bool>, j: int)
    requires
        picks.len() == s.len(),
        s.no_duplicates(),
        0 <= j < s.len(),
    ensures
        select(s, picks).contains(s[j]) <==> picks[j],
    decreases s.len(),
{
    let init_s = s.drop_last();
    let init_p = picks.take(s.len() - 1);
    let sel = select(init_s, init_p);
    lemma_select(init_s, init_p);
    assert(select(s, picks) == if picks[s.len() - 1] { sel.push(s.last()) } else { sel });
    if j < s.len() - 1 {
        lemma_select_member(init_s, init_p, j);
        assert(init_s[j] == s[j]);
        assert(init_p[j] == picks[j]);
        if picks[s.len() - 1] && s.last() == s[j] {
            assert(s[s.len() - 1] == s[j]);
        }
        if select(s, picks).contains(s[j]) && !sel.contains(s[j]) {
            let k = choose|k: int| 0 <= k < select(s, picks).len() && select(s, picks)[k] == s[j];
            assert(s[s.len() - 1] == s[j]);
        }
        if sel.contains(s[j]) {
            let k = choose|k: int| 0 <= k < sel.len() && sel[k] == s[j];
            assert(select(s, picks)[k] == s[j]);
        }
    } else {
        assert(!init_s.contains(s[j])) by {
            if init_s.contains(s[j]) {
                let k = choose|k: int| 0 <= k < init_s.len() && init_s[k] == s[j];
                assert(s[k] == s[j]);
            }
        }
        assert(!sel.contains(s[j]));
        if picks[j] {
            assert(select(s, picks)[sel.len() as int] == s[j]);
        } else if select(s, picks).contains(s[j]) {
            assert(sel.contains(s[j]));
        }
    }
}

} // verus!

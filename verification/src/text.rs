//! Character-level helpers for strings: comparison, ordering and searching.

use vstd::prelude::*;
use vstd::std_specs::iter::IteratorSpec;

verus! {

/// Strict lexicographic order on strings, character by character, where
/// characters are ordered by their code points.
pub open spec fn lex_less(a: Seq<char>, b: Seq<char>) -> bool
    decreases a.len(),
{
    if b.len() == 0 {
        false
    } else if a.len() == 0 {
        true
    } else if a[0] != b[0] {
        (a[0] as int) < (b[0] as int)
    } else {
        lex_less(a.skip(1), b.skip(1))
    }
}

/// Non-strict lexicographic order: `a` does not come after `b`.
pub open spec fn lex_le(a: Seq<char>, b: Seq<char>) -> bool {
    !lex_less(b, a)
}

/// No string comes before itself.
pub proof fn lemma_lex_less_irreflexive(a: Seq<char>)
    ensures
        !lex_less(a, a),
    decreases a.len(),
{
    if a.len() > 0 {
        lemma_lex_less_irreflexive(a.skip(1));
    }
}

/// Of two different strings exactly one comes before the other.
pub proof fn lemma_lex_less_total(a: Seq<char>, b: Seq<char>)
    ensures
        a != b ==> (lex_less(a, b) <==> !lex_less(b, a)),
        a == b ==> !lex_less(a, b) && !lex_less(b, a),
    decreases a.len(),
{
    if a == b {
        lemma_lex_less_irreflexive(a);
    } else if a.len() > 0 && b.len() > 0 {
        if a[0] == b[0] {
            assert(a.skip(1) != b.skip(1)) by {
                if a.skip(1) == b.skip(1) {
                    assert(a =~= seq![a[0]] + a.skip(1));
                    assert(b =~= seq![b[0]] + b.skip(1));
                }
            }
            lemma_lex_less_total(a.skip(1), b.skip(1));
        }
    } else if a.len() == 0 {
        assert(b.len() > 0) by {
            if b.len() == 0 {
                assert(a =~= b);
            }
        }
    }
}

/// The strict order is transitive.
pub proof fn lemma_lex_less_transitive(a: Seq<char>, b: Seq<char>, c: Seq<char>)
    requires
        lex_less(a, b),
        lex_less(b, c),
    ensures
        lex_less(a, c),
    decreases a.len(),
{
    if a.len() > 0 {
        if a[0] == b[0] && b[0] == c[0] {
            lemma_lex_less_transitive(a.skip(1), b.skip(1), c.skip(1));
        }
    }
}

/// The non-strict order is transitive.
pub proof fn lemma_lex_le_transitive(a: Seq<char>, b: Seq<char>, c: Seq<char>)
    requires
        lex_le(a, b),
        lex_le(b, c),
    ensures
        lex_le(a, c),
{
    lemma_lex_less_total(a, b);
    lemma_lex_less_total(b, c);
    lemma_lex_less_total(a, c);
    if a != b && b != c {
        if lex_less(c, a) {
            lemma_lex_less_transitive(c, a, b);
        }
    }
}

/// The characters of a string, in order.
pub fn to_chars(s: &str) -> (v: Vec<char>)
    ensures
        v@ == s@,
{
    let mut v: Vec<char> = Vec::new();
    let chars = s.chars();
    for c in it: chars
        invariant
            it.seq() == s@,
            v@ == it.seq().take(it.index()),
    {
        v.push(c);
    }
    v
}

/// Whether two strings hold the same characters.
pub fn str_eq(a: &str, b: &str) -> (r: bool)
    ensures
        r == (a@ == b@),
{
    let mut ia = a.chars();
    let mut ib = b.chars();
    loop
        invariant
            ia.obeys_prophetic_iter_laws(),
            ib.obeys_prophetic_iter_laws(),
            ia.decrease() is Some,
            (a@ == b@) == (ia.remaining() == ib.remaining()),
        decreases ia.decrease()->0,
    {
        let ghost ra = ia.remaining();
        let ghost rb = ib.remaining();
        let ca = ia.next();
        let cb = ib.next();
        match (ca, cb) {
            (None, None) => {
                assert(ra =~= rb);
                return true;
            },
            (Some(x), Some(y)) => {
                if x != y {
                    return false;
                }
                proof {
                    assert(ra =~= seq![x] + ra.drop_first());
                    assert(rb =~= seq![y] + rb.drop_first());
                }
            },
            _ => {
                return false;
            },
        }
    }
}

/// Whether `a` comes strictly before `b` in lexicographic order.
pub fn str_less(a: &str, b: &str) -> (r: bool)
    ensures
        r == lex_less(a@, b@),
{
    let mut ia = a.chars();
    let mut ib = b.chars();
    loop
        invariant
            ia.obeys_prophetic_iter_laws(),
            ib.obeys_prophetic_iter_laws(),
            ia.decrease() is Some,
            lex_less(a@, b@) == lex_less(ia.remaining(), ib.remaining()),
        decreases ia.decrease()->0,
    {
        let ghost ra = ia.remaining();
        let ghost rb = ib.remaining();
        let ca = ia.next();
        let cb = ib.next();
        match (ca, cb) {
            (_, None) => {
                return false;
            },
            (None, Some(_)) => {
                return true;
            },
            (Some(x), Some(y)) => {
                if x != y {
                    return x < y;
                }
                proof {
                    assert(ra.skip(1) =~= ra.drop_first());
                    assert(rb.skip(1) =~= rb.drop_first());
                }
            },
        }
    }
}


/// The position of the last `c` in `s`, or `-1` where `s` holds no `c`.
pub open spec fn last_index(s: Seq<char>, c: char) -> int
    decreases s.len(),
{
    if s.len() == 0 {
        -1
    } else if s.last() == c {
        s.len() - 1
    } else {
        last_index(s.drop_last(), c)
    }
}

/// The position of the first `c` in `s`, or `-1` where `s` holds no `c`.
pub open spec fn first_index(s: Seq<char>, c: char) -> int
    decreases s.len(),
{
    if s.len() == 0 {
        -1
    } else if s[0] == c {
        0
    } else {
        let rest = first_index(s.skip(1), c);
        if rest < 0 {
            -1
        } else {
            rest + 1
        }
    }
}

/// `last_index` finds a `c` after which no further `c` follows, and fails
/// only on strings without any.
pub proof fn lemma_last_index(s: Seq<char>, c: char)
    ensures
        -1 <= last_index(s, c) < s.len(),
        last_index(s, c) >= 0 ==> s[last_index(s, c)] == c,
        forall|k: int| last_index(s, c) < k < s.len() ==> s[k] != c,
    decreases s.len(),
{
    if s.len() > 0 && s.last() != c {
        let t = s.drop_last();
        lemma_last_index(t, c);
        assert forall|k: int| last_index(s, c) < k < s.len() implies s[k] != c by {
            if k < t.len() {
                assert(s[k] == t[k]);
            }
        }
    }
}

/// `first_index` finds a `c` before which no `c` stands, and fails only on
/// strings without any.
pub proof fn lemma_first_index(s: Seq<char>, c: char)
    ensures
        -1 <= first_index(s, c) < s.len(),
        first_index(s, c) >= 0 ==> s[first_index(s, c)] == c,
        first_index(s, c) >= 0 ==> forall|k: int| 0 <= k < first_index(s, c) ==> s[k] != c,
        first_index(s, c) < 0 ==> forall|k: int| 0 <= k < s.len() ==> s[k] != c,
    decreases s.len(),
{
    if s.len() > 0 && s[0] != c {
        let t = s.skip(1);
        lemma_first_index(t, c);
        let f = first_index(t, c);
        if f >= 0 {
            assert forall|k: int| 0 <= k < f + 1 implies s[k] != c by {
                if k > 0 {
                    assert(s[k] == t[k - 1]);
                }
            }
        } else {
            assert forall|k: int| 0 <= k < s.len() implies s[k] != c by {
                if k > 0 {
                    assert(s[k] == t[k - 1]);
                }
            }
        }
    }
}

/// Finds the last `c` among the first `end` characters.
pub fn find_last(chars: &Vec<char>, end: usize, c: char) -> (res: Option<usize>)
    requires
        end <= chars.len(),
    ensures
        match res {
            Some(i) => i < end && i as int == last_index(chars@.take(end as int), c),
            None => last_index(chars@.take(end as int), c) == -1,
        },
{
    let mut i: usize = end;
    while i > 0
        invariant
            i <= end <= chars.len(),
            last_index(chars@.take(end as int), c) == last_index(chars@.take(i as int), c),
        decreases i,
    {
        if chars[i - 1] == c {
            return Some(i - 1);
        }
        proof {
            assert(chars@.take(i as int).drop_last() =~= chars@.take(i - 1));
        }
        i -= 1;
    }
    None
}

/// Finds the first `c` at or after position `start`.
pub fn find_first(chars: &Vec<char>, start: usize, c: char) -> (res: Option<usize>)
    requires
        start <= chars.len(),
    ensures
        match res {
            Some(i) => start <= i < chars.len() && i - start == first_index(
                chars@.skip(start as int),
                c,
            ),
            None => first_index(chars@.skip(start as int), c) == -1,
        },
{
    let mut i: usize = start;
    while i < chars.len()
        invariant
            start <= i <= chars.len(),
            forall|k: int| start <= k < i ==> chars@[k] != c,
        decreases chars.len() - i,
    {
        if chars[i] == c {
            proof {
                lemma_first_index(chars@.skip(start as int), c);
                let f = first_index(chars@.skip(start as int), c);
                assert(chars@.skip(start as int)[i - start] == c);
                if f >= 0 && f < i - start {
                    assert(chars@.skip(start as int)[f] == chars@[start + f]);
                }
            }
            return Some(i);
        }
        i += 1;
    }
    proof {
        lemma_first_index(chars@.skip(start as int), c);
        let f = first_index(chars@.skip(start as int), c);
        if f >= 0 {
            assert(chars@.skip(start as int)[f] == chars@[start + f]);
        }
    }
    None
}


/// The contents of a list of strings.
pub open spec fn texts(v: Seq<String>) -> Seq<Seq<char>> {
    v.map_values(|s: String| s@)
}

/// Whether a list of strings is in ascending lexicographic order.
pub open spec fn sorted(s: Seq<Seq<char>>) -> bool {
    forall|i: int, j: int| 0 <= i < j < s.len() ==> lex_le(s[i], s[j])
}

/// The non-strict lexicographic order as a relation.
pub open spec fn lex_order() -> spec_fn(Seq<char>, Seq<char>) -> bool {
    |a: Seq<char>, b: Seq<char>| lex_le(a, b)
}

/// The strings of `s` in ascending lexicographic order, each as often as
/// in `s`.
pub open spec fn sorted_texts(s: Seq<Seq<char>>) -> Seq<Seq<char>> {
    s.sort_by(lex_order())
}

/// The lexicographic order is a total order.
pub proof fn lemma_lex_order_total()
    ensures
        vstd::relations::total_ordering(lex_order()),
{
    let r = lex_order();
    assert forall|a: Seq<char>| #[trigger] r(a, a) by {
        lemma_lex_less_irreflexive(a);
    }
    assert forall|a: Seq<char>, b: Seq<char>| #[trigger] r(a, b) && #[trigger] r(b, a) implies a
        == b by {
        lemma_lex_less_total(a, b);
    }
    assert forall|a: Seq<char>, b: Seq<char>| #[trigger] r(a, b) || #[trigger] r(b, a) by {
        lemma_lex_less_total(a, b);
    }
    assert forall|a: Seq<char>, b: Seq<char>, c: Seq<char>| #[trigger]
        r(a, b) && #[trigger] r(b, c) implies r(a, c) by {
        lemma_lex_le_transitive(a, b, c);
    }
}

/// `sorted_texts` gives a sorted list that holds every string as often as
/// the list it was given, and it is the only such list.
pub proof fn lemma_sorted_texts(s: Seq<Seq<char>>, r: Seq<Seq<char>>)
    ensures
        sorted(sorted_texts(s)),
        sorted_texts(s).to_multiset() == s.to_multiset(),
        sorted(r) && r.to_multiset() == s.to_multiset() ==> r == sorted_texts(s),
{
    lemma_lex_order_total();
    s.lemma_sort_by_ensures(lex_order());
    let t = sorted_texts(s);
    assert(vstd::relations::sorted_by(t, lex_order()));
    assert forall|i: int, j: int| 0 <= i < j < t.len() implies lex_le(t[i], t[j]) by {
        assert(lex_order()(t[i], t[j]));
    }
    if sorted(r) && r.to_multiset() == s.to_multiset() {
        assert forall|i: int, j: int| 0 <= i < j < r.len() implies (#[trigger] lex_order()(
            r[i],
            r[j],
        )) by {
            assert(lex_le(r[i], r[j]));
        }
        vstd::seq_lib::lemma_sorted_unique(r, t, lex_order());
    }
}

/// Whether `list` holds a string with the contents of `s`.
pub fn contains_text(list: &Vec<String>, s: &str) -> (r: bool)
    ensures
        r == texts(list@).contains(s@),
{
    let mut i: usize = 0;
    while i < list.len()
        invariant
            i <= list.len(),
            forall|k: int| 0 <= k < i ==> texts(list@)[k] != s@,
        decreases list.len() - i,
    {
        if str_eq(list[i].as_str(), s) {
            assert(texts(list@)[i as int] == s@);
            return true;
        }
        i += 1;
    }
    false
}

/// Sorts a list of strings into ascending lexicographic order. Each string
/// occurs in the result as often as before.
pub fn sort_strings(v: &mut Vec<String>)
    ensures
        texts(final(v)@) == sorted_texts(texts(old(v)@)),
        sorted(texts(final(v)@)),
        texts(final(v)@).to_multiset() == texts(old(v)@).to_multiset(),
{
    let mut i: usize = 0;
    while i < v.len()
        invariant
            i <= v.len(),
            sorted(texts(v@).take(i as int)),
            texts(v@).to_multiset() == texts(old(v)@).to_multiset(),
        decreases v.len() - i,
    {
        let ghost before = v@;
        let x = v.remove(i);
        let ghost rest = v@;
        let mut p: usize = i;
        while p > 0 && str_less(x.as_str(), v[p - 1].as_str())
            invariant
                p <= i <= v.len(),
                v@ == rest,
                forall|q: int| p <= q < i ==> lex_less(x@, #[trigger] texts(rest)[q]),
            decreases p,
        {
            p -= 1;
        }
        v.insert(p, x);
        proof {
            let t_before = texts(before);
            let t_rest = texts(rest);
            let t_after = texts(v@);
            assert(t_rest =~= t_before.remove(i as int));
            assert(t_after =~= t_rest.insert(p as int, x@));
            assert(t_before[i as int] == x@);
            vstd::seq_lib::to_multiset_remove(t_before, i as int);
            vstd::seq_lib::to_multiset_insert(t_rest, p as int, x@);
            vstd::seq_lib::to_multiset_contains(t_before, x@);
            assert(t_before.contains(x@));
            assert(t_after.to_multiset() =~= t_before.to_multiset());
            let prefix = t_after.take(i + 1);
            assert forall|a: int, b: int| 0 <= a < b < prefix.len() implies lex_le(
                prefix[a],
                prefix[b],
            ) by {
                let old_prefix = t_before.take(i as int);
                if b < p {
                    assert(prefix[a] == old_prefix[a] && prefix[b] == old_prefix[b]);
                } else if b == p {
                    // the element before the insertion point does not come after x
                    assert(prefix[p - 1] == t_rest[p - 1]);
                    assert(lex_le(t_rest[p - 1], x@));
                    if a < p - 1 {
                        assert(prefix[a] == old_prefix[a] && prefix[p - 1] == old_prefix[p - 1]);
                        lemma_lex_le_transitive(prefix[a], prefix[p - 1], x@);
                    }
                } else if a == p {
                    assert(prefix[b] == t_rest[b - 1]);
                    lemma_lex_less_total(x@, t_rest[b - 1]);
                } else if a < p {
                    assert(prefix[a] == old_prefix[a] && prefix[b] == old_prefix[b - 1]);
                } else {
                    assert(prefix[a] == old_prefix[a - 1] && prefix[b] == old_prefix[b - 1]);
                }
            }
        }
        i += 1;
    }
    proof {
        assert(texts(v@).take(v.len() as int) =~= texts(v@));
        lemma_sorted_texts(texts(old(v)@), texts(v@));
    }
}

/// The strings of `s`, each once, in the order in which they first occur.
pub open spec fn without_repeats(s: Seq<Seq<char>>) -> Seq<Seq<char>>
    decreases s.len(),
{
    if s.len() == 0 {
        Seq::empty()
    } else if without_repeats(s.drop_last()).contains(s.last()) {
        without_repeats(s.drop_last())
    } else {
        without_repeats(s.drop_last()).push(s.last())
    }
}

/// The strings of `s` as a sorted set: each once, in ascending
/// lexicographic order.
pub open spec fn sorted_set(s: Seq<Seq<char>>) -> Seq<Seq<char>> {
    sorted_texts(without_repeats(s))
}

/// `without_repeats` holds a string exactly if the list it was given holds
/// it.
pub proof fn lemma_without_repeats_contains(s: Seq<Seq<char>>, x: Seq<char>)
    ensures
        without_repeats(s).contains(x) <==> s.contains(x),
    decreases s.len(),
{
    if s.len() > 0 {
        let head = s.drop_last();
        let kept = without_repeats(head);
        let res = without_repeats(s);
        lemma_without_repeats_contains(head, x);
        if res.contains(x) {
            let k = choose|k: int| 0 <= k < res.len() && res[k] == x;
            if k < kept.len() {
                assert(kept[k] == x);
                assert(kept.contains(x));
                let j = choose|j: int| 0 <= j < head.len() && head[j] == x;
                assert(s[j] == x);
            } else {
                assert(s.last() == x);
            }
        }
        if s.contains(x) {
            let j = choose|j: int| 0 <= j < s.len() && s[j] == x;
            if j < head.len() {
                assert(head[j] == x);
                assert(kept.contains(x));
                let k = choose|k: int| 0 <= k < kept.len() && kept[k] == x;
                assert(res[k] == x);
            } else if kept.contains(x) {
                let k = choose|k: int| 0 <= k < kept.len() && kept[k] == x;
                assert(res[k] == x);
            } else {
                assert(res.last() == x);
            }
        }
    }
}

/// `without_repeats` holds no string twice, and holds the strings of the
/// list it was given.
pub proof fn lemma_without_repeats(s: Seq<Seq<char>>)
    ensures
        without_repeats(s).no_duplicates(),
        forall|x: Seq<char>| #[trigger] without_repeats(s).contains(x) <==> s.contains(x),
    decreases s.len(),
{
    assert forall|x: Seq<char>| #[trigger] without_repeats(s).contains(x) <==> s.contains(x) by {
        lemma_without_repeats_contains(s, x);
    }
    if s.len() > 0 {
        let kept = without_repeats(s.drop_last());
        let res = without_repeats(s);
        lemma_without_repeats(s.drop_last());
        assert forall|i: int, j: int| 0 <= i < res.len() && 0 <= j < res.len() && i != j implies res[i]
            != res[j] by {
            if i < kept.len() && j < kept.len() {
                assert(kept[i] != kept[j]);
            } else if i < kept.len() {
                assert(kept[i] == res[i]);
                assert(kept.contains(res[i]));
            } else if j < kept.len() {
                assert(kept[j] == res[j]);
                assert(kept.contains(res[j]));
            }
        }
    }
}

/// Two lists that hold no string twice, and hold the same strings, hold
/// every string as often as each other.
pub proof fn lemma_same_strings(a: Seq<Seq<char>>, b: Seq<Seq<char>>)
    requires
        a.no_duplicates(),
        b.no_duplicates(),
        forall|x: Seq<char>| #[trigger] a.contains(x) <==> b.contains(x),
    ensures
        a.to_multiset() == b.to_multiset(),
{
    a.lemma_multiset_has_no_duplicates();
    b.lemma_multiset_has_no_duplicates();
    assert forall|x: Seq<char>| a.to_multiset().count(x) == b.to_multiset().count(x) by {
        vstd::seq_lib::to_multiset_contains(a, x);
        vstd::seq_lib::to_multiset_contains(b, x);
        if a.contains(x) {
            assert(a.to_multiset().contains(x));
            assert(b.to_multiset().contains(x));
        }
    }
    assert(a.to_multiset() =~= b.to_multiset());
}

/// `sorted_set` gives a sorted list without duplicates that holds the
/// strings of the list it was given, and it is the only such list.
pub proof fn lemma_sorted_set(s: Seq<Seq<char>>, r: Seq<Seq<char>>)
    ensures
        sorted(sorted_set(s)),
        sorted_set(s).no_duplicates(),
        forall|x: Seq<char>| #[trigger] sorted_set(s).contains(x) <==> s.contains(x),
        sorted(r) && r.no_duplicates() && (forall|x: Seq<char>|
            #[trigger] r.contains(x) <==> s.contains(x)) ==> r == sorted_set(s),
{
    let w = without_repeats(s);
    let t = sorted_set(s);
    lemma_without_repeats(s);
    lemma_sorted_texts(w, r);
    w.lemma_multiset_has_no_duplicates();
    assert(t.to_multiset() == w.to_multiset());
    t.lemma_multiset_has_no_duplicates_conv();
    assert forall|x: Seq<char>| #[trigger] t.contains(x) <==> s.contains(x) by {
        vstd::seq_lib::to_multiset_contains(t, x);
        vstd::seq_lib::to_multiset_contains(w, x);
        lemma_without_repeats_contains(s, x);
    }
    if sorted(r) && r.no_duplicates() && (forall|x: Seq<char>|
        #[trigger] r.contains(x) <==> s.contains(x)) {
        assert forall|x: Seq<char>| #[trigger] r.contains(x) <==> w.contains(x) by {
            lemma_without_repeats_contains(s, x);
        }
        lemma_same_strings(r, w);
    }
}

/// Turns a list of strings into a sorted set: the strings are put in
/// ascending lexicographic order, and of strings that occur more than once
/// one stays.
pub fn sort_set(v: &mut Vec<String>)
    ensures
        texts(final(v)@) == sorted_set(texts(old(v)@)),
        sorted(texts(final(v)@)),
        texts(final(v)@).no_duplicates(),
        forall|x: Seq<char>|
            #[trigger] texts(final(v)@).contains(x) <==> texts(old(v)@).contains(x),
{
    sort_strings(v);
    let ghost all = texts(v@);
    let mut kept: Vec<String> = Vec::new();
    let mut i: usize = 0;
    while i < v.len()
        invariant
            i <= v.len(),
            all == texts(v@),
            sorted(all),
            sorted(texts(kept@)),
            texts(kept@).no_duplicates(),
            forall|x: Seq<char>|
                #[trigger] texts(kept@).contains(x) <==> all.take(i as int).contains(x),
            i > 0 ==> kept.len() > 0 && texts(kept@).last() == all[i - 1],
            i == 0 ==> kept.len() == 0,
        decreases v.len() - i,
    {
        let ghost before = texts(kept@);
        let ghost x = all[i as int];
        let fresh = if kept.len() == 0 {
            true
        } else {
            !str_eq(kept[kept.len() - 1].as_str(), v[i].as_str())
        };
        if fresh {
            kept.push(v[i].clone());
        }
        proof {
            let after = texts(kept@);
            let seen = all.take(i as int);
            let seen_now = all.take(i + 1);
            assert(seen_now.drop_last() =~= seen);
            assert(seen_now.last() == x);
            if fresh {
                assert(after =~= before.push(x));
                // no string that was kept equals the one that is added
                assert forall|j: int| 0 <= j < before.len() implies before[j] != x by {
                    if before[j] == x {
                        assert(i > 0);
                        let last = before.last();
                        assert(lex_le(before[j], last)) by {
                            if j < before.len() - 1 {
                                assert(lex_le(before[j], before[before.len() - 1]));
                            } else {
                                lemma_lex_less_irreflexive(last);
                            }
                        }
                        assert(lex_le(all[i - 1], all[i as int]));
                        lemma_lex_less_total(x, last);
                    }
                }
                assert forall|a: int, b: int| 0 <= a < b < after.len() implies lex_le(
                    after[a],
                    after[b],
                ) by {
                    if b < before.len() {
                        assert(lex_le(before[a], before[b]));
                    } else if i > 0 {
                        let last = before.last();
                        assert(lex_le(all[i - 1], all[i as int]));
                        if a < before.len() - 1 {
                            assert(lex_le(before[a], before[before.len() - 1]));
                            lemma_lex_le_transitive(before[a], last, x);
                        }
                    }
                }
                assert forall|a: int, b: int|
                    0 <= a < after.len() && 0 <= b < after.len() && a != b implies after[a]
                    != after[b] by {
                    if a < before.len() && b < before.len() {
                        assert(before[a] != before[b]);
                    }
                }
            }
            assert forall|y: Seq<char>| #[trigger] after.contains(y) <==> seen_now.contains(y) by {
                if after.contains(y) {
                    let k = choose|k: int| 0 <= k < after.len() && after[k] == y;
                    if k < before.len() {
                        assert(before[k] == y);
                        assert(before.contains(y));
                        assert(seen.contains(y));
                        let j = choose|j: int| 0 <= j < seen.len() && seen[j] == y;
                        assert(seen_now[j] == y);
                    } else {
                        assert(seen_now[i as int] == y);
                    }
                }
                if seen_now.contains(y) {
                    let j = choose|j: int| 0 <= j < seen_now.len() && seen_now[j] == y;
                    if j < i {
                        assert(seen[j] == y);
                        assert(seen.contains(y));
                        assert(before.contains(y));
                        let k = choose|k: int| 0 <= k < before.len() && before[k] == y;
                        assert(after[k] == y);
                    } else {
                        assert(after.last() == y);
                    }
                }
            }
        }
        i += 1;
    }
    proof {
        assert(all.take(i as int) =~= all);
        let first = texts(old(v)@);
        assert forall|x: Seq<char>| #[trigger] texts(kept@).contains(x) <==> first.contains(x) by {
            vstd::seq_lib::to_multiset_contains(all, x);
            vstd::seq_lib::to_multiset_contains(first, x);
        }
        lemma_sorted_set(first, texts(kept@));
    }
    *v = kept;
}

} // verus!

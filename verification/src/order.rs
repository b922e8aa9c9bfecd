//! The order of texts: character by character, by code point, a proper prefix
//! before what it is a prefix of. This is the order in which strings sort.

use vstd::prelude::*;
use crate::text::chars_of;

verus! {

/// Whether `a` comes before `b`, given that they agree before position `i`.
pub open spec fn before_from(a: Seq<char>, b: Seq<char>, i: int) -> bool
    decreases a.len() - i,
{
    if i >= b.len() {
        false
    } else if i >= a.len() {
        true
    } else if a[i] != b[i] {
        a[i] < b[i]
    } else {
        before_from(a, b, i + 1)
    }
}

/// Whether `a` comes strictly before `b`.
pub open spec fn text_before(a: Seq<char>, b: Seq<char>) -> bool {
    before_from(a, b, 0)
}

/// No text comes before itself.
pub proof fn lemma_before_irreflexive(a: Seq<char>, i: int)
    requires
        0 <= i,
    ensures
        !before_from(a, a, i),
    decreases a.len() - i,
{
    if i < a.len() {
        lemma_before_irreflexive(a, i + 1);
    }
}

/// What comes before a text comes before all that the text comes before.
pub proof fn lemma_before_transitive(a: Seq<char>, b: Seq<char>, c: Seq<char>, i: int)
    requires
        0 <= i,
        before_from(a, b, i),
        before_from(b, c, i),
    ensures
        before_from(a, c, i),
    decreases a.len() - i,
{
    if i < a.len() && i < b.len() && i < c.len() && a[i] == b[i] && b[i] == c[i] {
        lemma_before_transitive(a, b, c, i + 1);
    }
}

/// Of two different texts that agree before `i`, one comes before the other.
pub proof fn lemma_before_total(a: Seq<char>, b: Seq<char>, i: int)
    requires
        0 <= i <= a.len(),
        i <= b.len(),
        a.subrange(0, i) == b.subrange(0, i),
        a != b,
    ensures
        before_from(a, b, i) || before_from(b, a, i),
    decreases a.len() - i,
{
    if i < a.len() && i < b.len() && a[i] == b[i] {
        assert(a.subrange(0, i + 1) =~= a.subrange(0, i).push(a[i]));
        assert(b.subrange(0, i + 1) =~= b.subrange(0, i).push(b[i]));
        lemma_before_total(a, b, i + 1);
    } else if i == a.len() && i == b.len() {
        assert(a =~= a.subrange(0, i));
        assert(b =~= b.subrange(0, i));
    }
}

/// The order is strict and total: no text comes before itself, of two different
/// texts exactly one comes first, and the order is transitive.
pub proof fn lemma_text_order(a: Seq<char>, b: Seq<char>, c: Seq<char>)
    ensures
        !text_before(a, a),
        a != b ==> text_before(a, b) || text_before(b, a),
        !(text_before(a, b) && text_before(b, a)),
        text_before(a, b) && text_before(b, c) ==> text_before(a, c),
{
    lemma_before_irreflexive(a, 0);
    if a != b {
        assert(a.subrange(0, 0) =~= b.subrange(0, 0));
        lemma_before_total(a, b, 0);
    }
    if text_before(a, b) && text_before(b, a) {
        lemma_before_transitive(a, b, a, 0);
    }
    if text_before(a, b) && text_before(b, c) {
        lemma_before_transitive(a, b, c, 0);
    }
}

/// Whether `a` comes strictly before `b`.
pub fn comes_before(a: &[char], b: &[char]) -> (r: bool)
    ensures
        r == text_before(a@, b@),
{
    let mut i: usize = 0;
    while i < a.len() && i < b.len() && a[i] == b[i]
        invariant
            i <= a.len(),
            i <= b.len(),
            text_before(a@, b@) == before_from(a@, b@, i as int),
        decreases a.len() - i,
    {
        i = i + 1;
    }
    if i >= b.len() {
        false
    } else if i >= a.len() {
        true
    } else {
        a[i] < b[i]
    }
}

/// Whether `s` is one of the texts of `list`.
pub open spec fn listed(list: Seq<Seq<char>>, s: Seq<char>) -> bool {
    exists|j: int| 0 <= j < list.len() && list[j] == s
}

/// Whether every text of `list` comes before `s`.
pub open spec fn all_before(list: Seq<Seq<char>>, s: Seq<char>) -> bool {
    forall|j: int| 0 <= j < list.len() ==> text_before(#[trigger] list[j], s)
}

/// Whether each text of `list` comes before the next.
pub open spec fn ascending(list: Seq<Seq<char>>) -> bool {
    forall|i: int, j: int| 0 <= i < j < list.len() ==> text_before(list[i], list[j])
}

/// Whether `list` holds the first `limit` texts of `all` in their order, or all
/// of them where they are fewer.
pub open spec fn is_leading(list: Seq<Seq<char>>, all: Set<Seq<char>>, limit: nat) -> bool {
    &&& list.len() <= limit
    &&& ascending(list)
    &&& forall|j: int| 0 <= j < list.len() ==> all.contains(#[trigger] list[j])
    &&& forall|s: Seq<char>| #[trigger]
        all.contains(s) ==> listed(list, s) || (list.len() == limit && all_before(list, s))
}

/// The texts of some strings.
pub open spec fn texts_of(v: Seq<String>) -> Seq<Seq<char>> {
    Seq::new(v.len(), |i: int| v[i]@)
}

/// The texts of some character vectors.
pub open spec fn rows_of(v: Seq<Vec<char>>) -> Seq<Seq<char>> {
    Seq::new(v.len(), |i: int| v[i]@)
}

/// The set of the texts of `list`.
pub open spec fn set_of(list: Seq<Seq<char>>) -> Set<Seq<char>> {
    Set::new(|s: Seq<char>| listed(list, s))
}

/// Whether row `k` may follow row `last`: it comes after it, or there is none.
pub open spec fn may_follow(rows: Seq<Seq<char>>, last: Option<usize>, k: int) -> bool {
    last matches Some(l) ==> text_before(rows[l as int], rows[k])
}

/// The first of the rows that come after row `last`, or the first of all rows
/// where `last` is `None`.
#[verifier::rlimit(40)]
fn next_after(rows: &Vec<Vec<char>>, last: Option<usize>) -> (r: Option<usize>)
    requires
        last matches Some(l) ==> l < rows.len(),
    ensures
        match r {
            Some(b) => b < rows.len() && may_follow(rows_of(rows@), last, b as int) && forall|
                k: int,
            |
                0 <= k < rows.len() && may_follow(rows_of(rows@), last, k) ==> !text_before(
                    #[trigger] rows_of(rows@)[k],
                    rows_of(rows@)[b as int],
                ),
            None => forall|k: int| 0 <= k < rows.len() ==> !may_follow(rows_of(rows@), last, k),
        },
{
    let ghost all = rows_of(rows@);
    let mut best: Option<usize> = None;
    let mut i: usize = 0;
    while i < rows.len()
        invariant
            i <= rows.len(),
            all == rows_of(rows@),
            last matches Some(l) ==> l < rows.len(),
            match best {
                Some(b) => b < i && may_follow(all, last, b as int) && forall|k: int|
                    0 <= k < i && may_follow(all, last, k) ==> !text_before(
                        #[trigger] all[k],
                        all[b as int],
                    ),
                None => forall|k: int| 0 <= k < i ==> !may_follow(all, last, k),
            },
        decreases rows.len() - i,
    {
        let follows = match last {
            Some(l) => comes_before(rows[l].as_slice(), rows[i].as_slice()),
            None => true,
        };
        if follows {
            match best {
                Some(b) => {
                    if comes_before(rows[i].as_slice(), rows[b].as_slice()) {
                        assert forall|k: int| 0 <= k < i + 1 && may_follow(all, last, k) implies
                            !text_before(#[trigger] all[k], all[i as int]) by {
                            lemma_text_order(all[k], all[i as int], all[b as int]);
                        }
                        best = Some(i);
                    }
                },
                None => {
                    assert forall|k: int| 0 <= k < i + 1 && may_follow(all, last, k) implies
                        !text_before(#[trigger] all[k], all[i as int]) by {
                        lemma_text_order(all[i as int], all[i as int], all[i as int]);
                    }
                    best = Some(i);
                },
            }
        }
        i = i + 1;
    }
    best
}

/// The first `limit` of the given strings in their order, or all of them where
/// they are fewer.
#[verifier::rlimit(40)]
pub fn leading(items: &Vec<String>, limit: usize) -> (out: Vec<String>)
    ensures
        is_leading(texts_of(out@), set_of(texts_of(items@)), limit as nat),
{
    let ghost all = texts_of(items@);
    let mut rows: Vec<Vec<char>> = Vec::new();
    let mut n: usize = 0;
    while n < items.len()
        invariant
            n <= items.len(),
            rows.len() == n,
            forall|k: int| 0 <= k < n ==> (#[trigger] rows[k])@ == items[k]@,
        decreases items.len() - n,
    {
        rows.push(chars_of(items[n].as_str()));
        n = n + 1;
    }
    assert(rows_of(rows@) =~= all);
    let mut out: Vec<String> = Vec::new();
    let mut last: Option<usize> = None;
    while out.len() < limit
        invariant
            all == texts_of(items@),
            rows_of(rows@) == all,
            rows.len() == items.len(),
            out.len() <= limit,
            ascending(texts_of(out@)),
            forall|j: int| 0 <= j < out.len() ==> listed(all, #[trigger] texts_of(out@)[j]),
            match last {
                Some(l) => l < items.len() && out.len() > 0 && all[l as int] == out[out.len() - 1]@,
                None => out.len() == 0,
            },
            forall|k: int|
                0 <= k < all.len() ==> listed(texts_of(out@), #[trigger] all[k]) || all_before(
                    texts_of(out@),
                    all[k],
                ),
        ensures
            out.len() <= limit,
            ascending(texts_of(out@)),
            forall|j: int| 0 <= j < out.len() ==> listed(all, #[trigger] texts_of(out@)[j]),
            forall|k: int|
                0 <= k < all.len() ==> listed(texts_of(out@), #[trigger] all[k]) || (out.len()
                    == limit && all_before(texts_of(out@), all[k])),
        decreases limit - out.len(),
    {
        let ghost before = texts_of(out@);
        match next_after(&rows, last) {
            Some(b) => {
                let ghost x = all[b as int];
                assert(all_before(before, x)) by {
                    assert forall|j: int| 0 <= j < before.len() implies text_before(
                        #[trigger] before[j],
                        x,
                    ) by {
                        lemma_text_order(before[j], before[before.len() - 1], x);
                    }
                }
                out.push(items[b].clone());
                let ghost after = texts_of(out@);
                assert(after =~= before.push(x));
                assert(listed(all, after[out.len() - 1]));
                assert forall|k: int| 0 <= k < all.len() implies listed(after, #[trigger] all[k])
                    || all_before(after, all[k]) by {
                    if listed(before, all[k]) {
                        let j = choose|j: int| 0 <= j < before.len() && before[j] == all[k];
                        assert(after[j] == all[k]);
                    } else if all[k] == x {
                        assert(after[out.len() - 1] == all[k]);
                    } else {
                        assert(all_before(before, all[k]));
                        if before.len() > 0 {
                            assert(text_before(before[before.len() - 1], all[k]));
                        }
                        assert(may_follow(all, last, k));
                        lemma_text_order(all[k], x, x);
                        assert(text_before(x, all[k]));
                    }
                }
                last = Some(b);
            },
            None => {
                assert forall|k: int| 0 <= k < all.len() implies listed(
                    before,
                    #[trigger] all[k],
                ) by {
                    assert(!may_follow(all, last, k));
                    if !listed(before, all[k]) {
                        assert(all_before(before, all[k]));
                        assert(text_before(before[before.len() - 1], all[k]));
                    }
                }
                break ;
            },
        }
    }
    proof {
        let list = texts_of(out@);
        let set = set_of(all);
        assert forall|s: Seq<char>| #[trigger] set.contains(s) implies listed(list, s) || (
        list.len() == limit && all_before(list, s)) by {
            let k = choose|k: int| 0 <= k < all.len() && all[k] == s;
            assert(listed(list, all[k]) || (out.len() == limit && all_before(list, all[k])));
        }
        assert forall|j: int| 0 <= j < list.len() implies set.contains(#[trigger] list[j]) by {
            assert(listed(all, texts_of(out@)[j]));
        }
    }
    out
}

/// There is only one such list: two lists that both hold the first `limit`
/// texts of the same set are the same list.
pub proof fn lemma_leading_unique(
    a: Seq<Seq<char>>,
    b: Seq<Seq<char>>,
    all: Set<Seq<char>>,
    limit: nat,
)
    requires
        is_leading(a, all, limit),
        is_leading(b, all, limit),
    ensures
        a == b,
{
    if a.len() <= b.len() {
        lemma_leading_prefix(a, b, all, limit, a.len() as int);
        if a.len() < b.len() {
            let s = b[a.len() as int];
            assert(all.contains(s));
            if listed(a, s) {
                let j = choose|j: int| 0 <= j < a.len() && a[j] == s;
                assert(a[j] == b[j]);
                lemma_text_order(b[j], s, s);
            }
        }
        assert(a =~= b);
    } else {
        lemma_leading_prefix(b, a, all, limit, b.len() as int);
        let s = a[b.len() as int];
        assert(all.contains(s));
        if listed(b, s) {
            let j = choose|j: int| 0 <= j < b.len() && b[j] == s;
            assert(a[j] == b[j]);
            lemma_text_order(a[j], s, s);
        }
    }
}

/// Two such lists agree as far as both reach.
proof fn lemma_leading_prefix(
    a: Seq<Seq<char>>,
    b: Seq<Seq<char>>,
    all: Set<Seq<char>>,
    limit: nat,
    n: int,
)
    requires
        is_leading(a, all, limit),
        is_leading(b, all, limit),
        0 <= n <= a.len(),
        n <= b.len(),
    ensures
        forall|i: int| 0 <= i < n ==> a[i] == b[i],
    decreases n,
{
    if n > 0 {
        lemma_leading_prefix(a, b, all, limit, n - 1);
        let x = a[n - 1];
        let y = b[n - 1];
        assert(all.contains(x) && all.contains(y));
        if x != y {
            lemma_text_order(x, y, x);
            if text_before(x, y) {
                lemma_misplaced(b, a, all, limit, n - 1);
            } else {
                lemma_misplaced(a, b, all, limit, n - 1);
            }
        }
    }
}

/// If two such lists agree before position `p`, what the second holds at `p`
/// does not come before what the first holds there.
proof fn lemma_misplaced(
    a: Seq<Seq<char>>,
    b: Seq<Seq<char>>,
    all: Set<Seq<char>>,
    limit: nat,
    p: int,
)
    requires
        is_leading(a, all, limit),
        is_leading(b, all, limit),
        0 <= p < a.len(),
        p < b.len(),
        forall|i: int| 0 <= i < p ==> a[i] == b[i],
    ensures
        !text_before(b[p], a[p]),
{
    let s = b[p];
    assert(all.contains(s));
    if text_before(s, a[p]) {
        if listed(a, s) {
            let j = choose|j: int| 0 <= j < a.len() && a[j] == s;
            if j < p {
                assert(b[j] == s);
                lemma_text_order(b[j], s, s);
            } else if j == p {
                lemma_text_order(s, s, s);
            } else {
                lemma_text_order(a[p], s, a[p]);
            }
        } else {
            assert(text_before(a[p], s));
            lemma_text_order(a[p], s, a[p]);
        }
    }
}

} // verus!

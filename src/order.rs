//! The order of stored text by code point, as the database sorts it, and
//! the latest entry of a list of timestamps.

use vstd::prelude::*;
use crate::text::chars_of;

verus! {

/// `a` sorts strictly before `b`, character by character, a proper prefix
/// first.
pub open spec fn text_less(a: Seq<char>, b: Seq<char>) -> bool
    decreases a.len(),
{
    if b.len() == 0 {
        false
    } else if a.len() == 0 {
        true
    } else if a[0] != b[0] {
        a[0] < b[0]
    } else {
        text_less(a.drop_first(), b.drop_first())
    }
}

/// Of two texts, one sorts before the other unless they are equal.
pub proof fn lemma_text_total(a: Seq<char>, b: Seq<char>)
    ensures
        text_less(a, b) || text_less(b, a) || a == b,
        !(text_less(a, b) && text_less(b, a)),
    decreases a.len(),
{
    if a.len() > 0 && b.len() > 0 && a[0] == b[0] {
        lemma_text_total(a.drop_first(), b.drop_first());
        if a.drop_first() == b.drop_first() {
            assert(a =~= seq![a[0]] + a.drop_first());
            assert(b =~= seq![b[0]] + b.drop_first());
        }
    } else if a.len() == 0 && b.len() == 0 {
        assert(a =~= b);
    }
}

/// Sorting before is transitive.
pub proof fn lemma_text_transitive(a: Seq<char>, b: Seq<char>, c: Seq<char>)
    requires
        text_less(a, b),
        text_less(b, c),
    ensures
        text_less(a, c),
    decreases a.len(),
{
    if a.len() > 0 && b.len() > 0 && c.len() > 0 && a[0] == b[0] && b[0] == c[0] {
        lemma_text_transitive(a.drop_first(), b.drop_first(), c.drop_first());
    }
}

/// Whether `a` sorts strictly before `b`.
pub fn text_before(a: &str, b: &str) -> (r: bool)
    ensures
        r == text_less(a@, b@),
{
    let x = chars_of(a);
    let y = chars_of(b);
    let mut i: usize = 0;
    assert(a@.skip(0) =~= a@);
    assert(b@.skip(0) =~= b@);
    while i < x.len() && i < y.len()
        invariant
            x@ == a@,
            y@ == b@,
            i <= x@.len(),
            i <= y@.len(),
            text_less(a@, b@) == text_less(a@.skip(i as int), b@.skip(i as int)),
        decreases x.len() - i,
    {
        if x[i] != y[i] {
            return x[i] < y[i];
        }
        assert(a@.skip(i as int).drop_first() =~= a@.skip(i + 1));
        assert(b@.skip(i as int).drop_first() =~= b@.skip(i + 1));
        i = i + 1;
    }
    i < y.len()
}

/// Entry `r` is the latest of `keys`: none sorts after it, and every entry
/// before it sorts strictly before it.
pub open spec fn is_latest(keys: Seq<Seq<char>>, r: int) -> bool {
    &&& 0 <= r < keys.len()
    &&& forall|j: int| 0 <= j < keys.len() ==> !text_less(keys[r], #[trigger] keys[j])
    &&& forall|j: int| 0 <= j < r ==> text_less(#[trigger] keys[j], keys[r])
}

/// The views of a list of strings.
pub open spec fn views(s: Seq<String>) -> Seq<Seq<char>> {
    s.map_values(|x: String| x@)
}

/// The position of the latest of `keys` (the first of equal ones); none when
/// `keys` is empty.
pub fn latest_position(keys: &Vec<String>) -> (r: Option<usize>)
    ensures
        r is None <==> keys@.len() == 0,
        r matches Some(i) ==> is_latest(views(keys@), i as int),
{
    if keys.len() == 0 {
        return None;
    }
    let ghost k = views(keys@);
    let mut best: usize = 0;
    let mut i: usize = 1;
    proof {
        lemma_text_total(k[0], k[0]);
    }
    while i < keys.len()
        invariant
            k == views(keys@),
            1 <= i <= keys@.len(),
            best < i,
            forall|j: int| 0 <= j < i ==> !text_less(k[best as int], #[trigger] k[j]),
            forall|j: int| 0 <= j < best ==> text_less(#[trigger] k[j], k[best as int]),
        decreases keys.len() - i,
    {
        if text_before(keys[best].as_str(), keys[i].as_str()) {
            proof {
                assert forall|j: int| 0 <= j < i implies text_less(#[trigger] k[j], k[i as int]) by {
                    lemma_text_total(k[best as int], k[j]);
                    if text_less(k[j], k[best as int]) {
                        lemma_text_transitive(k[j], k[best as int], k[i as int]);
                    }
                }
                assert forall|j: int| 0 <= j <= i implies !text_less(k[i as int], #[trigger] k[j]) by {
                    lemma_text_total(k[j], k[i as int]);
                }
            }
            best = i;
        }
        i = i + 1;
    }
    Some(best)
}

/// Pair `a` sorts strictly before pair `b`: by the first text, then by the
/// second.
pub open spec fn pair_less(a: (Seq<char>, Seq<char>), b: (Seq<char>, Seq<char>)) -> bool {
    text_less(a.0, b.0) || (a.0 == b.0 && text_less(a.1, b.1))
}

/// Of two pairs, one sorts before the other unless they are equal.
pub proof fn lemma_pair_total(a: (Seq<char>, Seq<char>), b: (Seq<char>, Seq<char>))
    ensures
        pair_less(a, b) || pair_less(b, a) || a == b,
        !(pair_less(a, b) && pair_less(b, a)),
{
    lemma_text_total(a.0, b.0);
    lemma_text_total(a.1, b.1);
}

/// Sorting before is transitive on pairs.
pub proof fn lemma_pair_transitive(
    a: (Seq<char>, Seq<char>),
    b: (Seq<char>, Seq<char>),
    c: (Seq<char>, Seq<char>),
)
    requires
        pair_less(a, b),
        pair_less(b, c),
    ensures
        pair_less(a, c),
{
    lemma_text_total(a.0, b.0);
    lemma_text_total(b.0, c.0);
    if text_less(a.0, b.0) && text_less(b.0, c.0) {
        lemma_text_transitive(a.0, b.0, c.0);
    }
    if a.0 == b.0 && b.0 == c.0 {
        lemma_text_transitive(a.1, b.1, c.1);
    }
}

/// Entry `m` is the newest of `keys`: none sorts after it, and every entry
/// before it sorts strictly before it.
pub open spec fn is_first_newest(keys: Seq<(Seq<char>, Seq<char>)>, m: int) -> bool {
    &&& 0 <= m < keys.len()
    &&& forall|j: int| 0 <= j < keys.len() ==> !pair_less(keys[m], #[trigger] keys[j])
    &&& forall|j: int| 0 <= j < m ==> pair_less(#[trigger] keys[j], keys[m])
}

/// At most one entry is the newest.
pub proof fn lemma_first_newest_unique(keys: Seq<(Seq<char>, Seq<char>)>, a: int, b: int)
    requires
        is_first_newest(keys, a),
        is_first_newest(keys, b),
    ensures
        a == b,
{
    if a < b {
        assert(pair_less(keys[a], keys[b]));
    } else if b < a {
        assert(pair_less(keys[b], keys[a]));
    }
}

/// The views of a list of pairs of strings.
pub open spec fn pair_views(s: Seq<(String, String)>) -> Seq<(Seq<char>, Seq<char>)> {
    s.map_values(|x: (String, String)| (x.0@, x.1@))
}

/// Whether pair `a` sorts strictly before pair `b`.
fn pair_before(a: &(String, String), b: &(String, String)) -> (r: bool)
    ensures
        r == pair_less((a.0@, a.1@), (b.0@, b.1@)),
{
    if text_before(a.0.as_str(), b.0.as_str()) {
        return true;
    }
    let x = a.0.clone();
    let y = b.0.clone();
    x == y && text_before(a.1.as_str(), b.1.as_str())
}

/// The position of the newest of `keys` (the first of equal ones).
pub fn first_newest(keys: &Vec<(String, String)>) -> (r: usize)
    requires
        keys@.len() > 0,
    ensures
        is_first_newest(pair_views(keys@), r as int),
{
    let ghost k = pair_views(keys@);
    let mut best: usize = 0;
    let mut i: usize = 1;
    proof {
        lemma_pair_total(k[0], k[0]);
    }
    while i < keys.len()
        invariant
            k == pair_views(keys@),
            1 <= i <= keys@.len(),
            best < i,
            forall|j: int| 0 <= j < i ==> !pair_less(k[best as int], #[trigger] k[j]),
            forall|j: int| 0 <= j < best ==> pair_less(#[trigger] k[j], k[best as int]),
        decreases keys.len() - i,
    {
        if pair_before(&keys[best], &keys[i]) {
            proof {
                assert forall|j: int| 0 <= j < i implies pair_less(#[trigger] k[j], k[i as int]) by {
                    lemma_pair_total(k[best as int], k[j]);
                    if pair_less(k[j], k[best as int]) {
                        lemma_pair_transitive(k[j], k[best as int], k[i as int]);
                    }
                }
                assert forall|j: int| 0 <= j <= i implies !pair_less(k[i as int], #[trigger] k[j]) by {
                    lemma_pair_total(k[j], k[i as int]);
                }
            }
            best = i;
        }
        i = i + 1;
    }
    best
}

} // verus!

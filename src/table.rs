//! Operations shared by every table: lookup by key, copying, and removal of
//! the rows whose key starts with a prefix.

use vstd::prelude::*;
use crate::records::Row;
use crate::text::{has_prefix, starts_with, str_eq};

verus! {

broadcast use vstd::seq_lib::group_seq_properties;

/// No two rows of the table share a key.
pub open spec fn keys_unique<R: Row>(t: Seq<R>) -> bool {
    forall|i: int, j: int| 0 <= i < j < t.len() ==> t[i].key() != t[j].key()
}

/// Some row of the table has key `k`.
pub open spec fn has_key<R: Row>(t: Seq<R>, k: Seq<char>) -> bool {
    exists|i: int| 0 <= i < t.len() && t[i].key() == k
}

/// `r` is the row of the table with key `k`.
pub open spec fn row_with_key<R: Row>(t: Seq<R>, k: Seq<char>, r: R) -> bool {
    exists|i: int| 0 <= i < t.len() && t[i] == r && r.key() == k
}

/// The table without the rows whose key starts with `p`, in the same order.
pub open spec fn without_prefix<R: Row>(t: Seq<R>, p: Seq<char>) -> Seq<R> {
    t.filter(|r: R| !has_prefix(r.key(), p))
}

/// The rows of the table whose key starts with `p`, in the same order.
pub open spec fn with_prefix<R: Row>(t: Seq<R>, p: Seq<char>) -> Seq<R> {
    t.filter(|r: R| has_prefix(r.key(), p))
}

/// The position of the row with key `k`, if there is one.
pub fn position_of<R: Row>(t: &Vec<R>, k: &str) -> (r: Option<usize>)
    ensures
        r is None <==> !has_key(t@, k@),
        r matches Some(i) ==> i < t@.len() && t@[i as int].key() == k@,
{
    let mut i: usize = 0;
    while i < t.len()
        invariant
            i <= t@.len(),
            forall|j: int| 0 <= j < i ==> t@[j].key() != k@,
        decreases t.len() - i,
    {
        if str_eq(t[i].key_str(), k) {
            return Some(i);
        }
        i = i + 1;
    }
    None
}

/// A copy of the row with key `k`, if there is one.
pub fn find_row<R: Row>(t: &Vec<R>, k: &str) -> (r: Option<R>)
    ensures
        r is None <==> !has_key(t@, k@),
        r matches Some(x) ==> row_with_key(t@, k@, x),
{
    match position_of(t, k) {
        Some(i) => Some(t[i].duplicate()),
        None => None,
    }
}

/// A copy of the table.
pub fn copy_rows<R: Row>(t: &Vec<R>) -> (r: Vec<R>)
    ensures
        r@ == t@,
{
    let mut r: Vec<R> = Vec::new();
    let mut i: usize = 0;
    while i < t.len()
        invariant
            i <= t@.len(),
            r@ == t@.take(i as int),
        decreases t.len() - i,
    {
        r.push(t[i].duplicate());
        i = i + 1;
    }
    assert(r@ =~= t@);
    r
}

/// Copies of the rows whose key starts with `p`, in table order.
pub fn rows_with_prefix<R: Row>(t: &Vec<R>, p: &str) -> (r: Vec<R>)
    ensures
        r@ == with_prefix(t@, p@),
{
    let ghost f = |x: R| has_prefix(x.key(), p@);
    let mut r: Vec<R> = Vec::new();
    let mut i: usize = 0;
    while i < t.len()
        invariant
            i <= t@.len(),
            f == (|x: R| has_prefix(x.key(), p@)),
            r@ == t@.take(i as int).filter(f),
        decreases t.len() - i,
    {
        proof {
            assert(t@.take(i + 1) =~= t@.take(i as int).push(t@[i as int]));
            t@.take(i as int).lemma_filter_push(t@[i as int], f);
        }
        if starts_with(t[i].key_str(), p) {
            r.push(t[i].duplicate());
        }
        i = i + 1;
    }
    assert(t@.take(t@.len() as int) =~= t@);
    r
}

/// Removes the rows whose key starts with `p`, keeping the order of the rest.
pub fn remove_with_prefix<R: Row>(t: &mut Vec<R>, p: &str)
    ensures
        final(t)@ == without_prefix(old(t)@, p@),
{
    let ghost f = |x: R| !has_prefix(x.key(), p@);
    let ghost src = t@;
    let mut kept: Vec<R> = Vec::new();
    let mut i: usize = 0;
    while i < t.len()
        invariant
            i <= t@.len(),
            t@ == src,
            f == (|x: R| !has_prefix(x.key(), p@)),
            kept@ == src.take(i as int).filter(f),
        decreases t.len() - i,
    {
        proof {
            assert(src.take(i + 1) =~= src.take(i as int).push(src[i as int]));
            src.take(i as int).lemma_filter_push(src[i as int], f);
        }
        if !starts_with(t[i].key_str(), p) {
            kept.push(t[i].duplicate());
        }
        i = i + 1;
    }
    assert(src.take(src.len() as int) =~= src);
    *t = kept;
}

/// Removing rows keeps the keys unique.
pub proof fn lemma_filter_keeps_unique<R: Row>(t: Seq<R>, f: spec_fn(R) -> bool)
    requires
        keys_unique(t),
    ensures
        keys_unique(t.filter(f)),
    decreases t.len(),
{
    reveal(Seq::filter);
    if t.len() > 0 {
        let s = t.drop_last();
        assert(keys_unique(s));
        lemma_filter_keeps_unique(s, f);
        if f(t.last()) {
            let fs = s.filter(f);
            assert forall|j: int| 0 <= j < fs.len() implies fs[j].key() != t.last().key() by {
                assert(fs.contains(fs[j]));
                s.lemma_filter_contains_rev(f, fs[j]);
                let k = choose|k: int| 0 <= k < s.len() && s[k] == fs[j];
                assert(t[k] == s[k]);
            }
        }
    }
}

/// The table with `f` applied to the row with key `k`.
pub open spec fn update_where<R: Row>(t: Seq<R>, k: Seq<char>, f: spec_fn(R) -> R) -> Seq<R> {
    t.map_values(|r: R| if r.key() == k { f(r) } else { r })
}

/// With unique keys, updating the row with key `k` touches its one position.
pub proof fn lemma_update_where_at<R: Row>(t: Seq<R>, k: Seq<char>, f: spec_fn(R) -> R, i: int)
    requires
        keys_unique(t),
        0 <= i < t.len(),
        t[i].key() == k,
    ensures
        update_where(t, k, f) == t.update(i, f(t[i])),
{
    assert forall|j: int| 0 <= j < t.len() && j != i implies t[j].key() != k by {
        if j < i {
            assert(t[j].key() != t[i].key());
        } else {
            assert(t[i].key() != t[j].key());
        }
    }
    assert(update_where(t, k, f) =~= t.update(i, f(t[i])));
}

/// Updating a key that no row has leaves the table as it was.
pub proof fn lemma_update_where_absent<R: Row>(t: Seq<R>, k: Seq<char>, f: spec_fn(R) -> R)
    requires
        !has_key(t, k),
    ensures
        update_where(t, k, f) == t,
{
    assert(update_where(t, k, f) =~= t);
}

/// Replacing a row by one with the same key keeps the keys unique.
pub proof fn lemma_update_keeps_unique<R: Row>(t: Seq<R>, i: int, r: R)
    requires
        keys_unique(t),
        0 <= i < t.len(),
        r.key() == t[i].key(),
    ensures
        keys_unique(t.update(i, r)),
{
}

/// Appending a row with a new key keeps the keys unique.
pub proof fn lemma_push_keeps_unique<R: Row>(t: Seq<R>, r: R)
    requires
        keys_unique(t),
        !has_key(t, r.key()),
    ensures
        keys_unique(t.push(r)),
        has_key(t.push(r), r.key()),
{
    assert(t.push(r)[t.len() as int] == r);
    assert forall|i: int, j: int| 0 <= i < j < t.push(r).len() implies t.push(r)[i].key()
        != t.push(r)[j].key() by {
        if j == t.len() {
            assert(t.push(r)[i] == t[i]);
        }
    }
}

/// Whether no two rows of the table share a key.
pub fn unique_keys<R: Row>(t: &Vec<R>) -> (r: bool)
    ensures
        r == keys_unique(t@),
{
    let mut j: usize = 0;
    while j < t.len()
        invariant
            j <= t@.len(),
            forall|a: int, b: int| 0 <= a < b < j ==> t@[a].key() != t@[b].key(),
        decreases t.len() - j,
    {
        let mut i: usize = 0;
        while i < j
            invariant
                j < t@.len(),
                i <= j,
                forall|a: int, b: int| 0 <= a < b < j ==> t@[a].key() != t@[b].key(),
                forall|a: int| 0 <= a < i ==> t@[a].key() != t@[j as int].key(),
            decreases j - i,
        {
            if str_eq(t[i].key_str(), t[j].key_str()) {
                return false;
            }
            i = i + 1;
        }
        j = j + 1;
    }
    true
}

} // verus!

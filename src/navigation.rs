//! The reading order of sibling chapter folders: by the trailing number in
//! each title, ties kept in table order.

use vstd::prelude::*;
use crate::paths::{ordering_number, ordering_number_spec};
use crate::records::MangaFolder;

verus! {

/// The ordering numbers of a list of chapter folders.
pub open spec fn title_keys(s: Seq<MangaFolder>) -> Seq<u32> {
    s.map_values(|m: MangaFolder| ordering_number_spec(m.title@))
}

/// Entry `i` comes before entry `j`: a smaller number, or the same number
/// and an earlier position.
pub open spec fn precedes(keys: Seq<u32>, i: int, j: int) -> bool {
    keys[i] < keys[j] || (keys[i] == keys[j] && i < j)
}

/// Some entry comes after entry `c`.
pub open spec fn has_successor(keys: Seq<u32>, c: int) -> bool {
    exists|k: int| 0 <= k < keys.len() && precedes(keys, c, k)
}

/// Some entry comes before entry `c`.
pub open spec fn has_predecessor(keys: Seq<u32>, c: int) -> bool {
    exists|k: int| 0 <= k < keys.len() && precedes(keys, k, c)
}

/// Entry `j` comes right after entry `c`.
pub open spec fn is_successor(keys: Seq<u32>, c: int, j: int) -> bool {
    &&& 0 <= j < keys.len()
    &&& precedes(keys, c, j)
    &&& forall|k: int| 0 <= k < keys.len() && precedes(keys, c, k) ==> k == j || precedes(keys, j, k)
}

/// Entry `j` comes right before entry `c`.
pub open spec fn is_predecessor(keys: Seq<u32>, c: int, j: int) -> bool {
    &&& 0 <= j < keys.len()
    &&& precedes(keys, j, c)
    &&& forall|k: int| 0 <= k < keys.len() && precedes(keys, k, c) ==> k == j || precedes(keys, k, j)
}

/// The ordering number of each folder's title.
pub fn folder_keys(s: &Vec<MangaFolder>) -> (r: Vec<u32>)
    ensures
        r@ == title_keys(s@),
{
    let mut r: Vec<u32> = Vec::new();
    let mut i: usize = 0;
    while i < s.len()
        invariant
            i <= s@.len(),
            r@.len() == i,
            forall|j: int| 0 <= j < i ==> r@[j] == ordering_number_spec(#[trigger] s@[j].title@),
        decreases s.len() - i,
    {
        r.push(ordering_number(s[i].title.as_str()));
        i = i + 1;
    }
    assert(r@ =~= title_keys(s@));
    r
}

/// The position of the entry right after (`is_next`) or right before entry
/// `c` in the order of `keys`; none at either end.
pub fn adjacent_position(keys: &Vec<u32>, c: usize, is_next: bool) -> (r: Option<usize>)
    requires
        c < keys@.len(),
    ensures
        is_next ==> (r is None <==> !has_successor(keys@, c as int)),
        !is_next ==> (r is None <==> !has_predecessor(keys@, c as int)),
        r matches Some(j) ==> if is_next {
            is_successor(keys@, c as int, j as int)
        } else {
            is_predecessor(keys@, c as int, j as int)
        },
{
    let mut best: Option<usize> = None;
    let mut k: usize = 0;
    while k < keys.len()
        invariant
            c < keys@.len(),
            k <= keys@.len(),
            best is None ==> forall|m: int|
                0 <= m < k ==> !(if is_next {
                    precedes(keys@, c as int, m)
                } else {
                    precedes(keys@, m, c as int)
                }),
            best matches Some(b) ==> {
                &&& b < k
                &&& if is_next {
                    precedes(keys@, c as int, b as int)
                } else {
                    precedes(keys@, b as int, c as int)
                }
                &&& forall|m: int|
                    0 <= m < k && (if is_next {
                        precedes(keys@, c as int, m)
                    } else {
                        precedes(keys@, m, c as int)
                    }) ==> m == b || (if is_next {
                        precedes(keys@, b as int, m)
                    } else {
                        precedes(keys@, m, b as int)
                    })
            },
        decreases keys.len() - k,
    {
        let ck = keys[c];
        let kk = keys[k];
        let candidate = if is_next {
            ck < kk || (ck == kk && c < k)
        } else {
            kk < ck || (kk == ck && k < c)
        };
        if candidate {
            let better = match best {
                None => true,
                Some(b) => {
                    let bk = keys[b];
                    if is_next {
                        kk < bk || (kk == bk && k < b)
                    } else {
                        bk < kk || (bk == kk && b < k)
                    }
                },
            };
            if better {
                best = Some(k);
            }
        }
        k = k + 1;
    }
    best
}

} // verus!

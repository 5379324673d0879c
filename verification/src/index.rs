//! The page index: every directory entry parsed as a page key under the
//! session mode, sorted by the key order, with the persisted marker resolved
//! to a starting position. A parse failure or an unresolvable marker is fatal:
//! a partially indexed collection would silently corrupt navigation.

use vstd::prelude::*;
use crate::page::{key_eq, page_le, page_lt, page_lt_exec, parseable, spec_parse, Page};

verus! {

/// The sequence is sorted by the page-key order.
pub open spec fn sorted(s: Seq<Page>) -> bool {
    forall|i: int, j: int| 0 <= i < j < s.len() ==> page_le(#[trigger] s[i], #[trigger] s[j])
}

/// Sort a vector of page keys by the key order, keeping the multiset of keys.
pub fn sort_pages(v: &mut Vec<Page>)
    ensures
        sorted(final(v)@),
        final(v)@.to_multiset() == old(v)@.to_multiset(),
        final(v)@.len() == old(v)@.len(),
{
    broadcast use vstd::seq_lib::group_to_multiset_ensures;
    broadcast use vstd::seq_lib::to_multiset_insert;

    let ghost orig = v@;
    if v.len() <= 1 {
        return ;
    }
    let mut i: usize = 1;
    while i < v.len()
        invariant
            1 <= i <= v@.len(),
            v@.len() == orig.len(),
            v@.to_multiset() == orig.to_multiset(),
            sorted(v@.take(i as int)),
        decreases v@.len() - i,
    {
        let x = v[i];
        let ghost s = v@;
        let mut j: usize = i;
        loop
            invariant_except_break
                0 <= j <= i,
                i < v@.len(),
                v@ == s,
                x == s[i as int],
                forall|k: int| j <= k < i ==> page_lt(x, #[trigger] s[k]),
            ensures
                0 <= j <= i,
                v@ == s,
                forall|k: int| j <= k < i ==> page_lt(x, #[trigger] s[k]),
                j == 0 || !page_lt(x, s[j - 1]),
            decreases j,
        {
            if j == 0 {
                break ;
            }
            if !page_lt_exec(&x, &v[j - 1]) {
                break ;
            }
            j = j - 1;
        }
        let _ = v.remove(i);
        v.insert(j, x);
        proof {
            broadcast use vstd::multiset::group_multiset_axioms;

            let removed = s.remove(i as int);
            let inserted = removed.insert(j as int, x);
            assert(v@ == inserted);
            // the multiset of keys is unchanged
            vstd::seq_lib::to_multiset_remove(s, i as int);
            vstd::seq_lib::to_multiset_insert(removed, j as int, x);
            assert(s.contains(x)) by {
                assert(s[i as int] == x);
            }
            vstd::seq_lib::to_multiset_contains(s, x);
            assert(inserted.to_multiset() =~= s.to_multiset()) by {
                assert(inserted.to_multiset() == s.to_multiset().remove(x).insert(x));
                assert(s.to_multiset().count(x) > 0);
                assert(forall|y: Page|
                    s.to_multiset().remove(x).insert(x).count(y) == s.to_multiset().count(y));
            }
            // the sorted prefix grew by one
            assert forall|a: int, b: int| 0 <= a < b < i + 1 implies page_le(
                #[trigger] inserted[a],
                #[trigger] inserted[b],
            ) by {
                assert(forall|k: int| 0 <= k < i ==> removed[k] == s[k]);
                assert(forall|k: int| 0 <= k < j ==> inserted[k] == s[k]);
                assert(inserted[j as int] == x);
                assert(forall|k: int| j < k <= i ==> inserted[k] == s[k - 1]);
                assert(forall|a2: int, b2: int|
                    0 <= a2 < b2 < i ==> page_le(#[trigger] s[a2], #[trigger] s[b2])) by {
                    assert(forall|k: int| 0 <= k < i ==> s.take(i as int)[k] == s[k]);
                }
            }
            assert(sorted(v@.take(i + 1))) by {
                assert(forall|k: int| 0 <= k < i + 1 ==> v@.take(i + 1)[k] == inserted[k]);
            }
        }
        i = i + 1;
    }
    proof {
        assert(v@.take(v@.len() as int) =~= v@);
    }
}

/// Position of the first key equal to `key`, if any.
pub fn position_of(pages: &Vec<Page>, key: &Page) -> (r: Option<usize>)
    ensures
        match r {
            Some(i) => i < pages@.len() && pages@[i as int] == *key && forall|j: int|
                0 <= j < i ==> pages@[j] != *key,
            None => forall|j: int| 0 <= j < pages@.len() ==> pages@[j] != *key,
        },
{
    let mut i: usize = 0;
    while i < pages.len()
        invariant
            0 <= i <= pages@.len(),
            forall|j: int| 0 <= j < i ==> pages@[j] != *key,
        decreases pages@.len() - i,
    {
        if key_eq(&pages[i], key) {
            return Some(i);
        }
        i = i + 1;
    }
    None
}

/// Failure to build the index.
#[derive(Clone, Copy, PartialEq, Eq, Debug)]
pub enum IndexError {
    /// The marker or a directory entry is not a parseable token.
    Parse,
    /// Every token parsed, but the marker's key is not in the collection.
    MarkerNotFound,
}

/// The session mode that a marker selects: no separator means list mode.
pub open spec fn spec_list_mode(marker: Seq<u8>) -> bool {
    !marker.contains(0x2Du8)
}

/// Does the marker contain the page separator? Its absence selects list mode.
pub fn list_mode(marker: &[u8]) -> (r: bool)
    ensures
        r == spec_list_mode(marker@),
{
    let mut i: usize = 0;
    while i < marker.len()
        invariant
            0 <= i <= marker@.len(),
            forall|j: int| 0 <= j < i ==> marker@[j] != 0x2Du8,
        decreases marker@.len() - i,
    {
        if marker[i] == 0x2D {
            assert(marker@.contains(0x2Du8));
            return false;
        }
        i = i + 1;
    }
    true
}

/// Every entry is a parseable token under the given mode.
pub open spec fn all_parseable(entries: Seq<Vec<u8>>, is_list: bool) -> bool {
    forall|i: int| 0 <= i < entries.len() ==> parseable(#[trigger] entries[i]@, is_list)
}

/// The keys denoted by the entries, in entry order.
pub open spec fn parsed_keys(entries: Seq<Vec<u8>>, is_list: bool) -> Seq<Page> {
    entries.map_values(|e: Vec<u8>| spec_parse(e@, is_list))
}

/// The ordered page collection of one session: the sorted key sequence, the
/// current position, the session mode, and whether the current position has
/// already been persisted for the page being read.
pub struct PageIndex {
    pub pages: Vec<Page>,
    pub current: usize,
    pub is_list: bool,
    pub dont_save: bool,
}

impl PageIndex {
    /// The sequence is sorted and the current position is inside it.
    pub open spec fn wf(self) -> bool {
        &&& self.current < self.pages@.len()
        &&& sorted(self.pages@)
    }

    /// The key at the current position.
    pub open spec fn current_key(self) -> Page
        recommends
            self.wf(),
    {
        self.pages@[self.current as int]
    }
}

/// Build the index from a directory listing and the persisted marker.
///
/// The mode comes from the marker (separator present: paged, else list).
/// Every entry must parse — one bad entry fails the whole construction — and
/// the marker's key must occur among the parsed entries; `current` is the
/// first position holding it in the sorted sequence.
pub fn build_index(entries: &Vec<Vec<u8>>, marker: &[u8]) -> (r: Result<PageIndex, IndexError>)
    ensures
        ({
            let is_list = spec_list_mode(marker@);
            let ok_inputs = parseable(marker@, is_list) && all_parseable(entries@, is_list);
            let found = ok_inputs && parsed_keys(entries@, is_list).contains(
                spec_parse(marker@, is_list),
            );
            &&& r is Ok <==> found
            &&& r == Err::<PageIndex, IndexError>(IndexError::Parse) <==> !ok_inputs
            &&& r == Err::<PageIndex, IndexError>(IndexError::MarkerNotFound) <==> (ok_inputs
                && !found)
            &&& r is Ok ==> {
                let idx = r->Ok_0;
                &&& idx.wf()
                &&& idx.is_list == is_list
                &&& idx.dont_save == false
                &&& idx.pages@.len() == entries@.len()
                &&& idx.pages@.to_multiset() == parsed_keys(entries@, is_list).to_multiset()
                &&& idx.current_key() == spec_parse(marker@, is_list)
                &&& forall|j: int|
                    0 <= j < idx.current ==> idx.pages@[j] != spec_parse(marker@, is_list)
            }
        }),
{
    broadcast use vstd::seq_lib::group_to_multiset_ensures;

    let is_list = list_mode(marker);
    let marker_key = match Page::parse(marker, is_list) {
        Ok(k) => k,
        Err(_) => {
            return Err(IndexError::Parse);
        },
    };
    let mut pages: Vec<Page> = Vec::new();
    let mut i: usize = 0;
    while i < entries.len()
        invariant
            0 <= i <= entries@.len(),
            is_list == spec_list_mode(marker@),
            forall|j: int| 0 <= j < i ==> parseable(#[trigger] entries@[j]@, is_list),
            pages@ =~= parsed_keys(entries@, is_list).take(i as int),
        decreases entries@.len() - i,
    {
        match Page::parse(entries[i].as_slice(), is_list) {
            Ok(k) => {
                pages.push(k);
                proof {
                    assert(pages@ =~= parsed_keys(entries@, is_list).take(i as int + 1));
                }
            },
            Err(_) => {
                return Err(IndexError::Parse);
            },
        }
        i = i + 1;
    }
    proof {
        assert(pages@ =~= parsed_keys(entries@, is_list));
    }
    sort_pages(&mut pages);
    match position_of(&pages, &marker_key) {
        Some(current) => {
            proof {
                assert(pages@.contains(marker_key)) by {
                    assert(pages@[current as int] == marker_key);
                }
                vstd::seq_lib::to_multiset_contains(pages@, marker_key);
                vstd::seq_lib::to_multiset_contains(parsed_keys(entries@, is_list), marker_key);
            }
            Ok(PageIndex { pages, current, is_list, dont_save: false })
        },
        None => {
            proof {
                // absent from the sorted sequence means absent from the
                // original entry order as well: the multiset is shared
                let keys = parsed_keys(entries@, is_list);
                vstd::seq_lib::to_multiset_contains(pages@, marker_key);
                vstd::seq_lib::to_multiset_contains(keys, marker_key);
                if keys.contains(marker_key) {
                    assert(pages@.contains(marker_key));
                    let w = choose|w: int| 0 <= w < pages@.len() && pages@[w] == marker_key;
                    assert(false);
                }
            }
            Err(IndexError::MarkerNotFound)
        },
    }
}

} // verus!

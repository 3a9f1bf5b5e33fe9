//! Which entries of a directory the MLT collection tree shows, and in
//! what order.

use vstd::prelude::*;
use crate::paths::{ascii_lower, eq_ignore_ascii_case, is_mlt_file, is_mlt_path};
use crate::text::chars_of;

verus! {

/// A directory entry as the collection tree sees it.
#[derive(Debug, Clone, PartialEq, Eq)]
pub struct TreeEntry {
    /// The entry's file name.
    pub name: String,
    /// The entry's full path.
    pub path: String,
    /// The entry is a directory.
    pub is_dir: bool,
    /// The entry is a regular file.
    pub is_file: bool,
}

/// What `str::to_lowercase` makes of a string.
pub uninterp spec fn lowercase_of(s: Seq<char>) -> Seq<char>;

/// Every character of `s` is ASCII.
pub open spec fn all_ascii(s: Seq<char>) -> bool {
    forall|k: int| 0 <= k < s.len() ==> (s[k] as int) < 128
}

/// `s` with each ASCII letter in lower case and every other character as
/// it is, one for one.
pub open spec fn ascii_lowercase(s: Seq<char>) -> Seq<char> {
    Seq::new(s.len(), |k: int| ascii_lower(s[k]))
}

/// The name part of an entry's sort key, the name in lower case: on an
/// ASCII name every letter lowered in place, on any other name what
/// `str::to_lowercase` gives.
pub open spec fn name_key(name: Seq<char>) -> Seq<char> {
    if all_ascii(name) {
        ascii_lowercase(name)
    } else {
        lowercase_of(name)
    }
}

/// Calls `str::to_lowercase`. On an ASCII string it maps each character to
/// one character: 'A' to 'Z' to 'a' to 'z', the others as they are. What it
/// makes of other strings is only named (it follows Unicode, where a
/// character may lower to several and 'Σ' depends on its neighbours).
#[verifier::external_body]
fn lowercase(s: &str) -> (res: String)
    ensures
        res@ == lowercase_of(s@),
        all_ascii(s@) ==> res@ == ascii_lowercase(s@),
{
    s.to_lowercase()
}

/// The tree shows directories and MLT files.
pub open spec fn shown(e: TreeEntry) -> bool {
    e.is_dir || is_mlt_path(e.path@)
}

/// `a` comes before `b` in the order of characters.
pub open spec fn chars_before(a: Seq<char>, b: Seq<char>) -> bool
    decreases a.len(),
{
    if a.len() == 0 {
        b.len() > 0
    } else if b.len() == 0 {
        false
    } else if a[0] != b[0] {
        a[0] < b[0]
    } else {
        chars_before(a.drop_first(), b.drop_first())
    }
}

/// The sort key of an entry: directories before files, then by the name
/// in lower case.
pub open spec fn key_of(e: TreeEntry) -> (bool, Seq<char>) {
    (e.is_file, name_key(e.name@))
}

/// Key `a` comes before key `b`.
pub open spec fn key_before(a: (bool, Seq<char>), b: (bool, Seq<char>)) -> bool {
    (!a.0 && b.0) || (a.0 == b.0 && chars_before(a.1, b.1))
}

/// The entries that the tree shows, in their original order.
pub open spec fn shown_entries(entries: Seq<TreeEntry>) -> Seq<TreeEntry> {
    entries.filter(|e: TreeEntry| shown(e))
}

/// `p` lists each index below `n` exactly once.
pub open spec fn is_permutation(p: Seq<int>, n: nat) -> bool {
    &&& p.len() == n
    &&& forall|i: int| 0 <= i < n ==> 0 <= #[trigger] p[i] < n
    &&& forall|i: int, j: int| 0 <= i < j < n ==> p[i] != p[j]
}

/// `sorted` is `items` sorted by key, stably: a permutation `p` places
/// `items[p[i]]` at `i`, keys never go down, and items with equal keys
/// keep their order.
pub open spec fn is_stable_sort(sorted: Seq<TreeEntry>, items: Seq<TreeEntry>, p: Seq<int>) -> bool {
    &&& is_permutation(p, items.len())
    &&& sorted.len() == items.len()
    &&& forall|i: int| 0 <= i < sorted.len() ==> #[trigger] sorted[i] == items[p[i]]
    &&& forall|i: int, j: int|
        0 <= i < j < sorted.len() ==> !key_before(key_of(#[trigger] sorted[j]), key_of(#[trigger] sorted[i]))
    &&& forall|i: int, j: int|
        0 <= i < j < sorted.len() && key_of(#[trigger] sorted[i]) == key_of(#[trigger] sorted[j]) ==> p[i] < p[j]
}

/// On an ASCII name the sort key lowers every letter wherever it stands:
/// the key is as long as the name, and at each place it holds the lower
/// case of the name's character there.
pub proof fn lemma_name_key_lowers_every_letter(name: Seq<char>)
    requires
        all_ascii(name),
    ensures
        name_key(name).len() == name.len(),
        forall|k: int| 0 <= k < name.len() ==> #[trigger] name_key(name)[k] == ascii_lower(name[k]),
{
}

/// Two entries of the same kind whose ASCII names differ only in the case
/// of their letters have the same sort key.
pub proof fn lemma_case_blind_keys(a: TreeEntry, b: TreeEntry)
    requires
        a.is_file == b.is_file,
        all_ascii(a.name@),
        all_ascii(b.name@),
        eq_ignore_ascii_case(a.name@, b.name@),
    ensures
        key_of(a) == key_of(b),
{
    assert(ascii_lowercase(a.name@) =~= ascii_lowercase(b.name@));
}

/// In a sorted listing, of two entries of the same kind with ASCII names,
/// the later one's name in lower case never comes before the earlier one's.
pub proof fn lemma_sorted_by_lowercase_name(
    sorted: Seq<TreeEntry>,
    items: Seq<TreeEntry>,
    p: Seq<int>,
    i: int,
    j: int,
)
    requires
        is_stable_sort(sorted, items, p),
        0 <= i < j < sorted.len(),
        sorted[i].is_file == sorted[j].is_file,
        all_ascii(sorted[i].name@),
        all_ascii(sorted[j].name@),
    ensures
        !chars_before(ascii_lowercase(sorted[j].name@), ascii_lowercase(sorted[i].name@)),
{
    assert(!key_before(key_of(sorted[j]), key_of(sorted[i])));
}

proof fn lemma_chars_before_trans(a: Seq<char>, b: Seq<char>, c: Seq<char>)
    requires
        chars_before(a, b),
        chars_before(b, c),
    ensures
        chars_before(a, c),
    decreases a.len(),
{
    if a.len() > 0 && b.len() > 0 && c.len() > 0 && a[0] == b[0] && b[0] == c[0] {
        lemma_chars_before_trans(a.drop_first(), b.drop_first(), c.drop_first());
    }
}

proof fn lemma_chars_before_irrefl(a: Seq<char>)
    ensures
        !chars_before(a, a),
    decreases a.len(),
{
    if a.len() > 0 {
        lemma_chars_before_irrefl(a.drop_first());
    }
}

proof fn lemma_key_before_trans(a: (bool, Seq<char>), b: (bool, Seq<char>), c: (bool, Seq<char>))
    requires
        key_before(a, b),
        key_before(b, c),
    ensures
        key_before(a, c),
{
    if a.0 == b.0 && b.0 == c.0 {
        lemma_chars_before_trans(a.1, b.1, c.1);
    }
}

proof fn lemma_key_before_irrefl(a: (bool, Seq<char>))
    ensures
        !key_before(a, a),
{
    lemma_chars_before_irrefl(a.1);
}

/// Whether `a` comes before `b` in the order of characters.
fn chars_less(a: &Vec<char>, b: &Vec<char>) -> (r: bool)
    ensures
        r == chars_before(a@, b@),
{
    let mut i: usize = 0;
    assert(a@.skip(0) =~= a@ && b@.skip(0) =~= b@);
    while i < a.len() && i < b.len() && a[i] == b[i]
        invariant
            i <= a.len(),
            i <= b.len(),
            chars_before(a@, b@) == chars_before(a@.skip(i as int), b@.skip(i as int)),
        decreases a.len() - i,
    {
        proof {
            assert(a@.skip(i as int).drop_first() =~= a@.skip(i + 1));
            assert(b@.skip(i as int).drop_first() =~= b@.skip(i + 1));
        }
        i += 1;
    }
    if i == a.len() {
        i < b.len()
    } else if i == b.len() {
        false
    } else {
        proof {
            assert(a@.skip(i as int)[0] == a@[i as int]);
            assert(b@.skip(i as int)[0] == b@[i as int]);
        }
        a[i] < b[i]
    }
}

/// Whether key (`f1`, `n1`) comes before key (`f2`, `n2`).
fn key_less(f1: bool, n1: &Vec<char>, f2: bool, n2: &Vec<char>) -> (r: bool)
    ensures
        r == key_before((f1, n1@), (f2, n2@)),
{
    if !f1 && f2 {
        true
    } else if f1 == f2 {
        chars_less(n1, n2)
    } else {
        false
    }
}

proof fn lemma_insert_sorted(
    sorted: Seq<TreeEntry>,
    items: Seq<TreeEntry>,
    p: Seq<int>,
    e: TreeEntry,
    pos: int,
)
    requires
        is_stable_sort(sorted, items, p),
        0 <= pos <= sorted.len(),
        forall|j: int| 0 <= j < pos ==> !key_before(key_of(e), key_of(#[trigger] sorted[j])),
        pos < sorted.len() ==> key_before(key_of(e), key_of(sorted[pos])),
    ensures
        is_stable_sort(sorted.insert(pos, e), items.push(e), p.insert(pos, items.len() as int)),
{
    let m = items.len() as int;
    let s2 = sorted.insert(pos, e);
    let i2 = items.push(e);
    let p2 = p.insert(pos, m);
    let k = key_of(e);
    assert(forall|i: int| 0 <= i < pos ==> s2[i] == sorted[i] && p2[i] == p[i]);
    assert(s2[pos] == e && p2[pos] == m);
    assert(forall|i: int| pos < i < s2.len() ==> s2[i] == sorted[i - 1] && p2[i] == p[i - 1]);
    assert forall|i: int| 0 <= i < i2.len() implies 0 <= #[trigger] p2[i] < i2.len() by {
        if i != pos {
            let oi = if i < pos { i } else { i - 1 };
            assert(0 <= p[oi] < m);
        }
    }
    assert forall|i: int, j: int| 0 <= i < j < i2.len() implies p2[i] != p2[j] by {
        let oi = if i < pos { i } else { i - 1 };
        let oj = if j < pos { j } else { j - 1 };
        if i != pos && j != pos {
            assert(oi < oj);
            assert(p[oi] != p[oj]);
        } else if i == pos {
            assert(0 <= p[oj] < m);
        } else {
            assert(0 <= p[oi] < m);
        }
    }
    assert forall|i: int| 0 <= i < s2.len() implies #[trigger] s2[i] == i2[p2[i]] by {
        if i != pos {
            let oi = if i < pos { i } else { i - 1 };
            assert(sorted[oi] == items[p[oi]]);
            assert(0 <= p[oi] < m);
        }
    }
    assert forall|i: int, j: int|
        0 <= i < j < s2.len() implies !key_before(key_of(#[trigger] s2[j]), key_of(#[trigger] s2[i])) by {
        let oi = if i < pos { i } else { i - 1 };
        let oj = if j < pos { j } else { j - 1 };
        if i != pos && j != pos {
            assert(!key_before(key_of(sorted[oj]), key_of(sorted[oi])));
        } else if j == pos {
            assert(!key_before(k, key_of(sorted[oi])));
        } else {
            if key_before(key_of(sorted[oj]), k) {
                if oj == pos {
                    lemma_key_before_trans(k, key_of(sorted[pos]), k);
                    lemma_key_before_irrefl(k);
                } else {
                    lemma_key_before_trans(key_of(sorted[oj]), k, key_of(sorted[pos]));
                    assert(!key_before(key_of(sorted[oj]), key_of(sorted[pos])));
                }
            }
        }
    }
    assert forall|i: int, j: int|
        0 <= i < j < s2.len() && key_of(#[trigger] s2[i]) == key_of(#[trigger] s2[j]) implies p2[i] < p2[j] by {
        let oi = if i < pos { i } else { i - 1 };
        let oj = if j < pos { j } else { j - 1 };
        if i != pos && j != pos {
            assert(p[oi] < p[oj]);
        } else if j == pos {
            assert(0 <= p[oi] < m);
        } else {
            if oj == pos {
                lemma_key_before_irrefl(k);
            } else {
                assert(!key_before(key_of(sorted[oj]), key_of(sorted[pos])));
            }
        }
    }
}

/// The entries the collection tree shows, in the order it shows them:
/// directories and MLT files only, directories first, each group by name
/// in lower case, entries with equal keys in their original order.
pub fn order_tree_entries(entries: Vec<TreeEntry>) -> (ordered: Vec<TreeEntry>)
    ensures
        exists|p: Seq<int>| is_stable_sort(ordered@, shown_entries(entries@), p),
{
    let ghost all = entries@;
    let mut sorted: Vec<TreeEntry> = Vec::new();
    let mut keys: Vec<(bool, Vec<char>)> = Vec::new();
    let ghost mut p: Seq<int> = seq![];
    for e in it: entries.into_iter()
        invariant
            all == it.seq(),
            is_stable_sort(sorted@, shown_entries(it.seq().take(it.index() as int)), p),
            keys@.len() == sorted@.len(),
            forall|j: int| 0 <= j < keys@.len() ==> (#[trigger] keys@[j].0, keys@[j].1@) == key_of(sorted@[j]),
    {
        let ghost kept = shown_entries(it.seq().take(it.index() as int));
        proof {
            assert(it.seq().take(it.index() + 1) =~= it.seq().take(it.index() as int).push(e));
            it.seq().take(it.index() as int).lemma_filter_push(e, |x: TreeEntry| shown(x));
        }
        if e.is_dir || is_mlt_file(e.path.as_str()) {
            let f = e.is_file;
            let low = lowercase(e.name.as_str());
            let name = chars_of(low.as_str());
            let mut pos: usize = 0;
            while pos < keys.len() && !key_less(f, &name, keys[pos].0, &keys[pos].1)
                invariant
                    pos <= keys@.len() == sorted@.len(),
                    (f, name@) == key_of(e),
                    forall|j: int| 0 <= j < keys@.len() ==> (#[trigger] keys@[j].0, keys@[j].1@) == key_of(sorted@[j]),
                    forall|j: int| 0 <= j < pos ==> !key_before(key_of(e), key_of(#[trigger] sorted@[j])),
                decreases keys@.len() - pos,
            {
                assert((keys@[pos as int].0, keys@[pos as int].1@) == key_of(sorted@[pos as int]));
                pos += 1;
            }
            proof {
                if pos < keys@.len() {
                    assert((keys@[pos as int].0, keys@[pos as int].1@) == key_of(sorted@[pos as int]));
                }
                lemma_insert_sorted(sorted@, kept, p, e, pos as int);
                p = p.insert(pos as int, p.len() as int);
            }
            let ghost old_keys = keys@;
            let ghost old_sorted = sorted@;
            keys.insert(pos, (f, name));
            sorted.insert(pos, e);
            proof {
                assert forall|j: int| 0 <= j < keys@.len() implies (#[trigger] keys@[j].0, keys@[j].1@) == key_of(sorted@[j]) by {
                    if j < pos {
                        assert(keys@[j] == old_keys[j] && sorted@[j] == old_sorted[j]);
                    } else if j > pos {
                        assert(keys@[j] == old_keys[j - 1] && sorted@[j] == old_sorted[j - 1]);
                    }
                }
            }
        }
    }
    proof {
        assert(all.take(all.len() as int) =~= all);
    }
    sorted
}

} // verus!

//! The display order of a directory's children: directories first, then by
//! logical size descending, case-folded name, exact name, and id.

use crate::graph::{CompactEntry, EntryKind};
use vstd::prelude::*;

verus! {

/// The case-folded (lowercase) form of a name, as std's `str::to_lowercase` computes it.
pub uninterp spec fn lowercase_of(s: Seq<char>) -> Seq<char>;

/// Calls `str::to_lowercase`: the Unicode lowercase mapping of every
/// character, a function of the input alone. What that mapping is per
/// character is left unstated: it is std's Unicode table.
#[verifier::external_body]
pub(crate) fn to_lowercase(s: &str) -> (r: String)
    ensures
        r@ == lowercase_of(s@),
{
    s.to_lowercase()
}

/// Lexicographic order of character sequences by code point (which is also
/// the byte order of their UTF-8 encodings).
pub open spec fn chars_lt(a: Seq<char>, b: Seq<char>) -> bool
    decreases a.len(),
{
    if a.len() == 0 {
        b.len() > 0
    } else if b.len() == 0 {
        false
    } else if a[0] != b[0] {
        (a[0] as int) < (b[0] as int)
    } else {
        chars_lt(a.drop_first(), b.drop_first())
    }
}

pub proof fn lemma_chars_lt_irreflexive(a: Seq<char>)
    ensures
        !chars_lt(a, a),
    decreases a.len(),
{
    if a.len() > 0 {
        lemma_chars_lt_irreflexive(a.drop_first());
    }
}

pub proof fn lemma_chars_lt_trans(a: Seq<char>, b: Seq<char>, c: Seq<char>)
    requires
        chars_lt(a, b),
        chars_lt(b, c),
    ensures
        chars_lt(a, c),
    decreases a.len(),
{
    if a.len() > 0 && b.len() > 0 && c.len() > 0 {
        if a[0] == b[0] && b[0] == c[0] {
            lemma_chars_lt_trans(a.drop_first(), b.drop_first(), c.drop_first());
        }
    }
}

pub proof fn lemma_chars_lt_total(a: Seq<char>, b: Seq<char>)
    requires
        a != b,
    ensures
        chars_lt(a, b) || chars_lt(b, a),
    decreases a.len(),
{
    if a.len() > 0 && b.len() > 0 && a[0] == b[0] {
        if a.drop_first() == b.drop_first() {
            assert(a =~= seq![a[0]] + a.drop_first());
            assert(b =~= seq![b[0]] + b.drop_first());
        } else {
            lemma_chars_lt_total(a.drop_first(), b.drop_first());
        }
    } else if a.len() == 0 && b.len() == 0 {
        assert(a =~= b);
    } else if a.len() > 0 && b.len() > 0 {
        assert((a[0] as int) != (b[0] as int));
    }
}

/// The sort key of an entry among its siblings.
pub struct SortKey {
    pub is_dir: bool,
    pub logical: u64,
    pub folded: Vec<char>,
    pub name: Vec<char>,
    pub id: u32,
}

/// The sort key's abstract value.
pub type KeyView = (bool, u64, Seq<char>, Seq<char>, u32);

impl SortKey {
    pub open spec fn view(&self) -> KeyView {
        (self.is_dir, self.logical, self.folded@, self.name@, self.id)
    }
}

/// The sort key of an entry.
pub open spec fn entry_key(e: CompactEntry) -> KeyView {
    (
        e.kind == EntryKind::Directory,
        match e.logical_size {
            Some(x) => x,
            None => 0,
        },
        lowercase_of(e.name@),
        e.name@,
        e.id,
    )
}

/// `a` is displayed before `b`.
pub open spec fn key_lt(a: KeyView, b: KeyView) -> bool {
    if a.0 != b.0 {
        a.0
    } else if a.1 != b.1 {
        a.1 > b.1
    } else if a.2 != b.2 {
        chars_lt(a.2, b.2)
    } else if a.3 != b.3 {
        chars_lt(a.3, b.3)
    } else {
        a.4 < b.4
    }
}

pub proof fn lemma_key_lt_irreflexive(a: KeyView)
    ensures
        !key_lt(a, a),
{
}

pub proof fn lemma_key_lt_trans(a: KeyView, b: KeyView, c: KeyView)
    requires
        key_lt(a, b),
        key_lt(b, c),
    ensures
        key_lt(a, c),
{
    if a.0 == b.0 && b.0 == c.0 && a.1 == b.1 && b.1 == c.1 {
        if a.2 != b.2 && b.2 != c.2 {
            lemma_chars_lt_trans(a.2, b.2, c.2);
            if a.2 == c.2 {
                lemma_chars_lt_irreflexive(a.2);
                lemma_chars_lt_trans(a.2, b.2, a.2);
            }
        } else if a.2 == b.2 && b.2 == c.2 {
            if a.3 != b.3 && b.3 != c.3 {
                lemma_chars_lt_trans(a.3, b.3, c.3);
                if a.3 == c.3 {
                    lemma_chars_lt_irreflexive(a.3);
                    lemma_chars_lt_trans(a.3, b.3, a.3);
                }
            }
        }
    }
}

/// Keys with different ids are ordered one way or the other.
pub proof fn lemma_key_lt_total(a: KeyView, b: KeyView)
    requires
        a.4 != b.4,
    ensures
        key_lt(a, b) || key_lt(b, a),
{
    if a.0 == b.0 && a.1 == b.1 {
        if a.2 != b.2 {
            lemma_chars_lt_total(a.2, b.2);
        } else if a.3 != b.3 {
            lemma_chars_lt_total(a.3, b.3);
        }
    }
}

fn chars_less(a: &Vec<char>, b: &Vec<char>) -> (r: bool)
    ensures
        r == chars_lt(a@, b@),
{
    let mut i: usize = 0;
    proof {
        assert(a@.subrange(0, a@.len() as int) =~= a@);
        assert(b@.subrange(0, b@.len() as int) =~= b@);
    }
    while i < a.len() && i < b.len()
        invariant
            i <= a@.len(),
            i <= b@.len(),
            a@.subrange(0, i as int) == b@.subrange(0, i as int),
            chars_lt(a@, b@) == chars_lt(a@.subrange(i as int, a@.len() as int), b@.subrange(i as int, b@.len() as int)),
        decreases a@.len() - i,
    {
        if a[i] != b[i] {
            proof {
                let sa = a@.subrange(i as int, a@.len() as int);
                let sb = b@.subrange(i as int, b@.len() as int);
                assert(sa[0] == a@[i as int]);
                assert(sb[0] == b@[i as int]);
            }
            return a[i] < b[i];
        }
        proof {
            let sa = a@.subrange(i as int, a@.len() as int);
            let sb = b@.subrange(i as int, b@.len() as int);
            assert(sa.drop_first() =~= a@.subrange(i + 1, a@.len() as int));
            assert(sb.drop_first() =~= b@.subrange(i + 1, b@.len() as int));
            assert(a@.subrange(0, i + 1) =~= a@.subrange(0, i as int).push(a@[i as int]));
            assert(b@.subrange(0, i + 1) =~= b@.subrange(0, i as int).push(b@[i as int]));
        }
        i += 1;
    }
    proof {
        let sa = a@.subrange(i as int, a@.len() as int);
        let sb = b@.subrange(i as int, b@.len() as int);
        assert(sa.len() == 0 || sb.len() == 0);
    }
    i < b.len()
}

fn chars_equal(a: &Vec<char>, b: &Vec<char>) -> (r: bool)
    ensures
        r == (a@ == b@),
{
    if a.len() != b.len() {
        return false;
    }
    let mut i: usize = 0;
    while i < a.len()
        invariant
            i <= a@.len(),
            a@.len() == b@.len(),
            forall|k: int| 0 <= k < i ==> a@[k] == b@[k],
        decreases a@.len() - i,
    {
        if a[i] != b[i] {
            return false;
        }
        i += 1;
    }
    proof {
        assert(a@ =~= b@);
    }
    true
}

/// Compares two sort keys.
pub fn key_less(a: &SortKey, b: &SortKey) -> (r: bool)
    ensures
        r == key_lt(a.view(), b.view()),
{
    if a.is_dir != b.is_dir {
        return a.is_dir;
    }
    if a.logical != b.logical {
        return a.logical > b.logical;
    }
    if !chars_equal(&a.folded, &b.folded) {
        return chars_less(&a.folded, &b.folded);
    }
    if !chars_equal(&a.name, &b.name) {
        return chars_less(&a.name, &b.name);
    }
    a.id < b.id
}

/// `s` lists positions of `keys` in strictly increasing key order.
pub open spec fn sorted_by_key(keys: Seq<SortKey>, s: Seq<usize>) -> bool {
    forall|i: int, j: int|
        0 <= i < j < s.len() ==> key_lt(keys[s[i] as int].view(), keys[s[j] as int].view())
}

/// The keys carry pairwise different ids.
pub open spec fn distinct_key_ids(keys: Seq<SortKey>) -> bool {
    forall|a: int, b: int| 0 <= a < keys.len() && 0 <= b < keys.len() && a != b ==> (#[trigger] keys[a]).id != (#[trigger] keys[b]).id
}

proof fn lemma_concat_to_set(a: Seq<usize>, b: Seq<usize>)
    ensures
        (a + b).to_set() == a.to_set() + b.to_set(),
{
    let c = a + b;
    assert forall|x: usize| c.to_set().contains(x) <==> (a.to_set() + b.to_set()).contains(x) by {
        if c.contains(x) {
            let i = choose|i: int| 0 <= i < c.len() && c[i] == x;
            if i < a.len() {
                assert(a[i] == x);
            } else {
                assert(b[i - a.len()] == x);
            }
        }
        if a.contains(x) {
            let i = choose|i: int| 0 <= i < a.len() && a[i] == x;
            assert(c[i] == x);
        }
        if b.contains(x) {
            let i = choose|i: int| 0 <= i < b.len() && b[i] == x;
            assert(c[a.len() + i] == x);
        }
    }
    assert(c.to_set() =~= a.to_set() + b.to_set());
}

/// Merges two key-sorted position lists.
fn merge(keys: &Vec<SortKey>, left: &Vec<usize>, right: &Vec<usize>) -> (r: Vec<usize>)
    requires
        distinct_key_ids(keys@),
        forall|i: int| 0 <= i < left@.len() ==> (#[trigger] left@[i]) < keys@.len(),
        forall|i: int| 0 <= i < right@.len() ==> (#[trigger] right@[i]) < keys@.len(),
        forall|i: int, j: int| 0 <= i < left@.len() && 0 <= j < right@.len() ==> left@[i] != right@[j],
        sorted_by_key(keys@, left@),
        sorted_by_key(keys@, right@),
        left@.len() + right@.len() <= usize::MAX,
    ensures
        r@.len() == left@.len() + right@.len(),
        r@.to_set() == left@.to_set() + right@.to_set(),
        sorted_by_key(keys@, r@),
{
    let mut r: Vec<usize> = Vec::new();
    let mut i: usize = 0;
    let mut j: usize = 0;
    while i < left.len() || j < right.len()
        invariant
            distinct_key_ids(keys@),
            forall|a: int| 0 <= a < left@.len() ==> (#[trigger] left@[a]) < keys@.len(),
            forall|a: int| 0 <= a < right@.len() ==> (#[trigger] right@[a]) < keys@.len(),
            forall|a: int, b: int| 0 <= a < left@.len() && 0 <= b < right@.len() ==> left@[a] != right@[b],
            sorted_by_key(keys@, left@),
            sorted_by_key(keys@, right@),
            left@.len() + right@.len() <= usize::MAX,
            i <= left@.len(),
            j <= right@.len(),
            r@.len() == i + j,
            r@.to_set() == left@.subrange(0, i as int).to_set() + right@.subrange(0, j as int).to_set(),
            sorted_by_key(keys@, r@),
            forall|a: int, b: int|
                0 <= a < r@.len() && i <= b < left@.len() ==> key_lt(keys@[r@[a] as int].view(), keys@[left@[b] as int].view()),
            forall|a: int, b: int|
                0 <= a < r@.len() && j <= b < right@.len() ==> key_lt(keys@[r@[a] as int].view(), keys@[right@[b] as int].view()),
        decreases left@.len() + right@.len() - i - j,
    {
        let take_left: bool = if i < left.len() && j < right.len() {
            key_less(&keys[left[i]], &keys[right[j]])
        } else {
            i < left.len()
        };
        let ghost r0 = r@;
        if take_left {
            let x: usize = left[i];
            proof {
                if j < right@.len() {
                    assert(key_lt(keys@[left@[i as int] as int].view(), keys@[right@[j as int] as int].view()));
                }
                assert forall|b: int| j <= b < right@.len() implies key_lt(keys@[x as int].view(), keys@[right@[b] as int].view()) by {
                    if b > j {
                        lemma_key_lt_trans(keys@[x as int].view(), keys@[right@[j as int] as int].view(), keys@[right@[b] as int].view());
                    }
                }
            }
            r.push(x);
            i += 1;
            proof {
                assert(left@.subrange(0, i as int) =~= left@.subrange(0, i - 1).push(x));
                left@.subrange(0, i - 1).lemma_push_to_set_commute(x);
                assert(r@ =~= r0.push(x));
                r0.lemma_push_to_set_commute(x);
                assert(r@.to_set() =~= left@.subrange(0, i as int).to_set() + right@.subrange(0, j as int).to_set());
                assert forall|a: int, b: int|
                    0 <= a < r@.len() && i <= b < left@.len() implies key_lt(keys@[r@[a] as int].view(), keys@[left@[b] as int].view()) by {
                    if a < r0.len() {
                        assert(r@[a] == r0[a]);
                    }
                }
            }
        } else {
            let x: usize = right[j];
            proof {
                if i < left@.len() {
                    let kl = keys@[left@[i as int] as int];
                    let kr = keys@[right@[j as int] as int];
                    assert(left@[i as int] != right@[j as int]);
                    assert(kl.id != kr.id);
                    lemma_key_lt_total(kl.view(), kr.view());
                }
                assert forall|b: int| i <= b < left@.len() implies key_lt(keys@[x as int].view(), keys@[left@[b] as int].view()) by {
                    if b > i {
                        lemma_key_lt_trans(keys@[x as int].view(), keys@[left@[i as int] as int].view(), keys@[left@[b] as int].view());
                    }
                }
            }
            r.push(x);
            j += 1;
            proof {
                assert(right@.subrange(0, j as int) =~= right@.subrange(0, j - 1).push(x));
                right@.subrange(0, j - 1).lemma_push_to_set_commute(x);
                assert(r@ =~= r0.push(x));
                r0.lemma_push_to_set_commute(x);
                assert(r@.to_set() =~= left@.subrange(0, i as int).to_set() + right@.subrange(0, j as int).to_set());
                assert forall|a: int, b: int|
                    0 <= a < r@.len() && j <= b < right@.len() implies key_lt(keys@[r@[a] as int].view(), keys@[right@[b] as int].view()) by {
                    if a < r0.len() {
                        assert(r@[a] == r0[a]);
                    }
                }
            }
        }
    }
    proof {
        assert(left@.subrange(0, i as int) =~= left@);
        assert(right@.subrange(0, j as int) =~= right@);
    }
    r
}

/// Sorts positions of `keys` by key (merge sort).
pub fn sort_by_key(keys: &Vec<SortKey>, v: Vec<usize>) -> (r: Vec<usize>)
    requires
        distinct_key_ids(keys@),
        v@.no_duplicates(),
        forall|i: int| 0 <= i < v@.len() ==> (#[trigger] v@[i]) < keys@.len(),
    ensures
        r@.len() == v@.len(),
        r@.to_set() == v@.to_set(),
        sorted_by_key(keys@, r@),
    decreases v@.len(),
{
    let n: usize = v.len();
    if n <= 1 {
        return v;
    }
    let mid: usize = n / 2;
    let mut left: Vec<usize> = Vec::new();
    let mut right: Vec<usize> = Vec::new();
    let mut k: usize = 0;
    while k < n
        invariant
            k <= n,
            n == v@.len(),
            mid < n,
            left@ == v@.subrange(0, if k < mid { k as int } else { mid as int }),
            right@ == v@.subrange(mid as int, if k < mid { mid as int } else { k as int }),
        decreases n - k,
    {
        if k < mid {
            left.push(v[k]);
        } else {
            right.push(v[k]);
        }
        proof {
            if k < mid {
                assert(v@.subrange(0, k + 1) =~= v@.subrange(0, k as int).push(v@[k as int]));
            } else {
                assert(v@.subrange(mid as int, k + 1) =~= v@.subrange(mid as int, k as int).push(v@[k as int]));
            }
        }
        k += 1;
    }
    proof {
        assert(v@ =~= left@ + right@);
        assert forall|a: int, b: int| 0 <= a < left@.len() && 0 <= b < right@.len() implies left@[a] != right@[b] by {
            assert(left@[a] == v@[a]);
            assert(right@[b] == v@[mid + b]);
        }
        assert(left@.no_duplicates()) by {
            assert forall|a: int, b: int| 0 <= a < left@.len() && 0 <= b < left@.len() && a != b implies left@[a] != left@[b] by {
                assert(left@[a] == v@[a]);
                assert(left@[b] == v@[b]);
            }
        }
        assert(right@.no_duplicates()) by {
            assert forall|a: int, b: int| 0 <= a < right@.len() && 0 <= b < right@.len() && a != b implies right@[a] != right@[b] by {
                assert(right@[a] == v@[mid + a]);
                assert(right@[b] == v@[mid + b]);
            }
        }
    }
    let ghost lset = left@.to_set();
    let ghost rset = right@.to_set();
    let sl = sort_by_key(keys, left);
    let sr = sort_by_key(keys, right);
    proof {
        assert forall|i: int| 0 <= i < sl@.len() implies (#[trigger] sl@[i]) < keys@.len() by {
            assert(sl@.to_set().contains(sl@[i]));
        }
        assert forall|i: int| 0 <= i < sr@.len() implies (#[trigger] sr@[i]) < keys@.len() by {
            assert(sr@.to_set().contains(sr@[i]));
        }
        assert forall|a: int, b: int| 0 <= a < sl@.len() && 0 <= b < sr@.len() implies sl@[a] != sr@[b] by {
            assert(sl@.to_set().contains(sl@[a]));
            assert(sr@.to_set().contains(sr@[b]));
        }
    }
    let r = merge(keys, &sl, &sr);
    proof {
        lemma_concat_to_set(left@, right@);
    }
    r
}

} // verus!

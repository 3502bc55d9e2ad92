//! The order of texts, and collections that keep it.

use vstd::prelude::*;
use vstd::string::*;
use crate::text;
use crate::text::chars_of;

verus! {

/// Whether `a` comes before `b`: the first character in which they differ
/// decides, and a beginning comes before what it begins.
pub open spec fn less(a: Seq<char>, b: Seq<char>) -> bool
    decreases b.len(),
{
    if b.len() == 0 {
        false
    } else if a.len() == 0 {
        true
    } else if a[0] != b[0] {
        a[0] < b[0]
    } else {
        less(a.skip(1), b.skip(1))
    }
}

pub proof fn lemma_less_irreflexive(a: Seq<char>)
    ensures
        !less(a, a),
    decreases a.len(),
{
    if a.len() > 0 {
        lemma_less_irreflexive(a.skip(1));
    }
}

pub proof fn lemma_less_transitive(a: Seq<char>, b: Seq<char>, c: Seq<char>)
    requires
        less(a, b),
        less(b, c),
    ensures
        less(a, c),
    decreases b.len(),
{
    if a.len() > 0 && a[0] == b[0] && b[0] == c[0] {
        lemma_less_transitive(a.skip(1), b.skip(1), c.skip(1));
    }
}

pub proof fn lemma_less_total(a: Seq<char>, b: Seq<char>)
    ensures
        less(a, b) || a == b || less(b, a),
    decreases b.len(),
{
    if a.len() == 0 && b.len() == 0 {
        assert(a =~= b);
    } else if a.len() > 0 && b.len() > 0 && a[0] == b[0] {
        lemma_less_total(a.skip(1), b.skip(1));
        if a.skip(1) == b.skip(1) {
            assert(a =~= seq![a[0]] + a.skip(1));
            assert(b =~= seq![b[0]] + b.skip(1));
        }
    }
}

/// Whether one text comes before another.
pub fn text_less(a: &str, b: &str) -> (r: bool)
    ensures
        r == less(a@, b@),
{
    let x: Vec<char> = chars_of(a);
    let y: Vec<char> = chars_of(b);
    let mut i: usize = 0;
    assert(x@.skip(0) == x@ && y@.skip(0) == y@);
    while i < x.len() && i < y.len()
        invariant
            i <= x.len(),
            i <= y.len(),
            less(x@, y@) == less(x@.skip(i as int), y@.skip(i as int)),
        decreases x.len() - i,
    {
        if x[i] != y[i] {
            return x[i] < y[i];
        }
        assert(x@.skip(i as int).skip(1) == x@.skip(i + 1));
        assert(y@.skip(i as int).skip(1) == y@.skip(i + 1));
        i += 1;
    }
    i < y.len()
}

/// Whether texts stand in ascending order, none twice.
pub open spec fn ascending(s: Seq<Seq<char>>) -> bool {
    forall|i: int, j: int| 0 <= i < j < s.len() ==> less(#[trigger] s[i], #[trigger] s[j])
}

/// The position at which `key` stands in the ascending list, or would have to
/// be inserted.
pub fn position(keys: &Vec<String>, key: &str) -> (r: (usize, bool))
    requires
        ascending(text::views(keys@)),
    ensures
        r.0 <= keys.len(),
        forall|i: int| 0 <= i < r.0 ==> less(#[trigger] keys@[i]@, key@),
        r.1 ==> r.0 < keys.len() && keys@[r.0 as int]@ == key@,
        !r.1 ==> forall|i: int| r.0 <= i < keys.len() ==> less(key@, #[trigger] keys@[i]@),
        r.1 == text::views(keys@).contains(key@),
{
    let ghost all = text::views(keys@);
    let mut i: usize = 0;
    while i < keys.len() && text_less(keys[i].as_str(), key)
        invariant
            i <= keys.len(),
            forall|j: int| 0 <= j < i ==> less(#[trigger] keys@[j]@, key@),
        decreases keys.len() - i,
    {
        i += 1;
    }
    if i < keys.len() && !text_less(key, keys[i].as_str()) {
        proof {
            lemma_less_total(keys@[i as int]@, key@);
            assert(all[i as int] == key@);
        }
        return (i, true);
    }
    proof {
        assert forall|j: int| i <= j < keys.len() implies less(key@, #[trigger] keys@[j]@) by {
            if i < j {
                assert(less(all[i as int], all[j]));
                lemma_less_transitive(key@, keys@[i as int]@, keys@[j]@);
            }
        }
        assert forall|j: int| 0 <= j < all.len() implies all[j] != key@ by {
            lemma_less_irreflexive(key@);
            assert(all[j] == keys@[j]@);
        }
    }
    (i, false)
}

/// An ascending list is determined by what it contains.
pub proof fn lemma_ascending_unique(a: Seq<Seq<char>>, b: Seq<Seq<char>>)
    requires
        ascending(a),
        ascending(b),
        forall|x: Seq<char>| #[trigger] a.contains(x) == b.contains(x),
    ensures
        a == b,
    decreases a.len() + b.len(),
{
    if a.len() == 0 || b.len() == 0 {
        if a.len() > 0 {
            assert(a.contains(a[0]));
            assert(b.contains(a[0]));
        }
        if b.len() > 0 {
            assert(b.contains(b[0]));
            assert(a.contains(b[0]));
        }
        assert(a =~= b);
    } else {
        let x = a.last();
        let y = b.last();
        assert(a[a.len() - 1] == x);
        assert(a.contains(x));
        assert(b.contains(x));
        assert(b[b.len() - 1] == y);
        assert(b.contains(y));
        assert(a.contains(y) == b.contains(y));
        let i = choose|i: int| 0 <= i < a.len() && a[i] == y;
        let j = choose|j: int| 0 <= j < b.len() && b[j] == x;
        if x != y {
            assert(less(a[i], a[a.len() - 1]));
            assert(less(b[j], b[b.len() - 1]));
            lemma_less_transitive(x, y, x);
            lemma_less_irreflexive(x);
        }
        let af = a.drop_last();
        let bf = b.drop_last();
        assert forall|z: Seq<char>| #[trigger] af.contains(z) == bf.contains(z) by {
            lemma_less_irreflexive(z);
            if af.contains(z) {
                let k = choose|k: int| 0 <= k < af.len() && af[k] == z;
                assert(a[k] == z);
                assert(less(a[k], a[a.len() - 1]));
                assert(a.contains(z));
                let m = choose|m: int| 0 <= m < b.len() && b[m] == z;
                assert(m < bf.len());
                assert(bf[m] == z);
            }
            if bf.contains(z) {
                let k = choose|k: int| 0 <= k < bf.len() && bf[k] == z;
                assert(b[k] == z);
                assert(less(b[k], b[b.len() - 1]));
                assert(b.contains(z));
                assert(a.contains(z) == b.contains(z));
                let m = choose|m: int| 0 <= m < a.len() && a[m] == z;
                assert(m < af.len());
                assert(af[m] == z);
            }
        }
        assert(ascending(af));
        assert(ascending(bf));
        lemma_ascending_unique(af, bf);
        assert(a =~= af.push(x));
        assert(b =~= bf.push(y));
    }
}

/// Texts are ordered strictly and totally, by the first character in which they differ; a text
/// comes before everything that it begins.
pub proof fn law_texts_are_ordered_by_the_first_difference(
    a: &str,
    b: &str,
    front: Seq<char>,
    x: Seq<char>,
    y: Seq<char>,
    r: bool,
    s: bool,
)
    requires
        call_ensures(text_less, (a, b), r),
        call_ensures(text_less, (b, a), s),
    ensures
        !(r && s),
        a@ != b@ ==> r || s,
        a@ == b@ ==> !r,
        a@ == front + x && b@ == front + y && x.len() > 0 && y.len() > 0 && x[0] != y[0] ==> r == (
        x[0] < y[0]),
        a@ == front && b@ == front + y && y.len() > 0 ==> r,
{
    lemma_less_total(a@, b@);
    lemma_less_irreflexive(a@);
    if r && s {
        lemma_less_transitive(a@, b@, a@);
    }
    if a@ == front + x && b@ == front + y {
        lemma_less_after(front, x, y);
    }
    if a@ == front && b@ == front + y && y.len() > 0 {
        lemma_less_after(front, Seq::empty(), y);
        assert(front + Seq::<char>::empty() =~= front);
    }
}

proof fn lemma_less_after(front: Seq<char>, x: Seq<char>, y: Seq<char>)
    ensures
        less(front + x, front + y) == less(x, y),
    decreases front.len(),
{
    if front.len() == 0 {
        assert(front + x =~= x);
        assert(front + y =~= y);
    } else {
        lemma_less_after(front.skip(1), x, y);
        assert((front + x).skip(1) =~= front.skip(1) + x);
        assert((front + y).skip(1) =~= front.skip(1) + y);
    }
}

} // verus!

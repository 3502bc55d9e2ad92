//! Sets of texts, kept in order.

use vstd::prelude::*;
use vstd::string::*;
use crate::order;
use crate::order::position;
use crate::text;
use crate::text::same_text;

verus! {

/// A set of texts, walked in ascending order.
#[derive(Debug, PartialEq, Eq)]
pub struct TextSet {
    items: Vec<String>,
}

/// An ascending list with one more text in it.
pub open spec fn inserted(list: Seq<Seq<char>>, x: Seq<char>) -> Seq<Seq<char>>
    decreases list.len(),
{
    if list.len() == 0 {
        seq![x]
    } else if x == list[0] {
        list
    } else if order::less(x, list[0]) {
        seq![x] + list
    } else {
        seq![list[0]] + inserted(list.skip(1), x)
    }
}

/// What a text is held against when it is taken out.
pub open spec fn other_than(x: Seq<char>) -> spec_fn(Seq<char>) -> bool {
    |y: Seq<char>| y != x
}

/// A list without a text.
pub open spec fn removed(list: Seq<Seq<char>>, x: Seq<char>) -> Seq<Seq<char>> {
    list.filter(other_than(x))
}

/// The texts of a list in ascending order, each once.
pub open spec fn sorted(list: Seq<Seq<char>>) -> Seq<Seq<char>>
    decreases list.len(),
{
    if list.len() == 0 {
        Seq::empty()
    } else {
        inserted(sorted(list.drop_last()), list.last())
    }
}

pub proof fn lemma_inserted(list: Seq<Seq<char>>, x: Seq<char>)
    requires
        order::ascending(list),
    ensures
        order::ascending(inserted(list, x)),
        forall|y: Seq<char>| #[trigger]
            inserted(list, x).contains(y) == (list.contains(y) || y == x),
    decreases list.len(),
{
    let r = inserted(list, x);
    if list.len() == 0 {
        assert(r[0] == x);
    } else if x == list[0] {
        assert(list.contains(list[0]));
    } else if order::less(x, list[0]) {
        assert forall|i: int, j: int| 0 <= i < j < r.len() implies order::less(
            #[trigger] r[i],
            #[trigger] r[j],
        ) by {
            if i == 0 {
                assert(r[j] == list[j - 1]);
                if j > 1 {
                    assert(order::less(list[0], list[j - 1]));
                    order::lemma_less_transitive(x, list[0], list[j - 1]);
                }
            } else {
                assert(r[i] == list[i - 1] && r[j] == list[j - 1]);
            }
        }
        assert forall|y: Seq<char>| #[trigger] r.contains(y) == (list.contains(y) || y == x) by {
            if list.contains(y) {
                let k = choose|k: int| 0 <= k < list.len() && list[k] == y;
                assert(r[k + 1] == y);
            }
            if r.contains(y) && y != x {
                let k = choose|k: int| 0 <= k < r.len() && r[k] == y;
                assert(list[k - 1] == y);
            }
            assert(r[0] == x);
        }
    } else {
        let rest = list.skip(1);
        let more = inserted(rest, x);
        assert forall|i: int, j: int| 0 <= i < j < rest.len() implies order::less(
            #[trigger] rest[i],
            #[trigger] rest[j],
        ) by {
            assert(rest[i] == list[i + 1] && rest[j] == list[j + 1]);
        }
        lemma_inserted(rest, x);
        order::lemma_less_total(x, list[0]);
        assert forall|i: int, j: int| 0 <= i < j < r.len() implies order::less(
            #[trigger] r[i],
            #[trigger] r[j],
        ) by {
            assert(r[j] == more[j - 1]);
            if i == 0 {
                assert(more.contains(more[j - 1]));
                if more[j - 1] != x {
                    let k = choose|k: int| 0 <= k < rest.len() && rest[k] == more[j - 1];
                    assert(list[k + 1] == more[j - 1]);
                    assert(order::less(list[0], list[k + 1]));
                }
            } else {
                assert(r[i] == more[i - 1]);
            }
        }
        assert forall|y: Seq<char>| #[trigger] r.contains(y) == (list.contains(y) || y == x) by {
            assert(more.contains(y) == (rest.contains(y) || y == x));
            if r.contains(y) {
                let k = choose|k: int| 0 <= k < r.len() && r[k] == y;
                if k > 0 {
                    assert(more[k - 1] == y);
                    if rest.contains(y) {
                        let m = choose|m: int| 0 <= m < rest.len() && rest[m] == y;
                        assert(list[m + 1] == y);
                    }
                } else {
                    assert(list[0] == y);
                }
            }
            if list.contains(y) {
                let k = choose|k: int| 0 <= k < list.len() && list[k] == y;
                if k > 0 {
                    assert(rest[k - 1] == y);
                } else {
                    assert(r[0] == y);
                }
            }
            if more.contains(y) {
                let k = choose|k: int| 0 <= k < more.len() && more[k] == y;
                assert(r[k + 1] == y);
            }
        }
    }
}

/// Inserting makes a list longer by one, unless it held the text already.
pub proof fn lemma_inserted_len(list: Seq<Seq<char>>, x: Seq<char>)
    requires
        order::ascending(list),
    ensures
        inserted(list, x).len() <= list.len() + 1,
        list.contains(x) ==> inserted(list, x) == list,
    decreases list.len(),
{
    if list.contains(x) {
        lemma_inserted(list, x);
        order::lemma_ascending_unique(inserted(list, x), list);
    }
    if list.len() > 0 && x != list[0] && !order::less(x, list[0]) {
        let rest = list.skip(1);
        assert forall|i: int, j: int| 0 <= i < j < rest.len() implies order::less(
            #[trigger] rest[i],
            #[trigger] rest[j],
        ) by {
            assert(rest[i] == list[i + 1] && rest[j] == list[j + 1]);
        }
        lemma_inserted_len(rest, x);
    }
}

pub proof fn lemma_sorted(list: Seq<Seq<char>>)
    ensures
        order::ascending(sorted(list)),
        forall|y: Seq<char>| #[trigger] sorted(list).contains(y) == list.contains(y),
    decreases list.len(),
{
    if list.len() > 0 {
        let front = list.drop_last();
        lemma_sorted(front);
        lemma_inserted(sorted(front), list.last());
        assert forall|y: Seq<char>| #[trigger] sorted(list).contains(y) == list.contains(y) by {
            assert(sorted(front).contains(y) == front.contains(y));
            if front.contains(y) {
                let k = choose|k: int| 0 <= k < front.len() && front[k] == y;
                assert(list[k] == y);
            }
            if list.contains(y) && y != list.last() {
                let k = choose|k: int| 0 <= k < list.len() && list[k] == y;
                assert(front[k] == y);
            }
            assert(list[list.len() - 1] == list.last());
        }
    }
}

impl TextSet {
    #[verifier::type_invariant]
    closed spec fn ordered(self) -> bool {
        order::ascending(text::views(self.items@))
    }
}

impl View for TextSet {
    type V = Seq<Seq<char>>;

    /// The texts in ascending order.
    closed spec fn view(&self) -> Seq<Seq<char>> {
        text::views(self.items@)
    }
}

impl Clone for TextSet {
    fn clone(&self) -> (r: Self)
        ensures
            r@ == self@,
    {
        proof {
            use_type_invariant(self);
        }
        let items: Vec<String> = clone_texts(&self.items);
        TextSet { items }
    }
}

/// A copy of a list of texts.
pub fn clone_texts(v: &Vec<String>) -> (r: Vec<String>)
    ensures
        text::views(r@) == text::views(v@),
        r.len() == v.len(),
{
    let mut r: Vec<String> = Vec::new();
    let mut i: usize = 0;
    assert(text::views(r@) =~= text::views(v@).take(0));
    while i < v.len()
        invariant
            i <= v.len(),
            r.len() == i,
            text::views(r@) == text::views(v@).take(i as int),
        decreases v.len() - i,
    {
        let ghost before = text::views(r@);
        r.push(v[i].clone());
        i += 1;
        assert(text::views(r@) =~= before.push(v@[i - 1]@));
        assert(text::views(v@).take(i as int) =~= text::views(v@).take(i - 1).push(v@[i - 1]@));
    }
    assert(text::views(v@).take(i as int) =~= text::views(v@));
    r
}

impl TextSet {
    pub fn new() -> (r: Self)
        ensures
            r@ == Seq::<Seq<char>>::empty(),
    {
        let r: TextSet = TextSet { items: Vec::new() };
        assert(text::views(r.items@) =~= Seq::<Seq<char>>::empty());
        r
    }

    /// The texts of a list, each once.
    pub fn from_vec(list: Vec<String>) -> (r: Self)
        ensures
            r@ == sorted(text::views(list@)),
    {
        let ghost all = text::views(list@);
        let mut r: TextSet = TextSet::new();
        let mut i: usize = 0;
        while i < list.len()
            invariant
                i <= list.len(),
                all == text::views(list@),
                r@ == sorted(all.take(i as int)),
            decreases list.len() - i,
        {
            assert(all.take(i + 1).drop_last() =~= all.take(i as int));
            r.insert(list[i].clone());
            i += 1;
        }
        assert(all.take(i as int) =~= all);
        r
    }

    /// How many texts there are; they are in ascending order.
    pub fn len(&self) -> (r: usize)
        ensures
            r == self@.len(),
            order::ascending(self@),
    {
        proof {
            use_type_invariant(self);
        }
        self.items.len()
    }

    /// The text at a position.
    pub fn item(&self, i: usize) -> (r: &String)
        requires
            i < self@.len(),
        ensures
            r@ == self@[i as int],
    {
        &self.items[i]
    }

    pub fn contains(&self, x: &str) -> (r: bool)
        ensures
            r == self@.contains(x@),
    {
        proof {
            use_type_invariant(self);
        }
        let (_, found) = position(&self.items, x);
        found
    }

    /// Adds a text, unless it is there already.
    pub fn insert(&mut self, x: String)
        ensures
            final(self)@ == inserted(old(self)@, x@),
    {
        proof {
            use_type_invariant(&*self);
        }
        let mut items: Vec<String> = Vec::new();
        assert(text::views(items@) =~= Seq::<Seq<char>>::empty());
        std::mem::swap(&mut items, &mut self.items);
        let ghost before = text::views(items@);
        let ghost k = x@;
        let (i, found) = position(&items, x.as_str());
        if !found {
            let ghost old_items = items@;
            items.insert(i, x);
            let ghost after = text::views(items@);
            assert(after =~= before.insert(i as int, k));
            proof {
                lemma_at_position(before, i as int, k);
            }
        }
        proof {
            lemma_inserted(before, k);
            let after = text::views(items@);
            assert forall|y: Seq<char>| #[trigger] after.contains(y) == inserted(
                before,
                k,
            ).contains(y) by {
                if !found {
                    lemma_insert_contains(before, i as int, k, y);
                }
            }
            order::lemma_ascending_unique(after, inserted(before, k));
        }
        self.items = items;
    }

    /// Takes a text out.
    pub fn remove(&mut self, x: &str)
        ensures
            final(self)@ == removed(old(self)@, x@),
    {
        proof {
            use_type_invariant(&*self);
        }
        let mut items: Vec<String> = Vec::new();
        assert(text::views(items@) =~= Seq::<Seq<char>>::empty());
        std::mem::swap(&mut items, &mut self.items);
        let ghost before = text::views(items@);
        let ghost keep = other_than(x@);
        let mut r: Vec<String> = Vec::new();
        let mut i: usize = 0;
        proof {
            reveal(Seq::filter);
            assert(text::views(r@) =~= before.take(0).filter(keep));
        }
        while i < items.len()
            invariant
                i <= items.len(),
                before == text::views(items@),
                keep == other_than(x@),
                text::views(r@) == before.take(i as int).filter(keep),
            decreases items.len() - i,
        {
            let ghost so_far = text::views(r@);
            proof {
                reveal(Seq::filter);
                assert(before.take(i + 1).drop_last() =~= before.take(i as int));
            }
            if !same_text(items[i].as_str(), x) {
                r.push(items[i].clone());
                assert(text::views(r@) =~= so_far.push(before[i as int]));
            }
            i += 1;
        }
        assert(before.take(i as int) =~= before);
        proof {
            lemma_filter_ascending(before, keep);
        }
        self.items = r;
    }

    /// Whether two sets hold the same texts.
    pub fn same(&self, other: &TextSet) -> (r: bool)
        ensures
            r == (self@ == other@),
    {
        assert(self@.len() == self.items.len() && other@.len() == other.items.len());
        if self.items.len() != other.items.len() {
            return false;
        }
        let mut i: usize = 0;
        while i < self.items.len()
            invariant
                i <= self.items.len(),
                self.items.len() == other.items.len(),
                forall|j: int| 0 <= j < i ==> (#[trigger] self@[j]) == other@[j],
            decreases self.items.len() - i,
        {
            if !same_text(self.items[i].as_str(), other.items[i].as_str()) {
                assert(self@[i as int] != other@[i as int]);
                return false;
            }
            i += 1;
        }
        assert(self@ =~= other@);
        true
    }
}

proof fn lemma_at_position(list: Seq<Seq<char>>, i: int, x: Seq<char>)
    requires
        order::ascending(list),
        0 <= i <= list.len(),
        forall|j: int| 0 <= j < i ==> order::less(#[trigger] list[j], x),
        forall|j: int| i <= j < list.len() ==> order::less(x, #[trigger] list[j]),
    ensures
        order::ascending(list.insert(i, x)),
{
    let r = list.insert(i, x);
    assert forall|a: int, b: int| 0 <= a < b < r.len() implies order::less(
        #[trigger] r[a],
        #[trigger] r[b],
    ) by {
        let la = if a < i { a } else { a - 1 };
        let lb = if b < i { b } else { b - 1 };
        if a != i {
            assert(r[a] == list[la]);
        }
        if b != i {
            assert(r[b] == list[lb]);
        }
    }
}

proof fn lemma_insert_contains(list: Seq<Seq<char>>, i: int, x: Seq<char>, y: Seq<char>)
    requires
        0 <= i <= list.len(),
    ensures
        list.insert(i, x).contains(y) == (list.contains(y) || y == x),
{
    let r = list.insert(i, x);
    assert(r[i] == x);
    if list.contains(y) {
        let k = choose|k: int| 0 <= k < list.len() && list[k] == y;
        if k < i {
            assert(r[k] == y);
        } else {
            assert(r[k + 1] == y);
        }
    }
    if r.contains(y) && y != x {
        let k = choose|k: int| 0 <= k < r.len() && r[k] == y;
        if k < i {
            assert(list[k] == y);
        } else {
            assert(list[k - 1] == y);
        }
    }
}

pub proof fn lemma_filter_ascending(list: Seq<Seq<char>>, keep: spec_fn(Seq<char>) -> bool)
    requires
        order::ascending(list),
    ensures
        order::ascending(list.filter(keep)),
        forall|x: Seq<char>| #[trigger]
            list.filter(keep).contains(x) == (list.contains(x) && keep(x)),
    decreases list.len(),
{
    reveal(Seq::filter);
    if list.len() > 0 {
        let front = list.drop_last();
        lemma_filter_ascending(front, keep);
        let f = front.filter(keep);
        let r = list.filter(keep);
        assert forall|a: int, b: int| 0 <= a < b < r.len() implies order::less(
            #[trigger] r[a],
            #[trigger] r[b],
        ) by {
            assert(r[a] == f[a]);
            if b < f.len() {
                assert(r[b] == f[b]);
            } else {
                assert(f.contains(f[a]));
                let k = choose|k: int| 0 <= k < front.len() && front[k] == f[a];
                assert(order::less(list[k], list[list.len() - 1]));
            }
        }
        assert forall|x: Seq<char>| #[trigger] r.contains(x) == (list.contains(x) && keep(x)) by {
            assert(f.contains(x) == (front.contains(x) && keep(x)));
            if r.contains(x) {
                let k = choose|k: int| 0 <= k < r.len() && r[k] == x;
                if k < f.len() {
                    assert(f[k] == x);
                    let m = choose|m: int| 0 <= m < front.len() && front[m] == x;
                    assert(list[m] == x);
                } else {
                    assert(list[list.len() - 1] == x);
                }
            }
            if list.contains(x) && keep(x) {
                let k = choose|k: int| 0 <= k < list.len() && list[k] == x;
                if k < front.len() {
                    assert(front[k] == x);
                    let m = choose|m: int| 0 <= m < f.len() && f[m] == x;
                    assert(r[m] == x);
                } else {
                    assert(r[r.len() - 1] == x);
                }
            }
        }
    }
}

/// What is removed is gone, and all else stays in order.
pub proof fn lemma_removed(list: Seq<Seq<char>>, x: Seq<char>)
    requires
        order::ascending(list),
    ensures
        order::ascending(removed(list, x)),
        forall|y: Seq<char>| #[trigger]
            removed(list, x).contains(y) == (list.contains(y) && y != x),
{
    lemma_filter_ascending(list, other_than(x));
}

/// A set holds what was put into it and not taken out again, and the rest as before; it holds
/// every text once, in order.
pub proof fn law_sets_hold_what_was_put_in(
    a: &mut TextSet,
    b: &mut TextSet,
    x: String,
    y: &str,
    gone: &str,
    before: bool,
    after: bool,
    left: bool,
    list: Vec<String>,
    set: TextSet,
    listed: bool,
)
    requires
        order::ascending(old(a)@),
        order::ascending(old(b)@),
        call_ensures(TextSet::insert, (a, x), ()),
        call_ensures(TextSet::contains, (&*old(a), y), before),
        call_ensures(TextSet::contains, (&*final(a), y), after),
        *old(b) == *final(a),
        call_ensures(TextSet::remove, (b, gone), ()),
        call_ensures(TextSet::contains, (&*final(b), y), left),
        call_ensures(TextSet::from_vec, (list,), set),
        call_ensures(TextSet::contains, (&set, y), listed),
    ensures
        after == (before || y@ == x@),
        left == (after && y@ != gone@),
        order::ascending(final(a)@) && order::ascending(final(b)@),
        listed == (exists|i: int| 0 <= i < list@.len() && (#[trigger] list@[i])@ == y@),
        order::ascending(set@),
{
    lemma_inserted(old(a)@, x@);
    lemma_removed(old(b)@, gone@);
    let views = text::views(list@);
    lemma_sorted(views);
    if views.contains(y@) {
        let i = views.index_of(y@);
        assert(list@[i]@ == views[i]);
    }
    if exists|i: int| 0 <= i < list@.len() && (#[trigger] list@[i])@ == y@ {
        let i = choose|i: int| 0 <= i < list@.len() && (#[trigger] list@[i])@ == y@;
        assert(views[i] == y@);
    }
}

} // verus!

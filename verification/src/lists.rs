//! Lists of strings: lookup, first occurrences, and lexicographic order.

use vstd::hash_map::StringHashMap;
use vstd::multiset::Multiset;
use vstd::hash_set::StringHashSet;
use vstd::prelude::*;
use vstd::relations::sorted_by;
use vstd::seq_lib::{lemma_multiset_commutative, to_multiset_build};
use crate::seq_lemmas::lemma_push_to_set;
use crate::text::{char_texts, chars_of, string_of, texts};

verus! {

/// The texts of `list` as a set.
pub fn text_set(list: &[String]) -> (set: StringHashSet)
    ensures
        set@ == texts(list@).to_set(),
{
    let ghost all = texts(list@);
    let mut set = StringHashSet::new();
    let mut i: usize = 0;
    assert(set@ =~= all.take(0).to_set());
    while i < list.len()
        invariant
            i <= list.len(),
            all == texts(list@),
            set@ == all.take(i as int).to_set(),
        decreases list.len() - i,
    {
        proof {
            assert(all.take(i + 1) == all.take(i as int).push(list[i as int]@));
            lemma_push_to_set(all.take(i as int), list[i as int]@);
        }
        set.insert(list[i].clone());
        i += 1;
    }
    assert(all.take(list.len() as int) == all);
    set
}

/// The first occurrences in `list`, in their order: `list` with each later
/// copy of an element left out.
pub open spec fn unique(list: Seq<Seq<char>>) -> Seq<Seq<char>>
    decreases list.len(),
{
    if list.len() == 0 {
        Seq::empty()
    } else {
        let front = unique(list.drop_last());
        if front.contains(list.last()) {
            front
        } else {
            front.push(list.last())
        }
    }
}

/// `unique` holds what the list holds, and nothing twice.
pub proof fn lemma_unique(list: Seq<Seq<char>>)
    ensures
        unique(list).no_duplicates(),
        unique(list).len() <= list.len(),
        forall|x: Seq<char>| #[trigger] unique(list).contains(x) <==> list.contains(x),
    decreases list.len(),
{
    if list.len() > 0 {
        let front = unique(list.drop_last());
        lemma_unique(list.drop_last());
        assert forall|x: Seq<char>| #[trigger] unique(list).contains(x) <==> list.contains(x) by {
            if unique(list).contains(x) {
                let j = choose|j: int| 0 <= j < unique(list).len() && unique(list)[j] == x;
                if j < front.len() {
                    assert(front[j] == x);
                    assert(front.contains(x));
                    assert(list.drop_last().contains(x));
                    let k = choose|k: int| 0 <= k < list.drop_last().len() && list.drop_last()[k]
                        == x;
                    assert(list[k] == x);
                } else {
                    assert(list[list.len() - 1] == x);
                }
            }
            if list.contains(x) {
                let k = choose|k: int| 0 <= k < list.len() && list[k] == x;
                if k < list.len() - 1 {
                    assert(list.drop_last()[k] == x);
                    assert(list.drop_last().contains(x));
                    assert(front.contains(x));
                    let j = choose|j: int| 0 <= j < front.len() && front[j] == x;
                    assert(unique(list)[j] == x);
                } else if front.contains(x) {
                } else {
                    assert(unique(list)[front.len() as int] == x);
                }
            }
        }
    }
}

/// A list that holds an element twice has fewer first occurrences than
/// elements.
pub proof fn lemma_unique_is_shorter(list: Seq<Seq<char>>, i: int, j: int)
    requires
        0 <= i < j < list.len(),
        list[i] == list[j],
    ensures
        unique(list).len() < list.len(),
    decreases list.len(),
{
    let front = list.drop_last();
    lemma_unique(front);
    if j == list.len() - 1 {
        assert(front[i] == list.last());
        assert(front.contains(list.last()));
    } else {
        assert(front[i] == front[j]);
        lemma_unique_is_shorter(front, i, j);
    }
}

/// A set of paths that keeps the order in which the paths were put into
/// it. It holds no path twice, and finds the place of a path at once.
pub struct OrderedPathSet {
    items: Vec<String>,
    places: StringHashMap<usize>,
}

impl View for OrderedPathSet {
    type V = Seq<Seq<char>>;

    closed spec fn view(&self) -> Seq<Seq<char>> {
        texts(self.items@)
    }
}

impl OrderedPathSet {
    #[verifier::type_invariant]
    spec fn places_are_right(self) -> bool {
        &&& forall|x: Seq<char>| #[trigger]
            self.places@.contains_key(x) <==> texts(self.items@).contains(x)
        &&& forall|x: Seq<char>| #[trigger]
            self.places@.contains_key(x) ==> 0 <= self.places@[x] < self.items@.len() && texts(
                self.items@,
            )[self.places@[x] as int] == x
        &&& texts(self.items@).no_duplicates()
    }

    /// A set without paths.
    pub fn new() -> (s: Self)
        ensures
            s@ == Seq::<Seq<char>>::empty(),
    {
        let items: Vec<String> = Vec::new();
        let places = StringHashMap::new();
        assert(texts(items@) =~= Seq::<Seq<char>>::empty());
        OrderedPathSet { items, places }
    }

    /// Whether the set holds `path`.
    pub fn contains(&self, path: &str) -> (b: bool)
        ensures
            b == self@.contains(path@),
    {
        proof {
            use_type_invariant(self);
        }
        self.places.contains_key(path)
    }

    /// The place of `path` in the order of the set, if the set holds it.
    pub fn position(&self, path: &str) -> (r: Option<usize>)
        ensures
            match r {
                Some(k) => k < self@.len() && self@[k as int] == path@,
                None => !self@.contains(path@),
            },
            self@.no_duplicates(),
    {
        proof {
            use_type_invariant(self);
        }
        match self.places.get(path) {
            Some(k) => Some(*k),
            None => None,
        }
    }

    /// How many paths the set holds. None of them is held twice.
    pub fn len(&self) -> (n: usize)
        ensures
            n == self@.len(),
            self@.no_duplicates(),
    {
        proof {
            use_type_invariant(self);
        }
        self.items.len()
    }

    /// Puts `path` behind the paths of the set, unless the set holds it.
    /// Returns the set and whether the path was put into it.
    pub fn insert(self, path: &str) -> (r: (Self, bool))
        ensures
            r.1 == !self@.contains(path@),
            r.0@ == if r.1 {
                self@.push(path@)
            } else {
                self@
            },
            r.0@.no_duplicates(),
    {
        proof {
            use_type_invariant(&self);
        }
        if self.places.contains_key(path) {
            return (self, false);
        }
        let OrderedPathSet { mut items, mut places } = self;
        let ghost before = texts(items@);
        let ghost places_before = places@;
        let place = items.len();
        items.push(path.to_owned());
        places.insert(path.to_owned(), place);
        proof {
            let after = texts(items@);
            assert(after =~= before.push(path@));
            assert(after[place as int] == path@);
            assert forall|x: Seq<char>| #[trigger]
                places@.contains_key(x) <==> after.contains(x) by {
                if after.contains(x) {
                    let j = choose|j: int| 0 <= j < after.len() && after[j] == x;
                    if j < before.len() {
                        assert(before[j] == x);
                        assert(before.contains(x));
                        assert(places_before.contains_key(x));
                    }
                }
                if places_before.contains_key(x) {
                    assert(before.contains(x));
                    let j = choose|j: int| 0 <= j < before.len() && before[j] == x;
                    assert(after[j] == x);
                }
            }
            assert forall|x: Seq<char>| #[trigger] places@.contains_key(x) implies 0 <= places@[x]
                < items@.len() && after[places@[x] as int] == x by {
                if x != path@ {
                    assert(places_before.contains_key(x));
                    assert(before[places_before[x] as int] == x);
                }
            }
            assert forall|i: int, j: int|
                0 <= i < after.len() && 0 <= j < after.len() && i != j implies after[i]
                != after[j] by {
                if i == before.len() {
                    if before[j] == path@ {
                        assert(before.contains(path@));
                    }
                } else if j == before.len() {
                    if before[i] == path@ {
                        assert(before.contains(path@));
                    }
                }
            }
        }
        (OrderedPathSet { items, places }, true)
    }

    /// The paths of the set, in the order in which they were put into it.
    pub fn as_slice(&self) -> (paths: &[String])
        ensures
            texts(paths@) == self@,
            texts(paths@).no_duplicates(),
    {
        proof {
            use_type_invariant(self);
        }
        self.items.as_slice()
    }

    /// The paths of the set, in the order in which they were put into it.
    pub fn into_vec(self) -> (paths: Vec<String>)
        ensures
            texts(paths@) == self@,
            texts(paths@).no_duplicates(),
    {
        proof {
            use_type_invariant(&self);
        }
        self.items
    }
}

/// The first occurrences in `list`, in their order.
pub fn unique_texts(list: &[String]) -> (r: Vec<String>)
    ensures
        texts(r@) == unique(texts(list@)),
        texts(r@).no_duplicates(),
{
    let ghost all = texts(list@);
    let mut set = OrderedPathSet::new();
    assert(set@ =~= unique(all.take(0)));
    let mut i: usize = 0;
    while i < list.len()
        invariant
            i <= list.len(),
            all == texts(list@),
            set@ == unique(all.take(i as int)),
        decreases list.len() - i,
    {
        proof {
            assert(all.take(i + 1).drop_last() == all.take(i as int));
            assert(all.take(i + 1).last() == list[i as int]@);
        }
        let (next, _) = set.insert(list[i].as_str());
        set = next;
        i += 1;
    }
    assert(all.take(list.len() as int) == all);
    set.into_vec()
}

/// Whether `a` stands before `b`, or is `b`, in the lexicographic order of
/// their characters' code points.
pub open spec fn lex_le(a: Seq<char>, b: Seq<char>) -> bool
    decreases a.len(),
{
    if a.len() == 0 {
        true
    } else if b.len() == 0 {
        false
    } else if a[0] != b[0] {
        (a[0] as int) < (b[0] as int)
    } else {
        lex_le(a.drop_first(), b.drop_first())
    }
}

pub proof fn lemma_lex_le_reflexive(a: Seq<char>)
    ensures
        lex_le(a, a),
    decreases a.len(),
{
    if a.len() > 0 {
        lemma_lex_le_reflexive(a.drop_first());
    }
}

pub proof fn lemma_lex_le_total(a: Seq<char>, b: Seq<char>)
    ensures
        lex_le(a, b) || lex_le(b, a),
    decreases a.len(),
{
    if a.len() > 0 && b.len() > 0 && a[0] == b[0] {
        lemma_lex_le_total(a.drop_first(), b.drop_first());
    }
}

pub proof fn lemma_lex_le_antisymmetric(a: Seq<char>, b: Seq<char>)
    requires
        lex_le(a, b),
        lex_le(b, a),
    ensures
        a == b,
    decreases a.len(),
{
    if a.len() > 0 && b.len() > 0 {
        lemma_lex_le_antisymmetric(a.drop_first(), b.drop_first());
        assert(a =~= seq![a[0]] + a.drop_first());
        assert(b =~= seq![b[0]] + b.drop_first());
    } else {
        assert(a =~= b);
    }
}

pub proof fn lemma_lex_le_transitive(a: Seq<char>, b: Seq<char>, c: Seq<char>)
    requires
        lex_le(a, b),
        lex_le(b, c),
    ensures
        lex_le(a, c),
    decreases a.len(),
{
    if a.len() > 0 && b.len() > 0 && c.len() > 0 && a[0] == b[0] && b[0] == c[0] {
        lemma_lex_le_transitive(a.drop_first(), b.drop_first(), c.drop_first());
    }
}

/// The lexicographic order is a total order.
pub proof fn lemma_lex_le_total_ordering()
    ensures
        vstd::relations::total_ordering(|a: Seq<char>, b: Seq<char>| lex_le(a, b)),
{
    let leq = |a: Seq<char>, b: Seq<char>| lex_le(a, b);
    assert forall|a: Seq<char>| #[trigger] leq(a, a) by {
        lemma_lex_le_reflexive(a);
    }
    assert forall|a: Seq<char>, b: Seq<char>| #[trigger] leq(a, b) && #[trigger] leq(b, a) implies a
        == b by {
        lemma_lex_le_antisymmetric(a, b);
    }
    assert forall|a: Seq<char>, b: Seq<char>, c: Seq<char>| #[trigger]
        leq(a, b) && #[trigger] leq(b, c) implies leq(a, c) by {
        lemma_lex_le_transitive(a, b, c);
    }
    assert forall|a: Seq<char>, b: Seq<char>| #[trigger] leq(a, b) || #[trigger] leq(b, a) by {
        lemma_lex_le_total(a, b);
    }
}

/// Whether `a` stands before `b`, or is `b`, in the lexicographic order.
pub fn lex_le_chars(a: &Vec<char>, b: &Vec<char>) -> (r: bool)
    ensures
        r == lex_le(a@, b@),
{
    let mut i: usize = 0;
    assert(a@.skip(0) == a@ && b@.skip(0) == b@);
    while i < a.len() && i < b.len()
        invariant
            i <= a.len(),
            i <= b.len(),
            lex_le(a@, b@) == lex_le(a@.skip(i as int), b@.skip(i as int)),
        decreases a.len() - i,
    {
        proof {
            assert(a@.skip(i as int).drop_first() == a@.skip(i + 1));
            assert(b@.skip(i as int).drop_first() == b@.skip(i + 1));
            assert(a@.skip(i as int)[0] == a@[i as int]);
            assert(b@.skip(i as int)[0] == b@[i as int]);
        }
        if a[i] != b[i] {
            return a[i] < b[i];
        }
        i += 1;
    }
    i == a.len()
}

/// Whether `list` is in lexicographic order.
pub open spec fn is_sorted(list: Seq<Seq<char>>) -> bool {
    sorted_by(list, |a: Seq<char>, b: Seq<char>| lex_le(a, b))
}

/// Whether each element of `list` stands before those behind it, or is
/// equal to them.
spec fn ascending(list: Seq<Seq<char>>) -> bool {
    forall|i: int, j: int|
        0 <= i < j < list.len() ==> lex_le(#[trigger] list[i], #[trigger] list[j])
}

/// Whether each element of `list` stands behind those behind it, or is
/// equal to them.
spec fn descending(list: Seq<Seq<char>>) -> bool {
    forall|i: int, j: int|
        0 <= i < j < list.len() ==> lex_le(#[trigger] list[j], #[trigger] list[i])
}

/// Whether each element of `low` stands before each element of `high`, or
/// is equal to it.
spec fn all_before(low: Seq<Seq<char>>, high: Seq<Seq<char>>) -> bool {
    forall|i: int, j: int|
        0 <= i < low.len() && 0 <= j < high.len() ==> lex_le(#[trigger] low[i], #[trigger] high[j])
}

/// Merges two lists that are in order into one.
fn merge(a: Vec<Vec<char>>, b: Vec<Vec<char>>) -> (r: Vec<Vec<char>>)
    requires
        ascending(char_texts(a@)),
        ascending(char_texts(b@)),
    ensures
        ascending(char_texts(r@)),
        char_texts(r@).to_multiset() == char_texts(a@).to_multiset().add(
            char_texts(b@).to_multiset(),
        ),
{
    broadcast use vstd::multiset::group_multiset_axioms;

    let ghost total = char_texts(a@).to_multiset().add(char_texts(b@).to_multiset());
    let mut a = a;
    let mut b = b;
    let mut high: Vec<Vec<char>> = Vec::new();
    assert(char_texts(high@) =~= Seq::<Seq<char>>::empty());
    assert(char_texts(high@).to_multiset() =~= Multiset::<Seq<char>>::empty()) by {
        char_texts(high@).to_multiset_ensures();
    }
    while a.len() > 0 || b.len() > 0
        invariant
            ascending(char_texts(a@)),
            ascending(char_texts(b@)),
            descending(char_texts(high@)),
            all_before(char_texts(a@), char_texts(high@)),
            all_before(char_texts(b@), char_texts(high@)),
            char_texts(high@).to_multiset().add(char_texts(a@).to_multiset()).add(
                char_texts(b@).to_multiset(),
            ) == total,
        decreases a.len() + b.len(),
    {
        let ghost old_a = char_texts(a@);
        let ghost old_b = char_texts(b@);
        let ghost old_high = char_texts(high@);
        let from_b = if a.len() == 0 {
            true
        } else if b.len() == 0 {
            false
        } else {
            assert(old_a[a.len() - 1] == a[a.len() - 1]@);
            assert(old_b[b.len() - 1] == b[b.len() - 1]@);
            lex_le_chars(&a[a.len() - 1], &b[b.len() - 1])
        };
        if from_b {
            let x = b.pop().unwrap();
            high.push(x);
            proof {
                let top = old_b[old_b.len() - 1];
                assert(char_texts(b@) =~= old_b.drop_last());
                assert(char_texts(high@) =~= old_high.push(top));
                assert(old_b =~= old_b.drop_last().push(top));
                to_multiset_build(old_b.drop_last(), top);
                to_multiset_build(old_high, top);
                assert forall|i: int, j: int| 0 <= i < j < old_high.len() + 1 implies lex_le(
                    #[trigger] old_high.push(top)[j],
                    #[trigger] old_high.push(top)[i],
                ) by {
                    if j == old_high.len() {
                        assert(lex_le(old_b[old_b.len() - 1], old_high[i]));
                    } else {
                        assert(lex_le(old_high[j], old_high[i]));
                    }
                }
                assert forall|i: int, j: int|
                    0 <= i < old_a.len() && 0 <= j < old_high.len() + 1 implies lex_le(
                    #[trigger] old_a[i],
                    #[trigger] old_high.push(top)[j],
                ) by {
                    if j == old_high.len() {
                        if i < old_a.len() - 1 {
                            assert(lex_le(old_a[i], old_a[old_a.len() - 1]));
                            lemma_lex_le_transitive(old_a[i], old_a[old_a.len() - 1], top);
                        }
                    } else {
                        assert(lex_le(old_a[i], old_high[j]));
                    }
                }
                assert forall|i: int, j: int|
                    0 <= i < old_b.len() - 1 && 0 <= j < old_high.len() + 1 implies lex_le(
                    #[trigger] old_b.drop_last()[i],
                    #[trigger] old_high.push(top)[j],
                ) by {
                    if j == old_high.len() {
                        assert(lex_le(old_b[i], old_b[old_b.len() - 1]));
                    } else {
                        assert(lex_le(old_b[i], old_high[j]));
                    }
                }
                assert forall|i: int, j: int| 0 <= i < j < old_b.len() - 1 implies lex_le(
                    #[trigger] old_b.drop_last()[i],
                    #[trigger] old_b.drop_last()[j],
                ) by {
                    assert(lex_le(old_b[i], old_b[j]));
                }
                assert(char_texts(high@).to_multiset().add(char_texts(a@).to_multiset()).add(
                    char_texts(b@).to_multiset(),
                ) =~= total);
            }
        } else {
            let x = a.pop().unwrap();
            high.push(x);
            proof {
                let top = old_a[old_a.len() - 1];
                assert(char_texts(a@) =~= old_a.drop_last());
                assert(char_texts(high@) =~= old_high.push(top));
                assert(old_a =~= old_a.drop_last().push(top));
                to_multiset_build(old_a.drop_last(), top);
                to_multiset_build(old_high, top);
                if old_b.len() > 0 {
                    lemma_lex_le_total(old_a[old_a.len() - 1], old_b[old_b.len() - 1]);
                }
                assert forall|i: int, j: int| 0 <= i < j < old_high.len() + 1 implies lex_le(
                    #[trigger] old_high.push(top)[j],
                    #[trigger] old_high.push(top)[i],
                ) by {
                    if j == old_high.len() {
                        assert(lex_le(old_a[old_a.len() - 1], old_high[i]));
                    } else {
                        assert(lex_le(old_high[j], old_high[i]));
                    }
                }
                assert forall|i: int, j: int|
                    0 <= i < old_b.len() && 0 <= j < old_high.len() + 1 implies lex_le(
                    #[trigger] old_b[i],
                    #[trigger] old_high.push(top)[j],
                ) by {
                    if j == old_high.len() {
                        if i < old_b.len() - 1 {
                            assert(lex_le(old_b[i], old_b[old_b.len() - 1]));
                        } else {
                            lemma_lex_le_reflexive(old_b[i]);
                        }
                        lemma_lex_le_transitive(old_b[i], old_b[old_b.len() - 1], top);
                    } else {
                        assert(lex_le(old_b[i], old_high[j]));
                    }
                }
                assert forall|i: int, j: int|
                    0 <= i < old_a.len() - 1 && 0 <= j < old_high.len() + 1 implies lex_le(
                    #[trigger] old_a.drop_last()[i],
                    #[trigger] old_high.push(top)[j],
                ) by {
                    if j == old_high.len() {
                        assert(lex_le(old_a[i], old_a[old_a.len() - 1]));
                    } else {
                        assert(lex_le(old_a[i], old_high[j]));
                    }
                }
                assert forall|i: int, j: int| 0 <= i < j < old_a.len() - 1 implies lex_le(
                    #[trigger] old_a.drop_last()[i],
                    #[trigger] old_a.drop_last()[j],
                ) by {
                    assert(lex_le(old_a[i], old_a[j]));
                }
                assert(char_texts(high@).to_multiset().add(char_texts(a@).to_multiset()).add(
                    char_texts(b@).to_multiset(),
                ) =~= total);
            }
        }
    }
    proof {
        assert(char_texts(a@) =~= Seq::<Seq<char>>::empty());
        assert(char_texts(b@) =~= Seq::<Seq<char>>::empty());
        char_texts(a@).to_multiset_ensures();
        char_texts(b@).to_multiset_ensures();
        assert(char_texts(a@).to_multiset() =~= Multiset::<Seq<char>>::empty());
        assert(char_texts(b@).to_multiset() =~= Multiset::<Seq<char>>::empty());
        assert(char_texts(high@).to_multiset() =~= total);
    }
    let mut r: Vec<Vec<char>> = Vec::new();
    proof {
        assert(char_texts(r@) =~= Seq::<Seq<char>>::empty());
        char_texts(r@).to_multiset_ensures();
        assert(char_texts(r@).to_multiset() =~= Multiset::<Seq<char>>::empty());
        assert(char_texts(r@).to_multiset().add(char_texts(high@).to_multiset()) =~= total);
    }
    while high.len() > 0
        invariant
            ascending(char_texts(r@)),
            descending(char_texts(high@)),
            all_before(char_texts(r@), char_texts(high@)),
            char_texts(r@).to_multiset().add(char_texts(high@).to_multiset()) == total,
        decreases high.len(),
    {
        let ghost old_r = char_texts(r@);
        let ghost old_high = char_texts(high@);
        let x = high.pop().unwrap();
        r.push(x);
        proof {
            let top = old_high[old_high.len() - 1];
            assert(char_texts(high@) =~= old_high.drop_last());
            assert(char_texts(r@) =~= old_r.push(top));
            assert(old_high =~= old_high.drop_last().push(top));
            to_multiset_build(old_high.drop_last(), top);
            to_multiset_build(old_r, top);
            assert forall|i: int, j: int| 0 <= i < j < old_r.len() + 1 implies lex_le(
                #[trigger] old_r.push(top)[i],
                #[trigger] old_r.push(top)[j],
            ) by {
                if j == old_r.len() {
                    assert(lex_le(old_r[i], old_high[old_high.len() - 1]));
                } else {
                    assert(lex_le(old_r[i], old_r[j]));
                }
            }
            assert forall|i: int, j: int|
                0 <= i < old_r.len() + 1 && 0 <= j < old_high.len() - 1 implies lex_le(
                #[trigger] old_r.push(top)[i],
                #[trigger] old_high.drop_last()[j],
            ) by {
                if i == old_r.len() {
                    assert(lex_le(old_high[old_high.len() - 1], old_high[j]));
                } else {
                    assert(lex_le(old_r[i], old_high[j]));
                }
            }
            assert forall|i: int, j: int| 0 <= i < j < old_high.len() - 1 implies lex_le(
                #[trigger] old_high.drop_last()[j],
                #[trigger] old_high.drop_last()[i],
            ) by {
                assert(lex_le(old_high[j], old_high[i]));
            }
            assert(char_texts(r@).to_multiset().add(char_texts(high@).to_multiset()) =~= total);
        }
    }
    proof {
        assert(char_texts(high@) =~= Seq::<Seq<char>>::empty());
        char_texts(high@).to_multiset_ensures();
        assert(char_texts(high@).to_multiset() =~= Multiset::<Seq<char>>::empty());
        assert(char_texts(r@).to_multiset() =~= total);
    }
    r
}

/// Puts `list` in lexicographic order.
fn merge_sort(list: Vec<Vec<char>>) -> (r: Vec<Vec<char>>)
    ensures
        ascending(char_texts(r@)),
        char_texts(r@).to_multiset() == char_texts(list@).to_multiset(),
    decreases list@.len(),
{
    if list.len() <= 1 {
        return list;
    }
    let ghost all = char_texts(list@);
    let mut left = list;
    let mid = left.len() / 2;
    let right = left.split_off(mid);
    proof {
        assert(all =~= char_texts(left@) + char_texts(right@));
        lemma_multiset_commutative(char_texts(left@), char_texts(right@));
    }
    let left = merge_sort(left);
    let right = merge_sort(right);
    merge(left, right)
}

/// The strings of `list` in lexicographic order.
pub fn sort_texts(list: Vec<String>) -> (r: Vec<String>)
    ensures
        is_sorted(texts(r@)),
        texts(r@).to_multiset() == texts(list@).to_multiset(),
{
    let mut keys: Vec<Vec<char>> = Vec::new();
    let mut i: usize = 0;
    assert(char_texts(keys@) =~= texts(list@).take(0));
    while i < list.len()
        invariant
            i <= list.len(),
            char_texts(keys@) == texts(list@).take(i as int),
        decreases list.len() - i,
    {
        let ghost before = char_texts(keys@);
        keys.push(chars_of(list[i].as_str()));
        proof {
            assert(char_texts(keys@) =~= before.push(list[i as int]@));
            assert(texts(list@).take(i + 1) =~= texts(list@).take(i as int).push(
                list[i as int]@,
            ));
        }
        i += 1;
    }
    assert(texts(list@).take(list.len() as int) == texts(list@));
    let sorted = merge_sort(keys);
    let mut r: Vec<String> = Vec::new();
    let mut k: usize = 0;
    assert(texts(r@) =~= char_texts(sorted@).take(0));
    while k < sorted.len()
        invariant
            k <= sorted.len(),
            texts(r@) == char_texts(sorted@).take(k as int),
        decreases sorted.len() - k,
    {
        let ghost before = texts(r@);
        r.push(string_of(&sorted[k]));
        proof {
            assert(texts(r@) =~= before.push(sorted[k as int]@));
            assert(char_texts(sorted@).take(k + 1) =~= char_texts(sorted@).take(k as int).push(
                sorted[k as int]@,
            ));
        }
        k += 1;
    }
    proof {
        assert(char_texts(sorted@).take(sorted.len() as int) == char_texts(sorted@));
        let leq = |a: Seq<char>, b: Seq<char>| lex_le(a, b);
        assert forall|x: int, y: int| 0 <= x < y < texts(r@).len() implies #[trigger] leq(
            texts(r@)[x],
            texts(r@)[y],
        ) by {
            assert(lex_le(char_texts(sorted@)[x], char_texts(sorted@)[y]));
        }
    }
    r
}

} // verus!

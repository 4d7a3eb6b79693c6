//! Putting texts and numbers in order.

use vstd::prelude::*;

use crate::text::chars_of;

verus! {

broadcast use vstd::seq_lib::group_to_multiset_ensures;

// ---- texts ------------------------------------------------------------------------------

/// `a` comes before `b` in a dictionary that goes by code points.
pub open spec fn text_before(a: Seq<char>, b: Seq<char>) -> bool
    decreases a.len(),
{
    if b.len() == 0 {
        false
    } else if a.len() == 0 {
        true
    } else if a[0] != b[0] {
        a[0] < b[0]
    } else {
        text_before(a.skip(1), b.skip(1))
    }
}

/// None of them comes before one that stands in front of it.
pub open spec fn texts_sorted(list: Seq<String>) -> bool {
    forall|i: int, j: int|
        0 <= i < j < list.len() ==> !text_before(#[trigger] list[j]@, #[trigger] list[i]@)
}

/// Each comes before all that stand behind it.
pub open spec fn texts_ascending(list: Seq<String>) -> bool {
    forall|i: int, j: int|
        0 <= i < j < list.len() ==> text_before(#[trigger] list[i]@, #[trigger] list[j]@)
}

proof fn lemma_not_before_itself(a: Seq<char>)
    ensures
        !text_before(a, a),
    decreases a.len(),
{
    if a.len() > 0 {
        lemma_not_before_itself(a.skip(1));
    }
}

proof fn lemma_before_transitive(a: Seq<char>, b: Seq<char>, c: Seq<char>)
    requires
        text_before(a, b),
        text_before(b, c),
    ensures
        text_before(a, c),
    decreases a.len(),
{
    if a.len() > 0 && a[0] == b[0] && b[0] == c[0] {
        lemma_before_transitive(a.skip(1), b.skip(1), c.skip(1));
    }
}

proof fn lemma_before_total(a: Seq<char>, b: Seq<char>)
    ensures
        text_before(a, b) || text_before(b, a) || a == b,
    decreases a.len(),
{
    if a.len() > 0 && b.len() > 0 && a[0] == b[0] {
        lemma_before_total(a.skip(1), b.skip(1));
        if a.skip(1) == b.skip(1) {
            assert(a =~= seq![a[0]] + a.skip(1));
            assert(b =~= seq![b[0]] + b.skip(1));
        }
    } else if a.len() == 0 && b.len() == 0 {
        assert(a =~= b);
    }
}

/// Whether `a` comes before `b`.
pub fn is_before(a: &str, b: &str) -> (r: bool)
    ensures
        r == text_before(a@, b@),
{
    let x = chars_of(a);
    let y = chars_of(b);
    let mut i: usize = 0;
    assert(x@.skip(0) =~= x@);
    assert(y@.skip(0) =~= y@);
    while i < x.len() && i < y.len() && x[i] == y[i]
        invariant
            i <= x@.len(),
            i <= y@.len(),
            text_before(x@, y@) == text_before(x@.skip(i as int), y@.skip(i as int)),
        decreases x@.len() - i,
    {
        assert(x@.skip(i as int).skip(1) =~= x@.skip(i + 1));
        assert(y@.skip(i as int).skip(1) =~= y@.skip(i + 1));
        i = i + 1;
    }
    if i == y.len() {
        false
    } else if i == x.len() {
        true
    } else {
        x[i] < y[i]
    }
}

/// Where `x` belongs in a sorted list: behind all that do not come after it.
fn place_in(list: &Vec<String>, x: &String) -> (p: usize)
    requires
        texts_sorted(list@),
    ensures
        p <= list@.len(),
        forall|k: int| 0 <= k < p ==> !text_before(x@, #[trigger] list@[k]@),
        forall|k: int| p <= k < list@.len() ==> text_before(x@, #[trigger] list@[k]@),
{
    let mut p: usize = 0;
    while p < list.len() && !is_before(x.as_str(), list[p].as_str())
        invariant
            p <= list@.len(),
            forall|k: int| 0 <= k < p ==> !text_before(x@, #[trigger] list@[k]@),
        decreases list@.len() - p,
    {
        p = p + 1;
    }
    assert forall|k: int| p <= k < list@.len() implies text_before(x@, #[trigger] list@[k]@) by {
        if k > p {
            let first = list@[p as int]@;
            let later = list@[k]@;
            lemma_before_total(first, later);
            if text_before(first, later) {
                lemma_before_transitive(x@, first, later);
            }
        }
    }
    p
}

/// The texts in order.
pub fn sort_texts(list: Vec<String>) -> (sorted: Vec<String>)
    ensures
        texts_sorted(sorted@),
        sorted@.to_multiset() == list@.to_multiset(),
{
    let mut sorted: Vec<String> = Vec::new();
    let mut i: usize = 0;
    assert(list@.take(0) =~= seq![]);
    while i < list.len()
        invariant
            i <= list@.len(),
            texts_sorted(sorted@),
            sorted@.to_multiset() == list@.take(i as int).to_multiset(),
        decreases list@.len() - i,
    {
        let x = list[i].clone();
        let p: usize = place_in(&sorted, &x);
        let ghost before = sorted@;
        sorted.insert(p, x);
        proof {
            vstd::seq_lib::to_multiset_insert(before, p as int, x);
            assert(list@.take(i + 1) =~= list@.take(i as int).push(x));
            assert forall|a: int, b: int| 0 <= a < b < sorted@.len() implies !text_before(
                #[trigger] sorted@[b]@,
                #[trigger] sorted@[a]@,
            ) by {
                if b == p {
                    assert(sorted@[a] == before[a]);
                } else if a == p {
                    let later = before[b - 1]@;
                    assert(sorted@[b] == before[b - 1]);
                    if text_before(later, x@) {
                        lemma_before_transitive(later, x@, later);
                        lemma_not_before_itself(later);
                    }
                } else {
                    let a0 = if a < p {
                        a
                    } else {
                        a - 1
                    };
                    let b0 = if b < p {
                        b
                    } else {
                        b - 1
                    };
                    assert(sorted@[a] == before[a0] && sorted@[b] == before[b0]);
                }
            }
        }
        i = i + 1;
    }
    assert(list@.take(i as int) =~= list@);
    sorted
}

/// Some text of the list reads so.
pub open spec fn listed(list: Seq<String>, text: Seq<char>) -> bool {
    exists|i: int| 0 <= i < list.len() && #[trigger] list[i]@ == text
}

/// Adds a text to a list in which each stands once, in order.
pub fn add_text(list: &mut Vec<String>, x: String)
    requires
        texts_ascending(old(list)@),
    ensures
        texts_ascending(final(list)@),
        forall|t: Seq<char>| #[trigger]
            listed(final(list)@, t) <==> listed(old(list)@, t) || t == x@,
{
    let ghost before = list@;
    proof {
        assert forall|i: int, j: int| 0 <= i < j < before.len() implies !text_before(
            #[trigger] before[j]@,
            #[trigger] before[i]@,
        ) by {
            if text_before(before[j]@, before[i]@) {
                lemma_before_transitive(before[i]@, before[j]@, before[i]@);
                lemma_not_before_itself(before[i]@);
            }
        }
    }
    let p: usize = place_in(list, &x);
    if p > 0 && list[p - 1] == x {
        assert(listed(before, x@)) by {
            assert(before[p - 1]@ == x@);
        }
        return ;
    }
    list.insert(p, x);
    proof {
        assert forall|a: int, b: int| 0 <= a < b < list@.len() implies text_before(
            #[trigger] list@[a]@,
            #[trigger] list@[b]@,
        ) by {
            if b == p {
                assert(list@[a] == before[a]);
                lemma_before_total(before[a]@, x@);
                if before[a]@ == x@ && a < p - 1 {
                    assert(text_before(before[a]@, before[p - 1]@));
                    assert(false);
                }
            } else if a == p {
                assert(list@[b] == before[b - 1]);
            } else {
                let a0 = if a < p {
                    a
                } else {
                    a - 1
                };
                let b0 = if b < p {
                    b
                } else {
                    b - 1
                };
                assert(list@[a] == before[a0] && list@[b] == before[b0]);
            }
        }
        assert forall|t: Seq<char>| #[trigger] listed(list@, t) <==> listed(before, t) || t == x@ by {
            if listed(list@, t) {
                let i = choose|i: int| 0 <= i < list@.len() && #[trigger] list@[i]@ == t;
                if i < p {
                    assert(before[i]@ == t);
                } else if i > p {
                    assert(before[i - 1]@ == t);
                }
            }
            if listed(before, t) {
                let i = choose|i: int| 0 <= i < before.len() && #[trigger] before[i]@ == t;
                if i < p {
                    assert(list@[i]@ == t);
                } else {
                    assert(list@[i + 1]@ == t);
                }
            }
            if t == x@ {
                assert(list@[p as int]@ == t);
            }
        }
    }
}

// ---- numbers ------------------------------------------------------------------------------

/// Ascending.
pub open spec fn numbers_sorted(s: Seq<u64>) -> bool {
    forall|i: int, j: int| 0 <= i <= j < s.len() ==> s[i] <= s[j]
}

/// Two sorted lists made one.
fn merge(a: &Vec<u64>, b: &Vec<u64>) -> (out: Vec<u64>)
    requires
        numbers_sorted(a@),
        numbers_sorted(b@),
    ensures
        numbers_sorted(out@),
        out@.to_multiset() == a@.to_multiset().add(b@.to_multiset()),
{
    let mut out: Vec<u64> = Vec::new();
    let mut i: usize = 0;
    let mut j: usize = 0;
    assert(a@.take(0) =~= seq![]);
    assert(b@.take(0) =~= seq![]);
    assert(out@.to_multiset() =~= a@.take(0).to_multiset().add(b@.take(0).to_multiset()));
    while i < a.len() || j < b.len()
        invariant
            i <= a@.len(),
            j <= b@.len(),
            numbers_sorted(a@),
            numbers_sorted(b@),
            numbers_sorted(out@),
            forall|k: int| 0 <= k < out@.len() && i < a@.len() ==> out@[k] <= a@[i as int],
            forall|k: int| 0 <= k < out@.len() && j < b@.len() ==> out@[k] <= b@[j as int],
            out@.to_multiset() == a@.take(i as int).to_multiset().add(
                b@.take(j as int).to_multiset(),
            ),
        decreases a@.len() - i + b@.len() - j,
    {
        let from_a = j >= b.len() || (i < a.len() && a[i] <= b[j]);
        if from_a {
            out.push(a[i]);
            proof {
                assert(a@.take(i + 1) =~= a@.take(i as int).push(a@[i as int]));
                assert(out@.to_multiset() =~= a@.take(i + 1).to_multiset().add(
                    b@.take(j as int).to_multiset(),
                ));
            }
            i = i + 1;
        } else {
            out.push(b[j]);
            proof {
                assert(b@.take(j + 1) =~= b@.take(j as int).push(b@[j as int]));
                assert(out@.to_multiset() =~= a@.take(i as int).to_multiset().add(
                    b@.take(j + 1).to_multiset(),
                ));
            }
            j = j + 1;
        }
    }
    assert(a@.take(i as int) =~= a@);
    assert(b@.take(j as int) =~= b@);
    out
}

/// The numbers in order.
pub fn sort_numbers(v: &[u64]) -> (out: Vec<u64>)
    ensures
        numbers_sorted(out@),
        out@.to_multiset() == v@.to_multiset(),
        out@.len() == v@.len(),
    decreases v@.len(),
{
    let n: usize = v.len();
    if n <= 1 {
        let mut out: Vec<u64> = Vec::new();
        if n == 1 {
            out.push(v[0]);
        }
        assert(out@ =~= v@);
        return out;
    }
    let half: usize = n / 2;
    let a = sort_numbers(&v[0..half]);
    let b = sort_numbers(&v[half..n]);
    let out = merge(&a, &b);
    proof {
        let l = v@.subrange(0, half as int);
        let r = v@.subrange(half as int, n as int);
        assert(l + r =~= v@);
        vstd::seq_lib::lemma_multiset_commutative(l, r);
        assert(out@.to_multiset() == v@.to_multiset());
        assert(out@.len() == out@.to_multiset().len());
    }
    out
}

/// `m` is the upper median of the numbers: the one in the middle once they are in
/// order.
pub open spec fn is_median(v: Seq<u64>, m: u64) -> bool {
    exists|s: Seq<u64>| #[trigger]
        numbers_sorted(s) && s.to_multiset() == v.to_multiset() && s.len() == v.len() && m
            == s[s.len() as int / 2]
}

/// The upper median, and 0 of nothing.
pub open spec fn median_of(v: Seq<u64>) -> u64 {
    if v.len() == 0 {
        0
    } else {
        choose|m: u64| is_median(v, m)
    }
}

/// The upper median, and 0 of nothing.
pub fn median(v: &Vec<u64>) -> (m: u64)
    ensures
        m == median_of(v@),
        v@.len() > 0 ==> is_median(v@, m),
{
    if v.len() == 0 {
        return 0;
    }
    let s = sort_numbers(v.as_slice());
    let m: u64 = s[s.len() / 2];
    proof {
        assert(numbers_sorted(s@) && s@.to_multiset() == v@.to_multiset());
        assert(is_median(v@, m));
        law_median_is_unique(v@, m, median_of(v@));
    }
    m
}

// ---- laws -----------------------------------------------------------------------------

/// Two texts that agree up to a place come in the order of the characters there.
pub proof fn lemma_before_at(a: Seq<char>, b: Seq<char>, i: int)
    requires
        0 <= i < a.len(),
        i < b.len(),
        forall|k: int| 0 <= k < i ==> a[k] == b[k],
        a[i] < b[i],
    ensures
        text_before(a, b),
    decreases i,
{
    if i > 0 {
        assert(a[0] == b[0]);
        assert forall|k: int| 0 <= k < i - 1 implies a.skip(1)[k] == b.skip(1)[k] by {
            assert(a[k + 1] == b[k + 1]);
        }
        lemma_before_at(a.skip(1), b.skip(1), i - 1);
    }
}

/// Numbers have one median.
pub proof fn law_median_is_unique(v: Seq<u64>, a: u64, b: u64)
    requires
        is_median(v, a),
        is_median(v, b),
    ensures
        a == b,
{
    let s = choose|s: Seq<u64>| #[trigger]
        numbers_sorted(s) && s.to_multiset() == v.to_multiset() && s.len() == v.len() && a
            == s[s.len() as int / 2];
    let t = choose|s: Seq<u64>| #[trigger]
        numbers_sorted(s) && s.to_multiset() == v.to_multiset() && s.len() == v.len() && b
            == s[s.len() as int / 2];
    vstd::seq_lib::lemma_sorted_unique(s, t, |x: u64, y: u64| x <= y);
}

/// Of any two texts one comes before the other, unless they are the same, and no
/// two come before each other.
pub proof fn law_texts_are_totally_ordered(a: Seq<char>, b: Seq<char>)
    ensures
        text_before(a, b) || text_before(b, a) || a == b,
        !(text_before(a, b) && text_before(b, a)),
{
    lemma_before_total(a, b);
    if text_before(a, b) && text_before(b, a) {
        lemma_before_transitive(a, b, a);
        lemma_not_before_itself(a);
    }
}

/// The median of numbers in order is the one in the middle, the later of two.
pub proof fn law_the_median_stands_in_the_middle(s: Seq<u64>)
    requires
        s.len() > 0,
        forall|i: int, j: int| 0 <= i <= j < s.len() ==> #[trigger] s[i] <= #[trigger] s[j],
    ensures
        s.len() % 2 == 1 ==> median_of(s) == s[(s.len() - 1) / 2],
        s.len() % 2 == 0 ==> median_of(s) == s[s.len() as int / 2],
{
    let m = s[s.len() as int / 2];
    assert(numbers_sorted(s));
    assert(is_median(s, m));
    law_median_is_unique(s, m, median_of(s));
}

/// The order of the numbers makes no difference to their median.
pub proof fn law_order_makes_no_difference_to_the_median(a: Seq<u64>, b: Seq<u64>, m: u64)
    requires
        a.to_multiset() == b.to_multiset(),
        a.len() == b.len(),
    ensures
        is_median(a, m) <==> is_median(b, m),
{
    if is_median(a, m) {
        let s = choose|s: Seq<u64>| #[trigger]
            numbers_sorted(s) && s.to_multiset() == a.to_multiset() && s.len() == a.len() && m
                == s[s.len() as int / 2];
        assert(numbers_sorted(s) && s.to_multiset() == b.to_multiset());
    }
    if is_median(b, m) {
        let s = choose|s: Seq<u64>| #[trigger]
            numbers_sorted(s) && s.to_multiset() == b.to_multiset() && s.len() == b.len() && m
                == s[s.len() as int / 2];
        assert(numbers_sorted(s) && s.to_multiset() == a.to_multiset());
    }
}

/// A text comes before every longer one that begins with it, and a letter decides where
/// two texts first differ.
pub proof fn law_texts_come_in_the_order_of_a_dictionary(
    front: Seq<char>,
    a: char,
    b: char,
    x: Seq<char>,
    y: Seq<char>,
)
    ensures
        a < b ==> text_before(front.push(a) + x, front.push(b) + y),
        text_before(front, front.push(a)),
    decreases front.len(),
{
    let p = front.push(a) + x;
    let q = front.push(b) + y;
    if a < b {
        assert(p[front.len() as int] == a && q[front.len() as int] == b);
        assert forall|k: int| 0 <= k < front.len() implies p[k] == q[k] by {}
        lemma_before_at(p, q, front.len() as int);
    }
    if front.len() > 0 {
        law_texts_come_in_the_order_of_a_dictionary(front.skip(1), a, b, x, y);
        assert(front.push(a).skip(1) =~= front.skip(1).push(a));
    }
}

} // verus!

//! The order in which named things are packed and listed: by name, as the
//! characters of the names order them.

use vstd::prelude::*;
use vstd::seq_lib::to_multiset_insert;
use crate::text::chars_of;

verus! {

/// `a` stands before `b`, or is `b`: at the first place where they differ
/// `a` has the lesser character, or `a` ends there.
pub open spec fn comes_before(a: Seq<char>, b: Seq<char>) -> bool
    decreases a.len(),
{
    if a.len() == 0 {
        true
    } else if b.len() == 0 {
        false
    } else if a[0] == b[0] {
        comes_before(a.drop_first(), b.drop_first())
    } else {
        (a[0] as int) < (b[0] as int)
    }
}

/// A thing with a name by which it is ordered.
pub trait Named {
    /// The name.
    spec fn label(&self) -> Seq<char>;

    /// The characters of the name.
    fn label_chars(&self) -> (r: Vec<char>)
        ensures
            r@ == self.label(),
    ;
}

impl Named for String {
    open spec fn label(&self) -> Seq<char> {
        self@
    }

    fn label_chars(&self) -> (r: Vec<char>) {
        chars_of(self.as_str())
    }
}

/// `s` with `x` put in before the first thing that `x` comes before.
pub open spec fn insert_front<T: Named>(s: Seq<T>, x: T) -> Seq<T>
    decreases s.len(),
{
    if s.len() == 0 {
        seq![x]
    } else if comes_before(x.label(), s[0].label()) {
        seq![x] + s
    } else {
        seq![s[0]] + insert_front(s.drop_first(), x)
    }
}

/// The things of `s` in the order of their names; things of one name keep
/// the order that they have in `s`.
pub open spec fn sorted<T: Named>(s: Seq<T>) -> Seq<T>
    decreases s.len(),
{
    if s.len() == 0 {
        Seq::empty()
    } else {
        insert_front(sorted(s.drop_first()), s[0])
    }
}

/// Each thing of `s` comes before the next.
pub open spec fn is_ordered<T: Named>(s: Seq<T>) -> bool {
    forall|i: int| 0 <= i && i + 1 < s.len() ==> comes_before(#[trigger] s[i].label(), s[i + 1].label())
}

/// Of two names, one comes before the other.
pub proof fn lemma_comes_before_total(a: Seq<char>, b: Seq<char>)
    ensures
        comes_before(a, b) || comes_before(b, a),
    decreases a.len(),
{
    if a.len() > 0 && b.len() > 0 && a[0] == b[0] {
        lemma_comes_before_total(a.drop_first(), b.drop_first());
    }
}

/// A name comes before itself.
pub proof fn lemma_comes_before_reflexive(a: Seq<char>)
    ensures
        comes_before(a, a),
    decreases a.len(),
{
    if a.len() > 0 {
        lemma_comes_before_reflexive(a.drop_first());
    }
}

/// Two names that come before each other are one name.
pub proof fn lemma_comes_before_antisymmetric(a: Seq<char>, b: Seq<char>)
    requires
        comes_before(a, b),
        comes_before(b, a),
    ensures
        a == b,
    decreases a.len(),
{
    if a.len() > 0 {
        lemma_comes_before_antisymmetric(a.drop_first(), b.drop_first());
        assert(a =~= seq![a[0]] + a.drop_first());
        assert(b =~= seq![b[0]] + b.drop_first());
    } else {
        assert(a =~= b);
    }
}

/// What comes before a name comes before all that the name comes before.
pub proof fn lemma_comes_before_transitive(a: Seq<char>, b: Seq<char>, c: Seq<char>)
    requires
        comes_before(a, b),
        comes_before(b, c),
    ensures
        comes_before(a, c),
    decreases a.len(),
{
    if a.len() > 0 && a[0] == b[0] && b[0] == c[0] {
        lemma_comes_before_transitive(a.drop_first(), b.drop_first(), c.drop_first());
    }
}

/// In an ordered sequence each thing comes before every later one.
pub proof fn lemma_ordered_pairs<T: Named>(s: Seq<T>, i: int, j: int)
    requires
        is_ordered(s),
        0 <= i <= j < s.len(),
    ensures
        comes_before(s[i].label(), s[j].label()),
    decreases j - i,
{
    if i == j {
        lemma_comes_before_reflexive(s[i].label());
    } else {
        lemma_ordered_pairs(s, i, j - 1);
        assert(comes_before(s[j - 1].label(), s[j - 1 + 1].label()));
        lemma_comes_before_transitive(s[i].label(), s[j - 1].label(), s[j].label());
    }
}

/// Where the scan for the place of `x` has come to `j`, the place is found
/// in what is left.
pub proof fn lemma_insert_front_at<T: Named>(s: Seq<T>, x: T, j: int)
    requires
        0 <= j <= s.len(),
        forall|k: int| 0 <= k < j ==> !comes_before(x.label(), #[trigger] s[k].label()),
    ensures
        insert_front(s, x) == s.take(j) + insert_front(s.skip(j), x),
    decreases j,
{
    if j == 0 {
        assert(s.skip(0) =~= s);
        assert(s.take(0) + insert_front(s, x) =~= insert_front(s, x));
    } else {
        let t = s.drop_first();
        assert forall|k: int| 0 <= k < j - 1 implies !comes_before(
            x.label(),
            #[trigger] t[k].label(),
        ) by {
            assert(t[k] == s[k + 1]);
        }
        lemma_insert_front_at(t, x, j - 1);
        assert(!comes_before(x.label(), s[0].label()));
        assert(t.skip(j - 1) =~= s.skip(j));
        assert(seq![s[0]] + (t.take(j - 1) + insert_front(s.skip(j), x)) =~= s.take(j)
            + insert_front(s.skip(j), x));
    }
}

/// Putting a thing into an ordered sequence leaves it ordered, and adds
/// that thing and nothing else.
pub proof fn lemma_insert_front<T: Named>(s: Seq<T>, x: T)
    requires
        is_ordered(s),
    ensures
        is_ordered(insert_front(s, x)),
        insert_front(s, x).len() == s.len() + 1,
        insert_front(s, x)[0] == x || (s.len() > 0 && insert_front(s, x)[0] == s[0]),
        insert_front(s, x).to_multiset() == s.to_multiset().insert(x),
    decreases s.len(),
{
    let r = insert_front(s, x);
    if s.len() == 0 {
        assert(r =~= s.insert(0, x));
        to_multiset_insert(s, 0, x);
    } else if comes_before(x.label(), s[0].label()) {
        assert(r =~= s.insert(0, x));
        to_multiset_insert(s, 0, x);
        assert forall|i: int| 0 <= i && i + 1 < r.len() implies comes_before(
            #[trigger] r[i].label(),
            r[i + 1].label(),
        ) by {
            if i > 0 {
                assert(r[i] == s[i - 1]);
                assert(r[i + 1] == s[i]);
                assert(comes_before(s[i - 1].label(), s[i].label()));
            }
        }
    } else {
        let t = s.drop_first();
        assert forall|i: int| 0 <= i && i + 1 < t.len() implies comes_before(
            #[trigger] t[i].label(),
            t[i + 1].label(),
        ) by {
            assert(t[i] == s[i + 1]);
            assert(t[i + 1] == s[i + 2]);
            assert(comes_before(s[i + 1].label(), s[i + 2].label()));
        }
        lemma_insert_front(t, x);
        let u = insert_front(t, x);
        assert(r =~= u.insert(0, s[0]));
        to_multiset_insert(u, 0, s[0]);
        assert(s =~= t.insert(0, s[0]));
        to_multiset_insert(t, 0, s[0]);
        assert(r.to_multiset() =~= s.to_multiset().insert(x));
        lemma_comes_before_total(x.label(), s[0].label());
        assert forall|i: int| 0 <= i && i + 1 < r.len() implies comes_before(
            #[trigger] r[i].label(),
            r[i + 1].label(),
        ) by {
            if i == 0 {
                assert(r[1] == u[0]);
                if u[0] != x {
                    assert(u[0] == t[0]);
                    assert(t[0] == s[1]);
                    assert(comes_before(s[0].label(), s[1].label()));
                }
            } else {
                assert(r[i] == u[i - 1]);
                assert(r[i + 1] == u[i]);
                assert(comes_before(u[i - 1].label(), u[i].label()));
            }
        }
    }
}

/// Sorting orders the things by their names, and neither adds nor drops
/// one.
pub proof fn lemma_sorted<T: Named>(s: Seq<T>)
    ensures
        is_ordered(sorted(s)),
        sorted(s).len() == s.len(),
        sorted(s).to_multiset() == s.to_multiset(),
    decreases s.len(),
{
    if s.len() == 0 {
        assert(sorted(s) =~= s);
    } else {
        let t = s.drop_first();
        lemma_sorted(t);
        lemma_insert_front(sorted(t), s[0]);
        assert(s =~= t.insert(0, s[0]));
        to_multiset_insert(t, 0, s[0]);
    }
}

/// Tells whether the name `a` comes before the name `b`.
pub fn precedes(a: &Vec<char>, b: &Vec<char>) -> (r: bool)
    ensures
        r == comes_before(a@, b@),
{
    let mut i: usize = 0;
    proof {
        assert(a@.skip(0) =~= a@);
        assert(b@.skip(0) =~= b@);
    }
    while i < a.len() && i < b.len() && a[i] == b[i]
        invariant
            i <= a.len(),
            i <= b.len(),
            comes_before(a@, b@) == comes_before(a@.skip(i as int), b@.skip(i as int)),
        decreases a.len() - i,
    {
        proof {
            assert(a@.skip(i as int).drop_first() =~= a@.skip(i + 1));
            assert(b@.skip(i as int).drop_first() =~= b@.skip(i + 1));
        }
        i = i + 1;
    }
    if i >= a.len() {
        true
    } else if i >= b.len() {
        false
    } else {
        a[i] < b[i]
    }
}

/// Sorts the things by their names; things of one name keep their order.
pub fn sort_by_name<T: Named>(items: Vec<T>) -> (r: Vec<T>)
    ensures
        r@ == sorted(items@),
{
    let ghost all = items@;
    let mut rest = items;
    let mut out: Vec<T> = Vec::new();
    let mut keys: Vec<Vec<char>> = Vec::new();
    proof {
        assert(all.skip(all.len() as int) =~= Seq::<T>::empty());
    }
    loop
        invariant
            all == items@,
            rest@ == all.take(rest@.len() as int),
            rest@.len() <= all.len(),
            out@ == sorted(all.skip(rest@.len() as int)),
            keys@.len() == out@.len(),
            forall|k: int| 0 <= k < keys@.len() ==> (#[trigger] keys@[k])@ == out@[k].label(),
        decreases rest@.len(),
    {
        let ghost n = rest@.len() as int;
        let item = match rest.pop() {
            Some(item) => item,
            None => {
                proof {
                    assert(all.skip(0) =~= all);
                }
                return out;
            },
        };
        let key = item.label_chars();
        let mut j: usize = 0;
        while j < keys.len() && !precedes(&key, &keys[j])
            invariant
                j <= keys.len(),
                keys@.len() == out@.len(),
                key@ == item.label(),
                forall|k: int| 0 <= k < keys@.len() ==> (#[trigger] keys@[k])@ == out@[k].label(),
                forall|k: int| 0 <= k < j ==> !comes_before(item.label(), #[trigger] out@[k].label()),
            decreases keys.len() - j,
        {
            j = j + 1;
        }
        proof {
            let s = out@;
            lemma_insert_front_at(s, item, j as int);
            let tail = s.skip(j as int);
            if tail.len() > 0 {
                assert(tail[0] == s[j as int]);
                assert(keys@[j as int]@ == s[j as int].label());
            }
            assert(insert_front(tail, item) =~= seq![item] + tail);
            assert(s.take(j as int) + (seq![item] + tail) =~= s.insert(j as int, item));
            let part = all.skip(n - 1);
            assert(part[0] == item);
            assert(part.drop_first() =~= all.skip(n));
            assert(rest@ =~= all.take(n - 1));
        }
        out.insert(j, item);
        keys.insert(j, key);
    }
}

} // verus!

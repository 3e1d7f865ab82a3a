//! Names in increasing order, as an ordered map keyed by name lists them: strings are
//! compared character by character, and a proper prefix comes first.
use vstd::prelude::*;
use crate::schema::strings_model;

verus! {

/// Lexicographic order on strings.
pub open spec fn name_lt(a: Seq<char>, b: Seq<char>) -> bool
    decreases a.len(),
{
    if a.len() == 0 {
        b.len() > 0
    } else if b.len() == 0 {
        false
    } else if a[0] < b[0] {
        true
    } else if a[0] == b[0] {
        name_lt(a.drop_first(), b.drop_first())
    } else {
        false
    }
}

pub proof fn lemma_name_lt_irreflexive(a: Seq<char>)
    ensures
        !name_lt(a, a),
    decreases a.len(),
{
    if a.len() > 0 {
        lemma_name_lt_irreflexive(a.drop_first());
    }
}

pub proof fn lemma_name_lt_transitive(a: Seq<char>, b: Seq<char>, c: Seq<char>)
    requires
        name_lt(a, b),
        name_lt(b, c),
    ensures
        name_lt(a, c),
    decreases a.len(),
{
    if a.len() > 0 && b.len() > 0 && c.len() > 0 && a[0] == b[0] && b[0] == c[0] {
        lemma_name_lt_transitive(a.drop_first(), b.drop_first(), c.drop_first());
    }
}

/// Any two different strings are ordered one way or the other.
pub proof fn lemma_name_lt_total(a: Seq<char>, b: Seq<char>)
    requires
        a != b,
    ensures
        name_lt(a, b) || name_lt(b, a),
    decreases a.len(),
{
    if a.len() > 0 && b.len() > 0 && a[0] == b[0] {
        if a.drop_first() == b.drop_first() {
            assert(a =~= seq![a[0]] + a.drop_first());
            assert(b =~= seq![b[0]] + b.drop_first());
        }
        lemma_name_lt_total(a.drop_first(), b.drop_first());
    } else if a.len() == 0 {
        if b.len() == 0 {
            assert(a =~= b);
        }
    } else if b.len() == 0 {
    }
}

pub proof fn lemma_name_lt_asymmetric(a: Seq<char>, b: Seq<char>)
    requires
        name_lt(a, b),
    ensures
        !name_lt(b, a),
{
    if name_lt(b, a) {
        lemma_name_lt_transitive(a, b, a);
        lemma_name_lt_irreflexive(a);
    }
}

/// Whether the first string comes before the second.
pub fn name_less(a: &str, b: &str) -> (r: bool)
    ensures
        r == name_lt(a@, b@),
{
    let n = a.unicode_len();
    let m = b.unicode_len();
    let mut i: usize = 0;
    proof {
        assert(a@.skip(0) =~= a@);
        assert(b@.skip(0) =~= b@);
    }
    while i < n && i < m
        invariant
            n == a@.len(),
            m == b@.len(),
            i <= n,
            i <= m,
            a@.subrange(0, i as int) == b@.subrange(0, i as int),
            name_lt(a@, b@) == name_lt(a@.skip(i as int), b@.skip(i as int)),
        decreases n - i,
    {
        let x = a.get_char(i);
        let y = b.get_char(i);
        if x < y {
            return true;
        }
        if x > y {
            return false;
        }
        proof {
            assert(a@.skip(i as int).drop_first() =~= a@.skip(i + 1));
            assert(b@.skip(i as int).drop_first() =~= b@.skip(i + 1));
            assert(a@.subrange(0, i + 1) =~= a@.subrange(0, i as int).push(x));
            assert(b@.subrange(0, i + 1) =~= b@.subrange(0, i as int).push(y));
        }
        i += 1;
    }
    i < m
}

/// A strictly increasing sequence of names.
pub open spec fn strictly_increasing(s: Seq<Seq<char>>) -> bool {
    forall|i: int, j: int| 0 <= i < j < s.len() ==> name_lt(s[i], s[j])
}

/// Inserts a name into an increasing sequence, unless it is there already.
pub open spec fn insert_name(sorted: Seq<Seq<char>>, x: Seq<char>) -> Seq<Seq<char>>
    decreases sorted.len(),
{
    if sorted.len() == 0 {
        seq![x]
    } else if x == sorted[0] {
        sorted
    } else if name_lt(x, sorted[0]) {
        seq![x] + sorted
    } else {
        seq![sorted[0]] + insert_name(sorted.drop_first(), x)
    }
}

/// The distinct names of `s` in increasing order.
pub open spec fn sorted_names(s: Seq<Seq<char>>) -> Seq<Seq<char>>
    decreases s.len(),
{
    if s.len() == 0 {
        Seq::empty()
    } else {
        insert_name(sorted_names(s.drop_last()), s.last())
    }
}

proof fn lemma_insert_name(sorted: Seq<Seq<char>>, x: Seq<char>)
    requires
        strictly_increasing(sorted),
    ensures
        strictly_increasing(insert_name(sorted, x)),
        forall|y: Seq<char>|
            #[trigger] insert_name(sorted, x).contains(y) <==> (sorted.contains(y) || y == x),
    decreases sorted.len(),
{
    if sorted.len() == 0 {
        let r = insert_name(sorted, x);
        assert(r =~= seq![x]);
        assert forall|y: Seq<char>| r.contains(y) <==> (sorted.contains(y) || y == x) by {
            if y == x {
                assert(r[0] == y);
            }
        }
    } else if x == sorted[0] {
        assert forall|y: Seq<char>| sorted.contains(y) <==> (sorted.contains(y) || y == x) by {
            if y == x {
                assert(sorted[0] == y);
            }
        }
    } else if name_lt(x, sorted[0]) {
        let r = seq![x] + sorted;
        assert forall|i: int, j: int| 0 <= i < j < r.len() implies name_lt(r[i], r[j]) by {
            if i == 0 && j > 1 {
                lemma_name_lt_transitive(x, sorted[0], sorted[j - 1]);
            }
        }
        assert forall|y: Seq<char>| r.contains(y) <==> (sorted.contains(y) || y == x) by {
            if sorted.contains(y) {
                let k = choose|k: int| 0 <= k < sorted.len() && sorted[k] == y;
                assert(r[k + 1] == y);
            }
            if y == x {
                assert(r[0] == y);
            }
            if r.contains(y) {
                let k = choose|k: int| 0 <= k < r.len() && r[k] == y;
                if k > 0 {
                    assert(sorted[k - 1] == y);
                }
            }
        }
    } else {
        lemma_name_lt_total(x, sorted[0]);
        let rest = sorted.drop_first();
        assert forall|i: int, j: int| 0 <= i < j < rest.len() implies name_lt(rest[i], rest[j]) by {
            assert(rest[i] == sorted[i + 1] && rest[j] == sorted[j + 1]);
        }
        lemma_insert_name(rest, x);
        let inserted = insert_name(rest, x);
        let r = seq![sorted[0]] + inserted;
        assert(r == insert_name(sorted, x));
        assert forall|i: int, j: int| 0 <= i < j < r.len() implies name_lt(r[i], r[j]) by {
            if i == 0 {
                assert(inserted.contains(r[j]));
                if r[j] != x {
                    assert(rest.contains(r[j]));
                    let k = choose|k: int| 0 <= k < rest.len() && rest[k] == r[j];
                    assert(sorted[k + 1] == r[j]);
                }
            } else {
                assert(r[i] == inserted[i - 1] && r[j] == inserted[j - 1]);
            }
        }
        assert forall|y: Seq<char>| r.contains(y) <==> (sorted.contains(y) || y == x) by {
            if r.contains(y) {
                let k = choose|k: int| 0 <= k < r.len() && r[k] == y;
                if k > 0 {
                    assert(inserted[k - 1] == y);
                    assert(inserted.contains(y));
                    if rest.contains(y) {
                        let m = choose|m: int| 0 <= m < rest.len() && rest[m] == y;
                        assert(sorted[m + 1] == y);
                    }
                } else {
                    assert(sorted[0] == y);
                }
            }
            if sorted.contains(y) {
                let k = choose|k: int| 0 <= k < sorted.len() && sorted[k] == y;
                if k == 0 {
                    assert(r[0] == y);
                } else {
                    assert(rest[k - 1] == y);
                    assert(inserted.contains(y));
                    let m = choose|m: int| 0 <= m < inserted.len() && inserted[m] == y;
                    assert(r[m + 1] == y);
                }
            }
            if y == x {
                assert(inserted.contains(y));
                let m = choose|m: int| 0 <= m < inserted.len() && inserted[m] == y;
                assert(r[m + 1] == y);
            }
        }
    }
}

/// `sorted_names` holds each name of `s` once, in increasing order.
pub proof fn lemma_sorted_names(s: Seq<Seq<char>>)
    ensures
        strictly_increasing(sorted_names(s)),
        forall|y: Seq<char>| #[trigger] sorted_names(s).contains(y) <==> s.contains(y),
    decreases s.len(),
{
    if s.len() > 0 {
        lemma_sorted_names(s.drop_last());
        lemma_insert_name(sorted_names(s.drop_last()), s.last());
        assert forall|y: Seq<char>| #[trigger] sorted_names(s).contains(y) <==> s.contains(y) by {
            if s.drop_last().contains(y) {
                let k = choose|k: int| 0 <= k < s.drop_last().len() && s.drop_last()[k] == y;
                assert(s[k] == y);
            }
            if s.contains(y) && y != s.last() {
                let k = choose|k: int| 0 <= k < s.len() && s[k] == y;
                assert(s.drop_last()[k] == y);
            }
            if y == s.last() {
                assert(s[s.len() - 1] == y);
            }
        }
    }
}

/// The position at which `x` enters an increasing sequence whose first `j` names are
/// all before it.
proof fn lemma_insert_at(sorted: Seq<Seq<char>>, x: Seq<char>, j: int)
    requires
        0 <= j <= sorted.len(),
        forall|i: int| 0 <= i < j ==> sorted[i] != x && !name_lt(x, sorted[i]),
    ensures
        j < sorted.len() && x == sorted[j] ==> insert_name(sorted, x) == sorted,
        j < sorted.len() && x != sorted[j] && name_lt(x, sorted[j]) ==> insert_name(sorted, x)
            == sorted.take(j) + seq![x] + sorted.skip(j),
        j == sorted.len() ==> insert_name(sorted, x) == sorted.push(x),
    decreases j,
{
    if j == 0 {
        if sorted.len() == 0 {
            assert(sorted.push(x) =~= seq![x]);
        } else {
            assert(sorted.take(0) + seq![x] + sorted.skip(0) =~= seq![x] + sorted);
        }
    } else {
        let rest = sorted.drop_first();
        assert forall|i: int| 0 <= i < j - 1 implies rest[i] != x && !name_lt(x, rest[i]) by {
            assert(rest[i] == sorted[i + 1]);
        }
        lemma_insert_at(rest, x, j - 1);
        assert(sorted[0] != x && !name_lt(x, sorted[0]));
        if j < sorted.len() && x == sorted[j] {
            assert(rest[j - 1] == sorted[j]);
            assert(seq![sorted[0]] + rest =~= sorted);
        } else if j < sorted.len() && x != sorted[j] && name_lt(x, sorted[j]) {
            assert(rest[j - 1] == sorted[j]);
            assert(seq![sorted[0]] + (rest.take(j - 1) + seq![x] + rest.skip(j - 1)) =~= sorted.take(j)
                + seq![x] + sorted.skip(j));
        } else if j == sorted.len() {
            assert(seq![sorted[0]] + rest.push(x) =~= sorted.push(x));
        }
    }
}

/// The distinct names of `names`, in increasing order.
pub fn sort_names(names: &Vec<String>) -> (r: Vec<String>)
    ensures
        strings_model(r@) == sorted_names(strings_model(names@)),
{
    let ghost input = strings_model(names@);
    let mut r: Vec<String> = Vec::new();
    let mut i: usize = 0;
    while i < names.len()
        invariant
            i <= names.len(),
            input == strings_model(names@),
            strings_model(r@) == sorted_names(input.take(i as int)),
        decreases names.len() - i,
    {
        let x = &names[i];
        let ghost sorted = strings_model(r@);
        proof {
            assert(input.take(i + 1).drop_last() =~= input.take(i as int));
            assert(input.take(i + 1).last() == x@);
        }
        let mut j: usize = 0;
        let mut done = false;
        while j < r.len()
            invariant
                j <= r.len(),
                sorted == strings_model(r@),
                !done,
                forall|k: int| 0 <= k < j ==> sorted[k] != x@ && !name_lt(x@, sorted[k]),
            ensures
                j <= r.len(),
                sorted == strings_model(r@),
                forall|k: int| 0 <= k < j ==> sorted[k] != x@ && !name_lt(x@, sorted[k]),
                j < r.len() ==> (sorted[j as int] == x@ || name_lt(x@, sorted[j as int])),
            decreases r.len() - j,
        {
            proof { assert(sorted[j as int] == r@[j as int]@); }
            if r[j] == *x || name_less(x.as_str(), r[j].as_str()) {
                break;
            }
            j += 1;
        }
        proof { lemma_insert_at(sorted, x@, j as int); }
        if j < r.len() && r[j] == *x {
            proof { assert(sorted[j as int] == r@[j as int]@); }
        } else {
            let ghost before = r@;
            r.insert(j, x.clone());
            proof {
                assert(strings_model(r@) =~= sorted.take(j as int) + seq![x@] + sorted.skip(j as int));
                if j == before.len() {
                    assert(sorted.take(j as int) + seq![x@] + sorted.skip(j as int) =~= sorted.push(x@));
                } else {
                    assert(sorted[j as int] == before[j as int]@);
                }
            }
        }
        i += 1;
    }
    proof { assert(input.take(i as int) =~= input); }
    r
}

/// Whether `name` is among `names`.
pub fn contains_name(names: &Vec<String>, name: &String) -> (r: bool)
    ensures
        r == strings_model(names@).contains(name@),
{
    let mut i: usize = 0;
    while i < names.len()
        invariant
            i <= names.len(),
            forall|j: int| 0 <= j < i ==> names@[j]@ != name@,
        decreases names.len() - i,
    {
        if names[i] == *name {
            proof { assert(strings_model(names@)[i as int] == name@); }
            return true;
        }
        i += 1;
    }
    proof {
        assert forall|j: int| 0 <= j < strings_model(names@).len() implies strings_model(names@)[j]
            != name@ by {
            assert(strings_model(names@)[j] == names@[j]@);
        }
    }
    false
}

/// The elements of `s` without repetitions, in the order of their first occurrence.
pub open spec fn dedup<A>(s: Seq<A>) -> Seq<A>
    decreases s.len(),
{
    if s.len() == 0 {
        Seq::empty()
    } else {
        let d = dedup(s.drop_last());
        if d.contains(s.last()) {
            d
        } else {
            d.push(s.last())
        }
    }
}

/// The distinct names of `names`, in the order of their first occurrence.
pub fn unique_names(names: &Vec<String>) -> (r: Vec<String>)
    ensures
        strings_model(r@) == dedup(strings_model(names@)),
{
    let ghost input = strings_model(names@);
    let mut r: Vec<String> = Vec::new();
    let mut i: usize = 0;
    while i < names.len()
        invariant
            i <= names.len(),
            input == strings_model(names@),
            strings_model(r@) == dedup(input.take(i as int)),
        decreases names.len() - i,
    {
        proof {
            assert(input.take(i + 1).drop_last() =~= input.take(i as int));
            assert(input.take(i + 1).last() == names@[i as int]@);
        }
        if !contains_name(&r, &names[i]) {
            let ghost before = r@;
            r.push(names[i].clone());
            proof { assert(strings_model(r@) =~= strings_model(before).push(names@[i as int]@)); }
        }
        i += 1;
    }
    proof { assert(input.take(i as int) =~= input); }
    r
}

} // verus!

//! Lexicographic order on strings and on pairs of strings, and the sorted list of the
//! distinct pairs of a list.
use vstd::prelude::*;
use crate::text::chars_of;

verus! {

/// A pair of strings, as characters.
pub type Key = (Seq<char>, Seq<char>);

/// `a < b` in the lexicographic order of code points, comparing from position `i` on,
/// the positions before `i` being equal.
pub open spec fn chars_lt_from(a: Seq<char>, b: Seq<char>, i: nat) -> bool
    decreases a.len() - i,
{
    if i >= a.len() {
        i < b.len()
    } else if i >= b.len() {
        false
    } else if a[i as int] != b[i as int] {
        (a[i as int] as int) < (b[i as int] as int)
    } else {
        chars_lt_from(a, b, i + 1)
    }
}

/// `a < b` in the lexicographic order of code points: the order of `String` and `str`,
/// whose byte order in UTF-8 is that of the code points.
pub open spec fn chars_lt(a: Seq<char>, b: Seq<char>) -> bool {
    chars_lt_from(a, b, 0)
}

/// `x < y` for pairs: by the first component, then by the second, as tuples compare.
pub open spec fn key_lt(x: Key, y: Key) -> bool {
    chars_lt(x.0, y.0) || (x.0 == y.0 && chars_lt(x.1, y.1))
}

/// Each element of `s` is below every later one: sorted, and no element twice.
pub open spec fn strictly_sorted(s: Seq<Key>) -> bool {
    forall|i: int, j: int| 0 <= i < j < s.len() ==> key_lt(#[trigger] s[i], #[trigger] s[j])
}

/// `a` and `b` hold the same elements, each perhaps more than once.
pub open spec fn same_elements(a: Seq<Key>, b: Seq<Key>) -> bool {
    forall|x: Key| a.contains(x) <==> b.contains(x)
}

/// The distinct elements of `s` in increasing order: what sorting `s` and then
/// removing adjacent duplicates gives.
pub open spec fn sorted_distinct(s: Seq<Key>) -> Seq<Key> {
    choose|r: Seq<Key>| strictly_sorted(r) && same_elements(r, s)
}

proof fn lemma_chars_lt_from_irreflexive(a: Seq<char>, i: nat)
    ensures
        !chars_lt_from(a, a, i),
    decreases a.len() - i,
{
    if i < a.len() {
        lemma_chars_lt_from_irreflexive(a, i + 1);
    }
}

proof fn lemma_chars_lt_from_transitive(a: Seq<char>, b: Seq<char>, c: Seq<char>, i: nat)
    requires
        chars_lt_from(a, b, i),
        chars_lt_from(b, c, i),
    ensures
        chars_lt_from(a, c, i),
    decreases a.len() - i,
{
    if i < a.len() && i < b.len() && i < c.len() && a[i as int] == b[i as int] && b[i as int]
        == c[i as int] {
        lemma_chars_lt_from_transitive(a, b, c, i + 1);
    }
}

proof fn lemma_chars_lt_from_total(a: Seq<char>, b: Seq<char>, i: nat)
    requires
        i <= a.len(),
        i <= b.len(),
        a.subrange(0, i as int) == b.subrange(0, i as int),
    ensures
        a == b || chars_lt_from(a, b, i) || chars_lt_from(b, a, i),
    decreases a.len() - i,
{
    if i < a.len() && i < b.len() && a[i as int] == b[i as int] {
        assert(a.subrange(0, (i + 1) as int) =~= a.subrange(0, i as int).push(a[i as int]));
        assert(b.subrange(0, (i + 1) as int) =~= b.subrange(0, i as int).push(b[i as int]));
        lemma_chars_lt_from_total(a, b, i + 1);
    } else if i == a.len() && i == b.len() {
        assert(a =~= a.subrange(0, i as int));
        assert(b =~= b.subrange(0, i as int));
    } else if i < a.len() && i < b.len() {
        let x = a[i as int] as int;
        let y = b[i as int] as int;
        assert(x != y);
    }
}

/// No string is below itself.
pub proof fn lemma_chars_lt_irreflexive(a: Seq<char>)
    ensures
        !chars_lt(a, a),
{
    lemma_chars_lt_from_irreflexive(a, 0);
}

/// The order on strings is transitive.
pub proof fn lemma_chars_lt_transitive(a: Seq<char>, b: Seq<char>, c: Seq<char>)
    requires
        chars_lt(a, b),
        chars_lt(b, c),
    ensures
        chars_lt(a, c),
{
    lemma_chars_lt_from_transitive(a, b, c, 0);
}

/// Of two different strings one is below the other.
pub proof fn lemma_chars_lt_total(a: Seq<char>, b: Seq<char>)
    ensures
        a == b || chars_lt(a, b) || chars_lt(b, a),
{
    assert(a.subrange(0, 0) =~= b.subrange(0, 0));
    lemma_chars_lt_from_total(a, b, 0);
}

/// The order on pairs is a strict total order.
pub proof fn lemma_key_lt_order(x: Key, y: Key, z: Key)
    ensures
        !key_lt(x, x),
        key_lt(x, y) && key_lt(y, z) ==> key_lt(x, z),
        x == y || key_lt(x, y) || key_lt(y, x),
{
    lemma_chars_lt_irreflexive(x.0);
    lemma_chars_lt_irreflexive(x.1);
    lemma_chars_lt_total(x.0, y.0);
    lemma_chars_lt_total(x.1, y.1);
    if key_lt(x, y) && key_lt(y, z) {
        if chars_lt(x.0, y.0) && chars_lt(y.0, z.0) {
            lemma_chars_lt_transitive(x.0, y.0, z.0);
        }
        if chars_lt(x.1, y.1) && chars_lt(y.1, z.1) {
            lemma_chars_lt_transitive(x.1, y.1, z.1);
        }
    }
}

/// Two strictly sorted lists with the same elements are equal: the sorted list of the
/// distinct elements of a list is unique.
pub proof fn lemma_strictly_sorted_unique(a: Seq<Key>, b: Seq<Key>)
    requires
        strictly_sorted(a),
        strictly_sorted(b),
        same_elements(a, b),
    ensures
        a == b,
    decreases a.len(),
{
    if a.len() == 0 {
        if b.len() > 0 {
            assert(b.contains(b[0]));
        }
        assert(a =~= b);
    } else {
        assert(a.contains(a[0]));
        let k = choose|k: int| 0 <= k < b.len() && b[k] == a[0];
        assert(b.contains(b[0]));
        let m = choose|m: int| 0 <= m < a.len() && a[m] == b[0];
        if k > 0 {
            assert(key_lt(b[0], b[k]));
            lemma_key_lt_order(a[0], a[m], a[0]);
            if m > 0 {
                assert(key_lt(a[0], a[m]));
            }
            assert(false);
        }
        let a1 = a.drop_first();
        let b1 = b.drop_first();
        assert forall|x: Key| a1.contains(x) <==> b1.contains(x) by {
            if a1.contains(x) {
                let i = choose|i: int| 0 <= i < a1.len() && a1[i] == x;
                assert(a[i + 1] == x);
                assert(a.contains(x));
                let j = choose|j: int| 0 <= j < b.len() && b[j] == x;
                assert(key_lt(a[0], a[i + 1]));
                lemma_key_lt_order(a[0], x, x);
                assert(j != 0);
                assert(b1[j - 1] == x);
            }
            if b1.contains(x) {
                let j = choose|j: int| 0 <= j < b1.len() && b1[j] == x;
                assert(b[j + 1] == x);
                assert(b.contains(x));
                let i = choose|i: int| 0 <= i < a.len() && a[i] == x;
                assert(key_lt(b[0], b[j + 1]));
                lemma_key_lt_order(b[0], x, x);
                assert(i != 0);
                assert(a1[i - 1] == x);
            }
        }
        assert(strictly_sorted(a1)) by {
            assert forall|i: int, j: int| 0 <= i < j < a1.len() implies key_lt(
                #[trigger] a1[i],
                #[trigger] a1[j],
            ) by {
                assert(a1[i] == a[i + 1] && a1[j] == a[j + 1]);
            }
        }
        assert(strictly_sorted(b1)) by {
            assert forall|i: int, j: int| 0 <= i < j < b1.len() implies key_lt(
                #[trigger] b1[i],
                #[trigger] b1[j],
            ) by {
                assert(b1[i] == b[i + 1] && b1[j] == b[j + 1]);
            }
        }
        lemma_strictly_sorted_unique(a1, b1);
        assert(a =~= b) by {
            assert forall|i: int| 0 <= i < a.len() implies a[i] == b[i] by {
                if i > 0 {
                    assert(a[i] == a1[i - 1] && b[i] == b1[i - 1]);
                }
            }
        }
    }
}

/// `r` with `x` put in its place, unless `r` already holds it.
pub open spec fn insert_distinct(r: Seq<Key>, x: Key) -> Seq<Key>
    decreases r.len(),
{
    if r.len() == 0 {
        seq![x]
    } else if key_lt(x, r[0]) {
        seq![x] + r
    } else if x == r[0] {
        r
    } else {
        seq![r[0]] + insert_distinct(r.drop_first(), x)
    }
}

/// The distinct elements of `s`, sorted by insertion.
pub open spec fn insertion_sorted(s: Seq<Key>) -> Seq<Key>
    decreases s.len(),
{
    if s.len() == 0 {
        Seq::empty()
    } else {
        insert_distinct(insertion_sorted(s.drop_last()), s.last())
    }
}

proof fn lemma_insert_distinct(r: Seq<Key>, x: Key)
    requires
        strictly_sorted(r),
    ensures
        strictly_sorted(insert_distinct(r, x)),
        forall|y: Key|
            #![trigger insert_distinct(r, x).contains(y)]
            #![trigger r.contains(y)]
            insert_distinct(r, x).contains(y) <==> (r.contains(y) || y == x),
    decreases r.len(),
{
    let res = insert_distinct(r, x);
    if r.len() == 0 {
        assert(res =~= seq![x]);
        assert forall|y: Key| res.contains(y) <==> (r.contains(y) || y == x) by {
            if res.contains(y) {
                assert(res[0] == y);
            }
            if y == x {
                assert(res[0] == x);
            }
        }
    } else if key_lt(x, r[0]) {
        assert forall|i: int, j: int| 0 <= i < j < res.len() implies key_lt(
            #[trigger] res[i],
            #[trigger] res[j],
        ) by {
            if i == 0 {
                if j > 1 {
                    assert(key_lt(r[0], r[j - 1]));
                    lemma_key_lt_order(x, r[0], r[j - 1]);
                }
            } else {
                assert(res[i] == r[i - 1] && res[j] == r[j - 1]);
            }
        }
        assert forall|y: Key| res.contains(y) <==> (r.contains(y) || y == x) by {
            if res.contains(y) {
                let i = choose|i: int| 0 <= i < res.len() && res[i] == y;
                if i > 0 {
                    assert(r[i - 1] == y);
                }
            }
            if r.contains(y) {
                let i = choose|i: int| 0 <= i < r.len() && r[i] == y;
                assert(res[i + 1] == y);
            }
            if y == x {
                assert(res[0] == x);
            }
        }
    } else if x == r[0] {
        assert(r.contains(r[0]));
    } else {
        let rest = r.drop_first();
        assert(strictly_sorted(rest)) by {
            assert forall|i: int, j: int| 0 <= i < j < rest.len() implies key_lt(
                #[trigger] rest[i],
                #[trigger] rest[j],
            ) by {
                assert(rest[i] == r[i + 1] && rest[j] == r[j + 1]);
            }
        }
        lemma_insert_distinct(rest, x);
        let ins = insert_distinct(rest, x);
        lemma_key_lt_order(x, r[0], x);
        assert(key_lt(r[0], x));
        assert forall|k: int| 0 <= k < ins.len() implies key_lt(r[0], #[trigger] ins[k]) by {
            assert(ins.contains(ins[k]));
            if ins[k] != x {
                assert(rest.contains(ins[k]));
                let m = choose|m: int| 0 <= m < rest.len() && rest[m] == ins[k];
                assert(r[m + 1] == ins[k]);
            }
        }
        assert forall|i: int, j: int| 0 <= i < j < res.len() implies key_lt(
            #[trigger] res[i],
            #[trigger] res[j],
        ) by {
            if i == 0 {
                assert(res[j] == ins[j - 1]);
            } else {
                assert(res[i] == ins[i - 1] && res[j] == ins[j - 1]);
            }
        }
        assert forall|y: Key| res.contains(y) <==> (r.contains(y) || y == x) by {
            if res.contains(y) {
                let i = choose|i: int| 0 <= i < res.len() && res[i] == y;
                if i > 0 {
                    assert(ins[i - 1] == y);
                    assert(ins.contains(y));
                    if rest.contains(y) {
                        let m = choose|m: int| 0 <= m < rest.len() && rest[m] == y;
                        assert(r[m + 1] == y);
                    }
                } else {
                    assert(r[0] == y);
                }
            }
            if r.contains(y) {
                let i = choose|i: int| 0 <= i < r.len() && r[i] == y;
                if i == 0 {
                    assert(res[0] == y);
                } else {
                    assert(rest[i - 1] == y);
                    assert(ins.contains(y));
                    let m = choose|m: int| 0 <= m < ins.len() && ins[m] == y;
                    assert(res[m + 1] == y);
                }
            }
            if y == x {
                assert(ins.contains(x));
                let m = choose|m: int| 0 <= m < ins.len() && ins[m] == x;
                assert(res[m + 1] == x);
            }
        }
    }
}

proof fn lemma_insertion_sorted(s: Seq<Key>)
    ensures
        strictly_sorted(insertion_sorted(s)),
        same_elements(insertion_sorted(s), s),
    decreases s.len(),
{
    if s.len() > 0 {
        let front = s.drop_last();
        lemma_insertion_sorted(front);
        lemma_insert_distinct(insertion_sorted(front), s.last());
        assert forall|y: Key| insertion_sorted(s).contains(y) <==> s.contains(y) by {
            if front.contains(y) {
                let i = choose|i: int| 0 <= i < front.len() && front[i] == y;
                assert(s[i] == y);
            }
            if s.contains(y) {
                let i = choose|i: int| 0 <= i < s.len() && s[i] == y;
                if i < s.len() - 1 {
                    assert(front[i] == y);
                }
            }
            assert(s[s.len() - 1] == s.last());
        }
    }
}

/// The distinct elements of a list, sorted, exist and are what `sorted_distinct` names:
/// a strictly sorted list with the same elements.
pub proof fn lemma_sorted_distinct(s: Seq<Key>)
    ensures
        strictly_sorted(sorted_distinct(s)),
        same_elements(sorted_distinct(s), s),
{
    lemma_insertion_sorted(s);
    let w = insertion_sorted(s);
    assert(strictly_sorted(w) && same_elements(w, s));
}

/// The result of comparing two values.
pub enum Comparison {
    Less,
    Equal,
    Greater,
}

/// Compares two strings, given by their characters, in the order of `String`.
pub fn compare_chars(a: &Vec<char>, b: &Vec<char>) -> (r: Comparison)
    ensures
        r is Less <==> chars_lt(a@, b@),
        r is Equal <==> a@ == b@,
        r is Greater <==> chars_lt(b@, a@),
{
    proof {
        lemma_chars_lt_irreflexive(a@);
        lemma_chars_lt_total(a@, b@);
        if chars_lt(a@, b@) && chars_lt(b@, a@) {
            lemma_chars_lt_transitive(a@, b@, a@);
        }
    }
    let mut i: usize = 0;
    while i < a.len() && i < b.len()
        invariant
            0 <= i <= a.len(),
            i <= b.len(),
            chars_lt(a@, b@) == chars_lt_from(a@, b@, i as nat),
            chars_lt(b@, a@) == chars_lt_from(b@, a@, i as nat),
            a@.subrange(0, i as int) == b@.subrange(0, i as int),
        decreases a.len() - i,
    {
        let x = a[i];
        let y = b[i];
        if x != y {
            if x < y {
                assert(a@ != b@);
                return Comparison::Less;
            } else {
                assert(a@ != b@);
                return Comparison::Greater;
            }
        }
        assert(a@.subrange(0, i + 1) =~= a@.subrange(0, i as int).push(x));
        assert(b@.subrange(0, i + 1) =~= b@.subrange(0, i as int).push(y));
        i = i + 1;
    }
    if a.len() == b.len() {
        assert(a@ =~= a@.subrange(0, i as int));
        assert(b@ =~= b@.subrange(0, i as int));
        Comparison::Equal
    } else if i == a.len() {
        Comparison::Less
    } else {
        Comparison::Greater
    }
}

/// Whether two strings are equal.
pub fn equal_text(a: &str, b: &str) -> (r: bool)
    ensures
        r == (a@ == b@),
{
    let x = chars_of(a);
    let y = chars_of(b);
    matches!(compare_chars(&x, &y), Comparison::Equal)
}

/// The characters of a pair of strings.
pub open spec fn key_views(s: Seq<(Vec<char>, Vec<char>)>) -> Seq<Key> {
    s.map_values(|k: (Vec<char>, Vec<char>)| (k.0@, k.1@))
}

/// Compares two pairs of strings as tuples compare.
pub fn compare_keys(x: &(Vec<char>, Vec<char>), y: &(Vec<char>, Vec<char>)) -> (r: Comparison)
    ensures
        r is Less <==> key_lt((x.0@, x.1@), (y.0@, y.1@)),
        r is Equal <==> (x.0@, x.1@) == (y.0@, y.1@),
        r is Greater <==> key_lt((y.0@, y.1@), (x.0@, x.1@)),
{
    proof {
        lemma_key_lt_order((x.0@, x.1@), (y.0@, y.1@), (x.0@, x.1@));
    }
    match compare_chars(&x.0, &y.0) {
        Comparison::Less => Comparison::Less,
        Comparison::Greater => Comparison::Greater,
        Comparison::Equal => compare_chars(&x.1, &y.1),
    }
}

/// The distinct pairs of `keys`, sorted.
pub fn sort_distinct(keys: Vec<(Vec<char>, Vec<char>)>) -> (res: Vec<(Vec<char>, Vec<char>)>)
    ensures
        strictly_sorted(key_views(res@)),
        same_elements(key_views(res@), key_views(keys@)),
        key_views(res@) == sorted_distinct(key_views(keys@)),
{
    let ghost orig = key_views(keys@);
    let mut rest = keys;
    let mut res: Vec<(Vec<char>, Vec<char>)> = Vec::new();
    while rest.len() > 0
        invariant
            strictly_sorted(key_views(res@)),
            forall|x: Key|
                orig.contains(x) <==> (key_views(res@).contains(x) || key_views(
                    rest@,
                ).contains(x)),
        decreases rest.len(),
    {
        let ghost before = key_views(res@);
        let ghost rest_before = key_views(rest@);
        let k = rest.pop().unwrap();
        let ghost kv = (k.0@, k.1@);
        proof {
            assert(rest_before =~= key_views(rest@).push(kv));
        }
        let mut j: usize = 0;
        while j < res.len() && matches!(compare_keys(&res[j], &k), Comparison::Less)
            invariant
                key_views(res@) == before,
                kv == (k.0@, k.1@),
                0 <= j <= res.len(),
                forall|i: int| 0 <= i < j ==> key_lt(#[trigger] before[i], kv),
            decreases res.len() - j,
        {
            assert(before[j as int] == (res@[j as int].0@, res@[j as int].1@));
            j = j + 1;
        }
        let found = j < res.len() && matches!(compare_keys(&res[j], &k), Comparison::Equal);
        proof {
            if j < res.len() {
                assert(before[j as int] == (res@[j as int].0@, res@[j as int].1@));
            }
        }
        if !found {
            proof {
                assert forall|i: int| j <= i < before.len() implies key_lt(kv, #[trigger] before[i])
                    by {
                    if j < i {
                        lemma_key_lt_order(kv, before[j as int], before[i]);
                    }
                }
            }
            res.insert(j, k);
            proof {
                let now = key_views(res@);
                assert(now =~= before.insert(j as int, kv));
                assert forall|a: int, b: int| 0 <= a < b < now.len() implies key_lt(
                    #[trigger] now[a],
                    #[trigger] now[b],
                ) by {
                    if b < j {
                        assert(now[a] == before[a] && now[b] == before[b]);
                    } else if a < j && b == j {
                    } else if a < j && b > j {
                        assert(now[b] == before[b - 1]);
                    } else if a == j {
                        assert(now[b] == before[b - 1]);
                    } else {
                        assert(now[a] == before[a - 1] && now[b] == before[b - 1]);
                    }
                }
                assert forall|x: Key| orig.contains(x) <==> (now.contains(x) || key_views(
                    rest@,
                ).contains(x)) by {
                    if before.contains(x) {
                        let i = choose|i: int| 0 <= i < before.len() && before[i] == x;
                        if i < j {
                            assert(now[i] == x);
                        } else {
                            assert(now[i + 1] == x);
                        }
                    }
                    if now.contains(x) {
                        let i = choose|i: int| 0 <= i < now.len() && now[i] == x;
                        if i < j {
                            assert(before[i] == x);
                        } else if i > j {
                            assert(before[i - 1] == x);
                        }
                    }
                    if rest_before.contains(x) && !key_views(rest@).contains(x) {
                        let i = choose|i: int| 0 <= i < rest_before.len() && rest_before[i] == x;
                        assert(x == kv);
                        assert(now[j as int] == kv);
                    }
                    if key_views(rest@).contains(x) {
                        let i = choose|i: int| 0 <= i < key_views(rest@).len() && key_views(rest@)[i] == x;
                        assert(rest_before[i] == x);
                    }
                    if x == kv {
                        assert(rest_before[rest_before.len() - 1] == kv);
                    }
                }
            }
        } else {
            proof {
                assert(before[j as int] == kv);
                assert forall|x: Key| orig.contains(x) <==> (before.contains(x) || key_views(
                    rest@,
                ).contains(x)) by {
                    if rest_before.contains(x) && !key_views(rest@).contains(x) {
                        let i = choose|i: int| 0 <= i < rest_before.len() && rest_before[i] == x;
                        assert(x == kv);
                    }
                    if key_views(rest@).contains(x) {
                        let i = choose|i: int| 0 <= i < key_views(rest@).len() && key_views(rest@)[i] == x;
                        assert(rest_before[i] == x);
                    }
                    if x == kv {
                        assert(rest_before[rest_before.len() - 1] == kv);
                    }
                }
            }
        }
    }
    proof {
        let r = key_views(res@);
        assert(key_views(rest@) =~= Seq::<Key>::empty());
        assert(same_elements(r, orig));
        let c = sorted_distinct(orig);
        assert(strictly_sorted(c) && same_elements(c, orig));
        assert(same_elements(r, c));
        lemma_strictly_sorted_unique(r, c);
    }
    res
}

} // verus!

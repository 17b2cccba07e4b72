//! Text building blocks: joining, character-wise replacement and decimal numbers,
//! each stated over `Seq<char>` and implemented on `String`.
use vstd::prelude::*;

verus! {

/// `parts` concatenated with `sep` between each two neighbours, as `[String]::join` builds it.
pub open spec fn join(parts: Seq<Seq<char>>, sep: Seq<char>) -> Seq<char>
    decreases parts.len(),
{
    if parts.len() == 0 {
        Seq::empty()
    } else if parts.len() == 1 {
        parts[0]
    } else {
        join(parts.drop_last(), sep) + sep + parts.last()
    }
}

/// A joined list begins with its first part and ends with its last.
pub proof fn lemma_join_ends(parts: Seq<Seq<char>>, sep: Seq<char>)
    requires
        parts.len() > 0,
    ensures
        join(parts, sep).len() >= parts[0].len(),
        join(parts, sep).len() >= parts.last().len(),
        join(parts, sep).subrange(0, parts[0].len() as int) == parts[0],
        join(parts, sep).subrange(
            join(parts, sep).len() - parts.last().len(),
            join(parts, sep).len() as int,
        ) == parts.last(),
    decreases parts.len(),
{
    let j = join(parts, sep);
    if parts.len() == 1 {
        assert(j.subrange(0, parts[0].len() as int) =~= parts[0]);
        assert(j.subrange(j.len() - parts.last().len(), j.len() as int) =~= parts.last());
    } else {
        let front = parts.drop_last();
        lemma_join_ends(front, sep);
        let jf = join(front, sep);
        assert(j == jf + sep + parts.last());
        assert(front[0] == parts[0]);
        assert(j.subrange(0, parts[0].len() as int) =~= jf.subrange(0, parts[0].len() as int));
        assert(j.subrange(j.len() - parts.last().len(), j.len() as int) =~= parts.last());
    }
}

/// The views of a list of strings.
pub open spec fn views(v: Seq<String>) -> Seq<Seq<char>> {
    v.map_values(|s: String| s@)
}

/// The views after a push are the views before it, then the view of what was pushed.
pub proof fn lemma_views_push(v: Seq<String>, s: String)
    ensures
        views(v.push(s)) == views(v).push(s@),
{
    assert(views(v.push(s)) =~= views(v).push(s@));
}

/// Every character `c` of `s` replaced by `f(c)`.
pub open spec fn flat_map_chars(s: Seq<char>, f: spec_fn(char) -> Seq<char>) -> Seq<char>
    decreases s.len(),
{
    if s.len() == 0 {
        Seq::empty()
    } else {
        flat_map_chars(s.drop_last(), f) + f(s.last())
    }
}

/// The one-character replacement `c` becomes `to` when `c == from`, else stays.
pub open spec fn replace_one(from: char, to: Seq<char>) -> spec_fn(char) -> Seq<char> {
    |c: char|
        if c == from {
            to
        } else {
            seq![c]
        }
}

/// `s` with every occurrence of `from` replaced by `to`: what `str::replace` gives for
/// a pattern of one character.
pub open spec fn replace_char(s: Seq<char>, from: char, to: Seq<char>) -> Seq<char> {
    flat_map_chars(s, replace_one(from, to))
}

/// The decimal digit for `d < 10`.
pub open spec fn digit(d: nat) -> char {
    if d == 0 {
        '0'
    } else if d == 1 {
        '1'
    } else if d == 2 {
        '2'
    } else if d == 3 {
        '3'
    } else if d == 4 {
        '4'
    } else if d == 5 {
        '5'
    } else if d == 6 {
        '6'
    } else if d == 7 {
        '7'
    } else if d == 8 {
        '8'
    } else {
        '9'
    }
}

/// The decimal representation of `n`, without leading zeros (as `{}` formats an integer).
pub open spec fn decimal(n: nat) -> Seq<char>
    decreases n,
{
    if n < 10 {
        seq![digit(n)]
    } else {
        decimal(n / 10).push(digit(n % 10))
    }
}

/// `flat_map_chars` distributes over concatenation.
pub proof fn lemma_flat_map_concat(a: Seq<char>, b: Seq<char>, f: spec_fn(char) -> Seq<char>)
    ensures
        flat_map_chars(a + b, f) == flat_map_chars(a, f) + flat_map_chars(b, f),
    decreases b.len(),
{
    if b.len() == 0 {
        assert(a + b =~= a);
        assert(flat_map_chars(a, f) + flat_map_chars(b, f) =~= flat_map_chars(a, f));
    } else {
        lemma_flat_map_concat(a, b.drop_last(), f);
        assert((a + b).drop_last() =~= a + b.drop_last());
        assert((a + b).last() == b.last());
        assert(flat_map_chars(a + b, f) =~= flat_map_chars(a, f) + flat_map_chars(b, f));
    }
}

/// Mapping a single character.
pub proof fn lemma_flat_map_single(c: char, f: spec_fn(char) -> Seq<char>)
    ensures
        flat_map_chars(seq![c], f) == f(c),
{
    assert(seq![c].drop_last() =~= Seq::<char>::empty());
    assert(flat_map_chars(Seq::<char>::empty(), f) == Seq::<char>::empty());
    assert(seq![c].last() == c);
    assert(Seq::<char>::empty() + f(c) =~= f(c));
}

/// Appending one character.
pub proof fn lemma_flat_map_push(s: Seq<char>, c: char, f: spec_fn(char) -> Seq<char>)
    ensures
        flat_map_chars(s.push(c), f) == flat_map_chars(s, f) + f(c),
{
    assert(s.push(c).drop_last() =~= s);
}

/// Two character-wise maps in a row are one character-wise map.
pub proof fn lemma_flat_map_compose(
    s: Seq<char>,
    f: spec_fn(char) -> Seq<char>,
    g: spec_fn(char) -> Seq<char>,
    h: spec_fn(char) -> Seq<char>,
)
    requires
        forall|c: char| #[trigger] h(c) == flat_map_chars(f(c), g),
    ensures
        flat_map_chars(flat_map_chars(s, f), g) == flat_map_chars(s, h),
    decreases s.len(),
{
    if s.len() == 0 {
    } else {
        lemma_flat_map_compose(s.drop_last(), f, g, h);
        lemma_flat_map_concat(flat_map_chars(s.drop_last(), f), f(s.last()), g);
        assert(h(s.last()) == flat_map_chars(f(s.last()), g));
    }
}

/// The text of a nonempty string maps to nonempty text.
pub proof fn lemma_flat_map_nonempty(s: Seq<char>, f: spec_fn(char) -> Seq<char>)
    requires
        s.len() > 0,
        forall|c: char| (#[trigger] f(c)).len() > 0,
    ensures
        flat_map_chars(s, f).len() > 0,
{
    assert(f(s.last()).len() > 0);
}

/// A character-wise map that writes each character as text ending in that very character
/// loses nothing: different strings map to different text.
pub proof fn lemma_flat_map_injective(a: Seq<char>, b: Seq<char>, f: spec_fn(char) -> Seq<char>)
    requires
        forall|c: char| (#[trigger] f(c)).len() > 0 && f(c).last() == c,
        flat_map_chars(a, f) == flat_map_chars(b, f),
    ensures
        a == b,
    decreases a.len(),
{
    if a.len() == 0 || b.len() == 0 {
        if a.len() > 0 {
            lemma_flat_map_nonempty(a, f);
        }
        if b.len() > 0 {
            lemma_flat_map_nonempty(b, f);
        }
        assert(a =~= b);
    } else {
        let fa = flat_map_chars(a, f);
        let ca = a.last();
        let cb = b.last();
        let ra = flat_map_chars(a.drop_last(), f);
        let rb = flat_map_chars(b.drop_last(), f);
        assert(fa == ra + f(ca));
        assert(fa == rb + f(cb));
        assert(f(ca).len() > 0 && f(cb).len() > 0);
        assert(fa.last() == f(ca).last());
        assert(fa.last() == f(cb).last());
        assert(ca == cb);
        assert(ra =~= fa.subrange(0, fa.len() - f(ca).len()));
        assert(rb =~= fa.subrange(0, fa.len() - f(cb).len()));
        lemma_flat_map_injective(a.drop_last(), b.drop_last(), f);
        assert(a =~= a.drop_last().push(ca));
        assert(b =~= b.drop_last().push(cb));
    }
}

/// A character-wise map that leaves each character of `s` alone leaves `s` alone.
pub proof fn lemma_flat_map_identity(s: Seq<char>, f: spec_fn(char) -> Seq<char>)
    requires
        forall|i: int| 0 <= i < s.len() ==> f(#[trigger] s[i]) == seq![s[i]],
    ensures
        flat_map_chars(s, f) == s,
    decreases s.len(),
{
    if s.len() > 0 {
        let front = s.drop_last();
        assert forall|i: int| 0 <= i < front.len() implies f(#[trigger] front[i]) == seq![front[i]] by {
            assert(front[i] == s[i]);
        }
        lemma_flat_map_identity(front, f);
        assert(f(s[s.len() - 1]) == seq![s[s.len() - 1]]);
        assert(front + seq![s.last()] =~= s);
    }
}

/// Where a character-wise map writes each `special` character right after a backslash,
/// so does the mapped text.
pub proof fn lemma_flat_map_escapes(
    s: Seq<char>,
    f: spec_fn(char) -> Seq<char>,
    special: spec_fn(char) -> bool,
)
    requires
        forall|c: char, i: int|
            0 <= i < f(c).len() && special(#[trigger] f(c)[i]) ==> i > 0 && f(c)[i - 1] == '\\',
    ensures
        forall|i: int|
            0 <= i < flat_map_chars(s, f).len() && special(#[trigger] flat_map_chars(s, f)[i])
                ==> i > 0 && flat_map_chars(s, f)[i - 1] == '\\',
    decreases s.len(),
{
    if s.len() > 0 {
        let front = flat_map_chars(s.drop_last(), f);
        let c = s.last();
        lemma_flat_map_escapes(s.drop_last(), f, special);
        let all = flat_map_chars(s, f);
        assert(all == front + f(c));
        assert forall|i: int|
            0 <= i < all.len() && special(#[trigger] all[i]) implies i > 0 && all[i - 1] == '\\' by {
            if i < front.len() {
                assert(all[i] == front[i]);
                if i > 0 {
                    assert(all[i - 1] == front[i - 1]);
                }
            } else {
                let j = i - front.len();
                assert(all[i] == f(c)[j]);
                assert(j > 0 && f(c)[j - 1] == '\\');
                assert(all[i - 1] == f(c)[j - 1]);
            }
        }
    }
}

/// Calls `String::push`, which std documents as appending the given `char` to the end of
/// the string; the contract claims exactly that of the view, and is trusted.
#[verifier::external_body]
pub(crate) fn push_char(s: &mut String, c: char)
    ensures
        final(s)@ == old(s)@.push(c),
{
    s.push(c);
}

/// The text of a string, as a `String`.
pub fn from_literal(s: &str) -> (res: String)
    ensures
        res@ == s@,
{
    let mut res = String::new();
    res.append(s);
    res
}

/// `s` with every `from` replaced by `to`.
pub fn replace(s: &str, from: char, to: &str) -> (res: String)
    ensures
        res@ == replace_char(s@, from, to@),
{
    let mut res = String::new();
    for c in it: s.chars()
        invariant
            it.seq() == s@,
            res@ == replace_char(it.seq().take(it.index() as int), from, to@),
    {
        let ghost done = it.seq().take(it.index() as int);
        proof {
            assert(it.seq().take(it.index() + 1) =~= done.push(c));
            lemma_flat_map_push(done, c, replace_one(from, to@));
        }
        if c == from {
            res.append(to);
        } else {
            push_char(&mut res, c);
        }
    }
    proof {
        assert(s@.take(s@.len() as int) =~= s@);
    }
    res
}

/// The strings of `parts`, `sep` between each two.
pub fn join_strings(parts: &Vec<String>, sep: &str) -> (res: String)
    ensures
        res@ == join(views(parts@), sep@),
{
    let mut res = String::new();
    let n = parts.len();
    let ghost all = views(parts@);
    let mut i: usize = 0;
    while i < n
        invariant
            n == parts.len(),
            all == views(parts@),
            0 <= i <= n,
            res@ == join(all.take(i as int), sep@),
        decreases n - i,
    {
        proof {
            assert(all.take(i + 1).drop_last() =~= all.take(i as int));
            assert(all.take(i + 1).last() == parts@[i as int]@);
        }
        if i == 0 {
            assert(all.take(1) =~= seq![parts@[0]@]);
        } else {
            res.append(sep);
        }
        res.append(parts[i].as_str());
        i = i + 1;
    }
    assert(all.take(n as int) =~= all);
    res
}

/// The decimal digit of `d < 10`.
pub fn digit_char(d: u128) -> (c: char)
    requires
        d < 10,
    ensures
        c == digit(d as nat),
{
    if d == 0 {
        '0'
    } else if d == 1 {
        '1'
    } else if d == 2 {
        '2'
    } else if d == 3 {
        '3'
    } else if d == 4 {
        '4'
    } else if d == 5 {
        '5'
    } else if d == 6 {
        '6'
    } else if d == 7 {
        '7'
    } else if d == 8 {
        '8'
    } else {
        '9'
    }
}

/// `n` written in decimal.
pub fn decimal_string(n: u128) -> (res: String)
    ensures
        res@ == decimal(n as nat),
    decreases n,
{
    if n < 10 {
        let mut s = String::new();
        push_char(&mut s, digit_char(n));
        s
    } else {
        let mut s = decimal_string(n / 10);
        push_char(&mut s, digit_char(n % 10));
        s
    }
}

/// The characters of `s`, one per element.
pub fn chars_of(s: &str) -> (res: Vec<char>)
    ensures
        res@ == s@,
{
    let mut res: Vec<char> = Vec::new();
    for c in it: s.chars()
        invariant
            it.seq() == s@,
            res@ == it.seq().take(it.index() as int),
    {
        proof {
            assert(it.seq().take(it.index() + 1) =~= res@.push(c));
        }
        res.push(c);
    }
    assert(s@.take(s@.len() as int) =~= s@);
    res
}

/// The string made of the characters of `v`.
pub fn string_of(v: &Vec<char>) -> (res: String)
    ensures
        res@ == v@,
{
    let mut res = String::new();
    let n = v.len();
    let mut i: usize = 0;
    while i < n
        invariant
            n == v.len(),
            0 <= i <= n,
            res@ == v@.take(i as int),
        decreases n - i,
    {
        assert(v@.take(i + 1) =~= v@.take(i as int).push(v@[i as int]));
        push_char(&mut res, v[i]);
        i = i + 1;
    }
    assert(v@.take(n as int) =~= v@);
    res
}

} // verus!

//! Lexicographic ordering of strings by character code points, and a verified
//! ascending sort for vectors of strings.
//!
//! The order agrees with Rust's `Ord` on `str`: UTF-8 byte order coincides
//! with code-point order.

use vstd::prelude::*;
use vstd::multiset::Multiset;
use vstd::seq_lib::group_seq_properties;

verus! {

/// `a` comes no later than `b` in lexicographic code-point order.
pub open spec fn lex_leq(a: Seq<char>, b: Seq<char>) -> bool
    decreases a.len(),
{
    if a.len() == 0 {
        true
    } else if b.len() == 0 {
        false
    } else if a[0] != b[0] {
        (a[0] as u32) < (b[0] as u32)
    } else {
        lex_leq(a.drop_first(), b.drop_first())
    }
}

/// Every element of `s` is no later than every element that follows it.
pub open spec fn sorted_strs(s: Seq<Seq<char>>) -> bool {
    forall|i: int, j: int| 0 <= i <= j < s.len() ==> lex_leq(#[trigger] s[i], #[trigger] s[j])
}

/// `lex_leq` is reflexive.
pub proof fn lemma_lex_refl(a: Seq<char>)
    ensures
        lex_leq(a, a),
    decreases a.len(),
{
    if a.len() != 0 {
        lemma_lex_refl(a.drop_first());
    }
}

/// `lex_leq` is total: of any two strings, one comes no later than the other.
pub proof fn lemma_lex_total(a: Seq<char>, b: Seq<char>)
    ensures
        lex_leq(a, b) || lex_leq(b, a),
    decreases a.len(),
{
    if a.len() != 0 && b.len() != 0 {
        if a[0] == b[0] {
            lemma_lex_total(a.drop_first(), b.drop_first());
        } else {
            assert(a[0] as u32 != b[0] as u32) by {
                vstd::utf8::char_u32_cast(a[0], a[0] as u32);
                vstd::utf8::char_u32_cast(b[0], b[0] as u32);
            }
        }
    }
}

/// `lex_leq` is antisymmetric: mutual order means equality.
pub proof fn lemma_lex_antisym(a: Seq<char>, b: Seq<char>)
    requires
        lex_leq(a, b),
        lex_leq(b, a),
    ensures
        a == b,
    decreases a.len(),
{
    if a.len() == 0 {
        assert(b.len() == 0);
        assert(a =~= b);
    } else {
        assert(b.len() != 0);
        lemma_lex_antisym(a.drop_first(), b.drop_first());
        assert(a =~= seq![a[0]] + a.drop_first());
        assert(b =~= seq![b[0]] + b.drop_first());
    }
}

/// `lex_leq` is transitive.
pub proof fn lemma_lex_trans(a: Seq<char>, b: Seq<char>, c: Seq<char>)
    requires
        lex_leq(a, b),
        lex_leq(b, c),
    ensures
        lex_leq(a, c),
    decreases a.len(),
{
    if a.len() != 0 && b.len() != 0 && c.len() != 0 {
        if a[0] == b[0] && b[0] == c[0] {
            lemma_lex_trans(a.drop_first(), b.drop_first(), c.drop_first());
        }
    }
}

/// Decides `lex_leq(a@, b@)` by walking the characters of both strings.
pub fn str_leq(a: &str, b: &str) -> (r: bool)
    ensures
        r == lex_leq(a@, b@),
{
    broadcast use group_seq_properties;

    let a_len = a.unicode_len();
    let b_len = b.unicode_len();
    let mut i: usize = 0;
    loop
        invariant
            i <= a_len,
            i <= b_len,
            a_len == a@.len(),
            b_len == b@.len(),
            lex_leq(a@, b@) == lex_leq(a@.skip(i as int), b@.skip(i as int)),
        decreases a_len - i,
    {
        if i == a_len {
            assert(a@.skip(i as int).len() == 0);
            return true;
        }
        if i == b_len {
            assert(b@.skip(i as int).len() == 0);
            assert(a@.skip(i as int).len() != 0);
            return false;
        }
        let ca = a.get_char(i);
        let cb = b.get_char(i);
        assert(a@.skip(i as int)[0] == a@[i as int]);
        assert(b@.skip(i as int)[0] == b@[i as int]);
        if ca != cb {
            return (ca as u32) < (cb as u32);
        }
        assert(a@.skip(i as int).drop_first() =~= a@.skip(i as int + 1));
        assert(b@.skip(i as int).drop_first() =~= b@.skip(i as int + 1));
        i = i + 1;
    }
}

/// Two sorted sequences of the same strings are the same sequence: stating
/// "sorted, with these contents" pins a result completely.
pub proof fn lemma_sorted_unique(a: Seq<Seq<char>>, b: Seq<Seq<char>>)
    requires
        sorted_strs(a),
        sorted_strs(b),
        a.to_multiset() == b.to_multiset(),
    ensures
        a == b,
    decreases a.len(),
{
    broadcast use vstd::seq_lib::group_to_multiset_ensures;

    if a.len() == 0 {
        assert(b.len() == 0);
        assert(a =~= b);
    } else {
        assert(a.to_multiset().len() == a.len());
        assert(b.to_multiset().len() == b.len());
        assert(b.len() == a.len());
        assert(a.contains(a[0]));
        assert(b.to_multiset().count(a[0]) > 0);
        assert(b.contains(a[0]));
        let i = choose|i: int| 0 <= i < b.len() && b[i] == a[0];
        assert(lex_leq(b[0], a[0]));
        assert(a.contains(b[0])) by {
            assert(b.contains(b[0]));
            assert(a.to_multiset().count(b[0]) > 0);
        }
        let j = choose|j: int| 0 <= j < a.len() && a[j] == b[0];
        assert(lex_leq(a[0], b[0]));
        lemma_lex_antisym(a[0], b[0]);
        assert(a.drop_first() =~= a.remove(0));
        assert(b.drop_first() =~= b.remove(0));
        assert(a.remove(0).to_multiset() =~= a.to_multiset().remove(a[0]));
        assert(b.remove(0).to_multiset() =~= b.to_multiset().remove(b[0]));
        assert forall|p: int, q: int|
            0 <= p <= q < a.drop_first().len() implies lex_leq(
            #[trigger] a.drop_first()[p],
            #[trigger] a.drop_first()[q],
        ) by {
            assert(a.drop_first()[p] == a[p + 1]);
            assert(a.drop_first()[q] == a[q + 1]);
        }
        assert forall|p: int, q: int|
            0 <= p <= q < b.drop_first().len() implies lex_leq(
            #[trigger] b.drop_first()[p],
            #[trigger] b.drop_first()[q],
        ) by {
            assert(b.drop_first()[p] == b[p + 1]);
            assert(b.drop_first()[q] == b[q + 1]);
        }
        lemma_sorted_unique(a.drop_first(), b.drop_first());
        assert(a =~= seq![a[0]] + a.drop_first());
        assert(b =~= seq![b[0]] + b.drop_first());
    }
}

/// Decides whether two strings hold the same characters.
pub fn str_eq(a: &str, b: &str) -> (r: bool)
    ensures
        r == (a@ == b@),
{
    let a_len = a.unicode_len();
    let b_len = b.unicode_len();
    if a_len != b_len {
        return false;
    }
    for i in 0..a_len
        invariant
            a_len == a@.len(),
            a_len == b@.len(),
            forall|k: int| 0 <= k < i ==> a@[k] == b@[k],
    {
        if a.get_char(i) != b.get_char(i) {
            return false;
        }
    }
    proof {
        assert(a@ =~= b@);
    }
    true
}

/// Sorts the strings ascending by `lex_leq`, keeping exactly the same
/// collection of values.
pub fn sort_strings(v: &Vec<String>) -> (r: Vec<String>)
    ensures
        sorted_strs(r.deep_view()),
        r.deep_view().to_multiset() == v.deep_view().to_multiset(),
        r@.len() == v@.len(),
{
    broadcast use vstd::seq_lib::group_to_multiset_ensures;

    let mut r: Vec<String> = Vec::new();
    assert(r.deep_view() =~= Seq::<Seq<char>>::empty());
    assert(v.deep_view().take(0) =~= Seq::<Seq<char>>::empty());
    let n = v.len();
    for i in 0..n
        invariant
            n == v@.len(),
            r@.len() == i,
            sorted_strs(r.deep_view()),
            r.deep_view().to_multiset() == v.deep_view().take(i as int).to_multiset(),
    {
        let x = v[i].clone();
        let ghost pre = r.deep_view();
        let pos = insertion_point(&r, &x);
        r.insert(pos, x);
        proof {
            broadcast use vstd::seq_lib::group_to_multiset_ensures;

            let dv = r.deep_view();
            let x_view = v.deep_view()[i as int];
            assert(dv =~= pre.insert(pos as int, x_view));
            lemma_insert_keeps_sorted(pre, pos as int, x_view);
            lemma_insert_multiset(pre, pos as int, x_view);
            assert(v.deep_view().take(i + 1) =~= v.deep_view().take(i as int).push(x_view));
            assert(v.deep_view().take(i as int).push(x_view).to_multiset() == v.deep_view().take(
                i as int,
            ).to_multiset().insert(x_view));
        }
    }
    proof {
        assert(v.deep_view().take(n as int) =~= v.deep_view());
    }
    r
}

/// Finds the first position of `r` whose element comes after `x`; the
/// position is the end where no element does.
fn insertion_point(r: &Vec<String>, x: &String) -> (pos: usize)
    requires
        sorted_strs(r.deep_view()),
    ensures
        pos <= r@.len(),
        forall|k: int| 0 <= k < pos ==> lex_leq(#[trigger] r.deep_view()[k], x@),
        forall|k: int| pos <= k < r@.len() ==> lex_leq(x@, #[trigger] r.deep_view()[k]),
{
    let n = r.len();
    let mut pos: usize = 0;
    while pos < n
        invariant
            pos <= n,
            n == r@.len(),
            sorted_strs(r.deep_view()),
            forall|k: int| 0 <= k < pos ==> lex_leq(#[trigger] r.deep_view()[k], x@),
        decreases n - pos,
    {
        if !str_leq(r[pos].as_str(), x.as_str()) {
            proof {
                lemma_lex_total(r.deep_view()[pos as int], x@);
                assert forall|k: int| pos <= k < r@.len() implies lex_leq(
                    x@,
                    #[trigger] r.deep_view()[k],
                ) by {
                    lemma_lex_trans(x@, r.deep_view()[pos as int], r.deep_view()[k]);
                }
            }
            return pos;
        }
        pos = pos + 1;
    }
    pos
}

/// Inserting at a boundary position keeps a sorted sequence sorted.
proof fn lemma_insert_keeps_sorted(s: Seq<Seq<char>>, pos: int, x: Seq<char>)
    requires
        sorted_strs(s),
        0 <= pos <= s.len(),
        forall|k: int| 0 <= k < pos ==> lex_leq(#[trigger] s[k], x),
        forall|k: int| pos <= k < s.len() ==> lex_leq(x, #[trigger] s[k]),
    ensures
        sorted_strs(s.insert(pos, x)),
{
    let t = s.insert(pos, x);
    assert forall|i: int, j: int| 0 <= i <= j < t.len() implies lex_leq(
        #[trigger] t[i],
        #[trigger] t[j],
    ) by {
        if i == j {
            lemma_lex_refl(t[i]);
        }
    }
}

/// Inserting an element adds exactly one occurrence of it to the multiset.
proof fn lemma_insert_multiset(s: Seq<Seq<char>>, pos: int, x: Seq<char>)
    requires
        0 <= pos <= s.len(),
    ensures
        s.insert(pos, x).to_multiset() == s.to_multiset().insert(x),
{
    broadcast use vstd::seq_lib::group_to_multiset_ensures;

    let t = s.insert(pos, x);
    assert(t =~= s.take(pos) + (seq![x] + s.skip(pos)));
    vstd::seq_lib::lemma_multiset_commutative(s.take(pos), seq![x] + s.skip(pos));
    vstd::seq_lib::lemma_multiset_commutative(seq![x], s.skip(pos));
    vstd::seq_lib::lemma_multiset_commutative(s.take(pos), s.skip(pos));
    assert(s.take(pos) + s.skip(pos) =~= s);
    assert(seq![x] =~= Seq::<Seq<char>>::empty().push(x));
    assert(seq![x].to_multiset() =~= Multiset::<Seq<char>>::empty().insert(x));
    assert(s.insert(pos, x).to_multiset() =~= s.to_multiset().insert(x));
}

} // verus!

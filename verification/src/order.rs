//! Lexicographic order on strings (as `String`'s `Ord` orders them: by
//! code point, which is also UTF-8 byte order) and sorting by it.

use vstd::prelude::*;

verus! {

/// `a` sorts before `b`: at the first difference `a`'s character is
/// smaller, or `a` is a proper prefix of `b`.
pub open spec fn lex_lt(a: Seq<char>, b: Seq<char>) -> bool
    decreases a.len(),
{
    if a.len() == 0 {
        b.len() > 0
    } else if b.len() == 0 {
        false
    } else if a[0] != b[0] {
        a[0] < b[0]
    } else {
        lex_lt(a.drop_first(), b.drop_first())
    }
}

/// `a` sorts before `b` or equals it.
pub open spec fn lex_le(a: Seq<char>, b: Seq<char>) -> bool {
    a == b || lex_lt(a, b)
}

/// Ordered by `lex_le`.
pub open spec fn is_sorted(v: Seq<Seq<char>>) -> bool {
    forall|i: int, j: int| 0 <= i < j < v.len() ==> lex_le(#[trigger] v[i], #[trigger] v[j])
}

pub proof fn lemma_lex_lt_irreflexive(a: Seq<char>)
    ensures
        !lex_lt(a, a),
    decreases a.len(),
{
    if a.len() > 0 {
        lemma_lex_lt_irreflexive(a.drop_first());
    }
}

pub proof fn lemma_lex_total(a: Seq<char>, b: Seq<char>)
    ensures
        lex_lt(a, b) || lex_lt(b, a) || a == b,
    decreases a.len(),
{
    if a.len() > 0 && b.len() > 0 && a[0] == b[0] {
        lemma_lex_total(a.drop_first(), b.drop_first());
        if a.drop_first() == b.drop_first() {
            assert(a =~= seq![a[0]] + a.drop_first());
            assert(b =~= seq![b[0]] + b.drop_first());
        }
    } else if a.len() == 0 && b.len() == 0 {
        assert(a =~= b);
    }
}

pub proof fn lemma_lex_lt_asymmetric(a: Seq<char>, b: Seq<char>)
    ensures
        lex_lt(a, b) ==> !lex_lt(b, a),
    decreases a.len(),
{
    if a.len() > 0 && b.len() > 0 && a[0] == b[0] {
        lemma_lex_lt_asymmetric(a.drop_first(), b.drop_first());
    }
}

pub proof fn lemma_lex_lt_transitive(a: Seq<char>, b: Seq<char>, c: Seq<char>)
    requires
        lex_lt(a, b),
        lex_lt(b, c),
    ensures
        lex_lt(a, c),
    decreases a.len(),
{
    if a.len() > 0 && b.len() > 0 && c.len() > 0 && a[0] == b[0] && b[0] == c[0] {
        lemma_lex_lt_transitive(a.drop_first(), b.drop_first(), c.drop_first());
    }
}

pub proof fn lemma_lex_le_transitive(a: Seq<char>, b: Seq<char>, c: Seq<char>)
    requires
        lex_le(a, b),
        lex_le(b, c),
    ensures
        lex_le(a, c),
{
    if lex_lt(a, b) && lex_lt(b, c) {
        lemma_lex_lt_transitive(a, b, c);
    }
}

/// Whether `a` sorts before `b`.
pub fn str_lt(a: &str, b: &str) -> (lt: bool)
    ensures
        lt == lex_lt(a@, b@),
{
    let x = crate::text::str_to_chars(a);
    let y = crate::text::str_to_chars(b);
    let mut i: usize = 0;
    assert(a@.skip(0) =~= a@);
    assert(b@.skip(0) =~= b@);
    while i < x.len() && i < y.len() && x[i] == y[i]
        invariant
            i <= x@.len(),
            i <= y@.len(),
            x@ == a@,
            y@ == b@,
            lex_lt(a@, b@) == lex_lt(a@.skip(i as int), b@.skip(i as int)),
        decreases x@.len() - i,
    {
        assert(a@.skip(i as int).drop_first() =~= a@.skip(i + 1));
        assert(b@.skip(i as int).drop_first() =~= b@.skip(i + 1));
        i = i + 1;
    }
    if i == x.len() {
        i < y.len()
    } else if i == y.len() {
        false
    } else {
        x[i] < y[i]
    }
}

/// The strings of `v`.
pub open spec fn strings_of(v: Seq<String>) -> Seq<Seq<char>> {
    v.map_values(|s: String| s@)
}

proof fn lemma_insert_multiset(s: Seq<Seq<char>>, i: int, x: Seq<char>)
    requires
        0 <= i <= s.len(),
    ensures
        s.insert(i, x).to_multiset() =~= s.to_multiset().insert(x),
{
    broadcast use vstd::seq_lib::group_to_multiset_ensures;

    let t = s.insert(i, x);
    assert(t.remove(i) =~= s);
    assert(t[i] == x);
    assert(t.to_multiset().count(x) > 0) by {
        assert(t.contains(x));
    }
}

/// `v` sorted in ascending order (as `slice::sort` orders strings).
pub fn sort_strings(v: Vec<String>) -> (sorted: Vec<String>)
    ensures
        is_sorted(strings_of(sorted@)),
        strings_of(sorted@).to_multiset() == strings_of(v@).to_multiset(),
{
    let ghost input = strings_of(v@);
    let mut out: Vec<String> = Vec::new();
    let mut rest = v;
    let ghost mut taken: Seq<Seq<char>> = Seq::empty();
    assert(strings_of(out@) =~= Seq::<Seq<char>>::empty());
    assert(input =~= taken + strings_of(rest@));
    while rest.len() > 0
        invariant
            is_sorted(strings_of(out@)),
            strings_of(out@).to_multiset() == taken.to_multiset(),
            input == taken + strings_of(rest@),
        decreases rest@.len(),
    {
        let ghost old_rest = strings_of(rest@);
        let x = rest.remove(0);
        let ghost xv = x@;
        assert(old_rest =~= seq![xv] + strings_of(rest@));
        let ghost ov = strings_of(out@);
        let mut pos: usize = 0;
        while pos < out.len() && !str_lt(x.as_str(), out[pos].as_str())
            invariant
                pos <= out@.len(),
                ov == strings_of(out@),
                xv == x@,
                forall|k: int| 0 <= k < pos ==> lex_le(#[trigger] ov[k], xv),
            decreases out@.len() - pos,
        {
            proof {
                lemma_lex_total(xv, ov[pos as int]);
            }
            pos = pos + 1;
        }
        proof {
            if pos < ov.len() {
                assert(lex_lt(xv, ov[pos as int]));
            }
        }
        out.insert(pos, x);
        proof {
            let nv = strings_of(out@);
            assert(nv =~= ov.insert(pos as int, xv));
            assert forall|i: int, j: int| 0 <= i < j < nv.len() implies lex_le(
                #[trigger] nv[i],
                #[trigger] nv[j],
            ) by {
                if j < pos {
                    assert(nv[i] == ov[i] && nv[j] == ov[j]);
                } else if j == pos {
                    assert(nv[i] == ov[i]);
                } else if i > pos {
                    assert(nv[i] == ov[i - 1] && nv[j] == ov[j - 1]);
                } else if i == pos {
                    assert(nv[j] == ov[j - 1]);
                    assert(lex_lt(xv, ov[pos as int]));
                    if j - 1 > pos {
                        assert(lex_le(ov[pos as int], ov[j - 1]));
                    }
                    lemma_lex_le_transitive(xv, ov[pos as int], ov[j - 1]);
                } else {
                    assert(nv[i] == ov[i] && nv[j] == ov[j - 1]);
                    assert(lex_le(ov[i], ov[j - 1]));
                }
            }
            lemma_insert_multiset(ov, pos as int, xv);
            broadcast use vstd::seq_lib::group_to_multiset_ensures;

            assert(taken.push(xv).to_multiset() =~= taken.to_multiset().insert(xv));
            taken = taken.push(xv);
            assert(input =~= taken + strings_of(rest@));
        }
    }
    out
}


proof fn lemma_sorted_first_le(v: Seq<Seq<char>>, x: Seq<char>)
    requires
        is_sorted(v),
        v.contains(x),
    ensures
        lex_le(v[0], x),
{
    let j = choose|j: int| 0 <= j < v.len() && v[j] == x;
    if j > 0 {
        assert(lex_le(v[0], v[j]));
    }
}

/// The law that a sorted arrangement is unique: two sorted sequences of
/// the same names (counted with repetition) are equal.
pub proof fn law_sorted_arrangement_unique(a: Seq<Seq<char>>, b: Seq<Seq<char>>)
    requires
        is_sorted(a),
        is_sorted(b),
        a.to_multiset() == b.to_multiset(),
    ensures
        a == b,
    decreases a.len(),
{
    broadcast use vstd::seq_lib::group_to_multiset_ensures;

    assert(a.to_multiset().len() == a.len());
    assert(b.to_multiset().len() == b.len());
    if a.len() == 0 {
        assert(b.len() == 0);
        assert(a =~= b);
    } else {
        assert(b.len() == a.len());
        assert(a.contains(a[0]));
        assert(a.to_multiset().count(a[0]) > 0);
        assert(b.contains(a[0]));
        assert(b.contains(b[0]));
        assert(b.to_multiset().count(b[0]) > 0);
        assert(a.contains(b[0]));
        lemma_sorted_first_le(b, a[0]);
        lemma_sorted_first_le(a, b[0]);
        lemma_lex_lt_asymmetric(a[0], b[0]);
        assert(a[0] == b[0]);
        let ra = a.remove(0);
        let rb = b.remove(0);
        assert(ra.to_multiset() == a.to_multiset().remove(a[0]));
        assert(rb.to_multiset() == b.to_multiset().remove(b[0]));
        assert(is_sorted(ra)) by {
            assert forall|i: int, j: int| 0 <= i < j < ra.len() implies lex_le(#[trigger] ra[i], #[trigger] ra[j]) by {
                assert(ra[i] == a[i + 1]);
                assert(ra[j] == a[j + 1]);
            }
        }
        assert(is_sorted(rb)) by {
            assert forall|i: int, j: int| 0 <= i < j < rb.len() implies lex_le(#[trigger] rb[i], #[trigger] rb[j]) by {
                assert(rb[i] == b[i + 1]);
                assert(rb[j] == b[j + 1]);
            }
        }
        law_sorted_arrangement_unique(ra, rb);
        assert(a =~= b) by {
            assert forall|i: int| 0 <= i < a.len() implies a[i] == b[i] by {
                if i > 0 {
                    assert(a[i] == ra[i - 1]);
                    assert(b[i] == rb[i - 1]);
                }
            }
        }
    }
}
} // verus!

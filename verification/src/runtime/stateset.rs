//! Sets of state names kept as vectors in increasing lexicographic order, without repeats.
use vstd::prelude::*;

verus! {

/// Lexicographic order on character sequences, by code point (the order of `str`).
pub open spec fn seq_lt(a: Seq<char>, b: Seq<char>) -> bool
    decreases a.len(),
{
    if a.len() == 0 {
        b.len() > 0
    } else if b.len() == 0 {
        false
    } else if (a[0] as u32) < (b[0] as u32) {
        true
    } else if (a[0] as u32) > (b[0] as u32) {
        false
    } else {
        seq_lt(a.drop_first(), b.drop_first())
    }
}

/// Strictly increasing, hence without repeats.
pub open spec fn sorted(v: Seq<Seq<char>>) -> bool {
    forall|i: int, j: int| 0 <= i < j < v.len() ==> seq_lt(#[trigger] v[i], #[trigger] v[j])
}

/// The texts of a vector of strings.
pub open spec fn texts(v: Seq<String>) -> Seq<Seq<char>> {
    v.map_values(|s: String| s@)
}

proof fn lemma_head_eq(a: Seq<char>, b: Seq<char>)
    requires
        a.len() > 0,
        b.len() > 0,
        (a[0] as u32) == (b[0] as u32),
    ensures
        a[0] == b[0],
{
    let u = a[0] as u32;
    vstd::utf8::char_u32_cast(a[0], u);
    vstd::utf8::char_u32_cast(b[0], u);
}

pub proof fn lemma_lt_irreflexive(a: Seq<char>)
    ensures
        !seq_lt(a, a),
    decreases a.len(),
{
    if a.len() > 0 {
        lemma_lt_irreflexive(a.drop_first());
    }
}

pub proof fn lemma_lt_asym(a: Seq<char>, b: Seq<char>)
    requires
        seq_lt(a, b),
    ensures
        !seq_lt(b, a),
    decreases a.len(),
{
    if a.len() > 0 && b.len() > 0 && (a[0] as u32) == (b[0] as u32) {
        lemma_lt_asym(a.drop_first(), b.drop_first());
    }
}

pub proof fn lemma_lt_trans(a: Seq<char>, b: Seq<char>, c: Seq<char>)
    requires
        seq_lt(a, b),
        seq_lt(b, c),
    ensures
        seq_lt(a, c),
    decreases a.len(),
{
    if a.len() > 0 && b.len() > 0 && c.len() > 0 {
        if (a[0] as u32) == (b[0] as u32) && (b[0] as u32) == (c[0] as u32) {
            lemma_lt_trans(a.drop_first(), b.drop_first(), c.drop_first());
        }
    }
}

pub proof fn lemma_lt_total(a: Seq<char>, b: Seq<char>)
    requires
        a != b,
    ensures
        seq_lt(a, b) || seq_lt(b, a),
    decreases a.len(),
{
    if a.len() == 0 {
        if b.len() == 0 {
            assert(a =~= b);
        }
    } else if b.len() > 0 && (a[0] as u32) == (b[0] as u32) {
        lemma_head_eq(a, b);
        if a.drop_first() == b.drop_first() {
            assert(a =~= seq![a[0]] + a.drop_first());
            assert(b =~= seq![b[0]] + b.drop_first());
        }
        lemma_lt_total(a.drop_first(), b.drop_first());
    }
}

proof fn lemma_lt_skip(a: Seq<char>, b: Seq<char>, i: int)
    requires
        0 <= i <= a.len(),
        i <= b.len(),
        forall|j: int| 0 <= j < i ==> a[j] == b[j],
    ensures
        seq_lt(a, b) == seq_lt(a.skip(i), b.skip(i)),
    decreases i,
{
    if i > 0 {
        lemma_lt_skip(a.drop_first(), b.drop_first(), i - 1);
        assert(a.drop_first().skip(i - 1) =~= a.skip(i));
        assert(b.drop_first().skip(i - 1) =~= b.skip(i));
    } else {
        assert(a.skip(0) =~= a);
        assert(b.skip(0) =~= b);
    }
}

/// Whether `a` comes before `b`.
pub fn str_lt(a: &String, b: &String) -> (r: bool)
    ensures
        r == seq_lt(a@, b@),
{
    let x = crate::text::chars_of(a.as_str());
    let y = crate::text::chars_of(b.as_str());
    let mut i: usize = 0;
    while i < x.len() && i < y.len() && x[i] == y[i]
        invariant
            i <= x@.len(),
            i <= y@.len(),
            forall|j: int| 0 <= j < i ==> x@[j] == y@[j],
        decreases x@.len() - i,
    {
        i = i + 1;
    }
    proof {
        lemma_lt_skip(x@, y@, i as int);
    }
    if i == x.len() {
        assert(x@.skip(i as int).len() == 0);
        i < y.len()
    } else if i == y.len() {
        false
    } else {
        proof {
            let xs = x@.skip(i as int);
            let ys = y@.skip(i as int);
            assert(xs[0] == x@[i as int]);
            assert(ys[0] == y@[i as int]);
            if (x@[i as int] as u32) == (y@[i as int] as u32) {
                lemma_head_eq(xs, ys);
            }
        }
        (x[i] as u32) < (y[i] as u32)
    }
}

/// Whether `v` holds a string with the text of `x`.
pub fn contains_str(v: &Vec<String>, x: &String) -> (r: bool)
    ensures
        r == texts(v@).contains(x@),
{
    let mut i: usize = 0;
    while i < v.len()
        invariant
            i <= v@.len(),
            forall|j: int| 0 <= j < i ==> v@[j]@ != x@,
        decreases v@.len() - i,
    {
        if v[i] == *x {
            assert(texts(v@)[i as int] == x@);
            return true;
        }
        i = i + 1;
    }
    proof {
        if texts(v@).contains(x@) {
            let j = choose|j: int| 0 <= j < texts(v@).len() && texts(v@)[j] == x@;
            assert(v@[j]@ == x@);
        }
    }
    false
}

/// Adds `x` in its place; returns whether it was new.
pub fn insert_sorted(v: &mut Vec<String>, x: String) -> (added: bool)
    requires
        sorted(texts(old(v)@)),
    ensures
        sorted(texts(final(v)@)),
        texts(final(v)@).to_set() == texts(old(v)@).to_set().insert(x@),
        added == !texts(old(v)@).contains(x@),
        added ==> texts(final(v)@).len() == texts(old(v)@).len() + 1,
        !added ==> final(v)@ == old(v)@,
{
    let ghost old_t = texts(v@);
    let mut i: usize = 0;
    while i < v.len() && str_lt(&v[i], &x)
        invariant
            i <= v@.len(),
            texts(v@) == old_t,
            sorted(old_t),
            forall|j: int| 0 <= j < i ==> seq_lt(#[trigger] old_t[j], x@),
        decreases v@.len() - i,
    {
        i = i + 1;
    }
    if i < v.len() && v[i] == x {
        proof {
            assert(old_t[i as int] == x@);
            assert(old_t.to_set().insert(x@) =~= old_t.to_set());
        }
        return false;
    }
    proof {
        if i < old_t.len() {
            lemma_lt_total(old_t[i as int], x@);
            assert(seq_lt(x@, old_t[i as int]));
        }
        assert forall|j: int| 0 <= j < old_t.len() implies old_t[j] != x@ by {
            if j < i {
                assert(seq_lt(old_t[j], x@));
                lemma_lt_irreflexive(x@);
            } else {
                if j > i {
                    lemma_lt_trans(x@, old_t[i as int], old_t[j]);
                }
                lemma_lt_irreflexive(x@);
            }
        }
    }
    let ghost xv = x@;
    v.insert(i, x);
    proof {
        let nt = texts(v@);
        assert(nt =~= old_t.insert(i as int, xv));
        assert forall|a: int, b: int| 0 <= a < b < nt.len() implies seq_lt(#[trigger] nt[a], #[trigger] nt[b]) by {
            if b < i {
            } else if b == i {
            } else if a < i {
                if b - 1 > i {
                    lemma_lt_trans(xv, old_t[i as int], old_t[b - 1]);
                }
                lemma_lt_trans(old_t[a], xv, old_t[b - 1]);
            } else if a == i {
                if b - 1 > i {
                    lemma_lt_trans(xv, old_t[i as int], old_t[b - 1]);
                }
            } else {
            }
        }
        assert(nt.to_set() =~= old_t.to_set().insert(xv)) by {
            assert forall|y: Seq<char>| nt.to_set().contains(y) implies old_t.to_set().insert(xv).contains(y) by {
                let k = choose|k: int| 0 <= k < nt.len() && nt[k] == y;
                if k < i {
                    assert(old_t[k] == y);
                } else if k > i {
                    assert(old_t[k - 1] == y);
                }
            }
            assert forall|y: Seq<char>| old_t.to_set().insert(xv).contains(y) implies nt.to_set().contains(y) by {
                if y == xv {
                    assert(nt[i as int] == y);
                } else {
                    let k = choose|k: int| 0 <= k < old_t.len() && old_t[k] == y;
                    if k < i {
                        assert(nt[k] == y);
                    } else {
                        assert(nt[k + 1] == y);
                    }
                }
            }
        }
    }
    true
}

} // verus!

//! The cycle guard: the identifiers being walked through references, kept
//! in order.
use crate::domain::strs_view;
use crate::text::chars_of;
use crate::walk::any_active;
use vstd::prelude::*;

verus! {

/// The identifiers held in `v`.
pub open spec fn active_set(v: Seq<String>) -> Set<Seq<char>> {
    strs_view(v).to_set()
}

/// `a` comes before `b` in the order of their characters' code points (the
/// order of `str`'s `Ord`).
pub open spec fn lex_lt(a: Seq<char>, b: Seq<char>) -> bool
    decreases a.len(),
{
    if b.len() == 0 {
        false
    } else if a.len() == 0 {
        true
    } else if a[0] != b[0] {
        a[0] < b[0]
    } else {
        lex_lt(a.drop_first(), b.drop_first())
    }
}

/// The identifiers in `v` come in increasing order, each once.
pub open spec fn ordered(v: Seq<String>) -> bool {
    forall|a: int, b: int| 0 <= a < b < v.len() ==> lex_lt(#[trigger] v[a]@, #[trigger] v[b]@)
}

proof fn lemma_lex_irreflexive(a: Seq<char>)
    ensures
        !lex_lt(a, a),
    decreases a.len(),
{
    if a.len() > 0 {
        lemma_lex_irreflexive(a.drop_first());
    }
}

proof fn lemma_lex_transitive(a: Seq<char>, b: Seq<char>, c: Seq<char>)
    requires
        lex_lt(a, b),
        lex_lt(b, c),
    ensures
        lex_lt(a, c),
    decreases a.len(),
{
    if a.len() > 0 && b.len() > 0 && c.len() > 0 && a[0] == b[0] && b[0] == c[0] {
        lemma_lex_transitive(a.drop_first(), b.drop_first(), c.drop_first());
    }
}

proof fn lemma_lex_total(a: Seq<char>, b: Seq<char>)
    requires
        a != b,
    ensures
        lex_lt(a, b) || lex_lt(b, a),
    decreases a.len(),
{
    if a.len() > 0 && b.len() > 0 {
        if a[0] == b[0] {
            if a.drop_first() == b.drop_first() {
                assert(a =~= seq![a[0]] + a.drop_first());
                assert(b =~= seq![b[0]] + b.drop_first());
            }
            lemma_lex_total(a.drop_first(), b.drop_first());
        } else {
            assert(a[0] != b[0]);
        }
    } else if a.len() == 0 && b.len() == 0 {
        assert(a =~= b);
    }
}

fn lex_less(a: &String, b: &String) -> (r: bool)
    ensures
        r == lex_lt(a@, b@),
{
    let x = chars_of(a.as_str());
    let y = chars_of(b.as_str());
    let mut k: usize = 0;
    proof {
        assert(x@.skip(0) =~= x@);
        assert(y@.skip(0) =~= y@);
    }
    while k < x.len() && k < y.len()
        invariant
            k <= x@.len(),
            k <= y@.len(),
            lex_lt(x@, y@) == lex_lt(x@.skip(k as int), y@.skip(k as int)),
            x@ == a@,
            y@ == b@,
        decreases x.len() - k,
    {
        let ghost xs = x@.skip(k as int);
        let ghost ys = y@.skip(k as int);
        proof {
            assert(xs.drop_first() =~= x@.skip(k + 1));
            assert(ys.drop_first() =~= y@.skip(k + 1));
            assert(xs[0] == x@[k as int]);
            assert(ys[0] == y@[k as int]);
        }
        if x[k] != y[k] {
            return x[k] < y[k];
        }
        k = k + 1;
    }
    proof {
        assert(x@.skip(k as int).len() == x@.len() - k);
        assert(y@.skip(k as int).len() == y@.len() - k);
    }
    k == x.len() && k < y.len()
}

proof fn lemma_contains_index(v: Seq<String>, s: Seq<char>)
    ensures
        active_set(v).contains(s) <==> exists|k: int| 0 <= k < v.len() && #[trigger] v[k]@ == s,
{
    let sv = strs_view(v);
    if active_set(v).contains(s) {
        assert(sv.contains(s));
        let k = choose|k: int| 0 <= k < sv.len() && sv[k] == s;
        assert(v[k]@ == s);
    }
    if exists|k: int| 0 <= k < v.len() && #[trigger] v[k]@ == s {
        let k = choose|k: int| 0 <= k < v.len() && #[trigger] v[k]@ == s;
        assert(sv[k] == s);
        assert(sv.contains(s));
    }
}

/// Whether one of `toks` is among the identifiers in `active`.
pub fn any_token_active(toks: &Vec<String>, active: &Vec<String>) -> (r: bool)
    ensures
        r == any_active(strs_view(toks@), active_set(active@)),
{
    let ghost ts = strs_view(toks@);
    let ghost a = active_set(active@);
    let mut t: usize = 0;
    while t < toks.len()
        invariant
            t <= toks@.len(),
            ts == strs_view(toks@),
            a == active_set(active@),
            forall|u: int| 0 <= u < t ==> !a.contains(#[trigger] ts[u]),
        decreases toks.len() - t,
    {
        let mut k: usize = 0;
        while k < active.len()
            invariant
                t < toks@.len(),
                k <= active@.len(),
                ts == strs_view(toks@),
                a == active_set(active@),
                forall|u: int| 0 <= u < t ==> !a.contains(#[trigger] ts[u]),
                forall|m: int| 0 <= m < k ==> #[trigger] active@[m]@ != toks@[t as int]@,
            decreases active.len() - k,
        {
            if active[k].eq(&toks[t]) {
                proof {
                    lemma_contains_index(active@, toks@[t as int]@);
                    assert(active@[k as int]@ == toks@[t as int]@);
                    assert(ts[t as int] == toks@[t as int]@);
                    assert(a.contains(ts[t as int]));
                }
                return true;
            }
            k = k + 1;
        }
        proof {
            lemma_contains_index(active@, toks@[t as int]@);
            assert(ts[t as int] == toks@[t as int]@);
        }
        t = t + 1;
    }
    false
}

/// Adds `id` to the identifiers being walked, at its place in order; returns
/// that place.
pub fn enter(active: &mut Vec<String>, id: String) -> (k: usize)
    requires
        ordered(old(active)@),
        !active_set(old(active)@).contains(id@),
    ensures
        k <= old(active)@.len(),
        final(active)@ == old(active)@.insert(k as int, id),
        active_set(final(active)@) == active_set(old(active)@).insert(id@),
        ordered(final(active)@),
{
    let mut k: usize = 0;
    while k < active.len() && !lex_less(&id, &active[k])
        invariant
            k <= active@.len(),
            forall|m: int| 0 <= m < k ==> !lex_lt(id@, #[trigger] active@[m]@),
        decreases active.len() - k,
    {
        k = k + 1;
    }
    let ghost v0 = active@;
    let ghost idv = id@;
    active.insert(k, id);
    proof {
        let v1 = active@;
        assert(v1 == v0.insert(k as int, v1[k as int]));
        assert forall|s: Seq<char>| active_set(v1).contains(s) <==> active_set(v0).insert(idv).contains(s) by {
            lemma_contains_index(v1, s);
            lemma_contains_index(v0, s);
            if exists|m: int| 0 <= m < v1.len() && #[trigger] v1[m]@ == s {
                let m = choose|m: int| 0 <= m < v1.len() && #[trigger] v1[m]@ == s;
                if m < k {
                    assert(v0[m]@ == s);
                } else if m > k {
                    assert(v0[m - 1]@ == s);
                }
            }
            if active_set(v0).contains(s) {
                let m = choose|m: int| 0 <= m < v0.len() && #[trigger] v0[m]@ == s;
                if m < k {
                    assert(v1[m]@ == s);
                } else {
                    assert(v1[m + 1]@ == s);
                }
            }
            if s == idv {
                assert(v1[k as int]@ == s);
            }
        }
        assert(active_set(v1) =~= active_set(v0).insert(idv));
        assert forall|m: int| 0 <= m < k implies lex_lt(#[trigger] v0[m]@, idv) by {
            lemma_contains_index(v0, v0[m]@);
            lemma_lex_total(v0[m]@, idv);
        }
        if k < v0.len() {
            assert(lex_lt(idv, v0[k as int]@));
        }
        assert forall|a: int, b: int| 0 <= a < b < v1.len() implies lex_lt(#[trigger] v1[a]@, #[trigger] v1[b]@) by {
            if b < k {
                assert(v1[a] == v0[a] && v1[b] == v0[b]);
            } else if b == k {
                assert(v1[a] == v0[a]);
            } else if a > k {
                assert(v1[a] == v0[a - 1] && v1[b] == v0[b - 1]);
            } else if a == k {
                assert(v1[b] == v0[b - 1]);
                if b - 1 > k {
                    lemma_lex_transitive(idv, v0[k as int]@, v0[b - 1]@);
                }
            } else {
                assert(v1[a] == v0[a] && v1[b] == v0[b - 1]);
            }
        }
    }
    k
}

/// A copy of the identifiers being walked.
pub fn snapshot(active: &Vec<String>) -> (r: Vec<String>)
    ensures
        r@ == active@,
{
    let mut out: Vec<String> = Vec::new();
    let mut k: usize = 0;
    while k < active.len()
        invariant
            k <= active@.len(),
            out@ == active@.take(k as int),
        decreases active.len() - k,
    {
        out.push(active[k].clone());
        proof {
            assert(active@.take(k + 1) =~= active@.take(k as int).push(active@[k as int]));
        }
        k = k + 1;
    }
    proof {
        assert(active@.take(active@.len() as int) =~= active@);
    }
    out
}

} // verus!

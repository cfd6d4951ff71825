//! Character-level helpers: splitting attribute values into tokens.
use crate::domain::strs_view;
use vstd::prelude::*;

verus! {

/// What `str::trim` leaves of a string.
pub uninterp spec fn trim_of(s: Seq<char>) -> Seq<char>;

/// Relies on `str::trim`: strips leading and trailing white space; the result
/// depends on the characters alone.
#[verifier::external_body]
pub(crate) fn trim(s: &str) -> (r: String)
    ensures
        r@ == trim_of(s@),
{
    s.trim().to_string()
}

/// Relies on `str::chars`: the characters of `s`, in order.
#[verifier::external_body]
pub(crate) fn chars_of(s: &str) -> (r: Vec<char>)
    ensures
        r@ == s@,
{
    s.chars().collect()
}

/// Relies on `String`'s `FromIterator<&char>`: the string of these characters.
#[verifier::external_body]
pub(crate) fn string_of(cs: &[char]) -> (r: String)
    ensures
        r@ == cs@,
{
    cs.iter().collect()
}

/// The pieces of `s` between single space characters (`str::split(" ")`).
pub open spec fn pieces(s: Seq<char>) -> Seq<Seq<char>>
    decreases s.len(),
{
    if s.len() == 0 {
        seq![seq![]]
    } else {
        let p = pieces(s.drop_last());
        if s.last() == ' ' {
            p.push(seq![])
        } else {
            p.update(p.len() - 1, p.last().push(s.last()))
        }
    }
}

/// The trimmed pieces that are not empty, in order.
pub open spec fn nonempty_trimmed(ps: Seq<Seq<char>>) -> Seq<Seq<char>>
    decreases ps.len(),
{
    if ps.len() == 0 {
        seq![]
    } else {
        let r = nonempty_trimmed(ps.drop_last());
        if trim_of(ps.last()).len() > 0 {
            r.push(trim_of(ps.last()))
        } else {
            r
        }
    }
}

/// The tokens of an attribute value: split on spaces, trimmed, empty ones dropped.
pub open spec fn tokens(s: Seq<char>) -> Seq<Seq<char>> {
    nonempty_trimmed(pieces(s))
}

proof fn lemma_pieces_nonempty(s: Seq<char>)
    ensures
        pieces(s).len() >= 1,
    decreases s.len(),
{
    if s.len() > 0 {
        lemma_pieces_nonempty(s.drop_last());
    }
}

/// Splits an attribute value into its tokens.
pub fn split_tokens(s: &str) -> (r: Vec<String>)
    ensures
        strs_view(r@) == tokens(s@),
{
    let cs = chars_of(s);
    let mut out: Vec<String> = Vec::new();
    let mut cur: Vec<char> = Vec::new();
    let mut i: usize = 0;
    proof {
        assert(cs@.take(0) =~= seq![]);
    }
    while i < cs.len()
        invariant
            i <= cs@.len(),
            cs@ == s@,
            pieces(cs@.take(i as int)).len() >= 1,
            pieces(cs@.take(i as int)).last() == cur@,
            strs_view(out@) == nonempty_trimmed(pieces(cs@.take(i as int)).drop_last()),
        decreases cs.len() - i,
    {
        let c = cs[i];
        proof {
            let t = cs@.take(i as int);
            let t1 = cs@.take(i + 1);
            assert(t1.drop_last() =~= t);
            assert(t1.last() == c);
            lemma_pieces_nonempty(t);
        }
        if c == ' ' {
            let piece = string_of(cur.as_slice());
            let tr = trim(piece.as_str());
            proof {
                let p = pieces(cs@.take(i as int));
                let next = pieces(cs@.take(i + 1));
                assert(next.drop_last() =~= p);
                assert(p == p.drop_last().push(p.last()));
            }
            if !tr.as_str().is_empty() {
                let ghost before = out@;
                out.push(tr);
                proof {
                    assert(strs_view(out@) =~= strs_view(before).push(tr@));
                }
            }
            cur = Vec::new();
        } else {
            cur.push(c);
            proof {
                let p = pieces(cs@.take(i as int));
                let next = pieces(cs@.take(i + 1));
                assert(next.drop_last() =~= p.drop_last());
            }
        }
        i = i + 1;
    }
    let piece = string_of(cur.as_slice());
    let tr = trim(piece.as_str());
    proof {
        assert(cs@.take(cs@.len() as int) =~= cs@);
        let p = pieces(cs@);
        assert(p == p.drop_last().push(p.last()));
    }
    if !tr.as_str().is_empty() {
        let ghost before = out@;
        out.push(tr);
        proof {
            assert(strs_view(out@) =~= strs_view(before).push(tr@));
        }
    }
    out
}

} // verus!

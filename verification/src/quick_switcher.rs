//! The quick-switcher's fuzzy filter: a query matches a title when the
//! query's characters all appear in the title, in order, though not
//! necessarily adjacent.

use vstd::prelude::*;

verus! {

/// Whether the characters of `q` appear in `t` in order: an empty query
/// always matches; otherwise the first occurrence of `q`'s head in `t` is
/// taken and the rest must match after it.
pub open spec fn matches_in_order(q: Seq<char>, t: Seq<char>) -> bool
    decreases t.len(),
{
    if q.len() == 0 {
        true
    } else if t.len() == 0 {
        false
    } else if q[0] == t[0] {
        matches_in_order(q.drop_first(), t.drop_first())
    } else {
        matches_in_order(q, t.drop_first())
    }
}

/// Whether the query's characters all appear in the text, in order.
pub fn fuzzy_match(text: &str, query: &str) -> (r: bool)
    ensures
        r == matches_in_order(query@, text@),
{
    let tv = crate::text::chars_of_str(text);
    let qv = crate::text::chars_of_str(query);
    let n = tv.len();
    let m = qv.len();
    proof {
        assert(qv@.skip(0) =~= query@);
        assert(tv@.skip(0) =~= text@);
    }
    let mut ti: usize = 0;
    let mut qi: usize = 0;
    while ti < n && qi < m
        invariant
            ti <= n,
            qi <= m,
            n == text@.len(),
            m == query@.len(),
            tv@ == text@,
            qv@ == query@,
            matches_in_order(query@, text@) == matches_in_order(
                query@.skip(qi as int),
                text@.skip(ti as int),
            ),
        decreases n - ti,
    {
        let ghost qs = query@.skip(qi as int);
        let ghost ts = text@.skip(ti as int);
        proof {
            assert(qs[0] == query@[qi as int]);
            assert(ts[0] == text@[ti as int]);
            assert(qs.drop_first() =~= query@.skip(qi + 1));
            assert(ts.drop_first() =~= text@.skip(ti + 1));
        }
        if tv[ti] == qv[qi] {
            qi += 1;
        }
        ti += 1;
    }
    proof {
        if qi == m {
            assert(matches_in_order(query@.skip(qi as int), text@.skip(ti as int)));
        } else {
            assert(text@.skip(ti as int).len() == 0);
            assert(query@.skip(qi as int).len() > 0);
            assert(!matches_in_order(query@.skip(qi as int), text@.skip(ti as int)));
        }
    }
    qi == m
}

} // verus!

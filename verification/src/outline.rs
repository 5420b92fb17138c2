//! Document-outline extraction: every markdown heading line of a note's
//! content, with its level (one to six `#` marks), its text, and the line it
//! stands on.

use crate::title::{is_line_space, line_end, strip_hashes, trim_end, trim_start};
use vstd::prelude::*;

verus! {

/// One heading of a document: its level, its text, and its line number.
#[derive(Debug, PartialEq)]
pub struct HeadingInfo {
    pub level: u8,
    pub text: String,
    pub line: usize,
}

impl Clone for HeadingInfo {
    fn clone(&self) -> (r: Self)
        ensures
            r == *self,
    {
        HeadingInfo { level: self.level, text: self.text.clone(), line: self.line }
    }
}

/// The heading a single line carries, if any: after leading blanks, one to
/// six `#` marks, then non-blank text.
pub open spec fn heading_of_line(l: Seq<char>) -> Option<(int, Seq<char>)> {
    let t = trim_start(l);
    let level = t.len() - strip_hashes(t).len();
    if t.len() > 0 && t[0] == '#' && level <= 6 {
        let text = trim_end(trim_start(strip_hashes(t)));
        if text.len() > 0 {
            Some((level, text))
        } else {
            None
        }
    } else {
        None
    }
}

/// Lines end at a line break or at the end of the text.
pub proof fn lemma_line_end_bounds(s: Seq<char>, p: int)
    requires
        0 <= p <= s.len(),
    ensures
        p <= line_end(s, p) <= s.len(),
    decreases s.len() - p,
{
    if p < s.len() && s[p] != '\n' {
        lemma_line_end_bounds(s, p + 1);
    }
}

/// The headings of the text from position `i` on, where `i` starts a line
/// and `ln` is its line number.
pub open spec fn headings_from(s: Seq<char>, i: int, ln: int) -> Seq<(int, Seq<char>, int)>
    decreases s.len() - i + 1,
    via headings_from_decreases
{
    if i < 0 || i >= s.len() {
        Seq::empty()
    } else {
        let e = line_end(s, i);
        let rest = headings_from(s, e + 1, ln + 1);
        match heading_of_line(s.subrange(i, e)) {
            Some(h) => seq![(h.0, h.1, ln)] + rest,
            None => rest,
        }
    }
}

#[via_fn]
proof fn headings_from_decreases(s: Seq<char>, i: int, ln: int) {
    if 0 <= i && i < s.len() {
        lemma_line_end_bounds(s, i);
    }
}

/// Every heading of the text, in order of appearance.
pub open spec fn headings_of(s: Seq<char>) -> Seq<(int, Seq<char>, int)> {
    headings_from(s, 0, 0)
}

/// The field views of extracted headings.
pub open spec fn heading_fields(hs: Seq<HeadingInfo>) -> Seq<(int, Seq<char>, int)> {
    hs.map_values(|h: HeadingInfo| (h.level as int, h.text@, h.line as int))
}

/// The heading carried by the line `v[a..b]`, if any: its level and text.
fn heading_in_range(v: &Vec<char>, a: usize, b: usize) -> (r: Option<(u8, Vec<char>)>)
    requires
        a <= b <= v@.len(),
    ensures
        match heading_of_line(v@.subrange(a as int, b as int)) {
            Some(h) => r matches Some(p) && p.0 as int == h.0 && p.1@ == h.1,
            None => r is None,
        },
{
    let ghost s = v@;
    let ghost l = s.subrange(a as int, b as int);

    let mut j: usize = a;
    while j < b && crate::title::is_line_space_x(v[j])
        invariant
            a <= j <= b <= s.len(),
            s == v@,
            l == s.subrange(a as int, b as int),
            trim_start(l) == trim_start(s.subrange(j as int, b as int)),
        decreases b - j,
    {
        proof {
            let cur = s.subrange(j as int, b as int);
            assert(cur[0] == s[j as int]);
            assert(cur.drop_first() =~= s.subrange(j + 1, b as int));
        }
        j += 1;
    }
    let ghost t = s.subrange(j as int, b as int);
    proof {
        assert(trim_start(t) == t);
        assert(trim_start(l) == t);
    }
    if j == b {
        return None;
    }
    if v[j] != '#' {
        proof {
            assert(t[0] == s[j as int]);
        }
        return None;
    }

    let mut k: usize = j;
    while k < b && v[k] == '#'
        invariant
            j <= k <= b <= s.len(),
            s == v@,
            t == s.subrange(j as int, b as int),
            strip_hashes(t) == strip_hashes(s.subrange(k as int, b as int)),
        decreases b - k,
    {
        proof {
            let cur = s.subrange(k as int, b as int);
            assert(cur[0] == s[k as int]);
            assert(cur.drop_first() =~= s.subrange(k + 1, b as int));
        }
        k += 1;
    }
    proof {
        let cur = s.subrange(k as int, b as int);
        assert(strip_hashes(cur) == cur);
        assert(strip_hashes(t) == cur);
    }
    let level = k - j;
    if level > 6 {
        return None;
    }

    let mut p: usize = k;
    while p < b && crate::title::is_line_space_x(v[p])
        invariant
            k <= p <= b <= s.len(),
            s == v@,
            trim_start(s.subrange(k as int, b as int)) == trim_start(s.subrange(p as int, b as int)),
        decreases b - p,
    {
        proof {
            let cur = s.subrange(p as int, b as int);
            assert(cur[0] == s[p as int]);
            assert(cur.drop_first() =~= s.subrange(p + 1, b as int));
        }
        p += 1;
    }
    proof {
        let cur = s.subrange(p as int, b as int);
        assert(trim_start(cur) == cur);
    }

    let mut q: usize = b;
    while q > p && crate::title::is_line_space_x(v[q - 1])
        invariant
            p <= q <= b <= s.len(),
            s == v@,
            trim_end(trim_start(strip_hashes(t))) == trim_end(s.subrange(p as int, q as int)),
        decreases q,
    {
        proof {
            let cur = s.subrange(p as int, q as int);
            assert(cur.last() == s[q - 1]);
            assert(cur.drop_last() =~= s.subrange(p as int, q - 1));
        }
        q -= 1;
    }
    let ghost text = s.subrange(p as int, q as int);
    proof {
        assert(trim_end(text) == text) by {
            if text.len() > 0 && is_line_space(text.last()) {
                assert(text.last() == s[q - 1]);
                assert(false);
            }
        }
        assert(trim_end(trim_start(strip_hashes(t))) == text);
    }
    if q == p {
        return None;
    }

    let mut out: Vec<char> = Vec::new();
    let mut c: usize = p;
    while c < q
        invariant
            p <= c <= q <= b <= s.len(),
            s == v@,
            out@ == s.subrange(p as int, c as int),
        decreases q - c,
    {
        out.push(v[c]);
        proof {
            assert(out@ =~= s.subrange(p as int, c + 1));
        }
        c += 1;
    }
    proof {
        assert(out@ =~= text);
    }
    Some((level as u8, out))
}

/// Extracts every markdown heading of the content, in order: level, text,
/// and the line number it stands on.
pub fn extract_headings(content: &str) -> (r: Vec<HeadingInfo>)
    ensures
        heading_fields(r@) == headings_of(content@),
{
    let v = crate::text::chars_of_str(content);
    let ghost s = content@;
    let n = v.len();
    let mut out: Vec<HeadingInfo> = Vec::new();
    proof {
        assert(heading_fields(out@) =~= Seq::<(int, Seq<char>, int)>::empty());
    }
    let mut i: usize = 0;
    let mut ln: usize = 0;
    while i < n
        invariant
            ln <= i <= n,
            n == s.len(),
            s == v@,
            headings_of(s) == heading_fields(out@) + headings_from(s, i as int, ln as int),
        decreases n - i,
    {
        let mut e: usize = i;
        while e < n && v[e] != '\n'
            invariant
                i <= e <= n,
                n == s.len(),
                s == v@,
                line_end(s, i as int) == line_end(s, e as int),
            decreases n - e,
        {
            e += 1;
        }
        proof {
            assert(line_end(s, i as int) == e as int);
        }
        let ghost pre = out@;
        match heading_in_range(&v, i, e) {
            Some((level, text)) => {
                let h = HeadingInfo {
                    level,
                    text: crate::text::string_of_chars(&text),
                    line: ln,
                };
                out.push(h);
                proof {
                    assert(heading_fields(out@) =~= heading_fields(pre).push(
                        (level as int, text@, ln as int),
                    ));
                }
            },
            None => {},
        }
        proof {
            let rest = headings_from(s, e + 1, ln + 1);
            assert(headings_from(s, i as int, ln as int) == match heading_of_line(
                s.subrange(i as int, e as int),
            ) {
                Some(h) => seq![(h.0, h.1, ln as int)] + rest,
                None => rest,
            });
            match heading_of_line(s.subrange(i as int, e as int)) {
                Some(h) => {
                    assert(heading_fields(pre) + (seq![(h.0, h.1, ln as int)] + rest)
                        =~= heading_fields(out@) + rest);
                },
                None => {},
            }
        }
        if e == n {
            i = n;
            proof {
                assert(headings_from(s, n as int, ln as int) =~= Seq::<(int, Seq<char>, int)>::empty());
                assert(headings_from(s, e + 1, ln + 1) =~= Seq::<(int, Seq<char>, int)>::empty());
                assert(heading_fields(out@) + headings_from(s, i as int, ln as int) =~= headings_of(
                    s,
                ));
            }
        } else {
            i = e + 1;
            ln += 1;
        }
    }
    proof {
        assert(headings_from(s, i as int, ln as int) =~= Seq::<(int, Seq<char>, int)>::empty());
        assert(heading_fields(out@) + Seq::<(int, Seq<char>, int)>::empty() =~= heading_fields(
            out@,
        ));
    }
    out
}

} // verus!

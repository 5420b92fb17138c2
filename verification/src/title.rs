//! Title derivation: a note's displayed title is recomputed from its content
//! alone, never stored independently. The title is the first non-blank line,
//! with leading markdown heading markers stripped and surrounding blanks
//! trimmed; `"Untitled"` when that leaves nothing; truncated with an ellipsis
//! when longer than `TITLE_MAX` characters.

use vstd::prelude::*;

verus! {

/// Longest title kept verbatim; longer ones are truncated.
pub const TITLE_MAX: usize = 50;

/// Number of characters kept when a title is truncated.
pub const TITLE_CUT: usize = 47;

/// Marker appended to a truncated title.
pub const ELLIPSIS: char = '\u{2026}';

/// The Unicode white-space characters: what trimming, blank-line detection
/// and word splitting treat as blanks.
pub open spec fn is_unicode_space(c: char) -> bool {
    let u = c as u32;
    u == 0x09 || u == 0x0A || u == 0x0B || u == 0x0C || u == 0x0D || u == 0x20 || u == 0x85 || u
        == 0xA0 || u == 0x1680 || (0x2000 <= u && u <= 0x200A) || u == 0x2028 || u == 0x2029 || u
        == 0x202F || u == 0x205F || u == 0x3000
}

/// Blank space inside a line: any white space but the line break itself.
pub open spec fn is_line_space(c: char) -> bool {
    is_unicode_space(c) && c != '\n'
}

/// Blank space or a line break; a line made only of these is blank.
pub open spec fn is_blank_char(c: char) -> bool {
    is_unicode_space(c)
}

/// Index of the first character at or after `i` that is neither blank space
/// nor a line break; `s.len()` when there is none.
pub open spec fn first_visible(s: Seq<char>, i: int) -> int
    decreases s.len() - i,
{
    if i >= s.len() {
        s.len() as int
    } else if is_blank_char(s[i]) {
        first_visible(s, i + 1)
    } else {
        i
    }
}

/// Start of the line containing position `p`: the index just after the
/// previous line break, or `0`.
pub open spec fn line_start(s: Seq<char>, p: int) -> int
    decreases p,
{
    if p <= 0 {
        0
    } else if s[p - 1] == '\n' {
        p
    } else {
        line_start(s, p - 1)
    }
}

/// End of the line containing position `p`: the index of the next line break,
/// or `s.len()`.
pub open spec fn line_end(s: Seq<char>, p: int) -> int
    decreases s.len() - p,
{
    if p < 0 {
        0
    } else if p >= s.len() {
        s.len() as int
    } else if s[p] == '\n' {
        p
    } else {
        line_end(s, p + 1)
    }
}

/// Removes every leading `#` character.
pub open spec fn strip_hashes(l: Seq<char>) -> Seq<char>
    decreases l.len(),
{
    if l.len() > 0 && l[0] == '#' {
        strip_hashes(l.drop_first())
    } else {
        l
    }
}

/// Removes leading blank space.
pub open spec fn trim_start(l: Seq<char>) -> Seq<char>
    decreases l.len(),
{
    if l.len() > 0 && is_line_space(l[0]) {
        trim_start(l.drop_first())
    } else {
        l
    }
}

/// Removes trailing blank space.
pub open spec fn trim_end(l: Seq<char>) -> Seq<char>
    decreases l.len(),
{
    if l.len() > 0 && is_line_space(l.last()) {
        trim_end(l.drop_last())
    } else {
        l
    }
}

/// The fallback title.
pub open spec fn untitled() -> Seq<char> {
    seq!['U', 'n', 't', 'i', 't', 'l', 'e', 'd']
}

/// The title derived from note content. This is a function of the content
/// alone: computing it twice, or in any state, yields the same result.
pub open spec fn title_of(content: Seq<char>) -> Seq<char> {
    let p = first_visible(content, 0);
    if p >= content.len() {
        untitled()
    } else {
        let line = content.subrange(line_start(content, p), line_end(content, p));
        let t = trim_end(trim_start(strip_hashes(line)));
        if t.len() == 0 {
            untitled()
        } else if t.len() > TITLE_MAX as int {
            t.subrange(0, TITLE_CUT as int).push(ELLIPSIS)
        } else {
            t
        }
    }
}

/// Law: title derivation is pure. The derived title depends on the content
/// alone, so equal content always yields equal titles, however often and in
/// whatever state the derivation runs.
pub proof fn lemma_title_derivation_pure(c1: Seq<char>, c2: Seq<char>)
    requires
        c1 == c2,
    ensures
        title_of(c1) == title_of(c2),
{
}

/// Law: a displayed title never exceeds the length cap — overlong ones are
/// cut to `TITLE_CUT` characters plus the ellipsis.
pub proof fn lemma_title_length_bounded(content: Seq<char>)
    ensures
        title_of(content).len() <= TITLE_MAX as int,
{
}

pub(crate) fn is_unicode_space_x(c: char) -> (r: bool)
    ensures
        r == is_unicode_space(c),
{
    let u = c as u32;
    u == 0x09 || u == 0x0A || u == 0x0B || u == 0x0C || u == 0x0D || u == 0x20 || u == 0x85 || u
        == 0xA0 || u == 0x1680 || (0x2000 <= u && u <= 0x200A) || u == 0x2028 || u == 0x2029 || u
        == 0x202F || u == 0x205F || u == 0x3000
}

fn is_blank_char_x(c: char) -> (r: bool)
    ensures
        r == is_blank_char(c),
{
    is_unicode_space_x(c)
}

pub(crate) fn is_line_space_x(c: char) -> (r: bool)
    ensures
        r == is_line_space(c),
{
    is_unicode_space_x(c) && c != '\n'
}

/// The fallback title as a string.
pub fn untitled_string() -> (r: String)
    ensures
        r@ == untitled(),
{
    crate::text::string_of_chars(&untitled_chars())
}

fn untitled_chars() -> (r: Vec<char>)
    ensures
        r@ == untitled(),
{
    let mut v: Vec<char> = Vec::new();
    v.push('U');
    v.push('n');
    v.push('t');
    v.push('i');
    v.push('t');
    v.push('l');
    v.push('e');
    v.push('d');
    proof {
        assert(v@ =~= untitled());
    }
    v
}

/// Derives the title of the given content, as `title_of` describes.
pub fn extract_title_chars(content: &Vec<char>) -> (r: Vec<char>)
    ensures
        r@ == title_of(content@),
{
    let ghost s = content@;
    let n = content.len();

    let mut p: usize = 0;
    while p < n && is_blank_char_x(content[p])
        invariant
            p <= n,
            n == s.len(),
            s == content@,
            first_visible(s, 0) == first_visible(s, p as int),
        decreases n - p,
    {
        p += 1;
    }
    proof {
        assert(first_visible(s, 0) == p as int);
    }
    if p == n {
        return untitled_chars();
    }

    let mut a: usize = p;
    while a > 0 && content[a - 1] != '\n'
        invariant
            a <= p,
            p < n,
            n == s.len(),
            s == content@,
            line_start(s, p as int) == line_start(s, a as int),
        decreases a,
    {
        a -= 1;
    }
    proof {
        assert(line_start(s, p as int) == a as int);
    }

    let mut b: usize = p;
    while b < n && content[b] != '\n'
        invariant
            p <= b <= n,
            n == s.len(),
            s == content@,
            line_end(s, p as int) == line_end(s, b as int),
        decreases n - b,
    {
        b += 1;
    }
    proof {
        assert(line_end(s, p as int) == b as int);
    }

    let ghost line0 = s.subrange(a as int, b as int);

    let mut i: usize = a;
    while i < b && content[i] == '#'
        invariant
            a <= i <= b,
            b <= n,
            n == s.len(),
            s == content@,
            strip_hashes(line0) == strip_hashes(s.subrange(i as int, b as int)),
        decreases b - i,
    {
        proof {
            let cur = s.subrange(i as int, b as int);
            assert(cur[0] == '#');
            assert(cur.drop_first() =~= s.subrange(i + 1, b as int));
        }
        i += 1;
    }
    proof {
        let cur = s.subrange(i as int, b as int);
        assert(strip_hashes(cur) == cur);
        assert(trim_start(strip_hashes(line0)) == trim_start(s.subrange(i as int, b as int)));
    }

    while i < b && is_line_space_x(content[i])
        invariant
            i <= b,
            b <= n,
            n == s.len(),
            s == content@,
            trim_start(strip_hashes(line0)) == trim_start(s.subrange(i as int, b as int)),
        decreases b - i,
    {
        proof {
            let cur = s.subrange(i as int, b as int);
            assert(cur[0] == s[i as int]);
            assert(cur.drop_first() =~= s.subrange(i + 1, b as int));
        }
        i += 1;
    }
    proof {
        let cur = s.subrange(i as int, b as int);
        assert(trim_start(cur) == cur);
        assert(trim_end(trim_start(strip_hashes(line0))) == trim_end(
            s.subrange(i as int, b as int),
        ));
    }

    let mut j: usize = b;
    while j > i && is_line_space_x(content[j - 1])
        invariant
            i <= j <= b,
            b <= n,
            n == s.len(),
            s == content@,
            trim_end(trim_start(strip_hashes(line0))) == trim_end(s.subrange(i as int, j as int)),
        decreases j,
    {
        proof {
            let cur = s.subrange(i as int, j as int);
            assert(cur.last() == s[j - 1]);
            assert(cur.drop_last() =~= s.subrange(i as int, j - 1));
        }
        j -= 1;
    }
    let ghost t = s.subrange(i as int, j as int);
    proof {
        assert(trim_end(t) == t) by {
            if t.len() > 0 && is_line_space(t.last()) {
                assert(t.last() == s[j - 1]);
                assert(false);
            }
        }
        assert(trim_end(trim_start(strip_hashes(line0))) == t);
    }

    if j == i {
        return untitled_chars();
    }

    if j - i > TITLE_MAX {
        let mut out: Vec<char> = Vec::new();
        let mut k: usize = i;
        while k < i + TITLE_CUT
            invariant
                i <= k <= i + TITLE_CUT,
                i + TITLE_CUT < j <= b <= n,
                n == s.len(),
                s == content@,
                out@ == s.subrange(i as int, k as int),
            decreases i + TITLE_CUT - k,
        {
            out.push(content[k]);
            proof {
                assert(out@ =~= s.subrange(i as int, k + 1));
            }
            k += 1;
        }
        out.push(ELLIPSIS);
        proof {
            assert(t.subrange(0, TITLE_CUT as int) =~= s.subrange(i as int, i + TITLE_CUT));
            assert(out@ =~= t.subrange(0, TITLE_CUT as int).push(ELLIPSIS));
        }
        out
    } else {
        let mut out: Vec<char> = Vec::new();
        let mut k: usize = i;
        while k < j
            invariant
                i <= k <= j <= b <= n,
                n == s.len(),
                s == content@,
                out@ == s.subrange(i as int, k as int),
            decreases j - k,
        {
            out.push(content[k]);
            proof {
                assert(out@ =~= s.subrange(i as int, k + 1));
            }
            k += 1;
        }
        proof {
            assert(out@ =~= t);
        }
        out
    }
}

/// Derives the title of the given content string.
pub fn extract_title_str(content: &str) -> (r: String)
    ensures
        r@ == title_of(content@),
{
    let chars = crate::text::chars_of_str(content);
    let out = extract_title_chars(&chars);
    crate::text::string_of_chars(&out)
}

} // verus!

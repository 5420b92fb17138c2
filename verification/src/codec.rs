//! The note record format: a note is persisted as a small pretty-printed JSON
//! object with the five note fields; string fields are escaped, timestamps are
//! decimal integers. Both directions are verified, and decoding is exactly
//! inverse to encoding (see `lemma_note_codec_round_trip`); text that does not
//! parse is reported as unreadable rather than misread.

use crate::note::Note;
use vstd::prelude::*;

verus! {

// ---------------------------------------------------------------------------
// String escaping
// ---------------------------------------------------------------------------

/// The escape sequence for one character: quote, backslash and the three
/// common control characters get a two-character escape, everything else
/// stands for itself.
pub open spec fn escape_char(c: char) -> Seq<char> {
    if c == '"' {
        seq!['\\', '"']
    } else if c == '\\' {
        seq!['\\', '\\']
    } else if c == '\n' {
        seq!['\\', 'n']
    } else if c == '\r' {
        seq!['\\', 'r']
    } else if c == '\t' {
        seq!['\\', 't']
    } else {
        seq![c]
    }
}

/// The character an escape code stands for, if the code is recognised.
pub open spec fn unescape_code(c: char) -> Option<char> {
    if c == '"' {
        Some('"')
    } else if c == '\\' {
        Some('\\')
    } else if c == 'n' {
        Some('\n')
    } else if c == 'r' {
        Some('\r')
    } else if c == 't' {
        Some('\t')
    } else {
        None
    }
}

/// A string with every character escaped.
pub open spec fn escape_seq(s: Seq<char>) -> Seq<char>
    decreases s.len(),
{
    if s.len() == 0 {
        Seq::empty()
    } else {
        escape_char(s[0]) + escape_seq(s.drop_first())
    }
}

/// Reads an escaped string up to and over its closing quote; returns the
/// unescaped content and the text after the quote, or nothing when the text
/// is malformed or the quote is missing.
pub open spec fn parse_qstring(s: Seq<char>) -> Option<(Seq<char>, Seq<char>)>
    decreases s.len(),
{
    if s.len() == 0 {
        None
    } else if s[0] == '"' {
        Some((Seq::empty(), s.drop_first()))
    } else if s[0] == '\\' {
        if s.len() < 2 {
            None
        } else {
            match unescape_code(s[1]) {
                Some(d) => match parse_qstring(s.skip(2)) {
                    Some(p) => Some((seq![d] + p.0, p.1)),
                    None => None,
                },
                None => None,
            }
        }
    } else {
        match parse_qstring(s.drop_first()) {
            Some(p) => Some((seq![s[0]] + p.0, p.1)),
            None => None,
        }
    }
}

/// Reading back an escaped string yields exactly the text that was escaped,
/// and leaves exactly the text after the closing quote.
pub proof fn lemma_parse_escaped(x: Seq<char>, rest: Seq<char>)
    ensures
        parse_qstring(escape_seq(x) + seq!['"'] + rest) == Some((x, rest)),
    decreases x.len(),
{
    let s = escape_seq(x) + seq!['"'] + rest;
    if x.len() == 0 {
        assert(s =~= seq!['"'] + rest);
        assert(s[0] == '"');
        assert(s.drop_first() =~= rest);
    } else {
        let c = x[0];
        let x1 = x.drop_first();
        lemma_parse_escaped(x1, rest);
        let s1 = escape_seq(x1) + seq!['"'] + rest;
        if c == '"' || c == '\\' || c == '\n' || c == '\r' || c == '\t' {
            assert(escape_char(c).len() == 2);
            assert(s[0] == '\\');
            assert(unescape_code(s[1]) == Some(c));
            assert(s.skip(2) =~= s1);
            assert(parse_qstring(s) == Some((seq![c] + x1, rest)));
            assert(seq![c] + x1 =~= x);
        } else {
            assert(escape_char(c) =~= seq![c]);
            assert(s[0] == c);
            assert(s.drop_first() =~= s1);
            assert(parse_qstring(s) == Some((seq![c] + x1, rest)));
            assert(seq![c] + x1 =~= x);
        }
    }
}

/// Escapes every character of `s` onto the end of `out`.
fn push_escaped(out: &mut Vec<char>, s: &str)
    ensures
        final(out)@ == old(out)@ + escape_seq(s@),
{
    let chars = crate::text::chars_of_str(s);
    let n = chars.len();
    let ghost base = old(out)@;
    let mut i: usize = 0;
    while i < n
        invariant
            i <= n,
            n == chars@.len(),
            chars@ == s@,
            out@ == base + escape_seq(s@.take(i as int)),
        decreases n - i,
    {
        let c = chars[i];
        let ghost before = out@;
        if c == '"' {
            out.push('\\');
            out.push('"');
        } else if c == '\\' {
            out.push('\\');
            out.push('\\');
        } else if c == '\n' {
            out.push('\\');
            out.push('n');
        } else if c == '\r' {
            out.push('\\');
            out.push('r');
        } else if c == '\t' {
            out.push('\\');
            out.push('t');
        } else {
            out.push(c);
        }
        proof {
            assert(out@ =~= before + escape_char(c));
            lemma_escape_append(s@.take(i as int), seq![c]);
            assert(s@.take(i + 1) =~= s@.take(i as int) + seq![c]);
            assert(seq![c].drop_first() =~= Seq::<char>::empty());
            assert(escape_seq(Seq::<char>::empty()) == Seq::<char>::empty());
            assert(escape_seq(seq![c]) =~= escape_char(c));
            assert(out@ =~= base + escape_seq(s@.take(i + 1)));
        }
        i += 1;
    }
    proof {
        assert(s@.take(n as int) =~= s@);
    }
}

/// Escaping distributes over concatenation.
pub proof fn lemma_escape_append(a: Seq<char>, b: Seq<char>)
    ensures
        escape_seq(a + b) == escape_seq(a) + escape_seq(b),
    decreases a.len(),
{
    if a.len() == 0 {
        assert(a + b =~= b);
        assert(escape_seq(a) + escape_seq(b) =~= escape_seq(b));
    } else {
        lemma_escape_append(a.drop_first(), b);
        assert((a + b).drop_first() =~= a.drop_first() + b);
        assert((a + b)[0] == a[0]);
        assert(escape_char(a[0]) + (escape_seq(a.drop_first()) + escape_seq(b)) =~= (escape_char(
            a[0],
        ) + escape_seq(a.drop_first())) + escape_seq(b));
    }
}

/// Reads an escaped string from `v` starting at `start` (just after the
/// opening quote); returns the content and the index after the closing quote.
fn parse_qstring_at(v: &Vec<char>, start: usize) -> (r: Option<(Vec<char>, usize)>)
    requires
        start <= v@.len(),
    ensures
        match r {
            Some(p) => start < p.1 <= v@.len() && parse_qstring(v@.skip(start as int)) == Some(
                (p.0@, v@.skip(p.1 as int)),
            ),
            None => parse_qstring(v@.skip(start as int)) is None,
        },
{
    let n = v.len();
    let mut i: usize = start;
    let mut acc: Vec<char> = Vec::new();
    loop
        invariant
            start <= i <= n,
            n == v@.len(),
            parse_qstring(v@.skip(start as int)) == qcompose(acc@, parse_qstring(v@.skip(i as int))),
        decreases n - i,
    {
        let ghost t = v@.skip(i as int);
        if i == n {
            assert(t.len() == 0);
            return None;
        }
        let c = v[i];
        proof {
            assert(t[0] == c);
            assert(t.drop_first() =~= v@.skip(i + 1));
        }
        if c == '"' {
            proof {
                assert(parse_qstring(t) == Some((Seq::<char>::empty(), v@.skip(i + 1))));
                assert(acc@ + Seq::<char>::empty() =~= acc@);
            }
            return Some((acc, i + 1));
        } else if c == '\\' {
            if i + 1 == n {
                assert(t.len() < 2);
                return None;
            }
            let e = v[i + 1];
            proof {
                assert(t[1] == e);
                assert(t.skip(2) =~= v@.skip(i + 2));
            }
            let d: char;
            if e == '"' {
                d = '"';
            } else if e == '\\' {
                d = '\\';
            } else if e == 'n' {
                d = '\n';
            } else if e == 'r' {
                d = '\r';
            } else if e == 't' {
                d = '\t';
            } else {
                assert(unescape_code(e) is None);
                assert(parse_qstring(t) is None);
                return None;
            }
            proof {
                assert(unescape_code(e) == Some(d));
                assert(parse_qstring(t) == qcompose(seq![d], parse_qstring(v@.skip(i + 2))));
                lemma_qcompose_assoc(acc@, d, parse_qstring(v@.skip(i + 2)));
            }
            acc.push(d);
            i += 2;
        } else {
            proof {
                assert(parse_qstring(t) == qcompose(seq![c], parse_qstring(v@.skip(i + 1))));
                lemma_qcompose_assoc(acc@, c, parse_qstring(v@.skip(i + 1)));
            }
            acc.push(c);
            i += 1;
        }
    }
}

/// Prepends `a` to the content of a parse outcome.
pub open spec fn qcompose(
    a: Seq<char>,
    o: Option<(Seq<char>, Seq<char>)>,
) -> Option<(Seq<char>, Seq<char>)> {
    match o {
        Some(p) => Some((a + p.0, p.1)),
        None => None,
    }
}

proof fn lemma_qcompose_assoc(a: Seq<char>, d: char, o: Option<(Seq<char>, Seq<char>)>)
    ensures
        qcompose(a, qcompose(seq![d], o)) == qcompose(a.push(d), o),
{
    match o {
        Some(p) => {
            assert(a + (seq![d] + p.0) =~= a.push(d) + p.0);
        },
        None => {},
    }
}

// ---------------------------------------------------------------------------
// Decimal numbers
// ---------------------------------------------------------------------------

/// The character for one decimal digit.
pub open spec fn digit_char_of(d: int) -> char {
    if d == 0 {
        '0'
    } else if d == 1 {
        '1'
    } else if d == 2 {
        '2'
    } else if d == 3 {
        '3'
    } else if d == 4 {
        '4'
    } else if d == 5 {
        '5'
    } else if d == 6 {
        '6'
    } else if d == 7 {
        '7'
    } else if d == 8 {
        '8'
    } else {
        '9'
    }
}

/// The value of one decimal digit character, `-1` for any other character.
pub open spec fn digit_val(c: char) -> int {
    if c == '0' {
        0
    } else if c == '1' {
        1
    } else if c == '2' {
        2
    } else if c == '3' {
        3
    } else if c == '4' {
        4
    } else if c == '5' {
        5
    } else if c == '6' {
        6
    } else if c == '7' {
        7
    } else if c == '8' {
        8
    } else if c == '9' {
        9
    } else {
        -1
    }
}

pub open spec fn is_digit(c: char) -> bool {
    digit_val(c) >= 0
}

/// The decimal digits of a non-negative number, most significant first.
pub open spec fn dec_of(n: int) -> Seq<char>
    recommends
        n >= 0,
    decreases n,
{
    if n < 10 {
        seq![digit_char_of(n)]
    } else {
        dec_of(n / 10).push(digit_char_of(n % 10))
    }
}

/// The decimal form of a signed number.
pub open spec fn dec_int(n: int) -> Seq<char> {
    if n >= 0 {
        dec_of(n)
    } else {
        seq!['-'] + dec_of(-n)
    }
}

/// The value of a digit string, most significant first.
pub open spec fn dec_val(ds: Seq<char>) -> int
    decreases ds.len(),
{
    if ds.len() == 0 {
        0
    } else {
        dec_val(ds.drop_last()) * 10 + digit_val(ds.last())
    }
}

/// The maximal digit prefix of a string.
pub open spec fn digit_prefix(s: Seq<char>) -> Seq<char>
    decreases s.len(),
{
    if s.len() > 0 && is_digit(s[0]) {
        seq![s[0]] + digit_prefix(s.drop_first())
    } else {
        Seq::empty()
    }
}

pub open spec fn pow10(k: nat) -> int
    decreases k,
{
    if k == 0 {
        1
    } else {
        10 * pow10((k - 1) as nat)
    }
}

/// Reads a decimal integer (an optional minus sign, then one to nineteen
/// digits) that fits in a signed 64-bit value; returns the value and the text
/// after the digits.
pub open spec fn parse_int(s: Seq<char>) -> Option<(int, Seq<char>)> {
    if s.len() > 0 && s[0] == '-' {
        let ds = digit_prefix(s.skip(1));
        if 1 <= ds.len() <= 19 && dec_val(ds) <= 0x8000_0000_0000_0000 {
            Some((-dec_val(ds), s.skip(1 + ds.len() as int)))
        } else {
            None
        }
    } else {
        let ds = digit_prefix(s);
        if 1 <= ds.len() <= 19 && dec_val(ds) <= i64::MAX as int {
            Some((dec_val(ds), s.skip(ds.len() as int)))
        } else {
            None
        }
    }
}

proof fn lemma_pow10_mono(a: nat, b: nat)
    requires
        a <= b,
    ensures
        1 <= pow10(a) <= pow10(b),
    decreases b,
{
    if b == 0 {
    } else if a == b {
        lemma_pow10_mono((a - 1) as nat, (b - 1) as nat);
    } else {
        lemma_pow10_mono(a, (b - 1) as nat);
    }
}

proof fn lemma_pow10_19()
    ensures
        pow10(19) == 10_000_000_000_000_000_000,
{
    reveal_with_fuel(pow10, 21);
}

/// Every character of the decimal form of a non-negative number is a digit.
proof fn lemma_dec_of_digits(n: int)
    requires
        n >= 0,
    ensures
        dec_of(n).len() >= 1,
        forall|i: int| 0 <= i < dec_of(n).len() ==> is_digit(#[trigger] dec_of(n)[i]),
    decreases n,
{
    if n >= 10 {
        lemma_dec_of_digits(n / 10);
    }
}

/// Reading the decimal form of a number back gives the number.
proof fn lemma_dec_val_of(n: int)
    requires
        n >= 0,
    ensures
        dec_val(dec_of(n)) == n,
    decreases n,
{
    if n < 10 {
        assert(dec_val(Seq::<char>::empty()) == 0);
        assert(seq![digit_char_of(n)].drop_last() =~= Seq::<char>::empty());
        assert(seq![digit_char_of(n)].last() == digit_char_of(n));
        assert(digit_val(digit_char_of(n)) == n);
    } else {
        lemma_dec_val_of(n / 10);
        assert(dec_of(n / 10).push(digit_char_of(n % 10)).drop_last() =~= dec_of(n / 10));
    }
}

/// A number below `pow10(k)` has at most `k` decimal digits.
proof fn lemma_dec_of_len(n: int, k: nat)
    requires
        0 <= n < pow10(k),
        k >= 1,
    ensures
        dec_of(n).len() <= k,
    decreases k,
{
    if n < 10 {
        lemma_pow10_mono(1, k);
    } else {
        assert(pow10(k) == 10 * pow10((k - 1) as nat));
        assert(n / 10 < pow10((k - 1) as nat));
        if k - 1 >= 1 {
            lemma_dec_of_len(n / 10, (k - 1) as nat);
        } else {
            lemma_pow10_mono(0, 0);
            assert(false);
        }
    }
}

/// The maximal digit prefix of a digit string followed by a non-digit is the
/// digit string itself.
proof fn lemma_digit_prefix_exact(ds: Seq<char>, rest: Seq<char>)
    requires
        forall|i: int| 0 <= i < ds.len() ==> is_digit(#[trigger] ds[i]),
        rest.len() == 0 || !is_digit(rest[0]),
    ensures
        digit_prefix(ds + rest) == ds,
    decreases ds.len(),
{
    if ds.len() == 0 {
        assert(ds + rest =~= rest);
        assert(digit_prefix(ds + rest) =~= ds);
    } else {
        lemma_digit_prefix_exact(ds.drop_first(), rest);
        assert((ds + rest).drop_first() =~= ds.drop_first() + rest);
        assert((ds + rest)[0] == ds[0]);
        assert(seq![ds[0]] + ds.drop_first() =~= ds);
    }
}

/// Reading the decimal form of a signed 64-bit value, followed by anything
/// that does not begin with a digit, gives exactly the value back.
proof fn lemma_parse_dec_int(val: int, rest: Seq<char>)
    requires
        -0x8000_0000_0000_0000 <= val <= 0x7fff_ffff_ffff_ffff,
        rest.len() == 0 || !is_digit(rest[0]),
    ensures
        parse_int(dec_int(val) + rest) == Some((val, rest)),
{
    lemma_pow10_19();
    let mag = if val >= 0 { val } else { -val };
    lemma_dec_of_digits(mag);
    lemma_dec_val_of(mag);
    lemma_dec_of_len(mag, 19);
    lemma_digit_prefix_exact(dec_of(mag), rest);
    let ds = dec_of(mag);
    if val >= 0 {
        let s = dec_int(val) + rest;
        assert(s[0] == ds[0]);
        assert(is_digit(s[0]));
        assert(s[0] != '-');
        assert(s =~= ds + rest);
        assert(digit_prefix(s) == ds);
        assert(s.skip(ds.len() as int) =~= rest);
    } else {
        let s = dec_int(val) + rest;
        assert(dec_int(val) =~= seq!['-'] + ds);
        assert(s[0] == '-');
        assert(s.skip(1) =~= ds + rest);
        assert(digit_prefix(s.skip(1)) == ds);
        assert(s.skip(1 + ds.len() as int) =~= rest);
    }
}

// ---------------------------------------------------------------------------
// The note record
// ---------------------------------------------------------------------------

pub open spec fn head_id() -> Seq<char> {
    "{\n  \"id\": \""@
}

pub open spec fn quote_mark() -> Seq<char> {
    "\""@
}

pub open spec fn head_title() -> Seq<char> {
    ",\n  \"title\": \""@
}

pub open spec fn head_content() -> Seq<char> {
    ",\n  \"content\": \""@
}

pub open spec fn head_created() -> Seq<char> {
    ",\n  \"created_at\": "@
}

pub open spec fn head_updated() -> Seq<char> {
    ",\n  \"updated_at\": "@
}

pub open spec fn tail_brace() -> Seq<char> {
    "\n}"@
}

/// The record text of a note: a pretty-printed JSON object with the five
/// fields, strings escaped, timestamps as decimal integers.
pub open spec fn encode_note_seq(n: Note) -> Seq<char> {
    head_id() + escape_seq(n.id@) + quote_mark() + head_title() + escape_seq(n.title@)
        + quote_mark() + head_content() + escape_seq(n.content@) + quote_mark() + head_created()
        + dec_int(n.created_at as int) + head_updated() + dec_int(n.updated_at as int)
        + tail_brace()
}

/// Consumes a literal prefix, or nothing if the text does not start with it.
pub open spec fn expect(s: Seq<char>, lit: Seq<char>) -> Option<Seq<char>> {
    if lit.len() <= s.len() && s.take(lit.len() as int) == lit {
        Some(s.skip(lit.len() as int))
    } else {
        None
    }
}

/// A literal prefix reads off exactly, leaving the rest.
proof fn lemma_expect_prefix(lit: Seq<char>, rest: Seq<char>)
    ensures
        expect(lit + rest, lit) == Some(rest),
{
    assert((lit + rest).take(lit.len() as int) =~= lit);
    assert((lit + rest).skip(lit.len() as int) =~= rest);
}

/// The fields read back from a note record, if the text is well-formed: id,
/// title, content, and the two timestamps.
pub open spec fn parse_note_seq(s: Seq<char>) -> Option<(Seq<char>, Seq<char>, Seq<char>, int, int)> {
    match expect(s, head_id()) {
        None => None,
        Some(s1) => match parse_qstring(s1) {
            None => None,
            Some(p1) => match expect(p1.1, head_title()) {
                None => None,
                Some(s2) => match parse_qstring(s2) {
                    None => None,
                    Some(p2) => match expect(p2.1, head_content()) {
                        None => None,
                        Some(s3) => match parse_qstring(s3) {
                            None => None,
                            Some(p3) => match expect(p3.1, head_created()) {
                                None => None,
                                Some(s4) => match parse_int(s4) {
                                    None => None,
                                    Some(q1) => match expect(q1.1, head_updated()) {
                                        None => None,
                                        Some(s5) => match parse_int(s5) {
                                            None => None,
                                            Some(q2) => match expect(q2.1, tail_brace()) {
                                                None => None,
                                                Some(s6) => if s6.len() == 0 {
                                                    Some((p1.0, p2.0, p3.0, q1.0, q2.0))
                                                } else {
                                                    None
                                                },
                                            },
                                        },
                                    },
                                },
                            },
                        },
                    },
                },
            },
        },
    }
}

/// Law: decoding is exactly inverse to encoding — reading a note's record
/// text back yields precisely the note's five fields.
#[verifier::rlimit(50)]
pub proof fn lemma_note_codec_round_trip(n: Note)
    ensures
        parse_note_seq(encode_note_seq(n)) == Some(
            (n.id@, n.title@, n.content@, n.created_at as int, n.updated_at as int),
        ),
{
    reveal_strlit("\"");
    reveal_strlit(",\n  \"updated_at\": ");
    reveal_strlit("\n}");
    let s = encode_note_seq(n);
    let dc = dec_int(n.created_at as int);
    let du = dec_int(n.updated_at as int);
    let r8 = head_updated() + du + tail_brace();
    let r7 = dc + r8;
    let r6 = head_created() + r7;
    let r5 = escape_seq(n.content@) + seq!['"'] + r6;
    let r4 = head_content() + r5;
    let r3 = escape_seq(n.title@) + seq!['"'] + r4;
    let r2 = head_title() + r3;
    let r1 = escape_seq(n.id@) + seq!['"'] + r2;
    assert(quote_mark() =~= seq!['"']);
    assert(s =~= head_id() + r1);
    lemma_expect_prefix(head_id(), r1);
    lemma_parse_escaped(n.id@, r2);
    lemma_expect_prefix(head_title(), r3);
    lemma_parse_escaped(n.title@, r4);
    lemma_expect_prefix(head_content(), r5);
    lemma_parse_escaped(n.content@, r6);
    lemma_expect_prefix(head_created(), r7);
    assert(head_updated()[0] == ',');
    assert(!is_digit(','));
    lemma_parse_dec_int(n.created_at as int, r8);
    assert(r8 =~= head_updated() + (du + tail_brace()));
    lemma_expect_prefix(head_updated(), du + tail_brace());
    assert(tail_brace()[0] == '\n');
    assert(!is_digit('\n'));
    lemma_parse_dec_int(n.updated_at as int, tail_brace());
    assert(tail_brace() + Seq::<char>::empty() =~= tail_brace());
    lemma_expect_prefix(tail_brace(), Seq::<char>::empty());
}

// ---------------------------------------------------------------------------
// The id index record
// ---------------------------------------------------------------------------

/// The items of an id index record: the ids, escaped and quoted, separated by
/// commas.
pub open spec fn encode_items(ids: Seq<Seq<char>>) -> Seq<char>
    decreases ids.len(),
{
    if ids.len() == 0 {
        Seq::empty()
    } else if ids.len() == 1 {
        quote_mark() + escape_seq(ids[0]) + quote_mark()
    } else {
        quote_mark() + escape_seq(ids[0]) + quote_mark() + seq![','] + encode_items(
            ids.drop_first(),
        )
    }
}

/// The text of an id index record: a JSON array of strings.
pub open spec fn encode_index_seq(ids: Seq<Seq<char>>) -> Seq<char> {
    seq!['['] + encode_items(ids) + seq![']']
}

/// A successful read of an escaped string consumes at least its closing
/// quote.
proof fn lemma_qstring_shrinks(s: Seq<char>)
    ensures
        parse_qstring(s) matches Some(p) ==> p.1.len() < s.len(),
    decreases s.len(),
{
    if s.len() == 0 {
    } else if s[0] == '"' {
    } else if s[0] == '\\' {
        if s.len() >= 2 && unescape_code(s[1]) is Some {
            lemma_qstring_shrinks(s.skip(2));
        }
    } else {
        lemma_qstring_shrinks(s.drop_first());
    }
}

/// Reads the items of an id index record, positioned at the opening quote of
/// the first item; succeeds only when the closing bracket ends the text.
pub open spec fn parse_items(s: Seq<char>) -> Option<Seq<Seq<char>>>
    decreases s.len(),
    via parse_items_decreases
{
    if s.len() == 0 || s[0] != '"' {
        None
    } else {
        match parse_qstring(s.drop_first()) {
            None => None,
            Some(p) => {
                if p.1.len() == 0 {
                    None
                } else if p.1[0] == ']' {
                    if p.1.len() == 1 {
                        Some(seq![p.0])
                    } else {
                        None
                    }
                } else if p.1[0] == ',' {
                    match parse_items(p.1.drop_first()) {
                        None => None,
                        Some(items) => Some(seq![p.0] + items),
                    }
                } else {
                    None
                }
            },
        }
    }
}

#[via_fn]
proof fn parse_items_decreases(s: Seq<char>) {
    if s.len() > 0 && s[0] == '"' {
        lemma_qstring_shrinks(s.drop_first());
    }
}

/// The ids read back from an id index record, if the text is well-formed.
pub open spec fn parse_index_seq(s: Seq<char>) -> Option<Seq<Seq<char>>> {
    if s.len() < 2 || s[0] != '[' {
        None
    } else if s[1] == ']' {
        if s.len() == 2 {
            Some(Seq::empty())
        } else {
            None
        }
    } else {
        parse_items(s.skip(1))
    }
}

proof fn lemma_parse_items_of_encode(ids: Seq<Seq<char>>)
    requires
        ids.len() > 0,
    ensures
        parse_items(encode_items(ids) + seq![']']) == Some(ids),
    decreases ids.len(),
{
    reveal_strlit("\"");
    let s = encode_items(ids) + seq![']'];
    if ids.len() == 1 {
        assert(s =~= seq!['"'] + (escape_seq(ids[0]) + seq!['"'] + seq![']']));
        assert(s[0] == '"');
        assert(s.drop_first() =~= escape_seq(ids[0]) + seq!['"'] + seq![']']);
        lemma_parse_escaped(ids[0], seq![']']);
        assert(seq![']'].len() == 1 && seq![']'][0] == ']');
        assert(seq![ids[0]] =~= ids);
    } else {
        lemma_parse_items_of_encode(ids.drop_first());
        let rest = encode_items(ids.drop_first()) + seq![']'];
        assert(s =~= seq!['"'] + (escape_seq(ids[0]) + seq!['"'] + (seq![','] + rest)));
        assert(s[0] == '"');
        assert(s.drop_first() =~= escape_seq(ids[0]) + seq!['"'] + (seq![','] + rest));
        lemma_parse_escaped(ids[0], seq![','] + rest);
        assert((seq![','] + rest)[0] == ',');
        assert((seq![','] + rest).drop_first() =~= rest);
        assert(seq![ids[0]] + ids.drop_first() =~= ids);
    }
}

/// Law: reading an id index record back yields exactly the ids that were
/// written.
pub proof fn lemma_index_codec_round_trip(ids: Seq<Seq<char>>)
    ensures
        parse_index_seq(encode_index_seq(ids)) == Some(ids),
{
    reveal_strlit("\"");
    let s = encode_index_seq(ids);
    if ids.len() == 0 {
        assert(s =~= seq!['[', ']']);
    } else {
        assert(s.len() >= 2);
        assert(s[0] == '[');
        assert(s[1] == (encode_items(ids) + seq![']'])[0]);
        assert(quote_mark().len() == 1 && quote_mark()[0] == '"');
        assert(s[1] == '"');
        assert(s.skip(1) =~= encode_items(ids) + seq![']']);
        lemma_parse_items_of_encode(ids);
    }
}

/// Prepends items to the outcome of reading index items.
pub open spec fn icompose(a: Seq<Seq<char>>, o: Option<Seq<Seq<char>>>) -> Option<
    Seq<Seq<char>>,
> {
    match o {
        Some(items) => Some(a + items),
        None => None,
    }
}

proof fn lemma_icompose_assoc(a: Seq<Seq<char>>, x: Seq<char>, o: Option<Seq<Seq<char>>>)
    ensures
        icompose(a, icompose(seq![x], o)) == icompose(a.push(x), o),
{
    match o {
        Some(items) => {
            assert(a + (seq![x] + items) =~= a.push(x) + items);
        },
        None => {},
    }
}

proof fn lemma_encode_items_push(a: Seq<Seq<char>>, x: Seq<char>)
    ensures
        a.len() == 0 ==> encode_items(a.push(x)) == quote_mark() + escape_seq(x) + quote_mark(),
        a.len() > 0 ==> encode_items(a.push(x)) == encode_items(a) + seq![','] + (quote_mark()
            + escape_seq(x) + quote_mark()),
    decreases a.len(),
{
    let s = a.push(x);
    if a.len() == 0 {
        assert(s.len() == 1);
        assert(s[0] == x);
    } else {
        lemma_encode_items_push(a.drop_first(), x);
        assert(s.len() >= 2);
        assert(s[0] == a[0]);
        assert(s.drop_first() =~= a.drop_first().push(x));
        if a.len() == 1 {
            assert(encode_items(a) == quote_mark() + escape_seq(a[0]) + quote_mark());
            assert(encode_items(s) == quote_mark() + escape_seq(a[0]) + quote_mark() + seq![',']
                + encode_items(a.drop_first().push(x)));
            assert(a.drop_first().len() == 0);
            assert(encode_items(s) =~= encode_items(a) + seq![','] + (quote_mark() + escape_seq(x)
                + quote_mark()));
        } else {
            assert(encode_items(s) =~= encode_items(a) + seq![','] + (quote_mark() + escape_seq(x)
                + quote_mark()));
        }
    }
}

/// Encodes the ordered id index as its record text.
pub fn encode_index(ids: &Vec<String>) -> (r: String)
    ensures
        r@ == encode_index_seq(ids.deep_view()),
{
    let mut out: Vec<char> = Vec::new();
    out.push('[');
    let ghost dv = ids.deep_view();
    let mut i: usize = 0;
    while i < ids.len()
        invariant
            i <= ids@.len(),
            dv == ids.deep_view(),
            dv.len() == ids@.len(),
            forall|k: int| 0 <= k < dv.len() ==> dv[k] == ids@[k]@,
            out@ == seq!['['] + encode_items(dv.take(i as int)),
        decreases ids@.len() - i,
    {
        if i > 0 {
            out.push(',');
        }
        out.push('"');
        push_escaped(&mut out, ids[i].as_str());
        out.push('"');
        proof {
            lemma_encode_items_push(dv.take(i as int), dv[i as int]);
            assert(dv.take(i + 1) =~= dv.take(i as int).push(dv[i as int]));
            reveal_strlit("\"");
            assert(quote_mark() =~= seq!['"']);
            assert(out@ =~= seq!['['] + encode_items(dv.take(i + 1)));
        }
        i += 1;
    }
    out.push(']');
    proof {
        assert(dv.take(dv.len() as int) =~= dv);
        assert(out@ =~= encode_index_seq(dv));
    }
    crate::text::string_of_chars(&out)
}

/// Decodes an id index record; text that the record grammar does not accept
/// yields nothing.
pub fn parse_index(text: &str) -> (r: Option<Vec<String>>)
    ensures
        parse_index_seq(text@) is None ==> r is None,
        parse_index_seq(text@) matches Some(ids) ==> r matches Some(v) && v.deep_view() == ids,
{
    let v = crate::text::chars_of_str(text);
    let n = v.len();
    if n < 2 {
        return None;
    }
    if v[0] != '[' {
        return None;
    }
    if v[1] == ']' {
        if n == 2 {
            let out: Vec<String> = Vec::new();
            proof {
                assert(out.deep_view() =~= Seq::<Seq<char>>::empty());
            }
            return Some(out);
        } else {
            return None;
        }
    }
    proof {
        assert(v@.skip(1).len() > 0);
        assert(parse_index_seq(text@) == parse_items(v@.skip(1)));
    }
    let mut i: usize = 1;
    let mut acc: Vec<String> = Vec::new();
    loop
        invariant
            1 <= i <= n,
            n == v@.len(),
            v@ == text@,
            parse_items(v@.skip(1)) == icompose(acc.deep_view(), parse_items(v@.skip(i as int))),
            parse_index_seq(text@) == parse_items(v@.skip(1)),
        decreases n - i,
    {
        let ghost t = v@.skip(i as int);
        if i == n {
            assert(parse_items(t) is None);
            return None;
        }
        if v[i] != '"' {
            proof {
                assert(t[0] != '"');
                assert(parse_items(t) is None);
            }
            return None;
        }
        proof {
            assert(t[0] == '"');
            assert(t.drop_first() =~= v@.skip(i + 1));
        }
        let (item, j) = match parse_qstring_at(&v, i + 1) {
            Some(p) => p,
            None => {
                proof {
                    assert(parse_items(t) is None);
                }
                return None;
            },
        };
        proof {
            assert(parse_qstring(t.drop_first()) == Some((item@, v@.skip(j as int))));
        }
        if j == n {
            proof {
                assert(v@.skip(j as int).len() == 0);
                assert(parse_items(t) is None);
            }
            return None;
        }
        let c = v[j];
        proof {
            assert(v@.skip(j as int)[0] == c);
        }
        if c == ']' {
            if j + 1 == n {
                proof {
                    assert(v@.skip(j as int).len() == 1);
                    assert(parse_items(t) == Some(seq![item@]));
                }
                let ghost accdv = acc.deep_view();
                let item_s = crate::text::string_of_chars(&item);
                acc.push(item_s);
                proof {
                    assert(acc.deep_view() =~= accdv.push(item@));
                    assert(accdv + seq![item@] =~= accdv.push(item@));
                }
                return Some(acc);
            } else {
                proof {
                    assert(v@.skip(j as int).len() > 1);
                    assert(parse_items(t) is None);
                }
                return None;
            }
        } else if c == ',' {
            proof {
                assert(v@.skip(j as int).drop_first() =~= v@.skip(j + 1));
                assert(parse_items(t) == icompose(seq![item@], parse_items(v@.skip(j + 1))));
                lemma_icompose_assoc(acc.deep_view(), item@, parse_items(v@.skip(j + 1)));
            }
            let ghost accdv = acc.deep_view();
            let item_s = crate::text::string_of_chars(&item);
            acc.push(item_s);
            proof {
                assert(acc.deep_view() =~= accdv.push(item@));
            }
            i = j + 1;
        } else {
            proof {
                assert(parse_items(t) is None);
            }
            return None;
        }
    }
}

fn push_lit(out: &mut Vec<char>, lit: &str)
    ensures
        final(out)@ == old(out)@ + lit@,
{
    let mut l = crate::text::chars_of_str(lit);
    out.append(&mut l);
}

/// Encodes a note as its record text.
pub fn encode_note(n: &Note) -> (r: String)
    ensures
        r@ == encode_note_seq(*n),
{
    let mut out: Vec<char> = Vec::new();
    push_lit(&mut out, "{\n  \"id\": \"");
    push_escaped(&mut out, n.id.as_str());
    push_lit(&mut out, "\"");
    push_lit(&mut out, ",\n  \"title\": \"");
    push_escaped(&mut out, n.title.as_str());
    push_lit(&mut out, "\"");
    push_lit(&mut out, ",\n  \"content\": \"");
    push_escaped(&mut out, n.content.as_str());
    push_lit(&mut out, "\"");
    push_lit(&mut out, ",\n  \"created_at\": ");
    let mut d1 = dec_i64_chars(n.created_at);
    out.append(&mut d1);
    push_lit(&mut out, ",\n  \"updated_at\": ");
    let mut d2 = dec_i64_chars(n.updated_at);
    out.append(&mut d2);
    push_lit(&mut out, "\n}");
    proof {
        assert(out@ =~= encode_note_seq(*n));
    }
    crate::text::string_of_chars(&out)
}

/// Reads a literal at `start`; returns the index after it.
fn expect_at(v: &Vec<char>, start: usize, lit: &str) -> (r: Option<usize>)
    requires
        start <= v@.len(),
    ensures
        match r {
            Some(j) => start <= j <= v@.len() && expect(v@.skip(start as int), lit@) == Some(
                v@.skip(j as int),
            ),
            None => expect(v@.skip(start as int), lit@) is None,
        },
{
    let lv = crate::text::chars_of_str(lit);
    let m = lv.len();
    let n = v.len();
    if n - start < m {
        proof {
            assert(v@.skip(start as int).len() < lit@.len());
        }
        return None;
    }
    let mut k: usize = 0;
    while k < m
        invariant
            k <= m,
            m == lit@.len(),
            lv@ == lit@,
            start + m <= n,
            n == v@.len(),
            forall|x: int| 0 <= x < k ==> v@[start + x] == lit@[x],
        decreases m - k,
    {
        if v[start + k] != lv[k] {
            proof {
                let s = v@.skip(start as int);
                assert(s.take(m as int)[k as int] == v@[start + k]);
                assert(s.take(m as int) != lit@);
            }
            return None;
        }
        k += 1;
    }
    proof {
        let s = v@.skip(start as int);
        assert(s.take(m as int) =~= lit@);
        assert(s.skip(m as int) =~= v@.skip(start + m));
    }
    Some(start + m)
}

/// Decodes a note record; text that the record grammar does not accept yields
/// nothing.
pub fn parse_note(text: &str) -> (r: Option<Note>)
    ensures
        parse_note_seq(text@) is None ==> r is None,
        parse_note_seq(text@) matches Some(f) ==> r matches Some(n) && n.id@ == f.0 && n.title@
            == f.1 && n.content@ == f.2 && n.created_at as int == f.3 && n.updated_at as int
            == f.4,
{
    let v = crate::text::chars_of_str(text);
    proof {
        assert(v@.skip(0) =~= text@);
    }
    let i1 = match expect_at(&v, 0, "{\n  \"id\": \"") {
        Some(j) => j,
        None => {
            return None;
        },
    };
    let (id_chars, i2) = match parse_qstring_at(&v, i1) {
        Some(p) => p,
        None => {
            return None;
        },
    };
    let i3 = match expect_at(&v, i2, ",\n  \"title\": \"") {
        Some(j) => j,
        None => {
            return None;
        },
    };
    let (title_chars, i4) = match parse_qstring_at(&v, i3) {
        Some(p) => p,
        None => {
            return None;
        },
    };
    let i5 = match expect_at(&v, i4, ",\n  \"content\": \"") {
        Some(j) => j,
        None => {
            return None;
        },
    };
    let (content_chars, i6) = match parse_qstring_at(&v, i5) {
        Some(p) => p,
        None => {
            return None;
        },
    };
    let i7 = match expect_at(&v, i6, ",\n  \"created_at\": ") {
        Some(j) => j,
        None => {
            return None;
        },
    };
    let (created_at, i8) = match parse_int_at(&v, i7) {
        Some(p) => p,
        None => {
            return None;
        },
    };
    let i9 = match expect_at(&v, i8, ",\n  \"updated_at\": ") {
        Some(j) => j,
        None => {
            return None;
        },
    };
    let (updated_at, i10) = match parse_int_at(&v, i9) {
        Some(p) => p,
        None => {
            return None;
        },
    };
    let i11 = match expect_at(&v, i10, "\n}") {
        Some(j) => j,
        None => {
            return None;
        },
    };
    if i11 != v.len() {
        proof {
            assert(v@.skip(i11 as int).len() > 0);
        }
        return None;
    }
    proof {
        assert(v@.skip(i11 as int).len() == 0);
    }
    Some(
        Note {
            id: crate::text::string_of_chars(&id_chars),
            title: crate::text::string_of_chars(&title_chars),
            content: crate::text::string_of_chars(&content_chars),
            created_at,
            updated_at,
        },
    )
}

fn digit_val_x(c: char) -> (r: u64)
    ensures
        is_digit(c) ==> r == digit_val(c),
        !is_digit(c) ==> r == 10,
{
    if c == '0' {
        0
    } else if c == '1' {
        1
    } else if c == '2' {
        2
    } else if c == '3' {
        3
    } else if c == '4' {
        4
    } else if c == '5' {
        5
    } else if c == '6' {
        6
    } else if c == '7' {
        7
    } else if c == '8' {
        8
    } else if c == '9' {
        9
    } else {
        10
    }
}

fn digit_char_x(d: u64) -> (c: char)
    requires
        d < 10,
    ensures
        c == digit_char_of(d as int),
{
    if d == 0 {
        '0'
    } else if d == 1 {
        '1'
    } else if d == 2 {
        '2'
    } else if d == 3 {
        '3'
    } else if d == 4 {
        '4'
    } else if d == 5 {
        '5'
    } else if d == 6 {
        '6'
    } else if d == 7 {
        '7'
    } else if d == 8 {
        '8'
    } else {
        '9'
    }
}

pub(crate) fn dec_u64_chars(n: u64) -> (r: Vec<char>)
    ensures
        r@ == dec_of(n as int),
    decreases n,
{
    if n < 10 {
        let mut v: Vec<char> = Vec::new();
        v.push(digit_char_x(n));
        proof {
            assert(v@ =~= seq![digit_char_of(n as int)]);
        }
        v
    } else {
        let mut r = dec_u64_chars(n / 10);
        r.push(digit_char_x(n % 10));
        r
    }
}

/// The decimal form of a signed 64-bit value.
fn dec_i64_chars(n: i64) -> (r: Vec<char>)
    ensures
        r@ == dec_int(n as int),
{
    if n >= 0 {
        dec_u64_chars(n as u64)
    } else {
        let mag: u64 = ((-(n + 1)) as u64) + 1;
        assert(mag as int == -(n as int));
        let mut v: Vec<char> = Vec::new();
        v.push('-');
        let mut d = dec_u64_chars(mag);
        v.append(&mut d);
        proof {
            assert(v@ =~= seq!['-'] + dec_of(mag as int));
        }
        v
    }
}

/// Reads a decimal integer from `v` starting at `start`, as `parse_int`
/// describes; returns the value and the index after its last digit.
fn parse_int_at(v: &Vec<char>, start: usize) -> (r: Option<(i64, usize)>)
    requires
        start <= v@.len(),
    ensures
        match r {
            Some(p) => p.1 <= v@.len() && parse_int(v@.skip(start as int)) == Some(
                (p.0 as int, v@.skip(p.1 as int)),
            ),
            None => parse_int(v@.skip(start as int)) is None,
        },
{
    let n = v.len();
    let ghost s0 = v@.skip(start as int);
    let mut i: usize = start;
    let neg: bool;
    if i < n && v[i] == '-' {
        neg = true;
        i += 1;
        proof {
            assert(s0[0] == '-');
            assert(s0.skip(1) =~= v@.skip(i as int));
        }
    } else {
        neg = false;
        proof {
            assert(s0.len() == 0 || s0[0] != '-');
        }
    }
    let dstart = i;
    let ghost sd = v@.skip(dstart as int);
    let ghost ds = digit_prefix(sd);
    let mut acc: u64 = 0;
    loop
        invariant
            start <= dstart <= i <= n,
            n == v@.len(),
            s0 == v@.skip(start as int),
            neg ==> dstart == start + 1 && start < n && s0.len() > 0 && s0[0] == '-',
            !neg ==> dstart == start && (s0.len() == 0 || s0[0] != '-'),
            sd == v@.skip(dstart as int),
            ds == digit_prefix(sd),
            ds == v@.subrange(dstart as int, i as int) + digit_prefix(v@.skip(i as int)),
            forall|k: int| dstart <= k < i ==> is_digit(#[trigger] v@[k]),
            acc as int == dec_val(v@.subrange(dstart as int, i as int)),
            (acc as int) < pow10((i - dstart) as nat),
            i - dstart <= 19,
        ensures
            start <= dstart <= i <= n,
            n == v@.len(),
            s0 == v@.skip(start as int),
            neg ==> dstart == start + 1 && s0.len() > 0 && s0[0] == '-',
            !neg ==> dstart == start && (s0.len() == 0 || s0[0] != '-'),
            sd == v@.skip(dstart as int),
            ds == digit_prefix(sd),
            ds == v@.subrange(dstart as int, i as int),
            ds.len() == i - dstart,
            acc as int == dec_val(ds),
        decreases n - i,
    {
        let ghost t = v@.skip(i as int);
        if i == n {
            proof {
                assert(digit_prefix(t) =~= Seq::<char>::empty());
                assert(ds =~= v@.subrange(dstart as int, i as int));
            }
            break;
        }
        let c = v[i];
        proof {
            assert(t[0] == c);
            assert(t.drop_first() =~= v@.skip(i + 1));
        }
        let dv = digit_val_x(c);
        if dv >= 10 {
            proof {
                assert(digit_prefix(t) =~= Seq::<char>::empty());
                assert(ds =~= v@.subrange(dstart as int, i as int));
            }
            break;
        }
        if i - dstart == 19 {
            // a twentieth digit: the number is out of range either way
            proof {
                assert(is_digit(c));
                assert(digit_prefix(t).len() >= 1);
                assert(ds.len() > 19);
                if neg {
                    assert(s0.skip(1) =~= v@.skip(dstart as int));
                    assert(digit_prefix(s0.skip(1)) == ds);
                } else {
                    assert(s0 =~= v@.skip(dstart as int));
                    assert(digit_prefix(s0) == ds);
                }
                assert(parse_int(s0) is None);
            }
            return None;
        }
        proof {
            let pre = v@.subrange(dstart as int, i as int);
            let pre1 = v@.subrange(dstart as int, i + 1);
            assert(pre1.drop_last() =~= pre);
            assert(pre1.last() == c);
            assert(dec_val(pre1) == dec_val(pre) * 10 + digit_val(c));
            lemma_pow10_mono((i + 1 - dstart) as nat, 19);
            lemma_pow10_19();
            let pcur = pow10((i - dstart) as nat);
            let pnext = pow10((i + 1 - dstart) as nat);
            assert(pnext == 10 * pcur);
            let accv = acc as int;
            let dc = digit_val(c);
            assert(accv * 10 + dc < pnext) by (nonlinear_arith)
                requires
                    accv < pcur,
                    dc <= 9,
                    pnext == 10 * pcur,
            ;
            assert(ds == pre1 + digit_prefix(v@.skip(i + 1)));
        }
        acc = acc * 10 + dv;
        i += 1;
    }
    // here: ds == the digits scanned, acc == their value, i just after them
    proof {
        assert(v@.skip(dstart as int + ds.len() as int) =~= v@.skip(i as int));
        if neg {
            assert(dstart == start + 1);
            assert(s0.skip(1) =~= v@.skip(dstart as int));
            assert(digit_prefix(s0.skip(1)) == ds);
        } else {
            assert(dstart == start);
            assert(s0 =~= v@.skip(dstart as int));
            assert(digit_prefix(s0) == ds);
        }
    }
    if i == dstart {
        proof {
            assert(parse_int(s0) is None);
        }
        return None;
    }
    if neg {
        if acc > 0x8000_0000_0000_0000u64 {
            proof {
                assert(parse_int(s0) is None);
            }
            return None;
        }
        let val: i64 = if acc == 0x8000_0000_0000_0000u64 {
            i64::MIN
        } else {
            -(acc as i64)
        };
        proof {
            assert(s0.skip(1 + ds.len() as int) =~= v@.skip(i as int));
            assert(parse_int(s0) == Some((val as int, v@.skip(i as int))));
        }
        Some((val, i))
    } else {
        if acc > i64::MAX as u64 {
            proof {
                assert(parse_int(s0) is None);
            }
            return None;
        }
        proof {
            assert(parse_int(s0) == Some((acc as int, v@.skip(i as int))));
        }
        Some((acc as i64, i))
    }
}

} // verus!

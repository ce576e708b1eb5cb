//! Text helpers for cell normalization and display: whitespace collapsing and
//! decimal rendering of integers.

use vstd::prelude::*;
use vstd::string::StrSliceExecFns;
use vstd::string::StringExecFns;

verus! {

/// Relies on `String::push`: appends one character at the end of the string.
pub assume_specification[ String::push ](s: &mut String, ch: char)
    ensures
        final(s)@ == old(s)@.push(ch),
;

/// A whitespace character, as string normalization understands it: one of
/// the Unicode White_Space code points (the ASCII blanks, next line, no-break
/// space, ogham space mark, the en/em quads and spaces through hair space,
/// line and paragraph separators, narrow no-break space, medium mathematical
/// space, and ideographic space).
pub open spec fn is_wsp(c: char) -> bool {
    c == ' ' || c == '\t' || c == '\n' || c == '\r' || c == '\u{0b}' || c == '\u{0c}' || c
        == '\u{85}' || c == '\u{a0}' || c == '\u{1680}' || c == '\u{2000}' || c == '\u{2001}' || c
        == '\u{2002}' || c == '\u{2003}' || c == '\u{2004}' || c == '\u{2005}' || c == '\u{2006}'
        || c == '\u{2007}' || c == '\u{2008}' || c == '\u{2009}' || c == '\u{200a}' || c
        == '\u{2028}' || c == '\u{2029}' || c == '\u{202f}' || c == '\u{205f}' || c == '\u{3000}'
}

/// Decide whether a character counts as whitespace for string normalization.
pub fn is_whitespace_char(c: char) -> (r: bool)
    ensures
        r == is_wsp(c),
{
    c == ' ' || c == '\t' || c == '\n' || c == '\r' || c == '\u{0b}' || c == '\u{0c}' || c
        == '\u{85}' || c == '\u{a0}' || c == '\u{1680}' || c == '\u{2000}' || c == '\u{2001}' || c
        == '\u{2002}' || c == '\u{2003}' || c == '\u{2004}' || c == '\u{2005}' || c == '\u{2006}'
        || c == '\u{2007}' || c == '\u{2008}' || c == '\u{2009}' || c == '\u{200a}' || c
        == '\u{2028}' || c == '\u{2029}' || c == '\u{202f}' || c == '\u{205f}' || c == '\u{3000}'
}

/// Whitespace-collapsed form of `s`, reading from a token boundary: leading
/// whitespace is dropped, every run of whitespace between tokens becomes one
/// space, trailing whitespace is dropped.
pub open spec fn collapse_from(s: Seq<char>) -> Seq<char>
    decreases s.len(), 0int,
{
    if s.len() == 0 {
        Seq::empty()
    } else if is_wsp(s[0]) {
        collapse_from(s.drop_first())
    } else {
        seq![s[0]] + collapse_word(s.drop_first())
    }
}

/// Whitespace-collapsed form of `s`, reading from inside a token: a following
/// whitespace run yields a single separating space only if another token
/// follows it.
pub open spec fn collapse_word(s: Seq<char>) -> Seq<char>
    decreases s.len(), 1int,
{
    if s.len() == 0 {
        Seq::empty()
    } else if !is_wsp(s[0]) {
        seq![s[0]] + collapse_word(s.drop_first())
    } else if collapse_from(s).len() == 0 {
        Seq::empty()
    } else {
        seq![' '] + collapse_from(s)
    }
}

/// The collapsed tail with its separating space: what the rest of a string
/// contributes to the collapsed whole once a token has already been emitted.
pub open spec fn glue(t: Seq<char>) -> Seq<char> {
    if t.len() == 0 {
        t
    } else {
        seq![' '] + t
    }
}

/// A sequence in collapsed shape except possibly for one leading space:
/// every whitespace character in it is a single space standing right before
/// a non-whitespace character and, unless it opens the sequence, right after
/// one.
pub open spec fn canon_mid(t: Seq<char>) -> bool {
    forall|i: int|
        0 <= i < t.len() && is_wsp(#[trigger] t[i]) ==> {
            &&& t[i] == ' '
            &&& i + 1 < t.len()
            &&& !is_wsp(t[i + 1])
            &&& (i > 0 ==> !is_wsp(t[i - 1]))
        }
}

/// A sequence in collapsed shape: `canon_mid` and no leading whitespace.
pub open spec fn canon(t: Seq<char>) -> bool {
    canon_mid(t) && (t.len() > 0 ==> !is_wsp(t[0]))
}

/// Collapsing always produces a sequence in collapsed shape.
pub proof fn lemma_collapse_canon(s: Seq<char>)
    ensures
        canon(collapse_from(s)),
        canon_mid(collapse_word(s)),
    decreases s.len(),
{
    if s.len() == 0 {
    } else {
        lemma_collapse_canon(s.drop_first());
        let rest = s.drop_first();
        if is_wsp(s[0]) {
            let t = collapse_word(s);
            if t.len() != 0 {
                let u = collapse_from(s);
                assert(t == seq![' '] + u);
                assert forall|i: int| 0 <= i < t.len() && is_wsp(#[trigger] t[i]) implies {
                    &&& t[i] == ' '
                    &&& i + 1 < t.len()
                    &&& !is_wsp(t[i + 1])
                    &&& (i > 0 ==> !is_wsp(t[i - 1]))
                } by {
                    if i == 0 {
                        assert(u.len() > 0);
                        assert(t[1] == u[0]);
                    } else {
                        assert(t[i] == u[i - 1]);
                        assert(is_wsp(u[i - 1]));
                        assert(t[i + 1] == u[i]);
                        if i > 1 {
                            assert(t[i - 1] == u[i - 2]);
                        }
                    }
                }
            }
        } else {
            let w = collapse_word(rest);
            let t = collapse_from(s);
            assert(t == seq![s[0]] + w);
            assert(collapse_word(s) == seq![s[0]] + w);
            assert forall|i: int| 0 <= i < t.len() && is_wsp(#[trigger] t[i]) implies {
                &&& t[i] == ' '
                &&& i + 1 < t.len()
                &&& !is_wsp(t[i + 1])
                &&& (i > 0 ==> !is_wsp(t[i - 1]))
            } by {
                assert(i != 0);
                assert(t[i] == w[i - 1]);
                assert(is_wsp(w[i - 1]));
                assert(i - 1 + 1 < w.len());
                assert(t[i + 1] == w[i]);
                if i > 1 {
                    assert(t[i - 1] == w[i - 2]);
                }
            }
        }
    }
}

/// Collapsing a sequence that is already in collapsed shape changes nothing.
pub proof fn lemma_collapse_of_canon(t: Seq<char>)
    requires
        canon_mid(t),
    ensures
        collapse_word(t) == t,
        (t.len() > 0 ==> !is_wsp(t[0])) ==> collapse_from(t) == t,
    decreases t.len(),
{
    if t.len() == 0 {
    } else {
        let rest = t.drop_first();
        assert(canon_mid(rest)) by {
            assert forall|i: int| 0 <= i < rest.len() && is_wsp(#[trigger] rest[i]) implies {
                &&& rest[i] == ' '
                &&& i + 1 < rest.len()
                &&& !is_wsp(rest[i + 1])
                &&& (i > 0 ==> !is_wsp(rest[i - 1]))
            } by {
                assert(rest[i] == t[i + 1]);
                assert(i + 2 < t.len());
                assert(rest[i + 1] == t[i + 2]);
                if i > 0 {
                    assert(rest[i - 1] == t[i]);
                }
            }
        }
        lemma_collapse_of_canon(rest);
        if !is_wsp(t[0]) {
            assert(seq![t[0]] + rest =~= t);
        } else {
            // `canon_mid` makes the leading whitespace a space with a token after it.
            assert(t[0] == ' ' && 1 < t.len() && !is_wsp(t[1]));
            assert(collapse_from(rest) == rest);
            assert(collapse_from(t) == collapse_from(rest));
            assert(rest.len() > 0);
            assert(collapse_word(t) == seq![' '] + rest);
            assert(seq![' '] + rest =~= t);
        }
    }
}

/// Collapsing whitespace is idempotent.
pub proof fn lemma_collapse_idempotent(s: Seq<char>)
    ensures
        collapse_from(collapse_from(s)) == collapse_from(s),
{
    lemma_collapse_canon(s);
    lemma_collapse_of_canon(collapse_from(s));
}

/// Collapse every whitespace run of `s` into a single space and trim the ends.
pub fn collapse_string(s: &str) -> (r: String)
    ensures
        r@ == collapse_from(s@),
{
    let n: usize = s.unicode_len();
    let mut out = String::new();
    let mut in_word: bool = false;
    let mut i: usize = 0;
    proof {
        assert(s@.skip(0) =~= s@);
    }
    while i < n
        invariant
            n == s@.len(),
            i <= n,
            in_word ==> out@.len() > 0 && collapse_from(s@) == out@ + collapse_word(
                s@.skip(i as int),
            ),
            (!in_word && out@.len() == 0) ==> collapse_from(s@) == collapse_from(
                s@.skip(i as int),
            ),
            (!in_word && out@.len() > 0) ==> collapse_from(s@) == out@ + glue(
                collapse_from(s@.skip(i as int)),
            ),
        decreases n - i,
    {
        let ghost pre = s@.skip(i as int);
        let ghost post = s@.skip(i as int + 1);
        proof {
            assert(pre.len() == n - i);
            assert(pre[0] == s@[i as int]);
            assert(pre.drop_first() =~= post);
        }
        let c = s.get_char(i);
        if is_whitespace_char(c) {
            proof {
                assert(collapse_from(pre) == collapse_from(post));
                if in_word {
                    assert(collapse_word(pre) == glue(collapse_from(pre)));
                }
            }
            in_word = false;
        } else {
            proof {
                assert(collapse_from(pre) == seq![pre[0]] + collapse_word(post));
                if in_word {
                    assert(collapse_word(pre) == seq![pre[0]] + collapse_word(post));
                }
            }
            if !in_word {
                if !out.as_str().is_empty() {
                    out.push(' ');
                }
            }
            let ghost before = out@;
            out.push(c);
            proof {
                assert(out@ == before.push(c));
                assert(before.push(c) + collapse_word(post) =~= before + (seq![c] + collapse_word(
                    post,
                )));
            }
            in_word = true;
        }
        i += 1;
        proof {
            if !in_word && out@.len() > 0 {
                assert(glue(collapse_from(pre)) == glue(collapse_from(post)));
            }
        }
    }
    proof {
        assert(s@.skip(n as int) =~= Seq::<char>::empty());
        assert(collapse_from(Seq::<char>::empty()) =~= Seq::<char>::empty());
        assert(collapse_word(Seq::<char>::empty()) =~= Seq::<char>::empty());
        if in_word {
            assert(out@ + collapse_word(Seq::<char>::empty()) =~= out@);
        } else if out@.len() > 0 {
            assert(out@ + glue(collapse_from(Seq::<char>::empty())) =~= out@);
        }
    }
    out
}

/// The decimal digit character for `d`.
pub open spec fn digit_char(d: int) -> char {
    if d == 0 {
        '0'
    } else if d == 1 {
        '1'
    } else if d == 2 {
        '2'
    } else if d == 3 {
        '3'
    } else if d == 4 {
        '4'
    } else if d == 5 {
        '5'
    } else if d == 6 {
        '6'
    } else if d == 7 {
        '7'
    } else if d == 8 {
        '8'
    } else {
        '9'
    }
}

/// The decimal digits of a nonnegative integer, most significant first.
pub open spec fn nat_str(n: int) -> Seq<char>
    decreases n,
{
    if n < 10 {
        seq![digit_char(n)]
    } else {
        nat_str(n / 10).push(digit_char(n % 10))
    }
}

/// The decimal rendering of an integer: a minus sign for negative values,
/// then the digits.
pub open spec fn int_str(i: int) -> Seq<char> {
    if i < 0 {
        seq!['-'] + nat_str(-i)
    } else {
        nat_str(i)
    }
}

fn digit_to_char(d: u64) -> (c: char)
    requires
        d < 10,
    ensures
        c == digit_char(d as int),
{
    if d == 0 {
        '0'
    } else if d == 1 {
        '1'
    } else if d == 2 {
        '2'
    } else if d == 3 {
        '3'
    } else if d == 4 {
        '4'
    } else if d == 5 {
        '5'
    } else if d == 6 {
        '6'
    } else if d == 7 {
        '7'
    } else if d == 8 {
        '8'
    } else {
        '9'
    }
}

/// Render an unsigned integer in decimal.
pub fn u64_to_string(n: u64) -> (s: String)
    ensures
        s@ == nat_str(n as int),
    decreases n,
{
    if n < 10 {
        let mut s = String::new();
        s.push(digit_to_char(n));
        proof {
            assert(s@ =~= nat_str(n as int));
        }
        s
    } else {
        let mut s = u64_to_string(n / 10);
        s.push(digit_to_char(n % 10));
        s
    }
}

/// Render a signed integer in decimal.
pub fn i64_to_string(i: i64) -> (s: String)
    ensures
        s@ == int_str(i as int),
{
    if i < 0 {
        let wide: i128 = -(i as i128);
        let m: u64 = wide as u64;
        let mut s = String::new();
        s.push('-');
        let tail = u64_to_string(m);
        s.append(tail.as_str());
        proof {
            assert(s@ =~= int_str(i as int));
        }
        s
    } else {
        u64_to_string(i as u64)
    }
}

} // verus!

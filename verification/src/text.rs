//! Character-level text machinery: lowercasing, lexicographic order, and
//! the model tokenizer (maximal runs of ASCII word characters) with token
//! containment.

use vstd::prelude::*;

verus! {

/// A word character of the model tokenizer: an ASCII letter or digit.
/// Tokenized text is split on every other character.
pub open spec fn is_word_char(c: char) -> bool {
    ('a' <= c && c <= 'z') || ('A' <= c && c <= 'Z') || ('0' <= c && c <= '9')
}

/// ASCII lowercasing of one character; everything else is left unchanged.
pub open spec fn lower_char(c: char) -> char {
    if 'A' <= c && c <= 'Z' {
        (((c as u8) + 32) as char)
    } else {
        c
    }
}

/// ASCII lowercasing of a character sequence.
pub open spec fn lower_seq(s: Seq<char>) -> Seq<char> {
    s.map(|i: int, c: char| lower_char(c))
}

/// `[i, j)` is a maximal run of word characters of `s`: a token of the
/// model tokenizer.
pub open spec fn word_span(s: Seq<char>, i: int, j: int) -> bool {
    &&& 0 <= i < j <= s.len()
    &&& forall|k: int| i <= k < j ==> is_word_char(#[trigger] s[k])
    &&& (i == 0 || !is_word_char(s[i - 1]))
    &&& (j == s.len() || !is_word_char(s[j]))
}

/// Tokenized text `text` holds the token `tok`: some maximal word run of
/// `text`, lowercased, equals `tok`.
pub open spec fn has_token(text: Seq<char>, tok: Seq<char>) -> bool {
    exists|i: int, j: int| word_span(text, i, j) && lower_seq(text.subrange(i, j)) == tok
}

/// Strict lexicographic order on character sequences, by code point.
pub open spec fn lex_lt(a: Seq<char>, b: Seq<char>) -> bool
    decreases a.len(),
{
    if b.len() == 0 {
        false
    } else if a.len() == 0 {
        true
    } else if a[0] != b[0] {
        a[0] < b[0]
    } else {
        lex_lt(a.drop_first(), b.drop_first())
    }
}

/// Dropping a common prefix does not change the lexicographic comparison.
pub proof fn lemma_lex_skip(a: Seq<char>, b: Seq<char>, i: int)
    requires
        0 <= i <= a.len(),
        i <= b.len(),
        forall|k: int| 0 <= k < i ==> a[k] == b[k],
    ensures
        lex_lt(a, b) == lex_lt(a.skip(i), b.skip(i)),
    decreases i,
{
    if i > 0 {
        assert(a.len() > 0 && b.len() > 0 && a[0] == b[0]);
        assert(lex_lt(a, b) == lex_lt(a.drop_first(), b.drop_first()));
        assert(forall|k: int|
            0 <= k < i - 1 ==> #[trigger] a.drop_first()[k] == b.drop_first()[k]);
        lemma_lex_skip(a.drop_first(), b.drop_first(), i - 1);
        assert(a.drop_first().skip(i - 1) =~= a.skip(i));
        assert(b.drop_first().skip(i - 1) =~= b.skip(i));
    } else {
        assert(a.skip(0) =~= a);
        assert(b.skip(0) =~= b);
    }
}

/// Collects the characters of a string slice.
pub fn chars_of(s: &str) -> (r: Vec<char>)
    ensures
        r@ == s@,
{
    let n = s.unicode_len();
    let mut r: Vec<char> = Vec::new();
    let mut i: usize = 0;
    while i < n
        invariant
            0 <= i <= n,
            n == s@.len(),
            r@ == s@.subrange(0, i as int),
        decreases n - i,
    {
        let c = s.get_char(i);
        r.push(c);
        proof {
            assert(r@ =~= s@.subrange(0, i + 1));
        }
        i = i + 1;
    }
    proof {
        assert(r@ =~= s@);
    }
    r
}

/// ASCII-lowercases a character vector.
pub fn lower_chars(v: &Vec<char>) -> (r: Vec<char>)
    ensures
        r@ == lower_seq(v@),
{
    let mut r: Vec<char> = Vec::new();
    let mut i: usize = 0;
    while i < v.len()
        invariant
            0 <= i <= v@.len(),
            r@ =~= lower_seq(v@).subrange(0, i as int),
        decreases v@.len() - i,
    {
        let c = v[i];
        let lc: char = if 'A' <= c && c <= 'Z' {
            (((c as u8) + 32) as char)
        } else {
            c
        };
        proof {
            assert(lc == lower_char(v@[i as int]));
        }
        r.push(lc);
        proof {
            assert(r@ =~= lower_seq(v@).subrange(0, i + 1));
        }
        i = i + 1;
    }
    proof {
        assert(r@ =~= lower_seq(v@));
    }
    r
}

/// Pointwise equality of two character vectors.
pub fn chars_eq(a: &Vec<char>, b: &Vec<char>) -> (r: bool)
    ensures
        r == (a@ == b@),
{
    if a.len() != b.len() {
        proof {
            assert(a@.len() != b@.len());
        }
        return false;
    }
    let mut i: usize = 0;
    while i < a.len()
        invariant
            0 <= i <= a@.len(),
            a@.len() == b@.len(),
            forall|k: int| 0 <= k < i ==> a@[k] == b@[k],
        decreases a@.len() - i,
    {
        if a[i] != b[i] {
            proof {
                assert(a@[i as int] != b@[i as int]);
            }
            return false;
        }
        i = i + 1;
    }
    proof {
        assert(a@ =~= b@);
    }
    true
}

/// Three-way lexicographic comparison: `0` when `a` is smaller, `1` when the
/// sequences are equal, `2` when `b` is smaller.
pub fn lex_cmp(a: &Vec<char>, b: &Vec<char>) -> (r: u8)
    ensures
        (r == 0) == lex_lt(a@, b@),
        (r == 1) == (a@ == b@),
        (r == 2) == lex_lt(b@, a@),
        r == 0 || r == 1 || r == 2,
{
    let mut i: usize = 0;
    let an = a.len();
    let bn = b.len();
    let n = if an < bn {
        an
    } else {
        bn
    };
    while i < n
        invariant
            0 <= i <= n,
            n == if a@.len() < b@.len() {
                a@.len()
            } else {
                b@.len()
            },
            forall|k: int| 0 <= k < i ==> a@[k] == b@[k],
        decreases n - i,
    {
        let ca = a[i];
        let cb = b[i];
        if ca != cb {
            proof {
                lemma_lex_skip(a@, b@, i as int);
                assert(a@.skip(i as int)[0] == a@[i as int]);
                assert(b@.skip(i as int)[0] == b@[i as int]);
                lemma_lex_skip(b@, a@, i as int);
                assert(a@ != b@);
            }
            if ca < cb {
                return 0;
            } else {
                return 2;
            }
        }
        i = i + 1;
    }
    proof {
        lemma_lex_skip(a@, b@, n as int);
        lemma_lex_skip(b@, a@, n as int);
        if a@.len() == b@.len() {
            assert(a@ =~= b@);
        } else {
            assert(a@ != b@) by {
                assert(a@.len() != b@.len());
            }
        }
    }
    if an == bn {
        1
    } else if an < bn {
        proof {
            assert(a@.skip(n as int).len() == 0 && b@.skip(n as int).len() > 0);
        }
        0
    } else {
        proof {
            assert(b@.skip(n as int).len() == 0 && a@.skip(n as int).len() > 0);
        }
        2
    }
}

/// A pair of `r` designates the span `[i, j)`.
pub open spec fn span_is(r: Seq<(usize, usize)>, k: int, i: int, j: int) -> bool {
    r[k].0 as int == i && r[k].1 as int == j
}

/// Enumerates every token of `text`: each returned pair is a maximal word
/// run, and every maximal word run is returned.
pub fn word_spans(text: &Vec<char>) -> (r: Vec<(usize, usize)>)
    ensures
        forall|k: int|
            0 <= k < r@.len() ==> word_span(text@, #[trigger] r@[k].0 as int, r@[k].1 as int),
        forall|i: int, j: int|
            word_span(text@, i, j) ==> exists|k: int|
                0 <= k < r@.len() && #[trigger] span_is(r@, k, i, j),
{
    let n = text.len();
    let mut r: Vec<(usize, usize)> = Vec::new();
    let mut pos: usize = 0;
    while pos < n
        invariant
            0 <= pos <= n,
            n == text@.len(),
            forall|k: int|
                0 <= k < r@.len() ==> word_span(text@, #[trigger] r@[k].0 as int, r@[k].1 as int),
            forall|i: int, j: int|
                word_span(text@, i, j) && i < pos ==> exists|k: int|
                    0 <= k < r@.len() && #[trigger] span_is(r@, k, i, j),
        decreases n - pos,
    {
        let starts_word = {
            let cw = is_word_char_exec(text[pos]);
            if pos == 0 {
                cw
            } else {
                cw && !is_word_char_exec(text[pos - 1])
            }
        };
        if starts_word {
            let mut e: usize = pos + 1;
            while e < n && is_word_char_exec_at(text, e)
                invariant
                    pos < e <= n,
                    n == text@.len(),
                    is_word_char(text@[pos as int]),
                    pos == 0 || !is_word_char(text@[pos as int - 1]),
                    forall|k: int| pos <= k < e ==> is_word_char(#[trigger] text@[k]),
                decreases n - e,
            {
                e = e + 1;
            }
            proof {
                assert(word_span(text@, pos as int, e as int));
            }
            let ghost r0 = r@;
            r.push((pos, e));
            proof {
                assert(r@ == r0.push((pos, e)));
                // no other span can start strictly inside the run just found
                assert forall|i: int, j: int| word_span(text@, i, j) && i < e implies exists|
                    k: int,
                |
                    0 <= k < r@.len() && #[trigger] span_is(r@, k, i, j) by {
                    if i < pos {
                        let k0 = choose|k: int|
                            0 <= k < r0.len() && #[trigger] span_is(r0, k, i, j);
                        assert(r@[k0] == r0[k0]);
                        assert(span_is(r@, k0, i, j));
                    } else if i == pos {
                        // spans are maximal runs, so the end is determined
                        assert(j == e) by {
                            if j < e {
                                assert(is_word_char(text@[j]));
                                assert(!is_word_char(text@[j]));
                            } else if j > e {
                                assert(e < n && !is_word_char(text@[e as int]));
                                assert(is_word_char(text@[e as int]));
                            }
                        }
                        assert(r@[r0.len() as int] == (pos, e));
                        assert(span_is(r@, r0.len() as int, i, j));
                    } else {
                        // a start inside the run would follow a word character
                        assert(is_word_char(text@[i - 1]));
                        assert(false);
                    }
                }
            }
            pos = e;
        } else {
            proof {
                assert forall|i: int, j: int| word_span(text@, i, j) && i < pos + 1 implies exists|
                    k: int,
                |
                    0 <= k < r@.len() && #[trigger] span_is(r@, k, i, j) by {
                    if i == pos {
                        assert(is_word_char(text@[pos as int]));
                        assert(pos == 0 || !is_word_char(text@[pos as int - 1]));
                        assert(false);
                    } else {
                        assert(i < pos);
                    }
                }
            }
            pos = pos + 1;
        }
    }
    r
}

/// Executable test for a word character.
pub fn is_word_char_exec(c: char) -> (r: bool)
    ensures
        r == is_word_char(c),
{
    ('a' <= c && c <= 'z') || ('A' <= c && c <= 'Z') || ('0' <= c && c <= '9')
}

/// Executable test for a word character at an index of a vector.
fn is_word_char_exec_at(v: &Vec<char>, i: usize) -> (r: bool)
    requires
        i < v@.len(),
    ensures
        r == is_word_char(v@[i as int]),
{
    is_word_char_exec(v[i])
}

/// Whether the tokenized text holds the (lowercased) token `tok`.
pub fn contains_token(text: &Vec<char>, tok: &Vec<char>) -> (r: bool)
    ensures
        r == has_token(text@, tok@),
{
    let spans = word_spans(text);
    let mut k: usize = 0;
    while k < spans.len()
        invariant
            0 <= k <= spans@.len(),
            forall|k2: int|
                0 <= k2 < spans@.len() ==> word_span(
                    text@,
                    #[trigger] spans@[k2].0 as int,
                    spans@[k2].1 as int,
                ),
            forall|i: int, j: int|
                word_span(text@, i, j) ==> exists|k2: int|
                    0 <= k2 < spans@.len() && #[trigger] spans@[k2] == (i as usize, j as usize),
            forall|k2: int|
                0 <= k2 < k ==> lower_seq(
                    text@.subrange(#[trigger] spans@[k2].0 as int, spans@[k2].1 as int),
                ) != tok@,
        decreases spans@.len() - k,
    {
        let (i, j) = spans[k];
        let mut piece: Vec<char> = Vec::new();
        let mut p: usize = i;
        proof {
            assert(word_span(text@, i as int, j as int));
        }
        while p < j
            invariant
                i <= p <= j <= text@.len(),
                piece@ =~= text@.subrange(i as int, p as int),
            decreases j - p,
        {
            piece.push(text[p]);
            proof {
                assert(piece@ =~= text@.subrange(i as int, p + 1));
            }
            p = p + 1;
        }
        let low = lower_chars(&piece);
        if chars_eq(&low, tok) {
            proof {
                assert(has_token(text@, tok@)) by {
                    assert(word_span(text@, i as int, j as int) && lower_seq(
                        text@.subrange(i as int, j as int),
                    ) == tok@);
                }
            }
            return true;
        }
        k = k + 1;
    }
    proof {
        if has_token(text@, tok@) {
            let (i, j) = choose|i: int, j: int|
                word_span(text@, i, j) && lower_seq(text@.subrange(i, j)) == tok@;
            assert(exists|k2: int|
                0 <= k2 < spans@.len() && #[trigger] spans@[k2] == (i as usize, j as usize));
            let k2 = choose|k2: int|
                0 <= k2 < spans@.len() && #[trigger] spans@[k2] == (i as usize, j as usize);
            assert(lower_seq(text@.subrange(spans@[k2].0 as int, spans@[k2].1 as int)) != tok@);
            assert(false);
        }
    }
    false
}

} // verus!

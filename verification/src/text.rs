//! Character-level text utilities: searching, literal replacement, padding,
//! and lexicographic comparison. All contracts are stated over `Seq<char>`.

use vstd::prelude::*;

verus! {

/// Index of the first occurrence of `c` in `s` at or after `from`,
/// or `s.len()` when there is none.
pub open spec fn find_char_from(s: Seq<char>, c: char, from: int) -> int
    decreases s.len() - from,
{
    if from < 0 || from >= s.len() {
        s.len() as int
    } else if s[from] == c {
        from
    } else {
        find_char_from(s, c, from + 1)
    }
}

pub proof fn lemma_find_char_from_range(s: Seq<char>, c: char, from: int)
    requires
        0 <= from <= s.len(),
    ensures
        from <= find_char_from(s, c, from) <= s.len(),
    decreases s.len() - from,
{
    if from < s.len() && s[from] != c {
        lemma_find_char_from_range(s, c, from + 1);
    }
}

/// First position of `c` in `s` at or after `from`, or the length of `s`.
pub fn find_char(s: &str, c: char, from: usize) -> (r: usize)
    requires
        from <= s@.len(),
    ensures
        r == find_char_from(s@, c, from as int),
        from <= r <= s@.len(),
{
    let n = s.unicode_len();
    let mut i = from;
    while i < n
        invariant
            from <= i <= n,
            n == s@.len(),
            find_char_from(s@, c, from as int) == find_char_from(s@, c, i as int),
        decreases n - i,
    {
        if s.get_char(i) == c {
            return i;
        }
        i = i + 1;
    }
    i
}

/// The pattern `pat` occurs in `s` starting at position `i`.
pub open spec fn match_at(s: Seq<char>, pat: Seq<char>, i: int) -> bool {
    0 <= i && i + pat.len() <= s.len() && s.subrange(i, i + pat.len() as int) == pat
}

/// `s` with every non-overlapping, leftmost-first occurrence of `pat`
/// replaced by `rep`.
pub open spec fn replaced(s: Seq<char>, pat: Seq<char>, rep: Seq<char>) -> Seq<char>
    decreases s.len(),
{
    if pat.len() == 0 || pat.len() > s.len() {
        s
    } else if match_at(s, pat, 0) {
        rep + replaced(s.skip(pat.len() as int), pat, rep)
    } else {
        seq![s[0]] + replaced(s.skip(1), pat, rep)
    }
}

pub proof fn lemma_match_at_skip(s: Seq<char>, pat: Seq<char>, m: int, j: int)
    requires
        0 <= m <= s.len(),
        0 <= j,
    ensures
        match_at(s.skip(m), pat, j) == match_at(s, pat, j + m),
{
    if j + pat.len() <= s.len() - m {
        assert(s.skip(m).subrange(j, j + pat.len() as int) =~= s.subrange(
            j + m,
            j + m + pat.len() as int,
        ));
    }
}

/// When no occurrence of `pat` begins before position `k`, replacement
/// leaves the first `k` characters untouched.
pub proof fn lemma_replaced_clean_prefix(s: Seq<char>, pat: Seq<char>, rep: Seq<char>, k: int)
    requires
        1 <= pat.len(),
        0 <= k <= s.len(),
        forall|j: int| 0 <= j < k ==> !match_at(s, pat, j),
    ensures
        replaced(s, pat, rep) == s.take(k) + replaced(s.skip(k), pat, rep),
    decreases k,
{
    if k == 0 {
        assert(s.skip(0) =~= s);
        assert(s.take(0) + replaced(s.skip(0), pat, rep) =~= replaced(s, pat, rep));
    } else if pat.len() > s.len() {
        assert(replaced(s, pat, rep) == s);
        assert(pat.len() > s.skip(k).len());
        assert(replaced(s.skip(k), pat, rep) == s.skip(k));
        assert(s.take(k) + s.skip(k) =~= s);
    } else {
        assert(!match_at(s, pat, 0));
        assert(replaced(s, pat, rep) == seq![s[0]] + replaced(s.skip(1), pat, rep));
        assert forall|j: int| 0 <= j < k - 1 implies !match_at(s.skip(1), pat, j) by {
            lemma_match_at_skip(s, pat, 1, j);
        }
        lemma_replaced_clean_prefix(s.skip(1), pat, rep, k - 1);
        assert(s.skip(1).skip(k - 1) =~= s.skip(k));
        assert(seq![s[0]] + (s.skip(1).take(k - 1) + replaced(s.skip(k), pat, rep)) =~= s.take(k)
            + replaced(s.skip(k), pat, rep));
    }
}

/// Whether `pat` occurs in `s` at position `i`, by direct comparison.
fn str_eq_at(s: &str, i: usize, pat: &str, p: usize) -> (r: bool)
    requires
        p == pat@.len(),
        i + p <= s@.len(),
        s@.len() <= usize::MAX,
    ensures
        r == match_at(s@, pat@, i as int),
{
    let mut j: usize = 0;
    while j < p
        invariant
            0 <= j <= p,
            p == pat@.len(),
            i + p <= s@.len(),
            s@.len() <= usize::MAX,
            forall|t: int| 0 <= t < j ==> s@[i + t] == pat@[t],
        decreases p - j,
    {
        if s.get_char(i + j) != pat.get_char(j) {
            proof {
                if s@.subrange(i as int, i + p as int) == pat@ {
                    assert(s@.subrange(i as int, i + p as int)[j as int] == pat@[j as int]);
                }
            }
            return false;
        }
        j = j + 1;
    }
    proof {
        assert(s@.subrange(i as int, i + p as int) =~= pat@);
    }
    true
}

/// Every non-overlapping, leftmost-first occurrence of `pat` in `s`
/// replaced by `rep`, like the standard string replacement.
pub fn replace_all(s: &str, pat: &str, rep: &str) -> (r: String)
    requires
        pat@.len() >= 1,
    ensures
        r@ == replaced(s@, pat@, rep@),
{
    let n = s.unicode_len();
    let p = pat.unicode_len();
    let mut out = String::new();
    let mut start: usize = 0;
    let mut i: usize = 0;
    proof {
        assert(s@.skip(0) =~= s@);
        assert(Seq::<char>::empty() + replaced(s@, pat@, rep@) =~= replaced(s@, pat@, rep@));
    }
    while i < n
        invariant
            0 <= start <= i <= n,
            n == s@.len(),
            p == pat@.len(),
            1 <= p,
            forall|j: int| start <= j < i ==> !match_at(s@, pat@, j),
            replaced(s@, pat@, rep@) == out@ + replaced(s@.skip(start as int), pat@, rep@),
        decreases n - i,
    {
        let matched = if p <= n - i {
            str_eq_at(s, i, pat, p)
        } else {
            false
        };
        if matched {
            proof {
                assert forall|j: int| 0 <= j < i - start implies !match_at(
                    s@.skip(start as int),
                    pat@,
                    j,
                ) by {
                    lemma_match_at_skip(s@, pat@, start as int, j);
                }
                lemma_replaced_clean_prefix(s@.skip(start as int), pat@, rep@, i - start);
                assert(s@.skip(start as int).skip(i - start) =~= s@.skip(i as int));
                lemma_match_at_skip(s@, pat@, i as int, 0);
                assert(match_at(s@.skip(i as int), pat@, 0));
                assert(replaced(s@.skip(i as int), pat@, rep@) == rep@ + replaced(
                    s@.skip(i as int).skip(p as int),
                    pat@,
                    rep@,
                ));
                assert(s@.skip(i as int).skip(p as int) =~= s@.skip(i + p as int));
                assert(s@.skip(start as int).take(i - start) =~= s@.subrange(
                    start as int,
                    i as int,
                ));
            }
            let piece = s.substring_char(start, i);
            out.append(piece);
            out.append(rep);
            proof {
                assert(out@ + replaced(s@.skip((i + p) as int), pat@, rep@) =~= replaced(
                    s@,
                    pat@,
                    rep@,
                ));
            }
            i = i + p;
            start = i;
        } else {
            i = i + 1;
        }
    }
    proof {
        assert forall|j: int| 0 <= j < n - start implies !match_at(
            s@.skip(start as int),
            pat@,
            j,
        ) by {
            lemma_match_at_skip(s@, pat@, start as int, j);
            if j + start < i {
            } else {
                assert(j + start + pat@.len() > s@.len());
            }
        }
        lemma_replaced_clean_prefix(s@.skip(start as int), pat@, rep@, n - start);
        assert(s@.skip(start as int).skip(n - start) =~= Seq::<char>::empty());
        assert(replaced(Seq::<char>::empty(), pat@, rep@) =~= Seq::<char>::empty());
        assert(s@.skip(start as int).take(n - start) =~= s@.subrange(start as int, n as int));
    }
    let tail = s.substring_char(start, n);
    out.append(tail);
    proof {
        assert(out@ =~= replaced(s@, pat@, rep@));
    }
    out
}

/// A run of `n` space characters.
pub open spec fn space_seq(n: int) -> Seq<char> {
    Seq::new(n as nat, |i: int| ' ')
}

/// A string of exactly `n` spaces.
pub fn spaces(n: usize) -> (r: String)
    ensures
        r@ == space_seq(n as int),
{
    proof {
        reveal_strlit(" ");
    }
    let mut out = String::new();
    let mut i: usize = 0;
    while i < n
        invariant
            0 <= i <= n,
            out@.len() == i,
            forall|t: int| 0 <= t < i ==> out@[t] == ' ',
        decreases n - i,
    {
        proof {
            reveal_strlit(" ");
        }
        out.append(" ");
        i = i + 1;
    }
    proof {
        assert(out@ =~= space_seq(n as int));
    }
    out
}

/// Strict lexicographic order on character sequences, by code point.
pub open spec fn lex_lt(a: Seq<char>, b: Seq<char>) -> bool
    decreases a.len(),
{
    if b.len() == 0 {
        false
    } else if a.len() == 0 {
        true
    } else if (a[0] as u32) < (b[0] as u32) {
        true
    } else if (a[0] as u32) > (b[0] as u32) {
        false
    } else {
        lex_lt(a.skip(1), b.skip(1))
    }
}

pub proof fn lemma_lex_irrefl(a: Seq<char>)
    ensures
        !lex_lt(a, a),
    decreases a.len(),
{
    if a.len() > 0 {
        lemma_lex_irrefl(a.skip(1));
    }
}

pub proof fn lemma_lex_transitive(a: Seq<char>, b: Seq<char>, c: Seq<char>)
    requires
        lex_lt(a, b),
        lex_lt(b, c),
    ensures
        lex_lt(a, c),
    decreases a.len(),
{
    assert(c.len() > 0);
    assert(b.len() > 0);
    if a.len() > 0 {
        let a0 = a[0] as u32;
        let b0 = b[0] as u32;
        let c0 = c[0] as u32;
        if a0 < b0 {
            assert(b0 <= c0);
            assert(a0 < c0);
        } else {
            assert(a0 == b0);
            if b0 < c0 {
                assert(a0 < c0);
            } else {
                assert(b0 == c0);
                lemma_lex_transitive(a.skip(1), b.skip(1), c.skip(1));
                assert(a0 == c0);
            }
        }
    }
}

/// When the first `i` characters agree, the order of `a` and `b` is the
/// order of their remainders.
pub proof fn lemma_lex_skip_eq_prefix(a: Seq<char>, b: Seq<char>, i: int)
    requires
        0 <= i <= a.len(),
        i <= b.len(),
        forall|t: int| 0 <= t < i ==> a[t] == b[t],
    ensures
        lex_lt(a, b) == lex_lt(a.skip(i), b.skip(i)),
    decreases i,
{
    if i == 0 {
        assert(a.skip(0) =~= a);
        assert(b.skip(0) =~= b);
    } else {
        assert(a.len() > 0 && b.len() > 0);
        assert(a[0] == b[0]);
        assert(lex_lt(a, b) == lex_lt(a.skip(1), b.skip(1)));
        assert forall|t: int| 0 <= t < i - 1 implies a.skip(1)[t] == b.skip(1)[t] by {
            assert(a.skip(1)[t] == a[t + 1]);
            assert(b.skip(1)[t] == b[t + 1]);
        }
        lemma_lex_skip_eq_prefix(a.skip(1), b.skip(1), i - 1);
        assert(a.skip(1).skip(i - 1) =~= a.skip(i));
        assert(b.skip(1).skip(i - 1) =~= b.skip(i));
    }
}

/// Three-way lexicographic comparison: negative, zero or positive as
/// `a` is below, equal to, or above `b`.
pub fn str_lex_cmp(a: &str, b: &str) -> (r: i8)
    ensures
        (r == 0) <==> a@ == b@,
        (r < 0) <==> lex_lt(a@, b@),
        (r > 0) <==> lex_lt(b@, a@),
{
    let na = a.unicode_len();
    let nb = b.unicode_len();
    let m = if na < nb {
        na
    } else {
        nb
    };
    let mut i: usize = 0;
    while i < m
        invariant
            0 <= i <= m,
            na == a@.len(),
            nb == b@.len(),
            m == if na < nb {
                na
            } else {
                nb
            },
            forall|t: int| 0 <= t < i ==> a@[t] == b@[t],
        decreases m - i,
    {
        let ca = a.get_char(i);
        let cb = b.get_char(i);
        if (ca as u32) < (cb as u32) {
            proof {
                lemma_lex_skip_eq_prefix(a@, b@, i as int);
                lemma_lex_skip_eq_prefix(b@, a@, i as int);
                assert(a@.skip(i as int)[0] == a@[i as int]);
                assert(b@.skip(i as int)[0] == b@[i as int]);
                assert(lex_lt(a@.skip(i as int), b@.skip(i as int)));
                assert(!lex_lt(b@.skip(i as int), a@.skip(i as int)));
                if a@ == b@ {
                    assert(a@[i as int] == b@[i as int]);
                }
            }
            return -1;
        }
        if (ca as u32) > (cb as u32) {
            proof {
                lemma_lex_skip_eq_prefix(a@, b@, i as int);
                lemma_lex_skip_eq_prefix(b@, a@, i as int);
                assert(a@.skip(i as int)[0] == a@[i as int]);
                assert(b@.skip(i as int)[0] == b@[i as int]);
                assert(lex_lt(b@.skip(i as int), a@.skip(i as int)));
                assert(!lex_lt(a@.skip(i as int), b@.skip(i as int)));
                if a@ == b@ {
                    assert(a@[i as int] == b@[i as int]);
                }
            }
            return 1;
        }
        proof {
            vstd::utf8::char_u32_cast(ca, ca as u32);
            vstd::utf8::char_u32_cast(cb, cb as u32);
            assert(ca == cb);
        }
        i = i + 1;
    }
    proof {
        lemma_lex_skip_eq_prefix(a@, b@, m as int);
        lemma_lex_skip_eq_prefix(b@, a@, m as int);
    }
    if na < nb {
        proof {
            assert(a@.skip(m as int).len() == 0);
            assert(b@.skip(m as int).len() > 0);
            assert(lex_lt(a@.skip(m as int), b@.skip(m as int)));
            assert(!lex_lt(b@.skip(m as int), a@.skip(m as int)));
        }
        -1
    } else if na > nb {
        proof {
            assert(b@.skip(m as int).len() == 0);
            assert(a@.skip(m as int).len() > 0);
            assert(lex_lt(b@.skip(m as int), a@.skip(m as int)));
            assert(!lex_lt(a@.skip(m as int), b@.skip(m as int)));
        }
        1
    } else {
        proof {
            assert(a@ =~= b@);
            lemma_lex_irrefl(a@);
        }
        0
    }
}

} // verus!

//! Character-level string utilities: equality, substring matching, and
//! replacement of every occurrence of a pattern.

use vstd::prelude::*;

verus! {

/// The pattern `pat` occurs in `s` starting at position `i`.
pub open spec fn occurs_at(s: Seq<char>, pat: Seq<char>, i: int) -> bool {
    0 <= i && i + pat.len() <= s.len() && s.subrange(i, i + pat.len()) == pat
}

/// The pattern `pat` occurs somewhere in `s`.
pub open spec fn occurs(s: Seq<char>, pat: Seq<char>) -> bool {
    exists|i: int| occurs_at(s, pat, i)
}

/// `s` with every occurrence of `pat` replaced by `repl`, scanning left to
/// right without overlap. An empty pattern leaves `s` unchanged.
pub open spec fn replaced(s: Seq<char>, pat: Seq<char>, repl: Seq<char>) -> Seq<char>
    decreases s.len(),
{
    if pat.len() == 0 || s.len() < pat.len() {
        s
    } else if s.subrange(0, pat.len() as int) == pat {
        repl + replaced(s.subrange(pat.len() as int, s.len() as int), pat, repl)
    } else {
        seq![s[0]] + replaced(s.subrange(1, s.len() as int), pat, repl)
    }
}

/// Character-by-character string equality.
pub fn str_eq(a: &str, b: &str) -> (r: bool)
    ensures
        r == (a@ == b@),
{
    let a_len = a.unicode_len();
    let b_len = b.unicode_len();
    if a_len != b_len {
        proof {
            assert(a@.len() != b@.len());
        }
        return false;
    }
    let mut i: usize = 0;
    while i < a_len
        invariant
            a_len == a@.len(),
            b_len == b@.len(),
            a_len == b_len,
            0 <= i <= a_len,
            forall|k: int| 0 <= k < i ==> a@[k] == b@[k],
        decreases a_len - i,
    {
        if a.get_char(i) != b.get_char(i) {
            proof {
                assert(a@[i as int] != b@[i as int]);
            }
            return false;
        }
        i = i + 1;
    }
    proof {
        assert(a@ =~= b@);
    }
    true
}

/// Whether `pat` occurs in `text` at position `i`.
fn matches_at(text: &str, pat: &str, i: usize) -> (r: bool)
    requires
        i + pat@.len() <= text@.len(),
        text@.len() <= usize::MAX,
    ensures
        r == occurs_at(text@, pat@, i as int),
{
    let pat_len = pat.unicode_len();
    let mut j: usize = 0;
    while j < pat_len
        invariant
            pat_len == pat@.len(),
            i + pat_len <= text@.len(),
            text@.len() <= usize::MAX,
            0 <= j <= pat_len,
            forall|k: int| 0 <= k < j ==> text@[i + k] == pat@[k],
        decreases pat_len - j,
    {
        if text.get_char(i + j) != pat.get_char(j) {
            proof {
                assert(text@.subrange(i as int, i + pat@.len())[j as int] != pat@[j as int]);
            }
            return false;
        }
        j = j + 1;
    }
    proof {
        assert(text@.subrange(i as int, i + pat@.len()) =~= pat@);
    }
    true
}

/// Replace every occurrence of `pat` in `text` by `repl`, scanning left to
/// right without overlap.
pub fn replace_all(text: &str, pat: &str, repl: &str) -> (r: String)
    ensures
        r@ == replaced(text@, pat@, repl@),
{
    let text_len = text.unicode_len();
    let pat_len = pat.unicode_len();
    if pat_len == 0 {
        return String::from_str(text);
    }
    let mut out = String::new();
    let mut i: usize = 0;
    proof {
        assert(text@.subrange(0, text_len as int) =~= text@);
        assert(out@ + replaced(text@, pat@, repl@) =~= replaced(text@, pat@, repl@));
    }
    while i < text_len
        invariant
            text_len == text@.len(),
            pat_len == pat@.len(),
            pat_len >= 1,
            0 <= i <= text_len,
            replaced(text@, pat@, repl@) == out@ + replaced(
                text@.subrange(i as int, text_len as int),
                pat@,
                repl@,
            ),
        decreases text_len - i,
    {
        let ghost rest = text@.subrange(i as int, text_len as int);
        if pat_len <= text_len - i && matches_at(text, pat, i) {
            proof {
                assert(rest.subrange(0, pat@.len() as int) =~= text@.subrange(
                    i as int,
                    i + pat@.len(),
                ));
                assert(rest.subrange(pat@.len() as int, rest.len() as int) =~= text@.subrange(
                    i + pat@.len(),
                    text_len as int,
                ));
                assert(replaced(rest, pat@, repl@) == repl@ + replaced(
                    text@.subrange(i + pat@.len(), text_len as int),
                    pat@,
                    repl@,
                ));
                assert(out@ + replaced(rest, pat@, repl@) =~= (out@ + repl@) + replaced(
                    text@.subrange(i + pat@.len(), text_len as int),
                    pat@,
                    repl@,
                ));
            }
            out.append(repl);
            i = i + pat_len;
        } else {
            proof {
                if rest.len() >= pat@.len() {
                    assert(rest.subrange(0, pat@.len() as int) =~= text@.subrange(
                        i as int,
                        i + pat@.len(),
                    ));
                    assert(rest.subrange(0, pat@.len() as int) != pat@);
                    assert(replaced(rest, pat@, repl@) == seq![rest[0]] + replaced(
                        rest.subrange(1, rest.len() as int),
                        pat@,
                        repl@,
                    ));
                } else {
                    assert(replaced(rest, pat@, repl@) == rest);
                    assert(rest =~= seq![rest[0]] + rest.subrange(1, rest.len() as int));
                    assert(replaced(rest.subrange(1, rest.len() as int), pat@, repl@)
                        == rest.subrange(1, rest.len() as int));
                }
                assert(rest.subrange(1, rest.len() as int) =~= text@.subrange(
                    i + 1,
                    text_len as int,
                ));
                assert(out@ + replaced(rest, pat@, repl@) =~= (out@ + seq![text@[i as int]])
                    + replaced(text@.subrange(i + 1, text_len as int), pat@, repl@));
            }
            let piece = text.substring_char(i, i + 1);
            proof {
                assert(piece@ =~= seq![text@[i as int]]);
            }
            out.append(piece);
            i = i + 1;
        }
    }
    proof {
        assert(text@.subrange(text_len as int, text_len as int) =~= Seq::<char>::empty());
        assert(replaced(Seq::<char>::empty(), pat@, repl@) == Seq::<char>::empty());
        assert(out@ + Seq::<char>::empty() =~= out@);
    }
    out
}

/// An occurrence in `s` is an occurrence in `prefix + s`, shifted right.
pub proof fn lemma_occurs_shift(prefix: Seq<char>, s: Seq<char>, x: Seq<char>)
    requires
        occurs(s, x),
    ensures
        occurs(prefix + s, x),
{
    let i = choose|i: int| occurs_at(s, x, i);
    assert((prefix + s).subrange(prefix.len() + i, prefix.len() + i + x.len()) =~= s.subrange(
        i,
        i + x.len(),
    ));
    assert(occurs_at(prefix + s, x, prefix.len() + i));
}

/// An occurrence in `s` is an occurrence in `s + suffix`.
pub proof fn lemma_occurs_extend(s: Seq<char>, suffix: Seq<char>, x: Seq<char>)
    requires
        occurs(s, x),
    ensures
        occurs(s + suffix, x),
{
    let i = choose|i: int| occurs_at(s, x, i);
    assert((s + suffix).subrange(i, i + x.len()) =~= s.subrange(i, i + x.len()));
    assert(occurs_at(s + suffix, x, i));
}

/// After replacing a pattern that occurs, the replacement occurs in the result.
pub proof fn lemma_replaced_contains(s: Seq<char>, pat: Seq<char>, repl: Seq<char>)
    requires
        occurs(s, pat),
        pat.len() > 0,
    ensures
        occurs(replaced(s, pat, repl), repl),
    decreases s.len(),
{
    let w = choose|i: int| occurs_at(s, pat, i);
    assert(s.len() >= pat.len());
    if s.subrange(0, pat.len() as int) == pat {
        let rest = replaced(s.subrange(pat.len() as int, s.len() as int), pat, repl);
        assert((repl + rest).subrange(0, repl.len() as int) =~= repl);
        assert(occurs_at(repl + rest, repl, 0));
    } else {
        assert(w != 0);
        let tail = s.subrange(1, s.len() as int);
        assert(tail.subrange(w - 1, w - 1 + pat.len()) =~= s.subrange(w, w + pat.len()));
        assert(occurs_at(tail, pat, w - 1));
        lemma_replaced_contains(tail, pat, repl);
        lemma_occurs_shift(seq![s[0]], replaced(tail, pat, repl), repl);
    }
}

/// The glue for every element after the first: `sep` then the element.
pub open spec fn tail_joined(parts: Seq<Seq<char>>, sep: Seq<char>) -> Seq<char>
    decreases parts.len(),
{
    if parts.len() == 0 {
        Seq::empty()
    } else {
        sep + parts[0] + tail_joined(parts.skip(1), sep)
    }
}

/// The elements of `parts` joined by `sep`.
pub open spec fn joined(parts: Seq<Seq<char>>, sep: Seq<char>) -> Seq<char> {
    if parts.len() == 0 {
        Seq::empty()
    } else {
        parts[0] + tail_joined(parts.skip(1), sep)
    }
}

/// Join the strings of `parts` with the separator `sep`.
pub fn join_all(parts: &Vec<String>, sep: &str) -> (r: String)
    ensures
        r@ == joined(parts.deep_view(), sep@),
{
    let ghost views = parts.deep_view();
    if parts.len() == 0 {
        return String::new();
    }
    let mut out = parts[0].clone();
    let mut i: usize = 1;
    proof {
        assert(views.skip(1).skip(0) =~= views.skip(1));
        assert(out@ + tail_joined(views.skip(1), sep@) == joined(views, sep@));
    }
    while i < parts.len()
        invariant
            views == parts.deep_view(),
            1 <= i <= parts.len(),
            views.len() == parts.len(),
            out@ + tail_joined(views.skip(i as int), sep@) == joined(views, sep@),
        decreases parts.len() - i,
    {
        proof {
            assert(views.skip(i as int)[0] == views[i as int]);
            assert(views.skip(i as int).skip(1) =~= views.skip(i + 1));
            assert(out@ + tail_joined(views.skip(i as int), sep@) =~= ((out@ + sep@)
                + views[i as int]) + tail_joined(views.skip(i + 1), sep@));
        }
        out.append(sep);
        out.append(parts[i].as_str());
        i = i + 1;
    }
    proof {
        assert(tail_joined(views.skip(views.len() as int), sep@) == Seq::<char>::empty());
        assert(out@ + Seq::<char>::empty() =~= out@);
    }
    out
}

} // verus!

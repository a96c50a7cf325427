//! Profile names: what a user may type, how it is tidied, and the laws of the
//! tidying.
use vstd::prelude::*;

use crate::text::{chars_of, string_from_chars};

verus! {

/// The longest name, in characters.
pub const NAME_MAX: usize = 20;

/// The characters a profile name may hold: ASCII letters and digits, space,
/// hyphen and underscore.
pub open spec fn name_char_allowed(c: char) -> bool {
    ||| ('a' <= c && c <= 'z')
    ||| ('A' <= c && c <= 'Z')
    ||| ('0' <= c && c <= '9')
    ||| c == ' '
    ||| c == '-'
    ||| c == '_'
}

/// Whether `c` may stand in a profile name.
pub fn is_name_char(c: char) -> (b: bool)
    ensures
        b == name_char_allowed(c),
{
    ('a' <= c && c <= 'z') || ('A' <= c && c <= 'Z') || ('0' <= c && c <= '9') || c == ' ' || c
        == '-' || c == '_'
}

/// The characters of `s` that a name may hold, in order.
pub open spec fn keep_allowed(s: Seq<char>) -> Seq<char>
    decreases s.len(),
{
    if s.len() == 0 {
        s
    } else if name_char_allowed(s.last()) {
        keep_allowed(s.drop_last()).push(s.last())
    } else {
        keep_allowed(s.drop_last())
    }
}

/// The maximal runs of non-space characters of `s`, in order.
pub open spec fn words(s: Seq<char>) -> Seq<Seq<char>>
    decreases s.len(),
{
    if s.len() == 0 {
        Seq::empty()
    } else {
        let w = words(s.drop_last());
        let c = s.last();
        if c == ' ' {
            w
        } else if s.len() > 1 && s[s.len() - 2] != ' ' {
            w.update(w.len() - 1, w.last().push(c))
        } else {
            w.push(seq![c])
        }
    }
}

/// The words `ws` with one space between each two.
pub open spec fn join_words(ws: Seq<Seq<char>>) -> Seq<char>
    decreases ws.len(),
{
    if ws.len() == 0 {
        Seq::empty()
    } else if ws.len() == 1 {
        ws[0]
    } else {
        join_words(ws.drop_last()) + seq![' '] + ws.last()
    }
}

/// The tidy form of a typed or stored name: only the allowed characters, the
/// words separated by single spaces with none at either end, and then cut to
/// its first `NAME_MAX` characters.
pub open spec fn clean_name_spec(s: Seq<char>) -> Seq<char> {
    let joined = join_words(words(keep_allowed(s)));
    if joined.len() <= NAME_MAX {
        joined
    } else {
        joined.take(NAME_MAX as int)
    }
}

/// Whether `t` has no space first and no two spaces in a row.
pub open spec fn well_spaced(t: Seq<char>) -> bool {
    &&& (t.len() > 0 ==> t[0] != ' ')
    &&& forall|i: int, j: int|
        0 <= i && j == i + 1 && j < t.len() ==> !(#[trigger] t[i] == ' ' && #[trigger] t[j] == ' ')
}

proof fn lemma_join_push_word(ws: Seq<Seq<char>>, word: Seq<char>)
    ensures
        join_words(ws.push(word)) == (if ws.len() == 0 {
            word
        } else {
            join_words(ws) + seq![' '] + word
        }),
{
    assert(ws.push(word).drop_last() =~= ws);
}

proof fn lemma_join_extend_last(ws: Seq<Seq<char>>, c: char)
    requires
        ws.len() >= 1,
    ensures
        join_words(ws.update(ws.len() - 1, ws.last().push(c))) == join_words(ws).push(c),
{
    let u = ws.update(ws.len() - 1, ws.last().push(c));
    if ws.len() == 1 {
    } else {
        assert(u.drop_last() =~= ws.drop_last());
        assert(join_words(u) =~= join_words(ws).push(c));
    }
}

proof fn lemma_words_nonempty(s: Seq<char>)
    requires
        s.len() > 0,
        s.last() != ' ',
    ensures
        words(s).len() > 0,
    decreases s.len(),
{
    if s.len() > 1 && s[s.len() - 2] != ' ' {
        lemma_words_nonempty(s.drop_last());
    }
}

/// `s` tidied as a name, over characters.
pub fn clean_name_chars(s: &Vec<char>) -> (out: Vec<char>)
    ensures
        out@ == clean_name_spec(s@),
{
    let mut out: Vec<char> = Vec::new();
    let mut pending = false;
    let n = s.len();
    let mut i: usize = 0;
    assert(s@.take(0) =~= Seq::<char>::empty());
    while i < n
        invariant
            i <= n == s.len(),
            out@ == join_words(words(keep_allowed(s@.take(i as int)))),
            pending == (keep_allowed(s@.take(i as int)).len() > 0 && keep_allowed(
                s@.take(i as int),
            ).last() == ' '),
            (out@.len() > 0) == (words(keep_allowed(s@.take(i as int))).len() > 0),
        decreases n - i,
    {
        let c = s[i];
        let ghost x = keep_allowed(s@.take(i as int));
        assert(s@.take(i + 1).drop_last() =~= s@.take(i as int));
        if is_name_char(c) {
            let ghost y = x.push(c);
            assert(keep_allowed(s@.take(i + 1)) == y);
            assert(y.drop_last() =~= x);
            if c == ' ' {
                pending = true;
            } else {
                if !pending && out.len() > 0 {
                    assert(x.len() > 0);
                    proof {
                        lemma_words_nonempty(x);
                        lemma_join_extend_last(words(x), c);
                    }
                    assert(y[y.len() - 2] == x.last());
                    out.push(c);
                } else {
                    proof {
                        if x.len() > 0 && x.last() != ' ' {
                            lemma_words_nonempty(x);
                        }
                        lemma_join_push_word(words(x), seq![c]);
                    }
                    if pending && out.len() > 0 {
                        out.push(' ');
                    }
                    out.push(c);
                    assert(out@ =~= join_words(words(y)));
                }
                pending = false;
            }
        } else {
            assert(keep_allowed(s@.take(i + 1)) == x);
        }
        i = i + 1;
    }
    assert(s@.take(n as int) =~= s@);
    if out.len() > NAME_MAX {
        out.truncate(NAME_MAX);
    }
    out
}

/// `value` tidied as a profile name: only ASCII letters, digits, spaces,
/// hyphens and underscores kept, runs of spaces made single and removed at
/// both ends, then cut to its first 20 characters.
pub fn clean_name(value: &str) -> (res: String)
    ensures
        res@ == clean_name_spec(value@),
{
    let chars = chars_of(value);
    let cleaned = clean_name_chars(&chars);
    string_from_chars(cleaned.as_slice())
}

// ---------------------------------------------------------------------------
// Laws
// ---------------------------------------------------------------------------

proof fn lemma_keep_allowed_allowed(s: Seq<char>)
    ensures
        forall|i: int| 0 <= i < keep_allowed(s).len() ==> name_char_allowed(#[trigger] keep_allowed(s)[i]),
    decreases s.len(),
{
    if s.len() > 0 {
        lemma_keep_allowed_allowed(s.drop_last());
        let p = keep_allowed(s.drop_last());
        let k = keep_allowed(s);
        assert forall|i: int| 0 <= i < k.len() implies name_char_allowed(#[trigger] k[i]) by {
            if i < p.len() {
                assert(k[i] == p[i]);
            }
        }
    }
}

proof fn lemma_keep_allowed_of_allowed(s: Seq<char>)
    requires
        forall|i: int| 0 <= i < s.len() ==> name_char_allowed(#[trigger] s[i]),
    ensures
        keep_allowed(s) == s,
    decreases s.len(),
{
    if s.len() > 0 {
        lemma_keep_allowed_of_allowed(s.drop_last());
        assert(s.drop_last().push(s.last()) =~= s);
    }
}

/// Whether every word is non-empty and holds only allowed, non-space characters.
spec fn good_words(ws: Seq<Seq<char>>) -> bool {
    forall|k: int|
        0 <= k < ws.len() ==> {
            &&& (#[trigger] ws[k]).len() > 0
            &&& forall|j: int|
                0 <= j < ws[k].len() ==> ws[k][j] != ' ' && name_char_allowed(#[trigger] ws[k][j])
        }
}

proof fn lemma_words_good(s: Seq<char>)
    requires
        forall|i: int| 0 <= i < s.len() ==> name_char_allowed(#[trigger] s[i]),
    ensures
        good_words(words(s)),
    decreases s.len(),
{
    if s.len() > 0 {
        lemma_words_good(s.drop_last());
        let w = words(s.drop_last());
        let c = s.last();
        assert(name_char_allowed(s[s.len() - 1]));
        if c != ' ' && s.len() > 1 && s[s.len() - 2] != ' ' {
            lemma_words_nonempty(s.drop_last());
            let u = w.update(w.len() - 1, w.last().push(c));
            assert forall|k: int| 0 <= k < u.len() implies {
                &&& (#[trigger] u[k]).len() > 0
                &&& forall|j: int|
                    0 <= j < u[k].len() ==> u[k][j] != ' ' && name_char_allowed(
                        #[trigger] u[k][j],
                    )
            } by {
                if k == w.len() - 1 {
                    assert forall|j: int| 0 <= j < u[k].len() implies u[k][j] != ' '
                        && name_char_allowed(#[trigger] u[k][j]) by {
                        if j < w[k].len() {
                            assert(u[k][j] == w[k][j]);
                        }
                    }
                }
            }
        } else if c != ' ' {
            let u = w.push(seq![c]);
            assert forall|k: int| 0 <= k < u.len() implies {
                &&& (#[trigger] u[k]).len() > 0
                &&& forall|j: int|
                    0 <= j < u[k].len() ==> u[k][j] != ' ' && name_char_allowed(
                        #[trigger] u[k][j],
                    )
            } by {
                if k < w.len() {
                    assert(u[k] == w[k]);
                }
            }
        }
    }
}

proof fn lemma_join_good(ws: Seq<Seq<char>>)
    requires
        good_words(ws),
    ensures
        well_spaced(join_words(ws)),
        forall|i: int|
            0 <= i < join_words(ws).len() ==> name_char_allowed(#[trigger] join_words(ws)[i]),
        join_words(ws).len() > 0 ==> join_words(ws).last() != ' ',
        join_words(ws).len() > 0 <==> ws.len() > 0,
    decreases ws.len(),
{
    if ws.len() == 1 {
        assert(ws[0].len() > 0);
        assert(ws[0][ws[0].len() - 1] != ' ');
    } else if ws.len() > 1 {
        let p = ws.drop_last();
        assert forall|k: int| 0 <= k < p.len() implies {
            &&& (#[trigger] p[k]).len() > 0
            &&& forall|j: int|
                0 <= j < p[k].len() ==> p[k][j] != ' ' && name_char_allowed(#[trigger] p[k][j])
        } by {
            assert(p[k] == ws[k]);
        }
        lemma_join_good(p);
        let a = join_words(p);
        let l = ws.last();
        assert(l == ws[ws.len() - 1]);
        assert(l.len() > 0);
        let t = a + seq![' '] + l;
        assert(join_words(ws) == t);
        assert forall|i: int| 0 <= i < t.len() implies name_char_allowed(#[trigger] t[i]) by {
            if i < a.len() {
                assert(t[i] == a[i]);
            } else if i > a.len() {
                assert(t[i] == l[i - a.len() - 1]);
            }
        }
        assert forall|i: int, j: int|
            0 <= i && j == i + 1 && j < t.len() implies !(#[trigger] t[i] == ' ' && #[trigger] t[j]
            == ' ') by {
            if j < a.len() {
                assert(t[i] == a[i] && t[j] == a[j]);
            } else if j == a.len() {
                assert(t[i] == a[i]);
            } else if i == a.len() {
                assert(t[j] == l[0]);
            } else {
                assert(t[i] == l[i - a.len() - 1] && t[j] == l[j - a.len() - 1]);
            }
        }
        assert(t[0] == a[0]);
        assert(t.last() == l[l.len() - 1]);
    }
}

/// A tidy name has at most 20 characters, all of them allowed, with no space
/// first and no two spaces in a row.
pub proof fn lemma_clean_name_shape(s: Seq<char>)
    ensures
        clean_name_spec(s).len() <= NAME_MAX,
        forall|i: int|
            0 <= i < clean_name_spec(s).len() ==> name_char_allowed(#[trigger] clean_name_spec(s)[i]),
        well_spaced(clean_name_spec(s)),
{
    let x = keep_allowed(s);
    lemma_keep_allowed_allowed(s);
    lemma_words_good(x);
    lemma_join_good(words(x));
    let j = join_words(words(x));
    let t = clean_name_spec(s);
    if j.len() > NAME_MAX {
        assert forall|i: int| 0 <= i < t.len() implies name_char_allowed(#[trigger] t[i]) by {
            assert(t[i] == j[i]);
        }
        assert forall|i: int, k: int|
            0 <= i && k == i + 1 && k < t.len() implies !(#[trigger] t[i] == ' ' && #[trigger] t[k]
            == ' ') by {
            assert(t[i] == j[i] && t[k] == j[k]);
        }
        assert(t[0] == j[0]);
    }
}

proof fn lemma_join_words_of_well_spaced(t: Seq<char>)
    requires
        well_spaced(t),
    ensures
        join_words(words(t)) == (if t.len() > 0 && t.last() == ' ' {
            t.drop_last()
        } else {
            t
        }),
    decreases t.len(),
{
    if t.len() > 0 {
        let p = t.drop_last();
        assert(well_spaced(p)) by {
            assert forall|i: int, j: int|
                0 <= i && j == i + 1 && j < p.len() implies !(#[trigger] p[i] == ' '
                && #[trigger] p[j] == ' ') by {
                assert(p[i] == t[i] && p[j] == t[j]);
            }
            if p.len() > 0 {
                assert(p[0] == t[0]);
            }
        }
        lemma_join_words_of_well_spaced(p);
        let c = t.last();
        if c == ' ' {
            if p.len() > 0 {
                assert(t[p.len() - 1] == p.last());
                assert(!(t[p.len() - 1] == ' ' && t[p.len() as int] == ' '));
            }
        } else if t.len() > 1 && t[t.len() - 2] != ' ' {
            assert(p.last() == t[t.len() - 2]);
            lemma_words_nonempty(p);
            lemma_join_extend_last(words(p), c);
            assert(p.push(c) =~= t);
        } else if t.len() == 1 {
            lemma_join_push_word(words(p), seq![c]);
            assert(seq![c] =~= t);
        } else {
            lemma_join_push_word(words(p), seq![c]);
            let q = p.drop_last();
            assert(p.last() == ' ');
            assert(q.len() > 0) by {
                if q.len() == 0 {
                    assert(t[0] == ' ');
                }
            }
            assert(q.last() == t[t.len() - 3]);
            assert(!(t[t.len() - 3] == ' ' && t[t.len() - 2] == ' '));
            assert(words(p) == words(q));
            lemma_words_nonempty(q);
            assert(join_words(words(p)) == q);
            assert(q + seq![' '] + seq![c] =~= t);
        }
    }
}

/// Tidying a tidy name that does not end in a space leaves it unchanged. (A
/// name cut at 20 characters can end in a space; tidying it again drops it.)
pub proof fn lemma_clean_name_idempotent(s: Seq<char>)
    requires
        clean_name_spec(s).len() == 0 || clean_name_spec(s).last() != ' ',
    ensures
        clean_name_spec(clean_name_spec(s)) == clean_name_spec(s),
{
    let t = clean_name_spec(s);
    lemma_clean_name_shape(s);
    lemma_keep_allowed_of_allowed(t);
    lemma_join_words_of_well_spaced(t);
}

} // verus!

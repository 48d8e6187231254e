//! Normalising the blanks of a source text before it is searched.

use vstd::prelude::*;
use crate::text::{occurs_at, has_text, replaced, replace_text, contains_text};

verus! {

/// `s` with every run of spaces shortened to one space.
pub open spec fn squeezed(s: Seq<char>) -> Seq<char>
    decreases s.len(),
{
    if s.len() < 2 {
        s
    } else if s[0] == ' ' && s[1] == ' ' {
        squeezed(s.drop_first())
    } else {
        seq![s[0]] + squeezed(s.drop_first())
    }
}

/// Two spaces in a row.
pub open spec fn two_spaces() -> Seq<char> {
    seq![' ', ' ']
}

/// The text that source text `s` becomes before it is searched for
/// declarations: tabs removed, then each run of spaces shortened to one.
pub open spec fn normalized_blanks(s: Seq<char>) -> Seq<char> {
    squeezed(replaced(s, seq!['\t'], Seq::empty()))
}

proof fn lemma_squeezed_first(s: Seq<char>)
    ensures
        squeezed(s).len() > 0 <==> s.len() > 0,
        s.len() > 0 ==> squeezed(s)[0] == s[0],
    decreases s.len(),
{
    if s.len() >= 2 {
        lemma_squeezed_first(s.drop_first());
    }
}

proof fn lemma_squeezed_cons(c: char, x: Seq<char>)
    ensures
        squeezed(seq![c] + x) == if c == ' ' && x.len() > 0 && x[0] == ' ' {
            squeezed(x)
        } else {
            seq![c] + squeezed(x)
        },
{
    let s = seq![c] + x;
    assert(s.drop_first() =~= x);
    if x.len() == 0 {
        assert(s =~= seq![c] + squeezed(x));
    }
}

/// Squeezing `c` followed by a text depends only on the squeezed text.
proof fn lemma_squeezed_cons_congruent(c: char, x: Seq<char>, y: Seq<char>)
    requires
        squeezed(x) == squeezed(y),
    ensures
        squeezed(seq![c] + x) == squeezed(seq![c] + y),
{
    lemma_squeezed_cons(c, x);
    lemma_squeezed_cons(c, y);
    lemma_squeezed_first(x);
    lemma_squeezed_first(y);
}

/// Replacing two spaces by one does not change the squeezed text.
proof fn lemma_squeezed_replace(s: Seq<char>)
    ensures
        squeezed(replaced(s, two_spaces(), seq![' '])) == squeezed(s),
    decreases s.len(),
{
    let p = two_spaces();
    let r = replaced(s, p, seq![' ']);
    if s.len() < 2 {
    } else if occurs_at(s, p, 0) {
        assert(s.subrange(0, 2)[0] == s[0] && s.subrange(0, 2)[1] == s[1]);
        let rest = replaced(s.skip(2), p, seq![' ']);
        lemma_squeezed_replace(s.skip(2));
        lemma_squeezed_cons_congruent(' ', rest, s.skip(2));
        assert(s.drop_first() =~= seq![' '] + s.skip(2));
    } else {
        assert(s.subrange(0, 2) =~= seq![s[0], s[1]]);
        let rest = replaced(s.skip(1), p, seq![' ']);
        lemma_squeezed_replace(s.skip(1));
        lemma_squeezed_cons_congruent(s[0], rest, s.skip(1));
        assert(s =~= seq![s[0]] + s.skip(1));
        lemma_squeezed_cons(s[0], s.skip(1));
        assert(s.skip(1) =~= s.drop_first());
    }
}

/// A text without two spaces in a row is already squeezed.
proof fn lemma_squeezed_fixed(s: Seq<char>)
    requires
        !has_text(s, two_spaces()),
    ensures
        squeezed(s) == s,
    decreases s.len(),
{
    if s.len() >= 2 {
        if s[0] == ' ' && s[1] == ' ' {
            assert(s.subrange(0, 2) =~= two_spaces());
            assert(occurs_at(s, two_spaces(), 0));
        }
        let t = s.drop_first();
        assert forall|j: int| !occurs_at(t, two_spaces(), j) by {
            if occurs_at(t, two_spaces(), j) {
                assert(s.subrange(j + 1, j + 3) =~= t.subrange(j, j + 2));
                assert(occurs_at(s, two_spaces(), j + 1));
            }
        }
        lemma_squeezed_fixed(t);
        assert(s =~= seq![s[0]] + t);
    }
}

/// Replacement by a text no longer than the pattern never lengthens.
proof fn lemma_replaced_len(s: Seq<char>, p: Seq<char>, r: Seq<char>)
    requires
        r.len() <= p.len(),
    ensures
        replaced(s, p, r).len() <= s.len(),
    decreases s.len(),
{
    if p.len() == 0 || s.len() < p.len() {
    } else if occurs_at(s, p, 0) {
        lemma_replaced_len(s.skip(p.len() as int), p, r);
    } else {
        lemma_replaced_len(s.skip(1), p, r);
    }
}

/// Replacing two spaces by one shortens a text that holds two spaces.
proof fn lemma_replaced_shrinks(s: Seq<char>)
    requires
        has_text(s, two_spaces()),
    ensures
        replaced(s, two_spaces(), seq![' ']).len() < s.len(),
    decreases s.len(),
{
    let p = two_spaces();
    let j = choose|j: int| occurs_at(s, p, j);
    if occurs_at(s, p, 0) {
        lemma_replaced_len(s.skip(2), p, seq![' ']);
    } else {
        assert(j > 0);
        assert(s.skip(1).subrange(j - 1, j + 1) =~= s.subrange(j, j + 2));
        assert(occurs_at(s.skip(1), p, j - 1));
        lemma_replaced_shrinks(s.skip(1));
    }
}

/// A squeezed text holds no two spaces in a row.
proof fn lemma_squeezed_no_double(s: Seq<char>)
    ensures
        !has_text(squeezed(s), two_spaces()),
    decreases s.len(),
{
    let q = squeezed(s);
    if s.len() < 2 {
        assert forall|j: int| !occurs_at(q, two_spaces(), j) by {
            if occurs_at(q, two_spaces(), j) {
                assert(q.subrange(j, j + 2).len() == 2);
            }
        }
    } else if s[0] == ' ' && s[1] == ' ' {
        lemma_squeezed_no_double(s.drop_first());
    } else {
        let t = s.drop_first();
        lemma_squeezed_no_double(t);
        lemma_squeezed_first(t);
        assert forall|j: int| !occurs_at(q, two_spaces(), j) by {
            if occurs_at(q, two_spaces(), j) {
                assert(q.subrange(j, j + 2)[0] == ' ' && q.subrange(j, j + 2)[1] == ' ');
                if j == 0 {
                    assert(q[1] == squeezed(t)[0]);
                } else {
                    assert(squeezed(t).subrange(j - 1, j + 1) =~= q.subrange(j, j + 2));
                    assert(occurs_at(squeezed(t), two_spaces(), j - 1));
                }
            }
        }
    }
}

/// Squeezing is idempotent: a squeezed text squeezes to itself.
pub proof fn squeeze_idempotent(s: Seq<char>)
    ensures
        squeezed(squeezed(s)) == squeezed(s),
{
    lemma_squeezed_no_double(s);
    lemma_squeezed_fixed(squeezed(s));
}

/// Removes the tabs of `s` and shortens each run of spaces to one space,
/// by replacing two spaces with one for as long as two spaces remain.
pub fn normalize_blanks(s: &[char]) -> (out: Vec<char>)
    ensures
        out@ == normalized_blanks(s@),
        !has_text(out@, two_spaces()),
{
    let tab = vec!['\t'];
    let nothing: Vec<char> = Vec::new();
    let two = vec![' ', ' '];
    let one = vec![' '];
    let mut t = replace_text(s, &tab, &nothing);
    assert(tab@ =~= seq!['\t']);
    assert(nothing@ =~= Seq::<char>::empty());
    assert(two@ =~= two_spaces());
    assert(one@ =~= seq![' ']);
    let ghost start = t@;
    while contains_text(&t, &two)
        invariant
            squeezed(t@) == squeezed(start),
            two@ == two_spaces(),
            one@ == seq![' '],
        decreases t@.len(),
    {
        proof {
            lemma_squeezed_replace(t@);
            lemma_replaced_shrinks(t@);
        }
        t = replace_text(&t, &two, &one);
    }
    proof {
        lemma_squeezed_fixed(t@);
    }
    t
}

proof fn lemma_tabs_removed(s: Seq<char>)
    ensures
        !replaced(s, seq!['\t'], Seq::empty()).contains('\t'),
    decreases s.len(),
{
    let p = seq!['\t'];
    if s.len() >= 1 {
        assert(s.subrange(0, 1) =~= seq![s[0]]);
        if occurs_at(s, p, 0) {
            lemma_tabs_removed(s.skip(1));
            assert(Seq::<char>::empty() + replaced(s.skip(1), p, Seq::empty()) =~= replaced(s.skip(1), p, Seq::empty()));
        } else {
            lemma_tabs_removed(s.skip(1));
            let r = replaced(s.skip(1), p, Seq::empty());
            assert forall|j: int| 0 <= j < (seq![s[0]] + r).len() implies (seq![s[0]] + r)[j] != '\t' by {
                if j > 0 {
                    assert((seq![s[0]] + r)[j] == r[j - 1]);
                }
            }
        }
    }
}

proof fn lemma_squeezed_chars(s: Seq<char>, c: char)
    ensures
        squeezed(s).contains(c) ==> s.contains(c),
    decreases s.len(),
{
    if s.len() >= 2 {
        lemma_squeezed_chars(s.drop_first(), c);
        if squeezed(s).contains(c) {
            let q = squeezed(s.drop_first());
            if !(s[0] == ' ' && s[1] == ' ') {
                let j = choose|j: int| 0 <= j < squeezed(s).len() && squeezed(s)[j] == c;
                if j > 0 {
                    assert(q[j - 1] == c);
                    assert(q.contains(c));
                } else {
                    assert(s[0] == c);
                }
            }
            if s.drop_first().contains(c) {
                let j = choose|j: int| 0 <= j < s.drop_first().len() && s.drop_first()[j] == c;
                assert(s[j + 1] == c);
            }
        }
    }
}

/// Normalising blanks leaves no tab in the text.
pub proof fn normalized_blanks_free_of_tabs(s: Seq<char>)
    ensures
        !normalized_blanks(s).contains('\t'),
{
    lemma_tabs_removed(s);
    lemma_squeezed_chars(replaced(s, seq!['\t'], Seq::empty()), '\t');
}

} // verus!

//! Text as sequences of characters: search, replacement, lines.

use vstd::prelude::*;

verus! {

/// `p` occurs in `s` starting at index `i`.
pub open spec fn occurs_at(s: Seq<char>, p: Seq<char>, i: int) -> bool {
    &&& 0 <= i
    &&& i + p.len() <= s.len()
    &&& s.subrange(i, i + p.len()) == p
}

/// `p` occurs somewhere in `s` (the empty text occurs in every text).
pub open spec fn has_text(s: Seq<char>, p: Seq<char>) -> bool {
    exists|i: int| occurs_at(s, p, i)
}

/// `s` with every occurrence of `p` replaced by `r`, the occurrences taken
/// from left to right without overlap.  An empty `p` leaves `s` unchanged.
pub open spec fn replaced(s: Seq<char>, p: Seq<char>, r: Seq<char>) -> Seq<char>
    decreases s.len(),
{
    if p.len() == 0 || s.len() < p.len() {
        s
    } else if occurs_at(s, p, 0) {
        r + replaced(s.skip(p.len() as int), p, r)
    } else {
        seq![s[0]] + replaced(s.skip(1), p, r)
    }
}

/// The characters of `s`, in order.
pub fn chars_of(s: &str) -> (out: Vec<char>)
    ensures
        out@ == s@,
{
    let mut out: Vec<char> = Vec::new();
    for c in it: s.chars()
        invariant
            it.seq() == s@,
            out@ == it.seq().take(it.index() as int),
    {
        out.push(c);
    }
    assert(out@ =~= s@);
    out
}

/// The characters of a string.
pub fn chars_of_string(s: &String) -> (out: Vec<char>)
    ensures
        out@ == s@,
{
    chars_of(s.as_str())
}

/// The text whose characters are `chars`.
///
/// Trusted: calls std's `String::from_iter` on the characters; its
/// documentation says that it collects the characters in order into a
/// `String`, which is what the contract claims.
#[verifier::external_body]
pub fn text_of(chars: &[char]) -> (out: String)
    ensures
        out@ == chars@,
{
    String::from_iter(chars.iter())
}

/// The text of the one character `c`.
pub fn one_char(c: char) -> (v: Vec<char>)
    ensures
        v@ == seq![c],
{
    let mut v: Vec<char> = Vec::new();
    v.push(c);
    assert(v@ =~= seq![c]);
    v
}

/// The empty text.
pub fn no_chars() -> (v: Vec<char>)
    ensures
        v@ == Seq::<char>::empty(),
{
    let v: Vec<char> = Vec::new();
    assert(v@ =~= Seq::<char>::empty());
    v
}

/// Whether `p` occurs in `s` at index `i`.
pub fn occurs_at_index(s: &[char], p: &[char], i: usize) -> (b: bool)
    requires
        i <= s.len(),
    ensures
        b == occurs_at(s@, p@, i as int),
{
    if p.len() > s.len() - i {
        return false;
    }
    let mut k: usize = 0;
    while k < p.len()
        invariant
            k <= p.len(),
            i + p.len() <= s.len(),
            forall|j: int| 0 <= j < k ==> s@[i + j] == p@[j],
        decreases p.len() - k,
    {
        if s[i + k] != p[k] {
            assert(s@.subrange(i as int, i + p.len())[k as int] != p@[k as int]);
            return false;
        }
        k = k + 1;
    }
    assert(s@.subrange(i as int, i + p.len()) =~= p@);
    true
}

/// Whether `p` occurs anywhere in `s`.
pub fn contains_text(s: &[char], p: &[char]) -> (b: bool)
    ensures
        b == has_text(s@, p@),
{
    if p.len() == 0 {
        assert(s@.subrange(0, 0) =~= p@);
        assert(occurs_at(s@, p@, 0));
        return true;
    }
    let mut i: usize = 0;
    while i < s.len()
        invariant
            i <= s.len(),
            forall|j: int| 0 <= j < i ==> !occurs_at(s@, p@, j),
        decreases s.len() - i,
    {
        if occurs_at_index(s, p, i) {
            return true;
        }
        i = i + 1;
    }
    assert forall|j: int| !occurs_at(s@, p@, j) by {
        if j >= s@.len() {
        }
    }
    false
}

/// Whether two texts are equal.
pub fn same_text(a: &[char], b: &[char]) -> (eq: bool)
    ensures
        eq == (a@ == b@),
{
    if a.len() != b.len() {
        return false;
    }
    let mut k: usize = 0;
    while k < a.len()
        invariant
            k <= a.len(),
            a.len() == b.len(),
            forall|j: int| 0 <= j < k ==> a@[j] == b@[j],
        decreases a.len() - k,
    {
        if a[k] != b[k] {
            return false;
        }
        k = k + 1;
    }
    assert(a@ =~= b@);
    true
}

proof fn lemma_occurs_skip(s: Seq<char>, p: Seq<char>, i: int)
    requires
        0 <= i <= s.len(),
    ensures
        occurs_at(s.skip(i), p, 0) == occurs_at(s, p, i),
{
    if i + p.len() <= s.len() {
        assert(s.skip(i).subrange(0, p.len() as int) =~= s.subrange(i, i + p.len()));
    }
}

/// `s` with every occurrence of `p` replaced by `r`, scanning from the left.
pub fn replace_text(s: &[char], p: &[char], r: &[char]) -> (out: Vec<char>)
    requires
        p.len() > 0,
    ensures
        out@ == replaced(s@, p@, r@),
{
    let mut out: Vec<char> = Vec::new();
    let mut i: usize = 0;
    assert(s@.skip(0) =~= s@);
    while i < s.len()
        invariant
            i <= s.len(),
            p.len() > 0,
            replaced(s@, p@, r@) == out@ + replaced(s@.skip(i as int), p@, r@),
        decreases s.len() - i,
    {
        let ghost rest = s@.skip(i as int);
        proof {
            lemma_occurs_skip(s@, p@, i as int);
        }
        if occurs_at_index(s, p, i) {
            out.extend_from_slice(r);
            assert(rest.skip(p.len() as int) =~= s@.skip(i + p.len()));
            i = i + p.len();
        } else {
            out.push(s[i]);
            assert(rest.skip(1) =~= s@.skip(i + 1));
            proof {
                if rest.len() < p@.len() {
                    assert(replaced(rest.skip(1), p@, r@) == rest.skip(1));
                    assert(rest =~= seq![s@[i as int]] + rest.skip(1));
                }
            }
            i = i + 1;
        }
        assert(out@ + replaced(s@.skip(i as int), p@, r@) =~= replaced(s@, p@, r@));
    }
    assert(s@.skip(i as int) =~= Seq::<char>::empty());
    assert(out@ + Seq::<char>::empty() =~= out@);
    out
}

/// `s` begins with `p`.
pub open spec fn begins_with(s: Seq<char>, p: Seq<char>) -> bool {
    p.len() <= s.len() && s.take(p.len() as int) == p
}

/// Whether `s` begins with `p`.
pub fn starts_with_text(s: &[char], p: &[char]) -> (b: bool)
    ensures
        b == begins_with(s@, p@),
{
    if p.len() > s.len() {
        return false;
    }
    let r = occurs_at_index(s, p, 0);
    assert(s@.subrange(0, p@.len() as int) =~= s@.take(p@.len() as int));
    r
}

/// The index of the first `c` in `s`, or -1 where `s` holds no `c`.
pub open spec fn first_index(s: Seq<char>, c: char) -> int
    decreases s.len(),
{
    if s.len() == 0 {
        -1
    } else if s[0] == c {
        0
    } else {
        let k = first_index(s.drop_first(), c);
        if k < 0 {
            -1
        } else {
            k + 1
        }
    }
}

/// The index of the last `c` in `s`, or -1 where `s` holds no `c`.
pub open spec fn last_index(s: Seq<char>, c: char) -> int
    decreases s.len(),
{
    if s.len() == 0 {
        -1
    } else if s.last() == c {
        s.len() - 1
    } else {
        last_index(s.drop_last(), c)
    }
}

/// What `first_index` is: the first position of `c`, or -1.
pub proof fn lemma_first_index(s: Seq<char>, c: char)
    ensures
        -1 <= first_index(s, c) < s.len(),
        first_index(s, c) >= 0 ==> s[first_index(s, c)] == c,
        forall|j: int| 0 <= j < s.len() && (first_index(s, c) < 0 || j < first_index(s, c))
            ==> s[j] != c,
    decreases s.len(),
{
    if s.len() > 0 && s[0] != c {
        lemma_first_index(s.drop_first(), c);
        assert forall|j: int| 0 <= j < s.len() && (first_index(s, c) < 0 || j < first_index(s, c))
            implies s[j] != c by {
            if j > 0 {
                assert(s[j] == s.drop_first()[j - 1]);
            }
        }
    }
}

/// What `last_index` is: the last position of `c`, or -1.
pub proof fn lemma_last_index(s: Seq<char>, c: char)
    ensures
        -1 <= last_index(s, c) < s.len(),
        last_index(s, c) >= 0 ==> s[last_index(s, c)] == c,
        forall|j: int| last_index(s, c) < j < s.len() && 0 <= j ==> s[j] != c,
    decreases s.len(),
{
    if s.len() > 0 && s.last() != c {
        lemma_last_index(s.drop_last(), c);
        assert forall|j: int| last_index(s, c) < j < s.len() && 0 <= j implies s[j] != c by {
            if j < s.len() - 1 {
                assert(s[j] == s.drop_last()[j]);
            }
        }
    }
}

/// `first_index` is the position found by a scan from the left.
proof fn lemma_first_index_at(s: Seq<char>, c: char, k: int)
    requires
        0 <= k <= s.len(),
        forall|j: int| 0 <= j < k ==> s[j] != c,
        k < s.len() ==> s[k] == c,
    ensures
        first_index(s, c) == if k < s.len() { k } else { -1 },
    decreases s.len(),
{
    if s.len() > 0 && k > 0 {
        lemma_first_index_at(s.drop_first(), c, k - 1);
    }
}

/// `line` without one final carriage return.
pub open spec fn without_cr(line: Seq<char>) -> Seq<char> {
    if line.len() > 0 && line.last() == '\r' {
        line.drop_last()
    } else {
        line
    }
}

/// The lines of `s`: the pieces between line feeds, a carriage return just
/// before a line feed dropped, and no empty piece after a final line feed.
pub open spec fn lines_of(s: Seq<char>) -> Seq<Seq<char>>
    decreases s.len(),
{
    if s.len() == 0 {
        Seq::empty()
    } else {
        let k = first_index(s, '\n');
        if k < 0 {
            seq![s]
        } else {
            proof {
                lemma_first_index(s, '\n');
            }
            seq![without_cr(s.take(k))] + lines_of(s.skip(k + 1))
        }
    }
}

/// The deep view of a text is its view.
pub proof fn lemma_chars_deep_view(v: Vec<char>)
    ensures
        v.deep_view() == v@,
{
    assert(v.deep_view() =~= v@);
}

/// The characters of `s` from `from` up to `to`.
pub fn slice_text(s: &[char], from: usize, to: usize) -> (out: Vec<char>)
    requires
        from <= to <= s.len(),
    ensures
        out@ == s@.subrange(from as int, to as int),
{
    let mut out: Vec<char> = Vec::new();
    let mut i = from;
    while i < to
        invariant
            from <= i <= to <= s.len(),
            out@ == s@.subrange(from as int, i as int),
        decreases to - i,
    {
        out.push(s[i]);
        i = i + 1;
        assert(out@ =~= s@.subrange(from as int, i as int));
    }
    out
}

/// The line of `s` from `from` up to `to`, a final carriage return dropped.
fn line_without_cr(s: &[char], from: usize, to: usize) -> (out: Vec<char>)
    requires
        from <= to <= s.len(),
    ensures
        out@ == without_cr(s@.subrange(from as int, to as int)),
{
    if to > from && s[to - 1] == '\r' {
        let out = slice_text(s, from, to - 1);
        assert(out@ =~= s@.subrange(from as int, to as int).drop_last());
        out
    } else {
        slice_text(s, from, to)
    }
}

/// The lines of `s`, as `str::lines` gives them.
pub fn lines(s: &[char]) -> (out: Vec<Vec<char>>)
    ensures
        out.deep_view() == lines_of(s@),
{
    let mut out: Vec<Vec<char>> = Vec::new();
    let mut start: usize = 0;
    let mut i: usize = 0;
    assert(s@.skip(0) =~= s@);
    while i < s.len()
        invariant
            start <= i <= s.len(),
            lines_of(s@) == out.deep_view() + lines_of(s@.skip(start as int)),
            forall|j: int| start <= j < i ==> s@[j] != '\n',
        decreases s.len() - i,
    {
        if s[i] == '\n' {
            let ghost rest = s@.skip(start as int);
            proof {
                lemma_first_index_at(rest, '\n', i - start);
                assert(rest.take(i - start) =~= s@.subrange(start as int, i as int));
                assert(rest.skip(i - start + 1) =~= s@.skip(i + 1));
            }
            let line = line_without_cr(s, start, i);
            let ghost before = out.deep_view();
            out.push(line);
            proof {
                lemma_chars_deep_view(line);
            }
            assert(out.deep_view() =~= before.push(line@));
            assert(out.deep_view() + lines_of(s@.skip(i + 1)) =~= before + lines_of(rest));
            start = i + 1;
        }
        i = i + 1;
    }
    let ghost rest = s@.skip(start as int);
    if start < s.len() {
        proof {
            lemma_first_index_at(rest, '\n', rest.len() as int);
        }
        let line = slice_text(s, start, s.len());
        let ghost before = out.deep_view();
        assert(line@ =~= rest);
        out.push(line);
        proof {
            lemma_chars_deep_view(line);
        }
        assert(out.deep_view() =~= before.push(line@));
        assert(out.deep_view() =~= before + lines_of(rest));
    } else {
        assert(rest.len() == 0);
        assert(out.deep_view() + lines_of(rest) =~= out.deep_view());
    }
    out
}

/// The last index of `c` in `s`, if any.
pub fn find_last(s: &[char], c: char) -> (r: Option<usize>)
    ensures
        match r {
            None => last_index(s@, c) == -1,
            Some(k) => k == last_index(s@, c),
        },
{
    let mut i = s.len();
    assert(s@.take(s@.len() as int) =~= s@);
    while i > 0
        invariant
            i <= s.len(),
            last_index(s@, c) == last_index(s@.take(i as int), c),
        decreases i,
    {
        let ghost t = s@.take(i as int);
        assert(t.drop_last() =~= s@.take(i - 1));
        if s[i - 1] == c {
            return Some(i - 1);
        }
        i = i - 1;
    }
    None
}

/// The first index of `c` in `s`, if any.
pub fn find_first(s: &[char], c: char) -> (r: Option<usize>)
    ensures
        match r {
            None => first_index(s@, c) == -1,
            Some(k) => k == first_index(s@, c),
        },
{
    let mut i: usize = 0;
    while i < s.len()
        invariant
            i <= s.len(),
            forall|j: int| 0 <= j < i ==> s@[j] != c,
        decreases s.len() - i,
    {
        if s[i] == c {
            proof {
                lemma_first_index_at(s@, c, i as int);
            }
            return Some(i);
        }
        i = i + 1;
    }
    proof {
        lemma_first_index_at(s@, c, s@.len() as int);
    }
    None
}

/// A text in which the pattern does not occur is left as it is by
/// replacement.
pub proof fn replace_without_occurrence(s: Seq<char>, p: Seq<char>, r: Seq<char>)
    requires
        !has_text(s, p),
    ensures
        replaced(s, p, r) == s,
    decreases s.len(),
{
    if p.len() == 0 || s.len() < p.len() {
    } else {
        assert(!occurs_at(s, p, 0));
        let t = s.skip(1);
        assert forall|j: int| !occurs_at(t, p, j) by {
            if occurs_at(t, p, j) {
                assert(s.subrange(j + 1, j + 1 + p.len()) =~= t.subrange(j, j + p.len()));
                assert(occurs_at(s, p, j + 1));
            }
        }
        replace_without_occurrence(t, p, r);
        assert(s =~= seq![s[0]] + t);
    }
}

/// Each line of `ls` followed by a line feed, one after the other.
pub open spec fn joined_lines(ls: Seq<Seq<char>>) -> Seq<char>
    decreases ls.len(),
{
    if ls.len() == 0 {
        Seq::empty()
    } else {
        joined_lines(ls.drop_last()) + ls.last() + seq!['\n']
    }
}

proof fn lemma_joined_lines_cons(a: Seq<char>, rest: Seq<Seq<char>>)
    ensures
        joined_lines(seq![a] + rest) == a + seq!['\n'] + joined_lines(rest),
    decreases rest.len(),
{
    let all = seq![a] + rest;
    if rest.len() == 0 {
        assert(all.drop_last() =~= Seq::<Seq<char>>::empty());
        assert(all.last() == a);
        assert(joined_lines(all.drop_last()) == Seq::<char>::empty());
        assert(joined_lines(rest) == Seq::<char>::empty());
        assert(joined_lines(all) =~= a + seq!['\n'] + joined_lines(rest));
    } else {
        assert(all.drop_last() =~= seq![a] + rest.drop_last());
        lemma_joined_lines_cons(a, rest.drop_last());
        assert(joined_lines(all) =~= a + seq!['\n'] + joined_lines(rest));
    }
}

/// In a text without carriage returns, the lines followed each by a line
/// feed give the text back, with a line feed added where it lacked a final
/// one.
pub proof fn lines_rejoin(s: Seq<char>)
    requires
        !s.contains('\r'),
    ensures
        joined_lines(lines_of(s)) == if s.len() == 0 || s.last() == '\n' {
            s
        } else {
            s.push('\n')
        },
    decreases s.len(),
{
    if s.len() > 0 {
        lemma_first_index(s, '\n');
        let k = first_index(s, '\n');
        if k < 0 {
            assert(seq![s].drop_last() =~= Seq::<Seq<char>>::empty());
            assert(seq![s].last() == s);
            assert(joined_lines(seq![s].drop_last()) == Seq::<char>::empty());
            assert(joined_lines(seq![s]) =~= s.push('\n'));
        } else {
            let rest = s.skip(k + 1);
            let head = s.take(k);
            if head.len() > 0 {
                assert(head.last() == s[k - 1]);
                assert(s.contains(s[k - 1]));
            }
            assert(without_cr(head) == head);
            assert forall|c: char| rest.contains(c) implies s.contains(c) by {
                let j = choose|j: int| 0 <= j < rest.len() && rest[j] == c;
                assert(s[k + 1 + j] == c);
            }
            lines_rejoin(rest);
            lemma_joined_lines_cons(head, lines_of(rest));
            if rest.len() == 0 {
                assert(s =~= head + seq!['\n']);
                assert(joined_lines(lines_of(rest)) =~= Seq::<char>::empty());
            } else {
                assert(rest.last() == s.last());
                assert(s =~= head + seq!['\n'] + rest);
                if s.last() != '\n' {
                    assert(s.push('\n') =~= head + seq!['\n'] + rest.push('\n'));
                }
            }
        }
    }
}

} // verus!

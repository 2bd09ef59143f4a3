use vstd::prelude::*;
use vstd::string::*;

verus! {

/// The lines of a text: maximal spans delimited by `'\n'`. The delimiter
/// belongs to no line, a final unterminated span is still a line, and the
/// empty text has no lines. No other character is special; in particular a
/// carriage return stays part of its line's content.
pub open spec fn line_seqs(s: Seq<char>) -> Seq<Seq<char>>
    decreases s.len(),
{
    if s.len() == 0 {
        Seq::empty()
    } else if s[0] == '\n' {
        seq![Seq::<char>::empty()] + line_seqs(s.skip(1))
    } else {
        let rest = line_seqs(s.skip(1));
        if rest.len() == 0 {
            seq![seq![s[0]]]
        } else {
            seq![seq![s[0]] + rest[0]] + rest.skip(1)
        }
    }
}

/// `needle` occurs in `hay` as a contiguous run starting at index `i`.
pub open spec fn match_at(hay: Seq<char>, needle: Seq<char>, i: int) -> bool {
    &&& 0 <= i
    &&& i + needle.len() <= hay.len()
    &&& hay.subrange(i, i + needle.len()) == needle
}

/// `needle` occurs somewhere in `hay` as a contiguous run. The empty
/// needle occurs in every text.
pub open spec fn contains_seq(hay: Seq<char>, needle: Seq<char>) -> bool {
    exists|i: int| match_at(hay, needle, i)
}

/// A text without a newline is one single line.
pub proof fn lemma_line_seqs_no_newline(s: Seq<char>)
    requires
        s.len() > 0,
        forall|k: int| 0 <= k < s.len() ==> s[k] != '\n',
    ensures
        line_seqs(s) == seq![s],
    decreases s.len(),
{
    if s.len() == 1 {
        assert(s.skip(1) =~= Seq::<char>::empty());
        assert(line_seqs(s.skip(1)) =~= Seq::<Seq<char>>::empty());
        assert(seq![s[0]] =~= s);
        assert(line_seqs(s) =~= seq![s]);
    } else {
        lemma_line_seqs_no_newline(s.skip(1));
        assert(seq![s[0]] + s.skip(1) =~= s);
        assert((seq![s.skip(1)]).skip(1) =~= Seq::<Seq<char>>::empty());
        assert(line_seqs(s) =~= seq![s]);
    }
}

/// Splitting at the first newline: the span before it is the first line,
/// and the remaining lines are those of the text after it.
pub proof fn lemma_line_seqs_split(s: Seq<char>, j: int)
    requires
        0 <= j < s.len(),
        s[j] == '\n',
        forall|k: int| 0 <= k < j ==> s[k] != '\n',
    ensures
        line_seqs(s) == seq![s.subrange(0, j)] + line_seqs(s.skip(j + 1)),
    decreases j,
{
    if j == 0 {
        assert(s.subrange(0, 0) =~= Seq::<char>::empty());
        assert(line_seqs(s) =~= seq![s.subrange(0, 0)] + line_seqs(s.skip(1)));
    } else {
        let t = s.skip(1);
        assert(forall|k: int| 0 <= k < j - 1 ==> t[k] == s[k + 1]);
        lemma_line_seqs_split(t, j - 1);
        let rest = line_seqs(t);
        assert(rest.len() >= 1);
        assert(rest[0] == t.subrange(0, j - 1));
        assert(seq![s[0]] + t.subrange(0, j - 1) =~= s.subrange(0, j));
        assert(rest.skip(1) =~= line_seqs(t.skip(j)));
        assert(t.skip(j) =~= s.skip(j + 1));
        assert(line_seqs(s) =~= seq![s.subrange(0, j)] + line_seqs(s.skip(j + 1)));
    }
}

/// `a` is obtained from `b` by deleting zero or more elements: the elements
/// of `a` all occur in `b`, in the same relative order and multiplicity.
pub open spec fn is_subsequence_of(a: Seq<Seq<char>>, b: Seq<Seq<char>>) -> bool
    decreases b.len(),
{
    if a.len() == 0 {
        true
    } else if b.len() == 0 {
        false
    } else if a.last() == b.last() {
        is_subsequence_of(a.drop_last(), b.drop_last())
    } else {
        is_subsequence_of(a, b.drop_last())
    }
}

/// A subsequence stays one after its last element is dropped.
pub proof fn lemma_subsequence_drop_last(a: Seq<Seq<char>>, b: Seq<Seq<char>>)
    requires
        is_subsequence_of(a, b),
        a.len() > 0,
    ensures
        is_subsequence_of(a.drop_last(), b),
    decreases b.len(),
{
    if a.last() == b.last() {
        if a.drop_last().len() > 0 {
            if a.drop_last().last() == b.last() {
                lemma_subsequence_drop_last(a.drop_last(), b.drop_last());
            }
        }
    } else {
        lemma_subsequence_drop_last(a, b.drop_last());
        if a.drop_last().len() > 0 && a.drop_last().last() == b.last() {
            lemma_subsequence_drop_last(a.drop_last(), b.drop_last());
        }
    }
}

/// A subsequence stays one when the longer sequence grows at the end.
pub proof fn lemma_subsequence_push(a: Seq<Seq<char>>, b: Seq<Seq<char>>, x: Seq<char>)
    requires
        is_subsequence_of(a, b),
    ensures
        is_subsequence_of(a, b.push(x)),
{
    if a.len() > 0 {
        assert(b.push(x).drop_last() =~= b);
        if a.last() == x {
            lemma_subsequence_drop_last(a, b);
        }
    }
}

/// Whatever survives a filter forms an order-preserving subsequence of the
/// original: filtering never reorders or duplicates.
pub proof fn lemma_filter_is_subsequence(s: Seq<Seq<char>>, p: spec_fn(Seq<char>) -> bool)
    ensures
        is_subsequence_of(s.filter(p), s),
    decreases s.len(),
{
    reveal(Seq::filter);
    if s.len() > 0 {
        lemma_filter_is_subsequence(s.drop_last(), p);
        let f = s.drop_last().filter(p);
        if p(s.last()) {
            assert(f.push(s.last()).drop_last() =~= f);
        } else {
            lemma_subsequence_push(f, s.drop_last(), s.last());
            assert(s.drop_last().push(s.last()) =~= s);
        }
    }
}

/// A filter whose predicate holds of every element keeps the whole sequence.
pub proof fn lemma_filter_all(s: Seq<Seq<char>>, p: spec_fn(Seq<char>) -> bool)
    requires
        forall|i: int| 0 <= i < s.len() ==> p(s[i]),
    ensures
        s.filter(p) == s,
    decreases s.len(),
{
    reveal(Seq::filter);
    if s.len() > 0 {
        assert(forall|i: int| 0 <= i < s.drop_last().len() ==> s.drop_last()[i] == s[i]);
        lemma_filter_all(s.drop_last(), p);
        assert(s.drop_last().push(s.last()) =~= s);
    }
}

/// A filter whose predicate holds of no element keeps nothing.
pub proof fn lemma_filter_none(s: Seq<Seq<char>>, p: spec_fn(Seq<char>) -> bool)
    requires
        forall|i: int| 0 <= i < s.len() ==> !p(s[i]),
    ensures
        s.filter(p) == Seq::<Seq<char>>::empty(),
    decreases s.len(),
{
    reveal(Seq::filter);
    if s.len() > 0 {
        assert(forall|i: int| 0 <= i < s.drop_last().len() ==> s.drop_last()[i] == s[i]);
        lemma_filter_none(s.drop_last(), p);
    }
}

/// Filtering by a stronger predicate gives the same result whether it is
/// applied to the sequence itself or to the outcome of a weaker filter.
pub proof fn lemma_filter_refine(
    s: Seq<Seq<char>>,
    p: spec_fn(Seq<char>) -> bool,
    q: spec_fn(Seq<char>) -> bool,
)
    requires
        forall|x: Seq<char>| #[trigger] p(x) ==> q(x),
    ensures
        s.filter(p) == s.filter(q).filter(p),
    decreases s.len(),
{
    reveal(Seq::filter);
    if s.len() > 0 {
        lemma_filter_refine(s.drop_last(), p, q);
        if q(s.last()) {
            let f = s.drop_last().filter(q);
            assert(f.push(s.last()).drop_last() =~= f);
        }
    }
}

/// Splits a text into its lines, each borrowed from the original text.
pub fn split_lines<'a>(contents: &'a str) -> (r: Vec<&'a str>)
    ensures
        r.deep_view() == line_seqs(contents@),
{
    let n: usize = contents.unicode_len();
    let mut out: Vec<&'a str> = Vec::new();
    let mut start: usize = 0;
    let mut i: usize = 0;
    proof {
        assert(contents@.skip(0) =~= contents@);
        assert(out.deep_view() =~= Seq::<Seq<char>>::empty());
        assert(out.deep_view() + line_seqs(contents@) =~= line_seqs(contents@));
    }
    while i < n
        invariant
            n == contents@.len(),
            start <= i <= n,
            forall|k: int| start <= k < i ==> contents@[k] != '\n',
            line_seqs(contents@) == out.deep_view() + line_seqs(contents@.skip(start as int)),
        decreases n - i,
    {
        let c = contents.get_char(i);
        if c == '\n' {
            let ghost prev = out.deep_view();
            let line = contents.substring_char(start, i);
            out.push(line);
            proof {
                lemma_line_seqs_split(contents@.skip(start as int), i - start);
                assert(contents@.skip(start as int).subrange(0, i - start) =~= contents@.subrange(
                    start as int,
                    i as int,
                ));
                assert(contents@.skip(start as int).skip(i - start + 1) =~= contents@.skip(
                    i as int + 1,
                ));
                assert(out.deep_view() =~= prev.push(contents@.subrange(start as int, i as int)));
                assert(line_seqs(contents@) =~= out.deep_view() + line_seqs(
                    contents@.skip(i as int + 1),
                ));
            }
            start = i + 1;
        }
        i = i + 1;
    }
    if start < n {
        let ghost prev = out.deep_view();
        let line = contents.substring_char(start, n);
        out.push(line);
        proof {
            lemma_line_seqs_no_newline(contents@.skip(start as int));
            assert(contents@.skip(start as int) =~= contents@.subrange(start as int, n as int));
            assert(out.deep_view() =~= prev.push(contents@.subrange(start as int, n as int)));
            assert(line_seqs(contents@) =~= out.deep_view());
        }
    } else {
        proof {
            assert(contents@.skip(start as int) =~= Seq::<char>::empty());
            assert(line_seqs(contents@.skip(start as int)) =~= Seq::<Seq<char>>::empty());
            assert(line_seqs(contents@) =~= out.deep_view());
        }
    }
    out
}

/// Decides `contains_seq` for real strings: does `needle` occur in `hay`
/// as a contiguous substring?
pub fn contains_str(hay: &str, needle: &str) -> (r: bool)
    ensures
        r == contains_seq(hay@, needle@),
{
    let n: usize = hay.unicode_len();
    let m: usize = needle.unicode_len();
    if m == 0 {
        proof {
            assert(hay@.subrange(0, 0) =~= needle@);
            assert(match_at(hay@, needle@, 0));
        }
        return true;
    }
    if m > n {
        proof {
            assert(forall|t: int| !match_at(hay@, needle@, t));
        }
        return false;
    }
    let limit: usize = n - m;
    let mut i: usize = 0;
    while i <= limit
        invariant
            n == hay@.len(),
            m == needle@.len(),
            0 < m <= n,
            limit == n - m,
            i <= limit + 1,
            forall|t: int| 0 <= t < i ==> !match_at(hay@, needle@, t),
        decreases limit - i + 1,
    {
        let mut j: usize = 0;
        let mut mismatch = false;
        while j < m
            invariant
                n == hay@.len(),
                m == needle@.len(),
                0 < m <= n,
                i + m <= n,
                j <= m,
                !mismatch ==> forall|k: int| 0 <= k < j ==> hay@[i + k] == needle@[k],
                mismatch ==> !match_at(hay@, needle@, i as int),
            decreases m - j,
        {
            if mismatch {
                j = m;
            } else {
                if hay.get_char(i + j) != needle.get_char(j) {
                    proof {
                        if match_at(hay@, needle@, i as int) {
                            assert(hay@.subrange(i as int, i + m)[j as int] == needle@[j as int]);
                        }
                    }
                    mismatch = true;
                }
                j = j + 1;
            }
        }
        if !mismatch {
            proof {
                assert(hay@.subrange(i as int, i + m) =~= needle@);
                assert(match_at(hay@, needle@, i as int));
            }
            return true;
        }
        i = i + 1;
    }
    proof {
        assert forall|t: int| !match_at(hay@, needle@, t) by {
            if 0 <= t && t + m <= n {
                assert(!match_at(hay@, needle@, t));
            }
        }
    }
    false
}

} // verus!

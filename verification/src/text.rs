use vstd::prelude::*;

verus! {

/// `needle` occurs in `hay` starting at index `i`.
pub open spec fn matches_at(hay: Seq<char>, needle: Seq<char>, i: int) -> bool {
    0 <= i && i + needle.len() <= hay.len() && hay.subrange(i, i + needle.len() as int)
        =~= needle
}

/// `needle` occurs somewhere in `hay`.
pub open spec fn has_sub(hay: Seq<char>, needle: Seq<char>) -> bool {
    exists|i: int| matches_at(hay, needle, i)
}

/// Substring search over characters.
pub fn contains_str(hay: &str, needle: &str) -> (r: bool)
    ensures
        r == has_sub(hay@, needle@),
{
    let n = hay.unicode_len();
    let m = needle.unicode_len();
    if m > n {
        assert(forall|i: int| !matches_at(hay@, needle@, i));
        return false;
    }
    let mut i: usize = 0;
    while i <= n - m
        invariant
            n == hay@.len(),
            m == needle@.len(),
            m <= n,
            i <= n - m + 1,
            forall|k: int| 0 <= k < i ==> !matches_at(hay@, needle@, k),
        decreases n - m + 1 - i,
    {
        let mut j: usize = 0;
        let mut eq = true;
        while j < m
            invariant
                n == hay@.len(),
                m == needle@.len(),
                i + m <= n,
                j <= m,
                eq <==> (forall|p: int| 0 <= p < j ==> hay@[i + p] == needle@[p]),
            decreases m - j,
        {
            if hay.get_char(i + j) != needle.get_char(j) {
                eq = false;
                j = m;
            } else {
                assert(hay@[i + j] == needle@[j as int]);
                j = j + 1;
            }
        }
        if eq {
            assert(hay@.subrange(i as int, i + m) =~= needle@);
            assert(matches_at(hay@, needle@, i as int));
            return true;
        }
        assert(!matches_at(hay@, needle@, i as int)) by {
            if matches_at(hay@, needle@, i as int) {
                let p = choose|p: int| 0 <= p < m && hay@[i + p] != needle@[p];
                assert(hay@.subrange(i as int, i + m)[p] == needle@[p]);
            }
        }
        i = i + 1;
    }
    assert(forall|k: int| 0 <= k < i ==> !matches_at(hay@, needle@, k));
    assert(forall|k: int| k >= i ==> !matches_at(hay@, needle@, k));
    false
}

/// The pieces of `s` between occurrences of `sep`, in order.  Separators are
/// dropped and every piece is kept, so a leading, trailing or doubled
/// separator yields an empty piece; the empty text is one empty piece.
pub open spec fn split_on(s: Seq<char>, sep: char) -> Seq<Seq<char>>
    decreases s.len(),
{
    if s.len() == 0 {
        seq![Seq::<char>::empty()]
    } else if s[0] == sep {
        seq![Seq::<char>::empty()] + split_on(s.drop_first(), sep)
    } else {
        let rest = split_on(s.drop_first(), sep);
        seq![seq![s[0]] + rest[0]] + rest.drop_first()
    }
}

pub proof fn lemma_split_on_len(s: Seq<char>, sep: char)
    ensures
        split_on(s, sep).len() >= 1,
    decreases s.len(),
{
    if s.len() == 0 {
    } else if s[0] == sep {
    } else {
        lemma_split_on_len(s.drop_first(), sep);
    }
}

/// A text without the separator splits into itself as the one piece.
pub proof fn lemma_split_on_no_sep(s: Seq<char>, sep: char)
    requires
        forall|i: int| 0 <= i < s.len() ==> s[i] != sep,
    ensures
        split_on(s, sep) == seq![s],
    decreases s.len(),
{
    if s.len() == 0 {
        assert(Seq::<char>::empty() =~= s);
        assert(split_on(s, sep) =~~= seq![s]);
    } else {
        assert(forall|i: int|
            0 <= i < s.drop_first().len() ==> s.drop_first()[i] == s[i + 1] && s[i + 1] != sep);
        lemma_split_on_no_sep(s.drop_first(), sep);
        let rest = split_on(s.drop_first(), sep);
        assert(rest[0] == s.drop_first());
        assert(seq![s[0]] + s.drop_first() =~= s);
        assert(rest.drop_first() =~= Seq::<Seq<char>>::empty());
        assert(split_on(s, sep) =~~= seq![s]);
    }
}

/// Splitting at the first separator: a separator-free prefix becomes the
/// first piece, and the rest splits on its own.
pub proof fn lemma_split_on_found(x: Seq<char>, sep: char, y: Seq<char>)
    requires
        forall|i: int| 0 <= i < x.len() ==> x[i] != sep,
    ensures
        split_on(x + seq![sep] + y, sep) == seq![x] + split_on(y, sep),
    decreases x.len(),
{
    let s = x + seq![sep] + y;
    if x.len() == 0 {
        assert(s[0] == sep);
        assert(s.drop_first() =~= y);
        assert(x =~= Seq::<char>::empty());
        assert(split_on(s, sep) =~~= seq![x] + split_on(y, sep));
    } else {
        assert(s[0] == x[0]);
        assert(s[0] != sep);
        assert(s.drop_first() =~= x.drop_first() + seq![sep] + y);
        assert(forall|i: int|
            0 <= i < x.drop_first().len() ==> x.drop_first()[i] == x[i + 1] && x[i + 1] != sep);
        lemma_split_on_found(x.drop_first(), sep, y);
        lemma_split_on_len(y, sep);
        let rest = split_on(s.drop_first(), sep);
        assert(rest == seq![x.drop_first()] + split_on(y, sep));
        assert(rest[0] == x.drop_first());
        assert(rest.drop_first() =~~= split_on(y, sep));
        assert(seq![s[0]] + rest[0] =~= x);
        assert(split_on(s, sep) =~~= seq![x] + split_on(y, sep));
    }
}

/// Splits `s` at every occurrence of `sep`, keeping every piece.
pub fn split_at_char(s: &str, sep: char) -> (r: Vec<String>)
    ensures
        r.deep_view() == split_on(s@, sep),
{
    let n = s.unicode_len();
    let mut out: Vec<String> = Vec::new();
    let mut start: usize = 0;
    let mut i: usize = 0;
    proof {
        assert(s@.subrange(0, n as int) =~= s@);
    }
    while i < n
        invariant
            n == s@.len(),
            start <= i <= n,
            forall|p: int| start <= p < i ==> s@[p] != sep,
            split_on(s@, sep) =~~= out.deep_view() + split_on(
                s@.subrange(start as int, n as int),
                sep,
            ),
        decreases n - i,
    {
        if s.get_char(i) == sep {
            let piece = s.substring_char(start, i);
            let owned = String::from_str(piece);
            proof {
                let tail = s@.subrange(start as int, n as int);
                assert(tail =~= s@.subrange(start as int, i as int) + seq![sep] + s@.subrange(
                    i + 1,
                    n as int,
                ));
                assert(forall|p: int|
                    0 <= p < i - start ==> s@.subrange(start as int, i as int)[p] == s@[start + p]
                        && s@[start + p] != sep);
                lemma_split_on_found(
                    s@.subrange(start as int, i as int),
                    sep,
                    s@.subrange(i + 1, n as int),
                );
            }
            let ghost old_out = out.deep_view();
            out.push(owned);
            proof {
                assert(out.deep_view() =~~= old_out + seq![s@.subrange(start as int, i as int)]);
            }
            start = i + 1;
        }
        i = i + 1;
    }
    let piece = s.substring_char(start, n);
    let owned = String::from_str(piece);
    proof {
        assert(forall|p: int|
            0 <= p < n - start ==> s@.subrange(start as int, n as int)[p] == s@[start + p] && s@[
                start + p
            ] != sep);
        lemma_split_on_no_sep(s@.subrange(start as int, n as int), sep);
    }
    let ghost old_out = out.deep_view();
    out.push(owned);
    proof {
        assert(out.deep_view() =~~= old_out + seq![s@.subrange(start as int, n as int)]);
        assert(out.deep_view() =~~= split_on(s@, sep));
    }
    out
}

/// The lines of a text: pieces between `'\n'` characters, one optional final
/// `'\n'` terminating rather than separating, as in line-oriented files.
/// The empty text has no lines.
pub open spec fn lines_of(s: Seq<char>) -> Seq<Seq<char>> {
    if s.len() == 0 {
        Seq::<Seq<char>>::empty()
    } else if s.last() == '\n' {
        split_on(s.drop_last(), '\n')
    } else {
        split_on(s, '\n')
    }
}

/// Lines joined back into a text, each line followed by one `'\n'`.
pub open spec fn rejoin(ls: Seq<Seq<char>>) -> Seq<char>
    decreases ls.len(),
{
    if ls.len() == 0 {
        Seq::<char>::empty()
    } else {
        ls[0] + seq!['\n'] + rejoin(ls.drop_first())
    }
}

pub proof fn lemma_rejoin_push(ls: Seq<Seq<char>>, l: Seq<char>)
    ensures
        rejoin(ls.push(l)) == rejoin(ls) + l + seq!['\n'],
    decreases ls.len(),
{
    if ls.len() == 0 {
        assert(ls.push(l)[0] == l);
        assert(ls.push(l).drop_first() =~= Seq::<Seq<char>>::empty());
        assert(rejoin(Seq::<Seq<char>>::empty()) == Seq::<char>::empty());
        assert(rejoin(ls.push(l)) == l + seq!['\n'] + Seq::<char>::empty());
        assert(rejoin(ls) == Seq::<char>::empty());
        assert(l + seq!['\n'] + Seq::<char>::empty() =~= Seq::<char>::empty() + l + seq!['\n']);
    } else {
        assert(ls.push(l).drop_first() =~= ls.drop_first().push(l));
        assert(ls.push(l)[0] == ls[0]);
        assert(ls.push(l).len() == ls.len() + 1);
        lemma_rejoin_push(ls.drop_first(), l);
        let a = ls[0];
        let b = rejoin(ls.drop_first());
        assert(rejoin(ls.push(l)) == a + seq!['\n'] + (b + l + seq!['\n']));
        assert(rejoin(ls) == a + seq!['\n'] + b);
        assert(a + seq!['\n'] + (b + l + seq!['\n']) =~= (a + seq!['\n'] + b) + l + seq!['\n']);
    }
}

/// The first whitespace-delimited token of the line is exactly `route`:
/// the line is `route` itself or begins with `route` and a space.
pub open spec fn is_route_line(l: Seq<char>) -> bool {
    l == "route"@ || (l.len() > 5 && l.subrange(0, 5) == "route"@ && l[5] == ' ')
}

/// Splits a text into its lines.
pub fn split_lines(s: &str) -> (r: Vec<String>)
    ensures
        r.deep_view() == lines_of(s@),
{
    let n = s.unicode_len();
    if n == 0 {
        let r: Vec<String> = Vec::new();
        proof {
            assert(r.deep_view() =~~= lines_of(s@));
        }
        return r;
    }
    if s.get_char(n - 1) == '\n' {
        let body = s.substring_char(0, n - 1);
        proof {
            assert(body@ =~= s@.drop_last());
        }
        split_at_char(body, '\n')
    } else {
        split_at_char(s, '\n')
    }
}

/// Decides whether the line's first token is `route`.
pub fn line_is_route(l: &str) -> (r: bool)
    ensures
        r == is_route_line(l@),
{
    proof {
        reveal_strlit("route");
    }
    let n = l.unicode_len();
    if n < 5 {
        return false;
    }
    if l.get_char(0) != 'r' || l.get_char(1) != 'o' || l.get_char(2) != 'u' || l.get_char(3) != 't'
        || l.get_char(4) != 'e' {
        proof {
            assert(!(l@ == "route"@)) by {
                if l@ == "route"@ {
                    assert(l@[0] == 'r' && l@[1] == 'o' && l@[2] == 'u' && l@[3] == 't' && l@[4]
                        == 'e');
                }
            }
            assert(!(l@.len() > 5 && l@.subrange(0, 5) == "route"@ && l@[5] == ' ')) by {
                if l@.len() > 5 && l@.subrange(0, 5) == "route"@ {
                    assert(forall|k: int| 0 <= k < 5 ==> l@.subrange(0, 5)[k] == l@[k]);
                }
            }
        }
        return false;
    }
    if n == 5 {
        proof {
            assert(l@ =~= "route"@);
        }
        true
    } else {
        let r = l.get_char(5) == ' ';
        proof {
            assert(l@.subrange(0, 5) =~= "route"@);
        }
        r
    }
}

} // verus!

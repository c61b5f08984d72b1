use vstd::prelude::*;

verus! {

pub open spec fn is_digit(c: char) -> bool {
    '0' <= c && c <= '9'
}

pub open spec fn digit_val(c: char) -> int {
    c as int - '0' as int
}

/// Decimal value of a digit string, most significant digit first.
pub open spec fn dec_val(s: Seq<char>) -> int
    decreases s.len(),
{
    if s.len() == 0 {
        0
    } else {
        dec_val(s.drop_last()) * 10 + digit_val(s.last())
    }
}

/// One group of a dotted-quad address: one to three digits, no superfluous
/// leading zero, value at most 255.
pub open spec fn is_octet(s: Seq<char>) -> bool {
    &&& 1 <= s.len() <= 3
    &&& (forall|i: int| 0 <= i < s.len() ==> is_digit(s[i]))
    &&& (s.len() > 1 ==> s[0] != '0')
    &&& dec_val(s) <= 255
}

/// A textual IPv4 address: exactly four octet groups joined by single dots.
pub open spec fn spec_is_ipv4(s: Seq<char>) -> bool {
    exists|a: int, b: int, c: int|
        {
            &&& 0 <= a < b < c < s.len()
            &&& s[a] == '.' && s[b] == '.' && s[c] == '.'
            &&& is_octet(s.subrange(0, a))
            &&& is_octet(s.subrange(a + 1, b))
            &&& is_octet(s.subrange(b + 1, c))
            &&& is_octet(s.subrange(c + 1, s.len() as int))
        }
}

/// In a well-formed address every dot stands at one of the three joining
/// positions: the four groups around them hold digits only.
proof fn lemma_dot_positions(s: Seq<char>, a: int, b: int, c: int, q: int)
    requires
        0 <= a < b < c < s.len(),
        is_octet(s.subrange(0, a)),
        is_octet(s.subrange(a + 1, b)),
        is_octet(s.subrange(b + 1, c)),
        is_octet(s.subrange(c + 1, s.len() as int)),
        0 <= q < s.len(),
        s[q] == '.',
    ensures
        q == a || q == b || q == c,
{
    assert(!is_digit('.')) by {
        assert('.' as int == 46 && '0' as int == 48);
    }
    if q < a {
        assert(s.subrange(0, a)[q] == s[q]);
    } else if a < q < b {
        assert(s.subrange(a + 1, b)[q - (a + 1)] == s[q]);
    } else if b < q < c {
        assert(s.subrange(b + 1, c)[q - (b + 1)] == s[q]);
    } else if c < q {
        assert(s.subrange(c + 1, s.len() as int)[q - (c + 1)] == s[q]);
    }
}

/// The value of a digit string grows with its length: up to three digits
/// stay below one thousand.
proof fn lemma_dec_val_digits(s: Seq<char>)
    requires
        forall|i: int| 0 <= i < s.len() ==> is_digit(s[i]),
    ensures
        0 <= dec_val(s),
        s.len() <= 1 ==> dec_val(s) <= 9,
        s.len() <= 2 ==> dec_val(s) <= 99,
        s.len() <= 3 ==> dec_val(s) <= 999,
    decreases s.len(),
{
    if s.len() > 0 {
        assert(forall|i: int| 0 <= i < s.drop_last().len() ==> is_digit(s.drop_last()[i]));
        lemma_dec_val_digits(s.drop_last());
        assert(is_digit(s.last()));
    }
}

/// Checks that `s[from..to]` is an octet group.
fn check_octet(s: &str, from: usize, to: usize) -> (r: bool)
    requires
        from <= to <= s@.len(),
    ensures
        r == is_octet(s@.subrange(from as int, to as int)),
{
    let ghost o = s@.subrange(from as int, to as int);
    let n = to - from;
    if n < 1 || n > 3 {
        return false;
    }
    let mut i: usize = 0;
    let mut v: u32 = 0;
    while i < n
        invariant
            1 <= n <= 3,
            n == o.len(),
            to == from + n,
            to <= s@.len(),
            o == s@.subrange(from as int, to as int),
            i <= n,
            forall|p: int| 0 <= p < i ==> is_digit(o[p]),
            v == dec_val(o.subrange(0, i as int)),
        decreases n - i,
    {
        let c = s.get_char(from + i);
        proof {
            assert(c == o[i as int]);
        }
        if c < '0' || c > '9' {
            proof {
                assert(!is_digit(o[i as int]));
            }
            return false;
        }
        proof {
            assert(forall|p: int|
                0 <= p < o.subrange(0, i as int).len() ==> is_digit(o.subrange(0, i as int)[p]));
            lemma_dec_val_digits(o.subrange(0, i as int));
            assert(v <= 99);
            assert(o.subrange(0, i + 1).drop_last() =~= o.subrange(0, i as int));
            assert(o.subrange(0, i + 1).last() == o[i as int]);
            assert(dec_val(o.subrange(0, i + 1)) == dec_val(o.subrange(0, i as int)) * 10
                + digit_val(o[i as int]));
        }
        v = v * 10 + (c as u32 - '0' as u32);
        i = i + 1;
    }
    proof {
        assert(o.subrange(0, n as int) =~= o);
    }
    if n > 1 {
        let c0 = s.get_char(from);
        proof {
            assert(c0 == o[0]);
        }
        if c0 == '0' {
            return false;
        }
    }
    v <= 255
}

/// Decides whether `s` is a textual IPv4 address, exactly as
/// `spec_is_ipv4` states it.
pub fn is_ipv4(s: &str) -> (r: bool)
    ensures
        r == spec_is_ipv4(s@),
{
    let n = s.unicode_len();
    let mut dots: Vec<usize> = Vec::new();
    let mut i: usize = 0;
    while i < n
        invariant
            n == s@.len(),
            i <= n,
            forall|p: int|
                0 <= p < dots@.len() ==> #[trigger] dots@[p] < i && s@[dots@[p] as int] == '.',
            forall|p: int, q: int| 0 <= p < q < dots@.len() ==> dots@[p] < dots@[q],
            forall|q: int|
                0 <= q < i && s@[q] == '.' ==> exists|p: int|
                    0 <= p < dots@.len() && #[trigger] dots@[p] == q,
        decreases n - i,
    {
        if s.get_char(i) == '.' {
            let ghost old_dots = dots@;
            dots.push(i);
            proof {
                assert(forall|q: int|
                    0 <= q < i && s@[q] == '.' ==> exists|p: int|
                        0 <= p < dots@.len() && #[trigger] dots@[p] == q) by {
                    assert(forall|q: int|
                        0 <= q < i && s@[q] == '.' ==> exists|p: int|
                            0 <= p < old_dots.len() && #[trigger] old_dots[p] == q);
                    assert(forall|p: int|
                        0 <= p < old_dots.len() ==> dots@[p] == old_dots[p]);
                }
                assert(dots@[dots@.len() - 1] == i);
            }
        }
        i = i + 1;
    }
    if dots.len() != 3 {
        proof {
            if spec_is_ipv4(s@) {
                let (a, b, c) = choose|a: int, b: int, c: int|
                    {
                        &&& 0 <= a < b < c < s@.len()
                        &&& s@[a] == '.' && s@[b] == '.' && s@[c] == '.'
                        &&& is_octet(s@.subrange(0, a))
                        &&& is_octet(s@.subrange(a + 1, b))
                        &&& is_octet(s@.subrange(b + 1, c))
                        &&& is_octet(s@.subrange(c + 1, s@.len() as int))
                    };
                let pa = choose|p: int| 0 <= p < dots@.len() && dots@[p] == a;
                let pb = choose|p: int| 0 <= p < dots@.len() && dots@[p] == b;
                let pc = choose|p: int| 0 <= p < dots@.len() && dots@[p] == c;
                assert(pa != pb && pb != pc && pa != pc);
                assert(dots@.len() >= 3);
                assert(dots@.len() > 3);
                assert(forall|q: int|
                    0 <= q < dots@.len() ==> dots@[q] == a || dots@[q] == b || dots@[q] == c) by {
                    assert(forall|q: int| 0 <= q < dots@.len() ==> #[trigger] dots@[q] < n
                        && s@[dots@[q] as int] == '.');
                    assert forall|q: int| 0 <= q < dots@.len() implies dots@[q] == a || dots@[q]
                        == b || dots@[q] == c by {
                        lemma_dot_positions(s@, a, b, c, dots@[q] as int);
                    }
                }
                assert(dots@[0] < dots@[1] < dots@[2] < dots@[3]);
                assert(false);
            }
        }
        return false;
    }
    let d0 = dots[0];
    let d1 = dots[1];
    let d2 = dots[2];
    proof {
        assert(d0 < d1 < d2 < n);
        assert(s@[d0 as int] == '.' && s@[d1 as int] == '.' && s@[d2 as int] == '.');
    }
    let r = check_octet(s, 0, d0) && check_octet(s, d0 + 1, d1) && check_octet(s, d1 + 1, d2)
        && check_octet(s, d2 + 1, n);
    proof {
        if r {
            assert(spec_is_ipv4(s@)) by {
                assert({
                    &&& 0 <= d0 < d1 < d2 < s@.len()
                    &&& s@[d0 as int] == '.' && s@[d1 as int] == '.' && s@[d2 as int] == '.'
                    &&& is_octet(s@.subrange(0, d0 as int))
                    &&& is_octet(s@.subrange(d0 + 1, d1 as int))
                    &&& is_octet(s@.subrange(d1 + 1, d2 as int))
                    &&& is_octet(s@.subrange(d2 + 1, s@.len() as int))
                });
            }
        } else {
            if spec_is_ipv4(s@) {
                let (a, b, c) = choose|a: int, b: int, c: int|
                    {
                        &&& 0 <= a < b < c < s@.len()
                        &&& s@[a] == '.' && s@[b] == '.' && s@[c] == '.'
                        &&& is_octet(s@.subrange(0, a))
                        &&& is_octet(s@.subrange(a + 1, b))
                        &&& is_octet(s@.subrange(b + 1, c))
                        &&& is_octet(s@.subrange(c + 1, s@.len() as int))
                    };
                lemma_dot_positions(s@, a, b, c, d0 as int);
                lemma_dot_positions(s@, a, b, c, d1 as int);
                lemma_dot_positions(s@, a, b, c, d2 as int);
                let pa = choose|p: int| 0 <= p < dots@.len() && dots@[p] == a;
                let pb = choose|p: int| 0 <= p < dots@.len() && dots@[p] == b;
                let pc = choose|p: int| 0 <= p < dots@.len() && dots@[p] == c;
                assert(a == d0 && b == d1 && c == d2);
                assert(false);
            }
        }
    }
    r
}

} // verus!

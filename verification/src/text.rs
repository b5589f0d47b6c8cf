//! Character-level text primitives: splitting on a separator character,
//! trimming surrounding whitespace, and comparing a slice of characters with
//! a literal. Each has a spec-level definition over `Seq<char>` and a
//! verified executable counterpart over a `Vec<char>` copy of the input.

use vstd::prelude::*;
use vstd::string::StrSliceExecFns;

verus! {

/// Whether `c` has Unicode's `White_Space` property, the set `str::trim`
/// removes.
pub open spec fn is_space_char(c: char) -> bool {
    ||| ('\u{09}' <= c && c <= '\u{0d}')
    ||| c == ' '
    ||| c == '\u{85}'
    ||| c == '\u{a0}'
    ||| c == '\u{1680}'
    ||| ('\u{2000}' <= c && c <= '\u{200a}')
    ||| c == '\u{2028}'
    ||| c == '\u{2029}'
    ||| c == '\u{202f}'
    ||| c == '\u{205f}'
    ||| c == '\u{3000}'
}

/// Executable test for [`is_space_char`].
pub fn is_space(c: char) -> (r: bool)
    ensures
        r == is_space_char(c),
{
    ('\u{09}' <= c && c <= '\u{0d}') || c == ' ' || c == '\u{85}' || c == '\u{a0}' || c
        == '\u{1680}' || ('\u{2000}' <= c && c <= '\u{200a}') || c == '\u{2028}' || c == '\u{2029}'
        || c == '\u{202f}' || c == '\u{205f}' || c == '\u{3000}'
}

/// The pieces of `s` between occurrences of `sep`, in order, empty pieces
/// included; a text with no separator is one piece, so the result is never
/// empty.
pub open spec fn split_on(s: Seq<char>, sep: char) -> Seq<Seq<char>>
    decreases s.len(),
{
    if s.len() == 0 {
        seq![Seq::<char>::empty()]
    } else if s[0] == sep {
        seq![Seq::<char>::empty()] + split_on(s.drop_first(), sep)
    } else {
        let rest = split_on(s.drop_first(), sep);
        seq![seq![s[0]] + rest[0]] + rest.drop_first()
    }
}

pub proof fn lemma_split_on_len(s: Seq<char>, sep: char)
    ensures
        split_on(s, sep).len() >= 1,
    decreases s.len(),
{
    if s.len() != 0 {
        lemma_split_on_len(s.drop_first(), sep);
    }
}

/// Unrolls [`split_on`] at the first separator: if nothing before position
/// `i` is a separator, the split is the prefix before `i` followed by the
/// split of what comes after it (or just `s` itself when no separator
/// occurs at all, `i == s.len()`).
pub proof fn lemma_split_on_first_sep(s: Seq<char>, sep: char, i: int)
    requires
        0 <= i <= s.len(),
        forall|j: int| 0 <= j < i ==> s[j] != sep,
        i < s.len() ==> s[i] == sep,
    ensures
        i == s.len() ==> split_on(s, sep) =~= seq![s],
        i < s.len() ==> split_on(s, sep) =~= seq![s.subrange(0, i)] + split_on(
            s.subrange(i + 1, s.len() as int),
            sep,
        ),
    decreases i,
{
    if i == 0 {
        if s.len() == 0 {
            assert(s =~= Seq::<char>::empty());
            assert(split_on(s, sep) =~= seq![s]);
        } else if s[0] == sep {
            assert(s.subrange(1, s.len() as int) =~= s.drop_first());
            assert(s.subrange(0, 0) =~= Seq::<char>::empty());
        }
    } else {
        let t = s.drop_first();
        lemma_split_on_first_sep(t, sep, i - 1);
        lemma_split_on_len(t, sep);
        if i == s.len() {
            assert(split_on(t, sep) =~= seq![t]);
            assert(seq![s[0]] + t =~= s);
            assert(split_on(s, sep) =~= seq![s]);
        } else {
            assert(split_on(t, sep) =~= seq![t.subrange(0, i - 1)] + split_on(
                t.subrange(i, t.len() as int),
                sep,
            ));
            assert(seq![s[0]] + t.subrange(0, i - 1) =~= s.subrange(0, i));
            assert(t.subrange(i, t.len() as int) =~= s.subrange(i + 1, s.len() as int));
            assert(split_on(s, sep) =~= seq![s.subrange(0, i)] + split_on(
                s.subrange(i + 1, s.len() as int),
                sep,
            ));
        }
    }
}

/// Splits `cs[lo..hi]` on `sep`, returning the index ranges of the pieces:
/// mapping each range back to its characters gives exactly
/// `split_on(cs[lo..hi], sep)`.
pub fn split_ranges(cs: &Vec<char>, lo: usize, hi: usize, sep: char) -> (r: Vec<(usize, usize)>)
    requires
        lo <= hi <= cs@.len(),
    ensures
        r@.map_values(|p: (usize, usize)| cs@.subrange(p.0 as int, p.1 as int)) =~= split_on(
            cs@.subrange(lo as int, hi as int),
            sep,
        ),
        forall|k: int| 0 <= k < r@.len() ==> lo <= #[trigger] r@[k].0 && r@[k].0 <= r@[k].1
            && r@[k].1 <= hi,
{
    let ghost whole = cs@.subrange(lo as int, hi as int);
    let mut r: Vec<(usize, usize)> = Vec::new();
    let mut start: usize = lo;
    let mut i: usize = lo;
    while i < hi
        invariant
            lo <= start <= i <= hi <= cs@.len(),
            whole == cs@.subrange(lo as int, hi as int),
            forall|j: int| start <= j < i ==> cs@[j] != sep,
            split_on(whole, sep) =~= r@.map_values(
                |p: (usize, usize)| cs@.subrange(p.0 as int, p.1 as int),
            ) + split_on(cs@.subrange(start as int, hi as int), sep),
            forall|k: int| 0 <= k < r@.len() ==> lo <= #[trigger] r@[k].0 && r@[k].0 <= r@[k].1
                && r@[k].1 <= hi,
        decreases hi - i,
    {
        if cs[i] == sep {
            proof {
                let rem = cs@.subrange(start as int, hi as int);
                lemma_split_on_first_sep(rem, sep, i - start);
                assert(rem.subrange(0, i - start) =~= cs@.subrange(start as int, i as int));
                assert(rem.subrange(i - start + 1, rem.len() as int) =~= cs@.subrange(
                    i + 1,
                    hi as int,
                ));
            }
            let ghost old_r = r@;
            r.push((start, i));
            proof {
                assert(r@.map_values(|p: (usize, usize)| cs@.subrange(p.0 as int, p.1 as int))
                    =~= old_r.map_values(|p: (usize, usize)| cs@.subrange(p.0 as int, p.1 as int))
                    + seq![cs@.subrange(start as int, i as int)]);
            }
            start = i + 1;
        }
        i = i + 1;
    }
    proof {
        let rem = cs@.subrange(start as int, hi as int);
        lemma_split_on_first_sep(rem, sep, rem.len() as int);
    }
    let ghost old_r = r@;
    r.push((start, hi));
    proof {
        assert(r@.map_values(|p: (usize, usize)| cs@.subrange(p.0 as int, p.1 as int)) =~= old_r
            .map_values(|p: (usize, usize)| cs@.subrange(p.0 as int, p.1 as int)) + seq![
            cs@.subrange(start as int, hi as int),
        ]);
    }
    r
}

/// `s` with its leading whitespace removed.
pub open spec fn trim_start_of(s: Seq<char>) -> Seq<char>
    decreases s.len(),
{
    if s.len() > 0 && is_space_char(s[0]) {
        trim_start_of(s.drop_first())
    } else {
        s
    }
}

/// `s` with its trailing whitespace removed.
pub open spec fn trim_end_of(s: Seq<char>) -> Seq<char>
    decreases s.len(),
{
    if s.len() > 0 && is_space_char(s.last()) {
        trim_end_of(s.drop_last())
    } else {
        s
    }
}

/// `s` with whitespace removed from both ends, as `str::trim` leaves it.
pub open spec fn trim_of(s: Seq<char>) -> Seq<char> {
    trim_end_of(trim_start_of(s))
}

/// Narrows the range `[lo, hi)` of `cs` to its whitespace-trimmed core:
/// the characters of the returned range are `trim_of(cs[lo..hi])`.
pub fn trim_range(cs: &Vec<char>, lo: usize, hi: usize) -> (r: (usize, usize))
    requires
        lo <= hi <= cs@.len(),
    ensures
        lo <= r.0 <= r.1 <= hi,
        cs@.subrange(r.0 as int, r.1 as int) =~= trim_of(cs@.subrange(lo as int, hi as int)),
{
    let mut a: usize = lo;
    while a < hi && is_space(cs[a])
        invariant
            lo <= a <= hi <= cs@.len(),
            trim_start_of(cs@.subrange(lo as int, hi as int)) == trim_start_of(
                cs@.subrange(a as int, hi as int),
            ),
        decreases hi - a,
    {
        proof {
            assert(cs@.subrange(a as int, hi as int).drop_first() =~= cs@.subrange(
                a + 1,
                hi as int,
            ));
        }
        a = a + 1;
    }
    proof {
        assert(trim_start_of(cs@.subrange(a as int, hi as int)) =~= cs@.subrange(
            a as int,
            hi as int,
        ));
    }
    let mut b: usize = hi;
    while b > a && is_space(cs[b - 1])
        invariant
            lo <= a <= b <= hi <= cs@.len(),
            trim_start_of(cs@.subrange(lo as int, hi as int)) == cs@.subrange(a as int, hi as int),
            trim_end_of(cs@.subrange(a as int, hi as int)) == trim_end_of(
                cs@.subrange(a as int, b as int),
            ),
        decreases b,
    {
        proof {
            assert(cs@.subrange(a as int, b as int).drop_last() =~= cs@.subrange(
                a as int,
                b - 1,
            ));
        }
        b = b - 1;
    }
    proof {
        assert(trim_end_of(cs@.subrange(a as int, b as int)) =~= cs@.subrange(a as int, b as int));
    }
    (a, b)
}

/// Copies the characters of `s` into a vector, so that positions can be
/// compared and sliced by plain indices.
pub fn chars_of(s: &str) -> (r: Vec<char>)
    ensures
        r@ =~= s@,
{
    let n = s.unicode_len();
    let mut r: Vec<char> = Vec::new();
    let mut i: usize = 0;
    while i < n
        invariant
            i <= n,
            n == s@.len(),
            r@ =~= s@.subrange(0, i as int),
        decreases n - i,
    {
        r.push(s.get_char(i));
        i = i + 1;
    }
    r
}

/// Whether the characters of `cs[a..b]` are exactly those of `lit`.
pub fn range_eq_str(cs: &Vec<char>, a: usize, b: usize, lit: &str) -> (r: bool)
    requires
        a <= b <= cs@.len(),
    ensures
        r == (cs@.subrange(a as int, b as int) == lit@),
{
    let n = lit.unicode_len();
    if b - a != n {
        proof {
            assert(cs@.subrange(a as int, b as int) != lit@) by {
                if cs@.subrange(a as int, b as int) == lit@ {
                    assert(cs@.subrange(a as int, b as int).len() == lit@.len());
                }
            }
        }
        return false;
    }
    let mut i: usize = 0;
    while i < n
        invariant
            i <= n,
            n == lit@.len(),
            a <= b <= cs@.len(),
            b - a == n,
            forall|j: int| 0 <= j < i ==> cs@.subrange(a as int, b as int)[j] == lit@[j],
        decreases n - i,
    {
        if cs[a + i] != lit.get_char(i) {
            proof {
                assert(cs@.subrange(a as int, b as int)[i as int] != lit@[i as int]);
            }
            return false;
        }
        i = i + 1;
    }
    proof {
        assert(cs@.subrange(a as int, b as int) =~= lit@);
    }
    true
}

} // verus!

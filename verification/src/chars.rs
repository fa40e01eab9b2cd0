//! Byte- and character-level scanning helpers shared by the request parser:
//! locating the CRLFCRLF header terminator, splitting on CRLF and on
//! whitespace, trimming, and finding a character within a range. Each
//! executable function is proved against a recursive specification.

use vstd::prelude::*;
use vstd::string::*;

verus! {

/// ASCII whitespace, as the parser understands it.
pub open spec fn is_ws(c: char) -> bool {
    c == ' ' || c == '\t' || c == '\r' || c == '\n'
}

/// The four-byte header terminator CRLFCRLF starts at index `i` of `s`.
pub open spec fn terminator_at(s: Seq<u8>, i: int) -> bool {
    &&& 0 <= i
    &&& i + 4 <= s.len()
    &&& s[i] == 13u8
    &&& s[i + 1] == 10u8
    &&& s[i + 2] == 13u8
    &&& s[i + 3] == 10u8
}

/// Index of the first header terminator at or after `i`, if any.
pub open spec fn find_term_from(s: Seq<u8>, i: int) -> Option<int>
    decreases s.len() - i,
{
    if i < 0 || i + 4 > s.len() {
        None
    } else if terminator_at(s, i) {
        Some(i)
    } else {
        find_term_from(s, i + 1)
    }
}

pub proof fn lemma_find_term_properties(s: Seq<u8>, i: int)
    requires
        0 <= i,
    ensures
        find_term_from(s, i) matches Some(p) ==> terminator_at(s, p) && i <= p,
        find_term_from(s, i) is None ==> forall|j: int| i <= j ==> !terminator_at(s, j),
    decreases s.len() - i,
{
    if i + 4 <= s.len() && !terminator_at(s, i) {
        lemma_find_term_properties(s, i + 1);
    }
}

/// The scan finds a terminator that nothing precedes.
pub proof fn lemma_find_term_first(s: Seq<u8>, q: int)
    requires
        terminator_at(s, q),
        forall|j: int| 0 <= j < q ==> !terminator_at(s, j),
    ensures
        find_term_from(s, 0) == Some(q),
{
    lemma_find_term_first_from(s, 0, q);
}

proof fn lemma_find_term_first_from(s: Seq<u8>, i: int, q: int)
    requires
        0 <= i <= q,
        terminator_at(s, q),
        forall|j: int| i <= j < q ==> !terminator_at(s, j),
    ensures
        find_term_from(s, i) == Some(q),
    decreases q - i,
{
    if i < q {
        lemma_find_term_first_from(s, i + 1, q);
    }
}

/// Finds the first CRLFCRLF in `buf`, scanning from the front.
pub fn find_terminator(buf: &[u8]) -> (r: Option<usize>)
    ensures
        match r {
            Some(p) => find_term_from(buf@, 0) == Some(p as int),
            None => find_term_from(buf@, 0) is None,
        },
{
    let n = buf.len();
    if n < 4 {
        return None;
    }
    let mut i: usize = 0;
    while i <= n - 4
        invariant
            n == buf@.len(),
            4 <= n,
            0 <= i <= n,
            find_term_from(buf@, 0) == find_term_from(buf@, i as int),
        decreases n - i,
    {
        if buf[i] == 13u8 && buf[i + 1] == 10u8 && buf[i + 2] == 13u8 && buf[i + 3] == 10u8 {
            return Some(i);
        }
        i = i + 1;
    }
    None
}

/// Whether the character at index `i` of `s` is whitespace.
fn ws_at(s: &Vec<char>, i: usize) -> (r: bool)
    requires
        i < s@.len(),
    ensures
        r == is_ws(s@[i as int]),
{
    let c = s[i];
    c == ' ' || c == '\t' || c == '\r' || c == '\n'
}

/// Copies `buf[from..to]` into a fresh vector.
pub fn copy_bytes(buf: &[u8], from: usize, to: usize) -> (r: Vec<u8>)
    requires
        from <= to <= buf@.len(),
    ensures
        r@ == buf@.subrange(from as int, to as int),
{
    let mut out: Vec<u8> = Vec::new();
    let mut i: usize = from;
    while i < to
        invariant
            from <= i <= to <= buf@.len(),
            out@ == buf@.subrange(from as int, i as int),
        decreases to - i,
    {
        out.push(buf[i]);
        proof {
            assert(out@ =~= buf@.subrange(from as int, (i + 1) as int));
        }
        i = i + 1;
    }
    out
}

/// Splitting `s` on CRLF, from position `i`, with `cur` the segment read so
/// far: the list of segments, always at least one.
pub open spec fn split_crlf_rec(s: Seq<char>, i: int, cur: Seq<char>) -> Seq<Seq<char>>
    decreases s.len() - i,
{
    if i < 0 || i >= s.len() {
        seq![cur]
    } else if i + 2 <= s.len() && s[i] == '\r' && s[i + 1] == '\n' {
        seq![cur] + split_crlf_rec(s, i + 2, Seq::empty())
    } else {
        split_crlf_rec(s, i + 1, cur.push(s[i]))
    }
}

/// The segments of `s` split on CRLF, as `str::split("\r\n")` yields them.
pub open spec fn split_crlf(s: Seq<char>) -> Seq<Seq<char>> {
    split_crlf_rec(s, 0, Seq::empty())
}

/// Computes the (start, end) index ranges of the CRLF-separated lines of `s`.
pub fn line_ranges(s: &Vec<char>) -> (r: Vec<(usize, usize)>)
    ensures
        r@.len() == split_crlf(s@).len(),
        forall|k: int|
            0 <= k < r@.len() ==> #[trigger] r@[k].0 <= r@[k].1 <= s@.len()
                && s@.subrange(r@[k].0 as int, r@[k].1 as int) == split_crlf(s@)[k],
{
    let n = s.len();
    let mut out: Vec<(usize, usize)> = Vec::new();
    let mut start: usize = 0;
    let mut i: usize = 0;
    proof {
        assert(s@.subrange(0, 0) =~= Seq::<char>::empty());
        assert(out@.map_values(|p: (usize, usize)| s@.subrange(p.0 as int, p.1 as int))
            + split_crlf_rec(s@, 0, Seq::empty()) =~= split_crlf_rec(s@, 0, Seq::empty()));
    }
    while i < n
        invariant
            n == s@.len(),
            0 <= start <= i <= n,
            split_crlf(s@) == out@.map_values(|p: (usize, usize)| s@.subrange(p.0 as int, p.1 as int))
                + split_crlf_rec(s@, i as int, s@.subrange(start as int, i as int)),
            forall|k: int|
                0 <= k < out@.len() ==> #[trigger] out@[k].0 <= out@[k].1 <= n,
        decreases n - i,
    {
        if i + 1 < n && s[i] == '\r' && s[i + 1] == '\n' {
            let ghost old_out = out@;
            out.push((start, i));
            proof {
                assert(out@.map_values(|p: (usize, usize)| s@.subrange(p.0 as int, p.1 as int))
                    =~= old_out.map_values(|p: (usize, usize)| s@.subrange(p.0 as int, p.1 as int))
                        + seq![s@.subrange(start as int, i as int)]);
                assert(s@.subrange((i + 2) as int, (i + 2) as int) =~= Seq::<char>::empty());
            }
            i = i + 2;
            start = i;
        } else {
            proof {
                assert(s@.subrange(start as int, i as int).push(s@[i as int])
                    =~= s@.subrange(start as int, (i + 1) as int));
            }
            i = i + 1;
        }
    }
    let ghost old_out = out@;
    out.push((start, n));
    proof {
        assert(out@.map_values(|p: (usize, usize)| s@.subrange(p.0 as int, p.1 as int))
            =~= old_out.map_values(|p: (usize, usize)| s@.subrange(p.0 as int, p.1 as int))
                + seq![s@.subrange(start as int, n as int)]);
    }
    out
}

/// Splitting `s` on runs of whitespace, from position `i`, with `cur` the
/// token read so far: the non-empty tokens in order.
pub open spec fn split_ws_rec(s: Seq<char>, i: int, cur: Seq<char>) -> Seq<Seq<char>>
    decreases s.len() - i,
{
    if i < 0 || i >= s.len() {
        if cur.len() > 0 {
            seq![cur]
        } else {
            Seq::empty()
        }
    } else if is_ws(s[i]) {
        (if cur.len() > 0 {
            seq![cur]
        } else {
            Seq::empty()
        }) + split_ws_rec(s, i + 1, Seq::empty())
    } else {
        split_ws_rec(s, i + 1, cur.push(s[i]))
    }
}

/// The whitespace-separated tokens of `s`, as `str::split_whitespace` yields
/// them: no empty tokens, leading and trailing whitespace ignored.
pub open spec fn split_ws(s: Seq<char>) -> Seq<Seq<char>> {
    split_ws_rec(s, 0, Seq::empty())
}

/// Computes the (start, end) ranges of the whitespace-separated tokens of
/// `s[lo..hi]`, as absolute indices into `s`.
pub fn token_ranges(s: &Vec<char>, lo: usize, hi: usize) -> (r: Vec<(usize, usize)>)
    requires
        lo <= hi <= s@.len(),
    ensures
        r@.len() == split_ws(s@.subrange(lo as int, hi as int)).len(),
        forall|k: int|
            0 <= k < r@.len() ==> lo <= #[trigger] r@[k].0 <= r@[k].1 <= hi
                && s@.subrange(r@[k].0 as int, r@[k].1 as int)
                    == split_ws(s@.subrange(lo as int, hi as int))[k],
{
    let ghost sub = s@.subrange(lo as int, hi as int);
    let mut out: Vec<(usize, usize)> = Vec::new();
    let mut start: usize = lo;
    let mut i: usize = lo;
    proof {
        assert(s@.subrange(lo as int, lo as int) =~= Seq::<char>::empty());
        assert(out@.map_values(|p: (usize, usize)| s@.subrange(p.0 as int, p.1 as int))
            + split_ws_rec(sub, 0, Seq::empty()) =~= split_ws_rec(sub, 0, Seq::empty()));
    }
    while i < hi
        invariant
            lo <= start <= i <= hi <= s@.len(),
            sub == s@.subrange(lo as int, hi as int),
            split_ws(sub) == out@.map_values(|p: (usize, usize)| s@.subrange(p.0 as int, p.1 as int))
                + split_ws_rec(sub, (i - lo) as int, s@.subrange(start as int, i as int)),
            forall|k: int|
                0 <= k < out@.len() ==> lo <= #[trigger] out@[k].0 <= out@[k].1 <= hi,
        decreases hi - i,
    {
        proof {
            assert(sub[(i - lo) as int] == s@[i as int]);
        }
        if ws_at(s, i) {
            if start < i {
                let ghost old_out = out@;
                out.push((start, i));
                proof {
                    assert(out@.map_values(|p: (usize, usize)| s@.subrange(p.0 as int, p.1 as int))
                        =~= old_out.map_values(
                            |p: (usize, usize)| s@.subrange(p.0 as int, p.1 as int),
                        ) + seq![s@.subrange(start as int, i as int)]);
                }
            } else {
                proof {
                    assert(s@.subrange(start as int, i as int) =~= Seq::<char>::empty());
                }
            }
            i = i + 1;
            start = i;
            proof {
                assert(s@.subrange(start as int, i as int) =~= Seq::<char>::empty());
            }
        } else {
            proof {
                assert(s@.subrange(start as int, i as int).push(s@[i as int])
                    =~= s@.subrange(start as int, (i + 1) as int));
            }
            i = i + 1;
        }
    }
    if start < hi {
        let ghost old_out = out@;
        out.push((start, hi));
        proof {
            assert(out@.map_values(|p: (usize, usize)| s@.subrange(p.0 as int, p.1 as int))
                =~= old_out.map_values(|p: (usize, usize)| s@.subrange(p.0 as int, p.1 as int))
                    + seq![s@.subrange(start as int, hi as int)]);
        }
    } else {
        proof {
            assert(s@.subrange(start as int, hi as int) =~= Seq::<char>::empty());
        }
    }
    out
}

/// Index of the first occurrence of `c` in `s` at or after `i` and before
/// `hi`, if any.
pub open spec fn find_char_from(s: Seq<char>, i: int, hi: int, c: char) -> Option<int>
    decreases hi - i,
{
    if i < 0 || i >= hi || i >= s.len() {
        None
    } else if s[i] == c {
        Some(i)
    } else {
        find_char_from(s, i + 1, hi, c)
    }
}

pub proof fn lemma_find_char_bounds(s: Seq<char>, i: int, hi: int, c: char)
    ensures
        find_char_from(s, i, hi, c) matches Some(p) ==> i <= p < hi && p < s.len() && s[p] == c,
    decreases hi - i,
{
    if 0 <= i && i < hi && i < s.len() && s[i] != c {
        lemma_find_char_bounds(s, i + 1, hi, c);
    }
}

/// Finds the first occurrence of `c` in `s[lo..hi]`.
pub fn find_char(s: &Vec<char>, lo: usize, hi: usize, c: char) -> (r: Option<usize>)
    requires
        lo <= hi <= s@.len(),
    ensures
        match r {
            Some(p) => find_char_from(s@, lo as int, hi as int, c) == Some(p as int),
            None => find_char_from(s@, lo as int, hi as int, c) is None,
        },
{
    let mut i: usize = lo;
    while i < hi
        invariant
            lo <= i <= hi <= s@.len(),
            find_char_from(s@, lo as int, hi as int, c) == find_char_from(s@, i as int, hi as int, c),
        decreases hi - i,
    {
        if s[i] == c {
            return Some(i);
        }
        i = i + 1;
    }
    None
}

/// First index at or after `i` whose character is not whitespace, or the
/// length of `s`.
pub open spec fn skip_ws_from(s: Seq<char>, i: int) -> int
    decreases s.len() - i,
{
    if i < 0 || i >= s.len() {
        s.len() as int
    } else if is_ws(s[i]) {
        skip_ws_from(s, i + 1)
    } else {
        i
    }
}

/// Scans left from `i`: the least index `j <= i` such that every character in
/// `s[j..i]` is whitespace and `s[j-1]` is not (or `j == 0`).
pub open spec fn rskip_ws(s: Seq<char>, i: int) -> int
    decreases i,
{
    if i <= 0 || i > s.len() {
        0
    } else if is_ws(s[i - 1]) {
        rskip_ws(s, i - 1)
    } else {
        i
    }
}

/// `s` with leading and trailing whitespace removed.
pub open spec fn trim_spec(s: Seq<char>) -> Seq<char> {
    let lo = skip_ws_from(s, 0);
    let hi = rskip_ws(s, s.len() as int);
    if lo <= hi {
        s.subrange(lo, hi)
    } else {
        Seq::empty()
    }
}

/// Computes the sub-range of `s[lo..hi]` that remains after trimming
/// whitespace from both ends, as absolute indices into `s`.
pub fn trim_range(s: &Vec<char>, lo: usize, hi: usize) -> (r: (usize, usize))
    requires
        lo <= hi <= s@.len(),
    ensures
        lo <= r.0 <= r.1 <= hi,
        s@.subrange(r.0 as int, r.1 as int) == trim_spec(s@.subrange(lo as int, hi as int)),
{
    let ghost sub = s@.subrange(lo as int, hi as int);
    let mut a: usize = lo;
    while a < hi && ws_at(s, a)
        invariant
            lo <= a <= hi <= s@.len(),
            sub == s@.subrange(lo as int, hi as int),
            skip_ws_from(sub, 0) == skip_ws_from(sub, (a - lo) as int),
        decreases hi - a,
    {
        proof {
            assert(sub[(a - lo) as int] == s@[a as int]);
        }
        a = a + 1;
    }
    proof {
        if a < hi {
            assert(sub[(a - lo) as int] == s@[a as int]);
        }
        assert(skip_ws_from(sub, 0) == a - lo);
    }
    let mut b: usize = hi;
    while b > a && ws_at(s, b - 1)
        invariant
            lo <= a <= b <= hi <= s@.len(),
            sub == s@.subrange(lo as int, hi as int),
            rskip_ws(sub, sub.len() as int) == rskip_ws(sub, (b - lo) as int),
        decreases b,
    {
        proof {
            assert(sub[(b - 1 - lo) as int] == s@[(b - 1) as int]);
        }
        b = b - 1;
    }
    proof {
        if b > a {
            assert(sub[(b - 1 - lo) as int] == s@[(b - 1) as int]);
            assert(rskip_ws(sub, (b - lo) as int) == b - lo);
            assert(s@.subrange(a as int, b as int)
                =~= sub.subrange((a - lo) as int, (b - lo) as int));
        } else {
            lemma_rskip_ws_bounds(sub, (b - lo) as int);
            assert(rskip_ws(sub, sub.len() as int) <= a - lo);
            assert(s@.subrange(a as int, a as int) =~= Seq::<char>::empty());
            if skip_ws_from(sub, 0) <= rskip_ws(sub, sub.len() as int) {
                assert(sub.subrange(skip_ws_from(sub, 0), rskip_ws(sub, sub.len() as int))
                    =~= Seq::<char>::empty());
            }
        }
    }
    (a, b)
}

pub proof fn lemma_rskip_ws_bounds(s: Seq<char>, i: int)
    requires
        0 <= i <= s.len(),
    ensures
        0 <= rskip_ws(s, i) <= i,
    decreases i,
{
    if i > 0 && is_ws(s[i - 1]) {
        lemma_rskip_ws_bounds(s, i - 1);
    }
}

pub proof fn lemma_split_crlf_rec_nonempty(s: Seq<char>, i: int, cur: Seq<char>)
    ensures
        split_crlf_rec(s, i, cur).len() >= 1,
    decreases s.len() - i,
{
    if 0 <= i && i < s.len() {
        if i + 2 <= s.len() && s[i] == '\r' && s[i + 1] == '\n' {
        } else {
            lemma_split_crlf_rec_nonempty(s, i + 1, cur.push(s[i]));
        }
    }
}

/// Splitting on CRLF always yields at least one segment.
pub proof fn lemma_split_crlf_nonempty(s: Seq<char>)
    ensures
        split_crlf(s).len() >= 1,
{
    lemma_split_crlf_rec_nonempty(s, 0, Seq::empty());
}

/// Finding a character within `s[lo..hi]` is the same scan whether the
/// indices are absolute or relative to `lo`.
pub proof fn lemma_find_char_shift(s: Seq<char>, lo: int, hi: int, i: int, c: char)
    requires
        0 <= lo <= i <= hi <= s.len(),
    ensures
        find_char_from(s, i, hi, c) matches Some(p) ==> find_char_from(
            s.subrange(lo, hi),
            i - lo,
            hi - lo,
            c,
        ) == Some(p - lo),
        find_char_from(s, i, hi, c) is None ==> find_char_from(
            s.subrange(lo, hi),
            i - lo,
            hi - lo,
            c,
        ) is None,
    decreases hi - i,
{
    if i < hi {
        assert(s.subrange(lo, hi)[i - lo] == s[i]);
        if s[i] != c {
            lemma_find_char_shift(s, lo, hi, i + 1, c);
        }
    }
}

/// Compares two string slices character by character.
pub fn str_eq(a: &str, b: &str) -> (r: bool)
    ensures
        r == (a@ == b@),
{
    let na = a.unicode_len();
    let nb = b.unicode_len();
    if na != nb {
        return false;
    }
    let mut i: usize = 0;
    while i < na
        invariant
            na == a@.len(),
            na == b@.len(),
            0 <= i <= na,
            forall|j: int| 0 <= j < i ==> a@[j] == b@[j],
        decreases na - i,
    {
        if a.get_char(i) != b.get_char(i) {
            return false;
        }
        i = i + 1;
    }
    proof {
        assert(a@ =~= b@);
    }
    true
}

/// Collects the characters of `s` into a vector.
pub fn str_to_chars(s: &str) -> (r: Vec<char>)
    ensures
        r@ == s@,
{
    let n = s.unicode_len();
    let mut out: Vec<char> = Vec::new();
    let mut i: usize = 0;
    while i < n
        invariant
            n == s@.len(),
            0 <= i <= n,
            out@ == s@.subrange(0, i as int),
        decreases n - i,
    {
        out.push(s.get_char(i));
        proof {
            assert(out@ =~= s@.subrange(0, (i + 1) as int));
        }
        i = i + 1;
    }
    proof {
        assert(s@.subrange(0, n as int) =~= s@);
    }
    out
}

} // verus!

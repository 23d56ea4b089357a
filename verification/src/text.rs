//! Character-level text utilities shared by the scanner, the parameter
//! renderer and the output assembler: whitespace classification, literal
//! matching, substring search, trimming and decimal rendering, each exec
//! function tied to a spec function over `Seq<char>`.

use vstd::prelude::*;

verus! {

use vstd::string::{StrSliceExecFns, StringExecFns};

/// The Unicode `White_Space` code points: the character class that both the
/// declaration scanner and `str::trim`-style trimming treat as whitespace.
pub open spec fn is_ws(c: char) -> bool {
    ||| c == '\u{0009}'
    ||| c == '\u{000A}'
    ||| c == '\u{000B}'
    ||| c == '\u{000C}'
    ||| c == '\u{000D}'
    ||| c == ' '
    ||| c == '\u{0085}'
    ||| c == '\u{00A0}'
    ||| c == '\u{1680}'
    ||| ('\u{2000}' <= c && c <= '\u{200A}')
    ||| c == '\u{2028}'
    ||| c == '\u{2029}'
    ||| c == '\u{202F}'
    ||| c == '\u{205F}'
    ||| c == '\u{3000}'
}

pub fn ws_char(c: char) -> (b: bool)
    ensures
        b == is_ws(c),
{
    c == '\u{0009}' || c == '\u{000A}' || c == '\u{000B}' || c == '\u{000C}' || c == '\u{000D}'
        || c == ' ' || c == '\u{0085}' || c == '\u{00A0}' || c == '\u{1680}' || ('\u{2000}' <= c
        && c <= '\u{200A}') || c == '\u{2028}' || c == '\u{2029}' || c == '\u{202F}' || c
        == '\u{205F}' || c == '\u{3000}'
}

/// The literal `lit` occurs in `s` starting at position `p`.
pub open spec fn lit_at(s: Seq<char>, p: int, lit: Seq<char>) -> bool {
    &&& 0 <= p
    &&& p + lit.len() <= s.len()
    &&& s.subrange(p, p + lit.len()) =~= lit
}

pub fn check_lit_at(s: &str, p: usize, lit: &str) -> (b: bool)
    requires
        p <= s@.len(),
    ensures
        b == lit_at(s@, p as int, lit@),
{
    let n: usize = s.unicode_len();
    let m: usize = lit.unicode_len();
    if m > n - p {
        return false;
    }
    let mut j: usize = 0;
    while j < m
        invariant
            0 <= j <= m,
            p + m <= n,
            n == s@.len(),
            m == lit@.len(),
            forall|k: int| 0 <= k < j ==> s@[p + k] == lit@[k],
        decreases m - j,
    {
        if s.get_char(p + j) != lit.get_char(j) {
            assert(s@.subrange(p as int, p + m) =~= lit@ ==> s@[p + j] == lit@[j as int]);
            return false;
        }
        j += 1;
    }
    assert(s@.subrange(p as int, p + m) =~= lit@);
    true
}

/// First position `q >= p` in `s` that holds `c`, if any.
pub open spec fn find_char(s: Seq<char>, p: int, c: char) -> Option<int>
    decreases s.len() - p,
{
    if p < 0 || p >= s.len() {
        None
    } else if s[p] == c {
        Some(p)
    } else {
        find_char(s, p + 1, c)
    }
}

pub proof fn lemma_find_char_props(s: Seq<char>, p: int, c: char)
    requires
        0 <= p <= s.len(),
    ensures
        match find_char(s, p, c) {
            Some(q) => p <= q < s.len() && s[q] == c && forall|k: int| p <= k < q ==> s[k] != c,
            None => forall|k: int| p <= k < s.len() ==> s[k] != c,
        },
    decreases s.len() - p,
{
    if p < s.len() && s[p] != c {
        lemma_find_char_props(s, p + 1, c);
    }
}

pub fn search_char(s: &str, p: usize, c: char) -> (r: Option<usize>)
    requires
        p <= s@.len(),
    ensures
        match r {
            Some(q) => find_char(s@, p as int, c) == Some(q as int),
            None => find_char(s@, p as int, c) is None,
        },
{
    let n: usize = s.unicode_len();
    let mut q: usize = p;
    while q < n
        invariant
            p <= q <= n,
            n == s@.len(),
            find_char(s@, p as int, c) == find_char(s@, q as int, c),
        decreases n - q,
    {
        if s.get_char(q) == c {
            return Some(q);
        }
        q += 1;
    }
    None
}

/// First position `q >= p` such that `q` is the end of the text or `s[q]` is
/// not whitespace: where a greedy whitespace run starting at `p` stops.
pub open spec fn skip_ws(s: Seq<char>, p: int) -> int
    decreases s.len() - p,
{
    if p < 0 || p >= s.len() {
        p
    } else if is_ws(s[p]) {
        skip_ws(s, p + 1)
    } else {
        p
    }
}

pub proof fn lemma_skip_ws_props(s: Seq<char>, p: int)
    requires
        0 <= p <= s.len(),
    ensures
        p <= skip_ws(s, p) <= s.len(),
        skip_ws(s, p) == s.len() || !is_ws(s[skip_ws(s, p)]),
        forall|k: int| p <= k < skip_ws(s, p) ==> is_ws(s[k]),
    decreases s.len() - p,
{
    if p < s.len() && is_ws(s[p]) {
        lemma_skip_ws_props(s, p + 1);
    }
}

pub fn run_ws(s: &str, p: usize) -> (q: usize)
    requires
        p <= s@.len(),
    ensures
        q == skip_ws(s@, p as int),
        p <= q <= s@.len(),
{
    proof {
        lemma_skip_ws_props(s@, p as int);
    }
    let n: usize = s.unicode_len();
    let mut q: usize = p;
    while q < n
        invariant
            p <= q <= n,
            n == s@.len(),
            skip_ws(s@, p as int) == skip_ws(s@, q as int),
        decreases n - q,
    {
        if !ws_char(s.get_char(q)) {
            return q;
        }
        q += 1;
    }
    q
}

/// First position in `s[lo..hi]` that holds `c`, if any.
pub open spec fn find_in(s: Seq<char>, lo: int, hi: int, c: char) -> Option<int>
    decreases hi - lo,
{
    if lo < 0 || lo >= hi || hi > s.len() {
        None
    } else if s[lo] == c {
        Some(lo)
    } else {
        find_in(s, lo + 1, hi, c)
    }
}

pub proof fn lemma_find_in_props(s: Seq<char>, lo: int, hi: int, c: char)
    requires
        0 <= lo <= hi <= s.len(),
    ensures
        match find_in(s, lo, hi, c) {
            Some(q) => lo <= q < hi && s[q] == c && forall|k: int| lo <= k < q ==> s[k] != c,
            None => forall|k: int| lo <= k < hi ==> s[k] != c,
        },
    decreases hi - lo,
{
    if lo < hi && s[lo] != c {
        lemma_find_in_props(s, lo + 1, hi, c);
    }
}

pub fn search_char_in(s: &str, lo: usize, hi: usize, c: char) -> (r: Option<usize>)
    requires
        lo <= hi <= s@.len(),
    ensures
        match r {
            Some(q) => find_in(s@, lo as int, hi as int, c) == Some(q as int) && lo <= q < hi,
            None => find_in(s@, lo as int, hi as int, c) is None,
        },
{
    proof {
        lemma_find_in_props(s@, lo as int, hi as int, c);
    }
    let mut q: usize = lo;
    while q < hi
        invariant
            lo <= q <= hi,
            hi <= s@.len(),
            find_in(s@, lo as int, hi as int, c) == find_in(s@, q as int, hi as int, c),
        decreases hi - q,
    {
        if s.get_char(q) == c {
            return Some(q);
        }
        q += 1;
    }
    None
}

/// Searching a range of `s` is searching the extracted slice.
pub proof fn lemma_find_in_subrange(s: Seq<char>, lo: int, hi: int, c: char)
    requires
        0 <= lo <= hi <= s.len(),
    ensures
        match find_in(s, lo, hi, c) {
            Some(i) => find_char(s.subrange(lo, hi), 0, c) == Some(i - lo),
            None => find_char(s.subrange(lo, hi), 0, c) is None,
        },
{
    let t = s.subrange(lo, hi);
    lemma_find_in_props(s, lo, hi, c);
    lemma_find_char_props(t, 0, c);
    match find_in(s, lo, hi, c) {
        Some(i) => {
            assert(t[i - lo] == c);
            match find_char(t, 0, c) {
                Some(j) => {
                    if j < i - lo {
                        assert(s[lo + j] == c);
                        assert(false);
                    }
                    if j > i - lo {
                        assert(t[i - lo] != c);
                        assert(false);
                    }
                },
                None => {
                    assert(false);
                },
            }
        },
        None => {
            match find_char(t, 0, c) {
                Some(j) => {
                    assert(s[lo + j] == c);
                    assert(false);
                },
                None => {},
            }
        },
    }
}

/// The pattern `pat` occurs somewhere in `s[lo..hi]`.
pub open spec fn contains_range(s: Seq<char>, lo: int, hi: int, pat: Seq<char>) -> bool {
    exists|k: int| lo <= k && k + pat.len() <= hi && lit_at(s, k, pat)
}

/// The pattern `pat` occurs somewhere in `t`.
pub open spec fn contains_text(t: Seq<char>, pat: Seq<char>) -> bool {
    contains_range(t, 0, t.len() as int, pat)
}

/// Containment within a range of `s` is containment in the extracted slice.
pub proof fn lemma_contains_shift(s: Seq<char>, lo: int, hi: int, pat: Seq<char>)
    requires
        0 <= lo <= hi <= s.len(),
    ensures
        contains_range(s, lo, hi, pat) == contains_text(s.subrange(lo, hi), pat),
{
    let t = s.subrange(lo, hi);
    if contains_range(s, lo, hi, pat) {
        let k = choose|k: int| lo <= k && k + pat.len() <= hi && lit_at(s, k, pat);
        assert(t.subrange(k - lo, k - lo + pat.len()) =~= s.subrange(k, k + pat.len()));
        assert(lit_at(t, k - lo, pat));
        assert(contains_text(t, pat));
    }
    if contains_text(t, pat) {
        let k = choose|k: int| 0 <= k && k + pat.len() <= t.len() && lit_at(t, k, pat);
        assert(s.subrange(lo + k, lo + k + pat.len()) =~= t.subrange(k, k + pat.len()));
        assert(lit_at(s, lo + k, pat));
        assert(contains_range(s, lo, hi, pat));
    }
}

pub fn search_range(s: &str, lo: usize, hi: usize, pat: &str) -> (b: bool)
    requires
        lo <= hi <= s@.len(),
    ensures
        b == contains_range(s@, lo as int, hi as int, pat@),
{
    let m: usize = pat.unicode_len();
    if m > hi - lo {
        assert(!contains_range(s@, lo as int, hi as int, pat@));
        return false;
    }
    let mut k: usize = lo;
    while k <= hi - m
        invariant
            lo <= k,
            m <= hi,
            k <= hi - m + 1,
            hi <= s@.len(),
            m == pat@.len(),
            forall|j: int| lo <= j < k ==> !lit_at(s@, j, pat@),
        decreases hi - k,
    {
        if check_lit_at(s, k, pat) {
            assert(contains_range(s@, lo as int, hi as int, pat@));
            return true;
        }
        k += 1;
    }
    assert forall|j: int| lo <= j && j + pat@.len() <= hi implies !lit_at(s@, j, pat@) by {
        assert(j < k);
    }
    false
}

/// Equality of two text slices by their character sequences.
pub fn text_eq(a: &str, b: &str) -> (r: bool)
    ensures
        r == (a@ == b@),
{
    let n: usize = a.unicode_len();
    let m: usize = b.unicode_len();
    if n != m {
        return false;
    }
    let mut i: usize = 0;
    while i < n
        invariant
            0 <= i <= n,
            n == a@.len(),
            n == b@.len(),
            forall|k: int| 0 <= k < i ==> a@[k] == b@[k],
        decreases n - i,
    {
        if a.get_char(i) != b.get_char(i) {
            assert(a@ =~= b@ ==> a@[i as int] == b@[i as int]);
            return false;
        }
        i += 1;
    }
    assert(a@ =~= b@);
    true
}

/// Start of the trimmed core of `s[lo..hi]`: the first non-whitespace
/// position, or `hi` when the slice is all whitespace.
pub open spec fn trim_start(s: Seq<char>, lo: int, hi: int) -> int
    decreases hi - lo,
{
    if lo < 0 || lo >= hi {
        lo
    } else if is_ws(s[lo]) {
        trim_start(s, lo + 1, hi)
    } else {
        lo
    }
}

/// End of the trimmed core of `s[lo..hi]`: one past the last non-whitespace
/// position, or `lo` when the slice is all whitespace.
pub open spec fn trim_end(s: Seq<char>, lo: int, hi: int) -> int
    decreases hi - lo,
{
    if hi <= lo || lo < 0 {
        hi
    } else if is_ws(s[hi - 1]) {
        trim_end(s, lo, hi - 1)
    } else {
        hi
    }
}

/// The trimmed view of `s[lo..hi]`, as `str::trim` leaves it.
pub open spec fn trimmed(s: Seq<char>, lo: int, hi: int) -> Seq<char> {
    if trim_start(s, lo, hi) <= trim_end(s, trim_start(s, lo, hi), hi) {
        s.subrange(trim_start(s, lo, hi), trim_end(s, trim_start(s, lo, hi), hi))
    } else {
        Seq::empty()
    }
}

pub proof fn lemma_trim_start_props(s: Seq<char>, lo: int, hi: int)
    requires
        0 <= lo <= hi <= s.len(),
    ensures
        lo <= trim_start(s, lo, hi) <= hi,
        trim_start(s, lo, hi) == hi || !is_ws(s[trim_start(s, lo, hi)]),
        forall|k: int| lo <= k < trim_start(s, lo, hi) ==> is_ws(s[k]),
    decreases hi - lo,
{
    if lo < hi && is_ws(s[lo]) {
        lemma_trim_start_props(s, lo + 1, hi);
    }
}

pub proof fn lemma_trim_end_props(s: Seq<char>, lo: int, hi: int)
    requires
        0 <= lo <= hi <= s.len(),
    ensures
        lo <= trim_end(s, lo, hi) <= hi,
        trim_end(s, lo, hi) == lo || !is_ws(s[trim_end(s, lo, hi) - 1]),
        forall|k: int| trim_end(s, lo, hi) <= k < hi ==> is_ws(s[k]),
    decreases hi - lo,
{
    if lo < hi && is_ws(s[hi - 1]) {
        lemma_trim_end_props(s, lo, hi - 1);
    }
}

/// The character for one decimal digit.
pub open spec fn dec_digit(d: int) -> char {
    if d == 0 {
        '0'
    } else if d == 1 {
        '1'
    } else if d == 2 {
        '2'
    } else if d == 3 {
        '3'
    } else if d == 4 {
        '4'
    } else if d == 5 {
        '5'
    } else if d == 6 {
        '6'
    } else if d == 7 {
        '7'
    } else if d == 8 {
        '8'
    } else {
        '9'
    }
}

/// Decimal rendering of a non-negative integer, most significant digit
/// first, with no leading zeros (and `0` rendered as one digit).
pub open spec fn dec_str(n: int) -> Seq<char>
    decreases n,
{
    if n < 10 {
        seq![dec_digit(n)]
    } else {
        dec_str(n / 10).push(dec_digit(n % 10))
    }
}

fn digit_str(d: usize) -> (r: &'static str)
    requires
        d < 10,
    ensures
        r@ == seq![dec_digit(d as int)],
{
    let r: &'static str = if d == 0 {
        "0"
    } else if d == 1 {
        "1"
    } else if d == 2 {
        "2"
    } else if d == 3 {
        "3"
    } else if d == 4 {
        "4"
    } else if d == 5 {
        "5"
    } else if d == 6 {
        "6"
    } else if d == 7 {
        "7"
    } else if d == 8 {
        "8"
    } else {
        "9"
    };
    proof {
        reveal_strlit("0");
        reveal_strlit("1");
        reveal_strlit("2");
        reveal_strlit("3");
        reveal_strlit("4");
        reveal_strlit("5");
        reveal_strlit("6");
        reveal_strlit("7");
        reveal_strlit("8");
        reveal_strlit("9");
        assert(r@ =~= seq![dec_digit(d as int)]);
    }
    r
}

/// Append the decimal rendering of `n`.
pub fn append_dec(out: &mut String, n: usize)
    ensures
        final(out)@ == old(out)@ + dec_str(n as int),
    decreases n,
{
    if n < 10 {
        out.append(digit_str(n));
    } else {
        append_dec(out, n / 10);
        out.append(digit_str(n % 10));
        proof {
            assert(dec_str(n as int) =~= dec_str(n as int / 10) + seq![dec_digit(n as int % 10)]);
        }
    }
}

pub fn run_trim_start(s: &str, lo: usize, hi: usize) -> (q: usize)
    requires
        lo <= hi <= s@.len(),
    ensures
        q == trim_start(s@, lo as int, hi as int),
        lo <= q <= hi,
{
    proof {
        lemma_trim_start_props(s@, lo as int, hi as int);
    }
    let mut q: usize = lo;
    while q < hi
        invariant
            lo <= q <= hi,
            hi <= s@.len(),
            trim_start(s@, lo as int, hi as int) == trim_start(s@, q as int, hi as int),
        decreases hi - q,
    {
        if !ws_char(s.get_char(q)) {
            return q;
        }
        q += 1;
    }
    q
}

pub fn run_trim_end(s: &str, lo: usize, hi: usize) -> (q: usize)
    requires
        lo <= hi <= s@.len(),
    ensures
        q == trim_end(s@, lo as int, hi as int),
        lo <= q <= hi,
{
    proof {
        lemma_trim_end_props(s@, lo as int, hi as int);
    }
    let mut q: usize = hi;
    while q > lo
        invariant
            lo <= q <= hi,
            hi <= s@.len(),
            trim_end(s@, lo as int, hi as int) == trim_end(s@, lo as int, q as int),
        decreases q - lo,
    {
        if !ws_char(s.get_char(q - 1)) {
            return q;
        }
        q -= 1;
    }
    q
}

} // verus!

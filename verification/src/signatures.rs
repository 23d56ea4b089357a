//! Declaration scanner. Source text is searched, line start by line start,
//! for declarations of the shape
//!
//! ```text
//! [public | public(friend) | public(package) | entry | native]* fun name [<generics>] (params)
//! ```
//!
//! where the parameter list ends at the first closing parenthesis. This is a
//! heuristic, purely textual match: an inner parenthesized construct inside a
//! parameter list truncates the captured text at its first `)`, and nothing is
//! ever rejected as semantically invalid — unmatched text simply yields no
//! signature. Matching is greedy and deterministic; a whitespace run may span
//! line breaks, so a match that begins at one line start may reach into later
//! lines. Each match reports the byte offset of the line start where it began.

use vstd::prelude::*;

verus! {

use crate::offsets::{byte_offset, char_bytes, lemma_byte_offset_mono, lemma_byte_offset_step,
    lemma_byte_offset_total, lemma_byte_offset_zero, width_of_char};
use crate::text::{check_lit_at, find_char, is_ws, lemma_find_char_props, lemma_skip_ws_props,
    lit_at, run_ws, search_char, skip_ws, ws_char};
use vstd::string::{StrSliceExecFns, StringExecFns};
use vstd::utf8::encode_utf8;

/// A raw declaration match: the function's name, the text of its
/// generic-parameter segment if one was present, the raw text of its
/// parameter list, and the byte offset at which the match begins.
pub struct RawSignature {
    pub name: String,
    pub generics: Option<String>,
    pub params_raw: String,
    pub offset: usize,
}

/// Mathematical model of one raw signature.
pub struct SigModel {
    pub name: Seq<char>,
    pub generics: Option<Seq<char>>,
    pub params: Seq<char>,
    pub offset: int,
}

impl View for RawSignature {
    type V = SigModel;

    open spec fn view(&self) -> SigModel {
        SigModel {
            name: self.name@,
            generics: match self.generics {
                Some(g) => Some(g@),
                None => None,
            },
            params: self.params_raw@,
            offset: self.offset as int,
        }
    }
}

pub open spec fn is_name_start(c: char) -> bool {
    ('a' <= c && c <= 'z') || ('A' <= c && c <= 'Z') || c == '_'
}

pub open spec fn is_name_char(c: char) -> bool {
    is_name_start(c) || ('0' <= c && c <= '9')
}

pub fn name_char(c: char) -> (b: bool)
    ensures
        b == is_name_char(c),
{
    ('a' <= c && c <= 'z') || ('A' <= c && c <= 'Z') || c == '_' || ('0' <= c && c <= '9')
}

/// End of the identifier-character run starting at `p`.
pub open spec fn name_end(s: Seq<char>, p: int) -> int
    decreases s.len() - p,
{
    if p < 0 || p >= s.len() || !is_name_char(s[p]) {
        p
    } else {
        name_end(s, p + 1)
    }
}

pub proof fn lemma_name_end_props(s: Seq<char>, p: int)
    requires
        0 <= p <= s.len(),
    ensures
        p <= name_end(s, p) <= s.len(),
        name_end(s, p) == s.len() || !is_name_char(s[name_end(s, p)]),
        forall|k: int| p <= k < name_end(s, p) ==> is_name_char(s[k]),
    decreases s.len() - p,
{
    if p < s.len() && is_name_char(s[p]) {
        lemma_name_end_props(s, p + 1);
    }
}

pub fn run_name_end(s: &str, p: usize) -> (q: usize)
    requires
        p <= s@.len(),
    ensures
        q == name_end(s@, p as int),
        p <= q <= s@.len(),
{
    proof {
        lemma_name_end_props(s@, p as int);
    }
    let n: usize = s.unicode_len();
    let mut q: usize = p;
    while q < n
        invariant
            p <= q <= n,
            n == s@.len(),
            name_end(s@, p as int) == name_end(s@, q as int),
        decreases n - q,
    {
        if !name_char(s.get_char(q)) {
            return q;
        }
        q += 1;
    }
    q
}

/// End of an optional `(friend)` / `(package)` segment that may follow the
/// `public` modifier, with whitespace allowed around its parts.
pub open spec fn paren_group_end(s: Seq<char>, q: int) -> Option<int> {
    let a = skip_ws(s, q);
    if a < s.len() && s[a] == '(' {
        let b = skip_ws(s, a + 1);
        let k: int = if lit_at(s, b, "friend"@) {
            b + "friend"@.len()
        } else if lit_at(s, b, "package"@) {
            b + "package"@.len()
        } else {
            -1
        };
        if k >= 0 {
            let d = skip_ws(s, k);
            if d < s.len() && s[d] == ')' {
                Some(d + 1)
            } else {
                None
            }
        } else {
            None
        }
    } else {
        None
    }
}

/// End of one visibility or ability modifier (`public` with an optional
/// `(friend)`/`(package)` segment, `entry`, or `native`), including the
/// whitespace run that must follow it; `None` when no modifier starts at `p`.
pub open spec fn modifier_end(s: Seq<char>, p: int) -> Option<int> {
    if lit_at(s, p, "public"@) {
        let q = p + "public"@.len();
        let q2: int = match paren_group_end(s, q) {
            Some(e) => e,
            None => q,
        };
        if q2 < s.len() && is_ws(s[q2]) {
            Some(skip_ws(s, q2))
        } else {
            None
        }
    } else if lit_at(s, p, "entry"@) {
        let q = p + "entry"@.len();
        if q < s.len() && is_ws(s[q]) {
            Some(skip_ws(s, q))
        } else {
            None
        }
    } else if lit_at(s, p, "native"@) {
        let q = p + "native"@.len();
        if q < s.len() && is_ws(s[q]) {
            Some(skip_ws(s, q))
        } else {
            None
        }
    } else {
        None
    }
}

pub proof fn lemma_paren_group_end_props(s: Seq<char>, q: int)
    requires
        0 <= q <= s.len(),
    ensures
        match paren_group_end(s, q) {
            Some(e) => q < e <= s.len(),
            None => true,
        },
{
    lemma_skip_ws_props(s, q);
    let a = skip_ws(s, q);
    if a < s.len() && s[a] == '(' {
        lemma_skip_ws_props(s, a + 1);
        let b = skip_ws(s, a + 1);
        if lit_at(s, b, "friend"@) || lit_at(s, b, "package"@) {
            let k: int = if lit_at(s, b, "friend"@) {
                b + "friend"@.len()
            } else {
                b + "package"@.len()
            };
            lemma_skip_ws_props(s, k);
        }
    }
}

pub proof fn lemma_modifier_end_props(s: Seq<char>, p: int)
    requires
        0 <= p <= s.len(),
    ensures
        match modifier_end(s, p) {
            Some(e) => p < e <= s.len(),
            None => true,
        },
{
    reveal_strlit("public");
    reveal_strlit("entry");
    reveal_strlit("native");
    if lit_at(s, p, "public"@) {
        lemma_paren_group_end_props(s, p + "public"@.len());
        let q2: int = match paren_group_end(s, p + "public"@.len()) {
            Some(e) => e,
            None => p + "public"@.len(),
        };
        if q2 < s.len() && is_ws(s[q2]) {
            lemma_skip_ws_props(s, q2);
        }
    } else if lit_at(s, p, "entry"@) {
        let q = p + "entry"@.len();
        if q < s.len() && is_ws(s[q]) {
            lemma_skip_ws_props(s, q);
        }
    } else if lit_at(s, p, "native"@) {
        let q = p + "native"@.len();
        if q < s.len() && is_ws(s[q]) {
            lemma_skip_ws_props(s, q);
        }
    }
}

/// Position after the greedy run of modifiers starting at `p`.
pub open spec fn modifiers_end(s: Seq<char>, p: int) -> int
    decreases s.len() - p,
{
    match modifier_end(s, p) {
        Some(e) => if p < e && e <= s.len() {
            modifiers_end(s, e)
        } else {
            p
        },
        None => p,
    }
}

pub proof fn lemma_modifiers_end_props(s: Seq<char>, p: int)
    requires
        0 <= p <= s.len(),
    ensures
        p <= modifiers_end(s, p) <= s.len(),
    decreases s.len() - p,
{
    lemma_modifier_end_props(s, p);
    match modifier_end(s, p) {
        Some(e) => {
            lemma_modifiers_end_props(s, e);
        },
        None => {},
    }
}

/// Positions of the parts of one declaration match that begins at a line
/// start `p`: the name, the optional generic segment, the raw parameter
/// text, and the position just past the closing parenthesis.
pub struct SigParse {
    pub name_lo: int,
    pub name_hi: int,
    pub gen: Option<(int, int)>,
    pub par_lo: int,
    pub par_hi: int,
    pub end: int,
}

/// The parameter-list part of a match: an opening parenthesis at `q`,
/// then everything up to the first closing parenthesis.
pub open spec fn params_part(
    s: Seq<char>,
    n0: int,
    n1: int,
    gen: Option<(int, int)>,
    q: int,
) -> Option<SigParse> {
    if 0 <= q && q < s.len() && s[q] == '(' {
        match find_char(s, q + 1, ')') {
            Some(r) => Some(
                SigParse { name_lo: n0, name_hi: n1, gen, par_lo: q + 1, par_hi: r, end: r + 1 },
            ),
            None => None,
        }
    } else {
        None
    }
}

/// One attempted match at position `p`: leading whitespace, modifiers, the
/// `fun` keyword followed by whitespace, an identifier, an optional
/// `<...>` segment closed at its first `>`, and a parenthesized parameter
/// list closed at its first `)`.
pub open spec fn match_at(s: Seq<char>, p: int) -> Option<SigParse> {
    let m = modifiers_end(s, skip_ws(s, p));
    if lit_at(s, m, "fun"@) {
        let f = m + "fun"@.len();
        if f < s.len() && is_ws(s[f]) {
            let n0 = skip_ws(s, f);
            if n0 < s.len() && is_name_start(s[n0]) {
                let n1 = name_end(s, n0 + 1);
                let g0 = skip_ws(s, n1);
                if g0 < s.len() && s[g0] == '<' {
                    match find_char(s, g0 + 1, '>') {
                        Some(ge) => params_part(
                            s,
                            n0,
                            n1,
                            Some((g0, ge + 1)),
                            skip_ws(s, ge + 1),
                        ),
                        None => None,
                    }
                } else {
                    params_part(s, n0, n1, None, g0)
                }
            } else {
                None
            }
        } else {
            None
        }
    } else {
        None
    }
}

pub proof fn lemma_match_at_props(s: Seq<char>, p: int)
    requires
        0 <= p <= s.len(),
    ensures
        match match_at(s, p) {
            Some(m) => {
                &&& p < m.end <= s.len()
                &&& p <= m.name_lo < m.name_hi <= s.len()
                &&& m.name_hi <= m.par_lo <= m.par_hi < s.len()
                &&& m.end == m.par_hi + 1
                &&& match m.gen {
                    Some((a, b)) => m.name_hi <= a < b <= m.par_lo,
                    None => true,
                }
            },
            None => true,
        },
{
    reveal_strlit("fun");
    lemma_skip_ws_props(s, p);
    let w = skip_ws(s, p);
    lemma_modifiers_end_props(s, w);
    let m = modifiers_end(s, w);
    if lit_at(s, m, "fun"@) {
        let f = m + "fun"@.len();
        if f < s.len() && is_ws(s[f]) {
            lemma_skip_ws_props(s, f);
            let n0 = skip_ws(s, f);
            if n0 < s.len() && is_name_start(s[n0]) {
                lemma_name_end_props(s, n0 + 1);
                let n1 = name_end(s, n0 + 1);
                lemma_skip_ws_props(s, n1);
                let g0 = skip_ws(s, n1);
                if g0 < s.len() && s[g0] == '<' {
                    lemma_find_char_props(s, g0 + 1, '>');
                    match find_char(s, g0 + 1, '>') {
                        Some(ge) => {
                            lemma_skip_ws_props(s, ge + 1);
                            let q = skip_ws(s, ge + 1);
                            if 0 <= q && q < s.len() && s[q] == '(' {
                                lemma_find_char_props(s, q + 1, ')');
                            }
                        },
                        None => {},
                    }
                } else {
                    if g0 < s.len() && s[g0] == '(' {
                        lemma_find_char_props(s, g0 + 1, ')');
                    }
                }
            }
        }
    }
}

/// `p` is the start of a line: the start of the text, or just after a
/// line feed.
pub open spec fn is_line_start(s: Seq<char>, p: int) -> bool {
    p == 0 || (0 < p <= s.len() && s[p - 1] == '\n')
}

/// The model of a signature matched at line start `p`.
pub open spec fn sig_model(s: Seq<char>, p: int, m: SigParse) -> SigModel {
    SigModel {
        name: s.subrange(m.name_lo, m.name_hi),
        generics: match m.gen {
            Some((a, b)) => Some(s.subrange(a, b)),
            None => None,
        },
        params: s.subrange(m.par_lo, m.par_hi),
        offset: byte_offset(s, p),
    }
}

/// The signatures found from position `p` on: the scanner tries every line
/// start from left to right; a successful match is recorded and scanning
/// resumes just past it, so matches never overlap.
pub open spec fn scan(s: Seq<char>, p: int) -> Seq<SigModel>
    decreases s.len() - p,
{
    if p < 0 || p >= s.len() {
        Seq::empty()
    } else {
        match match_at(s, p) {
            Some(m) => if is_line_start(s, p) && p < m.end <= s.len() {
                seq![sig_model(s, p, m)] + scan(s, m.end)
            } else {
                scan(s, p + 1)
            },
            None => scan(s, p + 1),
        }
    }
}

/// All signatures of the text, in source order.
pub open spec fn signatures_of(s: Seq<char>) -> Seq<SigModel> {
    scan(s, 0)
}

pub proof fn lemma_scan_offsets(s: Seq<char>, p: int)
    requires
        0 <= p <= s.len(),
    ensures
        forall|i: int|
            0 <= i < scan(s, p).len() ==> #[trigger] scan(s, p)[i].offset >= byte_offset(s, p),
        forall|i: int, j: int|
            0 <= i < j < scan(s, p).len() ==> scan(s, p)[i].offset < scan(s, p)[j].offset,
    decreases s.len() - p,
{
    if 0 <= p && p < s.len() {
        lemma_match_at_props(s, p);
        lemma_byte_offset_step(s, p);
        crate::offsets::lemma_char_bytes_bounds(s[p]);
        match match_at(s, p) {
            Some(m) => {
                if is_line_start(s, p) && p < m.end && m.end <= s.len() {
                    lemma_scan_offsets(s, m.end);
                    lemma_byte_offset_mono(s, p + 1, m.end);
                    assert forall|i: int| 0 <= i < scan(s, p).len() implies #[trigger] scan(
                        s,
                        p,
                    )[i].offset >= byte_offset(s, p) by {
                        if i > 0 {
                            assert(scan(s, p)[i] == scan(s, m.end)[i - 1]);
                        }
                    }
                    assert forall|i: int, j: int| 0 <= i < j < scan(s, p).len() implies scan(
                        s,
                        p,
                    )[i].offset < scan(s, p)[j].offset by {
                        assert(scan(s, p)[j] == scan(s, m.end)[j - 1]);
                        if i > 0 {
                            assert(scan(s, p)[i] == scan(s, m.end)[i - 1]);
                        }
                    }
                } else {
                    lemma_scan_offsets(s, p + 1);
                }
            },
            None => {
                lemma_scan_offsets(s, p + 1);
            },
        }
    }
}

/// Whatever the input text, the extracted signatures carry strictly
/// increasing byte offsets, so they stand in left-to-right source order.
pub proof fn lemma_signature_offsets_increase(s: Seq<char>)
    ensures
        forall|i: int, j: int|
            0 <= i < j < signatures_of(s).len() ==> signatures_of(s)[i].offset < signatures_of(
                s,
            )[j].offset,
{
    lemma_scan_offsets(s, 0);
}

pub fn name_start_char(c: char) -> (b: bool)
    ensures
        b == is_name_start(c),
{
    ('a' <= c && c <= 'z') || ('A' <= c && c <= 'Z') || c == '_'
}

fn exec_paren_group_end(s: &str, q: usize) -> (r: Option<usize>)
    requires
        q <= s@.len(),
    ensures
        match r {
            Some(e) => paren_group_end(s@, q as int) == Some(e as int) && q < e <= s@.len(),
            None => paren_group_end(s@, q as int) is None,
        },
{
    proof {
        reveal_strlit("friend");
        reveal_strlit("package");
        lemma_paren_group_end_props(s@, q as int);
    }
    let n: usize = s.unicode_len();
    let a: usize = run_ws(s, q);
    if a < n && s.get_char(a) == '(' {
        let b: usize = run_ws(s, a + 1);
        let k: usize;
        if check_lit_at(s, b, "friend") {
            k = b + 6;
        } else if check_lit_at(s, b, "package") {
            k = b + 7;
        } else {
            return None;
        }
        let d: usize = run_ws(s, k);
        if d < n && s.get_char(d) == ')' {
            Some(d + 1)
        } else {
            None
        }
    } else {
        None
    }
}

fn exec_modifier_end(s: &str, p: usize) -> (r: Option<usize>)
    requires
        p <= s@.len(),
    ensures
        match r {
            Some(e) => modifier_end(s@, p as int) == Some(e as int) && p < e <= s@.len(),
            None => modifier_end(s@, p as int) is None,
        },
{
    proof {
        reveal_strlit("public");
        reveal_strlit("entry");
        reveal_strlit("native");
        lemma_modifier_end_props(s@, p as int);
    }
    let n: usize = s.unicode_len();
    if check_lit_at(s, p, "public") {
        let q: usize = p + 6;
        let q2: usize = match exec_paren_group_end(s, q) {
            Some(e) => e,
            None => q,
        };
        if q2 < n && ws_char(s.get_char(q2)) {
            Some(run_ws(s, q2))
        } else {
            None
        }
    } else if check_lit_at(s, p, "entry") {
        let q: usize = p + 5;
        if q < n && ws_char(s.get_char(q)) {
            Some(run_ws(s, q))
        } else {
            None
        }
    } else if check_lit_at(s, p, "native") {
        let q: usize = p + 6;
        if q < n && ws_char(s.get_char(q)) {
            Some(run_ws(s, q))
        } else {
            None
        }
    } else {
        None
    }
}

fn exec_modifiers_end(s: &str, p: usize) -> (q: usize)
    requires
        p <= s@.len(),
    ensures
        q == modifiers_end(s@, p as int),
        p <= q <= s@.len(),
{
    proof {
        lemma_modifiers_end_props(s@, p as int);
    }
    let mut cur: usize = p;
    loop
        invariant
            p <= cur <= s@.len(),
            modifiers_end(s@, p as int) == modifiers_end(s@, cur as int),
        ensures
            cur == modifiers_end(s@, p as int),
        decreases s@.len() - cur,
    {
        match exec_modifier_end(s, cur) {
            Some(e) => {
                cur = e;
            },
            None => {
                return cur;
            },
        }
    }
}

/// Positions of the parts of one match, as the executable scanner holds them.
pub struct SigSpan {
    pub name_lo: usize,
    pub name_hi: usize,
    pub gen: Option<(usize, usize)>,
    pub par_lo: usize,
    pub par_hi: usize,
    pub end: usize,
}

pub open spec fn gen_view(g: Option<(usize, usize)>) -> Option<(int, int)> {
    match g {
        Some((a, b)) => Some((a as int, b as int)),
        None => None,
    }
}

pub open spec fn span_matches(sp: SigParse, m: SigSpan) -> bool {
    &&& sp.name_lo == m.name_lo as int
    &&& sp.name_hi == m.name_hi as int
    &&& sp.gen == gen_view(m.gen)
    &&& sp.par_lo == m.par_lo as int
    &&& sp.par_hi == m.par_hi as int
    &&& sp.end == m.end as int
}

fn exec_params_part(s: &str, n0: usize, n1: usize, gen: Option<(usize, usize)>, q: usize) -> (r:
    Option<SigSpan>)
    requires
        q <= s@.len(),
    ensures
        match r {
            Some(m) => params_part(s@, n0 as int, n1 as int, gen_view(gen), q as int)
                matches Some(sp) && span_matches(sp, m),
            None => params_part(s@, n0 as int, n1 as int, gen_view(gen), q as int) is None,
        },
{
    let n: usize = s.unicode_len();
    if q < n && s.get_char(q) == '(' {
        proof {
            lemma_find_char_props(s@, q + 1, ')');
        }
        match search_char(s, q + 1, ')') {
            Some(r2) => Some(
                SigSpan { name_lo: n0, name_hi: n1, gen, par_lo: q + 1, par_hi: r2, end: r2 + 1 },
            ),
            None => None,
        }
    } else {
        None
    }
}

fn exec_match_at(s: &str, p: usize) -> (r: Option<SigSpan>)
    requires
        p <= s@.len(),
    ensures
        match r {
            Some(m) => match_at(s@, p as int) matches Some(sp) && span_matches(sp, m),
            None => match_at(s@, p as int) is None,
        },
{
    proof {
        reveal_strlit("fun");
    }
    let n: usize = s.unicode_len();
    let w: usize = run_ws(s, p);
    let m0: usize = exec_modifiers_end(s, w);
    if check_lit_at(s, m0, "fun") {
        let f: usize = m0 + 3;
        if f < n && ws_char(s.get_char(f)) {
            let n0: usize = run_ws(s, f);
            if n0 < n && name_start_char(s.get_char(n0)) {
                let n1: usize = run_name_end(s, n0 + 1);
                let g0: usize = run_ws(s, n1);
                if g0 < n && s.get_char(g0) == '<' {
                    proof {
                        lemma_find_char_props(s@, g0 + 1, '>');
                    }
                    match search_char(s, g0 + 1, '>') {
                        Some(ge) => {
                            let q: usize = run_ws(s, ge + 1);
                            exec_params_part(s, n0, n1, Some((g0, ge + 1)), q)
                        },
                        None => None,
                    }
                } else {
                    exec_params_part(s, n0, n1, None, g0)
                }
            } else {
                None
            }
        } else {
            None
        }
    } else {
        None
    }
}

/// Carry a byte offset from character position `from` to `to`.
fn advance_bytes(s: &str, from: usize, to: usize, b: usize) -> (nb: usize)
    requires
        from <= to <= s@.len(),
        b == byte_offset(s@, from as int),
        encode_utf8(s@).len() <= usize::MAX,
    ensures
        nb == byte_offset(s@, to as int),
{
    let mut pos: usize = from;
    let mut bpos: usize = b;
    while pos < to
        invariant
            from <= pos <= to <= s@.len(),
            bpos == byte_offset(s@, pos as int),
            encode_utf8(s@).len() <= usize::MAX,
        decreases to - pos,
    {
        let c = s.get_char(pos);
        proof {
            lemma_byte_offset_step(s@, pos as int);
            lemma_byte_offset_mono(s@, pos + 1, s@.len() as int);
            lemma_byte_offset_total(s@);
        }
        bpos = bpos + width_of_char(c);
        pos = pos + 1;
    }
    bpos
}

/// Scan the whole text and return every matched declaration, in source
/// order. The length of the result and the model of each element are fixed
/// by `signatures_of` on the text's characters alone.
pub fn extract_signatures(code: &str) -> (sigs: Vec<RawSignature>)
    ensures
        sigs@.len() == signatures_of(code@).len(),
        forall|i: int| 0 <= i < sigs@.len() ==> #[trigger] sigs@[i]@ == signatures_of(code@)[i],
{
    let n: usize = code.unicode_len();
    let total: usize = code.as_bytes().len();
    proof {
        broadcast use vstd::slice::axiom_spec_len;

        assert(total == encode_utf8(code@).len());
        lemma_byte_offset_zero(code@);
    }
    let mut sigs: Vec<RawSignature> = Vec::new();
    let mut pos: usize = 0;
    let mut bpos: usize = 0;
    let mut line_start: bool = true;
    while pos < n
        invariant
            pos <= n,
            n == code@.len(),
            bpos == byte_offset(code@, pos as int),
            encode_utf8(code@).len() <= usize::MAX,
            line_start == is_line_start(code@, pos as int),
            signatures_of(code@) =~= sigs@.map_values(|r: RawSignature| r@) + scan(
                code@,
                pos as int,
            ),
        decreases n - pos,
    {
        proof {
            lemma_match_at_props(code@, pos as int);
        }
        let attempt: Option<SigSpan> = if line_start {
            exec_match_at(code, pos)
        } else {
            None
        };
        match attempt {
            Some(m) => {
                let ghost sp = match_at(code@, pos as int)->Some_0;
                let ghost old_sigs = sigs@;
                let name = code.substring_char(m.name_lo, m.name_hi).to_owned();
                let generics: Option<String> = match m.gen {
                    Some((a, b)) => Some(code.substring_char(a, b).to_owned()),
                    None => None,
                };
                let params_raw = code.substring_char(m.par_lo, m.par_hi).to_owned();
                let rs = RawSignature { name, generics, params_raw, offset: bpos };
                proof {
                    assert(rs@ == sig_model(code@, pos as int, sp));
                    assert(scan(code@, pos as int) =~= seq![sig_model(code@, pos as int, sp)]
                        + scan(code@, sp.end));
                }
                sigs.push(rs);
                proof {
                    assert(sigs@.map_values(|r: RawSignature| r@) =~= old_sigs.map_values(
                        |r: RawSignature| r@,
                    ).push(rs@));
                    assert(signatures_of(code@) =~= sigs@.map_values(|r: RawSignature| r@) + scan(
                        code@,
                        sp.end,
                    ));
                }
                bpos = advance_bytes(code, pos, m.end, bpos);
                pos = m.end;
                line_start = code.get_char(pos - 1) == '\n';
            },
            None => {
                let c = code.get_char(pos);
                proof {
                    lemma_byte_offset_step(code@, pos as int);
                    lemma_byte_offset_mono(code@, pos + 1, n as int);
                    lemma_byte_offset_total(code@);
                    assert(scan(code@, pos as int) =~= scan(code@, pos + 1));
                }
                bpos = bpos + width_of_char(c);
                line_start = c == '\n';
                pos = pos + 1;
            },
        }
    }
    proof {
        assert(scan(code@, pos as int) =~= Seq::<SigModel>::empty());
        assert(signatures_of(code@) =~= sigs@.map_values(|r: RawSignature| r@));
    }
    sigs
}

} // verus!

//! Parameter naming and rendering. Each comma-separated slice of a raw
//! parameter list is trimmed; blank slices are dropped. A slice with a
//! non-blank text before its first colon keeps that text as its name; any
//! other slice has a name inferred from its type text by a fixed ladder of
//! substring rules, evaluated in priority order, where the unsigned-integer
//! rule alone also consults the enclosing function's name. Survivors render
//! as `name: type`, joined by `", "` in their source order.

use vstd::prelude::*;

verus! {

use crate::text::{contains_range, contains_text, find_in, lemma_contains_shift,
    lemma_find_in_props, lemma_trim_end_props, lemma_trim_start_props, run_trim_end,
    run_trim_start, search_char_in, search_range, text_eq, trim_end, trim_start};
use vstd::string::{StrSliceExecFns, StringExecFns};

/// The display name inferred for an unnamed parameter from its type text
/// `ty`, inside a function named `fname`. First matching rule wins.
pub open spec fn infer_name(ty: Seq<char>, fname: Seq<char>) -> Seq<char> {
    if contains_text(ty, "0x1::coin::Coin<MOD>"@) {
        "coin"@
    } else if contains_text(ty, "0x1::fungible_asset::FungibleAsset"@) {
        "fa"@
    } else if contains_text(ty, "signer"@) {
        "signer"@
    } else if contains_text(ty, "vector<address>"@) {
        "addresses"@
    } else if contains_text(ty, "u64"@) {
        if fname == "mint"@ || fname == "mint_fa"@ || fname == "reconcile"@ {
            "amount"@
        } else if fname == "burn_from"@ {
            "burn_amount"@
        } else {
            "value"@
        }
    } else if contains_text(ty, "address"@) {
        "addr"@
    } else {
        "value"@
    }
}

/// Rendered form of one parameter whose trimmed text is `s[ts..te]`
/// (non-empty): `name: type`, the name explicit when a non-blank text
/// stands before the first colon, inferred otherwise.
pub open spec fn render_core(s: Seq<char>, ts: int, te: int, fname: Seq<char>) -> Seq<char> {
    match find_in(s, ts, te, ':') {
        Some(i) => {
            let lhs_hi = trim_end(s, ts, i);
            let ty_lo = trim_start(s, i + 1, te);
            let ty_hi = trim_end(s, ty_lo, te);
            let ty = s.subrange(ty_lo, ty_hi);
            if lhs_hi > ts {
                s.subrange(ts, lhs_hi) + ": "@ + ty
            } else {
                infer_name(ty, fname) + ": "@ + ty
            }
        },
        None => infer_name(s.subrange(ts, te), fname) + ": "@ + s.subrange(ts, te),
    }
}

/// The comma-separated slices of `s` from position `p` on, as ranges.
pub open spec fn segments(s: Seq<char>, p: int) -> Seq<(int, int)>
    decreases s.len() - p,
{
    if p < 0 || p > s.len() {
        Seq::empty()
    } else {
        match find_in(s, p, s.len() as int, ',') {
            Some(i) => if p <= i < s.len() {
                seq![(p, i)] + segments(s, i + 1)
            } else {
                seq![(p, s.len() as int)]
            },
            None => seq![(p, s.len() as int)],
        }
    }
}

/// Rendered forms of the surviving (non-blank) slices, in order.
pub open spec fn rendered_list(s: Seq<char>, segs: Seq<(int, int)>, fname: Seq<char>) -> Seq<
    Seq<char>,
>
    decreases segs.len(),
{
    if segs.len() == 0 {
        Seq::empty()
    } else {
        let (lo, hi) = segs[0];
        let ts = trim_start(s, lo, hi);
        let te = trim_end(s, ts, hi);
        let rest = rendered_list(s, segs.drop_first(), fname);
        if ts < te {
            seq![render_core(s, ts, te, fname)] + rest
        } else {
            rest
        }
    }
}

/// The items joined with `", "` between them.
pub open spec fn join_comma(items: Seq<Seq<char>>) -> Seq<char>
    decreases items.len(),
{
    if items.len() == 0 {
        Seq::empty()
    } else if items.len() == 1 {
        items[0]
    } else {
        items[0] + ", "@ + join_comma(items.drop_first())
    }
}

pub proof fn lemma_join_comma_push(items: Seq<Seq<char>>, x: Seq<char>)
    ensures
        join_comma(items.push(x)) =~= if items.len() == 0 {
            x
        } else {
            join_comma(items) + ", "@ + x
        },
    decreases items.len(),
{
    if items.len() == 0 {
        assert(items.push(x).len() == 1);
        assert(items.push(x)[0] == x);
    } else {
        assert(items.push(x).drop_first() =~= items.drop_first().push(x));
        lemma_join_comma_push(items.drop_first(), x);
        if items.len() == 1 {
            assert(join_comma(items) == items[0]);
        }
    }
}

/// The full rendered parameter string for raw text `s` inside a function
/// named `fname`.
pub open spec fn params_text(s: Seq<char>, fname: Seq<char>) -> Seq<char> {
    join_comma(rendered_list(s, segments(s, 0), fname))
}

/// The inferred name of an unnamed parameter whose type text holds the
/// signer marker — and neither of the two higher-priority asset markers —
/// is `signer`, whatever the enclosing function is called.
pub proof fn lemma_signer_name_uniform(ty: Seq<char>, f1: Seq<char>, f2: Seq<char>)
    requires
        contains_text(ty, "signer"@),
        !contains_text(ty, "0x1::coin::Coin<MOD>"@),
        !contains_text(ty, "0x1::fungible_asset::FungibleAsset"@),
    ensures
        infer_name(ty, f1) == "signer"@,
        infer_name(ty, f1) == infer_name(ty, f2),
{
}

fn infer_name_exec(s: &str, lo: usize, hi: usize, fname: &str) -> (r: &'static str)
    requires
        lo <= hi <= s@.len(),
    ensures
        r@ == infer_name(s@.subrange(lo as int, hi as int), fname@),
{
    proof {
        lemma_contains_shift(s@, lo as int, hi as int, "0x1::coin::Coin<MOD>"@);
        lemma_contains_shift(s@, lo as int, hi as int, "0x1::fungible_asset::FungibleAsset"@);
        lemma_contains_shift(s@, lo as int, hi as int, "signer"@);
        lemma_contains_shift(s@, lo as int, hi as int, "vector<address>"@);
        lemma_contains_shift(s@, lo as int, hi as int, "u64"@);
        lemma_contains_shift(s@, lo as int, hi as int, "address"@);
    }
    if search_range(s, lo, hi, "0x1::coin::Coin<MOD>") {
        "coin"
    } else if search_range(s, lo, hi, "0x1::fungible_asset::FungibleAsset") {
        "fa"
    } else if search_range(s, lo, hi, "signer") {
        "signer"
    } else if search_range(s, lo, hi, "vector<address>") {
        "addresses"
    } else if search_range(s, lo, hi, "u64") {
        if text_eq(fname, "mint") || text_eq(fname, "mint_fa") || text_eq(fname, "reconcile") {
            "amount"
        } else if text_eq(fname, "burn_from") {
            "burn_amount"
        } else {
            "value"
        }
    } else if search_range(s, lo, hi, "address") {
        "addr"
    } else {
        "value"
    }
}

fn render_core_exec(s: &str, ts: usize, te: usize, fname: &str) -> (r: String)
    requires
        ts <= te <= s@.len(),
    ensures
        r@ == render_core(s@, ts as int, te as int, fname@),
{
    let mut r = String::new();
    match search_char_in(s, ts, te, ':') {
        Some(i) => {
            let lhs_hi: usize = run_trim_end(s, ts, i);
            let ty_lo: usize = run_trim_start(s, i + 1, te);
            let ty_hi: usize = run_trim_end(s, ty_lo, te);
            if lhs_hi > ts {
                r.append(s.substring_char(ts, lhs_hi));
            } else {
                r.append(infer_name_exec(s, ty_lo, ty_hi, fname));
            }
            r.append(": ");
            r.append(s.substring_char(ty_lo, ty_hi));
        },
        None => {
            r.append(infer_name_exec(s, ts, te, fname));
            r.append(": ");
            r.append(s.substring_char(ts, te));
        },
    }
    r
}

/// Render a raw parameter list: split on commas, drop blank slices, name
/// each survivor and join the renderings with `", "`. The result is fixed
/// by the raw text and the function name alone.
pub fn process_params(params_raw: &str, function_name: &str) -> (res: String)
    ensures
        res@ == params_text(params_raw@, function_name@),
{
    let n: usize = params_raw.unicode_len();
    let mut out = String::new();
    let mut first: bool = true;
    let mut pos: usize = 0;
    let ghost full = rendered_list(params_raw@, segments(params_raw@, 0), function_name@);
    let ghost mut done: Seq<Seq<char>> = Seq::empty();
    loop
        invariant_except_break
            pos <= n,
            n == params_raw@.len(),
            full == rendered_list(params_raw@, segments(params_raw@, 0), function_name@),
            full =~= done + rendered_list(
                params_raw@,
                segments(params_raw@, pos as int),
                function_name@,
            ),
            out@ == join_comma(done),
            first <==> done.len() == 0,
        ensures
            out@ == join_comma(full),
        decreases n - pos,
    {
        let r = search_char_in(params_raw, pos, n, ',');
        let hi: usize = match r {
            Some(i) => i,
            None => n,
        };
        let ghost segs_here = segments(params_raw@, pos as int);
        proof {
            match r {
                Some(i) => {
                    assert(segs_here =~= seq![(pos as int, i as int)] + segments(
                        params_raw@,
                        i + 1,
                    ));
                    assert(segs_here.drop_first() =~= segments(params_raw@, i + 1));
                },
                None => {
                    assert(segs_here =~= seq![(pos as int, n as int)]);
                    assert(segs_here.drop_first() =~= Seq::<(int, int)>::empty());
                },
            }
            assert(segs_here[0] == (pos as int, hi as int));
        }
        let ts: usize = run_trim_start(params_raw, pos, hi);
        let te: usize = run_trim_end(params_raw, ts, hi);
        if ts < te {
            let piece = render_core_exec(params_raw, ts, te, function_name);
            proof {
                lemma_join_comma_push(done, piece@);
            }
            if first {
                out.append(piece.as_str());
            } else {
                out.append(", ");
                out.append(piece.as_str());
            }
            proof {
                done = done.push(piece@);
            }
            first = false;
        }
        match r {
            Some(i) => {
                pos = i + 1;
            },
            None => {
                proof {
                    assert(rendered_list(
                        params_raw@,
                        Seq::<(int, int)>::empty(),
                        function_name@,
                    ) =~= Seq::<Seq<char>>::empty());
                    assert(full =~= done);
                }
                break;
            },
        }
    }
    out
}

} // verus!

//! Clause synthesis and template rendering. Each discovered function name
//! selects a fixed clause set from a closed catalog, evaluated in priority
//! order: the exact catalog entries first, then a substring check for
//! `freeze`, then a default set holding only the initialization
//! precondition. The selection is a function of the literal name alone —
//! never of parameter types or arity. The renderer emits one fixed
//! module-level invariant block, then one annotated block per discovered
//! signature in source order; with no signatures at all it emits a single
//! informational line after the module block instead.

use vstd::prelude::*;

verus! {

use crate::params::{params_text, process_params};
use crate::signatures::{RawSignature, SigModel, extract_signatures, signatures_of};
use crate::text::{append_dec, contains_text, dec_str, search_range, text_eq};
use vstd::string::{StrSliceExecFns, StringExecFns};

#[derive(Clone, Copy)]
pub enum ClauseKind {
    Requires,
    Ensures,
}

/// One synthesized clause: its kind keyword, its text, and an optional
/// human-readable comment emitted on the line above it.
pub struct Clause {
    pub kind: ClauseKind,
    pub text: &'static str,
    pub comment: Option<&'static str>,
}

/// Mathematical model of one clause.
pub struct ClauseModel {
    pub kind: ClauseKind,
    pub text: Seq<char>,
    pub comment: Option<Seq<char>>,
}

impl View for Clause {
    type V = ClauseModel;

    open spec fn view(&self) -> ClauseModel {
        ClauseModel {
            kind: self.kind,
            text: self.text@,
            comment: match self.comment {
                Some(m) => Some(m@),
                None => None,
            },
        }
    }
}

pub open spec fn views_of(cs: Seq<Clause>) -> Seq<ClauseModel> {
    cs.map_values(|c: Clause| c@)
}

/// The clause set selected for a function name. First matching rule wins:
/// the exact catalog names, then any name containing `freeze`, then the
/// default set with only the initialization precondition.
pub open spec fn clause_set(fname: Seq<char>) -> Seq<ClauseModel> {
    if fname == "burn"@ {
        seq![
            ClauseModel {
                kind: ClauseKind::Requires,
                text: "initialized()"@,
                comment: Some("Module must be initialized"@),
            },
            ClauseModel {
                kind: ClauseKind::Requires,
                text: "exists<Capabilities>(resource_account_address())"@,
                comment: Some("Burn capability must exist"@),
            },
            ClauseModel {
                kind: ClauseKind::Ensures,
                text: "coin.value > 0 ==> total_supply == old(total_supply) - coin.value"@,
                comment: Some("Supply changes"@),
            },
            ClauseModel {
                kind: ClauseKind::Ensures,
                text: "coin.value == 0 ==> total_supply == old(total_supply)"@,
                comment: None,
            },
        ]
    } else if fname == "burn_from"@ {
        seq![
            ClauseModel {
                kind: ClauseKind::Requires,
                text: "is_authorized(signer)"@,
                comment: Some("Authorization required"@),
            },
            ClauseModel {
                kind: ClauseKind::Requires,
                text: "exists<Capabilities>(resource_account_address())"@,
                comment: Some("Burn capability must exist"@),
            },
            ClauseModel {
                kind: ClauseKind::Requires,
                text: "burn_amount > 0"@,
                comment: Some("Amount checks"@),
            },
            ClauseModel {
                kind: ClauseKind::Requires,
                text: "coin_store[addr].value >= burn_amount"@,
                comment: None,
            },
            ClauseModel {
                kind: ClauseKind::Ensures,
                text: "total_supply == old(total_supply) - burn_amount"@,
                comment: None,
            },
        ]
    } else if fname == "initialize"@ {
        seq![
            ClauseModel {
                kind: ClauseKind::Requires,
                text: "!initialized()"@,
                comment: Some("Can only initialize once"@),
            },
            ClauseModel {
                kind: ClauseKind::Ensures,
                text: "initialized()"@,
                comment: Some("Post-conditions"@),
            },
            ClauseModel {
                kind: ClauseKind::Ensures,
                text: "exists<Capabilities>(resource_account_address())"@,
                comment: None,
            },
            ClauseModel { kind: ClauseKind::Ensures, text: "total_supply == 0"@, comment: None },
        ]
    } else if fname == "mint"@ || fname == "mint_fa"@ {
        seq![
            ClauseModel {
                kind: ClauseKind::Requires,
                text: "initialized()"@,
                comment: Some("Module must be initialized"@),
            },
            ClauseModel {
                kind: ClauseKind::Requires,
                text: "exists<Capabilities>(resource_account_address())"@,
                comment: Some("Mint capability must exist"@),
            },
            ClauseModel {
                kind: ClauseKind::Requires,
                text: "amount > 0"@,
                comment: Some("Amount checks"@),
            },
            ClauseModel {
                kind: ClauseKind::Ensures,
                text: "result.value == amount"@,
                comment: None,
            },
            ClauseModel {
                kind: ClauseKind::Ensures,
                text: "total_supply == old(total_supply) + amount"@,
                comment: None,
            },
        ]
    } else if fname == "initialized"@ {
        seq![
            ClauseModel {
                kind: ClauseKind::Ensures,
                text: "result == exists<Capabilities>(resource_account_address())"@,
                comment: Some("Check capabilities existence"@),
            },
        ]
    } else if fname == "metadata"@ {
        seq![
            ClauseModel {
                kind: ClauseKind::Requires,
                text: "initialized()"@,
                comment: Some("Module must be initialized"@),
            },
            ClauseModel {
                kind: ClauseKind::Ensures,
                text: "exists<0x1::fungible_asset::Metadata>(result)"@,
                comment: Some("Metadata must exist"@),
            },
        ]
    } else if fname == "reconcile"@ {
        seq![
            ClauseModel {
                kind: ClauseKind::Requires,
                text: "is_authorized(signer)"@,
                comment: Some("Authorization required"@),
            },
            ClauseModel {
                kind: ClauseKind::Requires,
                text: "initialized()"@,
                comment: Some("Module must be initialized"@),
            },
            ClauseModel {
                kind: ClauseKind::Ensures,
                text: "balance(signer_address()) == old(balance(signer_address())) + amount"@,
                comment: Some("Balance changes"@),
            },
        ]
    } else if contains_text(fname, "freeze"@) {
        seq![
            ClauseModel {
                kind: ClauseKind::Requires,
                text: "is_authorized(signer)"@,
                comment: Some("Authorization required"@),
            },
            ClauseModel {
                kind: ClauseKind::Requires,
                text: "exists<Capabilities>(resource_account_address())"@,
                comment: Some("Freeze capability must exist"@),
            },
            ClauseModel {
                kind: ClauseKind::Ensures,
                text: "forall addr in addresses: is_frozen(addr)"@,
                comment: Some("Post-conditions"@),
            },
        ]
    } else {
        seq![
            ClauseModel {
                kind: ClauseKind::Requires,
                text: "initialized()"@,
                comment: Some("Module must be initialized"@),
            },
        ]
    }
}

/// The rendered lines of one clause: its comment line when present, then
/// the clause line itself.
pub open spec fn clause_render(c: ClauseModel) -> Seq<char> {
    (match c.comment {
        Some(m) => "    \x1b[1;36m// "@ + m + "\x1b[0m\n"@,
        None => Seq::<char>::empty(),
    }) + "    "@ + (match c.kind {
        ClauseKind::Requires => "requires"@,
        ClauseKind::Ensures => "ensures"@,
    }) + " "@ + c.text + ";\n"@
}

pub open spec fn render_clauses(cs: Seq<ClauseModel>) -> Seq<char>
    decreases cs.len(),
{
    if cs.len() == 0 {
        Seq::empty()
    } else {
        clause_render(cs[0]) + render_clauses(cs.drop_first())
    }
}

/// The rendered clause lines selected for a function name.
pub open spec fn clause_lines(fname: Seq<char>) -> Seq<char> {
    render_clauses(clause_set(fname))
}

pub proof fn lemma_render_clauses_push(cs: Seq<ClauseModel>, c: ClauseModel)
    ensures
        render_clauses(cs.push(c)) =~= render_clauses(cs) + clause_render(c),
    decreases cs.len(),
{
    let p = cs.push(c);
    if cs.len() == 0 {
        assert(p.len() == 1);
        assert(p[0] == c);
        assert(p.drop_first() =~= Seq::<ClauseModel>::empty());
        assert(render_clauses(p.drop_first()) == Seq::<char>::empty());
        assert(render_clauses(p) =~= clause_render(c));
        assert(render_clauses(cs) == Seq::<char>::empty());
    } else {
        assert(p.len() == cs.len() + 1);
        assert(p[0] == cs[0]);
        assert(p.drop_first() =~= cs.drop_first().push(c));
        lemma_render_clauses_push(cs.drop_first(), c);
        assert(render_clauses(p) == clause_render(cs[0]) + render_clauses(p.drop_first()));
        assert(render_clauses(p.drop_first()) == render_clauses(cs.drop_first()) + clause_render(
            c,
        ));
        assert(render_clauses(cs) == clause_render(cs[0]) + render_clauses(cs.drop_first()));
    }
}

/// The ordered clause catalog: the fixed clause set for one function name.
pub fn clause_catalog(function_name: &str) -> (cs: Vec<Clause>)
    ensures
        views_of(cs@) == clause_set(function_name@),
{
    let n: usize = function_name.unicode_len();
    let mut v: Vec<Clause> = Vec::new();
    if text_eq(function_name, "burn") {
        v.push(Clause {
            kind: ClauseKind::Requires,
            text: "initialized()",
            comment: Some("Module must be initialized"),
        });
        v.push(Clause {
            kind: ClauseKind::Requires,
            text: "exists<Capabilities>(resource_account_address())",
            comment: Some("Burn capability must exist"),
        });
        v.push(Clause {
            kind: ClauseKind::Ensures,
            text: "coin.value > 0 ==> total_supply == old(total_supply) - coin.value",
            comment: Some("Supply changes"),
        });
        v.push(Clause {
            kind: ClauseKind::Ensures,
            text: "coin.value == 0 ==> total_supply == old(total_supply)",
            comment: None,
        });
    } else if text_eq(function_name, "burn_from") {
        v.push(Clause {
            kind: ClauseKind::Requires,
            text: "is_authorized(signer)",
            comment: Some("Authorization required"),
        });
        v.push(Clause {
            kind: ClauseKind::Requires,
            text: "exists<Capabilities>(resource_account_address())",
            comment: Some("Burn capability must exist"),
        });
        v.push(Clause {
            kind: ClauseKind::Requires,
            text: "burn_amount > 0",
            comment: Some("Amount checks"),
        });
        v.push(Clause {
            kind: ClauseKind::Requires,
            text: "coin_store[addr].value >= burn_amount",
            comment: None,
        });
        v.push(Clause {
            kind: ClauseKind::Ensures,
            text: "total_supply == old(total_supply) - burn_amount",
            comment: None,
        });
    } else if text_eq(function_name, "initialize") {
        v.push(Clause {
            kind: ClauseKind::Requires,
            text: "!initialized()",
            comment: Some("Can only initialize once"),
        });
        v.push(Clause {
            kind: ClauseKind::Ensures,
            text: "initialized()",
            comment: Some("Post-conditions"),
        });
        v.push(Clause {
            kind: ClauseKind::Ensures,
            text: "exists<Capabilities>(resource_account_address())",
            comment: None,
        });
        v.push(Clause { kind: ClauseKind::Ensures, text: "total_supply == 0", comment: None });
    } else if text_eq(function_name, "mint") || text_eq(function_name, "mint_fa") {
        v.push(Clause {
            kind: ClauseKind::Requires,
            text: "initialized()",
            comment: Some("Module must be initialized"),
        });
        v.push(Clause {
            kind: ClauseKind::Requires,
            text: "exists<Capabilities>(resource_account_address())",
            comment: Some("Mint capability must exist"),
        });
        v.push(Clause {
            kind: ClauseKind::Requires,
            text: "amount > 0",
            comment: Some("Amount checks"),
        });
        v.push(Clause { kind: ClauseKind::Ensures, text: "result.value == amount", comment: None });
        v.push(Clause {
            kind: ClauseKind::Ensures,
            text: "total_supply == old(total_supply) + amount",
            comment: None,
        });
    } else if text_eq(function_name, "initialized") {
        v.push(Clause {
            kind: ClauseKind::Ensures,
            text: "result == exists<Capabilities>(resource_account_address())",
            comment: Some("Check capabilities existence"),
        });
    } else if text_eq(function_name, "metadata") {
        v.push(Clause {
            kind: ClauseKind::Requires,
            text: "initialized()",
            comment: Some("Module must be initialized"),
        });
        v.push(Clause {
            kind: ClauseKind::Ensures,
            text: "exists<0x1::fungible_asset::Metadata>(result)",
            comment: Some("Metadata must exist"),
        });
    } else if text_eq(function_name, "reconcile") {
        v.push(Clause {
            kind: ClauseKind::Requires,
            text: "is_authorized(signer)",
            comment: Some("Authorization required"),
        });
        v.push(Clause {
            kind: ClauseKind::Requires,
            text: "initialized()",
            comment: Some("Module must be initialized"),
        });
        v.push(Clause {
            kind: ClauseKind::Ensures,
            text: "balance(signer_address()) == old(balance(signer_address())) + amount",
            comment: Some("Balance changes"),
        });
    } else if search_range(function_name, 0, n, "freeze") {
        v.push(Clause {
            kind: ClauseKind::Requires,
            text: "is_authorized(signer)",
            comment: Some("Authorization required"),
        });
        v.push(Clause {
            kind: ClauseKind::Requires,
            text: "exists<Capabilities>(resource_account_address())",
            comment: Some("Freeze capability must exist"),
        });
        v.push(Clause {
            kind: ClauseKind::Ensures,
            text: "forall addr in addresses: is_frozen(addr)",
            comment: Some("Post-conditions"),
        });
    } else {
        v.push(Clause {
            kind: ClauseKind::Requires,
            text: "initialized()",
            comment: Some("Module must be initialized"),
        });
    }
    proof {
        assert(views_of(v@) =~= clause_set(function_name@));
    }
    v
}

fn append_clause(out: &mut String, c: &Clause)
    ensures
        final(out)@ == old(out)@ + clause_render(c@),
{
    match c.comment {
        Some(m) => {
            out.append("    \x1b[1;36m// ");
            out.append(m);
            out.append("\x1b[0m\n");
        },
        None => {},
    }
    out.append("    ");
    match c.kind {
        ClauseKind::Requires => out.append("requires"),
        ClauseKind::Ensures => out.append("ensures"),
    }
    out.append(" ");
    out.append(c.text);
    out.append(";\n");
    proof {
        assert(out@ =~= old(out)@ + clause_render(c@));
    }
}

/// Append the clause lines selected for `function_name`. The parameter
/// string plays no part in the selection; it is accepted so that a caller
/// holding one can pass it along, as the renderer does.
pub fn generate_function_specs(spec_template: &mut String, function_name: &str, _params: &str)
    ensures
        final(spec_template)@ == old(spec_template)@ + clause_lines(function_name@),
{
    let cs = clause_catalog(function_name);
    let ghost start = spec_template@;
    let ghost models = views_of(cs@);
    let mut i: usize = 0;
    while i < cs.len()
        invariant
            i <= cs@.len(),
            models == views_of(cs@),
            spec_template@ == start + render_clauses(models.take(i as int)),
        decreases cs@.len() - i,
    {
        proof {
            lemma_render_clauses_push(models.take(i as int), models[i as int]);
            assert(models.take(i + 1) =~= models.take(i as int).push(models[i as int]));
        }
        append_clause(spec_template, &cs[i]);
        i += 1;
    }
    proof {
        assert(models.take(models.len() as int) =~= models);
    }
}

/// The fixed module-level block: two hardcoded invariants inside
/// decorative separators.
pub open spec fn header_text() -> Seq<char> {
    "\x1b[1;34m// Module Specifications\x1b[0m\n"@
        + "\x1b[1;30m// ----------------------------------------\x1b[0m\n"@ + "spec module {\n"@
        + "    invariant total_supply >= 0;\n"@
        + "    invariant forall addr: address: exists<Capabilities>(addr) ==> addr == resource_account;\n"@
        + "}\n"@ + "\x1b[1;30m// ----------------------------------------\x1b[0m\n\n"@
}

/// The informational line emitted when no declaration was discovered.
pub open spec fn no_functions_text() -> Seq<char> {
    "// No functions found to generate specs.\n"@
}

/// One rendered function block: name header, offset annotation, rendered
/// parameter list, and the selected clause lines.
pub open spec fn block_text(m: SigModel) -> Seq<char> {
    "\x1b[1;34m// Function: "@ + m.name + "\x1b[0m\n"@ + "\x1b[1;30m// Line: "@ + dec_str(m.offset)
        + "\x1b[0m\n"@ + "\x1b[1;30m// ----------------------------------------\x1b[0m\n"@
        + "spec "@ + m.name + "("@ + params_text(m.params, m.name) + ") {\n"@ + clause_lines(m.name)
        + "}\n"@ + "\x1b[1;30m// ----------------------------------------\x1b[0m\n\n"@
}

pub open spec fn blocks_text(sigs: Seq<SigModel>) -> Seq<char>
    decreases sigs.len(),
{
    if sigs.len() == 0 {
        Seq::empty()
    } else {
        block_text(sigs[0]) + blocks_text(sigs.drop_first())
    }
}

pub proof fn lemma_blocks_text_push(sigs: Seq<SigModel>, m: SigModel)
    ensures
        blocks_text(sigs.push(m)) =~= blocks_text(sigs) + block_text(m),
    decreases sigs.len(),
{
    let p = sigs.push(m);
    if sigs.len() == 0 {
        assert(p.len() == 1);
        assert(p[0] == m);
        assert(p.drop_first() =~= Seq::<SigModel>::empty());
        assert(blocks_text(p.drop_first()) == Seq::<char>::empty());
        assert(blocks_text(p) =~= block_text(m));
        assert(blocks_text(sigs) == Seq::<char>::empty());
    } else {
        assert(p.len() == sigs.len() + 1);
        assert(p[0] == sigs[0]);
        assert(p.drop_first() =~= sigs.drop_first().push(m));
        lemma_blocks_text_push(sigs.drop_first(), m);
        assert(blocks_text(p) == block_text(sigs[0]) + blocks_text(p.drop_first()));
        assert(blocks_text(p.drop_first()) == blocks_text(sigs.drop_first()) + block_text(m));
        assert(blocks_text(sigs) == block_text(sigs[0]) + blocks_text(sigs.drop_first()));
    }
}

/// The complete output for the given source text: the fixed module block,
/// then one block per discovered signature in source order, or the single
/// informational line when nothing was discovered.
pub open spec fn spec_template_text(s: Seq<char>) -> Seq<char> {
    if signatures_of(s).len() == 0 {
        header_text() + no_functions_text()
    } else {
        header_text() + blocks_text(signatures_of(s))
    }
}

/// Render the block for one discovered signature.
fn render_block(sig: &RawSignature) -> (r: String)
    ensures
        r@ == block_text(sig@),
{
    let mut r = String::new();
    r.append("\x1b[1;34m// Function: ");
    r.append(sig.name.as_str());
    r.append("\x1b[0m\n");
    r.append("\x1b[1;30m// Line: ");
    append_dec(&mut r, sig.offset);
    r.append("\x1b[0m\n");
    r.append("\x1b[1;30m// ----------------------------------------\x1b[0m\n");
    r.append("spec ");
    r.append(sig.name.as_str());
    r.append("(");
    let rendered = process_params(sig.params_raw.as_str(), sig.name.as_str());
    r.append(rendered.as_str());
    r.append(") {\n");
    generate_function_specs(&mut r, sig.name.as_str(), rendered.as_str());
    r.append("}\n");
    r.append("\x1b[1;30m// ----------------------------------------\x1b[0m\n\n");
    proof {
        assert(r@ =~= block_text(sig@));
    }
    r
}

/// Scan the source text and render the full specification template. The
/// result is a pure function of the text's characters: nothing else —
/// no iteration order of any container, no environment — takes part.
pub fn generate_spec_template(code: &str) -> (res: String)
    ensures
        res@ == spec_template_text(code@),
{
    let mut out = String::new();
    out.append("\x1b[1;34m// Module Specifications\x1b[0m\n");
    out.append("\x1b[1;30m// ----------------------------------------\x1b[0m\n");
    out.append("spec module {\n");
    out.append("    invariant total_supply >= 0;\n");
    out.append(
        "    invariant forall addr: address: exists<Capabilities>(addr) ==> addr == resource_account;\n",
    );
    out.append("}\n");
    out.append("\x1b[1;30m// ----------------------------------------\x1b[0m\n\n");
    proof {
        assert(out@ =~= header_text());
    }
    let sigs = extract_signatures(code);
    let ghost models = signatures_of(code@);
    if sigs.len() == 0 {
        out.append("// No functions found to generate specs.\n");
        return out;
    }
    let mut i: usize = 0;
    while i < sigs.len()
        invariant
            i <= sigs@.len(),
            sigs@.len() == models.len(),
            models == signatures_of(code@),
            forall|k: int| 0 <= k < sigs@.len() ==> #[trigger] sigs@[k]@ == models[k],
            out@ == header_text() + blocks_text(models.take(i as int)),
        decreases sigs@.len() - i,
    {
        let block = render_block(&sigs[i]);
        out.append(block.as_str());
        proof {
            assert(sigs@[i as int]@ == models[i as int]);
            lemma_blocks_text_push(models.take(i as int), models[i as int]);
            assert(models.take(i + 1) =~= models.take(i as int).push(models[i as int]));
            assert(out@ =~= header_text() + blocks_text(models.take(i + 1)));
        }
        i += 1;
    }
    proof {
        assert(models.take(models.len() as int) =~= models);
    }
    out
}

/// With zero discovered signatures the output is exactly the fixed module
/// block followed by the informational line — no function blocks.
pub proof fn lemma_render_without_signatures(s: Seq<char>)
    requires
        signatures_of(s).len() == 0,
    ensures
        spec_template_text(s) == header_text() + no_functions_text(),
{
}

/// The whole pipeline is deterministic: its output is fixed by the input
/// text's characters alone, so equal inputs render equal outputs.
pub proof fn lemma_pipeline_deterministic(s1: Seq<char>, s2: Seq<char>)
    requires
        s1 == s2,
    ensures
        spec_template_text(s1) == spec_template_text(s2),
{
}

} // verus!

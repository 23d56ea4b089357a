//! Filtering of an external verification run's raw output. When the text
//! holds the substring `error` anywhere, a header line is emitted and then
//! every line containing that substring, each on its own line; otherwise a
//! single all-clear line. Lines end at a line feed, with a carriage return
//! directly before a line feed not counted as part of the line.

use vstd::prelude::*;

verus! {

use crate::text::{contains_text, find_char, find_in, lemma_contains_shift, lemma_find_in_subrange,
    search_char_in, search_range};
use vstd::string::{StrSliceExecFns, StringExecFns};

/// A line with a trailing carriage return stripped, as happens to a line
/// that ended in a carriage return followed by a line feed.
pub open spec fn strip_cr(l: Seq<char>) -> Seq<char> {
    if l.len() > 0 && l[l.len() - 1] == '\r' {
        l.drop_last()
    } else {
        l
    }
}

/// The lines of `s`: split at each line feed, a carriage return directly
/// before a line feed dropped, and no empty final line after a trailing
/// line feed.
pub open spec fn split_lines(s: Seq<char>) -> Seq<Seq<char>>
    decreases s.len(),
{
    if s.len() == 0 {
        Seq::empty()
    } else {
        match find_char(s, 0, '\n') {
            Some(i) => if 0 <= i < s.len() {
                seq![strip_cr(s.take(i))] + split_lines(s.subrange(i + 1, s.len() as int))
            } else {
                seq![s]
            },
            None => seq![s],
        }
    }
}

/// The filtered report body: every line containing `error`, in order, each
/// followed by a line feed.
pub open spec fn error_lines(ls: Seq<Seq<char>>) -> Seq<char>
    decreases ls.len(),
{
    if ls.len() == 0 {
        Seq::empty()
    } else {
        (if contains_text(ls[0], "error"@) {
            ls[0] + "\n"@
        } else {
            Seq::<char>::empty()
        }) + error_lines(ls.drop_first())
    }
}

/// The parsed report for raw output `s`.
pub open spec fn parsed_output(s: Seq<char>) -> Seq<char> {
    if contains_text(s, "error"@) {
        "Errors found in the Move Prover output:\n"@ + error_lines(split_lines(s))
    } else {
        "No errors found in the Move Prover output.\n"@
    }
}

/// Filter the raw output of an external verification run down to its
/// lines that mention `error`, under a header saying whether any did.
pub fn parse_prover_output(output: &str) -> (res: String)
    ensures
        res@ == parsed_output(output@),
{
    let n: usize = output.unicode_len();
    let mut res = String::new();
    proof {
        lemma_contains_shift(output@, 0, n as int, "error"@);
        assert(output@.subrange(0, n as int) =~= output@);
    }
    if !search_range(output, 0, n, "error") {
        res.append("No errors found in the Move Prover output.\n");
        return res;
    }
    res.append("Errors found in the Move Prover output:\n");
    let ghost pre = res@;
    let mut pos: usize = 0;
    while pos < n
        invariant
            pos <= n,
            n == output@.len(),
            pre + error_lines(split_lines(output@)) =~= res@ + error_lines(
                split_lines(output@.subrange(pos as int, n as int)),
            ),
            contains_text(output@, "error"@),
        decreases n - pos,
    {
        let ghost t = output@.subrange(pos as int, n as int);
        let r = search_char_in(output, pos, n, '\n');
        proof {
            lemma_find_in_subrange(output@, pos as int, n as int, '\n');
        }
        let hi: usize = match r {
            Some(i) => i,
            None => n,
        };
        let mut line_hi: usize = hi;
        if r.is_some() && line_hi > pos && output.get_char(line_hi - 1) == '\r' {
            line_hi = line_hi - 1;
        }
        let ghost line = output@.subrange(pos as int, line_hi as int);
        proof {
            match r {
                Some(i) => {
                    assert(t.take(i - pos) =~= output@.subrange(pos as int, i as int));
                    assert(strip_cr(t.take(i - pos)) =~= line);
                    assert(t.subrange(i - pos + 1, t.len() as int) =~= output@.subrange(
                        i + 1,
                        n as int,
                    ));
                    assert(split_lines(t) =~= seq![strip_cr(t.take(i - pos))] + split_lines(
                        output@.subrange(i + 1, n as int),
                    ));
                    assert(split_lines(t)[0] == line);
                    assert(split_lines(t).drop_first() =~= split_lines(
                        output@.subrange(i + 1, n as int),
                    ));
                },
                None => {
                    assert(t =~= line);
                    assert(split_lines(t) =~= seq![line]);
                    assert(split_lines(t)[0] == line);
                    assert(split_lines(t).drop_first() =~= Seq::<Seq<char>>::empty());
                    assert(output@.subrange(n as int, n as int) =~= Seq::<char>::empty());
                },
            }
            lemma_contains_shift(output@, pos as int, line_hi as int, "error"@);
        }
        if search_range(output, pos, line_hi, "error") {
            res.append(output.substring_char(pos, line_hi));
            res.append("\n");
        }
        proof {
            assert(error_lines(split_lines(t)) =~= (if contains_text(line, "error"@) {
                line + "\n"@
            } else {
                Seq::<char>::empty()
            }) + error_lines(split_lines(t).drop_first()));
        }
        match r {
            Some(i) => {
                pos = i + 1;
            },
            None => {
                pos = n;
            },
        }
    }
    proof {
        assert(output@.subrange(n as int, n as int) =~= Seq::<char>::empty());
        assert(split_lines(Seq::<char>::empty()) =~= Seq::<Seq<char>>::empty());
        assert(error_lines(Seq::<Seq<char>>::empty()) =~= Seq::<char>::empty());
    }
    res
}

} // verus!

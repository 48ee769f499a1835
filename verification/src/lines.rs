//! Splitting a source text into its lines, as `lines_of` describes it.

use vstd::prelude::*;

use crate::text::{find_nl_exec, lemma_find_nl, lemma_find_nl_char, lines_of, strip_cr};

verus! {

/// Views of a list of borrowed lines.
pub open spec fn strs_view(v: Seq<&str>) -> Seq<Seq<char>> {
    v.map_values(|l: &str| l@)
}

/// Splits `text` into its lines.
pub fn split_lines<'a>(text: &'a str) -> (r: Vec<&'a str>)
    ensures
        strs_view(r@) == lines_of(text@),
{
    let n = text.unicode_len();
    let mut lines: Vec<&str> = Vec::new();
    let mut pos: usize = 0;
    proof {
        assert(text@.subrange(0, n as int) =~= text@);
        assert(strs_view(lines@) + lines_of(text@) =~= lines_of(text@));
    }
    while pos < n
        invariant
            n == text@.len(),
            pos <= n,
            lines_of(text@) == strs_view(lines@) + lines_of(text@.subrange(pos as int, n as int)),
        decreases n - pos,
    {
        let ghost op = pos as int;
        let ghost suffix = text@.subrange(pos as int, n as int);
        let ghost before = lines@;
        let nl = find_nl_exec(text, pos, n);
        proof {
            lemma_find_nl(text@, pos as int);
            assert(forall|t: int| 0 <= t < nl - pos ==> #[trigger] suffix[t] != '\n') by {
                assert(forall|t: int| 0 <= t < nl - pos ==> suffix[t] == text@[pos + t]);
            }
            lemma_find_nl_char(suffix, 0, nl - pos);
            assert(suffix.len() > 0);
        }
        let line: &str;
        if nl < n {
            if nl > pos && text.get_char(nl - 1) == '\r' {
                line = text.substring_char(pos, nl - 1);
                proof {
                    assert(suffix.subrange(0, nl - pos) =~= text@.subrange(pos as int, nl as int));
                    assert(text@.subrange(pos as int, nl as int).drop_last() =~= line@);
                }
            } else {
                line = text.substring_char(pos, nl);
                proof {
                    assert(suffix.subrange(0, nl - pos) =~= line@);
                }
            }
            proof {
                assert(strip_cr(suffix.subrange(0, nl - pos)) == line@);
            }
            lines.push(line);
            pos = nl + 1;
            proof {
                let rest = text@.subrange(pos as int, n as int);
                assert(suffix.subrange(nl - op + 1, suffix.len() as int) =~= rest);
                assert(lines_of(suffix) == seq![line@] + lines_of(rest));
                assert(strs_view(lines@) =~= strs_view(before).push(line@));
                assert(strs_view(before) + (seq![line@] + lines_of(rest)) =~= strs_view(lines@)
                    + lines_of(rest));
            }
        } else {
            line = text.substring_char(pos, n);
            proof {
                assert(line@ == suffix);
                assert(lines_of(suffix) == seq![suffix]);
            }
            lines.push(line);
            pos = n;
            proof {
                let rest = text@.subrange(n as int, n as int);
                assert(rest =~= Seq::<char>::empty());
                assert(lines_of(rest) =~= Seq::<Seq<char>>::empty());
                assert(strs_view(lines@) =~= strs_view(before).push(line@));
                assert(strs_view(before) + seq![suffix] =~= strs_view(lines@) + lines_of(rest));
            }
        }
    }
    proof {
        let rest = text@.subrange(pos as int, n as int);
        assert(rest =~= Seq::<char>::empty());
        assert(strs_view(lines@) + lines_of(rest) =~= strs_view(lines@));
    }
    lines
}

} // verus!

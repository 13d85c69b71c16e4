//! Textual rendering of the final standings: one line per standing, rank
//! first, in the order the server sent — the client never re-sorts.

use vstd::prelude::*;
use crate::codec::{dec_digits, push_nat};

verus! {

/// The text of one standings line: rank, snake id, score.
pub open spec fn rank_line_model(rank: int, id: int, score: int) -> Seq<char> {
    seq!['\u{7b2c}'] + dec_digits(rank as nat) + seq!['\u{540d}', ':', ' ', '\u{86c7}']
        + dec_digits(id as nat) + seq![' ', '-', ' '] + dec_digits(score as nat)
        + seq!['\u{5206}']
}

/// Renders one standings line.  `index` is the zero-based position in the
/// server's order; the displayed rank is one-based.
pub fn rank_line(index: usize, id: usize, score: u32) -> (r: Vec<char>)
    requires
        index < usize::MAX,
    ensures
        r@ == rank_line_model(index + 1, id as int, score as int),
{
    let mut out: Vec<char> = Vec::new();
    out.push('\u{7b2c}');
    push_nat(&mut out, (index as u64) + 1);
    out.push('\u{540d}');
    out.push(':');
    out.push(' ');
    out.push('\u{86c7}');
    push_nat(&mut out, id as u64);
    out.push(' ');
    out.push('-');
    out.push(' ');
    push_nat(&mut out, score as u64);
    out.push('\u{5206}');
    proof {
        assert(out@ =~= rank_line_model(index + 1, id as int, score as int));
    }
    out
}

/// Renders the whole standings panel: one line per standing, best rank
/// first, exactly in the order given.
pub fn ranking_lines(rankings: &Vec<(usize, u32)>) -> (r: Vec<Vec<char>>)
    requires
        rankings@.len() < usize::MAX,
    ensures
        r@.len() == rankings@.len(),
        forall|k: int| 0 <= k < r@.len() ==> (#[trigger] r@[k])@ == rank_line_model(
            k + 1,
            rankings@[k].0 as int,
            rankings@[k].1 as int,
        ),
{
    let mut out: Vec<Vec<char>> = Vec::new();
    let mut k: usize = 0;
    while k < rankings.len()
        invariant
            rankings@.len() < usize::MAX,
            k <= rankings@.len(),
            out@.len() == k,
            forall|j: int| 0 <= j < k ==> (#[trigger] out@[j])@ == rank_line_model(
                j + 1,
                rankings@[j].0 as int,
                rankings@[j].1 as int,
            ),
        decreases rankings@.len() - k,
    {
        let (id, score) = rankings[k];
        let line = rank_line(k, id, score);
        out.push(line);
        k += 1;
    }
    out
}

} // verus!

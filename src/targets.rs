//! The list of targets: one `host:port` per line.

use vstd::prelude::*;
use crate::text::{split_on, split_pieces};

verus! {

/// The pieces of `p` that are not empty, in order.
pub open spec fn keep_nonempty(p: Seq<Seq<char>>) -> Seq<Seq<char>>
    decreases p.len(),
{
    if p.len() == 0 {
        Seq::<Seq<char>>::empty()
    } else {
        let rest = keep_nonempty(p.drop_last());
        if p.last().len() > 0 {
            rest.push(p.last())
        } else {
            rest
        }
    }
}

/// The targets that a list names: its non-empty lines.
pub open spec fn target_lines(contents: Seq<char>) -> Seq<Seq<char>> {
    keep_nonempty(split_on(contents, '\n'))
}

/// Reads the targets of a newline-separated list, skipping empty lines.
pub fn parse_targets(contents: &str) -> (r: Vec<String>)
    ensures
        r@.map_values(|t: String| t@) == target_lines(contents@),
{
    let pieces = split_pieces(contents, '\n');
    let ghost all = pieces@.map_values(|p: String| p@);
    let mut out: Vec<String> = Vec::new();
    let mut i: usize = 0;
    while i < pieces.len()
        invariant
            all == pieces@.map_values(|p: String| p@),
            i <= pieces@.len(),
            out@.map_values(|t: String| t@) == keep_nonempty(all.subrange(0, i as int)),
        decreases pieces.len() - i,
    {
        let piece = &pieces[i];
        assert(all.subrange(0, i as int + 1).drop_last() =~= all.subrange(0, i as int));
        assert(all.subrange(0, i as int + 1).last() == piece@);
        if piece.unicode_len() > 0 {
            let ghost before = out@.map_values(|t: String| t@);
            out.push(piece.clone());
            assert(out@.map_values(|t: String| t@) =~= before.push(piece@));
        }
        i = i + 1;
    }
    assert(all.subrange(0, i as int) =~= all);
    out
}

} // verus!

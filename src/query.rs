use vstd::prelude::*;

use crate::sandbox::{lemma_split_nonempty, split_on, split_vec};
use crate::text::{chars_of, string_of};

verus! {

/// What one `&`-separated piece of a query string does to the arguments: a
/// `key=value` piece with a non-empty key sets the key to the text between the
/// first and second `=`; a piece without `=` sets itself to the empty value;
/// other pieces are skipped.
pub open spec fn apply_piece(
    m: Map<Seq<char>, Seq<char>>,
    piece: Seq<char>,
) -> Map<Seq<char>, Seq<char>> {
    let e = split_on(piece, '=');
    if e.len() >= 2 {
        if e[0].len() == 0 {
            m
        } else {
            m.insert(e[0], e[1])
        }
    } else if piece.len() == 0 {
        m
    } else {
        m.insert(piece, Seq::empty())
    }
}

pub open spec fn args_of_pieces(ps: Seq<Seq<char>>) -> Map<Seq<char>, Seq<char>>
    decreases ps.len(),
{
    if ps.len() == 0 {
        Map::empty()
    } else {
        apply_piece(args_of_pieces(ps.drop_last()), ps.last())
    }
}

/// The arguments of a query string; a later piece wins over an earlier one.
pub open spec fn query_args(q: Seq<char>) -> Map<Seq<char>, Seq<char>> {
    args_of_pieces(split_on(q, '&'))
}

/// The map that a list of pairs gives when they are inserted in order.
pub open spec fn pairs_map(s: Seq<(Seq<char>, Seq<char>)>) -> Map<Seq<char>, Seq<char>>
    decreases s.len(),
{
    if s.len() == 0 {
        Map::empty()
    } else {
        pairs_map(s.drop_last()).insert(s.last().0, s.last().1)
    }
}

pub open spec fn pair_views(s: Seq<(String, String)>) -> Seq<(Seq<char>, Seq<char>)> {
    s.map_values(|p: (String, String)| (p.0@, p.1@))
}

/// The arguments of the query string `query`, as pairs to insert in order
/// into a map.
pub fn get_args(query: &str) -> (r: Vec<(String, String)>)
    ensures
        pairs_map(pair_views(r@)) == query_args(query@),
{
    let pieces = split_vec(&chars_of(query), '&');
    let ghost ps = pieces@.map_values(|v: Vec<char>| v@);
    let mut out: Vec<(String, String)> = Vec::new();
    let mut i: usize = 0;
    while i < pieces.len()
        invariant
            i <= pieces.len(),
            ps == pieces@.map_values(|v: Vec<char>| v@),
            ps == split_on(query@, '&'),
            pairs_map(pair_views(out@)) == args_of_pieces(ps.take(i as int)),
        decreases pieces.len() - i,
    {
        let piece = &pieces[i];
        assert(ps.take(i + 1).drop_last() =~= ps.take(i as int));
        assert(ps.take(i + 1).last() == piece@);
        let e = split_vec(piece, '=');
        let ghost ev = e@.map_values(|v: Vec<char>| v@);
        proof {
            lemma_split_nonempty(piece@, '=');
        }
        let ghost before = pair_views(out@);
        if e.len() >= 2 {
            assert(ev[0] == e@[0]@ && ev[1] == e@[1]@);
            if e[0].len() > 0 {
                let k = string_of(&e[0]);
                let v = string_of(&e[1]);
                out.push((k, v));
                assert(pair_views(out@) =~= before.push((ev[0], ev[1])));
                assert(pair_views(out@).drop_last() =~= before);
            }
        } else if piece.len() > 0 {
            let k = string_of(piece);
            out.push((k, String::new()));
            assert(pair_views(out@) =~= before.push((piece@, Seq::<char>::empty())));
            assert(pair_views(out@).drop_last() =~= before);
        }
        i = i + 1;
    }
    assert(ps.take(pieces.len() as int) =~= ps);
    out
}

} // verus!

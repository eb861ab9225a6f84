//! The inline configuration grammar for command registration.
//!
//! A configuration text is a comma-separated list of groups; each group is
//! `descriptor : path path ...`.  Paths are split on whitespace and each
//! contributes its last `::` segment as the function name.  A group
//! without a colon, or with an empty descriptor or path list, is skipped.
//! The produced groups feed [`crate::registry::Registry::new`], which does
//! the validating.

use vstd::prelude::*;
use crate::chars::{is_trim_ws, trimmed, trim_chars, str_to_chars, chars_to_string};
use crate::float::{first_idx, lemma_first_idx, lemma_first_idx_bounds};

verus! {

/// The pieces of `s` between commas, in order (empty pieces included).
pub open spec fn comma_pieces(s: Seq<char>, i: int) -> Seq<Seq<char>>
    decreases s.len() - i when 0 <= i via comma_pieces_decreases
{
    if i > s.len() {
        Seq::empty()
    } else {
        let cut = i + first_idx(s.skip(i), ',', ',');
        if cut >= s.len() {
            seq![s.subrange(i, s.len() as int)]
        } else {
            seq![s.subrange(i, cut)] + comma_pieces(s, cut + 1)
        }
    }
}

#[via_fn]
proof fn comma_pieces_decreases(s: Seq<char>, i: int) {
    if i <= s.len() {
        lemma_first_idx_bounds(s.skip(i), ',', ',');
    }
}

/// The whitespace-separated words of `s`, from position `i` on.
pub open spec fn words_from(s: Seq<char>, i: int) -> Seq<Seq<char>>
    decreases s.len() - i when 0 <= i <= s.len() via words_from_decreases
{
    if i >= s.len() {
        Seq::empty()
    } else if is_trim_ws(s[i]) {
        words_from(s, i + 1)
    } else {
        let end = idx_ws(s, i);
        seq![s.subrange(i, end)] + words_from(s, end)
    }
}

#[via_fn]
proof fn words_from_decreases(s: Seq<char>, i: int) {
    if i < s.len() && !is_trim_ws(s[i]) {
        lemma_idx_ws_bounds(s, i + 1);
        assert(idx_ws(s, i) == idx_ws(s, i + 1));
    }
}

/// The first whitespace position at or after `i`, or `s.len()`.
pub open spec fn idx_ws(s: Seq<char>, i: int) -> int
    decreases s.len() - i when 0 <= i
{
    if i >= s.len() {
        s.len() as int
    } else if is_trim_ws(s[i]) {
        i
    } else {
        idx_ws(s, i + 1)
    }
}

/// The whitespace search stays between its start and the end.
proof fn lemma_idx_ws_bounds(s: Seq<char>, i: int)
    requires
        0 <= i <= s.len(),
    ensures
        i <= idx_ws(s, i) <= s.len(),
    decreases s.len() - i,
{
    if i < s.len() {
        lemma_idx_ws_bounds(s, i + 1);
    }
}

/// `idx_ws` is the unique first whitespace position.
proof fn lemma_idx_ws_is(s: Seq<char>, i: int, j: int)
    requires
        0 <= i <= j <= s.len(),
        forall|k: int| i <= k < j ==> !is_trim_ws(s[k]),
        j < s.len() ==> is_trim_ws(s[j]),
    ensures
        idx_ws(s, i) == j,
    decreases j - i,
{
    if i < j {
        lemma_idx_ws_is(s, i + 1, j);
    }
}

/// The text after the last `::` in `s`, looking at separators that end at
/// or before position `j`; the whole text when there is none.
pub open spec fn last_seg_upto(s: Seq<char>, j: int) -> Seq<char>
    decreases j when j <= s.len()
{
    if j < 1 {
        s
    } else if s[j - 1] == ':' && s[j] == ':' {
        s.skip(j + 1)
    } else {
        last_seg_upto(s, j - 1)
    }
}

/// The text after the last `::` in `s`; the whole text when there is none.
pub open spec fn last_seg(s: Seq<char>) -> Seq<char> {
    last_seg_upto(s, s.len() - 1)
}

/// The name each path contributes.
pub open spec fn names_of(ws: Seq<Seq<char>>) -> Seq<Seq<char>> {
    ws.map_values(|w: Seq<char>| last_seg(w))
}

/// The group one comma piece contributes, if any: the descriptor before
/// the first colon and the path names after it, both trimmed, when both
/// are there.
pub open spec fn group_of_piece(p: Seq<char>) -> Option<(Seq<char>, Seq<Seq<char>>)> {
    let cut = first_idx(p, ':', ':');
    if cut >= p.len() {
        None
    } else {
        let desc = trimmed(p.take(cut));
        let names = names_of(words_from(p.skip(cut + 1), 0));
        if desc.len() == 0 || names.len() == 0 {
            None
        } else {
            Some((desc, names))
        }
    }
}

/// The groups the whole configuration text describes.
pub open spec fn groups_of(pieces: Seq<Seq<char>>) -> Seq<(Seq<char>, Seq<Seq<char>>)>
    decreases pieces.len(),
{
    if pieces.len() == 0 {
        Seq::empty()
    } else {
        let rest = groups_of(pieces.drop_last());
        match group_of_piece(pieces.last()) {
            Some(g) => rest.push(g),
            None => rest,
        }
    }
}

/// The views of produced groups.
pub open spec fn group_views(gs: Seq<(String, Vec<String>)>) -> Seq<(Seq<char>, Seq<Seq<char>>)> {
    gs.map_values(|g: (String, Vec<String>)| (g.0@, g.1@.map_values(|n: String| n@)))
}

/// Splits the characters of `v` at every comma.
fn split_commas(v: &Vec<char>) -> (r: Vec<Vec<char>>)
    ensures
        r@.map_values(|p: Vec<char>| p@) == comma_pieces(v@, 0),
{
    let mut r: Vec<Vec<char>> = Vec::new();
    let mut i: usize = 0;
    loop
        invariant
            0 <= i <= v@.len(),
            comma_pieces(v@, 0) == r@.map_values(|p: Vec<char>| p@) + comma_pieces(v@, i as int),
        ensures
            r@.map_values(|p: Vec<char>| p@) == comma_pieces(v@, 0),
        decreases v@.len() + 1 - i,
    {
        let mut j: usize = i;
        let mut piece: Vec<char> = Vec::new();
        proof {
            assert(piece@ =~= v@.subrange(i as int, i as int));
        }
        while j < v.len() && v[j] != ','
            invariant
                i <= j <= v@.len(),
                piece@ == v@.subrange(i as int, j as int),
                forall|k: int| i <= k < j ==> v@[k] != ',',
            decreases v@.len() - j,
        {
            piece.push(v[j]);
            j = j + 1;
            proof {
                assert(piece@ =~= v@.subrange(i as int, j as int));
            }
        }
        proof {
            lemma_first_idx(v@.skip(i as int), ',', ',', j - i as int);
            assert forall|k: int| 0 <= k < j - i as int implies v@.skip(i as int)[k] != ',' by {
                assert(v@.skip(i as int)[k] == v@[i + k]);
            }
        }
        r.push(piece);
        proof {
            assert(r@.map_values(|p: Vec<char>| p@) =~= r@.map_values(
                |p: Vec<char>| p@,
            ).drop_last().push(v@.subrange(i as int, j as int)));
        }
        if j >= v.len() {
            proof {
                assert(comma_pieces(v@, i as int) =~= seq![v@.subrange(i as int, v@.len() as int)]);
                assert(comma_pieces(v@, 0) =~= r@.map_values(|p: Vec<char>| p@));
            }
            return r;
        }
        i = j + 1;
        proof {
            assert(comma_pieces(v@, 0) =~= r@.map_values(|p: Vec<char>| p@) + comma_pieces(
                v@,
                i as int,
            ));
        }
    }
}

/// Splits the characters of `v` at runs of whitespace.
fn split_words(v: &Vec<char>) -> (r: Vec<Vec<char>>)
    ensures
        r@.map_values(|p: Vec<char>| p@) == words_from(v@, 0),
{
    let mut r: Vec<Vec<char>> = Vec::new();
    let mut i: usize = 0;
    while i < v.len()
        invariant
            0 <= i <= v@.len(),
            words_from(v@, 0) == r@.map_values(|p: Vec<char>| p@) + words_from(v@, i as int),
        decreases v@.len() - i,
    {
        if crate::chars::trim_ws(v[i]) {
            i = i + 1;
            continue ;
        }
        let mut j: usize = i;
        let mut word: Vec<char> = Vec::new();
        while j < v.len() && !crate::chars::trim_ws(v[j])
            invariant
                i <= j <= v@.len(),
                word@ == v@.subrange(i as int, j as int),
                forall|k: int| i <= k < j ==> !is_trim_ws(v@[k]),
            decreases v@.len() - j,
        {
            word.push(v[j]);
            j = j + 1;
            proof {
                assert(word@ =~= v@.subrange(i as int, j as int));
            }
        }
        proof {
            lemma_idx_ws_is(v@, i as int, j as int);
            assert(words_from(v@, i as int) == seq![v@.subrange(i as int, j as int)] + words_from(
                v@,
                j as int,
            ));
        }
        r.push(word);
        proof {
            assert(words_from(v@, 0) =~= r@.map_values(|p: Vec<char>| p@) + words_from(
                v@,
                j as int,
            ));
        }
        i = j;
    }
    proof {
        assert(words_from(v@, v@.len() as int) =~= Seq::<Seq<char>>::empty());
        assert(words_from(v@, 0) =~= r@.map_values(|p: Vec<char>| p@));
    }
    r
}

/// The last `::` segment of a path.
fn last_segment(v: &Vec<char>) -> (r: Vec<char>)
    ensures
        r@ == last_seg(v@),
{
    if v.len() < 2 {
        proof {
            assert(last_seg_upto(v@, v@.len() - 1) == v@);
        }
        return v.clone();
    }
    let mut j: usize = v.len() - 1;
    loop
        invariant
            1 <= j + 1 <= v@.len(),
            last_seg(v@) == last_seg_upto(v@, j as int),
        ensures
            last_seg(v@) == last_seg_upto(v@, j as int),
            j < 1 || (v@[j as int - 1] == ':' && v@[j as int] == ':'),
        decreases j,
    {
        if j < 1 {
            break ;
        }
        if v[j - 1] == ':' && v[j] == ':' {
            break ;
        }
        j = j - 1;
    }
    if j < 1 {
        proof {
            assert(last_seg_upto(v@, j as int) == v@);
        }
        v.clone()
    } else {
        let mut r: Vec<char> = Vec::new();
        let mut k: usize = j + 1;
        while k < v.len()
            invariant
                j + 1 <= k <= v@.len(),
                r@ == v@.subrange(j as int + 1, k as int),
            decreases v@.len() - k,
        {
            r.push(v[k]);
            k = k + 1;
            proof {
                assert(r@ =~= v@.subrange(j as int + 1, k as int));
            }
        }
        proof {
            assert(r@ =~= v@.skip(j as int + 1));
        }
        r
    }
}

/// Parses a configuration text into `(descriptor, names)` groups, ready
/// for registration.
pub fn parse_groups(text: &str) -> (r: Vec<(String, Vec<String>)>)
    ensures
        group_views(r@) == groups_of(comma_pieces(text@, 0)),
{
    let v = str_to_chars(text);
    let pieces = split_commas(&v);
    let ghost ps = comma_pieces(text@, 0);
    let mut r: Vec<(String, Vec<String>)> = Vec::new();
    let mut i: usize = 0;
    proof {
        assert(ps.take(0) =~= Seq::<Seq<char>>::empty());
        assert(group_views(r@) =~= groups_of(ps.take(0)));
    }
    while i < pieces.len()
        invariant
            v@ == text@,
            pieces@.map_values(|p: Vec<char>| p@) == ps,
            i <= pieces@.len(),
            group_views(r@) == groups_of(ps.take(i as int)),
        decreases pieces@.len() - i,
    {
        let piece: &Vec<char> = &pieces[i];
        proof {
            assert(piece@ == ps[i as int]);
            assert(ps.take(i + 1).drop_last() =~= ps.take(i as int));
            assert(ps.take(i + 1).last() == ps[i as int]);
        }
        let cut = crate::float::find_first(piece, ':', ':');
        if cut < piece.len() {
            let mut left: Vec<char> = Vec::new();
            let mut k: usize = 0;
            while k < cut
                invariant
                    cut <= piece@.len(),
                    k <= cut,
                    left@ == piece@.subrange(0, k as int),
                decreases cut - k,
            {
                left.push(piece[k]);
                k = k + 1;
                proof {
                    assert(left@ =~= piece@.subrange(0, k as int));
                }
            }
            let mut right: Vec<char> = Vec::new();
            let mut k: usize = cut + 1;
            while k < piece.len()
                invariant
                    cut + 1 <= k <= piece@.len(),
                    right@ == piece@.subrange(cut as int + 1, k as int),
                decreases piece@.len() - k,
            {
                right.push(piece[k]);
                k = k + 1;
                proof {
                    assert(right@ =~= piece@.subrange(cut as int + 1, k as int));
                }
            }
            proof {
                assert(left@ =~= piece@.take(cut as int));
                assert(right@ =~= piece@.skip(cut as int + 1));
            }
            let desc = trim_chars(&left);
            let words = split_words(&right);
            let mut names: Vec<String> = Vec::new();
            let mut w: usize = 0;
            proof {
                assert(names@.map_values(|n: String| n@) =~= names_of(
                    words@.map_values(|p: Vec<char>| p@),
                ).take(0));
            }
            while w < words.len()
                invariant
                    w <= words@.len(),
                    names@.map_values(|n: String| n@) == names_of(
                        words@.map_values(|p: Vec<char>| p@),
                    ).take(w as int),
                decreases words@.len() - w,
            {
                let wv: &Vec<char> = &words[w];
                let seg = last_segment(wv);
                proof {
                    assert(wv@ == words@[w as int]@);
                    assert(seg@ == last_seg(words@[w as int]@));
                }
                let n = chars_to_string(&seg);
                proof {
                    assert(n@ == last_seg(words@[w as int]@));
                }
                let ghost pre_names = names@;
                names.push(n);
                w = w + 1;
                proof {
                    assert(names@ == pre_names.push(n));
                    assert(pre_names.map_values(|x: String| x@) == names_of(
                        words@.map_values(|p: Vec<char>| p@),
                    ).take(w - 1));
                    assert(names_of(words@.map_values(|p: Vec<char>| p@)).len() == words@.len());
                    assert(pre_names.map_values(|x: String| x@).len() == pre_names.len());
                    assert(pre_names.len() == w - 1);
                    assert(names@.len() == w);
                    assert(words@.map_values(|p: Vec<char>| p@)[w - 1] == words@[w - 1]@);
                    assert(names_of(words@.map_values(|p: Vec<char>| p@))[w - 1] == last_seg(
                        words@[w - 1]@,
                    ));
                    assert(names@[w - 1]@ == last_seg(words@[w - 1]@));
                    assert(names@.map_values(|n: String| n@)[w - 1] == names@[w - 1]@);
                    assert(names@.map_values(|n: String| n@) =~= names_of(
                        words@.map_values(|p: Vec<char>| p@),
                    ).take(w as int));
                }
            }
            proof {
                assert(names_of(words@.map_values(|p: Vec<char>| p@)).take(words@.len() as int)
                    =~= names_of(words@.map_values(|p: Vec<char>| p@)));
            }
            if desc.len() > 0 && names.len() > 0 {
                r.push((chars_to_string(&desc), names));
                proof {
                    assert(group_views(r@) =~= groups_of(ps.take(i + 1)));
                }
            } else {
                proof {
                    assert(group_views(r@) =~= groups_of(ps.take(i + 1)));
                }
            }
        } else {
            proof {
                assert(group_views(r@) =~= groups_of(ps.take(i + 1)));
            }
        }
        i = i + 1;
    }
    proof {
        assert(ps.take(ps.len() as int) =~= ps);
    }
    r
}

} // verus!

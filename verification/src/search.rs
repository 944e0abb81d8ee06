//! Line matching: picking out the lines of a text that contain a pattern.
use vstd::prelude::*;

use crate::text::{split_char, split_on, lemma_split_len_at_least_one};

verus! {

/// Does `needle` occur in `hay` starting at position `i`?
pub open spec fn matches_at(hay: Seq<char>, needle: Seq<char>, i: int) -> bool {
    0 <= i && i + needle.len() <= hay.len() && hay.subrange(i, i + needle.len()) == needle
}

/// Does `needle` occur anywhere in `hay`? The empty needle occurs in every
/// text.
pub open spec fn contains_seq(hay: Seq<char>, needle: Seq<char>) -> bool {
    exists|i: int| matches_at(hay, needle, i)
}

/// One line with its terminator stripped: a carriage return that stood
/// before the newline falls with it.
pub open spec fn strip_cr(l: Seq<char>) -> Seq<char> {
    if l.len() > 0 && l.last() == '\r' {
        l.drop_last()
    } else {
        l
    }
}

/// The lines of `s`: the pieces between newlines. A trailing newline ends
/// the last line rather than opening an empty one, and a piece that was
/// newline-terminated loses a final carriage return; the last piece of an
/// unterminated text keeps its characters as they stand.
pub open spec fn spec_lines(s: Seq<char>) -> Seq<Seq<char>> {
    if s.len() == 0 {
        Seq::<Seq<char>>::empty()
    } else {
        let segs = split_on(s, '\n');
        if s.last() == '\n' {
            segs.drop_last().map_values(|l: Seq<char>| strip_cr(l))
        } else {
            segs.drop_last().map_values(|l: Seq<char>| strip_cr(l)).push(segs.last())
        }
    }
}

/// Does the line contain the pattern?
pub open spec fn match_pred(pattern: Seq<char>) -> spec_fn(Seq<char>) -> bool {
    |l: Seq<char>| contains_seq(l, pattern)
}

/// The lines of `content` that contain `pattern`, in order.
pub open spec fn spec_matching_lines(content: Seq<char>, pattern: Seq<char>) -> Seq<Seq<char>> {
    spec_lines(content).filter(match_pred(pattern))
}

/// Substring search by direct comparison at each position.
pub fn contains_pattern(line: &str, pattern: &str) -> (r: bool)
    ensures
        r == contains_seq(line@, pattern@),
{
    let n = line.unicode_len();
    let m = pattern.unicode_len();
    if m > n {
        proof {
            if contains_seq(line@, pattern@) {
                let i = choose|i: int| matches_at(line@, pattern@, i);
            }
        }
        return false;
    }
    if m == 0 {
        proof {
            assert(line@.subrange(0, 0) =~= pattern@);
            assert(matches_at(line@, pattern@, 0));
        }
        return true;
    }
    let mut start: usize = 0;
    while start <= n - m
        invariant
            1 <= m <= n,
            n == line@.len(),
            m == pattern@.len(),
            forall|i: int| 0 <= i < start as int ==> !matches_at(line@, pattern@, i),
        decreases n - start,
    {
        let mut j: usize = 0;
        let mut mismatch = false;
        while j < m && !mismatch
            invariant
                m <= n,
                n == line@.len(),
                m == pattern@.len(),
                start + m <= n,
                j <= m,
                !mismatch ==> forall|k: int|
                    0 <= k < j as int ==> line@[start as int + k] == pattern@[k],
                mismatch ==> !matches_at(line@, pattern@, start as int),
            decreases m - j,
        {
            if line.get_char(start + j) != pattern.get_char(j) {
                proof {
                    if matches_at(line@, pattern@, start as int) {
                        assert(line@.subrange(start as int, start as int + m as int)[j as int]
                            == pattern@[j as int]);
                    }
                }
                mismatch = true;
            }
            j += 1;
        }
        if !mismatch {
            proof {
                assert(j == m);
                assert(line@.subrange(start as int, start as int + m as int) =~= pattern@);
                assert(matches_at(line@, pattern@, start as int));
            }
            return true;
        }
        start += 1;
    }
    proof {
        if contains_seq(line@, pattern@) {
            let i = choose|i: int| matches_at(line@, pattern@, i);
            assert(i + m as int <= n as int);
            assert(i < start as int);
        }
    }
    false
}

/// Strips one trailing carriage return.
fn strip_cr_exec(l: &str) -> (r: String)
    ensures
        r@ == strip_cr(l@),
{
    let n = l.unicode_len();
    if n > 0 && l.get_char(n - 1) == '\r' {
        let r = String::from_str(l.substring_char(0, n - 1));
        proof {
            assert(l@.subrange(0, n as int - 1) =~= l@.drop_last());
        }
        r
    } else {
        String::from_str(l)
    }
}

/// The lines of `content`, in order.
pub fn lines_of(content: &str) -> (r: Vec<String>)
    ensures
        r.deep_view() == spec_lines(content@),
{
    let n = content.unicode_len();
    let mut out: Vec<String> = Vec::new();
    if n == 0 {
        proof {
            assert(out.deep_view() =~~= spec_lines(content@));
        }
        return out;
    }
    let segs = split_char(content, '\n');
    let ghost sv = segs.deep_view();
    proof {
        lemma_split_len_at_least_one(content@, '\n');
        assert(segs@.len() == sv.len());
    }
    let last = segs.len() - 1;
    let mut i: usize = 0;
    while i < last
        invariant
            i <= last,
            last == segs@.len() - 1,
            sv == segs.deep_view(),
            sv.len() == segs@.len(),
            out.deep_view().len() == i,
            forall|k: int| 0 <= k < i as int ==> out.deep_view()[k] == strip_cr(sv[k]),
        decreases last - i,
    {
        let piece = strip_cr_exec(segs[i].as_str());
        let ghost old_out = out.deep_view();
        out.push(piece);
        proof {
            assert(segs@[i as int]@ == sv[i as int]);
            assert(out.deep_view() =~~= old_out.push(strip_cr(sv[i as int])));
        }
        i += 1;
    }
    let ends_with_newline = content.get_char(n - 1) == '\n';
    if !ends_with_newline {
        let ghost old_out = out.deep_view();
        out.push(String::from_str(segs[last].as_str()));
        proof {
            assert(segs@[last as int]@ == sv[last as int]);
            assert(out.deep_view() =~~= old_out.push(sv[last as int]));
            assert(sv[last as int] == sv.last());
            assert(out.deep_view() =~~= spec_lines(content@));
        }
    } else {
        proof {
            assert(out.deep_view() =~~= spec_lines(content@));
        }
    }
    out
}

/// The lines of `content` that contain `pattern`, in order.
pub fn matching_lines(content: &str, pattern: &str) -> (r: Vec<String>)
    ensures
        r.deep_view() == spec_matching_lines(content@, pattern@),
{
    let ls = lines_of(content);
    let ghost lv = ls.deep_view();
    let mut out: Vec<String> = Vec::new();
    let mut i: usize = 0;
    proof {
        reveal_with_fuel(Seq::<Seq<char>>::filter, 2);
        assert(lv.take(0) =~~= Seq::<Seq<char>>::empty());
        assert(out.deep_view() =~~= lv.take(0).filter(match_pred(pattern@)));
        assert(ls@.len() == lv.len());
    }
    while i < ls.len()
        invariant
            i <= ls@.len(),
            lv == ls.deep_view(),
            lv.len() == ls@.len(),
            out.deep_view() =~~= lv.take(i as int).filter(match_pred(pattern@)),
        decreases ls@.len() - i,
    {
        proof {
            reveal(Seq::filter);
            assert(lv.take(i as int + 1).drop_last() =~~= lv.take(i as int));
            assert(lv.take(i as int + 1).last() == lv[i as int]);
        }
        let hit = contains_pattern(ls[i].as_str(), pattern);
        proof {
            assert(ls@[i as int]@ == lv[i as int]);
            assert(match_pred(pattern@)(lv[i as int]) == contains_seq(lv[i as int], pattern@));
        }
        if hit {
            let ghost old_out = out.deep_view();
            out.push(ls[i].clone());
            proof {
                assert(out.deep_view() =~~= old_out.push(lv[i as int]));
            }
        }
        i += 1;
    }
    proof {
        assert(lv.take(ls@.len() as int) =~~= lv);
    }
    out
}

} // verus!

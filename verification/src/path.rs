//! The canonical display form of a filesystem path: the path is parsed into
//! its components and the components are rejoined with the fixed separator
//! `/`. Empty segments (from doubled or trailing separators) and interior
//! `.` segments vanish; a leading root or a leading `.` is itself a
//! component and is kept.
use vstd::prelude::*;

use crate::text::{
    split_on, join_with, split_char, lemma_split_of_join, lemma_split_pieces_free_of_sep,
    lemma_split_pieces_free_of_char, lemma_split_len_at_least_one, lemma_split_cons_sep,
    lemma_join_first_char, lemma_join_free, lemma_join_push,
};

verus! {

/// Does the path begin at the filesystem root?
pub open spec fn has_root(p: Seq<char>) -> bool {
    p.len() > 0 && p[0] == '/'
}

/// Is the path written relative to the current directory, with a leading
/// `.` segment? A rooted path never is.
pub open spec fn has_cur_dir(p: Seq<char>) -> bool {
    !has_root(p) && split_on(p, '/')[0] == seq!['.']
}

/// A segment that survives normalization: non-empty and not the bare `.`.
pub open spec fn keeps_segment(s: Seq<char>) -> bool {
    s.len() > 0 && s != seq!['.']
}

pub open spec fn keep_pred() -> spec_fn(Seq<char>) -> bool {
    |s: Seq<char>| keeps_segment(s)
}

/// The named components of the path: its segments between separators,
/// empty ones and `.` fillers dropped.
pub open spec fn body_components(p: Seq<char>) -> Seq<Seq<char>> {
    split_on(p, '/').filter(keep_pred())
}

/// The canonical display form. The root is itself a component, so a rooted
/// path shows a doubled slash between the root and its first name; a path
/// of a single root component stays `/` unchanged.
pub open spec fn spec_normalize(p: Seq<char>) -> Seq<char> {
    if has_root(p) {
        if body_components(p).len() == 0 {
            seq!['/']
        } else {
            seq!['/', '/'] + join_with(body_components(p), '/')
        }
    } else if has_cur_dir(p) {
        join_with(seq![seq!['.']] + body_components(p), '/')
    } else {
        join_with(body_components(p), '/')
    }
}

/// Is this string the bare `.` segment?
fn is_dot(s: &String) -> (r: bool)
    ensures
        r == (s@ == seq!['.']),
{
    let r = s.as_str().unicode_len() == 1 && s.as_str().get_char(0) == '.';
    proof {
        if r {
            assert(s@ =~= seq!['.']);
        }
    }
    r
}

/// Normalizes a path to its canonical display form. Pure: never fails,
/// whatever the path holds.
pub fn normalize_path(path: &str) -> (r: String)
    ensures
        r@ == spec_normalize(path@),
{
    let n = path.unicode_len();
    let root = n > 0 && path.get_char(0) == '/';
    let segs = split_char(path, '/');
    proof {
        lemma_split_len_at_least_one(path@, '/');
    }
    let first_is_dot = !root && is_dot(&segs[0]);
    let ghost sv = segs.deep_view();

    let mut body: Vec<String> = Vec::new();
    let mut k: usize = 0;
    proof {
        assert(sv.take(0) =~~= Seq::<Seq<char>>::empty());
        reveal_with_fuel(Seq::<Seq<char>>::filter, 2);
        assert(body.deep_view() =~~= sv.take(0).filter(keep_pred()));
    }
    while k < segs.len()
        invariant
            k <= segs.len(),
            sv == segs.deep_view(),
            body.deep_view() =~~= sv.take(k as int).filter(keep_pred()),
        decreases segs.len() - k,
    {
        proof {
            assert(sv.take(k as int + 1).drop_last() =~~= sv.take(k as int));
            assert(sv.take(k as int + 1).last() == sv[k as int]);
            reveal(Seq::filter);
        }
        let seg = &segs[k];
        if seg.as_str().unicode_len() > 0 && !is_dot(seg) {
            let ghost old_body = body.deep_view();
            body.push(seg.clone());
            proof {
                assert(keeps_segment(sv[k as int]));
                assert(body.deep_view() =~~= old_body.push(sv[k as int]));
            }
        } else {
            proof {
                assert(!keeps_segment(sv[k as int]));
            }
        }
        k += 1;
    }
    proof {
        assert(sv.take(segs.len() as int) =~~= sv);
        assert(body.deep_view() == body_components(path@));
    }
    let bv = Ghost(body.deep_view());

    if root {
        if body.len() == 0 {
            proof {
                reveal_strlit("/");
                assert("/"@ =~= seq!['/']);
            }
            String::from_str("/")
        } else {
            proof {
                reveal_strlit("//");
                assert("//"@ =~= seq!['/', '/']);
            }
            let mut out = String::from_str("//");
            out.append(body[0].as_str());
            let mut j: usize = 1;
            proof {
                assert(bv@.take(1) =~~= seq![bv@[0]]);
            }
            while j < body.len()
                invariant
                    1 <= j <= body.len(),
                    bv@ == body.deep_view(),
                    out@ == seq!['/', '/'] + join_with(bv@.take(j as int), '/'),
                decreases body.len() - j,
            {
                proof {
                    reveal_strlit("/");
                    assert("/"@ =~= seq!['/']);
                    lemma_join_push(bv@.take(j as int), bv@[j as int], '/');
                    assert(bv@.take(j as int).push(bv@[j as int]) =~~= bv@.take(j as int + 1));
                }
                out.append("/");
                out.append(body[j].as_str());
                j += 1;
            }
            proof {
                assert(bv@.take(body.len() as int) =~~= bv@);
            }
            out
        }
    } else if first_is_dot {
        proof {
            reveal_strlit(".");
            assert("."@ =~= seq!['.']);
        }
        let mut out = String::from_str(".");
        let mut j: usize = 0;
        proof {
            assert(seq![seq!['.']] + bv@.take(0) =~~= seq![seq!['.']]);
        }
        while j < body.len()
            invariant
                j <= body.len(),
                bv@ == body.deep_view(),
                out@ == join_with(seq![seq!['.']] + bv@.take(j as int), '/'),
            decreases body.len() - j,
        {
            proof {
                reveal_strlit("/");
                assert("/"@ =~= seq!['/']);
                lemma_join_push(seq![seq!['.']] + bv@.take(j as int), bv@[j as int], '/');
                assert((seq![seq!['.']] + bv@.take(j as int)).push(bv@[j as int]) =~~= seq![
                    seq!['.'],
                ] + bv@.take(j as int + 1));
            }
            out.append("/");
            out.append(body[j].as_str());
            j += 1;
        }
        proof {
            assert(bv@.take(body.len() as int) =~~= bv@);
        }
        out
    } else {
        if body.len() == 0 {
            let out = String::new();
            proof {
                assert(out@ =~= join_with(bv@, '/'));
            }
            out
        } else {
            let mut out = body[0].clone();
            let mut j: usize = 1;
            proof {
                assert(bv@.take(1) =~~= seq![bv@[0]]);
            }
            while j < body.len()
                invariant
                    1 <= j <= body.len(),
                    bv@ == body.deep_view(),
                    out@ == join_with(bv@.take(j as int), '/'),
                decreases body.len() - j,
            {
                proof {
                    reveal_strlit("/");
                    assert("/"@ =~= seq!['/']);
                    lemma_join_push(bv@.take(j as int), bv@[j as int], '/');
                    assert(bv@.take(j as int).push(bv@[j as int]) =~~= bv@.take(j as int + 1));
                }
                out.append("/");
                out.append(body[j].as_str());
                j += 1;
            }
            proof {
                assert(bv@.take(body.len() as int) =~~= bv@);
            }
            out
        }
    }
}

/// Every component that `body_components` keeps is free of the separator.
proof fn lemma_body_free_of_sep(p: Seq<char>)
    ensures
        forall|i: int|
            0 <= i < body_components(p).len() ==> !(#[trigger] body_components(p)[i]).contains('/'),
        forall|i: int|
            0 <= i < body_components(p).len() ==> keeps_segment(#[trigger] body_components(p)[i]),
{
    lemma_split_pieces_free_of_sep(p, '/');
    lemma_filter_keeps_subset(split_on(p, '/'));
    broadcast use vstd::seq_lib::group_filter_ensures;

}

/// Each element of the filtered sequence occurs in the original.
proof fn lemma_filter_keeps_subset(s: Seq<Seq<char>>)
    ensures
        forall|i: int|
            0 <= i < s.filter(keep_pred()).len() ==> s.contains(
                #[trigger] s.filter(keep_pred())[i],
            ),
    decreases s.len(),
{
    reveal(Seq::filter);
    if s.len() > 0 {
        lemma_filter_keeps_subset(s.drop_last());
        assert forall|i: int| 0 <= i < s.filter(keep_pred()).len() implies s.contains(
            #[trigger] s.filter(keep_pred())[i],
        ) by {
            let f = s.filter(keep_pred());
            let fd = s.drop_last().filter(keep_pred());
            if i < fd.len() {
                assert(fd[i] == f[i]);
                assert(s.drop_last().contains(fd[i]));
                let j = choose|j: int| 0 <= j < s.drop_last().len() && s.drop_last()[j] == fd[i];
                assert(s[j] == fd[i]);
            } else {
                assert(f[i] == s.last());
                assert(s[s.len() - 1] == s.last());
            }
        }
    }
}

/// Filtering keeps a sequence whose every element passes.
proof fn lemma_filter_keeps_all(s: Seq<Seq<char>>)
    requires
        forall|i: int| 0 <= i < s.len() ==> keeps_segment(#[trigger] s[i]),
    ensures
        s.filter(keep_pred()) == s,
    decreases s.len(),
{
    reveal(Seq::filter);
    if s.len() == 0 {
        assert(s.filter(keep_pred()) =~~= s);
    } else {
        assert(forall|i: int|
            0 <= i < s.drop_last().len() ==> keeps_segment(#[trigger] s.drop_last()[i]));
        lemma_filter_keeps_all(s.drop_last());
        assert(keeps_segment(s.last()));
        assert(s.filter(keep_pred()) =~~= s.drop_last().push(s.last()));
        assert(s.drop_last().push(s.last()) =~~= s);
    }
}

/// Normalization invents no characters beyond the separator and the two
/// marker components: a path free of newlines stays free of them.
pub proof fn lemma_normalize_free_of_newline(p: Seq<char>)
    requires
        !p.contains('\n'),
    ensures
        !spec_normalize(p).contains('\n'),
{
    lemma_split_pieces_free_of_char(p, '/', '\n');
    lemma_filter_keeps_subset(split_on(p, '/'));
    let b = body_components(p);
    let segs = split_on(p, '/');
    assert forall|i: int, k: int|
        0 <= i < b.len() && 0 <= k < b[i].len() implies #[trigger] b[i][k] != '\n' by {
        assert(segs.contains(b[i]));
        let j = choose|j: int| 0 <= j < segs.len() && segs[j] == b[i];
        assert(!segs[j].contains('\n'));
        if b[i][k] == '\n' {
            assert(segs[j][k] == '\n');
        }
    }
    let q = spec_normalize(p);
    if has_root(p) {
        if b.len() == 0 {
            if q.contains('\n') {
                let k = choose|k: int| 0 <= k < q.len() && q[k] == '\n';
            }
        } else {
            lemma_join_free(b, '/', '\n');
            if q.contains('\n') {
                let k = choose|k: int| 0 <= k < q.len() && q[k] == '\n';
                assert(q[k] == (seq!['/', '/'] + join_with(b, '/'))[k]);
                if k >= 2 {
                    assert(join_with(b, '/')[k - 2] == '\n');
                }
            }
        }
    } else if has_cur_dir(p) {
        let parts = seq![seq!['.']] + b;
        assert forall|i: int, k: int|
            0 <= i < parts.len() && 0 <= k < parts[i].len() implies #[trigger] parts[i][k]
            != '\n' by {
            if i >= 1 {
                assert(parts[i] == b[i - 1]);
            }
        }
        lemma_join_free(parts, '/', '\n');
    } else {
        lemma_join_free(b, '/', '\n');
    }
}

/// Normalization is idempotent: a normalized path normalizes to itself.
pub proof fn lemma_normalize_idempotent(p: Seq<char>)
    ensures
        spec_normalize(spec_normalize(p)) == spec_normalize(p),
{
    reveal_with_fuel(Seq::<Seq<char>>::filter, 4);
    reveal_with_fuel(split_on, 3);
    lemma_split_len_at_least_one(p, '/');
    lemma_body_free_of_sep(p);
    let b = body_components(p);
    let q = spec_normalize(p);
    if has_root(p) {
        if b.len() == 0 {
            assert(q == seq!['/']);
            assert(q.drop_last() =~= Seq::<char>::empty());
            assert(split_on(q, '/') =~~= seq![Seq::<char>::empty(), Seq::<char>::empty()]);
            assert(body_components(q) =~~= Seq::<Seq<char>>::empty());
            assert(has_root(q));
            assert(spec_normalize(q) == q);
        } else {
            let j = join_with(b, '/');
            assert(q == seq!['/', '/'] + j);
            assert(has_root(q));
            lemma_split_of_join(b, '/');
            lemma_split_cons_sep(j, '/');
            lemma_split_cons_sep(seq!['/'] + j, '/');
            assert(q =~= seq!['/'] + (seq!['/'] + j));
            let e = Seq::<char>::empty();
            assert(split_on(q, '/') =~~= seq![e, e] + b);
            Seq::<Seq<char>>::filter_distributes_over_add(seq![e, e], b, keep_pred());
            assert(seq![e, e].filter(keep_pred()) =~~= Seq::<Seq<char>>::empty());
            lemma_filter_keeps_all(b);
            assert(body_components(q) =~~= b);
            assert(spec_normalize(q) == q);
        }
    } else if has_cur_dir(p) {
        let parts = seq![seq!['.']] + b;
        assert(q == join_with(parts, '/'));
        assert(parts[0].len() > 0);
        lemma_join_first_char(parts, '/');
        assert(q[0] == '.');
        assert(!has_root(q));
        assert(forall|i: int| 0 <= i < parts.len() ==> !(#[trigger] parts[i]).contains('/'))
            by {
            assert forall|i: int| 0 <= i < parts.len() implies !(#[trigger] parts[i]).contains(
                '/',
            ) by {
                if i == 0 {
                    assert forall|z: int| 0 <= z < parts[0].len() implies parts[0][z] != '/' by {}
                } else {
                    assert(parts[i] == b[i - 1]);
                }
            }
        }
        lemma_split_of_join(parts, '/');
        assert(split_on(q, '/') == parts);
        assert(has_cur_dir(q));
        Seq::<Seq<char>>::filter_distributes_over_add(seq![seq!['.']], b, keep_pred());
        assert(seq![seq!['.']].filter(keep_pred()) =~~= Seq::<Seq<char>>::empty());
        lemma_filter_keeps_all(b);
        assert(body_components(q) =~~= b);
        assert(spec_normalize(q) == q);
    } else {
        if b.len() == 0 {
            assert(q =~= Seq::<char>::empty());
            assert(split_on(q, '/') =~~= seq![Seq::<char>::empty()]);
            assert(!has_root(q));
            assert(!has_cur_dir(q));
            assert(body_components(q) =~~= Seq::<Seq<char>>::empty());
            assert(spec_normalize(q) =~= q);
        } else {
            assert(q == join_with(b, '/'));
            assert(keeps_segment(b[0]) && !b[0].contains('/'));
            lemma_join_first_char(b, '/');
            assert(q[0] == b[0][0]);
            assert(b[0][0] != '/') by {
                if b[0][0] == '/' {
                    assert(b[0].contains('/'));
                }
            }
            assert(!has_root(q));
            lemma_split_of_join(b, '/');
            assert(split_on(q, '/') == b);
            assert(split_on(q, '/')[0] != seq!['.']);
            assert(!has_cur_dir(q));
            lemma_filter_keeps_all(b);
            assert(body_components(q) =~~= b);
            assert(spec_normalize(q) == q);
        }
    }
}

} // verus!

//! Character-sequence utilities: splitting on a separator, joining with a
//! separator, and rendering unsigned numbers in decimal. These carry the
//! string reasoning that path normalization, table rendering and line
//! splitting share.
use vstd::prelude::*;

verus! {

/// The pieces of `s` between occurrences of `sep`, in order. Always
/// non-empty: a string without the separator is one piece, and each
/// separator adds one more.
pub open spec fn split_on(s: Seq<char>, sep: char) -> Seq<Seq<char>>
    decreases s.len(),
{
    if s.len() == 0 {
        seq![Seq::<char>::empty()]
    } else if s.last() == sep {
        split_on(s.drop_last(), sep).push(Seq::<char>::empty())
    } else {
        let p = split_on(s.drop_last(), sep);
        p.update(p.len() - 1, p.last().push(s.last()))
    }
}

/// The pieces joined back, one `sep` between neighbours.
pub open spec fn join_with(parts: Seq<Seq<char>>, sep: char) -> Seq<char>
    decreases parts.len(),
{
    if parts.len() == 0 {
        Seq::<char>::empty()
    } else if parts.len() == 1 {
        parts[0]
    } else {
        join_with(parts.drop_last(), sep) + seq![sep] + parts.last()
    }
}

pub proof fn lemma_split_len_at_least_one(s: Seq<char>, sep: char)
    ensures
        split_on(s, sep).len() >= 1,
    decreases s.len(),
{
    if s.len() > 0 {
        lemma_split_len_at_least_one(s.drop_last(), sep);
    }
}

/// No piece of a split contains the separator.
pub proof fn lemma_split_pieces_free_of_sep(s: Seq<char>, sep: char)
    ensures
        forall|i: int|
            0 <= i < split_on(s, sep).len() ==> !(#[trigger] split_on(s, sep)[i]).contains(sep),
    decreases s.len(),
{
    lemma_split_len_at_least_one(s, sep);
    if s.len() == 0 {
        assert forall|i: int| 0 <= i < split_on(s, sep).len() implies !(
        #[trigger] split_on(s, sep)[i]).contains(sep) by {
            assert(split_on(s, sep)[i] =~= Seq::<char>::empty());
        }
    } else {
        lemma_split_pieces_free_of_sep(s.drop_last(), sep);
        lemma_split_len_at_least_one(s.drop_last(), sep);
        let prev = split_on(s.drop_last(), sep);
        assert(!prev[prev.len() - 1].contains(sep));
        if s.last() == sep {
            assert forall|i: int| 0 <= i < split_on(s, sep).len() implies !(
            #[trigger] split_on(s, sep)[i]).contains(sep) by {
                if i < prev.len() {
                    assert(split_on(s, sep)[i] == prev[i]);
                } else {
                    assert(split_on(s, sep)[i] =~= Seq::<char>::empty());
                }
            }
        } else {
            assert forall|i: int| 0 <= i < split_on(s, sep).len() implies !(
            #[trigger] split_on(s, sep)[i]).contains(sep) by {
                if i < prev.len() - 1 {
                    assert(split_on(s, sep)[i] == prev[i]);
                } else {
                    let ext = prev.last().push(s.last());
                    assert(split_on(s, sep)[i] == ext);
                    assert(!prev.last().contains(sep));
                    assert forall|j: int| 0 <= j < ext.len() implies ext[j] != sep by {
                        if j < ext.len() - 1 {
                            assert(prev.last()[j] != sep);
                        }
                    }
                    assert(!ext.contains(sep));
                }
            }
        }
    }
}

/// Splitting after appending the separator adds one empty piece.
pub proof fn lemma_split_after_sep(a: Seq<char>, sep: char)
    ensures
        split_on(a + seq![sep], sep) == split_on(a, sep).push(Seq::<char>::empty()),
{
    let s = a + seq![sep];
    assert(s.last() == sep);
    assert(s.drop_last() =~= a);
}

/// Splitting after appending a non-separator character extends the last piece.
pub proof fn lemma_split_after_char(a: Seq<char>, c: char, sep: char)
    requires
        c != sep,
    ensures
        split_on(a + seq![c], sep) == split_on(a, sep).update(
            split_on(a, sep).len() - 1,
            split_on(a, sep).last().push(c),
        ),
{
    let s = a + seq![c];
    assert(s.len() > 0 && s.last() == c);
    assert(s.drop_last() =~= a);
}

/// Splitting `a + sep + b` splits `a`, then starts fresh on `b`.
pub proof fn lemma_split_append(a: Seq<char>, b: Seq<char>, sep: char)
    requires
        !b.contains(sep),
    ensures
        split_on(a + seq![sep] + b, sep) == split_on(a, sep).push(b),
    decreases b.len(),
{
    lemma_split_len_at_least_one(a, sep);
    if b.len() == 0 {
        assert(a + seq![sep] + b =~= a + seq![sep]);
        lemma_split_after_sep(a, sep);
        assert(split_on(a, sep).push(Seq::<char>::empty()) =~~= split_on(a, sep).push(b));
    } else {
        assert(!b.drop_last().contains(sep)) by {
            if b.drop_last().contains(sep) {
                let j = choose|j: int| 0 <= j < b.drop_last().len() && b.drop_last()[j] == sep;
                assert(b[j] == sep);
            }
        }
        lemma_split_append(a, b.drop_last(), sep);
        let mid = a + seq![sep] + b.drop_last();
        assert(b.last() != sep) by {
            if b.last() == sep {
                assert(b[b.len() - 1] == sep);
            }
        }
        lemma_split_after_char(mid, b.last(), sep);
        assert(mid + seq![b.last()] =~= a + seq![sep] + b);
        let p = split_on(a, sep).push(b.drop_last());
        assert(p.last().push(b.last()) =~= b);
        assert(p.update(p.len() - 1, p.last().push(b.last())) =~~= split_on(a, sep).push(b));
    }
}

/// A string free of the separator is a single piece.
pub proof fn lemma_split_single(b: Seq<char>, sep: char)
    requires
        !b.contains(sep),
    ensures
        split_on(b, sep) == seq![b],
    decreases b.len(),
{
    if b.len() == 0 {
        assert(split_on(b, sep) =~~= seq![b]);
    } else {
        assert(b.last() != sep) by {
            if b.last() == sep {
                assert(b[b.len() - 1] == sep);
            }
        }
        assert(!b.drop_last().contains(sep)) by {
            if b.drop_last().contains(sep) {
                let j = choose|j: int| 0 <= j < b.drop_last().len() && b.drop_last()[j] == sep;
                assert(b[j] == sep);
            }
        }
        lemma_split_single(b.drop_last(), sep);
        let p = seq![b.drop_last()];
        assert(p.update(0, p.last().push(b.last())) =~~= seq![b]);
    }
}

/// Splitting invents no characters: a piece never holds a character that
/// the string itself is free of.
pub proof fn lemma_split_pieces_free_of_char(s: Seq<char>, sep: char, c: char)
    requires
        !s.contains(c),
    ensures
        forall|i: int|
            0 <= i < split_on(s, sep).len() ==> !(#[trigger] split_on(s, sep)[i]).contains(c),
    decreases s.len(),
{
    lemma_split_len_at_least_one(s, sep);
    if s.len() == 0 {
        assert forall|i: int| 0 <= i < split_on(s, sep).len() implies !(
        #[trigger] split_on(s, sep)[i]).contains(c) by {
            assert(split_on(s, sep)[i] =~= Seq::<char>::empty());
        }
    } else {
        assert(!s.drop_last().contains(c)) by {
            if s.drop_last().contains(c) {
                let j = choose|j: int| 0 <= j < s.drop_last().len() && s.drop_last()[j] == c;
                assert(s[j] == c);
            }
        }
        assert(s.last() != c) by {
            if s.last() == c {
                assert(s[s.len() - 1] == c);
            }
        }
        lemma_split_pieces_free_of_char(s.drop_last(), sep, c);
        lemma_split_len_at_least_one(s.drop_last(), sep);
        let prev = split_on(s.drop_last(), sep);
        assert(!prev[prev.len() - 1].contains(c));
        if s.last() == sep {
            assert forall|i: int| 0 <= i < split_on(s, sep).len() implies !(
            #[trigger] split_on(s, sep)[i]).contains(c) by {
                if i < prev.len() {
                    assert(split_on(s, sep)[i] == prev[i]);
                } else {
                    assert(split_on(s, sep)[i] =~= Seq::<char>::empty());
                }
            }
        } else {
            assert forall|i: int| 0 <= i < split_on(s, sep).len() implies !(
            #[trigger] split_on(s, sep)[i]).contains(c) by {
                if i < prev.len() - 1 {
                    assert(split_on(s, sep)[i] == prev[i]);
                } else {
                    let ext = prev.last().push(s.last());
                    assert(split_on(s, sep)[i] == ext);
                    assert forall|j: int| 0 <= j < ext.len() implies ext[j] != c by {
                        if j < ext.len() - 1 {
                            assert(ext[j] == prev.last()[j]);
                            assert(!prev.last().contains(c));
                        }
                    }
                    if ext.contains(c) {
                        let j = choose|j: int| 0 <= j < ext.len() && ext[j] == c;
                    }
                }
            }
        }
    }
}

/// A join of pieces free of `c`, with a separator other than `c`, is free
/// of `c`.
pub proof fn lemma_join_free(parts: Seq<Seq<char>>, sep: char, c: char)
    requires
        c != sep,
        forall|i: int, k: int|
            0 <= i < parts.len() && 0 <= k < parts[i].len() ==> #[trigger] parts[i][k] != c,
    ensures
        forall|k: int| 0 <= k < join_with(parts, sep).len() ==> join_with(parts, sep)[k] != c,
        !join_with(parts, sep).contains(c),
    decreases parts.len(),
{
    if parts.len() > 1 {
        assert forall|i: int, k: int|
            0 <= i < parts.drop_last().len() && 0 <= k
                < parts.drop_last()[i].len() implies #[trigger] parts.drop_last()[i][k] != c by {
            assert(parts.drop_last()[i] == parts[i]);
            assert(parts[i][k] != c);
        }
        lemma_join_free(parts.drop_last(), sep, c);
        let pre = join_with(parts.drop_last(), sep);
        let whole = join_with(parts, sep);
        assert(whole == pre + seq![sep] + parts.last());
        assert forall|k: int| 0 <= k < whole.len() implies whole[k] != c by {
            if k < pre.len() {
                assert(whole[k] == pre[k]);
            } else if k == pre.len() {
                assert(whole[k] == sep);
            } else {
                assert(whole[k] == parts.last()[k - pre.len() - 1]);
                assert(parts[parts.len() - 1][k - pre.len() - 1] != c);
            }
        }
    } else if parts.len() == 1 {
        assert(join_with(parts, sep) == parts[0]);
        assert forall|k: int| 0 <= k < join_with(parts, sep).len() implies join_with(
            parts,
            sep,
        )[k] != c by {
            assert(parts[0][k] != c);
        }
    }
    if join_with(parts, sep).contains(c) {
        let k = choose|k: int|
            0 <= k < join_with(parts, sep).len() && join_with(parts, sep)[k] == c;
    }
}

/// A leading separator contributes one empty piece at the front.
pub proof fn lemma_split_cons_sep(s: Seq<char>, sep: char)
    ensures
        split_on(seq![sep] + s, sep) == seq![Seq::<char>::empty()] + split_on(s, sep),
    decreases s.len(),
{
    let t = seq![sep] + s;
    if s.len() == 0 {
        reveal_with_fuel(split_on, 3);
        assert(t =~= Seq::<char>::empty() + seq![sep]);
        assert(t.drop_last() =~= Seq::<char>::empty());
        assert(split_on(t, sep) =~~= seq![Seq::<char>::empty()] + split_on(s, sep));
    } else {
        lemma_split_cons_sep(s.drop_last(), sep);
        assert(t.drop_last() =~= seq![sep] + s.drop_last());
        lemma_split_len_at_least_one(s.drop_last(), sep);
        let pre = seq![Seq::<char>::empty()] + split_on(s.drop_last(), sep);
        if s.last() == sep {
            assert(split_on(t, sep) == pre.push(Seq::<char>::empty()));
            assert(pre.push(Seq::<char>::empty()) =~~= seq![Seq::<char>::empty()] + split_on(
                s,
                sep,
            ));
        } else {
            assert(split_on(t, sep) == pre.update(pre.len() - 1, pre.last().push(s.last())));
            assert(pre.update(pre.len() - 1, pre.last().push(s.last())) =~~= seq![
                Seq::<char>::empty(),
            ] + split_on(s, sep));
        }
    }
}

/// Splitting inverts joining, as long as no piece contains the separator.
pub proof fn lemma_split_of_join(parts: Seq<Seq<char>>, sep: char)
    requires
        parts.len() >= 1,
        forall|i: int| 0 <= i < parts.len() ==> !(#[trigger] parts[i]).contains(sep),
    ensures
        split_on(join_with(parts, sep), sep) == parts,
    decreases parts.len(),
{
    if parts.len() == 1 {
        lemma_split_single(parts[0], sep);
        assert(seq![parts[0]] =~= parts);
    } else {
        lemma_split_of_join(parts.drop_last(), sep);
        lemma_split_append(join_with(parts.drop_last(), sep), parts.last(), sep);
        assert(parts.drop_last().push(parts.last()) =~= parts);
    }
}

/// Joining one more piece appends a separator and the piece.
pub proof fn lemma_join_push(parts: Seq<Seq<char>>, x: Seq<char>, sep: char)
    requires
        parts.len() >= 1,
    ensures
        join_with(parts.push(x), sep) == join_with(parts, sep) + seq![sep] + x,
{
    assert(parts.push(x).drop_last() =~~= parts);
}

/// The first character of a join whose first piece is non-empty.
pub proof fn lemma_join_first_char(parts: Seq<Seq<char>>, sep: char)
    requires
        parts.len() >= 1,
        parts[0].len() > 0,
    ensures
        join_with(parts, sep).len() > 0,
        join_with(parts, sep)[0] == parts[0][0],
    decreases parts.len(),
{
    if parts.len() > 1 {
        lemma_join_first_char(parts.drop_last(), sep);
    }
}

/// Splits a string into its pieces between occurrences of `sep`.
pub fn split_char(s: &str, sep: char) -> (r: Vec<String>)
    ensures
        r.deep_view() == split_on(s@, sep),
{
    let n = s.unicode_len();
    let mut r: Vec<String> = Vec::new();
    let mut seg_start: usize = 0;
    let mut i: usize = 0;
    proof {
        assert(s@.take(0) =~= Seq::<char>::empty());
        assert(r.deep_view().push(s@.subrange(0, 0)) =~~= split_on(s@.take(0), sep));
    }
    while i < n
        invariant
            seg_start <= i <= n,
            n == s@.len(),
            r.deep_view().push(s@.subrange(seg_start as int, i as int)) =~~= split_on(
                s@.take(i as int),
                sep,
            ),
        decreases n - i,
    {
        let c = s.get_char(i);
        proof {
            assert(s@.take(i as int + 1) =~= s@.take(i as int) + seq![s@[i as int]]);
        }
        if c == sep {
            let ghost old_r = r.deep_view();
            r.push(String::from_str(s.substring_char(seg_start, i)));
            proof {
                assert(r.deep_view() =~~= old_r.push(s@.subrange(seg_start as int, i as int)));
                lemma_split_after_sep(s@.take(i as int), sep);
                assert(r.deep_view().push(s@.subrange(i as int + 1, i as int + 1)) =~~= split_on(
                    s@.take(i as int + 1),
                    sep,
                ));
            }
            seg_start = i + 1;
        } else {
            proof {
                lemma_split_after_char(s@.take(i as int), c, sep);
                let p = split_on(s@.take(i as int), sep);
                assert(r.deep_view().push(s@.subrange(seg_start as int, i as int + 1)) =~~= p
                    .update(p.len() - 1, p.last().push(c)));
            }
        }
        i += 1;
    }
    let ghost old_r = r.deep_view();
    r.push(String::from_str(s.substring_char(seg_start, n)));
    proof {
        assert(r.deep_view() =~~= old_r.push(s@.subrange(seg_start as int, n as int)));
        assert(s@.take(n as int) =~= s@);
    }
    r
}

/// The decimal digit characters of `n`, most significant first.
pub open spec fn spec_digit(d: nat) -> char {
    if d == 0 {
        '0'
    } else if d == 1 {
        '1'
    } else if d == 2 {
        '2'
    } else if d == 3 {
        '3'
    } else if d == 4 {
        '4'
    } else if d == 5 {
        '5'
    } else if d == 6 {
        '6'
    } else if d == 7 {
        '7'
    } else if d == 8 {
        '8'
    } else {
        '9'
    }
}

pub open spec fn spec_decimal(n: nat) -> Seq<char>
    decreases n,
{
    if n < 10 {
        seq![spec_digit(n)]
    } else {
        spec_decimal(n / 10) + seq![spec_digit(n % 10)]
    }
}

/// The decimal rendering of a number never holds a newline.
pub proof fn lemma_decimal_free_of_newline(n: nat)
    ensures
        forall|k: int| 0 <= k < spec_decimal(n).len() ==> spec_decimal(n)[k] != '\n',
        !spec_decimal(n).contains('\n'),
    decreases n,
{
    if n >= 10 {
        lemma_decimal_free_of_newline(n / 10);
        assert forall|k: int| 0 <= k < spec_decimal(n).len() implies spec_decimal(n)[k]
            != '\n' by {
            if k < spec_decimal(n / 10).len() {
                assert(spec_decimal(n)[k] == spec_decimal(n / 10)[k]);
            }
        }
    }
    if spec_decimal(n).contains('\n') {
        let k = choose|k: int| 0 <= k < spec_decimal(n).len() && spec_decimal(n)[k] == '\n';
    }
}

/// One decimal digit as a string slice.
fn digit_str(d: u64) -> (r: &'static str)
    requires
        d < 10,
    ensures
        r@ =~= seq![spec_digit(d as nat)],
{
    proof {
        reveal_strlit("0");
        reveal_strlit("1");
        reveal_strlit("2");
        reveal_strlit("3");
        reveal_strlit("4");
        reveal_strlit("5");
        reveal_strlit("6");
        reveal_strlit("7");
        reveal_strlit("8");
        reveal_strlit("9");
    }
    if d == 0 {
        "0"
    } else if d == 1 {
        "1"
    } else if d == 2 {
        "2"
    } else if d == 3 {
        "3"
    } else if d == 4 {
        "4"
    } else if d == 5 {
        "5"
    } else if d == 6 {
        "6"
    } else if d == 7 {
        "7"
    } else if d == 8 {
        "8"
    } else {
        "9"
    }
}

/// Appends the decimal rendering of `n` to `out`.
pub fn push_decimal(out: &mut String, n: u64)
    ensures
        final(out)@ == old(out)@ + spec_decimal(n as nat),
    decreases n,
{
    if n >= 10 {
        push_decimal(out, n / 10);
        out.append(digit_str(n % 10));
    } else {
        out.append(digit_str(n));
    }
}

/// The decimal rendering of `n` as a fresh string.
pub fn decimal_string(n: u64) -> (r: String)
    ensures
        r@ == spec_decimal(n as nat),
{
    let mut out = String::new();
    push_decimal(&mut out, n);
    out
}

} // verus!

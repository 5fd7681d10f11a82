//! The rate-limit header grammar and its parser.
//!
//! A header value is `bucket ("," bucket)*` with `bucket := INT ":" INT`;
//! the first integer is a limit or a count, the second the window length
//! in seconds.  The specification mirrors `str::split`: splitting on a
//! separator, an empty string yields one empty piece, and every piece
//! must then be a run of one or more decimal digits whose value fits in
//! a `u64`.

use vstd::prelude::*;

use crate::errors::Error;

verus! {

/// A decimal digit.
pub open spec fn is_digit_char(c: char) -> bool {
    48 <= c as u32 <= 57
}

/// The value of one decimal digit.
pub open spec fn digit_val(c: char) -> int {
    c as u32 - 48
}

/// Every character is a decimal digit.
pub open spec fn all_digits(s: Seq<char>) -> bool {
    forall|i: int| 0 <= i < s.len() ==> is_digit_char(#[trigger] s[i])
}

/// The value of a run of decimal digits, most significant first.
pub open spec fn digits_val(s: Seq<char>) -> int
    decreases s.len(),
{
    if s.len() == 0 {
        0
    } else {
        digits_val(s.drop_last()) * 10 + digit_val(s.last())
    }
}

/// A decimal integer: one or more digits whose value fits in a `u64`.
pub open spec fn spec_parse_u64(s: Seq<char>) -> Option<u64> {
    if s.len() > 0 && all_digits(s) && digits_val(s) <= u64::MAX {
        Some(digits_val(s) as u64)
    } else {
        None
    }
}

/// The pieces of `s` between occurrences of `sep`, as `str::split`
/// yields them: splitting the empty string gives one empty piece, and a
/// separator at either end gives an empty piece there.
pub open spec fn split_at_char(s: Seq<char>, sep: char) -> Seq<Seq<char>>
    decreases s.len(),
{
    if s.len() == 0 {
        seq![Seq::<char>::empty()]
    } else if s[0] == sep {
        seq![Seq::<char>::empty()] + split_at_char(s.drop_first(), sep)
    } else {
        let rest = split_at_char(s.drop_first(), sep);
        seq![seq![s[0]] + rest[0]] + rest.drop_first()
    }
}

/// One bucket: exactly two integers joined by a colon.
pub open spec fn spec_parse_pair(s: Seq<char>) -> Option<(u64, u64)> {
    let pieces = split_at_char(s, ':');
    if pieces.len() == 2 {
        match (spec_parse_u64(pieces[0]), spec_parse_u64(pieces[1])) {
            (Some(a), Some(b)) => Some((a, b)),
            _ => None,
        }
    } else {
        None
    }
}

/// A whole header value: buckets joined by commas, every one of which
/// must parse.
pub open spec fn spec_parse_header(s: Seq<char>) -> Option<Seq<(u64, u64)>> {
    let items = split_at_char(s, ',');
    if forall|i: int| 0 <= i < items.len() ==> spec_parse_pair(#[trigger] items[i]) is Some {
        Some(Seq::new(items.len(), |i: int| spec_parse_pair(items[i])->0))
    } else {
        None
    }
}

proof fn lemma_split_len(s: Seq<char>, sep: char)
    ensures
        split_at_char(s, sep).len() >= 1,
    decreases s.len(),
{
    if s.len() > 0 {
        lemma_split_len(s.drop_first(), sep);
    }
}

/// Splitting off the first piece: when the first `i` characters hold no
/// separator, the split is the piece up to `i` followed by the split of
/// what comes after the separator at `i` (or just the whole string when
/// no separator occurs at all).
proof fn lemma_split_prefix(s: Seq<char>, sep: char, i: int)
    requires
        0 <= i <= s.len(),
        forall|j: int| 0 <= j < i ==> s[j] != sep,
    ensures
        i < s.len() && s[i] == sep ==> split_at_char(s, sep) =~~= seq![s.take(i)]
            + split_at_char(s.skip(i + 1), sep),
        i == s.len() ==> split_at_char(s, sep) =~~= seq![s],
    decreases i,
{
    lemma_split_len(s, sep);
    if i == 0 {
        if 0 < s.len() && s[0] == sep {
            assert(s.take(0) =~= Seq::<char>::empty());
            assert(s.skip(1) =~= s.drop_first());
        } else if i == s.len() {
            assert(s =~= Seq::<char>::empty());
        }
    } else {
        let d = s.drop_first();
        assert(forall|j: int| 0 <= j < i - 1 ==> #[trigger] d[j] != sep);
        lemma_split_prefix(d, sep, i - 1);
        lemma_split_len(d, sep);
        let rest = split_at_char(d, sep);
        if i < s.len() && s[i] == sep {
            assert(d[i - 1] == sep);
            assert(rest =~~= seq![d.take(i - 1)] + split_at_char(d.skip(i), sep));
            assert(seq![s[0]] + rest[0] =~= s.take(i));
            assert(rest.drop_first() =~~= split_at_char(d.skip(i), sep));
            assert(d.skip(i) =~= s.skip(i + 1));
            assert(split_at_char(s, sep) =~~= seq![s.take(i)] + split_at_char(
                s.skip(i + 1),
                sep,
            ));
        } else if i == s.len() {
            assert(rest =~~= seq![d]);
            assert(seq![s[0]] + rest[0] =~= s);
            assert(rest.drop_first() =~~= Seq::<Seq<char>>::empty());
            assert(split_at_char(s, sep) =~~= seq![s]);
        }
    }
}

proof fn lemma_digits_val_nonneg(s: Seq<char>)
    requires
        all_digits(s),
    ensures
        digits_val(s) >= 0,
    decreases s.len(),
{
    if s.len() > 0 {
        assert(all_digits(s.drop_last())) by {
            assert(forall|i: int|
                0 <= i < s.drop_last().len() ==> #[trigger] s.drop_last()[i] == s[i]);
        }
        lemma_digits_val_nonneg(s.drop_last());
        assert(is_digit_char(s.last()));
    }
}

/// The value of a digit run never drops as the run grows.
proof fn lemma_digits_val_monotone(s: Seq<char>, j: int)
    requires
        all_digits(s),
        0 <= j <= s.len(),
    ensures
        digits_val(s) >= digits_val(s.take(j)),
    decreases s.len() - j,
{
    assert(forall|i: int| 0 <= i < j ==> #[trigger] s.take(j)[i] == s[i]);
    if j == s.len() {
        assert(s.take(j) =~= s);
    } else {
        lemma_digits_val_monotone(s, j + 1);
        assert(s.take(j + 1).drop_last() =~= s.take(j));
        assert(s.take(j + 1).last() == s[j]);
        assert(all_digits(s.take(j))) by {
            assert(forall|i: int| 0 <= i < j ==> #[trigger] s.take(j)[i] == s[i]);
        }
        lemma_digits_val_nonneg(s.take(j));
        assert(is_digit_char(s[j]));
        assert(digits_val(s.take(j + 1)) == digits_val(s.take(j)) * 10 + digit_val(s[j]));
        assert(digits_val(s.take(j)) * 10 >= digits_val(s.take(j))) by (nonlinear_arith)
            requires
                digits_val(s.take(j)) >= 0,
        ;
    }
}

/// First occurrence of `sep` in `s` at or after `from` and before `to`,
/// or `to` when there is none.
fn find_char_from(s: &str, sep: char, from: usize, to: usize) -> (r: usize)
    requires
        from <= to <= s@.len(),
    ensures
        from <= r <= to,
        forall|j: int| from <= j < r ==> s@[j] != sep,
        r < to ==> s@[r as int] == sep,
{
    let mut i: usize = from;
    while i < to
        invariant
            from <= i <= to <= s@.len(),
            forall|j: int| from <= j < i ==> s@[j] != sep,
        decreases to - i,
    {
        if s.get_char(i) == sep {
            return i;
        }
        i += 1;
    }
    to
}

/// Parses the digit run `s[from..to]` as a `u64`.
fn parse_u64_range(s: &str, from: usize, to: usize) -> (r: Option<u64>)
    requires
        from <= to <= s@.len(),
    ensures
        r == spec_parse_u64(s@.subrange(from as int, to as int)),
{
    let ghost t = s@.subrange(from as int, to as int);
    if from == to {
        return None;
    }
    let mut acc: u64 = 0;
    let mut i: usize = from;
    while i < to
        invariant
            from <= i <= to <= s@.len(),
            t == s@.subrange(from as int, to as int),
            t.len() == to - from,
            all_digits(t.take(i - from)),
            acc == digits_val(t.take(i - from)),
        decreases to - i,
    {
        let c = s.get_char(i);
        let cv = c as u32;
        proof {
            assert(t[i - from] == s@[i as int]);
            assert(t.take(i - from + 1).drop_last() =~= t.take(i - from));
            assert(t.take(i - from + 1).last() == t[i - from]);
        }
        if cv < 48 || cv > 57 {
            proof {
                assert(!is_digit_char(t[i - from]));
            }
            return None;
        }
        let d = (cv - 48) as u64;
        let next = match acc.checked_mul(10) {
            Some(m) => m.checked_add(d),
            None => None,
        };
        match next {
            Some(v) => {
                acc = v;
            },
            None => {
                proof {
                    assert(digits_val(t.take(i - from + 1)) > u64::MAX) by {
                        assert(digits_val(t.take(i - from + 1)) == digits_val(t.take(i - from))
                            * 10 + digit_val(t[i - from]));
                        assert(acc * 10 + d > u64::MAX);
                    }
                    if all_digits(t) {
                        lemma_digits_val_monotone(t, i - from + 1);
                    }
                }
                return None;
            },
        }
        i += 1;
    }
    proof {
        assert(t.take(to - from) =~= t);
    }
    Some(acc)
}

/// Parses the bucket `s[from..to]`: exactly two digit runs joined by a
/// colon.
fn parse_pair_range(s: &str, from: usize, to: usize) -> (r: Option<(u64, u64)>)
    requires
        from <= to <= s@.len(),
    ensures
        r == spec_parse_pair(s@.subrange(from as int, to as int)),
{
    let ghost t = s@.subrange(from as int, to as int);
    let c1 = find_char_from(s, ':', from, to);
    if c1 == to {
        // no colon: a single piece
        proof {
            assert(forall|j: int| 0 <= j < t.len() ==> #[trigger] t[j] == s@[from + j]);
            lemma_split_prefix(t, ':', t.len() as int);
        }
        return None;
    }
    proof {
        assert(forall|j: int| 0 <= j < t.len() ==> #[trigger] t[j] == s@[from + j]);
        assert(t[c1 - from] == ':');
        lemma_split_prefix(t, ':', c1 - from);
        assert(split_at_char(t, ':') =~~= seq![t.take(c1 - from)] + split_at_char(
            t.skip(c1 - from + 1),
            ':',
        ));
    }
    let c2 = find_char_from(s, ':', c1 + 1, to);
    let ghost u = t.skip(c1 - from + 1);
    proof {
        assert(u =~= s@.subrange(c1 + 1, to as int));
        assert(forall|j: int| 0 <= j < u.len() ==> #[trigger] u[j] == s@[c1 + 1 + j]);
    }
    if c2 < to {
        // a second colon: three or more pieces
        proof {
            assert(u[c2 - (c1 + 1)] == ':');
            lemma_split_prefix(u, ':', c2 - (c1 + 1));
            lemma_split_len(u.skip(c2 - (c1 + 1) + 1), ':');
            assert(split_at_char(t, ':').len() >= 3);
        }
        return None;
    }
    proof {
        lemma_split_prefix(u, ':', u.len() as int);
        assert(split_at_char(t, ':').len() == 2);
        assert(split_at_char(t, ':')[0] == t.take(c1 - from));
        assert(split_at_char(t, ':')[1] == u);
        assert(t.take(c1 - from) =~= s@.subrange(from as int, c1 as int));
    }
    let first = parse_u64_range(s, from, c1);
    let second = parse_u64_range(s, c1 + 1, to);
    match (first, second) {
        (Some(a), Some(b)) => Some((a, b)),
        _ => None,
    }
}

/// Parses a rate-limit header value into its `(value, window)` pairs.
/// Returns `Ok` exactly when the value matches the grammar
/// `INT ":" INT ("," INT ":" INT)*` with every integer fitting a `u64`,
/// and then yields the pairs in order.
pub fn parse_rate_limit_header(s: &str) -> (r: Result<Vec<(u64, u64)>, Error>)
    ensures
        (r is Ok) <==> (spec_parse_header(s@) is Some),
        r matches Ok(v) ==> Some(v@) == spec_parse_header(s@),
        r matches Err(e) ==> e == Error::HeaderParse,
{
    let n = s.unicode_len();
    let ghost items = split_at_char(s@, ',');
    let mut out: Vec<(u64, u64)> = Vec::new();
    let mut start: usize = 0;
    let ghost mut k: int = 0;
    proof {
        lemma_split_len(s@, ',');
        assert(s@.skip(0) =~= s@);
        assert(items.skip(0) =~~= items);
    }
    loop
        invariant
            start <= n == s@.len(),
            0 <= k < items.len(),
            items == split_at_char(s@, ','),
            split_at_char(s@.skip(start as int), ',') == items.skip(k),
            out@.len() == k,
            forall|j: int|
                0 <= j < k ==> spec_parse_pair(#[trigger] items[j]) is Some && items[j].len()
                    < s@.len() && Some(out@[j]) == spec_parse_pair(items[j]),
        decreases n - start,
    {
        let end = find_char_from(s, ',', start, n);
        let ghost suffix = s@.skip(start as int);
        proof {
            assert(forall|j: int|
                0 <= j < suffix.len() ==> #[trigger] suffix[j] == s@[start + j]);
            if end < n {
                assert(suffix[end - start] == ',');
                lemma_split_prefix(suffix, ',', end - start);
                lemma_split_len(suffix.skip(end - start + 1), ',');
                assert(items.skip(k) == seq![suffix.take(end - start)] + split_at_char(
                    suffix.skip(end - start + 1),
                    ',',
                ));
                assert(items.skip(k)[0] == suffix.take(end - start));
            } else {
                lemma_split_prefix(suffix, ',', suffix.len() as int);
                assert(suffix.take(end - start) =~= suffix);
                assert(items.skip(k) == seq![suffix]);
                assert(items.skip(k)[0] == suffix);
            }
            assert(items[k] == items.skip(k)[0]);
            assert(items[k] == suffix.take(end - start));
            assert(suffix.take(end - start) =~= s@.subrange(start as int, end as int));
        }
        let pair = parse_pair_range(s, start, end);
        match pair {
            Some(p) => {
                out.push(p);
            },
            None => {
                proof {
                    assert(spec_parse_pair(items[k]) is None);
                    assert(spec_parse_header(s@) is None);
                }
                return Err(Error::HeaderParse);
            },
        }
        if end == n {
            proof {
                assert(items.skip(k) =~~= seq![suffix]);
                assert(items.len() == k + 1);
                assert(forall|j: int|
                    0 <= j < items.len() ==> spec_parse_pair(#[trigger] items[j]) is Some);
                let parsed = spec_parse_header(s@)->0;
                assert(out@ =~= parsed);
            }
            return Ok(out);
        }
        proof {
            assert(suffix.skip(end - start + 1) =~= s@.skip(end + 1));
            assert(items.skip(k).drop_first() =~~= items.skip(k + 1));
            assert(split_at_char(s@.skip(end + 1), ',') =~~= items.skip(k + 1));
            assert(items[k].len() == end - start < s@.len());
            k = k + 1;
        }
        start = end + 1;
    }
}

} // verus!

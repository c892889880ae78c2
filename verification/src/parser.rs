//! The column-specification parser.
//!
//! A specification string splits on `,` into tokens. In cut mode a token is
//! a positive 1-based column number or an inclusive range `N-M`, and the
//! result is a presence bitmap; in reorder mode every token must be a single
//! positive number, and the result is the ordered list of those numbers.
//! All parsing is over bytes; columns are 1-based throughout.

use vstd::prelude::*;

use crate::bytes::contains_byte;
use crate::bytes::has_byte;
use crate::bytes::subvec;
use crate::errors::ParseError;

verus! {

/// The byte that separates tokens in a specification string.
pub const COMMA: u8 = 44;

/// The byte that separates the two bounds of a range token.
pub const HYPHEN: u8 = 45;

/// An ASCII decimal digit.
pub open spec fn is_digit(b: u8) -> bool {
    48 <= b <= 57
}

/// Every byte of `s` is an ASCII decimal digit.
pub open spec fn all_digits(s: Seq<u8>) -> bool {
    forall|i: int| 0 <= i < s.len() ==> is_digit(s[i])
}

/// The value of a decimal digit string, most significant digit first.
pub open spec fn digits_val(s: Seq<u8>) -> int
    recommends
        all_digits(s),
    decreases s.len(),
{
    if s.len() == 0 {
        0
    } else {
        digits_val(s.drop_last()) * 10 + (s.last() - 48)
    }
}

/// `s` is a well-formed decimal number that fits in `usize`: nonempty, all
/// digits, value at most `usize::MAX`.
pub open spec fn valid_number(s: Seq<u8>) -> bool {
    &&& s.len() > 0
    &&& all_digits(s)
    &&& digits_val(s) <= usize::MAX
}

proof fn lemma_digits_val_nonneg(s: Seq<u8>)
    requires
        all_digits(s),
    ensures
        digits_val(s) >= 0,
    decreases s.len(),
{
    if s.len() > 0 {
        assert(all_digits(s.drop_last()));
        lemma_digits_val_nonneg(s.drop_last());
    }
}

/// Appending digits never decreases the value of a digit string.
proof fn lemma_digits_val_prefix_le(s: Seq<u8>, i: int)
    requires
        0 <= i <= s.len(),
        all_digits(s),
    ensures
        digits_val(s.take(i)) <= digits_val(s),
    decreases s.len() - i,
{
    if i == s.len() {
        assert(s.take(i) =~= s);
    } else {
        assert(s.take(i + 1).drop_last() =~= s.take(i));
        assert(s.take(i + 1).last() == s[i]);
        assert(all_digits(s.take(i))) by {
            assert(forall|m: int| 0 <= m < i ==> s.take(i)[m] == s[m]);
        }
        lemma_digits_val_nonneg(s.take(i));
        assert(digits_val(s.take(i + 1)) == digits_val(s.take(i)) * 10 + (s[i] - 48));
        assert(digits_val(s.take(i)) * 10 >= digits_val(s.take(i)));
        lemma_digits_val_prefix_le(s, i + 1);
    }
}

/// Parses a token as a decimal number. Returns the value exactly when the
/// token is a nonempty digit string whose value fits in `usize`; any other
/// token is an invalid number.
pub fn parse_number(token: &Vec<u8>) -> (r: Result<usize, ParseError>)
    ensures
        match r {
            Ok(n) => valid_number(token@) && n as int == digits_val(token@),
            Err(e) => !valid_number(token@) && e == ParseError::InvalidNumber,
        },
{
    if token.len() == 0 {
        return Err(ParseError::InvalidNumber);
    }
    let mut n: usize = 0;
    let mut i: usize = 0;
    while i < token.len()
        invariant
            i <= token@.len(),
            all_digits(token@.take(i as int)),
            n as int == digits_val(token@.take(i as int)),
        decreases token@.len() - i,
    {
        let b = token[i];
        if b < 48 || b > 57 {
            proof {
                assert(!is_digit(token@[i as int]));
            }
            return Err(ParseError::InvalidNumber);
        }
        let d: usize = (b - 48) as usize;
        proof {
            assert(token@.take(i + 1).drop_last() =~= token@.take(i as int));
            assert(token@.take(i + 1).last() == token@[i as int]);
            assert(all_digits(token@.take(i + 1))) by {
                assert(forall|m: int|
                    0 <= m < i + 1 ==> token@.take(i + 1)[m] == token@.take(i as int).push(
                        token@[i as int],
                    )[m]);
            }
        }
        let m = match n.checked_mul(10) {
            Some(m) => m,
            None => {
                proof {
                    overflow_rejection(token@, i as int, n as int * 10 + d);
                }
                return Err(ParseError::InvalidNumber);
            },
        };
        let v = match m.checked_add(d) {
            Some(v) => v,
            None => {
                proof {
                    overflow_rejection(token@, i as int, n as int * 10 + d);
                }
                return Err(ParseError::InvalidNumber);
            },
        };
        n = v;
        i = i + 1;
    }
    proof {
        assert(token@.take(token@.len() as int) =~= token@);
    }
    Ok(n)
}

/// A digit string whose value already exceeds `usize::MAX` at some prefix is
/// not a valid number, whatever follows.
proof fn overflow_rejection(s: Seq<u8>, i: int, prefix_val: int)
    requires
        0 <= i < s.len(),
        is_digit(s[i]),
        all_digits(s.take(i)),
        digits_val(s.take(i + 1)) == prefix_val,
        prefix_val > usize::MAX,
    ensures
        !valid_number(s),
{
    if all_digits(s) {
        lemma_digits_val_prefix_le(s, i + 1);
    }
}

/// Grows `bm` with zeroes to cover 1-based column `c` and marks the column
/// selected.
pub open spec fn bitmap_set(bm: Seq<usize>, c: int) -> Seq<usize>
    recommends
        c >= 1,
{
    let grown = if bm.len() < c {
        bm + Seq::new((c - bm.len()) as nat, |j: int| 0usize)
    } else {
        bm
    };
    grown.update(c - 1, 1usize)
}

/// Marks 1-based column `value` in the presence bitmap, growing the bitmap
/// with unselected positions when it is shorter than `value`.
pub fn insert_column(vector: &mut Vec<usize>, value: usize)
    requires
        value >= 1,
    ensures
        final(vector)@ == bitmap_set(old(vector)@, value as int),
{
    let ghost orig = vector@;
    while vector.len() < value
        invariant
            orig.len() < value ==> vector@.len() <= value,
            orig.len() >= value ==> vector@ == orig,
            vector@.len() >= orig.len(),
            vector@.take(orig.len() as int) =~= orig,
            forall|m: int| orig.len() <= m < vector@.len() ==> vector@[m] == 0usize,
        decreases value - vector@.len(),
    {
        vector.push(0);
    }
    proof {
        if orig.len() < value {
            assert(vector@ =~= orig + Seq::new((value - orig.len()) as nat, |j: int| 0usize));
        }
    }
    let idx = value - 1;
    vector[idx] = 1;
}

/// The position of the first occurrence of `sep` in `s`, or `s.len()` when
/// `s` holds none.
pub open spec fn first_sep(s: Seq<u8>, sep: u8) -> int
    decreases s.len(),
{
    if s.len() == 0 {
        0
    } else if s[0] == sep {
        0
    } else {
        1 + first_sep(s.drop_first(), sep)
    }
}

proof fn lemma_first_sep_facts(s: Seq<u8>, sep: u8)
    ensures
        0 <= first_sep(s, sep) <= s.len(),
        forall|m: int| 0 <= m < first_sep(s, sep) ==> s[m] != sep,
        first_sep(s, sep) < s.len() ==> s[first_sep(s, sep)] == sep,
    decreases s.len(),
{
    if s.len() > 0 && s[0] != sep {
        lemma_first_sep_facts(s.drop_first(), sep);
        assert forall|m: int| 0 <= m < first_sep(s, sep) implies s[m] != sep by {
            if m >= 1 {
                assert(s[m] == s.drop_first()[m - 1]);
            }
        }
    }
}

/// The position of the first occurrence is pinned by a scan: no occurrence
/// before `k`, and an occurrence (or the end) at `k`.
proof fn lemma_first_sep_at(s: Seq<u8>, sep: u8, k: int)
    requires
        0 <= k <= s.len(),
        forall|m: int| 0 <= m < k ==> s[m] != sep,
        k == s.len() || s[k] == sep,
    ensures
        first_sep(s, sep) == k,
    decreases k,
{
    if k == 0 {
    } else {
        assert(s[0] != sep);
        let t = s.drop_first();
        assert(forall|m: int| 0 <= m < t.len() ==> t[m] == s[m + 1]);
        lemma_first_sep_at(t, sep, k - 1);
    }
}

/// Splits `s` on `sep`. An empty string gives one empty token; a separator
/// at either end or two adjacent separators give empty tokens, exactly as
/// splitting a string does.
pub open spec fn spec_split(s: Seq<u8>, sep: u8) -> Seq<Seq<u8>>
    decreases s.len(),
    via spec_split_decreases
{
    let k = first_sep(s, sep);
    if k >= s.len() {
        seq![s]
    } else {
        seq![s.take(k)] + spec_split(s.skip(k + 1), sep)
    }
}

#[via_fn]
proof fn spec_split_decreases(s: Seq<u8>, sep: u8) {
    lemma_first_sep_facts(s, sep);
}

/// Unfolds one step of `spec_split` on the suffix of `s` that starts at `i`,
/// given a scan that found the next separator at `j` (or none up to the end).
proof fn lemma_split_step(s: Seq<u8>, sep: u8, i: int, j: int)
    requires
        0 <= i <= j <= s.len(),
        forall|m: int| i <= m < j ==> s[m] != sep,
        j == s.len() || s[j] == sep,
    ensures
        j == s.len() ==> spec_split(s.skip(i), sep) == seq![s.skip(i)],
        j < s.len() ==> spec_split(s.skip(i), sep) == seq![s.subrange(i, j)] + spec_split(
            s.skip(j + 1),
            sep,
        ),
{
    let t = s.skip(i);
    assert(forall|m: int| 0 <= m < t.len() ==> t[m] == s[m + i]);
    lemma_first_sep_at(t, sep, j - i);
    if j < s.len() {
        assert(t.take(j - i) =~= s.subrange(i, j));
        assert(t.skip(j - i + 1) =~= s.skip(j + 1));
    }
}

/// Splits a byte string on a separator byte, keeping empty tokens.
pub fn split_bytes(s: &Vec<u8>, sep: u8) -> (r: Vec<Vec<u8>>)
    ensures
        r.deep_view() == spec_split(s@, sep),
{
    let mut out: Vec<Vec<u8>> = Vec::new();
    let mut i: usize = 0;
    proof {
        assert(s@.skip(0) =~= s@);
        assert(out.deep_view() =~~= Seq::<Seq<u8>>::empty());
        assert(out.deep_view() + spec_split(s@, sep) =~~= spec_split(s@, sep));
    }
    loop
        invariant_except_break
            i <= s@.len(),
            spec_split(s@, sep) == out.deep_view() + spec_split(s@.skip(i as int), sep),
        ensures
            out.deep_view() == spec_split(s@, sep),
        decreases s@.len() - i,
    {
        let mut j: usize = i;
        while j < s.len() && s[j] != sep
            invariant
                i <= j <= s@.len(),
                forall|m: int| i <= m < j ==> s@[m] != sep,
            decreases s@.len() - j,
        {
            j = j + 1;
        }
        let token = subvec(s, i, j);
        let ghost prior = out.deep_view();
        out.push(token);
        proof {
            assert(out.deep_view() =~~= prior.push(token@));
            lemma_split_step(s@, sep, i as int, j as int);
        }
        if j == s.len() {
            proof {
                assert(token@ =~= s@.skip(i as int));
                assert(out.deep_view() =~~= prior + seq![s@.skip(i as int)]);
            }
            break;
        }
        proof {
            assert(token@ == s@.subrange(i as int, j as int));
            assert(out.deep_view() =~~= prior + seq![s@.subrange(i as int, j as int)]);
            assert(out.deep_view() + spec_split(s@.skip(j + 1), sep) =~~= prior + (seq![
                s@.subrange(i as int, j as int),
            ] + spec_split(s@.skip(j + 1), sep)));
        }
        i = j + 1;
    }
    out
}

/// Marks every 1-based column between `lo` and `hi` (inclusive) in the
/// presence bitmap; a reversed range marks nothing.
pub open spec fn bitmap_set_range(bm: Seq<usize>, lo: int, hi: int) -> Seq<usize>
    recommends
        lo >= 1,
    decreases hi - lo + 1,
{
    if hi < lo {
        bm
    } else {
        bitmap_set(bitmap_set_range(bm, lo, hi - 1), hi)
    }
}

/// What one cut-mode token does to the presence bitmap built so far. A token
/// holding a hyphen is a range and must have exactly two parts, both
/// numbers; a reversed range selects nothing; any other token is a single
/// number. A selected column of zero is invalid: columns are 1-based.
pub open spec fn spec_apply_cut_token(bm: Seq<usize>, tok: Seq<u8>) -> Result<
    Seq<usize>,
    ParseError,
> {
    if has_byte(tok, HYPHEN) {
        let parts = spec_split(tok, HYPHEN);
        if parts.len() != 2 {
            Err(ParseError::InvalidRange)
        } else if !valid_number(parts[0]) {
            Err(ParseError::InvalidNumber)
        } else if !valid_number(parts[1]) {
            Err(ParseError::InvalidNumber)
        } else if digits_val(parts[0]) > digits_val(parts[1]) {
            Ok(bm)
        } else if digits_val(parts[0]) == 0 {
            Err(ParseError::InvalidColumn)
        } else {
            Ok(bitmap_set_range(bm, digits_val(parts[0]), digits_val(parts[1])))
        }
    } else {
        if !valid_number(tok) {
            Err(ParseError::InvalidNumber)
        } else if digits_val(tok) == 0 {
            Err(ParseError::InvalidColumn)
        } else {
            Ok(bitmap_set(bm, digits_val(tok)))
        }
    }
}

/// Folds the cut-mode tokens left to right into a presence bitmap; the first
/// bad token decides the error.
pub open spec fn spec_cut_tokens(tokens: Seq<Seq<u8>>) -> Result<Seq<usize>, ParseError>
    decreases tokens.len(),
{
    if tokens.len() == 0 {
        Ok(Seq::empty())
    } else {
        match spec_cut_tokens(tokens.drop_last()) {
            Err(e) => Err(e),
            Ok(bm) => spec_apply_cut_token(bm, tokens.last()),
        }
    }
}

/// The meaning of a whole cut-mode specification string.
pub open spec fn spec_parse_columns(s: Seq<u8>) -> Result<Seq<usize>, ParseError> {
    spec_cut_tokens(spec_split(s, COMMA))
}

/// The presence bitmap's invariant: every entry is a 0/1 flag, and the
/// bitmap is exactly as long as the highest selected column — its last
/// entry, when there is one, is set.
pub open spec fn wf_bitmap(bm: Seq<usize>) -> bool {
    &&& forall|i: int| 0 <= i < bm.len() ==> bm[i] == 0usize || bm[i] == 1usize
    &&& bm.len() > 0 ==> bm[bm.len() - 1] == 1usize
}

proof fn lemma_bitmap_set_wf(bm: Seq<usize>, c: int)
    requires
        wf_bitmap(bm),
        c >= 1,
    ensures
        wf_bitmap(bitmap_set(bm, c)),
{
    let grown = if bm.len() < c {
        bm + Seq::new((c - bm.len()) as nat, |j: int| 0usize)
    } else {
        bm
    };
    let cur = bitmap_set(bm, c);
    assert(cur == grown.update(c - 1, 1usize));
    assert forall|i: int| 0 <= i < cur.len() implies cur[i] == 0usize || cur[i] == 1usize by {
        if i != c - 1 {
            assert(cur[i] == grown[i]);
            if i < bm.len() {
                assert(grown[i] == bm[i]);
            }
        }
    }
    if bm.len() < c {
        assert(cur[cur.len() - 1] == 1usize);
    } else {
        assert(cur.len() == bm.len());
        if c - 1 != bm.len() - 1 {
            assert(cur[cur.len() - 1] == bm[bm.len() - 1]);
        }
    }
}

proof fn lemma_bitmap_set_range_wf(bm: Seq<usize>, lo: int, hi: int)
    requires
        wf_bitmap(bm),
        lo >= 1,
    ensures
        wf_bitmap(bitmap_set_range(bm, lo, hi)),
    decreases hi - lo + 1,
{
    if hi >= lo {
        lemma_bitmap_set_range_wf(bm, lo, hi - 1);
        lemma_bitmap_set_wf(bitmap_set_range(bm, lo, hi - 1), hi);
    }
}

/// Law: any bitmap a cut specification parses to is well formed — 0/1 flags
/// only, with length equal to the highest selected column.
pub proof fn lemma_cut_tokens_wf(tokens: Seq<Seq<u8>>)
    requires
        spec_cut_tokens(tokens) is Ok,
    ensures
        wf_bitmap(spec_cut_tokens(tokens)->Ok_0),
    decreases tokens.len(),
{
    if tokens.len() == 0 {
    } else {
        lemma_cut_tokens_wf(tokens.drop_last());
        let bm = spec_cut_tokens(tokens.drop_last())->Ok_0;
        let tok = tokens.last();
        if has_byte(tok, HYPHEN) {
            let parts = spec_split(tok, HYPHEN);
            if digits_val(parts[0]) <= digits_val(parts[1]) {
                lemma_digits_val_nonneg(parts[0]);
                lemma_bitmap_set_range_wf(bm, digits_val(parts[0]), digits_val(parts[1]));
            }
        } else {
            lemma_digits_val_nonneg(tok);
            lemma_bitmap_set_wf(bm, digits_val(tok));
        }
    }
}

/// Once a token prefix has a bad token, the whole token sequence parses to
/// that same error.
proof fn lemma_cut_tokens_err(tokens: Seq<Seq<u8>>, k: int)
    requires
        0 <= k <= tokens.len(),
        spec_cut_tokens(tokens.take(k)) is Err,
    ensures
        spec_cut_tokens(tokens) == spec_cut_tokens(tokens.take(k)),
    decreases tokens.len() - k,
{
    if k == tokens.len() {
        assert(tokens.take(k) =~= tokens);
    } else {
        assert(tokens.take(k + 1).drop_last() =~= tokens.take(k));
        lemma_cut_tokens_err(tokens, k + 1);
    }
}

/// Parses a cut-mode column specification into a presence bitmap. Every
/// selected 1-based column `c` sets bitmap position `c - 1`; the bitmap's
/// length is the highest selected column. Comma-separated tokens are single
/// numbers or inclusive ranges `N-M`; a reversed range selects nothing. The
/// first malformed token decides the error, and no bitmap is returned.
#[verifier::rlimit(30)]
pub fn parse_columns(columns_str: &Vec<u8>) -> (r: Result<Vec<usize>, ParseError>)
    ensures
        match r {
            Ok(v) => spec_parse_columns(columns_str@) == Ok::<Seq<usize>, ParseError>(v@)
                && wf_bitmap(v@),
            Err(e) => spec_parse_columns(columns_str@) == Err::<Seq<usize>, ParseError>(e),
        },
{
    let tokens = split_bytes(columns_str, COMMA);
    let ghost toks = tokens.deep_view();
    let mut columns: Vec<usize> = Vec::new();
    let mut t: usize = 0;
    proof {
        assert(toks.take(0) =~= Seq::<Seq<u8>>::empty());
    }
    while t < tokens.len()
        invariant
            t <= tokens@.len(),
            toks == tokens.deep_view(),
            toks == spec_split(columns_str@, COMMA),
            toks.len() == tokens@.len(),
            spec_cut_tokens(toks.take(t as int)) == Ok::<Seq<usize>, ParseError>(columns@),
        decreases tokens@.len() - t,
    {
        let ghost before = columns@;
        let tok = &tokens[t];
        proof {
            assert(tok@ == toks[t as int]);
            assert(toks.take(t + 1).drop_last() =~= toks.take(t as int));
            assert(toks.take(t + 1).last() == toks[t as int]);
        }
        if contains_byte(tok, HYPHEN) {
            let parts = split_bytes(tok, HYPHEN);
            let ghost sparts = spec_split(tok@, HYPHEN);
            if parts.len() != 2 {
                proof {
                    lemma_cut_tokens_err(toks, t + 1);
                }
                return Err(ParseError::InvalidRange);
            }
            proof {
                assert(parts[0]@ == sparts[0]);
                assert(parts[1]@ == sparts[1]);
            }
            let lo = match parse_number(&parts[0]) {
                Ok(n) => n,
                Err(e) => {
                    proof {
                        lemma_cut_tokens_err(toks, t + 1);
                    }
                    return Err(e);
                },
            };
            let hi = match parse_number(&parts[1]) {
                Ok(n) => n,
                Err(e) => {
                    proof {
                        lemma_cut_tokens_err(toks, t + 1);
                    }
                    return Err(e);
                },
            };
            if lo <= hi {
                if lo == 0 {
                    proof {
                        lemma_cut_tokens_err(toks, t + 1);
                    }
                    return Err(ParseError::InvalidColumn);
                }
                let mut c = lo;
                loop
                    invariant_except_break
                        lo <= c <= hi,
                        lo >= 1,
                        columns@ == bitmap_set_range(before, lo as int, c - 1),
                    ensures
                        columns@ == bitmap_set_range(before, lo as int, hi as int),
                    decreases hi - c,
                {
                    insert_column(&mut columns, c);
                    if c == hi {
                        break;
                    }
                    c = c + 1;
                }
            }
        } else {
            let n = match parse_number(tok) {
                Ok(n) => n,
                Err(e) => {
                    proof {
                        lemma_cut_tokens_err(toks, t + 1);
                    }
                    return Err(e);
                },
            };
            if n == 0 {
                proof {
                    lemma_cut_tokens_err(toks, t + 1);
                }
                return Err(ParseError::InvalidColumn);
            }
            insert_column(&mut columns, n);
        }
        t = t + 1;
    }
    proof {
        assert(toks.take(toks.len() as int) =~= toks);
        lemma_cut_tokens_wf(toks);
    }
    Ok(columns)
}

/// What one reorder-mode token means: a single positive number. Ranges have
/// no defined order, so a token with a hyphen is simply not a number here.
pub open spec fn spec_reorder_token(tok: Seq<u8>) -> Result<int, ParseError> {
    if !valid_number(tok) {
        Err(ParseError::InvalidNumber)
    } else if digits_val(tok) == 0 {
        Err(ParseError::InvalidColumn)
    } else {
        Ok(digits_val(tok))
    }
}

/// Folds the reorder-mode tokens left to right into the ordered column
/// list, duplicates preserved; the first bad token decides the error.
pub open spec fn spec_reorder_tokens(tokens: Seq<Seq<u8>>) -> Result<Seq<usize>, ParseError>
    decreases tokens.len(),
{
    if tokens.len() == 0 {
        Ok(Seq::empty())
    } else {
        match spec_reorder_tokens(tokens.drop_last()) {
            Err(e) => Err(e),
            Ok(cols) => match spec_reorder_token(tokens.last()) {
                Err(e) => Err(e),
                Ok(c) => Ok(cols.push(c as usize)),
            },
        }
    }
}

/// The meaning of a whole reorder-mode specification string.
pub open spec fn spec_parse_reorder(s: Seq<u8>) -> Result<Seq<usize>, ParseError> {
    spec_reorder_tokens(spec_split(s, COMMA))
}

proof fn lemma_reorder_tokens_err(tokens: Seq<Seq<u8>>, k: int)
    requires
        0 <= k <= tokens.len(),
        spec_reorder_tokens(tokens.take(k)) is Err,
    ensures
        spec_reorder_tokens(tokens) == spec_reorder_tokens(tokens.take(k)),
    decreases tokens.len() - k,
{
    if k == tokens.len() {
        assert(tokens.take(k) =~= tokens);
    } else {
        assert(tokens.take(k + 1).drop_last() =~= tokens.take(k));
        lemma_reorder_tokens_err(tokens, k + 1);
    }
}

/// Every column in a parsed reorder list is positive: the list is 1-based.
pub proof fn lemma_reorder_entries_positive(tokens: Seq<Seq<u8>>)
    requires
        spec_reorder_tokens(tokens) is Ok,
    ensures
        forall|j: int|
            0 <= j < spec_reorder_tokens(tokens)->Ok_0.len() ==> spec_reorder_tokens(
                tokens,
            )->Ok_0[j] >= 1,
    decreases tokens.len(),
{
    if tokens.len() > 0 {
        lemma_reorder_entries_positive(tokens.drop_last());
        let prev = spec_reorder_tokens(tokens.drop_last())->Ok_0;
        let c = spec_reorder_token(tokens.last())->Ok_0;
        lemma_digits_val_nonneg(tokens.last());
        assert(spec_reorder_tokens(tokens)->Ok_0 == prev.push(c as usize));
    }
}

/// Parses a reorder-mode column specification into the ordered list of
/// 1-based column indices, in token order, duplicates preserved. Each token
/// must be a single positive number; the first malformed token decides the
/// error, and no list is returned.
#[verifier::rlimit(30)]
pub fn parse_reorder(columns_str: &Vec<u8>) -> (r: Result<Vec<usize>, ParseError>)
    ensures
        match r {
            Ok(v) => spec_parse_reorder(columns_str@) == Ok::<Seq<usize>, ParseError>(v@),
            Err(e) => spec_parse_reorder(columns_str@) == Err::<Seq<usize>, ParseError>(e),
        },
{
    let tokens = split_bytes(columns_str, COMMA);
    let ghost toks = tokens.deep_view();
    let mut columns: Vec<usize> = Vec::new();
    let mut t: usize = 0;
    proof {
        assert(toks.take(0) =~= Seq::<Seq<u8>>::empty());
    }
    while t < tokens.len()
        invariant
            t <= tokens@.len(),
            toks == tokens.deep_view(),
            toks == spec_split(columns_str@, COMMA),
            toks.len() == tokens@.len(),
            spec_reorder_tokens(toks.take(t as int)) == Ok::<Seq<usize>, ParseError>(columns@),
        decreases tokens@.len() - t,
    {
        let tok = &tokens[t];
        proof {
            assert(tok@ == toks[t as int]);
            assert(toks.take(t + 1).drop_last() =~= toks.take(t as int));
            assert(toks.take(t + 1).last() == toks[t as int]);
        }
        let n = match parse_number(tok) {
            Ok(n) => n,
            Err(e) => {
                proof {
                    lemma_reorder_tokens_err(toks, t + 1);
                }
                return Err(e);
            },
        };
        if n == 0 {
            proof {
                lemma_reorder_tokens_err(toks, t + 1);
            }
            return Err(ParseError::InvalidColumn);
        }
        columns.push(n);
        t = t + 1;
    }
    proof {
        assert(toks.take(toks.len() as int) =~= toks);
    }
    Ok(columns)
}

} // verus!

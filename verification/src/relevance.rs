//! The relevance index: term-weighted scoring of a user's saved items
//! against a keyword phrase.
//!
//! Scores follow the term-frequency × inverse-document-frequency scheme: an
//! item's score is the sum over query terms of `tf * weight(N, df)`, where
//! `tf` counts occurrences of the term in the item, `N` is the number of
//! stored items and `df` the number of items containing the term. The
//! weight is a base-10 logarithm of `N / (1 + df)` — Laplace-smoothed, so a
//! term found in no document never divides by zero — computed in fixed
//! point with twenty fractional bits and exact about its sign: zero exactly
//! when `N == 1 + df`, positive exactly when `N > 1 + df`. Items without a
//! positive score are discarded; the rest are ordered by descending score,
//! stable with respect to storage order.

use vstd::prelude::*;
use vstd::arithmetic::div_mod::lemma_multiply_divide_lt;

use crate::data_store::{items_view, ItemModel, SavedItem};
use crate::order::{lemma_sort_tags_bounded, sort_pairs, sort_spec};

verus! {

/// The fixed-point scale: weights count in units of `2^-20`.
pub const LOG_SCALE: u64 = 1048576;

/// Powers of ten.
pub open spec fn pow10(n: nat) -> int
    decreases n,
{
    if n == 0 {
        1
    } else {
        10 * pow10((n - 1) as nat)
    }
}

/// Number of decimal shifts until another factor of ten would overshoot:
/// the integer part of `log10(num/den)` for `num >= den >= 1`.
pub open spec fn dec_shifts(num: int, den: int) -> nat
    decreases num - den,
    when 1 <= den <= num
{
    if den < 1 || num < den {
        0
    } else if den * 10 > num {
        0
    } else {
        1 + dec_shifts(num, den * 10)
    }
}

/// One step of the digit recurrence in fixed point with forty fractional
/// bits: square the ratio, renormalize into `[1, 10)`, and report whether a
/// factor of ten came out.
pub open spec fn frac_step(xf: int) -> (int, bool) {
    let y2 = (xf * xf) / 0x100_0000_0000;
    if y2 >= 0xA00_0000_0000 {
        (y2 / 10, true)
    } else {
        (y2, false)
    }
}

/// The binary fraction digits of `log10` of the ratio held in `xf`,
/// accumulated most significant first.
pub open spec fn frac_digits(xf: int, rounds: nat, acc: int) -> int
    decreases rounds,
{
    if rounds == 0 {
        acc
    } else {
        let (next, bit) = frac_step(xf);
        frac_digits(
            next,
            (rounds - 1) as nat,
            2 * acc + if bit {
                1int
            } else {
                0int
            },
        )
    }
}

/// The scaled logarithm of `num/den` for `num > den >= 1`, before the
/// positivity floor: integer part times the scale, plus twenty fraction
/// bits.
pub open spec fn lg_core(num: int, den: int) -> int {
    let k = dec_shifts(num, den);
    let sden = den * pow10(k);
    let xf = (num * 0x100_0000_0000) / sden;
    k * (LOG_SCALE as int) + frac_digits(xf, 20, 0)
}

/// The scaled base-10 logarithm of `num/den`: zero exactly on equal
/// arguments, positive exactly when `num > den` (a ratio barely above one
/// is floored to one unit), negative exactly when `num < den`.
pub open spec fn lg10(num: int, den: int) -> int
    recommends
        num >= 1,
        den >= 1,
{
    if num == den {
        0
    } else if num > den {
        let c = lg_core(num, den);
        if c <= 0 {
            1
        } else {
            c
        }
    } else {
        let c = lg_core(den, num);
        if c <= 0 {
            -1
        } else {
            -c
        }
    }
}

/// The sign of the weight is exact, and swapping the arguments flips it.
pub proof fn lemma_lg10_sign(num: int, den: int)
    ensures
        (lg10(num, den) == 0) <==> (num == den),
        (lg10(num, den) > 0) <==> (num > den),
        (lg10(num, den) < 0) <==> (num < den),
        lg10(num, den) == -lg10(den, num),
{
}

proof fn lemma_pow10_pos(n: nat)
    ensures
        pow10(n) >= 1,
    decreases n,
{
    if n > 0 {
        lemma_pow10_pos((n - 1) as nat);
    }
}

proof fn lemma_pow10_mono(a: nat, b: nat)
    requires
        a <= b,
    ensures
        pow10(a) <= pow10(b),
    decreases b,
{
    if a < b {
        lemma_pow10_mono(a, (b - 1) as nat);
        lemma_pow10_pos((b - 1) as nat);
    }
}

proof fn lemma_pow10_20()
    ensures
        pow10(20) == 0x56BC75E2D63100000,
{
    assert(pow10(0) == 1);
    assert(pow10(1) == 10);
    assert(pow10(2) == 100);
    assert(pow10(3) == 1000);
    assert(pow10(4) == 10000);
    assert(pow10(5) == 100000);
    assert(pow10(6) == 1000000);
    assert(pow10(7) == 10000000);
    assert(pow10(8) == 100000000);
    assert(pow10(9) == 1000000000);
    assert(pow10(10) == 10000000000);
    assert(pow10(11) == 100000000000);
    assert(pow10(12) == 1000000000000);
    assert(pow10(13) == 10000000000000);
    assert(pow10(14) == 100000000000000);
    assert(pow10(15) == 1000000000000000);
    assert(pow10(16) == 10000000000000000);
    assert(pow10(17) == 100000000000000000);
    assert(pow10(18) == 1000000000000000000);
    assert(pow10(19) == 10000000000000000000);
    assert(pow10(20) == 100000000000000000000);
}

proof fn lemma_dec_shifts_val(num: int, den: int, k: nat)
    requires
        1 <= den,
        den * pow10(k) <= num,
        num < 10 * (den * pow10(k)),
    ensures
        dec_shifts(num, den) == k,
    decreases k,
{
    lemma_pow10_pos(k);
    assert(den <= den * pow10(k)) by (nonlinear_arith)
        requires
            den >= 1,
            pow10(k) >= 1,
    ;
    if k == 0 {
        assert(pow10(0) == 1);
        assert(den * 1 == den);
    } else {
        let d10 = den * 10;
        assert(d10 * pow10((k - 1) as nat) == den * pow10(k)) by {
            assert(pow10(k) == 10 * pow10((k - 1) as nat));
            assert((den * 10) * pow10((k - 1) as nat) == den * (10 * pow10((k - 1) as nat)))
                by (nonlinear_arith);
        }
        lemma_pow10_pos((k - 1) as nat);
        assert(d10 <= d10 * pow10((k - 1) as nat)) by (nonlinear_arith)
            requires
                d10 >= 1,
            pow10((k - 1) as nat) >= 1,
        ;
        lemma_dec_shifts_val(num, d10, (k - 1) as nat);
    }
}

/// Runs the twenty-round digit recurrence.
fn frac_loop(xf0: u128) -> (r: u64)
    requires
        xf0 < 0xA00_0000_0000,
    ensures
        r as int == frac_digits(xf0 as int, 20, 0),
        r < 1048576,
{
    let mut acc: u64 = 0;
    let mut xf: u128 = xf0;
    let mut j: u32 = 0;
    proof {
        assert((1u64 << 0u32) == 1) by (bit_vector);
    }
    while j < 20
        invariant
            j <= 20,
            xf < 0xA00_0000_0000,
            acc < (1u64 << j),
            frac_digits(xf0 as int, 20, 0) == frac_digits(xf as int, (20 - j) as nat, acc as int),
        decreases 20 - j,
    {
        proof {
            assert(xf * xf < 0xA00_0000_0000 * 0xA00_0000_0000) by (nonlinear_arith)
                requires
                    xf < 0xA00_0000_0000,
            ;
        }
        let y2: u128 = (xf * xf) / 0x100_0000_0000;
        proof {
            lemma_multiply_divide_lt((xf * xf) as int, 0x100_0000_0000, 0x6400_0000_0000);
        }
        let bit: bool = y2 >= 0xA00_0000_0000;
        let next: u128 = if bit {
            y2 / 10
        } else {
            y2
        };
        proof {
            if bit {
                lemma_multiply_divide_lt(y2 as int, 10, 0xA00_0000_0000);
            }
            assert((1u64 << (j + 1)) == 2 * (1u64 << j)) by (bit_vector)
                requires
                    j < 20,
            ;
            assert((1u64 << j) <= 0x80000) by (bit_vector)
                requires
                    j < 20,
            ;
        }
        acc = acc * 2 + (if bit {
            1
        } else {
            0
        });
        xf = next;
        j = j + 1;
    }
    proof {
        assert((1u64 << 20u32) == 1048576) by (bit_vector);
    }
    acc
}

/// Computes `lg_core` for `num > den >= 1`.
fn lg_core_fixed(num: u128, den: u128) -> (r: i64)
    requires
        1 <= den < num,
        num <= 0x1_0000_0000_0000_0000,
    ensures
        r as int == lg_core(num as int, den as int),
        0 <= r < 0x1500000,
{
    let mut k: u32 = 0;
    let mut sden: u128 = den;
    proof {
        assert(pow10(0) == 1);
        lemma_pow10_pos(0);
    }
    while sden * 10 <= num
        invariant
            1 <= den < num,
            num <= 0x1_0000_0000_0000_0000,
            sden as int == den as int * pow10(k as nat),
            sden <= num,
            pow10(k as nat) <= num as int,
            k <= 20,
        decreases num as int - sden as int,
    {
        proof {
            lemma_pow10_pos(k as nat);
            assert(den as int * pow10((k + 1) as nat) == (den as int * pow10(k as nat)) * 10) by {
                assert(pow10((k + 1) as nat) == 10 * pow10(k as nat));
                assert(den as int * (10 * pow10(k as nat)) == (den as int * pow10(k as nat)) * 10)
                    by (nonlinear_arith);
            }
            assert(pow10((k + 1) as nat) <= (sden * 10) as int) by (nonlinear_arith)
                requires
                    den >= 1,
                    pow10((k + 1) as nat) == 10 * pow10(k as nat),
                    sden as int == den as int * pow10(k as nat),
                    pow10(k as nat) >= 1,
            ;
            if k == 20 {
                lemma_pow10_20();
                assert(false);
            }
            assert(sden * 10 >= sden + 1) by (nonlinear_arith)
                requires
                    sden >= 1,
            ;
        }
        sden = sden * 10;
        k = k + 1;
    }
    proof {
        lemma_dec_shifts_val(num as int, den as int, k as nat);
        if k >= 20 {
            lemma_pow10_20();
            lemma_pow10_mono(20, k as nat);
            assert(false);
        }
    }
    let xf0: u128 = (num * 0x100_0000_0000) / sden;
    proof {
        assert((num as int) * 0x100_0000_0000 < (sden as int) * (10 * 0x100_0000_0000))
            by (nonlinear_arith)
            requires
                (num as int) < 10 * (sden as int),
        ;
        lemma_multiply_divide_lt((num as int) * 0x100_0000_0000, sden as int, 0xA00_0000_0000);
    }
    let frac = frac_loop(xf0);
    proof {
        assert(k < 20);
        assert((k as int) * (LOG_SCALE as int) <= 19 * 1048576) by (nonlinear_arith)
            requires
                0 <= k < 20,
        ;
    }
    let r: i64 = (k as i64) * (LOG_SCALE as i64) + (frac as i64);
    proof {
        assert(r as int == lg_core(num as int, den as int));
    }
    r
}

/// Computes the scaled base-10 logarithm of `num/den`.
pub fn lg10_fixed(num: u128, den: u128) -> (r: i64)
    requires
        1 <= num <= 0x1_0000_0000_0000_0000,
        1 <= den <= 0x1_0000_0000_0000_0000,
    ensures
        r as int == lg10(num as int, den as int),
        -0x1500000 <= r <= 0x1500000,
{
    if num == den {
        0
    } else if num > den {
        let c = lg_core_fixed(num, den);
        if c <= 0 {
            1
        } else {
            c
        }
    } else {
        let c = lg_core_fixed(den, num);
        if c <= 0 {
            -1
        } else {
            -c
        }
    }
}


// ---------------------------------------------------------------------------
// Tokens and counting
// ---------------------------------------------------------------------------
/// The lower-case folding of a string, as `str::to_lowercase` computes it;
/// the folding depends on the characters alone.
pub uninterp spec fn lower_of(s: Seq<char>) -> Seq<char>;

/// The whitespace-separated tokens of a string, as `str::split_whitespace`
/// yields them; the split depends on the characters alone.
pub uninterp spec fn tokens_of(s: Seq<char>) -> Seq<Seq<char>>;

/// Relies on `str::to_lowercase`: the result depends on the characters
/// alone, and it is empty exactly when the input is empty.
#[verifier::external_body]
fn lowercase(s: &str) -> (r: String)
    ensures
        r@ == lower_of(s@),
        (r@.len() == 0) <==> (s@.len() == 0),
{
    s.to_lowercase()
}

/// Relies on `str::split_whitespace`: the tokens depend on the characters
/// alone, are never empty, and an empty input yields none.
#[verifier::external_body]
fn split_words(s: &str) -> (r: Vec<String>)
    ensures
        r.deep_view() == tokens_of(s@),
        forall|i: int| 0 <= i < r.deep_view().len() ==> r.deep_view()[i].len() > 0,
        s@.len() == 0 ==> r.deep_view().len() == 0,
{
    s.split_whitespace().map(str::to_owned).collect()
}

/// How many tokens fold to exactly this term.
pub open spec fn count_eq(tokens: Seq<Seq<char>>, term: Seq<char>) -> int
    decreases tokens.len(),
{
    if tokens.len() == 0 {
        0
    } else {
        count_eq(tokens.drop_last(), term) + if lower_of(tokens.last()) == term {
            1int
        } else {
            0int
        }
    }
}

proof fn lemma_count_eq_bounds(tokens: Seq<Seq<char>>, term: Seq<char>)
    ensures
        0 <= count_eq(tokens, term) <= tokens.len(),
    decreases tokens.len(),
{
    if tokens.len() > 0 {
        lemma_count_eq_bounds(tokens.drop_last(), term);
    }
}

/// How many non-overlapping occurrences of `t` appear in `s`, scanning from
/// the left; an empty needle counts as zero.
pub open spec fn count_occ(s: Seq<char>, t: Seq<char>) -> int
    decreases s.len(),
{
    if t.len() == 0 {
        0
    } else if s.len() < t.len() {
        0
    } else if s.subrange(0, t.len() as int) == t {
        1 + count_occ(s.skip(t.len() as int), t)
    } else {
        count_occ(s.skip(1), t)
    }
}

proof fn lemma_count_occ_bounds(s: Seq<char>, t: Seq<char>)
    ensures
        0 <= count_occ(s, t) <= s.len(),
    decreases s.len(),
{
    if t.len() > 0 && s.len() >= t.len() {
        if s.subrange(0, t.len() as int) == t {
            lemma_count_occ_bounds(s.skip(t.len() as int), t);
        } else {
            lemma_count_occ_bounds(s.skip(1), t);
        }
    }
}

/// Whether `t` occurs in `s` starting at position `i`.
fn matches_at(s: &str, t: &str, i: usize, n: usize, m: usize) -> (r: bool)
    requires
        n == s@.len(),
        m == t@.len(),
        i + m <= n,
    ensures
        r == (s@.subrange(i as int, i as int + m as int) == t@),
{
    let mut k: usize = 0;
    while k < m
        invariant
            k <= m,
            n == s@.len(),
            m == t@.len(),
            i + m <= n,
            forall|q: int| 0 <= q < k ==> s@[i + q] == t@[q],
        decreases m - k,
    {
        if s.get_char(i + k) != t.get_char(k) {
            proof {
                assert(s@.subrange(i as int, i as int + m as int)[k as int] == s@[i + k]);
                assert(s@.subrange(i as int, i as int + m as int) != t@);
            }
            return false;
        }
        k = k + 1;
    }
    proof {
        assert(s@.subrange(i as int, i as int + m as int) =~= t@);
    }
    true
}

/// Counts non-overlapping occurrences of `t` in `s`, scanning from the
/// left.
fn count_occurrences(s: &str, t: &str) -> (r: usize)
    requires
        t@.len() >= 1,
    ensures
        r as int == count_occ(s@, t@),
{
    let n = s.unicode_len();
    let m = t.unicode_len();
    let mut i: usize = 0;
    let mut cnt: usize = 0;
    proof {
        assert(s@.skip(0) =~= s@);
    }
    while i <= n && m <= n - i
        invariant
            i <= n,
            cnt <= i,
            n == s@.len(),
            m == t@.len(),
            m >= 1,
            count_occ(s@, t@) == cnt + count_occ(s@.skip(i as int), t@),
        decreases n - i,
    {
        let ghost rest = s@.skip(i as int);
        if matches_at(s, t, i, n, m) {
            proof {
                assert(rest.subrange(0, m as int) =~= s@.subrange(i as int, i as int + m as int));
                assert(rest.skip(m as int) =~= s@.skip(i as int + m as int));
            }
            cnt = cnt + 1;
            i = i + m;
        } else {
            proof {
                assert(rest.subrange(0, m as int) =~= s@.subrange(i as int, i as int + m as int));
                assert(rest.skip(1) =~= s@.skip(i as int + 1));
            }
            i = i + 1;
        }
    }
    proof {
        assert(s@.skip(i as int).len() < m);
        assert(count_occ(s@.skip(i as int), t@) == 0);
    }
    cnt
}

/// Counts the tokens of `words` that fold to `term`.
fn count_words_eq(words: &Vec<String>, term: &String) -> (r: usize)
    ensures
        r as int == count_eq(words.deep_view(), term@),
{
    let mut cnt: usize = 0;
    let mut i: usize = 0;
    while i < words.len()
        invariant
            i <= words@.len(),
            cnt <= i,
            words.deep_view().len() == words@.len(),
            forall|j: int| 0 <= j < words@.len() ==> words.deep_view()[j] == words@[j]@,
            cnt as int == count_eq(words.deep_view().subrange(0, i as int), term@),
        decreases words@.len() - i,
    {
        let ghost prefix = words.deep_view().subrange(0, i as int);
        let ghost ext = words.deep_view().subrange(0, i + 1);
        let lw = lowercase(words[i].as_str());
        let hit = lw.eq(term);
        proof {
            assert(ext.drop_last() =~= prefix);
            assert(ext.last() == words.deep_view()[i as int]);
        }
        if hit {
            cnt = cnt + 1;
        }
        i = i + 1;
    }
    proof {
        assert(words.deep_view().subrange(0, words@.len() as int) =~= words.deep_view());
    }
    cnt
}

// ---------------------------------------------------------------------------
// Term frequency, document frequency, scores
// ---------------------------------------------------------------------------
/// The raw term frequency of `term` in an item: folded-token matches in the
/// title and excerpt, plus substring occurrences in the lower-cased URL.
pub open spec fn tf_of(it: ItemModel, term: Seq<char>) -> int {
    count_eq(tokens_of(it.title), term) + (match it.excerpt {
        Some(e) => count_eq(tokens_of(e), term),
        None => 0int,
    }) + (match it.url {
        Some(u) => count_occ(lower_of(u), term),
        None => 0int,
    })
}

/// The number of items in which the term occurs at all.
pub open spec fn df_of(items: Seq<ItemModel>, term: Seq<char>) -> int
    decreases items.len(),
{
    if items.len() == 0 {
        0
    } else {
        df_of(items.drop_last(), term) + if tf_of(items.last(), term) > 0 {
            1int
        } else {
            0int
        }
    }
}

proof fn lemma_df_bounds(items: Seq<ItemModel>, term: Seq<char>)
    ensures
        0 <= df_of(items, term) <= items.len(),
    decreases items.len(),
{
    if items.len() > 0 {
        lemma_df_bounds(items.drop_last(), term);
    }
}

/// The Laplace-smoothed weight of one term over `n` stored items.
pub open spec fn term_weight(n: int, df: int) -> int {
    lg10(n, 1 + df)
}

/// Addition clamped to the `i128` range.
pub open spec fn sat_add_i128(a: int, b: int) -> int {
    if a + b > 0x7fff_ffff_ffff_ffff_ffff_ffff_ffff_ffff {
        0x7fff_ffff_ffff_ffff_ffff_ffff_ffff_ffff
    } else if a + b < -0x8000_0000_0000_0000_0000_0000_0000_0000 {
        -0x8000_0000_0000_0000_0000_0000_0000_0000
    } else {
        a + b
    }
}

/// The query terms: the whitespace tokens of the keyword phrase, folded.
pub open spec fn terms_of(keyword: Seq<char>) -> Seq<Seq<char>> {
    Seq::new(tokens_of(keyword).len(), |i: int| lower_of(tokens_of(keyword)[i]))
}

/// An item's score: the clamped sum over terms of `tf` times the term's
/// weight. An empty term list gives the empty sum, zero.
pub open spec fn score_of(items: Seq<ItemModel>, it: ItemModel, terms: Seq<Seq<char>>) -> int
    decreases terms.len(),
{
    if terms.len() == 0 {
        0
    } else {
        sat_add_i128(
            score_of(items, it, terms.drop_last()),
            tf_of(it, terms.last()) * term_weight(items.len() as int, df_of(items, terms.last())),
        )
    }
}

/// A zero term frequency contributes nothing, so an item matched by no term
/// scores zero.
pub proof fn lemma_no_match_scores_zero(
    items: Seq<ItemModel>,
    it: ItemModel,
    terms: Seq<Seq<char>>,
)
    requires
        forall|j: int| 0 <= j < terms.len() ==> tf_of(it, #[trigger] terms[j]) == 0,
    ensures
        score_of(items, it, terms) == 0,
    decreases terms.len(),
{
    if terms.len() > 0 {
        let d = terms.drop_last();
        assert(forall|j: int| 0 <= j < d.len() ==> d[j] == terms[j]);
        lemma_no_match_scores_zero(items, it, d);
        assert(tf_of(it, terms.last()) == 0);
    }
}

/// The scored items that survive the positivity filter, as `(score, index)`
/// pairs in storage order.
pub open spec fn scored_pairs(items: Seq<ItemModel>, terms: Seq<Seq<char>>, upto: int) -> Seq<
    (i128, usize),
>
    decreases upto,
{
    if upto <= 0 {
        Seq::empty()
    } else {
        let r = scored_pairs(items, terms, upto - 1);
        let sc = score_of(items, items[upto - 1], terms);
        if sc >= 1 {
            r.push((sc as i128, (upto - 1) as usize))
        } else {
            r
        }
    }
}

/// The ranked items for a keyword phrase: positive-scoring items only, by
/// descending score, ties kept in storage order.
pub open spec fn rank_spec(items: Seq<ItemModel>, keyword: Seq<char>) -> Seq<ItemModel> {
    let ranked = sort_spec(scored_pairs(items, terms_of(keyword), items.len() as int));
    Seq::new(ranked.len(), |i: int| items[ranked[i].1 as int])
}

/// A keyword that matches nothing is an empty result, not an error: if no
/// item has a positive score, the ranking is empty.
pub proof fn lemma_all_filtered_empty(items: Seq<ItemModel>, terms: Seq<Seq<char>>, upto: int)
    requires
        upto <= items.len(),
        forall|j: int| 0 <= j < items.len() ==> score_of(items, #[trigger] items[j], terms) < 1,
    ensures
        scored_pairs(items, terms, upto) == Seq::<(i128, usize)>::empty(),
    decreases upto,
{
    if upto > 0 {
        lemma_all_filtered_empty(items, terms, upto - 1);
        assert(score_of(items, items[upto - 1], terms) < 1);
    }
}

proof fn lemma_scored_pairs_tags(items: Seq<ItemModel>, terms: Seq<Seq<char>>, upto: int)
    requires
        upto <= items.len(),
    ensures
        forall|i: int|
            0 <= i < scored_pairs(items, terms, upto).len() ==> (#[trigger] scored_pairs(
                items,
                terms,
                upto,
            )[i]).1 < items.len(),
    decreases upto,
{
    if upto > 0 {
        lemma_scored_pairs_tags(items, terms, upto - 1);
        let r = scored_pairs(items, terms, upto - 1);
        let cur = scored_pairs(items, terms, upto);
        assert forall|i: int| 0 <= i < cur.len() implies (#[trigger] cur[i]).1 < items.len() by {
            if i < r.len() {
                assert(cur[i] == r[i]);
            }
        }
    }
}

/// Saturating addition on `i128`.
fn sat_add(a: i128, b: i128) -> (r: i128)
    ensures
        r as int == sat_add_i128(a as int, b as int),
{
    if b >= 0 {
        if a > i128::MAX - b {
            i128::MAX
        } else {
            a + b
        }
    } else {
        if a < i128::MIN - b {
            i128::MIN
        } else {
            a + b
        }
    }
}

/// The raw term frequency of `term` in an item.
fn term_frequency(it: &SavedItem, term: &String) -> (r: u128)
    requires
        term@.len() >= 1,
    ensures
        r as int == tf_of(it@, term@),
        r < 0x3_0000_0000_0000_0000,
{
    let title_words = split_words(it.title().as_str());
    let a = count_words_eq(&title_words, term);
    let b = match it.excerpt() {
        Some(e) => {
            let excerpt_words = split_words(e.as_str());
            count_words_eq(&excerpt_words, term)
        },
        None => 0,
    };
    let c = match it.url() {
        Some(u) => {
            let lu = lowercase(u.as_str());
            count_occurrences(lu.as_str(), term.as_str())
        },
        None => 0,
    };
    a as u128 + b as u128 + c as u128
}

/// Ranks stored items against a keyword phrase by term-weighted relevance:
/// zero-relevance items are dropped, the rest come back by descending
/// score, ties in storage order.
/// The score of every stored item against a keyword phrase, in storage
/// order.
pub fn keyword_scores(items: &Vec<SavedItem>, keyword: &str) -> (r: Vec<i128>)
    ensures
        r@.len() == items@.len(),
        forall|i: int| 0 <= i < items@.len() ==> #[trigger] r@[i] as int == score_of(
            items_view(items@),
            items_view(items@)[i],
            terms_of(keyword@),
        ),
        keyword@.len() == 0 ==> forall|i: int| 0 <= i < r@.len() ==> #[trigger] r@[i] == 0,
{
    let ghost iv = items_view(items@);
    let ghost terms_g = terms_of(keyword@);
    let words = split_words(keyword);
    let mut terms: Vec<String> = Vec::new();
    let mut w: usize = 0;
    while w < words.len()
        invariant
            terms_g == terms_of(keyword@),
            w <= words@.len(),
            terms_g.len() == words@.len(),
            words.deep_view() == tokens_of(keyword@),
            forall|i: int| 0 <= i < tokens_of(keyword@).len() ==> tokens_of(keyword@)[i].len() > 0,
            terms@.len() == w,
            forall|i: int| 0 <= i < w ==> #[trigger] terms@[i]@ == terms_g[i],
            forall|i: int| 0 <= i < w ==> #[trigger] terms@[i]@.len() >= 1,
        decreases words@.len() - w,
    {
        let lw = lowercase(words[w].as_str());
        proof {
            assert(words.deep_view()[w as int] == words@[w as int]@);
            assert(w < tokens_of(keyword@).len());
            assert(terms_g[w as int] == lower_of(tokens_of(keyword@)[w as int]));
            assert(lw@ == terms_g[w as int]);
        }
        terms.push(lw);
        w = w + 1;
    }
    proof {
        assert(terms_g.len() == tokens_of(keyword@).len());
    }
    // Document frequency of each term.
    let mut dfs: Vec<u64> = Vec::new();
    let mut t: usize = 0;
    while t < terms.len()
        invariant
            terms_g == terms_of(keyword@),
            t <= terms@.len(),
            terms@.len() == terms_g.len(),
            forall|i: int| 0 <= i < terms_g.len() ==> #[trigger] terms@[i]@ == terms_g[i],
            forall|i: int| 0 <= i < terms_g.len() ==> #[trigger] terms@[i]@.len() >= 1,
            iv == items_view(items@),
            dfs@.len() == t,
            forall|i: int| 0 <= i < t ==> #[trigger] dfs@[i] as int == df_of(iv, terms_g[i]),
        decreases terms@.len() - t,
    {
        let mut df: u64 = 0;
        let mut x: usize = 0;
        while x < items.len()
            invariant
                terms_g == terms_of(keyword@),
                x <= items@.len(),
                t < terms@.len(),
                terms@.len() == terms_g.len(),
                forall|i: int| 0 <= i < terms_g.len() ==> #[trigger] terms@[i]@ == terms_g[i],
                forall|i: int| 0 <= i < terms_g.len() ==> #[trigger] terms@[i]@.len() >= 1,
                iv == items_view(items@),
                df <= x,
                df as int == df_of(iv.subrange(0, x as int), terms_g[t as int]),
            decreases items@.len() - x,
        {
            let ghost prefix = iv.subrange(0, x as int);
            let ghost ext = iv.subrange(0, x + 1);
            let tf = term_frequency(&items[x], &terms[t]);
            proof {
                assert(ext.drop_last() =~= prefix);
                assert(ext.last() == iv[x as int]);
                assert(items@[x as int]@ == iv[x as int]);
            }
            if tf > 0 {
                df = df + 1;
            }
            x = x + 1;
        }
        proof {
            assert(iv.subrange(0, items@.len() as int) =~= iv);
        }
        dfs.push(df);
        t = t + 1;
    }
    // The clamped weighted sum for each item.
    let mut scores: Vec<i128> = Vec::new();
    let mut idx: usize = 0;
    while idx < items.len()
        invariant
            terms_g == terms_of(keyword@),
            idx <= items@.len(),
            terms@.len() == terms_g.len(),
            forall|i: int| 0 <= i < terms_g.len() ==> #[trigger] terms@[i]@ == terms_g[i],
            forall|i: int| 0 <= i < terms_g.len() ==> #[trigger] terms@[i]@.len() >= 1,
            iv == items_view(items@),
            dfs@.len() == terms_g.len(),
            forall|i: int| 0 <= i < terms_g.len() ==> #[trigger] dfs@[i] as int == df_of(
                iv,
                terms_g[i],
            ),
            scores@.len() == idx,
            forall|i: int| 0 <= i < idx ==> #[trigger] scores@[i] as int == score_of(
                iv,
                iv[i],
                terms_g,
            ),
        decreases items@.len() - idx,
    {
        let mut acc: i128 = 0;
        let mut t2: usize = 0;
        while t2 < terms.len()
            invariant
                terms_g == terms_of(keyword@),
                t2 <= terms@.len(),
                idx < items@.len(),
                terms@.len() == terms_g.len(),
                forall|i: int| 0 <= i < terms_g.len() ==> #[trigger] terms@[i]@ == terms_g[i],
                forall|i: int| 0 <= i < terms_g.len() ==> #[trigger] terms@[i]@.len() >= 1,
                iv == items_view(items@),
                dfs@.len() == terms_g.len(),
                forall|i: int| 0 <= i < terms_g.len() ==> #[trigger] dfs@[i] as int == df_of(
                    iv,
                    terms_g[i],
                ),
                acc as int == score_of(iv, iv[idx as int], terms_g.subrange(0, t2 as int)),
            decreases terms@.len() - t2,
        {
            let ghost prefix = terms_g.subrange(0, t2 as int);
            let ghost ext = terms_g.subrange(0, t2 + 1);
            let tf = term_frequency(&items[idx], &terms[t2]);
            proof {
                lemma_df_bounds(iv, terms_g[t2 as int]);
                assert(items@[idx as int]@ == iv[idx as int]);
            }
            let df = dfs[t2];
            let weight = lg10_fixed(items.len() as u128, df as u128 + 1);
            proof {
                assert((tf as int) * (weight as int) <= 0x3_0000_0000_0000_0000 * 0x1500000)
                    by (nonlinear_arith)
                    requires
                        0 <= tf < 0x3_0000_0000_0000_0000,
                        -0x1500000 <= weight <= 0x1500000,
                ;
                assert((tf as int) * (weight as int) >= -(0x3_0000_0000_0000_0000 * 0x1500000))
                    by (nonlinear_arith)
                    requires
                        0 <= tf < 0x3_0000_0000_0000_0000,
                        -0x1500000 <= weight <= 0x1500000,
                ;
            }
            let contribution: i128 = (tf as i128) * (weight as i128);
            acc = sat_add(acc, contribution);
            proof {
                assert(ext.drop_last() =~= prefix);
                assert(ext.last() == terms_g[t2 as int]);
            }
            t2 = t2 + 1;
        }
        proof {
            assert(terms_g.subrange(0, terms_g.len() as int) =~= terms_g);
        }
        scores.push(acc);
        idx = idx + 1;
    }
    proof {
        if keyword@.len() == 0 {
            assert(terms_g.len() == 0);
            assert(forall|i: int|
                0 <= i < items@.len() ==> score_of(iv, iv[i], terms_g) == 0);
        }
    }
    scores
}

/// Ranks stored items against a keyword phrase by term-weighted relevance:
/// zero-relevance items are dropped, the rest come back by descending
/// score, ties in storage order.
pub fn rank_items_by_keyword(items: &Vec<SavedItem>, keyword: &str) -> (r: Vec<SavedItem>)
    ensures
        items_view(r@) == rank_spec(items_view(items@), keyword@),
        keyword@.len() == 0 ==> r@.len() == 0,
{
    let ghost iv = items_view(items@);
    let ghost terms_g = terms_of(keyword@);
    let scores = keyword_scores(items, keyword);
    let mut pairs: Vec<(i128, usize)> = Vec::new();
    let mut idx: usize = 0;
    while idx < items.len()
        invariant
            terms_g == terms_of(keyword@),
            idx <= items@.len(),
            iv == items_view(items@),
            scores@.len() == items@.len(),
            forall|i: int| 0 <= i < items@.len() ==> #[trigger] scores@[i] as int == score_of(
                iv,
                iv[i],
                terms_g,
            ),
            pairs@ == scored_pairs(iv, terms_g, idx as int),
        decreases items@.len() - idx,
    {
        let sc = scores[idx];
        if sc >= 1 {
            pairs.push((sc, idx));
        }
        idx = idx + 1;
    }
    proof {
        lemma_scored_pairs_tags(iv, terms_g, items@.len() as int);
        lemma_sort_tags_bounded(pairs@, iv.len() as int);
    }
    let sorted = sort_pairs(pairs);
    let mut out: Vec<SavedItem> = Vec::new();
    let mut o: usize = 0;
    while o < sorted.len()
        invariant
            o <= sorted@.len(),
            iv == items_view(items@),
            sorted@ == sort_spec(scored_pairs(iv, terms_of(keyword@), iv.len() as int)),
            forall|j: int| 0 <= j < sorted@.len() ==> (#[trigger] sorted@[j]).1 < items@.len(),
            out@.len() == o,
            forall|j: int| 0 <= j < o ==> #[trigger] out@[j]@ == iv[sorted@[j].1 as int],
        decreases sorted@.len() - o,
    {
        let tag = sorted[o].1;
        out.push(items[tag].duplicate());
        o = o + 1;
    }
    proof {
        assert(items_view(out@) =~= rank_spec(iv, keyword@));
        if keyword@.len() == 0 {
            assert forall|i: int| 0 <= i < iv.len() implies score_of(
                iv,
                #[trigger] iv[i],
                terms_g,
            ) < 1 by {
                assert(scores@[i] == 0);
            }
            lemma_all_filtered_empty(iv, terms_g, iv.len() as int);
            assert(sort_spec(Seq::<(i128, usize)>::empty())
                == Seq::<(i128, usize)>::empty());
        }
    }
    out
}



/// A keyword that matches no stored item yields an empty ranking, not an
/// error: if every term has zero frequency in every item, every score is
/// the empty-or-zero sum and the positivity filter drops everything.
pub proof fn lemma_zero_match_yields_empty(items: Seq<ItemModel>, keyword: Seq<char>)
    requires
        forall|i: int, j: int|
            0 <= i < items.len() && 0 <= j < terms_of(keyword).len() ==> tf_of(
                #[trigger] items[i],
                #[trigger] terms_of(keyword)[j],
            ) == 0,
    ensures
        rank_spec(items, keyword).len() == 0,
{
    let terms = terms_of(keyword);
    assert forall|i: int| 0 <= i < items.len() implies score_of(
        items,
        #[trigger] items[i],
        terms,
    ) < 1 by {
        assert(forall|j: int| 0 <= j < terms.len() ==> tf_of(items[i], #[trigger] terms[j]) == 0);
        lemma_no_match_scores_zero(items, items[i], terms);
    }
    lemma_all_filtered_empty(items, terms, items.len() as int);
    assert(sort_spec(Seq::<(i128, usize)>::empty()) == Seq::<(i128, usize)>::empty());
}

/// Every entry of a scored-pairs run carries a positive score.
proof fn lemma_scored_pairs_positive(items: Seq<ItemModel>, terms: Seq<Seq<char>>, upto: int)
    ensures
        forall|i: int|
            0 <= i < scored_pairs(items, terms, upto).len() ==> (#[trigger] scored_pairs(
                items,
                terms,
                upto,
            )[i]).0 >= 1,
    decreases upto,
{
    if upto > 0 {
        lemma_scored_pairs_positive(items, terms, upto - 1);
        let r = scored_pairs(items, terms, upto - 1);
        let cur = scored_pairs(items, terms, upto);
        assert forall|i: int| 0 <= i < cur.len() implies (#[trigger] cur[i]).0 >= 1 by {
            if i < r.len() {
                assert(cur[i] == r[i]);
            }
        }
    }
}

/// The ranking is by descending positive score: every item that survives
/// the filter scored at least one unit, and no later item outranks an
/// earlier one.
pub proof fn lemma_rank_ordered(items: Seq<ItemModel>, keyword: Seq<char>)
    ensures
        ({
            let ranked = sort_spec(scored_pairs(items, terms_of(keyword), items.len() as int));
            &&& forall|i: int| 0 <= i < ranked.len() ==> (#[trigger] ranked[i]).0 >= 1
            &&& forall|i: int, j: int|
                0 <= i < j < ranked.len() ==> (#[trigger] ranked[i]).0 >= (#[trigger] ranked[j]).0
        }),
{
    broadcast use vstd::seq_lib::group_seq_properties;

    let terms = terms_of(keyword);
    let pairs = scored_pairs(items, terms, items.len() as int);
    let ranked = sort_spec(pairs);
    lemma_scored_pairs_positive(items, terms, items.len() as int);
    crate::order::lemma_sort_spec_sorted(pairs);
    assert forall|i: int| 0 <= i < ranked.len() implies (#[trigger] ranked[i]).0 >= 1 by {
        let x = ranked[i];
        assert(ranked.to_multiset().contains(x));
        assert(pairs.to_multiset().contains(x));
        assert(pairs.contains(x));
        let k = choose|k: int| 0 <= k < pairs.len() && pairs[k] == x;
        assert(pairs[k].0 >= 1);
    }
    assert forall|i: int, j: int| 0 <= i < j < ranked.len() implies (#[trigger] ranked[i]).0 >= (
    #[trigger] ranked[j]).0 by {
        assert(!crate::order::pair_before(ranked[j], ranked[i]));
    }
}

} // verus!

//! How much longer things take than estimated, as one number: the median of
//! each item's own ratio of time worked to time estimated, never the ratio of
//! the summed totals, so one outsized job cannot redefine a typical day.
use vstd::prelude::*;
use crate::compose::{dec, dec_of};
use crate::store::{Item, comma_join, join_commas};
use crate::timer::{Session, clamp_i64, sessions_ok, spent_of, spent_secs};
use crate::text::{chars_of, lower, trim, split_on, split_chars, trim_chars, to_lower_char, opt_str, string_of, push_char};

verus! {

/// Below this many samples the ratio is noise, and no sentence is made of it.
pub const MIN_CONFIDENT: usize = 5;

/// One item's measured work: its tags as stored (comma-separated), its estimate
/// in minutes, and the seconds of finished, non-discarded sessions on it.
#[derive(Clone, Debug)]
pub struct Sample {
    pub tags: String,
    pub estimate_min: u32,
    pub actual_secs: u64,
}

#[derive(Clone, Debug, PartialEq)]
pub struct Stats {
    pub tag: Option<String>,
    /// Items with both an estimate and finished, non-discarded time.
    pub n: usize,
    /// Percent over the estimate; negative means faster. None when nothing
    /// has been measured.
    pub pct_over: Option<i32>,
    /// Ready to print. None below `MIN_CONFIDENT` samples.
    pub phrase: Option<String>,
    pub confident: bool,
}

/// `str::eq_ignore_ascii_case`.
pub open spec fn same_ignoring_case(a: Seq<char>, b: Seq<char>) -> bool {
    lower(a) == lower(b)
}

/// One of the comma-separated tags, trimmed, is the wanted one.
pub open spec fn has_tag(tags: Seq<char>, want: Seq<char>) -> bool {
    exists|i: int| 0 <= i < split_on(tags, ',').len() && same_ignoring_case(
        trim(#[trigger] split_on(tags, ',')[i]),
        want,
    )
}

/// Measured at all, and under the wanted tag when one is given.
pub open spec fn qualifies(s: Sample, tag: Option<Seq<char>>) -> bool {
    &&& s.estimate_min > 0
    &&& s.actual_secs > 0
    &&& match tag {
        None => true,
        Some(w) => has_tag(s.tags@, w),
    }
}

/// A ratio as a pair of integers: worked seconds over estimated seconds.
pub open spec fn ratio(s: Sample) -> (int, int) {
    (s.actual_secs as int, s.estimate_min * 60)
}

/// The ratios of the qualifying samples, in their order.
pub open spec fn ratios(s: Seq<Sample>, tag: Option<Seq<char>>) -> Seq<(int, int)>
    decreases s.len(),
{
    if s.len() == 0 {
        Seq::empty()
    } else {
        let rest = ratios(s.drop_last(), tag);
        if qualifies(s.last(), tag) {
            rest.push(ratio(s.last()))
        } else {
            rest
        }
    }
}

/// `a <= b` as rationals (both denominators positive).
pub open spec fn ratio_le(a: (int, int), b: (int, int)) -> bool {
    a.0 * b.1 <= b.0 * a.1
}

/// Insert before the first element that is not smaller.
pub open spec fn insert_ratio(x: (int, int), s: Seq<(int, int)>) -> Seq<(int, int)>
    decreases s.len(),
{
    if s.len() == 0 {
        seq![x]
    } else if ratio_le(x, s[0]) {
        seq![x] + s
    } else {
        seq![s[0]] + insert_ratio(x, s.drop_first())
    }
}

/// The ratios in ascending order.
pub open spec fn sort_ratios(s: Seq<(int, int)>) -> Seq<(int, int)>
    decreases s.len(),
{
    if s.len() == 0 {
        Seq::empty()
    } else {
        insert_ratio(s.last(), sort_ratios(s.drop_last()))
    }
}

/// The middle of a sorted, non-empty sequence, or the mean of the two middles.
pub open spec fn median(s: Seq<(int, int)>) -> (int, int) {
    let n = s.len() as int;
    if n % 2 == 1 {
        s[n / 2]
    } else {
        let a = s[n / 2 - 1];
        let b = s[n / 2];
        (a.0 * b.1 + b.0 * a.1, 2 * a.1 * b.1)
    }
}

/// `n / d` rounded to the nearest integer, halves away from zero (`f64::round`).
pub open spec fn round_div(n: int, d: int) -> int {
    if n >= 0 {
        (2 * n + d) / (2 * d)
    } else {
        -((-2 * n + d) / (2 * d))
    }
}

/// `as i32` from a float: out-of-range values saturate.
pub open spec fn saturate_i32(x: int) -> i32 {
    if x > i32::MAX {
        i32::MAX
    } else if x < i32::MIN {
        i32::MIN
    } else {
        x as i32
    }
}

/// Percent over the estimate for a ratio `p / q`.
pub open spec fn pct_of(m: (int, int)) -> i32 {
    saturate_i32(round_div(100 * (m.0 - m.1), m.1))
}

pub open spec fn phrase_of(pct: i32) -> Seq<char> {
    if pct >= 0 {
        dec(pct as nat) + seq!['%', ' ', 'l', 'o', 'n', 'g', 'e', 'r']
    } else {
        dec((-pct) as nat) + seq!['%', ' ', 's', 'h', 'o', 'r', 't', 'e', 'r']
    }
}

/// What `stats` reports for these samples and this tag.
pub open spec fn stats_spec(s: Seq<Sample>, tag: Option<Seq<char>>, r: Stats) -> bool {
    let rs = ratios(s, tag);
    let n = rs.len();
    &&& opt_str(r.tag) == tag
    &&& r.n == n
    &&& r.confident == (n >= MIN_CONFIDENT)
    &&& if n == 0 {
        r.pct_over is None && r.phrase is None
    } else {
        let pct = pct_of(median(sort_ratios(rs)));
        &&& r.pct_over == Some(pct)
        &&& opt_str(r.phrase) == (if n >= MIN_CONFIDENT {
            Some(phrase_of(pct))
        } else {
            None
        })
    }
}

fn lower_eq(a: &Vec<char>, b: &Vec<char>) -> (r: bool)
    ensures
        r == (lower(a@) == lower(b@)),
{
    if a.len() != b.len() {
        proof {
            assert(lower(a@).len() != lower(b@).len());
        }
        return false;
    }
    let mut i: usize = 0;
    while i < a.len()
        invariant
            i <= a.len(),
            a.len() == b.len(),
            forall|k: int| 0 <= k < i ==> lower(a@)[k] == lower(b@)[k],
        decreases a.len() - i,
    {
        if to_lower_char(a[i]) != to_lower_char(b[i]) {
            proof {
                assert(lower(a@)[i as int] != lower(b@)[i as int]);
            }
            return false;
        }
        i = i + 1;
    }
    assert(lower(a@) =~= lower(b@));
    true
}

/// Whether one of the comma-separated tags is `want`, ignoring ASCII case.
pub fn tag_matches(tags: &str, want: &str) -> (r: bool)
    ensures
        r == has_tag(tags@, want@),
{
    let parts = split_chars(&chars_of(tags), ',');
    let w = chars_of(want);
    let ghost ps = split_on(tags@, ',');
    let mut i: usize = 0;
    while i < parts.len()
        invariant
            i <= parts.len(),
            parts@.map_values(|v: Vec<char>| v@) == ps,
            w@ == want@,
            ps == split_on(tags@, ','),
            forall|k: int| 0 <= k < i ==> !same_ignoring_case(trim(#[trigger] ps[k]), want@),
        decreases parts.len() - i,
    {
        assert(parts@[i as int]@ == ps[i as int]);
        let t = trim_chars(&parts[i]);
        if lower_eq(&t, &w) {
            return true;
        }
        i = i + 1;
    }
    false
}

fn qualifies_exec(s: &Sample, tag: Option<&str>) -> (r: bool)
    ensures
        r == qualifies(*s, match tag {
            None => None,
            Some(t) => Some(t@),
        }),
{
    if s.estimate_min == 0 || s.actual_secs == 0 {
        return false;
    }
    match tag {
        None => true,
        Some(t) => tag_matches(s.tags.as_str(), t),
    }
}

/// `a <= b` for ratios held as (worked seconds, estimated seconds).
fn le_exec(a: (u64, u64), b: (u64, u64)) -> (r: bool)
    ensures
        r == ratio_le((a.0 as int, a.1 as int), (b.0 as int, b.1 as int)),
{
    mul_wide(a.0, b.1) <= mul_wide(b.0, a.1)
}

fn mul_wide(x: u64, y: u64) -> (r: u128)
    ensures
        r == x * y,
        r <= 0xffff_ffff_ffff_ffff * 0xffff_ffff_ffff_ffff,
{
    assert((x as u128) * (y as u128) <= 0xffff_ffff_ffff_ffff * 0xffff_ffff_ffff_ffff) by (nonlinear_arith)
        requires
            x <= 0xffff_ffff_ffff_ffff,
            y <= 0xffff_ffff_ffff_ffff,
    ;
    (x as u128) * (y as u128)
}

pub open spec fn as_ints(v: Seq<(u64, u64)>) -> Seq<(int, int)> {
    v.map_values(|p: (u64, u64)| (p.0 as int, p.1 as int))
}

/// Every denominator positive and small enough for the arithmetic below.
pub open spec fn bounded(s: Seq<(int, int)>) -> bool {
    forall|k: int| 0 <= k < s.len() ==> 0 < (#[trigger] s[k]).1 <= 0xff_ffff_ffff
}

proof fn lemma_insert_bounded(x: (int, int), s: Seq<(int, int)>)
    requires
        bounded(s),
        0 < x.1 <= 0xff_ffff_ffff,
    ensures
        bounded(insert_ratio(x, s)),
        insert_ratio(x, s).len() == s.len() + 1,
    decreases s.len(),
{
    if s.len() > 0 && !ratio_le(x, s[0]) {
        lemma_insert_bounded(x, s.drop_first());
        let r = insert_ratio(x, s);
        assert forall|k: int| 0 <= k < r.len() implies 0 < (#[trigger] r[k]).1 <= 0xff_ffff_ffff by {
            if k > 0 {
                assert(r[k] == insert_ratio(x, s.drop_first())[k - 1]);
            }
        }
    }
}

proof fn lemma_sort_len(rs: Seq<(int, int)>)
    ensures
        sort_ratios(rs).len() == rs.len(),
    decreases rs.len(),
{
    if rs.len() > 0 {
        lemma_sort_len(rs.drop_last());
        lemma_insert_len(rs.last(), sort_ratios(rs.drop_last()));
    }
}

proof fn lemma_insert_len(x: (int, int), s: Seq<(int, int)>)
    ensures
        insert_ratio(x, s).len() == s.len() + 1,
    decreases s.len(),
{
    if s.len() > 0 && !ratio_le(x, s[0]) {
        lemma_insert_len(x, s.drop_first());
    }
}

proof fn lemma_insert_at(x: (int, int), s: Seq<(int, int)>, j: int)
    requires
        0 <= j <= s.len(),
        forall|k: int| 0 <= k < j ==> !ratio_le(x, #[trigger] s[k]),
        j < s.len() ==> ratio_le(x, s[j]),
    ensures
        insert_ratio(x, s) == s.take(j) + seq![x] + s.skip(j),
    decreases s.len(),
{
    if s.len() == 0 {
        assert(s.take(j) + seq![x] + s.skip(j) =~= seq![x]);
    } else if j == 0 {
        assert(s.take(0) + seq![x] + s.skip(0) =~= seq![x] + s);
    } else {
        assert(!ratio_le(x, s[0]));
        let t = s.drop_first();
        assert forall|k: int| 0 <= k < j - 1 implies !ratio_le(x, #[trigger] t[k]) by {
            assert(t[k] == s[k + 1]);
        }
        lemma_insert_at(x, t, j - 1);
        assert(seq![s[0]] + (t.take(j - 1) + seq![x] + t.skip(j - 1)) =~= s.take(j) + seq![x]
            + s.skip(j));
    }
}

/// Insert `x` into an ascending list of ratios, before the first that is not smaller.
fn insert_sorted(v: &mut Vec<(u64, u64)>, x: (u64, u64))
    ensures
        as_ints(final(v)@) == insert_ratio((x.0 as int, x.1 as int), as_ints(old(v)@)),
{
    let ghost xi = (x.0 as int, x.1 as int);
    let ghost s = as_ints(v@);
    let mut j: usize = 0;
    while j < v.len() && !le_exec(x, v[j])
        invariant
            j <= v.len(),
            s == as_ints(v@),
            xi == (x.0 as int, x.1 as int),
            forall|k: int| 0 <= k < j ==> !ratio_le(xi, #[trigger] s[k]),
        decreases v.len() - j,
    {
        assert(s[j as int] == (v@[j as int].0 as int, v@[j as int].1 as int));
        j = j + 1;
    }
    proof {
        lemma_insert_at(xi, s, j as int);
    }
    v.insert(j, x);
    assert(as_ints(v@) =~= s.take(j as int) + seq![xi] + s.skip(j as int));
}

fn round_div_exec(n: i128, d: i128) -> (r: i128)
    requires
        d > 0,
        -0x1_0000_0000_0000_0000_0000_0000_0000 < n < 0x1_0000_0000_0000_0000_0000_0000_0000,
        d < 0x1_0000_0000_0000_0000_0000_0000_0000,
    ensures
        r == round_div(n as int, d as int),
{
    if n >= 0 {
        (2 * n + d) / (2 * d)
    } else {
        assert(-2 * n + d < 0x3_0000_0000_0000_0000_0000_0000_0000);
        let m: i128 = -2 * n + d;
        let dd: i128 = 2 * d;
        let q: i128 = m / dd;
        assert(0 <= q <= m) by (nonlinear_arith)
            requires
                m > 0,
                dd > 0,
                q == m / dd,
        ;
        -q
    }
}

fn saturate_exec(x: i128) -> (r: i32)
    ensures
        r == saturate_i32(x as int),
{
    if x > i32::MAX as i128 {
        i32::MAX
    } else if x < i32::MIN as i128 {
        i32::MIN
    } else {
        x as i32
    }
}

fn phrase_exec(pct: i32) -> (r: String)
    ensures
        r@ == phrase_of(pct),
{
    let (mag, tail): (u32, &[char]) = if pct >= 0 {
        (pct as u32, &['%', ' ', 'l', 'o', 'n', 'g', 'e', 'r'])
    } else {
        ((-(pct as i64)) as u32, &['%', ' ', 's', 'h', 'o', 'r', 't', 'e', 'r'])
    };
    let digits = dec_of(mag);
    let mut out = string_of(&digits);
    let mut i: usize = 0;
    let ghost start = out@;
    while i < tail.len()
        invariant
            i <= tail.len(),
            out@ == start + tail@.subrange(0, i as int),
        decreases tail.len() - i,
    {
        push_char(&mut out, tail[i]);
        i = i + 1;
        assert(start + tail@.subrange(0, i as int) =~= (start + tail@.subrange(0, i - 1)).push(
            tail@[i - 1],
        ));
    }
    assert(tail@.subrange(0, tail.len() as int) =~= tail@);
    proof {
        if pct >= 0 {
            assert(tail@ =~= seq!['%', ' ', 'l', 'o', 'n', 'g', 'e', 'r']);
        } else {
            assert(tail@ =~= seq!['%', ' ', 's', 'h', 'o', 'r', 't', 'e', 'r']);
        }
    }
    out
}

/// Percent over the estimate for the median of an ascending, non-empty list.
fn median_pct(v: &Vec<(u64, u64)>) -> (r: i32)
    requires
        v.len() > 0,
        bounded(as_ints(v@)),
    ensures
        r == pct_of(median(as_ints(v@))),
{
    let n = v.len();
    let ghost s = as_ints(v@);
    assert(s[(n / 2) as int] == (v@[(n / 2) as int].0 as int, v@[(n / 2) as int].1 as int));
    if n % 2 == 0 {
        assert(s[n / 2 - 1] == (v@[n / 2 - 1].0 as int, v@[n / 2 - 1].1 as int));
    }
    let (p, q): (i128, i128) = if n % 2 == 1 {
        (v[n / 2].0 as i128, v[n / 2].1 as i128)
    } else {
        let a = v[n / 2 - 1];
        let b = v[n / 2];
        let ad: u128 = mul_wide(a.0, b.1);
        let ba: u128 = mul_wide(b.0, a.1);
        let dd: u128 = mul_wide(a.1, b.1);
        assert(ad <= 0xffff_ffff_ffff_ffff * 0xff_ffff_ffff) by (nonlinear_arith)
            requires
                a.0 <= 0xffff_ffff_ffff_ffff,
                b.1 <= 0xff_ffff_ffff,
                ad == a.0 * b.1,
        ;
        assert(ba <= 0xffff_ffff_ffff_ffff * 0xff_ffff_ffff) by (nonlinear_arith)
            requires
                b.0 <= 0xffff_ffff_ffff_ffff,
                a.1 <= 0xff_ffff_ffff,
                ba == b.0 * a.1,
        ;
        assert(0 < dd <= 0xff_ffff_ffff * 0xff_ffff_ffff) by (nonlinear_arith)
            requires
                0 < a.1 <= 0xff_ffff_ffff,
                0 < b.1 <= 0xff_ffff_ffff,
                dd == a.1 * b.1,
        ;
        assert(2 * dd == 2 * a.1 * b.1) by (nonlinear_arith)
            requires
                dd == a.1 * b.1,
        ;
        assert(median(s) == ((ad + ba) as int, (2 * dd) as int));
        ((ad + ba) as i128, (2 * dd) as i128)
    };
    assert(median(s) == (p as int, q as int));
    assert(0 <= p < 0x200_0000_0000_0000_0000_0000_0000);
    assert(0 < q < 0x200_0000_0000_0000_0000_0000_0000);
    let num: i128 = 100 * (p - q);
    let x = round_div_exec(num, q);
    saturate_exec(x)
}

/// The ratios of the qualifying samples, in ascending order.
fn sorted_ratios(samples: &Vec<Sample>, tag: Option<&str>) -> (r: Vec<(u64, u64)>)
    ensures
        as_ints(r@) == sort_ratios(
            ratios(
                samples@,
                match tag {
                    None => None,
                    Some(t) => Some(t@),
                },
            ),
        ),
        bounded(as_ints(r@)),
{
    let ghost want = match tag {
        None => None,
        Some(t) => Some(t@),
    };
    let mut out: Vec<(u64, u64)> = Vec::new();
    let mut i: usize = 0;
    assert(as_ints(out@) =~= Seq::<(int, int)>::empty());
    while i < samples.len()
        invariant
            i <= samples.len(),
            want == match tag {
                None => None::<Seq<char>>,
                Some(t) => Some(t@),
            },
            as_ints(out@) == sort_ratios(ratios(samples@.take(i as int), want)),
            bounded(as_ints(out@)),
        decreases samples.len() - i,
    {
        let s = &samples[i];
        assert(samples@.take(i + 1).drop_last() =~= samples@.take(i as int));
        assert(samples@.take(i + 1).last() == samples@[i as int]);
        if qualifies_exec(s, tag) {
            let x = (s.actual_secs, (s.estimate_min as u64) * 60);
            proof {
                lemma_sort_push(ratios(samples@.take(i as int), want), (x.0 as int, x.1 as int));
                lemma_insert_bounded((x.0 as int, x.1 as int), as_ints(out@));
            }
            insert_sorted(&mut out, x);
        }
        i = i + 1;
    }
    assert(samples@.take(samples.len() as int) =~= samples@);
    out
}

proof fn lemma_sort_push(rs: Seq<(int, int)>, x: (int, int))
    ensures
        sort_ratios(rs.push(x)) == insert_ratio(x, sort_ratios(rs)),
{
    assert(rs.push(x).drop_last() =~= rs);
}

/// How much longer things actually take than estimated, over the samples that
/// have both an estimate and worked time, under `tag` when one is given.
pub fn stats(samples: &Vec<Sample>, tag: Option<&str>) -> (r: Stats)
    ensures
        stats_spec(
            samples@,
            match tag {
                None => None,
                Some(t) => Some(t@),
            },
            r,
        ),
{
    let sorted = sorted_ratios(samples, tag);
    let n = sorted.len();
    proof {
        lemma_sort_len(ratios(samples@, match tag {
            None => None,
            Some(t) => Some(t@),
        }));
    }
    let tag_out = match tag {
        None => None,
        Some(t) => Some(string_of(&chars_of(t))),
    };
    if n == 0 {
        return Stats { tag: tag_out, n: 0, pct_over: None, phrase: None, confident: false };
    }
    let pct = median_pct(&sorted);
    let confident = n >= MIN_CONFIDENT;
    let phrase = if confident {
        Some(phrase_exec(pct))
    } else {
        None
    };
    Stats { tag: tag_out, n, pct_over: Some(pct), phrase, confident }
}


/// Every denominator positive.
pub open spec fn positive(s: Seq<(int, int)>) -> bool {
    forall|k: int| 0 <= k < s.len() ==> (#[trigger] s[k]).1 > 0
}

pub open spec fn ascending(s: Seq<(int, int)>) -> bool {
    forall|i: int, j: int| 0 <= i < j < s.len() ==> ratio_le(#[trigger] s[i], #[trigger] s[j])
}

proof fn lemma_le_trans(a: (int, int), b: (int, int), c: (int, int))
    requires
        a.1 > 0,
        b.1 > 0,
        c.1 > 0,
        ratio_le(a, b),
        ratio_le(b, c),
    ensures
        ratio_le(a, c),
{
    assert(a.0 * c.1 <= c.0 * a.1) by (nonlinear_arith)
        requires
            a.1 > 0,
            b.1 > 0,
            c.1 > 0,
            a.0 * b.1 <= b.0 * a.1,
            b.0 * c.1 <= c.0 * b.1,
    {
        assert(a.0 * b.1 * c.1 <= b.0 * a.1 * c.1);
        assert(b.0 * c.1 * a.1 <= c.0 * b.1 * a.1);
        assert(a.0 * c.1 * b.1 <= c.0 * a.1 * b.1);
    }
}

proof fn lemma_insert_ascending(x: (int, int), s: Seq<(int, int)>)
    requires
        x.1 > 0,
        positive(s),
        ascending(s),
    ensures
        ascending(insert_ratio(x, s)),
        positive(insert_ratio(x, s)),
        insert_ratio(x, s).to_multiset() == s.to_multiset().insert(x),
    decreases s.len(),
{
    broadcast use vstd::seq_lib::group_to_multiset_ensures;

    let r = insert_ratio(x, s);
    if s.len() == 0 {
        assert(r =~= Seq::<(int, int)>::empty().push(x));
    } else if ratio_le(x, s[0]) {
        assert(r =~= seq![x] + s);
        assert forall|i: int, j: int| 0 <= i < j < r.len() implies ratio_le(#[trigger] r[i], #[trigger] r[j]) by {
            if i == 0 {
                assert(r[j] == s[j - 1]);
                if j - 1 > 0 {
                    assert(ratio_le(s[0], s[j - 1]));
                    lemma_le_trans(x, s[0], s[j - 1]);
                }
            } else {
                assert(r[i] == s[i - 1] && r[j] == s[j - 1]);
            }
        }
        assert forall|k: int| 0 <= k < r.len() implies (#[trigger] r[k]).1 > 0 by {
            if k > 0 {
                assert(r[k] == s[k - 1]);
            }
        }
        vstd::seq_lib::lemma_multiset_commutative(seq![x], s);
        assert(seq![x] =~= Seq::<(int, int)>::empty().push(x));
    } else {
        let t = s.drop_first();
        assert forall|i: int, j: int| 0 <= i < j < t.len() implies ratio_le(#[trigger] t[i], #[trigger] t[j]) by {
            assert(t[i] == s[i + 1] && t[j] == s[j + 1]);
        }
        assert forall|k: int| 0 <= k < t.len() implies (#[trigger] t[k]).1 > 0 by {
            assert(t[k] == s[k + 1]);
        }
        lemma_insert_ascending(x, t);
        let rt = insert_ratio(x, t);
        assert(r =~= seq![s[0]] + rt);
        assert forall|i: int, j: int| 0 <= i < j < r.len() implies ratio_le(#[trigger] r[i], #[trigger] r[j]) by {
            if i == 0 {
                assert(r[j] == rt[j - 1]);
                assert(rt.to_multiset().count(rt[j - 1]) > 0);
                if rt[j - 1] == x {
                    assert(ratio_le(s[0], x));
                } else {
                    assert(t.to_multiset().count(rt[j - 1]) > 0);
                    assert(t.contains(rt[j - 1]));
                    let m = choose|m: int| 0 <= m < t.len() && t[m] == rt[j - 1];
                    assert(t[m] == s[m + 1]);
                }
            } else {
                assert(r[i] == rt[i - 1] && r[j] == rt[j - 1]);
            }
        }
        assert forall|k: int| 0 <= k < r.len() implies (#[trigger] r[k]).1 > 0 by {
            if k > 0 {
                assert(r[k] == rt[k - 1]);
            }
        }
        vstd::seq_lib::lemma_multiset_commutative(seq![s[0]], rt);
        vstd::seq_lib::lemma_multiset_commutative(seq![s[0]], t);
        assert(s =~= seq![s[0]] + t);
    }
}

/// The figure is a median in earnest: the ratios are put in ascending order,
/// and exactly the measured ratios, each once, are what is ordered.
pub proof fn law_ratios_sorted_and_complete(rs: Seq<(int, int)>)
    requires
        positive(rs),
    ensures
        ascending(sort_ratios(rs)),
        sort_ratios(rs).to_multiset() == rs.to_multiset(),
    decreases rs.len(),
{
    broadcast use vstd::seq_lib::group_to_multiset_ensures;

    if rs.len() > 0 {
        let p = rs.drop_last();
        assert forall|k: int| 0 <= k < p.len() implies (#[trigger] p[k]).1 > 0 by {
            assert(p[k] == rs[k]);
        }
        law_ratios_sorted_and_complete(p);
        assert forall|k: int| 0 <= k < sort_ratios(p).len() implies (#[trigger] sort_ratios(p)[k]).1 > 0 by {
            assert(sort_ratios(p).to_multiset().count(sort_ratios(p)[k]) > 0);
            assert(p.to_multiset().count(sort_ratios(p)[k]) > 0);
            assert(p.contains(sort_ratios(p)[k]));
        }
        lemma_insert_ascending(rs.last(), sort_ratios(p));
        assert(rs =~= p.push(rs.last()));
    }
}
/// A sample by value: tags as stored, estimate, seconds worked.
pub open spec fn sample_v(s: Sample) -> (Seq<char>, u32, int) {
    (s.tags@, s.estimate_min, s.actual_secs as int)
}

/// The samples of the first `n` items: each item with an estimate and some
/// finished, non-quarantined time on it, in item order.
pub open spec fn samples_spec(items: Seq<Item>, ss: Seq<Session>, n: nat) -> Seq<(Seq<char>, u32, int)>
    decreases n,
{
    if n == 0 {
        Seq::empty()
    } else {
        let rest = samples_spec(items, ss, (n - 1) as nat);
        let it = items[n - 1];
        let spent = clamp_i64(spent_of(ss, it.id@, ss.len() as nat));
        match it.estimate_min {
            Some(e) => if e > 0 && spent > 0 {
                rest.push((comma_join(it.tags@.map_values(|t: String| t@)), e, spent))
            } else {
                rest
            },
            None => rest,
        }
    }
}

/// What the statistics are measured from: for each item with an estimate, the
/// time worked on it across its finished, non-quarantined sessions, when there
/// is any (in whole seconds, held to what an `i64` can say).
pub fn samples_of(items: &Vec<Item>, sessions: &Vec<Session>) -> (r: Vec<Sample>)
    requires
        sessions_ok(sessions@),
    ensures
        r@.map_values(|s: Sample| sample_v(s)) == samples_spec(items@, sessions@, items.len() as nat),
{
    let mut out: Vec<Sample> = Vec::new();
    let mut i: usize = 0;
    while i < items.len()
        invariant
            i <= items.len(),
            sessions_ok(sessions@),
            out@.map_values(|s: Sample| sample_v(s)) == samples_spec(items@, sessions@, i as nat),
        decreases items.len() - i,
    {
        let it = &items[i];
        let ghost before = out@.map_values(|s: Sample| sample_v(s));
        match it.estimate_min {
            Some(e) => {
                let spent = spent_secs(sessions, it.id.as_str());
                if e > 0 && spent > 0 {
                    out.push(Sample { tags: join_commas(&it.tags), estimate_min: e, actual_secs: spent as u64 });
                    assert(out@.map_values(|s: Sample| sample_v(s)) =~= before.push(
                        (comma_join(it.tags@.map_values(|t: String| t@)), e, spent as int),
                    ));
                }
            },
            None => {},
        }
        i = i + 1;
    }
    out
}


proof fn lemma_ratios_count(s: Seq<Sample>, tag: Option<Seq<char>>)
    ensures
        ratios(s, tag).len() == s.filter(|x: Sample| qualifies(x, tag)).len(),
    decreases s.len(),
{
    reveal(Seq::filter);
    if s.len() > 0 {
        lemma_ratios_count(s.drop_last(), tag);
    }
}

/// The figure counts every sample measured at all (an estimate and worked
/// time, under the tag when one is given), and says something only from
/// five of them on: below that there is a percentage but no phrase, and with
/// none there is neither.
pub proof fn law_stats_count_and_threshold(s: Seq<Sample>, tag: Option<Seq<char>>, r: Stats)
    requires
        stats_spec(s, tag, r),
    ensures
        r.n == s.filter(|x: Sample| qualifies(x, tag)).len(),
        r.confident <==> r.n >= 5,
        r.phrase is Some <==> r.n >= 5,
        r.pct_over is Some <==> r.n > 0,
{
    lemma_ratios_count(s, tag);
}


proof fn lemma_ratios_positive(s: Seq<Sample>, tag: Option<Seq<char>>)
    ensures
        positive(ratios(s, tag)),
    decreases s.len(),
{
    if s.len() > 0 {
        lemma_ratios_positive(s.drop_last(), tag);
        let p = ratios(s.drop_last(), tag);
        let q = ratios(s, tag);
        assert forall|k: int| 0 <= k < q.len() implies (#[trigger] q[k]).1 > 0 by {
            if k < p.len() {
                assert(q[k] == p[k]);
            }
        }
    }
}

/// The figure is the median in earnest: with an odd number of measured ratios
/// it is the middle one of them in ascending order (index n/2); only an even
/// number averages the two middle ones. The ascending order holds exactly the
/// measured ratios.
pub proof fn law_stats_median(s: Seq<Sample>, tag: Option<Seq<char>>, r: Stats)
    requires
        stats_spec(s, tag, r),
    ensures
        ({
            let rs = ratios(s, tag);
            let o = sort_ratios(rs);
            let n = rs.len() as int;
            &&& o.len() == n
            &&& o.to_multiset() == rs.to_multiset()
            &&& forall|i: int, j: int| 0 <= i < j < n ==> ratio_le(#[trigger] o[i], #[trigger] o[j])
            &&& n % 2 == 1 ==> r.pct_over == Some(pct_of(o[n / 2]))
            &&& n > 0 && n % 2 == 0 ==> r.pct_over == Some(
                pct_of(
                    (
                        o[n / 2 - 1].0 * o[n / 2].1 + o[n / 2].0 * o[n / 2 - 1].1,
                        2 * o[n / 2 - 1].1 * o[n / 2].1,
                    ),
                ),
            )
        }),
{
    broadcast use vstd::seq_lib::group_to_multiset_ensures;

    let rs = ratios(s, tag);
    lemma_ratios_positive(s, tag);
    law_ratios_sorted_and_complete(rs);
    lemma_sort_len(rs);
}

} // verus!

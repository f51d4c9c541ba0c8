//! The stored form of question packs. The packs are joined by `&||||&`; a
//! pack's name, query, description and question sets by `&|||&`; its sets by
//! `&||&`; and a set's settings (JSON text) and object identifiers (decimal,
//! separated by commas) by `&|&`.

use vstd::prelude::*;
use vstd::string::StringExecFns;
use crate::query::{lemma_split_pattern_len, lemma_split_pattern_prefix, match_at, split_on_pattern, split_pattern};
use crate::text::{
    chars_of, decimal, is_ascii_digit, join_seq, join_with, lemma_decimal_digits, lemma_parse_decimal,
    lemma_split_join, parse_unsigned, parse_unsigned_upto, spec_is_whitespace, split_on, split_seq, trim, trim_str,
    str_eq, u64_to_decimal, IntErrorKind,
};

verus! {

broadcast use vstd::string::group_string_axioms;

/// The separator of level `k`: `&`, `k` bars, `&`.
pub open spec fn separator(k: nat) -> Seq<char> {
    seq!['&'] + Seq::new(k, |_i: int| '|') + seq!['&']
}

// ---- the written form ----

pub open spec fn ids_text(ids: Seq<u64>) -> Seq<char> {
    join_seq(ids.map_values(|n: u64| decimal(n as nat)), seq![','])
}

pub open spec fn set_text(set: (Seq<char>, Seq<u64>)) -> Seq<char> {
    set.0 + separator(1) + ids_text(set.1)
}

pub open spec fn sets_text(sets: Seq<(Seq<char>, Seq<u64>)>) -> Seq<char> {
    join_seq(sets.map_values(|s: (Seq<char>, Seq<u64>)| set_text(s)), separator(2))
}

/// A pack as (name, query, description, sets), each set being its settings
/// text and its object identifiers.
pub open spec fn pack_text(p: (Seq<char>, Seq<char>, Seq<char>, Seq<(Seq<char>, Seq<u64>)>)) -> Seq<char> {
    join_seq(seq![p.0, p.1, p.2, sets_text(p.3)], separator(3))
}

pub open spec fn packs_text(ps: Seq<(Seq<char>, Seq<char>, Seq<char>, Seq<(Seq<char>, Seq<u64>)>)>) -> Seq<char> {
    join_seq(ps.map_values(|p: (Seq<char>, Seq<char>, Seq<char>, Seq<(Seq<char>, Seq<u64>)>)| pack_text(p)), separator(4))
}

// ---- the reading ----

/// The numbers among the comma-separated `parts`, each trimmed, skipping
/// those that are not a `u64`.
pub open spec fn parsed_ids(parts: Seq<Seq<char>>) -> Seq<u64>
    decreases parts.len(),
{
    if parts.len() == 0 {
        seq![]
    } else {
        let rest = parsed_ids(parts.drop_last());
        match parse_unsigned(trim(parts.last()), u64::MAX as nat) {
            Ok(v) => rest.push(v as u64),
            Err(_) => rest,
        }
    }
}

pub open spec fn read_ids(t: Seq<char>) -> Seq<u64> {
    parsed_ids(split_seq(t, ','))
}

pub open spec fn read_set(t: Seq<char>) -> Option<(Seq<char>, Seq<u64>)> {
    let parts = split_pattern(t, separator(1));
    if parts.len() < 2 {
        None
    } else {
        Some((parts[0], read_ids(parts[1])))
    }
}

pub open spec fn read_sets_of(parts: Seq<Seq<char>>) -> Seq<(Seq<char>, Seq<u64>)>
    decreases parts.len(),
{
    if parts.len() == 0 {
        seq![]
    } else {
        let rest = read_sets_of(parts.drop_last());
        match read_set(parts.last()) {
            Some(s) => rest.push(s),
            None => rest,
        }
    }
}

/// A stored pack read back: name, query, description, and the question
/// sets from the fourth part, which is where `question_pack_to_string`
/// writes them, and not from the third part, the description, which holds
/// none: so a stored pack reads back whole, its sets included.
pub open spec fn read_pack(t: Seq<char>) -> Option<(Seq<char>, Seq<char>, Seq<char>, Seq<(Seq<char>, Seq<u64>)>)> {
    let parts = split_pattern(t, separator(3));
    if parts.len() < 4 {
        None
    } else {
        Some((parts[0], parts[1], parts[2], read_sets_of(split_pattern(parts[3], separator(2)))))
    }
}

pub open spec fn read_packs_of(parts: Seq<Seq<char>>) -> Seq<(Seq<char>, Seq<char>, Seq<char>, Seq<(Seq<char>, Seq<u64>)>)>
    decreases parts.len(),
{
    if parts.len() == 0 {
        seq![]
    } else {
        let rest = read_packs_of(parts.drop_last());
        match read_pack(parts.last()) {
            Some(p) => rest.push(p),
            None => rest,
        }
    }
}

/// The packs read from their stored form: the pieces between `&||||&` that
/// have at least four parts; pieces that do not are skipped.
pub open spec fn read_packs(t: Seq<char>) -> Seq<(Seq<char>, Seq<char>, Seq<char>, Seq<(Seq<char>, Seq<u64>)>)> {
    read_packs_of(split_pattern(t, separator(4)))
}

// ---- when a separator can occur ----

/// Whether the separator of level `k` occurs nowhere in `s`.
pub open spec fn sep_free(s: Seq<char>, k: nat) -> bool {
    forall|i: int| !#[trigger] match_at(s, separator(k), i)
}

/// Whether `s` ends with a `&` followed by `j` bars.
pub open spec fn amp_bars_end(s: Seq<char>, j: nat) -> bool {
    &&& j < s.len()
    &&& s[s.len() - j - 1] == '&'
    &&& forall|t: int| s.len() - j <= t < s.len() ==> #[trigger] s[t] == '|'
}

/// Whether `s` begins with `l` bars that are followed by a `&` or the end of `s`.
pub open spec fn bars_start(s: Seq<char>, l: nat) -> bool {
    &&& l <= s.len()
    &&& forall|t: int| 0 <= t < l ==> #[trigger] s[t] == '|'
    &&& (s.len() == l || s[l as int] == '&')
}

/// Whether `s` is empty or ends with something other than a bar.
pub open spec fn ends_plain(s: Seq<char>) -> bool {
    s.len() == 0 || s.last() != '|'
}

/// Whether a pack's name can be stored and read back: it holds neither the
/// part divider `&|||&` nor the pack divider `&||||&`, and does not end with
/// a `&` and three or four bars, which would make one with the part divider
/// that follows it.
pub open spec fn name_fits(s: Seq<char>) -> bool {
    &&& sep_free(s, 3)
    &&& sep_free(s, 4)
    &&& !amp_bars_end(s, 3)
    &&& !amp_bars_end(s, 4)
}

/// Whether a pack's query or description can be stored and read back: as a
/// name, and besides it does not begin with four bars followed by a `&` or
/// nothing, which would make a pack divider with the part divider before it.
pub open spec fn part_fits(s: Seq<char>) -> bool {
    &&& name_fits(s)
    &&& !bars_start(s, 4)
}

/// Whether the settings text of a question set can be stored and read back:
/// it holds none of the four dividers, ends with no `&` followed by one to
/// four bars, does not begin with four bars followed by a `&` or nothing,
/// and, unless it belongs to the first set of its pack, not with three.
pub open spec fn settings_fit(s: Seq<char>, first: bool) -> bool {
    &&& forall|k: nat| 1 <= k <= 4 ==> #[trigger] sep_free(s, k)
    &&& forall|k: nat| 1 <= k <= 4 ==> !#[trigger] amp_bars_end(s, k)
    &&& !bars_start(s, 4)
    &&& (!first ==> !bars_start(s, 3))
}

proof fn lemma_separator_index(k: nat, t: int)
    requires
        0 <= t < k + 2,
    ensures
        separator(k).len() == k + 2,
        separator(k)[t] == (if t == 0 || t == k + 1 { '&' } else { '|' }),
{
    let p = separator(k);
    if t == 0 {
    } else if t < k + 1 {
        assert(p[t] == Seq::new(k, |_i: int| '|')[t - 1]);
    } else {
        assert(p[t] == seq!['&'][0]);
    }
}

/// A separator that occurs in `a + b` across the place where they meet
/// leaves a `&` and some bars at the end of `a` and the rest of the bars at
/// the start of `b`.
proof fn lemma_match_across(a: Seq<char>, b: Seq<char>, k: nat, i: int)
    requires
        match_at(a + b, separator(k), i),
        i < a.len(),
        i + k + 2 > a.len(),
    ensures
        a.len() - i - 1 <= k,
        amp_bars_end(a, (a.len() - i - 1) as nat),
        bars_start(b, (k - (a.len() - i - 1)) as nat),
{
    let p = separator(k);
    let s = a + b;
    let n = a.len() as int;
    let j = n - i - 1;
    lemma_separator_index(k, 0);
    assert(s.subrange(i, i + k + 2) == p);
    assert forall|t: int| 0 <= t < k + 2 implies #[trigger] s[i + t] == p[t] by {
        assert(s.subrange(i, i + k + 2)[t] == s[i + t]);
    }
    assert(s[i] == p[0]);
    assert(j <= k) by {
        if j > k {
            lemma_separator_index(k, k + 1 as int);
            assert(s[i + k + 1] == '&');
        }
    }
    assert forall|t: int| n - j <= t < n implies #[trigger] a[t] == '|' by {
        lemma_separator_index(k, t - i);
        assert(s[i + (t - i)] == p[t - i]);
        assert(s[t] == a[t]);
    }
    assert(a[n - j - 1] == '&') by {
        assert(s[i] == a[i]);
    }
    let l = k - j;
    assert forall|t: int| 0 <= t < l implies #[trigger] b[t] == '|' by {
        lemma_separator_index(k, n + t - i);
        assert(s[i + (n + t - i)] == p[n + t - i]);
        assert(s[n + t] == b[t]);
    }
    lemma_separator_index(k, k + 1 as int);
    assert(s[i + k + 1] == '&');
    assert(s[n + l] == b[l]);
}

/// A separator occurs in `a + b` only inside `a`, inside `b`, or across
/// their meeting place, after a `&` in `a`.
proof fn lemma_concat_sep_free(a: Seq<char>, b: Seq<char>, k: nat)
    requires
        sep_free(a, k),
        sep_free(b, k),
        forall|j: nat| j <= k ==> !(#[trigger] amp_bars_end(a, j) && bars_start(b, (k - j) as nat)),
    ensures
        sep_free(a + b, k),
{
    let p = separator(k);
    let s = a + b;
    let n = a.len() as int;
    assert forall|i: int| !#[trigger] match_at(s, p, i) by {
        if match_at(s, p, i) {
            lemma_separator_index(k, 0);
            if i + k + 2 <= n {
                assert(s.subrange(i, i + k + 2) =~= a.subrange(i, i + k + 2));
                assert(match_at(a, p, i));
            } else if i >= n {
                assert(s.subrange(i, i + k + 2) =~= b.subrange(i - n, i - n + k + 2));
                assert(match_at(b, p, i - n));
            } else {
                lemma_match_across(a, b, k, i);
                let j = (n - i - 1) as nat;
                assert(amp_bars_end(a, j) && bars_start(b, (k - j) as nat));
            }
        }
    }
}

/// Bars at the start of `a + b` lie in `a`, or fill `a` and go on in `b`.
proof fn lemma_bars_start_concat(a: Seq<char>, b: Seq<char>, l: nat)
    requires
        bars_start(a + b, l),
    ensures
        bars_start(a, l) || (a.len() < l && bars_start(a, a.len() as nat) && bars_start(b, (l - a.len()) as nat)),
{
    let s = a + b;
    if a.len() >= l {
        assert forall|t: int| 0 <= t < l implies #[trigger] a[t] == '|' by {
            assert(s[t] == a[t]);
        }
        if a.len() > l {
            assert(s[l as int] == a[l as int]);
        }
    } else {
        assert forall|t: int| 0 <= t < a.len() implies #[trigger] a[t] == '|' by {
            assert(s[t] == a[t]);
        }
        let m = l - a.len();
        assert forall|t: int| 0 <= t < m implies #[trigger] b[t] == '|' by {
            assert(s[a.len() + t] == b[t]);
        }
        if b.len() > m {
            assert(s[l as int] == b[m as int]);
        }
    }
}

/// A separator of another level holds no separator of level `k`.
proof fn lemma_separator_plain(kp: nat, k: nat)
    requires
        kp != k,
    ensures
        sep_free(separator(kp), k),
{
    let p = separator(kp);
    let q = separator(k);
    lemma_separator_index(kp, 0);
    lemma_separator_index(kp, kp + 1 as int);
    assert forall|i: int| !#[trigger] match_at(p, q, i) by {
        if match_at(p, q, i) {
            lemma_separator_index(k, 0);
            lemma_separator_index(k, k + 1 as int);
            assert(p.subrange(i, i + k + 2)[0] == q[0]);
            assert(p.subrange(i, i + k + 2)[k + 1 as int] == q[k + 1 as int]);
            assert(p[i] == '&');
            assert(p[i + k + 1] == '&');
            if i == 0 {
                if k + 1 < kp + 1 {
                    lemma_separator_index(kp, k + 1 as int);
                }
            } else {
                if i < kp + 1 {
                    lemma_separator_index(kp, i);
                }
            }
        }
    }
}

/// Text without `&` and `|` holds no separator and no bars at its ends.
proof fn lemma_plain_clean(x: Seq<char>, k: nat)
    requires
        !x.contains('&'),
        !x.contains('|'),
        k >= 1,
    ensures
        sep_free(x, k),
        !amp_bars_end(x, k),
        !bars_start(x, k),
        ends_plain(x),
{
    assert forall|i: int| !#[trigger] match_at(x, separator(k), i) by {
        if match_at(x, separator(k), i) {
            lemma_separator_index(k, 0);
            assert(x.subrange(i, i + k + 2)[0] == separator(k)[0]);
            assert(x[i] == '&');
        }
    }
    if amp_bars_end(x, k) {
        assert(x[x.len() - 1] == '|');
    }
    if bars_start(x, k) {
        assert(x[0] == '|');
    }
    if x.len() > 0 {
        assert(x[x.len() - 1] == x.last());
    }
}

/// Text that is empty or ends with something other than a bar does not end
/// with a `&` and bars.
proof fn lemma_ends_plain(x: Seq<char>, m: nat)
    requires
        ends_plain(x),
        m >= 1,
    ensures
        !amp_bars_end(x, m),
{
    if amp_bars_end(x, m) {
        assert(x[x.len() - 1] == '|');
    }
}

/// Pieces joined with a separator begin as their first piece does.
proof fn lemma_join_start(xs: Seq<Seq<char>>, kp: nat, m: nat)
    requires
        xs.len() >= 1,
        m >= 1,
        bars_start(join_seq(xs, separator(kp)), m),
    ensures
        bars_start(xs[0], m),
{
    if xs.len() > 1 {
        let p = separator(kp);
        let pr = p + join_seq(xs.drop_first(), p);
        lemma_separator_index(kp, 0);
        assert(pr[0] == '&');
        assert(join_seq(xs, p) == xs[0] + pr);
        lemma_bars_start_concat(xs[0], pr, m);
    }
}

/// Pieces joined with a separator end plainly when the last one does.
proof fn lemma_join_ends(xs: Seq<Seq<char>>, kp: nat)
    requires
        xs.len() >= 1,
        ends_plain(xs.last()),
    ensures
        ends_plain(join_seq(xs, separator(kp))),
    decreases xs.len(),
{
    if xs.len() > 1 {
        let p = separator(kp);
        let rest = xs.drop_first();
        assert(rest.last() == xs.last());
        lemma_join_ends(rest, kp);
        let r = join_seq(rest, p);
        let s = xs[0] + p + r;
        assert(join_seq(xs, p) == s);
        lemma_separator_index(kp, kp + 1 as int);
        if r.len() > 0 {
            assert(s.last() == r.last());
        } else {
            assert(s.last() == p[p.len() - 1]);
        }
    }
}

/// Pieces joined with a separator of another level hold no separator of
/// level `k` when none holds one, none but the last ends with a `&` and `k`
/// bars, and none but the first begins with `k` bars followed by a `&` or
/// nothing.
proof fn lemma_join_sep_free(xs: Seq<Seq<char>>, kp: nat, k: nat)
    requires
        kp != k,
        k >= 1,
        xs.len() >= 1,
        forall|i: int| 0 <= i < xs.len() ==> sep_free(#[trigger] xs[i], k),
        forall|i: int| 0 <= i < xs.len() - 1 ==> !amp_bars_end(#[trigger] xs[i], k),
        forall|i: int| 1 <= i < xs.len() ==> !bars_start(#[trigger] xs[i], k),
    ensures
        sep_free(join_seq(xs, separator(kp)), k),
    decreases xs.len(),
{
    let p = separator(kp);
    let x = xs[0];
    assert(sep_free(x, k));
    if xs.len() > 1 {
        let rest = xs.drop_first();
        assert forall|i: int| 0 <= i < rest.len() implies sep_free(#[trigger] rest[i], k) by {
            assert(rest[i] == xs[i + 1]);
        }
        assert forall|i: int| 0 <= i < rest.len() - 1 implies !amp_bars_end(#[trigger] rest[i], k) by {
            assert(rest[i] == xs[i + 1]);
        }
        assert forall|i: int| 1 <= i < rest.len() implies !bars_start(#[trigger] rest[i], k) by {
            assert(rest[i] == xs[i + 1]);
        }
        lemma_join_sep_free(rest, kp, k);
        let r = join_seq(rest, p);
        lemma_separator_index(kp, 0);
        lemma_separator_index(kp, kp + 1 as int);
        lemma_separator_plain(kp, k);
        // the separator followed by the rest
        assert(!bars_start(rest[0], k)) by {
            assert(rest[0] == xs[1]);
        }
        assert forall|j: nat| j <= k implies !(#[trigger] amp_bars_end(p, j) && bars_start(r, (k - j) as nat)) by {
            if j >= 1 && amp_bars_end(p, j) {
                assert(p[p.len() - 1] == '|');
            }
            if j == 0 && bars_start(r, k) {
                lemma_join_start(rest, kp, k);
            }
        }
        lemma_concat_sep_free(p, r, k);
        let pr = p + r;
        assert(pr[0] == '&');
        // the first piece followed by the rest
        assert(!amp_bars_end(x, k));
        assert forall|j: nat| j <= k implies !(#[trigger] amp_bars_end(x, j) && bars_start(pr, (k - j) as nat)) by {
            if j < k && bars_start(pr, (k - j) as nat) {
                assert(pr[0] == '|');
            }
        }
        lemma_concat_sep_free(x, pr, k);
        assert(join_seq(xs, p) =~= x + pr);
    }
}

// ---- splitting what was joined ----

/// The separator of level `k` starts nowhere inside `x`, when `x` holds none
/// and does not end with a `&` and `k` bars, and nothing or a `&` follows.
proof fn lemma_no_match_inside(x: Seq<char>, r: Seq<char>, k: nat, i: int)
    requires
        sep_free(x, k),
        !amp_bars_end(x, k),
        0 <= i < x.len(),
        r.len() == 0 || r[0] == '&',
    ensures
        !match_at(x + r, separator(k), i),
{
    let p = separator(k);
    let s = x + r;
    if match_at(s, p, i) {
        lemma_separator_index(k, 0);
        if i + k + 2 <= x.len() {
            assert(s.subrange(i, i + k + 2) =~= x.subrange(i, i + k + 2));
            assert(match_at(x, p, i));
        } else {
            lemma_match_across(x, r, k, i);
            let j = (x.len() - i - 1) as nat;
            if j < k {
                assert(r[0] == '|');
            }
        }
    }
}

proof fn lemma_separator_at_front(r: Seq<char>, k: nat)
    ensures
        match_at(separator(k) + r, separator(k), 0),
        (separator(k) + r).skip(separator(k).len() as int) == r,
{
    let p = separator(k);
    assert((p + r).subrange(0, p.len() as int) =~= p);
    assert((p + r).skip(p.len() as int) =~= r);
}

/// Splitting at a separator gives back the pieces that were joined with it,
/// when no piece holds the separator or ends with a `&` and its bars.
#[verifier::spinoff_prover]
#[verifier::rlimit(40)]
pub proof fn lemma_split_join_separator(xs: Seq<Seq<char>>, k: nat)
    requires
        k >= 1,
        xs.len() >= 1,
        forall|i: int| 0 <= i < xs.len() ==> sep_free(#[trigger] xs[i], k) && !amp_bars_end(xs[i], k),
    ensures
        split_pattern(join_seq(xs, separator(k)), separator(k)) == xs,
    decreases xs.len(),
{
    let p = separator(k);
    let x = xs[0];
    assert(sep_free(x, k) && !amp_bars_end(x, k));
    if xs.len() == 1 {
        let r = Seq::<char>::empty();
        assert forall|i: int| 0 <= i < x.len() implies !#[trigger] match_at(x + r, p, i) by {
            lemma_no_match_inside(x, r, k, i);
        }
        lemma_split_pattern_prefix(x, r, p);
        assert(x + r =~= x);
        assert(split_pattern(r, p) == seq![r]);
        assert(split_pattern(x, p) =~= seq![x]);
        assert(seq![x] =~= xs);
    } else {
        let rest = xs.drop_first();
        assert forall|i: int| 0 <= i < rest.len() implies sep_free(#[trigger] rest[i], k) && !amp_bars_end(rest[i], k) by {
            assert(rest[i] == xs[i + 1]);
        }
        lemma_split_join_separator(rest, k);
        let tail = p + join_seq(rest, p);
        assert(tail[0] == '&');
        assert forall|i: int| 0 <= i < x.len() implies !#[trigger] match_at(x + tail, p, i) by {
            lemma_no_match_inside(x, tail, k, i);
        }
        lemma_split_pattern_prefix(x, tail, p);
        lemma_separator_at_front(join_seq(rest, p), k);
        lemma_split_pattern_len(join_seq(rest, p), p);
        assert(split_pattern(tail, p) == seq![seq![]] + split_pattern(join_seq(rest, p), p));
        assert(join_seq(xs, p) =~= x + tail);
        assert(split_pattern(x + tail, p) =~= seq![x] + rest);
        assert(seq![x] + rest =~= xs);
    }
}

// ---- reading back what was written ----

proof fn lemma_join_without(xs: Seq<Seq<char>>, sep: Seq<char>, c: char)
    requires
        !sep.contains(c),
        forall|i: int| 0 <= i < xs.len() ==> !(#[trigger] xs[i]).contains(c),
    ensures
        !join_seq(xs, sep).contains(c),
    decreases xs.len(),
{
    if xs.len() > 1 {
        let rest = xs.drop_first();
        assert forall|i: int| 0 <= i < rest.len() implies !(#[trigger] rest[i]).contains(c) by {
            assert(rest[i] == xs[i + 1]);
        }
        lemma_join_without(rest, sep, c);
        let s = xs[0] + sep + join_seq(rest, sep);
        assert(!xs[0].contains(c));
        if s.contains(c) {
            let j = choose|j: int| 0 <= j < s.len() && s[j] == c;
            if j < xs[0].len() {
                assert(xs[0][j] == c);
            } else if j < xs[0].len() + sep.len() {
                assert(sep[j - xs[0].len()] == c);
            } else {
                assert(join_seq(rest, sep)[j - xs[0].len() - sep.len()] == c);
            }
        }
    } else if xs.len() == 1 {
        assert(!xs[0].contains(c));
    }
}

proof fn lemma_decimal_plain(n: nat)
    ensures
        !decimal(n).contains('|'),
        !decimal(n).contains('&'),
        !decimal(n).contains(','),
        trim(decimal(n)) == decimal(n),
{
    lemma_decimal_digits(n);
    let d = decimal(n);
    if d.contains('|') {
        let j = choose|j: int| 0 <= j < d.len() && d[j] == '|';
        assert(is_ascii_digit(d[j]));
    }
    if d.contains('&') {
        let j = choose|j: int| 0 <= j < d.len() && d[j] == '&';
        assert(is_ascii_digit(d[j]));
    }
    if d.contains(',') {
        let j = choose|j: int| 0 <= j < d.len() && d[j] == ',';
        assert(is_ascii_digit(d[j]));
    }
    assert(is_ascii_digit(d[0]));
    assert(is_ascii_digit(d.last()));
    assert(!spec_is_whitespace(d[0]));
    assert(!spec_is_whitespace(d.last()));
    assert(crate::text::trim_start(d) == d);
    assert(crate::text::trim_end(d) == d);
}

proof fn lemma_parsed_decimals(ids: Seq<u64>)
    ensures
        parsed_ids(ids.map_values(|n: u64| decimal(n as nat))) == ids,
    decreases ids.len(),
{
    if ids.len() > 0 {
        let ds = ids.map_values(|n: u64| decimal(n as nat));
        lemma_parsed_decimals(ids.drop_last());
        assert(ds.drop_last() =~= ids.drop_last().map_values(|n: u64| decimal(n as nat)));
        let n = ids.last();
        assert(ds.last() == decimal(n as nat));
        lemma_decimal_plain(n as nat);
        lemma_parse_decimal(n as nat, u64::MAX as nat);
        assert(ids.drop_last().push(n) =~= ids);
    }
}

/// The identifiers written are the identifiers read, and their text holds
/// neither `&` nor `|`.
proof fn lemma_read_ids(ids: Seq<u64>)
    ensures
        read_ids(ids_text(ids)) == ids,
        !ids_text(ids).contains('|'),
        !ids_text(ids).contains('&'),
{
    let ds = ids.map_values(|n: u64| decimal(n as nat));
    assert forall|i: int| 0 <= i < ds.len() implies !(#[trigger] ds[i]).contains('|') && !ds[i].contains('&')
        && !ds[i].contains(',') by {
        lemma_decimal_plain(ids[i] as nat);
    }
    assert(!seq![','].contains('|')) by {
        if seq![','].contains('|') {
            let j = choose|j: int| 0 <= j < 1 && seq![','][j] == '|';
        }
    }
    assert(!seq![','].contains('&')) by {
        if seq![','].contains('&') {
            let j = choose|j: int| 0 <= j < 1 && seq![','][j] == '&';
        }
    }
    lemma_join_without(ds, seq![','], '|');
    lemma_join_without(ds, seq![','], '&');
    if ids.len() == 0 {
        assert(ids_text(ids) =~= Seq::<char>::empty());
        assert(split_seq(Seq::<char>::empty(), ',') == seq![Seq::<char>::empty()]);
        assert(trim(Seq::<char>::empty()) =~= Seq::<char>::empty()) by {
            assert(crate::text::trim_start(Seq::<char>::empty()) == Seq::<char>::empty());
            assert(crate::text::trim_end(Seq::<char>::empty()) == Seq::<char>::empty());
        }
        let parts = seq![Seq::<char>::empty()];
        assert(parts.drop_last() =~= Seq::<Seq<char>>::empty());
        assert(parts.last() == Seq::<char>::empty());
        assert(parse_unsigned(Seq::<char>::empty(), u64::MAX as nat) is Err);
        assert(parsed_ids(parts.drop_last()) == Seq::<u64>::empty());
        assert(parsed_ids(parts) =~= Seq::<u64>::empty());
        assert(ids =~= Seq::<u64>::empty());
    } else {
        lemma_split_join(ds, ',');
        lemma_parsed_decimals(ids);
        assert(split_seq(ids_text(ids), ',') == ds);
    }
}

proof fn lemma_set_parts(set: (Seq<char>, Seq<u64>))
    ensures
        join_seq(seq![set.0, ids_text(set.1)], separator(1)) == set_text(set),
{
    let parts = seq![set.0, ids_text(set.1)];
    assert(parts.drop_first() =~= seq![ids_text(set.1)]);
    assert(join_seq(parts.drop_first(), separator(1)) == ids_text(set.1));
    assert(join_seq(parts, separator(1)) == parts[0] + separator(1) + join_seq(parts.drop_first(), separator(1)));
}

/// A set written is the set read; its text holds no separator of the levels
/// above, ends plainly, and begins as its settings do.
proof fn lemma_read_set(set: (Seq<char>, Seq<u64>), first: bool)
    requires
        settings_fit(set.0, first),
    ensures
        read_set(set_text(set)) == Some(set),
        forall|k: nat| 2 <= k <= 4 ==> #[trigger] sep_free(set_text(set), k),
        ends_plain(set_text(set)),
        !bars_start(set_text(set), 4),
        !first ==> !bars_start(set_text(set), 3),
{
    lemma_read_ids(set.1);
    let ids = ids_text(set.1);
    let parts = seq![set.0, ids];
    lemma_set_parts(set);
    assert(sep_free(set.0, 1) && !amp_bars_end(set.0, 1));
    lemma_plain_clean(ids, 1);
    assert forall|i: int| 0 <= i < parts.len() implies sep_free(#[trigger] parts[i], 1) && !amp_bars_end(parts[i], 1) by {}
    lemma_split_join_separator(parts, 1);
    assert forall|k: nat| 2 <= k <= 4 implies #[trigger] sep_free(set_text(set), k) by {
        assert(sep_free(set.0, k));
        assert(!amp_bars_end(set.0, k));
        lemma_plain_clean(ids, k);
        assert forall|i: int| 0 <= i < parts.len() implies sep_free(#[trigger] parts[i], k) by {}
        assert forall|i: int| 0 <= i < parts.len() - 1 implies !amp_bars_end(#[trigger] parts[i], k) by {}
        assert forall|i: int| 1 <= i < parts.len() implies !bars_start(#[trigger] parts[i], k) by {}
        lemma_join_sep_free(parts, 1, k);
    }
    lemma_plain_clean(ids, 1);
    assert(parts.last() == ids);
    lemma_join_ends(parts, 1);
    if bars_start(set_text(set), 4) {
        lemma_join_start(parts, 1, 4);
    }
    if !first && bars_start(set_text(set), 3) {
        lemma_join_start(parts, 1, 3);
    }
}

proof fn lemma_read_sets_of(sets: Seq<(Seq<char>, Seq<u64>)>)
    requires
        forall|i: int| 0 <= i < sets.len() ==> settings_fit((#[trigger] sets[i]).0, i == 0),
    ensures
        read_sets_of(sets.map_values(|s: (Seq<char>, Seq<u64>)| set_text(s))) == sets,
    decreases sets.len(),
{
    if sets.len() > 0 {
        let ts = sets.map_values(|s: (Seq<char>, Seq<u64>)| set_text(s));
        let init = sets.drop_last();
        assert forall|i: int| 0 <= i < init.len() implies settings_fit((#[trigger] init[i]).0, i == 0) by {
            assert(init[i] == sets[i]);
        }
        lemma_read_sets_of(init);
        assert(ts.drop_last() =~= init.map_values(|s: (Seq<char>, Seq<u64>)| set_text(s)));
        let last = sets.len() - 1;
        assert(settings_fit(sets[last].0, last == 0));
        lemma_read_set(sets.last(), last == 0);
        assert(init.push(sets.last()) =~= sets);
    }
}

/// The sets written are the sets read; their text holds no separator of
/// levels 3 and 4, ends plainly, and does not begin with four bars and a `&`.
proof fn lemma_read_sets(sets: Seq<(Seq<char>, Seq<u64>)>)
    requires
        forall|i: int| 0 <= i < sets.len() ==> settings_fit((#[trigger] sets[i]).0, i == 0),
    ensures
        read_sets_of(split_pattern(sets_text(sets), separator(2))) == sets,
        sep_free(sets_text(sets), 3),
        sep_free(sets_text(sets), 4),
        ends_plain(sets_text(sets)),
        !bars_start(sets_text(sets), 4),
{
    let ts = sets.map_values(|s: (Seq<char>, Seq<u64>)| set_text(s));
    assert forall|i: int| 0 <= i < ts.len() implies sep_free(#[trigger] ts[i], 2) && sep_free(ts[i], 3) && sep_free(
        ts[i],
        4,
    ) && ends_plain(ts[i]) && !bars_start(ts[i], 4) && (i != 0 ==> !bars_start(ts[i], 3)) by {
        assert(settings_fit(sets[i].0, i == 0));
        lemma_read_set(sets[i], i == 0);
    }
    if sets.len() == 0 {
        let e = Seq::<char>::empty();
        assert(sets_text(sets) =~= e);
        assert(split_pattern(e, separator(2)) == seq![e]);
        assert(split_pattern(e, separator(1)) == seq![e]);
        assert(read_set(e) is None);
        let parts = seq![e];
        assert(parts.drop_last() =~= Seq::<Seq<char>>::empty());
        assert(parts.last() == e);
        assert(read_sets_of(parts.drop_last()) == Seq::<(Seq<char>, Seq<u64>)>::empty());
        assert(read_sets_of(parts) =~= Seq::<(Seq<char>, Seq<u64>)>::empty());
        assert(sets =~= Seq::<(Seq<char>, Seq<u64>)>::empty());
        lemma_plain_clean(e, 3);
        lemma_plain_clean(e, 4);
    } else {
        assert forall|i: int| 0 <= i < ts.len() implies sep_free(#[trigger] ts[i], 2) && !amp_bars_end(ts[i], 2) by {
            lemma_ends_plain(ts[i], 2);
        }
        lemma_split_join_separator(ts, 2);
        assert(sets_text(sets) == join_seq(ts, separator(2)));
        lemma_read_sets_of(sets);
        assert forall|k: nat| 3 <= k <= 4 implies #[trigger] sep_free(join_seq(ts, separator(2)), k) by {
            assert forall|i: int| 0 <= i < ts.len() implies sep_free(#[trigger] ts[i], k) by {}
            assert forall|i: int| 0 <= i < ts.len() - 1 implies !amp_bars_end(#[trigger] ts[i], k) by {
                lemma_ends_plain(ts[i], k);
            }
            assert forall|i: int| 1 <= i < ts.len() implies !bars_start(#[trigger] ts[i], k) by {}
            lemma_join_sep_free(ts, 2, k);
        }
        assert(sep_free(join_seq(ts, separator(2)), 3));
        assert(sep_free(join_seq(ts, separator(2)), 4));
        assert(ts.last() == ts[ts.len() - 1]);
        lemma_join_ends(ts, 2);
        if bars_start(sets_text(sets), 4) {
            lemma_join_start(ts, 2, 4);
        }
    }
}

/// Whether every text that a pack holds can be stored and read back: its
/// name, its query and description, and the settings of each of its sets.
pub open spec fn pack_fits(p: (Seq<char>, Seq<char>, Seq<char>, Seq<(Seq<char>, Seq<u64>)>)) -> bool {
    &&& name_fits(p.0)
    &&& part_fits(p.1)
    &&& part_fits(p.2)
    &&& forall|i: int| 0 <= i < p.3.len() ==> settings_fit((#[trigger] p.3[i]).0, i == 0)
}

proof fn lemma_read_pack(p: (Seq<char>, Seq<char>, Seq<char>, Seq<(Seq<char>, Seq<u64>)>))
    requires
        pack_fits(p),
    ensures
        read_pack(pack_text(p)) == Some(p),
        sep_free(pack_text(p), 4),
        ends_plain(pack_text(p)),
{
    lemma_read_sets(p.3);
    let parts = seq![p.0, p.1, p.2, sets_text(p.3)];
    lemma_ends_plain(sets_text(p.3), 3);
    assert forall|i: int| 0 <= i < parts.len() implies sep_free(#[trigger] parts[i], 3) && !amp_bars_end(parts[i], 3) by {}
    lemma_split_join_separator(parts, 3);
    assert forall|i: int| 0 <= i < parts.len() implies sep_free(#[trigger] parts[i], 4) by {}
    assert forall|i: int| 0 <= i < parts.len() - 1 implies !amp_bars_end(#[trigger] parts[i], 4) by {}
    assert forall|i: int| 1 <= i < parts.len() implies !bars_start(#[trigger] parts[i], 4) by {}
    lemma_join_sep_free(parts, 3, 4);
    assert(parts.last() == sets_text(p.3));
    lemma_join_ends(parts, 3);
}

proof fn lemma_read_packs_of(ps: Seq<(Seq<char>, Seq<char>, Seq<char>, Seq<(Seq<char>, Seq<u64>)>)>)
    requires
        forall|i: int| 0 <= i < ps.len() ==> pack_fits(#[trigger] ps[i]),
    ensures
        read_packs_of(ps.map_values(|p: (Seq<char>, Seq<char>, Seq<char>, Seq<(Seq<char>, Seq<u64>)>)| pack_text(p)))
            == ps,
    decreases ps.len(),
{
    if ps.len() > 0 {
        let ts = ps.map_values(|p: (Seq<char>, Seq<char>, Seq<char>, Seq<(Seq<char>, Seq<u64>)>)| pack_text(p));
        let init = ps.drop_last();
        assert forall|i: int| 0 <= i < init.len() implies pack_fits(#[trigger] init[i]) by {
            assert(init[i] == ps[i]);
        }
        lemma_read_packs_of(init);
        assert(ts.drop_last() =~= init.map_values(
            |p: (Seq<char>, Seq<char>, Seq<char>, Seq<(Seq<char>, Seq<u64>)>)| pack_text(p),
        ));
        assert(pack_fits(ps[ps.len() - 1]));
        lemma_read_pack(ps.last());
        assert(init.push(ps.last()) =~= ps);
    }
}

/// Reading the stored packs gives back the packs that were stored, in
/// order, when every text they hold can be stored and read back: no name,
/// query, description or settings text holds a divider that the reading
/// splits at, or makes one with the divider that follows or precedes it.
pub proof fn lemma_read_back_packs(ps: Seq<(Seq<char>, Seq<char>, Seq<char>, Seq<(Seq<char>, Seq<u64>)>)>)
    requires
        forall|i: int| 0 <= i < ps.len() ==> pack_fits(#[trigger] ps[i]),
    ensures
        read_packs(packs_text(ps)) == ps,
{
    let ts = ps.map_values(|p: (Seq<char>, Seq<char>, Seq<char>, Seq<(Seq<char>, Seq<u64>)>)| pack_text(p));
    assert forall|i: int| 0 <= i < ts.len() implies sep_free(#[trigger] ts[i], 4) && !amp_bars_end(ts[i], 4) by {
        lemma_read_pack(ps[i]);
        lemma_ends_plain(ts[i], 4);
    }
    if ps.len() == 0 {
        let e = Seq::<char>::empty();
        assert(packs_text(ps) =~= e);
        assert(split_pattern(e, separator(4)) == seq![e]);
        assert(split_pattern(e, separator(3)) == seq![e]);
        assert(read_pack(e) is None);
        let parts = seq![e];
        assert(parts.drop_last() =~= Seq::<Seq<char>>::empty());
        assert(parts.last() == e);
        assert(read_packs_of(parts.drop_last()) == Seq::<(Seq<char>, Seq<char>, Seq<char>, Seq<(Seq<char>, Seq<u64>)>)>::empty());
        assert(read_packs_of(parts) =~= Seq::<(Seq<char>, Seq<char>, Seq<char>, Seq<(Seq<char>, Seq<u64>)>)>::empty());
        assert(ps =~= Seq::<(Seq<char>, Seq<char>, Seq<char>, Seq<(Seq<char>, Seq<u64>)>)>::empty());
    } else {
        lemma_split_join_separator(ts, 4);
        assert(packs_text(ps) == join_seq(ts, separator(4)));
        lemma_read_packs_of(ps);
    }
}

// ---- the packs in memory ----

/// A question set as stored: the settings of its question type (JSON text)
/// and the identifiers of the objects it asks about.
pub struct StoredQuestionSet {
    pub settings: String,
    pub object_ids: Vec<u64>,
}

/// A question pack as stored.
pub struct StoredQuestionPack {
    pub name: String,
    pub query: String,
    pub description: String,
    pub sets: Vec<StoredQuestionSet>,
}

pub open spec fn set_view(s: StoredQuestionSet) -> (Seq<char>, Seq<u64>) {
    (s.settings@, s.object_ids@)
}

pub open spec fn pack_view(p: StoredQuestionPack) -> (Seq<char>, Seq<char>, Seq<char>, Seq<(Seq<char>, Seq<u64>)>) {
    (p.name@, p.query@, p.description@, p.sets@.map_values(|s: StoredQuestionSet| set_view(s)))
}

pub open spec fn packs_view(ps: Seq<StoredQuestionPack>) -> Seq<(Seq<char>, Seq<char>, Seq<char>, Seq<(Seq<char>, Seq<u64>)>)> {
    ps.map_values(|p: StoredQuestionPack| pack_view(p))
}

proof fn lemma_separator_texts()
    ensures
        "&|&"@ == separator(1),
        "&||&"@ == separator(2),
        "&|||&"@ == separator(3),
        "&||||&"@ == separator(4),
        ","@ == seq![','],
{
    reveal_strlit("&|&");
    reveal_strlit("&||&");
    reveal_strlit("&|||&");
    reveal_strlit("&||||&");
    reveal_strlit(",");
    assert("&|&"@ =~= separator(1));
    assert("&||&"@ =~= separator(2));
    assert("&|||&"@ =~= separator(3));
    assert("&||||&"@ =~= separator(4));
    assert(","@ =~= seq![',']);
}

fn ids_to_string(ids: &[u64]) -> (r: String)
    ensures
        r@ == ids_text(ids@),
{
    let mut parts: Vec<String> = Vec::new();
    let mut k: usize = 0;
    while k < ids.len()
        invariant
            k <= ids@.len(),
            parts@.map_values(|p: String| p@) == ids@.take(k as int).map_values(|n: u64| decimal(n as nat)),
        decreases ids@.len() - k,
    {
        let ghost before = parts@;
        let d = u64_to_decimal(ids[k]);
        parts.push(d);
        assert(parts@.map_values(|p: String| p@) =~= before.map_values(|p: String| p@).push(d@));
        assert(ids@.take(k + 1).map_values(|n: u64| decimal(n as nat)) =~= ids@.take(k as int).map_values(
            |n: u64| decimal(n as nat),
        ).push(decimal(ids@[k as int] as nat)));
        k = k + 1;
    }
    assert(ids@.take(k as int) =~= ids@);
    proof {
        lemma_separator_texts();
    }
    join_with(parts.as_slice(), ",")
}

fn set_to_string(set: &StoredQuestionSet) -> (r: String)
    ensures
        r@ == set_text(set_view(*set)),
{
    proof {
        lemma_separator_texts();
    }
    let mut r = set.settings.clone();
    r.append("&|&");
    r.append(ids_to_string(set.object_ids.as_slice()).as_str());
    r
}

/// The stored form of one pack: its name, query, description and sets
/// joined by `&|||&`, the sets joined by `&||&`.
pub fn question_pack_to_string(pack: &StoredQuestionPack) -> (r: String)
    ensures
        r@ == pack_text(pack_view(*pack)),
{
    proof {
        lemma_separator_texts();
    }
    let ghost sv = pack.sets@.map_values(|s: StoredQuestionSet| set_view(s));
    let mut set_texts: Vec<String> = Vec::new();
    let mut k: usize = 0;
    while k < pack.sets.len()
        invariant
            k <= pack.sets@.len() == sv.len(),
            sv == pack.sets@.map_values(|s: StoredQuestionSet| set_view(s)),
            set_texts@.map_values(|p: String| p@) == sv.take(k as int).map_values(
                |s: (Seq<char>, Seq<u64>)| set_text(s),
            ),
        decreases pack.sets@.len() - k,
    {
        let ghost before = set_texts@;
        let t = set_to_string(&pack.sets[k]);
        set_texts.push(t);
        assert(sv[k as int] == set_view(pack.sets@[k as int]));
        assert(set_texts@.map_values(|p: String| p@) =~= before.map_values(|p: String| p@).push(t@));
        assert(sv.take(k + 1).map_values(|s: (Seq<char>, Seq<u64>)| set_text(s)) =~= sv.take(k as int).map_values(
            |s: (Seq<char>, Seq<u64>)| set_text(s),
        ).push(set_text(sv[k as int])));
        k = k + 1;
    }
    assert(sv.take(k as int) =~= sv);
    let sets = join_with(set_texts.as_slice(), "&||&");
    let parts: Vec<String> = vec![pack.name.clone(), pack.query.clone(), pack.description.clone(), sets];
    assert(parts@.map_values(|p: String| p@) =~= seq![pack.name@, pack.query@, pack.description@, sets_text(sv)]);
    join_with(parts.as_slice(), "&|||&")
}

/// The stored form of the packs: each pack's stored form, joined by `&||||&`.
pub fn question_packs_to_string(packs: &[StoredQuestionPack]) -> (r: String)
    ensures
        r@ == packs_text(packs_view(packs@)),
{
    proof {
        lemma_separator_texts();
    }
    let ghost pv = packs_view(packs@);
    let mut texts: Vec<String> = Vec::new();
    let mut k: usize = 0;
    while k < packs.len()
        invariant
            k <= packs@.len() == pv.len(),
            pv == packs_view(packs@),
            texts@.map_values(|p: String| p@) == pv.take(k as int).map_values(
                |p: (Seq<char>, Seq<char>, Seq<char>, Seq<(Seq<char>, Seq<u64>)>)| pack_text(p),
            ),
        decreases packs@.len() - k,
    {
        let ghost before = texts@;
        let t = question_pack_to_string(&packs[k]);
        texts.push(t);
        assert(pv[k as int] == pack_view(packs@[k as int]));
        assert(texts@.map_values(|p: String| p@) =~= before.map_values(|p: String| p@).push(t@));
        assert(pv.take(k + 1).map_values(
            |p: (Seq<char>, Seq<char>, Seq<char>, Seq<(Seq<char>, Seq<u64>)>)| pack_text(p),
        ) =~= pv.take(k as int).map_values(
            |p: (Seq<char>, Seq<char>, Seq<char>, Seq<(Seq<char>, Seq<u64>)>)| pack_text(p),
        ).push(pack_text(pv[k as int])));
        k = k + 1;
    }
    assert(pv.take(k as int) =~= pv);
    join_with(texts.as_slice(), "&||||&")
}

fn read_ids_from(t: &str) -> (r: Vec<u64>)
    ensures
        r@ == read_ids(t@),
{
    let parts = split_on(t, ',');
    let ghost ps = parts@.map_values(|p: String| p@);
    let mut ids: Vec<u64> = Vec::new();
    let mut k: usize = 0;
    while k < parts.len()
        invariant
            k <= parts@.len() == ps.len(),
            ps == parts@.map_values(|p: String| p@),
            ps == split_seq(t@, ','),
            ids@ == parsed_ids(ps.take(k as int)),
        decreases parts@.len() - k,
    {
        assert(ps.take(k + 1).drop_last() =~= ps.take(k as int));
        assert(ps.take(k + 1).last() == parts@[k as int]@);
        let trimmed = trim_str(parts[k].as_str());
        let cs = chars_of(trimmed.as_str());
        match parse_unsigned_upto(cs.as_slice(), 18446744073709551615u64) {
            Ok(v) => {
                ids.push(v);
            },
            Err(_) => {},
        }
        k = k + 1;
    }
    assert(ps.take(k as int) =~= ps);
    ids
}

fn read_set_from(t: &str) -> (r: Option<StoredQuestionSet>)
    ensures
        match r {
            Some(s) => read_set(t@) == Some(set_view(s)),
            None => read_set(t@) is None,
        },
{
    proof {
        lemma_separator_texts();
    }
    let cs = chars_of(t);
    let sep = chars_of("&|&");
    let parts = split_on_pattern(cs.as_slice(), sep.as_slice());
    let ghost ps = parts@.map_values(|p: String| p@);
    if parts.len() < 2 {
        return None;
    }
    assert(ps[0] == parts@[0]@ && ps[1] == parts@[1]@);
    let object_ids = read_ids_from(parts[1].as_str());
    Some(StoredQuestionSet { settings: parts[0].clone(), object_ids })
}

fn read_sets_from(t: &str) -> (r: Vec<StoredQuestionSet>)
    ensures
        r@.map_values(|s: StoredQuestionSet| set_view(s)) == read_sets_of(split_pattern(t@, separator(2))),
{
    proof {
        lemma_separator_texts();
    }
    let cs = chars_of(t);
    let sep = chars_of("&||&");
    let parts = split_on_pattern(cs.as_slice(), sep.as_slice());
    let ghost ps = parts@.map_values(|p: String| p@);
    let mut sets: Vec<StoredQuestionSet> = Vec::new();
    let mut k: usize = 0;
    while k < parts.len()
        invariant
            k <= parts@.len() == ps.len(),
            ps == parts@.map_values(|p: String| p@),
            sets@.map_values(|s: StoredQuestionSet| set_view(s)) == read_sets_of(ps.take(k as int)),
        decreases parts@.len() - k,
    {
        assert(ps.take(k + 1).drop_last() =~= ps.take(k as int));
        assert(ps.take(k + 1).last() == parts@[k as int]@);
        let ghost before = sets@;
        match read_set_from(parts[k].as_str()) {
            Some(set) => {
                sets.push(set);
                assert(sets@.map_values(|s: StoredQuestionSet| set_view(s)) =~= before.map_values(
                    |s: StoredQuestionSet| set_view(s),
                ).push(set_view(set)));
            },
            None => {},
        }
        k = k + 1;
    }
    assert(ps.take(k as int) =~= ps);
    sets
}

fn read_pack_from(t: &str) -> (r: Option<StoredQuestionPack>)
    ensures
        match r {
            Some(p) => read_pack(t@) == Some(pack_view(p)),
            None => read_pack(t@) is None,
        },
{
    proof {
        lemma_separator_texts();
    }
    let cs = chars_of(t);
    let sep = chars_of("&|||&");
    let parts = split_on_pattern(cs.as_slice(), sep.as_slice());
    let ghost ps = parts@.map_values(|p: String| p@);
    if parts.len() < 4 {
        return None;
    }
    assert(ps[0] == parts@[0]@ && ps[1] == parts@[1]@ && ps[2] == parts@[2]@ && ps[3] == parts@[3]@);
    let sets = read_sets_from(parts[3].as_str());
    Some(StoredQuestionPack {
        name: parts[0].clone(),
        query: parts[1].clone(),
        description: parts[2].clone(),
        sets,
    })
}

/// The packs read from their stored form `s`: each piece between
/// `&||||&` with at least four parts is a pack, and each piece of its sets
/// part with at least two parts a set; the object identifiers are the
/// comma-separated pieces that read as numbers once trimmed.
pub fn question_packs_from_string(s: &str) -> (r: Vec<StoredQuestionPack>)
    ensures
        packs_view(r@) == read_packs(s@),
{
    proof {
        lemma_separator_texts();
    }
    let cs = chars_of(s);
    let sep = chars_of("&||||&");
    let parts = split_on_pattern(cs.as_slice(), sep.as_slice());
    let ghost ps = parts@.map_values(|p: String| p@);
    let mut packs: Vec<StoredQuestionPack> = Vec::new();
    let mut k: usize = 0;
    while k < parts.len()
        invariant
            k <= parts@.len() == ps.len(),
            ps == parts@.map_values(|p: String| p@),
            packs_view(packs@) == read_packs_of(ps.take(k as int)),
        decreases parts@.len() - k,
    {
        assert(ps.take(k + 1).drop_last() =~= ps.take(k as int));
        assert(ps.take(k + 1).last() == parts@[k as int]@);
        let ghost before = packs@;
        match read_pack_from(parts[k].as_str()) {
            Some(p) => {
                packs.push(p);
                assert(packs_view(packs@) =~= packs_view(before).push(pack_view(p)));
            },
            None => {},
        }
        k = k + 1;
    }
    assert(ps.take(k as int) =~= ps);
    packs
}

// ---- adding the default packs ----

/// Named packs as the names' characters and the packs.
pub open spec fn named_view<P>(v: Seq<(String, P)>) -> Seq<(Seq<char>, P)> {
    v.map_values(|e: (String, P)| (e.0@, e.1))
}

/// Whether a pack called `name` is among `packs`.
pub open spec fn has_pack_named<P>(packs: Seq<(Seq<char>, P)>, name: Seq<char>) -> bool {
    exists|i: int| 0 <= i < packs.len() && (#[trigger] packs[i]).0 == name
}

/// `packs` with each of `defaults`, in order, added when no pack of its name
/// is there yet (a default whose name an earlier default took is skipped too).
pub open spec fn with_defaults<P>(packs: Seq<(Seq<char>, P)>, defaults: Seq<(Seq<char>, P)>) -> Seq<(Seq<char>, P)>
    decreases defaults.len(),
{
    if defaults.len() == 0 {
        packs
    } else {
        let next = if has_pack_named(packs, defaults[0].0) {
            packs
        } else {
            packs.push(defaults[0])
        };
        with_defaults(next, defaults.drop_first())
    }
}

/// Adding defaults keeps the packs there, and afterwards a pack of each
/// default's name is there.
pub proof fn lemma_with_defaults<P>(packs: Seq<(Seq<char>, P)>, defaults: Seq<(Seq<char>, P)>)
    ensures
        with_defaults(packs, defaults).len() >= packs.len(),
        with_defaults(packs, defaults).take(packs.len() as int) == packs,
        forall|i: int| 0 <= i < defaults.len() ==> has_pack_named(with_defaults(packs, defaults), #[trigger] defaults[i].0),
        forall|n: Seq<char>| has_pack_named(packs, n) ==> has_pack_named(with_defaults(packs, defaults), n),
    decreases defaults.len(),
{
    if defaults.len() > 0 {
        let d = defaults[0];
        let next = if has_pack_named(packs, d.0) {
            packs
        } else {
            packs.push(d)
        };
        let rest = defaults.drop_first();
        lemma_with_defaults(next, rest);
        let r = with_defaults(next, rest);
        assert(r == with_defaults(packs, defaults));
        assert(r.take(packs.len() as int) =~= packs) by {
            assert forall|i: int| 0 <= i < packs.len() implies r[i] == packs[i] by {
                assert(r.take(next.len() as int)[i] == next[i]);
            }
        }
        assert forall|n: Seq<char>| has_pack_named(packs, n) implies has_pack_named(next, n) by {
            let i = choose|i: int| 0 <= i < packs.len() && (#[trigger] packs[i]).0 == n;
            assert(next[i] == packs[i]);
        }
        assert(has_pack_named(next, d.0)) by {
            if !has_pack_named(packs, d.0) {
                assert(next[packs.len() as int] == d);
            }
        }
        assert forall|i: int| 0 <= i < defaults.len() implies has_pack_named(r, #[trigger] defaults[i].0) by {
            if i > 0 {
                assert(defaults[i] == rest[i - 1]);
            }
        }
    }
}

/// Whether a pack called `name` is among `packs`.
fn has_pack<P>(packs: &Vec<(String, P)>, name: &str) -> (r: bool)
    ensures
        r == has_pack_named(named_view(packs@), name@),
{
    let ghost v = named_view(packs@);
    let mut k: usize = 0;
    while k < packs.len()
        invariant
            k <= packs@.len(),
            v == named_view(packs@),
            forall|i: int| 0 <= i < k ==> (#[trigger] v[i]).0 != name@,
        decreases packs@.len() - k,
    {
        if str_eq(packs[k].0.as_str(), name) {
            assert(v[k as int].0 == name@);
            return true;
        }
        k = k + 1;
    }
    false
}

/// Adds the default packs: each default, in order, that has no pack of its
/// name among the packs yet. Packs that are there already stay as they are.
pub fn add_default_packs<P>(packs: &mut Vec<(String, P)>, defaults: Vec<(String, P)>)
    ensures
        named_view(final(packs)@) == with_defaults(named_view(old(packs)@), named_view(defaults@)),
{
    let ghost goal = with_defaults(named_view(packs@), named_view(defaults@));
    let mut rest = defaults;
    while rest.len() > 0
        invariant
            goal == with_defaults(named_view(packs@), named_view(rest@)),
        decreases rest@.len(),
    {
        let ghost before = packs@;
        let ghost r = rest@;
        let d = rest.remove(0);
        assert(named_view(rest@) =~= named_view(r).drop_first());
        assert(named_view(r)[0] == (d.0@, d.1));
        if !has_pack(packs, d.0.as_str()) {
            packs.push(d);
            assert(named_view(packs@) =~= named_view(before).push((d.0@, d.1)));
        }
    }
    assert(named_view(rest@) =~= Seq::<(Seq<char>, P)>::empty());
}

} // verus!

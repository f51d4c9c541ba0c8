//! Expansion of designations with optional parts: `1{ 2}{ 3}` stands for
//! `1`, `1 2`, `1 3` and `1 2 3`.

use vstd::prelude::*;
use vstd::string::StringExecFns;
use vstd::string::StringSliceAdditionalSpecFns;
use vstd::utf8::*;
use crate::text::{trim, trim_str};

verus! {

broadcast use vstd::string::group_string_axioms;

/// Which of the name variants to produce.
#[derive(Clone, Copy, PartialEq, Eq, Structural, Debug)]
pub enum SpecificName {
    /// Gives back all name combinations
    AllCombinations,
    /// Gives back only the name without any optional parts
    NoOptional,
    /// Gives back only the name with all optional parts
    AllOptional,
}

/// One optional part `{...}` found in a name: the byte offsets of the whole
/// part, braces included, and of the text inside the braces.
#[derive(Clone, Copy, Debug)]
pub struct BraceMatch {
    pub start: usize,
    pub end: usize,
    pub inner: Option<(usize, usize)>,
}

/// The offset of the first `}` in `s` at or after character `i`, if any.
pub open spec fn next_close(s: Seq<char>, i: int) -> Option<int>
    decreases s.len() - i,
{
    if i < 0 || i >= s.len() {
        None
    } else if s[i] == '}' {
        Some(i)
    } else {
        next_close(s, i + 1)
    }
}

pub proof fn lemma_next_close(s: Seq<char>, i: int)
    requires
        0 <= i,
    ensures
        next_close(s, i) matches Some(j) ==> i <= j < s.len() && s[j] == '}' && forall|k: int| i <= k < j ==> s[k] != '}',
        next_close(s, i) is None ==> forall|k: int| i <= k < s.len() ==> s[k] != '}',
    decreases s.len() - i,
{
    if 0 <= i < s.len() && s[i] != '}' {
        lemma_next_close(s, i + 1);
    }
}

/// The matches of the pattern `\{([^}]+)\}` in `s` from character `i` on,
/// as character ranges: leftmost first and without overlap, each a `{`, at
/// least one character other than `}`, and the first `}` after them.
pub open spec fn brace_spans(s: Seq<char>, i: int) -> Seq<(int, int)>
    decreases s.len() - i,
{
    if i < 0 || i >= s.len() {
        seq![]
    } else if s[i] == '{' && i + 1 < s.len() && s[i + 1] != '}' && next_close(s, i + 1) is Some {
        let j = next_close(s, i + 1)->0;
        proof {
            lemma_next_close(s, i + 1);
        }
        seq![(i, j + 1)] + brace_spans(s, j + 1)
    } else {
        brace_spans(s, i + 1)
    }
}

/// The offset in the UTF-8 encoding of `s` at which character `i` starts.
pub open spec fn byte_offset(s: Seq<char>, i: int) -> usize {
    encode_utf8(s.take(i)).len() as usize
}

/// The matches that the `regex` crate reports for the pattern `\{([^}]+)\}`
/// in a string, in order, with the byte offsets of each match and of its
/// group.
pub open spec fn brace_matches(s: Seq<char>) -> Seq<BraceMatch> {
    brace_spans(s, 0).map_values(
        |p: (int, int)|
            BraceMatch {
                start: byte_offset(s, p.0),
                end: byte_offset(s, p.1),
                inner: Some((byte_offset(s, p.0 + 1), byte_offset(s, p.1 - 1))),
            },
    )
}

/// Whether `ms` describes ordered, non-overlapping braced parts of the UTF-8
/// encoding `bytes`, each starting with `{` and ending with `}` on character
/// boundaries.
pub open spec fn well_placed(bytes: Seq<u8>, ms: Seq<BraceMatch>) -> bool {
    &&& forall|i: int|
        0 <= i < ms.len() ==> {
            let m = #[trigger] ms[i];
            &&& m.start < m.end <= bytes.len()
            &&& is_char_boundary(bytes, m.start as int)
            &&& is_char_boundary(bytes, m.end as int)
            &&& bytes[m.start as int] == 123u8
            &&& bytes[m.end - 1] == 125u8
            &&& (m.inner matches Some((a, b)) ==> a == m.start + 1 && b == m.end - 1 && a < b
                && is_char_boundary(bytes, a as int) && is_char_boundary(bytes, b as int))
        }
    &&& forall|i: int, j: int| 0 <= i < j < ms.len() ==> (#[trigger] ms[i]).end <= (#[trigger] ms[j]).start
}

/// Runs the pattern `\{([^}]+)\}` of the `regex` crate over `s` with
/// `Regex::captures_iter` and reports each match's offsets (`Match::start`,
/// `Match::end`) and those of its group: the leftmost-first, non-overlapping
/// matches that `brace_matches` describes. As the crate documents, these are
/// successive, their offsets fall on UTF-8 boundaries, and each one is a `{`,
/// at least one byte other than `}`, and a `}`, with the group just inside
/// the braces.
#[verifier::external_body]
fn find_brace_parts(s: &str) -> (res: Vec<BraceMatch>)
    ensures
        res@ == brace_matches(s@),
        well_placed(s.spec_bytes(), res@),
{
    let re = regex::Regex::new(r"\{([^}]+)\}").unwrap();
    re.captures_iter(s).map(|cap| {
        let m = cap.get(0).unwrap();
        BraceMatch { start: m.start(), end: m.end(), inner: cap.get(1).map(|g| (g.start(), g.end())) }
    }).collect()
}

/// The fixed text before optional part `i` (or after the last one, for `i == ms.len()`).
pub open spec fn segment(bytes: Seq<u8>, ms: Seq<BraceMatch>, i: int) -> Seq<char> {
    let from = if i == 0 {
        0
    } else {
        ms[i - 1].end as int
    };
    let to = if i < ms.len() {
        ms[i].start as int
    } else {
        bytes.len() as int
    };
    decode_utf8(bytes.subrange(from, to))
}

/// The text inside the braces of optional part `i`.
pub open spec fn option_text(bytes: Seq<u8>, ms: Seq<BraceMatch>, i: int) -> Seq<char> {
    match ms[i].inner {
        Some((a, b)) => decode_utf8(bytes.subrange(a as int, b as int)),
        None => seq![],
    }
}

/// Whether bit `i` of `mask` is set.
pub open spec fn has_bit(mask: u32, i: u32) -> bool {
    mask & (1u32 << i) != 0u32
}

/// The first `k` fixed parts, each followed by its optional part when `mask` selects it.
pub open spec fn candidate_prefix(bytes: Seq<u8>, ms: Seq<BraceMatch>, mask: u32, k: nat) -> Seq<char>
    decreases k,
{
    if k == 0 {
        seq![]
    } else {
        candidate_prefix(bytes, ms, mask, (k - 1) as nat) + segment(bytes, ms, k - 1) + if has_bit(
            mask,
            (k - 1) as u32,
        ) {
            option_text(bytes, ms, k - 1)
        } else {
            seq![]
        }
    }
}

/// The name variant that keeps exactly the optional parts selected by `mask`, trimmed.
pub open spec fn variant(bytes: Seq<u8>, ms: Seq<BraceMatch>, mask: u32) -> Seq<char> {
    trim(candidate_prefix(bytes, ms, mask, ms.len()) + segment(bytes, ms, ms.len() as int))
}

/// The masks that a request for `specific` goes through, as a range `lo..hi`.
pub open spec fn mask_range(n: nat, specific: SpecificName) -> (u32, u32) {
    let all = (1u32 << n as u32) as u32;
    match specific {
        SpecificName::AllCombinations => (0u32, all),
        SpecificName::NoOptional => (0u32, 1u32),
        SpecificName::AllOptional => ((all - 1) as u32, all),
    }
}

/// All variants asked for: one for each mask in the range, in increasing order.
pub open spec fn variants(bytes: Seq<u8>, ms: Seq<BraceMatch>, specific: SpecificName) -> Seq<Seq<char>> {
    let (lo, hi) = mask_range(ms.len(), specific);
    Seq::new((hi - lo) as nat, |j: int| variant(bytes, ms, (lo + j) as u32))
}

pub open spec fn strings_view(v: Seq<String>) -> Seq<Seq<char>> {
    v.map_values(|s: String| s@)
}

proof fn lemma_boundary_of_suffix(bytes: Seq<u8>, a: int, b: int)
    requires
        valid_utf8(bytes),
        0 <= a <= b <= bytes.len(),
        is_char_boundary(bytes, a),
        is_char_boundary(bytes, b),
    ensures
        valid_utf8(bytes.subrange(a, bytes.len() as int)),
        is_char_boundary(bytes.subrange(a, bytes.len() as int), b - a),
{
    broadcast use valid_utf8_split, is_char_boundary_start_end_of_seq, is_char_boundary_iff_not_is_continuation_byte;

    let rest = bytes.subrange(a, bytes.len() as int);
    assert(valid_utf8(rest));
    if b == bytes.len() {
        assert(rest.len() == b - a);
        assert(is_char_boundary(rest, rest.len() as int));
    } else if b > a {
        assert(rest[b - a] == bytes[b]);
        assert(is_char_boundary(bytes, b) <==> !is_continuation_byte(bytes[b]));
        assert(is_char_boundary(rest, b - a) <==> !is_continuation_byte(rest[b - a]));
    }
}

/// The part of `s` between the byte offsets `a` and `b`.
fn byte_slice(s: &str, a: usize, b: usize) -> (r: &str)
    requires
        a <= b <= s.spec_bytes().len(),
        is_char_boundary(s.spec_bytes(), a as int),
        is_char_boundary(s.spec_bytes(), b as int),
    ensures
        r@ == decode_utf8(s.spec_bytes().subrange(a as int, b as int)),
{
    broadcast use encode_utf8_valid_utf8, encode_utf8_decode_utf8;

    let ghost bytes = s.spec_bytes();
    proof {
        lemma_boundary_of_suffix(bytes, a as int, b as int);
    }
    let (_, rest) = s.split_at(a);
    let (mid, _) = rest.split_at(b - a);
    assert(mid.spec_bytes() =~= bytes.subrange(a as int, b as int));
    assert(decode_utf8(encode_utf8(mid@)) == mid@);
    mid
}

/// The part of `s` from the byte offset `a` on.
fn byte_suffix(s: &str, a: usize) -> (r: &str)
    requires
        a <= s.spec_bytes().len(),
        is_char_boundary(s.spec_bytes(), a as int),
    ensures
        r@ == decode_utf8(s.spec_bytes().subrange(a as int, s.spec_bytes().len() as int)),
{
    broadcast use encode_utf8_valid_utf8, encode_utf8_decode_utf8;

    let (_, rest) = s.split_at(a);
    assert(decode_utf8(encode_utf8(rest@)) == rest@);
    rest
}

/// The name variants of `s` given its braced parts `ms`: with `SpecificName::AllCombinations`
/// one for each subset of the optional parts, ordered by the binary number
/// whose bit `i` says whether part `i` is kept; otherwise only the variant
/// without any or with all optional parts. Each variant is trimmed.
pub fn name_combinations(s: &str, ms: &[BraceMatch], specific: SpecificName) -> (res: Vec<String>)
    requires
        well_placed(s.spec_bytes(), ms@),
        ms@.len() <= 32,
        !(specific is NoOptional) ==> ms@.len() <= 30,
    ensures
        strings_view(res@) == variants(s.spec_bytes(), ms@, specific),
{
    broadcast use encode_utf8_valid_utf8, is_char_boundary_start_end_of_seq;

    let ghost bytes = s.spec_bytes();
    let n = ms.len();
    // the fixed parts and the optional parts, as slices of `s`
    let mut segments: Vec<&str> = Vec::new();
    let mut options: Vec<&str> = Vec::new();
    let mut last: usize = 0;
    let mut i: usize = 0;
    while i < n
        invariant
            i <= n == ms@.len(),
            bytes == s.spec_bytes(),
            valid_utf8(bytes),
            well_placed(bytes, ms@),
            last == (if i == 0 { 0 } else { ms@[i - 1].end as int }),
            segments@.len() == i,
            options@.len() == i,
            forall|k: int| 0 <= k < i ==> (#[trigger] segments@[k])@ == segment(bytes, ms@, k),
            forall|k: int| 0 <= k < i ==> (#[trigger] options@[k])@ == option_text(bytes, ms@, k),
        decreases n - i,
    {
        let m = ms[i];
        proof {
            if i > 0 {
                assert(ms@[i - 1].end <= ms@[i as int].start);
            }
        }
        segments.push(byte_slice(s, last, m.start));
        match m.inner {
            Some((a, b)) => {
                options.push(byte_slice(s, a, b));
            },
            None => {
                options.push("");
                assert(""@ =~= seq![]) by {
                    reveal_strlit("");
                }
            },
        }
        last = m.end;
        i = i + 1;
    }
    segments.push(byte_suffix(s, last));
    let (lo, hi): (u32, u32) = match specific {
        SpecificName::NoOptional => (0, 1),
        _ => {
            assert((1u32 << n as u32) <= 0x4000_0000u32) by (bit_vector)
                requires
                    n <= 30,
            ;
            assert((1u32 << n as u32) >= 1u32) by (bit_vector)
                requires
                    n <= 30,
            ;
            let all: u32 = 1u32 << (n as u32);
            match specific {
                SpecificName::AllCombinations => (0, all),
                _ => (all - 1, all),
            }
        },
    };
    assert((lo, hi) == mask_range(n as nat, specific));
    let mut results: Vec<String> = Vec::new();
    let mut mask: u32 = lo;
    while mask < hi
        invariant
            lo <= mask <= hi,
            (lo, hi) == mask_range(n as nat, specific),
            n == ms@.len(),
            n <= 32,
            segments@.len() == n + 1,
            options@.len() == n,
            forall|k: int| 0 <= k <= n ==> (#[trigger] segments@[k])@ == segment(bytes, ms@, k),
            forall|k: int| 0 <= k < n ==> (#[trigger] options@[k])@ == option_text(bytes, ms@, k),
            strings_view(results@) =~= Seq::new(
                (mask - lo) as nat,
                |j: int| variant(bytes, ms@, (lo + j) as u32),
            ),
        decreases hi - mask,
    {
        let mut candidate = String::new();
        let mut k: usize = 0;
        while k < n
            invariant
                k <= n <= 32,
                n == ms@.len(),
                segments@.len() == n + 1,
                options@.len() == n,
                forall|q: int| 0 <= q <= n ==> (#[trigger] segments@[q])@ == segment(bytes, ms@, q),
                forall|q: int| 0 <= q < n ==> (#[trigger] options@[q])@ == option_text(bytes, ms@, q),
                candidate@ == candidate_prefix(bytes, ms@, mask, k as nat),
            decreases n - k,
        {
            candidate.append(segments[k]);
            if mask & (1u32 << (k as u32)) != 0 {
                candidate.append(options[k]);
            }
            k = k + 1;
            assert(candidate@ =~= candidate_prefix(bytes, ms@, mask, k as nat));
        }
        candidate.append(segments[n]);
        let name = trim_str(candidate.as_str());
        let ghost old_results = results@;
        results.push(name);
        assert(strings_view(results@) =~= strings_view(old_results).push(name@));
        mask = mask + 1;
    }
    results
}

/// The most optional parts for which a request for `specific` is answered:
/// the masks run over a 32-bit signed count, so all combinations of up to 31
/// parts (of exactly 31 the count of masks, 2^31, is negative and none is
/// given), the variant without optional parts for up to 32 (its mask tests
/// bits 0 to 31), and the variant with all of them for up to 30 (its mask,
/// 2^n - 1, overflows beyond).
pub open spec fn most_parts(specific: SpecificName) -> nat {
    match specific {
        SpecificName::AllCombinations => 31,
        SpecificName::NoOptional => 32,
        SpecificName::AllOptional => 30,
    }
}

/// The variants given for `specific` where the request is answered: none for
/// all combinations of exactly 31 optional parts, else `variants`.
pub open spec fn answered_variants(bytes: Seq<u8>, ms: Seq<BraceMatch>, specific: SpecificName) -> Seq<Seq<char>> {
    if specific is AllCombinations && ms.len() == 31 {
        seq![]
    } else {
        variants(bytes, ms, specific)
    }
}

/// All name variants of `s`, as `name_combinations` gives them for the braced
/// parts that the `regex` crate finds; `None` when `s` has more optional
/// parts than `most_parts` allows for `specific`, where a 32-bit signed count
/// of masks would overflow.
pub fn generate_name_combinations(s: &str, specific: SpecificName) -> (res: Option<Vec<String>>)
    ensures
        brace_matches(s@).len() <= most_parts(specific) ==> (res matches Some(v) && strings_view(v@)
            == answered_variants(s.spec_bytes(), brace_matches(s@), specific)),
        brace_matches(s@).len() > most_parts(specific) ==> res is None,
{
    let ms = find_brace_parts(s);
    let n = ms.len();
    match specific {
        SpecificName::AllCombinations => {
            if n > 31 {
                None
            } else if n == 31 {
                let v: Vec<String> = Vec::new();
                assert(strings_view(v@) =~= Seq::<Seq<char>>::empty());
                Some(v)
            } else {
                Some(name_combinations(s, ms.as_slice(), specific))
            }
        },
        SpecificName::NoOptional => {
            if n > 32 {
                None
            } else {
                Some(name_combinations(s, ms.as_slice(), specific))
            }
        },
        SpecificName::AllOptional => {
            if n > 30 {
                None
            } else {
                Some(name_combinations(s, ms.as_slice(), specific))
            }
        },
    }
}

/// All name variants of a designation, as `generate_name_combinations` gives
/// them for `SpecificName::AllCombinations`; `None` past 31 optional parts.
pub open spec fn name_variants(s: Seq<char>) -> Option<Seq<Seq<char>>> {
    if brace_matches(s).len() <= 31 {
        Some(answered_variants(encode_utf8(s), brace_matches(s), SpecificName::AllCombinations))
    } else {
        None
    }
}

/// The first `k` fixed parts with no optional part.
pub open spec fn plain_prefix(bytes: Seq<u8>, ms: Seq<BraceMatch>, k: nat) -> Seq<char>
    decreases k,
{
    if k == 0 {
        seq![]
    } else {
        plain_prefix(bytes, ms, (k - 1) as nat) + segment(bytes, ms, k - 1)
    }
}

/// The first `k` fixed parts, each followed by its optional part.
pub open spec fn full_prefix(bytes: Seq<u8>, ms: Seq<BraceMatch>, k: nat) -> Seq<char>
    decreases k,
{
    if k == 0 {
        seq![]
    } else {
        full_prefix(bytes, ms, (k - 1) as nat) + segment(bytes, ms, k - 1) + option_text(bytes, ms, k - 1)
    }
}

proof fn lemma_prefix_extremes(bytes: Seq<u8>, ms: Seq<BraceMatch>, k: nat)
    requires
        k <= ms.len() <= 30,
    ensures
        candidate_prefix(bytes, ms, 0u32, k) == plain_prefix(bytes, ms, k),
        candidate_prefix(bytes, ms, ((1u32 << ms.len() as u32) - 1) as u32, k) == full_prefix(bytes, ms, k),
    decreases k,
{
    if k > 0 {
        lemma_prefix_extremes(bytes, ms, (k - 1) as nat);
        let i = (k - 1) as u32;
        let n = ms.len() as u32;
        assert(!has_bit(0u32, i)) by (bit_vector)
            requires
                i < 30,
        ;
        assert(has_bit(((1u32 << n) - 1) as u32, i)) by (bit_vector)
            requires
                i < n,
                n <= 30,
        ;
    }
}

/// The order of the variants is the one the documentation gives: the first
/// leaves out every optional part and the last keeps them all, and asking for
/// only the variant without optional parts, or only the one with all of them,
/// gives exactly that first or last variant.
pub proof fn lemma_first_and_last_variants(bytes: Seq<u8>, ms: Seq<BraceMatch>)
    requires
        ms.len() <= 30,
    ensures
        variants(bytes, ms, SpecificName::AllCombinations).len() >= 1,
        variants(bytes, ms, SpecificName::AllCombinations)[0] == trim(
            plain_prefix(bytes, ms, ms.len()) + segment(bytes, ms, ms.len() as int),
        ),
        variants(bytes, ms, SpecificName::AllCombinations).last() == trim(
            full_prefix(bytes, ms, ms.len()) + segment(bytes, ms, ms.len() as int),
        ),
        variants(bytes, ms, SpecificName::NoOptional) == seq![
            variants(bytes, ms, SpecificName::AllCombinations)[0],
        ],
        variants(bytes, ms, SpecificName::AllOptional) == seq![
            variants(bytes, ms, SpecificName::AllCombinations).last(),
        ],
{
    let n = ms.len() as u32;
    assert(1u32 <= (1u32 << n) <= 0x4000_0000u32) by (bit_vector)
        requires
            n <= 30,
    ;
    lemma_prefix_extremes(bytes, ms, ms.len());
    let all = variants(bytes, ms, SpecificName::AllCombinations);
    assert(variants(bytes, ms, SpecificName::NoOptional) =~= seq![all[0]]);
    assert(variants(bytes, ms, SpecificName::AllOptional) =~= seq![all.last()]);
}

// ---- names written as fixed parts and optional parts ----

/// The name written with the fixed parts `segs` and, between them, the
/// optional parts `opts` in braces: `segs[0]{opts[0]}segs[1]...segs[n]`.
pub open spec fn braced(segs: Seq<Seq<char>>, opts: Seq<Seq<char>>) -> Seq<char>
    decreases opts.len(),
{
    if opts.len() == 0 {
        segs[0]
    } else {
        segs[0] + seq!['{'] + opts[0] + seq!['}'] + braced(segs.drop_first(), opts.drop_first())
    }
}

/// Whether `x` holds no brace.
pub open spec fn brace_free(x: Seq<char>) -> bool {
    forall|i: int| 0 <= i < x.len() ==> #[trigger] x[i] != '{' && x[i] != '}'
}

/// Whether the parts can be written as a name: one more fixed part than
/// optional parts, no braces in any part, and no optional part empty.
pub open spec fn parts_fit(segs: Seq<Seq<char>>, opts: Seq<Seq<char>>) -> bool {
    &&& segs.len() == opts.len() + 1
    &&& forall|i: int| 0 <= i < segs.len() ==> brace_free(#[trigger] segs[i])
    &&& forall|i: int| 0 <= i < opts.len() ==> brace_free(#[trigger] opts[i]) && opts[i].len() > 0
}

/// The character ranges of the braced parts of `braced(segs, opts)` when it
/// starts at offset `base`.
pub open spec fn spans_of(segs: Seq<Seq<char>>, opts: Seq<Seq<char>>, base: int) -> Seq<(int, int)>
    decreases opts.len(),
{
    if opts.len() == 0 {
        seq![]
    } else {
        let a = base + segs[0].len();
        let b = a + opts[0].len() + 2;
        seq![(a, b)] + spans_of(segs.drop_first(), opts.drop_first(), b)
    }
}

proof fn lemma_spans_skip(s: Seq<char>, i: int, j: int)
    requires
        0 <= i <= j <= s.len(),
        forall|k: int| i <= k < j ==> #[trigger] s[k] != '{',
    ensures
        brace_spans(s, i) == brace_spans(s, j),
    decreases j - i,
{
    if i < j {
        lemma_spans_skip(s, i + 1, j);
    }
}

proof fn lemma_next_close_at(s: Seq<char>, i: int, j: int)
    requires
        0 <= i <= j < s.len(),
        forall|k: int| i <= k < j ==> #[trigger] s[k] != '}',
        s[j] == '}',
    ensures
        next_close(s, i) == Some(j),
    decreases j - i,
{
    if i < j {
        lemma_next_close_at(s, i + 1, j);
    }
}

/// Where the parts stand in `s`, after offset `base`: each fixed part before
/// its braced part, each optional part inside its braces, and the last fixed
/// part at the end.
pub open spec fn parts_at(s: Seq<char>, segs: Seq<Seq<char>>, opts: Seq<Seq<char>>, base: int, sp: Seq<(int, int)>) -> bool {
    &&& sp.len() == opts.len()
    &&& forall|i: int| 0 <= i < sp.len() ==> s.subrange(if i == 0 { base } else { sp[i - 1].1 }, (#[trigger] sp[i]).0) == segs[i]
    &&& forall|i: int| 0 <= i < sp.len() ==> s.subrange((#[trigger] sp[i]).0 + 1, sp[i].1 - 1) == opts[i]
    &&& forall|i: int| 0 <= i < sp.len() ==> base <= (#[trigger] sp[i]).0 && sp[i].0 + 2 <= sp[i].1 <= s.len()
    &&& forall|i: int| 0 <= i < sp.len() ==> (if i == 0 { base } else { sp[i - 1].1 }) <= (#[trigger] sp[i]).0
    &&& s.subrange(if sp.len() == 0 { base } else { sp[sp.len() - 1].1 }, s.len() as int) == segs[opts.len() as int]
}

/// The braced parts that the pattern finds in a name written from parts are
/// exactly its optional parts.
#[verifier::spinoff_prover]
#[verifier::rlimit(40)]
proof fn lemma_spans_of_braced(s: Seq<char>, segs: Seq<Seq<char>>, opts: Seq<Seq<char>>, base: int)
    requires
        parts_fit(segs, opts),
        0 <= base <= s.len(),
        s.subrange(base, s.len() as int) == braced(segs, opts),
    ensures
        brace_spans(s, base) == spans_of(segs, opts, base),
        parts_at(s, segs, opts, base, spans_of(segs, opts, base)),
    decreases opts.len(),
{
    let t = s.subrange(base, s.len() as int);
    let g = segs[0];
    assert(brace_free(g));
    assert forall|k: int| 0 <= k < t.len() implies #[trigger] s[base + k] == t[k] by {}
    if opts.len() == 0 {
        assert(t == g);
        assert forall|k: int| base <= k < s.len() implies #[trigger] s[k] != '{' by {
            assert(s[base + (k - base)] == t[k - base]);
        }
        lemma_spans_skip(s, base, s.len() as int);
        assert(brace_spans(s, s.len() as int) == Seq::<(int, int)>::empty());
    } else {
        let o = opts[0];
        assert(brace_free(o) && o.len() > 0);
        let a = base + g.len();
        let b = a + o.len() + 2;
        let rs = segs.drop_first();
        let ro = opts.drop_first();
        let rest = braced(rs, ro);
        assert(t == g + seq!['{'] + o + seq!['}'] + rest);
        assert forall|k: int| base <= k < a implies #[trigger] s[k] != '{' by {
            assert(s[base + (k - base)] == t[k - base]);
            assert(t[k - base] == g[k - base]);
        }
        assert(s[a] == '{') by {
            assert(s[base + g.len()] == t[g.len() as int]);
        }
        assert forall|k: int| a + 1 <= k < b - 1 implies #[trigger] s[k] != '}' && s[k] == o[k - a - 1] by {
            assert(s[base + (k - base)] == t[k - base]);
            assert(t[k - base] == o[k - a - 1]);
        }
        assert(s[b - 1] == '}') by {
            assert(s[base + (b - 1 - base)] == t[b - 1 - base]);
        }
        lemma_spans_skip(s, base, a);
        lemma_next_close_at(s, a + 1, b - 1);
        assert(s[a + 1] != '}');
        assert(brace_spans(s, a) == seq![(a, b)] + brace_spans(s, b));
        assert forall|i: int| 0 <= i < rs.len() implies brace_free(#[trigger] rs[i]) by {
            assert(rs[i] == segs[i + 1]);
        }
        assert forall|i: int| 0 <= i < ro.len() implies brace_free(#[trigger] ro[i]) && ro[i].len() > 0 by {
            assert(ro[i] == opts[i + 1]);
        }
        assert(s.subrange(b, s.len() as int) =~= rest) by {
            assert forall|k: int| 0 <= k < rest.len() implies s.subrange(b, s.len() as int)[k] == rest[k] by {
                assert(s[base + (b - base + k)] == t[b - base + k]);
            }
        }
        lemma_spans_of_braced(s, rs, ro, b);
        let sp = spans_of(segs, opts, base);
        let rsp = spans_of(rs, ro, b);
        assert(sp == seq![(a, b)] + rsp);
        assert(s.subrange(base, a) =~= g) by {
            assert forall|k: int| 0 <= k < g.len() implies s.subrange(base, a)[k] == g[k] by {
                assert(s[base + k] == t[k]);
            }
        }
        assert(s.subrange(a + 1, b - 1) =~= o);
        assert forall|i: int| 0 <= i < sp.len() implies s.subrange(if i == 0 { base } else { sp[i - 1].1 }, (#[trigger] sp[i]).0) == segs[i] by {
            if i > 0 {
                assert(sp[i] == rsp[i - 1]);
                assert(segs[i] == rs[i - 1]);
                if i > 1 {
                    assert(sp[i - 1] == rsp[i - 2]);
                }
            }
        }
        assert forall|i: int| 0 <= i < sp.len() implies s.subrange((#[trigger] sp[i]).0 + 1, sp[i].1 - 1) == opts[i] by {
            if i > 0 {
                assert(sp[i] == rsp[i - 1]);
                assert(opts[i] == ro[i - 1]);
            }
        }
        assert forall|i: int| 0 <= i < sp.len() implies base <= (#[trigger] sp[i]).0 && sp[i].0 + 2 <= sp[i].1 <= s.len() by {
            if i > 0 {
                assert(sp[i] == rsp[i - 1]);
            }
        }
        assert forall|i: int| 0 <= i < sp.len() implies (if i == 0 { base } else { sp[i - 1].1 }) <= (#[trigger] sp[i]).0 by {
            if i > 0 {
                assert(sp[i] == rsp[i - 1]);
                if i > 1 {
                    assert(sp[i - 1] == rsp[i - 2]);
                }
            }
        }
        if rsp.len() > 0 {
            assert(sp[sp.len() - 1] == rsp[rsp.len() - 1]);
        }
        assert(segs[opts.len() as int] == rs[ro.len() as int]);
    }
}

proof fn lemma_encode_concat(a: Seq<char>, b: Seq<char>)
    ensures
        encode_utf8(a + b) == encode_utf8(a) + encode_utf8(b),
    decreases a.len(),
{
    if a.len() == 0 {
        assert(a + b =~= b);
        assert(encode_utf8(a) =~= Seq::<u8>::empty());
        assert(encode_utf8(a) + encode_utf8(b) =~= encode_utf8(b));
    } else {
        lemma_encode_concat(a.drop_first(), b);
        assert((a + b).drop_first() =~= a.drop_first() + b);
        assert((a + b)[0] == a[0]);
        assert(encode_utf8(a + b) =~= encode_utf8(a) + encode_utf8(b));
    }
}

/// The bytes between the offsets of characters `a` and `b` decode to the
/// characters between them.
proof fn lemma_byte_range(s: Seq<char>, a: int, b: int)
    requires
        0 <= a <= b <= s.len(),
        encode_utf8(s).len() <= usize::MAX,
    ensures
        byte_offset(s, a) <= byte_offset(s, b) <= encode_utf8(s).len(),
        decode_utf8(encode_utf8(s).subrange(byte_offset(s, a) as int, byte_offset(s, b) as int)) == s.subrange(a, b),
{
    broadcast use encode_utf8_decode_utf8;

    let x = s.take(a);
    let y = s.subrange(a, b);
    let z = s.skip(b);
    assert(s.take(b) =~= x + y);
    assert(s =~= x + y + z);
    lemma_encode_concat(x, y);
    lemma_encode_concat(x + y, z);
    let ex = encode_utf8(x);
    let ey = encode_utf8(y);
    assert(encode_utf8(s) == ex + ey + encode_utf8(z));
    assert(byte_offset(s, a) == ex.len());
    assert(byte_offset(s, b) == ex.len() + ey.len());
    assert(encode_utf8(s).subrange(ex.len() as int, (ex.len() + ey.len()) as int) =~= ey);
}

/// The first `k` fixed parts, each followed by its optional part where bit
/// `i` of `mask` is set.
pub open spec fn kept_prefix(segs: Seq<Seq<char>>, opts: Seq<Seq<char>>, mask: u32, k: nat) -> Seq<char>
    decreases k,
{
    if k == 0 {
        seq![]
    } else {
        kept_prefix(segs, opts, mask, (k - 1) as nat) + segs[k - 1] + if has_bit(mask, (k - 1) as u32) {
            opts[k - 1]
        } else {
            seq![]
        }
    }
}

/// The name `segs[0] [opts[0]] segs[1] ... segs[n]` that keeps optional part
/// `i` where bit `i` of `mask` is set, trimmed.
pub open spec fn kept(segs: Seq<Seq<char>>, opts: Seq<Seq<char>>, mask: u32) -> Seq<char> {
    trim(kept_prefix(segs, opts, mask, opts.len()) + segs[opts.len() as int])
}

/// The braced parts of a name written from parts, as the pattern finds them.
proof fn lemma_matches_of_braced(segs: Seq<Seq<char>>, opts: Seq<Seq<char>>)
    requires
        parts_fit(segs, opts),
    ensures
        brace_matches(braced(segs, opts)).len() == opts.len(),
        parts_at(braced(segs, opts), segs, opts, 0, spans_of(segs, opts, 0)),
        forall|i: int| 0 <= i < opts.len() ==> #[trigger] brace_matches(braced(segs, opts))[i] == ({
            let p = spans_of(segs, opts, 0)[i];
            let s = braced(segs, opts);
            BraceMatch {
                start: byte_offset(s, p.0),
                end: byte_offset(s, p.1),
                inner: Some((byte_offset(s, p.0 + 1), byte_offset(s, p.1 - 1))),
            }
        }),
{
    let s = braced(segs, opts);
    assert(s.subrange(0, s.len() as int) =~= s);
    lemma_spans_of_braced(s, segs, opts, 0);
}

#[verifier::spinoff_prover]
#[verifier::rlimit(80)]
proof fn lemma_segment_of_braced(segs: Seq<Seq<char>>, opts: Seq<Seq<char>>, i: int)
    requires
        parts_fit(segs, opts),
        encode_utf8(braced(segs, opts)).len() <= usize::MAX,
        0 <= i <= opts.len(),
    ensures
        segment(encode_utf8(braced(segs, opts)), brace_matches(braced(segs, opts)), i) == segs[i],
{
    let s = braced(segs, opts);
    let ms = brace_matches(s);
    let sp = spans_of(segs, opts, 0);
    let n = opts.len() as int;
    lemma_matches_of_braced(segs, opts);
    let from = if i == 0 { 0 } else { sp[i - 1].1 };
    let to = if i < n { sp[i].0 } else { s.len() as int };
    if i > 0 {
        assert(ms[i - 1].end == byte_offset(s, sp[i - 1].1));
        assert(sp[i - 1].0 + 2 <= sp[i - 1].1 <= s.len());
    }
    if i < n {
        assert(ms[i].start == byte_offset(s, sp[i].0));
        assert(from <= sp[i].0 && sp[i].0 + 2 <= sp[i].1 <= s.len());
        assert(s.subrange(from, sp[i].0) == segs[i]);
    } else {
        assert(s.subrange(from, s.len() as int) == segs[i]);
    }
    lemma_byte_range(s, from, to);
    assert(byte_offset(s, 0) == 0) by {
        assert(s.take(0) =~= Seq::<char>::empty());
    }
    assert(byte_offset(s, s.len() as int) == encode_utf8(s).len()) by {
        assert(s.take(s.len() as int) =~= s);
    }
}

proof fn lemma_option_of_braced(segs: Seq<Seq<char>>, opts: Seq<Seq<char>>, i: int)
    requires
        parts_fit(segs, opts),
        encode_utf8(braced(segs, opts)).len() <= usize::MAX,
        0 <= i < opts.len(),
    ensures
        option_text(encode_utf8(braced(segs, opts)), brace_matches(braced(segs, opts)), i) == opts[i],
{
    let s = braced(segs, opts);
    let ms = brace_matches(s);
    let sp = spans_of(segs, opts, 0);
    lemma_matches_of_braced(segs, opts);
    assert(ms[i].inner == Some((byte_offset(s, sp[i].0 + 1), byte_offset(s, sp[i].1 - 1))));
    assert(s.subrange(sp[i].0 + 1, sp[i].1 - 1) == opts[i]);
    lemma_byte_range(s, sp[i].0 + 1, sp[i].1 - 1);
}

proof fn lemma_kept_prefix(segs: Seq<Seq<char>>, opts: Seq<Seq<char>>, mask: u32, k: nat)
    requires
        parts_fit(segs, opts),
        encode_utf8(braced(segs, opts)).len() <= usize::MAX,
        k <= opts.len(),
    ensures
        candidate_prefix(encode_utf8(braced(segs, opts)), brace_matches(braced(segs, opts)), mask, k)
            == kept_prefix(segs, opts, mask, k),
    decreases k,
{
    if k > 0 {
        lemma_kept_prefix(segs, opts, mask, (k - 1) as nat);
        lemma_segment_of_braced(segs, opts, k - 1);
        lemma_option_of_braced(segs, opts, k - 1);
    }
}

/// The law of name variants: a name written as fixed parts with braced
/// optional parts between them, `seg0{t0}seg1...{tn-1}segn`, with no braces
/// in any part and no optional part empty, has one variant for each of the
/// 2^n masks, in increasing order of the mask, the variant of mask `m` being
/// the fixed parts with the optional parts whose bits are set in `m`,
/// trimmed; the variant without optional parts is the first of them and the
/// one with all of them the last. (Up to 30 optional parts, and the name's
/// UTF-8 encoding fitting in memory.)
pub proof fn lemma_name_combination_law(segs: Seq<Seq<char>>, opts: Seq<Seq<char>>)
    requires
        parts_fit(segs, opts),
        opts.len() <= 30,
        encode_utf8(braced(segs, opts)).len() <= usize::MAX,
    ensures
        ({
            let s = braced(segs, opts);
            let bytes = encode_utf8(s);
            let ms = brace_matches(s);
            let count = (1u32 << opts.len() as u32) as nat;
            let all = answered_variants(bytes, ms, SpecificName::AllCombinations);
            &&& ms.len() == opts.len()
            &&& 1 <= count <= 0x4000_0000
            &&& all == Seq::new(count, |m: int| kept(segs, opts, m as u32))
            &&& answered_variants(bytes, ms, SpecificName::NoOptional) == seq![all[0]]
            &&& answered_variants(bytes, ms, SpecificName::AllOptional) == seq![all[count - 1]]
            &&& all[0] == kept(segs, opts, 0)
            &&& all[count - 1] == kept(segs, opts, (count - 1) as u32)
        }),
{
    let s = braced(segs, opts);
    let bytes = encode_utf8(s);
    let ms = brace_matches(s);
    let n = opts.len() as u32;
    assert(1u32 <= (1u32 << n) <= 0x4000_0000u32) by (bit_vector)
        requires
            n <= 30,
    ;
    lemma_matches_of_braced(segs, opts);
    let count = (1u32 << n) as nat;
    assert forall|m: u32| #[trigger] variant(bytes, ms, m) == kept(segs, opts, m) by {
        lemma_kept_prefix(segs, opts, m, opts.len());
        lemma_segment_of_braced(segs, opts, opts.len() as int);
    }
    let all = answered_variants(bytes, ms, SpecificName::AllCombinations);
    assert(all =~= Seq::new(count, |m: int| kept(segs, opts, m as u32))) by {
        assert forall|j: int| 0 <= j < count implies all[j] == kept(segs, opts, j as u32) by {
            assert(all[j] == variant(bytes, ms, (0 + j) as u32));
        }
    }
    lemma_first_and_last_variants(bytes, ms);
}

} // verus!

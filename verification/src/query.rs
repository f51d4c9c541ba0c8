//! Question pack queries: each line names a question type with its settings
//! and, after `):`, the filter that picks the objects asked about, such as
//! `FIND_THIS_OBJECT({"rotate_to_answer":true}): CATALOGUE(MESSIER)`.

use vstd::prelude::*;
use vstd::string::StringExecFns;
use crate::text::{
    chars_of, join_seq, join_with, lemma_split_after_piece, lemma_split_without_separator, remove_spaces, spec_is_whitespace, split_on,
    split_seq, string_from_chars, trim, trim_end, trim_start, trim_str, without_spaces,
};

verus! {

broadcast use vstd::string::group_string_axioms;

/// Whether `p` occurs in `s` at offset `i`.
pub open spec fn match_at(s: Seq<char>, p: Seq<char>, i: int) -> bool {
    0 <= i && i + p.len() <= s.len() && s.subrange(i, i + p.len()) == p
}

/// `s` cut at the non-overlapping occurrences of the non-empty pattern `p`,
/// searched from the left, as `str::split` with a string pattern gives it.
pub open spec fn split_pattern(s: Seq<char>, p: Seq<char>) -> Seq<Seq<char>>
    recommends
        p.len() > 0,
    decreases s.len(),
{
    if p.len() == 0 || s.len() < p.len() {
        seq![s]
    } else if s.take(p.len() as int) == p {
        seq![seq![]] + split_pattern(s.skip(p.len() as int), p)
    } else {
        let rest = split_pattern(s.drop_first(), p);
        rest.update(0, seq![s[0]] + rest[0])
    }
}

pub proof fn lemma_split_pattern_len(s: Seq<char>, p: Seq<char>)
    ensures
        split_pattern(s, p).len() >= 1,
    decreases s.len(),
{
    if p.len() > 0 && s.len() >= p.len() {
        if s.take(p.len() as int) == p {
            lemma_split_pattern_len(s.skip(p.len() as int), p);
        } else {
            lemma_split_pattern_len(s.drop_first(), p);
        }
    }
}

/// Text in which the pattern starts nowhere is glued to the first piece.
pub proof fn lemma_split_pattern_prefix(c: Seq<char>, r: Seq<char>, p: Seq<char>)
    requires
        p.len() > 0,
        forall|i: int| 0 <= i < c.len() ==> !#[trigger] match_at(c + r, p, i),
    ensures
        split_pattern(c + r, p) == split_pattern(r, p).update(0, c + split_pattern(r, p)[0]),
    decreases c.len(),
{
    lemma_split_pattern_len(r, p);
    let s = c + r;
    if c.len() == 0 {
        assert(s =~= r);
        assert(split_pattern(r, p).update(0, c + split_pattern(r, p)[0]) =~= split_pattern(r, p));
    } else if s.len() < p.len() {
        assert(r.len() < p.len());
        assert(split_pattern(r, p) == seq![r]);
        assert(split_pattern(s, p) == seq![s]);
        assert(split_pattern(r, p).update(0, c + split_pattern(r, p)[0]) =~= seq![s]);
    } else {
        assert(!match_at(s, p, 0));
        assert(s.take(p.len() as int) =~= s.subrange(0, p.len() as int));
        let c1 = c.drop_first();
        assert forall|i: int| 0 <= i < c1.len() implies !#[trigger] match_at(c1 + r, p, i) by {
            assert(!match_at(s, p, i + 1));
            if match_at(c1 + r, p, i) {
                assert((c1 + r).subrange(i, i + p.len()) =~= s.subrange(i + 1, i + 1 + p.len()));
            }
        }
        lemma_split_pattern_prefix(c1, r, p);
        assert(s.drop_first() =~= c1 + r);
        let rest = split_pattern(s.drop_first(), p);
        assert(split_pattern(s, p) == rest.update(0, seq![s[0]] + rest[0]));
        assert(seq![s[0]] + (c1 + split_pattern(r, p)[0]) =~= c + split_pattern(r, p)[0]);
        assert(split_pattern(s, p) =~= split_pattern(r, p).update(0, c + split_pattern(r, p)[0]));
    }
}

/// Where the pattern first occurs at `k`, from `start` on, the text before it
/// is a piece and the rest is split after the pattern.
proof fn lemma_split_at_match(s: Seq<char>, p: Seq<char>, start: int, k: int)
    requires
        p.len() > 0,
        0 <= start <= k <= s.len(),
        match_at(s, p, k),
        forall|i: int| start <= i < k ==> !#[trigger] match_at(s, p, i),
    ensures
        split_pattern(s.skip(start), p) == seq![s.subrange(start, k)] + split_pattern(s.skip(k + p.len()), p),
{
    let m = p.len() as int;
    let piece = s.subrange(start, k);
    let r = s.skip(k);
    assert(piece + r =~= s.skip(start));
    assert forall|i: int| 0 <= i < piece.len() implies !#[trigger] match_at(piece + r, p, i) by {
        assert(!match_at(s, p, start + i));
        if match_at(piece + r, p, i) {
            assert((piece + r).subrange(i, i + m) =~= s.subrange(start + i, start + i + m));
        }
    }
    lemma_split_pattern_prefix(piece, r, p);
    assert(r.take(m) =~= s.subrange(k, k + m));
    assert(r.skip(m) =~= s.skip(k + m));
    lemma_split_pattern_len(s.skip(k + m), p);
    assert(split_pattern(r, p) == seq![seq![]] + split_pattern(s.skip(k + m), p));
    assert(split_pattern(s.skip(start), p) =~= seq![piece] + split_pattern(s.skip(k + m), p));
}

/// Where the pattern occurs nowhere from `start` on, the rest is one piece.
proof fn lemma_split_no_match(s: Seq<char>, p: Seq<char>, start: int)
    requires
        p.len() > 0,
        0 <= start <= s.len(),
        forall|i: int| start <= i < s.len() ==> !#[trigger] match_at(s, p, i),
    ensures
        split_pattern(s.skip(start), p) == seq![s.skip(start)],
{
    let m = p.len() as int;
    let piece = s.skip(start);
    let r = Seq::<char>::empty();
    assert(piece + r =~= piece);
    assert forall|i: int| 0 <= i < piece.len() implies !#[trigger] match_at(piece + r, p, i) by {
        assert(!match_at(s, p, start + i));
        if match_at(piece + r, p, i) {
            assert((piece + r).subrange(i, i + m) =~= s.subrange(start + i, start + i + m));
        }
    }
    lemma_split_pattern_prefix(piece, r, p);
    assert(split_pattern(r, p) == seq![r]);
    assert(split_pattern(piece, p) =~= seq![piece]);
}

/// The characters of `s` from `a` to `b`.
fn copy_range(s: &[char], a: usize, b: usize) -> (v: Vec<char>)
    requires
        a <= b <= s@.len(),
    ensures
        v@ == s@.subrange(a as int, b as int),
{
    let mut v: Vec<char> = Vec::new();
    let mut q: usize = a;
    while q < b
        invariant
            a <= q <= b <= s@.len(),
            v@ == s@.subrange(a as int, q as int),
        decreases b - q,
    {
        v.push(s[q]);
        q = q + 1;
        assert(v@ =~= s@.subrange(a as int, q as int));
    }
    v
}

/// Whether `p` occurs in `s` at offset `k`.
fn occurs_at(s: &[char], p: &[char], k: usize) -> (r: bool)
    ensures
        r == match_at(s@, p@, k as int),
{
    let n = s.len();
    let m = p.len();
    if k > n || m > n - k {
        return false;
    }
    let mut j: usize = 0;
    while j < m
        invariant
            m == p@.len(),
            n == s@.len(),
            k + m <= n,
            j <= m,
            forall|q: int| 0 <= q < j ==> s@[k + q] == p@[q],
        decreases m - j,
    {
        if s[k + j] != p[j] {
            assert(s@.subrange(k as int, k + m)[j as int] != p@[j as int]);
            return false;
        }
        j = j + 1;
    }
    assert(s@.subrange(k as int, k + m) =~= p@);
    true
}

/// The pieces of `s` between the non-overlapping occurrences of `p`.
pub fn split_on_pattern(s: &[char], p: &[char]) -> (res: Vec<String>)
    requires
        p@.len() > 0,
    ensures
        res@.map_values(|v: String| v@) == split_pattern(s@, p@),
{
    let n = s.len();
    let m = p.len();
    let mut done: Vec<String> = Vec::new();
    let mut start: usize = 0;
    let mut k: usize = 0;
    assert(s@.skip(0) =~= s@);
    while k < n
        invariant
            n == s@.len(),
            m == p@.len(),
            m > 0,
            start <= k <= n,
            forall|i: int| start <= i < k ==> !#[trigger] match_at(s@, p@, i),
            split_pattern(s@, p@) == done@.map_values(|v: String| v@) + split_pattern(s@.skip(start as int), p@),
        decreases n - k,
    {
        if occurs_at(s, p, k) {
            proof {
                lemma_split_at_match(s@, p@, start as int, k as int);
            }
            let v = copy_range(s, start, k);
            let piece = string_from_chars(v.as_slice());
            let ghost before = done@;
            done.push(piece);
            assert(done@.map_values(|v: String| v@) =~= before.map_values(|v: String| v@) + seq![v@]);
            k = k + m;
            start = k;
        } else {
            k = k + 1;
        }
    }
    proof {
        lemma_split_no_match(s@, p@, start as int);
    }
    let v = copy_range(s, start, n);
    assert(v@ =~= s@.skip(start as int));
    let piece = string_from_chars(v.as_slice());
    let ghost before = done@;
    done.push(piece);
    assert(done@.map_values(|v: String| v@) =~= before.map_values(|v: String| v@) + seq![v@]);
    done
}


/// The pieces trimmed, leaving out those that are then empty.
pub open spec fn trimmed_nonempty(parts: Seq<Seq<char>>) -> Seq<Seq<char>>
    decreases parts.len(),
{
    if parts.len() == 0 {
        seq![]
    } else {
        let r = trimmed_nonempty(parts.drop_last());
        let t = trim(parts.last());
        if t.len() == 0 {
            r
        } else {
            r.push(t)
        }
    }
}

/// The question part of a line without the parenthesis that closes its
/// settings, where the trimmed text ends with one.
pub open spec fn without_closing_paren(h: Seq<char>) -> Seq<char> {
    let t = trim(h);
    if t.len() > 0 && t.last() == ')' {
        t.drop_last()
    } else {
        h
    }
}

/// What a line of a query holds, with its spaces removed: the question type,
/// its settings, and the filter if the line has one; `None` for a line that
/// names no question type with settings.
pub open spec fn spec_query_line(line: Seq<char>) -> Option<(Seq<char>, Seq<char>, Option<Seq<char>>)> {
    let parts = trimmed_nonempty(split_pattern(without_spaces(line), "):"@));
    if parts.len() == 0 {
        None
    } else {
        let filter = if parts.len() > 1 {
            Some(parts.last())
        } else {
            None
        };
        let question = if parts.len() > 1 {
            parts.drop_last()
        } else {
            parts
        };
        let head = trimmed_nonempty(split_seq(without_closing_paren(join_seq(question, ""@)), '('));
        if head.len() < 2 {
            None
        } else {
            Some((head[0], head[1], filter))
        }
    }
}

/// One line of a question pack query, split into its parts.
pub struct QueryLine {
    pub question_type: String,
    pub question_settings: String,
    pub filter: Option<String>,
}

pub open spec fn query_line_view(q: Option<QueryLine>) -> Option<(Seq<char>, Seq<char>, Option<Seq<char>>)> {
    match q {
        Some(l) => Some((
            l.question_type@,
            l.question_settings@,
            match l.filter {
                Some(f) => Some(f@),
                None => None,
            },
        )),
        None => None,
    }
}

fn keep_trimmed_nonempty(parts: &[String]) -> (res: Vec<String>)
    ensures
        res@.map_values(|v: String| v@) == trimmed_nonempty(parts@.map_values(|v: String| v@)),
{
    let ghost ps = parts@.map_values(|v: String| v@);
    let mut out: Vec<String> = Vec::new();
    let mut k: usize = 0;
    while k < parts.len()
        invariant
            k <= parts@.len() == ps.len(),
            ps == parts@.map_values(|v: String| v@),
            out@.map_values(|v: String| v@) == trimmed_nonempty(ps.take(k as int)),
        decreases parts@.len() - k,
    {
        assert(ps.take(k + 1).drop_last() =~= ps.take(k as int));
        assert(ps.take(k + 1).last() == parts@[k as int]@);
        let t = trim_str(parts[k].as_str());
        if !t.as_str().is_empty() {
            let ghost before = out@;
            out.push(t);
            assert(out@.map_values(|v: String| v@) =~= before.map_values(|v: String| v@).push(t@));
        }
        k = k + 1;
    }
    assert(ps.take(k as int) =~= ps);
    out
}

/// Splits one line of a question pack query into the question type, its
/// settings and its filter. Spaces are removed first; the filter is what
/// follows the last `):`, and the type and settings are the first two
/// non-empty pieces of the rest around `(`, once the closing parenthesis is
/// dropped. `None` where the line does not give both.
pub fn split_query_line(line: &str) -> (res: Option<QueryLine>)
    ensures
        query_line_view(res) == spec_query_line(line@),
{
    proof {
        reveal_strlit("):");
    }
    let cs = chars_of(line);
    let compact = remove_spaces(cs.as_slice());
    let pattern = chars_of("):");
    let pieces = split_on_pattern(compact.as_slice(), pattern.as_slice());
    let mut parts = keep_trimmed_nonempty(pieces.as_slice());
    let ghost ps = parts@.map_values(|v: String| v@);
    if parts.len() == 0 {
        return None;
    }
    let filter = if parts.len() > 1 {
        let f = parts.pop().unwrap();
        assert(parts@.map_values(|v: String| v@) =~= ps.drop_last());
        Some(f)
    } else {
        None
    };
    let joined = join_with(parts.as_slice(), "");
    let trimmed = trim_str(joined.as_str());
    let tcs = chars_of(trimmed.as_str());
    let head_text = if tcs.len() > 0 && tcs[tcs.len() - 1] == ')' {
        let mut t = tcs;
        t.pop();
        string_from_chars(t.as_slice())
    } else {
        joined
    };
    let head_pieces = split_on(head_text.as_str(), '(');
    let head = keep_trimmed_nonempty(head_pieces.as_slice());
    if head.len() < 2 {
        return None;
    }
    Some(QueryLine { question_type: head[0].clone(), question_settings: head[1].clone(), filter })
}

/// The conditions for the catalogues chosen in the basic question settings,
/// in this order: Messier, Caldwell, NGC, IC, Bayer, and proper names (of
/// stars only).
pub open spec fn spec_catalogue_conditions(
    messier: bool,
    caldwell: bool,
    ngc: bool,
    ic: bool,
    bayer: bool,
    starnames: bool,
) -> Seq<Seq<char>> {
    (if messier { seq!["CATALOGUE(MESSIER)"@] } else { seq![] })
        + (if caldwell { seq!["CATALOGUE(CALDWELL)"@] } else { seq![] })
        + (if ngc { seq!["CATALOGUE(NGC)"@] } else { seq![] })
        + (if ic { seq!["CATALOGUE(IC)"@] } else { seq![] })
        + (if bayer { seq!["CATALOGUE(BAYER)"@] } else { seq![] })
        + (if starnames { seq!["AND(TYPE(STAR), CATALOGUE(PROPER_NAME))"@] } else { seq![] })
}

fn push_if(v: &mut Vec<String>, cond: bool, text: &str)
    ensures
        final(v)@.map_values(|x: String| x@) == old(v)@.map_values(|x: String| x@) + (if cond {
            seq![text@]
        } else {
            seq![]
        }),
{
    let ghost before = v@;
    if cond {
        v.push(String::from_str(text));
        assert(v@.map_values(|x: String| x@) =~= before.map_values(|x: String| x@) + seq![text@]);
    } else {
        assert(v@.map_values(|x: String| x@) =~= before.map_values(|x: String| x@) + Seq::<Seq<char>>::empty());
    }
}

/// The conditions for the catalogues chosen in the basic question settings.
pub fn catalogue_conditions(
    messier: bool,
    caldwell: bool,
    ngc: bool,
    ic: bool,
    bayer: bool,
    starnames: bool,
) -> (res: Vec<String>)
    ensures
        res@.map_values(|x: String| x@) == spec_catalogue_conditions(messier, caldwell, ngc, ic, bayer, starnames),
{
    let mut v: Vec<String> = Vec::new();
    assert(v@.map_values(|x: String| x@) =~= Seq::<Seq<char>>::empty());
    push_if(&mut v, messier, "CATALOGUE(MESSIER)");
    push_if(&mut v, caldwell, "CATALOGUE(CALDWELL)");
    push_if(&mut v, ngc, "CATALOGUE(NGC)");
    push_if(&mut v, ic, "CATALOGUE(IC)");
    push_if(&mut v, bayer, "CATALOGUE(BAYER)");
    push_if(&mut v, starnames, "AND(TYPE(STAR), CATALOGUE(PROPER_NAME))");
    assert(v@.map_values(|x: String| x@) =~= spec_catalogue_conditions(messier, caldwell, ngc, ic, bayer, starnames));
    v
}

/// The filter the basic question settings give: stars below the magnitude
/// cutoff and other objects, in one of the chosen catalogues; `None` when no
/// catalogue is chosen.
pub open spec fn spec_basic_filter(conditions: Seq<Seq<char>>, magnitude_cutoff: Seq<char>) -> Option<Seq<char>> {
    if conditions.len() == 0 {
        None
    } else {
        let list = join_seq(conditions, ", "@);
        Some("OR(AND(TYPE(STAR), MAG_BELOW("@ + magnitude_cutoff + "), OR("@ + list + ")), AND(NOT(TYPE(STAR)), OR("@ + list + ")))"@)
    }
}

/// The filter for the catalogue `conditions` and the written magnitude cutoff.
pub fn basic_filter(conditions: &[String], magnitude_cutoff: &str) -> (res: Option<String>)
    ensures
        match res {
            Some(f) => spec_basic_filter(conditions@.map_values(|x: String| x@), magnitude_cutoff@) == Some(f@),
            None => spec_basic_filter(conditions@.map_values(|x: String| x@), magnitude_cutoff@) is None,
        },
{
    if conditions.len() == 0 {
        return None;
    }
    let list = join_with(conditions, ", ");
    let mut f = String::from_str("OR(AND(TYPE(STAR), MAG_BELOW(");
    f.append(magnitude_cutoff);
    f.append("), OR(");
    f.append(list.as_str());
    f.append(")), AND(NOT(TYPE(STAR)), OR(");
    f.append(list.as_str());
    f.append(")))");
    Some(f)
}

/// A line of a query: the question type, its settings in brackets, and the
/// filter after `): `, where there is one.
pub open spec fn query_line_text(question_type: Seq<char>, settings: Seq<char>, filter: Option<Seq<char>>) -> Seq<char> {
    match filter {
        Some(f) => question_type + "("@ + settings + "): "@ + f,
        None => question_type + "("@ + settings + ")"@,
    }
}

/// Writes a line of a query.
pub fn write_query_line(question_type: &str, settings: &str, filter: Option<&str>) -> (r: String)
    ensures
        r@ == query_line_text(question_type@, settings@, match filter {
            Some(f) => Some(f@),
            None => None,
        }),
{
    let mut line = String::from_str(question_type);
    line.append("(");
    line.append(settings);
    match filter {
        Some(f) => {
            line.append("): ");
            line.append(f);
        },
        None => {
            line.append(")");
        },
    }
    line
}

/// `s` with every occurrence of the non-empty `p` replaced by `q`, as
/// `str::replace` gives it.
pub open spec fn replaced(s: Seq<char>, p: Seq<char>, q: Seq<char>) -> Seq<char> {
    join_seq(split_pattern(s, p), q)
}

/// `s` with every occurrence of the non-empty `p` replaced by `q`.
pub fn replace_all(s: &str, p: &str, q: &str) -> (r: String)
    requires
        p@.len() > 0,
    ensures
        r@ == replaced(s@, p@, q@),
{
    let cs = chars_of(s);
    let ps = chars_of(p);
    let pieces = split_on_pattern(cs.as_slice(), ps.as_slice());
    join_with(pieces.as_slice(), q)
}

/// The choices of the basic question settings, with each question type's
/// settings already written as JSON and each magnitude cutoff as text.
pub struct BasicQuery {
    pub find_this_object: Option<(String, String)>,
    pub find_catalogues: [bool; 6],
    pub what_is_this_object: Option<(String, String)>,
    pub what_catalogues: [bool; 6],
    pub which_constellation: Option<String>,
    pub angular_separation: Option<String>,
    pub guess_ra_dec: Option<String>,
    pub guess_the_magnitude: Option<(String, String)>,
}

/// The conditions for the catalogue choices `c` (Messier, Caldwell, NGC,
/// IC, Bayer, proper names).
pub open spec fn conditions_of(c: Seq<bool>) -> Seq<Seq<char>> {
    spec_catalogue_conditions(c[0], c[1], c[2], c[3], c[4], c[5])
}

/// The line of a question about catalogue objects: none where no catalogue
/// is chosen.
pub open spec fn catalogue_line(question_type: Seq<char>, chosen: Option<(String, String)>, catalogues: Seq<bool>) -> Seq<Seq<char>> {
    match chosen {
        Some((settings, cutoff)) => match spec_basic_filter(conditions_of(catalogues), cutoff@) {
            Some(f) => seq![query_line_text(question_type, settings@, Some(f))],
            None => seq![],
        },
        None => seq![],
    }
}

/// The line of a question without a filter, where it is chosen.
pub open spec fn plain_line(question_type: Seq<char>, chosen: Option<String>) -> Seq<Seq<char>> {
    match chosen {
        Some(settings) => seq![query_line_text(question_type, settings@, None)],
        None => seq![],
    }
}

/// The lines of the query that the basic settings stand for, in order:
/// finding objects, naming objects, constellations of points, angular
/// separations, declinations and right ascensions, magnitudes.
pub open spec fn basic_query_lines(b: BasicQuery) -> Seq<Seq<char>> {
    catalogue_line("FIND_THIS_OBJECT"@, b.find_this_object, b.find_catalogues@) + catalogue_line(
        "WHAT_IS_THIS_OBJECT"@,
        b.what_is_this_object,
        b.what_catalogues@,
    ) + plain_line("WHICH_CONSTELLATION_IS_THIS_POINT_IN"@, b.which_constellation) + plain_line(
        "ANGULAR_SEPARATION"@,
        b.angular_separation,
    ) + plain_line("GUESS_DEC"@, b.guess_ra_dec) + plain_line("GUESS_RA"@, b.guess_ra_dec) + match b.guess_the_magnitude {
        Some((settings, cutoff)) => seq![
            query_line_text("GUESS_THE_MAGNITUDE"@, settings@, Some("MAG_BELOW("@ + cutoff@ + ")"@)),
        ],
        None => seq![],
    }
}

/// The query that the basic settings stand for: its lines joined by line
/// breaks, with `SmallSettings {` written as `{`.
pub open spec fn basic_query(b: BasicQuery) -> Seq<char> {
    replaced(join_seq(basic_query_lines(b), "\n"@), "SmallSettings {"@, "{"@)
}

/// Appends the line of a question about catalogue objects, where there is one.
fn push_catalogue_line(lines: &mut Vec<String>, question_type: &str, chosen: &Option<(String, String)>, catalogues: &[bool; 6])
    ensures
        lines_view(final(lines)@) == lines_view(old(lines)@) + catalogue_line(question_type@, *chosen, catalogues@),
{
    let ghost before = lines_view(lines@);
    if let Some((settings, cutoff)) = chosen {
        let conditions = catalogue_conditions(catalogues[0], catalogues[1], catalogues[2], catalogues[3], catalogues[4], catalogues[5]);
        if let Some(filter) = basic_filter(conditions.as_slice(), cutoff.as_str()) {
            lines.push(write_query_line(question_type, settings.as_str(), Some(filter.as_str())));
            assert(lines_view(lines@) =~= before + catalogue_line(question_type@, *chosen, catalogues@));
            return;
        }
    }
    assert(lines_view(lines@) =~= before + catalogue_line(question_type@, *chosen, catalogues@));
}

/// Appends the line of a question without a filter, where it is chosen.
fn push_plain_line(lines: &mut Vec<String>, question_type: &str, chosen: &Option<String>)
    ensures
        lines_view(final(lines)@) == lines_view(old(lines)@) + plain_line(question_type@, *chosen),
{
    let ghost before = lines_view(lines@);
    if let Some(settings) = chosen {
        lines.push(write_query_line(question_type, settings.as_str(), None));
    }
    assert(lines_view(lines@) =~= before + plain_line(question_type@, *chosen));
}

pub open spec fn lines_view(v: Seq<String>) -> Seq<Seq<char>> {
    v.map_values(|x: String| x@)
}

/// The query that the basic question settings stand for, one question type
/// per line.
pub fn generate_query_from_basic(b: &BasicQuery) -> (r: String)
    ensures
        r@ == basic_query(*b),
{
    proof {
        reveal_strlit("SmallSettings {");
    }
    let mut lines: Vec<String> = Vec::new();
    assert(lines_view(lines@) =~= Seq::<Seq<char>>::empty());
    push_catalogue_line(&mut lines, "FIND_THIS_OBJECT", &b.find_this_object, &b.find_catalogues);
    push_catalogue_line(&mut lines, "WHAT_IS_THIS_OBJECT", &b.what_is_this_object, &b.what_catalogues);
    push_plain_line(&mut lines, "WHICH_CONSTELLATION_IS_THIS_POINT_IN", &b.which_constellation);
    push_plain_line(&mut lines, "ANGULAR_SEPARATION", &b.angular_separation);
    push_plain_line(&mut lines, "GUESS_DEC", &b.guess_ra_dec);
    push_plain_line(&mut lines, "GUESS_RA", &b.guess_ra_dec);
    let ghost before = lines_view(lines@);
    if let Some((settings, cutoff)) = &b.guess_the_magnitude {
        let mut filter = String::from_str("MAG_BELOW(");
        filter.append(cutoff.as_str());
        filter.append(")");
        lines.push(write_query_line("GUESS_THE_MAGNITUDE", settings.as_str(), Some(filter.as_str())));
    }
    assert(lines_view(lines@) =~= basic_query_lines(*b));
    let joined = join_with(lines.as_slice(), "\n");
    replace_all(joined.as_str(), "SmallSettings {", "{")
}

/// Whether `x` is a non-empty word without whitespace and brackets, as the
/// name of a question type or settings written as JSON are.
pub open spec fn is_plain_word(x: Seq<char>) -> bool {
    x.len() > 0 && forall|i: int| 0 <= i < x.len() ==> !spec_is_whitespace(#[trigger] x[i]) && x[i] != '(' && x[i] != ')'
}

/// Whether a filter reads back as itself without its spaces: it holds no
/// whitespace but spaces, something besides spaces, and no `):` once its
/// spaces are gone.
pub open spec fn is_plain_filter(f: Seq<char>) -> bool {
    &&& forall|i: int| 0 <= i < f.len() ==> #[trigger] f[i] == ' ' || !spec_is_whitespace(f[i])
    &&& without_spaces(f).len() > 0
    &&& forall|i: int| !#[trigger] match_at(without_spaces(f), "):"@, i)
}

pub(crate) proof fn lemma_without_spaces_concat(a: Seq<char>, b: Seq<char>)
    ensures
        without_spaces(a + b) == without_spaces(a) + without_spaces(b),
    decreases b.len(),
{
    if b.len() == 0 {
        assert(a + b =~= a);
        assert(without_spaces(a) + without_spaces(b) =~= without_spaces(a));
    } else {
        lemma_without_spaces_concat(a, b.drop_last());
        assert((a + b).drop_last() =~= a + b.drop_last());
        assert((a + b).last() == b.last());
        if b.last() != ' ' {
            assert(without_spaces(a) + without_spaces(b.drop_last()).push(b.last()) =~= (without_spaces(a) + without_spaces(
                b.drop_last(),
            )).push(b.last()));
        }
    }
}

pub(crate) proof fn lemma_without_spaces_plain(a: Seq<char>)
    requires
        forall|i: int| 0 <= i < a.len() ==> #[trigger] a[i] != ' ',
    ensures
        without_spaces(a) == a,
    decreases a.len(),
{
    if a.len() > 0 {
        lemma_without_spaces_plain(a.drop_last());
        assert(a.drop_last().push(a.last()) =~= a);
    }
}

/// The characters left are characters of `f` other than spaces.
pub(crate) proof fn lemma_without_spaces_chars(f: Seq<char>)
    ensures
        forall|i: int| 0 <= i < without_spaces(f).len() ==> exists|j: int| 0 <= j < f.len() && f[j] != ' ' && #[trigger] without_spaces(f)[i] == f[j],
    decreases f.len(),
{
    if f.len() > 0 {
        lemma_without_spaces_chars(f.drop_last());
        let r = without_spaces(f.drop_last());
        assert forall|i: int| 0 <= i < without_spaces(f).len() implies exists|j: int| 0 <= j < f.len() && f[j] != ' ' && #[trigger] without_spaces(f)[i] == f[j] by {
            if i < r.len() {
                let j = choose|j: int| 0 <= j < f.drop_last().len() && f.drop_last()[j] != ' ' && r[i] == f.drop_last()[j];
                assert(f[j] == f.drop_last()[j]);
            } else {
                assert(without_spaces(f)[i] == f[f.len() - 1]);
            }
        }
    }
}

/// Text whose first and last characters are not whitespace is its own trim.
proof fn lemma_trim_plain(x: Seq<char>)
    requires
        x.len() > 0,
        !spec_is_whitespace(x[0]),
        !spec_is_whitespace(x.last()),
    ensures
        trim(x) == x,
{
    assert(trim_start(x) == x);
}

/// A line written by `write_query_line` reads back with `split_query_line`:
/// the question type and the settings as written, and the filter without its
/// spaces, where they are plain words and a plain filter.
pub proof fn lemma_query_line_read_back(t: Seq<char>, s: Seq<char>, f: Option<Seq<char>>)
    requires
        is_plain_word(t),
        is_plain_word(s),
        f matches Some(x) ==> is_plain_filter(x),
    ensures
        spec_query_line(query_line_text(t, s, f)) == Some((t, s, match f {
            Some(x) => Some(without_spaces(x)),
            None => None,
        })),
{
    reveal_strlit("(");
    reveal_strlit(")");
    reveal_strlit("): ");
    reveal_strlit("):");
    let p = "):"@;
    let a = t + "("@ + s;
    let n = a.len() as int;
    assert forall|i: int| 0 <= i < a.len() implies #[trigger] a[i] != ')' && a[i] != ' ' && !spec_is_whitespace(a[i]) by {
        if i < t.len() {
            assert(a[i] == t[i]);
        } else if i > t.len() {
            assert(a[i] == s[i - t.len() - 1]);
        }
    }
    lemma_without_spaces_plain(a);
    // the question part: `a` splits at its bracket into the type and the settings
    assert(!t.contains('(')) by {
        if t.contains('(') {
            let j = choose|j: int| 0 <= j < t.len() && t[j] == '(';
            assert(t[j] != '(');
        }
    }
    assert(!s.contains('(')) by {
        if s.contains('(') {
            let j = choose|j: int| 0 <= j < s.len() && s[j] == '(';
            assert(s[j] != '(');
        }
    }
    assert(a == t + seq!['('] + s);
    lemma_split_after_piece(t, s, '(');
    lemma_split_without_separator(s, '(');
    assert(split_seq(a, '(') == seq![t, s]);
    lemma_trim_plain(t);
    lemma_trim_plain(s);
    assert(trimmed_nonempty(seq![t, s]) == seq![t, s]) by {
        assert(seq![t, s].drop_last() =~= seq![t]);
        assert(seq![t].drop_last() =~= Seq::<Seq<char>>::empty());
        assert(trimmed_nonempty(Seq::<Seq<char>>::empty()) == Seq::<Seq<char>>::empty());
        assert(trimmed_nonempty(seq![t]) =~= seq![t]);
        assert(seq![t].push(s) =~= seq![t, s]);
    }
    assert(a.last() == s.last());
    lemma_trim_plain(a);
    match f {
        Some(x) => {
            let fx = without_spaces(x);
            let line = a + "): "@ + x;
            lemma_without_spaces_concat(a + "): "@, x);
            lemma_without_spaces_concat(a, "): "@);
            assert(without_spaces("): "@) =~= p) by {
                let q = "): "@;
                assert(q.drop_last() =~= seq![')', ':']);
                assert(seq![')', ':'].drop_last() =~= seq![')']);
                assert(seq![')'].drop_last() =~= Seq::<char>::empty());
                assert(without_spaces(Seq::<char>::empty()) == Seq::<char>::empty());
                assert(without_spaces(seq![')']) =~= seq![')']);
                assert(without_spaces(seq![')', ':']) =~= seq![')', ':']);
                assert(without_spaces(q) == without_spaces(seq![')', ':']));
            }
            let w = a + p + fx;
            assert(without_spaces(line) == w);
            assert forall|i: int| 0 <= i < n implies !#[trigger] match_at(w, p, i) by {
                if match_at(w, p, i) {
                    assert(w.subrange(i, i + 2)[0] == w[i]);
                    assert(w[i] == a[i]);
                }
            }
            assert(match_at(w, p, n)) by {
                assert(w.subrange(n, n + 2) =~= p);
            }
            lemma_split_at_match(w, p, 0, n);
            assert(w.skip(0) =~= w);
            assert(w.subrange(0, n) =~= a);
            assert(w.skip(n + 2) =~= fx);
            assert forall|i: int| n + 2 <= i < w.len() implies !#[trigger] match_at(w, p, i) by {
                if match_at(w, p, i) {
                    assert(w.subrange(i, i + 2) =~= fx.subrange(i - n - 2, i - n));
                    assert(match_at(fx, p, i - n - 2));
                }
            }
            lemma_split_no_match(w, p, n + 2);
            assert(split_pattern(w, p) == seq![a, fx]);
            lemma_without_spaces_chars(x);
            assert(!spec_is_whitespace(fx[0])) by {
                let j = choose|j: int| 0 <= j < x.len() && x[j] != ' ' && fx[0] == x[j];
            }
            assert(!spec_is_whitespace(fx.last())) by {
                let j = choose|j: int| 0 <= j < x.len() && x[j] != ' ' && fx[fx.len() - 1] == x[j];
            }
            lemma_trim_plain(fx);
            assert(trimmed_nonempty(seq![a, fx]) == seq![a, fx]) by {
                assert(seq![a, fx].drop_last() =~= seq![a]);
                assert(seq![a].drop_last() =~= Seq::<Seq<char>>::empty());
                assert(trimmed_nonempty(Seq::<Seq<char>>::empty()) == Seq::<Seq<char>>::empty());
                assert(trimmed_nonempty(seq![a]) =~= seq![a]);
                assert(seq![a].push(fx) =~= seq![a, fx]);
            }
            let parts = seq![a, fx];
            assert(parts.drop_last() =~= seq![a]);
            assert(join_seq(seq![a], ""@) == a);
        },
        None => {
            let line = a + ")"@;
            assert(line == a + seq![')']);
            assert forall|i: int| 0 <= i < line.len() implies #[trigger] line[i] != ' ' by {
                if i < n {
                    assert(line[i] == a[i]);
                }
            }
            lemma_without_spaces_plain(line);
            assert forall|i: int| 0 <= i < line.len() implies !#[trigger] match_at(line, p, i) by {
                if match_at(line, p, i) {
                    assert(line.subrange(i, i + 2)[0] == line[i]);
                    assert(line[i] == a[i]);
                }
            }
            lemma_split_no_match(line, p, 0);
            assert(line.skip(0) =~= line);
            lemma_trim_plain(line);
            assert(trimmed_nonempty(seq![line]) == seq![line]) by {
                assert(seq![line].drop_last() =~= Seq::<Seq<char>>::empty());
                assert(trimmed_nonempty(Seq::<Seq<char>>::empty()) == Seq::<Seq<char>>::empty());
                assert(Seq::<Seq<char>>::empty().push(line) =~= seq![line]);
            }
            assert(join_seq(seq![line], ""@) == line);
            assert(line.drop_last() =~= a);
        },
    }
}

/// `s` with the dividers of the stored form of packs taken out, as the name
/// and description of a new pack are before it is stored: first every
/// `&||||&`, then every `&|||&`, `&||&` and `&|&`.
pub open spec fn without_dividers(s: Seq<char>) -> Seq<char> {
    replaced(replaced(replaced(replaced(s, "&||||&"@, ""@), "&|||&"@, ""@), "&||&"@, ""@), "&|&"@, ""@)
}

/// Takes the dividers out of a text entered for a new pack.
pub fn remove_dividers(s: &str) -> (r: String)
    ensures
        r@ == without_dividers(s@),
{
    proof {
        reveal_strlit("&||||&");
        reveal_strlit("&|||&");
        reveal_strlit("&||&");
        reveal_strlit("&|&");
    }
    let a = replace_all(s, "&||||&", "");
    let b = replace_all(a.as_str(), "&|||&", "");
    let c = replace_all(b.as_str(), "&||&", "");
    replace_all(c.as_str(), "&|&", "")
}

/// The texts among `lits` whose flag is set, in order.
pub open spec fn flagged(flags: Seq<bool>, lits: Seq<Seq<char>>) -> Seq<Seq<char>>
    decreases flags.len(),
{
    if flags.len() == 0 {
        seq![]
    } else {
        flagged(flags.drop_last(), lits) + if flags.last() {
            seq![lits[flags.len() - 1]]
        } else {
            seq![]
        }
    }
}

pub open spec fn count_set(flags: Seq<bool>) -> int
    decreases flags.len(),
{
    if flags.len() == 0 {
        0
    } else {
        count_set(flags.drop_last()) + if flags.last() { 1int } else { 0 }
    }
}

proof fn lemma_flagged(flags: Seq<bool>, lits: Seq<Seq<char>>)
    requires
        flags.len() <= lits.len(),
    ensures
        flagged(flags, lits).len() == count_set(flags),
        forall|x: Seq<char>| flagged(flags, lits).contains(x) <==> exists|k: int|
            0 <= k < flags.len() && flags[k] && #[trigger] lits[k] == x,
    decreases flags.len(),
{
    if flags.len() > 0 {
        let init = flags.drop_last();
        lemma_flagged(init, lits);
        let f0 = flagged(init, lits);
        let f = flagged(flags, lits);
        let n = flags.len() - 1;
        assert forall|x: Seq<char>| f.contains(x) <==> exists|k: int| 0 <= k < flags.len() && flags[k] && #[trigger] lits[k] == x by {
            if f.contains(x) {
                let j = choose|j: int| 0 <= j < f.len() && f[j] == x;
                if j < f0.len() {
                    assert(f0.contains(x));
                    let k = choose|k: int| 0 <= k < init.len() && init[k] && #[trigger] lits[k] == x;
                    assert(flags[k]);
                } else {
                    assert(flags[n] && lits[n] == x);
                }
            }
            if exists|k: int| 0 <= k < flags.len() && flags[k] && #[trigger] lits[k] == x {
                let k = choose|k: int| 0 <= k < flags.len() && flags[k] && #[trigger] lits[k] == x;
                if k < n {
                    assert(init[k]);
                    assert(f0.contains(x));
                    let j = choose|j: int| 0 <= j < f0.len() && f0[j] == x;
                    assert(f[j] == x);
                } else {
                    assert(f[f0.len() as int] == x);
                }
            }
        }
    }
}

/// The texts of the six catalogue conditions, in the order in which they
/// are written.
pub open spec fn condition_texts() -> Seq<Seq<char>> {
    seq![
        "CATALOGUE(MESSIER)"@,
        "CATALOGUE(CALDWELL)"@,
        "CATALOGUE(NGC)"@,
        "CATALOGUE(IC)"@,
        "CATALOGUE(BAYER)"@,
        "AND(TYPE(STAR), CATALOGUE(PROPER_NAME))"@,
    ]
}

proof fn lemma_conditions_flagged(messier: bool, caldwell: bool, ngc: bool, ic: bool, bayer: bool, starnames: bool)
    ensures
        spec_catalogue_conditions(messier, caldwell, ngc, ic, bayer, starnames) == flagged(
            seq![messier, caldwell, ngc, ic, bayer, starnames],
            condition_texts(),
        ),
        count_set(seq![messier, caldwell, ngc, ic, bayer, starnames]) == (if messier { 1int } else { 0 }) + (if caldwell {
            1int
        } else {
            0
        }) + (if ngc { 1int } else { 0 }) + (if ic { 1int } else { 0 }) + (if bayer { 1int } else { 0 }) + (if starnames {
            1int
        } else {
            0
        }),
{
    let l = condition_texts();
    let f6 = seq![messier, caldwell, ngc, ic, bayer, starnames];
    let f5 = f6.drop_last();
    let f4 = f5.drop_last();
    let f3 = f4.drop_last();
    let f2 = f3.drop_last();
    let f1 = f2.drop_last();
    let f0 = f1.drop_last();
    assert(f0 =~= Seq::<bool>::empty());
    assert(f1 =~= seq![messier]);
    assert(flagged(f1, l) == flagged(f0, l) + if messier { seq![l[0]] } else { seq![] });
    assert(flagged(f2, l) == flagged(f1, l) + if caldwell { seq![l[1]] } else { seq![] });
    assert(flagged(f3, l) == flagged(f2, l) + if ngc { seq![l[2]] } else { seq![] });
    assert(flagged(f4, l) == flagged(f3, l) + if ic { seq![l[3]] } else { seq![] });
    assert(flagged(f5, l) == flagged(f4, l) + if bayer { seq![l[4]] } else { seq![] });
    assert(flagged(f6, l) == flagged(f5, l) + if starnames { seq![l[5]] } else { seq![] });
    assert(flagged(f0, l) =~= Seq::<Seq<char>>::empty());
    assert(spec_catalogue_conditions(messier, caldwell, ngc, ic, bayer, starnames) =~= flagged(f6, l));
    assert(count_set(f0) == 0);
    assert(count_set(f1) == count_set(f0) + if messier { 1int } else { 0 });
    assert(count_set(f2) == count_set(f1) + if caldwell { 1int } else { 0 });
    assert(count_set(f3) == count_set(f2) + if ngc { 1int } else { 0 });
    assert(count_set(f4) == count_set(f3) + if ic { 1int } else { 0 });
    assert(count_set(f5) == count_set(f4) + if bayer { 1int } else { 0 });
}

/// With texts of different lengths, a text is among the flagged ones exactly
/// when its flag is set.
proof fn lemma_flagged_distinct(flags: Seq<bool>, lits: Seq<Seq<char>>, k: int)
    requires
        flags.len() == lits.len(),
        0 <= k < flags.len(),
        forall|i: int, j: int| 0 <= i < j < lits.len() ==> (#[trigger] lits[i]).len() != (#[trigger] lits[j]).len(),
    ensures
        flags[k] <==> flagged(flags, lits).contains(lits[k]),
{
    lemma_flagged(flags, lits);
    if flagged(flags, lits).contains(lits[k]) {
        let j = choose|j: int| 0 <= j < flags.len() && flags[j] && #[trigger] lits[j] == lits[k];
        if j != k {
            if j < k {
                assert(lits[j].len() != lits[k].len());
            } else {
                assert(lits[k].len() != lits[j].len());
            }
        }
    } else {
        assert(!(flags[k] && lits[k] == lits[k]));
    }
}

proof fn lemma_condition_text_lengths()
    ensures
        condition_texts().len() == 6,
        forall|i: int, j: int| 0 <= i < j < 6 ==> (#[trigger] condition_texts()[i]).len() != (#[trigger] condition_texts()[j]).len(),
{
    reveal_strlit("CATALOGUE(MESSIER)");
    reveal_strlit("CATALOGUE(CALDWELL)");
    reveal_strlit("CATALOGUE(NGC)");
    reveal_strlit("CATALOGUE(IC)");
    reveal_strlit("CATALOGUE(BAYER)");
    reveal_strlit("AND(TYPE(STAR), CATALOGUE(PROPER_NAME))");
    let l = condition_texts();
    assert(l[0].len() == 18 && l[1].len() == 19 && l[2].len() == 14);
    assert(l[3].len() == 13 && l[4].len() == 16 && l[5].len() == 39);
}

/// Each catalogue chosen in the basic settings adds the condition that names
/// it, and a catalogue's condition is there only when it is chosen; the
/// conditions come one per chosen catalogue.
pub proof fn lemma_chosen_catalogue_conditions(messier: bool, caldwell: bool, ngc: bool, ic: bool, bayer: bool, starnames: bool)
    ensures
        ({
            let cs = spec_catalogue_conditions(messier, caldwell, ngc, ic, bayer, starnames);
            &&& messier <==> cs.contains("CATALOGUE(MESSIER)"@)
            &&& caldwell <==> cs.contains("CATALOGUE(CALDWELL)"@)
            &&& ngc <==> cs.contains("CATALOGUE(NGC)"@)
            &&& ic <==> cs.contains("CATALOGUE(IC)"@)
            &&& bayer <==> cs.contains("CATALOGUE(BAYER)"@)
            &&& starnames <==> cs.contains("AND(TYPE(STAR), CATALOGUE(PROPER_NAME))"@)
            &&& cs.len() == (if messier { 1int } else { 0 }) + (if caldwell { 1int } else { 0 }) + (if ngc { 1int } else { 0 })
                + (if ic { 1int } else { 0 }) + (if bayer { 1int } else { 0 }) + (if starnames { 1int } else { 0 })
        }),
{
    let flags = seq![messier, caldwell, ngc, ic, bayer, starnames];
    let l = condition_texts();
    lemma_conditions_flagged(messier, caldwell, ngc, ic, bayer, starnames);
    lemma_condition_text_lengths();
    lemma_flagged(flags, l);
    lemma_flagged_distinct(flags, l, 0);
    lemma_flagged_distinct(flags, l, 1);
    lemma_flagged_distinct(flags, l, 2);
    lemma_flagged_distinct(flags, l, 3);
    lemma_flagged_distinct(flags, l, 4);
    lemma_flagged_distinct(flags, l, 5);
}

} // verus!

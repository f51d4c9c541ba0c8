//! The lines that the basic question settings generate: each splits into its
//! question type, settings and filter, and the filter parses.

use vstd::prelude::*;
use crate::filter::{
    any_value, catalogue_args, catalogue_named, keyword_from_raw, keyword_named, type_args,
    KeywordName, SpecNode,
};
use crate::objects::object_type_result;
use crate::parser::{ident_end, is_ident_char, is_sign, skip_ws, spec_parse_arguments, spec_parse_expression, word_end};
use crate::query::{
    basic_query, basic_query_lines, catalogue_line, lemma_split_pattern_len, lemma_split_pattern_prefix, replaced,
    split_pattern, conditions_of, is_plain_filter, is_plain_word, lemma_query_line_read_back,
    lemma_without_spaces_chars, lemma_without_spaces_concat, lemma_without_spaces_plain, match_at, plain_line,
    query_line_text, spec_basic_filter, spec_query_line, BasicQuery,
};
use crate::text::{
    is_ascii_alphanumeric, is_float_literal, join_seq, lemma_split_join, spec_is_whitespace, split_seq, upper_case_of,
    without_spaces,
};

verus! {

/// A character of a word of the filter language that is plain ASCII.
pub open spec fn is_word_char(c: char) -> bool {
    is_ascii_alphanumeric(c) || c == '_' || c == '.' || c == ':'
}

/// Whether `w` is a value of the filter language written in ASCII: word
/// characters, after one sign where there is one.
pub open spec fn value_word(w: Seq<char>) -> bool {
    &&& w.len() > 0
    &&& forall|i: int| 1 <= i < w.len() ==> is_word_char(#[trigger] w[i])
    &&& (is_word_char(w[0]) || (is_sign(w[0]) && w.len() > 1))
}

/// Whether `n` is written in word characters only, as keywords are.
pub open spec fn keyword_word(n: Seq<char>) -> bool {
    &&& n.len() > 0
    &&& forall|i: int| 0 <= i < n.len() ==> is_word_char(#[trigger] n[i])
}

/// A keyword applied to arguments, written without spaces.
pub open spec fn applied(n: Seq<char>, args: Seq<Seq<char>>) -> Seq<char> {
    n + "("@ + join_seq(args, ","@) + ")"@
}

/// Whether an argument may end at offset `q` of `cs`: at the end, or before
/// a comma or a closing bracket.
pub open spec fn ends_argument(cs: Seq<char>, q: int) -> bool {
    q == cs.len() || (0 <= q < cs.len() && (cs[q] == ',' || cs[q] == ')'))
}

/// Whether `a` stands at offset `o` of `cs` where an argument may end after it.
pub open spec fn stands_at(cs: Seq<char>, o: int, a: Seq<char>) -> bool {
    &&& 0 <= o
    &&& o + a.len() <= cs.len()
    &&& cs.subrange(o, o + a.len()) == a
    &&& ends_argument(cs, o + a.len())
}

/// Whether `a`, wherever it stands as an argument, reads as the value `a`.
pub open spec fn reads_as_value(g: Seq<(Seq<char>, Seq<(Seq<char>, bool)>)>, a: Seq<char>) -> bool {
    forall|cs: Seq<char>, o: int| #[trigger] stands_at(cs, o, a) ==> spec_parse_expression(cs, g, o) == Ok::<(Option<SpecNode>, int), Seq<char>>((Some(SpecNode::Value(a)), o + a.len()))
}

/// Whether `a`, wherever it stands as an argument, reads as a keyword.
pub open spec fn reads_as_keyword(g: Seq<(Seq<char>, Seq<(Seq<char>, bool)>)>, a: Seq<char>) -> bool {
    forall|cs: Seq<char>, o: int| #[trigger] stands_at(cs, o, a) ==> (spec_parse_expression(cs, g, o) matches Ok((Some(SpecNode::Keyword(_)), q)) && q == o + a.len())
}

/// Whether the arguments `args` read as values (`values`) or as keywords.
pub open spec fn args_read(g: Seq<(Seq<char>, Seq<(Seq<char>, bool)>)>, args: Seq<Seq<char>>, values: bool) -> bool {
    forall|i: int| 0 <= i < args.len() ==> (if values {
        reads_as_value(g, #[trigger] args[i])
    } else {
        reads_as_keyword(g, args[i])
    })
}

/// Whether the nodes `ns` are what arguments `args` read as.
pub open spec fn nodes_match(ns: Seq<SpecNode>, args: Seq<Seq<char>>, values: bool) -> bool {
    &&& ns.len() == args.len()
    &&& forall|i: int| 0 <= i < ns.len() ==> (if values {
        #[trigger] ns[i] == SpecNode::Value(args[i])
    } else {
        ns[i] is Keyword
    })
}

proof fn lemma_word_char(c: char)
    requires
        is_word_char(c) || is_sign(c),
    ensures
        !spec_is_whitespace(c),
        c != ',' && c != ')' && c != '(' && c != '{',
        is_word_char(c) ==> is_ident_char(c),
{
}

proof fn lemma_not_ident(c: char)
    requires
        c == ',' || c == ')' || c == '(',
    ensures
        !is_ident_char(c),
        !spec_is_whitespace(c),
        !is_sign(c),
{
}

/// The identifier characters from `s` run up to `e`.
proof fn lemma_ident_run(cs: Seq<char>, s: int, e: int)
    requires
        0 <= s <= e <= cs.len(),
        forall|t: int| s <= t < e ==> is_ident_char(#[trigger] cs[t]),
        e == cs.len() || !is_ident_char(cs[e]),
    ensures
        ident_end(cs, s) == e,
    decreases e - s,
{
    if s < e {
        lemma_ident_run(cs, s + 1, e);
    }
}

/// A value word reads as itself wherever it stands as an argument.
pub proof fn lemma_value_word_reads(g: Seq<(Seq<char>, Seq<(Seq<char>, bool)>)>, w: Seq<char>)
    requires
        value_word(w),
    ensures
        reads_as_value(g, w),
{
    assert forall|cs: Seq<char>, o: int| #[trigger] stands_at(cs, o, w) implies spec_parse_expression(cs, g, o) == Ok::<(Option<SpecNode>, int), Seq<char>>((Some(SpecNode::Value(w)), o + w.len())) by {
        let e = o + w.len();
        assert forall|t: int| o <= t < e implies #[trigger] cs[t] == w[t - o] by {
            assert(cs.subrange(o, e)[t - o] == cs[t]);
        }
        lemma_word_char(w[0]);
        assert(cs[o] == w[0]);
        assert(skip_ws(cs, o) == o);
        if e < cs.len() {
            lemma_not_ident(cs[e]);
        }
        assert(skip_ws(cs, e) == e);
        if is_word_char(w[0]) {
            assert forall|t: int| o <= t < e implies is_ident_char(#[trigger] cs[t]) by {
                assert(cs[t] == w[t - o]);
                lemma_word_char(w[t - o]);
            }
            lemma_ident_run(cs, o, e);
            assert(!is_sign(cs[o]));
            assert(word_end(cs, o) == e);
        } else {
            assert forall|t: int| o + 1 <= t < e implies is_ident_char(#[trigger] cs[t]) by {
                assert(cs[t] == w[t - o]);
                lemma_word_char(w[t - o]);
            }
            lemma_ident_run(cs, o + 1, e);
            assert(cs[o + 1] == w[1]);
            lemma_word_char(w[1]);
            assert(word_end(cs, o) == e);
        }
        assert(cs.subrange(o, e) == w);
    }
}

/// Arguments that each read as a value or a keyword, written with commas
/// between them and a closing bracket after them, read as their nodes.
proof fn lemma_arguments_read(
    g: Seq<(Seq<char>, Seq<(Seq<char>, bool)>)>,
    cs: Seq<char>,
    o: int,
    args: Seq<Seq<char>>,
    values: bool,
)
    requires
        args.len() >= 1,
        args_read(g, args, values),
        0 <= o,
        o + join_seq(args, ","@).len() + 1 <= cs.len(),
        cs.subrange(o, o + join_seq(args, ","@).len() + 1) == join_seq(args, ","@) + ")"@,
    ensures
        spec_parse_arguments(cs, g, o) matches Ok((ns, q)) && q == o + join_seq(args, ","@).len() + 1 && nodes_match(
            ns,
            args,
            values,
        ),
    decreases args.len(),
{
    reveal_strlit(",");
    reveal_strlit(")");
    let j = join_seq(args, ","@);
    let a = args[0];
    let e = o + a.len();
    let whole = j + ")"@;
    assert forall|t: int| o <= t < o + whole.len() implies #[trigger] cs[t] == whole[t - o] by {
        assert(cs.subrange(o, o + whole.len())[t - o] == cs[t]);
    }
    if args.len() == 1 {
        assert(j == a);
        assert(cs[e] == ')') by {
            assert(whole[a.len() as int] == ')');
        }
    } else {
        let rest = args.drop_first();
        assert(j == a + ","@ + join_seq(rest, ","@));
        assert(cs[e] == ',') by {
            assert(whole[a.len() as int] == ',');
        }
    }
    assert(cs.subrange(o, e) =~= a) by {
        assert forall|t: int| 0 <= t < a.len() implies cs.subrange(o, e)[t] == a[t] by {
            assert(cs[o + t] == whole[t]);
            assert(whole[t] == j[t]);
            if args.len() > 1 {
                assert(j[t] == (a + ","@ + join_seq(args.drop_first(), ","@))[t]);
            }
        }
    }
    assert(stands_at(cs, o, a));
    assert(if values { reads_as_value(g, args[0]) } else { reads_as_keyword(g, args[0]) });
    lemma_not_ident(cs[e]);
    assert(skip_ws(cs, e) == e);
    if args.len() == 1 {
        if values {
            assert(spec_parse_expression(cs, g, o) == Ok::<(Option<SpecNode>, int), Seq<char>>((Some(SpecNode::Value(a)), e)));
            let ns = seq![SpecNode::Value(a)];
            assert(spec_parse_arguments(cs, g, o) == Ok::<(Seq<SpecNode>, int), Seq<char>>((ns, e + 1)));
            assert(nodes_match(ns, args, values));
        } else {
            let n = spec_parse_expression(cs, g, o)->Ok_0.0->Some_0;
            let ns = seq![n];
            assert(spec_parse_arguments(cs, g, o) == Ok::<(Seq<SpecNode>, int), Seq<char>>((ns, e + 1)));
            assert(nodes_match(ns, args, values));
        }
    } else {
        let rest = args.drop_first();
        let jr = join_seq(rest, ","@);
        let o2 = e + 1;
        assert forall|i: int| 0 <= i < rest.len() implies (if values {
            reads_as_value(g, #[trigger] rest[i])
        } else {
            reads_as_keyword(g, rest[i])
        }) by {
            assert(rest[i] == args[i + 1]);
        }
        assert(cs.subrange(o2, o2 + jr.len() + 1) =~= jr + ")"@) by {
            assert forall|t: int| 0 <= t < jr.len() + 1 implies cs.subrange(o2, o2 + jr.len() + 1)[t] == (jr + ")"@)[t] by {
                assert(cs[o2 + t] == whole[a.len() + 1 + t]);
                if t < jr.len() {
                    assert(whole[a.len() + 1 + t] == j[a.len() + 1 + t]);
                    assert(j[a.len() + 1 + t] == (a + ","@ + jr)[a.len() + 1 + t]);
                }
            }
        }
        lemma_arguments_read(g, cs, o2, rest, values);
        let rns = spec_parse_arguments(cs, g, o2)->Ok_0.0;
        let n = spec_parse_expression(cs, g, o)->Ok_0.0->Some_0;
        assert(spec_parse_arguments(cs, g, o) == Ok::<(Seq<SpecNode>, int), Seq<char>>((seq![n] + rns, o2 + jr.len() + 1)));
        assert(nodes_match(seq![n] + rns, args, values)) by {
            assert forall|i: int| 0 <= i < args.len() implies (if values {
                #[trigger] (seq![n] + rns)[i] == SpecNode::Value(args[i])
            } else {
                (seq![n] + rns)[i] is Keyword
            }) by {
                if i > 0 {
                    assert((seq![n] + rns)[i] == rns[i - 1]);
                    assert(args[i] == rest[i - 1]);
                }
            }
        }
    }
}

/// Whether keyword `k` takes the arguments `args`, read as values
/// (`values`) or as keywords, whatever the positions.
pub open spec fn keyword_accepts(k: KeywordName, args: Seq<Seq<char>>, values: bool) -> bool {
    match k {
        KeywordName::And | KeywordName::Or => !values,
        KeywordName::Not => !values && args.len() == 1,
        KeywordName::MagBelow | KeywordName::MagAbove => values && args.len() == 1 && is_float_literal(args[0]),
        KeywordName::Catalogue => values && forall|i: int|
            0 <= i < args.len() ==> catalogue_named(upper_case_of(#[trigger] args[i])) is Some,
        KeywordName::Type => values && forall|i: int|
            0 <= i < args.len() ==> object_type_result(upper_case_of(#[trigger] args[i]), args[i]) is Ok,
        _ => false,
    }
}

proof fn lemma_catalogue_args(ns: Seq<SpecNode>, args: Seq<Seq<char>>, pos: nat)
    requires
        nodes_match(ns, args, true),
        forall|i: int| 0 <= i < args.len() ==> catalogue_named(upper_case_of(#[trigger] args[i])) is Some,
    ensures
        catalogue_args(ns, pos) matches Ok(cs) && cs.len() == ns.len(),
    decreases ns.len(),
{
    if ns.len() > 0 {
        assert(ns[0] == SpecNode::Value(args[0]));
        assert(catalogue_named(upper_case_of(args[0])) is Some);
        let rest = ns.drop_first();
        let ra = args.drop_first();
        assert forall|i: int| 0 <= i < rest.len() implies #[trigger] rest[i] == SpecNode::Value(ra[i]) by {
            assert(rest[i] == ns[i + 1]);
            assert(ra[i] == args[i + 1]);
        }
        assert forall|i: int| 0 <= i < ra.len() implies catalogue_named(upper_case_of(#[trigger] ra[i])) is Some by {
            assert(ra[i] == args[i + 1]);
        }
        lemma_catalogue_args(rest, ra, pos);
    }
}

proof fn lemma_type_args(ns: Seq<SpecNode>, args: Seq<Seq<char>>, pos: nat)
    requires
        nodes_match(ns, args, true),
        forall|i: int| 0 <= i < args.len() ==> object_type_result(upper_case_of(#[trigger] args[i]), args[i]) is Ok,
    ensures
        type_args(ns, pos) matches Ok(ts) && ts.len() == ns.len(),
    decreases ns.len(),
{
    if ns.len() > 0 {
        assert(ns[0] == SpecNode::Value(args[0]));
        assert(object_type_result(upper_case_of(args[0]), args[0]) is Ok);
        let rest = ns.drop_first();
        let ra = args.drop_first();
        assert forall|i: int| 0 <= i < rest.len() implies #[trigger] rest[i] == SpecNode::Value(ra[i]) by {
            assert(rest[i] == ns[i + 1]);
            assert(ra[i] == args[i + 1]);
        }
        assert forall|i: int| 0 <= i < ra.len() implies object_type_result(upper_case_of(#[trigger] ra[i]), ra[i]) is Ok by {
            assert(ra[i] == args[i + 1]);
        }
        lemma_type_args(rest, ra, pos);
    }
}

proof fn lemma_keyword_from_raw_ok(
    k: KeywordName,
    ns: Seq<SpecNode>,
    args: Seq<Seq<char>>,
    values: bool,
    pos: nat,
    id: nat,
    g: Seq<(Seq<char>, Seq<(Seq<char>, bool)>)>,
)
    requires
        args.len() >= 1,
        nodes_match(ns, args, values),
        keyword_accepts(k, args, values),
    ensures
        keyword_from_raw(k, ns, pos, id, g) is Ok,
{
    if !values {
        assert(!any_value(ns)) by {
            if any_value(ns) {
                let i = choose|i: int| 0 <= i < ns.len() && (#[trigger] ns[i]) is Value;
                assert(ns[i] is Keyword);
            }
        }
    } else {
        assert(ns[0] == SpecNode::Value(args[0]));
        assert(!crate::filter::any_keyword(ns)) by {
            if crate::filter::any_keyword(ns) {
                let i = choose|i: int| 0 <= i < ns.len() && (#[trigger] ns[i]) is Keyword;
                assert(ns[i] == SpecNode::Value(args[i]));
            }
        }
        match k {
            KeywordName::Catalogue => lemma_catalogue_args(ns, args, pos),
            KeywordName::Type => lemma_type_args(ns, args, pos),
            _ => {},
        }
    }
}

/// A keyword applied to arguments that it takes reads as a keyword wherever
/// it stands as an argument.
pub proof fn lemma_keyword_reads(
    g: Seq<(Seq<char>, Seq<(Seq<char>, bool)>)>,
    n: Seq<char>,
    args: Seq<Seq<char>>,
    values: bool,
)
    requires
        keyword_word(n),
        keyword_named(n) matches Some(k) && keyword_accepts(k, args, values),
        args.len() >= 1,
        args_read(g, args, values),
    ensures
        reads_as_keyword(g, applied(n, args)),
{
    reveal_strlit("(");
    reveal_strlit(")");
    let k = keyword_named(n)->Some_0;
    let t = applied(n, args);
    let j = join_seq(args, ","@);
    assert forall|cs: Seq<char>, o: int| #[trigger] stands_at(cs, o, t) implies (spec_parse_expression(cs, g, o) matches Ok((Some(SpecNode::Keyword(_)), q)) && q == o + t.len()) by {
        let e = o + n.len();
        assert forall|x: int| o <= x < o + t.len() implies #[trigger] cs[x] == t[x - o] by {
            assert(cs.subrange(o, o + t.len())[x - o] == cs[x]);
        }
        assert forall|x: int| o <= x < e implies #[trigger] cs[x] == n[x - o] by {
            assert(cs[x] == t[x - o]);
        }
        assert(cs[e] == '(') by {
            assert(cs[e] == t[n.len() as int]);
        }
        lemma_word_char(n[0]);
        assert(cs[o] == n[0]);
        assert(skip_ws(cs, o) == o);
        lemma_not_ident(cs[e]);
        assert forall|x: int| o <= x < e implies is_ident_char(#[trigger] cs[x]) by {
            assert(cs[x] == n[x - o]);
            lemma_word_char(n[x - o]);
        }
        lemma_ident_run(cs, o, e);
        assert(!is_sign(cs[o]));
        assert(word_end(cs, o) == e);
        assert(skip_ws(cs, e) == e);
        assert(cs.subrange(o, e) =~= n);
        let o2 = e + 1;
        assert(cs.subrange(o2, o2 + j.len() + 1) =~= j + ")"@) by {
            assert forall|x: int| 0 <= x < j.len() + 1 implies cs.subrange(o2, o2 + j.len() + 1)[x] == (j + ")"@)[x] by {
                assert(cs[o2 + x] == t[n.len() + 1 + x]);
            }
        }
        lemma_arguments_read(g, cs, o2, args, values);
        let ns = spec_parse_arguments(cs, g, o2)->Ok_0.0;
        let pos = crate::parser::ident_position(e, n);
        lemma_keyword_from_raw_ok(k, ns, args, values, pos, e as nat, g);
    }
}

proof fn lemma_keyword_chars(n: Seq<char>)
    requires
        n.len() > 0,
        forall|i: int| 0 <= i < n.len() ==> ('A' <= #[trigger] n[i] <= 'Z' || n[i] == '_'),
    ensures
        keyword_word(n),
{
    assert forall|i: int| 0 <= i < n.len() implies is_word_char(#[trigger] n[i]) by {
        assert('A' <= n[i] <= 'Z' || n[i] == '_');
    }
}

proof fn lemma_known_connectives()
    ensures
        keyword_word("AND"@) && keyword_named("AND"@) == Some(KeywordName::And),
        keyword_word("OR"@) && keyword_named("OR"@) == Some(KeywordName::Or),
        keyword_word("NOT"@) && keyword_named("NOT"@) == Some(KeywordName::Not),
{
    reveal_strlit("AND");
    reveal_strlit("OR");
    reveal_strlit("NOT");
    assert("NOT"@[0] != "AND"@[0]);
    lemma_keyword_chars("AND"@);
    lemma_keyword_chars("OR"@);
    lemma_keyword_chars("NOT"@);
}

proof fn lemma_known_leaves()
    ensures
        keyword_word("CATALOGUE"@) && keyword_named("CATALOGUE"@) == Some(KeywordName::Catalogue),
        keyword_word("TYPE"@) && keyword_named("TYPE"@) == Some(KeywordName::Type),
        keyword_word("MAG_BELOW"@) && keyword_named("MAG_BELOW"@) == Some(KeywordName::MagBelow),
{
    lemma_known_catalogue();
    lemma_known_type();
    lemma_known_mag_below();
}

proof fn lemma_known_catalogue()
    ensures
        keyword_word("CATALOGUE"@) && keyword_named("CATALOGUE"@) == Some(KeywordName::Catalogue),
{
    reveal_strlit("AND");
    reveal_strlit("OR");
    reveal_strlit("NOT");
    reveal_strlit("DEC");
    reveal_strlit("RA_DEG");
    reveal_strlit("RA");
    reveal_strlit("CONSTELLATION");
    reveal_strlit("CONSTELLATION_GROUP");
    reveal_strlit("CATALOGUE");
    let n = "CATALOGUE"@;
    assert(n.len() == 9);
    assert(n != "AND"@ && n != "OR"@ && n != "NOT"@ && n != "DEC"@ && n != "RA_DEG"@ && n != "RA"@);
    assert(n != "CONSTELLATION"@ && n != "CONSTELLATION_GROUP"@);
    lemma_keyword_chars(n);
}

proof fn lemma_known_type()
    ensures
        keyword_word("TYPE"@) && keyword_named("TYPE"@) == Some(KeywordName::Type),
{
    reveal_strlit("AND");
    reveal_strlit("OR");
    reveal_strlit("NOT");
    reveal_strlit("DEC");
    reveal_strlit("RA_DEG");
    reveal_strlit("RA");
    reveal_strlit("CONSTELLATION");
    reveal_strlit("CONSTELLATION_GROUP");
    reveal_strlit("CATALOGUE");
    reveal_strlit("TYPE");
    let n = "TYPE"@;
    assert(n.len() == 4);
    assert(n != "AND"@ && n != "OR"@ && n != "NOT"@ && n != "DEC"@ && n != "RA_DEG"@ && n != "RA"@);
    assert(n != "CONSTELLATION"@ && n != "CONSTELLATION_GROUP"@ && n != "CATALOGUE"@);
    lemma_keyword_chars(n);
}

proof fn lemma_known_mag_below()
    ensures
        keyword_word("MAG_BELOW"@) && keyword_named("MAG_BELOW"@) == Some(KeywordName::MagBelow),
{
    reveal_strlit("AND");
    reveal_strlit("OR");
    reveal_strlit("NOT");
    reveal_strlit("DEC");
    reveal_strlit("RA_DEG");
    reveal_strlit("RA");
    reveal_strlit("CONSTELLATION");
    reveal_strlit("CONSTELLATION_GROUP");
    reveal_strlit("CATALOGUE");
    reveal_strlit("TYPE");
    reveal_strlit("MAG_BELOW");
    let n = "MAG_BELOW"@;
    assert(n.len() == 9);
    assert(n[0] != "CATALOGUE"@[0]);
    assert(n != "AND"@ && n != "OR"@ && n != "NOT"@ && n != "DEC"@ && n != "RA_DEG"@ && n != "RA"@);
    assert(n != "CONSTELLATION"@ && n != "CONSTELLATION_GROUP"@ && n != "CATALOGUE"@ && n != "TYPE"@);
    lemma_keyword_chars(n);
}

/// The keywords that the basic settings write are keywords of the filter
/// language, written in word characters.
proof fn lemma_known_words()
    ensures
        keyword_word("AND"@) && keyword_named("AND"@) == Some(KeywordName::And),
        keyword_word("OR"@) && keyword_named("OR"@) == Some(KeywordName::Or),
        keyword_word("NOT"@) && keyword_named("NOT"@) == Some(KeywordName::Not),
        keyword_word("CATALOGUE"@) && keyword_named("CATALOGUE"@) == Some(KeywordName::Catalogue),
        keyword_word("TYPE"@) && keyword_named("TYPE"@) == Some(KeywordName::Type),
        keyword_word("MAG_BELOW"@) && keyword_named("MAG_BELOW"@) == Some(KeywordName::MagBelow),
{
    lemma_known_connectives();
    lemma_known_leaves();
}

/// A catalogue name that the basic settings write, in upper case and ASCII.
proof fn lemma_catalogue_word(w: Seq<char>)
    requires
        w == "MESSIER"@ || w == "CALDWELL"@ || w == "NGC"@ || w == "IC"@ || w == "BAYER"@ || w == "PROPER_NAME"@,
    ensures
        value_word(w),
        catalogue_named(upper_case_of(w)) is Some,
{
    reveal_strlit("BAYER");
    reveal_strlit("FLAMSTEED");
    reveal_strlit("MESSIER");
    reveal_strlit("CALDWELL");
    reveal_strlit("NGC");
    reveal_strlit("IC");
    reveal_strlit("HD");
    reveal_strlit("HIP");
    reveal_strlit("PROPER_NAME");
    assert(crate::text::is_ascii_chars(w));
    assert(upper_case_of(w) =~= w);
}

proof fn lemma_star_word()
    ensures
        value_word("STAR"@),
        object_type_result(upper_case_of("STAR"@), "STAR"@) is Ok,
{
    reveal_strlit("STAR");
    assert(crate::text::is_ascii_chars("STAR"@));
    assert(upper_case_of("STAR"@) =~= "STAR"@);
}

proof fn lemma_join_one(x: Seq<char>, sep: Seq<char>)
    ensures
        join_seq(seq![x], sep) == x,
{
}

proof fn lemma_join_two(x: Seq<char>, y: Seq<char>, sep: Seq<char>)
    ensures
        join_seq(seq![x, y], sep) == x + sep + y,
{
    assert(seq![x, y].drop_first() =~= seq![y]);
    lemma_join_one(y, sep);
}

proof fn lemma_join_three(x: Seq<char>, y: Seq<char>, z: Seq<char>, sep: Seq<char>)
    ensures
        join_seq(seq![x, y, z], sep) == x + sep + y + sep + z,
{
    assert(seq![x, y, z].drop_first() =~= seq![y, z]);
    lemma_join_two(y, z, sep);
    assert(x + sep + (y + sep + z) =~= x + sep + y + sep + z);
}

/// `TYPE(STAR)`, which reads as a keyword.
pub open spec fn star_type() -> Seq<char> {
    applied("TYPE"@, seq!["STAR"@])
}

proof fn lemma_star_type_text()
    ensures
        star_type() == "TYPE(STAR)"@,
{
    reveal_strlit("TYPE(STAR)");
    reveal_strlit("TYPE");
    reveal_strlit("STAR");
    reveal_strlit("(");
    reveal_strlit(")");
    lemma_join_one("STAR"@, ","@);
    assert(star_type() =~= "TYPE(STAR)"@);
}

proof fn lemma_star_type_reads(g: Seq<(Seq<char>, Seq<(Seq<char>, bool)>)>)
    ensures
        reads_as_keyword(g, star_type()),
        star_type() == "TYPE(STAR)"@,
{
    lemma_known_words();
    lemma_star_word();
    lemma_value_word_reads(g, "STAR"@);
    let args = seq!["STAR"@];
    assert(args[0] == "STAR"@);
    lemma_keyword_reads(g, "TYPE"@, args, true);
    lemma_star_type_text();
}

/// `CATALOGUE(w)`, which reads as a keyword.
proof fn lemma_catalogue_reads(g: Seq<(Seq<char>, Seq<(Seq<char>, bool)>)>, w: Seq<char>)
    requires
        w == "MESSIER"@ || w == "CALDWELL"@ || w == "NGC"@ || w == "IC"@ || w == "BAYER"@ || w == "PROPER_NAME"@,
    ensures
        reads_as_keyword(g, applied("CATALOGUE"@, seq![w])),
        applied("CATALOGUE"@, seq![w]) == "CATALOGUE"@ + "("@ + w + ")"@,
{
    lemma_known_words();
    lemma_catalogue_word(w);
    lemma_value_word_reads(g, w);
    let args = seq![w];
    assert(args[0] == w);
    lemma_keyword_reads(g, "CATALOGUE"@, args, true);
    lemma_join_one(w, ","@);
}

/// A character that a filter of the basic settings may hold: no colon, no
/// opening brace, and no whitespace but spaces.
pub open spec fn tidy_char(c: char) -> bool {
    c != ':' && c != '{' && (c == ' ' || !spec_is_whitespace(c))
}

pub open spec fn tidy(s: Seq<char>) -> bool {
    forall|i: int| 0 <= i < s.len() ==> tidy_char(#[trigger] s[i])
}

pub open spec fn spaceless(s: Seq<char>) -> bool {
    forall|i: int| 0 <= i < s.len() ==> #[trigger] s[i] != ' '
}

proof fn lemma_tidy_concat(a: Seq<char>, b: Seq<char>)
    requires
        tidy(a),
        tidy(b),
    ensures
        tidy(a + b),
{
    assert forall|i: int| 0 <= i < (a + b).len() implies tidy_char(#[trigger] (a + b)[i]) by {
        if i < a.len() {
            assert((a + b)[i] == a[i]);
        } else {
            assert((a + b)[i] == b[i - a.len()]);
        }
    }
}

proof fn lemma_spaceless_concat(a: Seq<char>, b: Seq<char>)
    requires
        spaceless(a),
        spaceless(b),
    ensures
        spaceless(a + b),
{
    assert forall|i: int| 0 <= i < (a + b).len() implies #[trigger] (a + b)[i] != ' ' by {
        if i < a.len() {
            assert((a + b)[i] == a[i]);
        } else {
            assert((a + b)[i] == b[i - a.len()]);
        }
    }
}

proof fn lemma_tidy_join(xs: Seq<Seq<char>>, sep: Seq<char>)
    requires
        tidy(sep),
        forall|i: int| 0 <= i < xs.len() ==> tidy(#[trigger] xs[i]),
    ensures
        tidy(join_seq(xs, sep)),
    decreases xs.len(),
{
    if xs.len() > 1 {
        let rest = xs.drop_first();
        assert forall|i: int| 0 <= i < rest.len() implies tidy(#[trigger] rest[i]) by {
            assert(rest[i] == xs[i + 1]);
        }
        lemma_tidy_join(rest, sep);
        assert(tidy(xs[0]));
        lemma_tidy_concat(xs[0], sep);
        lemma_tidy_concat(xs[0] + sep, join_seq(rest, sep));
    } else if xs.len() == 1 {
        assert(tidy(xs[0]));
    }
}

proof fn lemma_without_space()
    ensures
        without_spaces(seq![' ']) == Seq::<char>::empty(),
{
    let s = seq![' '];
    assert(s.drop_last() =~= Seq::<char>::empty());
    assert(without_spaces(Seq::<char>::empty()) == Seq::<char>::empty());
    assert(s.last() == ' ');
    assert(without_spaces(s) == without_spaces(s.drop_last()));
}

/// Dropping the spaces of texts joined by a comma and a space joins the
/// texts without their spaces by a comma.
proof fn lemma_without_spaces_join(xs: Seq<Seq<char>>)
    ensures
        without_spaces(join_seq(xs, ", "@)) == join_seq(xs.map_values(|x: Seq<char>| without_spaces(x)), ","@),
    decreases xs.len(),
{
    let ws = xs.map_values(|x: Seq<char>| without_spaces(x));
    if xs.len() == 0 {
        assert(without_spaces(Seq::<char>::empty()) == Seq::<char>::empty());
    } else if xs.len() == 1 {
        assert(ws[0] == without_spaces(xs[0]));
    } else {
        reveal_strlit(", ");
        reveal_strlit(",");
        let rest = xs.drop_first();
        lemma_without_spaces_join(rest);
        assert(ws.drop_first() =~= rest.map_values(|x: Seq<char>| without_spaces(x)));
        assert(", "@ =~= ","@ + seq![' ']);
        lemma_without_spaces_plain(","@);
        lemma_without_space();
        lemma_without_spaces_concat(","@, seq![' ']);
        assert(","@ + Seq::<char>::empty() =~= ","@);
        let j = join_seq(rest, ", "@);
        lemma_without_spaces_concat(xs[0], ", "@);
        lemma_without_spaces_concat(xs[0] + ", "@, j);
        assert(ws[0] == without_spaces(xs[0]));
    }
}

/// A condition on catalogues that the basic settings write: it holds no colon
/// and no whitespace but spaces, and without its spaces it reads as a keyword.
proof fn lemma_condition_reads(g: Seq<(Seq<char>, Seq<(Seq<char>, bool)>)>, c: Seq<char>)
    requires
        c == "CATALOGUE(MESSIER)"@ || c == "CATALOGUE(CALDWELL)"@ || c == "CATALOGUE(NGC)"@ || c == "CATALOGUE(IC)"@
            || c == "CATALOGUE(BAYER)"@ || c == "AND(TYPE(STAR), CATALOGUE(PROPER_NAME))"@,
    ensures
        tidy(c),
        reads_as_keyword(g, without_spaces(c)),
{
    reveal_strlit("CATALOGUE(MESSIER)");
    reveal_strlit("CATALOGUE(CALDWELL)");
    reveal_strlit("CATALOGUE(NGC)");
    reveal_strlit("CATALOGUE(IC)");
    reveal_strlit("CATALOGUE(BAYER)");
    reveal_strlit("AND(TYPE(STAR), CATALOGUE(PROPER_NAME))");
    reveal_strlit("CATALOGUE");
    reveal_strlit("(");
    reveal_strlit(")");
    assert(tidy(c));
    if c == "AND(TYPE(STAR), CATALOGUE(PROPER_NAME))"@ {
        reveal_strlit("PROPER_NAME");
        reveal_strlit("AND");
        reveal_strlit(",");
        reveal_strlit("TYPE(STAR)");
        lemma_star_type_reads(g);
        lemma_catalogue_reads(g, "PROPER_NAME"@);
        let cat = applied("CATALOGUE"@, seq!["PROPER_NAME"@]);
        let a = "AND"@ + "("@ + star_type() + ","@;
        let b = cat + ")"@;
        assert(c =~= a + seq![' '] + b);
        assert(spaceless(a));
        assert(spaceless(b));
        lemma_without_spaces_plain(a);
        lemma_without_spaces_plain(b);
        lemma_without_space();
        lemma_without_spaces_concat(a, seq![' ']);
        lemma_without_spaces_concat(a + seq![' '], b);
        let args = seq![star_type(), cat];
        lemma_join_two(star_type(), cat, ","@);
        assert(without_spaces(c) =~= applied("AND"@, args));
        lemma_known_words();
        assert forall|i: int| 0 <= i < args.len() implies reads_as_keyword(g, #[trigger] args[i]) by {}
        lemma_keyword_reads(g, "AND"@, args, false);
    } else {
        let w = if c == "CATALOGUE(MESSIER)"@ {
            "MESSIER"@
        } else if c == "CATALOGUE(CALDWELL)"@ {
            "CALDWELL"@
        } else if c == "CATALOGUE(NGC)"@ {
            "NGC"@
        } else if c == "CATALOGUE(IC)"@ {
            "IC"@
        } else {
            "BAYER"@
        };
        reveal_strlit("MESSIER");
        reveal_strlit("CALDWELL");
        reveal_strlit("NGC");
        reveal_strlit("IC");
        reveal_strlit("BAYER");
        lemma_catalogue_reads(g, w);
        assert(c =~= applied("CATALOGUE"@, seq![w]));
        assert(spaceless(c));
        lemma_without_spaces_plain(c);
    }
}

/// Whether `m` can stand as the magnitude cutoff of a filter: a float literal
/// written as one value word, as the cutoffs that the settings write are.
pub open spec fn cutoff_word(m: Seq<char>) -> bool {
    &&& is_float_literal(m)
    &&& value_word(m)
    &&& !m.contains(':')
}

proof fn lemma_cutoff_chars(m: Seq<char>)
    requires
        cutoff_word(m),
    ensures
        tidy(m),
        spaceless(m),
{
    assert forall|i: int| 0 <= i < m.len() implies tidy_char(#[trigger] m[i]) && m[i] != ' ' by {
        if i == 0 {
            if is_word_char(m[0]) {
                lemma_word_char(m[0]);
            }
        } else {
            lemma_word_char(m[i]);
        }
        if m[i] == ':' {
            assert(m.contains(':'));
        }
    }
}

/// `MAG_BELOW(m)` reads as a keyword.
proof fn lemma_mag_below_reads(g: Seq<(Seq<char>, Seq<(Seq<char>, bool)>)>, m: Seq<char>)
    requires
        cutoff_word(m),
    ensures
        reads_as_keyword(g, applied("MAG_BELOW"@, seq![m])),
        applied("MAG_BELOW"@, seq![m]) == "MAG_BELOW("@ + m + ")"@,
        tidy("MAG_BELOW("@ + m + ")"@),
        spaceless("MAG_BELOW("@ + m + ")"@),
{
    lemma_known_words();
    lemma_value_word_reads(g, m);
    let args = seq![m];
    assert(args[0] == m);
    lemma_keyword_reads(g, "MAG_BELOW"@, args, true);
    lemma_join_one(m, ","@);
    reveal_strlit("MAG_BELOW(");
    reveal_strlit("MAG_BELOW");
    reveal_strlit("(");
    reveal_strlit(")");
    assert(applied("MAG_BELOW"@, seq![m]) =~= "MAG_BELOW("@ + m + ")"@);
    lemma_cutoff_chars(m);
    assert(tidy("MAG_BELOW("@) && spaceless("MAG_BELOW("@));
    assert(tidy(")"@) && spaceless(")"@));
    lemma_tidy_concat("MAG_BELOW("@, m);
    lemma_tidy_concat("MAG_BELOW("@ + m, ")"@);
    lemma_spaceless_concat("MAG_BELOW("@, m);
    lemma_spaceless_concat("MAG_BELOW("@ + m, ")"@);
}

/// The filter of the basic settings without its spaces, as keywords applied
/// to arguments.
pub open spec fn tight_filter(conds: Seq<Seq<char>>, m: Seq<char>) -> Seq<char> {
    let o = applied("OR"@, conds);
    applied(
        "OR"@,
        seq![
            applied("AND"@, seq![star_type(), applied("MAG_BELOW"@, seq![m]), o]),
            applied("AND"@, seq![applied("NOT"@, seq![star_type()]), o]),
        ],
    )
}

proof fn lemma_tight_filter_reads(g: Seq<(Seq<char>, Seq<(Seq<char>, bool)>)>, conds: Seq<Seq<char>>, m: Seq<char>)
    requires
        conds.len() >= 1,
        forall|i: int| 0 <= i < conds.len() ==> reads_as_keyword(g, #[trigger] conds[i]),
        cutoff_word(m),
    ensures
        reads_as_keyword(g, tight_filter(conds, m)),
{
    lemma_known_words();
    lemma_star_type_reads(g);
    lemma_mag_below_reads(g, m);
    let o = applied("OR"@, conds);
    lemma_keyword_reads(g, "OR"@, conds, false);
    let mb = applied("MAG_BELOW"@, seq![m]);
    let a1 = seq![star_type(), mb, o];
    assert forall|i: int| 0 <= i < a1.len() implies reads_as_keyword(g, #[trigger] a1[i]) by {}
    lemma_keyword_reads(g, "AND"@, a1, false);
    let n1 = seq![star_type()];
    assert forall|i: int| 0 <= i < n1.len() implies reads_as_keyword(g, #[trigger] n1[i]) by {}
    lemma_keyword_reads(g, "NOT"@, n1, false);
    let a2 = seq![applied("NOT"@, n1), o];
    assert forall|i: int| 0 <= i < a2.len() implies reads_as_keyword(g, #[trigger] a2[i]) by {}
    lemma_keyword_reads(g, "AND"@, a2, false);
    let r = seq![applied("AND"@, a1), applied("AND"@, a2)];
    assert forall|i: int| 0 <= i < r.len() implies reads_as_keyword(g, #[trigger] r[i]) by {}
    lemma_keyword_reads(g, "OR"@, r, false);
}

proof fn lemma_ws_split(a: Seq<char>, b: Seq<char>)
    requires
        spaceless(a),
        spaceless(b),
    ensures
        without_spaces(a + seq![' '] + b) == a + b,
{
    lemma_without_space();
    lemma_without_spaces_plain(a);
    lemma_without_spaces_plain(b);
    lemma_without_spaces_concat(a, seq![' ']);
    lemma_without_spaces_concat(a + seq![' '], b);
    assert(a + Seq::<char>::empty() =~= a);
}

/// The filter that the basic settings write for the catalogue conditions
/// `conds` and the cutoff `m` holds no colon and no whitespace but spaces,
/// and without its spaces it is the tight filter.
proof fn lemma_filter_text(conds: Seq<Seq<char>>, m: Seq<char>)
    requires
        conds.len() >= 1,
        forall|i: int| 0 <= i < conds.len() ==> tidy(#[trigger] conds[i]),
        cutoff_word(m),
    ensures
        spec_basic_filter(conds, m) matches Some(f) && tidy(f) && without_spaces(f) == tight_filter(
            conds.map_values(|x: Seq<char>| without_spaces(x)),
            m,
        ),
{
    reveal_strlit("OR(AND(TYPE(STAR), MAG_BELOW(");
    reveal_strlit("), OR(");
    reveal_strlit(")), AND(NOT(TYPE(STAR)), OR(");
    reveal_strlit(")))");
    reveal_strlit("OR");
    reveal_strlit("AND");
    reveal_strlit("NOT");
    reveal_strlit("MAG_BELOW");
    reveal_strlit("TYPE(STAR)");
    reveal_strlit("(");
    reveal_strlit(")");
    reveal_strlit(",");
    reveal_strlit(", ");
    let cw = conds.map_values(|x: Seq<char>| without_spaces(x));
    let list = join_seq(conds, ", "@);
    let lp = join_seq(cw, ","@);
    lemma_without_spaces_join(conds);
    let l1 = "OR(AND(TYPE(STAR), MAG_BELOW("@;
    let l2 = "), OR("@;
    let l3 = ")), AND(NOT(TYPE(STAR)), OR("@;
    let l4 = ")))"@;
    let f = l1 + m + l2 + list + l3 + list + l4;
    assert(spec_basic_filter(conds, m) == Some(f));
    // tidy
    lemma_cutoff_chars(m);
    assert(tidy(l1) && tidy(l2) && tidy(l3) && tidy(l4) && tidy(", "@));
    lemma_tidy_join(conds, ", "@);
    lemma_tidy_concat(l1, m);
    lemma_tidy_concat(l1 + m, l2);
    lemma_tidy_concat(l1 + m + l2, list);
    lemma_tidy_concat(l1 + m + l2 + list, l3);
    lemma_tidy_concat(l1 + m + l2 + list + l3, list);
    lemma_tidy_concat(l1 + m + l2 + list + l3 + list, l4);
    // without spaces
    let x1 = "OR"@ + "("@ + "AND"@ + "("@ + "TYPE(STAR)"@ + ","@;
    let y1 = "MAG_BELOW"@ + "("@;
    assert(l1 =~= x1 + seq![' '] + y1);
    assert(spaceless(x1) && spaceless(y1));
    lemma_ws_split(x1, y1);
    let x2 = ")"@ + ","@;
    let y2 = "OR"@ + "("@;
    assert(l2 =~= x2 + seq![' '] + y2);
    assert(spaceless(x2) && spaceless(y2));
    lemma_ws_split(x2, y2);
    let x3 = ")"@ + ")"@ + ","@;
    let y3 = "AND"@ + "("@ + "NOT"@ + "("@ + "TYPE(STAR)"@ + ")"@ + ","@;
    let z3 = "OR"@ + "("@;
    assert(l3 =~= x3 + seq![' '] + y3 + seq![' '] + z3);
    assert(spaceless(x3) && spaceless(y3) && spaceless(z3));
    lemma_ws_split(x3, y3);
    lemma_without_spaces_plain(z3);
    lemma_without_space();
    lemma_without_spaces_concat(x3 + seq![' '] + y3, seq![' ']);
    lemma_without_spaces_concat(x3 + seq![' '] + y3 + seq![' '], z3);
    assert(without_spaces(l3) =~= x3 + y3 + z3);
    assert(spaceless(l4));
    lemma_without_spaces_plain(l4);
    lemma_without_spaces_plain(m);
    lemma_without_spaces_concat(l1, m);
    lemma_without_spaces_concat(l1 + m, l2);
    lemma_without_spaces_concat(l1 + m + l2, list);
    lemma_without_spaces_concat(l1 + m + l2 + list, l3);
    lemma_without_spaces_concat(l1 + m + l2 + list + l3, list);
    lemma_without_spaces_concat(l1 + m + l2 + list + l3 + list, l4);
    let wf = x1 + y1 + m + (x2 + y2) + lp + (x3 + y3 + z3) + lp + l4;
    assert(without_spaces(f) == wf);
    // the tight filter, written out
    lemma_star_type_text();
    let o = applied("OR"@, cw);
    let mb = applied("MAG_BELOW"@, seq![m]);
    lemma_join_one(m, ","@);
    lemma_join_one(star_type(), ","@);
    lemma_join_three(star_type(), mb, o, ","@);
    let a1 = applied("AND"@, seq![star_type(), mb, o]);
    let n1 = applied("NOT"@, seq![star_type()]);
    lemma_join_two(n1, o, ","@);
    let a2 = applied("AND"@, seq![n1, o]);
    lemma_join_two(a1, a2, ","@);
    assert(o == "OR"@ + "("@ + lp + ")"@);
    assert(mb == "MAG_BELOW"@ + "("@ + m + ")"@);
    assert(a1 =~= "AND"@ + "("@ + "TYPE(STAR)"@ + ","@ + mb + ","@ + o + ")"@);
    assert(n1 =~= "NOT"@ + "("@ + "TYPE(STAR)"@ + ")"@);
    assert(a2 =~= "AND"@ + "("@ + n1 + ","@ + o + ")"@);
    assert(tight_filter(cw, m) == "OR"@ + "("@ + (a1 + ","@ + a2) + ")"@);
    assert(tight_filter(cw, m) =~= wf);
}

/// The catalogue conditions of the basic settings hold no colon and no
/// whitespace but spaces, and each reads as a keyword without its spaces.
proof fn lemma_conditions_read(g: Seq<(Seq<char>, Seq<(Seq<char>, bool)>)>, c: Seq<bool>)
    requires
        c.len() == 6,
    ensures
        forall|i: int| 0 <= i < conditions_of(c).len() ==> tidy(#[trigger] conditions_of(c)[i]) && reads_as_keyword(
            g,
            without_spaces(conditions_of(c)[i]),
        ),
{
    let conds = conditions_of(c);
    assert forall|i: int| 0 <= i < conds.len() implies tidy(#[trigger] conds[i]) && reads_as_keyword(
        g,
        without_spaces(conds[i]),
    ) by {
        assert(conds[i] == "CATALOGUE(MESSIER)"@ || conds[i] == "CATALOGUE(CALDWELL)"@ || conds[i] == "CATALOGUE(NGC)"@
            || conds[i] == "CATALOGUE(IC)"@ || conds[i] == "CATALOGUE(BAYER)"@ || conds[i]
            == "AND(TYPE(STAR), CATALOGUE(PROPER_NAME))"@);
        lemma_condition_reads(g, conds[i]);
    }
}

/// A filter with no colon, no whitespace but spaces, and something besides
/// spaces reads back from a query line as itself without its spaces.
proof fn lemma_tidy_filter_plain(f: Seq<char>)
    requires
        tidy(f),
        without_spaces(f).len() > 0,
    ensures
        is_plain_filter(f),
{
    let w = without_spaces(f);
    lemma_without_spaces_chars(f);
    assert forall|i: int| !#[trigger] match_at(w, "):"@, i) by {
        reveal_strlit("):");
        if match_at(w, "):"@, i) {
            assert(w.subrange(i, i + 2)[1] == "):"@[1]);
            assert(w[i + 1] == ':');
            let j = choose|j: int| 0 <= j < f.len() && f[j] != ' ' && w[i + 1] == f[j];
            assert(tidy_char(f[j]));
        }
    }
    assert forall|i: int| 0 <= i < f.len() implies #[trigger] f[i] == ' ' || !spec_is_whitespace(f[i]) by {
        assert(tidy_char(f[i]));
    }
}

/// Whether a line splits into its question type, settings and filter, and
/// its filter, where it has one, parses.
pub open spec fn line_reads(line: Seq<char>, g: Seq<(Seq<char>, Seq<(Seq<char>, bool)>)>) -> bool {
    spec_query_line(line) matches Some((_t, _s, f)) && (f matches Some(x) ==> spec_parse_expression(x, g, 0) is Ok)
}

pub open spec fn lines_read(lines: Seq<Seq<char>>, g: Seq<(Seq<char>, Seq<(Seq<char>, bool)>)>) -> bool {
    forall|i: int| 0 <= i < lines.len() ==> line_reads(#[trigger] lines[i], g) && line_plain(lines[i])
}

/// Whether no space in `x` is followed by an opening brace.
pub open spec fn no_space_brace(x: Seq<char>) -> bool {
    forall|i: int| 0 <= i && i + 1 < x.len() && #[trigger] x[i] == ' ' ==> x[i + 1] != '{'
}

/// Whether a line holds no line break and no space before an opening brace.
pub open spec fn line_plain(x: Seq<char>) -> bool {
    !x.contains('\n') && no_space_brace(x)
}

/// A query line whose question type and settings hold no whitespace and
/// whose filter is tidy is plain.
proof fn lemma_query_line_plain(t: Seq<char>, s: Seq<char>, f: Option<Seq<char>>)
    requires
        is_plain_word(t),
        is_plain_word(s),
        f matches Some(x) ==> tidy(x),
    ensures
        line_plain(query_line_text(t, s, f)),
{
    reveal_strlit("(");
    reveal_strlit(")");
    reveal_strlit("): ");
    let line = query_line_text(t, s, f);
    let a = t + "("@ + s;
    assert forall|i: int| 0 <= i < a.len() implies #[trigger] a[i] != ' ' && a[i] != '\n' by {
        if i < t.len() {
            assert(a[i] == t[i]);
            assert(!spec_is_whitespace(t[i]));
        } else if i > t.len() {
            assert(a[i] == s[i - t.len() - 1]);
            assert(!spec_is_whitespace(s[i - t.len() - 1]));
        }
    }
    match f {
        Some(x) => {
            let h = a + "): "@;
            assert(line == h + x);
            assert forall|i: int| 0 <= i < line.len() implies #[trigger] line[i] != '\n' by {
                if i < a.len() {
                    assert(line[i] == a[i]);
                } else if i < h.len() {
                    assert(line[i] == "): "@[i - a.len()]);
                } else {
                    assert(line[i] == x[i - h.len()]);
                    assert(tidy_char(x[i - h.len()]));
                }
            }
            assert forall|i: int| 0 <= i && i + 1 < line.len() && #[trigger] line[i] == ' ' implies line[i + 1] != '{' by {
                if i + 1 < h.len() {
                    if i < a.len() {
                        assert(line[i] == a[i]);
                    } else {
                        assert(line[i] == "): "@[i - a.len()]);
                    }
                } else {
                    assert(line[i + 1] == x[i + 1 - h.len()]);
                    assert(tidy_char(x[i + 1 - h.len()]));
                }
            }
        },
        None => {
            let h = a + ")"@;
            assert(line == h);
            assert forall|i: int| 0 <= i < line.len() implies #[trigger] line[i] != '\n' && line[i] != ' ' by {
                if i < a.len() {
                    assert(line[i] == a[i]);
                }
            }
        },
    }
}

/// Lines joined by line breaks hold no space before an opening brace when
/// no line does.
proof fn lemma_join_no_space_brace(ls: Seq<Seq<char>>)
    requires
        forall|i: int| 0 <= i < ls.len() ==> line_plain(#[trigger] ls[i]),
    ensures
        no_space_brace(join_seq(ls, "\n"@)),
    decreases ls.len(),
{
    reveal_strlit("\n");
    if ls.len() == 1 {
        assert(line_plain(ls[0]));
    } else if ls.len() > 1 {
        let rest = ls.drop_first();
        assert forall|i: int| 0 <= i < rest.len() implies line_plain(#[trigger] rest[i]) by {
            assert(rest[i] == ls[i + 1]);
        }
        lemma_join_no_space_brace(rest);
        let l = ls[0];
        assert(line_plain(l));
        let r = join_seq(rest, "\n"@);
        let x = l + "\n"@ + r;
        assert(join_seq(ls, "\n"@) == x);
        assert forall|i: int| 0 <= i && i + 1 < x.len() && #[trigger] x[i] == ' ' implies x[i + 1] != '{' by {
            if i + 1 < l.len() {
                assert(x[i] == l[i]);
                assert(x[i + 1] == l[i + 1]);
            } else if i + 1 == l.len() {
                assert(x[i + 1] == '\n');
            } else if i == l.len() {
                assert(x[i] == '\n');
            } else {
                assert(x[i] == r[i - l.len() - 1]);
                assert(x[i + 1] == r[i + 1 - l.len() - 1]);
            }
        }
    }
}

proof fn lemma_lines_concat(a: Seq<Seq<char>>, b: Seq<Seq<char>>, g: Seq<(Seq<char>, Seq<(Seq<char>, bool)>)>)
    requires
        lines_read(a, g),
        lines_read(b, g),
    ensures
        lines_read(a + b, g),
{
    assert forall|i: int| 0 <= i < (a + b).len() implies line_reads(#[trigger] (a + b)[i], g) && line_plain((a + b)[i]) by {
        if i < a.len() {
            assert((a + b)[i] == a[i]);
        } else {
            assert((a + b)[i] == b[i - a.len()]);
        }
    }
}

/// Whether the settings of a question about catalogue objects can be written
/// as a query line: where a catalogue is chosen, the settings are a plain
/// word (as compact JSON is) and the cutoff a value word.
pub open spec fn catalogue_choice_fits(chosen: Option<(String, String)>, catalogues: Seq<bool>) -> bool {
    match chosen {
        Some((settings, cutoff)) => conditions_of(catalogues).len() > 0 ==> is_plain_word(settings@) && cutoff_word(
            cutoff@,
        ),
        None => true,
    }
}

pub open spec fn plain_choice_fits(chosen: Option<String>) -> bool {
    match chosen {
        Some(settings) => is_plain_word(settings@),
        None => true,
    }
}

/// Whether every choice of the basic settings can be written as a query
/// line: settings that are plain words and cutoffs that are value words.
pub open spec fn basic_query_fits(b: BasicQuery) -> bool {
    &&& b.find_catalogues@.len() == 6
    &&& b.what_catalogues@.len() == 6
    &&& catalogue_choice_fits(b.find_this_object, b.find_catalogues@)
    &&& catalogue_choice_fits(b.what_is_this_object, b.what_catalogues@)
    &&& plain_choice_fits(b.which_constellation)
    &&& plain_choice_fits(b.angular_separation)
    &&& plain_choice_fits(b.guess_ra_dec)
    &&& match b.guess_the_magnitude {
        Some((settings, cutoff)) => is_plain_word(settings@) && cutoff_word(cutoff@),
        None => true,
    }
}

proof fn lemma_catalogue_line_reads(
    g: Seq<(Seq<char>, Seq<(Seq<char>, bool)>)>,
    qt: Seq<char>,
    chosen: Option<(String, String)>,
    catalogues: Seq<bool>,
)
    requires
        catalogues.len() == 6,
        is_plain_word(qt),
        catalogue_choice_fits(chosen, catalogues),
    ensures
        lines_read(catalogue_line(qt, chosen, catalogues), g),
{
    let ls = catalogue_line(qt, chosen, catalogues);
    if let Some((settings, cutoff)) = chosen {
        let conds = conditions_of(catalogues);
        if conds.len() > 0 {
            let m = cutoff@;
            lemma_conditions_read(g, catalogues);
            lemma_filter_text(conds, m);
            let f = spec_basic_filter(conds, m)->Some_0;
            let cw = conds.map_values(|x: Seq<char>| without_spaces(x));
            let t = tight_filter(cw, m);
            assert(without_spaces(f) == t);
            assert(t.len() > 0) by {
                reveal_strlit("OR");
            }
            lemma_tidy_filter_plain(f);
            lemma_query_line_read_back(qt, settings@, Some(f));
            lemma_query_line_plain(qt, settings@, Some(f));
            assert forall|i: int| 0 <= i < cw.len() implies reads_as_keyword(g, #[trigger] cw[i]) by {
                assert(cw[i] == without_spaces(conds[i]));
            }
            lemma_tight_filter_reads(g, cw, m);
            assert(stands_at(t, 0, t)) by {
                assert(t.subrange(0, t.len() as int) =~= t);
            }
            assert(ls == seq![query_line_text(qt, settings@, Some(f))]);
            assert(line_reads(ls[0], g));
        } else {
            assert(ls =~= Seq::<Seq<char>>::empty());
        }
    }
}

proof fn lemma_plain_line_reads(g: Seq<(Seq<char>, Seq<(Seq<char>, bool)>)>, qt: Seq<char>, chosen: Option<String>)
    requires
        is_plain_word(qt),
        plain_choice_fits(chosen),
    ensures
        lines_read(plain_line(qt, chosen), g),
{
    if let Some(settings) = chosen {
        lemma_query_line_read_back(qt, settings@, None);
        lemma_query_line_plain(qt, settings@, None);
        assert(line_reads(plain_line(qt, chosen)[0], g));
    }
}

proof fn lemma_magnitude_line_reads(g: Seq<(Seq<char>, Seq<(Seq<char>, bool)>)>, settings: Seq<char>, m: Seq<char>)
    requires
        is_plain_word(settings),
        cutoff_word(m),
    ensures
        line_reads(query_line_text("GUESS_THE_MAGNITUDE"@, settings, Some("MAG_BELOW("@ + m + ")"@)), g),
        line_plain(query_line_text("GUESS_THE_MAGNITUDE"@, settings, Some("MAG_BELOW("@ + m + ")"@))),
{
    let f = "MAG_BELOW("@ + m + ")"@;
    lemma_mag_below_reads(g, m);
    lemma_without_spaces_plain(f);
    lemma_tidy_filter_plain(f);
    lemma_question_types_plain();
    lemma_query_line_read_back("GUESS_THE_MAGNITUDE"@, settings, Some(f));
    lemma_query_line_plain("GUESS_THE_MAGNITUDE"@, settings, Some(f));
    assert(stands_at(f, 0, f)) by {
        assert(f.subrange(0, f.len() as int) =~= f);
    }
}

proof fn lemma_question_types_plain()
    ensures
        is_plain_word("FIND_THIS_OBJECT"@),
        is_plain_word("WHAT_IS_THIS_OBJECT"@),
        is_plain_word("WHICH_CONSTELLATION_IS_THIS_POINT_IN"@),
        is_plain_word("ANGULAR_SEPARATION"@),
        is_plain_word("GUESS_DEC"@),
        is_plain_word("GUESS_RA"@),
        is_plain_word("GUESS_THE_MAGNITUDE"@),
{
    reveal_strlit("FIND_THIS_OBJECT");
    reveal_strlit("WHAT_IS_THIS_OBJECT");
    reveal_strlit("WHICH_CONSTELLATION_IS_THIS_POINT_IN");
    reveal_strlit("ANGULAR_SEPARATION");
    reveal_strlit("GUESS_DEC");
    reveal_strlit("GUESS_RA");
    reveal_strlit("GUESS_THE_MAGNITUDE");
}

/// Every line of the query that the basic settings generate splits into its
/// question type, its settings and its filter, and the filter, where the
/// line has one, parses: the catalogues that the basic settings offer,
/// IC among them, are catalogues of the filter language. The query is its
/// lines joined by line breaks, so cutting it at its line breaks gives the
/// lines back (and no line when no question is chosen). This holds for any
/// constellation groups, where the settings are written as plain words and
/// the magnitude cutoffs as value words.
pub proof fn lemma_basic_query_lines_parse(b: BasicQuery, g: Seq<(Seq<char>, Seq<(Seq<char>, bool)>)>)
    requires
        basic_query_fits(b),
    ensures
        lines_read(basic_query_lines(b), g),
        basic_query_lines(b).len() > 0 ==> split_seq(basic_query(b), '\n') == basic_query_lines(b),
        basic_query_lines(b).len() == 0 ==> basic_query(b).len() == 0,
{
    lemma_question_types_plain();
    lemma_catalogue_line_reads(g, "FIND_THIS_OBJECT"@, b.find_this_object, b.find_catalogues@);
    lemma_catalogue_line_reads(g, "WHAT_IS_THIS_OBJECT"@, b.what_is_this_object, b.what_catalogues@);
    lemma_plain_line_reads(g, "WHICH_CONSTELLATION_IS_THIS_POINT_IN"@, b.which_constellation);
    lemma_plain_line_reads(g, "ANGULAR_SEPARATION"@, b.angular_separation);
    lemma_plain_line_reads(g, "GUESS_DEC"@, b.guess_ra_dec);
    lemma_plain_line_reads(g, "GUESS_RA"@, b.guess_ra_dec);
    let mag = match b.guess_the_magnitude {
        Some((settings, cutoff)) => seq![
            query_line_text("GUESS_THE_MAGNITUDE"@, settings@, Some("MAG_BELOW("@ + cutoff@ + ")"@)),
        ],
        None => Seq::<Seq<char>>::empty(),
    };
    if let Some((settings, cutoff)) = b.guess_the_magnitude {
        lemma_magnitude_line_reads(g, settings@, cutoff@);
    }
    assert(lines_read(mag, g));
    let l1 = catalogue_line("FIND_THIS_OBJECT"@, b.find_this_object, b.find_catalogues@);
    let l2 = catalogue_line("WHAT_IS_THIS_OBJECT"@, b.what_is_this_object, b.what_catalogues@);
    let l3 = plain_line("WHICH_CONSTELLATION_IS_THIS_POINT_IN"@, b.which_constellation);
    let l4 = plain_line("ANGULAR_SEPARATION"@, b.angular_separation);
    let l5 = plain_line("GUESS_DEC"@, b.guess_ra_dec);
    let l6 = plain_line("GUESS_RA"@, b.guess_ra_dec);
    lemma_lines_concat(l1, l2, g);
    lemma_lines_concat(l1 + l2, l3, g);
    lemma_lines_concat(l1 + l2 + l3, l4, g);
    lemma_lines_concat(l1 + l2 + l3 + l4, l5, g);
    lemma_lines_concat(l1 + l2 + l3 + l4 + l5, l6, g);
    lemma_lines_concat(l1 + l2 + l3 + l4 + l5 + l6, mag, g);
    assert(basic_query_lines(b) == l1 + l2 + l3 + l4 + l5 + l6 + mag);
    lemma_query_of_lines(basic_query_lines(b), g);
}

/// Plain lines joined by line breaks are left as they are by the rewriting
/// of `SmallSettings {`, and cut at the line breaks they come back.
proof fn lemma_query_of_lines(ls: Seq<Seq<char>>, g: Seq<(Seq<char>, Seq<(Seq<char>, bool)>)>)
    requires
        lines_read(ls, g),
    ensures
        ls.len() > 0 ==> split_seq(replaced(join_seq(ls, "\n"@), "SmallSettings {"@, "{"@), '\n') == ls,
        ls.len() == 0 ==> replaced(join_seq(ls, "\n"@), "SmallSettings {"@, "{"@).len() == 0,
{
    reveal_strlit("\n");
    reveal_strlit("SmallSettings {");
    reveal_strlit("{");
    let p = "SmallSettings {"@;
    let x = join_seq(ls, "\n"@);
    let e = Seq::<char>::empty();
    assert forall|i: int| 0 <= i < ls.len() implies line_plain(#[trigger] ls[i]) by {}
    lemma_join_no_space_brace(ls);
    assert forall|i: int| 0 <= i < x.len() implies !#[trigger] match_at(x + e, p, i) by {
        if match_at(x + e, p, i) {
            assert((x + e).subrange(i, i + 15)[13] == p[13]);
            assert((x + e).subrange(i, i + 15)[14] == p[14]);
            assert(x[i + 13] == ' ');
            assert(x[i + 14] == '{');
        }
    }
    lemma_split_pattern_prefix(x, e, p);
    assert(x + e =~= x);
    assert(split_pattern(e, p) == seq![e]);
    assert(split_pattern(x, p) =~= seq![x]);
    assert(join_seq(seq![x], "{"@) == x);
    if ls.len() > 0 {
        assert("\n"@ =~= seq!['\n']);
        lemma_split_join(ls, '\n');
    } else {
        assert(x =~= e);
    }
}

} // verus!

//! The recursive-descent parser of the question filter language, such as
//! `OR(AND(CONSTELLATION(VIR, LEP), DEC(17, 98)), CATALOGUE(MESSIER))`.

use vstd::prelude::*;
use crate::filter::{
    keyword_from_raw, keyword_named, unknown_keyword_text, unknown_keyword_message, ConstellationGroups,
    Keyword, KeywordName, Node, SpecNode, nodes_view,
};
use crate::text::{alnum, chars_of, is_alphanumeric, is_whitespace, spec_is_whitespace, string_from_chars};

verus! {

broadcast use vstd::string::group_string_axioms;

/// Characters that may appear in an identifier or a value.
pub open spec fn is_ident_char(c: char) -> bool {
    alnum(c) || c == '_' || c == '.' || c == ':'
}

/// The first offset at or after `p` that does not hold whitespace.
pub open spec fn skip_ws(cs: Seq<char>, p: int) -> int
    decreases cs.len() - p,
{
    if 0 <= p < cs.len() && spec_is_whitespace(cs[p]) {
        skip_ws(cs, p + 1)
    } else {
        p
    }
}

/// The first offset at or after `p` that does not hold an identifier character.
pub open spec fn ident_end(cs: Seq<char>, p: int) -> int
    decreases cs.len() - p,
{
    if 0 <= p < cs.len() && is_ident_char(cs[p]) {
        ident_end(cs, p + 1)
    } else {
        p
    }
}

/// Whether `c` is a sign that may begin a value.
pub open spec fn is_sign(c: char) -> bool {
    c == '-' || c == '+'
}

/// The end of the identifier or value that starts at `p`: a value may begin
/// with one `-` or `+` before its first identifier character, so that
/// `DEC(-30, 0)` can be written.
pub open spec fn word_end(cs: Seq<char>, p: int) -> int {
    if 0 <= p && p + 1 < cs.len() && is_sign(cs[p]) && is_ident_char(cs[p + 1]) {
        ident_end(cs, p + 1)
    } else {
        ident_end(cs, p)
    }
}

pub proof fn lemma_skip_ws(cs: Seq<char>, p: int)
    requires
        0 <= p <= cs.len(),
    ensures
        p <= skip_ws(cs, p) <= cs.len(),
        skip_ws(cs, p) < cs.len() ==> !spec_is_whitespace(cs[skip_ws(cs, p)]),
        forall|k: int| p <= k < skip_ws(cs, p) ==> spec_is_whitespace(#[trigger] cs[k]),
    decreases cs.len() - p,
{
    if p < cs.len() && spec_is_whitespace(cs[p]) {
        lemma_skip_ws(cs, p + 1);
    }
}

pub proof fn lemma_ident_end(cs: Seq<char>, p: int)
    requires
        0 <= p <= cs.len(),
    ensures
        p <= ident_end(cs, p) <= cs.len(),
        ident_end(cs, p) < cs.len() ==> !is_ident_char(cs[ident_end(cs, p)]),
        forall|k: int| p <= k < ident_end(cs, p) ==> is_ident_char(#[trigger] cs[k]),
    decreases cs.len() - p,
{
    if p < cs.len() && is_ident_char(cs[p]) {
        lemma_ident_end(cs, p + 1);
    }
}

pub proof fn lemma_word_end(cs: Seq<char>, p: int)
    requires
        0 <= p <= cs.len(),
    ensures
        p <= word_end(cs, p) <= cs.len(),
{
    if p + 1 < cs.len() && is_sign(cs[p]) && is_ident_char(cs[p + 1]) {
        lemma_ident_end(cs, p + 1);
    } else {
        lemma_ident_end(cs, p);
    }
}

/// The position reported for a keyword whose opening bracket is at offset
/// `pos` (in characters, so after the whitespace that follows the keyword):
/// `pos` less the keyword's length in characters. Offsets and lengths are
/// both counted in characters, not the length in UTF-8 bytes, so that a
/// keyword that holds non-ASCII letters is reported where it starts rather
/// than further to the left.
pub open spec fn ident_position(pos: int, ident: Seq<char>) -> nat {
    (pos - ident.len()) as nat
}

/// What parsing one expression from offset `p` of `cs` gives: the expression,
/// if there is an identifier there, and the offset after it; or the error
/// message.
pub open spec fn spec_parse_expression(cs: Seq<char>, g: Seq<(Seq<char>, Seq<(Seq<char>, bool)>)>, p: int) -> Result<(Option<SpecNode>, int), Seq<char>>
    decreases cs.len() - p, 0int,
{
    if !(0 <= p <= cs.len()) {
        Err(seq![])
    } else {
        let p1 = skip_ws(cs, p);
        let p2 = word_end(cs, p1);
        proof {
            lemma_skip_ws(cs, p);
            lemma_word_end(cs, p1);
            lemma_skip_ws(cs, p2);
        }
        if p2 == p1 {
            Ok((None, p1))
        } else {
            let ident = cs.subrange(p1, p2);
            let p3 = skip_ws(cs, p2);
            if p3 < cs.len() && cs[p3] == '(' {
                let pos = ident_position(p3, ident);
                match keyword_named(ident) {
                    None => Err(unknown_keyword_message(ident, pos)),
                    Some(k) => match spec_parse_arguments(cs, g, p3 + 1) {
                        Err(e) => Err(e),
                        Ok((args, q)) => match keyword_from_raw(k, args, pos, p3 as nat, g) {
                            Err(e) => Err(e),
                            Ok(kw) => Ok((Some(SpecNode::Keyword(kw)), q)),
                        },
                    },
                }
            } else {
                Ok((Some(SpecNode::Value(ident)), p3))
            }
        }
    }
}

/// What parsing the arguments of a keyword from offset `p` gives: the
/// arguments, separated by commas and closed by `)`, and the offset after
/// them; reading stops at the first place where no expression starts.
pub open spec fn spec_parse_arguments(cs: Seq<char>, g: Seq<(Seq<char>, Seq<(Seq<char>, bool)>)>, p: int) -> Result<(Seq<SpecNode>, int), Seq<char>>
    decreases cs.len() - p, 1int,
{
    if !(0 <= p <= cs.len()) {
        Err(seq![])
    } else {
        match spec_parse_expression(cs, g, p) {
            Err(e) => Err(e),
            Ok((None, q)) => Ok((seq![], q)),
            Ok((Some(n), q)) => {
                let q1 = skip_ws(cs, q);
                if 0 <= q1 < cs.len() && cs[q1] == ',' {
                    // an expression always moves past `p`, so this recursion is on a later offset
                    if q1 + 1 > p {
                        match spec_parse_arguments(cs, g, q1 + 1) {
                            Err(e) => Err(e),
                            Ok((rest, r)) => Ok((seq![n] + rest, r)),
                        }
                    } else {
                        Ok((seq![n], q1))
                    }
                } else if 0 <= q1 < cs.len() && cs[q1] == ')' {
                    Ok((seq![n], q1 + 1))
                } else {
                    Ok((seq![n], q1))
                }
            },
        }
    }
}

pub proof fn lemma_parse_positions(cs: Seq<char>, g: Seq<(Seq<char>, Seq<(Seq<char>, bool)>)>, p: int)
    requires
        0 <= p <= cs.len(),
    ensures
        spec_parse_expression(cs, g, p) matches Ok((n, q)) ==> p <= q <= cs.len() && (n is Some ==> p < q),
        spec_parse_arguments(cs, g, p) matches Ok((args, q)) ==> p <= q <= cs.len(),
    decreases cs.len() - p,
{
    let p1 = skip_ws(cs, p);
    lemma_skip_ws(cs, p);
    lemma_word_end(cs, p1);
    let p2 = word_end(cs, p1);
    lemma_skip_ws(cs, p2);
    let p3 = skip_ws(cs, p2);
    if p2 != p1 && p3 < cs.len() && cs[p3] == '(' {
        lemma_parse_positions(cs, g, p3 + 1);
    }
    match spec_parse_expression(cs, g, p) {
        Ok((Some(n), q)) => {
            lemma_skip_ws(cs, q);
            let q1 = skip_ws(cs, q);
            if 0 <= q1 < cs.len() && cs[q1] == ',' && q1 + 1 > p {
                lemma_parse_positions(cs, g, q1 + 1);
            }
        },
        _ => {},
    }
}

pub open spec fn option_node_view(o: Option<Node>) -> Option<SpecNode> {
    match o {
        Some(n) => Some(n.view()),
        None => None,
    }
}

/// A reader of a query, keeping the offset (in characters) that it has reached.
pub struct Parser {
    chars: Vec<char>,
    pos: usize,
}

impl Parser {
    /// The characters of the query.
    pub closed spec fn input(&self) -> Seq<char> {
        self.chars@
    }

    /// The offset reached so far.
    pub closed spec fn position(&self) -> nat {
        self.pos as nat
    }

    /// A parser at the start of `input`.
    pub fn new(input: &str) -> (res: Parser)
        ensures
            res.input() == input@,
            res.position() == 0,
    {
        Parser { chars: chars_of(input), pos: 0 }
    }

    /// Parses one expression from the current offset. An empty or blank
    /// remainder gives `None`; the text after the expression is not read.
    pub fn parse(&mut self, constellation_groups: &ConstellationGroups) -> (res: Result<Option<Node>, String>)
        requires
            old(self).position() <= old(self).input().len(),
        ensures
            final(self).input() == old(self).input(),
            match spec_parse_expression(old(self).input(), constellation_groups@, old(self).position() as int) {
                Ok((n, q)) => res matches Ok(o) && option_node_view(o) == n && final(self).position() == q,
                Err(e) => res matches Err(m) && m@ == e,
            },
    {
        self.parse_expression(constellation_groups)
    }

    fn parse_expression(&mut self, constellation_groups: &ConstellationGroups) -> (res: Result<Option<Node>, String>)
        requires
            old(self).pos <= old(self).chars@.len(),
        ensures
            final(self).chars@ == old(self).chars@,
            final(self).pos <= final(self).chars@.len(),
            match spec_parse_expression(old(self).chars@, constellation_groups@, old(self).pos as int) {
                Ok((n, q)) => res matches Ok(o) && option_node_view(o) == n && final(self).pos == q,
                Err(e) => res matches Err(m) && m@ == e,
            },
        decreases old(self).chars@.len() - old(self).pos, 0int,
    {
        let ghost cs = self.chars@;
        let ghost p = self.pos as int;
        proof {
            lemma_skip_ws(cs, p);
        }
        self.consume_whitespace();
        let ghost p1 = self.pos as int;
        proof {
            lemma_word_end(cs, p1);
        }
        let start = self.pos;
        match self.parse_identifier() {
            None => Ok(None),
            Some(ident) => {
                let end = self.pos;
                let ghost p2 = self.pos as int;
                proof {
                    lemma_skip_ws(cs, p2);
                }
                self.consume_whitespace();
                let ghost p3 = self.pos as int;
                if self.peek() == Some('(') {
                    let ident_pos = self.pos - (end - start);
                    let keyword_raw = match KeywordName::from_ident(ident.as_str()) {
                        Some(k) => k,
                        None => {
                            return Err(unknown_keyword_text(ident.as_str(), ident_pos));
                        },
                    };
                    let id = self.pos;
                    let n = self.chars.len();
                    assert(id < n);
                    self.pos = self.pos + 1;
                    let args = self.parse_arguments(constellation_groups)?;
                    let keyword = Keyword::from_raw(keyword_raw, args, ident_pos, id, constellation_groups)?;
                    Ok(Some(Node::Keyword(keyword)))
                } else {
                    Ok(Some(Node::Value(ident)))
                }
            },
        }
    }

    fn parse_arguments(&mut self, constellation_groups: &ConstellationGroups) -> (res: Result<Vec<Node>, String>)
        requires
            old(self).pos <= old(self).chars@.len(),
        ensures
            final(self).chars@ == old(self).chars@,
            final(self).pos <= final(self).chars@.len(),
            match spec_parse_arguments(old(self).chars@, constellation_groups@, old(self).pos as int) {
                Ok((args, q)) => res matches Ok(v) && nodes_view(v@) == args && final(self).pos == q,
                Err(e) => res matches Err(m) && m@ == e,
            },
        decreases old(self).chars@.len() - old(self).pos, 1int,
    {
        let ghost cs = self.chars@;
        let ghost g = constellation_groups@;
        let ghost start = self.pos as int;
        let mut args: Vec<Node> = Vec::new();
        loop
            invariant
                self.chars@ == cs,
                cs == old(self).chars@,
                start == old(self).pos,
                g == constellation_groups@,
                start <= self.pos <= cs.len(),
                spec_parse_arguments(cs, g, start) == prepend_args(nodes_view(args@), spec_parse_arguments(cs, g, self.pos as int)),
            decreases cs.len() - self.pos,
        {
            let ghost here = self.pos as int;
            proof {
                lemma_parse_positions(cs, g, here);
            }
            match self.parse_expression(constellation_groups) {
                Err(e) => {
                    return Err(e);
                },
                Ok(None) => {
                    proof {
                        assert(nodes_view(args@) + seq![] =~= nodes_view(args@));
                    }
                    return Ok(args);
                },
                Ok(Some(node)) => {
                    let ghost nv = node.view();
                    let ghost before = nodes_view(args@);
                    args.push(node);
                    assert(nodes_view(args@) =~= before.push(nv));
                    let ghost q = self.pos as int;
                    proof {
                        lemma_skip_ws(cs, q);
                    }
                    self.consume_whitespace();
                    let ghost q1 = self.pos as int;
                    let n = self.chars.len();
                    match self.peek() {
                        Some(',') => {
                            assert(self.pos < n);
                            self.pos = self.pos + 1;
                            proof {
                                lemma_parse_positions(cs, g, q1 + 1);
                                match spec_parse_arguments(cs, g, q1 + 1) {
                                    Ok((rest, r)) => {
                                        assert(before + (seq![nv] + rest) =~= nodes_view(args@) + rest);
                                    },
                                    Err(_) => {},
                                }
                            }
                        },
                        Some(')') => {
                            assert(self.pos < n);
                            self.pos = self.pos + 1;
                            proof {
                                assert(before + seq![nv] =~= nodes_view(args@));
                            }
                            return Ok(args);
                        },
                        _ => {
                            proof {
                                assert(before + seq![nv] =~= nodes_view(args@));
                            }
                            return Ok(args);
                        },
                    }
                },
            }
        }
    }

    fn parse_identifier(&mut self) -> (res: Option<String>)
        requires
            old(self).pos <= old(self).chars@.len(),
        ensures
            final(self).chars@ == old(self).chars@,
            final(self).pos == word_end(old(self).chars@, old(self).pos as int),
            word_end(old(self).chars@, old(self).pos as int) == old(self).pos ==> res is None,
            word_end(old(self).chars@, old(self).pos as int) != old(self).pos ==> (res matches Some(s)
                && s@ == old(self).chars@.subrange(old(self).pos as int, final(self).pos as int)),
    {
        let ghost cs = self.chars@;
        let ghost start = self.pos as int;
        let mut ident: Vec<char> = Vec::new();
        let n = self.chars.len();
        if self.pos < n && n - self.pos > 1 && (self.chars[self.pos] == '-' || self.chars[self.pos] == '+') && ident_char(self.chars[self.pos + 1]) {
            ident.push(self.chars[self.pos]);
            self.pos = self.pos + 1;
            assert(cs.subrange(start, self.pos as int) =~= seq![cs[start]]);
        }
        let ghost first = self.pos as int;
        proof {
            lemma_ident_end(cs, first);
        }
        while self.pos < n
            invariant
                self.chars@ == cs,
                n == cs.len(),
                0 <= start <= first <= self.pos <= cs.len(),
                first == start || first == start + 1,
                first == start + 1 ==> first < cs.len() && is_ident_char(cs[first]),
                word_end(cs, start) == ident_end(cs, first),
                ident_end(cs, first) == ident_end(cs, self.pos as int),
                ident@ == cs.subrange(start, self.pos as int),
            ensures
                self.pos == word_end(cs, start),
            decreases cs.len() - self.pos,
        {
            let c = self.chars[self.pos];
            if !ident_char(c) {
                break;
            }
            let ghost old_pos = self.pos as int;
            ident.push(c);
            self.pos = self.pos + 1;
            assert(cs.subrange(start, old_pos + 1) =~= cs.subrange(start, old_pos).push(c));
        }
        if ident.len() > 0 {
            Some(string_from_chars(ident.as_slice()))
        } else {
            None
        }
    }

    fn consume_whitespace(&mut self)
        requires
            old(self).pos <= old(self).chars@.len(),
        ensures
            final(self).chars@ == old(self).chars@,
            final(self).pos == skip_ws(old(self).chars@, old(self).pos as int),
    {
        let ghost cs = self.chars@;
        let ghost start = self.pos as int;
        while self.pos < self.chars.len() && is_whitespace(self.chars[self.pos])
            invariant
                self.chars@ == cs,
                start <= self.pos <= cs.len(),
                skip_ws(cs, start) == skip_ws(cs, self.pos as int),
            decreases cs.len() - self.pos,
        {
            self.pos = self.pos + 1;
        }
    }

    fn peek(&self) -> (res: Option<char>)
        ensures
            res == (if self.pos < self.chars@.len() {
                Some(self.chars@[self.pos as int])
            } else {
                None::<char>
            }),
    {
        if self.pos < self.chars.len() {
            Some(self.chars[self.pos])
        } else {
            None
        }
    }
}

fn ident_char(c: char) -> (r: bool)
    ensures
        r == is_ident_char(c),
{
    is_alphanumeric(c) || c == '_' || c == '.' || c == ':'
}

pub open spec fn prepend_args(p: Seq<SpecNode>, r: Result<(Seq<SpecNode>, int), Seq<char>>) -> Result<(Seq<SpecNode>, int), Seq<char>> {
    match r {
        Ok((x, q)) => Ok((p + x, q)),
        Err(e) => Err(e),
    }
}

} // verus!

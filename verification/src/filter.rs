//! The question filter language: its syntax tree and the rules by which a
//! keyword and its arguments become a condition.

use vstd::prelude::*;
use vstd::string::StringExecFns;
use crate::objects::{ObjectType, object_type_result, result_view};
use crate::sorted::{insert_sorted, sorted_list, strictly_sorted, lemma_sorted_list, lemma_sorted_list_of};
use crate::text::{decimal, float_error_message, float_error_text, int_error_text, is_float_literal, is_float_literal_chars, parse_unsigned, parse_unsigned_upto, str_eq, to_uppercase, upper_case_of, usize_to_decimal, IntErrorKind, chars_of};

verus! {

/// A catalogue of sky objects that a query can refer to.
#[derive(Clone, Copy, PartialEq, Eq, Structural, Debug)]
pub enum Catalogue {
    Bayer,
    Flamsteed,
    Messier,
    Caldwell,
    Ngc,
    Ic,
    Hd,
    Hip,
    ProperName,
}

/// The catalogue called by the upper-case name `u`.
pub open spec fn catalogue_named(u: Seq<char>) -> Option<Catalogue> {
    if u == "BAYER"@ {
        Some(Catalogue::Bayer)
    } else if u == "FLAMSTEED"@ {
        Some(Catalogue::Flamsteed)
    } else if u == "MESSIER"@ {
        Some(Catalogue::Messier)
    } else if u == "CALDWELL"@ {
        Some(Catalogue::Caldwell)
    } else if u == "NGC"@ {
        Some(Catalogue::Ngc)
    } else if u == "IC"@ {
        Some(Catalogue::Ic)
    } else if u == "HD"@ {
        Some(Catalogue::Hd)
    } else if u == "HIP"@ {
        Some(Catalogue::Hip)
    } else if u == "PROPER_NAME"@ {
        Some(Catalogue::ProperName)
    } else {
        None
    }
}

pub open spec fn invalid_catalogue_message() -> Seq<char> {
    "Invalid catalogue, the only accepted ones are: BAYER, FLAMSTEED, MESSIER, CALDWELL, NGC, IC, HD, HIP, PROPER_NAME"@
}

pub open spec fn catalogue_result(upper: Seq<char>) -> Result<Catalogue, Seq<char>> {
    match catalogue_named(upper) {
        Some(c) => Ok(c),
        None => Err(invalid_catalogue_message()),
    }
}

/// Whether the catalogue numbers its objects with whole numbers.
pub open spec fn is_numbered(c: Catalogue) -> bool {
    match c {
        Catalogue::Caldwell | Catalogue::Hd | Catalogue::Hip | Catalogue::Messier | Catalogue::Ngc | Catalogue::Ic => true,
        Catalogue::Bayer | Catalogue::Flamsteed | Catalogue::ProperName => false,
    }
}

impl Catalogue {
    /// The catalogue called by the upper-case name `upper`.
    pub fn from_upper_name(upper: &str) -> (res: Result<Catalogue, String>)
        ensures
            result_view(res) == catalogue_result(upper@),
    {
        if str_eq(upper, "BAYER") {
            Ok(Catalogue::Bayer)
        } else if str_eq(upper, "FLAMSTEED") {
            Ok(Catalogue::Flamsteed)
        } else if str_eq(upper, "MESSIER") {
            Ok(Catalogue::Messier)
        } else if str_eq(upper, "CALDWELL") {
            Ok(Catalogue::Caldwell)
        } else if str_eq(upper, "NGC") {
            Ok(Catalogue::Ngc)
        } else if str_eq(upper, "IC") {
            Ok(Catalogue::Ic)
        } else if str_eq(upper, "HD") {
            Ok(Catalogue::Hd)
        } else if str_eq(upper, "HIP") {
            Ok(Catalogue::Hip)
        } else if str_eq(upper, "PROPER_NAME") {
            Ok(Catalogue::ProperName)
        } else {
            Err(String::from_str("Invalid catalogue, the only accepted ones are: BAYER, FLAMSTEED, MESSIER, CALDWELL, NGC, IC, HD, HIP, PROPER_NAME"))
        }
    }

    /// The catalogue called `catalogue`, read without regard to case.
    pub fn from_string(catalogue: &str) -> (res: Result<Catalogue, String>)
        ensures
            result_view(res) == catalogue_result(upper_case_of(catalogue@)),
    {
        let upper = to_uppercase(catalogue);
        Catalogue::from_upper_name(upper.as_str())
    }

    /// Whether the catalogue numbers its objects with whole numbers.
    pub fn numbered(&self) -> (r: bool)
        ensures
            r == is_numbered(*self),
    {
        match *self {
            Catalogue::Caldwell | Catalogue::Hd | Catalogue::Hip | Catalogue::Messier | Catalogue::Ngc | Catalogue::Ic => true,
            Catalogue::Bayer | Catalogue::Flamsteed | Catalogue::ProperName => false,
        }
    }
}

/// A range of two numbers, kept as they were written (each one is a valid
/// float literal) together with the identifier of the condition: the offset
/// of the keyword's opening parenthesis in the query.
#[derive(Clone, Debug)]
pub struct NumberRange {
    pub id: usize,
    pub first: String,
    pub second: String,
}

/// A single number, kept as it was written, with the condition's identifier.
#[derive(Clone, Debug)]
pub struct NumberBound {
    pub id: usize,
    pub value: String,
}

/// A parsed condition of the filter language.
#[derive(Debug)]
pub enum Keyword {
    And(Vec<Keyword>),
    Or(Vec<Keyword>),
    Not(Box<Keyword>),
    Dec(NumberRange),
    RaDeg(NumberRange),
    Ra(NumberRange),
    Constellation(Vec<String>),
    Catalogue(Vec<Catalogue>),
    Type(Vec<ObjectType>),
    MagBelow(NumberBound),
    MagAbove(NumberBound),
    Mag(NumberRange),
    ObjectId(Vec<u64>),
    CatalogueDesignation(Vec<(Catalogue, String)>),
}

/// A parsed expression: a keyword with its arguments, or a bare value.
#[derive(Debug)]
pub enum Node {
    Keyword(Keyword),
    Value(String),
}

/// The mathematical form of a condition.
pub enum SpecKeyword {
    And(Seq<SpecKeyword>),
    Or(Seq<SpecKeyword>),
    Not(Box<SpecKeyword>),
    Dec(nat, Seq<char>, Seq<char>),
    RaDeg(nat, Seq<char>, Seq<char>),
    Ra(nat, Seq<char>, Seq<char>),
    Constellation(Seq<Seq<char>>),
    Catalogue(Seq<Catalogue>),
    Type(Seq<ObjectType>),
    MagBelow(nat, Seq<char>),
    MagAbove(nat, Seq<char>),
    Mag(nat, Seq<char>, Seq<char>),
    ObjectId(Seq<u64>),
    CatalogueDesignation(Seq<(Catalogue, Seq<char>)>),
}

/// The mathematical form of an expression.
pub enum SpecNode {
    Keyword(SpecKeyword),
    Value(Seq<char>),
}

impl Keyword {
    pub open spec fn view(&self) -> SpecKeyword
        decreases self,
    {
        match self {
            Keyword::And(v) => {
                proof {
                    assert(decreases_to!(self => v@));
                }
                SpecKeyword::And(keywords_view(v@))
            },
            Keyword::Or(v) => {
                proof {
                    assert(decreases_to!(self => v@));
                }
                SpecKeyword::Or(keywords_view(v@))
            },
            Keyword::Not(b) => SpecKeyword::Not(Box::new((**b).view())),
            Keyword::Dec(r) => SpecKeyword::Dec(r.id as nat, r.first@, r.second@),
            Keyword::RaDeg(r) => SpecKeyword::RaDeg(r.id as nat, r.first@, r.second@),
            Keyword::Ra(r) => SpecKeyword::Ra(r.id as nat, r.first@, r.second@),
            Keyword::Constellation(v) => SpecKeyword::Constellation(strings_view(v@)),
            Keyword::Catalogue(v) => SpecKeyword::Catalogue(v@),
            Keyword::Type(v) => SpecKeyword::Type(v@),
            Keyword::MagBelow(b) => SpecKeyword::MagBelow(b.id as nat, b.value@),
            Keyword::MagAbove(b) => SpecKeyword::MagAbove(b.id as nat, b.value@),
            Keyword::Mag(r) => SpecKeyword::Mag(r.id as nat, r.first@, r.second@),
            Keyword::ObjectId(v) => SpecKeyword::ObjectId(v@),
            Keyword::CatalogueDesignation(v) => SpecKeyword::CatalogueDesignation(
                v@.map_values(|p: (Catalogue, String)| (p.0, p.1@)),
            ),
        }
    }
}

/// The mathematical forms of a sequence of conditions.
pub open spec fn keywords_view(s: Seq<Keyword>) -> Seq<SpecKeyword>
    decreases s,
{
    if s.len() == 0 {
        seq![]
    } else {
        proof {
            assert(decreases_to!(s => s[s.len() - 1]));
            assert(decreases_to!(s => s.drop_last()));
        }
        keywords_view(s.drop_last()).push(s[s.len() - 1].view())
    }
}

pub proof fn lemma_keywords_view(s: Seq<Keyword>)
    ensures
        keywords_view(s).len() == s.len(),
        forall|i: int| 0 <= i < s.len() ==> #[trigger] keywords_view(s)[i] == s[i].view(),
    decreases s.len(),
{
    if s.len() > 0 {
        lemma_keywords_view(s.drop_last());
    }
}

pub open spec fn strings_view(v: Seq<String>) -> Seq<Seq<char>> {
    v.map_values(|s: String| s@)
}

impl Node {
    pub open spec fn view(&self) -> SpecNode {
        match self {
            Node::Keyword(k) => SpecNode::Keyword(k.view()),
            Node::Value(v) => SpecNode::Value(v@),
        }
    }
}

pub open spec fn nodes_view(s: Seq<Node>) -> Seq<SpecNode> {
    s.map_values(|n: Node| n.view())
}

/// The keywords of the language.
#[derive(Clone, Copy, PartialEq, Eq, Structural, Debug)]
pub enum KeywordName {
    And,
    Or,
    Not,
    Dec,
    RaDeg,
    Ra,
    Constellation,
    ConstellationGroup,
    Catalogue,
    Type,
    MagBelow,
    MagAbove,
    Mag,
    ObjectId,
    CatalogueDesignation,
}

/// How a keyword is written.
pub open spec fn keyword_text(k: KeywordName) -> Seq<char> {
    match k {
        KeywordName::And => "AND"@,
        KeywordName::Or => "OR"@,
        KeywordName::Not => "NOT"@,
        KeywordName::Dec => "DEC"@,
        KeywordName::RaDeg => "RA_DEG"@,
        KeywordName::Ra => "RA"@,
        KeywordName::Constellation => "CONSTELLATION"@,
        KeywordName::ConstellationGroup => "CONSTELLATION_GROUP"@,
        KeywordName::Catalogue => "CATALOGUE"@,
        KeywordName::Type => "TYPE"@,
        KeywordName::MagBelow => "MAG_BELOW"@,
        KeywordName::MagAbove => "MAG_ABOVE"@,
        KeywordName::Mag => "MAG"@,
        KeywordName::ObjectId => "OBJECT_ID"@,
        KeywordName::CatalogueDesignation => "CATALOGUE_DESIGNATION"@,
    }
}

/// The keyword written as `ident` (keywords are case sensitive).
pub open spec fn keyword_named(ident: Seq<char>) -> Option<KeywordName> {
    if ident == "AND"@ {
        Some(KeywordName::And)
    } else if ident == "OR"@ {
        Some(KeywordName::Or)
    } else if ident == "NOT"@ {
        Some(KeywordName::Not)
    } else if ident == "DEC"@ {
        Some(KeywordName::Dec)
    } else if ident == "RA_DEG"@ {
        Some(KeywordName::RaDeg)
    } else if ident == "RA"@ {
        Some(KeywordName::Ra)
    } else if ident == "CONSTELLATION"@ {
        Some(KeywordName::Constellation)
    } else if ident == "CONSTELLATION_GROUP"@ {
        Some(KeywordName::ConstellationGroup)
    } else if ident == "CATALOGUE"@ {
        Some(KeywordName::Catalogue)
    } else if ident == "TYPE"@ {
        Some(KeywordName::Type)
    } else if ident == "MAG_BELOW"@ {
        Some(KeywordName::MagBelow)
    } else if ident == "MAG_ABOVE"@ {
        Some(KeywordName::MagAbove)
    } else if ident == "MAG"@ {
        Some(KeywordName::Mag)
    } else if ident == "OBJECT_ID"@ {
        Some(KeywordName::ObjectId)
    } else if ident == "CATALOGUE_DESIGNATION"@ {
        Some(KeywordName::CatalogueDesignation)
    } else {
        None
    }
}

impl KeywordName {
    /// How the keyword is written.
    pub fn text(&self) -> (r: &'static str)
        ensures
            r@ == keyword_text(*self),
    {
        match *self {
            KeywordName::And => "AND",
            KeywordName::Or => "OR",
            KeywordName::Not => "NOT",
            KeywordName::Dec => "DEC",
            KeywordName::RaDeg => "RA_DEG",
            KeywordName::Ra => "RA",
            KeywordName::Constellation => "CONSTELLATION",
            KeywordName::ConstellationGroup => "CONSTELLATION_GROUP",
            KeywordName::Catalogue => "CATALOGUE",
            KeywordName::Type => "TYPE",
            KeywordName::MagBelow => "MAG_BELOW",
            KeywordName::MagAbove => "MAG_ABOVE",
            KeywordName::Mag => "MAG",
            KeywordName::ObjectId => "OBJECT_ID",
            KeywordName::CatalogueDesignation => "CATALOGUE_DESIGNATION",
        }
    }

    /// The keyword written as `ident`, if any.
    pub fn from_ident(ident: &str) -> (r: Option<KeywordName>)
        ensures
            r == keyword_named(ident@),
    {
        if str_eq(ident, "AND") {
            Some(KeywordName::And)
        } else if str_eq(ident, "OR") {
            Some(KeywordName::Or)
        } else if str_eq(ident, "NOT") {
            Some(KeywordName::Not)
        } else if str_eq(ident, "DEC") {
            Some(KeywordName::Dec)
        } else if str_eq(ident, "RA_DEG") {
            Some(KeywordName::RaDeg)
        } else if str_eq(ident, "RA") {
            Some(KeywordName::Ra)
        } else if str_eq(ident, "CONSTELLATION") {
            Some(KeywordName::Constellation)
        } else if str_eq(ident, "CONSTELLATION_GROUP") {
            Some(KeywordName::ConstellationGroup)
        } else if str_eq(ident, "CATALOGUE") {
            Some(KeywordName::Catalogue)
        } else if str_eq(ident, "TYPE") {
            Some(KeywordName::Type)
        } else if str_eq(ident, "MAG_BELOW") {
            Some(KeywordName::MagBelow)
        } else if str_eq(ident, "MAG_ABOVE") {
            Some(KeywordName::MagAbove)
        } else if str_eq(ident, "MAG") {
            Some(KeywordName::Mag)
        } else if str_eq(ident, "OBJECT_ID") {
            Some(KeywordName::ObjectId)
        } else if str_eq(ident, "CATALOGUE_DESIGNATION") {
            Some(KeywordName::CatalogueDesignation)
        } else {
            None
        }
    }
}

/// A named group of constellations, each enabled or not.
#[derive(Clone, Debug)]
pub struct ConstellationGroup {
    pub name: String,
    pub constellations: Vec<(String, bool)>,
}

/// The constellation groups that `CONSTELLATION_GROUP` can name.
#[derive(Clone, Debug)]
pub struct ConstellationGroups {
    pub groups: Vec<ConstellationGroup>,
}

pub open spec fn members_view(m: Seq<(String, bool)>) -> Seq<(Seq<char>, bool)> {
    m.map_values(|p: (String, bool)| (p.0@, p.1))
}

impl ConstellationGroups {
    pub open spec fn view(&self) -> Seq<(Seq<char>, Seq<(Seq<char>, bool)>)> {
        self.groups@.map_values(|g: ConstellationGroup| (g.name@, members_view(g.constellations@)))
    }

    /// Whether no two groups share a name, as in the map the groups are kept
    /// in.
    pub open spec fn wf(&self) -> bool {
        group_names_distinct(self.view())
    }
}

/// Whether no two groups share a name.
pub open spec fn group_names_distinct(g: Seq<(Seq<char>, Seq<(Seq<char>, bool)>)>) -> bool {
    forall|i: int, j: int| 0 <= i < j < g.len() ==> (#[trigger] g[i]).0 != (#[trigger] g[j]).0
}

/// The members of the first group called `name`.
pub open spec fn group_lookup(g: Seq<(Seq<char>, Seq<(Seq<char>, bool)>)>, name: Seq<char>) -> Option<Seq<(Seq<char>, bool)>>
    decreases g.len(),
{
    if g.len() == 0 {
        None
    } else if g[0].0 == name {
        Some(g[0].1)
    } else {
        group_lookup(g.drop_first(), name)
    }
}

/// Where no two groups share a name, looking a group up by its name finds
/// that group: the list is read as the map it stands for.
pub proof fn lemma_group_lookup_unique(g: Seq<(Seq<char>, Seq<(Seq<char>, bool)>)>, i: int)
    requires
        group_names_distinct(g),
        0 <= i < g.len(),
    ensures
        group_lookup(g, g[i].0) == Some(g[i].1),
    decreases i,
{
    if i > 0 {
        let rest = g.drop_first();
        assert(group_names_distinct(rest)) by {
            assert forall|a: int, b: int| 0 <= a < b < rest.len() implies (#[trigger] rest[a]).0 != (#[trigger] rest[b]).0 by {
                assert(rest[a] == g[a + 1]);
                assert(rest[b] == g[b + 1]);
            }
        }
        assert(rest[i - 1] == g[i]);
        lemma_group_lookup_unique(rest, i - 1);
        assert(g[0].0 != g[i].0);
    }
}

/// The upper-case names of the enabled members.
pub open spec fn enabled_upper(m: Seq<(Seq<char>, bool)>) -> Set<Seq<char>> {
    Set::new(|x: Seq<char>| exists|j: int| 0 <= j < m.len() && (#[trigger] m[j]).1 && x == upper_case_of(m[j].0))
}

// ---- messages ----

pub open spec fn kw_at(name: Seq<char>, pos: nat) -> Seq<char> {
    "Keyword '"@ + name + "' at position "@ + decimal(pos)
}

pub open spec fn only_keywords_message(name: Seq<char>, pos: nat) -> Seq<char> {
    "Keyword '"@ + name + "' can only take other keywords, not values (position "@ + decimal(pos) + ")"@
}

pub open spec fn only_values_message(name: Seq<char>, pos: nat) -> Seq<char> {
    "Keyword '"@ + name + "' can only take values, not other keywords (position "@ + decimal(pos) + ")"@
}

pub open spec fn at_least_one_message(name: Seq<char>, pos: nat) -> Seq<char> {
    kw_at(name, pos) + " expects at least 1 argument, found 0"@
}

pub open spec fn exactly_one_message(name: Seq<char>, pos: nat, found: nat) -> Seq<char> {
    kw_at(name, pos) + " expects exactly 1 argument, found "@ + decimal(found)
}

pub open spec fn exactly_two_message(name: Seq<char>, pos: nat, found: nat) -> Seq<char> {
    kw_at(name, pos) + " expects exactly 2 arguments, found "@ + decimal(found)
}

pub open spec fn numbers_message(name: Seq<char>, pos: nat, value: Seq<char>) -> Seq<char> {
    kw_at(name, pos) + " expects numbers as arguments, found '"@ + value + "' ('"@ + float_error_text(value) + "')"@
}

pub open spec fn a_number_message(name: Seq<char>, pos: nat, value: Seq<char>) -> Seq<char> {
    kw_at(name, pos) + " expects a numbers as argument, found '"@ + value + "' ('"@ + float_error_text(value) + "')"@
}

pub open spec fn whole_number_message(pos: nat, value: Seq<char>, e: IntErrorKind) -> Seq<char> {
    kw_at("OBJECT_ID"@, pos) + " expects a whole numbers as argument, found '"@ + value + "' ('"@ + int_error_text(e) + "')"@
}

pub open spec fn no_group_message(name: Seq<char>) -> Seq<char> {
    "Could not find constellation group named '"@ + name + "'"@
}

pub open spec fn colons_message(pos: nat) -> Seq<char> {
    "Each argument of 'CATALOGUE_DESIGNATION' has to be in the format <catalogue>:<catalogue number>, did not get the correct amount of colons at position "@ + decimal(pos) + " "@
}

pub open spec fn catalogue_number_message(number: Seq<char>, e: IntErrorKind, pos: nat) -> Seq<char> {
    "The catalogue number has to be a whole number, found "@ + number + " ("@ + int_error_text(e) + ") as an argument of 'CATALOGUE_DESIGNATION' at position "@ + decimal(pos)
}

pub open spec fn unknown_keyword_message(ident: Seq<char>, pos: nat) -> Seq<char> {
    "Unknown keyword '"@ + ident + "' at position "@ + decimal(pos)
}

fn push_str(s: &mut String, t: &str)
    ensures
        final(s)@ == old(s)@ + t@,
{
    s.append(t);
}

fn kw_at_text(name: &str, pos: usize) -> (r: String)
    ensures
        r@ == kw_at(name@, pos as nat),
{
    let mut s = String::from_str("Keyword '");
    push_str(&mut s, name);
    push_str(&mut s, "' at position ");
    let d = usize_to_decimal(pos);
    push_str(&mut s, d.as_str());
    s
}

fn only_keywords_text(name: &str, pos: usize) -> (r: String)
    ensures
        r@ == only_keywords_message(name@, pos as nat),
{
    let mut s = String::from_str("Keyword '");
    push_str(&mut s, name);
    push_str(&mut s, "' can only take other keywords, not values (position ");
    let d = usize_to_decimal(pos);
    push_str(&mut s, d.as_str());
    push_str(&mut s, ")");
    s
}

fn only_values_text(name: &str, pos: usize) -> (r: String)
    ensures
        r@ == only_values_message(name@, pos as nat),
{
    let mut s = String::from_str("Keyword '");
    push_str(&mut s, name);
    push_str(&mut s, "' can only take values, not other keywords (position ");
    let d = usize_to_decimal(pos);
    push_str(&mut s, d.as_str());
    push_str(&mut s, ")");
    s
}

fn at_least_one_text(name: &str, pos: usize) -> (r: String)
    ensures
        r@ == at_least_one_message(name@, pos as nat),
{
    let mut s = kw_at_text(name, pos);
    push_str(&mut s, " expects at least 1 argument, found 0");
    s
}

fn exactly_one_text(name: &str, pos: usize, found: usize) -> (r: String)
    ensures
        r@ == exactly_one_message(name@, pos as nat, found as nat),
{
    let mut s = kw_at_text(name, pos);
    push_str(&mut s, " expects exactly 1 argument, found ");
    let d = usize_to_decimal(found);
    push_str(&mut s, d.as_str());
    s
}

fn exactly_two_text(name: &str, pos: usize, found: usize) -> (r: String)
    ensures
        r@ == exactly_two_message(name@, pos as nat, found as nat),
{
    let mut s = kw_at_text(name, pos);
    push_str(&mut s, " expects exactly 2 arguments, found ");
    let d = usize_to_decimal(found);
    push_str(&mut s, d.as_str());
    s
}

fn numbers_text(name: &str, pos: usize, value: &str) -> (r: String)
    ensures
        r@ == numbers_message(name@, pos as nat, value@),
{
    let mut s = kw_at_text(name, pos);
    push_str(&mut s, " expects numbers as arguments, found '");
    push_str(&mut s, value);
    push_str(&mut s, "' ('");
    push_str(&mut s, float_error_message(value));
    push_str(&mut s, "')");
    s
}

fn a_number_text(name: &str, pos: usize, value: &str) -> (r: String)
    ensures
        r@ == a_number_message(name@, pos as nat, value@),
{
    let mut s = kw_at_text(name, pos);
    push_str(&mut s, " expects a numbers as argument, found '");
    push_str(&mut s, value);
    push_str(&mut s, "' ('");
    push_str(&mut s, float_error_message(value));
    push_str(&mut s, "')");
    s
}

fn whole_number_text(pos: usize, value: &str, e: IntErrorKind) -> (r: String)
    ensures
        r@ == whole_number_message(pos as nat, value@, e),
{
    let mut s = kw_at_text("OBJECT_ID", pos);
    push_str(&mut s, " expects a whole numbers as argument, found '");
    push_str(&mut s, value);
    push_str(&mut s, "' ('");
    push_str(&mut s, e.message());
    push_str(&mut s, "')");
    s
}

fn no_group_text(name: &str) -> (r: String)
    ensures
        r@ == no_group_message(name@),
{
    let mut s = String::from_str("Could not find constellation group named '");
    push_str(&mut s, name);
    push_str(&mut s, "'");
    s
}

fn colons_text(pos: usize) -> (r: String)
    ensures
        r@ == colons_message(pos as nat),
{
    let mut s = String::from_str("Each argument of 'CATALOGUE_DESIGNATION' has to be in the format <catalogue>:<catalogue number>, did not get the correct amount of colons at position ");
    let d = usize_to_decimal(pos);
    push_str(&mut s, d.as_str());
    push_str(&mut s, " ");
    s
}

fn catalogue_number_text(number: &str, e: IntErrorKind, pos: usize) -> (r: String)
    ensures
        r@ == catalogue_number_message(number@, e, pos as nat),
{
    let mut s = String::from_str("The catalogue number has to be a whole number, found ");
    push_str(&mut s, number);
    push_str(&mut s, " (");
    push_str(&mut s, e.message());
    push_str(&mut s, ") as an argument of 'CATALOGUE_DESIGNATION' at position ");
    let d = usize_to_decimal(pos);
    push_str(&mut s, d.as_str());
    s
}

pub(crate) fn unknown_keyword_text(ident: &str, pos: usize) -> (r: String)
    ensures
        r@ == unknown_keyword_message(ident@, pos as nat),
{
    let mut s = String::from_str("Unknown keyword '");
    push_str(&mut s, ident);
    push_str(&mut s, "' at position ");
    let d = usize_to_decimal(pos);
    push_str(&mut s, d.as_str());
    s
}


// ---- from arguments to conditions ----

pub open spec fn any_value(args: Seq<SpecNode>) -> bool {
    exists|i: int| 0 <= i < args.len() && (#[trigger] args[i]) is Value
}

pub open spec fn any_keyword(args: Seq<SpecNode>) -> bool {
    exists|i: int| 0 <= i < args.len() && (#[trigger] args[i]) is Keyword
}

pub open spec fn keyword_args(args: Seq<SpecNode>) -> Seq<SpecKeyword> {
    Seq::new(args.len(), |i: int| args[i]->Keyword_0)
}

pub open spec fn value_args(args: Seq<SpecNode>) -> Seq<Seq<char>> {
    Seq::new(args.len(), |i: int| args[i]->Value_0)
}

/// The catalogues named by the arguments, read in order.
pub open spec fn catalogue_args(args: Seq<SpecNode>, pos: nat) -> Result<Seq<Catalogue>, Seq<char>>
    decreases args.len(),
{
    if args.len() == 0 {
        Ok(seq![])
    } else {
        match args[0] {
            SpecNode::Keyword(_) => Err(only_values_message("CATALOGUE"@, pos)),
            SpecNode::Value(v) => match catalogue_result(upper_case_of(v)) {
                Err(e) => Err(e),
                Ok(c) => match catalogue_args(args.drop_first(), pos) {
                    Err(e) => Err(e),
                    Ok(rest) => Ok(seq![c] + rest),
                },
            },
        }
    }
}

/// The object types named by the arguments, read in order.
pub open spec fn type_args(args: Seq<SpecNode>, pos: nat) -> Result<Seq<ObjectType>, Seq<char>>
    decreases args.len(),
{
    if args.len() == 0 {
        Ok(seq![])
    } else {
        match args[0] {
            SpecNode::Keyword(_) => Err(only_values_message("TYPE"@, pos)),
            SpecNode::Value(v) => match object_type_result(upper_case_of(v), v) {
                Err(e) => Err(e),
                Ok(t) => match type_args(args.drop_first(), pos) {
                    Err(e) => Err(e),
                    Ok(rest) => Ok(seq![t] + rest),
                },
            },
        }
    }
}

/// The object identifiers written in `vs`, read in order.
pub open spec fn object_ids(vs: Seq<Seq<char>>, pos: nat) -> Result<Seq<u64>, Seq<char>>
    decreases vs.len(),
{
    if vs.len() == 0 {
        Ok(seq![])
    } else {
        match parse_unsigned(vs[0], u64::MAX as nat) {
            Err(e) => Err(whole_number_message(pos, vs[0], e)),
            Ok(n) => match object_ids(vs.drop_first(), pos) {
                Err(e) => Err(e),
                Ok(rest) => Ok(seq![n as u64] + rest),
            },
        }
    }
}

/// `v` split at its only colon, if it has exactly one.
pub open spec fn colon_split(v: Seq<char>) -> Option<(Seq<char>, Seq<char>)> {
    if exists|k: int| 0 <= k < v.len() && v[k] == ':' && (forall|j: int| 0 <= j < v.len() && j != k ==> v[j] != ':') {
        let k = choose|k: int| 0 <= k < v.len() && v[k] == ':' && (forall|j: int| 0 <= j < v.len() && j != k ==> v[j] != ':');
        Some((v.take(k), v.skip(k + 1)))
    } else {
        None
    }
}

/// The designations `<catalogue>:<designation>` written in `vs`, read in order.
pub open spec fn designations(vs: Seq<Seq<char>>, pos: nat) -> Result<Seq<(Catalogue, Seq<char>)>, Seq<char>>
    decreases vs.len(),
{
    if vs.len() == 0 {
        Ok(seq![])
    } else {
        match colon_split(vs[0]) {
            None => Err(colons_message(pos)),
            Some((cat, number)) => match catalogue_result(upper_case_of(cat)) {
                Err(e) => Err(e),
                Ok(c) => if is_numbered(c) && parse_unsigned(number, u32::MAX as nat) is Err {
                    Err(catalogue_number_message(number, parse_unsigned(number, u32::MAX as nat)->Err_0, pos))
                } else {
                    match designations(vs.drop_first(), pos) {
                        Err(e) => Err(e),
                        Ok(rest) => Ok(seq![(c, number)] + rest),
                    }
                },
            },
        }
    }
}

/// The upper-case names of the enabled members of the named groups.
pub open spec fn group_members(g: Seq<(Seq<char>, Seq<(Seq<char>, bool)>)>, names: Seq<Seq<char>>) -> Result<Set<Seq<char>>, Seq<char>>
    decreases names.len(),
{
    if names.len() == 0 {
        Ok(Set::empty())
    } else {
        match group_lookup(g, names[0]) {
            None => Err(no_group_message(names[0])),
            Some(m) => match group_members(g, names.drop_first()) {
                Err(e) => Err(e),
                Ok(rest) => Ok(enabled_upper(m) + rest),
            },
        }
    }
}

pub open spec fn range_keyword(k: KeywordName, id: nat, a: Seq<char>, b: Seq<char>) -> SpecKeyword {
    match k {
        KeywordName::Dec => SpecKeyword::Dec(id, a, b),
        KeywordName::RaDeg => SpecKeyword::RaDeg(id, a, b),
        KeywordName::Ra => SpecKeyword::Ra(id, a, b),
        _ => SpecKeyword::Mag(id, a, b),
    }
}

pub open spec fn bound_keyword(k: KeywordName, id: nat, a: Seq<char>) -> SpecKeyword {
    match k {
        KeywordName::MagBelow => SpecKeyword::MagBelow(id, a),
        _ => SpecKeyword::MagAbove(id, a),
    }
}

/// The condition that keyword `k` with arguments `args` stands for, or the
/// error message, for a keyword written at `pos` whose opening parenthesis
/// is at offset `id`; `g` are the constellation groups.
pub open spec fn keyword_from_raw(
    k: KeywordName,
    args: Seq<SpecNode>,
    pos: nat,
    id: nat,
    g: Seq<(Seq<char>, Seq<(Seq<char>, bool)>)>,
) -> Result<SpecKeyword, Seq<char>> {
    let name = keyword_text(k);
    match k {
        KeywordName::And | KeywordName::Or => if any_value(args) {
            Err(only_keywords_message(name, pos))
        } else if args.len() == 0 {
            Err(at_least_one_message(name, pos))
        } else if k == KeywordName::And {
            Ok(SpecKeyword::And(keyword_args(args)))
        } else {
            Ok(SpecKeyword::Or(keyword_args(args)))
        },
        KeywordName::Not => if any_value(args) {
            Err(only_keywords_message(name, pos))
        } else if args.len() != 1 {
            Err(exactly_one_message(name, pos, args.len()))
        } else {
            Ok(SpecKeyword::Not(Box::new(args[0]->Keyword_0)))
        },
        KeywordName::Dec | KeywordName::RaDeg | KeywordName::Ra | KeywordName::Mag => if any_keyword(args) {
            Err(only_values_message(name, pos))
        } else if args.len() != 2 {
            Err(exactly_two_message(name, pos, args.len()))
        } else if !is_float_literal(args[0]->Value_0) {
            Err(numbers_message(name, pos, args[0]->Value_0))
        } else if !is_float_literal(args[1]->Value_0) {
            Err(numbers_message(name, pos, args[1]->Value_0))
        } else {
            Ok(range_keyword(k, id, args[0]->Value_0, args[1]->Value_0))
        },
        KeywordName::MagBelow | KeywordName::MagAbove => if any_keyword(args) {
            Err(only_values_message(name, pos))
        } else if args.len() != 1 {
            Err(exactly_one_message(name, pos, args.len()))
        } else if !is_float_literal(args[0]->Value_0) {
            Err(a_number_message(name, pos, args[0]->Value_0))
        } else {
            Ok(bound_keyword(k, id, args[0]->Value_0))
        },
        KeywordName::Constellation => if any_keyword(args) {
            Err(only_values_message(name, pos))
        } else if args.len() == 0 {
            Err(at_least_one_message(name, pos))
        } else {
            Ok(SpecKeyword::Constellation(value_args(args)))
        },
        KeywordName::ConstellationGroup => if any_keyword(args) {
            Err(only_values_message(name, pos))
        } else if args.len() == 0 {
            Err(at_least_one_message(name, pos))
        } else {
            match group_members(g, value_args(args)) {
                Err(e) => Err(e),
                Ok(set) => Ok(SpecKeyword::Constellation(sorted_list(set))),
            }
        },
        KeywordName::Catalogue => match catalogue_args(args, pos) {
            Err(e) => Err(e),
            Ok(cs) => if cs.len() == 0 {
                Err(at_least_one_message(name, pos))
            } else {
                Ok(SpecKeyword::Catalogue(cs))
            },
        },
        KeywordName::Type => match type_args(args, pos) {
            Err(e) => Err(e),
            Ok(ts) => if ts.len() == 0 {
                Err(at_least_one_message(name, pos))
            } else {
                Ok(SpecKeyword::Type(ts))
            },
        },
        KeywordName::ObjectId => if any_keyword(args) {
            Err(only_values_message(name, pos))
        } else if args.len() == 0 {
            Err(at_least_one_message(name, pos))
        } else {
            match object_ids(value_args(args), pos) {
                Err(e) => Err(e),
                Ok(ids) => Ok(SpecKeyword::ObjectId(ids)),
            }
        },
        KeywordName::CatalogueDesignation => if any_keyword(args) {
            Err(only_values_message(name, pos))
        } else if args.len() == 0 {
            Err(at_least_one_message(name, pos))
        } else {
            match designations(value_args(args), pos) {
                Err(e) => Err(e),
                Ok(ds) => Ok(SpecKeyword::CatalogueDesignation(ds)),
            }
        },
    }
}

pub open spec fn keyword_result_view(r: Result<Keyword, String>) -> Result<SpecKeyword, Seq<char>> {
    match r {
        Ok(k) => Ok(k.view()),
        Err(e) => Err(e@),
    }
}

fn has_value_arg(args: &Vec<Node>) -> (r: bool)
    ensures
        r == any_value(nodes_view(args@)),
{
    let ghost a = nodes_view(args@);
    let mut i: usize = 0;
    while i < args.len()
        invariant
            i <= args@.len(),
            a == nodes_view(args@),
            forall|j: int| 0 <= j < i ==> !((#[trigger] a[j]) is Value),
        decreases args@.len() - i,
    {
        assert(a[i as int] == args@[i as int].view());
        match &args[i] {
            Node::Value(_) => {
                return true;
            },
            Node::Keyword(_) => {},
        }
        i = i + 1;
    }
    false
}

fn has_keyword_arg(args: &Vec<Node>) -> (r: bool)
    ensures
        r == any_keyword(nodes_view(args@)),
{
    let ghost a = nodes_view(args@);
    let mut i: usize = 0;
    while i < args.len()
        invariant
            i <= args@.len(),
            a == nodes_view(args@),
            forall|j: int| 0 <= j < i ==> !((#[trigger] a[j]) is Keyword),
        decreases args@.len() - i,
    {
        assert(a[i as int] == args@[i as int].view());
        match &args[i] {
            Node::Keyword(_) => {
                return true;
            },
            Node::Value(_) => {},
        }
        i = i + 1;
    }
    false
}

proof fn lemma_keywords_view_push(s: Seq<Keyword>, k: Keyword)
    ensures
        keywords_view(s.push(k)) == keywords_view(s).push(k.view()),
{
    assert(s.push(k).drop_last() =~= s);
}

fn into_keywords(args: Vec<Node>) -> (r: Vec<Keyword>)
    requires
        !any_value(nodes_view(args@)),
    ensures
        keywords_view(r@) == keyword_args(nodes_view(args@)),
{
    let ghost a = nodes_view(args@);
    let ghost n = args@.len();
    let mut args = args;
    let mut out: Vec<Keyword> = Vec::new();
    while args.len() > 0
        invariant
            a.len() == n,
            args@.len() + out@.len() == n,
            forall|j: int| 0 <= j < args@.len() ==> (#[trigger] args@[j]).view() == a[out@.len() + j],
            forall|j: int| 0 <= j < n ==> !((#[trigger] a[j]) is Value),
            keywords_view(out@) == keyword_args(a).take(out@.len() as int),
        decreases args@.len(),
    {
        let ghost before = out@;
        let ghost old_args = args@;
        let node = args.remove(0);
        assert(node.view() == a[before.len() as int]);
        assert(!(a[before.len() as int] is Value));
        match node {
            Node::Keyword(k) => {
                out.push(k);
                proof {
                    lemma_keywords_view_push(before, k);
                    assert(keyword_args(a).take(out@.len() as int) =~= keyword_args(a).take(before.len() as int).push(k.view()));
                    assert forall|j: int| 0 <= j < args@.len() implies (#[trigger] args@[j]).view() == a[out@.len() + j] by {
                        assert(args@[j] == old_args[j + 1]);
                    }
                }
            },
            Node::Value(_) => {
                assert(false);
            },
        }
    }
    assert(keyword_args(a).take(n as int) =~= keyword_args(a));
    out
}

fn into_values(args: Vec<Node>) -> (r: Vec<String>)
    requires
        !any_keyword(nodes_view(args@)),
    ensures
        strings_view(r@) == value_args(nodes_view(args@)),
{
    let ghost a = nodes_view(args@);
    let ghost n = args@.len();
    let mut args = args;
    let mut out: Vec<String> = Vec::new();
    while args.len() > 0
        invariant
            a.len() == n,
            args@.len() + out@.len() == n,
            forall|j: int| 0 <= j < args@.len() ==> (#[trigger] args@[j]).view() == a[out@.len() + j],
            forall|j: int| 0 <= j < n ==> !((#[trigger] a[j]) is Keyword),
            strings_view(out@) == value_args(a).take(out@.len() as int),
        decreases args@.len(),
    {
        let ghost before = out@;
        let ghost old_args = args@;
        let node = args.remove(0);
        assert(node.view() == a[before.len() as int]);
        assert(!(a[before.len() as int] is Keyword));
        match node {
            Node::Value(v) => {
                out.push(v);
                proof {
                    assert(strings_view(out@) =~= strings_view(before).push(v@));
                    assert(value_args(a).take(out@.len() as int) =~= value_args(a).take(before.len() as int).push(v@));
                    assert forall|j: int| 0 <= j < args@.len() implies (#[trigger] args@[j]).view() == a[out@.len() + j] by {
                        assert(args@[j] == old_args[j + 1]);
                    }
                }
            },
            Node::Keyword(_) => {
                assert(false);
            },
        }
    }
    assert(value_args(a).take(n as int) =~= value_args(a));
    out
}


pub open spec fn prepend<T>(p: Seq<T>, r: Result<Seq<T>, Seq<char>>) -> Result<Seq<T>, Seq<char>> {
    match r {
        Ok(x) => Ok(p + x),
        Err(e) => Err(e),
    }
}

fn logical_keyword(k: KeywordName, args: Vec<Node>, pos: usize, id: usize, groups: &ConstellationGroups) -> (r: Result<Keyword, String>)
    requires
        k == KeywordName::And || k == KeywordName::Or || k == KeywordName::Not,
    ensures
        keyword_result_view(r) == keyword_from_raw(k, nodes_view(args@), pos as nat, id as nat, groups@),
{
    let ghost a = nodes_view(args@);
    let name = k.text();
    if has_value_arg(&args) {
        return Err(only_keywords_text(name, pos));
    }
    let n = args.len();
    if k == KeywordName::Not {
        if n != 1 {
            return Err(exactly_one_text(name, pos, n));
        }
        let mut ks = into_keywords(args);
        proof {
            lemma_keywords_view(ks@);
        }
        let ghost ks0 = ks@;
        let first = ks.remove(0);
        proof {
            assert(keyword_args(a)[0] == a[0]->Keyword_0);
            assert(keywords_view(ks0)[0] == ks0[0].view());
            assert(first.view() == a[0]->Keyword_0);
        }
        return Ok(Keyword::Not(Box::new(first)));
    }
    if n == 0 {
        return Err(at_least_one_text(name, pos));
    }
    let ks = into_keywords(args);
    if k == KeywordName::And {
        Ok(Keyword::And(ks))
    } else {
        Ok(Keyword::Or(ks))
    }
}

fn is_number_text(s: &str) -> (r: bool)
    ensures
        r == is_float_literal(s@),
{
    let cs = chars_of(s);
    is_float_literal_chars(cs.as_slice())
}

fn numeric_keyword(k: KeywordName, args: Vec<Node>, pos: usize, id: usize, groups: &ConstellationGroups) -> (r: Result<Keyword, String>)
    requires
        k == KeywordName::Dec || k == KeywordName::RaDeg || k == KeywordName::Ra || k == KeywordName::Mag
            || k == KeywordName::MagBelow || k == KeywordName::MagAbove,
    ensures
        keyword_result_view(r) == keyword_from_raw(k, nodes_view(args@), pos as nat, id as nat, groups@),
{
    let ghost a = nodes_view(args@);
    let name = k.text();
    if has_keyword_arg(&args) {
        return Err(only_values_text(name, pos));
    }
    let n = args.len();
    let vs = into_values(args);
    assert(vs@.len() == n);
    if k == KeywordName::MagBelow || k == KeywordName::MagAbove {
        if n != 1 {
            return Err(exactly_one_text(name, pos, n));
        }
        assert(strings_view(vs@)[0] == vs@[0]@ && value_args(a)[0] == a[0]->Value_0);
        if !is_number_text(vs[0].as_str()) {
            return Err(a_number_text(name, pos, vs[0].as_str()));
        }
        let b = NumberBound { id, value: vs[0].clone() };
        if k == KeywordName::MagBelow {
            return Ok(Keyword::MagBelow(b));
        } else {
            return Ok(Keyword::MagAbove(b));
        }
    }
    if n != 2 {
        return Err(exactly_two_text(name, pos, n));
    }
    assert(strings_view(vs@)[0] == vs@[0]@ && value_args(a)[0] == a[0]->Value_0);
    assert(strings_view(vs@)[1] == vs@[1]@ && value_args(a)[1] == a[1]->Value_0);
    if !is_number_text(vs[0].as_str()) {
        return Err(numbers_text(name, pos, vs[0].as_str()));
    }
    if !is_number_text(vs[1].as_str()) {
        return Err(numbers_text(name, pos, vs[1].as_str()));
    }
    let r = NumberRange { id, first: vs[0].clone(), second: vs[1].clone() };
    if k == KeywordName::Dec {
        Ok(Keyword::Dec(r))
    } else if k == KeywordName::RaDeg {
        Ok(Keyword::RaDeg(r))
    } else if k == KeywordName::Ra {
        Ok(Keyword::Ra(r))
    } else {
        Ok(Keyword::Mag(r))
    }
}

fn catalogue_keyword(args: Vec<Node>, pos: usize) -> (r: Result<Keyword, String>)
    ensures
        keyword_result_view(r) == match catalogue_args(nodes_view(args@), pos as nat) {
            Err(e) => Err(e),
            Ok(cs) => if cs.len() == 0 {
                Err(at_least_one_message("CATALOGUE"@, pos as nat))
            } else {
                Ok(SpecKeyword::Catalogue(cs))
            },
        },
{
    let ghost a = nodes_view(args@);
    let mut cs: Vec<Catalogue> = Vec::new();
    let mut i: usize = 0;
    assert(a.skip(0) =~= a);
    while i < args.len()
        invariant
            i <= args@.len(),
            a == nodes_view(args@),
            catalogue_args(a, pos as nat) == prepend(cs@, catalogue_args(a.skip(i as int), pos as nat)),
        decreases args@.len() - i,
    {
        let ghost rest = a.skip(i as int);
        assert(rest[0] == args@[i as int].view());
        assert(rest.drop_first() =~= a.skip(i + 1));
        match &args[i] {
            Node::Keyword(_) => {
                return Err(only_values_text("CATALOGUE", pos));
            },
            Node::Value(v) => {
                match Catalogue::from_string(v.as_str()) {
                    Err(e) => {
                        return Err(e);
                    },
                    Ok(c) => {
                        let ghost before = cs@;
                        cs.push(c);
                        proof {
                            match catalogue_args(a.skip(i + 1), pos as nat) {
                                Ok(x) => {
                                    assert(before + (seq![c] + x) =~= cs@ + x);
                                },
                                Err(_) => {},
                            }
                        }
                    },
                }
            },
        }
        i = i + 1;
    }
    assert(a.skip(args@.len() as int).len() == 0);
    assert(cs@ + seq![] =~= cs@);
    if cs.len() == 0 {
        return Err(at_least_one_text("CATALOGUE", pos));
    }
    Ok(Keyword::Catalogue(cs))
}

fn type_keyword(args: Vec<Node>, pos: usize) -> (r: Result<Keyword, String>)
    ensures
        keyword_result_view(r) == match type_args(nodes_view(args@), pos as nat) {
            Err(e) => Err(e),
            Ok(ts) => if ts.len() == 0 {
                Err(at_least_one_message("TYPE"@, pos as nat))
            } else {
                Ok(SpecKeyword::Type(ts))
            },
        },
{
    let ghost a = nodes_view(args@);
    let mut ts: Vec<ObjectType> = Vec::new();
    let mut i: usize = 0;
    assert(a.skip(0) =~= a);
    while i < args.len()
        invariant
            i <= args@.len(),
            a == nodes_view(args@),
            type_args(a, pos as nat) == prepend(ts@, type_args(a.skip(i as int), pos as nat)),
        decreases args@.len() - i,
    {
        let ghost rest = a.skip(i as int);
        assert(rest[0] == args@[i as int].view());
        assert(rest.drop_first() =~= a.skip(i + 1));
        match &args[i] {
            Node::Keyword(_) => {
                return Err(only_values_text("TYPE", pos));
            },
            Node::Value(v) => {
                match ObjectType::from_string(v.as_str()) {
                    Err(e) => {
                        return Err(e);
                    },
                    Ok(t) => {
                        let ghost before = ts@;
                        ts.push(t);
                        proof {
                            match type_args(a.skip(i + 1), pos as nat) {
                                Ok(x) => {
                                    assert(before + (seq![t] + x) =~= ts@ + x);
                                },
                                Err(_) => {},
                            }
                        }
                    },
                }
            },
        }
        i = i + 1;
    }
    assert(a.skip(args@.len() as int).len() == 0);
    assert(ts@ + seq![] =~= ts@);
    if ts.len() == 0 {
        return Err(at_least_one_text("TYPE", pos));
    }
    Ok(Keyword::Type(ts))
}

fn parse_object_ids(vs: &Vec<String>, pos: usize) -> (r: Result<Vec<u64>, String>)
    ensures
        match object_ids(strings_view(vs@), pos as nat) {
            Ok(ids) => r matches Ok(v) && v@ == ids,
            Err(e) => r matches Err(m) && m@ == e,
        },
{
    let ghost a = strings_view(vs@);
    let mut ids: Vec<u64> = Vec::new();
    let mut i: usize = 0;
    assert(a.skip(0) =~= a);
    while i < vs.len()
        invariant
            i <= vs@.len(),
            a == strings_view(vs@),
            object_ids(a, pos as nat) == prepend(ids@, object_ids(a.skip(i as int), pos as nat)),
        decreases vs@.len() - i,
    {
        let ghost rest = a.skip(i as int);
        assert(rest[0] == vs@[i as int]@);
        assert(rest.drop_first() =~= a.skip(i + 1));
        let cs = chars_of(vs[i].as_str());
        match parse_unsigned_upto(cs.as_slice(), u64::MAX) {
            Err(e) => {
                return Err(whole_number_text(pos, vs[i].as_str(), e));
            },
            Ok(n) => {
                let ghost before = ids@;
                ids.push(n);
                proof {
                    match object_ids(a.skip(i + 1), pos as nat) {
                        Ok(x) => {
                            assert(before + (seq![n] + x) =~= ids@ + x);
                        },
                        Err(_) => {},
                    }
                }
            },
        }
        i = i + 1;
    }
    assert(a.skip(vs@.len() as int).len() == 0);
    assert(ids@ + seq![] =~= ids@);
    Ok(ids)
}

fn split_at_colon(v: &str) -> (r: Option<(String, String)>)
    ensures
        match colon_split(v@) {
            Some((x, y)) => r matches Some(p) && p.0@ == x && p.1@ == y,
            None => r is None,
        },
{
    let cs = chars_of(v);
    let n = cs.len();
    let mut count: usize = 0;
    let mut at: usize = 0;
    let mut i: usize = 0;
    while i < n
        invariant
            i <= n == cs@.len(),
            cs@ == v@,
            count <= i,
            count == 0 ==> forall|j: int| 0 <= j < i ==> cs@[j] != ':',
            count >= 1 ==> at < i && cs@[at as int] == ':',
            count == 1 ==> forall|j: int| 0 <= j < i && j != at ==> cs@[j] != ':',
            count >= 2 ==> exists|j: int| 0 <= j < i && j != at && cs@[j] == ':',
        decreases n - i,
    {
        if cs[i] == ':' {
            if count == 0 {
                at = i;
            }
            count = count + 1;
        }
        i = i + 1;
    }
    if count != 1 {
        proof {
            if exists|k: int| 0 <= k < v@.len() && v@[k] == ':' && (forall|j: int| 0 <= j < v@.len() && j != k ==> v@[j] != ':') {
                let k = choose|k: int| 0 <= k < v@.len() && v@[k] == ':' && (forall|j: int| 0 <= j < v@.len() && j != k ==> v@[j] != ':');
                if count == 0 {
                    assert(cs@[k] != ':');
                } else {
                    let j = choose|j: int| 0 <= j < n && j != at && cs@[j] == ':';
                    assert(at == k || j == k);
                }
            }
        }
        return None;
    }
    let mut left: Vec<char> = Vec::new();
    let mut k: usize = 0;
    while k < at
        invariant
            k <= at < n == cs@.len(),
            left@ == cs@.take(k as int),
        decreases at - k,
    {
        left.push(cs[k]);
        k = k + 1;
        assert(left@ =~= cs@.take(k as int));
    }
    let mut right: Vec<char> = Vec::new();
    let mut k: usize = at + 1;
    while k < n
        invariant
            at + 1 <= k <= n == cs@.len(),
            right@ == cs@.subrange(at + 1, k as int),
        decreases n - k,
    {
        right.push(cs[k]);
        k = k + 1;
        assert(right@ =~= cs@.subrange(at + 1, k as int));
    }
    proof {
        let kk = choose|k: int| 0 <= k < v@.len() && v@[k] == ':' && (forall|j: int| 0 <= j < v@.len() && j != k ==> v@[j] != ':');
        assert(0 <= at < v@.len() && v@[at as int] == ':' && (forall|j: int| 0 <= j < v@.len() && j != at ==> v@[j] != ':'));
        assert(kk == at);
        assert(cs@.subrange(at + 1, n as int) =~= cs@.skip(at + 1));
    }
    Some((crate::text::string_from_chars(left.as_slice()), crate::text::string_from_chars(right.as_slice())))
}

fn parse_designations(vs: &Vec<String>, pos: usize) -> (r: Result<Vec<(Catalogue, String)>, String>)
    ensures
        match designations(strings_view(vs@), pos as nat) {
            Ok(ds) => r matches Ok(v) && v@.map_values(|p: (Catalogue, String)| (p.0, p.1@)) == ds,
            Err(e) => r matches Err(m) && m@ == e,
        },
{
    let ghost a = strings_view(vs@);
    let mut ds: Vec<(Catalogue, String)> = Vec::new();
    let mut i: usize = 0;
    assert(a.skip(0) =~= a);
    while i < vs.len()
        invariant
            i <= vs@.len(),
            a == strings_view(vs@),
            designations(a, pos as nat) == prepend(
                ds@.map_values(|p: (Catalogue, String)| (p.0, p.1@)),
                designations(a.skip(i as int), pos as nat),
            ),
        decreases vs@.len() - i,
    {
        let ghost rest = a.skip(i as int);
        assert(rest[0] == vs@[i as int]@);
        assert(rest.drop_first() =~= a.skip(i + 1));
        match split_at_colon(vs[i].as_str()) {
            None => {
                return Err(colons_text(pos));
            },
            Some((cat, number)) => {
                match Catalogue::from_string(cat.as_str()) {
                    Err(e) => {
                        return Err(e);
                    },
                    Ok(c) => {
                        if c.numbered() {
                            let ncs = chars_of(number.as_str());
                            match parse_unsigned_upto(ncs.as_slice(), 0xffff_ffffu64) {
                                Err(e) => {
                                    return Err(catalogue_number_text(number.as_str(), e, pos));
                                },
                                Ok(_) => {},
                            }
                        }
                        let ghost before = ds@.map_values(|p: (Catalogue, String)| (p.0, p.1@));
                        let ghost nv = number@;
                        ds.push((c, number));
                        proof {
                            let after = ds@.map_values(|p: (Catalogue, String)| (p.0, p.1@));
                            assert(after =~= before.push((c, nv)));
                            match designations(a.skip(i + 1), pos as nat) {
                                Ok(x) => {
                                    assert(before + (seq![(c, nv)] + x) =~= after + x);
                                },
                                Err(_) => {},
                            }
                        }
                    },
                }
            },
        }
        i = i + 1;
    }
    assert(a.skip(vs@.len() as int).len() == 0);
    assert(ds@.map_values(|p: (Catalogue, String)| (p.0, p.1@)) + seq![] =~= ds@.map_values(|p: (Catalogue, String)| (p.0, p.1@)));
    Ok(ds)
}


fn find_group(groups: &ConstellationGroups, name: &str) -> (r: Option<usize>)
    ensures
        match r {
            Some(i) => i < groups.groups@.len() && group_lookup(groups@, name@) == Some(groups@[i as int].1),
            None => group_lookup(groups@, name@) is None,
        },
{
    let ghost g = groups@;
    let mut i: usize = 0;
    assert(g.skip(0) =~= g);
    while i < groups.groups.len()
        invariant
            i <= groups.groups@.len(),
            g == groups@,
            g.len() == groups.groups@.len(),
            group_lookup(g, name@) == group_lookup(g.skip(i as int), name@),
        decreases groups.groups@.len() - i,
    {
        let ghost rest = g.skip(i as int);
        assert(rest[0] == g[i as int]);
        assert(g[i as int].0 == groups.groups@[i as int].name@);
        assert(rest.drop_first() =~= g.skip(i + 1));
        if str_eq(groups.groups[i].name.as_str(), name) {
            return Some(i);
        }
        i = i + 1;
    }
    None
}

pub open spec fn prepend_set(p: Set<Seq<char>>, r: Result<Set<Seq<char>>, Seq<char>>) -> Result<Set<Seq<char>>, Seq<char>> {
    match r {
        Ok(x) => Ok(p + x),
        Err(e) => Err(e),
    }
}

/// Adds the upper-case names of the enabled members to the sorted list `out`.
fn add_enabled(out: &mut Vec<String>, members: &Vec<(String, bool)>)
    requires
        strictly_sorted(strings_view(old(out)@)),
    ensures
        strictly_sorted(strings_view(final(out)@)),
        strings_view(final(out)@).to_set() == strings_view(old(out)@).to_set() + enabled_upper(members_view(members@)),
{
    let ghost m = members_view(members@);
    let ghost start = strings_view(out@).to_set();
    let mut k: usize = 0;
    while k < members.len()
        invariant
            k <= members@.len(),
            m == members_view(members@),
            m.len() == members@.len(),
            strictly_sorted(strings_view(out@)),
            strings_view(out@).to_set() == start + Set::new(|x: Seq<char>| exists|j: int| 0 <= j < k && (#[trigger] m[j]).1 && x == upper_case_of(m[j].0)),
        decreases members@.len() - k,
    {
        let ghost before = strings_view(out@).to_set();
        assert(m[k as int] == (members@[k as int].0@, members@[k as int].1));
        if members[k].1 {
            let up = to_uppercase(members[k].0.as_str());
            insert_sorted(out, up);
        }
        proof {
            let s_old = Set::new(|x: Seq<char>| exists|j: int| 0 <= j < k && (#[trigger] m[j]).1 && x == upper_case_of(m[j].0));
            let s_new = Set::new(|x: Seq<char>| exists|j: int| 0 <= j < k + 1 && (#[trigger] m[j]).1 && x == upper_case_of(m[j].0));
            if m[k as int].1 {
                assert(s_new =~= s_old.insert(upper_case_of(m[k as int].0)));
                assert(strings_view(out@).to_set() =~= start + s_new);
            } else {
                assert(s_new =~= s_old);
            }
        }
        k = k + 1;
    }
    assert(Set::new(|x: Seq<char>| exists|j: int| 0 <= j < members@.len() && (#[trigger] m[j]).1 && x == upper_case_of(m[j].0)) =~= enabled_upper(m));
}

#[verifier::loop_isolation(false)]
fn constellation_group_keyword(args: Vec<Node>, pos: usize, groups: &ConstellationGroups) -> (r: Result<Keyword, String>)
    ensures
        keyword_result_view(r) == keyword_from_raw(KeywordName::ConstellationGroup, nodes_view(args@), pos as nat, 0, groups@),
{
    let ghost a = nodes_view(args@);
    let ghost g = groups@;
    if has_keyword_arg(&args) {
        return Err(only_values_text("CONSTELLATION_GROUP", pos));
    }
    if args.len() == 0 {
        return Err(at_least_one_text("CONSTELLATION_GROUP", pos));
    }
    let names = into_values(args);
    let ghost ns = strings_view(names@);
    let mut out: Vec<String> = Vec::new();
    let mut i: usize = 0;
    assert(ns.skip(0) =~= ns);
    assert(strings_view(out@).to_set() =~= Set::<Seq<char>>::empty());
    assert(ns == value_args(a));
    proof {
        match group_members(g, ns) {
            Ok(x) => {
                assert(Set::<Seq<char>>::empty() + x =~= x);
            },
            Err(_) => {},
        }
    }
    while i < names.len()
        invariant
            i <= names@.len(),
            ns == strings_view(names@),
            ns == value_args(a),
            !any_keyword(a),
            a.len() > 0,
            g == groups@,
            strictly_sorted(strings_view(out@)),
            group_members(g, ns) == prepend_set(strings_view(out@).to_set(), group_members(g, ns.skip(i as int))),
        decreases names@.len() - i,
    {
        let ghost rest = ns.skip(i as int);
        assert(rest[0] == names@[i as int]@);
        assert(rest.drop_first() =~= ns.skip(i + 1));
        match find_group(groups, names[i].as_str()) {
            None => {
                assert(group_members(g, rest) == Err::<Set<Seq<char>>, Seq<char>>(no_group_message(rest[0])));
                return Err(no_group_text(names[i].as_str()));
            },
            Some(gi) => {
                let ghost before = strings_view(out@).to_set();
                assert(groups@[gi as int].1 == members_view(groups.groups@[gi as int].constellations@));
                add_enabled(&mut out, &groups.groups[gi].constellations);
                proof {
                    let en = enabled_upper(groups@[gi as int].1);
                    match group_members(g, ns.skip(i + 1)) {
                        Ok(x) => {
                            assert(before + (en + x) =~= (before + en) + x);
                        },
                        Err(_) => {},
                    }
                }
            },
        }
        i = i + 1;
    }
    proof {
        assert(ns.skip(names@.len() as int).len() == 0);
        assert(strings_view(out@).to_set() + Set::<Seq<char>>::empty() =~= strings_view(out@).to_set());
        lemma_sorted_list_of(strings_view(out@));
    }
    Ok(Keyword::Constellation(out))
}

fn value_list_keyword(k: KeywordName, args: Vec<Node>, pos: usize, id: usize, groups: &ConstellationGroups) -> (r: Result<Keyword, String>)
    requires
        k == KeywordName::Constellation || k == KeywordName::ObjectId || k == KeywordName::CatalogueDesignation,
    ensures
        keyword_result_view(r) == keyword_from_raw(k, nodes_view(args@), pos as nat, id as nat, groups@),
{
    let ghost a = nodes_view(args@);
    let name = k.text();
    if has_keyword_arg(&args) {
        return Err(only_values_text(name, pos));
    }
    if args.len() == 0 {
        return Err(at_least_one_text(name, pos));
    }
    let vs = into_values(args);
    if k == KeywordName::Constellation {
        return Ok(Keyword::Constellation(vs));
    }
    if k == KeywordName::ObjectId {
        return match parse_object_ids(&vs, pos) {
            Ok(ids) => Ok(Keyword::ObjectId(ids)),
            Err(e) => Err(e),
        };
    }
    match parse_designations(&vs, pos) {
        Ok(ds) => Ok(Keyword::CatalogueDesignation(ds)),
        Err(e) => Err(e),
    }
}

impl Keyword {
    /// The condition that keyword `keyword_raw` stands for with the arguments
    /// `args`, or the message that explains why it cannot take them.
    /// `ident_pos` is where the keyword was written (it appears in messages),
    /// `id` the offset of its opening parenthesis, which identifies numeric
    /// conditions, and `constellation_groups` the groups that
    /// `CONSTELLATION_GROUP` can name.
    pub fn from_raw(
        keyword_raw: KeywordName,
        args: Vec<Node>,
        ident_pos: usize,
        id: usize,
        constellation_groups: &ConstellationGroups,
    ) -> (res: Result<Keyword, String>)
        ensures
            keyword_result_view(res) == keyword_from_raw(
                keyword_raw,
                nodes_view(args@),
                ident_pos as nat,
                id as nat,
                constellation_groups@,
            ),
    {
        match keyword_raw {
            KeywordName::And | KeywordName::Or | KeywordName::Not => logical_keyword(
                keyword_raw,
                args,
                ident_pos,
                id,
                constellation_groups,
            ),
            KeywordName::Dec | KeywordName::RaDeg | KeywordName::Ra | KeywordName::Mag
            | KeywordName::MagBelow | KeywordName::MagAbove => numeric_keyword(
                keyword_raw,
                args,
                ident_pos,
                id,
                constellation_groups,
            ),
            KeywordName::Constellation | KeywordName::ObjectId | KeywordName::CatalogueDesignation => value_list_keyword(
                keyword_raw,
                args,
                ident_pos,
                id,
                constellation_groups,
            ),
            KeywordName::ConstellationGroup => constellation_group_keyword(args, ident_pos, constellation_groups),
            KeywordName::Catalogue => catalogue_keyword(args, ident_pos),
            KeywordName::Type => type_keyword(args, ident_pos),
        }
    }
}


proof fn lemma_enabled_upper_finite(m: Seq<(Seq<char>, bool)>)
    ensures
        enabled_upper(m).finite(),
{
    let all = m.map_values(|p: (Seq<char>, bool)| upper_case_of(p.0)).to_set();
    vstd::seq_lib::seq_to_set_is_finite(m.map_values(|p: (Seq<char>, bool)| upper_case_of(p.0)));
    assert forall|x: Seq<char>| enabled_upper(m).contains(x) implies all.contains(x) by {
        let j = choose|j: int| 0 <= j < m.len() && (#[trigger] m[j]).1 && x == upper_case_of(m[j].0);
        assert(m.map_values(|p: (Seq<char>, bool)| upper_case_of(p.0))[j] == x);
    }
    vstd::set_lib::lemma_len_subset(enabled_upper(m), all);
}

proof fn lemma_group_members_finite(g: Seq<(Seq<char>, Seq<(Seq<char>, bool)>)>, names: Seq<Seq<char>>)
    ensures
        group_members(g, names) matches Ok(set) ==> set.finite(),
    decreases names.len(),
{
    if names.len() > 0 {
        lemma_group_members_finite(g, names.drop_first());
        match group_lookup(g, names[0]) {
            Some(m) => lemma_enabled_upper_finite(m),
            None => {},
        }
    }
}

/// `CONSTELLATION_GROUP(g1, g2, ...)` is a shorthand for `CONSTELLATION` of
/// all the enabled constellations of the listed groups: when it is accepted,
/// its list is in increasing order, without repetitions, and holds exactly
/// the upper-case names of those constellations.
pub proof fn lemma_constellation_group_shorthand(
    args: Seq<SpecNode>,
    pos: nat,
    id: nat,
    g: Seq<(Seq<char>, Seq<(Seq<char>, bool)>)>,
)
    ensures
        keyword_from_raw(KeywordName::ConstellationGroup, args, pos, id, g) matches Ok(k) ==> (k matches SpecKeyword::Constellation(cs)
            && group_members(g, value_args(args)) matches Ok(set) && strictly_sorted(cs) && cs.to_set() == set),
{
    lemma_group_members_finite(g, value_args(args));
    match group_members(g, value_args(args)) {
        Ok(set) => lemma_sorted_list(set),
        Err(_) => {},
    }
}

// ---- laws of the keywords ----

/// A bound keyword with one number reads as the bound it is named after:
/// `MAG_ABOVE(v)` keeps the objects fainter than `v` and `MAG_BELOW(v)` those
/// brighter, each under the offset `id` of its bracket.
pub proof fn lemma_bound_keywords(v: Seq<char>, pos: nat, id: nat, g: Seq<(Seq<char>, Seq<(Seq<char>, bool)>)>)
    requires
        is_float_literal(v),
    ensures
        keyword_from_raw(KeywordName::MagAbove, seq![SpecNode::Value(v)], pos, id, g) == Ok::<SpecKeyword, Seq<char>>(
            SpecKeyword::MagAbove(id, v),
        ),
        keyword_from_raw(KeywordName::MagBelow, seq![SpecNode::Value(v)], pos, id, g) == Ok::<SpecKeyword, Seq<char>>(
            SpecKeyword::MagBelow(id, v),
        ),
{
    let args = seq![SpecNode::Value(v)];
    assert(!any_keyword(args)) by {
        if any_keyword(args) {
            let i = choose|i: int| 0 <= i < args.len() && (#[trigger] args[i]) is Keyword;
            assert(args[i] == SpecNode::Value(v));
        }
    }
}

/// A range keyword with two numbers reads as the range it is named after,
/// the numbers kept in the order written.
pub proof fn lemma_range_keywords(a: Seq<char>, b: Seq<char>, pos: nat, id: nat, g: Seq<(Seq<char>, Seq<(Seq<char>, bool)>)>)
    requires
        is_float_literal(a),
        is_float_literal(b),
    ensures
        keyword_from_raw(KeywordName::Dec, seq![SpecNode::Value(a), SpecNode::Value(b)], pos, id, g)
            == Ok::<SpecKeyword, Seq<char>>(SpecKeyword::Dec(id, a, b)),
        keyword_from_raw(KeywordName::RaDeg, seq![SpecNode::Value(a), SpecNode::Value(b)], pos, id, g)
            == Ok::<SpecKeyword, Seq<char>>(SpecKeyword::RaDeg(id, a, b)),
        keyword_from_raw(KeywordName::Ra, seq![SpecNode::Value(a), SpecNode::Value(b)], pos, id, g)
            == Ok::<SpecKeyword, Seq<char>>(SpecKeyword::Ra(id, a, b)),
        keyword_from_raw(KeywordName::Mag, seq![SpecNode::Value(a), SpecNode::Value(b)], pos, id, g)
            == Ok::<SpecKeyword, Seq<char>>(SpecKeyword::Mag(id, a, b)),
{
    let args = seq![SpecNode::Value(a), SpecNode::Value(b)];
    assert(!any_keyword(args)) by {
        if any_keyword(args) {
            let i = choose|i: int| 0 <= i < args.len() && (#[trigger] args[i]) is Keyword;
            assert(args[i] is Value);
        }
    }
}

/// Each keyword is read from its own name, as the filter language writes it.
pub proof fn lemma_keyword_names()
    ensures
        keyword_named("AND"@) == Some(KeywordName::And),
        keyword_named("OR"@) == Some(KeywordName::Or),
        keyword_named("NOT"@) == Some(KeywordName::Not),
        keyword_named("DEC"@) == Some(KeywordName::Dec),
        keyword_named("RA_DEG"@) == Some(KeywordName::RaDeg),
        keyword_named("RA"@) == Some(KeywordName::Ra),
        keyword_named("CONSTELLATION"@) == Some(KeywordName::Constellation),
        keyword_named("CONSTELLATION_GROUP"@) == Some(KeywordName::ConstellationGroup),
        keyword_named("CATALOGUE"@) == Some(KeywordName::Catalogue),
        keyword_named("TYPE"@) == Some(KeywordName::Type),
        keyword_named("MAG_BELOW"@) == Some(KeywordName::MagBelow),
        keyword_named("MAG_ABOVE"@) == Some(KeywordName::MagAbove),
        keyword_named("MAG"@) == Some(KeywordName::Mag),
        keyword_named("OBJECT_ID"@) == Some(KeywordName::ObjectId),
        keyword_named("CATALOGUE_DESIGNATION"@) == Some(KeywordName::CatalogueDesignation),
{
    lemma_keyword_names_and();
    lemma_keyword_names_or();
    lemma_keyword_names_not();
    lemma_keyword_names_dec();
    lemma_keyword_names_radeg();
    lemma_keyword_names_ra();
    lemma_keyword_names_constellation();
    lemma_keyword_names_constellationgroup();
    lemma_keyword_names_catalogue();
    lemma_keyword_names_type();
    lemma_keyword_names_magbelow();
    lemma_keyword_names_magabove();
    lemma_keyword_names_mag();
    lemma_keyword_names_objectid();
    lemma_keyword_names_cataloguedesignation();
}

proof fn lemma_keyword_names_and()
    ensures
        keyword_named("AND"@) == Some(KeywordName::And),
{
    reveal_strlit("AND");
    let n = "AND"@;
    assert(n.len() == 3);
}

proof fn lemma_keyword_names_or()
    ensures
        keyword_named("OR"@) == Some(KeywordName::Or),
{
    reveal_strlit("AND");
    reveal_strlit("OR");
    let n = "OR"@;
    assert(n.len() == 2);
    assert(n != "AND"@);
}

proof fn lemma_keyword_names_not()
    ensures
        keyword_named("NOT"@) == Some(KeywordName::Not),
{
    reveal_strlit("AND");
    reveal_strlit("OR");
    reveal_strlit("NOT");
    let n = "NOT"@;
    assert(n.len() == 3);
    assert(n[0] != "AND"@[0]);
    assert(n != "AND"@);
    assert(n != "OR"@);
}

proof fn lemma_keyword_names_dec()
    ensures
        keyword_named("DEC"@) == Some(KeywordName::Dec),
{
    reveal_strlit("AND");
    reveal_strlit("OR");
    reveal_strlit("NOT");
    reveal_strlit("DEC");
    let n = "DEC"@;
    assert(n.len() == 3);
    assert(n[0] != "AND"@[0]);
    assert(n != "AND"@);
    assert(n != "OR"@);
    assert(n[0] != "NOT"@[0]);
    assert(n != "NOT"@);
}

proof fn lemma_keyword_names_radeg()
    ensures
        keyword_named("RA_DEG"@) == Some(KeywordName::RaDeg),
{
    reveal_strlit("AND");
    reveal_strlit("OR");
    reveal_strlit("NOT");
    reveal_strlit("DEC");
    reveal_strlit("RA_DEG");
    let n = "RA_DEG"@;
    assert(n.len() == 6);
    assert(n != "AND"@);
    assert(n != "OR"@);
    assert(n != "NOT"@);
    assert(n != "DEC"@);
}

proof fn lemma_keyword_names_ra()
    ensures
        keyword_named("RA"@) == Some(KeywordName::Ra),
{
    reveal_strlit("AND");
    reveal_strlit("OR");
    reveal_strlit("NOT");
    reveal_strlit("DEC");
    reveal_strlit("RA_DEG");
    reveal_strlit("RA");
    let n = "RA"@;
    assert(n.len() == 2);
    assert(n != "AND"@);
    assert(n[0] != "OR"@[0]);
    assert(n != "OR"@);
    assert(n != "NOT"@);
    assert(n != "DEC"@);
    assert(n != "RA_DEG"@);
}

proof fn lemma_keyword_names_constellation()
    ensures
        keyword_named("CONSTELLATION"@) == Some(KeywordName::Constellation),
{
    reveal_strlit("AND");
    reveal_strlit("OR");
    reveal_strlit("NOT");
    reveal_strlit("DEC");
    reveal_strlit("RA_DEG");
    reveal_strlit("RA");
    reveal_strlit("CONSTELLATION");
    let n = "CONSTELLATION"@;
    assert(n.len() == 13);
    assert(n != "AND"@);
    assert(n != "OR"@);
    assert(n != "NOT"@);
    assert(n != "DEC"@);
    assert(n != "RA_DEG"@);
    assert(n != "RA"@);
}

proof fn lemma_keyword_names_constellationgroup()
    ensures
        keyword_named("CONSTELLATION_GROUP"@) == Some(KeywordName::ConstellationGroup),
{
    reveal_strlit("AND");
    reveal_strlit("OR");
    reveal_strlit("NOT");
    reveal_strlit("DEC");
    reveal_strlit("RA_DEG");
    reveal_strlit("RA");
    reveal_strlit("CONSTELLATION");
    reveal_strlit("CONSTELLATION_GROUP");
    let n = "CONSTELLATION_GROUP"@;
    assert(n.len() == 19);
    assert(n != "AND"@);
    assert(n != "OR"@);
    assert(n != "NOT"@);
    assert(n != "DEC"@);
    assert(n != "RA_DEG"@);
    assert(n != "RA"@);
    assert(n != "CONSTELLATION"@);
}

proof fn lemma_keyword_names_catalogue()
    ensures
        keyword_named("CATALOGUE"@) == Some(KeywordName::Catalogue),
{
    reveal_strlit("AND");
    reveal_strlit("OR");
    reveal_strlit("NOT");
    reveal_strlit("DEC");
    reveal_strlit("RA_DEG");
    reveal_strlit("RA");
    reveal_strlit("CONSTELLATION");
    reveal_strlit("CONSTELLATION_GROUP");
    reveal_strlit("CATALOGUE");
    let n = "CATALOGUE"@;
    assert(n.len() == 9);
    assert(n != "AND"@);
    assert(n != "OR"@);
    assert(n != "NOT"@);
    assert(n != "DEC"@);
    assert(n != "RA_DEG"@);
    assert(n != "RA"@);
    assert(n != "CONSTELLATION"@);
    assert(n != "CONSTELLATION_GROUP"@);
}

proof fn lemma_keyword_names_type()
    ensures
        keyword_named("TYPE"@) == Some(KeywordName::Type),
{
    reveal_strlit("AND");
    reveal_strlit("OR");
    reveal_strlit("NOT");
    reveal_strlit("DEC");
    reveal_strlit("RA_DEG");
    reveal_strlit("RA");
    reveal_strlit("CONSTELLATION");
    reveal_strlit("CONSTELLATION_GROUP");
    reveal_strlit("CATALOGUE");
    reveal_strlit("TYPE");
    let n = "TYPE"@;
    assert(n.len() == 4);
    assert(n != "AND"@);
    assert(n != "OR"@);
    assert(n != "NOT"@);
    assert(n != "DEC"@);
    assert(n != "RA_DEG"@);
    assert(n != "RA"@);
    assert(n != "CONSTELLATION"@);
    assert(n != "CONSTELLATION_GROUP"@);
    assert(n != "CATALOGUE"@);
}

proof fn lemma_keyword_names_magbelow()
    ensures
        keyword_named("MAG_BELOW"@) == Some(KeywordName::MagBelow),
{
    reveal_strlit("AND");
    reveal_strlit("OR");
    reveal_strlit("NOT");
    reveal_strlit("DEC");
    reveal_strlit("RA_DEG");
    reveal_strlit("RA");
    reveal_strlit("CONSTELLATION");
    reveal_strlit("CONSTELLATION_GROUP");
    reveal_strlit("CATALOGUE");
    reveal_strlit("TYPE");
    reveal_strlit("MAG_BELOW");
    let n = "MAG_BELOW"@;
    assert(n.len() == 9);
    assert(n != "AND"@);
    assert(n != "OR"@);
    assert(n != "NOT"@);
    assert(n != "DEC"@);
    assert(n != "RA_DEG"@);
    assert(n != "RA"@);
    assert(n != "CONSTELLATION"@);
    assert(n != "CONSTELLATION_GROUP"@);
    assert(n[0] != "CATALOGUE"@[0]);
    assert(n != "CATALOGUE"@);
    assert(n != "TYPE"@);
}

proof fn lemma_keyword_names_magabove()
    ensures
        keyword_named("MAG_ABOVE"@) == Some(KeywordName::MagAbove),
{
    reveal_strlit("AND");
    reveal_strlit("OR");
    reveal_strlit("NOT");
    reveal_strlit("DEC");
    reveal_strlit("RA_DEG");
    reveal_strlit("RA");
    reveal_strlit("CONSTELLATION");
    reveal_strlit("CONSTELLATION_GROUP");
    reveal_strlit("CATALOGUE");
    reveal_strlit("TYPE");
    reveal_strlit("MAG_BELOW");
    reveal_strlit("MAG_ABOVE");
    let n = "MAG_ABOVE"@;
    assert(n.len() == 9);
    assert(n != "AND"@);
    assert(n != "OR"@);
    assert(n != "NOT"@);
    assert(n != "DEC"@);
    assert(n != "RA_DEG"@);
    assert(n != "RA"@);
    assert(n != "CONSTELLATION"@);
    assert(n != "CONSTELLATION_GROUP"@);
    assert(n[0] != "CATALOGUE"@[0]);
    assert(n != "CATALOGUE"@);
    assert(n != "TYPE"@);
    assert(n[4] != "MAG_BELOW"@[4]);
    assert(n != "MAG_BELOW"@);
}

proof fn lemma_keyword_names_mag()
    ensures
        keyword_named("MAG"@) == Some(KeywordName::Mag),
{
    reveal_strlit("AND");
    reveal_strlit("OR");
    reveal_strlit("NOT");
    reveal_strlit("DEC");
    reveal_strlit("RA_DEG");
    reveal_strlit("RA");
    reveal_strlit("CONSTELLATION");
    reveal_strlit("CONSTELLATION_GROUP");
    reveal_strlit("CATALOGUE");
    reveal_strlit("TYPE");
    reveal_strlit("MAG_BELOW");
    reveal_strlit("MAG_ABOVE");
    reveal_strlit("MAG");
    let n = "MAG"@;
    assert(n.len() == 3);
    assert(n[0] != "AND"@[0]);
    assert(n != "AND"@);
    assert(n != "OR"@);
    assert(n[0] != "NOT"@[0]);
    assert(n != "NOT"@);
    assert(n[0] != "DEC"@[0]);
    assert(n != "DEC"@);
    assert(n != "RA_DEG"@);
    assert(n != "RA"@);
    assert(n != "CONSTELLATION"@);
    assert(n != "CONSTELLATION_GROUP"@);
    assert(n != "CATALOGUE"@);
    assert(n != "TYPE"@);
    assert(n != "MAG_BELOW"@);
    assert(n != "MAG_ABOVE"@);
}

proof fn lemma_keyword_names_objectid()
    ensures
        keyword_named("OBJECT_ID"@) == Some(KeywordName::ObjectId),
{
    reveal_strlit("AND");
    reveal_strlit("OR");
    reveal_strlit("NOT");
    reveal_strlit("DEC");
    reveal_strlit("RA_DEG");
    reveal_strlit("RA");
    reveal_strlit("CONSTELLATION");
    reveal_strlit("CONSTELLATION_GROUP");
    reveal_strlit("CATALOGUE");
    reveal_strlit("TYPE");
    reveal_strlit("MAG_BELOW");
    reveal_strlit("MAG_ABOVE");
    reveal_strlit("MAG");
    reveal_strlit("OBJECT_ID");
    let n = "OBJECT_ID"@;
    assert(n.len() == 9);
    assert(n != "AND"@);
    assert(n != "OR"@);
    assert(n != "NOT"@);
    assert(n != "DEC"@);
    assert(n != "RA_DEG"@);
    assert(n != "RA"@);
    assert(n != "CONSTELLATION"@);
    assert(n != "CONSTELLATION_GROUP"@);
    assert(n[0] != "CATALOGUE"@[0]);
    assert(n != "CATALOGUE"@);
    assert(n != "TYPE"@);
    assert(n[0] != "MAG_BELOW"@[0]);
    assert(n != "MAG_BELOW"@);
    assert(n[0] != "MAG_ABOVE"@[0]);
    assert(n != "MAG_ABOVE"@);
    assert(n != "MAG"@);
}

proof fn lemma_keyword_names_cataloguedesignation()
    ensures
        keyword_named("CATALOGUE_DESIGNATION"@) == Some(KeywordName::CatalogueDesignation),
{
    reveal_strlit("AND");
    reveal_strlit("OR");
    reveal_strlit("NOT");
    reveal_strlit("DEC");
    reveal_strlit("RA_DEG");
    reveal_strlit("RA");
    reveal_strlit("CONSTELLATION");
    reveal_strlit("CONSTELLATION_GROUP");
    reveal_strlit("CATALOGUE");
    reveal_strlit("TYPE");
    reveal_strlit("MAG_BELOW");
    reveal_strlit("MAG_ABOVE");
    reveal_strlit("MAG");
    reveal_strlit("OBJECT_ID");
    reveal_strlit("CATALOGUE_DESIGNATION");
    let n = "CATALOGUE_DESIGNATION"@;
    assert(n.len() == 21);
    assert(n != "AND"@);
    assert(n != "OR"@);
    assert(n != "NOT"@);
    assert(n != "DEC"@);
    assert(n != "RA_DEG"@);
    assert(n != "RA"@);
    assert(n != "CONSTELLATION"@);
    assert(n != "CONSTELLATION_GROUP"@);
    assert(n != "CATALOGUE"@);
    assert(n != "TYPE"@);
    assert(n != "MAG_BELOW"@);
    assert(n != "MAG_ABOVE"@);
    assert(n != "MAG"@);
    assert(n != "OBJECT_ID"@);
}

/// Each catalogue is read from its own name, in upper case.
pub proof fn lemma_catalogue_names()
    ensures
        catalogue_named("BAYER"@) == Some(Catalogue::Bayer),
        catalogue_named("FLAMSTEED"@) == Some(Catalogue::Flamsteed),
        catalogue_named("MESSIER"@) == Some(Catalogue::Messier),
        catalogue_named("CALDWELL"@) == Some(Catalogue::Caldwell),
        catalogue_named("NGC"@) == Some(Catalogue::Ngc),
        catalogue_named("IC"@) == Some(Catalogue::Ic),
        catalogue_named("HD"@) == Some(Catalogue::Hd),
        catalogue_named("HIP"@) == Some(Catalogue::Hip),
        catalogue_named("PROPER_NAME"@) == Some(Catalogue::ProperName),
{
    lemma_catalogue_names_bayer();
    lemma_catalogue_names_flamsteed();
    lemma_catalogue_names_messier();
    lemma_catalogue_names_caldwell();
    lemma_catalogue_names_ngc();
    lemma_catalogue_names_ic();
    lemma_catalogue_names_hd();
    lemma_catalogue_names_hip();
    lemma_catalogue_names_propername();
}

proof fn lemma_catalogue_names_bayer()
    ensures
        catalogue_named("BAYER"@) == Some(Catalogue::Bayer),
{
    reveal_strlit("BAYER");
    let n = "BAYER"@;
    assert(n.len() == 5);
}

proof fn lemma_catalogue_names_flamsteed()
    ensures
        catalogue_named("FLAMSTEED"@) == Some(Catalogue::Flamsteed),
{
    reveal_strlit("BAYER");
    reveal_strlit("FLAMSTEED");
    let n = "FLAMSTEED"@;
    assert(n.len() == 9);
    assert(n != "BAYER"@);
}

proof fn lemma_catalogue_names_messier()
    ensures
        catalogue_named("MESSIER"@) == Some(Catalogue::Messier),
{
    reveal_strlit("BAYER");
    reveal_strlit("FLAMSTEED");
    reveal_strlit("MESSIER");
    let n = "MESSIER"@;
    assert(n.len() == 7);
    assert(n != "BAYER"@);
    assert(n != "FLAMSTEED"@);
}

proof fn lemma_catalogue_names_caldwell()
    ensures
        catalogue_named("CALDWELL"@) == Some(Catalogue::Caldwell),
{
    reveal_strlit("BAYER");
    reveal_strlit("FLAMSTEED");
    reveal_strlit("MESSIER");
    reveal_strlit("CALDWELL");
    let n = "CALDWELL"@;
    assert(n.len() == 8);
    assert(n != "BAYER"@);
    assert(n != "FLAMSTEED"@);
    assert(n != "MESSIER"@);
}

proof fn lemma_catalogue_names_ngc()
    ensures
        catalogue_named("NGC"@) == Some(Catalogue::Ngc),
{
    reveal_strlit("BAYER");
    reveal_strlit("FLAMSTEED");
    reveal_strlit("MESSIER");
    reveal_strlit("CALDWELL");
    reveal_strlit("NGC");
    let n = "NGC"@;
    assert(n.len() == 3);
    assert(n != "BAYER"@);
    assert(n != "FLAMSTEED"@);
    assert(n != "MESSIER"@);
    assert(n != "CALDWELL"@);
}

proof fn lemma_catalogue_names_ic()
    ensures
        catalogue_named("IC"@) == Some(Catalogue::Ic),
{
    reveal_strlit("BAYER");
    reveal_strlit("FLAMSTEED");
    reveal_strlit("MESSIER");
    reveal_strlit("CALDWELL");
    reveal_strlit("NGC");
    reveal_strlit("IC");
    let n = "IC"@;
    assert(n.len() == 2);
    assert(n != "BAYER"@);
    assert(n != "FLAMSTEED"@);
    assert(n != "MESSIER"@);
    assert(n != "CALDWELL"@);
    assert(n != "NGC"@);
}

proof fn lemma_catalogue_names_hd()
    ensures
        catalogue_named("HD"@) == Some(Catalogue::Hd),
{
    reveal_strlit("BAYER");
    reveal_strlit("FLAMSTEED");
    reveal_strlit("MESSIER");
    reveal_strlit("CALDWELL");
    reveal_strlit("NGC");
    reveal_strlit("IC");
    reveal_strlit("HD");
    let n = "HD"@;
    assert(n.len() == 2);
    assert(n != "BAYER"@);
    assert(n != "FLAMSTEED"@);
    assert(n != "MESSIER"@);
    assert(n != "CALDWELL"@);
    assert(n != "NGC"@);
    assert(n[0] != "IC"@[0]);
    assert(n != "IC"@);
}

proof fn lemma_catalogue_names_hip()
    ensures
        catalogue_named("HIP"@) == Some(Catalogue::Hip),
{
    reveal_strlit("BAYER");
    reveal_strlit("FLAMSTEED");
    reveal_strlit("MESSIER");
    reveal_strlit("CALDWELL");
    reveal_strlit("NGC");
    reveal_strlit("IC");
    reveal_strlit("HD");
    reveal_strlit("HIP");
    let n = "HIP"@;
    assert(n.len() == 3);
    assert(n != "BAYER"@);
    assert(n != "FLAMSTEED"@);
    assert(n != "MESSIER"@);
    assert(n != "CALDWELL"@);
    assert(n[0] != "NGC"@[0]);
    assert(n != "NGC"@);
    assert(n != "IC"@);
    assert(n != "HD"@);
}

proof fn lemma_catalogue_names_propername()
    ensures
        catalogue_named("PROPER_NAME"@) == Some(Catalogue::ProperName),
{
    reveal_strlit("BAYER");
    reveal_strlit("FLAMSTEED");
    reveal_strlit("MESSIER");
    reveal_strlit("CALDWELL");
    reveal_strlit("NGC");
    reveal_strlit("IC");
    reveal_strlit("HD");
    reveal_strlit("HIP");
    reveal_strlit("PROPER_NAME");
    let n = "PROPER_NAME"@;
    assert(n.len() == 11);
    assert(n != "BAYER"@);
    assert(n != "FLAMSTEED"@);
    assert(n != "MESSIER"@);
    assert(n != "CALDWELL"@);
    assert(n != "NGC"@);
    assert(n != "IC"@);
    assert(n != "HD"@);
    assert(n != "HIP"@);
}

/// `CATALOGUE(w)` with the name of one catalogue reads as that catalogue.
pub proof fn lemma_one_catalogue(w: Seq<char>, c: Catalogue, pos: nat, id: nat, g: Seq<(Seq<char>, Seq<(Seq<char>, bool)>)>)
    requires
        catalogue_named(upper_case_of(w)) == Some(c),
    ensures
        keyword_from_raw(KeywordName::Catalogue, seq![SpecNode::Value(w)], pos, id, g) == Ok::<SpecKeyword, Seq<char>>(
            SpecKeyword::Catalogue(seq![c]),
        ),
{
    let args = seq![SpecNode::Value(w)];
    assert(args.drop_first() =~= Seq::<SpecNode>::empty());
    assert(catalogue_args(args.drop_first(), pos) == Ok::<Seq<Catalogue>, Seq<char>>(seq![]));
    assert(catalogue_args(args, pos) == Ok::<Seq<Catalogue>, Seq<char>>(seq![c] + seq![]));
    assert(seq![c] + Seq::<Catalogue>::empty() =~= seq![c]);
}

/// `AND`, `OR` and `NOT` over keywords read as the connective they are named
/// after, with their conditions in the order written.
pub proof fn lemma_connective_keywords(ks: Seq<SpecKeyword>, pos: nat, id: nat, g: Seq<(Seq<char>, Seq<(Seq<char>, bool)>)>)
    requires
        ks.len() > 0,
    ensures
        keyword_from_raw(KeywordName::And, ks.map_values(|k: SpecKeyword| SpecNode::Keyword(k)), pos, id, g)
            == Ok::<SpecKeyword, Seq<char>>(SpecKeyword::And(ks)),
        keyword_from_raw(KeywordName::Or, ks.map_values(|k: SpecKeyword| SpecNode::Keyword(k)), pos, id, g)
            == Ok::<SpecKeyword, Seq<char>>(SpecKeyword::Or(ks)),
        ks.len() == 1 ==> keyword_from_raw(KeywordName::Not, ks.map_values(|k: SpecKeyword| SpecNode::Keyword(k)), pos, id, g)
            == Ok::<SpecKeyword, Seq<char>>(SpecKeyword::Not(Box::new(ks[0]))),
{
    let args = ks.map_values(|k: SpecKeyword| SpecNode::Keyword(k));
    assert(!any_value(args)) by {
        if any_value(args) {
            let i = choose|i: int| 0 <= i < args.len() && (#[trigger] args[i]) is Value;
            assert(args[i] == SpecNode::Keyword(ks[i]));
        }
    }
    assert(keyword_args(args) =~= ks);
}

} // verus!

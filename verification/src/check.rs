//! Whether a sky object meets a parsed question filter.
//!
//! The conditions on declination, right ascension and magnitude compare
//! floating-point numbers; they are decided outside this module and handed
//! in as a table indexed by each condition's identifier.

use vstd::prelude::*;
use vstd::string::StringExecFns;
use vstd::utf8::encode_utf8;
use crate::filter::{Catalogue, Keyword, SpecKeyword, keywords_view, lemma_keywords_view, strings_view};
use crate::names::{answered_variants, brace_matches, generate_name_combinations, SpecificName};
use crate::objects::{DeepskyType, ObjectType, StarType};
use crate::text::{chars_of, lowercase, parse_unsigned, parse_unsigned_upto, str_eq, to_lowercase, trim, trim_str};

verus! {

broadcast use vstd::string::group_string_axioms;

/// What the filter reads of a sky object: everything but its coordinates
/// and magnitude.
pub struct QuestionObject {
    pub object_id: u64,
    pub object_type: ObjectType,
    pub proper_names: Vec<String>,
    pub bayer_designation: Option<String>,
    pub flamsteed_designation: Option<String>,
    pub hipparcos_number: Option<u32>,
    pub hd_number: Option<u32>,
    pub messier_number: Option<u32>,
    pub caldwell_number: Option<u32>,
    pub ngc_number: Option<u32>,
    pub ic_number: Option<u32>,
    pub constellations_abbreviations: Vec<String>,
    pub colour: Option<String>,
}

/// The outcome of the numeric condition `id`: `numeric[id]`, or false where
/// the table has no entry for it.
pub open spec fn numeric_result(id: nat, numeric: Seq<bool>) -> bool {
    id < numeric.len() && numeric[id as int]
}

/// Whether the object has a designation in catalogue `c`.
pub open spec fn listed_in(c: Catalogue, o: QuestionObject) -> bool {
    match c {
        Catalogue::Bayer => o.bayer_designation is Some,
        Catalogue::Flamsteed => o.flamsteed_designation is Some,
        Catalogue::Caldwell => o.caldwell_number is Some,
        Catalogue::Messier => o.messier_number is Some,
        Catalogue::Ngc => o.ngc_number is Some,
        Catalogue::Ic => o.ic_number is Some,
        Catalogue::Hd => o.hd_number is Some,
        Catalogue::Hip => o.hipparcos_number is Some,
        Catalogue::ProperName => o.proper_names@.len() > 0,
    }
}

/// The number `d` stands for as a `u32`, if `str::parse` accepts it.
pub open spec fn parsed_u32(d: Seq<char>) -> Option<u32> {
    match parse_unsigned(d, u32::MAX as nat) {
        Ok(v) => Some(v as u32),
        Err(_) => None,
    }
}

/// Whether `d` is one of the name variants of the designation `raw`, whose
/// optional parts are written in braces.
pub open spec fn name_variants_contain(raw: Seq<char>, d: Seq<char>) -> bool {
    let ms = brace_matches(raw);
    ms.len() <= 31 && answered_variants(encode_utf8(raw), ms, SpecificName::AllCombinations).contains(d)
}

/// Whether two names are equal once trimmed and lower-cased.
pub open spec fn same_name(a: Seq<char>, b: Seq<char>) -> bool {
    lowercase(trim(a)) == lowercase(trim(b))
}

/// Whether `d` designates the object in catalogue `c`.
pub open spec fn designates(c: Catalogue, d: Seq<char>, o: QuestionObject) -> bool {
    match c {
        Catalogue::Bayer => match o.bayer_designation {
            Some(raw) => name_variants_contain(raw@, d),
            None => false,
        },
        Catalogue::Flamsteed => match o.flamsteed_designation {
            Some(raw) => name_variants_contain(raw@, d),
            None => false,
        },
        Catalogue::Caldwell => o.caldwell_number == parsed_u32(d),
        Catalogue::Messier => o.messier_number == parsed_u32(d),
        Catalogue::Ngc => o.ngc_number == parsed_u32(d),
        Catalogue::Ic => o.ic_number == parsed_u32(d),
        Catalogue::Hd => o.hd_number == parsed_u32(d),
        Catalogue::Hip => o.hipparcos_number == parsed_u32(d),
        Catalogue::ProperName => exists|j: int|
            0 <= j < o.proper_names@.len() && same_name(#[trigger] o.proper_names@[j]@, d),
    }
}

/// Whether an object of type `ot` is of the type `t` asked for: `Any`
/// stands for every star, or every deep-sky object.
pub open spec fn type_matches(t: ObjectType, ot: ObjectType) -> bool {
    match t {
        ObjectType::Star(StarType::Any) => ot is Star,
        ObjectType::Deepsky(DeepskyType::Any) => ot is Deepsky,
        _ => t == ot,
    }
}

/// Whether `c` equals one of the abbreviations, ignoring case.
pub open spec fn in_constellation(c: Seq<char>, abbreviations: Seq<Seq<char>>) -> bool {
    exists|j: int| 0 <= j < abbreviations.len() && lowercase(#[trigger] abbreviations[j]) == lowercase(c)
}

/// Whether the object meets condition `k`, given the outcomes `numeric` of
/// the numeric conditions.
pub open spec fn holds(k: SpecKeyword, o: QuestionObject, numeric: Seq<bool>) -> bool
    decreases k, 1int,
{
    match k {
        SpecKeyword::And(ks) => all_hold(ks, o, numeric),
        SpecKeyword::Or(ks) => any_holds(ks, o, numeric),
        SpecKeyword::Not(b) => !holds(*b, o, numeric),
        SpecKeyword::Dec(id, _, _) => numeric_result(id, numeric),
        SpecKeyword::RaDeg(id, _, _) => numeric_result(id, numeric),
        SpecKeyword::Ra(id, _, _) => numeric_result(id, numeric),
        SpecKeyword::Mag(id, _, _) => numeric_result(id, numeric),
        SpecKeyword::MagBelow(id, _) => numeric_result(id, numeric),
        SpecKeyword::MagAbove(id, _) => numeric_result(id, numeric),
        SpecKeyword::Constellation(cs) => in_some_constellation(cs, o),
        SpecKeyword::Catalogue(cs) => in_some_catalogue(cs, o),
        SpecKeyword::Type(ts) => of_some_type(ts, o),
        SpecKeyword::ObjectId(ids) => ids.contains(o.object_id),
        SpecKeyword::CatalogueDesignation(ds) => has_some_designation(ds, o),
    }
}

/// Whether one of the constellations `cs` is one of the object's.
pub open spec fn in_some_constellation(cs: Seq<Seq<char>>, o: QuestionObject) -> bool {
    exists|i: int| 0 <= i < cs.len() && in_constellation(#[trigger] cs[i], strings_view(o.constellations_abbreviations@))
}

/// Whether the object is listed in one of the catalogues `cs`.
pub open spec fn in_some_catalogue(cs: Seq<Catalogue>, o: QuestionObject) -> bool {
    exists|i: int| 0 <= i < cs.len() && listed_in(#[trigger] cs[i], o)
}

/// Whether the object is of one of the types `ts`.
pub open spec fn of_some_type(ts: Seq<ObjectType>, o: QuestionObject) -> bool {
    exists|i: int| 0 <= i < ts.len() && type_matches(#[trigger] ts[i], o.object_type)
}

/// Whether one of the designations `ds` designates the object.
pub open spec fn has_some_designation(ds: Seq<(Catalogue, Seq<char>)>, o: QuestionObject) -> bool {
    exists|i: int| 0 <= i < ds.len() && designates((#[trigger] ds[i]).0, ds[i].1, o)
}

/// Whether the object meets every condition of `ks`.
pub open spec fn all_hold(ks: Seq<SpecKeyword>, o: QuestionObject, numeric: Seq<bool>) -> bool
    decreases ks, 0int,
{
    if ks.len() == 0 {
        true
    } else {
        proof {
            assert(decreases_to!(ks => ks[ks.len() - 1]));
            assert(decreases_to!(ks => ks.drop_last()));
        }
        all_hold(ks.drop_last(), o, numeric) && holds(ks[ks.len() - 1], o, numeric)
    }
}

/// Whether the object meets at least one condition of `ks`.
pub open spec fn any_holds(ks: Seq<SpecKeyword>, o: QuestionObject, numeric: Seq<bool>) -> bool
    decreases ks, 0int,
{
    if ks.len() == 0 {
        false
    } else {
        proof {
            assert(decreases_to!(ks => ks[ks.len() - 1]));
            assert(decreases_to!(ks => ks.drop_last()));
        }
        any_holds(ks.drop_last(), o, numeric) || holds(ks[ks.len() - 1], o, numeric)
    }
}

/// `AND` is met when each of its conditions is, and `OR` when one of them is.
pub proof fn lemma_and_or(ks: Seq<SpecKeyword>, o: QuestionObject, numeric: Seq<bool>)
    ensures
        all_hold(ks, o, numeric) <==> forall|i: int| 0 <= i < ks.len() ==> #[trigger] holds(ks[i], o, numeric),
        any_holds(ks, o, numeric) <==> exists|i: int| 0 <= i < ks.len() && #[trigger] holds(ks[i], o, numeric),
    decreases ks.len(),
{
    if ks.len() > 0 {
        let init = ks.drop_last();
        lemma_and_or(init, o, numeric);
        assert forall|i: int| 0 <= i < init.len() implies init[i] == ks[i] by {}
        if any_holds(ks, o, numeric) {
            if any_holds(init, o, numeric) {
                let i = choose|i: int| 0 <= i < init.len() && #[trigger] holds(init[i], o, numeric);
                assert(holds(ks[i], o, numeric));
            } else {
                assert(holds(ks[ks.len() - 1], o, numeric));
            }
        }
        if exists|i: int| 0 <= i < ks.len() && #[trigger] holds(ks[i], o, numeric) {
            let i = choose|i: int| 0 <= i < ks.len() && #[trigger] holds(ks[i], o, numeric);
            if i < ks.len() - 1 {
                assert(holds(init[i], o, numeric));
            }
        }
        if forall|i: int| 0 <= i < ks.len() ==> #[trigger] holds(ks[i], o, numeric) {
            assert forall|i: int| 0 <= i < init.len() implies #[trigger] holds(init[i], o, numeric) by {
                assert(holds(ks[i], o, numeric));
            }
            assert(holds(ks[ks.len() - 1], o, numeric));
        }
    }
}

fn listed(c: Catalogue, o: &QuestionObject) -> (r: bool)
    ensures
        r == listed_in(c, *o),
{
    match c {
        Catalogue::Bayer => o.bayer_designation.is_some(),
        Catalogue::Flamsteed => o.flamsteed_designation.is_some(),
        Catalogue::Caldwell => o.caldwell_number.is_some(),
        Catalogue::Messier => o.messier_number.is_some(),
        Catalogue::Ngc => o.ngc_number.is_some(),
        Catalogue::Ic => o.ic_number.is_some(),
        Catalogue::Hd => o.hd_number.is_some(),
        Catalogue::Hip => o.hipparcos_number.is_some(),
        Catalogue::ProperName => o.proper_names.len() > 0,
    }
}

/// `d` parsed as a `u32`, or `None` where `str::parse` rejects it.
pub fn parse_u32(d: &str) -> (r: Option<u32>)
    ensures
        r == parsed_u32(d@),
{
    let cs = chars_of(d);
    match parse_unsigned_upto(cs.as_slice(), 4294967295u64) {
        Ok(v) => Some(v as u32),
        Err(_) => None,
    }
}

/// Whether `d` is among the name variants of `raw`.
fn variants_contain(raw: &str, d: &str) -> (r: bool)
    ensures
        r == name_variants_contain(raw@, d@),
{
    match generate_name_combinations(raw, SpecificName::AllCombinations) {
        None => false,
        Some(names) => {
            let ghost ns = answered_variants(encode_utf8(raw@), brace_matches(raw@), SpecificName::AllCombinations);
            assert(strings_view(names@) == ns);
            let mut k: usize = 0;
            while k < names.len()
                invariant
                    k <= names@.len() == ns.len(),
                    strings_view(names@) == ns,
                    brace_matches(raw@).len() <= 31,
                    ns == answered_variants(encode_utf8(raw@), brace_matches(raw@), SpecificName::AllCombinations),
                    forall|j: int| 0 <= j < k ==> ns[j] != d@,
                decreases names@.len() - k,
            {
                assert(ns[k as int] == names@[k as int]@);
                if str_eq(names[k].as_str(), d) {
                    assert(ns.contains(d@));
                    return true;
                }
                k = k + 1;
            }
            proof {
                if ns.contains(d@) {
                    let j = choose|j: int| 0 <= j < ns.len() && ns[j] == d@;
                    assert(ns[j] != d@);
                }
            }
            false
        },
    }
}

/// Whether `d` equals one of `names` once both are trimmed and lower-cased.
fn proper_name_matches(names: &Vec<String>, d: &str) -> (r: bool)
    ensures
        r == exists|j: int| 0 <= j < names@.len() && same_name(#[trigger] names@[j]@, d@),
{
    let wanted = to_lowercase(trim_str(d).as_str());
    let mut k: usize = 0;
    while k < names.len()
        invariant
            k <= names@.len(),
            wanted@ == lowercase(trim(d@)),
            forall|j: int| 0 <= j < k ==> !same_name(#[trigger] names@[j]@, d@),
        decreases names@.len() - k,
    {
        let name = to_lowercase(trim_str(names[k].as_str()).as_str());
        if str_eq(name.as_str(), wanted.as_str()) {
            assert(same_name(names@[k as int]@, d@));
            return true;
        }
        k = k + 1;
    }
    false
}

fn designation_matches(c: Catalogue, d: &str, o: &QuestionObject) -> (r: bool)
    ensures
        r == designates(c, d@, *o),
{
    match c {
        Catalogue::Bayer => match &o.bayer_designation {
            Some(raw) => variants_contain(raw.as_str(), d),
            None => false,
        },
        Catalogue::Flamsteed => match &o.flamsteed_designation {
            Some(raw) => variants_contain(raw.as_str(), d),
            None => false,
        },
        Catalogue::Caldwell => o.caldwell_number == parse_u32(d),
        Catalogue::Messier => o.messier_number == parse_u32(d),
        Catalogue::Ngc => o.ngc_number == parse_u32(d),
        Catalogue::Ic => o.ic_number == parse_u32(d),
        Catalogue::Hd => o.hd_number == parse_u32(d),
        Catalogue::Hip => o.hipparcos_number == parse_u32(d),
        Catalogue::ProperName => proper_name_matches(&o.proper_names, d),
    }
}

fn type_match(t: ObjectType, ot: ObjectType) -> (r: bool)
    ensures
        r == type_matches(t, ot),
{
    match t {
        ObjectType::Star(StarType::Any) => match ot {
            ObjectType::Star(_) => true,
            ObjectType::Deepsky(_) => false,
        },
        ObjectType::Deepsky(DeepskyType::Any) => match ot {
            ObjectType::Star(_) => false,
            ObjectType::Deepsky(_) => true,
        },
        _ => t == ot,
    }
}

/// Whether `c` equals, ignoring case, one of the abbreviations.
fn constellation_matches(c: &str, abbreviations: &Vec<String>) -> (r: bool)
    ensures
        r == in_constellation(c@, strings_view(abbreviations@)),
{
    let wanted = to_lowercase(c);
    let ghost abbrevs = strings_view(abbreviations@);
    let mut k: usize = 0;
    while k < abbreviations.len()
        invariant
            k <= abbreviations@.len() == abbrevs.len(),
            abbrevs == strings_view(abbreviations@),
            wanted@ == lowercase(c@),
            forall|j: int| 0 <= j < k ==> lowercase(#[trigger] abbrevs[j]) != lowercase(c@),
        decreases abbreviations@.len() - k,
    {
        assert(abbrevs[k as int] == abbreviations@[k as int]@);
        let lower = to_lowercase(abbreviations[k].as_str());
        if str_eq(lower.as_str(), wanted.as_str()) {
            return true;
        }
        k = k + 1;
    }
    false
}

fn in_constellations(cs: &Vec<String>, object: &QuestionObject) -> (r: bool)
    ensures
        r == in_some_constellation(strings_view(cs@), *object),
{
    let ghost names = strings_view(cs@);
    let ghost abbrevs = strings_view(object.constellations_abbreviations@);
    let mut k: usize = 0;
    while k < cs.len()
        invariant
            k <= cs@.len() == names.len(),
            names == strings_view(cs@),
            abbrevs == strings_view(object.constellations_abbreviations@),
            forall|j: int| 0 <= j < k ==> !in_constellation(#[trigger] names[j], abbrevs),
        decreases cs@.len() - k,
    {
        assert(names[k as int] == cs@[k as int]@);
        if constellation_matches(cs[k].as_str(), &object.constellations_abbreviations) {
            assert(in_constellation(names[k as int], abbrevs));
            return true;
        }
        k = k + 1;
    }
    false
}

fn in_catalogues(cs: &Vec<Catalogue>, object: &QuestionObject) -> (r: bool)
    ensures
        r == in_some_catalogue(cs@, *object),
{
    let mut k: usize = 0;
    while k < cs.len()
        invariant
            k <= cs@.len(),
            forall|j: int| 0 <= j < k ==> !listed_in(#[trigger] cs@[j], *object),
        decreases cs@.len() - k,
    {
        if listed(cs[k], object) {
            assert(listed_in(cs@[k as int], *object));
            return true;
        }
        k = k + 1;
    }
    false
}

fn of_types(ts: &Vec<ObjectType>, object: &QuestionObject) -> (r: bool)
    ensures
        r == of_some_type(ts@, *object),
{
    let mut k: usize = 0;
    while k < ts.len()
        invariant
            k <= ts@.len(),
            forall|j: int| 0 <= j < k ==> !type_matches(#[trigger] ts@[j], object.object_type),
        decreases ts@.len() - k,
    {
        if type_match(ts[k], object.object_type) {
            assert(type_matches(ts@[k as int], object.object_type));
            return true;
        }
        k = k + 1;
    }
    false
}

fn has_designation(ds: &Vec<(Catalogue, String)>, object: &QuestionObject) -> (r: bool)
    ensures
        r == has_some_designation(ds@.map_values(|p: (Catalogue, String)| (p.0, p.1@)), *object),
{
    let ghost dv = ds@.map_values(|p: (Catalogue, String)| (p.0, p.1@));
    let mut k: usize = 0;
    while k < ds.len()
        invariant
            k <= ds@.len() == dv.len(),
            dv == ds@.map_values(|p: (Catalogue, String)| (p.0, p.1@)),
            forall|j: int| 0 <= j < k ==> !designates((#[trigger] dv[j]).0, dv[j].1, *object),
        decreases ds@.len() - k,
    {
        let (c, d) = &ds[k];
        assert(dv[k as int] == (*c, d@));
        if designation_matches(*c, d.as_str(), object) {
            assert(designates(dv[k as int].0, dv[k as int].1, *object));
            return true;
        }
        k = k + 1;
    }
    false
}

/// Whether `object` meets the condition `expression`. The numeric
/// conditions (declination, right ascension and magnitude) are decided
/// beforehand: the outcome of the one whose identifier is `id` is
/// `numeric[id]`, and one without an entry is not met.
#[verifier::loop_isolation(false)]
pub fn check(expression: &Keyword, object: &QuestionObject, numeric: &[bool]) -> (res: bool)
    ensures
        res == holds(expression@, *object, numeric@),
    decreases expression,
{
    match expression {
        Keyword::And(v) => {
            let ghost ks = keywords_view(v@);
            proof {
                lemma_keywords_view(v@);
            }
            let mut k: usize = 0;
            while k < v.len()
                invariant
                    k <= v@.len() == ks.len(),
                    forall|j: int| 0 <= j < v@.len() ==> #[trigger] ks[j] == v@[j].view(),
                    all_hold(ks.take(k as int), *object, numeric@),
                decreases v@.len() - k,
            {
                proof {
                    assert(decreases_to!(expression => v@));
                    assert(decreases_to!(v@ => v@[k as int]));
                }
                let r = check(&v[k], object, numeric);
                proof {
                    assert(ks.take(k + 1).drop_last() =~= ks.take(k as int));
                    assert(ks.take(k + 1)[k as int] == ks[k as int]);
                }
                if !r {
                    proof {
                        lemma_and_or(ks, *object, numeric@);
                    }
                    return false;
                }
                k = k + 1;
            }
            assert(ks.take(k as int) =~= ks);
            true
        },
        Keyword::Or(v) => {
            let ghost ks = keywords_view(v@);
            proof {
                lemma_keywords_view(v@);
            }
            let mut k: usize = 0;
            while k < v.len()
                invariant
                    k <= v@.len() == ks.len(),
                    forall|j: int| 0 <= j < v@.len() ==> #[trigger] ks[j] == v@[j].view(),
                    !any_holds(ks.take(k as int), *object, numeric@),
                decreases v@.len() - k,
            {
                proof {
                    assert(decreases_to!(expression => v@));
                    assert(decreases_to!(v@ => v@[k as int]));
                }
                let r = check(&v[k], object, numeric);
                proof {
                    assert(ks.take(k + 1).drop_last() =~= ks.take(k as int));
                    assert(ks.take(k + 1)[k as int] == ks[k as int]);
                }
                if r {
                    proof {
                        lemma_and_or(ks, *object, numeric@);
                    }
                    return true;
                }
                k = k + 1;
            }
            assert(ks.take(k as int) =~= ks);
            false
        },
        Keyword::Not(b) => !check(b, object, numeric),
        Keyword::Dec(r) | Keyword::RaDeg(r) | Keyword::Ra(r) | Keyword::Mag(r) => r.id < numeric.len() && numeric[r.id],
        Keyword::MagBelow(b) | Keyword::MagAbove(b) => b.id < numeric.len() && numeric[b.id],
        Keyword::Constellation(cs) => in_constellations(cs, object),
        Keyword::Catalogue(cs) => in_catalogues(cs, object),
        Keyword::Type(ts) => of_types(ts, object),
        Keyword::ObjectId(ids) => {
            let mut k: usize = 0;
            while k < ids.len()
                invariant
                    k <= ids@.len(),
                    forall|j: int| 0 <= j < k ==> ids@[j] != object.object_id,
                decreases ids@.len() - k,
            {
                if ids[k] == object.object_id {
                    assert(ids@[k as int] == object.object_id);
                    return true;
                }
                k = k + 1;
            }
            false
        },
        Keyword::CatalogueDesignation(ds) => has_designation(ds, object),
    }
}

// ---- laws of the catalogue conditions ----

/// An object meets `CATALOGUE(c)` exactly when it has a designation in
/// catalogue `c`'s own field, whatever its other designations are.
pub proof fn lemma_catalogue_condition(c: Catalogue, o: QuestionObject, numeric: Seq<bool>)
    ensures
        c == Catalogue::Bayer ==> (holds(SpecKeyword::Catalogue(seq![c]), o, numeric) <==> o.bayer_designation is Some),
        c == Catalogue::Flamsteed ==> (holds(SpecKeyword::Catalogue(seq![c]), o, numeric) <==> o.flamsteed_designation is Some),
        c == Catalogue::Messier ==> (holds(SpecKeyword::Catalogue(seq![c]), o, numeric) <==> o.messier_number is Some),
        c == Catalogue::Caldwell ==> (holds(SpecKeyword::Catalogue(seq![c]), o, numeric) <==> o.caldwell_number is Some),
        c == Catalogue::Ngc ==> (holds(SpecKeyword::Catalogue(seq![c]), o, numeric) <==> o.ngc_number is Some),
        c == Catalogue::Ic ==> (holds(SpecKeyword::Catalogue(seq![c]), o, numeric) <==> o.ic_number is Some),
        c == Catalogue::Hd ==> (holds(SpecKeyword::Catalogue(seq![c]), o, numeric) <==> o.hd_number is Some),
        c == Catalogue::Hip ==> (holds(SpecKeyword::Catalogue(seq![c]), o, numeric) <==> o.hipparcos_number is Some),
        c == Catalogue::ProperName ==> (holds(SpecKeyword::Catalogue(seq![c]), o, numeric) <==> o.proper_names@.len() > 0),
{
    let cs = seq![c];
    if in_some_catalogue(cs, o) {
        let i = choose|i: int| 0 <= i < cs.len() && listed_in(#[trigger] cs[i], o);
        assert(cs[i] == c);
    } else {
        assert(!listed_in(cs[0], o));
    }
}

/// An object meets a list of catalogues exactly when it meets one of them
/// alone.
pub proof fn lemma_catalogues_any(cs: Seq<Catalogue>, o: QuestionObject, numeric: Seq<bool>)
    ensures
        holds(SpecKeyword::Catalogue(cs), o, numeric) <==> exists|i: int|
            0 <= i < cs.len() && #[trigger] holds(SpecKeyword::Catalogue(seq![cs[i]]), o, numeric),
{
    if holds(SpecKeyword::Catalogue(cs), o, numeric) {
        let i = choose|i: int| 0 <= i < cs.len() && listed_in(#[trigger] cs[i], o);
        lemma_catalogue_condition(cs[i], o, numeric);
        assert(seq![cs[i]][0] == cs[i]);
        assert(holds(SpecKeyword::Catalogue(seq![cs[i]]), o, numeric));
    }
    if exists|i: int| 0 <= i < cs.len() && #[trigger] holds(SpecKeyword::Catalogue(seq![cs[i]]), o, numeric) {
        let i = choose|i: int| 0 <= i < cs.len() && #[trigger] holds(SpecKeyword::Catalogue(seq![cs[i]]), o, numeric);
        let one = seq![cs[i]];
        let j = choose|j: int| 0 <= j < one.len() && listed_in(#[trigger] one[j], o);
        assert(one[j] == cs[i]);
        assert(listed_in(cs[i], o));
    }
}

/// An object meets `CATALOGUE_DESIGNATION(c:n)` for a numbered catalogue
/// and a number `n` exactly when its number in catalogue `c`'s own field is
/// `n`.
pub proof fn lemma_numbered_designation(c: Catalogue, d: Seq<char>, n: u32, o: QuestionObject, numeric: Seq<bool>)
    requires
        parsed_u32(d) == Some(n),
    ensures
        c == Catalogue::Messier ==> (holds(SpecKeyword::CatalogueDesignation(seq![(c, d)]), o, numeric) <==> o.messier_number == Some(n)),
        c == Catalogue::Caldwell ==> (holds(SpecKeyword::CatalogueDesignation(seq![(c, d)]), o, numeric) <==> o.caldwell_number == Some(n)),
        c == Catalogue::Ngc ==> (holds(SpecKeyword::CatalogueDesignation(seq![(c, d)]), o, numeric) <==> o.ngc_number == Some(n)),
        c == Catalogue::Ic ==> (holds(SpecKeyword::CatalogueDesignation(seq![(c, d)]), o, numeric) <==> o.ic_number == Some(n)),
        c == Catalogue::Hd ==> (holds(SpecKeyword::CatalogueDesignation(seq![(c, d)]), o, numeric) <==> o.hd_number == Some(n)),
        c == Catalogue::Hip ==> (holds(SpecKeyword::CatalogueDesignation(seq![(c, d)]), o, numeric) <==> o.hipparcos_number == Some(n)),
        c == Catalogue::Bayer ==> (holds(SpecKeyword::CatalogueDesignation(seq![(c, d)]), o, numeric) ==> o.bayer_designation is Some),
        c == Catalogue::Flamsteed ==> (holds(SpecKeyword::CatalogueDesignation(seq![(c, d)]), o, numeric) ==> o.flamsteed_designation is Some),
{
    let ds = seq![(c, d)];
    if has_some_designation(ds, o) {
        let i = choose|i: int| 0 <= i < ds.len() && designates((#[trigger] ds[i]).0, ds[i].1, o);
        assert(ds[i] == (c, d));
    } else {
        assert(!designates(ds[0].0, ds[0].1, o));
    }
}

/// `NOT` is met exactly when its condition is not; `OBJECT_ID(ids)` exactly
/// when the object's identifier is among `ids`; `TYPE(STAR)` and
/// `TYPE(DEEPSKY)` by every star and every deep-sky object, and another type
/// only by objects of that very type.
pub proof fn lemma_plain_conditions(k: SpecKeyword, ids: Seq<u64>, t: ObjectType, o: QuestionObject, numeric: Seq<bool>)
    ensures
        holds(SpecKeyword::Not(Box::new(k)), o, numeric) <==> !holds(k, o, numeric),
        holds(SpecKeyword::ObjectId(ids), o, numeric) <==> ids.contains(o.object_id),
        holds(SpecKeyword::Type(seq![ObjectType::Star(StarType::Any)]), o, numeric) <==> o.object_type is Star,
        holds(SpecKeyword::Type(seq![ObjectType::Deepsky(DeepskyType::Any)]), o, numeric) <==> o.object_type is Deepsky,
        (t != ObjectType::Star(StarType::Any) && t != ObjectType::Deepsky(DeepskyType::Any)) ==> (holds(
            SpecKeyword::Type(seq![t]),
            o,
            numeric,
        ) <==> o.object_type == t),
{
    let s1 = seq![ObjectType::Star(StarType::Any)];
    let s2 = seq![ObjectType::Deepsky(DeepskyType::Any)];
    let s3 = seq![t];
    if of_some_type(s1, o) {
        let i = choose|i: int| 0 <= i < s1.len() && type_matches(#[trigger] s1[i], o.object_type);
        assert(s1[i] == s1[0]);
    } else {
        assert(!type_matches(s1[0], o.object_type));
    }
    if of_some_type(s2, o) {
        let i = choose|i: int| 0 <= i < s2.len() && type_matches(#[trigger] s2[i], o.object_type);
        assert(s2[i] == s2[0]);
    } else {
        assert(!type_matches(s2[0], o.object_type));
    }
    if of_some_type(s3, o) {
        let i = choose|i: int| 0 <= i < s3.len() && type_matches(#[trigger] s3[i], o.object_type);
        assert(s3[i] == t);
    } else {
        assert(!type_matches(s3[0], o.object_type));
    }
}

} // verus!

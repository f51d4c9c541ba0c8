//! The kinds of sky objects that questions can be asked about.

use vstd::prelude::*;
use vstd::string::StringExecFns;
use crate::text::{str_eq, to_uppercase, upper_case_of};

verus! {

/// The kind of a star.
#[derive(Clone, Copy, PartialEq, Eq, Structural, Debug)]
pub enum StarType {
    Single,
    Double,
    Multiple,
    Unknown,
    Any,
}

/// The kind of a deep-sky object.
#[derive(Clone, Copy, PartialEq, Eq, Structural, Debug)]
pub enum DeepskyType {
    Nebula,
    PlanetaryNebula,
    OpenCluster,
    GlobularCluster,
    Galaxy,
    Unknown,
    Any,
}

/// A star or a deep-sky object, with its kind.
#[derive(Clone, Copy, PartialEq, Eq, Structural, Debug)]
pub enum ObjectType {
    Star(StarType),
    Deepsky(DeepskyType),
}

/// The object type named by an upper-case type name of the query language.
pub open spec fn object_type_named(u: Seq<char>) -> Option<ObjectType> {
    if u == "STAR"@ {
        Some(ObjectType::Star(StarType::Any))
    } else if u == "STAR(SINGLE)"@ {
        Some(ObjectType::Star(StarType::Single))
    } else if u == "STAR(DOUBLE)"@ {
        Some(ObjectType::Star(StarType::Double))
    } else if u == "STAR(MULTIPLE)"@ {
        Some(ObjectType::Star(StarType::Multiple))
    } else if u == "STAR(UNKNOWN)"@ {
        Some(ObjectType::Star(StarType::Unknown))
    } else if u == "DEEPSKY"@ {
        Some(ObjectType::Deepsky(DeepskyType::Any))
    } else if u == "DEEPSKY(NEBULA)"@ {
        Some(ObjectType::Deepsky(DeepskyType::Nebula))
    } else if u == "DEEPSKY(PLANETARY_NEBULA)"@ {
        Some(ObjectType::Deepsky(DeepskyType::PlanetaryNebula))
    } else if u == "DEEPSKY(OPEN_CLUSTER)"@ {
        Some(ObjectType::Deepsky(DeepskyType::OpenCluster))
    } else if u == "DEEPSKY(GLOBULAR_CLUSTER)"@ {
        Some(ObjectType::Deepsky(DeepskyType::GlobularCluster))
    } else if u == "DEEPSKY(GALAXY)"@ {
        Some(ObjectType::Deepsky(DeepskyType::Galaxy))
    } else if u == "DEEPSKY(UNKNOWN)"@ {
        Some(ObjectType::Deepsky(DeepskyType::Unknown))
    } else {
        None
    }
}

/// The message given for a type name that names no type.
pub open spec fn unknown_object_type_message(raw: Seq<char>) -> Seq<char> {
    "Unknown object type '"@ + raw + "'. Allowed types are: STAR, STAR(SINGLE), STAR(DOUBLE), STAR(MULTIPLE), STAR(UNKNOWN), DEEPSKY, DEEPSKY(NEBULA), DEEPSKY(PLANETARY_NEBULA), DEEPSKY(OPEN_CLUSTER), DEEPSKY(GLOBULAR_CLUSTER), DEEPSKY(GALAXY), DEEPSKY(UNKNOWN)"@
}

/// What `ObjectType::from_string` gives, given the upper-case form `upper`
/// of the name `raw`.
pub open spec fn object_type_result(upper: Seq<char>, raw: Seq<char>) -> Result<ObjectType, Seq<char>> {
    match object_type_named(upper) {
        Some(t) => Ok(t),
        None => Err(unknown_object_type_message(raw)),
    }
}

pub open spec fn result_view<T>(r: Result<T, String>) -> Result<T, Seq<char>> {
    match r {
        Ok(t) => Ok(t),
        Err(e) => Err(e@),
    }
}

impl ObjectType {
    /// The object type named by `upper`, the upper-case form of the name
    /// `raw`; an unknown name is an error that quotes `raw`.
    pub fn from_upper_name(upper: &str, raw: &str) -> (res: Result<ObjectType, String>)
        ensures
            result_view(res) == object_type_result(upper@, raw@),
    {
        if str_eq(upper, "STAR") {
            Ok(ObjectType::Star(StarType::Any))
        } else if str_eq(upper, "STAR(SINGLE)") {
            Ok(ObjectType::Star(StarType::Single))
        } else if str_eq(upper, "STAR(DOUBLE)") {
            Ok(ObjectType::Star(StarType::Double))
        } else if str_eq(upper, "STAR(MULTIPLE)") {
            Ok(ObjectType::Star(StarType::Multiple))
        } else if str_eq(upper, "STAR(UNKNOWN)") {
            Ok(ObjectType::Star(StarType::Unknown))
        } else if str_eq(upper, "DEEPSKY") {
            Ok(ObjectType::Deepsky(DeepskyType::Any))
        } else if str_eq(upper, "DEEPSKY(NEBULA)") {
            Ok(ObjectType::Deepsky(DeepskyType::Nebula))
        } else if str_eq(upper, "DEEPSKY(PLANETARY_NEBULA)") {
            Ok(ObjectType::Deepsky(DeepskyType::PlanetaryNebula))
        } else if str_eq(upper, "DEEPSKY(OPEN_CLUSTER)") {
            Ok(ObjectType::Deepsky(DeepskyType::OpenCluster))
        } else if str_eq(upper, "DEEPSKY(GLOBULAR_CLUSTER)") {
            Ok(ObjectType::Deepsky(DeepskyType::GlobularCluster))
        } else if str_eq(upper, "DEEPSKY(GALAXY)") {
            Ok(ObjectType::Deepsky(DeepskyType::Galaxy))
        } else if str_eq(upper, "DEEPSKY(UNKNOWN)") {
            Ok(ObjectType::Deepsky(DeepskyType::Unknown))
        } else {
            let mut msg = String::from_str("Unknown object type '");
            msg.append(raw);
            msg.append("'. Allowed types are: STAR, STAR(SINGLE), STAR(DOUBLE), STAR(MULTIPLE), STAR(UNKNOWN), DEEPSKY, DEEPSKY(NEBULA), DEEPSKY(PLANETARY_NEBULA), DEEPSKY(OPEN_CLUSTER), DEEPSKY(GLOBULAR_CLUSTER), DEEPSKY(GALAXY), DEEPSKY(UNKNOWN)");
            Err(msg)
        }
    }

    /// The object type named by `string`, read without regard to case.
    pub fn from_string(string: &str) -> (res: Result<ObjectType, String>)
        ensures
            result_view(res) == object_type_result(upper_case_of(string@), string@),
    {
        let upper = to_uppercase(string);
        ObjectType::from_upper_name(upper.as_str(), string)
    }
}

/// The name under which a deep-sky kind is shown, if it has one.
pub open spec fn deepsky_type_name(t: DeepskyType) -> Option<Seq<char>> {
    match t {
        DeepskyType::Nebula => Some("Nebula"@),
        DeepskyType::PlanetaryNebula => Some("Planetary nebula"@),
        DeepskyType::OpenCluster => Some("Open cluster"@),
        DeepskyType::GlobularCluster => Some("Globular cluster"@),
        DeepskyType::Galaxy => Some("Galaxy"@),
        DeepskyType::Unknown | DeepskyType::Any => None,
    }
}

pub open spec fn option_string_view(o: Option<String>) -> Option<Seq<char>> {
    match o {
        Some(s) => Some(s@),
        None => None,
    }
}

impl DeepskyType {
    /// The name under which this kind is shown; the unknown and the
    /// catch-all kind have none.
    pub fn to_option_string(&self) -> (res: Option<String>)
        ensures
            option_string_view(res) == deepsky_type_name(*self),
    {
        match *self {
            DeepskyType::Nebula => Some(String::from_str("Nebula")),
            DeepskyType::PlanetaryNebula => Some(String::from_str("Planetary nebula")),
            DeepskyType::OpenCluster => Some(String::from_str("Open cluster")),
            DeepskyType::GlobularCluster => Some(String::from_str("Globular cluster")),
            DeepskyType::Galaxy => Some(String::from_str("Galaxy")),
            DeepskyType::Unknown | DeepskyType::Any => None,
        }
    }
}

} // verus!

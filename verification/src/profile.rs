//! Resolved locale profiles and resolution requests.
use vstd::prelude::*;
use crate::tag::I18nTag;
use crate::id::I18nId;

verus! {

/// Writing direction of a language.
#[derive(Debug, Clone, Copy, PartialEq, Eq, Structural)]
pub enum Direction {
    Ltr,
    Rtl,
}

/// `ltr` or `rtl`.
pub open spec fn direction_text(d: Direction) -> Seq<char> {
    match d {
        Direction::Ltr => "ltr"@,
        Direction::Rtl => "rtl"@,
    }
}

impl Direction {
    /// The display form of the direction: `ltr` or `rtl`.
    pub fn as_string(&self) -> (s: String)
        ensures
            s@ == direction_text(*self),
    {
        match self {
            Direction::Ltr => "ltr".to_string(),
            Direction::Rtl => "rtl".to_string(),
        }
    }
}

/// A fully resolved locale profile, identified by the digest of its
/// canonical encoding.
#[derive(Debug, Clone, PartialEq, Eq)]
pub struct I18nProfile {
    pub tag: I18nTag,
    pub currency: Option<String>,
    pub decimal_separator: char,
    pub direction: Direction,
    pub calendar: String,
    pub numbering_system: String,
    pub timezone: String,
    pub first_day: String,
    pub hour_cycle: String,
    pub collation: Option<String>,
    pub case_first: Option<String>,
    pub units: Option<String>,
    pub id: I18nId,
}

/// The value of an optional text field.
pub open spec fn opt_text(o: Option<String>) -> Option<Seq<char>> {
    match o {
        Some(s) => Some(s@),
        None => None,
    }
}

/// The fields of a profile that its identifier is computed from.
#[verifier::ext_equal]
pub struct ProfileModel {
    pub tag: Seq<char>,
    pub currency: Option<Seq<char>>,
    pub decimal_separator: char,
    pub direction: Direction,
    pub calendar: Seq<char>,
    pub numbering_system: Seq<char>,
    pub timezone: Seq<char>,
    pub first_day: Seq<char>,
    pub hour_cycle: Seq<char>,
    pub collation: Option<Seq<char>>,
    pub case_first: Option<Seq<char>>,
    pub units: Option<Seq<char>>,
}

impl I18nProfile {
    pub open spec fn model(&self) -> ProfileModel {
        ProfileModel {
            tag: self.tag@,
            currency: opt_text(self.currency),
            decimal_separator: self.decimal_separator,
            direction: self.direction,
            calendar: self.calendar@,
            numbering_system: self.numbering_system@,
            timezone: self.timezone@,
            first_day: self.first_day@,
            hour_cycle: self.hour_cycle@,
            collation: opt_text(self.collation),
            case_first: opt_text(self.case_first),
            units: opt_text(self.units),
        }
    }
}

fn copy_text(o: &Option<String>) -> (r: Option<String>)
    ensures
        r == *o,
{
    match o {
        Some(s) => Some(s.clone()),
        None => None,
    }
}

impl I18nProfile {
    /// A copy of the profile.
    pub fn duplicate(&self) -> (p: Self)
        ensures
            p == *self,
    {
        I18nProfile {
            tag: self.tag.duplicate(),
            currency: copy_text(&self.currency),
            decimal_separator: self.decimal_separator,
            direction: self.direction,
            calendar: self.calendar.clone(),
            numbering_system: self.numbering_system.clone(),
            timezone: self.timezone.clone(),
            first_day: self.first_day.clone(),
            hour_cycle: self.hour_cycle.clone(),
            collation: copy_text(&self.collation),
            case_first: copy_text(&self.case_first),
            units: copy_text(&self.units),
            id: self.id,
        }
    }
}

/// How strictly a request is resolved.
#[derive(Debug, Clone, Copy, PartialEq, Eq, Structural)]
pub enum ResolveMode {
    Strict,
    Lenient,
}

} // verus!

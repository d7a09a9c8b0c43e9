//! The ways in which a run can fail, and what is said of each.

use crate::coords::{Axis, ParseError};
use crate::rank::RankError;
use vstd::prelude::*;
use vstd::string::*;

verus! {

/// Why a run ends without a nearest aircraft. Each failure is handed up to
/// the one place that prints it and ends the run.
#[derive(Clone, Debug)]
pub enum TrackerError {
    /// The coordinate text is not a point.
    Input(ParseError),
    /// The service could not be reached, or its answer could not be read;
    /// the text is the transport's own account.
    Network(String),
    /// The answer is not a collection of state vectors; the text says where
    /// it departs from one.
    ResponseFormat(String),
    /// Distances were to be compared and one of them is a NaN.
    NanDistance,
    /// No aircraft has a known position.
    NoResults,
}

/// The name of an axis in a diagnostic.
pub open spec fn axis_name(axis: Axis) -> Seq<char> {
    match axis {
        Axis::Latitude => "latitude"@,
        Axis::Longitude => "longitude"@,
    }
}

/// The diagnostic for a text that is not a point.
pub open spec fn parse_diagnostic(e: ParseError) -> Seq<char> {
    match e {
        ParseError::MissingLine => "input: expected two lines, latitude then longitude"@,
        ParseError::TokenCount(axis) => "input: expected a number, a space and a hemisphere letter for the "@
            + axis_name(axis),
        ParseError::BadMagnitude(axis) => "input: not a number for the "@ + axis_name(axis),
    }
}

impl TrackerError {
    /// The failure that stands for a failed ranking.
    pub open spec fn of_rank(e: RankError) -> TrackerError {
        match e {
            RankError::NanDistance => TrackerError::NanDistance,
            RankError::NoResults => TrackerError::NoResults,
        }
    }

    /// The one line that is printed for the failure.
    pub open spec fn diagnostic(&self) -> Seq<char> {
        match self {
            TrackerError::Input(e) => parse_diagnostic(*e),
            TrackerError::Network(detail) => "network: "@ + detail@,
            TrackerError::ResponseFormat(detail) => "response: "@ + detail@,
            TrackerError::NanDistance => "ranking: a distance is not a number"@,
            TrackerError::NoResults => "no results: no aircraft has a known position"@,
        }
    }

    /// Writes the diagnostic.
    pub fn message(&self) -> (r: String)
        ensures
            r@ == self.diagnostic(),
    {
        match self {
            TrackerError::Input(e) => match e {
                ParseError::MissingLine => "input: expected two lines, latitude then longitude".to_owned(),
                ParseError::TokenCount(axis) => {
                    let mut text = "input: expected a number, a space and a hemisphere letter for the ".to_owned();
                    text.append(axis_text(*axis));
                    text
                },
                ParseError::BadMagnitude(axis) => {
                    let mut text = "input: not a number for the ".to_owned();
                    text.append(axis_text(*axis));
                    text
                },
            },
            TrackerError::Network(detail) => {
                let mut text = "network: ".to_owned();
                text.append(detail.as_str());
                text
            },
            TrackerError::ResponseFormat(detail) => {
                let mut text = "response: ".to_owned();
                text.append(detail.as_str());
                text
            },
            TrackerError::NanDistance => "ranking: a distance is not a number".to_owned(),
            TrackerError::NoResults => "no results: no aircraft has a known position".to_owned(),
        }
    }

    /// The status with which the run ends: the same for every failure, and
    /// never that of a run that went well.
    pub fn exit_status(&self) -> (r: u8)
        ensures
            r == 1,
    {
        1
    }
}

/// The name of an axis, for a diagnostic.
pub fn axis_text(axis: Axis) -> (r: &'static str)
    ensures
        r@ == axis_name(axis),
{
    match axis {
        Axis::Latitude => "latitude",
        Axis::Longitude => "longitude",
    }
}

impl From<ParseError> for TrackerError {
    fn from(e: ParseError) -> (r: TrackerError) {
        TrackerError::Input(e)
    }
}

impl vstd::std_specs::convert::FromSpecImpl<ParseError> for TrackerError {
    open spec fn obeys_from_spec() -> bool {
        true
    }

    open spec fn from_spec(e: ParseError) -> TrackerError {
        TrackerError::Input(e)
    }
}

impl From<RankError> for TrackerError {
    fn from(e: RankError) -> (r: TrackerError) {
        match e {
            RankError::NanDistance => TrackerError::NanDistance,
            RankError::NoResults => TrackerError::NoResults,
        }
    }
}

impl vstd::std_specs::convert::FromSpecImpl<RankError> for TrackerError {
    open spec fn obeys_from_spec() -> bool {
        true
    }

    open spec fn from_spec(e: RankError) -> TrackerError {
        TrackerError::of_rank(e)
    }
}

} // verus!

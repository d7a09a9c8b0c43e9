//! Reading a point from its two-line text: latitude on the first line,
//! longitude on the second, each written as a magnitude, one space and a
//! hemisphere letter.

use crate::binary64::{lemma_opposite_mirrors, Binary64};
use crate::text::{
    after_first, collect_chars, find, find_from, first_index, lemma_first_index_is_first,
    lemma_split_pieces, split,
};
use vstd::prelude::*;
use vstd::string::*;

verus! {

/// Which of the two coordinates a line stands for.
#[derive(Clone, Copy, Debug, PartialEq, Eq, Structural)]
pub enum Axis {
    /// The first line.
    Latitude,
    /// The second line.
    Longitude,
}

/// Why a text is not a point.
#[derive(Clone, Copy, Debug, PartialEq, Eq, Structural)]
pub enum ParseError {
    /// The text holds no newline, so it has fewer than two lines.
    MissingLine,
    /// The line does not consist of exactly two tokens with one space
    /// between them.
    TokenCount(Axis),
    /// The first token of the line is not a number.
    BadMagnitude(Axis),
}

/// One line of the text, split into its two tokens.
#[derive(Clone, Debug)]
pub struct Coordinate {
    /// The first token: the magnitude, as it was written.
    pub magnitude: String,
    /// The second token: the hemisphere letter.
    pub hemisphere: String,
}

/// The first two lines of the text, each split into its tokens.
#[derive(Clone, Debug)]
pub struct CoordinatePair {
    pub lat: Coordinate,
    pub lon: Coordinate,
}

/// A position in decimal degrees; south and west are negative.
#[derive(Clone, Copy, Debug)]
pub struct Point {
    pub lat: Binary64,
    pub lon: Binary64,
}

/// What a `Coordinate` holds: its two tokens as sequences of characters.
pub struct Tokens {
    pub magnitude: Seq<char>,
    pub hemisphere: Seq<char>,
}

impl View for Coordinate {
    type V = Tokens;

    open spec fn view(&self) -> Tokens {
        Tokens { magnitude: self.magnitude@, hemisphere: self.hemisphere@ }
    }
}

impl View for CoordinatePair {
    type V = (Tokens, Tokens);

    open spec fn view(&self) -> (Tokens, Tokens) {
        (self.lat@, self.lon@)
    }
}

/// Whether a hemisphere token makes its coordinate negative: it does when
/// it is `S` or `W`, and whatever else it is, it does not.
pub open spec fn southern_or_western(hemisphere: Seq<char>) -> bool {
    hemisphere == seq!['S'] || hemisphere == seq!['W']
}

/// The two tokens of a line, where it splits at spaces into exactly two.
pub open spec fn line_tokens(line: Seq<char>) -> Option<Tokens> {
    let tokens = split(line, ' ');
    if tokens.len() == 2 {
        Some(Tokens { magnitude: tokens[0], hemisphere: tokens[1] })
    } else {
        None
    }
}

/// The tokens of the first two lines of a text: the text is split at
/// newlines, and what follows the second line is not looked at. A text
/// without a second line is refused first, then a first line and then a
/// second line that does not have two tokens.
pub open spec fn text_tokens(s: Seq<char>) -> Result<(Tokens, Tokens), ParseError> {
    let lines = split(s, '\n');
    if lines.len() < 2 {
        Err(ParseError::MissingLine)
    } else {
        match (line_tokens(lines[0]), line_tokens(lines[1])) {
            (None, _) => Err(ParseError::TokenCount(Axis::Latitude)),
            (Some(_), None) => Err(ParseError::TokenCount(Axis::Longitude)),
            (Some(lat), Some(lon)) => Ok((lat, lon)),
        }
    }
}

impl PartialEq for Point {
    /// Two points are equal where their latitudes are equal numbers and
    /// their longitudes are.
    fn eq(&self, other: &Point) -> (r: bool) {
        self.lat == other.lat && self.lon == other.lon
    }
}

impl vstd::std_specs::cmp::PartialEqSpecImpl for Point {
    open spec fn obeys_eq_spec() -> bool {
        true
    }

    open spec fn eq_spec(&self, other: &Point) -> bool {
        self.lat.same_number(other.lat) && self.lon.same_number(other.lon)
    }
}

impl Coordinate {
    /// Whether the hemisphere token negates the magnitude.
    pub open spec fn negative(&self) -> bool {
        southern_or_western(self.hemisphere@)
    }

    /// The coordinate's value, given the number that its magnitude token
    /// denotes.
    pub open spec fn signed_value(&self, magnitude: Binary64) -> Binary64 {
        if self.negative() {
            magnitude.opposite()
        } else {
            magnitude
        }
    }

    /// Tells whether the hemisphere token is `S` or `W`.
    pub fn is_negative(&self) -> (r: bool)
        ensures
            r == self.negative(),
    {
        let hemisphere = self.hemisphere.as_str();
        if hemisphere.unicode_len() != 1 {
            return false;
        }
        let letter = hemisphere.get_char(0);
        assert(letter == 'S' ==> hemisphere@ =~= seq!['S']);
        assert(letter == 'W' ==> hemisphere@ =~= seq!['W']);
        letter == 'S' || letter == 'W'
    }

    /// Gives the magnitude the sign that the hemisphere token asks for.
    pub fn signed(&self, magnitude: Binary64) -> (r: Binary64)
        ensures
            r == self.signed_value(magnitude),
    {
        if self.is_negative() {
            magnitude.negated()
        } else {
            magnitude
        }
    }
}

/// The sign goes by the hemisphere token and by nothing else: with `S` or
/// `W` the value is the magnitude with its sign changed, which is the
/// negative of the number, whatever the magnitude and on whichever line;
/// with any other token it is the magnitude itself.
pub proof fn lemma_sign_follows_the_letter(c: Coordinate, magnitude: Binary64)
    ensures
        c.hemisphere@ == seq!['S'] || c.hemisphere@ == seq!['W'] ==> {
            &&& c.signed_value(magnitude) == magnitude.opposite()
            &&& c.signed_value(magnitude).scaled_value() == -magnitude.scaled_value()
            &&& c.signed_value(magnitude).key() == -magnitude.key()
            &&& c.signed_value(magnitude).magnitude() == magnitude.magnitude()
            &&& c.signed_value(magnitude).sign_negative() == !magnitude.sign_negative()
        },
        c.hemisphere@ != seq!['S'] && c.hemisphere@ != seq!['W'] ==> c.signed_value(magnitude)
            == magnitude,
{
    lemma_opposite_mirrors(magnitude, magnitude);
}

impl CoordinatePair {
    /// The point that the two lines denote, given the numbers that their
    /// magnitude tokens denote; `None` stands for a token that is no number.
    pub open spec fn point(&self, lat: Option<Binary64>, lon: Option<Binary64>) -> Result<
        Point,
        ParseError,
    > {
        match (lat, lon) {
            (None, _) => Err(ParseError::BadMagnitude(Axis::Latitude)),
            (Some(_), None) => Err(ParseError::BadMagnitude(Axis::Longitude)),
            (Some(a), Some(b)) => Ok(
                Point { lat: self.lat.signed_value(a), lon: self.lon.signed_value(b) },
            ),
        }
    }

    /// Builds the point from the two magnitudes, once the caller has read
    /// their tokens as numbers.
    pub fn to_point(&self, lat: Option<Binary64>, lon: Option<Binary64>) -> (r: Result<
        Point,
        ParseError,
    >)
        ensures
            r == self.point(lat, lon),
    {
        match lat {
            None => Err(ParseError::BadMagnitude(Axis::Latitude)),
            Some(a) => match lon {
                None => Err(ParseError::BadMagnitude(Axis::Longitude)),
                Some(b) => Ok(Point { lat: self.lat.signed(a), lon: self.lon.signed(b) }),
            },
        }
    }
}

impl Point {
    /// Splits one line into its magnitude and its hemisphere token.
    pub fn parse_coord(line: &str) -> (r: Option<Coordinate>)
        ensures
            match line_tokens(line@) {
                None => r is None,
                Some(tokens) => r matches Some(c) && c@ == tokens,
            },
    {
        let chars = collect_chars(line);
        let n = chars.len();
        let space = find(chars.as_slice(), ' ');
        proof {
            lemma_split_pieces(line@, ' ');
            lemma_split_pieces(after_first(line@, ' '), ' ');
        }
        if space == n {
            return None;
        }
        let second = find_from(&chars, space + 1, ' ');
        if second < n {
            return None;
        }
        let magnitude = line.substring_char(0, space).to_owned();
        let hemisphere = line.substring_char(space + 1, n).to_owned();
        Some(Coordinate { magnitude, hemisphere })
    }

    /// Reads the first two lines of a text as latitude and longitude.
    pub fn from_coords(s: &str) -> (r: Result<CoordinatePair, ParseError>)
        ensures
            match text_tokens(s@) {
                Err(e) => r == Err::<CoordinatePair, ParseError>(e),
                Ok(tokens) => r matches Ok(pair) && pair@ == tokens,
            },
    {
        let chars = collect_chars(s);
        let n = chars.len();
        let first_end = find(chars.as_slice(), '\n');
        proof {
            lemma_split_pieces(s@, '\n');
            lemma_split_pieces(after_first(s@, '\n'), '\n');
        }
        if first_end == n {
            return Err(ParseError::MissingLine);
        }
        let second_end = find_from(&chars, first_end + 1, '\n');
        let first = s.substring_char(0, first_end);
        let second = s.substring_char(first_end + 1, second_end);
        proof {
            let rest = after_first(s@, '\n');
            lemma_first_index_is_first(rest, '\n');
            assert(second@ =~= rest.subrange(0, first_index(rest, '\n') as int));
        }
        match Point::parse_coord(first) {
            None => Err(ParseError::TokenCount(Axis::Latitude)),
            Some(lat) => match Point::parse_coord(second) {
                None => Err(ParseError::TokenCount(Axis::Longitude)),
                Some(lon) => Ok(CoordinatePair { lat, lon }),
            },
        }
    }
}

} // verus!

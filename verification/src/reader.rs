//! One poll of the sensor bridge: the endpoint URL, the outcome that the
//! HTTP request produced, and the reading or display text it yields.
//!
//! The request itself is network I/O and is performed by the surrounding
//! shell; it hands the outcome over as an [`HttpOutcome`] and this module
//! computes everything that follows.

use crate::parse::all_digits;
use crate::parse::digits_value;
use crate::parse::is_digit_byte;
use crate::parse::is_reading_text;
use crate::parse::is_ws_byte;
use crate::parse::parse_reading;
use crate::parse::parsed_reading;
use crate::parse::reading_text_value;
use crate::parse::trim_of;
use crate::render::dec_digits;
use crate::render::dec_string;
use crate::render::digit_char;
use crate::render::render_reading;
use vstd::prelude::*;
use vstd::string::StringExecFns;
use vstd::string::StringSliceAdditionalSpecFns;
use vstd::utf8::encode_utf8;
use vstd::utf8::is_ascii_chars;
use vstd::utf8::is_ascii_chars_encode_utf8;

verus! {

/// What one HTTP poll of the sensor bridge produced, as the shell that
/// performed the request hands it over.
#[derive(Debug)]
pub enum HttpOutcome {
    /// The request completed and the response body was read as text.
    Body(String),
    /// The request itself failed (unreachable host, refused connection,
    /// timeout); the payload is the transport error's message.
    TransportFailed(String),
    /// The response arrived but its body could not be read; the payload
    /// is that error's message.
    BodyUnreadable(String),
}

/// Why a poll yielded no reading.
#[derive(Debug)]
pub enum FetchError {
    /// The request failed; the payload is the transport error's message.
    Transport(String),
    /// The response body could not be read; the payload is that error's
    /// message.
    BodyRead(String),
    /// The response body is not the text of an integer reading.
    Parse,
}

impl FetchError {
    /// The text shown in place of a reading.
    pub open spec fn message_view(&self) -> Seq<char> {
        match self {
            FetchError::Transport(m) => m@,
            FetchError::BodyRead(m) => m@,
            FetchError::Parse => "Failed to parse response as i32"@,
        }
    }

    /// The error's message, suitable for display.
    pub fn message(&self) -> (r: &str)
        ensures
            r@ == self.message_view(),
    {
        match self {
            FetchError::Transport(m) => m.as_str(),
            FetchError::BodyRead(m) => m.as_str(),
            FetchError::Parse => "Failed to parse response as i32",
        }
    }
}

/// The reading that a completed response body yields: the parsed integer,
/// or the parse error.
pub open spec fn body_reading(body: Seq<char>) -> Result<i32, FetchError> {
    match parsed_reading(encode_utf8(body)) {
        Some(v) => Ok(v),
        None => Err(FetchError::Parse),
    }
}

/// One poll's reading, computed from what the HTTP request produced: the
/// integer parsed from the body on success, and otherwise an error that
/// is returned, never a crash — a malformed body is reported as data.
pub fn fetch_reading(outcome: HttpOutcome) -> (r: Result<i32, FetchError>)
    ensures
        outcome matches HttpOutcome::Body(b) ==> r == body_reading(b@),
        outcome matches HttpOutcome::TransportFailed(m) ==> r == Err::<i32, FetchError>(
            FetchError::Transport(m),
        ),
        outcome matches HttpOutcome::BodyUnreadable(m) ==> r == Err::<i32, FetchError>(
            FetchError::BodyRead(m),
        ),
{
    match outcome {
        HttpOutcome::Body(b) => match parse_reading(b.as_str()) {
            Some(v) => Ok(v),
            None => Err(FetchError::Parse),
        },
        HttpOutcome::TransportFailed(m) => Err(FetchError::Transport(m)),
        HttpOutcome::BodyUnreadable(m) => Err(FetchError::BodyRead(m)),
    }
}

/// The text that one poll displays: the decimal reading when the body
/// parses, the error's message otherwise.
pub open spec fn ppm_view(outcome: HttpOutcome) -> Seq<char> {
    match outcome {
        HttpOutcome::Body(b) => match parsed_reading(encode_utf8(b@)) {
            Some(v) => dec_string(v as int),
            None => "Failed to parse response as i32"@,
        },
        HttpOutcome::TransportFailed(m) => m@,
        HttpOutcome::BodyUnreadable(m) => m@,
    }
}

/// The display text for one poll: the decimal reading, or the error's
/// message in its place.
pub fn ppm_text(outcome: HttpOutcome) -> (r: String)
    ensures
        r@ == ppm_view(outcome),
{
    match fetch_reading(outcome) {
        Ok(v) => render_reading(v),
        Err(e) => e.message().to_owned(),
    }
}

/// The sensor bridge endpoint for an address: `http://{address}/co2`.
pub fn co2_url(address: &str) -> (r: String)
    ensures
        r@ == "http://"@ + address@ + "/co2"@,
{
    let mut url: String = "http://".to_owned();
    url.append(address);
    url.append("/co2");
    url
}

/// The bytes of an ASCII character sequence, one byte per character.
spec fn ascii_bytes(s: Seq<char>) -> Seq<u8> {
    Seq::new(s.len(), |i: int| s[i] as u8)
}

proof fn lemma_dec_digits_bytes(n: int)
    requires
        0 <= n,
    ensures
        dec_digits(n).len() >= 1,
        forall|i: int| 0 <= i < dec_digits(n).len() ==> '0' <= #[trigger] dec_digits(n)[i] <= '9',
        all_digits(ascii_bytes(dec_digits(n))),
        digits_value(ascii_bytes(dec_digits(n))) == n,
    decreases n,
{
    if n < 10 {
        let b = ascii_bytes(dec_digits(n));
        assert(b =~= seq![digit_char(n) as u8]);
        assert(b.drop_last() =~= Seq::<u8>::empty());
        assert(digits_value(Seq::<u8>::empty()) == 0);
        assert(digit_char(n) as u8 == 48 + n);
        assert(digits_value(b) == 10 * digits_value(b.drop_last()) + (b.last() - 48));
    } else {
        lemma_dec_digits_bytes(n / 10);
        let s = dec_digits(n);
        let b = ascii_bytes(s);
        assert(b.drop_last() =~= ascii_bytes(dec_digits(n / 10)));
        assert(b.last() == digit_char(n % 10) as u8);
        assert(digit_char(n % 10) as u8 == 48 + n % 10);
        assert(digits_value(b) == 10 * (n / 10) + n % 10);
    }
}

/// Trimming does not touch a text whose ends are not whitespace.
proof fn lemma_no_ws_trim(s: Seq<u8>)
    requires
        s.len() > 0,
        !is_ws_byte(s[0]),
        !is_ws_byte(s.last()),
    ensures
        trim_of(s) == s,
{
}

/// Rendering is faithful: the display text of a reading, taken as a
/// response body, parses back to exactly that reading.
pub proof fn lemma_render_round_trip(v: i32)
    ensures
        body_reading(dec_string(v as int)) == Ok::<i32, FetchError>(v),
{
    let s = dec_string(v as int);
    if v >= 0 {
        lemma_dec_digits_bytes(v as int);
        let b = ascii_bytes(s);
        assert(is_ascii_chars(s));
        is_ascii_chars_encode_utf8(s);
        assert(encode_utf8(s) =~= b);
        assert(is_digit_byte(b[0]));
        assert(is_digit_byte(b.last()));
        lemma_no_ws_trim(b);
        assert(is_reading_text(b));
        assert(reading_text_value(b) == v as int);
    } else {
        lemma_dec_digits_bytes(-(v as int));
        let d = ascii_bytes(dec_digits(-(v as int)));
        let b = ascii_bytes(s);
        assert(is_ascii_chars(s));
        is_ascii_chars_encode_utf8(s);
        assert(encode_utf8(s) =~= b);
        assert(b[0] == '-' as u8);
        assert(b.drop_first() =~= d);
        assert(b.last() == d.last());
        assert(is_digit_byte(d.last()));
        lemma_no_ws_trim(b);
        assert(is_reading_text(b));
        assert(reading_text_value(b) == -digits_value(d));
    }
}

/// Polling is stateless: two polls whose requests see the same response
/// body yield the same reading. Nothing is carried from one call to the
/// next.
pub proof fn lemma_fetch_deterministic(
    body: Seq<char>,
    r1: Result<i32, FetchError>,
    r2: Result<i32, FetchError>,
)
    requires
        r1 == body_reading(body),
        r2 == body_reading(body),
    ensures
        r1 == r2,
{
}

} // verus!

//! The failures that the signal stages and the match engine report, and the
//! text that each is shown as.

use vstd::prelude::*;
use vstd::string::StringExecFns;

verus! {

/// A failure of the signal stages that precede peak extraction.
#[derive(Debug)]
pub enum ShazamError {
    DownsampleError(String),
    InvalidSampleRate(String),
    FftError(String),
}

/// A failure of a query or of an ingestion.
#[derive(Debug)]
pub enum MatchError {
    /// A signal stage failed; the text is that stage's message.
    SpectrogramError(String),
    /// The storage collaborator failed.
    DatabaseError(String),
    /// A scored song has no metadata row.
    SongNotFound(i64),
}

/// `String::push` appends the character to the end of the string.
pub assume_specification[ String::push ](s: &mut String, c: char)
    ensures
        final(s)@ == old(s)@.push(c),
;

/// The character of a decimal digit.
pub open spec fn digit_char(d: int) -> char {
    if d == 0 {
        '0'
    } else if d == 1 {
        '1'
    } else if d == 2 {
        '2'
    } else if d == 3 {
        '3'
    } else if d == 4 {
        '4'
    } else if d == 5 {
        '5'
    } else if d == 6 {
        '6'
    } else if d == 7 {
        '7'
    } else if d == 8 {
        '8'
    } else {
        '9'
    }
}

/// A natural number in decimal, without leading zeros.
pub open spec fn decimal_of_nat(n: nat) -> Seq<char>
    decreases n,
{
    if n < 10 {
        seq![digit_char(n as int)]
    } else {
        decimal_of_nat(n / 10).push(digit_char((n % 10) as int))
    }
}

/// An integer in decimal, with a minus sign where it is negative.
pub open spec fn decimal_of(i: int) -> Seq<char> {
    if i < 0 {
        seq!['-'] + decimal_of_nat((-i) as nat)
    } else {
        decimal_of_nat(i as nat)
    }
}

/// The character of a decimal digit.
pub fn digit_to_char(d: u64) -> (c: char)
    requires
        d < 10,
    ensures
        c == digit_char(d as int),
{
    if d == 0 {
        '0'
    } else if d == 1 {
        '1'
    } else if d == 2 {
        '2'
    } else if d == 3 {
        '3'
    } else if d == 4 {
        '4'
    } else if d == 5 {
        '5'
    } else if d == 6 {
        '6'
    } else if d == 7 {
        '7'
    } else if d == 8 {
        '8'
    } else {
        '9'
    }
}

/// Appends an integer in decimal to a text.
pub fn append_decimal(text: &mut String, value: i64)
    ensures
        final(text)@ == old(text)@ + decimal_of(value as int),
{
    let ghost start = text@;
    let magnitude: u64 = if value < 0 {
        text.push('-');
        (-(value as i128)) as u64
    } else {
        value as u64
    };
    let ghost signed = text@;
    let mut digits: Vec<char> = Vec::new();
    let mut rest: u64 = magnitude;
    digits.push(digit_to_char(rest % 10));
    rest = rest / 10;
    proof {
        if magnitude >= 10 {
            assert(decimal_of_nat(magnitude as nat) =~= decimal_of_nat(rest as nat)
                + digits@.reverse());
        } else {
            assert(decimal_of_nat(magnitude as nat) =~= digits@.reverse());
        }
    }
    while rest > 0
        invariant
            digits.len() >= 1,
            decimal_of_nat(magnitude as nat) == if rest > 0 {
                decimal_of_nat(rest as nat) + digits@.reverse()
            } else {
                digits@.reverse()
            },
        decreases rest,
    {
        let ghost before = digits@;
        let ghost rest_before = rest;
        let digit: char = digit_to_char(rest % 10);
        digits.push(digit);
        rest = rest / 10;
        proof {
            assert(digits@.reverse() =~= seq![digit] + before.reverse());
            if rest_before >= 10 {
                assert(decimal_of_nat(rest_before as nat) =~= decimal_of_nat(rest as nat)
                    + seq![digit]);
                assert(decimal_of_nat(rest as nat) + seq![digit] + before.reverse()
                    =~= decimal_of_nat(rest as nat) + (seq![digit] + before.reverse()));
            } else {
                assert(decimal_of_nat(rest_before as nat) =~= seq![digit]);
            }
        }
    }
    let mut k: usize = digits.len();
    while k > 0
        invariant
            k <= digits.len(),
            text@ == signed + digits@.reverse().take(digits.len() - k),
        decreases k,
    {
        k = k - 1;
        text.push(digits[k]);
        proof {
            let reversed = digits@.reverse();
            assert(reversed.take(digits.len() - k) =~= reversed.take(digits.len() - k - 1).push(
                digits@[k as int],
            ));
        }
    }
    proof {
        assert(digits@.reverse().take(digits.len() as int) =~= digits@.reverse());
        if value < 0 {
            assert(signed =~= start + seq!['-']);
            assert(start + seq!['-'] + decimal_of_nat(magnitude as nat) =~= start + (seq!['-']
                + decimal_of_nat(magnitude as nat)));
        }
    }
}

impl ShazamError {
    /// The text that the failure is shown as.
    pub open spec fn text(&self) -> Seq<char> {
        match self {
            ShazamError::DownsampleError(message) => "Downsample error: "@ + message@,
            ShazamError::InvalidSampleRate(message) => "Invalid sample rate: "@ + message@,
            ShazamError::FftError(message) => "FFT error: "@ + message@,
        }
    }

    /// Renders the failure: what failed, then the message.
    pub fn message(&self) -> (text: String)
        ensures
            text@ == self.text(),
    {
        match self {
            ShazamError::DownsampleError(message) => {
                let mut text: String = String::from_str("Downsample error: ");
                text.append(message.as_str());
                text
            },
            ShazamError::InvalidSampleRate(message) => {
                let mut text: String = String::from_str("Invalid sample rate: ");
                text.append(message.as_str());
                text
            },
            ShazamError::FftError(message) => {
                let mut text: String = String::from_str("FFT error: ");
                text.append(message.as_str());
                text
            },
        }
    }
}

impl MatchError {
    /// The text that the failure is shown as.
    pub open spec fn text(&self) -> Seq<char> {
        match self {
            MatchError::SpectrogramError(message) => "Spectrogram error: "@ + message@,
            MatchError::DatabaseError(message) => "Database error: "@ + message@,
            MatchError::SongNotFound(song_id) => "Song not found: "@ + decimal_of(*song_id as int),
        }
    }

    /// Renders the failure: what failed, then the message or the song.
    pub fn message(&self) -> (text: String)
        ensures
            text@ == self.text(),
    {
        match self {
            MatchError::SpectrogramError(message) => {
                let mut text: String = String::from_str("Spectrogram error: ");
                text.append(message.as_str());
                text
            },
            MatchError::DatabaseError(message) => {
                let mut text: String = String::from_str("Database error: ");
                text.append(message.as_str());
                text
            },
            MatchError::SongNotFound(song_id) => {
                let mut text: String = String::from_str("Song not found: ");
                append_decimal(&mut text, *song_id);
                text
            },
        }
    }

    /// The failure of a query whose signal stages failed: it carries the
    /// text of their failure.
    pub fn from_signal_failure(failure: &ShazamError) -> (e: MatchError)
        ensures
            e matches MatchError::SpectrogramError(message) && message@ == failure.text(),
    {
        MatchError::SpectrogramError(failure.message())
    }
}

} // verus!

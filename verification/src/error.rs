//! What can keep a mosaic from being built, and how it is told to the user.

use vstd::prelude::*;
use vstd::string::StringExecFns;

verus! {

/// Why a mosaic could not be built.
#[derive(Debug, PartialEq, Eq, Structural)]
pub enum MosaicError {
    /// No picture of the catalogue has the aspect ratio of the model image.
    NoMatchingPicture { ratio_width: u32, ratio_height: u32 },
    /// The ratio is so long and thin that a chunk of the model image would
    /// have no width or no height.
    RatioTooThin { ratio_width: u32, ratio_height: u32 },
    /// The canvas would be wider or higher than a `u32` can say, or larger
    /// than one allocation can be.
    CanvasTooLarge,
    /// The thumbnail of the catalogue entry with this index was chosen for a
    /// tile, and it is not there.
    MissingThumbnail { index: usize },
    /// The thumbnail chosen for the tile with this number reaches beyond the
    /// canvas.
    TileOutOfCanvas { tile: usize },
}

/// The character for a digit.
pub open spec fn digit_char(d: int) -> char {
    if d == 0 {
        '0'
    } else if d == 1 {
        '1'
    } else if d == 2 {
        '2'
    } else if d == 3 {
        '3'
    } else if d == 4 {
        '4'
    } else if d == 5 {
        '5'
    } else if d == 6 {
        '6'
    } else if d == 7 {
        '7'
    } else if d == 8 {
        '8'
    } else {
        '9'
    }
}

/// A number written in decimal digits, without leading zeros.
pub open spec fn decimal(n: nat) -> Seq<char>
    decreases n,
{
    if n < 10 {
        seq![digit_char(n as int)]
    } else {
        decimal(n / 10).push(digit_char((n % 10) as int))
    }
}

impl MosaicError {
    /// The text of the message for the user.
    pub open spec fn message_text(self) -> Seq<char> {
        match self {
            MosaicError::NoMatchingPicture { ratio_width, ratio_height } => {
                "No processed pictures found with the same ratio ("@ + decimal(ratio_width as nat)
                    + "/"@ + decimal(ratio_height as nat) + ")"@
            },
            MosaicError::RatioTooThin { ratio_width, ratio_height } => {
                "The model image is too long and thin to be cut into chunks (ratio "@ + decimal(
                    ratio_width as nat,
                ) + "/"@ + decimal(ratio_height as nat) + ")"@
            },
            MosaicError::CanvasTooLarge => "The mosaic would be too large"@,
            MosaicError::MissingThumbnail { index } => {
                "The thumbnail of picture "@ + decimal(index as nat) + " is missing"@
            },
            MosaicError::TileOutOfCanvas { tile } => {
                "The thumbnail for tile "@ + decimal(tile as nat) + " does not fit into the mosaic"@
            },
        }
    }

    /// The message for the user. Where no picture has the ratio of the model
    /// image, the message names the ratio, as in `4/3`.
    pub fn message(&self) -> (text: String)
        ensures
            text@ == self.message_text(),
    {
        match self {
            MosaicError::NoMatchingPicture { ratio_width, ratio_height } => {
                let mut text: String = String::from_str(
                    "No processed pictures found with the same ratio (",
                );
                push_decimal(&mut text, *ratio_width as u64);
                text.append("/");
                push_decimal(&mut text, *ratio_height as u64);
                text.append(")");
                text
            },
            MosaicError::RatioTooThin { ratio_width, ratio_height } => {
                let mut text: String = String::from_str(
                    "The model image is too long and thin to be cut into chunks (ratio ",
                );
                push_decimal(&mut text, *ratio_width as u64);
                text.append("/");
                push_decimal(&mut text, *ratio_height as u64);
                text.append(")");
                text
            },
            MosaicError::CanvasTooLarge => String::from_str("The mosaic would be too large"),
            MosaicError::MissingThumbnail { index } => {
                let mut text: String = String::from_str("The thumbnail of picture ");
                push_decimal(&mut text, *index as u64);
                text.append(" is missing");
                text
            },
            MosaicError::TileOutOfCanvas { tile } => {
                let mut text: String = String::from_str("The thumbnail for tile ");
                push_decimal(&mut text, *tile as u64);
                text.append(" does not fit into the mosaic");
                text
            },
        }
    }
}

fn digit_str(d: u64) -> (s: &'static str)
    requires
        d < 10,
    ensures
        s@ == seq![digit_char(d as int)],
{
    proof {
        reveal_strlit("0");
        reveal_strlit("1");
        reveal_strlit("2");
        reveal_strlit("3");
        reveal_strlit("4");
        reveal_strlit("5");
        reveal_strlit("6");
        reveal_strlit("7");
        reveal_strlit("8");
        reveal_strlit("9");
    }
    let s: &'static str = if d == 0 {
        "0"
    } else if d == 1 {
        "1"
    } else if d == 2 {
        "2"
    } else if d == 3 {
        "3"
    } else if d == 4 {
        "4"
    } else if d == 5 {
        "5"
    } else if d == 6 {
        "6"
    } else if d == 7 {
        "7"
    } else if d == 8 {
        "8"
    } else {
        "9"
    };
    assert(s@ =~= seq![digit_char(d as int)]);
    s
}

/// Appends a number in decimal digits.
pub fn push_decimal(text: &mut String, n: u64)
    ensures
        final(text)@ == old(text)@ + decimal(n as nat),
    decreases n,
{
    if n >= 10 {
        push_decimal(text, n / 10);
    }
    text.append(digit_str(n % 10));
    proof {
        if n >= 10 {
            assert(old(text)@ + decimal((n / 10) as nat) + seq![digit_char((n % 10) as int)]
                =~= old(text)@ + decimal(n as nat));
        }
    }
}

} // verus!

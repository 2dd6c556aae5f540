//! The five-letter configuration of the pixel remapping filter.
use crate::pixel::{pixel_average, pixel_max, spec_pixel_average, spec_pixel_max, Rgb};
use std::str::Chars;
use vstd::prelude::*;
use vstd::std_specs::convert::TryFromSpecImpl;
use vstd::std_specs::iter::IteratorSpec;
use vstd::string::StringExecFns;

verus! {

/// How two channel values are combined into one.
#[derive(Clone, Copy, Debug, PartialEq, Eq, Structural)]
pub enum PixelCalc {
    Min,
    Max,
    Av,
    Diff,
    Zero,
}

/// Why a configuration text was turned down.
#[derive(Clone, Copy, Debug, PartialEq, Eq, Structural)]
pub enum ConfigError {
    /// The text ended before all five letters were read.
    Missing,
    /// A letter names no calculation.
    Invalid,
}

impl ConfigError {
    /// The wording of each error.
    pub open spec fn spec_message(self) -> Seq<char> {
        match self {
            ConfigError::Missing => "err"@,
            ConfigError::Invalid => "Invalid"@,
        }
    }

    pub fn message(&self) -> (text: String)
        ensures
            text@ == self.spec_message(),
    {
        match self {
            ConfigError::Missing => String::from_str("err"),
            ConfigError::Invalid => String::from_str("Invalid"),
        }
    }
}

/// The calculation that a letter names, if it names one.
pub open spec fn calc_of(letter: char) -> Result<PixelCalc, ConfigError> {
    if letter == 'n' {
        Ok(PixelCalc::Min)
    } else if letter == 'x' {
        Ok(PixelCalc::Max)
    } else if letter == 'a' {
        Ok(PixelCalc::Av)
    } else if letter == 'd' {
        Ok(PixelCalc::Diff)
    } else if letter == 'z' {
        Ok(PixelCalc::Zero)
    } else {
        Err(ConfigError::Invalid)
    }
}

/// What reading one calculation from the front of `text` gives.
pub open spec fn calc_at_front(text: Seq<char>) -> Result<PixelCalc, ConfigError> {
    if text.len() > 0 {
        calc_of(text[0])
    } else {
        Err(ConfigError::Missing)
    }
}

impl PixelCalc {
    /// The letter that names this calculation.
    pub open spec fn spec_letter(self) -> char {
        match self {
            PixelCalc::Min => 'n',
            PixelCalc::Max => 'x',
            PixelCalc::Av => 'a',
            PixelCalc::Diff => 'd',
            PixelCalc::Zero => 'z',
        }
    }

    /// The value of this calculation on two channel values.
    pub open spec fn spec_calc(self, x: int, y: int) -> int {
        match self {
            PixelCalc::Min => if x <= y {
                x
            } else {
                y
            },
            PixelCalc::Max => if x >= y {
                x
            } else {
                y
            },
            PixelCalc::Av => (x + y) / 2,
            PixelCalc::Diff => if x > y {
                x - y
            } else {
                y - x
            },
            PixelCalc::Zero => 0,
        }
    }

    /// Whether the calculation can be carried out in a byte: the sum that the
    /// average takes must not pass 255.
    pub open spec fn fits(self, x: int, y: int) -> bool {
        self == PixelCalc::Av ==> x + y <= u8::MAX
    }

    pub fn calc(&self, x: u8, y: u8) -> (r: u8)
        requires
            self.fits(x as int, y as int),
        ensures
            r == self.spec_calc(x as int, y as int),
    {
        match self {
            PixelCalc::Min => if x <= y {
                x
            } else {
                y
            },
            PixelCalc::Max => if x >= y {
                x
            } else {
                y
            },
            PixelCalc::Av => (x + y) / 2,
            PixelCalc::Diff => {
                if x > y {
                    x - y
                } else {
                    y - x
                }
            },
            PixelCalc::Zero => 0,
        }
    }

    /// Whether `calc` can be called on these two values.
    pub fn can_calc(&self, x: u8, y: u8) -> (ok: bool)
        ensures
            ok == self.fits(x as int, y as int),
    {
        match self {
            PixelCalc::Av => x <= u8::MAX - y,
            _ => true,
        }
    }

    /// Whether a run of pixels can be reduced with this calculation: the
    /// difference reduces nothing, and the average needs a pixel.
    pub open spec fn can_scan(self, pixels: Seq<Rgb>) -> bool {
        &&& self != PixelCalc::Diff
        &&& self == PixelCalc::Av ==> pixels.len() > 0
    }

    /// The pixel that a run of pixels is reduced to. The minimum is taken
    /// together with a starting value of zero and so is zero; the maximum
    /// and the average are taken channel by channel.
    pub open spec fn spec_scan(self, pixels: Seq<Rgb>) -> Rgb
        recommends
            self.can_scan(pixels),
    {
        match self {
            PixelCalc::Max => spec_pixel_max(pixels),
            PixelCalc::Av => spec_pixel_average(pixels),
            _ => Rgb { r: 0, g: 0, b: 0 },
        }
    }

    /// Reduces a run of pixels to one.
    pub fn scan(&self, pixels: &[Rgb]) -> (r: Rgb)
        requires
            self.can_scan(pixels@),
        ensures
            r == self.spec_scan(pixels@),
    {
        match self {
            PixelCalc::Max => pixel_max(pixels),
            PixelCalc::Av => pixel_average(pixels),
            _ => Rgb { r: 0, g: 0, b: 0 },
        }
    }

    pub fn letter(&self) -> (c: char)
        ensures
            c == self.spec_letter(),
    {
        match self {
            PixelCalc::Min => 'n',
            PixelCalc::Max => 'x',
            PixelCalc::Av => 'a',
            PixelCalc::Diff => 'd',
            PixelCalc::Zero => 'z',
        }
    }

    /// The letter as a text of length one.
    pub fn as_str(&self) -> (text: &'static str)
        ensures
            text@ == seq![self.spec_letter()],
    {
        proof {
            reveal_strlit("n");
            reveal_strlit("x");
            reveal_strlit("a");
            reveal_strlit("d");
            reveal_strlit("z");
        }
        let text = match self {
            PixelCalc::Min => "n",
            PixelCalc::Max => "x",
            PixelCalc::Av => "a",
            PixelCalc::Diff => "d",
            PixelCalc::Zero => "z",
        };
        assert(text@ =~= seq![self.spec_letter()]);
        text
    }

    pub fn to_string(&self) -> (text: String)
        ensures
            text@ == seq![self.spec_letter()],
    {
        String::from_str(self.as_str())
    }

    /// Reads one calculation from the characters that are left, and moves
    /// past the character it read.
    pub fn parse_next(chars: &mut Chars<'_>) -> (r: Result<Self, ConfigError>)
        ensures
            r == calc_at_front((*old(chars)).remaining()),
            (*old(chars)).remaining().len() > 0 ==> (*final(chars)).remaining() == (*old(
                chars,
            )).remaining().drop_first(),
            (*old(chars)).remaining().len() == 0 ==> (*final(chars)).remaining() == (*old(
                chars,
            )).remaining(),
    {
        broadcast use vstd::string::next_postcondition;

        match chars.next() {
            None => Err(ConfigError::Missing),
            Some(c) => PixelCalc::try_from(c),
        }
    }
}

impl TryFrom<char> for PixelCalc {
    type Error = ConfigError;

    fn try_from(value: char) -> (r: Result<Self, ConfigError>) {
        match value {
            'n' => Ok(Self::Min),
            'x' => Ok(Self::Max),
            'a' => Ok(Self::Av),
            'd' => Ok(Self::Diff),
            'z' => Ok(Self::Zero),
            _ => Err(ConfigError::Invalid),
        }
    }
}

impl TryFromSpecImpl<char> for PixelCalc {
    open spec fn obeys_try_from_spec() -> bool {
        true
    }

    open spec fn try_from_spec(v: char) -> Result<Self, ConfigError> {
        calc_of(v)
    }
}

/// Which calculation reduces the columns and the rows of an image to one
/// pixel each, and which calculation combines the two for each channel.
#[derive(Clone, Copy, Debug, PartialEq, Eq, Structural)]
pub struct KayConfig {
    pub scan_x: PixelCalc,
    pub scan_y: PixelCalc,
    pub calc_r: PixelCalc,
    pub calc_g: PixelCalc,
    pub calc_b: PixelCalc,
}

/// The configuration that a text stands for. Its first five characters are
/// read in order, one calculation each; the first of them that is absent or
/// names no calculation decides the error. What follows the fifth is not
/// read.
pub open spec fn config_of(text: Seq<char>) -> Result<KayConfig, ConfigError> {
    match calc_at_front(text) {
        Err(e) => Err(e),
        Ok(scan_x) => match calc_at_front(text.skip(1)) {
            Err(e) => Err(e),
            Ok(scan_y) => match calc_at_front(text.skip(2)) {
                Err(e) => Err(e),
                Ok(calc_r) => match calc_at_front(text.skip(3)) {
                    Err(e) => Err(e),
                    Ok(calc_g) => match calc_at_front(text.skip(4)) {
                        Err(e) => Err(e),
                        Ok(calc_b) => Ok(KayConfig { scan_x, scan_y, calc_r, calc_g, calc_b }),
                    },
                },
            },
        },
    }
}

impl KayConfig {
    /// The five letters of this configuration.
    pub open spec fn spec_text(self) -> Seq<char> {
        seq![
            self.scan_x.spec_letter(),
            self.scan_y.spec_letter(),
            self.calc_r.spec_letter(),
            self.calc_g.spec_letter(),
            self.calc_b.spec_letter(),
        ]
    }

    /// Reads a configuration from its text.
    pub fn parse(s: &str) -> (r: Result<Self, ConfigError>)
        ensures
            r == config_of(s@),
    {
        broadcast use vstd::string::axiom_spec_iter;

        let mut chars = s.chars();
        let ghost all = chars.remaining();
        assert(all == s@);
        let scan_x = match PixelCalc::parse_next(&mut chars) {
            Ok(c) => c,
            Err(e) => {
                return Err(e);
            },
        };
        assert(all.len() > 0 ==> chars.remaining() =~= all.skip(1));
        assert(all.len() == 0 ==> chars.remaining() =~= all.skip(1));
        let scan_y = match PixelCalc::parse_next(&mut chars) {
            Ok(c) => c,
            Err(e) => {
                return Err(e);
            },
        };
        assert(chars.remaining() =~= all.skip(2));
        let calc_r = match PixelCalc::parse_next(&mut chars) {
            Ok(c) => c,
            Err(e) => {
                return Err(e);
            },
        };
        assert(chars.remaining() =~= all.skip(3));
        let calc_g = match PixelCalc::parse_next(&mut chars) {
            Ok(c) => c,
            Err(e) => {
                return Err(e);
            },
        };
        assert(chars.remaining() =~= all.skip(4));
        let calc_b = match PixelCalc::parse_next(&mut chars) {
            Ok(c) => c,
            Err(e) => {
                return Err(e);
            },
        };
        Ok(KayConfig { scan_x, scan_y, calc_r, calc_g, calc_b })
    }

    pub fn to_string(&self) -> (text: String)
        ensures
            text@ == self.spec_text(),
    {
        let mut text = String::new();
        text.append(self.scan_x.as_str());
        text.append(self.scan_y.as_str());
        text.append(self.calc_r.as_str());
        text.append(self.calc_g.as_str());
        text.append(self.calc_b.as_str());
        assert(text@ =~= self.spec_text());
        text
    }
}

impl Default for KayConfig {
    fn default() -> (config: Self)
        ensures
            config == (KayConfig {
                scan_x: PixelCalc::Av,
                scan_y: PixelCalc::Av,
                calc_r: PixelCalc::Min,
                calc_g: PixelCalc::Min,
                calc_b: PixelCalc::Min,
            }),
    {
        Self {
            scan_x: PixelCalc::Av,
            scan_y: PixelCalc::Av,
            calc_r: PixelCalc::Min,
            calc_g: PixelCalc::Min,
            calc_b: PixelCalc::Min,
        }
    }
}

impl std::str::FromStr for KayConfig {
    type Err = ConfigError;

    /// Reads a configuration from its text, as `parse` does.
    fn from_str(s: &str) -> (r: Result<Self, ConfigError>)
        ensures
            r == config_of(s@),
    {
        KayConfig::parse(s)
    }
}

/// Every calculation is read back from its own letter.
pub proof fn lemma_letter_round_trip(calc: PixelCalc)
    ensures
        calc_of(calc.spec_letter()) == Ok::<PixelCalc, ConfigError>(calc),
{
}

/// Every configuration is read back from its own text, and from any text
/// that begins with it.
pub proof fn lemma_text_round_trip(config: KayConfig, rest: Seq<char>)
    ensures
        config_of(config.spec_text() + rest) == Ok::<KayConfig, ConfigError>(config),
{
    let text = config.spec_text() + rest;
    lemma_letter_round_trip(config.scan_x);
    lemma_letter_round_trip(config.scan_y);
    lemma_letter_round_trip(config.calc_r);
    lemma_letter_round_trip(config.calc_g);
    lemma_letter_round_trip(config.calc_b);
    assert(text[0] == config.scan_x.spec_letter());
    assert(text.skip(1)[0] == config.scan_y.spec_letter());
    assert(text.skip(2)[0] == config.calc_r.spec_letter());
    assert(text.skip(3)[0] == config.calc_g.spec_letter());
    assert(text.skip(4)[0] == config.calc_b.spec_letter());
}

/// A text of fewer than five letters is no configuration.
pub proof fn lemma_short_text_refused(text: Seq<char>)
    requires
        text.len() < 5,
    ensures
        config_of(text) is Err,
{
}

} // verus!

//! The canvas: its dimensions and where it is written.
use std::path::PathBuf;
use vstd::prelude::*;
use vstd::string::StrSliceExecFns;

verus! {

/// `std::path::PathBuf`, carried through untouched: nothing here looks inside
/// a path.
#[verifier::external_type_specification]
#[verifier::external_body]
pub struct ExPathBuf(PathBuf);

/// Width and height of a canvas, in pixels.
#[derive(Clone, Copy, Debug, PartialEq, Eq, Structural)]
pub struct Size(pub i32, pub i32);

/// What every program needs to know about its canvas.
#[derive(Debug)]
pub struct SubArgs {
    pub output: PathBuf,
    pub size: Size,
}

impl SubArgs {
    pub fn new(output: PathBuf, size: Size) -> (args: SubArgs)
        ensures
            args.output == output,
            args.size == size,
    {
        SubArgs { output, size }
    }

}

/// Why a canvas size was turned down.
#[derive(Clone, Copy, Debug, PartialEq, Eq, Structural)]
pub enum SizeError {
    /// The text holds no `x` between width and height.
    NoSeparator,
    /// What stands before the first `x` is no 32-bit integer.
    Width,
    /// What stands after the first `x` is no 32-bit integer.
    Height,
}

/// A decimal digit.
pub open spec fn is_digit(c: char) -> bool {
    '0' <= c <= '9'
}

/// The number that a run of decimal digits writes.
pub open spec fn digits_value(digits: Seq<char>) -> int
    decreases digits.len(),
{
    if digits.len() == 0 {
        0
    } else {
        digits_value(digits.drop_last()) * 10 + (digits.last() as int - '0' as int)
    }
}

/// Every character of a text is a decimal digit.
pub open spec fn all_digits(text: Seq<char>) -> bool {
    forall|i: int| 0 <= i < text.len() ==> is_digit(#[trigger] text[i])
}

/// A text begins with a sign.
pub open spec fn has_sign(text: Seq<char>) -> bool {
    text.len() > 0 && (text[0] == '-' || text[0] == '+')
}

/// A text without its sign, if it has one.
pub open spec fn unsigned_part(text: Seq<char>) -> Seq<char> {
    if has_sign(text) {
        text.skip(1)
    } else {
        text
    }
}

/// The 32-bit integer that a text writes in decimal: an optional sign, then
/// one digit or more and nothing else, with a value that fits.
pub open spec fn integer_of(text: Seq<char>) -> Option<i32> {
    let digits = unsigned_part(text);
    let value = if text.len() > 0 && text[0] == '-' {
        -digits_value(digits)
    } else {
        digits_value(digits)
    };
    if digits.len() > 0 && all_digits(digits) && i32::MIN <= value <= i32::MAX {
        Some(value as i32)
    } else {
        None
    }
}

/// The place of the first `x` in a text, or its length where there is none.
pub open spec fn first_x(text: Seq<char>) -> int
    decreases text.len(),
{
    if text.len() == 0 {
        0
    } else if text[0] == 'x' {
        0
    } else {
        1 + first_x(text.skip(1))
    }
}

/// The size that a text of the form `WIDTHxHEIGHT` stands for. The text is
/// cut at its first `x`; each side must be an integer.
pub open spec fn size_of(text: Seq<char>) -> Result<Size, SizeError> {
    let cut = first_x(text);
    if cut >= text.len() {
        Err(SizeError::NoSeparator)
    } else {
        match integer_of(text.take(cut)) {
            None => Err(SizeError::Width),
            Some(w) => match integer_of(text.skip(cut + 1)) {
                None => Err(SizeError::Height),
                Some(h) => Ok(Size(w, h)),
            },
        }
    }
}

/// The first `x` of a text is an `x`, and none stands before it.
pub proof fn lemma_first_x(text: Seq<char>)
    ensures
        0 <= first_x(text) <= text.len(),
        first_x(text) < text.len() ==> text[first_x(text)] == 'x',
        forall|i: int| 0 <= i < first_x(text) ==> (#[trigger] text[i]) != 'x',
    decreases text.len(),
{
    if text.len() > 0 && text[0] != 'x' {
        let rest = text.skip(1);
        lemma_first_x(rest);
        assert forall|i: int| 0 <= i < first_x(text) implies (#[trigger] text[i]) != 'x' by {
            if i > 0 {
                assert(rest[i - 1] == text[i]);
            }
        }
    }
}

/// A place that holds an `x` with none before it is the first `x`.
pub proof fn lemma_first_x_is(text: Seq<char>, k: int)
    requires
        0 <= k <= text.len(),
        k < text.len() ==> text[k] == 'x',
        forall|i: int| 0 <= i < k ==> (#[trigger] text[i]) != 'x',
    ensures
        first_x(text) == k,
    decreases text.len(),
{
    if k > 0 {
        let rest = text.skip(1);
        assert(text[0] != 'x');
        assert forall|i: int| 0 <= i < k - 1 implies (#[trigger] rest[i]) != 'x' by {
            assert(rest[i] == text[i + 1]);
        }
        lemma_first_x_is(rest, k - 1);
    }
}

/// A run of digits writes a number that is not negative, and a longer run
/// that begins with it writes one at least as large.
pub proof fn lemma_digits_grow(digits: Seq<char>, n: int)
    requires
        0 <= n <= digits.len(),
        all_digits(digits),
    ensures
        0 <= digits_value(digits.take(n)) <= digits_value(digits),
    decreases digits.len() - n,
{
    if n == digits.len() {
        assert(digits.take(n) =~= digits);
        lemma_digits_not_negative(digits);
    } else {
        lemma_digits_grow(digits, n + 1);
        let longer = digits.take(n + 1);
        let shorter = digits.take(n);
        assert(longer.drop_last() =~= shorter);
        assert(is_digit(digits[n]));
        assert(longer.last() == digits[n]);
        assert forall|i: int| 0 <= i < shorter.len() implies is_digit(#[trigger] shorter[i]) by {
            assert(shorter[i] == digits[i]);
        }
        lemma_digits_not_negative(shorter);
    }
}

/// A run of digits writes a number that is not negative.
pub proof fn lemma_digits_not_negative(digits: Seq<char>)
    requires
        all_digits(digits),
    ensures
        0 <= digits_value(digits),
    decreases digits.len(),
{
    if digits.len() > 0 {
        let front = digits.drop_last();
        assert forall|i: int| 0 <= i < front.len() implies is_digit(#[trigger] front[i]) by {
            assert(front[i] == digits[i]);
        }
        lemma_digits_not_negative(front);
        assert(is_digit(digits[digits.len() - 1]));
    }
}

/// Reads the integer that the characters of `s` from place `from` up to
/// place `to` write.
pub fn parse_integer(s: &str, from: usize, to: usize) -> (r: Option<i32>)
    requires
        from <= to <= s@.len(),
    ensures
        r == integer_of(s@.subrange(from as int, to as int)),
{
    let ghost text = s@.subrange(from as int, to as int);
    if from == to {
        return None;
    }
    let first = s.get_char(from);
    assert(text[0] == first);
    let negative = first == '-';
    let start: usize = if first == '-' || first == '+' {
        from + 1
    } else {
        from
    };
    let ghost digits = s@.subrange(start as int, to as int);
    assert(digits =~= unsigned_part(text));
    if start == to {
        return None;
    }
    let mut acc: i64 = 0;
    let mut i: usize = start;
    while i < to
        invariant
            from <= start <= i <= to <= s@.len(),
            text == s@.subrange(from as int, to as int),
            text.len() > 0,
            negative == (text[0] == '-'),
            digits == s@.subrange(start as int, to as int),
            digits == unsigned_part(text),
            forall|k: int| 0 <= k < i - start ==> is_digit(#[trigger] digits[k]),
            acc == digits_value(digits.take(i - start)),
            0 <= acc <= i32::MAX + 1,
        decreases to - i,
    {
        let c = s.get_char(i);
        assert(digits[i - start] == c);
        if !('0' <= c && c <= '9') {
            assert(!is_digit(digits[i - start]));
            return None;
        }
        proof {
            let longer = digits.take(i - start + 1);
            assert(longer.drop_last() =~= digits.take(i - start));
            assert(longer.last() == c);
        }
        acc = acc * 10 + (c as i64 - '0' as i64);
        i += 1;
        if acc > (i32::MAX as i64) + 1 {
            proof {
                if all_digits(digits) {
                    lemma_digits_grow(digits, i - start);
                }
            }
            return None;
        }
    }
    assert(digits.take(to - start) =~= digits);
    let value: i64 = if negative {
        -acc
    } else {
        acc
    };
    if value > i32::MAX as i64 {
        None
    } else {
        Some(value as i32)
    }
}

/// Reads a canvas size of the form `WIDTHxHEIGHT`.
pub fn parse_size(arg: &str) -> (r: Result<Size, SizeError>)
    ensures
        r == size_of(arg@),
{
    let n: usize = arg.unicode_len();
    let mut cut: usize = 0;
    while cut < n && arg.get_char(cut) != 'x'
        invariant
            cut <= n,
            n == arg@.len(),
            forall|i: int| 0 <= i < cut ==> (#[trigger] arg@[i]) != 'x',
        decreases n - cut,
    {
        cut += 1;
    }
    proof {
        lemma_first_x_is(arg@, cut as int);
    }
    if cut >= n {
        return Err(SizeError::NoSeparator);
    }
    assert(arg@.take(cut as int) =~= arg@.subrange(0, cut as int));
    assert(arg@.skip(cut + 1) =~= arg@.subrange(cut + 1, n as int));
    let w = match parse_integer(arg, 0, cut) {
        Some(w) => w,
        None => {
            return Err(SizeError::Width);
        },
    };
    let h = match parse_integer(arg, cut + 1, n) {
        Some(h) => h,
        None => {
            return Err(SizeError::Height);
        },
    };
    Ok(Size(w, h))
}

/// Why a heat map could not be made.
#[derive(Clone, Copy, Debug, PartialEq, Eq, Structural)]
pub enum FieldError {
    /// A side is negative, or the pixels do not fit in memory.
    InvalidSize,
}

/// A heat map: a raster of four bytes to the pixel, row after row, of which
/// byte 2 is red, byte 1 green and byte 0 blue, and byte 3 is not used.
#[derive(Debug)]
pub struct Field {
    pub width: i32,
    pub height: i32,
    pub stride: i32,
    pub data: Vec<u8>,
}

/// The bytes of a raster after the pixel that starts at `at` has been heated
/// by one step: its red byte goes up by one; once red is full, green does;
/// once green is full, blue does; once all three are full, nothing changes.
pub open spec fn heated(data: Seq<u8>, at: int) -> Seq<u8> {
    if data[at + 2] != 255 {
        data.update(at + 2, (data[at + 2] + 1) as u8)
    } else if data[at + 1] != 255 {
        data.update(at + 1, (data[at + 1] + 1) as u8)
    } else if data[at] != 255 {
        data.update(at, (data[at] + 1) as u8)
    } else {
        data
    }
}

/// Whether a heat map of these sides can be held: neither side is negative,
/// and four bytes to the pixel fit the machine's sizes.
pub open spec fn field_fits(width: int, height: int) -> bool {
    &&& 0 <= width
    &&& 0 <= height
    &&& 4 * width <= i32::MAX
    &&& 4 * width * height <= usize::MAX
}

impl Field {
    /// The rows are as long as the width says, and all of them are there.
    pub open spec fn wf(self) -> bool {
        &&& 0 <= self.width
        &&& 0 <= self.height
        &&& self.stride == 4 * self.width
        &&& self.data@.len() == self.stride * self.height
    }

    /// The place is inside the raster.
    pub open spec fn contains(self, x: int, y: int) -> bool {
        0 <= x < self.width && 0 <= y < self.height
    }

    /// The index of the first byte of the pixel at a place.
    pub open spec fn offset(self, x: int, y: int) -> int {
        self.stride * y + 4 * x
    }

    /// A cold heat map of the size that the arguments give.
    pub fn new(args: &SubArgs) -> (r: Result<Field, FieldError>)
        ensures
            r is Ok <==> field_fits(args.size.0 as int, args.size.1 as int),
            r is Ok ==> {
                &&& r->Ok_0.wf()
                &&& r->Ok_0.width == args.size.0
                &&& r->Ok_0.height == args.size.1
                &&& forall|i: int| 0 <= i < r->Ok_0.data@.len() ==> (#[trigger] r->Ok_0.data@[i]) == 0
            },
    {
        let width: i32 = args.size.0;
        let height: i32 = args.size.1;
        if width < 0 || height < 0 || width > i32::MAX / 4 {
            return Err(FieldError::InvalidSize);
        }
        assert(4 * width * height <= 4 * 0x7fff_ffff * 0x7fff_ffff) by (nonlinear_arith)
            requires
                0 <= width <= 0x7fff_ffff,
                0 <= height <= 0x7fff_ffff,
        ;
        let bytes: u128 = 4 * (width as u128) * (height as u128);
        if bytes > usize::MAX as u128 {
            return Err(FieldError::InvalidSize);
        }
        let data: Vec<u8> = vec![0u8; bytes as usize];
        Ok(Field { width, height, stride: 4 * width, data })
    }

    /// Heats the pixel at a place by one step. A place outside the raster is
    /// passed over.
    pub fn inc(&mut self, x: i32, y: i32)
        requires
            old(self).wf(),
        ensures
            final(self).wf(),
            final(self).width == old(self).width,
            final(self).height == old(self).height,
            final(self).stride == old(self).stride,
            !old(self).contains(x as int, y as int) ==> final(self).data@ == old(self).data@,
            old(self).contains(x as int, y as int) ==> final(self).data@ == heated(
                old(self).data@,
                old(self).offset(x as int, y as int),
            ),
    {
        if x < 0 || x >= self.width || y < 0 || y >= self.height {
            return ;
        }
        let n: usize = self.data.len();
        assert(self.stride * y + 4 * x + 3 < self.stride * self.height) by (nonlinear_arith)
            requires
                0 <= x < self.width,
                0 <= y < self.height,
                self.stride == 4 * self.width,
        ;
        assert(0 <= self.stride * y) by (nonlinear_arith)
            requires
                0 <= y,
                0 <= self.stride,
        ;
        let pixel_ix: usize = (self.stride as usize) * (y as usize) + 4 * (x as usize);
        if self.data[pixel_ix + 2] != 255 {
            let v: u8 = self.data[pixel_ix + 2];
            self.data.set(pixel_ix + 2, v + 1);
        } else if self.data[pixel_ix + 1] != 255 {
            let v: u8 = self.data[pixel_ix + 1];
            self.data.set(pixel_ix + 1, v + 1);
        } else if self.data[pixel_ix] != 255 {
            let v: u8 = self.data[pixel_ix];
            self.data.set(pixel_ix, v + 1);
        }
    }
}

/// Heating a pixel raises the sum of its three bytes by one, until all
/// three are full; the raster keeps its length.
pub proof fn lemma_heated_by_one(data: Seq<u8>, at: int)
    requires
        0 <= at,
        at + 2 < data.len(),
    ensures
        heated(data, at).len() == data.len(),
        data[at] + data[at + 1] + data[at + 2] < 3 * 255 ==> heated(data, at)[at] + heated(
            data,
            at,
        )[at + 1] + heated(data, at)[at + 2] == data[at] + data[at + 1] + data[at + 2] + 1,
        data[at] + data[at + 1] + data[at + 2] == 3 * 255 ==> heated(data, at) == data,
        forall|i: int|
            0 <= i < data.len() && !(at <= i <= at + 2) ==> (#[trigger] heated(data, at)[i]) == data[i],
{
}

} // verus!

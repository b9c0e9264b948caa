//! Structures used in parsing arguments, such as image dimensions.

use vstd::prelude::*;

verus! {

/// Errors that may occur when parsing a [`Dimensions`] value.
#[derive(Clone, Copy, Debug, PartialEq, Eq, Structural)]
pub enum DimensionsParseError {
    /// Failed to find the separating `x`.
    MissingX,
    /// Failed to parse the width as an unsigned integer.
    WidthParseFail,
    /// Failed to parse the height as an unsigned integer.
    HeightParseFail,
}

/// A `<WIDTH>x<HEIGHT>` pair.
#[derive(Clone, Copy, Debug, PartialEq, Eq, Structural)]
pub struct Dimensions(pub u32, pub u32);

/// Whether a byte is an ASCII decimal digit.
pub open spec fn is_digit(b: u8) -> bool {
    48 <= b <= 57
}

/// The value of a sequence of decimal digits, most significant first.
pub open spec fn digits_val(s: Seq<u8>) -> int
    decreases s.len(),
{
    if s.len() == 0 {
        0
    } else {
        digits_val(s.drop_last()) * 10 + (s.last() - 48)
    }
}

/// Whether a byte sequence is a valid `u32` numeral: nonempty, all
/// digits, and within range.
pub open spec fn numeral_ok(s: Seq<u8>) -> bool {
    &&& s.len() > 0
    &&& forall|i: int| 0 <= i < s.len() ==> is_digit(#[trigger] s[i])
    &&& digits_val(s) <= u32::MAX
}

/// The position of the first `x` in a byte sequence, if any.
pub open spec fn x_position(s: Seq<u8>) -> Option<int> {
    if exists|i: int| 0 <= i < s.len() && s[i] == 120 {
        Some(choose|i: int| 0 <= i < s.len() && s[i] == 120 && (forall|j: int| 0 <= j < i ==> s[j] != 120))
    } else {
        None
    }
}

/// Prefix values of an all-digit numeral never shrink as digits are
/// appended, so an overflow at any prefix dooms the whole numeral.
proof fn lemma_digits_monotone(s: Seq<u8>, i: int)
    requires
        0 <= i <= s.len(),
        forall|j: int| 0 <= j < s.len() ==> is_digit(#[trigger] s[j]),
    ensures
        digits_val(s.subrange(0, i)) <= digits_val(s),
        digits_val(s) >= 0,
    decreases s.len() - i,
{
    if i == s.len() {
        assert(s.subrange(0, i) =~= s);
        lemma_digits_nonneg(s);
    } else {
        lemma_digits_monotone(s, i + 1);
        let a = s.subrange(0, i);
        let b = s.subrange(0, i + 1);
        assert(b.drop_last() =~= a);
        assert(b.last() == s[i]);
        lemma_digits_nonneg(a);
        assert(digits_val(b) == digits_val(a) * 10 + (s[i] - 48));
        assert(digits_val(a) <= digits_val(a) * 10) by (nonlinear_arith)
            requires
                digits_val(a) >= 0,
        {}
    }
}

/// An all-digit numeral's value is nonnegative.
proof fn lemma_digits_nonneg(s: Seq<u8>)
    requires
        forall|j: int| 0 <= j < s.len() ==> is_digit(#[trigger] s[j]),
    ensures
        digits_val(s) >= 0,
    decreases s.len(),
{
    if s.len() > 0 {
        assert(forall|j: int|
            0 <= j < s.drop_last().len() ==> is_digit(#[trigger] s.drop_last()[j]));
        lemma_digits_nonneg(s.drop_last());
        assert(digits_val(s.drop_last()) * 10 >= 0) by (nonlinear_arith)
            requires
                digits_val(s.drop_last()) >= 0,
        {}
    }
}

/// Parses a `u32` numeral from bytes: succeeds exactly on a nonempty,
/// all-digit sequence whose value fits, and then returns that value.
pub fn parse_u32(s: &[u8]) -> (r: Option<u32>)
    ensures
        r is Some <==> numeral_ok(s@),
        r is Some ==> r->0 as int == digits_val(s@),
{
    if s.len() == 0 {
        return None;
    }
    let mut acc: u32 = 0;
    let mut i: usize = 0;
    while i < s.len()
        invariant
            0 <= i <= s@.len(),
            s@.len() > 0,
            forall|j: int| 0 <= j < i as int ==> is_digit(#[trigger] s@[j]),
            acc as int == digits_val(s@.subrange(0, i as int)),
        decreases s@.len() - i,
    {
        let b: u8 = s[i];
        if b < 48 || b > 57 {
            proof {
                assert(!is_digit(s@[i as int]));
            }
            return None;
        }
        let d: u32 = (b - 48) as u32;
        proof {
            assert(s@.subrange(0, i as int + 1).drop_last() =~= s@.subrange(0, i as int));
        }
        if acc > (u32::MAX - d) / 10 {
            proof {
                assert(digits_val(s@.subrange(0, i as int + 1)) == acc as int * 10 + d);
                assert(acc as int * 10 + d > u32::MAX) by (nonlinear_arith)
                    requires
                        acc as int > (u32::MAX as int - d) / 10,
                        0 <= d <= 9,
                        acc >= 0,
                {}
                if numeral_ok(s@) {
                    lemma_digits_monotone(s@, i as int + 1);
                    assert(false);
                }
            }
            return None;
        }
        proof {
            assert(acc as int * 10 + d <= u32::MAX) by (nonlinear_arith)
                requires
                    acc as int <= (u32::MAX as int - d) / 10,
                    0 <= d <= 9,
                    acc >= 0,
            {}
        }
        acc = acc * 10 + d;
        i = i + 1;
    }
    proof {
        assert(s@.subrange(0, s@.len() as int) =~= s@);
    }
    Some(acc)
}

/// Parses a `<WIDTH>x<HEIGHT>` pair from bytes: the part before the
/// first `x` must be a valid width numeral and the part after it a
/// valid height numeral; each failure is reported as its own error.
pub fn parse_dimensions(s: &[u8]) -> (r: Result<Dimensions, DimensionsParseError>)
    ensures
        ({
            let bytes = s@;
            match x_position(bytes) {
                None => r == Err::<Dimensions, DimensionsParseError>(
                    DimensionsParseError::MissingX,
                ),
                Some(p) => {
                    let w = bytes.subrange(0, p);
                    let h = bytes.subrange(p + 1, bytes.len() as int);
                    if !numeral_ok(w) {
                        r == Err::<Dimensions, DimensionsParseError>(
                            DimensionsParseError::WidthParseFail,
                        )
                    } else if !numeral_ok(h) {
                        r == Err::<Dimensions, DimensionsParseError>(
                            DimensionsParseError::HeightParseFail,
                        )
                    } else {
                        r is Ok && r->Ok_0.0 as int == digits_val(w) && r->Ok_0.1 as int
                            == digits_val(h)
                    }
                },
            }
        }),
{
    // Find the first `x`.
    let p: usize = find_x(s);
    if p == s.len() {
        proof {
            assert(forall|i: int| 0 <= i < s@.len() ==> s@[i] != 120);
            assert(x_position(s@) is None);
        }
        return Err(DimensionsParseError::MissingX);
    }
    proof {
        assert(s@[p as int] == 120);
        assert(x_position(s@) == Some(p as int)) by {
            assert(0 <= (p as int) < s@.len() && s@[p as int] == 120 && (forall|j: int|
                0 <= j < p as int ==> s@[j] != 120));
            let q = choose|i: int|
                0 <= i < s@.len() && s@[i] == 120 && (forall|j: int| 0 <= j < i ==> s@[j] != 120);
            if q < p as int {
                assert(s@[q] != 120);
            }
            if q > p as int {
                assert(s@[p as int] != 120);
            }
        }
    }
    let swidth: &[u8] = slice_range(s, 0, p);
    let sheight: &[u8] = slice_range(s, p + 1, s.len());
    let width: u32 = match parse_u32(swidth) {
        Some(w) => w,
        None => {
            return Err(DimensionsParseError::WidthParseFail);
        },
    };
    let height: u32 = match parse_u32(sheight) {
        Some(h) => h,
        None => {
            return Err(DimensionsParseError::HeightParseFail);
        },
    };
    Ok(Dimensions(width, height))
}

/// The position of the first `x` byte, or the length when there is
/// none.
fn find_x(s: &[u8]) -> (r: usize)
    ensures
        0 <= r <= s@.len(),
        forall|j: int| 0 <= j < r as int ==> s@[j] != 120,
        r < s@.len() ==> s@[r as int] == 120,
{
    let mut p: usize = 0;
    while p < s.len()
        invariant
            0 <= p <= s@.len(),
            forall|j: int| 0 <= j < p as int ==> s@[j] != 120,
        decreases s@.len() - p,
    {
        if s[p] == 120 {
            return p;
        }
        p = p + 1;
    }
    p
}

/// The bytes of a slice between two positions.
fn slice_range<'a>(s: &'a [u8], from: usize, to: usize) -> (r: &'a [u8])
    requires
        0 <= from <= to <= s@.len(),
    ensures
        r@ == s@.subrange(from as int, to as int),
{
    vstd::slice::slice_subrange(s, from, to)
}

impl Dimensions {
    /// The width of the pair.
    pub fn width(&self) -> (r: u32)
        ensures
            r == self.0,
    {
        self.0
    }

    /// The height of the pair.
    pub fn height(&self) -> (r: u32)
        ensures
            r == self.1,
    {
        self.1
    }
}

} // verus!

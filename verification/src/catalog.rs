//! The filter catalog: one enum naming every algorithm with its
//! parameters, and the single dispatch surface that maps it to the right
//! engine invocation.

use vstd::prelude::*;
use vstd::string::StrSliceExecFns;

use crate::adaptive_threshold::{adaptive_threshold, adaptive_threshold_pix};
use crate::blur::{blur, blur_pix};
use crate::dilate::{dilate, dilate_pix};
use crate::erode::{erode, erode_pix};
use crate::local_contrast::{local_contrast, local_contrast_pix};
use crate::median_blur::{median_blur, median_pix};
use crate::min_max::{min_max, min_max_pix};
use crate::pixel::Pixel;
use crate::pixel_buffer::PixelBuffer;

verus! {

/// Every supported algorithm with its parameters: a window radius for all
/// of them, and a signed factor for adaptive threshold and local contrast.
#[derive(Clone, Copy, Debug, PartialEq, Eq, Structural)]
pub enum Algorithms {
    AdaptiveThreshold(u32, i32),
    Blur(u32),
    Dilate(u32),
    Erode(u32),
    LocalContrast(u32, i32),
    MedianBlur(u32),
    MinMax(u32),
}

/// `algo` with its radius replaced.
pub open spec fn with_radius(algo: Algorithms, radius: u32) -> Algorithms {
    match algo {
        Algorithms::AdaptiveThreshold(_, f) => Algorithms::AdaptiveThreshold(radius, f),
        Algorithms::Blur(_) => Algorithms::Blur(radius),
        Algorithms::Dilate(_) => Algorithms::Dilate(radius),
        Algorithms::Erode(_) => Algorithms::Erode(radius),
        Algorithms::LocalContrast(_, f) => Algorithms::LocalContrast(radius, f),
        Algorithms::MedianBlur(_) => Algorithms::MedianBlur(radius),
        Algorithms::MinMax(_) => Algorithms::MinMax(radius),
    }
}

/// `algo` with its factor replaced where it has one.
pub open spec fn with_factor(algo: Algorithms, factor: i32) -> Algorithms {
    match algo {
        Algorithms::AdaptiveThreshold(r, _) => Algorithms::AdaptiveThreshold(r, factor),
        Algorithms::LocalContrast(r, _) => Algorithms::LocalContrast(r, factor),
        _ => algo,
    }
}

/// The output pixel each algorithm owes at `(x, y)`.
pub open spec fn algo_pix(img: &PixelBuffer, algo: Algorithms, x: int, y: int) -> Pixel {
    match algo {
        Algorithms::AdaptiveThreshold(r, f) => adaptive_threshold_pix(
            img,
            r as int,
            f as int,
            x,
            y,
        ),
        Algorithms::Blur(r) => blur_pix(img, r as int, x, y),
        Algorithms::Dilate(r) => dilate_pix(img, r as int, x, y),
        Algorithms::Erode(r) => erode_pix(img, r as int, x, y),
        Algorithms::LocalContrast(r, f) => local_contrast_pix(img, r as int, f as int, x, y),
        Algorithms::MedianBlur(r) => median_pix(img, r as int, x, y),
        Algorithms::MinMax(r) => min_max_pix(img, r as int, x, y),
    }
}

impl Algorithms {
    /// Replace the radius, whatever the algorithm.
    pub fn set_radius(&mut self, radius: u32)
        ensures
            *final(self) == with_radius(*old(self), radius),
    {
        match self {
            Algorithms::AdaptiveThreshold(r, _) => *r = radius,
            Algorithms::Blur(r) => *r = radius,
            Algorithms::Dilate(r) => *r = radius,
            Algorithms::Erode(r) => *r = radius,
            Algorithms::LocalContrast(r, _) => *r = radius,
            Algorithms::MedianBlur(r) => *r = radius,
            Algorithms::MinMax(r) => *r = radius,
        }
    }

    /// Replace the factor on the algorithms that take one; the others are
    /// left unchanged.
    pub fn set_factor(&mut self, factor: i32)
        ensures
            *final(self) == with_factor(*old(self), factor),
    {
        match self {
            Algorithms::AdaptiveThreshold(_, f) => *f = factor,
            Algorithms::LocalContrast(_, f) => *f = factor,
            _ => {},
        }
    }

    /// Every algorithm takes a radius.
    pub fn need_radius(&self) -> (r: bool)
        ensures
            r == true,
    {
        true
    }

    /// Only adaptive threshold and local contrast take a factor.
    pub fn need_factor(&self) -> (r: bool)
        ensures
            r == (*self is AdaptiveThreshold || *self is LocalContrast),
    {
        match self {
            Algorithms::AdaptiveThreshold(..) => true,
            Algorithms::LocalContrast(..) => true,
            _ => false,
        }
    }

    /// Map an algorithm name to its catalog entry with zeroed parameters;
    /// an unknown name is rejected with `None`.
    pub fn get_algo(s: &str) -> (r: Option<Algorithms>)
        ensures
            s@ == "adaptive_threshold"@ ==> r == Some(Algorithms::AdaptiveThreshold(0u32, 0i32)),
            s@ == "blur"@ ==> r == Some(Algorithms::Blur(0u32)),
            s@ == "dilate"@ ==> r == Some(Algorithms::Dilate(0u32)),
            s@ == "erode"@ ==> r == Some(Algorithms::Erode(0u32)),
            s@ == "local_contrast"@ ==> r == Some(Algorithms::LocalContrast(0u32, 0i32)),
            s@ == "median_blur"@ ==> r == Some(Algorithms::MedianBlur(0u32)),
            s@ == "min_max"@ ==> r == Some(Algorithms::MinMax(0u32)),
            (s@ != "adaptive_threshold"@ && s@ != "blur"@ && s@ != "dilate"@ && s@ != "erode"@
                && s@ != "local_contrast"@ && s@ != "median_blur"@ && s@ != "min_max"@) ==> r
                is None,
    {
        proof {
            broadcast use vstd::string::group_string_axioms;

            reveal_strlit("adaptive_threshold");
            reveal_strlit("blur");
            reveal_strlit("dilate");
            reveal_strlit("erode");
            reveal_strlit("local_contrast");
            reveal_strlit("median_blur");
            reveal_strlit("min_max");
            // Naming each literal's length makes the seven names provably
            // pairwise distinct.
            assert("adaptive_threshold"@.len() == 18);
            assert("blur"@.len() == 4);
            assert("dilate"@.len() == 6);
            assert("erode"@.len() == 5);
            assert("local_contrast"@.len() == 14);
            assert("median_blur"@.len() == 11);
            assert("min_max"@.len() == 7);
        }
        if str_eq(s, "adaptive_threshold") {
            Some(Algorithms::AdaptiveThreshold(0, 0))
        } else if str_eq(s, "blur") {
            Some(Algorithms::Blur(0))
        } else if str_eq(s, "dilate") {
            Some(Algorithms::Dilate(0))
        } else if str_eq(s, "erode") {
            Some(Algorithms::Erode(0))
        } else if str_eq(s, "local_contrast") {
            Some(Algorithms::LocalContrast(0, 0))
        } else if str_eq(s, "median_blur") {
            Some(Algorithms::MedianBlur(0))
        } else if str_eq(s, "min_max") {
            Some(Algorithms::MinMax(0))
        } else {
            None
        }
    }

    /// The algorithm's display name.
    pub fn name(&self) -> (r: &'static str)
        ensures
            *self is AdaptiveThreshold ==> r@ == "adaptive threshold"@,
            *self is Blur ==> r@ == "blur"@,
            *self is Dilate ==> r@ == "dilate"@,
            *self is Erode ==> r@ == "erode"@,
            *self is LocalContrast ==> r@ == "local contrast"@,
            *self is MedianBlur ==> r@ == "median blur"@,
            *self is MinMax ==> r@ == "min max"@,
    {
        match self {
            Algorithms::AdaptiveThreshold(..) => "adaptive threshold",
            Algorithms::Blur(_) => "blur",
            Algorithms::Dilate(_) => "dilate",
            Algorithms::Erode(_) => "erode",
            Algorithms::LocalContrast(..) => "local contrast",
            Algorithms::MedianBlur(_) => "median blur",
            Algorithms::MinMax(_) => "min max",
        }
    }
}

/// Character-by-character string equality.
fn str_eq(a: &str, b: &str) -> (r: bool)
    ensures
        r == (a@ == b@),
{
    let al = a.unicode_len();
    let bl = b.unicode_len();
    if al != bl {
        return false;
    }
    let mut i: usize = 0;
    while i < al
        invariant
            al == a@.len(),
            al == b@.len(),
            0 <= i <= al,
            forall|j: int| 0 <= j < i ==> a@[j] == b@[j],
        decreases al - i,
    {
        if a.get_char(i) != b.get_char(i) {
            return false;
        }
        i = i + 1;
    }
    proof {
        assert(a@ =~= b@);
    }
    true
}

/// Run the selected algorithm on a raster: the single dispatch surface.
pub fn run_algo(img: &PixelBuffer, algo: &Algorithms) -> (out: PixelBuffer)
    requires
        img.wf(),
    ensures
        out.wf(),
        out.width == img.width,
        out.height == img.height,
        forall|x: int, y: int|
            0 <= x < img.width && 0 <= y < img.height ==> out.pix_at(x, y) == algo_pix(
                img,
                *algo,
                x,
                y,
            ),
{
    match algo {
        Algorithms::AdaptiveThreshold(radius, f) => adaptive_threshold(img, *radius, *f),
        Algorithms::Blur(radius) => blur(img, *radius),
        Algorithms::Dilate(radius) => dilate(img, *radius),
        Algorithms::Erode(radius) => erode(img, *radius),
        Algorithms::LocalContrast(radius, factor) => local_contrast(img, *radius, *factor),
        Algorithms::MedianBlur(radius) => median_blur(img, *radius),
        Algorithms::MinMax(radius) => min_max(img, *radius),
    }
}


/// Whether `c` is a decimal digit.
pub open spec fn is_digit(c: char) -> bool {
    '0' as int <= c as int <= '9' as int
}

/// The numeric value of one decimal digit.
pub open spec fn digit_val(c: char) -> int {
    c as int - '0' as int
}

/// Whether every character of `s` is a decimal digit.
pub open spec fn all_digits(s: Seq<char>) -> bool {
    forall|i: int| 0 <= i < s.len() ==> is_digit(#[trigger] s[i])
}

/// The number a digit string denotes, most significant digit first.
pub open spec fn dec_value(s: Seq<char>) -> int
    decreases s.len(),
{
    if s.len() == 0 {
        0
    } else {
        dec_value(s.drop_last()) * 10 + digit_val(s.last())
    }
}

/// A digit string denotes a nonnegative number.
proof fn lemma_dec_value_nonneg(s: Seq<char>)
    requires
        all_digits(s),
    ensures
        dec_value(s) >= 0,
    decreases s.len(),
{
    if s.len() > 0 {
        assert(all_digits(s.drop_last()));
        lemma_dec_value_nonneg(s.drop_last());
    }
}

/// Extending a digit string never shrinks its value.
proof fn lemma_dec_value_grows(s: Seq<char>, i: int)
    requires
        all_digits(s),
        0 <= i <= s.len(),
    ensures
        dec_value(s.subrange(0, i)) <= dec_value(s),
    decreases s.len() - i,
{
    if i < s.len() {
        lemma_dec_value_grows(s, i + 1);
        let p = s.subrange(0, i);
        let q = s.subrange(0, i + 1);
        assert(q.drop_last() =~= p);
        assert(all_digits(p));
        lemma_dec_value_nonneg(p);
        assert(dec_value(q) == dec_value(p) * 10 + digit_val(q.last()));
        assert(dec_value(p) <= dec_value(p) * 10) by (nonlinear_arith)
            requires
                dec_value(p) >= 0,
        ;
    } else {
        assert(s.subrange(0, i) =~= s);
    }
}

/// Parse a digit string into a value of at most `u32::MAX`. Succeeds
/// exactly on nonempty all-digit strings whose value fits; no sign and no
/// surrounding whitespace is accepted.
fn parse_dec(s: &str) -> (r: Option<u64>)
    ensures
        r is Some <==> (s@.len() > 0 && all_digits(s@) && dec_value(s@) <= u32::MAX),
        r is Some ==> r->Some_0 == dec_value(s@),
{
    let n = s.unicode_len();
    if n == 0 {
        return None;
    }
    let mut acc: u64 = 0;
    let mut i: usize = 0;
    while i < n
        invariant
            n == s@.len(),
            0 <= i <= n,
            all_digits(s@.subrange(0, i as int)),
            acc == dec_value(s@.subrange(0, i as int)),
            acc <= u32::MAX,
        decreases n - i,
    {
        let c = s.get_char(i);
        let code = c as u32;
        if code < 48 || code > 57 {
            proof {
                assert(!is_digit(s@[i as int]));
            }
            return None;
        }
        let d: u64 = (code - 48) as u64;
        let next: u64 = acc * 10 + d;
        proof {
            let p = s@.subrange(0, i as int);
            let q = s@.subrange(0, i as int + 1);
            assert(q.drop_last() =~= p);
            assert(q.last() == s@[i as int]);
            assert(all_digits(q));
            assert(next == dec_value(q));
        }
        if next > 0xffff_ffff {
            proof {
                if all_digits(s@) {
                    lemma_dec_value_grows(s@, i as int + 1);
                }
            }
            return None;
        }
        acc = next;
        i = i + 1;
    }
    proof {
        assert(s@.subrange(0, n as int) =~= s@);
    }
    Some(acc)
}

/// Parse a radius: a plain decimal number that fits an unsigned 32-bit
/// integer. Succeeds exactly on nonempty all-digit strings in range.
pub fn parse_u32(s: &str) -> (r: Option<u32>)
    ensures
        r is Some <==> (s@.len() > 0 && all_digits(s@) && dec_value(s@) <= u32::MAX),
        r is Some ==> r->Some_0 == dec_value(s@),
{
    match parse_dec(s) {
        Some(v) => Some(v as u32),
        None => None,
    }
}

/// The signed number a string denotes: an optional leading minus sign,
/// then decimal digits.
pub open spec fn int_value(s: Seq<char>) -> int {
    if s.len() > 0 && s[0] == '-' {
        -dec_value(s.subrange(1, s.len() as int))
    } else {
        dec_value(s)
    }
}

/// Whether a string is a well-formed signed decimal number whose value
/// fits a signed 32-bit integer.
pub open spec fn valid_i32(s: Seq<char>) -> bool {
    if s.len() > 0 && s[0] == '-' {
        let digits = s.subrange(1, s.len() as int);
        digits.len() > 0 && all_digits(digits) && -dec_value(digits) >= i32::MIN
    } else {
        s.len() > 0 && all_digits(s) && dec_value(s) <= i32::MAX
    }
}

/// Parse a factor: an optional leading minus sign and decimal digits, with
/// the value fitting a signed 32-bit integer. Succeeds exactly on such
/// strings.
pub fn parse_i32(s: &str) -> (r: Option<i32>)
    ensures
        r is Some <==> valid_i32(s@),
        r is Some ==> r->Some_0 == int_value(s@),
{
    let n = s.unicode_len();
    if n > 0 && s.get_char(0) == '-' {
        let digits = s.substring_char(1, n);
        match parse_dec(digits) {
            Some(v) => {
                if v > 0x8000_0000 {
                    None
                } else {
                    Some((-(v as i64)) as i32)
                }
            },
            None => None,
        }
    } else {
        match parse_dec(s) {
            Some(v) => {
                if v > 0x7fff_ffff {
                    None
                } else {
                    Some(v as i32)
                }
            },
            None => None,
        }
    }
}

} // verus!

//! Fixed-point text made fit for a display.
//!
//! A result is shown with at most [`FRACTION_DIGITS`] digits behind the
//! decimal point.  Printed with exactly that many, it usually ends in zeros
//! that say nothing; [`strip_fraction`] removes them, and the decimal point
//! with them if no digit is left behind it.
use crate::lexer::{chars_of, is_digit, is_negated};
use vstd::prelude::*;

verus! {

/// The number of fraction digits that a result is printed with before it is
/// stripped.
pub const FRACTION_DIGITS: usize = 8;

/// What kind of number a result is, as far as its display goes.
#[derive(Clone, Copy, Debug, PartialEq, Eq, Structural)]
pub enum Shape {
    /// No number at all: the result of an operation without one, such as
    /// zero divided by zero in arithmetic that knows no error.
    NotANumber,
    /// A number without a fractional part.
    Whole,
    /// Any other number.
    Fractional,
}

impl Shape {
    /// The number of fraction digits to print a result of this shape with
    /// before it is handed to [`render`].
    pub open spec fn spec_fraction_digits(self) -> usize {
        if self == Shape::Whole {
            0
        } else {
            FRACTION_DIGITS
        }
    }

    /// The number of fraction digits to print a result of this shape with
    /// before it is handed to [`render`].
    #[verifier::when_used_as_spec(spec_fraction_digits)]
    pub fn fraction_digits(self) -> (digits: usize)
        ensures
            digits == self.spec_fraction_digits(),
    {
        match self {
            Shape::Whole => 0,
            _ => FRACTION_DIGITS,
        }
    }
}

/// What the display shows for a result of `shape` that prints as `printed`.
pub open spec fn rendered(shape: Shape, printed: Seq<char>) -> Seq<char> {
    match shape {
        Shape::NotANumber => "Error"@,
        Shape::Whole => printed,
        Shape::Fractional => stripped(printed),
    }
}

/// `text` without the run of `c` at its end.
pub open spec fn without_trailing(text: Seq<char>, c: char) -> Seq<char>
    decreases text.len(),
{
    if text.len() > 0 && text.last() == c {
        without_trailing(text.drop_last(), c)
    } else {
        text
    }
}

/// `text` without the zeros at its end, and then without the decimal points
/// at the end of what is left.
pub open spec fn stripped(text: Seq<char>) -> Seq<char> {
    without_trailing(without_trailing(text, '0'), '.')
}

/// Whether `c` occurs in `text`.
pub open spec fn occurs(text: Seq<char>, c: char) -> bool {
    exists|i: int| 0 <= i < text.len() && #[trigger] text[i] == c
}

/// Whether `text` holds nothing but `c`.
pub open spec fn all_are(text: Seq<char>, c: char) -> bool {
    forall|i: int| 0 <= i < text.len() ==> #[trigger] text[i] == c
}

/// What is left when a trailing run is removed is the front part of the
/// text, does not end in the character removed, and is the whole text if the
/// text did not end in it.
pub proof fn lemma_without_trailing(text: Seq<char>, c: char)
    ensures
        without_trailing(text, c).len() <= text.len(),
        without_trailing(text, c) == text.take(without_trailing(text, c).len() as int),
        all_are(text.skip(without_trailing(text, c).len() as int), c),
        without_trailing(text, c).len() > 0 ==> without_trailing(text, c).last() != c,
        without_trailing(without_trailing(text, c), c) == without_trailing(text, c),
    decreases text.len(),
{
    if text.len() > 0 && text.last() == c {
        let front = text.drop_last();
        lemma_without_trailing(front, c);
        let kept = without_trailing(front, c).len() as int;
        assert(front.take(kept) =~= text.take(kept));
        assert forall|i: int| 0 <= i < text.skip(kept).len() implies #[trigger] text.skip(kept)[i]
            == c by {
            if i < front.skip(kept).len() {
                assert(front.skip(kept)[i] == c);
            }
        }
    } else {
        assert(text.take(text.len() as int) =~= text);
    }
}

/// A trailing run behind other text is removed without touching that text,
/// as long as something else stands at the end of what remains.
pub proof fn lemma_without_trailing_append(front: Seq<char>, tail: Seq<char>, c: char)
    requires
        !all_are(tail, c),
    ensures
        without_trailing(front + tail, c) == front + without_trailing(tail, c),
        without_trailing(tail, c).len() > 0,
    decreases tail.len(),
{
    let text = front + tail;
    assert(tail.len() > 0);
    assert(text.last() == tail.last());
    if tail.last() == c {
        assert(text.drop_last() =~= front + tail.drop_last());
        assert(!all_are(tail.drop_last(), c)) by {
            if all_are(tail.drop_last(), c) {
                assert forall|i: int| 0 <= i < tail.len() implies #[trigger] tail[i] == c by {
                    if i < tail.len() - 1 {
                        assert(tail.drop_last()[i] == c);
                    }
                }
            }
        }
        lemma_without_trailing_append(front, tail.drop_last(), c);
    }
}

/// A run of nothing but `c` is removed whole.
pub proof fn lemma_without_trailing_all(front: Seq<char>, tail: Seq<char>, c: char)
    requires
        all_are(tail, c),
    ensures
        without_trailing(front + tail, c) == without_trailing(front, c),
    decreases tail.len(),
{
    let text = front + tail;
    if tail.len() == 0 {
        assert(text =~= front);
    } else {
        assert(text.last() == tail.last() == tail[tail.len() - 1]);
        assert(text.drop_last() =~= front + tail.drop_last());
        assert forall|i: int| 0 <= i < tail.drop_last().len() implies #[trigger] tail.drop_last()[i]
            == c by {
            assert(tail[i] == c);
        }
        lemma_without_trailing_all(front, tail.drop_last(), c);
    }
}

/// What stripping leaves of a fixed-point numeral, `whole`, a decimal point
/// and `fraction`: if the fraction is nothing but zeros, `whole` alone;
/// otherwise `whole`, the point and the fraction up to its last digit that is
/// not a zero.  So no zero is shown that the value does not need, and no
/// decimal point without a digit behind it.
pub proof fn lemma_strip_fixed_point(whole: Seq<char>, fraction: Seq<char>)
    requires
        !(whole.len() > 0 && whole.last() == '.'),
        !occurs(fraction, '.'),
    ensures
        stripped(whole + seq!['.'] + fraction) == (if all_are(fraction, '0') {
            whole
        } else {
            whole + seq!['.'] + without_trailing(fraction, '0')
        }),
        !all_are(fraction, '0') ==> without_trailing(fraction, '0').len() > 0
            && without_trailing(fraction, '0').last() != '0',
{
    let head = whole + seq!['.'];
    if all_are(fraction, '0') {
        lemma_without_trailing_all(head, fraction, '0');
        assert(head.last() == '.');
        assert(without_trailing(head, '0') == head);
        lemma_without_trailing_all(whole, seq!['.'], '.');
    } else {
        lemma_without_trailing_append(head, fraction, '0');
        lemma_without_trailing(fraction, '0');
        let digits = without_trailing(fraction, '0');
        let left = head + digits;
        assert(digits == fraction.take(digits.len() as int));
        assert(left.last() == digits.last() == fraction[digits.len() - 1]);
        assert(left.last() != '.');
    }
}

/// Stripping what was stripped changes nothing, as long as a fraction is
/// left to protect the digits in front of the decimal point.
pub proof fn lemma_strip_twice(whole: Seq<char>, fraction: Seq<char>)
    requires
        !occurs(fraction, '.'),
        !all_are(fraction, '0'),
    ensures
        stripped(stripped(whole + seq!['.'] + fraction)) == stripped(
            whole + seq!['.'] + fraction,
        ),
{
    let head = whole + seq!['.'];
    lemma_without_trailing_append(head, fraction, '0');
    lemma_without_trailing(fraction, '0');
    let digits = without_trailing(fraction, '0');
    let left = head + digits;
    assert(digits == fraction.take(digits.len() as int));
    assert(left.last() == digits.last() == fraction[digits.len() - 1]);
    assert(without_trailing(left, '.') == left);
    assert(without_trailing(left, '0') == left);
}

/// Whether `text` is a whole number in decimal digits, with or without a
/// minus sign.
pub open spec fn is_whole_number(text: Seq<char>) -> bool {
    let start: int = if is_negated(text) { 1 } else { 0 };
    &&& start < text.len()
    &&& forall|i: int| start <= i < text.len() ==> is_digit(#[trigger] text[i])
}

/// Whether `text` is nothing but digits.
pub open spec fn is_digits(text: Seq<char>) -> bool {
    forall|i: int| 0 <= i < text.len() ==> is_digit(#[trigger] text[i])
}

/// What a number prints as in fixed-point notation: the whole part alone
/// where no fraction digits are asked for, else the whole part, a decimal
/// point and the fraction digits.
pub open spec fn fixed_point(shape: Shape, whole: Seq<char>, fraction: Seq<char>) -> Seq<char> {
    if shape == Shape::Whole {
        whole
    } else {
        whole + seq!['.'] + fraction
    }
}

/// What the display shows of a number is the number as printed, less the
/// zeros at the end of its fraction and less a decimal point with nothing
/// behind it: the digits in front of the decimal point are all there, what
/// is left out is zeros and the point, and what is shown ends neither in the
/// decimal point nor, behind it, in a zero.
pub proof fn lemma_rendered_minimal(shape: Shape, whole: Seq<char>, fraction: Seq<char>)
    requires
        shape != Shape::NotANumber,
        is_whole_number(whole),
        is_digits(fraction),
    ensures
        ({
            let printed = fixed_point(shape, whole, fraction);
            let shown = rendered(shape, printed);
            &&& whole.len() <= shown.len() <= printed.len()
            &&& shown == printed.take(shown.len() as int)
            &&& forall|i: int|
                shown.len() <= i < printed.len() ==> #[trigger] printed[i] == '0' || printed[i]
                    == '.'
            &&& shown.last() != '.'
            &&& shown.len() > whole.len() ==> shown.last() != '0'
        }),
{
    let printed = fixed_point(shape, whole, fraction);
    let shown = rendered(shape, printed);
    let start: int = if is_negated(whole) { 1 } else { 0 };
    assert(is_digit(whole[whole.len() - 1]));
    if shape == Shape::Whole {
        assert(printed.take(printed.len() as int) =~= printed);
    } else {
        assert(!occurs(fraction, '.')) by {
            if occurs(fraction, '.') {
                let i = choose|i: int| 0 <= i < fraction.len() && #[trigger] fraction[i] == '.';
                assert(is_digit(fraction[i]));
            }
        }
        lemma_strip_fixed_point(whole, fraction);
        if all_are(fraction, '0') {
            assert(shown =~= printed.take(whole.len() as int));
            assert forall|i: int| shown.len() <= i < printed.len() implies #[trigger] printed[i]
                == '0' || printed[i] == '.' by {
                if i > whole.len() {
                    assert(printed[i] == fraction[i - whole.len() - 1]);
                }
            }
        } else {
            lemma_without_trailing(fraction, '0');
            let digits = without_trailing(fraction, '0');
            assert(shown =~= printed.take(shown.len() as int));
            assert forall|i: int| shown.len() <= i < printed.len() implies #[trigger] printed[i]
                == '0' || printed[i] == '.' by {
                let k = i - whole.len() - 1;
                assert(printed[i] == fraction[k]);
                assert(fraction.skip(digits.len() as int)[k - digits.len()] == '0');
            }
            assert(shown.last() == digits.last());
            assert(digits.last() == fraction[digits.len() - 1]);
            assert(is_digit(fraction[digits.len() - 1]));
        }
    }
}

/// Where the run of `c` that ends in front of position `end` starts.
fn trailing_start(chars: &Vec<char>, end: usize, c: char) -> (start: usize)
    requires
        end <= chars.len(),
    ensures
        start <= end,
        chars@.take(start as int) == without_trailing(chars@.take(end as int), c),
{
    let mut start: usize = end;
    while start > 0 && chars[start - 1] == c
        invariant
            start <= end <= chars.len(),
            without_trailing(chars@.take(start as int), c) == without_trailing(
                chars@.take(end as int),
                c,
            ),
        decreases start,
    {
        assert(chars@.take(start as int).drop_last() =~= chars@.take(start - 1));
        start -= 1;
    }
    start
}

/// Removes the zeros at the end of `text`, and then a decimal point that
/// has become the last character.  Meant for fixed-point text, which has a
/// decimal point; from text without one it would take the zeros of the
/// number itself.
pub fn strip_fraction(text: &str) -> (short: String)
    ensures
        short@ == stripped(text@),
        short@ == text@.take(short@.len() as int),
{
    let chars = chars_of(text);
    let digits = trailing_start(&chars, chars.len(), '0');
    let keep = trailing_start(&chars, digits, '.');
    proof {
        assert(chars@.take(chars.len() as int) =~= chars@);
        assert(chars@.take(digits as int).take(keep as int) =~= chars@.take(keep as int));
        assert(text@.subrange(0, keep as int) =~= text@.take(keep as int));
    }
    text.substring_char(0, keep).to_owned()
}

/// The text that the display shows for a result of `shape` that prints as
/// `printed` in fixed-point notation: `Error` in place of what is no number,
/// a whole number as printed, any other number without the zeros at its end.
pub fn render(shape: Shape, printed: &str) -> (shown: String)
    ensures
        shown@ == rendered(shape, printed@),
{
    match shape {
        Shape::NotANumber => "Error".to_owned(),
        Shape::Whole => printed.to_owned(),
        Shape::Fractional => strip_fraction(printed),
    }
}

} // verus!

//! The line that the calculator shows, and what each key does to it.
//!
//! The line holds the expression while it is typed and its value once `=`
//! was pressed.  Keys are known by their labels: the digits and the two
//! parentheses, `.`, `C`, `+/-`, `%`, the five operators and `=`.  Computing
//! the value is the caller's part: [`Readout::press`] answers `=` with
//! [`Effect::Evaluate`], and the caller hands the text to show to
//! [`Readout::show`].
use crate::decimal::occurs;
use crate::lexer::{chars_of, is_digit, is_numeral_char, is_numeral_part};
use crate::operator::Operator;
use vstd::prelude::*;
use vstd::string::*;
use vstd::utf8::encode_utf8;

verus! {

/// What the line shows, as a mathematical value.
pub struct ReadoutView {
    /// The characters on the line.
    pub text: Seq<char>,
    /// Whether the line shows the outcome of an evaluation, which the next
    /// digit replaces.
    pub is_result: bool,
}

/// A key of the calculator.
#[derive(Clone, Copy, Debug, PartialEq, Eq, Structural)]
pub enum Key {
    /// A digit or a parenthesis: what is typed as it is.
    Symbol,
    /// `.`
    Point,
    /// `C`
    Clear,
    /// `+/-`
    Sign,
    /// `%`
    Percent,
    /// One of `+ - * / ^`.
    Operator(Operator),
    /// `=`
    Equals,
}

/// What a key leaves for the caller to do.
#[derive(Clone, Copy, Debug, PartialEq, Eq, Structural)]
pub enum Effect {
    /// Nothing.
    Nothing,
    /// The line was cleared: what the caller remembers of the last
    /// evaluation goes too.
    Cleared,
    /// The value of the line is asked for.
    Evaluate,
}

/// The key that carries `label`, if there is one.
pub open spec fn key_of(label: Seq<char>) -> Option<Key> {
    if label.len() == 1 {
        let c = label[0];
        if is_digit(c) || c == '(' || c == ')' {
            Some(Key::Symbol)
        } else if c == '.' {
            Some(Key::Point)
        } else if c == 'C' {
            Some(Key::Clear)
        } else if c == '%' {
            Some(Key::Percent)
        } else if c == '=' {
            Some(Key::Equals)
        } else {
            match Operator::spec_from_symbol(c) {
                Ok(operator) => Some(Key::Operator(operator)),
                Err(_) => None,
            }
        }
    } else if label == seq!['+', '/', '-'] {
        Some(Key::Sign)
    } else {
        None
    }
}

/// What the key with `label` leaves for the caller to do.
pub open spec fn effect_of(label: Seq<char>) -> Effect {
    match key_of(label) {
        Some(Key::Clear) => Effect::Cleared,
        Some(Key::Equals) => Effect::Evaluate,
        _ => Effect::Nothing,
    }
}

/// The characters that end a number on the line: operators and parentheses.
pub open spec fn is_separator(c: char) -> bool {
    c == '+' || c == '-' || c == '*' || c == '/' || c == '^' || c == '(' || c == ')'
}

/// The white space of Unicode.
pub open spec fn is_white_space(c: char) -> bool {
    ||| '\u{9}' <= c <= '\u{d}'
    ||| c == ' '
    ||| c == '\u{85}'
    ||| c == '\u{a0}'
    ||| c == '\u{1680}'
    ||| '\u{2000}' <= c <= '\u{200a}'
    ||| c == '\u{2028}'
    ||| c == '\u{2029}'
    ||| c == '\u{202f}'
    ||| c == '\u{205f}'
    ||| c == '\u{3000}'
}

/// The position of the last separator in `text`, or -1 if there is none.
pub open spec fn last_separator(text: Seq<char>) -> int
    decreases text.len(),
{
    if text.len() == 0 {
        -1
    } else if is_separator(text.last()) {
        text.len() - 1
    } else {
        last_separator(text.drop_last())
    }
}

/// The position of the last character of `text` that is neither a digit nor
/// a decimal point, or -1 if there is none.
pub open spec fn last_outside_number(text: Seq<char>) -> int
    decreases text.len(),
{
    if text.len() == 0 {
        -1
    } else if !is_numeral_char(text.last()) {
        text.len() - 1
    } else {
        last_outside_number(text.drop_last())
    }
}

/// `text` without the white space at its start.
pub open spec fn trim_start(text: Seq<char>) -> Seq<char>
    decreases text.len(),
{
    if text.len() > 0 && is_white_space(text.first()) {
        trim_start(text.drop_first())
    } else {
        text
    }
}

/// `text` without the white space at its end.
pub open spec fn trim_end(text: Seq<char>) -> Seq<char>
    decreases text.len(),
{
    if text.len() > 0 && is_white_space(text.last()) {
        trim_end(text.drop_last())
    } else {
        text
    }
}

/// `text` without its last character, if it has one.
pub open spec fn without_last(text: Seq<char>) -> Seq<char> {
    if text.len() > 0 {
        text.drop_last()
    } else {
        text
    }
}

/// The last separator is a separator, and none stands behind it.
pub proof fn lemma_last_separator(text: Seq<char>)
    ensures
        -1 <= last_separator(text) < text.len(),
        last_separator(text) >= 0 ==> is_separator(text[last_separator(text)]),
        forall|i: int| last_separator(text) < i < text.len() ==> !is_separator(#[trigger] text[i]),
    decreases text.len(),
{
    if text.len() > 0 && !is_separator(text.last()) {
        let front = text.drop_last();
        lemma_last_separator(front);
        assert forall|i: int| last_separator(text) < i < text.len() implies !is_separator(
            #[trigger] text[i],
        ) by {
            if i < front.len() {
                assert(!is_separator(front[i]));
            }
        }
    }
}

/// Behind the last character that is neither a digit nor a decimal point
/// stand digits and decimal points only.
pub proof fn lemma_last_outside_number(text: Seq<char>)
    ensures
        -1 <= last_outside_number(text) < text.len(),
        last_outside_number(text) >= 0 ==> !is_numeral_char(text[last_outside_number(text)]),
        forall|i: int|
            last_outside_number(text) < i < text.len() ==> is_numeral_char(#[trigger] text[i]),
    decreases text.len(),
{
    if text.len() > 0 && is_numeral_char(text.last()) {
        let front = text.drop_last();
        lemma_last_outside_number(front);
        assert forall|i: int| last_outside_number(text) < i < text.len() implies is_numeral_char(
            #[trigger] text[i],
        ) by {
            if i < front.len() {
                assert(is_numeral_char(front[i]));
            }
        }
    }
}

/// What is left of a text without the white space at its ends is a part of
/// the text, and neither starts nor ends with white space.
pub proof fn lemma_trim(text: Seq<char>)
    ensures
        ({
            let left = trim_end(trim_start(text));
            &&& left.len() > 0 ==> !is_white_space(left.first()) && !is_white_space(left.last())
            &&& exists|from: int, to: int|
                0 <= from <= to <= text.len() && left == text.subrange(from, to)
        }),
{
    lemma_trim_start(text);
    let inner = trim_start(text);
    lemma_trim_end(inner);
    let left = trim_end(inner);
    let from = text.len() - inner.len();
    let to = from + left.len();
    assert(left =~= text.subrange(from, to));
}

/// What is left without the white space at the start is the end part of the
/// text and does not start with white space.
pub proof fn lemma_trim_start(text: Seq<char>)
    ensures
        trim_start(text).len() <= text.len(),
        trim_start(text) == text.skip(text.len() - trim_start(text).len()),
        trim_start(text).len() > 0 ==> !is_white_space(trim_start(text).first()),
    decreases text.len(),
{
    if text.len() > 0 && is_white_space(text.first()) {
        let rest = text.drop_first();
        lemma_trim_start(rest);
        assert(rest.skip(rest.len() - trim_start(rest).len()) =~= text.skip(
            text.len() - trim_start(rest).len(),
        ));
    } else {
        assert(text.skip(0) =~= text);
    }
}

/// What is left without the white space at the end is the front part of the
/// text and does not end with white space.
pub proof fn lemma_trim_end(text: Seq<char>)
    ensures
        trim_end(text).len() <= text.len(),
        trim_end(text) == text.take(trim_end(text).len() as int),
        trim_end(text).len() > 0 ==> !is_white_space(trim_end(text).last()),
        trim_end(text).len() > 0 ==> trim_end(text).first() == text.first(),
    decreases text.len(),
{
    if text.len() > 0 && is_white_space(text.last()) {
        let front = text.drop_last();
        lemma_trim_end(front);
        assert(front.take(trim_end(front).len() as int) =~= text.take(
            trim_end(front).len() as int,
        ));
    } else {
        assert(text.take(text.len() as int) =~= text);
    }
}

impl ReadoutView {
    /// The line of a calculator that was just switched on or cleared: a
    /// zero.
    pub open spec fn cleared() -> ReadoutView {
        ReadoutView { text: seq!['0'], is_result: false }
    }

    /// A digit or a parenthesis is typed: it replaces a result or a lone
    /// zero, and goes behind anything else.
    pub open spec fn typed(self, label: Seq<char>) -> ReadoutView {
        if self.is_result || self.text == seq!['0'] {
            ReadoutView { text: label, is_result: false }
        } else {
            ReadoutView { text: self.text + label, ..self }
        }
    }

    /// The decimal point goes behind the line unless the number at its end,
    /// which starts behind the last operator or parenthesis, has one.
    pub open spec fn with_point(self) -> ReadoutView {
        if occurs(self.text.skip(last_separator(self.text) + 1), '.') {
            self
        } else {
            ReadoutView { text: self.text.push('.'), ..self }
        }
    }

    /// A minus sign goes in front of the digits and decimal points at the
    /// end of the line.  A lone zero stays as it is.
    pub open spec fn with_sign(self) -> ReadoutView {
        let at = last_outside_number(self.text) + 1;
        if self.text == seq!['0'] {
            self
        } else {
            ReadoutView { text: self.text.take(at).push('-') + self.text.skip(at), ..self }
        }
    }

    /// The percent sign goes behind a digit or a closing parenthesis, and
    /// nowhere else.
    pub open spec fn with_percent(self) -> ReadoutView {
        if self.text.len() > 0 && (is_digit(self.text.last()) || self.text.last() == ')') {
            ReadoutView { text: self.text.push('%'), ..self }
        } else {
            self
        }
    }

    /// An operator goes behind the line, which loses the white space at its
    /// ends first, with a space on either side.  A result becomes the start
    /// of a new expression.
    pub open spec fn with_operator(self, operator: Operator) -> ReadoutView {
        ReadoutView {
            text: trim_end(trim_start(self.text)) + seq![' ', operator.spec_symbol(), ' '],
            is_result: false,
        }
    }

    /// The line after the key with `label`.  `=` and what is no key leave it
    /// as it is.
    pub open spec fn pressed(self, label: Seq<char>) -> ReadoutView {
        match key_of(label) {
            Some(Key::Symbol) => self.typed(label),
            Some(Key::Point) => self.with_point(),
            Some(Key::Clear) => ReadoutView::cleared(),
            Some(Key::Sign) => self.with_sign(),
            Some(Key::Percent) => self.with_percent(),
            Some(Key::Operator(operator)) => self.with_operator(operator),
            Some(Key::Equals) | None => self,
        }
    }

    /// The line after the backspace key: a result is cleared; of an
    /// expression that takes more than one byte the last character goes, and
    /// if that was a space, the one in front of it too; a shorter one is
    /// cleared.
    pub open spec fn erased(self) -> ReadoutView {
        if self.is_result {
            ReadoutView::cleared()
        } else if encode_utf8(self.text).len() > 1 {
            let once = without_last(self.text);
            if self.text.len() > 0 && self.text.last() == ' ' {
                ReadoutView { text: without_last(once), ..self }
            } else {
                ReadoutView { text: once, ..self }
            }
        } else {
            ReadoutView::cleared()
        }
    }
}

/// The line that the calculator shows.
#[derive(Debug, PartialEq, Eq)]
pub struct Readout {
    /// The characters on the line.
    pub text: String,
    /// Whether the line shows the outcome of an evaluation, which the next
    /// digit replaces.
    pub is_result: bool,
}

impl View for Readout {
    type V = ReadoutView;

    open spec fn view(&self) -> ReadoutView {
        ReadoutView { text: self.text@, is_result: self.is_result }
    }
}

/// Reads the label of a key.
pub fn key_from_label(label: &str) -> (key: Option<Key>)
    ensures
        key == key_of(label@),
{
    let length = label.unicode_len();
    if length == 1 {
        let c = label.get_char(0);
        if ('0' <= c && c <= '9') || c == '(' || c == ')' {
            Some(Key::Symbol)
        } else if c == '.' {
            Some(Key::Point)
        } else if c == 'C' {
            Some(Key::Clear)
        } else if c == '%' {
            Some(Key::Percent)
        } else if c == '=' {
            Some(Key::Equals)
        } else {
            match Operator::from_symbol(c) {
                Ok(operator) => Some(Key::Operator(operator)),
                Err(_) => None,
            }
        }
    } else if length == 3 && label.get_char(0) == '+' && label.get_char(1) == '/' && label.get_char(
        2,
    ) == '-' {
        assert(label@ =~= seq!['+', '/', '-']);
        Some(Key::Sign)
    } else {
        assert(label@ != seq!['+', '/', '-']) by {
            if label@ == seq!['+', '/', '-'] {
                assert(seq!['+', '/', '-'].len() == 3);
                assert(seq!['+', '/', '-'][0] == '+');
                assert(seq!['+', '/', '-'][1] == '/');
                assert(seq!['+', '/', '-'][2] == '-');
            }
        }
        None
    }
}

/// Whether `c` is white space.
pub fn is_white_space_char(c: char) -> (space: bool)
    ensures
        space == is_white_space(c),
{
    ('\u{9}' <= c && c <= '\u{d}') || c == ' ' || c == '\u{85}' || c == '\u{a0}' || c
        == '\u{1680}' || ('\u{2000}' <= c && c <= '\u{200a}') || c == '\u{2028}' || c
        == '\u{2029}' || c == '\u{202f}' || c == '\u{205f}' || c == '\u{3000}'
}

/// Whether `text` is a lone zero.
fn is_zero(text: &str) -> (zero: bool)
    ensures
        zero == (text@ == seq!['0']),
{
    if text.unicode_len() == 1 && text.get_char(0) == '0' {
        assert(text@ =~= seq!['0']);
        true
    } else {
        assert(seq!['0'].len() == 1 && seq!['0'][0] == '0');
        false
    }
}

/// One more than the position of the last separator: where the number at
/// the end of the line starts.
fn number_start(chars: &Vec<char>) -> (start: usize)
    ensures
        start == last_separator(chars@) + 1,
        start <= chars.len(),
{
    let mut end: usize = chars.len();
    assert(chars@.take(end as int) =~= chars@);
    while end > 0
        invariant
            end <= chars.len(),
            last_separator(chars@.take(end as int)) == last_separator(chars@),
        decreases end,
    {
        let c = chars[end - 1];
        if c == '+' || c == '-' || c == '*' || c == '/' || c == '^' || c == '(' || c == ')' {
            return end;
        }
        assert(chars@.take(end as int).drop_last() =~= chars@.take(end - 1));
        end -= 1;
    }
    0
}

/// One more than the position of the last character that is neither a digit
/// nor a decimal point: where the digits at the end of the line start.
fn digits_start(chars: &Vec<char>) -> (start: usize)
    ensures
        start == last_outside_number(chars@) + 1,
        start <= chars.len(),
{
    let mut end: usize = chars.len();
    assert(chars@.take(end as int) =~= chars@);
    while end > 0
        invariant
            end <= chars.len(),
            last_outside_number(chars@.take(end as int)) == last_outside_number(chars@),
        decreases end,
    {
        if !is_numeral_part(chars[end - 1]) {
            return end;
        }
        assert(chars@.take(end as int).drop_last() =~= chars@.take(end - 1));
        end -= 1;
    }
    0
}

/// Whether `c` stands at or behind position `from`.
fn occurs_from(chars: &Vec<char>, from: usize, c: char) -> (found: bool)
    requires
        from <= chars.len(),
    ensures
        found == occurs(chars@.skip(from as int), c),
{
    let mut i: usize = from;
    while i < chars.len()
        invariant
            from <= i <= chars.len(),
            forall|k: int| from <= k < i ==> chars@[k] != c,
        decreases chars.len() - i,
    {
        if chars[i] == c {
            assert(chars@.skip(from as int)[i - from] == c);
            return true;
        }
        i += 1;
    }
    assert forall|k: int| 0 <= k < chars@.skip(from as int).len() implies chars@.skip(
        from as int,
    )[k] != c by {
        assert(chars@[from + k] != c);
    }
    false
}

/// Where `text` without the white space at its ends starts and ends.
fn trim_bounds(chars: &Vec<char>) -> (bounds: (usize, usize))
    ensures
        bounds.0 <= bounds.1 <= chars.len(),
        chars@.subrange(bounds.0 as int, bounds.1 as int) == trim_end(trim_start(chars@)),
{
    let mut start: usize = 0;
    assert(chars@.skip(0) =~= chars@);
    while start < chars.len() && is_white_space_char(chars[start])
        invariant
            start <= chars.len(),
            trim_start(chars@.skip(start as int)) == trim_start(chars@),
        decreases chars.len() - start,
    {
        assert(chars@.skip(start as int).drop_first() =~= chars@.skip(start + 1));
        start += 1;
    }
    assert(trim_start(chars@) == chars@.skip(start as int));
    let mut end: usize = chars.len();
    assert(chars@.subrange(start as int, end as int) =~= chars@.skip(start as int));
    while end > start && is_white_space_char(chars[end - 1])
        invariant
            start <= end <= chars.len(),
            trim_end(chars@.subrange(start as int, end as int)) == trim_end(
                chars@.skip(start as int),
            ),
        decreases end,
    {
        assert(chars@.subrange(start as int, end as int).drop_last() =~= chars@.subrange(
            start as int,
            end - 1,
        ));
        end -= 1;
    }
    (start, end)
}

impl Readout {
    /// The line of a calculator that was just switched on.
    pub fn new() -> (readout: Readout)
        ensures
            readout@ == ReadoutView::cleared(),
    {
        proof {
            reveal_strlit("0");
        }
        let readout = Readout { text: "0".to_owned(), is_result: false };
        assert(readout.text@ =~= seq!['0']);
        readout
    }

    /// Puts the outcome of an evaluation on the line.
    pub fn show(&mut self, text: String)
        ensures
            final(self)@ == (ReadoutView { text: text@, is_result: true }),
    {
        self.text = text;
        self.is_result = true;
    }

    fn clear(&mut self)
        ensures
            final(self)@ == ReadoutView::cleared(),
    {
        proof {
            reveal_strlit("0");
        }
        self.text = "0".to_owned();
        self.is_result = false;
        assert(self.text@ =~= seq!['0']);
    }

    fn type_symbol(&mut self, label: &str)
        ensures
            final(self)@ == old(self)@.typed(label@),
    {
        if self.is_result || is_zero(self.text.as_str()) {
            self.text = label.to_owned();
            self.is_result = false;
        } else {
            self.text.append(label);
        }
    }

    fn type_point(&mut self)
        ensures
            final(self)@ == old(self)@.with_point(),
    {
        let chars = chars_of(self.text.as_str());
        let start = number_start(&chars);
        if !occurs_from(&chars, start, '.') {
            proof {
                reveal_strlit(".");
                assert(self.text@ + "."@ =~= self.text@.push('.'));
            }
            self.text.append(".");
        }
    }

    fn toggle_sign(&mut self)
        ensures
            final(self)@ == old(self)@.with_sign(),
    {
        if is_zero(self.text.as_str()) {
            return ;
        }
        let chars = chars_of(self.text.as_str());
        let at = digits_start(&chars);
        let mut text = self.text.as_str().substring_char(0, at).to_owned();
        text.append("-");
        text.append(self.text.as_str().substring_char(at, chars.len()));
        proof {
            reveal_strlit("-");
            let before = old(self)@.text;
            assert(before.subrange(0, at as int) + "-"@ + before.subrange(
                at as int,
                before.len() as int,
            ) =~= before.take(at as int).push('-') + before.skip(at as int));
        }
        self.text = text;
    }

    fn type_percent(&mut self)
        ensures
            final(self)@ == old(self)@.with_percent(),
    {
        let length = self.text.as_str().unicode_len();
        if length > 0 {
            let last = self.text.as_str().get_char(length - 1);
            if ('0' <= last && last <= '9') || last == ')' {
                proof {
                    reveal_strlit("%");
                    assert(self.text@ + "%"@ =~= self.text@.push('%'));
                }
                self.text.append("%");
            }
        }
    }

    fn type_operator(&mut self, operator: Operator, label: &str)
        requires
            label@ == seq![operator.spec_symbol()],
        ensures
            final(self)@ == old(self)@.with_operator(operator),
    {
        let chars = chars_of(self.text.as_str());
        let (start, end) = trim_bounds(&chars);
        let mut text = self.text.as_str().substring_char(start, end).to_owned();
        text.append(" ");
        text.append(label);
        text.append(" ");
        proof {
            reveal_strlit(" ");
            assert(old(self)@.text.subrange(start as int, end as int) + " "@ + label@ + " "@
                =~= trim_end(trim_start(old(self)@.text)) + seq![' ', operator.spec_symbol(), ' ']);
        }
        self.text = text;
        self.is_result = false;
    }

    /// Presses the key with `label`, and says what is left for the caller
    /// to do.
    pub fn press(&mut self, label: &str) -> (effect: Effect)
        ensures
            final(self)@ == old(self)@.pressed(label@),
            effect == effect_of(label@),
    {
        match key_from_label(label) {
            Some(Key::Symbol) => {
                self.type_symbol(label);
                Effect::Nothing
            },
            Some(Key::Point) => {
                self.type_point();
                Effect::Nothing
            },
            Some(Key::Clear) => {
                self.clear();
                Effect::Cleared
            },
            Some(Key::Sign) => {
                self.toggle_sign();
                Effect::Nothing
            },
            Some(Key::Percent) => {
                self.type_percent();
                Effect::Nothing
            },
            Some(Key::Operator(operator)) => {
                proof {
                    operator.lemma_symbol_round_trip(label@[0]);
                    assert(label@ =~= seq![operator.spec_symbol()]);
                }
                self.type_operator(operator, label);
                Effect::Nothing
            },
            Some(Key::Equals) => Effect::Evaluate,
            None => Effect::Nothing,
        }
    }

    fn drop_last(&mut self)
        ensures
            final(self).text@ == without_last(old(self).text@),
            final(self).is_result == old(self).is_result,
    {
        let length = self.text.as_str().unicode_len();
        if length > 0 {
            let shorter = self.text.as_str().substring_char(0, length - 1).to_owned();
            assert(self.text@.subrange(0, length - 1) =~= self.text@.drop_last());
            self.text = shorter;
        }
    }

    /// Presses the backspace key.
    pub fn backspace(&mut self)
        ensures
            final(self)@ == old(self)@.erased(),
    {
        if self.is_result {
            self.clear();
        } else if self.text.as_str().as_bytes().len() > 1 {
            let length = self.text.as_str().unicode_len();
            let space = length > 0 && self.text.as_str().get_char(length - 1) == ' ';
            self.drop_last();
            if space {
                self.drop_last();
            }
        } else {
            self.clear();
        }
    }
}

} // verus!

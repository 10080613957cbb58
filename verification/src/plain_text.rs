use crate::seq_util::{lemma_filter_keeps_all, lemma_filter_take};
use crate::text::{char_is_whitespace, is_whitespace, substring, to_chars, trim, trim_range};
use vstd::prelude::*;

verus! {

/// Whether `c` is a control character: one of the first 32, or one from
/// U+007F to U+009F.
pub open spec fn is_control(c: char) -> bool {
    let u = c as u32;
    u <= 0x1F || (0x7F <= u <= 0x9F)
}

/// Whether `c` is one of the box-drawing characters, U+2500 to U+257F.
pub open spec fn is_box_drawing(c: char) -> bool {
    let u = c as u32;
    0x2500 <= u <= 0x257F
}

/// The plain character that stands for the box-drawing character `c`: a
/// dash for a horizontal line, a bar for a vertical one, a plus for a
/// corner, a tee or a crossing, a space for any other.
pub open spec fn box_as_plain(c: char) -> char {
    let u = c as u32;
    if u == 0x2500 || u == 0x2501 || u == 0x2550 || (0x254C <= u <= 0x254F) {
        '-'
    } else if u == 0x2502 || u == 0x2503 || u == 0x2551 {
        '|'
    } else if (0x250C <= u <= 0x2543) || (0x2552 <= u <= 0x255D) {
        '+'
    } else {
        ' '
    }
}

/// What is kept of the character `c`: nothing of a control character, the
/// plain stand-in of a box-drawing character, and any other as it is.
pub open spec fn cleaned_char(c: char) -> Option<char> {
    if is_control(c) {
        None
    } else if is_box_drawing(c) {
        Some(box_as_plain(c))
    } else {
        Some(c)
    }
}

/// `text` with each character replaced by what is kept of it.
pub open spec fn cleaned(text: Seq<char>) -> Seq<char>
    decreases text.len(),
{
    if text.len() == 0 {
        Seq::empty()
    } else {
        match cleaned_char(text.last()) {
            Some(c) => cleaned(text.drop_last()).push(c),
            None => cleaned(text.drop_last()),
        }
    }
}

/// The value of `char::is_alphanumeric` for `c`: whether `c` is a letter or
/// a number in the sense of Unicode.
pub uninterp spec fn is_alphanumeric(c: char) -> bool;

/// Calls `char::is_alphanumeric`. The result is the value that the
/// function has for this character; nothing else is claimed of it.
#[verifier::external_body]
fn char_is_alphanumeric(c: char) -> (r: bool)
    ensures
        r == is_alphanumeric(c),
{
    c.is_alphanumeric()
}

/// Calls `String::push`, which appends the character to the end of the
/// string.
#[verifier::external_body]
fn push_char(text: &mut String, c: char)
    ensures
        final(text)@ == old(text)@.push(c),
{
    text.push(c)
}

/// What is kept of `c`.
pub fn clean_char(c: char) -> (r: Option<char>)
    ensures
        r == cleaned_char(c),
{
    let u: u32 = c as u32;
    if u <= 0x1F || (0x7F <= u && u <= 0x9F) {
        None
    } else if 0x2500 <= u && u <= 0x257F {
        if u == 0x2500 || u == 0x2501 || u == 0x2550 || (0x254C <= u && u <= 0x254F) {
            Some('-')
        } else if u == 0x2502 || u == 0x2503 || u == 0x2551 {
            Some('|')
        } else if (0x250C <= u && u <= 0x2543) || (0x2552 <= u && u <= 0x255D) {
            Some('+')
        } else {
            Some(' ')
        }
    } else {
        Some(c)
    }
}

/// Removes the control characters from `text`, line breaks among them, and
/// replaces the box-drawing characters by plain ones.
pub fn clean_text(text: &str) -> (r: String)
    ensures
        r@ == cleaned(text@),
{
    let chars = to_chars(text);
    let mut out = String::new();
    let mut i: usize = 0;
    proof {
        assert(chars@.take(0) =~= Seq::<char>::empty());
    }
    while i < chars.len()
        invariant
            i <= chars@.len(),
            out@ == cleaned(chars@.take(i as int)),
        decreases chars@.len() - i,
    {
        proof {
            assert(chars@.take(i + 1).drop_last() =~= chars@.take(i as int));
            assert(chars@.take(i + 1).last() == chars@[i as int]);
        }
        match clean_char(chars[i]) {
            Some(c) => {
                push_char(&mut out, c);
            },
            None => {},
        }
        i = i + 1;
    }
    proof {
        assert(chars@.take(i as int) =~= chars@);
    }
    out
}

/// The test "is a dash, an underscore or an equals sign".
pub open spec fn is_rule_char() -> spec_fn(char) -> bool {
    |c: char| c == '-' || c == '_' || c == '='
}

/// The test "is a square bracket".
pub open spec fn is_bracket() -> spec_fn(char) -> bool {
    |c: char| c == '[' || c == ']'
}

/// The test "is neither a letter, nor a number, nor white space".
pub open spec fn is_special() -> spec_fn(char) -> bool {
    |c: char| !is_alphanumeric(c) && !is_whitespace(c)
}

/// The test "begins a word": the character at `i` is no white space, and
/// the one before it, if there is one, is.
pub open spec fn begins_word(line: Seq<char>, i: int) -> bool {
    !is_whitespace(line[i]) && (i == 0 || is_whitespace(line[i - 1]))
}

/// The number of words among the first `n` characters of `line`, a word
/// being a stretch of characters without white space.
pub open spec fn words_before(line: Seq<char>, n: int) -> nat
    decreases n,
{
    if n <= 0 {
        0
    } else if begins_word(line, n - 1) {
        words_before(line, n - 1) + 1
    } else {
        words_before(line, n - 1)
    }
}

/// The number of words of `line`.
pub open spec fn word_count(line: Seq<char>) -> nat {
    words_before(line, line.len() as int)
}

/// A line that separates: dashes, underscores and equals signs alone.
pub open spec fn is_separator(line: Seq<char>) -> bool {
    forall|i: int| 0 <= i < line.len() ==> is_rule_char()(#[trigger] line[i])
}

/// A line as mail programs put it above or below a message: it has a bar
/// and at least four square brackets, opening and closing ones among them.
pub open spec fn is_footer(line: Seq<char>) -> bool {
    &&& line.contains('[')
    &&& line.contains(']')
    &&& (line.contains('|') || line.contains('\u{2502}'))
    &&& line.filter(is_bracket()).len() >= 4
}

/// The number of bytes that `line` takes in UTF-8.
pub open spec fn byte_length(line: Seq<char>) -> nat {
    vstd::utf8::encode_utf8(line).len()
}

/// What is to become of a line.
#[derive(Debug, Clone, Copy, PartialEq, Eq, Structural)]
pub enum LineVerdict {
    /// The line stays.
    Keep,
    /// The line goes.
    Drop,
    /// The line stays if its special characters are few for its length:
    /// `special` counts the characters that are neither letters, numbers
    /// nor white space, `bytes` the bytes of the trimmed line.
    Weigh { special: usize, bytes: usize },
}

/// What is to become of `line`: a line of white space stays; a separator
/// and a mail footer go; of the others, a line of three words or more
/// stays, and a shorter one is weighed.
pub open spec fn verdict_of(line: Seq<char>) -> LineVerdict {
    let t = trim(line);
    if t.len() == 0 {
        LineVerdict::Keep
    } else if is_separator(t) || is_footer(t) {
        LineVerdict::Drop
    } else if word_count(t) >= 3 {
        LineVerdict::Keep
    } else {
        LineVerdict::Weigh {
            special: t.filter(is_special()).len() as usize,
            bytes: byte_length(t) as usize,
        }
    }
}

/// What a line holds, as far as its verdict depends on it.
struct LineCounts {
    rule_chars: usize,
    brackets: usize,
    specials: usize,
    words: usize,
    opening: bool,
    closing: bool,
    bar: bool,
}

/// Counts what the verdict on `line` depends on.
fn count_line(line: &[char]) -> (r: LineCounts)
    ensures
        r.rule_chars == line@.filter(is_rule_char()).len(),
        r.brackets == line@.filter(is_bracket()).len(),
        r.specials == line@.filter(is_special()).len(),
        r.words == word_count(line@),
        r.opening == line@.contains('['),
        r.closing == line@.contains(']'),
        r.bar == (line@.contains('|') || line@.contains('\u{2502}')),
{
    let mut counts = LineCounts {
        rule_chars: 0,
        brackets: 0,
        specials: 0,
        words: 0,
        opening: false,
        closing: false,
        bar: false,
    };
    let mut i: usize = 0;
    let ghost s = line@;
    proof {
        reveal(Seq::filter);
        assert(s.take(0) =~= Seq::<char>::empty());
    }
    while i < line.len()
        invariant
            i <= line@.len(),
            s == line@,
            counts.rule_chars == s.take(i as int).filter(is_rule_char()).len() <= i,
            counts.brackets == s.take(i as int).filter(is_bracket()).len() <= i,
            counts.specials == s.take(i as int).filter(is_special()).len() <= i,
            counts.words == words_before(s, i as int) <= i,
            counts.opening == s.take(i as int).contains('['),
            counts.closing == s.take(i as int).contains(']'),
            counts.bar == (s.take(i as int).contains('|') || s.take(i as int).contains('\u{2502}')),
        decreases line@.len() - i,
    {
        let c: char = line[i];
        let white: bool = char_is_whitespace(c);
        proof {
            lemma_filter_take(s, i as int, is_rule_char());
            lemma_filter_take(s, i as int, is_bracket());
            lemma_filter_take(s, i as int, is_special());
            lemma_contains_take(s, i as int, '[');
            lemma_contains_take(s, i as int, ']');
            lemma_contains_take(s, i as int, '|');
            lemma_contains_take(s, i as int, '\u{2502}');
        }
        if c == '-' || c == '_' || c == '=' {
            counts.rule_chars = counts.rule_chars + 1;
        }
        if c == '[' || c == ']' {
            counts.brackets = counts.brackets + 1;
        }
        if !white && !char_is_alphanumeric(c) {
            counts.specials = counts.specials + 1;
        }
        if !white && (i == 0 || char_is_whitespace(line[i - 1])) {
            counts.words = counts.words + 1;
        }
        if c == '[' {
            counts.opening = true;
        }
        if c == ']' {
            counts.closing = true;
        }
        if c == '|' || c == '\u{2502}' {
            counts.bar = true;
        }
        i = i + 1;
    }
    proof {
        assert(s.take(i as int) =~= s);
    }
    counts
}

/// A character is among the first `i + 1` of `s` if it is among the first
/// `i` or stands at `i`.
proof fn lemma_contains_take(s: Seq<char>, i: int, c: char)
    requires
        0 <= i < s.len(),
    ensures
        s.take(i + 1).contains(c) == (s.take(i).contains(c) || s[i] == c),
{
    let shorter = s.take(i);
    let longer = s.take(i + 1);
    if shorter.contains(c) {
        let j = choose|j: int| 0 <= j < shorter.len() && shorter[j] == c;
        assert(longer[j] == c);
    }
    if s[i] == c {
        assert(longer[i] == c);
    }
    if longer.contains(c) {
        let j = choose|j: int| 0 <= j < longer.len() && longer[j] == c;
        if j < i {
            assert(shorter[j] == c);
        }
    }
}

/// Says what is to become of `line`. Where the line is to be weighed, the
/// caller keeps it if the special characters are at most two fifths of its
/// bytes.
pub fn line_verdict(line: &str) -> (r: LineVerdict)
    ensures
        r == verdict_of(line@),
{
    let chars = to_chars(line);
    let (a, b) = trim_range(chars.as_slice(), 0, chars.len());
    proof {
        assert(chars@.subrange(0, chars@.len() as int) =~= line@);
    }
    if a == b {
        return LineVerdict::Keep;
    }
    let body: &[char] = vstd::slice::slice_subrange(chars.as_slice(), a, b);
    let counts = count_line(body);
    proof {
        lemma_filter_keeps_all(body@, is_rule_char());
    }
    if counts.rule_chars == body.len() {
        return LineVerdict::Drop;
    }
    if counts.opening && counts.closing && counts.bar && counts.brackets >= 4 {
        return LineVerdict::Drop;
    }
    if counts.words >= 3 {
        return LineVerdict::Keep;
    }
    let trimmed = substring(line, a, b);
    LineVerdict::Weigh { special: counts.specials, bytes: trimmed.as_str().len() }
}

} // verus!

//! Text normalization shared by every record type.
//!
//! The rewriting itself is done by the `regex` crate; each rewrite is stated
//! here as a function on sequences of characters, and the rules that combine
//! them are proved against those statements.

use regex::Regex;
use vstd::prelude::*;
use vstd::string::*;

verus! {

/// Characters with the Unicode property `White_Space`: what `\s` matches and
/// what `str::trim` removes.
pub open spec fn is_white_space(c: char) -> bool {
    ||| '\u{9}' <= c <= '\u{d}'
    ||| c == ' '
    ||| c == '\u{85}'
    ||| c == '\u{a0}'
    ||| c == '\u{1680}'
    ||| '\u{2000}' <= c <= '\u{200a}'
    ||| '\u{2028}' <= c <= '\u{2029}'
    ||| c == '\u{202f}'
    ||| c == '\u{205f}'
    ||| c == '\u{3000}'
}

/// Characters of the Unicode general category `Nd` (decimal number): what
/// `\d` matches.
pub closed spec fn is_decimal_digit(c: char) -> bool {
    ||| '\u{30}' <= c <= '\u{39}'
    ||| '\u{660}' <= c <= '\u{669}'
    ||| '\u{6f0}' <= c <= '\u{6f9}'
    ||| '\u{7c0}' <= c <= '\u{7c9}'
    ||| '\u{966}' <= c <= '\u{96f}'
    ||| '\u{9e6}' <= c <= '\u{9ef}'
    ||| '\u{a66}' <= c <= '\u{a6f}'
    ||| '\u{ae6}' <= c <= '\u{aef}'
    ||| '\u{b66}' <= c <= '\u{b6f}'
    ||| '\u{be6}' <= c <= '\u{bef}'
    ||| '\u{c66}' <= c <= '\u{c6f}'
    ||| '\u{ce6}' <= c <= '\u{cef}'
    ||| '\u{d66}' <= c <= '\u{d6f}'
    ||| '\u{de6}' <= c <= '\u{def}'
    ||| '\u{e50}' <= c <= '\u{e59}'
    ||| '\u{ed0}' <= c <= '\u{ed9}'
    ||| '\u{f20}' <= c <= '\u{f29}'
    ||| '\u{1040}' <= c <= '\u{1049}'
    ||| '\u{1090}' <= c <= '\u{1099}'
    ||| '\u{17e0}' <= c <= '\u{17e9}'
    ||| '\u{1810}' <= c <= '\u{1819}'
    ||| '\u{1946}' <= c <= '\u{194f}'
    ||| '\u{19d0}' <= c <= '\u{19d9}'
    ||| '\u{1a80}' <= c <= '\u{1a89}'
    ||| '\u{1a90}' <= c <= '\u{1a99}'
    ||| '\u{1b50}' <= c <= '\u{1b59}'
    ||| '\u{1bb0}' <= c <= '\u{1bb9}'
    ||| '\u{1c40}' <= c <= '\u{1c49}'
    ||| '\u{1c50}' <= c <= '\u{1c59}'
    ||| '\u{a620}' <= c <= '\u{a629}'
    ||| '\u{a8d0}' <= c <= '\u{a8d9}'
    ||| '\u{a900}' <= c <= '\u{a909}'
    ||| '\u{a9d0}' <= c <= '\u{a9d9}'
    ||| '\u{a9f0}' <= c <= '\u{a9f9}'
    ||| '\u{aa50}' <= c <= '\u{aa59}'
    ||| '\u{abf0}' <= c <= '\u{abf9}'
    ||| '\u{ff10}' <= c <= '\u{ff19}'
    ||| '\u{104a0}' <= c <= '\u{104a9}'
    ||| '\u{10d30}' <= c <= '\u{10d39}'
    ||| '\u{10d40}' <= c <= '\u{10d49}'
    ||| '\u{11066}' <= c <= '\u{1106f}'
    ||| '\u{110f0}' <= c <= '\u{110f9}'
    ||| '\u{11136}' <= c <= '\u{1113f}'
    ||| '\u{111d0}' <= c <= '\u{111d9}'
    ||| '\u{112f0}' <= c <= '\u{112f9}'
    ||| '\u{11450}' <= c <= '\u{11459}'
    ||| '\u{114d0}' <= c <= '\u{114d9}'
    ||| '\u{11650}' <= c <= '\u{11659}'
    ||| '\u{116c0}' <= c <= '\u{116c9}'
    ||| '\u{116d0}' <= c <= '\u{116e3}'
    ||| '\u{11730}' <= c <= '\u{11739}'
    ||| '\u{118e0}' <= c <= '\u{118e9}'
    ||| '\u{11950}' <= c <= '\u{11959}'
    ||| '\u{11bf0}' <= c <= '\u{11bf9}'
    ||| '\u{11c50}' <= c <= '\u{11c59}'
    ||| '\u{11d50}' <= c <= '\u{11d59}'
    ||| '\u{11da0}' <= c <= '\u{11da9}'
    ||| '\u{11f50}' <= c <= '\u{11f59}'
    ||| '\u{16130}' <= c <= '\u{16139}'
    ||| '\u{16a60}' <= c <= '\u{16a69}'
    ||| '\u{16ac0}' <= c <= '\u{16ac9}'
    ||| '\u{16b50}' <= c <= '\u{16b59}'
    ||| '\u{16d70}' <= c <= '\u{16d79}'
    ||| '\u{1ccf0}' <= c <= '\u{1ccf9}'
    ||| '\u{1d7ce}' <= c <= '\u{1d7ff}'
    ||| '\u{1e140}' <= c <= '\u{1e149}'
    ||| '\u{1e2f0}' <= c <= '\u{1e2f9}'
    ||| '\u{1e4f0}' <= c <= '\u{1e4f9}'
    ||| '\u{1e5f1}' <= c <= '\u{1e5fa}'
    ||| '\u{1e950}' <= c <= '\u{1e959}'
    ||| '\u{1fbf0}' <= c <= '\u{1fbf9}'
}

/// No decimal digit is white space, a percent sign or an ASCII letter, and
/// the ASCII digits are decimal digits, the only ones below U+0660.
pub proof fn lemma_decimal_digit_facts(c: char)
    ensures
        is_decimal_digit(c) ==> !is_white_space(c) && c != '%' && c != ' ',
        is_decimal_digit(c) ==> !('A' <= c <= 'Z') && !('a' <= c <= 'z'),
        '0' <= c <= '9' ==> is_decimal_digit(c),
        c < '\u{660}' ==> (is_decimal_digit(c) <==> '0' <= c <= '9'),
{
}

/// The text without its leading white space.
pub open spec fn trimmed_start(s: Seq<char>) -> Seq<char>
    decreases s.len(),
{
    if s.len() > 0 && is_white_space(s[0]) {
        trimmed_start(s.drop_first())
    } else {
        s
    }
}

/// The text without its trailing white space.
pub open spec fn trimmed_end(s: Seq<char>) -> Seq<char>
    decreases s.len(),
{
    if s.len() > 0 && is_white_space(s.last()) {
        trimmed_end(s.drop_last())
    } else {
        s
    }
}

/// The text without leading and trailing white space.
pub open spec fn trimmed(s: Seq<char>) -> Seq<char> {
    trimmed_end(trimmed_start(s))
}

/// The text with every run of two or more white-space characters replaced by
/// one space. A single white-space character stays as it is.
pub open spec fn collapsed(s: Seq<char>) -> Seq<char>
    decreases s.len(),
    via collapsed_terminates
{
    if s.len() == 0 {
        s
    } else if s.len() >= 2 && is_white_space(s[0]) && is_white_space(s[1]) {
        seq![' '] + collapsed(trimmed_start(s))
    } else {
        seq![s[0]] + collapsed(s.drop_first())
    }
}

#[via_fn]
proof fn collapsed_terminates(s: Seq<char>) {
    lemma_trimmed_start_len(s);
}

/// Trimming at the start never lengthens a text, and shortens one that starts
/// with white space.
pub proof fn lemma_trimmed_start_len(s: Seq<char>)
    ensures
        trimmed_start(s).len() <= s.len(),
        s.len() > 0 && is_white_space(s[0]) ==> trimmed_start(s).len() < s.len(),
    decreases s.len(),
{
    if s.len() > 0 && is_white_space(s[0]) {
        lemma_trimmed_start_len(s.drop_first());
    }
}

/// Whether `c` is one of the marks before which a closing white-space
/// character is dropped.
pub open spec fn is_closing_mark(c: char) -> bool {
    c == '.' || c == ':' || c == '?'
}

/// The text without the white-space character that stands directly before a
/// closing mark at the very end, if there is one.
pub open spec fn tightened(s: Seq<char>) -> Seq<char> {
    if s.len() >= 2 && is_white_space(s[s.len() - 2]) && is_closing_mark(s.last()) {
        s.remove(s.len() - 2)
    } else {
        s
    }
}

/// A curly double quote becomes a straight one; any other character stays.
pub open spec fn straight_quote(c: char) -> char {
    if c == '\u{201c}' || c == '\u{201d}' {
        '"'
    } else {
        c
    }
}

/// The text with every curly double quote replaced by a straight one.
pub open spec fn straightened(s: Seq<char>) -> Seq<char> {
    s.map_values(|c: char| straight_quote(c))
}

/// The text with a space put between a decimal digit and a percent sign that
/// follows it directly.
pub open spec fn unit_spaced(s: Seq<char>) -> Seq<char>
    decreases s.len(),
{
    if s.len() == 0 {
        s
    } else if s.len() >= 2 && is_decimal_digit(s[0]) && s[1] == '%' {
        seq![s[0], ' ', '%'] + unit_spaced(s.skip(2))
    } else {
        seq![s[0]] + unit_spaced(s.drop_first())
    }
}

/// The text without a period at its very end.
pub open spec fn without_end_period(s: Seq<char>) -> Seq<char> {
    if s.len() > 0 && s.last() == '.' {
        s.drop_last()
    } else {
        s
    }
}

/// The upper-case form of an ASCII lower-case letter; any other character
/// stays.
pub open spec fn ascii_upper(c: char) -> char {
    if 'a' <= c <= 'z' {
        ((c as u32) - 32) as char
    } else {
        c
    }
}

/// The text with its first character in upper case, where that character is an
/// ASCII letter.
pub open spec fn capitalized(s: Seq<char>) -> Seq<char> {
    if s.len() > 0 {
        s.update(0, ascii_upper(s[0]))
    } else {
        s
    }
}

/// Whether `c` is a mark that ends a text by itself, so that no period is
/// due before it.
pub open spec fn is_terminal_mark(c: char) -> bool {
    c == '?' || c == '!' || c == ':'
}

/// The text without the periods and the white space at its end.
pub open spec fn without_trailing_periods(s: Seq<char>) -> Seq<char>
    decreases s.len(),
{
    if s.len() > 0 && (s.last() == '.' || is_white_space(s.last())) {
        without_trailing_periods(s.drop_last())
    } else {
        s
    }
}

/// Whether a period stands at the end of the text, or before the white space
/// at its end.
pub open spec fn has_trailing_period(s: Seq<char>) -> bool
    decreases s.len(),
{
    s.len() > 0 && (s.last() == '.' || (is_white_space(s.last()) && has_trailing_period(
        s.drop_last(),
    )))
}

/// Whether a period stands directly before the terminal mark that ends the
/// text, or is parted from it by white space and periods only.
pub open spec fn has_period_before_mark(s: Seq<char>) -> bool {
    s.len() >= 2 && is_terminal_mark(s.last()) && has_trailing_period(s.drop_last())
}

/// The text without the periods, and the white space among them, that stand
/// before the terminal mark at its end: `Why.?` becomes `Why?`. A text that
/// ends otherwise, or has no period there, stays as it is.
pub open spec fn settled(s: Seq<char>) -> Seq<char> {
    if has_period_before_mark(s) {
        without_trailing_periods(s.drop_last()).push(s.last())
    } else {
        s
    }
}

/// The normal form of a free text: trimmed, white-space runs collapsed, no
/// white space before a closing mark at the end, straight quotes, a space
/// between a number and a percent sign, and no period before a terminal mark
/// at the end.
pub open spec fn formatted(s: Seq<char>) -> Seq<char> {
    settled(unit_spaced(straightened(tightened(collapsed(trimmed(s))))))
}

/// The image path of a record: the directory of its owner, a slash, and the
/// file name.
pub open spec fn image_path(key: Seq<char>, file_name: Seq<char>) -> Seq<char> {
    key + seq!['/'] + file_name
}

/// `Regex::replace_all` with the pattern `\s\s+` and the replacement `" "`:
/// matches are found leftmost first and do not overlap, `\s` is a
/// `White_Space` character and `+` is greedy, so each maximal run of two or
/// more such characters becomes one space.
#[verifier::external_body]
pub(crate) fn collapse_white_space(text: &str) -> (r: String)
    ensures
        r@ == collapsed(text@),
{
    Regex::new(r"\s\s+").unwrap().replace_all(text, " ").into_owned()
}

/// `Regex::replace` with the pattern `\s(\.|:|\?)$` and the replacement `$1`:
/// `$` matches only at the end of the text, so the one possible match is a
/// `White_Space` character followed by a final `.`, `:` or `?`, and it is
/// replaced by that final character.
#[verifier::external_body]
pub(crate) fn tighten_closing_mark(text: &str) -> (r: String)
    ensures
        r@ == tightened(text@),
{
    Regex::new(r"\s(\.|:|\?)$").unwrap().replace(text, "$1").into_owned()
}

/// `Regex::replace_all` with the pattern `[“”]` and the replacement `"`: each
/// of the two curly double quotes becomes a straight double quote.
#[verifier::external_body]
pub(crate) fn straighten_quotes(text: &str) -> (r: String)
    ensures
        r@ == straightened(text@),
{
    Regex::new("[\u{201c}\u{201d}]").unwrap().replace_all(text, "\"").into_owned()
}

/// `Regex::replace_all` with the pattern `(\d)(%)` and the replacement
/// `$1 $2`: `\d` is a character of category `Nd`, so each digit directly
/// followed by a percent sign is replaced by the digit, a space and the sign.
#[verifier::external_body]
pub(crate) fn space_units(text: &str) -> (r: String)
    ensures
        r@ == unit_spaced(text@),
{
    Regex::new(r"(\d)(%)").unwrap().replace_all(text, "$1 $2").into_owned()
}

/// `Regex::replace` with the pattern `\.$` and the empty replacement: a period
/// at the very end of the text is removed.
#[verifier::external_body]
pub(crate) fn strip_end_period(text: &str) -> (r: String)
    ensures
        r@ == without_end_period(text@),
{
    Regex::new(r"\.$").unwrap().replace(text, "").into_owned()
}

/// `String::push` of std: the character is appended.
#[verifier::external_body]
pub(crate) fn push_char(text: &mut String, c: char)
    ensures
        final(text)@ == old(text)@.push(c),
{
    text.push(c)
}

/// Whether the character is white space.
pub fn is_space(c: char) -> (r: bool)
    ensures
        r == is_white_space(c),
{
    ('\u{9}' <= c && c <= '\u{d}') || c == ' ' || c == '\u{85}' || c == '\u{a0}' || c
        == '\u{1680}' || ('\u{2000}' <= c && c <= '\u{200a}') || c == '\u{2028}' || c
        == '\u{2029}' || c == '\u{202f}' || c == '\u{205f}' || c == '\u{3000}'
}

/// Whether the character is a decimal digit of some script.
pub fn is_digit(c: char) -> (r: bool)
    ensures
        r == is_decimal_digit(c),
{
    ('\u{30}' <= c && c <= '\u{39}')
        || ('\u{660}' <= c && c <= '\u{669}')
        || ('\u{6f0}' <= c && c <= '\u{6f9}')
        || ('\u{7c0}' <= c && c <= '\u{7c9}')
        || ('\u{966}' <= c && c <= '\u{96f}')
        || ('\u{9e6}' <= c && c <= '\u{9ef}')
        || ('\u{a66}' <= c && c <= '\u{a6f}')
        || ('\u{ae6}' <= c && c <= '\u{aef}')
        || ('\u{b66}' <= c && c <= '\u{b6f}')
        || ('\u{be6}' <= c && c <= '\u{bef}')
        || ('\u{c66}' <= c && c <= '\u{c6f}')
        || ('\u{ce6}' <= c && c <= '\u{cef}')
        || ('\u{d66}' <= c && c <= '\u{d6f}')
        || ('\u{de6}' <= c && c <= '\u{def}')
        || ('\u{e50}' <= c && c <= '\u{e59}')
        || ('\u{ed0}' <= c && c <= '\u{ed9}')
        || ('\u{f20}' <= c && c <= '\u{f29}')
        || ('\u{1040}' <= c && c <= '\u{1049}')
        || ('\u{1090}' <= c && c <= '\u{1099}')
        || ('\u{17e0}' <= c && c <= '\u{17e9}')
        || ('\u{1810}' <= c && c <= '\u{1819}')
        || ('\u{1946}' <= c && c <= '\u{194f}')
        || ('\u{19d0}' <= c && c <= '\u{19d9}')
        || ('\u{1a80}' <= c && c <= '\u{1a89}')
        || ('\u{1a90}' <= c && c <= '\u{1a99}')
        || ('\u{1b50}' <= c && c <= '\u{1b59}')
        || ('\u{1bb0}' <= c && c <= '\u{1bb9}')
        || ('\u{1c40}' <= c && c <= '\u{1c49}')
        || ('\u{1c50}' <= c && c <= '\u{1c59}')
        || ('\u{a620}' <= c && c <= '\u{a629}')
        || ('\u{a8d0}' <= c && c <= '\u{a8d9}')
        || ('\u{a900}' <= c && c <= '\u{a909}')
        || ('\u{a9d0}' <= c && c <= '\u{a9d9}')
        || ('\u{a9f0}' <= c && c <= '\u{a9f9}')
        || ('\u{aa50}' <= c && c <= '\u{aa59}')
        || ('\u{abf0}' <= c && c <= '\u{abf9}')
        || ('\u{ff10}' <= c && c <= '\u{ff19}')
        || ('\u{104a0}' <= c && c <= '\u{104a9}')
        || ('\u{10d30}' <= c && c <= '\u{10d39}')
        || ('\u{10d40}' <= c && c <= '\u{10d49}')
        || ('\u{11066}' <= c && c <= '\u{1106f}')
        || ('\u{110f0}' <= c && c <= '\u{110f9}')
        || ('\u{11136}' <= c && c <= '\u{1113f}')
        || ('\u{111d0}' <= c && c <= '\u{111d9}')
        || ('\u{112f0}' <= c && c <= '\u{112f9}')
        || ('\u{11450}' <= c && c <= '\u{11459}')
        || ('\u{114d0}' <= c && c <= '\u{114d9}')
        || ('\u{11650}' <= c && c <= '\u{11659}')
        || ('\u{116c0}' <= c && c <= '\u{116c9}')
        || ('\u{116d0}' <= c && c <= '\u{116e3}')
        || ('\u{11730}' <= c && c <= '\u{11739}')
        || ('\u{118e0}' <= c && c <= '\u{118e9}')
        || ('\u{11950}' <= c && c <= '\u{11959}')
        || ('\u{11bf0}' <= c && c <= '\u{11bf9}')
        || ('\u{11c50}' <= c && c <= '\u{11c59}')
        || ('\u{11d50}' <= c && c <= '\u{11d59}')
        || ('\u{11da0}' <= c && c <= '\u{11da9}')
        || ('\u{11f50}' <= c && c <= '\u{11f59}')
        || ('\u{16130}' <= c && c <= '\u{16139}')
        || ('\u{16a60}' <= c && c <= '\u{16a69}')
        || ('\u{16ac0}' <= c && c <= '\u{16ac9}')
        || ('\u{16b50}' <= c && c <= '\u{16b59}')
        || ('\u{16d70}' <= c && c <= '\u{16d79}')
        || ('\u{1ccf0}' <= c && c <= '\u{1ccf9}')
        || ('\u{1d7ce}' <= c && c <= '\u{1d7ff}')
        || ('\u{1e140}' <= c && c <= '\u{1e149}')
        || ('\u{1e2f0}' <= c && c <= '\u{1e2f9}')
        || ('\u{1e4f0}' <= c && c <= '\u{1e4f9}')
        || ('\u{1e5f1}' <= c && c <= '\u{1e5fa}')
        || ('\u{1e950}' <= c && c <= '\u{1e959}')
        || ('\u{1fbf0}' <= c && c <= '\u{1fbf9}')
}

/// The upper-case form of an ASCII lower-case letter; any other character
/// as it is.
pub fn to_ascii_upper(c: char) -> (r: char)
    ensures
        r == ascii_upper(c),
{
    if 'a' <= c && c <= 'z' {
        let code: u8 = c as u8;
        (code - 32) as char
    } else {
        c
    }
}

/// Where `first` is the place of the first character that is not white space
/// and `end` the place behind the last one, the part between them is the
/// trimmed text. Where every character is white space, the trimmed text is
/// empty.
pub proof fn lemma_trimmed_is_inner_part(s: Seq<char>, first: int, end: int)
    requires
        0 <= first <= end <= s.len(),
        forall|i: int| 0 <= i < first ==> is_white_space(#[trigger] s[i]),
        forall|i: int| end <= i < s.len() ==> is_white_space(#[trigger] s[i]),
        first < end ==> !is_white_space(s[first]) && !is_white_space(s[end - 1]),
    ensures
        trimmed(s) == s.subrange(first, end),
{
    if first < end {
        lemma_trimmed_start_is(s, first);
        let rest = s.skip(first);
        assert forall|i: int| end - first <= i < rest.len() implies is_white_space(
            #[trigger] rest[i],
        ) by {
            assert(rest[i] == s[i + first]);
        }
        assert(rest[end - first - 1] == s[end - 1]);
        lemma_trimmed_end_is(rest, end - first);
        assert(rest.take(end - first) =~= s.subrange(first, end));
    } else {
        lemma_trimmed_start_is(s, s.len() as int);
        assert(s.skip(s.len() as int) =~= Seq::<char>::empty());
        assert(s.subrange(first, end) =~= Seq::<char>::empty());
    }
}

proof fn lemma_trimmed_start_is(s: Seq<char>, first: int)
    requires
        0 <= first <= s.len(),
        forall|i: int| 0 <= i < first ==> is_white_space(#[trigger] s[i]),
        first < s.len() ==> !is_white_space(s[first]),
    ensures
        trimmed_start(s) == s.skip(first),
    decreases s.len(),
{
    if first > 0 {
        assert(is_white_space(s[0]));
        let rest = s.drop_first();
        assert forall|i: int| 0 <= i < first - 1 implies is_white_space(#[trigger] rest[i]) by {
            assert(rest[i] == s[i + 1]);
        }
        if first < s.len() {
            assert(rest[first - 1] == s[first]);
        }
        lemma_trimmed_start_is(rest, first - 1);
        assert(rest.skip(first - 1) =~= s.skip(first));
    } else {
        assert(s.skip(0) =~= s);
    }
}

proof fn lemma_trimmed_end_is(s: Seq<char>, end: int)
    requires
        0 <= end <= s.len(),
        forall|i: int| end <= i < s.len() ==> is_white_space(#[trigger] s[i]),
        end > 0 ==> !is_white_space(s[end - 1]),
    ensures
        trimmed_end(s) == s.take(end),
    decreases s.len(),
{
    if end < s.len() {
        assert(is_white_space(s[s.len() - 1]));
        let rest = s.drop_last();
        assert forall|i: int| end <= i < rest.len() implies is_white_space(#[trigger] rest[i]) by {
            assert(rest[i] == s[i]);
        }
        if end > 0 {
            assert(rest[end - 1] == s[end - 1]);
        }
        lemma_trimmed_end_is(rest, end);
        assert(rest.take(end) =~= s.take(end));
    } else {
        assert(s.take(end) =~= s);
    }
}

/// The text without leading and trailing white space.
pub fn trim_text(text: &str) -> (r: String)
    ensures
        r@ == trimmed(text@),
{
    let length = text.unicode_len();
    let mut first: usize = length;
    let mut end: usize = 0;
    let mut count: usize = 0;
    for c in it: text.chars()
        invariant
            it.seq() == text@,
            length == text@.len(),
            count == it.index(),
            end <= count,
            first == length || first < end,
            first == length ==> end == 0,
            forall|i: int| 0 <= i < count && i < first ==> is_white_space(#[trigger] text@[i]),
            forall|i: int| end <= i < count ==> is_white_space(#[trigger] text@[i]),
            first < length ==> !is_white_space(text@[first as int]) && !is_white_space(
                text@[end - 1],
            ),
    {
        if !is_space(c) {
            if first == length {
                first = count;
            }
            end = count + 1;
        }
        count += 1;
    }
    if first == length {
        proof {
            lemma_trimmed_is_inner_part(text@, 0, 0);
        }
        String::new()
    } else {
        proof {
            lemma_trimmed_is_inner_part(text@, first as int, end as int);
        }
        String::from_str(text.substring_char(first, end))
    }
}

/// What is left of a text without the periods and the white space at its end
/// is its start, does not end with either, and has no period at its end.
pub proof fn lemma_without_trailing_periods(s: Seq<char>)
    ensures
        without_trailing_periods(s).len() <= s.len(),
        without_trailing_periods(s) == s.take(without_trailing_periods(s).len() as int),
        without_trailing_periods(s).len() > 0 ==> without_trailing_periods(s).last() != '.'
            && !is_white_space(without_trailing_periods(s).last()),
        !has_trailing_period(without_trailing_periods(s)),
    decreases s.len(),
{
    if s.len() > 0 && (s.last() == '.' || is_white_space(s.last())) {
        let rest = s.drop_last();
        lemma_without_trailing_periods(rest);
        let left = without_trailing_periods(rest);
        assert(rest.take(left.len() as int) =~= s.take(left.len() as int));
    } else {
        assert(s.take(s.len() as int) =~= s);
    }
}

/// Whether the character is a terminal mark.
pub fn is_terminal(c: char) -> (r: bool)
    ensures
        r == is_terminal_mark(c),
{
    c == '?' || c == '!' || c == ':'
}

/// Drops the periods, and the white space among them, that stand before the
/// terminal mark at the end of the text.
pub fn settle_terminal_mark(text: &str) -> (r: String)
    ensures
        r@ == settled(text@),
{
    let length = text.unicode_len();
    let mut count: usize = 0;
    let mut keep: usize = 0;
    let mut period = false;
    let mut keep_before: usize = 0;
    let mut period_before = false;
    let mut last = ' ';
    assert(text@.take(0) =~= Seq::<char>::empty());
    for c in it: text.chars()
        invariant
            it.seq() == text@,
            length == text@.len(),
            count == it.index(),
            keep == without_trailing_periods(text@.take(count as int)).len(),
            period == has_trailing_period(text@.take(count as int)),
            count > 0 ==> last == text@[count - 1],
            count > 0 ==> keep_before == without_trailing_periods(text@.take(count - 1)).len(),
            count > 0 ==> period_before == has_trailing_period(text@.take(count - 1)),
    {
        proof {
            let next = text@.take(count + 1);
            assert(next.drop_last() =~= text@.take(count as int));
            assert(next.last() == c);
            lemma_without_trailing_periods(text@.take(count as int));
        }
        keep_before = keep;
        period_before = period;
        last = c;
        if c == '.' {
            period = true;
        } else if !is_space(c) {
            keep = count + 1;
            period = false;
        }
        count += 1;
    }
    if length >= 2 && is_terminal(last) && period_before {
        proof {
            assert(text@.take(length - 1) =~= text@.drop_last());
            lemma_without_trailing_periods(text@.drop_last());
            assert(text@.drop_last().take(keep_before as int) =~= text@.subrange(
                0,
                keep_before as int,
            ));
        }
        let mut settled = String::from_str(text.substring_char(0, keep_before));
        push_char(&mut settled, last);
        settled
    } else {
        proof {
            if length >= 2 {
                assert(text@.take(length - 1) =~= text@.drop_last());
            }
        }
        String::from_str(text)
    }
}

/// Brings a free text into its normal form.
pub fn format_text(text: &str) -> (r: String)
    ensures
        r@ == formatted(text@),
{
    let trimmed = trim_text(text);
    let collapsed = collapse_white_space(trimmed.as_str());
    let tightened = tighten_closing_mark(collapsed.as_str());
    let straightened = straighten_quotes(tightened.as_str());
    let spaced = space_units(straightened.as_str());
    settle_terminal_mark(spaced.as_str())
}

/// Removes a period at the very end of the text.
pub fn remove_end_period(text: &str) -> (r: String)
    ensures
        r@ == without_end_period(text@),
{
    strip_end_period(text)
}

/// Puts the first character in upper case where it is an ASCII letter.
pub fn capitalize_first_char(text: &mut String)
    ensures
        final(text)@ == capitalized(old(text)@),
{
    let mut out = String::new();
    for c in it: text.as_str().chars()
        invariant
            it.seq() == text@,
            out@ == capitalized(text@).subrange(0, it.index() as int),
    {
        let ghost k = it.index() as int;
        let d = if out.as_str().is_empty() {
            to_ascii_upper(c)
        } else {
            c
        };
        push_char(&mut out, d);
        assert(out@ == capitalized(text@).subrange(0, k + 1));
    }
    assert(out@ == capitalized(text@));
    *text = out;
}

/// The path under which an image is stored: `key`, a slash, and the file name.
pub fn full_image_path(key: &str, image_file_name: &str) -> (r: String)
    ensures
        r@ == image_path(key@, image_file_name@),
{
    let mut path = String::from_str(key);
    path.append("/");
    path.append(image_file_name);
    proof {
        reveal_strlit("/");
        assert("/"@ == seq!['/']);
    }
    path
}

} // verus!

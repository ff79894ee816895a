//! Answer options of a question.

use crate::error::ContentError;
use crate::hashing::{
    digest_hex, fingerprint_of, flag_bytes, id_bytes, put_flag, put_id, put_text, text_bytes,
    Hashable,
};
use crate::hashing_laws::{
    lemma_big_endian_len, lemma_id_bytes_tell_id, lemma_join_of_eight, lemma_same_length_split,
    lemma_same_start, lemma_text_and_flag,
};
use crate::ordering::{compare_texts, lemma_text_order, text_not_after};
use crate::siblings::{views, Sibling};
use crate::text::{
    capitalize_first_char, capitalized, format_text, formatted, is_decimal_digit,
    is_white_space, push_char, straight_quote,
};
use crate::text_laws::{
    is_formatted, lemma_capitalized, lemma_formatted_is_formatted, lemma_formatted_stays,
};
use vstd::prelude::*;
use vstd::string::*;

verus! {

/// One answer option of a question.
#[derive(Clone, Debug, PartialEq, Eq)]
pub struct QuestionOptionData {
    pub id: u128,
    /// The question that the option belongs to.
    pub question_id: u128,
    pub text: String,
    pub correct: bool,
    /// The place of the option when it is shown. It is no content.
    pub reference: u16,
    /// Whether the text keeps a lower-case first letter.
    pub preserve_case: bool,
    /// The fingerprint of the option, once it was processed.
    pub hash: String,
}

/// What an option holds, as mathematical values.
pub struct QuestionOptionView {
    pub id: u128,
    pub question_id: u128,
    pub text: Seq<char>,
    pub correct: bool,
    pub reference: u16,
    pub preserve_case: bool,
    pub hash: Seq<char>,
}

/// The text with a period at its end, unless it is empty or has one.
pub open spec fn with_end_period(text: Seq<char>) -> Seq<char> {
    if text.len() > 0 && text.last() != '.' {
        text.push('.')
    } else {
        text
    }
}

/// The normal form of the text of an option.
pub open spec fn option_text(text: Seq<char>, preserve_case: bool) -> Seq<char> {
    let closed = with_end_period(formatted(text));
    if preserve_case {
        closed
    } else {
        capitalized(closed)
    }
}

/// Closing a text in normal form by a period keeps it in normal form, and a
/// text that is closed stays as it is.
pub proof fn lemma_with_end_period(text: Seq<char>)
    ensures
        is_formatted(text) ==> is_formatted(with_end_period(text)),
        with_end_period(text).len() > 0 ==> with_end_period(text).last() == '.',
        text.len() > 0 && text.last() == '.' ==> with_end_period(text) == text,
        text.len() == 0 <==> with_end_period(text).len() == 0,
{
    let closed = with_end_period(text);
    if text.len() > 0 && text.last() != '.' && is_formatted(text) {
        assert forall|i: int| 0 <= i < closed.len() - 1 implies !(is_white_space(
            #[trigger] closed[i],
        ) && is_white_space(closed[i + 1])) by {
            if i < text.len() - 1 {
                assert(!(is_white_space(text[i]) && is_white_space(text[i + 1])));
            }
        }
        assert forall|i: int| 0 <= i < closed.len() implies straight_quote(
            #[trigger] closed[i],
        ) == closed[i] by {
            if i < text.len() {
                assert(straight_quote(text[i]) == text[i]);
            }
        }
        assert forall|i: int| 0 <= i < closed.len() - 1 implies !(is_decimal_digit(
            #[trigger] closed[i],
        ) && closed[i + 1] == '%') by {
            if i < text.len() - 1 {
                assert(!(is_decimal_digit(text[i]) && text[i + 1] == '%'));
            }
        }
        assert(closed[closed.len() - 2] == text.last());
    }
}

/// The normal form of the text of an option is in normal form, and bringing
/// it into normal form again changes nothing.
pub proof fn lemma_option_text_settles(text: Seq<char>, preserve_case: bool)
    ensures
        option_text(option_text(text, preserve_case), preserve_case) == option_text(
            text,
            preserve_case,
        ),
        option_text(text, preserve_case).len() == 0 <==> formatted(text).len() == 0,
{
    let plain = formatted(text);
    lemma_formatted_is_formatted(text);
    let closed = with_end_period(plain);
    lemma_with_end_period(plain);
    lemma_capitalized(closed);
    let first = option_text(text, preserve_case);
    assert(is_formatted(first));
    lemma_formatted_stays(first);
    lemma_with_end_period(first);
    lemma_capitalized(first);
}

/// The encoding of an option tells its content: two options with one
/// encoding have one identifier, one question, one text and one correctness.
pub proof fn lemma_option_encoding_tells_content(a: QuestionOptionView, b: QuestionOptionView)
    requires
        a.canonical_bytes() == b.canonical_bytes(),
    ensures
        a.id == b.id,
        a.question_id == b.question_id,
        a.text == b.text,
        a.correct == b.correct,
{
    let c1 = text_bytes("id"@);
    let c2 = text_bytes("question_id"@);
    let c3 = text_bytes("text"@);
    let c4 = text_bytes("correct"@);
    let tail_a = text_bytes(a.text) + (c4 + flag_bytes(a.correct));
    let tail_b = text_bytes(b.text) + (c4 + flag_bytes(b.correct));
    let rest_a = id_bytes(a.question_id) + (c3 + tail_a);
    let rest_b = id_bytes(b.question_id) + (c3 + tail_b);
    let all_a = id_bytes(a.id) + (c2 + rest_a);
    let all_b = id_bytes(b.id) + (c2 + rest_b);
    lemma_join_of_eight(
        c1,
        id_bytes(a.id),
        c2,
        id_bytes(a.question_id),
        c3,
        text_bytes(a.text),
        c4,
        flag_bytes(a.correct),
    );
    lemma_join_of_eight(
        c1,
        id_bytes(b.id),
        c2,
        id_bytes(b.question_id),
        c3,
        text_bytes(b.text),
        c4,
        flag_bytes(b.correct),
    );
    assert(a.canonical_bytes() == c1 + all_a);
    assert(b.canonical_bytes() == c1 + all_b);
    lemma_same_start(c1, all_a, all_b);
    lemma_big_endian_len(a.id as nat, 16);
    lemma_big_endian_len(b.id as nat, 16);
    lemma_same_length_split(id_bytes(a.id), c2 + rest_a, id_bytes(b.id), c2 + rest_b);
    lemma_id_bytes_tell_id(a.id, b.id);
    lemma_same_start(c2, rest_a, rest_b);
    lemma_big_endian_len(a.question_id as nat, 16);
    lemma_big_endian_len(b.question_id as nat, 16);
    lemma_same_length_split(
        id_bytes(a.question_id),
        c3 + tail_a,
        id_bytes(b.question_id),
        c3 + tail_b,
    );
    lemma_id_bytes_tell_id(a.question_id, b.question_id);
    lemma_same_start(c3, tail_a, tail_b);
    lemma_text_and_flag(a.text, a.correct, b.text, b.correct, c4);
}

/// A change of the content of an option changes its encoding, and so its
/// fingerprint unless BLAKE3 gives one digest for the two encodings.
pub proof fn lemma_option_change_shows(a: QuestionOptionView, b: QuestionOptionView)
    requires
        a.id != b.id || a.question_id != b.question_id || a.text != b.text || a.correct
            != b.correct,
    ensures
        a.canonical_bytes() != b.canonical_bytes(),
{
    if a.canonical_bytes() == b.canonical_bytes() {
        lemma_option_encoding_tells_content(a, b);
    }
}

/// Processing an option that was processed changes nothing.
pub proof fn lemma_option_processing_settles(option: QuestionOptionView)
    ensures
        option.processed().processed() == option.processed(),
        option.processed().is_canonical(),
{
    lemma_option_text_settles(option.text, option.preserve_case);
}

impl QuestionOptionView {
    /// An option without text is blank.
    pub open spec fn is_blank(self) -> bool {
        self.text.len() == 0
    }

    /// Two options say the same when they agree in text and correctness,
    /// whatever their identifiers and whichever question they belong to.
    pub open spec fn eq_data(self, other: Self) -> bool {
        &&& self.text == other.text
        &&& self.correct == other.correct
    }

    /// The option with its text in normal form.
    pub open spec fn formatted(self) -> Self {
        QuestionOptionView { text: option_text(self.text, self.preserve_case), ..self }
    }

    /// The encoding of the option: identifier, question, text and correctness.
    pub open spec fn canonical_bytes(self) -> Seq<u8> {
        text_bytes("id"@) + id_bytes(self.id) + text_bytes("question_id"@) + id_bytes(
            self.question_id,
        ) + text_bytes("text"@) + text_bytes(self.text) + text_bytes("correct"@) + flag_bytes(
            self.correct,
        )
    }

    /// The fingerprint of the option as it is.
    pub open spec fn fingerprint(self) -> Seq<char> {
        fingerprint_of(self.canonical_bytes())
    }

    /// Whether the stored fingerprint is that of the content.
    pub open spec fn is_fingerprinted(self) -> bool {
        self.hash == self.fingerprint()
    }

    /// The option with its fingerprint stored.
    pub open spec fn fingerprinted(self) -> Self {
        QuestionOptionView { hash: self.fingerprint(), ..self }
    }

    /// The option after processing: formatted, then fingerprinted.
    pub open spec fn processed(self) -> Self {
        self.formatted().fingerprinted()
    }

    /// Whether processing leaves the option as it is.
    pub open spec fn is_canonical(self) -> bool {
        &&& option_text(self.text, self.preserve_case) == self.text
        &&& self.is_fingerprinted()
    }
}

impl View for QuestionOptionData {
    type V = QuestionOptionView;

    open spec fn view(&self) -> QuestionOptionView {
        QuestionOptionView {
            id: self.id,
            question_id: self.question_id,
            text: self.text@,
            correct: self.correct,
            reference: self.reference,
            preserve_case: self.preserve_case,
            hash: self.hash@,
        }
    }
}

impl Hashable for QuestionOptionData {
    open spec fn well_formed(&self) -> bool {
        true
    }

    open spec fn canonical_bytes(&self) -> Seq<u8> {
        self@.canonical_bytes()
    }

    fn to_bytes(&self) -> (r: Vec<u8>) {
        self.encode()
    }

    open spec fn stored_fingerprint(&self) -> Seq<char> {
        self.hash@
    }

    fn stored_hash(&self) -> (r: Option<&str>) {
        if self.hash.as_str().is_empty() {
            None
        } else {
            Some(self.hash.as_str())
        }
    }

    fn store_hash(&mut self, hash: String) -> (stored: bool) {
        self.hash = hash;
        true
    }
}

impl Sibling for QuestionOptionData {
    open spec fn spec_blank(v: QuestionOptionView) -> bool {
        v.is_blank()
    }

    open spec fn spec_same(a: QuestionOptionView, b: QuestionOptionView) -> bool {
        a.eq_data(b)
    }

    /// The correct option comes first; then the text decides, then the
    /// identifier, and at last what else the option holds, so that no two
    /// different options stand at one place.
    open spec fn spec_not_after(a: QuestionOptionView, b: QuestionOptionView) -> bool {
        if a.correct != b.correct {
            a.correct
        } else if a.text != b.text {
            text_not_after(a.text, b.text)
        } else if a.id != b.id {
            a.id < b.id
        } else if a.question_id != b.question_id {
            a.question_id < b.question_id
        } else if a.reference != b.reference {
            a.reference < b.reference
        } else if a.preserve_case != b.preserve_case {
            b.preserve_case
        } else {
            text_not_after(a.hash, b.hash)
        }
    }

    proof fn lemma_ranking() {
        assert forall|a: QuestionOptionView, b: QuestionOptionView|
            #[trigger] Self::spec_not_after(a, b) || #[trigger] Self::spec_not_after(b, a) by {
            lemma_text_order(a.text, b.text, a.text);
            lemma_text_order(a.hash, b.hash, a.hash);
        }
        assert forall|a: QuestionOptionView, b: QuestionOptionView, c: QuestionOptionView|
            #[trigger] Self::spec_not_after(a, b) && #[trigger] Self::spec_not_after(
                b,
                c,
            ) implies Self::spec_not_after(a, c) by {
            lemma_text_order(a.text, b.text, c.text);
            lemma_text_order(c.text, a.text, b.text);
            lemma_text_order(a.hash, b.hash, c.hash);
            lemma_text_order(c.hash, a.hash, b.hash);
        }
    }

    fn blank(&self) -> (r: bool) {
        self.is_blank()
    }

    fn same(&self, other: &Self) -> (r: bool) {
        self.eq_data(other)
    }

    fn not_after(&self, other: &Self) -> (r: bool) {
        if self.correct != other.correct {
            self.correct
        } else if self.text != other.text {
            compare_texts(self.text.as_str(), other.text.as_str())
        } else if self.id != other.id {
            self.id < other.id
        } else if self.question_id != other.question_id {
            self.question_id < other.question_id
        } else if self.reference != other.reference {
            self.reference < other.reference
        } else if self.preserve_case != other.preserve_case {
            other.preserve_case
        } else {
            compare_texts(self.hash.as_str(), other.hash.as_str())
        }
    }
}

/// No two different options stand at one place in their order.
pub proof fn lemma_option_order_has_no_ties(a: QuestionOptionView, b: QuestionOptionView)
    requires
        QuestionOptionData::spec_not_after(a, b),
        QuestionOptionData::spec_not_after(b, a),
    ensures
        a == b,
{
    lemma_text_order(a.text, b.text, a.text);
    lemma_text_order(a.hash, b.hash, a.hash);
}

/// A copy of a list of options.
pub fn duplicate_options(options: &Vec<QuestionOptionData>) -> (r: Vec<QuestionOptionData>)
    ensures
        views(r@) == views(options@),
{
    let mut copy: Vec<QuestionOptionData> = Vec::new();
    let mut i: usize = 0;
    while i < options.len()
        invariant
            i <= options.len(),
            copy.len() == i,
            forall|k: int| 0 <= k < i ==> (#[trigger] copy@[k])@ == options@[k]@,
        decreases options.len() - i,
    {
        copy.push(options[i].duplicate());
        i += 1;
    }
    assert(views(copy@) =~= views(options@));
    copy
}

/// The options, each processed.
pub open spec fn processed_options(options: Seq<QuestionOptionView>) -> Seq<QuestionOptionView> {
    options.map_values(|option: QuestionOptionView| option.processed())
}

/// Processes each option of a list.
pub fn process_options(options: &mut Vec<QuestionOptionData>)
    ensures
        views(final(options)@) == processed_options(views(old(options)@)),
{
    let ghost start = options@;
    let mut i: usize = 0;
    while i < options.len()
        invariant
            i <= options.len(),
            options.len() == start.len(),
            forall|k: int| 0 <= k < i ==> (#[trigger] options@[k])@ == start[k]@.processed(),
            forall|k: int| i <= k < options.len() ==> #[trigger] options@[k] == start[k],
        decreases options.len() - i,
    {
        let _ = options[i].process();
        i += 1;
    }
    assert(views(options@) =~= processed_options(views(start)));
}

impl QuestionOptionData {
    /// Makes an option from its raw fields and processes it.
    pub fn new(
        id: u128,
        question_id: u128,
        text: String,
        correct: bool,
        reference: u16,
        preserve_case: bool,
    ) -> (r: Result<Self, ContentError>)
        ensures
            r matches Ok(option) && option@ == (QuestionOptionView {
                id,
                question_id,
                text: text@,
                correct,
                reference,
                preserve_case,
                hash: Seq::empty(),
            }).processed(),
    {
        let mut data = QuestionOptionData {
            id,
            question_id,
            text,
            correct,
            reference,
            preserve_case,
            hash: String::new(),
        };
        match data.process() {
            Ok(()) => Ok(data),
            Err(error) => Err(error),
        }
    }

    /// Formats the option, checks it and stores its fingerprint. No option is
    /// rejected.
    pub fn process(&mut self) -> (r: Result<(), ContentError>)
        ensures
            r is Ok,
            final(self)@ == old(self)@.processed(),
    {
        self.format();
        match self.check() {
            Ok(()) => {
                self.refresh_hash();
                Ok(())
            },
            Err(error) => Err(error),
        }
    }

    /// The encoding of the option.
    pub fn encode(&self) -> (r: Vec<u8>)
        ensures
            r@ == self@.canonical_bytes(),
    {
        let mut bytes: Vec<u8> = Vec::new();
        put_text(&mut bytes, "id");
        put_id(&mut bytes, self.id);
        put_text(&mut bytes, "question_id");
        put_id(&mut bytes, self.question_id);
        put_text(&mut bytes, "text");
        put_text(&mut bytes, self.text.as_str());
        put_text(&mut bytes, "correct");
        put_flag(&mut bytes, self.correct);
        assert(bytes@ =~= self@.canonical_bytes());
        bytes
    }

    /// The fingerprint of the option as it is now.
    pub fn fingerprint(&self) -> (r: String)
        ensures
            r@ == self@.fingerprint(),
    {
        let bytes = self.encode();
        digest_hex(bytes.as_slice())
    }

    /// A copy of the option.
    pub fn duplicate(&self) -> (r: Self)
        ensures
            r@ == self@,
    {
        QuestionOptionData {
            id: self.id,
            question_id: self.question_id,
            text: self.text.clone(),
            correct: self.correct,
            reference: self.reference,
            preserve_case: self.preserve_case,
            hash: self.hash.clone(),
        }
    }

    /// The option as it is shown: its text.
    pub fn to_text(&self) -> (r: String)
        ensures
            r@ == self@.text,
    {
        self.text.clone()
    }

    /// Whether the option has no text.
    pub fn is_blank(&self) -> (r: bool)
        ensures
            r == self@.is_blank(),
    {
        self.text.as_str().is_empty()
    }

    /// Whether the two options say the same, whatever their identifiers.
    pub fn eq_data(&self, other: &Self) -> (r: bool)
        ensures
            r == self@.eq_data(other@),
    {
        self.text == other.text && self.correct == other.correct
    }

    /// No rule can reject an option by itself.
    pub fn check(&self) -> (r: Result<(), ContentError>)
        ensures
            r is Ok,
    {
        Ok(())
    }

    /// Brings the text into normal form: formatted, closed by a period, and
    /// capitalized unless the option preserves its case.
    pub fn format(&mut self)
        ensures
            final(self)@ == old(self)@.formatted(),
    {
        self.text = format_text(self.text.as_str());
        if !self.text.as_str().is_empty() {
            self.ensure_text_ends_with_period();
        }
        if !self.preserve_case {
            capitalize_first_char(&mut self.text);
        }
    }

    fn ensure_text_ends_with_period(&mut self)
        requires
            old(self).text@.len() > 0,
        ensures
            final(self)@ == (QuestionOptionView {
                text: with_end_period(old(self).text@),
                ..old(self)@
            }),
    {
        let length = self.text.as_str().unicode_len();
        if self.text.as_str().get_char(length - 1) != '.' {
            push_char(&mut self.text, '.');
        }
    }

    /// Stores the fingerprint of the option as it is now.
    pub fn refresh_hash(&mut self)
        ensures
            final(self)@ == old(self)@.fingerprinted(),
    {
        self.hash = self.fingerprint();
    }
}

} // verus!

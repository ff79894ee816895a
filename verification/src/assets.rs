//! The names of image files.
//!
//! The image of a record is to be named after the record: the key of a
//! course, a bundle or an icon, the identifier of a question. This module
//! decides when a file has to be renamed and what its new name is. The
//! renaming itself is the work of the asset store: the caller hands the
//! request to the store and reports back how it went.

use crate::bundle_data::{BundleData, BundleView, BUNDLE_IMAGES_DIR_NAME};
use crate::course_data::{CourseData, CourseView};
use crate::error::ContentError;
use crate::hashing::id_bytes;
use crate::icon_data::{IconData, IconView, ICON_IMAGES_DIR_NAME};
use crate::ordering::same_text;
use crate::question_data::{QuestionData, QuestionView};
use crate::text::{full_image_path, image_path, push_char};
use vstd::prelude::*;
use vstd::string::*;

verus! {

/// A request to the asset store to rename a file.
#[derive(Clone, Debug, PartialEq, Eq)]
pub struct RenameRequest {
    /// The path of the file as it is.
    pub from: String,
    /// The path that the file is to have.
    pub to: String,
}

/// How the asset store answered a request.
#[derive(Clone, Copy, Debug, PartialEq, Eq, Structural)]
pub enum RenameOutcome {
    Renamed,
    Failed,
}

/// The place of the last period in a file name, or -1 where it has none.
pub open spec fn last_period(name: Seq<char>) -> int
    decreases name.len(),
{
    if name.len() == 0 {
        -1
    } else if name.last() == '.' {
        name.len() - 1
    } else {
        last_period(name.drop_last())
    }
}

/// Whether the file name has an extension: a period that is not its first
/// character.
pub open spec fn has_extension(name: Seq<char>) -> bool {
    last_period(name) > 0
}

/// What follows the last period of the file name, where it has an extension.
pub open spec fn file_extension(name: Seq<char>) -> Option<Seq<char>> {
    if has_extension(name) {
        Some(name.skip(last_period(name) + 1))
    } else {
        None
    }
}

/// The name that the file is to have: the canonical name, with the extension
/// that the file has now.
pub open spec fn canonical_file_name(canonical: Seq<char>, current: Seq<char>) -> Seq<char> {
    match file_extension(current) {
        Some(extension) => canonical + seq!['.'] + extension,
        None => canonical,
    }
}

/// Whether the file bears the canonical name: it is the canonical name, or
/// the canonical name with a period and an extension that holds no period. In
/// both cases the stem of the file is the canonical name.
pub open spec fn bears_name(canonical: Seq<char>, current: Seq<char>) -> bool {
    ||| current == canonical
    ||| last_period(current) == canonical.len() && current.take(canonical.len() as int)
        == canonical
}

/// Whether the file has to be renamed: its stem is not the canonical name.
pub open spec fn needs_rename(canonical: Seq<char>, current: Seq<char>) -> bool {
    !bears_name(canonical, current)
}

/// The name of the file once the asset store has renamed it where that was
/// due.
pub open spec fn renamed_name(canonical: Seq<char>, current: Seq<char>) -> Seq<char> {
    if needs_rename(canonical, current) {
        canonical_file_name(canonical, current)
    } else {
        current
    }
}

/// The character of a hexadecimal digit, in lower case.
pub open spec fn hex_digit(n: int) -> char
    recommends
        0 <= n < 16,
{
    if n < 10 {
        (('0' as u32) + n) as char
    } else {
        (('a' as u32) + n - 10) as char
    }
}

/// The bytes in hexadecimal, two digits each.
pub open spec fn hex_text(bytes: Seq<u8>) -> Seq<char>
    decreases bytes.len(),
{
    if bytes.len() == 0 {
        Seq::empty()
    } else {
        hex_text(bytes.drop_last()) + seq![
            hex_digit(bytes.last() as int / 16),
            hex_digit(bytes.last() as int % 16),
        ]
    }
}

/// The written form of an identifier: its 16 bytes in hexadecimal, in groups
/// of 8, 4, 4, 4 and 12 digits with hyphens between them.
pub open spec fn id_text(id: u128) -> Seq<char> {
    let digits = hex_text(id_bytes(id));
    digits.subrange(0, 8) + seq!['-'] + digits.subrange(8, 12) + seq!['-'] + digits.subrange(
        12,
        16,
    ) + seq!['-'] + digits.subrange(16, 20) + seq!['-'] + digits.subrange(20, 32)
}

/// `Uuid::from_u128` and the `Display` of the identifier it makes: lower-case
/// hexadecimal digits of the 16 bytes, highest first, with hyphens after the
/// 8th, 12th, 16th and 20th digit.
#[verifier::external_body]
pub(crate) fn print_id(id: u128) -> (r: String)
    ensures
        r@ == id_text(id),
{
    uuid::Uuid::from_u128(id).to_string()
}

/// The last period of a name lies in the name, and nothing behind it is a
/// period.
pub proof fn lemma_last_period(name: Seq<char>)
    ensures
        -1 <= last_period(name) < name.len(),
        last_period(name) >= 0 ==> name[last_period(name)] == '.',
        forall|i: int| last_period(name) < i < name.len() ==> #[trigger] name[i] != '.',
    decreases name.len(),
{
    if name.len() > 0 && name.last() != '.' {
        lemma_last_period(name.drop_last());
        assert forall|i: int| last_period(name) < i < name.len() implies #[trigger] name[i]
            != '.' by {
            if i < name.len() - 1 {
                assert(name.drop_last()[i] == name[i]);
            }
        }
    }
}

/// A period with no period behind it is the last one.
pub proof fn lemma_last_period_is(name: Seq<char>, place: int)
    requires
        0 <= place < name.len(),
        name[place] == '.',
        forall|i: int| place < i < name.len() ==> #[trigger] name[i] != '.',
    ensures
        last_period(name) == place,
    decreases name.len(),
{
    if name.len() - 1 > place {
        assert(name[name.len() - 1] != '.');
        let rest = name.drop_last();
        assert forall|i: int| place < i < rest.len() implies #[trigger] rest[i] != '.' by {
            assert(rest[i] == name[i]);
        }
        lemma_last_period_is(rest, place);
    }
}

/// A file that was renamed bears its canonical name, so that no further
/// rename is due and a second pass changes nothing.
pub proof fn lemma_rename_settles(canonical: Seq<char>, current: Seq<char>)
    ensures
        !needs_rename(canonical, canonical_file_name(canonical, current)),
        !needs_rename(canonical, renamed_name(canonical, current)),
        renamed_name(canonical, renamed_name(canonical, current)) == renamed_name(
            canonical,
            current,
        ),
{
    let renamed = canonical_file_name(canonical, current);
    if has_extension(current) {
        let extension = current.skip(last_period(current) + 1);
        lemma_last_period(current);
        assert forall|i: int| canonical.len() < i < renamed.len() implies #[trigger] renamed[i]
            != '.' by {
            assert(renamed[i] == extension[i - canonical.len() - 1]);
            assert(extension[i - canonical.len() - 1] == current[last_period(current) + 1 + (i
                - canonical.len() - 1)]);
        }
        assert(renamed[canonical.len() as int] == '.');
        lemma_last_period_is(renamed, canonical.len() as int);
        assert(renamed.take(canonical.len() as int) =~= canonical);
    }
}

/// The place of the last period of the name, if it has one.
fn find_last_period(name: &str) -> (r: Option<usize>)
    ensures
        match r {
            Some(place) => place == last_period(name@),
            None => last_period(name@) == -1,
        },
{
    let length = name.unicode_len();
    let mut found: Option<usize> = None;
    let mut count: usize = 0;
    assert(name@.take(0) =~= Seq::<char>::empty());
    for c in it: name.chars()
        invariant
            it.seq() == name@,
            length == name@.len(),
            count == it.index(),
            match found {
                Some(place) => place == last_period(name@.take(count as int)),
                None => last_period(name@.take(count as int)) == -1,
            },
    {
        proof {
            let next = name@.take(count + 1);
            assert(next.drop_last() =~= name@.take(count as int));
            assert(next.last() == c);
        }
        if c == '.' {
            found = Some(count);
        }
        count += 1;
    }
    assert(name@.take(count as int) =~= name@);
    found
}

/// The name that the file is to have.
pub fn canonical_name_for(canonical: &str, current: &str) -> (r: String)
    ensures
        r@ == canonical_file_name(canonical@, current@),
{
    let length = current.unicode_len();
    let mut name = String::from_str(canonical);
    match find_last_period(current) {
        Some(place) => {
            if place > 0 {
                proof {
                    lemma_last_period(current@);
                }
                push_char(&mut name, '.');
                name.append(current.substring_char(place + 1, length));
                assert(name@ =~= canonical_file_name(canonical@, current@));
            }
        },
        None => {},
    }
    name
}

/// Whether the file has another stem than the canonical name.
pub fn stem_differs(canonical: &str, current: &str) -> (r: bool)
    ensures
        r == needs_rename(canonical@, current@),
{
    if same_text(current, canonical) {
        return false;
    }
    let length = canonical.unicode_len();
    match find_last_period(current) {
        Some(place) => {
            if place == length {
                proof {
                    lemma_last_period(current@);
                    assert(current@.subrange(0, place as int) =~= current@.take(place as int));
                }
                let stem = current.substring_char(0, place);
                !same_text(stem, canonical)
            } else {
                true
            }
        },
        None => true,
    }
}

/// The paths of a request.
pub open spec fn request_view(request: Option<RenameRequest>) -> Option<(Seq<char>, Seq<char>)> {
    match request {
        Some(r) => Some((r.from@, r.to@)),
        None => None,
    }
}

/// The rename that is due for the image `current` in `directory`: none where
/// its stem is the canonical name, else from its path to the path of its
/// canonical file name.
pub open spec fn rename_plan(directory: Seq<char>, canonical: Seq<char>, current: Seq<char>)
    -> Option<(Seq<char>, Seq<char>)> {
    if needs_rename(canonical, current) {
        Some(
            (
                image_path(directory, current),
                image_path(directory, canonical_file_name(canonical, current)),
            ),
        )
    } else {
        None
    }
}

/// Decides whether the image `current` in `directory` has to be renamed to
/// bear the canonical name, and to what.
pub fn plan_rename(directory: &str, canonical: &str, current: &str) -> (r: Option<RenameRequest>)
    ensures
        request_view(r) == rename_plan(directory@, canonical@, current@),
{
    if !stem_differs(canonical, current) {
        return None;
    }
    let renamed = canonical_name_for(canonical, current);
    Some(
        RenameRequest {
            from: full_image_path(directory, current),
            to: full_image_path(directory, renamed.as_str()),
        },
    )
}

/// The file name after the asset store has answered: the new name where it
/// renamed the file, the old one and an error where it failed. A file for
/// which no rename was due keeps its name.
pub open spec fn after_rename(canonical: Seq<char>, current: Seq<char>, outcome: RenameOutcome) -> (
    Seq<char>,
    Result<(), ContentError>,
) {
    match outcome {
        RenameOutcome::Renamed => (renamed_name(canonical, current), Ok(())),
        RenameOutcome::Failed => (current, Err(ContentError::AssetRename)),
    }
}

/// Takes the answer of the asset store to the request that `plan_rename`
/// made for `current`: where the file was renamed, the reference becomes the
/// new name; where the store failed, the reference stays and the error is
/// returned.
pub fn complete_rename(current: &mut String, canonical: &str, outcome: RenameOutcome) -> (r:
    Result<(), ContentError>)
    ensures
        (final(current)@, r) == after_rename(canonical@, old(current)@, outcome),
{
    match outcome {
        RenameOutcome::Renamed => {
            if stem_differs(canonical, current.as_str()) {
                let renamed = canonical_name_for(canonical, current.as_str());
                *current = renamed;
            }
            Ok(())
        },
        RenameOutcome::Failed => Err(ContentError::AssetRename),
    }
}

impl CourseView {
    /// The course after the asset store has answered the request for its
    /// image, which is named after the key of the course: where the file was
    /// renamed, the course refers to the new name and is processed anew.
    pub open spec fn after_image_rename(self, outcome: RenameOutcome) -> (
        Self,
        Result<(), ContentError>,
    ) {
        let changed = CourseView {
            image_file_name: renamed_name(self.key, self.image_file_name),
            ..self
        };
        match outcome {
            RenameOutcome::Renamed => (changed.processed(), changed.canonicalized().check()),
            RenameOutcome::Failed => (self, Err(ContentError::AssetRename)),
        }
    }
}

impl CourseData {
    /// The rename that is due for the image of the course.
    pub fn plan_image_rename(&self) -> (r: Option<RenameRequest>)
        ensures
            request_view(r) == rename_plan(self@.key, self@.key, self@.image_file_name),
    {
        plan_rename(self.key.as_str(), self.key.as_str(), self.image_file_name.as_str())
    }

    /// Takes the answer of the asset store to the planned rename.
    pub fn complete_image_rename(&mut self, outcome: RenameOutcome) -> (r: Result<
        (),
        ContentError,
    >)
        ensures
            (final(self)@, r) == old(self)@.after_image_rename(outcome),
    {
        match complete_rename(&mut self.image_file_name, self.key.as_str(), outcome) {
            Ok(()) => self.process(),
            Err(error) => Err(error),
        }
    }
}

impl QuestionView {
    /// The question after the asset store has answered the request for its
    /// image, which is named after the identifier of the question.
    pub open spec fn after_image_rename(self, outcome: RenameOutcome) -> (
        Self,
        Result<(), ContentError>,
    ) {
        match (outcome, self.image_file_name) {
            (RenameOutcome::Failed, _) => (self, Err(ContentError::AssetRename)),
            (RenameOutcome::Renamed, None) => (self, Ok(())),
            (RenameOutcome::Renamed, Some(name)) => {
                let changed = QuestionView {
                    image_file_name: Some(renamed_name(id_text(self.id), name)),
                    ..self
                };
                (changed.processed(), changed.canonicalized().check())
            },
        }
    }
}

impl QuestionData {
    /// The rename that is due for the image of the question, if it has one.
    pub fn plan_image_rename(&self) -> (r: Option<RenameRequest>)
        ensures
            request_view(r) == match self@.image_file_name {
                Some(name) => rename_plan(self@.course_key, id_text(self.id), name),
                None => None,
            },
    {
        match &self.image_file_name {
            Some(name) => {
                let canonical = print_id(self.id);
                plan_rename(self.course_key.as_str(), canonical.as_str(), name.as_str())
            },
            None => None,
        }
    }

    /// Takes the answer of the asset store to the planned rename.
    pub fn complete_image_rename(&mut self, outcome: RenameOutcome) -> (r: Result<
        (),
        ContentError,
    >)
        ensures
            (final(self)@, r) == old(self)@.after_image_rename(outcome),
    {
        let canonical = print_id(self.id);
        match &mut self.image_file_name {
            Some(name) => {
                match complete_rename(name, canonical.as_str(), outcome) {
                    Ok(()) => {},
                    Err(error) => {
                        return Err(error);
                    },
                }
            },
            None => {
                return match outcome {
                    RenameOutcome::Renamed => Ok(()),
                    RenameOutcome::Failed => Err(ContentError::AssetRename),
                };
            },
        }
        self.process()
    }
}

impl BundleView {
    /// The bundle after the asset store has answered the request for its
    /// image, which is named after the key of the bundle.
    pub open spec fn after_image_rename(self, outcome: RenameOutcome) -> (
        Self,
        Result<(), ContentError>,
    ) {
        let changed = BundleView {
            image_file_name: renamed_name(self.key, self.image_file_name),
            ..self
        };
        match outcome {
            RenameOutcome::Renamed => (changed.processed(), changed.formatted().check()),
            RenameOutcome::Failed => (self, Err(ContentError::AssetRename)),
        }
    }
}

impl BundleData {
    /// The rename that is due for the image of the bundle.
    pub fn plan_image_rename(&self) -> (r: Option<RenameRequest>)
        ensures
            request_view(r) == rename_plan(
                BUNDLE_IMAGES_DIR_NAME@,
                self@.key,
                self@.image_file_name,
            ),
    {
        plan_rename(BUNDLE_IMAGES_DIR_NAME, self.key.as_str(), self.image_file_name.as_str())
    }

    /// Takes the answer of the asset store to the planned rename.
    pub fn complete_image_rename(&mut self, outcome: RenameOutcome) -> (r: Result<
        (),
        ContentError,
    >)
        ensures
            (final(self)@, r) == old(self)@.after_image_rename(outcome),
    {
        match complete_rename(&mut self.image_file_name, self.key.as_str(), outcome) {
            Ok(()) => self.process(),
            Err(error) => Err(error),
        }
    }
}

impl IconView {
    /// The icon after the asset store has answered the request for its image,
    /// which is named after the key of the icon.
    pub open spec fn after_image_rename(self, outcome: RenameOutcome) -> (
        Self,
        Result<(), ContentError>,
    ) {
        let changed = IconView {
            image_file_name: renamed_name(self.key, self.image_file_name),
            ..self
        };
        match outcome {
            RenameOutcome::Renamed => (changed.processed(), changed.formatted().check()),
            RenameOutcome::Failed => (self, Err(ContentError::AssetRename)),
        }
    }
}

impl IconData {
    /// The rename that is due for the image of the icon.
    pub fn plan_image_rename(&self) -> (r: Option<RenameRequest>)
        ensures
            request_view(r) == rename_plan(
                ICON_IMAGES_DIR_NAME@,
                self@.key,
                self@.image_file_name,
            ),
    {
        plan_rename(ICON_IMAGES_DIR_NAME, self.key.as_str(), self.image_file_name.as_str())
    }

    /// Takes the answer of the asset store to the planned rename.
    pub fn complete_image_rename(&mut self, outcome: RenameOutcome) -> (r: Result<
        (),
        ContentError,
    >)
        ensures
            (final(self)@, r) == old(self)@.after_image_rename(outcome),
    {
        match complete_rename(&mut self.image_file_name, self.key.as_str(), outcome) {
            Ok(()) => self.process(),
            Err(error) => Err(error),
        }
    }
}

} // verus!

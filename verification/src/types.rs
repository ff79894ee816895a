//! What a synchronization cycle takes and gives: the fingerprints recorded
//! by the last cycle, and the records to write and the keys to delete.

use crate::bundle_data::BundleData;
use crate::course_data::CourseData;
use crate::icon_data::IconData;
use crate::question_data::QuestionData;
use crate::question_option_data::QuestionOptionData;
use crate::question_source_data::QuestionSourceData;
use crate::question_topic_data::QuestionTopicData;
use crate::values::{decimal_digits, number_text};
use vstd::prelude::*;
use vstd::string::*;

verus! {

/// A key of a record in its collection: a text or an identifier.
pub trait SyncKey: View + Sized {
    /// Whether the two keys are one key.
    fn same_key(&self, other: &Self) -> (r: bool)
        ensures
            r == (self@ == other@),
    ;

    /// A copy of the key.
    fn copy_key(&self) -> (r: Self)
        ensures
            r@ == self@,
    ;
}

impl SyncKey for String {
    fn same_key(&self, other: &Self) -> (r: bool) {
        *self == *other
    }

    fn copy_key(&self) -> (r: Self) {
        self.clone()
    }
}

impl SyncKey for u128 {
    fn same_key(&self, other: &Self) -> (r: bool) {
        *self == *other
    }

    fn copy_key(&self) -> (r: Self) {
        *self
    }
}

/// The fingerprint that was recorded for a key.
#[derive(Clone, Debug, PartialEq, Eq)]
pub struct SyncRecord<K> {
    pub key: K,
    pub hash: String,
}

/// The fingerprints that the last cycle recorded for one collection, by key.
/// No key is recorded twice.
#[derive(Clone, Debug, PartialEq, Eq)]
pub struct SyncRecords<K> {
    entries: Vec<SyncRecord<K>>,
}

/// The records to write and the keys to delete in one collection.
#[derive(Clone, Debug, PartialEq, Eq)]
pub struct ElementSyncData<T, K> {
    pub for_sync: Vec<T>,
    pub for_deletion: Vec<K>,
}

/// What is to be written and deleted in the collections of courses.
pub type CoursesSyncData = ElementSyncData<CourseData, String>;

/// What is to be written and deleted in the collection of questions.
pub type QuestionsSyncData = ElementSyncData<QuestionData, u128>;

/// What is to be written and deleted in the collection of options.
pub type QuestionOptionsSyncData = ElementSyncData<QuestionOptionData, u128>;

/// What is to be written and deleted in the collection of topics.
pub type QuestionTopicsSyncData = ElementSyncData<QuestionTopicData, String>;

/// What is to be written and deleted in the collection of sources.
pub type QuestionSourcesSyncData = ElementSyncData<QuestionSourceData, String>;

/// What is to be written and deleted in the collection of bundles.
pub type BundlesSyncData = ElementSyncData<BundleData, String>;

/// What is to be written and deleted in the collection of icons.
pub type IconsSyncData = ElementSyncData<IconData, String>;

/// What a cycle writes and deletes, collection by collection.
#[derive(Clone, Debug, PartialEq, Eq)]
pub struct SyncData {
    pub courses: CoursesSyncData,
    pub questions: QuestionsSyncData,
    pub question_options: QuestionOptionsSyncData,
    pub question_topics: QuestionTopicsSyncData,
    pub question_sources: QuestionSourcesSyncData,
    pub bundles: BundlesSyncData,
    pub icons: IconsSyncData,
}

/// What the last cycle recorded, collection by collection. Topics and
/// sources have no fingerprint of their own: each of their keys is recorded
/// with the empty fingerprint.
#[derive(Clone, Debug, PartialEq, Eq)]
pub struct SyncMetadata {
    pub courses: SyncRecords<String>,
    pub questions: SyncRecords<u128>,
    pub question_options: SyncRecords<u128>,
    pub question_topics: SyncRecords<String>,
    pub question_sources: SyncRecords<String>,
    pub bundles: SyncRecords<String>,
    pub icons: SyncRecords<String>,
}

/// The views of the keys of a list.
pub open spec fn key_views<K: View>(keys: Seq<K>) -> Seq<K::V> {
    keys.map_values(|key: K| key@)
}

/// The recorded pairs of key and fingerprint as a map. A later pair replaces
/// an earlier one with the same key.
pub open spec fn recorded<K: View>(entries: Seq<SyncRecord<K>>) -> Map<K::V, Seq<char>>
    decreases entries.len(),
{
    if entries.len() == 0 {
        Map::empty()
    } else {
        recorded(entries.drop_last()).insert(entries.last().key@, entries.last().hash@)
    }
}

/// The keys of recorded pairs, in their order.
pub open spec fn recorded_keys<K: View>(entries: Seq<SyncRecord<K>>) -> Seq<K::V> {
    entries.map_values(|entry: SyncRecord<K>| entry.key@)
}

/// A key is recorded exactly when a pair holds it, and where no key is held
/// twice each pair gives the fingerprint of its key.
pub proof fn lemma_recorded<K: View>(entries: Seq<SyncRecord<K>>)
    ensures
        forall|key: K::V|
            #[trigger] recorded(entries).contains_key(key) <==> recorded_keys(entries).contains(
                key,
            ),
        recorded_keys(entries).no_duplicates() ==> forall|i: int|
            0 <= i < entries.len() ==> recorded(entries)[(#[trigger] entries[i]).key@]
                == entries[i].hash@,
        recorded(entries).dom().finite(),
    decreases entries.len(),
{
    let keys = recorded_keys(entries);
    if entries.len() > 0 {
        let rest = entries.drop_last();
        let rest_keys = recorded_keys(rest);
        lemma_recorded(rest);
        assert(rest_keys =~= keys.drop_last());
        assert forall|key: K::V| #[trigger]
            recorded(entries).contains_key(key) <==> keys.contains(key) by {
            if keys.contains(key) {
                let i = choose|i: int| 0 <= i < keys.len() && keys[i] == key;
                if i < rest.len() {
                    assert(rest_keys[i] == key);
                    assert(rest_keys.contains(key));
                }
            }
            if recorded(entries).contains_key(key) {
                if key == entries.last().key@ {
                    assert(keys[keys.len() - 1] == key);
                } else {
                    assert(rest_keys.contains(key));
                    let i = choose|i: int| 0 <= i < rest_keys.len() && rest_keys[i] == key;
                    assert(keys[i] == key);
                }
            }
        }
        if keys.no_duplicates() {
            assert(rest_keys.no_duplicates());
            assert forall|i: int| 0 <= i < entries.len() implies recorded(entries)[(
            #[trigger] entries[i]).key@] == entries[i].hash@ by {
                if i < rest.len() {
                    assert(rest[i] == entries[i]);
                    assert(keys[i] != keys[keys.len() - 1]);
                }
            }
        }
    } else {
        assert forall|key: K::V| #[trigger]
            recorded(entries).contains_key(key) <==> keys.contains(key) by {}
    }
}

impl<K: SyncKey> View for SyncRecords<K> {
    type V = Map<K::V, Seq<char>>;

    closed spec fn view(&self) -> Map<K::V, Seq<char>> {
        recorded(self.entries@)
    }
}

impl<K: SyncKey> SyncRecords<K> {
    /// No key is recorded twice.
    pub closed spec fn wf(&self) -> bool {
        recorded_keys(self.entries@).no_duplicates()
    }

    /// The recorded keys, in the order in which they were recorded first.
    pub closed spec fn keys(&self) -> Seq<K::V> {
        recorded_keys(self.entries@)
    }

    /// The keys are those of the map, each once.
    pub proof fn lemma_keys(&self)
        requires
            self.wf(),
        ensures
            self.keys().no_duplicates(),
            forall|key: K::V| self.keys().contains(key) <==> #[trigger] self@.contains_key(key),
            self@.dom().finite(),
    {
        lemma_recorded(self.entries@);
    }

    /// Records of a collection that was never synchronized.
    pub fn new() -> (r: Self)
        ensures
            r.wf(),
            r@ == Map::<K::V, Seq<char>>::empty(),
    {
        SyncRecords { entries: Vec::new() }
    }

    /// The number of recorded keys.
    pub fn len(&self) -> (r: usize)
        requires
            self.wf(),
        ensures
            r == self@.dom().len(),
            r == self.keys().len(),
    {
        proof {
            lemma_recorded(self.entries@);
            let keys = recorded_keys(self.entries@);
            keys.unique_seq_to_set();
            assert(keys.to_set() =~= self@.dom());
        }
        self.entries.len()
    }

    /// The place of the pair with that key, or the number of pairs where the
    /// key is not recorded.
    fn place(&self, key: &K) -> (r: usize)
        ensures
            r <= self.entries.len(),
            r < self.entries.len() ==> self.entries@[r as int].key@ == key@,
            r == self.entries.len() ==> !recorded_keys(self.entries@).contains(key@),
    {
        let ghost keys = recorded_keys(self.entries@);
        let mut i: usize = 0;
        while i < self.entries.len()
            invariant
                i <= self.entries.len(),
                keys == recorded_keys(self.entries@),
                forall|k: int| 0 <= k < i ==> #[trigger] keys[k] != key@,
            decreases self.entries.len() - i,
        {
            if self.entries[i].key.same_key(key) {
                return i;
            }
            assert(keys[i as int] == self.entries@[i as int].key@);
            i += 1;
        }
        i
    }

    /// Whether a fingerprint is recorded for the key.
    pub fn contains_key(&self, key: &K) -> (r: bool)
        ensures
            r == self@.contains_key(key@),
    {
        proof {
            lemma_recorded(self.entries@);
        }
        let place = self.place(key);
        if place < self.entries.len() {
            assert(recorded_keys(self.entries@)[place as int] == key@);
        }
        place < self.entries.len()
    }

    /// The fingerprint recorded for the key, if there is one.
    pub fn get(&self, key: &K) -> (r: Option<&String>)
        requires
            self.wf(),
        ensures
            match r {
                Some(hash) => self@.contains_key(key@) && hash@ == self@[key@],
                None => !self@.contains_key(key@),
            },
    {
        proof {
            lemma_recorded(self.entries@);
        }
        let place = self.place(key);
        if place < self.entries.len() {
            assert(recorded_keys(self.entries@)[place as int] == key@);
            Some(&self.entries[place].hash)
        } else {
            None
        }
    }

    /// Records the fingerprint for the key, in place of the one recorded
    /// before if there was one.
    pub fn insert(&mut self, key: K, hash: String)
        requires
            old(self).wf(),
        ensures
            final(self).wf(),
            final(self)@ == old(self)@.insert(key@, hash@),
    {
        let place = self.place(&key);
        let ghost before = self.entries@;
        proof {
            lemma_recorded(before);
        }
        if place < self.entries.len() {
            self.entries[place].hash = hash;
            proof {
                let after = self.entries@;
                assert(recorded_keys(after) =~= recorded_keys(before));
                lemma_recorded(after);
                assert(recorded_keys(before)[place as int] == key@);
                assert forall|k: K::V| #[trigger]
                    recorded(after).contains_key(k) <==> recorded(before).insert(
                        key@,
                        hash@,
                    ).contains_key(k) by {}
                assert forall|k: K::V| #[trigger] recorded(after).contains_key(k) implies recorded(
                    after,
                )[k] == recorded(before).insert(key@, hash@)[k] by {
                    assert(recorded_keys(after).contains(k));
                    let i = choose|i: int|
                        0 <= i < recorded_keys(after).len() && recorded_keys(after)[i] == k;
                    assert(after[i].key@ == k);
                    assert(before[i].key@ == k);
                    if i != place {
                        assert(after[i] == before[i]);
                    }
                }
                assert(recorded(after) =~= recorded(before).insert(key@, hash@));
            }
        } else {
            self.entries.push(SyncRecord { key, hash });
            proof {
                let after = self.entries@;
                assert(after.drop_last() =~= before);
                assert(recorded_keys(after) =~= recorded_keys(before).push(key@));
            }
        }
    }

    /// Records the key of a collection without fingerprints.
    pub fn insert_key(&mut self, key: K)
        requires
            old(self).wf(),
        ensures
            final(self).wf(),
            final(self)@ == old(self)@.insert(key@, Seq::<char>::empty()),
    {
        self.insert(key, String::new());
    }

    /// The recorded pair at a place.
    pub(crate) fn entry(&self, place: usize) -> (r: &SyncRecord<K>)
        requires
            place < self.keys().len(),
        ensures
            r.key@ == self.keys()[place as int],
    {
        &self.entries[place]
    }

    /// The number of recorded pairs.
    pub(crate) fn count(&self) -> (r: usize)
        ensures
            r == self.keys().len(),
    {
        self.entries.len()
    }
}

/// A difference in words: how many records are to be written and how many
/// keys to be deleted.
pub open spec fn counts_text(for_sync: nat, for_deletion: nat) -> Seq<char> {
    "(sync: "@ + decimal_digits(for_sync) + "; delete: "@ + decimal_digits(for_deletion) + ")"@
}

impl<T, K> ElementSyncData<T, K> {
    /// The difference in words.
    pub open spec fn text(&self) -> Seq<char> {
        counts_text(self.for_sync@.len(), self.for_deletion@.len())
    }

    /// The difference in words: `(sync: 2; delete: 1)`.
    pub fn to_text(&self) -> (r: String)
        ensures
            r@ == self.text(),
    {
        let mut text = String::from_str("(sync: ");
        text.append(number_text(self.for_sync.len()).as_str());
        text.append("; delete: ");
        text.append(number_text(self.for_deletion.len()).as_str());
        text.append(")");
        text
    }

    /// Nothing to write and nothing to delete.
    pub fn new() -> (r: Self)
        ensures
            r.for_sync@.len() == 0,
            r.for_deletion@.len() == 0,
    {
        ElementSyncData { for_sync: Vec::new(), for_deletion: Vec::new() }
    }

    /// Whether there is nothing to write and nothing to delete.
    pub fn is_empty(&self) -> (r: bool)
        ensures
            r == (self.for_sync@.len() == 0 && self.for_deletion@.len() == 0),
    {
        self.for_sync.len() == 0 && self.for_deletion.len() == 0
    }

    /// How many records are to be written and how many keys to be deleted.
    pub fn counts(&self) -> (r: (usize, usize))
        ensures
            r.0 == self.for_sync@.len(),
            r.1 == self.for_deletion@.len(),
    {
        (self.for_sync.len(), self.for_deletion.len())
    }
}

impl<T, K> Default for ElementSyncData<T, K> {
    fn default() -> (r: Self)
        ensures
            r.for_sync@.len() == 0,
            r.for_deletion@.len() == 0,
    {
        ElementSyncData::new()
    }
}

impl Default for SyncData {
    fn default() -> (r: Self)
        ensures
            r.spec_is_empty(),
    {
        SyncData::new()
    }
}

impl SyncData {
    /// The differences of all collections in words, one line each.
    pub open spec fn text(&self) -> Seq<char> {
        "Courses: "@ + self.courses.text() + "\nQuestions: "@ + self.questions.text()
            + "\nQuestion options: "@ + self.question_options.text() + "\nQuestion topics: "@
            + self.question_topics.text() + "\nQuestion sources: "@
            + self.question_sources.text() + "\nBundles: "@ + self.bundles.text() + "\nIcons: "@
            + self.icons.text()
    }

    /// The differences of all collections in words, one line each.
    pub fn to_text(&self) -> (r: String)
        ensures
            r@ == self.text(),
    {
        let mut text = String::from_str("Courses: ");
        text.append(self.courses.to_text().as_str());
        text.append("\nQuestions: ");
        text.append(self.questions.to_text().as_str());
        text.append("\nQuestion options: ");
        text.append(self.question_options.to_text().as_str());
        text.append("\nQuestion topics: ");
        text.append(self.question_topics.to_text().as_str());
        text.append("\nQuestion sources: ");
        text.append(self.question_sources.to_text().as_str());
        text.append("\nBundles: ");
        text.append(self.bundles.to_text().as_str());
        text.append("\nIcons: ");
        text.append(self.icons.to_text().as_str());
        text
    }

    /// A cycle that writes nothing and deletes nothing.
    pub fn new() -> (r: Self)
        ensures
            r.spec_is_empty(),
    {
        SyncData {
            courses: ElementSyncData::new(),
            questions: ElementSyncData::new(),
            question_options: ElementSyncData::new(),
            question_topics: ElementSyncData::new(),
            question_sources: ElementSyncData::new(),
            bundles: ElementSyncData::new(),
            icons: ElementSyncData::new(),
        }
    }

    /// Whether no collection has anything to write or delete.
    pub open spec fn spec_is_empty(&self) -> bool {
        &&& self.courses.for_sync@.len() == 0 && self.courses.for_deletion@.len() == 0
        &&& self.questions.for_sync@.len() == 0 && self.questions.for_deletion@.len() == 0
        &&& self.question_options.for_sync@.len() == 0 && self.question_options.for_deletion@.len()
            == 0
        &&& self.question_topics.for_sync@.len() == 0 && self.question_topics.for_deletion@.len()
            == 0
        &&& self.question_sources.for_sync@.len() == 0
            && self.question_sources.for_deletion@.len() == 0
        &&& self.bundles.for_sync@.len() == 0 && self.bundles.for_deletion@.len() == 0
        &&& self.icons.for_sync@.len() == 0 && self.icons.for_deletion@.len() == 0
    }

    #[verifier::when_used_as_spec(spec_is_empty)]
    pub fn is_empty(&self) -> (r: bool)
        ensures
            r == self.spec_is_empty(),
    {
        self.courses.is_empty() && self.questions.is_empty() && self.question_options.is_empty()
            && self.question_topics.is_empty() && self.question_sources.is_empty()
            && self.bundles.is_empty() && self.icons.is_empty()
    }
}

impl SyncMetadata {
    /// What is recorded before the first cycle: nothing.
    pub fn new() -> (r: Self)
        ensures
            r.wf(),
            r.courses@ == Map::<Seq<char>, Seq<char>>::empty(),
            r.questions@ == Map::<u128, Seq<char>>::empty(),
            r.question_options@ == Map::<u128, Seq<char>>::empty(),
            r.question_topics@ == Map::<Seq<char>, Seq<char>>::empty(),
            r.question_sources@ == Map::<Seq<char>, Seq<char>>::empty(),
            r.bundles@ == Map::<Seq<char>, Seq<char>>::empty(),
            r.icons@ == Map::<Seq<char>, Seq<char>>::empty(),
    {
        SyncMetadata {
            courses: SyncRecords::new(),
            questions: SyncRecords::new(),
            question_options: SyncRecords::new(),
            question_topics: SyncRecords::new(),
            question_sources: SyncRecords::new(),
            bundles: SyncRecords::new(),
            icons: SyncRecords::new(),
        }
    }

    /// In no collection is a key recorded twice.
    pub open spec fn wf(&self) -> bool {
        &&& self.courses.wf()
        &&& self.questions.wf()
        &&& self.question_options.wf()
        &&& self.question_topics.wf()
        &&& self.question_sources.wf()
        &&& self.bundles.wf()
        &&& self.icons.wf()
    }
}

} // verus!

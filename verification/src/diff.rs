//! The difference between the records of a collection as they are now and
//! the fingerprints that the last cycle recorded for it.

use crate::bundle_data::{BundleData, BundleView};
use crate::content::CurrentContent;
use crate::course_data::{CourseData, CourseView};
use crate::error::ContentError;
use crate::icon_data::{IconData, IconView};
use crate::ordering::{lemma_filter_keeps, same_text};
use crate::question_data::{QuestionData, QuestionView};
use crate::question_option_data::{QuestionOptionData, QuestionOptionView};
use crate::question_source_data::{QuestionSourceData, QuestionSourceView};
use crate::question_topic_data::{QuestionTopicData, QuestionTopicView};
use crate::siblings::views;
use crate::types::{key_views, ElementSyncData, SyncData, SyncKey, SyncMetadata, SyncRecords};
use vstd::prelude::*;
use vstd::string::*;

verus! {

/// A record of a collection that is synchronized: it has a key, which is its
/// own in the collection, and a fingerprint.
pub trait Synced: View + Sized {
    type Key: SyncKey;

    /// Whether the key of the record can be formed.
    spec fn spec_ready(v: Self::V) -> bool;

    /// The key of the record.
    spec fn spec_key(v: Self::V) -> <Self::Key as View>::V;

    /// The fingerprint by which a change of the record is seen.
    spec fn spec_print(v: Self::V) -> Seq<char>;

    fn sync_key(&self) -> (r: Self::Key)
        requires
            Self::spec_ready(self@),
        ensures
            r@ == Self::spec_key(self@),
    ;

    /// Whether `hash` is the fingerprint of the record.
    fn has_print(&self, hash: &str) -> (r: bool)
        ensures
            r == (Self::spec_print(self@) == hash@),
    ;
}

/// The keys of the records, in their order.
pub open spec fn sync_keys<T: Synced>(items: Seq<T::V>) -> Seq<<T::Key as View>::V> {
    items.map_values(|item: T::V| T::spec_key(item))
}

/// Whether the key of each record can be formed.
pub open spec fn all_ready<T: Synced>(items: Seq<T::V>) -> bool {
    forall|i: int| 0 <= i < items.len() ==> T::spec_ready(#[trigger] items[i])
}

/// Whether a record is new or changed: no fingerprint is recorded for its
/// key, or another one than it has now.
pub open spec fn is_changed_record<T: Synced>(
    previous: Map<<T::Key as View>::V, Seq<char>>,
    item: T::V,
) -> bool {
    !previous.contains_key(T::spec_key(item)) || previous[T::spec_key(item)] != T::spec_print(
        item,
    )
}

/// The test for a record that is new or changed.
pub open spec fn is_changed<T: Synced>(
    previous: Map<<T::Key as View>::V, Seq<char>>,
) -> spec_fn(T::V) -> bool {
    |item: T::V| is_changed_record::<T>(previous, item)
}

/// The records that are to be written: those that are new or changed, in
/// their order.
pub open spec fn records_for_sync<T: Synced>(
    current: Seq<T::V>,
    previous: Map<<T::Key as View>::V, Seq<char>>,
) -> Seq<T::V> {
    current.filter(is_changed::<T>(previous))
}

/// Whether a key is to be deleted: it is recorded, and no record has it now.
pub open spec fn is_for_deletion<T: Synced>(
    current: Seq<T::V>,
    previous: Map<<T::Key as View>::V, Seq<char>>,
    key: <T::Key as View>::V,
) -> bool {
    previous.contains_key(key) && !sync_keys::<T>(current).contains(key)
}

/// The keys of the records.
fn collect_keys<T: Synced>(items: &Vec<T>) -> (r: Vec<T::Key>)
    requires
        all_ready::<T>(views(items@)),
    ensures
        key_views(r@) == sync_keys::<T>(views(items@)),
{
    let mut keys: Vec<T::Key> = Vec::new();
    let mut i: usize = 0;
    while i < items.len()
        invariant
            i <= items.len(),
            all_ready::<T>(views(items@)),
            keys.len() == i,
            forall|k: int| 0 <= k < i ==> (#[trigger] keys@[k])@ == T::spec_key(items@[k]@),
        decreases items.len() - i,
    {
        assert(T::spec_ready(views(items@)[i as int]));
        keys.push(items[i].sync_key());
        i += 1;
    }
    assert(key_views(keys@) =~= sync_keys::<T>(views(items@)));
    keys
}

/// Whether the key is one of the keys.
fn holds_key<K: SyncKey>(keys: &Vec<K>, key: &K) -> (r: bool)
    ensures
        r == key_views(keys@).contains(key@),
{
    let ghost all = key_views(keys@);
    let mut i: usize = 0;
    while i < keys.len()
        invariant
            i <= keys.len(),
            all == key_views(keys@),
            forall|k: int| 0 <= k < i ==> #[trigger] all[k] != key@,
        decreases keys.len() - i,
    {
        if keys[i].same_key(key) {
            assert(all[i as int] == key@);
            return true;
        }
        i += 1;
    }
    false
}

/// Whether no key stands twice among the keys.
fn keys_are_unique<K: SyncKey>(keys: &Vec<K>) -> (r: bool)
    ensures
        r == key_views(keys@).no_duplicates(),
{
    let ghost all = key_views(keys@);
    let mut j: usize = 0;
    while j < keys.len()
        invariant
            j <= keys.len(),
            all == key_views(keys@),
            forall|a: int, b: int| 0 <= a < b < j ==> all[a] != all[b],
        decreases keys.len() - j,
    {
        let mut i: usize = 0;
        while i < j
            invariant
                i <= j < keys.len(),
                all == key_views(keys@),
                forall|a: int| 0 <= a < i ==> all[a] != all[j as int],
            decreases j - i,
        {
            if keys[i].same_key(&keys[j]) {
                assert(all[i as int] == all[j as int]);
                return false;
            }
            i += 1;
        }
        j += 1;
    }
    true
}

/// The test for a key that none of the keys is.
pub open spec fn is_absent_from<V>(keys: Seq<V>) -> spec_fn(V) -> bool {
    |key: V| !keys.contains(key)
}

/// The recorded keys that none of the keys of now is.
fn deleted_keys<K: SyncKey>(keys: &Vec<K>, previous: &SyncRecords<K>) -> (r: Vec<K>)
    requires
        previous.wf(),
    ensures
        key_views(r@).no_duplicates(),
        forall|key: K::V|
            key_views(r@).contains(key) <==> #[trigger] previous@.contains_key(key) && !key_views(
                keys@,
            ).contains(key),
{
    let ghost recorded = previous.keys();
    let ghost test = is_absent_from(key_views(keys@));
    let mut gone: Vec<K> = Vec::new();
    let mut i: usize = 0;
    proof {
        reveal(Seq::filter);
        assert(key_views(gone@) =~= recorded.take(0).filter(test));
    }
    while i < previous.count()
        invariant
            i <= recorded.len(),
            recorded == previous.keys(),
            test == is_absent_from(key_views(keys@)),
            key_views(gone@) == recorded.take(i as int).filter(test),
        decreases recorded.len() - i,
    {
        let entry = previous.entry(i);
        proof {
            reveal(Seq::filter);
            let next = recorded.take(i + 1);
            assert(next.drop_last() == recorded.take(i as int));
            assert(next.last() == recorded[i as int]);
        }
        if !holds_key(keys, &entry.key) {
            let ghost before = key_views(gone@);
            gone.push(entry.key.copy_key());
            assert(key_views(gone@) =~= before.push(recorded[i as int]));
        }
        i += 1;
    }
    proof {
        assert(recorded.take(i as int) == recorded);
        previous.lemma_keys();
        lemma_filter_keeps(recorded, test);
    }
    gone
}

/// Keeps the records that are new or changed.
fn keep_changed<T: Synced>(items: &mut Vec<T>, previous: &SyncRecords<T::Key>)
    requires
        previous.wf(),
        all_ready::<T>(views(old(items)@)),
    ensures
        views(final(items)@) == records_for_sync::<T>(views(old(items)@), previous@),
{
    let ghost start = items@;
    let ghost test = is_changed::<T>(previous@);
    let ghost mut seen: int = 0;
    let mut i: usize = 0;
    proof {
        reveal(Seq::filter);
        assert(views(items@.take(0)) =~= Seq::<T::V>::empty());
        assert(views(start.take(0)) =~= Seq::<T::V>::empty());
    }
    while i < items.len()
        invariant
            i <= items.len(),
            0 <= seen <= start.len(),
            items.len() - i == start.len() - seen,
            previous.wf(),
            all_ready::<T>(views(start)),
            test == is_changed::<T>(previous@),
            items@.skip(i as int) == start.skip(seen),
            views(items@.take(i as int)) == views(start.take(seen)).filter(test),
        decreases items.len() - i,
    {
        proof {
            reveal(Seq::filter);
            assert(items@[i as int] == items@.skip(i as int)[0]);
            assert(start[seen] == start.skip(seen)[0]);
            assert(views(start.take(seen + 1)).drop_last() =~= views(start.take(seen)));
            assert(views(start.take(seen + 1)).last() == start[seen]@);
            assert(T::spec_ready(views(start)[seen]));
        }
        let key = items[i].sync_key();
        let changed = match previous.get(&key) {
            Some(hash) => !items[i].has_print(hash.as_str()),
            None => true,
        };
        assert(changed == test(start[seen]@));
        let ghost before = items@;
        if changed {
            proof {
                assert(views(before.take(i + 1)) =~= views(before.take(i as int)).push(
                    before[i as int]@,
                ));
                assert(before.skip(i + 1) =~= before.skip(i as int).drop_first());
                assert(start.skip(seen + 1) =~= start.skip(seen).drop_first());
            }
            i += 1;
        } else {
            let _ = items.remove(i);
            proof {
                assert(items@.take(i as int) =~= before.take(i as int));
                assert(items@.skip(i as int) =~= before.skip(i as int).drop_first());
                assert(start.skip(seen + 1) =~= start.skip(seen).drop_first());
            }
        }
        proof {
            seen = seen + 1;
        }
    }
    assert(items@.take(i as int) =~= items@);
    assert(start.take(seen) =~= start);
}

/// Compares the records of a collection with what the last cycle recorded.
///
/// A record is to be written when no fingerprint is recorded for its key, or
/// another one than it has now. A key is to be deleted when it is recorded
/// and no record has it now. Two records with one key are an error.
pub fn diff<T: Synced>(current: Vec<T>, previous: &SyncRecords<T::Key>) -> (r: Result<
    ElementSyncData<T, T::Key>,
    ContentError,
>)
    requires
        previous.wf(),
        all_ready::<T>(views(current@)),
    ensures
        match r {
            Ok(data) => !has_duplicate_key::<T>(views(current@)) && is_difference(
                data,
                views(current@),
                previous@,
            ),
            Err(error) => error == ContentError::DuplicateKey && has_duplicate_key::<T>(
                views(current@),
            ),
        },
{
    let keys = collect_keys(&current);
    if !keys_are_unique(&keys) {
        return Err(ContentError::DuplicateKey);
    }
    let for_deletion = deleted_keys(&keys, previous);
    let mut for_sync = current;
    keep_changed(&mut for_sync, previous);
    Ok(ElementSyncData { for_sync, for_deletion })
}

/// Whether `data` is the difference between the records and what is
/// recorded: it holds the records that are new or changed, in their order,
/// and each key that is to be deleted, once.
pub open spec fn is_difference<T: Synced>(
    data: ElementSyncData<T, T::Key>,
    current: Seq<T::V>,
    previous: Map<<T::Key as View>::V, Seq<char>>,
) -> bool {
    &&& views(data.for_sync@) == records_for_sync::<T>(current, previous)
    &&& key_views(data.for_deletion@).no_duplicates()
    &&& forall|key: <T::Key as View>::V|
        key_views(data.for_deletion@).contains(key) <==> #[trigger] is_for_deletion::<T>(
            current,
            previous,
            key,
        )
}

/// Whether two of the records have one key.
pub open spec fn has_duplicate_key<T: Synced>(current: Seq<T::V>) -> bool {
    !sync_keys::<T>(current).no_duplicates()
}

impl CurrentContent {
    /// Why the content cannot be compared, if it cannot: two records of a
    /// collection have one key, or a source has a date that is none. The
    /// collections are looked at in the order of their fields.
    pub open spec fn error(&self) -> Option<ContentError> {
        if has_duplicate_key::<CourseData>(views(self.courses@)) || has_duplicate_key::<
            QuestionData,
        >(views(self.questions@)) || has_duplicate_key::<QuestionOptionData>(
            views(self.question_options@),
        ) || has_duplicate_key::<QuestionTopicData>(views(self.question_topics@)) {
            Some(ContentError::DuplicateKey)
        } else if !all_ready::<QuestionSourceData>(views(self.question_sources@)) {
            Some(ContentError::MalformedDate)
        } else if has_duplicate_key::<QuestionSourceData>(views(self.question_sources@))
            || has_duplicate_key::<BundleData>(views(self.bundles@)) || has_duplicate_key::<
            IconData,
        >(views(self.icons@)) {
            Some(ContentError::DuplicateKey)
        } else {
            None
        }
    }
}

/// Whether every source has a date that is one, or none.
fn sources_are_ready(sources: &Vec<QuestionSourceData>) -> (r: bool)
    ensures
        r == all_ready::<QuestionSourceData>(views(sources@)),
{
    let ghost all = views(sources@);
    let mut i: usize = 0;
    while i < sources.len()
        invariant
            i <= sources.len(),
            all == views(sources@),
            forall|k: int| 0 <= k < i ==> (#[trigger] all[k]).wf(),
        decreases sources.len() - i,
    {
        let valid = match &sources[i].date {
            Some(date) => date.is_valid(),
            None => true,
        };
        if !valid {
            assert(!QuestionSourceData::spec_ready(all[i as int]));
            return false;
        }
        assert(all[i as int].wf());
        i += 1;
    }
    true
}

/// Compares every collection with what the last cycle recorded for it.
pub fn compute_sync_data(current: CurrentContent, previous: &SyncMetadata) -> (r: Result<
    SyncData,
    ContentError,
>)
    requires
        previous.wf(),
    ensures
        match r {
            Ok(data) => {
                &&& current.error() is None
                &&& is_difference(data.courses, views(current.courses@), previous.courses@)
                &&& is_difference(data.questions, views(current.questions@), previous.questions@)
                &&& is_difference(
                    data.question_options,
                    views(current.question_options@),
                    previous.question_options@,
                )
                &&& is_difference(
                    data.question_topics,
                    views(current.question_topics@),
                    previous.question_topics@,
                )
                &&& is_difference(
                    data.question_sources,
                    views(current.question_sources@),
                    previous.question_sources@,
                )
                &&& is_difference(data.bundles, views(current.bundles@), previous.bundles@)
                &&& is_difference(data.icons, views(current.icons@), previous.icons@)
            },
            Err(error) => current.error() == Some(error),
        },
{
    let courses = match diff(current.courses, &previous.courses) {
        Ok(data) => data,
        Err(error) => {
            return Err(error);
        },
    };
    let questions = match diff(current.questions, &previous.questions) {
        Ok(data) => data,
        Err(error) => {
            return Err(error);
        },
    };
    let question_options = match diff(current.question_options, &previous.question_options) {
        Ok(data) => data,
        Err(error) => {
            return Err(error);
        },
    };
    let question_topics = match diff(current.question_topics, &previous.question_topics) {
        Ok(data) => data,
        Err(error) => {
            return Err(error);
        },
    };
    if !sources_are_ready(&current.question_sources) {
        return Err(ContentError::MalformedDate);
    }
    let question_sources = match diff(current.question_sources, &previous.question_sources) {
        Ok(data) => data,
        Err(error) => {
            return Err(error);
        },
    };
    let bundles = match diff(current.bundles, &previous.bundles) {
        Ok(data) => data,
        Err(error) => {
            return Err(error);
        },
    };
    let icons = match diff(current.icons, &previous.icons) {
        Ok(data) => data,
        Err(error) => {
            return Err(error);
        },
    };
    Ok(
        SyncData {
            courses,
            questions,
            question_options,
            question_topics,
            question_sources,
            bundles,
            icons,
        },
    )
}

impl Synced for CourseData {
    type Key = String;

    open spec fn spec_ready(v: CourseView) -> bool {
        true
    }

    open spec fn spec_key(v: CourseView) -> Seq<char> {
        v.key
    }

    open spec fn spec_print(v: CourseView) -> Seq<char> {
        v.hash
    }

    fn sync_key(&self) -> (r: String) {
        self.key.clone()
    }

    fn has_print(&self, hash: &str) -> (r: bool) {
        same_text(self.hash.as_str(), hash)
    }
}

impl Synced for QuestionData {
    type Key = u128;

    open spec fn spec_ready(v: QuestionView) -> bool {
        true
    }

    open spec fn spec_key(v: QuestionView) -> u128 {
        v.id
    }

    open spec fn spec_print(v: QuestionView) -> Seq<char> {
        v.hash
    }

    fn sync_key(&self) -> (r: u128) {
        self.id
    }

    fn has_print(&self, hash: &str) -> (r: bool) {
        same_text(self.hash.as_str(), hash)
    }
}

impl Synced for QuestionOptionData {
    type Key = u128;

    open spec fn spec_ready(v: QuestionOptionView) -> bool {
        true
    }

    open spec fn spec_key(v: QuestionOptionView) -> u128 {
        v.id
    }

    open spec fn spec_print(v: QuestionOptionView) -> Seq<char> {
        v.hash
    }

    fn sync_key(&self) -> (r: u128) {
        self.id
    }

    fn has_print(&self, hash: &str) -> (r: bool) {
        same_text(self.hash.as_str(), hash)
    }
}

impl Synced for QuestionTopicData {
    type Key = String;

    open spec fn spec_ready(v: QuestionTopicView) -> bool {
        true
    }

    open spec fn spec_key(v: QuestionTopicView) -> Seq<char> {
        v.key()
    }

    /// A topic has no fingerprint of its own: it is recorded with the empty
    /// one.
    open spec fn spec_print(v: QuestionTopicView) -> Seq<char> {
        Seq::empty()
    }

    fn sync_key(&self) -> (r: String) {
        self.key()
    }

    fn has_print(&self, hash: &str) -> (r: bool) {
        assert(hash@.len() == 0 ==> hash@ =~= Seq::<char>::empty());
        hash.is_empty()
    }
}

impl Synced for QuestionSourceData {
    type Key = String;

    /// The key of a source holds its date, which has to be one.
    open spec fn spec_ready(v: QuestionSourceView) -> bool {
        v.wf()
    }

    open spec fn spec_key(v: QuestionSourceView) -> Seq<char> {
        v.key()
    }

    /// A source has no fingerprint of its own: it is recorded with the empty
    /// one.
    open spec fn spec_print(v: QuestionSourceView) -> Seq<char> {
        Seq::empty()
    }

    fn sync_key(&self) -> (r: String) {
        self.key()
    }

    fn has_print(&self, hash: &str) -> (r: bool) {
        assert(hash@.len() == 0 ==> hash@ =~= Seq::<char>::empty());
        hash.is_empty()
    }
}

impl Synced for BundleData {
    type Key = String;

    open spec fn spec_ready(v: BundleView) -> bool {
        true
    }

    open spec fn spec_key(v: BundleView) -> Seq<char> {
        v.key
    }

    open spec fn spec_print(v: BundleView) -> Seq<char> {
        v.hash
    }

    fn sync_key(&self) -> (r: String) {
        self.key.clone()
    }

    fn has_print(&self, hash: &str) -> (r: bool) {
        same_text(self.hash.as_str(), hash)
    }
}

impl Synced for IconData {
    type Key = String;

    open spec fn spec_ready(v: IconView) -> bool {
        true
    }

    open spec fn spec_key(v: IconView) -> Seq<char> {
        v.key
    }

    open spec fn spec_print(v: IconView) -> Seq<char> {
        v.hash
    }

    fn sync_key(&self) -> (r: String) {
        self.key.clone()
    }

    fn has_print(&self, hash: &str) -> (r: bool) {
        same_text(self.hash.as_str(), hash)
    }
}

} // verus!

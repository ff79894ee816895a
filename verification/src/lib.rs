//! Canonicalization, content fingerprinting and incremental synchronization
//! of a hierarchy of content records.
//!
//! A record is brought into canonical form (`process`), which formats its
//! texts, sorts and deduplicates what it owns, checks it and stores its
//! fingerprint. The fingerprints of the records as they are now are compared
//! with those that the last cycle recorded (`diff`), which gives the records
//! to write and the keys to delete.

pub mod assets;
pub mod bundle_data;
pub mod content;
pub mod course_data;
pub mod course_evaluation_data;
pub mod diff;
pub mod error;
pub mod explanation_data;
pub mod hashing;
pub mod hashing_laws;
pub mod icon_data;
pub mod laws;
pub mod monitoring;
pub mod ordering;
pub mod question_data;
pub mod question_option_data;
pub mod question_source_data;
pub mod question_topic_data;
pub mod siblings;
pub mod status;
pub mod text;
pub mod text_laws;
pub mod types;
pub mod values;

pub use crate::assets::{RenameOutcome, RenameRequest};
pub use crate::bundle_data::{BundleData, BUNDLE_IMAGES_DIR_NAME};
pub use crate::content::CurrentContent;
pub use crate::course_data::CourseData;
pub use crate::course_evaluation_data::{CourseEvaluationData, COURSE_EVALUATION_KEY_SEPARATOR};
pub use crate::diff::{compute_sync_data, diff, Synced};
pub use crate::error::{ContentError, ErrorKind};
pub use crate::explanation_data::ExplanationData;
pub use crate::hashing::Hashable;
pub use crate::icon_data::{IconData, ICON_IMAGES_DIR_NAME};
pub use crate::monitoring::{Monitoring, MonitoringCache, MonitoringDb};
pub use crate::question_data::QuestionData;
pub use crate::question_option_data::QuestionOptionData;
pub use crate::question_source_data::{QuestionSourceData, QuestionSourceType};
pub use crate::question_topic_data::QuestionTopicData;
pub use crate::status::{CacheStatus, DbStatus, EngineStatus};
pub use crate::text::{capitalize_first_char, format_text, full_image_path, remove_end_period};
pub use crate::types::{
    BundlesSyncData, CoursesSyncData, ElementSyncData, IconsSyncData, QuestionOptionsSyncData,
    QuestionSourcesSyncData, QuestionTopicsSyncData, QuestionsSyncData, SyncData, SyncKey,
    SyncMetadata, SyncRecord, SyncRecords,
};
pub use crate::values::{Amount, CalendarDate, Timestamp};

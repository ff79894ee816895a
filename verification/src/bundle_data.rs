//! Bundles of courses that are sold together.

use crate::error::ContentError;
use crate::hashing::{
    digest_hex, fingerprint_of, put_text, put_texts, text_bytes, text_views, texts_bytes,
    Hashable,
};
use crate::text::{full_image_path, image_path, trim_text, trimmed};
use crate::values::Amount;
use vstd::prelude::*;
use vstd::string::*;

verus! {

/// The directory of the images of bundles.
pub const BUNDLE_IMAGES_DIR_NAME: &'static str = "bundles";

/// A bundle of courses.
#[derive(Clone, Debug, PartialEq, Eq)]
pub struct BundleData {
    pub key: String,
    pub name: String,
    pub description: String,
    pub course_keys: Vec<String>,
    pub discount: Amount,
    pub image_file_name: String,
    /// The fingerprint of the bundle, once it was processed.
    pub hash: String,
}

/// What a bundle holds, as mathematical values.
pub struct BundleView {
    pub key: Seq<char>,
    pub name: Seq<char>,
    pub description: Seq<char>,
    pub course_keys: Seq<Seq<char>>,
    pub discount: Amount,
    pub image_file_name: Seq<char>,
    pub hash: Seq<char>,
}

impl BundleView {
    /// The discount is an amount.
    pub open spec fn wf(self) -> bool {
        self.discount.wf()
    }

    /// The bundle with its key, name and description trimmed.
    pub open spec fn formatted(self) -> Self {
        BundleView {
            key: trimmed(self.key),
            name: trimmed(self.name),
            description: trimmed(self.description),
            ..self
        }
    }

    /// What the check of the bundle says: the discount is an amount, the name
    /// is not empty, and the discount is above zero.
    pub open spec fn check(self) -> Result<(), ContentError> {
        if !self.wf() {
            Err(ContentError::MalformedAmount)
        } else if self.name.len() == 0 {
            Err(ContentError::InvalidBundleName)
        } else if !self.discount.spec_is_positive() {
            Err(ContentError::InvalidBundleDiscount)
        } else {
            Ok(())
        }
    }

    /// The encoding of the bundle.
    pub open spec fn canonical_bytes(self) -> Seq<u8> {
        text_bytes("key"@) + text_bytes(self.key) + text_bytes("name"@) + text_bytes(self.name)
            + text_bytes("description"@) + text_bytes(self.description) + text_bytes(
            "course_keys"@,
        ) + texts_bytes(self.course_keys) + text_bytes("discount"@) + text_bytes(
            self.discount.text(),
        ) + text_bytes("image_file_name"@) + text_bytes(self.image_file_name)
    }

    /// The fingerprint of the bundle as it is.
    pub open spec fn fingerprint(self) -> Seq<char> {
        fingerprint_of(self.canonical_bytes())
    }

    /// Whether the stored fingerprint is that of the content.
    pub open spec fn is_fingerprinted(self) -> bool {
        self.hash == self.fingerprint()
    }

    /// The bundle with its fingerprint stored.
    pub open spec fn fingerprinted(self) -> Self {
        BundleView { hash: self.fingerprint(), ..self }
    }

    /// The bundle after processing: formatted and, if it passes the check,
    /// fingerprinted.
    pub open spec fn processed(self) -> Self {
        if self.formatted().check() is Ok {
            self.formatted().fingerprinted()
        } else {
            self.formatted()
        }
    }

    /// Whether processing leaves the bundle as it is.
    pub open spec fn is_canonical(self) -> bool {
        &&& trimmed(self.key) == self.key
        &&& trimmed(self.name) == self.name
        &&& trimmed(self.description) == self.description
        &&& self.is_fingerprinted()
    }
}

impl View for BundleData {
    type V = BundleView;

    open spec fn view(&self) -> BundleView {
        BundleView {
            key: self.key@,
            name: self.name@,
            description: self.description@,
            course_keys: text_views(self.course_keys@),
            discount: self.discount,
            image_file_name: self.image_file_name@,
            hash: self.hash@,
        }
    }
}

impl Hashable for BundleData {
    open spec fn well_formed(&self) -> bool {
        self@.wf()
    }

    open spec fn canonical_bytes(&self) -> Seq<u8> {
        self@.canonical_bytes()
    }

    fn to_bytes(&self) -> (r: Vec<u8>) {
        self.encode()
    }

    open spec fn stored_fingerprint(&self) -> Seq<char> {
        self.hash@
    }

    fn stored_hash(&self) -> (r: Option<&str>) {
        if self.hash.as_str().is_empty() {
            None
        } else {
            Some(self.hash.as_str())
        }
    }

    fn store_hash(&mut self, hash: String) -> (stored: bool) {
        self.hash = hash;
        true
    }
}

impl BundleData {
    /// Makes a bundle from its raw fields and processes it.
    pub fn new(
        key: String,
        name: String,
        description: String,
        course_keys: Vec<String>,
        discount: Amount,
        image_file_name: String,
    ) -> (r: Result<Self, ContentError>)
        ensures
            ({
                let raw = BundleView {
                    key: key@,
                    name: name@,
                    description: description@,
                    course_keys: text_views(course_keys@),
                    discount,
                    image_file_name: image_file_name@,
                    hash: Seq::empty(),
                };
                match r {
                    Ok(bundle) => raw.formatted().check() is Ok && bundle@ == raw.processed(),
                    Err(error) => raw.formatted().check() == Err::<(), ContentError>(error),
                }
            }),
    {
        let mut data = BundleData {
            key,
            name,
            description,
            course_keys,
            discount,
            image_file_name,
            hash: String::new(),
        };
        match data.process() {
            Ok(()) => Ok(data),
            Err(error) => Err(error),
        }
    }

    /// Formats the bundle, checks it and, if it passes, stores its
    /// fingerprint.
    pub fn process(&mut self) -> (r: Result<(), ContentError>)
        ensures
            final(self)@ == old(self)@.processed(),
            r == old(self)@.formatted().check(),
    {
        self.format();
        match self.check() {
            Ok(()) => {
                self.refresh_hash();
                Ok(())
            },
            Err(error) => Err(error),
        }
    }

    /// Checks that the discount is an amount above zero and that the name is
    /// not empty.
    pub fn check(&self) -> (r: Result<(), ContentError>)
        ensures
            r == self@.check(),
    {
        if !self.discount.is_valid() {
            return Err(ContentError::MalformedAmount);
        }
        if self.name.as_str().is_empty() {
            return Err(ContentError::InvalidBundleName);
        }
        if !self.discount.is_positive() {
            return Err(ContentError::InvalidBundleDiscount);
        }
        Ok(())
    }

    /// Trims the key, the name and the description.
    pub fn format(&mut self)
        ensures
            final(self)@ == old(self)@.formatted(),
    {
        self.key = trim_text(self.key.as_str());
        self.name = trim_text(self.name.as_str());
        self.description = trim_text(self.description.as_str());
    }

    /// The encoding of the bundle.
    pub fn encode(&self) -> (r: Vec<u8>)
        requires
            self@.wf(),
        ensures
            r@ == self@.canonical_bytes(),
    {
        let discount = self.discount.to_text();
        let mut bytes: Vec<u8> = Vec::new();
        put_text(&mut bytes, "key");
        put_text(&mut bytes, self.key.as_str());
        put_text(&mut bytes, "name");
        put_text(&mut bytes, self.name.as_str());
        put_text(&mut bytes, "description");
        put_text(&mut bytes, self.description.as_str());
        put_text(&mut bytes, "course_keys");
        put_texts(&mut bytes, &self.course_keys);
        put_text(&mut bytes, "discount");
        put_text(&mut bytes, discount.as_str());
        put_text(&mut bytes, "image_file_name");
        put_text(&mut bytes, self.image_file_name.as_str());
        assert(bytes@ =~= self@.canonical_bytes());
        bytes
    }

    /// The fingerprint of the bundle as it is now.
    pub fn fingerprint(&self) -> (r: String)
        requires
            self@.wf(),
        ensures
            r@ == self@.fingerprint(),
    {
        let bytes = self.encode();
        digest_hex(bytes.as_slice())
    }

    /// Stores the fingerprint of the bundle as it is now.
    pub fn refresh_hash(&mut self)
        requires
            old(self)@.wf(),
        ensures
            final(self)@ == old(self)@.fingerprinted(),
    {
        self.hash = self.fingerprint();
    }

    /// The path of the image of the bundle.
    pub fn full_image_path(&self) -> (r: String)
        ensures
            r@ == image_path(BUNDLE_IMAGES_DIR_NAME@, self@.image_file_name),
    {
        full_image_path(BUNDLE_IMAGES_DIR_NAME, self.image_file_name.as_str())
    }
}

} // verus!

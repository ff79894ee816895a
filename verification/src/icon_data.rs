//! Icons that a user can buy or start with.

use crate::error::ContentError;
use crate::hashing::{
    digest_hex, fingerprint_of, flag_bytes, optional_text_bytes, optional_text_view, put_flag,
    put_optional_text, put_text, text_bytes, Hashable,
};
use crate::text::{format_text, formatted, full_image_path, image_path, trim_text, trimmed};
use crate::values::Amount;
use vstd::prelude::*;
use vstd::string::*;

verus! {

/// The directory of the images of icons.
pub const ICON_IMAGES_DIR_NAME: &'static str = "icons";

/// An icon.
#[derive(Clone, Debug, PartialEq, Eq)]
pub struct IconData {
    pub key: String,
    /// Whether every user has the icon from the start.
    pub is_initial: bool,
    pub description: Option<String>,
    pub price_in_uyu: Option<Amount>,
    pub image_file_name: String,
    /// The fingerprint of the icon, once it was processed.
    pub hash: String,
}

/// What an icon holds, as mathematical values.
pub struct IconView {
    pub key: Seq<char>,
    pub is_initial: bool,
    pub description: Option<Seq<char>>,
    pub price_in_uyu: Option<Amount>,
    pub image_file_name: Seq<char>,
    pub hash: Seq<char>,
}

/// The bytes of an optional amount: those of its written form, or none.
pub open spec fn optional_amount_bytes(amount: Option<Amount>) -> Seq<u8> {
    match amount {
        Some(a) => text_bytes(a.text()),
        None => Seq::empty(),
    }
}

impl IconView {
    /// The price, if there is one, is an amount.
    pub open spec fn wf(self) -> bool {
        self.price_in_uyu matches Some(price) ==> price.wf()
    }

    /// The icon with its key trimmed and its description formatted.
    pub open spec fn formatted(self) -> Self {
        IconView {
            key: trimmed(self.key),
            description: match self.description {
                Some(d) => Some(formatted(d)),
                None => None,
            },
            ..self
        }
    }

    /// What the check of the icon says: a price is an amount above zero.
    pub open spec fn check(self) -> Result<(), ContentError> {
        if !self.wf() {
            Err(ContentError::MalformedAmount)
        } else if self.price_in_uyu matches Some(price) && !price.spec_is_positive() {
            Err(ContentError::InvalidIconPrice)
        } else {
            Ok(())
        }
    }

    /// The encoding of the icon.
    pub open spec fn canonical_bytes(self) -> Seq<u8> {
        text_bytes("key"@) + text_bytes(self.key) + text_bytes("is_initial"@) + flag_bytes(
            self.is_initial,
        ) + text_bytes("description"@) + optional_text_bytes(self.description) + text_bytes(
            "price_in_uyu"@,
        ) + optional_amount_bytes(self.price_in_uyu) + text_bytes("image_file_name"@)
            + text_bytes(self.image_file_name)
    }

    /// The fingerprint of the icon as it is.
    pub open spec fn fingerprint(self) -> Seq<char> {
        fingerprint_of(self.canonical_bytes())
    }

    /// Whether the stored fingerprint is that of the content.
    pub open spec fn is_fingerprinted(self) -> bool {
        self.hash == self.fingerprint()
    }

    /// The icon with its fingerprint stored.
    pub open spec fn fingerprinted(self) -> Self {
        IconView { hash: self.fingerprint(), ..self }
    }

    /// The icon after processing: formatted and, if it passes the check,
    /// fingerprinted.
    pub open spec fn processed(self) -> Self {
        if self.formatted().check() is Ok {
            self.formatted().fingerprinted()
        } else {
            self.formatted()
        }
    }
}

impl View for IconData {
    type V = IconView;

    open spec fn view(&self) -> IconView {
        IconView {
            key: self.key@,
            is_initial: self.is_initial,
            description: optional_text_view(self.description),
            price_in_uyu: self.price_in_uyu,
            image_file_name: self.image_file_name@,
            hash: self.hash@,
        }
    }
}

impl Hashable for IconData {
    open spec fn well_formed(&self) -> bool {
        self@.wf()
    }

    open spec fn canonical_bytes(&self) -> Seq<u8> {
        self@.canonical_bytes()
    }

    fn to_bytes(&self) -> (r: Vec<u8>) {
        self.encode()
    }

    open spec fn stored_fingerprint(&self) -> Seq<char> {
        self.hash@
    }

    fn stored_hash(&self) -> (r: Option<&str>) {
        if self.hash.as_str().is_empty() {
            None
        } else {
            Some(self.hash.as_str())
        }
    }

    fn store_hash(&mut self, hash: String) -> (stored: bool) {
        self.hash = hash;
        true
    }
}

impl IconData {
    /// Makes an icon from its raw fields and processes it.
    pub fn new(
        key: String,
        is_initial: bool,
        description: Option<String>,
        price_in_uyu: Option<Amount>,
        image_file_name: String,
    ) -> (r: Result<Self, ContentError>)
        ensures
            ({
                let raw = IconView {
                    key: key@,
                    is_initial,
                    description: optional_text_view(description),
                    price_in_uyu,
                    image_file_name: image_file_name@,
                    hash: Seq::empty(),
                };
                match r {
                    Ok(icon) => raw.formatted().check() is Ok && icon@ == raw.processed(),
                    Err(error) => raw.formatted().check() == Err::<(), ContentError>(error),
                }
            }),
    {
        let mut data = IconData {
            key,
            is_initial,
            description,
            price_in_uyu,
            image_file_name,
            hash: String::new(),
        };
        match data.process() {
            Ok(()) => Ok(data),
            Err(error) => Err(error),
        }
    }

    /// Formats the icon, checks it and, if it passes, stores its fingerprint.
    pub fn process(&mut self) -> (r: Result<(), ContentError>)
        ensures
            final(self)@ == old(self)@.processed(),
            r == old(self)@.formatted().check(),
    {
        self.format();
        match self.check() {
            Ok(()) => {
                self.refresh_hash();
                Ok(())
            },
            Err(error) => Err(error),
        }
    }

    /// Checks that a price is an amount above zero.
    pub fn check(&self) -> (r: Result<(), ContentError>)
        ensures
            r == self@.check(),
    {
        match &self.price_in_uyu {
            Some(price) => {
                if !price.is_valid() {
                    return Err(ContentError::MalformedAmount);
                }
                if !price.is_positive() {
                    return Err(ContentError::InvalidIconPrice);
                }
            },
            None => {},
        }
        Ok(())
    }

    /// Trims the key and formats the description.
    pub fn format(&mut self)
        ensures
            final(self)@ == old(self)@.formatted(),
    {
        self.key = trim_text(self.key.as_str());
        let description = match &self.description {
            Some(description) => Some(format_text(description.as_str())),
            None => None,
        };
        self.description = description;
    }

    /// The encoding of the icon.
    pub fn encode(&self) -> (r: Vec<u8>)
        requires
            self@.wf(),
        ensures
            r@ == self@.canonical_bytes(),
    {
        let mut bytes: Vec<u8> = Vec::new();
        put_text(&mut bytes, "key");
        put_text(&mut bytes, self.key.as_str());
        put_text(&mut bytes, "is_initial");
        put_flag(&mut bytes, self.is_initial);
        put_text(&mut bytes, "description");
        put_optional_text(&mut bytes, &self.description);
        put_text(&mut bytes, "price_in_uyu");
        match &self.price_in_uyu {
            Some(price) => {
                let text = price.to_text();
                put_text(&mut bytes, text.as_str());
            },
            None => {
                assert(bytes@ + Seq::<u8>::empty() == bytes@);
            },
        }
        put_text(&mut bytes, "image_file_name");
        put_text(&mut bytes, self.image_file_name.as_str());
        assert(bytes@ =~= self@.canonical_bytes());
        bytes
    }

    /// The fingerprint of the icon as it is now.
    pub fn fingerprint(&self) -> (r: String)
        requires
            self@.wf(),
        ensures
            r@ == self@.fingerprint(),
    {
        let bytes = self.encode();
        digest_hex(bytes.as_slice())
    }

    /// Stores the fingerprint of the icon as it is now.
    pub fn refresh_hash(&mut self)
        requires
            old(self)@.wf(),
        ensures
            final(self)@ == old(self)@.fingerprinted(),
    {
        self.hash = self.fingerprint();
    }

    /// The path of the image of the icon.
    pub fn full_image_path(&self) -> (r: String)
        ensures
            r@ == image_path(ICON_IMAGES_DIR_NAME@, self@.image_file_name),
    {
        full_image_path(ICON_IMAGES_DIR_NAME, self.image_file_name.as_str())
    }
}

} // verus!

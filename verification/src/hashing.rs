//! Canonical byte encodings and content fingerprints.
//!
//! A record is encoded as the concatenation of its content fields in a fixed
//! order, each preceded by the bytes of its name. The fingerprint of a record
//! is the BLAKE3 digest of that encoding, written in hexadecimal. A field that
//! is absent contributes no bytes after its name.

use vstd::bytes::*;
use vstd::prelude::*;
use vstd::string::*;
use vstd::utf8::*;

verus! {

/// The BLAKE3 digest of `data`, as 64 lower-case hexadecimal digits.
pub uninterp spec fn blake3_hex(data: Seq<u8>) -> Seq<char>;

/// The `width` lowest bytes of `value`, highest first.
pub open spec fn big_endian(value: nat, width: nat) -> Seq<u8>
    decreases width,
{
    if width == 0 {
        Seq::empty()
    } else {
        big_endian(value / 256, (width - 1) as nat).push((value % 256) as u8)
    }
}

/// The bytes of a text: its UTF-8 encoding.
pub open spec fn text_bytes(text: Seq<char>) -> Seq<u8> {
    encode_utf8(text)
}

/// The bytes of an optional text: those of the text, or none.
pub open spec fn optional_text_bytes(text: Option<Seq<char>>) -> Seq<u8> {
    match text {
        Some(t) => text_bytes(t),
        None => Seq::empty(),
    }
}

/// The bytes of a list of texts: those of each text, in order.
pub open spec fn texts_bytes(texts: Seq<Seq<char>>) -> Seq<u8>
    decreases texts.len(),
{
    if texts.len() == 0 {
        Seq::empty()
    } else {
        texts_bytes(texts.drop_last()) + text_bytes(texts.last())
    }
}

/// The bytes of an identifier: its 16 bytes, highest first.
pub open spec fn id_bytes(id: u128) -> Seq<u8> {
    big_endian(id as nat, 16)
}

/// The bytes of a flag: those of the word `true` or `false`.
pub open spec fn flag_bytes(flag: bool) -> Seq<u8> {
    if flag {
        text_bytes("true"@)
    } else {
        text_bytes("false"@)
    }
}

/// The bytes of a small number: two bytes, lowest first.
pub open spec fn number_bytes(number: u16) -> Seq<u8> {
    spec_u16_to_le_bytes(number)
}

/// The bytes of an optional small number.
pub open spec fn optional_number_bytes(number: Option<u16>) -> Seq<u8> {
    match number {
        Some(n) => number_bytes(n),
        None => Seq::empty(),
    }
}

/// The number of hexadecimal digits of a fingerprint.
pub const DIGEST_LENGTH: usize = 64;

/// Whether the character is a hexadecimal digit in lower case.
pub open spec fn is_hex_digit(c: char) -> bool {
    '0' <= c <= '9' || 'a' <= c <= 'f'
}

/// Whether the text has the shape of a digest: 64 hexadecimal digits in lower
/// case.
pub open spec fn is_digest(text: Seq<char>) -> bool {
    &&& text.len() == DIGEST_LENGTH
    &&& forall|i: int| 0 <= i < text.len() ==> is_hex_digit(#[trigger] text[i])
}

/// The fingerprint of an encoding: its BLAKE3 digest in hexadecimal. It has
/// the shape of a digest whatever the encoding is.
pub open spec fn fingerprint_of(bytes: Seq<u8>) -> Seq<char> {
    if is_digest(blake3_hex(bytes)) {
        blake3_hex(bytes)
    } else {
        Seq::new(DIGEST_LENGTH as nat, |i: int| '0')
    }
}

/// The bytes that a list of fingerprints contributes to the encoding of the
/// record that owns the fingerprinted records.
pub open spec fn fingerprints_bytes(fingerprints: Seq<Seq<char>>) -> Seq<u8> {
    texts_bytes(fingerprints)
}

/// A value with a canonical byte encoding, and so with a fingerprint, which
/// it may store.
pub trait Hashable {
    /// Whether every amount, date and instant in the value is one of its
    /// type, so that it has a written form.
    spec fn well_formed(&self) -> bool;

    /// The canonical encoding of the value.
    spec fn canonical_bytes(&self) -> Seq<u8>;

    /// The fingerprint that the value stores; empty where it stores none.
    spec fn stored_fingerprint(&self) -> Seq<char>;

    /// Encodes the value.
    fn to_bytes(&self) -> (r: Vec<u8>)
        requires
            self.well_formed(),
        ensures
            r@ == self.canonical_bytes(),
    ;

    /// The stored fingerprint, if there is one: a memo of the state in which
    /// it was stored, which says nothing of the value as it is now.
    fn stored_hash(&self) -> (r: Option<&str>)
        ensures
            match r {
                Some(hash) => hash@ == self.stored_fingerprint() && hash@.len() > 0,
                None => self.stored_fingerprint().len() == 0,
            },
    ;

    /// Stores the fingerprint, if the value can store one, and says whether
    /// it did. Nothing else of the value changes.
    fn store_hash(&mut self, hash: String) -> (stored: bool)
        ensures
            final(self).canonical_bytes() == old(self).canonical_bytes(),
            final(self).well_formed() == old(self).well_formed(),
            final(self).stored_fingerprint() == if stored {
                hash@
            } else {
                old(self).stored_fingerprint()
            },
    ;

    /// The encoding that enters the encoding of an owner.
    fn bytes(&self) -> (r: Vec<u8>)
        requires
            self.well_formed(),
        ensures
            r@ == self.canonical_bytes(),
    {
        self.to_bytes()
    }

    /// The fingerprint of the value as it is now.
    fn compute_hash(&self) -> (r: String)
        requires
            self.well_formed(),
        ensures
            r@ == fingerprint_of(self.canonical_bytes()),
    {
        let bytes = self.bytes();
        digest_hex(bytes.as_slice())
    }

    /// The fingerprint of the value as it is now. A stored fingerprint is a
    /// memo of an earlier state and is not consulted.
    fn hash(&self) -> (r: String)
        requires
            self.well_formed(),
        ensures
            r@ == fingerprint_of(self.canonical_bytes()),
    {
        self.compute_hash()
    }

    /// Computes the fingerprint of the value as it is now and stores it, if
    /// the value can store one.
    fn refresh_hash(&mut self) -> (stored: bool)
        requires
            old(self).well_formed(),
        ensures
            final(self).canonical_bytes() == old(self).canonical_bytes(),
            final(self).well_formed() == old(self).well_formed(),
            final(self).stored_fingerprint() == if stored {
                fingerprint_of(old(self).canonical_bytes())
            } else {
                old(self).stored_fingerprint()
            },
    {
        let hash = self.compute_hash();
        self.store_hash(hash)
    }
}

/// `blake3::hash` and the `Display` of the hash it returns: the digest of the
/// input, which depends on the input alone, printed as two lower-case
/// hexadecimal digits for each of its 32 bytes.
#[verifier::external_body]
pub(crate) fn digest_hex(data: &[u8]) -> (r: String)
    ensures
        r@ == blake3_hex(data@),
        is_digest(r@),
{
    blake3::hash(data).to_string()
}

/// `Uuid::from_u128` and `Uuid::as_bytes`: the 16 bytes of the identifier,
/// highest first.
#[verifier::external_body]
pub(crate) fn uuid_bytes(id: u128) -> (r: Vec<u8>)
    ensures
        r@ == id_bytes(id),
{
    uuid::Uuid::from_u128(id).as_bytes().to_vec()
}

/// Appends the bytes of a text.
pub fn put_text(bytes: &mut Vec<u8>, text: &str)
    ensures
        final(bytes)@ == old(bytes)@ + text_bytes(text@),
{
    let mut encoded = text.as_bytes_vec();
    bytes.append(&mut encoded);
}

/// Appends the bytes of an optional text.
pub fn put_optional_text(bytes: &mut Vec<u8>, text: &Option<String>)
    ensures
        final(bytes)@ == old(bytes)@ + optional_text_bytes(optional_text_view(*text)),
{
    match text {
        Some(t) => put_text(bytes, t.as_str()),
        None => {
            assert(bytes@ + Seq::<u8>::empty() == bytes@);
        },
    }
}

/// The view of an optional text.
pub open spec fn optional_text_view(text: Option<String>) -> Option<Seq<char>> {
    match text {
        Some(t) => Some(t@),
        None => None,
    }
}

/// The list of the views of a list of texts.
pub open spec fn text_views(texts: Seq<String>) -> Seq<Seq<char>> {
    texts.map_values(|t: String| t@)
}

/// A copy of a list of texts.
pub fn duplicate_texts(texts: &Vec<String>) -> (r: Vec<String>)
    ensures
        text_views(r@) == text_views(texts@),
{
    let mut copy: Vec<String> = Vec::new();
    let mut i: usize = 0;
    while i < texts.len()
        invariant
            i <= texts.len(),
            copy.len() == i,
            forall|k: int| 0 <= k < i ==> (#[trigger] copy@[k])@ == texts@[k]@,
        decreases texts.len() - i,
    {
        copy.push(texts[i].clone());
        i += 1;
    }
    assert(text_views(copy@) =~= text_views(texts@));
    copy
}

/// A copy of an optional text.
pub fn duplicate_optional_text(text: &Option<String>) -> (r: Option<String>)
    ensures
        optional_text_view(r) == optional_text_view(*text),
{
    match text {
        Some(t) => Some(t.clone()),
        None => None,
    }
}

/// Appends the bytes of each text of a list.
pub fn put_texts(bytes: &mut Vec<u8>, texts: &Vec<String>)
    ensures
        final(bytes)@ == old(bytes)@ + texts_bytes(text_views(texts@)),
{
    let ghost views = text_views(texts@);
    let mut i: usize = 0;
    assert(bytes@ + texts_bytes(views.take(0)) == bytes@);
    while i < texts.len()
        invariant
            i <= texts.len(),
            views == text_views(texts@),
            bytes@ == old(bytes)@ + texts_bytes(views.take(i as int)),
        decreases texts.len() - i,
    {
        put_text(bytes, texts[i].as_str());
        proof {
            let next = views.take(i + 1);
            assert(next.drop_last() == views.take(i as int));
            assert(next.last() == texts@[i as int]@);
        }
        i += 1;
    }
    assert(views.take(texts.len() as int) == views);
}

/// Appends the bytes of an identifier.
pub fn put_id(bytes: &mut Vec<u8>, id: u128)
    ensures
        final(bytes)@ == old(bytes)@ + id_bytes(id),
{
    let mut encoded = uuid_bytes(id);
    bytes.append(&mut encoded);
}

/// Appends the bytes of a flag.
pub fn put_flag(bytes: &mut Vec<u8>, flag: bool)
    ensures
        final(bytes)@ == old(bytes)@ + flag_bytes(flag),
{
    if flag {
        put_text(bytes, "true");
    } else {
        put_text(bytes, "false");
    }
}

/// Appends the bytes of a small number.
pub fn put_number(bytes: &mut Vec<u8>, number: u16)
    ensures
        final(bytes)@ == old(bytes)@ + number_bytes(number),
{
    let mut encoded = u16_to_le_bytes(number);
    bytes.append(&mut encoded);
}

/// Appends the bytes of an optional small number.
pub fn put_optional_number(bytes: &mut Vec<u8>, number: Option<u16>)
    ensures
        final(bytes)@ == old(bytes)@ + optional_number_bytes(number),
{
    match number {
        Some(n) => put_number(bytes, n),
        None => {
            assert(bytes@ + Seq::<u8>::empty() == bytes@);
        },
    }
}

} // verus!

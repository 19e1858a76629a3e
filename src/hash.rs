//! Fixed-width perceptual hashes and their byte encoding.
use vstd::prelude::*;

use crate::HASH_BYTES;

verus! {

/// A perceptual fingerprint of an image: exactly `HASH_BYTES` bytes.
#[derive(Clone, Copy, Debug)]
pub struct FixedHash {
    pub bytes: [u8; HASH_BYTES],
}

impl View for FixedHash {
    type V = Seq<u8>;

    open spec fn view(&self) -> Seq<u8> {
        self.bytes@
    }
}

impl PartialEq for FixedHash {
    fn eq(&self, other: &FixedHash) -> bool {
        let mut i: usize = 0;
        while i < HASH_BYTES
            invariant
                i <= HASH_BYTES,
                self@.len() == HASH_BYTES,
                other@.len() == HASH_BYTES,
                forall|j: int| 0 <= j < i ==> self@[j] == other@[j],
            decreases HASH_BYTES - i,
        {
            if self.bytes[i] != other.bytes[i] {
                return false;
            }
            i = i + 1;
        }
        assert(self@ =~= other@);
        true
    }
}

impl vstd::std_specs::cmp::PartialEqSpecImpl for FixedHash {
    open spec fn obeys_eq_spec() -> bool {
        true
    }

    open spec fn eq_spec(&self, other: &FixedHash) -> bool {
        self@ == other@
    }
}

impl Eq for FixedHash {}

/// Why bytes could not be read as a hash.
#[derive(Clone, Copy, Debug, PartialEq, Eq, Structural)]
pub enum DecodeError {
    /// The input does not hold exactly `HASH_BYTES` bytes.
    WrongLength,
    /// The hash library refused the bytes.
    Rejected,
    /// The bytes are not an image that could be decoded.
    Image,
}

/// `image_hasher::InvalidBytesError`, carried through opaquely.
#[verifier::external_type_specification]
#[verifier::external_body]
pub struct ExInvalidBytesError(image_hasher::InvalidBytesError);

/// `image::ImageError`, carried through opaquely.
#[verifier::external_type_specification]
#[verifier::external_body]
pub struct ExImageError(image::ImageError);

/// Relies on `image_hasher::ImageHash::from_bytes` with its default boxed container, which
/// refuses only slices of more than `usize::MAX` bits, and on `ImageHash::as_bytes`, which hands
/// the stored bytes back unchanged.
#[verifier::external_body]
fn hash_bytes_from_slice(bytes: &[u8]) -> (r: Result<Vec<u8>, image_hasher::InvalidBytesError>)
    requires
        bytes@.len() * 8 <= usize::MAX,
    ensures
        r is Ok,
        r is Ok ==> r->Ok_0@ == bytes@,
{
    image_hasher::ImageHash::<Box<[u8]>>::from_bytes(bytes).map(|h| h.as_bytes().to_vec())
}

/// The bytes of the perceptual hash, `side` by `side` bits, that `image_hasher`'s default
/// algorithm computes for the image whose encoded bytes are given; `None` when the bytes are not
/// an image that `image` can guess the format of and decode. Two outside steps stand behind it:
/// the decode by `image`, then `Hasher::hash_image`; both depend on the bytes and the size alone.
pub uninterp spec fn image_hash_of(bytes: Seq<u8>, side: u32) -> Option<Seq<u8>>;

/// Relies on `image::io::Reader` (format guessed from the bytes, then decoded) and on
/// `image_hasher::Hasher::hash_image` with the default configuration at a `side` by `side`
/// hash size. A side of at most 64 keeps the hasher's size arithmetic far from overflow.
#[verifier::external_body]
fn hash_image_data(bytes: &[u8], side: u32) -> (r: Result<Vec<u8>, image::ImageError>)
    requires
        0 < side <= 64,
    ensures
        r is Ok <==> image_hash_of(bytes@, side) is Some,
        r is Ok ==> r->Ok_0@ == image_hash_of(bytes@, side)->0,
{
    let reader = image::io::Reader::new(std::io::Cursor::new(bytes)).with_guessed_format()?;
    let img = reader.decode()?;
    let hasher = image_hasher::HasherConfig::new().hash_size(side, side).to_hasher();
    Ok(hasher.hash_image(&img).as_bytes().to_vec())
}

/// Copies exactly `HASH_BYTES` bytes into a hash.
fn hash_from_exact(bytes: &[u8]) -> (r: FixedHash)
    requires
        bytes@.len() == HASH_BYTES,
    ensures
        r@ == bytes@,
{
    let mut out: [u8; HASH_BYTES] = [0u8; HASH_BYTES];
    let mut i: usize = 0;
    while i < HASH_BYTES
        invariant
            i <= HASH_BYTES,
            bytes@.len() == HASH_BYTES,
            out@.len() == HASH_BYTES,
            forall|j: int| 0 <= j < i ==> out@[j] == bytes@[j],
        decreases HASH_BYTES - i,
    {
        out[i] = bytes[i];
        i = i + 1;
    }
    let r = FixedHash { bytes: out };
    assert(r@ =~= bytes@);
    r
}

/// What `decode` yields for a byte sequence: the hash when it holds exactly `HASH_BYTES` bytes.
pub open spec fn decoded(bytes: Seq<u8>) -> Option<Seq<u8>> {
    if bytes.len() == HASH_BYTES {
        Some(bytes)
    } else {
        None
    }
}

/// Reads one hash from its encoding.
pub fn decode(bytes: &[u8]) -> (r: Result<FixedHash, DecodeError>)
    ensures
        r is Ok <==> bytes@.len() == HASH_BYTES,
        r is Ok ==> decoded(bytes@) == Some(r->Ok_0@),
        r is Err ==> r->Err_0 == DecodeError::WrongLength,
{
    if bytes.len() != HASH_BYTES {
        return Err(DecodeError::WrongLength);
    }
    match hash_bytes_from_slice(bytes) {
        Ok(v) => Ok(hash_from_exact(v.as_slice())),
        Err(_) => Err(DecodeError::Rejected),
    }
}

/// Writes one hash as its `HASH_BYTES` bytes.
pub fn encode(h: &FixedHash) -> (r: [u8; HASH_BYTES])
    ensures
        r@ == h@,
{
    h.bytes
}

/// Side, in bits, of the square hash computed for images.
pub const HASH_SIDE: u32 = 8;

/// The hash of the image with these encoded bytes, when they decode and the hash has
/// `HASH_BYTES` bytes.
pub open spec fn image_fixed_hash(bytes: Seq<u8>) -> Option<Seq<u8>> {
    match image_hash_of(bytes, HASH_SIDE) {
        Some(h) => if h.len() == HASH_BYTES {
            Some(h)
        } else {
            None
        },
        None => None,
    }
}

/// Decodes an image and computes its perceptual hash.
pub fn hash_image(bytes: &[u8]) -> (r: Result<FixedHash, DecodeError>)
    ensures
        r is Ok <==> image_fixed_hash(bytes@) is Some,
        r is Ok ==> Some(r->Ok_0@) == image_fixed_hash(bytes@),
        image_hash_of(bytes@, HASH_SIDE) is None ==> r == Err::<FixedHash, DecodeError>(
            DecodeError::Image,
        ),
        image_hash_of(bytes@, HASH_SIDE) is Some && r is Err ==> r->Err_0
            == DecodeError::WrongLength,
{
    match hash_image_data(bytes, HASH_SIDE) {
        Ok(v) => {
            if v.len() == HASH_BYTES {
                Ok(hash_from_exact(v.as_slice()))
            } else {
                Err(DecodeError::WrongLength)
            }
        },
        Err(_) => Err(DecodeError::Image),
    }
}

/// Decoding the encoding of a hash gives the hash back, and encoding a decoded byte sequence
/// gives the bytes back.
pub proof fn lemma_hash_round_trip(h: FixedHash, bytes: Seq<u8>)
    requires
        bytes.len() == HASH_BYTES,
    ensures
        decoded(h@) == Some(h@),
        decoded(bytes) == Some(bytes),
{
}

} // verus!

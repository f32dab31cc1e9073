use vstd::prelude::*;

verus! {

/// Every way in which decoding a container can fail.
#[derive(Debug, Clone, Copy, PartialEq, Eq, Structural)]
pub enum FormatError {
    /// The container ends inside the magic or a 4-byte length field, or
    /// holds fewer than three audio bytes.
    UnexpectedEof,
    /// The first eight bytes are not the container's magic.
    BadMagic,
    /// Block-cipher input whose length is not a positive multiple of 16.
    BadAes,
    /// The metadata blob is not valid base64.
    BadBase64,
    /// A length-prefixed or fixed-size region (revision, key blob, metadata
    /// block, checksum and charset, image) does not fit in the bytes that
    /// remain; or a decrypted region is too short for its fixed label, or the
    /// key is empty.
    BadLength,
    /// The decrypted metadata does not have the expected JSON shape.
    BadMetadata,
}

impl FormatError {
    /// The variant's name, as text.
    pub fn name(&self) -> (r: &'static str)
        ensures
            *self == FormatError::UnexpectedEof ==> r@ == "UnexpectedEof"@,
            *self == FormatError::BadMagic ==> r@ == "BadMagic"@,
            *self == FormatError::BadAes ==> r@ == "BadAes"@,
            *self == FormatError::BadBase64 ==> r@ == "BadBase64"@,
            *self == FormatError::BadLength ==> r@ == "BadLength"@,
            *self == FormatError::BadMetadata ==> r@ == "BadMetadata"@,
    {
        match self {
            FormatError::UnexpectedEof => "UnexpectedEof",
            FormatError::BadMagic => "BadMagic",
            FormatError::BadAes => "BadAes",
            FormatError::BadBase64 => "BadBase64",
            FormatError::BadLength => "BadLength",
            FormatError::BadMetadata => "BadMetadata",
        }
    }
}

/// `r` is the executable form of the outcome `s`.
pub open spec fn bytes_outcome(r: Result<Vec<u8>, FormatError>, s: Result<Seq<u8>, FormatError>) -> bool {
    match r {
        Ok(v) => s == Ok::<Seq<u8>, FormatError>(v@),
        Err(e) => s == Err::<Seq<u8>, FormatError>(e),
    }
}

/// The compressed audio format found inside a container.
#[derive(Debug, Clone, Copy, PartialEq, Eq, Structural)]
pub enum MusicFormat {
    MP3,
    FLAC,
}

impl Default for MusicFormat {
    fn default() -> (r: Self)
        ensures
            r == MusicFormat::MP3,
    {
        MusicFormat::MP3
    }
}

} // verus!

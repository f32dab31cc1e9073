use crate::block::{aes_decrypt, ecb_decrypt, is_block_length, strip_padding};
use crate::cursor::{split, xor_bytes, xor_mask};
use crate::types::{bytes_outcome, FormatError, MusicFormat};
use vstd::prelude::*;
use vstd::slice::slice_to_vec;
use vstd::string::StringExecFns;

verus! {

#[verifier::external_type_specification]
#[verifier::external_body]
pub struct ExDecodeError(base64::DecodeError);

/// What standard base64 decoding (with padding) makes of `s`: `None` when `s`
/// is not valid base64.
pub uninterp spec fn base64_standard_decode(s: Seq<u8>) -> Option<Seq<u8>>;

/// Relies on `base64::decode_config_buf` with `base64::STANDARD`: it succeeds
/// exactly on valid input, and the bytes it gives depend on the input alone.
#[verifier::external_body]
fn decode_base64(input: &[u8]) -> (r: Result<Vec<u8>, base64::DecodeError>)
    ensures
        r is Ok <==> base64_standard_decode(input@) is Some,
        r matches Ok(v) ==> v@ == base64_standard_decode(input@)->0,
{
    let mut out = Vec::new();
    match base64::decode_config_buf(input, base64::STANDARD, &mut out) {
        Ok(()) => Ok(out),
        Err(e) => Err(e),
    }
}

/// Length of the label in front of the obfuscated metadata.
pub const META_LABEL_LEN: usize = 22;

/// Length of the label in front of the decrypted metadata JSON.
pub const JSON_LABEL_LEN: usize = 6;

/// The byte that masks the metadata text.
pub const META_MASK: u8 = 0x63;

/// The fixed key of the metadata block.
pub open spec fn meta_key() -> Seq<u8> {
    seq![0x23u8, 0x31, 0x34, 0x6C, 0x6A, 0x6B, 0x5F, 0x21, 0x5C, 0x5D, 0x26, 0x30, 0x55, 0x3C, 0x27, 0x28]
}

fn meta_key_bytes() -> (r: [u8; 16])
    ensures
        r@ == meta_key(),
{
    let r: [u8; 16] = [0x23, 0x31, 0x34, 0x6C, 0x6A, 0x6B, 0x5F, 0x21, 0x5C, 0x5D, 0x26, 0x30, 0x55, 0x3C, 0x27, 0x28];
    assert(r@ =~= meta_key());
    r
}

/// The JSON text held by a nonempty metadata block: drop the label, unmask,
/// decode base64, decrypt, drop the second label.
pub open spec fn metadata_json_of(block: Seq<u8>) -> Result<Seq<u8>, FormatError> {
    if block.len() < META_LABEL_LEN {
        Err(FormatError::BadLength)
    } else {
        match base64_standard_decode(
            xor_bytes(block.subrange(META_LABEL_LEN as int, block.len() as int), META_MASK),
        ) {
            None => Err(FormatError::BadBase64),
            Some(raw) => if !is_block_length(raw.len()) {
                Err(FormatError::BadAes)
            } else {
                let plain = strip_padding(ecb_decrypt(meta_key(), raw));
                if plain.len() < JSON_LABEL_LEN {
                    Err(FormatError::BadLength)
                } else {
                    Ok(plain.subrange(JSON_LABEL_LEN as int, plain.len() as int))
                }
            },
        }
    }
}

/// Recovers the JSON text of a nonempty metadata block.
pub fn decode_metadata_block(block: &[u8]) -> (r: Result<Vec<u8>, FormatError>)
    ensures
        bytes_outcome(r, metadata_json_of(block@)),
{
    let body = match split(block, META_LABEL_LEN) {
        Ok((_, body)) => body,
        Err(_) => return Err(FormatError::BadLength),
    };
    let masked = xor_mask(body, META_MASK);
    let raw = match decode_base64(masked.as_slice()) {
        Ok(raw) => raw,
        Err(_) => return Err(FormatError::BadBase64),
    };
    let key = meta_key_bytes();
    let plain = match aes_decrypt(&key, raw.as_slice()) {
        Ok(plain) => plain,
        Err(e) => return Err(e),
    };
    match split(plain.as_slice(), JSON_LABEL_LEN) {
        Ok((_, json)) => Ok(slice_to_vec(json)),
        Err(_) => Err(FormatError::BadLength),
    }
}

/// The names joined with ", " between each two.
pub open spec fn joined_names(names: Seq<Seq<char>>) -> Seq<char>
    decreases names.len(),
{
    if names.len() == 0 {
        Seq::empty()
    } else if names.len() == 1 {
        names[0]
    } else {
        joined_names(names.drop_last()) + seq![',', ' '] + names.last()
    }
}

/// Joins artist names for display, with ", " between each two.
pub fn join_artists(names: &Vec<String>) -> (r: String)
    ensures
        r@ == joined_names(names@.map_values(|s: String| s@)),
{
    let ghost all = names@.map_values(|s: String| s@);
    let mut ret = String::new();
    let mut i: usize = 0;
    while i < names.len()
        invariant
            i <= names@.len(),
            all == names@.map_values(|s: String| s@),
            ret@ == joined_names(all.subrange(0, i as int)),
        decreases names@.len() - i,
    {
        if i > 0 {
            proof {
                reveal_strlit(", ");
            }
            ret.append(", ");
        }
        ret.append(names[i].as_str());
        proof {
            let pre = all.subrange(0, i as int + 1);
            assert(pre.drop_last() =~= all.subrange(0, i as int));
            if i == 0 {
                assert(ret@ =~= pre[0]);
            }
        }
        i = i + 1;
    }
    assert(all.subrange(0, names@.len() as int) =~= all);
    ret
}

/// The format that the first decrypted audio bytes announce: MP3 when they
/// are "ID3", FLAC otherwise.
pub open spec fn format_of(audio: Seq<u8>) -> MusicFormat {
    if audio[0] == 0x49 && audio[1] == 0x44 && audio[2] == 0x33 {
        MusicFormat::MP3
    } else {
        MusicFormat::FLAC
    }
}

/// Classifies decrypted audio by its first three bytes; fails when there are
/// fewer than three.
pub fn detect_format(audio: &[u8]) -> (r: Result<MusicFormat, FormatError>)
    ensures
        audio@.len() < 3 ==> r == Err::<MusicFormat, FormatError>(FormatError::UnexpectedEof),
        audio@.len() >= 3 ==> r == Ok::<MusicFormat, FormatError>(format_of(audio@)),
{
    if audio.len() < 3 {
        Err(FormatError::UnexpectedEof)
    } else if audio[0] == 0x49 && audio[1] == 0x44 && audio[2] == 0x33 {
        Ok(MusicFormat::MP3)
    } else {
        Ok(MusicFormat::FLAC)
    }
}

/// The track's metadata, its cover art, its audio and the audio's format.
pub struct Metadata {
    pub name: String,
    pub artist: String,
    pub album: String,
    pub image: Vec<u8>,
    pub data: Vec<u8>,
    pub format: MusicFormat,
}

impl Metadata {
    /// All fields empty, the format MP3.
    pub open spec fn is_empty(&self) -> bool {
        &&& self.name@.len() == 0
        &&& self.artist@.len() == 0
        &&& self.album@.len() == 0
        &&& self.image@.len() == 0
        &&& self.data@.len() == 0
        &&& self.format == MusicFormat::MP3
    }
}

impl Default for Metadata {
    fn default() -> (r: Self)
        ensures
            r.is_empty(),
    {
        Metadata {
            name: String::new(),
            artist: String::new(),
            album: String::new(),
            image: Vec::new(),
            data: Vec::new(),
            format: MusicFormat::MP3,
        }
    }
}

} // verus!

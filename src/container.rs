use crate::block::{aes_decrypt, ecb_decrypt, is_block_length, strip_padding};
use crate::cursor::{le_u32_at, read_u32, split, xor_bytes, xor_mask};
use crate::keybox::{apply_keystream, key_box_of, KeyBox};
use crate::metadata::{decode_metadata_block, detect_format, format_of, metadata_json_of, Metadata};
use crate::types::{FormatError, MusicFormat};
use vstd::prelude::*;
use vstd::slice::slice_to_vec;

verus! {

/// First magic word: "CTEN" read as a little-endian integer.
pub const MAGIC1: u32 = 0x4e455443;

/// Second magic word: "FDAM" read as a little-endian integer.
pub const MAGIC2: u32 = 0x4d414446;

/// Length of the revision field after the magic.
pub const REVISION_LEN: usize = 2;

/// The byte that masks the key blob.
pub const KEY_MASK: u8 = 0x64;

/// Length of the label in front of the decrypted key.
pub const KEY_LABEL_LEN: usize = 17;

/// Length of the checksum and charset fields after the metadata block.
pub const CHECKSUM_LEN: usize = 9;

/// The container's first eight bytes, "CTENFDAM".
pub open spec fn magic_bytes() -> Seq<u8> {
    seq![0x43u8, 0x54, 0x45, 0x4E, 0x46, 0x44, 0x41, 0x4D]
}

/// The first two little-endian words of `s` are the magic.
pub open spec fn has_magic(s: Seq<u8>) -> bool {
    le_u32_at(s, 0) == MAGIC1 && le_u32_at(s, 4) == MAGIC2
}

/// The fixed key of the key blob.
pub open spec fn core_key() -> Seq<u8> {
    seq![0x68u8, 0x7A, 0x48, 0x52, 0x41, 0x6D, 0x73, 0x6F, 0x35, 0x6B, 0x49, 0x6E, 0x62, 0x61, 0x78, 0x57]
}

fn core_key_bytes() -> (r: [u8; 16])
    ensures
        r@ == core_key(),
{
    let r: [u8; 16] = [0x68, 0x7A, 0x48, 0x52, 0x41, 0x6D, 0x73, 0x6F, 0x35, 0x6B, 0x49, 0x6E, 0x62, 0x61, 0x78, 0x57];
    assert(r@ =~= core_key());
    r
}

/// The key-schedule input held by a key blob: unmask, decrypt, drop the
/// label. A key that is empty after the label is too short.
pub open spec fn key_input_of(blob: Seq<u8>) -> Result<Seq<u8>, FormatError> {
    if !is_block_length(blob.len()) {
        Err(FormatError::BadAes)
    } else {
        let plain = strip_padding(ecb_decrypt(core_key(), xor_bytes(blob, KEY_MASK)));
        if plain.len() <= KEY_LABEL_LEN {
            Err(FormatError::BadLength)
        } else {
            Ok(plain.subrange(KEY_LABEL_LEN as int, plain.len() as int))
        }
    }
}

/// Builds the key box from a key blob as it stands in the container.
pub fn key_box_from_blob(blob: &[u8]) -> (r: Result<KeyBox, FormatError>)
    ensures
        match key_input_of(blob@) {
            Ok(key) => r matches Ok(kb) && kb@ == key_box_of(key) && kb.wf(),
            Err(e) => r matches Err(f) && f == e,
        },
{
    let masked = xor_mask(blob, KEY_MASK);
    let key = core_key_bytes();
    let plain = match aes_decrypt(&key, masked.as_slice()) {
        Ok(plain) => plain,
        Err(e) => return Err(e),
    };
    match split(plain.as_slice(), KEY_LABEL_LEN) {
        Ok((_, k)) => KeyBox::new(k),
        Err(_) => Err(FormatError::BadLength),
    }
}

/// What decoding a container yields, as values.
pub struct DecodedView {
    pub meta_json: Option<Seq<u8>>,
    pub image: Seq<u8>,
    pub audio: Seq<u8>,
    pub format: MusicFormat,
}

/// What decoding a container yields: the metadata JSON text (`None` when the
/// metadata block is empty), the cover image (empty when there is none), the
/// decrypted audio and its format.
pub struct Decoded {
    pub meta_json: Option<Vec<u8>>,
    pub image: Vec<u8>,
    pub audio: Vec<u8>,
    pub format: MusicFormat,
}

/// The contents of an optional byte vector.
pub open spec fn bytes_option(v: Option<Vec<u8>>) -> Option<Seq<u8>> {
    match v {
        Some(b) => Some(b@),
        None => None,
    }
}

impl View for Decoded {
    type V = DecodedView;

    open spec fn view(&self) -> DecodedView {
        DecodedView {
            meta_json: bytes_option(self.meta_json),
            image: self.image@,
            audio: self.audio@,
            format: self.format,
        }
    }
}

impl Decoded {
    /// The track's metadata: the given text fields, with the image, the
    /// audio and the format found in the container.
    pub fn into_metadata(self, name: String, artist: String, album: String) -> (r: Metadata)
        ensures
            r.name == name,
            r.artist == artist,
            r.album == album,
            r.image@ == self.image@,
            r.data@ == self.audio@,
            r.format == self.format,
    {
        Metadata { name, artist, album, image: self.image, data: self.audio, format: self.format }
    }
}

/// The rest of a container from offset `p` on: checksum and charset, the
/// image, then the audio, decrypted with key box `t`.
pub open spec fn decode_from_checksum(
    s: Seq<u8>,
    p: int,
    meta: Option<Seq<u8>>,
    t: Seq<u8>,
) -> Result<DecodedView, FormatError> {
    if s.len() < p + CHECKSUM_LEN {
        Err(FormatError::BadLength)
    } else if s.len() < p + CHECKSUM_LEN + 4 {
        Err(FormatError::UnexpectedEof)
    } else {
        let q = p + CHECKSUM_LEN + 4;
        let image_end = q + le_u32_at(s, p + CHECKSUM_LEN);
        if s.len() < image_end {
            Err(FormatError::BadLength)
        } else {
            let audio = apply_keystream(t, s.subrange(image_end, s.len() as int), 0);
            if audio.len() < 3 {
                Err(FormatError::UnexpectedEof)
            } else {
                Ok(
                    DecodedView {
                        meta_json: meta,
                        image: s.subrange(q, image_end),
                        audio,
                        format: format_of(audio),
                    },
                )
            }
        }
    }
}

/// The rest of a container from offset `p` on, where the metadata length
/// stands.
pub open spec fn decode_from_metadata(s: Seq<u8>, p: int, t: Seq<u8>) -> Result<
    DecodedView,
    FormatError,
> {
    if s.len() < p + 4 {
        Err(FormatError::UnexpectedEof)
    } else {
        let q = p + 4;
        let meta_end = q + le_u32_at(s, p);
        if meta_end == q {
            decode_from_checksum(s, q, None, t)
        } else if s.len() < meta_end {
            Err(FormatError::BadLength)
        } else {
            match metadata_json_of(s.subrange(q, meta_end)) {
                Ok(json) => decode_from_checksum(s, meta_end, Some(json), t),
                Err(e) => Err(e),
            }
        }
    }
}

/// A metadata length of zero is no error: decoding goes on past it with no
/// metadata text, and what it yields, if anything, carries none.
pub proof fn lemma_zero_metadata_length(s: Seq<u8>, p: int, t: Seq<u8>)
    requires
        0 <= p,
        s.len() >= p + 4,
        le_u32_at(s, p) == 0,
    ensures
        decode_from_metadata(s, p, t) == decode_from_checksum(s, p + 4, None, t),
        decode_from_metadata(s, p, t) matches Ok(d) ==> d.meta_json is None,
{
}

/// Offset at which the key blob starts.
pub open spec fn key_start() -> int {
    8 + REVISION_LEN + 4
}

/// The magic words hold exactly when the first eight bytes are "CTENFDAM".
pub proof fn lemma_magic_bytes(s: Seq<u8>)
    requires
        s.len() >= 8,
    ensures
        has_magic(s) <==> s.subrange(0, 8) == magic_bytes(),
{
    if s.subrange(0, 8) == magic_bytes() {
        assert(s[0] == s.subrange(0, 8)[0]);
        assert(s[1] == s.subrange(0, 8)[1]);
        assert(s[2] == s.subrange(0, 8)[2]);
        assert(s[3] == s.subrange(0, 8)[3]);
        assert(s[4] == s.subrange(0, 8)[4]);
        assert(s[5] == s.subrange(0, 8)[5]);
        assert(s[6] == s.subrange(0, 8)[6]);
        assert(s[7] == s.subrange(0, 8)[7]);
    }
    if has_magic(s) {
        assert(s.subrange(0, 8) =~= magic_bytes());
    }
}

proof fn lemma_le_u32_in_rest(s: Seq<u8>, p: int)
    requires
        0 <= p,
        p + 4 <= s.len(),
    ensures
        le_u32_at(s.subrange(p, s.len() as int), 0) == le_u32_at(s, p),
{
    let r = s.subrange(p, s.len() as int);
    assert(r[0] == s[p] && r[1] == s[p + 1] && r[2] == s[p + 2] && r[3] == s[p + 3]);
}

/// Decodes the end of a container from offset `p` on, where the checksum
/// stands.
fn decode_tail(
    ncm: &[u8],
    rest: &[u8],
    kb: &KeyBox,
    meta: Option<Vec<u8>>,
    Ghost(p): Ghost<int>,
) -> (r: Result<Decoded, FormatError>)
    requires
        kb.wf(),
        0 <= p <= ncm@.len(),
        rest@ == ncm@.subrange(p, ncm@.len() as int),
    ensures
        match r {
            Ok(d) => decode_from_checksum(ncm@, p, bytes_option(meta), kb@) == Ok::<
                DecodedView,
                FormatError,
            >(d@),
            Err(e) => decode_from_checksum(ncm@, p, bytes_option(meta), kb@) == Err::<
                DecodedView,
                FormatError,
            >(e),
        },
{
    let ghost s = ncm@;
    let rest = match split(rest, CHECKSUM_LEN) {
        Ok((_, x)) => x,
        Err(_) => return Err(FormatError::BadLength),
    };
    let (n, rest) = match read_u32(rest) {
        Ok(x) => x,
        Err(e) => return Err(e),
    };
    let ghost q = p + CHECKSUM_LEN + 4;
    proof {
        lemma_le_u32_in_rest(s, p + CHECKSUM_LEN);
    }
    assert(rest@ == s.subrange(q, s.len() as int));
    let (image, rest) = match split(rest, n as usize) {
        Ok(x) => x,
        Err(_) => return Err(FormatError::BadLength),
    };
    assert(image@ == s.subrange(q, q + n));
    assert(rest@ == s.subrange(q + n, s.len() as int));
    let mut audio = slice_to_vec(rest);
    assert(audio@.len() == audio.len());
    kb.apply(&mut audio, 0);
    let format = match detect_format(audio.as_slice()) {
        Ok(f) => f,
        Err(e) => return Err(e),
    };
    Ok(Decoded { meta_json: meta, image: slice_to_vec(image), audio, format })
}

/// Decodes the rest of a container from offset `p` on, where the metadata
/// length stands.
fn decode_rest(ncm: &[u8], rest: &[u8], kb: &KeyBox, Ghost(p): Ghost<int>) -> (r: Result<
    Decoded,
    FormatError,
>)
    requires
        kb.wf(),
        0 <= p <= ncm@.len(),
        rest@ == ncm@.subrange(p, ncm@.len() as int),
    ensures
        match r {
            Ok(d) => decode_from_metadata(ncm@, p, kb@) == Ok::<DecodedView, FormatError>(d@),
            Err(e) => decode_from_metadata(ncm@, p, kb@) == Err::<DecodedView, FormatError>(e),
        },
{
    let ghost s = ncm@;
    let (n, rest) = match read_u32(rest) {
        Ok(x) => x,
        Err(e) => return Err(e),
    };
    let ghost q = p + 4;
    proof {
        lemma_le_u32_in_rest(s, p);
    }
    assert(rest@ == s.subrange(q, s.len() as int));
    if n == 0 {
        return decode_tail(ncm, rest, kb, None, Ghost(q));
    }
    let (block, rest) = match split(rest, n as usize) {
        Ok(x) => x,
        Err(_) => return Err(FormatError::BadLength),
    };
    assert(block@ == s.subrange(q, q + n));
    assert(rest@ == s.subrange(q + n, s.len() as int));
    let json = match decode_metadata_block(block) {
        Ok(j) => j,
        Err(e) => return Err(e),
    };
    decode_tail(ncm, rest, kb, Some(json), Ghost(q + n))
}

/// Where the key blob of `s` ends, once the magic, the revision and the key
/// length have been read.
pub open spec fn header_outcome(s: Seq<u8>) -> Result<int, FormatError> {
    if s.len() < 8 {
        Err(FormatError::UnexpectedEof)
    } else if !has_magic(s) {
        Err(FormatError::BadMagic)
    } else if s.len() < 8 + REVISION_LEN {
        Err(FormatError::BadLength)
    } else if s.len() < key_start() {
        Err(FormatError::UnexpectedEof)
    } else {
        let key_end = key_start() + le_u32_at(s, 8 + REVISION_LEN);
        if s.len() < key_end {
            Err(FormatError::BadLength)
        } else {
            Ok(key_end)
        }
    }
}

/// What a whole container decodes to.
pub open spec fn decode_container(s: Seq<u8>) -> Result<DecodedView, FormatError> {
    match header_outcome(s) {
        Ok(key_end) => match key_input_of(s.subrange(key_start(), key_end)) {
            Ok(key) => decode_from_metadata(s, key_end, key_box_of(key)),
            Err(e) => Err(e),
        },
        Err(e) => Err(e),
    }
}

/// Reads the header: checks the magic, skips the revision, and takes the key
/// blob and what follows it.
fn read_header(ncm: &[u8]) -> (r: Result<(&[u8], &[u8]), FormatError>)
    ensures
        match r {
            Ok((blob, rest)) => header_outcome(ncm@) matches Ok(key_end) && blob@ == ncm@.subrange(
                key_start(),
                key_end,
            ) && rest@ == ncm@.subrange(key_end, ncm@.len() as int),
            Err(e) => header_outcome(ncm@) == Err::<int, FormatError>(e),
        },
{
    let ghost s = ncm@;
    let (magic1, rest) = match read_u32(ncm) {
        Ok(x) => x,
        Err(e) => return Err(e),
    };
    let (magic2, rest) = match read_u32(rest) {
        Ok(x) => x,
        Err(e) => return Err(e),
    };
    proof {
        lemma_le_u32_in_rest(s, 4);
    }
    if magic1 != MAGIC1 || magic2 != MAGIC2 {
        return Err(FormatError::BadMagic);
    }
    let rest = match split(rest, REVISION_LEN) {
        Ok((_, x)) => x,
        Err(_) => return Err(FormatError::BadLength),
    };
    assert(rest@ == s.subrange(8 + REVISION_LEN, s.len() as int));
    let (n, rest) = match read_u32(rest) {
        Ok(x) => x,
        Err(e) => return Err(e),
    };
    proof {
        lemma_le_u32_in_rest(s, 8 + REVISION_LEN);
    }
    assert(rest@ == s.subrange(key_start(), s.len() as int));
    match split(rest, n as usize) {
        Ok((blob, rest)) => {
            assert(blob@ == s.subrange(key_start(), key_start() + n));
            assert(rest@ == s.subrange(key_start() + n, s.len() as int));
            Ok((blob, rest))
        },
        Err(_) => Err(FormatError::BadLength),
    }
}

/// Decodes a whole container: checks the magic, builds the key box, recovers
/// the metadata JSON text and the cover image, and decrypts the audio and
/// classifies it.
pub fn transform(ncm: &[u8]) -> (r: Result<Decoded, FormatError>)
    ensures
        match r {
            Ok(d) => decode_container(ncm@) == Ok::<DecodedView, FormatError>(d@),
            Err(e) => decode_container(ncm@) == Err::<DecodedView, FormatError>(e),
        },
        ncm@.len() >= 8 && ncm@.subrange(0, 8) != magic_bytes() ==> r matches Err(
            FormatError::BadMagic,
        ),
{
    proof {
        if ncm@.len() >= 8 {
            lemma_magic_bytes(ncm@);
        }
    }
    let (blob, rest) = match read_header(ncm) {
        Ok(x) => x,
        Err(e) => return Err(e),
    };
    let ghost key_end = header_outcome(ncm@)->Ok_0;
    let kb = match key_box_from_blob(blob) {
        Ok(kb) => kb,
        Err(e) => return Err(e),
    };
    decode_rest(ncm, rest, &kb, Ghost(key_end))
}

} // verus!

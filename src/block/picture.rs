use vstd::prelude::*;
use vstd::utf8::{decode_utf8, encode_utf8, encode_utf8_decode_utf8, encode_utf8_valid_utf8, valid_utf8};
use crate::error::{Error, ErrorKind, Result};
use crate::text::{append_bytes, copy_range, decode_range, room, string_bytes};
use crate::util::{
    be_bytes, be_value, lemma_be_round_trip, lemma_be_value_bound, lemma_pow256_8, read_be,
    u64_to_be_bytes,
};

verus! {

/// Types of pictures that can be used in the picture block.
#[derive(Clone, Copy, Debug, PartialEq, Eq, Structural)]
pub enum PictureType {
    Other,
    Icon,
    OtherIcon,
    CoverFront,
    CoverBack,
    Leaflet,
    Media,
    LeadArtist,
    Artist,
    Conductor,
    Band,
    Composer,
    Lyricist,
    RecordingLocation,
    DuringRecording,
    DuringPerformance,
    ScreenCapture,
    BrightFish,
    Illustration,
    BandLogo,
    PublisherLogo,
}

/// The code of a picture type.
pub open spec fn picture_type_code(t: PictureType) -> u32 {
    match t {
        PictureType::Other => 0,
        PictureType::Icon => 1,
        PictureType::OtherIcon => 2,
        PictureType::CoverFront => 3,
        PictureType::CoverBack => 4,
        PictureType::Leaflet => 5,
        PictureType::Media => 6,
        PictureType::LeadArtist => 7,
        PictureType::Artist => 8,
        PictureType::Conductor => 9,
        PictureType::Band => 10,
        PictureType::Composer => 11,
        PictureType::Lyricist => 12,
        PictureType::RecordingLocation => 13,
        PictureType::DuringRecording => 14,
        PictureType::DuringPerformance => 15,
        PictureType::ScreenCapture => 16,
        PictureType::BrightFish => 17,
        PictureType::Illustration => 18,
        PictureType::BandLogo => 19,
        PictureType::PublisherLogo => 20,
    }
}

/// The picture type with code `n`, if there is one.
pub open spec fn picture_type_of(n: u32) -> Option<PictureType> {
    if n <= 20 {
        Some(choose|t: PictureType| picture_type_code(t) == n)
    } else {
        None
    }
}

proof fn lemma_picture_type_code_injective(t: PictureType)
    ensures
        picture_type_code(t) <= 20,
        forall|u: PictureType| picture_type_code(u) == picture_type_code(t) ==> u == t,
{
}

/// Mapping a picture type to its code and back gives it back.
pub proof fn lemma_picture_type_round_trip(t: PictureType)
    ensures
        picture_type_of(picture_type_code(t)) == Some(t),
{
    lemma_picture_type_code_injective(t);
    let u = choose|u: PictureType| picture_type_code(u) == picture_type_code(t);
    assert(picture_type_code(u) == picture_type_code(t));
}

impl PictureType {
    /// The code of this picture type.
    pub fn to_u32(&self) -> (r: u32)
        ensures
            r == picture_type_code(*self),
    {
        match *self {
            PictureType::Other => 0,
            PictureType::Icon => 1,
            PictureType::OtherIcon => 2,
            PictureType::CoverFront => 3,
            PictureType::CoverBack => 4,
            PictureType::Leaflet => 5,
            PictureType::Media => 6,
            PictureType::LeadArtist => 7,
            PictureType::Artist => 8,
            PictureType::Conductor => 9,
            PictureType::Band => 10,
            PictureType::Composer => 11,
            PictureType::Lyricist => 12,
            PictureType::RecordingLocation => 13,
            PictureType::DuringRecording => 14,
            PictureType::DuringPerformance => 15,
            PictureType::ScreenCapture => 16,
            PictureType::BrightFish => 17,
            PictureType::Illustration => 18,
            PictureType::BandLogo => 19,
            PictureType::PublisherLogo => 20,
        }
    }

    /// The picture type with code `n`, or `None` where no type has that code.
    pub fn from_u32(n: u32) -> (r: Option<PictureType>)
        ensures
            r == picture_type_of(n),
    {
        let r = match n {
            0 => Some(PictureType::Other),
            1 => Some(PictureType::Icon),
            2 => Some(PictureType::OtherIcon),
            3 => Some(PictureType::CoverFront),
            4 => Some(PictureType::CoverBack),
            5 => Some(PictureType::Leaflet),
            6 => Some(PictureType::Media),
            7 => Some(PictureType::LeadArtist),
            8 => Some(PictureType::Artist),
            9 => Some(PictureType::Conductor),
            10 => Some(PictureType::Band),
            11 => Some(PictureType::Composer),
            12 => Some(PictureType::Lyricist),
            13 => Some(PictureType::RecordingLocation),
            14 => Some(PictureType::DuringRecording),
            15 => Some(PictureType::DuringPerformance),
            16 => Some(PictureType::ScreenCapture),
            17 => Some(PictureType::BrightFish),
            18 => Some(PictureType::Illustration),
            19 => Some(PictureType::BandLogo),
            20 => Some(PictureType::PublisherLogo),
            _ => None,
        };
        proof {
            if let Some(t) = r {
                lemma_picture_type_round_trip(t);
            }
        }
        r
    }
}

/// A structure representing a PICTURE block.
#[derive(Clone, Debug, PartialEq, Eq)]
pub struct Picture {
    /// The picture type.
    pub picture_type: PictureType,
    /// The MIME type.
    pub mime_type: String,
    /// The description of the picture.
    pub description: String,
    /// The width of the picture in pixels.
    pub width: u32,
    /// The height of the picture in pixels.
    pub height: u32,
    /// The color depth of the picture in bits-per-pixel.
    pub depth: u32,
    /// For indexed-color pictures (e.g. GIF), the number of colors used, or 0 for non-indexed
    /// pictures.
    pub num_colors: u32,
    /// The binary picture data.
    pub data: Vec<u8>,
}

/// The value of a `Picture`.
pub ghost struct PictureModel {
    pub picture_type: PictureType,
    pub mime_type: Seq<char>,
    pub description: Seq<char>,
    pub width: u32,
    pub height: u32,
    pub depth: u32,
    pub num_colors: u32,
    pub data: Seq<u8>,
}

impl View for Picture {
    type V = PictureModel;

    open spec fn view(&self) -> PictureModel {
        PictureModel {
            picture_type: self.picture_type,
            mime_type: self.mime_type@,
            description: self.description@,
            width: self.width,
            height: self.height,
            depth: self.depth,
            num_colors: self.num_colors,
            data: self.data@,
        }
    }
}

/// Whether each length-prefixed region of a picture fits its 32-bit length field.
pub open spec fn picture_fits(m: PictureModel) -> bool {
    &&& encode_utf8(m.mime_type).len() < 0x100000000
    &&& encode_utf8(m.description).len() < 0x100000000
    &&& m.data.len() < 0x100000000
}

/// A 32-bit length field followed by the bytes it counts.
pub open spec fn prefixed(b: Seq<u8>) -> Seq<u8> {
    be_bytes(b.len(), 4) + b
}

/// The encoded form of a PICTURE block.
pub open spec fn picture_bytes(m: PictureModel) -> Seq<u8> {
    be_bytes(picture_type_code(m.picture_type) as nat, 4) + prefixed(encode_utf8(m.mime_type))
        + prefixed(encode_utf8(m.description)) + be_bytes(m.width as nat, 4) + be_bytes(
        m.height as nat,
        4,
    ) + be_bytes(m.depth as nat, 4) + be_bytes(m.num_colors as nat, 4) + prefixed(m.data)
}

/// The big-endian 32-bit field at `pos`.
pub open spec fn u32_at(b: Seq<u8>, pos: int) -> nat {
    be_value(b.subrange(pos, pos + 4))
}

/// The PICTURE block held in `b`, or the kind of error that reading it meets: an unknown
/// picture type or a region that runs past the end is invalid input, text that is not UTF-8
/// a decoding error.
pub open spec fn picture_of(b: Seq<u8>) -> core::result::Result<PictureModel, ErrorKind> {
    if b.len() < 8 {
        Err(ErrorKind::InvalidInput)
    } else if picture_type_of(u32_at(b, 0) as u32) is None {
        Err(ErrorKind::InvalidInput)
    } else {
        let mime_end: int = 8 + u32_at(b, 4) as int;
        if mime_end + 4 > b.len() {
            Err(ErrorKind::InvalidInput)
        } else if !valid_utf8(b.subrange(8, mime_end)) {
            Err(ErrorKind::StringDecoding)
        } else {
            let desc_end: int = mime_end + 4 + u32_at(b, mime_end);
            if desc_end + 20 > b.len() {
                Err(ErrorKind::InvalidInput)
            } else if !valid_utf8(b.subrange(mime_end + 4, desc_end)) {
                Err(ErrorKind::StringDecoding)
            } else {
                let data_end: int = desc_end + 20 + u32_at(b, desc_end + 16);
                if data_end > b.len() {
                    Err(ErrorKind::InvalidInput)
                } else {
                    Ok(
                        PictureModel {
                            picture_type: picture_type_of(u32_at(b, 0) as u32).unwrap(),
                            mime_type: decode_utf8(b.subrange(8, mime_end)),
                            description: decode_utf8(b.subrange(mime_end + 4, desc_end)),
                            width: u32_at(b, desc_end) as u32,
                            height: u32_at(b, desc_end + 4) as u32,
                            depth: u32_at(b, desc_end + 8) as u32,
                            num_colors: u32_at(b, desc_end + 12) as u32,
                            data: b.subrange(desc_end + 20, data_end),
                        },
                    )
                }
            }
        }
    }
}

/// Decoding the encoded form of a PICTURE block gives it back.
pub proof fn lemma_picture_round_trip(m: PictureModel)
    requires
        picture_fits(m),
    ensures
        picture_of(picture_bytes(m)) == Ok::<PictureModel, ErrorKind>(m),
{
    lemma_pow256_8();
    let mime = encode_utf8(m.mime_type);
    let desc = encode_utf8(m.description);
    let b = picture_bytes(m);
    lemma_picture_type_round_trip(m.picture_type);
    lemma_picture_type_code_injective(m.picture_type);
    lemma_be_round_trip(picture_type_code(m.picture_type) as nat, 4);
    lemma_be_round_trip(mime.len(), 4);
    lemma_be_round_trip(desc.len(), 4);
    lemma_be_round_trip(m.width as nat, 4);
    lemma_be_round_trip(m.height as nat, 4);
    lemma_be_round_trip(m.depth as nat, 4);
    lemma_be_round_trip(m.num_colors as nat, 4);
    lemma_be_round_trip(m.data.len(), 4);
    encode_utf8_valid_utf8(m.mime_type);
    encode_utf8_valid_utf8(m.description);
    encode_utf8_decode_utf8(m.mime_type);
    encode_utf8_decode_utf8(m.description);
    let me: int = 8 + mime.len() as int;
    let de: int = me + 4 + desc.len();
    assert(b.subrange(0, 4) =~= be_bytes(picture_type_code(m.picture_type) as nat, 4));
    assert(b.subrange(4, 8) =~= be_bytes(mime.len(), 4));
    assert(b.subrange(8, me) =~= mime);
    assert(b.subrange(me, me + 4) =~= be_bytes(desc.len(), 4));
    assert(b.subrange(me + 4, de) =~= desc);
    assert(b.subrange(de, de + 4) =~= be_bytes(m.width as nat, 4));
    assert(b.subrange(de + 4, de + 8) =~= be_bytes(m.height as nat, 4));
    assert(b.subrange(de + 8, de + 12) =~= be_bytes(m.depth as nat, 4));
    assert(b.subrange(de + 12, de + 16) =~= be_bytes(m.num_colors as nat, 4));
    assert(b.subrange(de + 16, de + 20) =~= be_bytes(m.data.len(), 4));
    assert(b.subrange(de + 20, b.len() as int) =~= m.data);
}

/// Appends a 32-bit length field and then `b`.
fn push_prefixed(out: &mut Vec<u8>, b: &[u8])
    requires
        b@.len() < 0x100000000,
    ensures
        final(out)@ == old(out)@ + prefixed(b@),
{
    let mut len = u64_to_be_bytes(b.len() as u64, 4);
    out.append(&mut len);
    append_bytes(out, b);
}

impl Picture {
    /// Returns a new `Picture` with zero/empty values.
    pub fn new() -> (r: Picture)
        ensures
            r@ == (PictureModel {
                picture_type: PictureType::Other,
                mime_type: Seq::empty(),
                description: Seq::empty(),
                width: 0,
                height: 0,
                depth: 0,
                num_colors: 0,
                data: Seq::empty(),
            }),
    {
        Picture {
            picture_type: PictureType::Other,
            mime_type: String::new(),
            description: String::new(),
            width: 0,
            height: 0,
            depth: 0,
            num_colors: 0,
            data: Vec::new(),
        }
    }

    /// Attempts to parse the bytes as a `Picture` block. Returns a `Picture` on success.
    pub fn from_bytes(bytes: &[u8]) -> (r: Result<Picture>)
        ensures
            match (r, picture_of(bytes@)) {
                (Ok(p), Ok(m)) => p@ == m,
                (Err(e), Err(k)) => e.kind == k,
                _ => false,
            },
    {
        let len: usize = bytes.len();
        proof {
            lemma_pow256_8();
        }
        if len < 8 {
            return Err(Error::new(ErrorKind::InvalidInput, "picture block is too short"));
        }
        let code: u64 = read_be(bytes, 0, 4);
        proof {
            lemma_be_value_bound(bytes@.subrange(0, 4));
        }
        let picture_type = match PictureType::from_u32(code as u32) {
            Some(t) => t,
            None => {
                return Err(Error::new(ErrorKind::InvalidInput, "invalid picture type"));
            },
        };
        let mime_len: u64 = read_be(bytes, 4, 4);
        proof {
            lemma_be_value_bound(bytes@.subrange(4, 8));
        }
        if !room(len, 8, mime_len + 4) {
            return Err(Error::new(ErrorKind::InvalidInput, "picture block is too short"));
        }
        let mime_end: usize = 8 + mime_len as usize;
        let mime_type = match decode_range(bytes, 8, mime_end) {
            Some(s) => s,
            None => {
                return Err(Error::new(ErrorKind::StringDecoding, "invalid MIME type"));
            },
        };
        let desc_len: u64 = read_be(bytes, mime_end, 4);
        proof {
            lemma_be_value_bound(bytes@.subrange(mime_end as int, mime_end + 4));
        }
        if !room(len, mime_end + 4, desc_len + 20) {
            return Err(Error::new(ErrorKind::InvalidInput, "picture block is too short"));
        }
        let desc_end: usize = mime_end + 4 + desc_len as usize;
        let description = match decode_range(bytes, mime_end + 4, desc_end) {
            Some(s) => s,
            None => {
                return Err(Error::new(ErrorKind::StringDecoding, "invalid description"));
            },
        };
        let width = read_be(bytes, desc_end, 4) as u32;
        let height = read_be(bytes, desc_end + 4, 4) as u32;
        let depth = read_be(bytes, desc_end + 8, 4) as u32;
        let num_colors = read_be(bytes, desc_end + 12, 4) as u32;
        let data_len: u64 = read_be(bytes, desc_end + 16, 4);
        if !room(len, desc_end + 20, data_len) {
            return Err(Error::new(ErrorKind::InvalidInput, "picture block is too short"));
        }
        let data_end: usize = desc_end + 20 + data_len as usize;
        let data = copy_range(bytes, desc_end + 20, data_end);
        Ok(
            Picture {
                picture_type,
                mime_type,
                description,
                width,
                height,
                depth,
                num_colors,
                data,
            },
        )
    }

    /// Whether each length-prefixed region fits its 32-bit length field.
    pub fn fits(&self) -> (r: bool)
        ensures
            r == picture_fits(self@),
    {
        (self.mime_type.as_str().as_bytes().len() as u64) < 0x100000000 && (self.description.as_str().as_bytes().len()
            as u64) < 0x100000000 && (self.data.len() as u64) < 0x100000000
    }

    /// Returns a vector representation of the picture block suitable for writing to a file.
    pub fn to_bytes(&self) -> (r: Vec<u8>)
        requires
            picture_fits(self@),
        ensures
            r@ == picture_bytes(self@),
    {
        let mut bytes = u64_to_be_bytes(self.picture_type.to_u32() as u64, 4);
        let mime = string_bytes(&self.mime_type);
        push_prefixed(&mut bytes, mime.as_slice());
        let description = string_bytes(&self.description);
        push_prefixed(&mut bytes, description.as_slice());
        let mut part = u64_to_be_bytes(self.width as u64, 4);
        bytes.append(&mut part);
        let mut part = u64_to_be_bytes(self.height as u64, 4);
        bytes.append(&mut part);
        let mut part = u64_to_be_bytes(self.depth as u64, 4);
        bytes.append(&mut part);
        let mut part = u64_to_be_bytes(self.num_colors as u64, 4);
        bytes.append(&mut part);
        push_prefixed(&mut bytes, self.data.as_slice());
        bytes
    }
}

impl Default for Picture {
    fn default() -> (r: Picture)
        ensures
            r@ == (PictureModel {
                picture_type: PictureType::Other,
                mime_type: Seq::empty(),
                description: Seq::empty(),
                width: 0,
                height: 0,
                depth: 0,
                num_colors: 0,
                data: Seq::empty(),
            }),
    {
        Picture::new()
    }
}

} // verus!

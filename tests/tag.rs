use metaflac::block::{
    Application, CueSheet, CueSheetTrack, CueSheetTrackIndex, Picture, PictureType, SeekPoint,
    SeekTable, StreamInfo, VorbisComment,
};
use metaflac::util::{bytes_to_be_u64, bytes_to_le_u64, u64_to_be_bytes, u64_to_le_bytes};
use metaflac::{Block, BlockType, ErrorKind, Tag};

#[test]
fn vorbis_case_sensitivity() {
    let mut tag = Tag::new();

    tag.set_vorbis("KEY", vec!["value"]);

    assert_eq!(tag.get_vorbis("KEY").unwrap(), &["value"]);
    assert_eq!(tag.get_vorbis("key").unwrap(), &["value"]);

    tag.remove_vorbis("key");
    assert!(tag.get_vorbis("KEY").is_none());
}

#[test]
fn vorbis_mixed_case_key() {
    let mut tag = Tag::new();
    tag.set_vorbis("Key", vec!["a", "b"]);
    assert_eq!(tag.get_vorbis("KEY").unwrap(), &["a", "b"]);
    assert_eq!(tag.get_vorbis("key").unwrap(), &["a", "b"]);
    tag.remove_vorbis_pair("kEy", "a");
    assert_eq!(tag.get_vorbis("KEY").unwrap(), &["b"]);
    tag.remove_vorbis_pair("key", "b");
    assert!(tag.get_vorbis("KEY").is_none());
    assert!(tag.vorbis_comments().is_some());
}

#[test]
fn remove_blocks_by_type() {
    let mut tag = Tag::new();
    tag.push_block(Block::Padding(10));
    tag.push_block(Block::Unknown((20, Vec::new())));
    tag.push_block(Block::Padding(15));
    tag.remove_blocks(BlockType::Padding);
    assert_eq!(tag.blocks().len(), 1);
    assert_eq!(tag.get_blocks(BlockType::Unknown(20)).len(), 1);
}

#[test]
fn picture_same_type_replaced() {
    let mut tag = Tag::new();
    tag.add_picture("image/jpeg", PictureType::CoverFront, vec![0xFF]);
    tag.add_picture("image/png", PictureType::CoverFront, vec![0xAB]);
    let pictures = tag.pictures();
    assert_eq!(pictures.len(), 1);
    assert_eq!(pictures[0].mime_type, "image/png");
    assert_eq!(pictures[0].data, vec![0xAB]);
}

#[test]
fn picture_different_types_kept() {
    let mut tag = Tag::new();
    tag.add_picture("image/jpeg", PictureType::CoverFront, vec![0xFF]);
    tag.add_picture("image/png", PictureType::Other, vec![0xAB]);
    assert_eq!(tag.pictures().len(), 2);
    tag.remove_picture_type(PictureType::CoverFront);
    let pictures = tag.pictures();
    assert_eq!(pictures.len(), 1);
    assert_eq!(pictures[0].mime_type, "image/png");
    assert_eq!(pictures[0].picture_type, PictureType::Other);
}

#[test]
fn streaminfo_goes_first() {
    let mut tag = Tag::new();
    assert!(tag.get_streaminfo().is_none());
    tag.push_block(Block::Padding(3));
    let mut info = StreamInfo::new();
    info.sample_rate = 44100;
    tag.push_block(Block::StreamInfo(info));
    tag.push_block(Block::StreamInfo(StreamInfo::new()));
    assert_eq!(tag.blocks().len(), 2);
    assert!(matches!(tag.blocks()[0], Block::StreamInfo(_)));
    assert_eq!(tag.get_streaminfo().unwrap().sample_rate, 0);
}

#[test]
fn streaminfo_bit_packing() {
    let mut info = StreamInfo::new();
    info.num_channels = 2;
    info.bits_per_sample = 16;
    info.sample_rate = 44100;
    info.total_samples = 0x123456789;
    info.min_block_size = 4096;
    info.max_block_size = 4096;
    info.min_frame_size = 14;
    info.max_frame_size = 0xABCDEF;
    info.md5 = (0..16).collect();
    let bytes = info.to_bytes();
    assert_eq!(bytes.len(), 34);
    // 20 bits of sample rate, 3 bits of channels - 1, 5 bits of bits per sample - 1.
    assert_eq!(bytes[10], (44100u32 >> 12) as u8);
    assert_eq!(bytes[11], (44100u32 >> 4) as u8);
    assert_eq!(bytes[12], ((44100u32 & 0xF) << 4) as u8 | (1 << 1) | 0);
    assert_eq!(bytes[13] >> 4, 15);
    assert_eq!(bytes[13] & 0xF, 1);
    let back = StreamInfo::from_bytes(&bytes);
    assert_eq!(back.num_channels, 2);
    assert_eq!(back.bits_per_sample, 16);
    assert_eq!(back.sample_rate, 44100);
    assert_eq!(back.total_samples, 0x123456789);
    assert_eq!(back.max_frame_size, 0xABCDEF);
    assert_eq!(back.md5, info.md5);
}

#[test]
fn application_round_trip() {
    let mut app = Application::new();
    app.id = b"abcd".to_vec();
    app.data = vec![1, 2, 3];
    let bytes = app.to_bytes();
    assert_eq!(bytes, vec![b'a', b'b', b'c', b'd', 1, 2, 3]);
    let back = Application::from_bytes(&bytes);
    assert_eq!(back.id, app.id);
    assert_eq!(back.data, app.data);
}

#[test]
fn seektable_round_trip() {
    let mut table = SeekTable::new();
    table.seekpoints.push(SeekPoint { sample_number: 1, offset: 2, num_samples: 3 });
    table.seekpoints.push(SeekPoint { sample_number: u64::MAX, offset: 0x0102, num_samples: 0xFFFF });
    let bytes = table.to_bytes();
    assert_eq!(bytes.len(), 36);
    assert_eq!(&bytes[0..8], &[0, 0, 0, 0, 0, 0, 0, 1]);
    let back = SeekTable::from_bytes(&bytes);
    assert_eq!(back.seekpoints, table.seekpoints);
    let point = SeekPoint::from_bytes(&bytes[18..]);
    assert_eq!(point, table.seekpoints[1]);
}

#[test]
fn picture_round_trip() {
    let mut picture = Picture::new();
    picture.picture_type = PictureType::BandLogo;
    picture.mime_type = "image/png".to_string();
    picture.description = "logo ü".to_string();
    picture.width = 640;
    picture.height = 480;
    picture.depth = 24;
    picture.num_colors = 0;
    picture.data = vec![9, 8, 7];
    let bytes = picture.to_bytes();
    assert_eq!(&bytes[0..4], &[0, 0, 0, 19]);
    let back = Picture::from_bytes(&bytes).unwrap();
    assert_eq!(back.picture_type, PictureType::BandLogo);
    assert_eq!(back.mime_type, "image/png");
    assert_eq!(back.description, "logo ü");
    assert_eq!(back.width, 640);
    assert_eq!(back.data, vec![9, 8, 7]);
}

#[test]
fn picture_bad_type_is_invalid_input() {
    let mut picture = Picture::new();
    picture.data = vec![1];
    let mut bytes = picture.to_bytes();
    bytes[3] = 21;
    assert_eq!(Picture::from_bytes(&bytes).unwrap_err().kind, ErrorKind::InvalidInput);
}

#[test]
fn picture_bad_text_is_decoding_error() {
    let mut picture = Picture::new();
    picture.mime_type = "ab".to_string();
    let mut bytes = picture.to_bytes();
    bytes[8] = 0xFF;
    assert_eq!(Picture::from_bytes(&bytes).unwrap_err().kind, ErrorKind::StringDecoding);
}

#[test]
fn cuesheet_round_trip() {
    let mut cue = CueSheet::new();
    cue.catalog_num = "1".repeat(128);
    cue.num_leadin = 88200;
    cue.is_cd = true;
    let mut track = CueSheetTrack::new();
    track.offset = 0;
    track.number = 1;
    track.isrc = "ABCDEFGHIJKL".to_string();
    track.is_audio = false;
    track.pre_emphasis = true;
    let mut index = CueSheetTrackIndex::new();
    index.offset = 588;
    index.point_num = 1;
    track.indices.push(index);
    cue.tracks.push(track);
    let bytes = cue.to_bytes();
    assert_eq!(bytes.len(), 396 + 36 + 12);
    let back = CueSheet::from_bytes(&bytes).unwrap();
    assert_eq!(back, cue);
}

#[test]
fn cuesheet_short_strings_round_trip() {
    let mut cue = CueSheet::new();
    cue.catalog_num = "12".to_string();
    let mut track = CueSheetTrack::new();
    track.isrc = "US123".to_string();
    cue.tracks.push(track);
    let bytes = cue.to_bytes();
    assert_eq!(bytes.len(), 396 + 36);
    assert_eq!(bytes[2], 0);
    assert_eq!(bytes[396 + 9 + 5], 0);
    let back = CueSheet::from_bytes(&bytes).unwrap();
    assert_eq!(back.catalog_num, "12");
    assert_eq!(back.tracks[0].isrc, "US123");
    assert_eq!(back, cue);
}

#[test]
fn cuesheet_empty_round_trip() {
    let cue = CueSheet::new();
    let back = CueSheet::from_bytes(&cue.to_bytes()).unwrap();
    assert_eq!(back, cue);
}

#[test]
fn cuesheet_oversized_catalog_rejected() {
    let mut cue = CueSheet::new();
    cue.catalog_num = "1".repeat(129);
    assert!(!cue.fits());
    let mut out = Vec::new();
    let err = Block::CueSheet(cue).write_to(true, &mut out).unwrap_err();
    assert_eq!(err.kind, ErrorKind::InvalidInput);
    assert!(out.is_empty());
}

#[test]
fn cuesheet_oversized_isrc_rejected() {
    let mut cue = CueSheet::new();
    let mut track = CueSheetTrack::new();
    track.isrc = "1234567890123".to_string();
    cue.tracks.push(track);
    let mut out = Vec::new();
    let err = Block::CueSheet(cue).write_to(false, &mut out).unwrap_err();
    assert_eq!(err.kind, ErrorKind::InvalidInput);
}

#[test]
fn vorbis_comment_round_trip() {
    let mut vorbis = VorbisComment::new();
    vorbis.vendor_string = "vendor".to_string();
    vorbis.set("ARTIST", vec!["a", "b"]);
    vorbis.set("TITLE", vec!["t=1"]);
    let bytes = vorbis.to_bytes();
    assert_eq!(&bytes[0..4], &[6, 0, 0, 0]);
    assert_eq!(&bytes[10..14], &[3, 0, 0, 0]);
    let back = VorbisComment::from_bytes(&bytes).unwrap();
    assert_eq!(back, vorbis);
    assert_eq!(back.get("TITLE").unwrap(), &["t=1"]);
}

#[test]
fn vorbis_keys_folded_on_parse() {
    let mut bytes = vec![0, 0, 0, 0, 2, 0, 0, 0];
    for entry in ["artist=x", "ARTIST=y"] {
        bytes.extend_from_slice(&(entry.len() as u32).to_le_bytes());
        bytes.extend_from_slice(entry.as_bytes());
    }
    let vorbis = VorbisComment::from_bytes(&bytes).unwrap();
    assert_eq!(vorbis.artist().unwrap(), &["x", "y"]);
    assert_eq!(vorbis.comments.len(), 1);
}

#[test]
fn vorbis_entry_without_separator_is_invalid_input() {
    let mut bytes = vec![0, 0, 0, 0, 1, 0, 0, 0];
    bytes.extend_from_slice(&3u32.to_le_bytes());
    bytes.extend_from_slice(b"abc");
    assert_eq!(VorbisComment::from_bytes(&bytes).unwrap_err().kind, ErrorKind::InvalidInput);
}

#[test]
fn vorbis_named_accessors() {
    let mut vorbis = VorbisComment::new();
    vorbis.set("ARTISTSORT", vec!["s"]);
    vorbis.set_artist(vec!["x"]);
    assert!(vorbis.get("ARTISTSORT").is_none());
    assert_eq!(vorbis.artist().unwrap(), &["x"]);
    vorbis.set_track(7);
    assert_eq!(vorbis.track(), Some(7));
    assert_eq!(vorbis.get("TRACKNUMBER").unwrap(), &["7"]);
    vorbis.set("TOTALTRACKS", vec!["x12"]);
    assert_eq!(vorbis.total_tracks(), None);
    vorbis.set_total_tracks(12);
    assert_eq!(vorbis.total_tracks(), Some(12));
    vorbis.remove_track();
    assert_eq!(vorbis.track(), None);
    vorbis.set_album(vec!["al"]);
    vorbis.set_title(vec!["ti"]);
    vorbis.set_genre(vec!["ge"]);
    vorbis.set_lyrics(vec!["ly"]);
    vorbis.set_album_artist(vec!["aa"]);
    assert_eq!(vorbis.album().unwrap(), &["al"]);
    assert_eq!(vorbis.title().unwrap(), &["ti"]);
    assert_eq!(vorbis.genre().unwrap(), &["ge"]);
    assert_eq!(vorbis.lyrics().unwrap(), &["ly"]);
    assert_eq!(vorbis.album_artist().unwrap(), &["aa"]);
    vorbis.remove_album();
    vorbis.remove_title();
    vorbis.remove_genre();
    vorbis.remove_lyrics();
    vorbis.remove_album_artist();
    vorbis.remove_artist();
    assert!(vorbis.album().is_none() && vorbis.title().is_none() && vorbis.artist().is_none());
}

#[test]
fn unknown_block_round_trip() {
    let block = Block::Unknown((10, vec![1, 2, 3]));
    let mut out = Vec::new();
    assert_eq!(block.write_to(false, &mut out).unwrap(), 7);
    assert_eq!(out, vec![10, 0, 0, 3, 1, 2, 3]);
    let (last, len, back) = Block::read_from(&out).unwrap();
    assert!(!last);
    assert_eq!(len, 7);
    match back {
        Block::Unknown((code, data)) => {
            assert_eq!(code, 10);
            assert_eq!(data, vec![1, 2, 3]);
        }
        _ => panic!("wrong block"),
    }
}

#[test]
fn padding_block_written_as_zeros() {
    let mut out = Vec::new();
    assert_eq!(Block::Padding(2000).write_to(true, &mut out).unwrap(), 2004);
    assert_eq!(&out[0..4], &[0x81, 0, 0x07, 0xD0]);
    assert!(out[4..].iter().all(|b| *b == 0));
    let (last, len, back) = Block::read_from(&out).unwrap();
    assert!(last);
    assert_eq!(len, 2004);
    assert!(matches!(back, Block::Padding(2000)));
}

#[test]
fn truncated_block_is_io_error() {
    assert_eq!(Block::read_from(&[0x81, 0, 0, 5, 0]).unwrap_err().kind, ErrorKind::Io);
}

#[test]
fn tag_write_then_read() {
    let mut tag = Tag::new();
    let mut info = StreamInfo::new();
    info.num_channels = 2;
    info.bits_per_sample = 16;
    info.md5 = vec![0; 16];
    tag.set_streaminfo(info);
    tag.set_vorbis("title", vec!["song"]);
    tag.add_picture("image/jpeg", PictureType::CoverFront, vec![0xFF]);
    tag.push_block(Block::Padding(100));
    let mut out = Vec::new();
    tag.write_to(&mut out).unwrap();
    assert_eq!(&out[0..4], b"fLaC");
    let back = Tag::read_from(&out).unwrap();
    assert_eq!(back.blocks().len(), 4);
    assert_eq!(back.get_vorbis("TITLE").unwrap(), &["song"]);
    assert_eq!(back.get_streaminfo().unwrap().num_channels, 2);
    assert_eq!(back.pictures()[0].data, vec![0xFF]);
    assert!(matches!(back.blocks()[3], Block::Padding(100)));
}

#[test]
fn bad_identifier_is_invalid_input() {
    let err = Tag::read_from(b"OggS\0\0\0\0").unwrap_err();
    assert_eq!(err.kind, ErrorKind::InvalidInput);
    assert!(!Tag::is_candidate(b"OggS"));
    assert!(Tag::is_candidate(b"fLaC"));
}

#[test]
fn id3_prefix_is_skipped() {
    let mut bytes = b"ID3\x03\x00\x00\x00\x00\x00\x02ab".to_vec();
    bytes.extend_from_slice(b"fLaC");
    bytes.extend_from_slice(&[0x81, 0, 0, 1, 0]);
    let tag = Tag::read_from(&bytes).unwrap();
    assert_eq!(tag.blocks().len(), 1);
    assert!(matches!(tag.blocks()[0], Block::Padding(1)));
}

#[test]
fn blocks_iterator_stops_after_last() {
    let mut bytes = b"fLaC".to_vec();
    bytes.extend_from_slice(&[0x01, 0, 0, 2, 0, 0]);
    bytes.extend_from_slice(&[0x8A, 0, 0, 1, 9]);
    let mut blocks = metaflac::block::Blocks::new(bytes);
    let (len, first) = blocks.next().unwrap().unwrap();
    assert_eq!(len, 6);
    assert!(matches!(first, Block::Padding(2)));
    let (len, second) = blocks.next().unwrap().unwrap();
    assert_eq!(len, 5);
    assert!(matches!(second, Block::Unknown((10, _))));
    assert!(blocks.next().is_none());
}

fn sample_file(tag: &mut Tag, audio: &[u8]) -> Vec<u8> {
    let mut out = Vec::new();
    tag.write_to(&mut out).unwrap();
    out.extend_from_slice(audio);
    out
}

#[test]
fn write_in_place_keeps_audio() {
    let mut tag = Tag::new();
    tag.set_vorbis("artist", vec!["someone"]);
    tag.push_block(Block::Padding(500));
    let audio = vec![0xAA, 0xBB, 0xCC, 0xDD];
    let file = sample_file(&mut tag, &audio);
    let mut read = Tag::read_from(&file).unwrap();
    read.set_path(Some("song.flac".to_string()));
    read.set_vorbis("title", vec!["new"]);
    let new_file = read.save(Some(&file)).unwrap();
    assert_eq!(new_file.len(), file.len());
    assert_eq!(&new_file[new_file.len() - 4..], &audio[..]);
    let again = Tag::read_from(&new_file).unwrap();
    assert_eq!(again.get_vorbis("TITLE").unwrap(), &["new"]);
    assert_eq!(Tag::skip_metadata(&new_file), audio);
}

#[test]
fn write_rewrite_mode_appends_fresh_padding() {
    let mut tag = Tag::new();
    tag.set_vorbis("artist", vec!["someone"]);
    let audio = vec![1, 2, 3];
    let file = sample_file(&mut tag, &audio);
    let mut read = Tag::read_from(&file).unwrap();
    read.set_vorbis("title", vec!["a much longer title than before"]);
    let new_file = read.write_to_path("other.flac", Some(&file)).unwrap();
    assert_eq!(&new_file[0..4], b"fLaC");
    assert_eq!(&new_file[new_file.len() - 3..], &[1, 2, 3]);
    let again = Tag::read_from(&new_file).unwrap();
    let blocks = again.blocks();
    assert!(matches!(blocks[blocks.len() - 1], Block::Padding(1024)));
    assert_eq!(read.path().unwrap(), "other.flac");
}

#[test]
fn write_to_new_path() {
    let mut tag = Tag::new();
    tag.set_vorbis("k", vec!["v"]);
    let file = tag.write_to_path("fresh.flac", None).unwrap();
    assert_eq!(&file[0..4], b"fLaC");
    let back = Tag::read_from(&file).unwrap();
    assert_eq!(back.blocks().len(), 2);
}

#[test]
fn save_without_path_is_invalid_input() {
    let mut tag = Tag::new();
    assert_eq!(tag.save(None).unwrap_err().kind, ErrorKind::InvalidInput);
}

#[test]
fn skip_metadata_of_foreign_data() {
    assert_eq!(Tag::skip_metadata(&[1, 2, 3, 4, 5]), vec![1, 2, 3, 4, 5]);
    let mut bytes = b"fLaC".to_vec();
    bytes.extend_from_slice(&[0x00, 0, 0, 1]);
    assert_eq!(Tag::skip_metadata(&bytes), bytes);
}

#[test]
fn byte_field_codec() {
    assert_eq!(u64_to_be_bytes(0x010203, 3), vec![1, 2, 3]);
    assert_eq!(u64_to_le_bytes(0x010203, 3), vec![3, 2, 1]);
    assert_eq!(bytes_to_be_u64(&[1, 2, 3]), 0x010203);
    assert_eq!(bytes_to_le_u64(&[1, 2, 3]), 0x030201);
    assert_eq!(u64_to_be_bytes(0x1FF, 1), vec![0xFF]);
}

#[test]
fn block_type_codes() {
    assert_eq!(BlockType::from_u8(4), BlockType::VorbisComment);
    assert_eq!(BlockType::from_u8(10), BlockType::Unknown(10));
    assert_eq!(BlockType::Picture.to_u8(), 6);
    assert_eq!(PictureType::from_u32(3), Some(PictureType::CoverFront));
    assert_eq!(PictureType::from_u32(21), None);
}

#[test]
fn vorbis_set_twice_keeps_one_entry() {
    let mut vorbis = VorbisComment::new();
    vorbis.set("ARTIST", vec!["a"]);
    vorbis.set("GENRE", vec!["g"]);
    vorbis.set("ARTIST", vec!["b", "c"]);
    assert_eq!(vorbis.comments.len(), 2);
    assert_eq!(vorbis.artist().unwrap(), &["b", "c"]);
    vorbis.remove_pair("ARTIST", "b");
    vorbis.remove_pair("ARTIST", "c");
    assert_eq!(vorbis.comments.len(), 1);
}

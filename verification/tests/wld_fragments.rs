use libeq::wld::fragments::ambient_light::AmbientLightFragment;
use libeq::wld::fragments::bm_info::BmInfo;
use libeq::wld::fragments::bm_info_rtk::BmInfoRtk;
use libeq::wld::fragments::common::encoded_filename::EncodedFilename;
use libeq::wld::fragments::default_palette_file::DefaultPaletteFile;
use libeq::wld::fragments::dm_rgb_track::DmRGBTrack;
use libeq::wld::fragments::dm_track::DmTrack;
use libeq::wld::fragments::dm_track_def_2::DmTrackDef2;
use libeq::wld::fragments::global_ambient_light_def::GlobalAmbientLightDef;
use libeq::wld::fragments::mesh_animated_vertices_reference::MeshAnimatedVerticesReferenceFragment;
use libeq::wld::fragments::mob_skeleton_piece_track::MobSkeletonPieceTrackFragment;
use libeq::wld::fragments::mob_skeleton_piece_track_reference::MobSkeletonPieceTrackReferenceFragment;
use libeq::wld::fragments::region_flag::RegionFlagFragment;
use libeq::wld::fragments::simple_sprite::SimpleSprite;
use libeq::wld::fragments::skeleton_track_set_reference::SkeletonTrackSetReferenceFragment;
use libeq::wld::fragments::{Fragment, FragmentRef, StringReference};

// Each test below builds the fragment bytes it reads, laid out field by field.

const KEY: [u8; 8] = [0x95, 0x3a, 0xc5, 0x2a, 0x95, 0x7a, 0x95, 0x6a];

fn encode(text: &str) -> Vec<u8> {
    text.bytes().enumerate().map(|(i, b)| b ^ KEY[i % 8]).collect()
}

fn le32(x: i32) -> Vec<u8> {
    x.to_le_bytes().to_vec()
}

fn u32s(xs: &[u32]) -> Vec<u8> {
    xs.iter().flat_map(|x| x.to_le_bytes()).collect()
}

fn ref_fragment(name: i32, reference: i32, value: u32) -> Vec<u8> {
    [le32(name), le32(reference), u32s(&[value])].concat()
}

fn ambient_light_data() -> Vec<u8> {
    let regions: Vec<u32> = (0..2905).collect();
    [le32(-52558), le32(0x1c), u32s(&[0, 2905]), u32s(&regions)].concat()
}

#[test]
fn ambient_light_it_parses() {
    let data = ambient_light_data();
    let frag = AmbientLightFragment::parse(&data).unwrap().1;

    assert_eq!(frag.name_reference, StringReference::new(-52558));
    assert_eq!(frag.flags, 0);
    assert_eq!(frag.region_count, 2905);
    assert_eq!(frag.regions.len(), 2905);
    assert_eq!(frag.regions[0..5], vec![0, 1, 2, 3, 4]);
}

#[test]
fn ambient_light_it_serializes() {
    let data = ambient_light_data();
    let frag = AmbientLightFragment::parse(&data).unwrap().1;

    assert_eq!(&frag.into_bytes()[..], &data[..]);
}

fn filename(text: &str) -> Vec<u8> {
    let stored = format!("{}\0", text);
    [(stored.len() as u16).to_le_bytes().to_vec(), encode(&stored)].concat()
}

#[test]
fn bm_info_it_parses() {
    let data = [le32(0xffffffffu32 as i32), u32s(&[0]), filename("SGRASS.BMP"), vec![0]].concat();
    let frag = BmInfo::parse(&data).unwrap().1;
    assert_eq!(frag.name_reference, StringReference::new(0xffffffffu32 as i32));
    assert_eq!(frag.entry_count, 0);
    assert_eq!(frag.entries.len(), 1);
    assert_eq!(frag.entries[0].name_length, 0x0b);
    assert_eq!(frag.entries[0].file_name, "SGRASS.BMP".to_string());
}

fn twilight_bm_info() -> Vec<u8> {
    let names = [
        "1, 2, 0, SAND01A.DDS",
        "1, 2, 0, SAND01B.DDS",
        "1, 2, 0, SAND01C.DDS",
        "1, 2, 0, SAND01D.DDS",
        "6, 5, 0, SAND02D.DDS",
        "6, 5, 0, SAND02C.DDS",
        "6, 5, 0, SAND02B.DDS",
        "6, 5, 0, SAND02A.DDS",
    ];
    let body: Vec<u8> = [le32(0xffffffffu32 as i32), u32s(&[7]), names.iter().flat_map(|n| filename(n)).collect()].concat();
    let pad = (3 - body.len() % 4) % 4;
    [body, vec![0; pad], vec![0]].concat()
}

#[test]
fn it_parses_multiple_entries() {
    let data = twilight_bm_info();
    let frag = BmInfo::parse(&data).unwrap().1;
    assert_eq!(frag.name_reference, StringReference::new(0xffffffffu32 as i32));
    assert_eq!(frag.entry_count, 7);
    assert_eq!(frag.entries.len(), 8);
    assert_eq!(frag.entries[7].name_length, 21);
    assert_eq!(frag.entries[7].file_name, "6, 5, 0, SAND02A.DDS".to_string());
}

#[test]
fn bm_info_it_serializes() {
    let body = [le32(0), u32s(&[0]), filename("SGRASS.BMP")].concat();
    let pad = (3 - body.len() % 4) % 4;
    let data = [body, vec![0; pad], vec![0]].concat();
    let frag = BmInfo::parse(&data).unwrap().1;
    assert_eq!([frag.into_bytes(), vec![0]].concat(), data);
}

#[test]
fn it_serializes_with_multiple_entries_and_padding() {
    let data = twilight_bm_info();
    let frag = BmInfo::parse(&data).unwrap().1;
    assert_eq!([frag.into_bytes(), vec![0]].concat(), data);
}

fn bm_info_rtk_fixture() -> BmInfoRtk {
    BmInfoRtk {
        name_reference: StringReference::new(-1),
        rtk: 1,
        size1: 0,
        entries: vec![EncodedFilename {
            name_length: 13,
            file_name: "TEXTURE1.BMP".to_string(),
        }],
    }
}

#[test]
fn bm_info_rtk_it_parses() {
    let frag = bm_info_rtk_fixture();
    let data = frag.to_bytes();
    let parsed = BmInfoRtk::parse(&data).unwrap().1;
    assert_eq!(parsed.name_reference, StringReference::new(-1));
    assert_eq!(parsed.rtk, 1);
    assert_eq!(parsed.size1, 0);
    assert_eq!(parsed.entries.len(), 1);
    assert_eq!(parsed.entries[0].name_length, 13);
    assert_eq!(parsed.entries[0].file_name, "TEXTURE1.BMP".to_string());
}

#[test]
fn bm_info_rtk_it_serializes() {
    let frag = bm_info_rtk_fixture();
    let data = frag.to_bytes();
    let parsed = BmInfoRtk::parse(&data).unwrap().1;
    assert_eq!(parsed.to_bytes(), data);
}

fn palette_data() -> Vec<u8> {
    [filename("palette.bmp"), vec![0, 0]].concat()
}

#[test]
fn default_palette_file_it_parses() {
    let data = palette_data();
    let frag = DefaultPaletteFile::parse(&data).unwrap().1;
    assert_eq!(
        frag.entry,
        EncodedFilename {
            name_length: 12,
            file_name: String::from("palette.bmp")
        }
    );
}

#[test]
fn default_palette_file_it_serializes() {
    let data = palette_data();
    let frag = DefaultPaletteFile::parse(&data).unwrap().1;
    assert_eq!(&frag.into_bytes()[..], &data[..]);
}

#[test]
fn dm_rgb_track_it_parses() {
    let data = ref_fragment(0, 1, 0);
    let frag = DmRGBTrack::parse(&data).unwrap().1;
    assert_eq!(frag.name_reference, StringReference::new(0));
    assert_eq!(frag.reference, FragmentRef::new(1));
    assert_eq!(frag.flags, 0x0);
}

#[test]
fn dm_rgb_track_it_serializes() {
    let data = ref_fragment(0, 1, 0);
    let frag = DmRGBTrack::parse(&data).unwrap().1;
    assert_eq!(&frag.into_bytes()[..], &data[..]);
}

fn dm_track_fixture() -> DmTrack {
    DmTrack {
        name_reference: StringReference::new(0),
        reference: FragmentRef::new(0x0278),
        flags: 0,
    }
}

#[test]
fn dm_track_it_parses() {
    let data = dm_track_fixture().to_bytes();
    let frag = DmTrack::parse(&data).unwrap().1;
    assert_eq!(frag.name_reference, StringReference::new(0));
    assert_eq!(frag.reference, FragmentRef::new(0x0278));
    assert_eq!(frag.flags, 0);
}

#[test]
fn dm_track_it_serializes() {
    let data = dm_track_fixture().to_bytes();
    let frag = DmTrack::parse(&data).unwrap().1;
    assert_eq!(frag.to_bytes(), data);
}

fn dm_track_def_2_data() -> Vec<u8> {
    let mut data = [le32(-5038), u32s(&[0])].concat();
    for x in [104u16, 15, 67, 0, 10] {
        data.extend_from_slice(&x.to_le_bytes());
    }
    for f in 0..15i16 {
        for v in 0..104i16 {
            let (x, y, z) = if f == 0 && v == 0 { (455i16, 2180i16, 11078i16) } else { (f, v, f - v) };
            data.extend_from_slice(&x.to_le_bytes());
            data.extend_from_slice(&y.to_le_bytes());
            data.extend_from_slice(&z.to_le_bytes());
        }
    }
    data.extend_from_slice(&0u16.to_le_bytes());
    data
}

#[test]
fn dm_track_def_2_it_parses() {
    let data = dm_track_def_2_data();
    let frag = DmTrackDef2::parse(&data).unwrap().1;
    assert_eq!(frag.name_reference, StringReference::new(-5038));
    assert_eq!(frag.flags, 0x0);
    assert_eq!(frag.vertex_count, 104);
    assert_eq!(frag.frame_count, 15);
    assert_eq!(frag.param1, 67);
    assert_eq!(frag.param2, 0);
    assert_eq!(frag.scale, 10);
    assert_eq!(frag.frames.len(), 15);
    assert_eq!(frag.frames[0].len(), 104);
    assert_eq!(frag.frames[0][0], (455, 2180, 11078));
    assert_eq!(frag.size6, 0);
}

#[test]
fn dm_track_def_2_it_serializes() {
    let data = dm_track_def_2_data();
    let frag = DmTrackDef2::parse(&data).unwrap().1;
    assert_eq!(&frag.to_bytes()[..], &data[..]);
}

#[test]
fn global_ambient_light_def_it_has_a_known_name_reference() {
    let data = le32(0xff000000u32 as i32);
    let frag = GlobalAmbientLightDef::parse(&data).unwrap().1;
    assert_eq!(frag.name_reference, StringReference::new(0xff000000u32 as i32));
}

#[test]
fn global_ambient_light_def_it_serializes() {
    let data = le32(0xff000000u32 as i32);
    let frag = GlobalAmbientLightDef::parse(&data).unwrap().1;
    assert_eq!(&frag.into_bytes()[..], &data[..]);
}

#[test]
fn mesh_animated_vertices_reference_it_parses() {
    let data = ref_fragment(0, 0x0278, 0);
    let frag = MeshAnimatedVerticesReferenceFragment::parse(&data).unwrap().1;
    assert_eq!(frag.name_reference, StringReference::new(0));
    assert_eq!(frag.reference, FragmentRef::new(0x0278));
    assert_eq!(frag.flags, 0x0);
}

#[test]
fn mesh_animated_vertices_reference_it_serializes() {
    let data = ref_fragment(0, 0x0278, 0);
    let frag = MeshAnimatedVerticesReferenceFragment::parse(&data).unwrap().1;
    assert_eq!(&frag.into_bytes()[..], &data[..]);
}

fn mob_skeleton_piece_track_data() -> Vec<u8> {
    let mut data = [le32(-61), u32s(&[0x8, 1])].concat();
    for x in [16384i16, 0, 0, 0, 0, 0, 0, 256] {
        data.extend_from_slice(&x.to_le_bytes());
    }
    data
}

#[test]
fn mob_skeleton_piece_track_it_parses() {
    let data = mob_skeleton_piece_track_data();
    let frag = MobSkeletonPieceTrackFragment::parse(&data).unwrap().1;
    assert_eq!(frag.name_reference, StringReference::new(-61));
    assert_eq!(frag.flags, 0x8);
    assert_eq!(frag.size, 1);
    assert_eq!(frag.rotate_denominator, 16384);
    assert_eq!(frag.rotate_x_numerator, 0);
    assert_eq!(frag.rotate_y_numerator, 0);
    assert_eq!(frag.rotate_z_numerator, 0);
    assert_eq!(frag.shift_x_numerator, 0);
    assert_eq!(frag.shift_y_numerator, 0);
    assert_eq!(frag.shift_z_numerator, 0);
    assert_eq!(frag.shift_denominator, 256);
    assert_eq!(frag.data2, None);
}

#[test]
fn mob_skeleton_piece_track_it_serializes() {
    let data = mob_skeleton_piece_track_data();
    let frag = MobSkeletonPieceTrackFragment::parse(&data).unwrap().1;
    assert_eq!(&frag.into_bytes()[..], &data[..]);
}

#[test]
fn mob_skeleton_piece_track_keeps_extra_data() {
    let data = [mob_skeleton_piece_track_data(), vec![1, 2, 3]].concat();
    let frag = MobSkeletonPieceTrackFragment::parse(&data).unwrap().1;
    assert_eq!(frag.data2, Some(vec![1, 2, 3]));
    assert_eq!(&frag.into_bytes()[..], &data[..]);
}

#[test]
fn mob_skeleton_piece_track_reference_it_parses() {
    let data = ref_fragment(-75, 7, 0);
    let frag = MobSkeletonPieceTrackReferenceFragment::parse(&data).unwrap().1;
    assert_eq!(frag.name_reference, StringReference::new(-75));
    assert_eq!(frag.reference, FragmentRef::new(7));
    assert_eq!(frag.flags.has_sleep(), false);
    assert_eq!(frag.flags.reverse(), false);
    assert_eq!(frag.flags.interpolate(), false);
    assert_eq!(frag.sleep, None);
}

#[test]
fn mob_skeleton_piece_track_reference_it_serializes() {
    let data = ref_fragment(-75, 7, 0);
    let frag = MobSkeletonPieceTrackReferenceFragment::parse(&data).unwrap().1;
    assert_eq!(&frag.into_bytes()[..], &data[..]);
}

#[test]
fn mob_skeleton_piece_track_reference_reads_sleep() {
    let data = [ref_fragment(-75, 7, 0x05), u32s(&[100])].concat();
    let frag = MobSkeletonPieceTrackReferenceFragment::parse(&data).unwrap().1;
    assert!(frag.flags.has_sleep());
    assert!(frag.flags.interpolate());
    assert_eq!(frag.sleep, Some(100));
    assert_eq!(&frag.into_bytes()[..], &data[..]);
}

fn region_flag_data() -> Vec<u8> {
    [le32(-52603), u32s(&[0, 2, 2859, 2865, 0])].concat()
}

fn region_flag_user_data() -> Vec<u8> {
    let text = "DRNTP00002-00030000357999999999___000000000000\0";
    [le32(-124807), u32s(&[0, 2, 4521, 4523, 47]), encode(text), vec![0]].concat()
}

#[test]
fn region_flag_it_parses() {
    let data = region_flag_data();
    let frag = RegionFlagFragment::parse(&data).unwrap().1;
    assert_eq!(frag.name_reference, StringReference::new(-52603));
    assert_eq!(frag.flags, 0x0);
    assert_eq!(frag.region_count, 2);
    assert_eq!(frag.regions, vec![2859, 2865]);
    assert_eq!(frag.user_data_size, 0);
    assert_eq!(frag.user_data, "");
}

#[test]
fn it_parses_user_data() {
    let data = region_flag_user_data();
    let frag = RegionFlagFragment::parse(&data).unwrap().1;
    assert_eq!(frag.name_reference, StringReference::new(-124807));
    assert_eq!(frag.flags, 0x0);
    assert_eq!(frag.region_count, 2);
    assert_eq!(frag.regions, vec![4521, 4523]);
    assert_eq!(frag.user_data_size, 47);
    assert_eq!(frag.user_data, "DRNTP00002-00030000357999999999___000000000000");
}

#[test]
fn region_flag_it_serializes() {
    let data = region_flag_data();
    let frag = RegionFlagFragment::parse(&data).unwrap().1;
    assert_eq!(&frag.into_bytes()[..], &data[..]);
}

#[test]
fn it_serializes_user_data() {
    let data = region_flag_user_data();
    let frag = RegionFlagFragment::parse(&data).unwrap().1;
    assert_eq!(&frag.into_bytes()[..], &data[..]);
}

#[test]
fn simple_sprite_it_parses() {
    let data = ref_fragment(0, 3, 0x50);
    let frag = SimpleSprite::parse(&data).unwrap().1;
    assert_eq!(frag.name_reference, StringReference::new(0x0));
    assert_eq!(frag.reference, FragmentRef::new(0x3));
    assert_eq!(frag.flags, 0x50);
}

#[test]
fn simple_sprite_it_serializes() {
    let data = ref_fragment(0, 3, 0x50);
    let frag = SimpleSprite::parse(&data).unwrap().1;
    assert_eq!(&frag.into_bytes()[..], &data[..]);
}

#[test]
fn skeleton_track_set_reference_it_parses() {
    let data = ref_fragment(0, 0x0e, 0);
    let frag = SkeletonTrackSetReferenceFragment::parse(&data).unwrap().1;
    assert_eq!(frag.name_reference, StringReference::new(0));
    assert_eq!(frag.reference, FragmentRef::new(0x0e));
    assert_eq!(frag.params1, 0x0);
}

#[test]
fn skeleton_track_set_reference_it_serializes() {
    let data = ref_fragment(0, 0x0e, 0);
    let frag = SkeletonTrackSetReferenceFragment::parse(&data).unwrap().1;
    assert_eq!(&frag.into_bytes()[..], &data[..]);
}

#[test]
fn short_input_is_a_parse_error() {
    assert!(SimpleSprite::parse(&[0u8; 11]).is_err());
    assert!(AmbientLightFragment::parse(&[le32(0), le32(1), u32s(&[0, 3, 1, 2])].concat()).is_err());
    assert!(RegionFlagFragment::parse(&[le32(0), u32s(&[0, 0, 5]), vec![1, 2]].concat()).is_err());
}

#[test]
fn fragment_refs_split_on_sign() {
    assert_eq!(FragmentRef::new(5), FragmentRef::Index(5));
    assert_eq!(FragmentRef::new(0), FragmentRef::Name(StringReference::new(0)));
    assert_eq!(FragmentRef::new(-3).into_bytes(), (-3i32).to_le_bytes().to_vec());
    assert_eq!(FragmentRef::new(9).into_bytes(), 9i32.to_le_bytes().to_vec());
}

#[test]
fn encoded_filename_reads_back() {
    let e = EncodedFilename { name_length: 11, file_name: "SGRASS.BMP".to_string() };
    let mut bytes = e.into_bytes();
    assert_eq!(bytes.len(), 13);
    assert_eq!(&bytes[0..2], &11u16.to_le_bytes()[..]);
    bytes.extend([1u8, 2]);
    let (rest, again) = EncodedFilename::parse(&bytes).unwrap();
    assert_eq!(again, e);
    assert_eq!(rest, &[1u8, 2][..]);
}

use touchhle::frameworks::media_player::movie_demux::{
    avcc_sample_to_annexb, build_samples, demux_video_track, find_box, parse_avcc, parse_stts,
    read_u32, read_u64, BOX_MOOV, BOX_TRAK,
};

fn box_bytes(kind: &[u8; 4], payload: &[u8]) -> Vec<u8> {
    let mut out = ((payload.len() + 8) as u32).to_be_bytes().to_vec();
    out.extend_from_slice(kind);
    out.extend_from_slice(payload);
    out
}

fn full_box(kind: &[u8; 4], version: u8, flags: u32, payload: &[u8]) -> Vec<u8> {
    let mut p = vec![version];
    p.extend_from_slice(&flags.to_be_bytes()[1..4]);
    p.extend_from_slice(payload);
    box_bytes(kind, &p)
}

#[test]
fn demuxes_synthetic_mp4() {
    // avcC: version, profile, compat, level, len_size_minus_one=3 (4-byte),
    // 1 SPS (len 4, bytes [0x67,1,2,3]), 1 PPS (len 4, [0x68,4,5,6]).
    let avcc = box_bytes(b"avcC", &[
        1, 0x42, 0x00, 0x1e, 0xff, 0xe1, 0, 4, 0x67, 1, 2, 3, 1, 0, 4, 0x68, 4, 5, 6,
    ]);
    // Build the visual sample entry BODY first, then wrap it in the box
    // so the size header covers the whole entry.
    let mut avc1_body = Vec::new();
    avc1_body.extend_from_slice(&[0u8; 6]); // reserved
    avc1_body.extend_from_slice(&1u16.to_be_bytes()); // data_ref_index
    avc1_body.extend_from_slice(&[0u8; 16]); // predefined/reserved
    avc1_body.extend_from_slice(&320u16.to_be_bytes()); // width
    avc1_body.extend_from_slice(&240u16.to_be_bytes()); // height
    avc1_body.extend_from_slice(&[0u8; 12]); // hres/vres/reserved
    avc1_body.extend_from_slice(&1u16.to_be_bytes()); // frame count
    avc1_body.extend_from_slice(&[0u8; 32]); // compressor name
    avc1_body.extend_from_slice(&[0, 0x18]); // depth
    avc1_body.extend_from_slice(&[0xff, 0xff]); // pre_defined
    avc1_body.extend_from_slice(&avcc);
    let avc1 = box_bytes(b"avc1", &avc1_body);
    let mut stsd_payload = 1u32.to_be_bytes().to_vec();
    stsd_payload.extend_from_slice(&avc1);
    let stsd = full_box(b"stsd", 0, 0, &stsd_payload);

    // 4 samples: sizes 10, 20, 30, 40; durations 33 each.
    let mut stsz_payload: Vec<u8> = Vec::new();
    stsz_payload.extend_from_slice(&0u32.to_be_bytes());
    stsz_payload.extend_from_slice(&4u32.to_be_bytes());
    for s in [10u32, 20, 30, 40] {
        stsz_payload.extend_from_slice(&s.to_be_bytes());
    }
    let stsz = full_box(b"stsz", 0, 0, &stsz_payload);

    let mut stts_payload = 1u32.to_be_bytes().to_vec();
    stts_payload.extend_from_slice(&4u32.to_be_bytes());
    stts_payload.extend_from_slice(&33u32.to_be_bytes());
    let stts = full_box(b"stts", 0, 0, &stts_payload);

    // 2 chunks: chunk 1 has 3 samples, chunk 2 has the rest.
    let mut stsc_payload = 2u32.to_be_bytes().to_vec();
    stsc_payload.extend_from_slice(&1u32.to_be_bytes());
    stsc_payload.extend_from_slice(&3u32.to_be_bytes());
    stsc_payload.extend_from_slice(&1u32.to_be_bytes());
    stsc_payload.extend_from_slice(&4u32.to_be_bytes());
    stsc_payload.extend_from_slice(&2u32.to_be_bytes());
    stsc_payload.extend_from_slice(&1u32.to_be_bytes());
    let stsc = full_box(b"stsc", 0, 0, &stsc_payload);

    // Chunk offsets: 1000 and 1060.
    let mut stco_payload = 2u32.to_be_bytes().to_vec();
    stco_payload.extend_from_slice(&1000u32.to_be_bytes());
    stco_payload.extend_from_slice(&1060u32.to_be_bytes());
    let stco = full_box(b"stco", 0, 0, &stco_payload);

    let mut stbl = Vec::new();
    stbl.extend_from_slice(&stsd);
    stbl.extend_from_slice(&stts);
    stbl.extend_from_slice(&stsc);
    stbl.extend_from_slice(&stco);
    stbl.extend_from_slice(&stsz);
    let stbl = box_bytes(b"stbl", &stbl);

    let hdlr = full_box(b"hdlr", 0, 0, &{
        let mut p = vec![0u8; 4]; // pre_defined
        p.extend_from_slice(b"vide");
        p
    });
    // mdhd v0: creation, modification, timescale=600, duration=2400.
    let mut mdhd_payload = vec![0u8; 8];
    mdhd_payload.extend_from_slice(&600u32.to_be_bytes());
    mdhd_payload.extend_from_slice(&2400u32.to_be_bytes());
    mdhd_payload.extend_from_slice(&[0, 0]); // language
    let mdhd = full_box(b"mdhd", 0, 0, &mdhd_payload);

    let mut mdia_children = mdhd;
    mdia_children.extend_from_slice(&hdlr);
    mdia_children.extend_from_slice(&box_bytes(b"minf", &stbl));
    let mdia = box_bytes(b"mdia", &mdia_children);
    let trak = box_bytes(b"trak", &mdia);

    // mvhd v0: timescale 600, duration 2400 (4 s).
    let mut mvhd_payload = vec![0u8; 8];
    mvhd_payload.extend_from_slice(&600u32.to_be_bytes());
    mvhd_payload.extend_from_slice(&2400u32.to_be_bytes());
    mvhd_payload.extend_from_slice(&[0u8; 80]);
    let mvhd = full_box(b"mvhd", 0, 0, &mvhd_payload);

    let mut moov_children = mvhd;
    moov_children.extend_from_slice(&trak);
    let moov = box_bytes(b"moov", &moov_children);

    // Padding to push mdat samples at offsets 1000/1060.
    let mut file = moov;
    file.resize(1000, 0);
    file.extend_from_slice(&[0xAAu8; 60]); // chunk 1 data
    file.extend_from_slice(&[0xBBu8; 100]); // chunk 2 data

    let track = demux_video_track(&file).expect("should demux");
    assert_eq!(track.width, 320);
    assert_eq!(track.height, 240);
    assert_eq!(track.timescale, 600);
    let duration_seconds = track.duration as f64 / track.timescale as f64;
    assert!((duration_seconds - 4.0).abs() < 1e-6);
    assert_eq!(track.nal_length_size, 4);
    // Annex-B parameter sets: SPS + PPS with start codes.
    assert_eq!(
        &track.parameter_sets_annexb[..8],
        &[0, 0, 0, 1, 0x67, 1, 2, 3]
    );
    assert_eq!(track.samples.len(), 4);
    assert_eq!(track.samples[0].offset, 1000);
    assert_eq!(track.samples[0].size, 10);
    assert_eq!(track.samples[3].offset, 1060); // chunk 2 sample 1 (1000 + 60 bytes of chunk 1)
    assert_eq!(track.samples[3].size, 40);
    assert_eq!(track.samples[2].duration, 33);

    // AVCC → Annex-B conversion.
    let sample: Vec<u8> = [4u32.to_be_bytes().as_slice(), &[0x65, 1, 2, 3][..]].concat();
    let mut out = Vec::new();
    avcc_sample_to_annexb(&sample, 4, &mut out);
    assert_eq!(out, vec![0, 0, 0, 1, 0x65, 1, 2, 3]);

    // The file cut short before the samples does not demux.
    assert!(demux_video_track(&file[..1099]).is_none());
}

#[test]
fn big_endian_reads_need_all_bytes() {
    let data = [0x12, 0x34, 0x56, 0x78, 0x9a, 0xbc, 0xde, 0xf0];
    assert_eq!(read_u32(&data, 0), Some(0x1234_5678));
    assert_eq!(read_u32(&data, 4), Some(0x9abc_def0));
    assert_eq!(read_u32(&data, 5), None);
    assert_eq!(read_u64(&data, 0), Some(0x1234_5678_9abc_def0));
    assert_eq!(read_u64(&data, 1), None);
}

#[test]
fn find_box_skips_other_boxes() {
    let mut data = box_bytes(b"free", &[0; 4]);
    data.extend_from_slice(&box_bytes(b"moov", &[1, 2, 3]));
    assert_eq!(find_box(&data, 0, data.len(), BOX_MOOV), Some((20, 23)));
    assert_eq!(find_box(&data, 0, data.len(), BOX_TRAK), None);
    // A box running past its scope is not found.
    assert_eq!(find_box(&data, 0, data.len() - 1, BOX_MOOV), None);
}

#[test]
fn avcc_with_missing_pps_keeps_sps() {
    let record = [1, 0x42, 0, 0x1e, 0xfd, 0xe1, 0, 2, 0x67, 9];
    let (annexb, nal_length_size) = parse_avcc(&record).unwrap();
    assert_eq!(annexb, vec![0, 0, 0, 1, 0x67, 9]);
    assert_eq!(nal_length_size, 2);
    assert!(parse_avcc(&record[..6]).is_none());
}

#[test]
fn annexb_conversion_stops_at_truncated_unit() {
    let sample = [0, 2, 0x65, 7, 0, 9, 1];
    let mut out = vec![0xee];
    avcc_sample_to_annexb(&sample, 2, &mut out);
    assert_eq!(out, vec![0xee, 0, 0, 0, 1, 0x65, 7]);
}

#[test]
fn stts_expands_runs() {
    let mut payload = vec![0, 0, 0, 0];
    payload.extend_from_slice(&2u32.to_be_bytes());
    payload.extend_from_slice(&2u32.to_be_bytes());
    payload.extend_from_slice(&10u32.to_be_bytes());
    payload.extend_from_slice(&1u32.to_be_bytes());
    payload.extend_from_slice(&20u32.to_be_bytes());
    assert_eq!(parse_stts(&payload), vec![10, 10, 20]);
    assert_eq!(parse_stts(&payload[..4]), Vec::<u32>::new());
}

#[test]
fn sample_table_uses_last_matching_run() {
    let samples = build_samples(&[100, 200], &[(1, 2), (2, 1)], 0, &[5, 6, 7], &[1, 2]);
    let flat: Vec<(u64, u32, u32)> = samples.iter().map(|s| (s.offset, s.size, s.duration)).collect();
    assert_eq!(flat, vec![(100, 5, 1), (105, 6, 2), (200, 7, 0)]);
    // A zero size ends the chunk.
    let samples = build_samples(&[100], &[(1, 3)], 0, &[5, 0, 7], &[]);
    assert_eq!(samples.len(), 1);
    // Fixed sample sizes.
    let samples = build_samples(&[0], &[(1, 3)], 4, &[], &[]);
    let offsets: Vec<u64> = samples.iter().map(|s| s.offset).collect();
    assert_eq!(offsets, vec![0, 4, 8]);
}

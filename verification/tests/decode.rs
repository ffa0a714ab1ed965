use edid_rs::{
    parse, AspectRatio, Chromaticity, DPMSFeatures, DecodeError, DetailedTiming, DisplayType,
    EstablishedTiming, ImageSize, ManufactureDate, ManufacturerID, MonitorDescriptor,
    MonitorDescriptors, NoSource, Read, Reader, SecondaryTiming, StandardTiming, StereoType, SyncPolarity,
    SyncType, Version, VideoInput, WhitePoint, EDID,
};

/// A source that hands out its bytes a few at a time, and can be told to
/// fail once they are gone.
struct Stream {
    data: Vec<u8>,
    at: usize,
    step: usize,
    fails_at_end: bool,
    calls: usize,
    sizes: Vec<usize>,
}

impl Stream {
    fn new(data: &[u8]) -> Stream {
        Stream { data: data.to_vec(), at: 0, step: 128, fails_at_end: false, calls: 0, sizes: Vec::new() }
    }

    fn stepping(data: &[u8], step: usize) -> Stream {
        Stream { data: data.to_vec(), at: 0, step, fails_at_end: false, calls: 0, sizes: Vec::new() }
    }

    fn failing(data: &[u8]) -> Stream {
        Stream { data: data.to_vec(), at: 0, step: 128, fails_at_end: true, calls: 0, sizes: Vec::new() }
    }
}

impl Read for Stream {
    fn read(&mut self, buf: &mut [u8]) -> Option<usize> {
        self.calls += 1;
        self.sizes.push(buf.len());
        let left = self.data.len() - self.at;
        if left == 0 && self.fails_at_end {
            return None;
        }
        let n = left.min(self.step).min(buf.len());
        buf[..n].copy_from_slice(&self.data[self.at..self.at + n]);
        self.at += n;
        Some(n)
    }
}

/// The block of a laptop panel.
const SAMPLE: [u8; 128] = [
    0, 255, 255, 255, 255, 255, 255, 0, 6, 16, 34, 160, 0, 0, 0, 0, 4, 23, 1, 4, 165, 33, 21, 120,
    2, 111, 177, 167, 85, 76, 158, 37, 12, 80, 84, 0, 0, 0, 1, 1, 1, 1, 1, 1, 1, 1, 1, 1, 1, 1, 1,
    1, 1, 1, 239, 131, 64, 160, 176, 8, 52, 112, 48, 32, 54, 0, 75, 207, 16, 0, 0, 26, 0, 0, 0,
    252, 0, 67, 111, 108, 111, 114, 32, 76, 67, 68, 10, 32, 32, 32, 0, 0, 0, 16, 0, 0, 0, 0, 0, 0,
    0, 0, 0, 0, 0, 0, 0, 0, 0, 0, 0, 16, 0, 0, 0, 0, 0, 0, 0, 0, 0, 0, 0, 0, 0, 0, 0, 222,
];

const SLOT: [usize; 4] = [54, 72, 90, 108];

/// Decodes the bytes from memory and from a stream, which have to agree.
fn decode(bytes: &[u8]) -> Result<EDID, DecodeError> {
    let from_memory = edid_rs::decode(bytes);
    let from_stream = parse(&mut Stream::new(bytes));
    assert_eq!(from_memory, from_stream);
    from_memory
}

/// The sample with some bytes replaced from a place on.
fn patched(at: usize, bytes: &[u8]) -> Vec<u8> {
    let mut block = SAMPLE.to_vec();
    block[at..at + bytes.len()].copy_from_slice(bytes);
    block
}

/// The sample with one of its slots replaced by a descriptor.
fn with_descriptor(slot: usize, tag: u8, data: &[u8; 13]) -> Vec<u8> {
    let mut bytes = vec![0, 0, 0, tag, 0];
    bytes.extend_from_slice(data);
    patched(SLOT[slot], &bytes)
}

fn sample_timing() -> DetailedTiming {
    DetailedTiming {
        pixel_clock: 337750000,
        active: (2880, 1800),
        front_porch: (48, 3),
        sync_length: (32, 6),
        back_porch: (80, 43),
        image_size: ImageSize { width: 331, height: 207 },
        border: (0, 0),
        interlaced: false,
        stereo: StereoType::NoStereo,
        sync_type: SyncType::Seperate {
            horizontal: SyncPolarity::Positive,
            vertical: SyncPolarity::Negative,
        },
    }
}

#[test]
fn sample_block_decodes() {
    let edid = decode(&SAMPLE).unwrap();
    assert_eq!(edid.product.manufacturer_id, ManufacturerID('\u{4}', '\u{0}', '\u{6}'));
    assert_eq!(edid.product.product_code, 40994);
    assert_eq!(edid.product.serial_number, 0);
    assert_eq!(edid.product.manufacture_date, ManufactureDate { week: 4, year: 2013 });
    assert_eq!(edid.version, Version { version: 1, revision: 4 });
    assert_eq!(edid.display.input, VideoInput::Digital { dfp_compatible: true });
    assert_eq!(edid.display.max_size, Some(ImageSize { width: 330, height: 210 }));
    assert_eq!(edid.display.gamma, Some(220));
    assert_eq!(
        edid.display.dpms,
        DPMSFeatures {
            standby_supported: false,
            suspend_supported: false,
            low_power_supported: false,
            display_type: DisplayType::Monochrome,
            default_srgb: false,
            preferred_timing_mode: true,
            default_gtf_supported: false,
        }
    );
    assert_eq!(edid.color.red, Chromaticity { x: 669, y: 342 });
    assert_eq!(edid.color.green, Chromaticity { x: 307, y: 635 });
    assert_eq!(edid.color.blue, Chromaticity { x: 150, y: 51 });
    assert_eq!(edid.color.white, Chromaticity { x: 320, y: 337 });
    assert_eq!(edid.color.white_points, vec![]);
    assert_eq!(edid.timings.established_timings, vec![]);
    assert_eq!(edid.timings.standard_timings, vec![]);
    assert_eq!(edid.timings.detailed_timings, vec![sample_timing()]);
    assert_eq!(
        edid.descriptors,
        MonitorDescriptors(vec![MonitorDescriptor::MonitorName("Color LCD".to_string())])
    );
    assert_eq!(edid.extensions, 0);
}

#[test]
fn sample_red_is_close_to_its_fraction() {
    let edid = decode(&SAMPLE).unwrap();
    let x = edid.color.red.x as f64 / 1024.0;
    let y = edid.color.red.y as f64 / 1024.0;
    assert!((x - 0.6533).abs() < 0.0001);
    assert!((y - 0.3340).abs() < 0.0001);
    let gamma = edid.display.gamma.unwrap() as f64 / 100.0;
    assert!((gamma - 2.2).abs() < 1e-9);
}

#[test]
fn the_checksum_byte_is_not_needed() {
    assert_eq!(decode(&SAMPLE[..127]), decode(&SAMPLE));
    assert!(decode(&SAMPLE[..127]).is_ok());
}

#[test]
fn bytes_behind_the_block_are_left_alone() {
    let mut long = SAMPLE.to_vec();
    long.extend_from_slice(&[7; 300]);
    assert_eq!(decode(&long), decode(&SAMPLE));
}

#[test]
fn the_same_bytes_give_the_same_record() {
    assert_eq!(decode(&SAMPLE), decode(&SAMPLE));
    let bad = patched(3, &[0]);
    assert_eq!(decode(&bad), decode(&bad));
}

#[test]
fn the_size_of_the_chunks_does_not_matter() {
    let whole = decode(&SAMPLE);
    for step in [1, 2, 3, 7, 18, 64, 127, 128, 1000] {
        assert_eq!(parse(&mut Stream::stepping(&SAMPLE, step)), whole);
    }
}

#[test]
fn a_wrong_header_byte_is_refused() {
    for at in 0..8 {
        let block = patched(at, &[0x5a]);
        assert_eq!(decode(&block), Err(DecodeError::HeaderInvalid));
    }
}

#[test]
fn a_wrong_header_is_refused_whatever_follows() {
    let mut block = vec![0x00, 0xff, 0xff, 0xff, 0xff, 0xff, 0xff, 0x01];
    assert_eq!(decode(&block), Err(DecodeError::HeaderInvalid));
    block.extend_from_slice(&[0xaa; 200]);
    assert_eq!(decode(&block), Err(DecodeError::HeaderInvalid));
    assert_eq!(decode(&[0u8; 128]), Err(DecodeError::HeaderInvalid));
    assert_eq!(decode(&[0xffu8; 128]), Err(DecodeError::HeaderInvalid));
}

#[test]
fn the_first_half_of_the_header_is_judged_alone() {
    assert_eq!(decode(&[1, 2, 3, 4]), Err(DecodeError::HeaderInvalid));
    assert_eq!(decode(&[1, 2, 3]), Err(DecodeError::UnexpectedEndOfData));
    assert_eq!(decode(&[0, 255, 255, 255]), Err(DecodeError::UnexpectedEndOfData));
    assert_eq!(decode(&[0, 255, 255, 255, 9, 9, 9]), Err(DecodeError::UnexpectedEndOfData));
    assert_eq!(decode(&[0, 255, 255, 255, 9, 9, 9, 9]), Err(DecodeError::HeaderInvalid));
}

#[test]
fn a_wrong_header_stops_the_reading() {
    let mut block = SAMPLE.to_vec();
    block[0] = 1;
    let mut source = Stream::stepping(&block, 4);
    assert_eq!(parse(&mut source), Err(DecodeError::HeaderInvalid));
    assert_eq!(source.calls, 1);
    block[0] = 0;
    block[7] = 1;
    let mut source = Stream::stepping(&block, 4);
    assert_eq!(parse(&mut source), Err(DecodeError::HeaderInvalid));
    assert_eq!(source.calls, 2);
}

#[test]
fn no_bytes_no_record() {
    assert_eq!(decode(&[]), Err(DecodeError::UnexpectedEndOfData));
}

#[test]
fn every_short_sample_runs_out_of_data() {
    for len in 0..127 {
        assert_eq!(decode(&SAMPLE[..len]), Err(DecodeError::UnexpectedEndOfData), "length {}", len);
    }
}

#[test]
fn a_failing_source_is_reported() {
    assert_eq!(parse(&mut Stream::failing(&[])), Err(DecodeError::SourceFailure));
    for len in [1, 8, 54, 60, 100, 126] {
        assert_eq!(parse(&mut Stream::failing(&SAMPLE[..len])), Err(DecodeError::SourceFailure));
    }
    assert_eq!(parse(&mut Stream::failing(&SAMPLE[..127])), decode(&SAMPLE));
}

#[test]
fn an_error_in_the_bytes_comes_before_a_failing_source() {
    let block = patched(0, &[9]);
    assert_eq!(parse(&mut Stream::failing(&block[..4])), Err(DecodeError::HeaderInvalid));
    let block = patched(SLOT[0], &[0, 0, 0]);
    assert_eq!(parse(&mut Stream::failing(&block[..57])), Err(DecodeError::MissingPreferredTiming));
    assert_eq!(parse(&mut Stream::failing(&block[..56])), Err(DecodeError::SourceFailure));
}

#[test]
fn any_bytes_give_a_record_or_an_error() {
    let mut seed: u32 = 12345;
    for round in 0..300 {
        let mut block = if round % 2 == 0 { SAMPLE.to_vec() } else { vec![0u8; 128] };
        if round % 2 == 1 {
            block[..8].copy_from_slice(&SAMPLE[..8]);
        }
        let from = if round % 3 == 0 { 8 } else { 54 };
        for at in from..128 {
            seed = seed.wrapping_mul(1664525).wrapping_add(1013904223);
            if round % 2 == 1 || seed >> 29 == 0 {
                block[at] = (seed >> 16) as u8;
            }
        }
        let len = 128 - (round % 5) * 9;
        match decode(&block[..len]) {
            Ok(edid) => {
                assert!(!edid.timings.detailed_timings.is_empty());
                assert!(edid.timings.detailed_timings.len() + edid.descriptors.0.len() <= 4);
                for t in &edid.timings.detailed_timings {
                    assert!(t.front_porch.0 + t.sync_length.0 + t.back_porch.0 < 4096);
                    assert!(t.front_porch.1 + t.sync_length.1 + t.back_porch.1 < 4096);
                }
            },
            Err(e) => assert_ne!(e, DecodeError::SourceFailure),
        }
    }
}

#[test]
fn a_reader_without_a_source_hands_out_its_bytes() {
    let mut reader: Reader<NoSource> = Reader::of_bytes(vec![1, 2, 3]);
    assert_eq!(reader.read_u16(), Ok(0x0201));
    assert_eq!(reader.read_u16(), Err(DecodeError::UnexpectedEndOfData));
    assert_eq!(reader.read_u8(), Err(DecodeError::UnexpectedEndOfData));
    let mut reader: Reader<NoSource> = Reader::of_bytes(SAMPLE.to_vec());
    assert_eq!(EDID::parse(&mut reader), edid_rs::decode(&SAMPLE));
    assert_eq!(reader.read_u8(), Ok(222));
}

#[test]
fn a_reader_hands_out_its_buffer_before_it_asks() {
    let mut source = Stream::failing(&[]);
    let mut reader = Reader::new(&mut source);
    assert_eq!(reader.read_u8(), Err(DecodeError::SourceFailure));
    let mut source = Stream::failing(&SAMPLE[..127]);
    let mut reader = Reader::new(&mut source);
    assert_eq!(reader.read_u8(), Ok(0));
    assert_eq!(reader.take(126).map(|bytes| bytes.len()), Ok(126));
    assert_eq!(source.calls, 1);
}

#[test]
fn no_source_never_has_a_byte() {
    let mut buf = [7u8; 4];
    assert_eq!(NoSource.read(&mut buf), Some(0));
    assert_eq!(buf, [7u8; 4]);
    assert_eq!(parse(&mut NoSource), Err(DecodeError::UnexpectedEndOfData));
}

#[test]
fn a_chunk_is_128_zero_bytes() {
    assert_eq!(Reader::<NoSource>::chunk(), vec![0u8; 128]);
}

#[test]
fn accept_hands_out_the_first_byte_written() {
    let mut reader: Reader<NoSource> = Reader::of_bytes(vec![]);
    assert_eq!(reader.accept(vec![5, 6, 7, 0], Some(3)), Ok(5));
    assert_eq!(reader.get(), Ok(6));
    assert_eq!(reader.get(), Ok(7));
    assert_eq!(reader.get(), Err(DecodeError::UnexpectedEndOfData));
}

#[test]
fn accept_puts_new_bytes_behind_buffered_ones() {
    let mut reader: Reader<NoSource> = Reader::of_bytes(vec![1]);
    assert_eq!(reader.accept(vec![2, 3], Some(2)), Ok(1));
    assert_eq!(reader.get(), Ok(2));
    assert_eq!(reader.get(), Ok(3));
    assert_eq!(reader.get(), Err(DecodeError::UnexpectedEndOfData));
}

#[test]
fn accept_takes_a_count_beyond_the_chunk_for_the_whole_chunk() {
    let mut reader: Reader<NoSource> = Reader::of_bytes(vec![]);
    assert_eq!(reader.accept(vec![8, 9], Some(100)), Ok(8));
    assert_eq!(reader.get(), Ok(9));
    assert_eq!(reader.get(), Err(DecodeError::UnexpectedEndOfData));
}

#[test]
fn accept_reports_a_failure_and_changes_nothing() {
    let mut reader: Reader<NoSource> = Reader::of_bytes(vec![9]);
    assert_eq!(reader.accept(vec![1, 2], None), Err(DecodeError::SourceFailure));
    assert_eq!(reader.accept(vec![1, 2], Some(0)), Err(DecodeError::UnexpectedEndOfData));
    assert_eq!(reader.accept(vec![], Some(2)), Err(DecodeError::UnexpectedEndOfData));
    assert_eq!(reader.get(), Ok(9));
    assert_eq!(reader.get(), Err(DecodeError::UnexpectedEndOfData));
}

#[test]
fn bytes_come_out_in_the_order_of_the_source() {
    let data: Vec<u8> = (0..=200).collect();
    for step in [1, 2, 3, 5, 64, 128, 500] {
        let mut source = Stream::stepping(&data, step);
        let mut reader = Reader::new(&mut source);
        for expected in data.iter() {
            assert_eq!(reader.get(), Ok(*expected), "step {}", step);
        }
        assert_eq!(reader.get(), Err(DecodeError::UnexpectedEndOfData));
    }
}

#[test]
fn the_source_is_asked_for_a_chunk_at_a_time() {
    let mut source = Stream::stepping(&SAMPLE, 50);
    assert!(parse(&mut source).is_ok());
    assert_eq!(source.sizes, vec![128, 128, 128]);
    let mut source = Stream::stepping(&SAMPLE, 1);
    assert!(parse(&mut source).is_ok());
    assert_eq!(source.sizes, vec![128; 127]);
}

#[test]
fn the_source_is_not_asked_while_bytes_are_buffered() {
    let mut source = Stream::new(&[1, 2, 3]);
    let mut reader = Reader::new(&mut source);
    assert_eq!(reader.take(3), Ok(vec![1, 2, 3]));
    assert_eq!(reader.get(), Err(DecodeError::UnexpectedEndOfData));
    assert_eq!(source.sizes, vec![128, 128]);
    let mut source = Stream::new(&[1, 2, 3]);
    let mut reader = Reader::new(&mut source);
    assert_eq!(reader.take(3), Ok(vec![1, 2, 3]));
    assert_eq!(source.calls, 1);
}

#[test]
fn a_failing_source_is_asked_once() {
    let mut source = Stream::failing(&[]);
    let mut reader = Reader::new(&mut source);
    assert_eq!(reader.get(), Err(DecodeError::SourceFailure));
    assert_eq!(source.sizes, vec![128]);
    let mut source = Stream::failing(&SAMPLE[..60]);
    assert_eq!(parse(&mut source), Err(DecodeError::SourceFailure));
    assert_eq!(source.sizes, vec![128, 128]);
}

#[test]
fn a_source_without_bytes_is_not_a_failing_source() {
    let mut source = Stream::new(&SAMPLE[..60]);
    assert_eq!(parse(&mut source), Err(DecodeError::UnexpectedEndOfData));
    assert_eq!(source.calls, 2);
}

#[test]
fn a_reader_can_be_read_twice() {
    let mut twice = SAMPLE[..127].to_vec();
    twice.extend_from_slice(&patched(126, &[3])[..127]);
    let mut source = Stream::stepping(&twice, 50);
    let mut reader = Reader::new(&mut source);
    let first = EDID::parse(&mut reader).unwrap();
    let second = EDID::parse(&mut reader).unwrap();
    assert_eq!(first.extensions, 0);
    assert_eq!(second.extensions, 3);
    assert_eq!(first.timings, second.timings);
    assert_eq!(EDID::parse(&mut reader), Err(DecodeError::UnexpectedEndOfData));
}

#[test]
fn words_are_read_low_byte_first() {
    let mut source = Stream::stepping(&[0x34, 0x12, 0x78, 0x56, 0x34, 0x12, 0xff], 3);
    let mut reader = Reader::new(&mut source);
    assert_eq!(reader.read_u16(), Ok(0x1234));
    assert_eq!(reader.read_u32(), Ok(0x12345678));
    assert_eq!(reader.read_u8(), Ok(0xff));
    assert_eq!(reader.read_u8(), Err(DecodeError::UnexpectedEndOfData));
}

#[test]
fn take_hands_out_bytes_in_order() {
    let mut source = Stream::stepping(&[1, 2, 3, 4, 5], 2);
    let mut reader = Reader::new(&mut source);
    assert_eq!(reader.take(0), Ok(vec![]));
    assert_eq!(reader.take(3), Ok(vec![1, 2, 3]));
    assert_eq!(reader.get(), Ok(4));
    assert_eq!(reader.take(2), Err(DecodeError::UnexpectedEndOfData));
}

#[test]
fn a_failed_source_leaves_no_bytes_behind() {
    let mut source = Stream::failing(&[1, 2]);
    let mut reader = Reader::new(&mut source);
    assert_eq!(reader.read_u16(), Ok(0x0201));
    assert_eq!(reader.read_u8(), Err(DecodeError::SourceFailure));
    assert_eq!(reader.read_u8(), Err(DecodeError::SourceFailure));
}

#[test]
fn product_fields_are_read_as_they_stand() {
    let block = patched(8, &[0x23, 0x04, 0xcd, 0xab, 0x78, 0x56, 0x34, 0x12, 54, 255]);
    let edid = decode(&block).unwrap();
    assert_eq!(edid.product.manufacturer_id, ManufacturerID('\u{1}', '\u{1}', '\u{3}'));
    assert_eq!(edid.product.product_code, 0xabcd);
    assert_eq!(edid.product.serial_number, 0x12345678);
    assert_eq!(edid.product.manufacture_date, ManufactureDate { week: 54, year: 2245 });
}

#[test]
fn any_version_is_taken() {
    let edid = decode(&patched(18, &[255, 0])).unwrap();
    assert_eq!(edid.version, Version { version: 255, revision: 0 });
}

#[test]
fn display_parameters_of_an_analog_display() {
    let edid = decode(&patched(20, &[0x0f, 0, 30, 255, 0xfd])).unwrap();
    assert!(matches!(edid.display.input, VideoInput::Analog { setup_expected: false, .. }));
    assert_eq!(edid.display.max_size, None);
    assert_eq!(edid.display.gamma, None);
    assert_eq!(edid.display.dpms.display_type, DisplayType::Undefined);
    assert!(edid.display.dpms.default_srgb);
    assert!(!edid.display.dpms.preferred_timing_mode);
    assert!(edid.display.dpms.default_gtf_supported);
}

#[test]
fn colours_take_their_low_bits_from_two_bytes() {
    let bytes = [0b11_10_01_00, 0b00_01_10_11, 1, 2, 3, 4, 5, 6, 7, 255];
    let edid = decode(&patched(25, &bytes)).unwrap();
    assert_eq!(edid.color.red, Chromaticity { x: 7, y: 10 });
    assert_eq!(edid.color.green, Chromaticity { x: 13, y: 16 });
    assert_eq!(edid.color.blue, Chromaticity { x: 20, y: 25 });
    assert_eq!(edid.color.white, Chromaticity { x: 30, y: 1023 });
}

#[test]
fn timing_tables_are_decoded() {
    let mut bytes = vec![0x21, 0x08, 0x80];
    bytes.extend_from_slice(&[0xd1, 0xc0, 1, 1, 0x61, 0x4f, 1, 1, 1, 1, 1, 1, 1, 1, 0x81, 0x80]);
    let edid = decode(&patched(35, &bytes)).unwrap();
    assert_eq!(
        edid.timings.established_timings,
        vec![
            EstablishedTiming::H720V400F70,
            EstablishedTiming::H640V480F75,
            EstablishedTiming::H1024V768F87,
            EstablishedTiming::H1152V870F75,
        ]
    );
    assert_eq!(
        edid.timings.standard_timings,
        vec![
            StandardTiming {
                horizontal_resolution: 1920,
                aspect_ratio: AspectRatio::SixteenToNine,
                refresh_rate: 60,
            },
            StandardTiming {
                horizontal_resolution: 1024,
                aspect_ratio: AspectRatio::FourToThree,
                refresh_rate: 75,
            },
            StandardTiming {
                horizontal_resolution: 1280,
                aspect_ratio: AspectRatio::FiveToFour,
                refresh_rate: 60,
            },
        ]
    );
}

#[test]
fn filler_pairs_of_the_timing_tables_add_nothing() {
    let edid = decode(&SAMPLE).unwrap();
    assert_eq!(edid.timings.standard_timings, vec![]);
    let edid = decode(&patched(44, &[0x61, 0x4f])).unwrap();
    assert_eq!(edid.timings.standard_timings.len(), 1);
}

#[test]
fn a_zero_clock_in_the_first_slot_is_an_error() {
    assert_eq!(decode(&patched(SLOT[0], &[0, 0])), Err(DecodeError::MissingPreferredTiming));
    let descriptor = with_descriptor(0, 0xfc, b"Name\n        ");
    assert_eq!(decode(&descriptor), Err(DecodeError::MissingPreferredTiming));
}

#[test]
fn a_zero_clock_is_seen_after_three_bytes() {
    let block = patched(SLOT[0], &[0, 0]);
    assert_eq!(decode(&block[..57]), Err(DecodeError::MissingPreferredTiming));
    assert_eq!(decode(&block[..56]), Err(DecodeError::UnexpectedEndOfData));
}

#[test]
fn a_zero_clock_in_a_later_slot_is_a_descriptor() {
    for slot in 1..4 {
        let block = with_descriptor(slot, 0xfe, b"abc\n         ");
        let edid = decode(&block).unwrap();
        assert_eq!(edid.timings.detailed_timings, vec![sample_timing()]);
        assert!(edid.descriptors.0.contains(&MonitorDescriptor::OtherString("abc".to_string())));
    }
}

#[test]
fn a_clock_in_a_later_slot_is_a_timing() {
    let mut block = SAMPLE.to_vec();
    let first: Vec<u8> = SAMPLE[54..72].to_vec();
    block[SLOT[2]..SLOT[2] + 18].copy_from_slice(&first);
    block[SLOT[2]] = 1;
    block[SLOT[2] + 1] = 0;
    let edid = decode(&block).unwrap();
    let mut second = sample_timing();
    second.pixel_clock = 10000;
    assert_eq!(edid.timings.detailed_timings, vec![sample_timing(), second]);
    assert_eq!(
        edid.descriptors,
        MonitorDescriptors(vec![MonitorDescriptor::MonitorName("Color LCD".to_string())])
    );
}

#[test]
fn a_timing_with_no_active_pixels_is_still_a_timing() {
    let edid = decode(&patched(SLOT[0] + 2, &[0, 160, 0])).unwrap();
    assert_eq!(edid.timings.detailed_timings[0].active, (0, 1800));
    assert_eq!(edid.timings.detailed_timings[0].back_porch, (80, 43));
}

#[test]
fn the_pixel_clock_counts_ten_kilohertz() {
    let edid = decode(&patched(SLOT[0], &[0xff, 0xff])).unwrap();
    assert_eq!(edid.timings.detailed_timings[0].pixel_clock, 655350000);
    let edid = decode(&patched(SLOT[0], &[1, 0])).unwrap();
    assert_eq!(edid.timings.detailed_timings[0].pixel_clock, 10000);
}

#[test]
fn the_geometry_of_a_timing_is_unpacked() {
    let slot = [
        0x01, 0x1d, 0x80, 0x84, 0x72, 0x38, 0x59, 0x40, 0x58, 0x2c, 0x45, 0x5b, 0x09, 0x25, 0x21,
        3, 4, 0xe1,
    ];
    let edid = decode(&patched(SLOT[0], &slot)).unwrap();
    assert_eq!(
        edid.timings.detailed_timings[0],
        DetailedTiming {
            pixel_clock: 74250000,
            active: (1920, 1080),
            front_porch: (344, 36),
            sync_length: (300, 53),
            back_porch: (0, 0),
            image_size: ImageSize { width: 521, height: 293 },
            border: (3, 4),
            interlaced: true,
            stereo: StereoType::SideBySide,
            sync_type: SyncType::Composite { serrated: false, line: edid_rs::SyncLine::Green },
        }
    );
}

#[test]
fn blanking_too_short_across_is_an_error() {
    assert_eq!(decode(&patched(SLOT[0] + 3, &[79])), Err(DecodeError::MalformedTimingGeometry));
    let edid = decode(&patched(SLOT[0] + 3, &[80])).unwrap();
    assert_eq!(edid.timings.detailed_timings[0].back_porch, (0, 43));
}

#[test]
fn blanking_too_short_down_is_an_error() {
    assert_eq!(decode(&patched(SLOT[0] + 6, &[8])), Err(DecodeError::MalformedTimingGeometry));
    let edid = decode(&patched(SLOT[0] + 6, &[9])).unwrap();
    assert_eq!(edid.timings.detailed_timings[0].back_porch, (80, 0));
}

#[test]
fn blanking_too_short_in_a_later_slot_is_an_error() {
    let mut slot: Vec<u8> = SAMPLE[54..72].to_vec();
    slot[3] = 0;
    assert_eq!(decode(&patched(SLOT[3], &slot)), Err(DecodeError::MalformedTimingGeometry));
}

#[test]
fn blanking_is_judged_after_twelve_bytes() {
    let block = patched(SLOT[0] + 3, &[79]);
    assert_eq!(decode(&block[..66]), Err(DecodeError::MalformedTimingGeometry));
    assert_eq!(decode(&block[..65]), Err(DecodeError::UnexpectedEndOfData));
}

#[test]
fn a_name_ends_at_the_line_feed() {
    let edid = decode(&with_descriptor(1, 0xfc, b"Panel\n       ")).unwrap();
    assert_eq!(
        edid.descriptors,
        MonitorDescriptors(vec![MonitorDescriptor::MonitorName("Panel".to_string())])
    );
}

#[test]
fn the_tag_says_what_a_text_is() {
    let edid = decode(&with_descriptor(1, 0xfe, b"Panel\n       ")).unwrap();
    assert_eq!(edid.descriptors.0, vec![MonitorDescriptor::OtherString("Panel".to_string())]);
    let edid = decode(&with_descriptor(1, 0xff, b"Panel\n       ")).unwrap();
    assert_eq!(edid.descriptors.0, vec![MonitorDescriptor::SerialNumber("Panel".to_string())]);
}

#[test]
fn a_text_can_fill_all_thirteen_places() {
    let edid = decode(&with_descriptor(1, 0xff, b"0123456789abc")).unwrap();
    assert_eq!(
        edid.descriptors.0,
        vec![MonitorDescriptor::SerialNumber("0123456789abc".to_string())]
    );
    let edid = decode(&with_descriptor(1, 0xff, b"0123456789ab\n")).unwrap();
    assert_eq!(
        edid.descriptors.0,
        vec![MonitorDescriptor::SerialNumber("0123456789ab".to_string())]
    );
}

#[test]
fn a_text_can_be_empty() {
    let edid = decode(&with_descriptor(1, 0xfc, b"\n            ")).unwrap();
    assert_eq!(edid.descriptors.0, vec![MonitorDescriptor::MonitorName(String::new())]);
}

#[test]
fn a_text_keeps_blanks_and_high_bytes() {
    let mut data = *b"a b  \n       ";
    data[1] = 0xe9;
    let edid = decode(&with_descriptor(1, 0xfc, &data)).unwrap();
    assert_eq!(edid.descriptors.0, vec![MonitorDescriptor::MonitorName("a\u{e9}b  ".to_string())]);
}

#[test]
fn a_byte_behind_the_line_feed_must_be_a_blank() {
    for tag in [0xfc, 0xfe, 0xff] {
        for at in 6..13 {
            let mut data = *b"Panel\n       ";
            data[at] = b'x';
            assert_eq!(
                decode(&with_descriptor(1, tag, &data)),
                Err(DecodeError::MalformedDescriptor),
                "tag {} place {}",
                tag,
                at
            );
        }
    }
    assert_eq!(
        decode(&with_descriptor(3, 0xfc, b"Panel\n\n      ")),
        Err(DecodeError::MalformedDescriptor)
    );
    assert_eq!(
        decode(&with_descriptor(2, 0xfc, b"\0\n\0          ")),
        Err(DecodeError::MalformedDescriptor)
    );
}

#[test]
fn a_wrong_blank_is_seen_as_soon_as_it_is_read() {
    let block = with_descriptor(1, 0xfc, b"Panel\n x     ");
    assert_eq!(decode(&block[..SLOT[1] + 13]), Err(DecodeError::MalformedDescriptor));
    assert_eq!(decode(&block[..SLOT[1] + 12]), Err(DecodeError::UnexpectedEndOfData));
}

#[test]
fn range_limits_without_a_secondary_timing() {
    let data = [50, 75, 30, 83, 17, 0, 10, 32, 32, 32, 32, 32, 32];
    let edid = decode(&with_descriptor(2, 0xfd, &data)).unwrap();
    assert_eq!(
        edid.descriptors.0,
        vec![
            MonitorDescriptor::MonitorName("Color LCD".to_string()),
            MonitorDescriptor::RangeLimits {
                vertical_rate: (50, 75),
                horizontal_rate: (30000, 83000),
                pixel_clock: 170000000,
                secondary_timing: SecondaryTiming::Absent,
            },
        ]
    );
}

#[test]
fn range_limits_at_their_largest() {
    let data = [255, 255, 255, 255, 255, 0, 10, 32, 32, 32, 32, 32, 32];
    let edid = decode(&with_descriptor(2, 0xfd, &data)).unwrap();
    assert_eq!(
        edid.descriptors.0[1],
        MonitorDescriptor::RangeLimits {
            vertical_rate: (255, 255),
            horizontal_rate: (255000, 255000),
            pixel_clock: 2550000000,
            secondary_timing: SecondaryTiming::Absent,
        }
    );
}

#[test]
fn range_limits_with_a_formula() {
    let data = [50, 75, 30, 83, 17, 2, 0, 10, 40, 0x58, 0x02, 64, 12];
    let edid = decode(&with_descriptor(2, 0xfd, &data)).unwrap();
    assert_eq!(
        edid.descriptors.0[1],
        MonitorDescriptor::RangeLimits {
            vertical_rate: (50, 75),
            horizontal_rate: (30000, 83000),
            pixel_clock: 170000000,
            secondary_timing: SecondaryTiming::GTF {
                start_horizontal_freq: 20000,
                c: 40,
                m: 600,
                k: 64,
                j: 12,
            },
        }
    );
}

#[test]
fn range_limits_with_another_secondary_timing() {
    let data = [50, 75, 30, 83, 17, 1, 1, 2, 3, 4, 5, 6, 7];
    let edid = decode(&with_descriptor(2, 0xfd, &data)).unwrap();
    assert_eq!(
        edid.descriptors.0[1],
        MonitorDescriptor::RangeLimits {
            vertical_rate: (50, 75),
            horizontal_rate: (30000, 83000),
            pixel_clock: 170000000,
            secondary_timing: SecondaryTiming::Other(1, [1, 2, 3, 4, 5, 6, 7]),
        }
    );
    let data = [1, 2, 3, 4, 5, 255, 9, 9, 9, 9, 9, 9, 9];
    let edid = decode(&with_descriptor(2, 0xfd, &data)).unwrap();
    assert!(matches!(
        edid.descriptors.0[1],
        MonitorDescriptor::RangeLimits { secondary_timing: SecondaryTiming::Other(255, [9, 9, 9, 9, 9, 9, 9]), .. }
    ));
}

#[test]
fn range_limits_need_their_line_feed_and_blanks() {
    let good = [50, 75, 30, 83, 17, 0, 10, 32, 32, 32, 32, 32, 32];
    for at in 6..13 {
        let mut data = good;
        data[at] = 0;
        assert_eq!(
            decode(&with_descriptor(2, 0xfd, &data)),
            Err(DecodeError::MalformedDescriptor),
            "place {}",
            at
        );
    }
}

#[test]
fn range_limits_read_their_blanks_in_pairs() {
    let data = [50, 75, 30, 83, 17, 0, 10, 0, 32, 32, 32, 32, 32];
    let block = with_descriptor(2, 0xfd, &data);
    assert_eq!(decode(&block[..SLOT[2] + 13]), Err(DecodeError::UnexpectedEndOfData));
    assert_eq!(decode(&block[..SLOT[2] + 14]), Err(DecodeError::MalformedDescriptor));
}

#[test]
fn a_formula_needs_its_zero_byte() {
    let data = [50, 75, 30, 83, 17, 2, 10, 10, 40, 0x58, 0x02, 64, 12];
    assert_eq!(decode(&with_descriptor(2, 0xfd, &data)), Err(DecodeError::MalformedDescriptor));
}

#[test]
fn more_standard_timings_follow_those_of_the_tables() {
    let data = [0xd1, 0xc0, 1, 1, 0x81, 0x80, 1, 1, 1, 1, 0x61, 0x4f, 10];
    let mut block = with_descriptor(3, 0xfa, &data);
    block[38] = 0x61;
    block[39] = 0x4f;
    let edid = decode(&block).unwrap();
    let widths: Vec<u16> =
        edid.timings.standard_timings.iter().map(|t| t.horizontal_resolution).collect();
    assert_eq!(widths, vec![1024, 1920, 1280, 1024]);
    assert_eq!(edid.timings.standard_timings[1].aspect_ratio, AspectRatio::SixteenToNine);
    assert_eq!(edid.timings.standard_timings[3].refresh_rate, 75);
    assert_eq!(
        edid.descriptors,
        MonitorDescriptors(vec![MonitorDescriptor::MonitorName("Color LCD".to_string())])
    );
}

#[test]
fn filler_pairs_of_a_descriptor_add_nothing() {
    let data = [1, 1, 1, 1, 1, 1, 1, 1, 1, 1, 1, 1, 10];
    let edid = decode(&with_descriptor(3, 0xfa, &data)).unwrap();
    assert_eq!(edid.timings.standard_timings, vec![]);
}

#[test]
fn more_standard_timings_need_their_line_feed() {
    let data = [0xd1, 0xc0, 1, 1, 0x81, 0x80, 1, 1, 1, 1, 0x61, 0x4f, 32];
    assert_eq!(decode(&with_descriptor(3, 0xfa, &data)), Err(DecodeError::MalformedDescriptor));
}

#[test]
fn white_points_go_to_the_colours() {
    let data = [1, 0b0000_0110, 80, 84, 120, 2, 0b0000_1001, 81, 85, 130, 10, 32, 32];
    let edid = decode(&with_descriptor(2, 0xfb, &data)).unwrap();
    assert_eq!(
        edid.color.white_points,
        vec![
            WhitePoint { index: 1, x: 321, y: 338, gamma: 220 },
            WhitePoint { index: 2, x: 326, y: 341, gamma: 230 },
        ]
    );
    assert_eq!(edid.color.red, Chromaticity { x: 669, y: 342 });
    assert_eq!(edid.descriptors.0.len(), 1);
}

#[test]
fn a_white_point_with_index_zero_is_the_last() {
    let data = [0, 0b0000_0110, 80, 84, 120, 2, 9, 81, 85, 130, 10, 32, 32];
    let edid = decode(&with_descriptor(2, 0xfb, &data)).unwrap();
    assert_eq!(edid.color.white_points, vec![WhitePoint { index: 0, x: 321, y: 338, gamma: 220 }]);
}

#[test]
fn a_second_white_point_with_index_zero_is_kept() {
    let data = [1, 0b0000_0110, 80, 84, 120, 0, 0b0000_1001, 81, 85, 130, 10, 32, 32];
    let edid = decode(&with_descriptor(2, 0xfb, &data)).unwrap();
    assert_eq!(
        edid.color.white_points,
        vec![
            WhitePoint { index: 1, x: 321, y: 338, gamma: 220 },
            WhitePoint { index: 0, x: 326, y: 341, gamma: 230 },
        ]
    );
    assert_eq!(edid.extensions, 0);
}

#[test]
fn white_points_of_two_slots_keep_their_order() {
    let first = [1, 0, 80, 84, 120, 0, 0, 0, 0, 0, 10, 32, 32];
    let second = [3, 0, 90, 94, 0, 4, 0, 0, 0, 0, 10, 32, 32];
    let mut block = with_descriptor(1, 0xfb, &first);
    let other = with_descriptor(3, 0xfb, &second);
    block[SLOT[3]..SLOT[3] + 18].copy_from_slice(&other[SLOT[3]..SLOT[3] + 18]);
    let edid = decode(&block).unwrap();
    let indices: Vec<u8> = edid.color.white_points.iter().map(|w| w.index).collect();
    assert_eq!(indices, vec![1, 0, 3, 4]);
    assert_eq!(edid.descriptors.0, vec![]);
}

#[test]
fn white_points_need_their_line_feed_and_blanks() {
    let good = [1, 6, 80, 84, 120, 2, 9, 81, 85, 130, 10, 32, 32];
    for at in 10..13 {
        let mut data = good;
        data[at] = 1;
        assert_eq!(
            decode(&with_descriptor(2, 0xfb, &data)),
            Err(DecodeError::MalformedDescriptor),
            "place {}",
            at
        );
    }
}

#[test]
fn a_tag_of_the_maker_keeps_its_bytes() {
    let data = [1, 2, 3, 4, 5, 6, 7, 8, 9, 10, 11, 12, 13];
    for tag in [0x00, 0x05, 0x0f] {
        let edid = decode(&with_descriptor(1, tag, &data)).unwrap();
        assert_eq!(edid.descriptors.0, vec![MonitorDescriptor::ManufacturerDefined(tag, data)]);
    }
}

#[test]
fn an_undefined_tag_keeps_its_bytes() {
    let data = [13, 12, 11, 10, 9, 8, 7, 6, 5, 4, 3, 2, 1];
    for tag in [0x11, 0x55, 0xf9] {
        let edid = decode(&with_descriptor(1, tag, &data)).unwrap();
        assert_eq!(edid.descriptors.0, vec![MonitorDescriptor::Undefined(tag, data)]);
    }
}

#[test]
fn an_unused_slot_adds_nothing_and_takes_its_bytes() {
    let data = [1, 2, 3, 4, 5, 6, 7, 8, 9, 10, 11, 12, 13];
    let mut block = with_descriptor(1, 0x10, &data);
    block[126] = 2;
    let edid = decode(&block).unwrap();
    assert_eq!(edid.descriptors.0, vec![]);
    assert_eq!(edid.timings.detailed_timings, vec![sample_timing()]);
    assert_eq!(edid.extensions, 2);
}

#[test]
fn the_byte_behind_a_tag_means_nothing() {
    let mut block = SAMPLE.to_vec();
    block[SLOT[1] + 2] = 0xaa;
    block[SLOT[1] + 4] = 0xbb;
    assert_eq!(decode(&block), decode(&SAMPLE));
}

#[test]
fn descriptors_keep_the_order_of_their_slots() {
    let mut block = with_descriptor(1, 0xff, b"S1\n          ");
    let second = with_descriptor(2, 0x22, &[0; 13]);
    let third = with_descriptor(3, 0xfc, b"N3\n          ");
    block[SLOT[2]..SLOT[2] + 18].copy_from_slice(&second[SLOT[2]..SLOT[2] + 18]);
    block[SLOT[3]..SLOT[3] + 18].copy_from_slice(&third[SLOT[3]..SLOT[3] + 18]);
    let edid = decode(&block).unwrap();
    assert_eq!(
        edid.descriptors.0,
        vec![
            MonitorDescriptor::SerialNumber("S1".to_string()),
            MonitorDescriptor::Undefined(0x22, [0; 13]),
            MonitorDescriptor::MonitorName("N3".to_string()),
        ]
    );
}

#[test]
fn the_count_of_extensions_is_the_byte_as_it_stands() {
    assert_eq!(decode(&patched(126, &[0])).unwrap().extensions, 0);
    assert_eq!(decode(&patched(126, &[1])).unwrap().extensions, 1);
    assert_eq!(decode(&patched(126, &[255])).unwrap().extensions, 255);
}

#[test]
fn a_record_can_be_copied() {
    let data = [50, 75, 30, 83, 17, 1, 1, 2, 3, 4, 5, 6, 7];
    let edid = decode(&with_descriptor(2, 0xfd, &data)).unwrap();
    let copy = edid.clone();
    assert_eq!(copy, edid);
    assert_eq!(copy.descriptors.0.len(), 2);
}

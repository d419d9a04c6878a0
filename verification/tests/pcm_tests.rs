use meowmic::pcm::{
    format_output_bytes, has_signal, input_layout, int_sample_value, interleave_words,
    le_bytes_of_words, monitor_write_plan, output_encoding, read_le_words, InputLayout,
    MonitorEncoding, OutputEncoding, SampleFormat,
};

#[test]
fn layout_follows_depth_and_format() {
    assert_eq!(input_layout(8, SampleFormat::Int), InputLayout::Unsigned8);
    assert_eq!(input_layout(16, SampleFormat::Int), InputLayout::Int16);
    assert_eq!(input_layout(24, SampleFormat::Int), InputLayout::Int24);
    assert_eq!(input_layout(32, SampleFormat::Int), InputLayout::Int32);
    assert_eq!(input_layout(32, SampleFormat::Float), InputLayout::Float32);
    assert_eq!(input_layout(64, SampleFormat::Float), InputLayout::Float64);
}

#[test]
fn unknown_input_formats_read_as_16_bit() {
    assert_eq!(input_layout(16, SampleFormat::Float), InputLayout::Int16);
    assert_eq!(input_layout(12, SampleFormat::Int), InputLayout::Int16);
    assert_eq!(input_layout(64, SampleFormat::Int), InputLayout::Int16);
    assert_eq!(input_layout(16, SampleFormat::Float).width(), 2);
}

#[test]
fn words_are_little_endian_and_partial_words_ignored() {
    let buf = [1u8, 2, 3, 4, 5];
    assert_eq!(read_le_words(&buf, 2, 10), vec![0x0201, 0x0403]);
    assert_eq!(read_le_words(&buf, 2, 1), vec![0x0201]);
    assert_eq!(read_le_words(&buf, 3, 10), vec![0x030201]);
    assert_eq!(read_le_words(&buf, 8, 10), Vec::<u64>::new());
}

#[test]
fn eight_bit_samples_are_recentred_and_scaled() {
    assert_eq!(int_sample_value(InputLayout::Unsigned8, 0), -16384);
    assert_eq!(int_sample_value(InputLayout::Unsigned8, 128), 0);
    assert_eq!(int_sample_value(InputLayout::Unsigned8, 255), 16256);
}

#[test]
fn sixteen_bit_samples_are_twos_complement() {
    assert_eq!(int_sample_value(InputLayout::Int16, 0xFFFF), -1);
    assert_eq!(int_sample_value(InputLayout::Int16, 0x8000), -32768);
    assert_eq!(int_sample_value(InputLayout::Int16, 0x7FFF), 32767);
}

#[test]
fn wide_samples_keep_their_top_16_bits_rounding_down() {
    assert_eq!(int_sample_value(InputLayout::Int24, 0xFFFFFF), -1);
    assert_eq!(int_sample_value(InputLayout::Int24, 0x800000), -32768);
    assert_eq!(int_sample_value(InputLayout::Int24, 0x7FFFFF), 32767);
    assert_eq!(int_sample_value(InputLayout::Int24, 0x000100), 1);
    assert_eq!(int_sample_value(InputLayout::Int24, 0xFF8000), -128);
    assert_eq!(int_sample_value(InputLayout::Int32, 0xFFFF_0000), -1);
    assert_eq!(int_sample_value(InputLayout::Int32, 0xFFFF_FFFF), -1);
    assert_eq!(int_sample_value(InputLayout::Int32, 0x0001_0000), 1);
    assert_eq!(int_sample_value(InputLayout::Int32, 0x8000_0000), -32768);
}

#[test]
fn decoding_a_24_bit_buffer_matches_an_arithmetic_shift() {
    let buf = [0x00u8, 0x80, 0xFF, 0x34, 0x12, 0x00];
    let words = read_le_words(&buf, 3, 8);
    let values: Vec<i32> = words.iter().map(|&w| int_sample_value(InputLayout::Int24, w)).collect();
    let expected: Vec<i32> = buf
        .chunks_exact(3)
        .map(|c| {
            let v = (c[0] as i32) | ((c[1] as i32) << 8) | ((c[2] as i32) << 16);
            let v = if v & 0x800000 != 0 { v | 0xFF000000u32 as i32 } else { v };
            v >> 8
        })
        .collect();
    assert_eq!(values, expected);
}

#[test]
fn output_encoding_follows_depth_and_format() {
    assert_eq!(output_encoding(8, SampleFormat::Int), Some(OutputEncoding::Unsigned8));
    assert_eq!(output_encoding(8, SampleFormat::Float), None);
    assert_eq!(output_encoding(16, SampleFormat::Float), None);
    assert_eq!(output_encoding(24, SampleFormat::Int), Some(OutputEncoding::Int24));
    assert_eq!(output_encoding(32, SampleFormat::Int), Some(OutputEncoding::Int32));
    assert_eq!(output_encoding(32, SampleFormat::Float), Some(OutputEncoding::Float32));
    assert_eq!(output_encoding(64, SampleFormat::Int), None);
    assert_eq!(output_encoding(64, SampleFormat::Float), Some(OutputEncoding::Float64));
    assert_eq!(output_encoding(12, SampleFormat::Float), Some(OutputEncoding::Int16));
    assert_eq!(OutputEncoding::Int24.width(), 3);
}

#[test]
fn mono_words_are_copied_to_every_channel() {
    let mut out = vec![0u8; 8];
    let n = format_output_bytes(&[0x1234, 0xABCD], &mut out, 2, 4, Some(OutputEncoding::Int16));
    assert_eq!(n, 8);
    assert_eq!(out, vec![0x34, 0x12, 0x34, 0x12, 0xCD, 0xAB, 0xCD, 0xAB]);
}

#[test]
fn slots_past_the_buffer_are_skipped() {
    let mut out = vec![0u8; 6];
    let n = format_output_bytes(&[0x1234, 0xABCD], &mut out, 2, 4, Some(OutputEncoding::Int16));
    assert_eq!(n, 8);
    assert_eq!(out, vec![0x34, 0x12, 0x34, 0x12, 0xCD, 0xAB]);
}

#[test]
fn refused_encoding_writes_nothing_but_reports_the_size() {
    let mut out = vec![7u8; 8];
    let n = format_output_bytes(&[0x1234, 0xABCD], &mut out, 2, 4, None);
    assert_eq!(n, 8);
    assert_eq!(out, vec![7u8; 8]);
}

#[test]
fn twenty_four_bit_words_take_three_bytes() {
    let mut out = vec![0u8; 6];
    interleave_words(&[0x00FF_FFFF_u64, 0x0012_3456], &mut out, 1, 3, 3, 3);
    assert_eq!(out, vec![0xFF, 0xFF, 0xFF, 0x56, 0x34, 0x12]);
}

#[test]
fn monitor_plan_for_16_bit_stereo() {
    let p = monitor_write_plan(480, 100, 2, 16, 1000).unwrap();
    assert_eq!(p.frames, 100);
    assert_eq!(p.total_bytes, 400);
    assert_eq!(p.frame_stride, 4);
    assert_eq!(p.channel_stride, 2);
    assert_eq!(p.width, 2);
    assert_eq!(p.encoding, MonitorEncoding::Int16);
}

#[test]
fn monitor_plan_for_float_and_other_depths() {
    let p = monitor_write_plan(10, 480, 2, 32, 1000).unwrap();
    assert_eq!((p.frames, p.total_bytes, p.frame_stride, p.channel_stride, p.width), (10, 80, 8, 4, 4));
    assert_eq!(p.encoding, MonitorEncoding::Float32);
    let q = monitor_write_plan(10, 480, 2, 24, 1000).unwrap();
    assert_eq!((q.frames, q.total_bytes, q.frame_stride, q.channel_stride, q.width), (10, 60, 6, 4, 4));
    assert_eq!(q.encoding, MonitorEncoding::Float32);
}

#[test]
fn monitor_plan_refused_without_room() {
    assert!(monitor_write_plan(480, 0, 2, 16, 10000).is_none());
    assert!(monitor_write_plan(480, 480, 2, 16, 100).is_none());
    assert!(monitor_write_plan(25, 480, 2, 16, 100).is_some());
    assert!(monitor_write_plan(26, 480, 2, 16, 100).is_none());
}

#[test]
fn words_round_trip_through_bytes() {
    let words: Vec<u64> = vec![1.5f32.to_bits() as u64, (-0.25f32).to_bits() as u64, 0];
    let bytes = le_bytes_of_words(&words, 4);
    assert_eq!(bytes.len(), 12);
    assert_eq!(&bytes[0..4], &1.5f32.to_le_bytes());
    assert_eq!(read_le_words(&bytes, 4, 3), words);
}

#[test]
fn signal_is_any_nonzero_byte() {
    assert!(!has_signal(&[0, 0, 0, 5], 3));
    assert!(has_signal(&[0, 0, 0, 5], 4));
    assert!(!has_signal(&[], 0));
}

#[test]
fn integer_depths_share_one_scale() {
    for &(lo, hi) in &[(0x34u8, 0x92u8), (0xFF, 0x7F), (0x00, 0x80), (0x01, 0x00)] {
        let expected = i16::from_le_bytes([lo, hi]) as i32;
        for bytes in [vec![lo, hi], vec![0, lo, hi], vec![0, 0, lo, hi]] {
            let layout = input_layout((bytes.len() * 8) as u16, SampleFormat::Int);
            let words = read_le_words(&bytes, layout.width(), 1);
            assert_eq!(words.len(), 1);
            assert_eq!(int_sample_value(layout, words[0]), expected);
        }
    }
}

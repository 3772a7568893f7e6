use cdp_pvoc::ana::{decode_ana, encode_ana, AnaHeader, SpectralError};
use cdp_pvoc::pvoc::{
    anal_frame_count, anal_header, anal_params, blur, check_blur_width, blur_span, extract_band, mirror_spectrum,
    pack_magnitude_frame, pack_standard_frame, synth_output_len, synth_params, AnalParams,
    PvocError,
};

fn header(fft: u32, overlap: u32) -> AnaHeader {
    AnaHeader {
        sample_rate: 44100,
        channels: ((fft / 2 + 1) * 2) as u16,
        window_len: fft,
        dec_factor: overlap,
    }
}

fn frames(fft: u32, n: usize) -> Vec<u32> {
    let ch = ((fft / 2 + 1) * 2) as usize;
    (0..n * ch).map(|i| (i as f32 * 0.25 - 3.0).to_bits()).collect()
}

#[test]
fn ana_round_trip_keeps_header_and_values() {
    let h = header(8, 4);
    let w = frames(8, 3);
    let bytes = encode_ana(&h, &w);
    let (h2, w2) = decode_ana(&bytes).unwrap();
    assert_eq!(h2, h);
    assert_eq!(w2, w);
}

#[test]
fn ana_layout_starts_with_riff_and_float_format() {
    let bytes = encode_ana(&header(8, 4), &frames(8, 1));
    assert_eq!(&bytes[0..4], b"RIFF");
    assert_eq!(&bytes[8..12], b"WAVE");
    assert_eq!(&bytes[12..16], b"fmt ");
    assert_eq!(bytes[20], 3);
    assert_eq!(bytes[21], 0);
    assert_eq!(&bytes[36..40], b"LIST");
    let riff = u32::from_le_bytes([bytes[4], bytes[5], bytes[6], bytes[7]]) as usize;
    assert_eq!(riff + 8, bytes.len());
}

#[test]
fn ana_metadata_text_has_rates_and_lengths() {
    let bytes = encode_ana(&header(1024, 3), &frames(1024, 1));
    let text = String::from_utf8_lossy(&bytes);
    assert!(text.contains("original sample rate: 44100\n"));
    assert!(text.contains("arate: 129.32551\n"));
    assert!(text.contains("analwinlen: 1024\n"));
    assert!(text.contains("decfactor: 3\n"));
    assert!(text.contains("origrate: 44100\n"));
}

#[test]
fn ana_decode_refuses_non_riff() {
    let mut bytes = encode_ana(&header(8, 4), &frames(8, 1));
    bytes[0] = b'X';
    assert!(matches!(decode_ana(&bytes), Err(SpectralError::InvalidInput(_))));
}

#[test]
fn ana_decode_reports_truncation_as_io() {
    let bytes = encode_ana(&header(8, 4), &frames(8, 2));
    assert!(matches!(decode_ana(&bytes[..bytes.len() - 3]), Err(SpectralError::Io(_))));
    assert!(matches!(decode_ana(&bytes[..10]), Err(SpectralError::Io(_))));
}

#[test]
fn ana_decode_refuses_partial_frames() {
    let h = header(8, 4);
    let mut w = frames(8, 2);
    w.truncate(w.len() - 2);
    let bytes = encode_ana(&h, &w);
    assert!(matches!(decode_ana(&bytes), Err(SpectralError::InvalidInput(_))));
}

#[test]
fn ana_decode_refuses_integer_samples() {
    let mut bytes = encode_ana(&header(8, 4), &frames(8, 1));
    bytes[20] = 1;
    assert!(matches!(decode_ana(&bytes), Err(SpectralError::InvalidInput(_))));
}

#[test]
fn anal_params_defaults_and_errors() {
    assert_eq!(
        anal_params(1, None, None),
        Ok(AnalParams { mode: 1, fft_size: 1024, overlap: 3, hop_size: 341 })
    );
    assert!(matches!(anal_params(1, Some(1000), None), Err(PvocError::InvalidParams(_))));
    assert!(matches!(anal_params(1, Some(65536), None), Err(PvocError::InvalidParams(_))));
    assert!(matches!(anal_params(4, Some(256), None), Err(PvocError::InvalidParams(_))));
    assert!(matches!(anal_params(2, Some(256), Some(5)), Err(PvocError::InvalidParams(_))));
    assert!(anal_params(3, Some(2), Some(1)).is_ok());
}

#[test]
fn frame_count_drops_trailing_partial_frame() {
    assert_eq!(anal_frame_count(44100, 1024, 341), 127);
    assert_eq!(anal_frame_count(1023, 1024, 341), 0);
    assert_eq!(anal_frame_count(1024, 1024, 341), 1);
}

#[test]
fn synth_params_and_length() {
    assert_eq!(synth_params(1026, 3).unwrap().fft_size, 1024);
    assert_eq!(synth_params(1026, 3).unwrap().hop_size, 341);
    assert_eq!(synth_params(1000, 3), Err(PvocError::InvalidFormat));
    assert_eq!(synth_output_len(127, 341, 1024), 126 * 341 + 1024);
}

#[test]
fn packing_frames() {
    let spec: Vec<(u32, u32)> = (0..8).map(|k| (k, 100 + k)).collect();
    assert_eq!(pack_standard_frame(&spec), vec![0, 100, 1, 101, 2, 102, 3, 103, 4, 104]);
    assert_eq!(pack_magnitude_frame(&vec![7, 9]), vec![7, 0, 9, 0]);
}

#[test]
fn mirror_conjugates_upper_half() {
    let frame: Vec<u32> = [1.0f32, 0.0, 2.0, 3.0, 4.0, -5.0, 6.0, 0.0]
        .iter()
        .map(|v| v.to_bits())
        .collect();
    let full = mirror_spectrum(&frame, 6);
    let as_f = |v: (u32, u32)| (f32::from_bits(v.0), f32::from_bits(v.1));
    assert_eq!(as_f(full[0]), (1.0, 0.0));
    assert_eq!(as_f(full[1]), (2.0, 3.0));
    assert_eq!(as_f(full[3]), (6.0, 0.0));
    assert_eq!(as_f(full[4]), (4.0, 5.0));
    assert_eq!(as_f(full[5]), (2.0, -3.0));
}

#[test]
fn extract_full_band_is_identity() {
    let w = frames(8, 3);
    assert_eq!(extract_band(&w, 10, 0, 4), w);
}

#[test]
fn extract_keeps_dc_and_nyquist() {
    let w = frames(8, 2);
    let r = extract_band(&w, 10, 2, 2);
    for f in 0..2 {
        let b = f * 10;
        assert_eq!(&r[b..b + 2], &w[b..b + 2]);
        assert_eq!(&r[b + 8..b + 10], &w[b + 8..b + 10]);
        assert_eq!(&r[b + 4..b + 6], &w[b + 4..b + 6]);
        assert_eq!(&r[b + 2..b + 4], &[0, 0]);
        assert_eq!(&r[b + 6..b + 8], &[0, 0]);
    }
}

#[test]
fn extract_clamps_high_bin_to_nyquist() {
    let w = frames(8, 1);
    assert_eq!(extract_band(&w, 10, 1, 1000), w);
}

#[test]
fn blur_width_one_spans_single_frames() {
    let spans = blur(5, 1).unwrap();
    assert_eq!(spans, vec![(0, 1), (1, 2), (2, 3), (3, 4), (4, 5)]);
}

#[test]
fn blur_even_width_is_raised_to_odd() {
    assert_eq!(blur(5, 2).unwrap(), blur(5, 3).unwrap());
    assert_eq!(blur(5, 3).unwrap(), vec![(0, 2), (0, 3), (1, 4), (2, 5), (3, 5)]);
}

#[test]
fn blur_spans_widen_with_width() {
    for w in 0..7usize {
        let a = blur_span(w, 7, 3);
        let b = blur_span(w, 7, 5);
        assert!(b.0 <= a.0 && a.1 <= b.1);
    }
}

#[test]
fn blur_refuses_zero_width_and_empty_file() {
    assert!(matches!(blur(5, 0), Err(SpectralError::InvalidInput(_))));
    assert!(matches!(blur(0, 3), Err(SpectralError::InvalidInput(_))));
}

#[test]
fn ana_decode_refuses_inconsistent_header() {
    let h = AnaHeader { sample_rate: 44100, channels: 4, window_len: 1024, dec_factor: 4 };
    let bytes = encode_ana(&h, &frames(2, 2));
    assert!(matches!(decode_ana(&bytes), Err(SpectralError::InvalidInput(_))));
}

#[test]
fn ana_decode_refuses_missing_data_chunk() {
    let mut bytes = encode_ana(&header(8, 4), &frames(8, 1));
    let at = bytes.windows(4).position(|w| w == b"data").unwrap();
    bytes[at..at + 4].copy_from_slice(b"junk");
    assert!(matches!(decode_ana(&bytes), Err(SpectralError::InvalidInput(_))));
}

#[test]
fn analysis_header_matches_parameters() {
    let p = anal_params(1, Some(1024), Some(3)).unwrap();
    let h = anal_header(48000, &p);
    assert_eq!(h, AnaHeader { sample_rate: 48000, channels: 1026, window_len: 1024, dec_factor: 3 });
    let bytes = encode_ana(&h, &frames(1024, 2));
    assert_eq!(decode_ana(&bytes).unwrap().0, h);
}

#[test]
fn test_blur_validation() {
    let result = blur(4, 0);
    assert!(result.is_err());
    assert!(matches!(result, Err(SpectralError::InvalidInput(_))));
    assert!(matches!(check_blur_width(0), Err(SpectralError::InvalidInput(_))));
    assert_eq!(check_blur_width(3), Ok(()));
}

use cdp_pvoc::bytes::{DATA_ID, FMT_ID, PEAK_ID};
use cdp_pvoc::chans::{extract_channel_to, mix_to_mono};
use cdp_pvoc::cli::{
    chans, housekeep, loudness, modify, sndinfo, ChansCommand, HousekeepCommand,
    LoudnessCommand, ModifyError, SndinfoError,
};
use cdp_pvoc::fft::{check_fft_size, check_window_fit, CoreError, Fft};
use cdp_pvoc::props::{read_wav_with_metadata, total_samples};
use cdp_pvoc::riff::{compare_wav_files, find_chunk, has_cdp_format, have_same_chunk_types, read_chunks};
use cdp_pvoc::wav::{
    calculate_peak, copy, copy_file, create_cdp_chunks, create_note_data, read_wav,
    write_wav_cdp, HousekeepError, WavFormat,
};

fn fmt(channels: u16) -> WavFormat {
    WavFormat { channels, sample_rate: 44100, bits_per_sample: 16, data_size: 0 }
}

fn simple_wav(channels: u16, samples: &[i16]) -> Vec<u8> {
    let mut b = Vec::new();
    let data = (samples.len() * 2) as u32;
    b.extend_from_slice(b"RIFF");
    b.extend_from_slice(&(36 + data).to_le_bytes());
    b.extend_from_slice(b"WAVEfmt ");
    b.extend_from_slice(&16u32.to_le_bytes());
    b.extend_from_slice(&1u16.to_le_bytes());
    b.extend_from_slice(&channels.to_le_bytes());
    b.extend_from_slice(&44100u32.to_le_bytes());
    b.extend_from_slice(&(44100u32 * 2 * channels as u32).to_le_bytes());
    b.extend_from_slice(&(2 * channels).to_le_bytes());
    b.extend_from_slice(&16u16.to_le_bytes());
    b.extend_from_slice(b"data");
    b.extend_from_slice(&data.to_le_bytes());
    for s in samples {
        b.extend_from_slice(&s.to_le_bytes());
    }
    b
}

#[test]
fn fft_sizes() {
    assert!(Fft::is_valid_size(1024));
    assert!(!Fft::is_valid_size(1000));
    assert!(!Fft::is_valid_size(0));
    assert_eq!(Fft::next_power_of_two(0), 1);
    assert_eq!(Fft::next_power_of_two(5), 8);
    assert_eq!(Fft::next_power_of_two(1024), 1024);
    assert_eq!(check_fft_size(12), Err(CoreError::InvalidFftSize(12)));
    assert_eq!(check_window_fit(3, 4), Err(CoreError::WindowSizeMismatch(3, 4)));
    assert_eq!(check_window_fit(4, 4), Ok(()));
}

#[test]
fn read_wav_simple_file() {
    let bytes = simple_wav(2, &[1, -2, 3, -4]);
    let (f, s) = read_wav(&bytes).unwrap();
    assert_eq!(f.channels, 2);
    assert_eq!(f.sample_rate, 44100);
    assert_eq!(f.data_size, 8);
    assert_eq!(s, vec![1, -2, 3, -4]);
}

#[test]
fn read_wav_refuses_missing_data() {
    let bytes = simple_wav(1, &[]);
    assert!(matches!(read_wav(&bytes), Err(HousekeepError::Io(_))));
    assert!(matches!(read_wav(b"RIFF....WAVEfmt "), Err(HousekeepError::Io(_))));
}

#[test]
fn peak_is_first_largest_magnitude() {
    assert_eq!(calculate_peak(&[0, 1000, -2000, 3000, -32767]), (32767, 4));
    assert_eq!(calculate_peak(&[5, -7, 7]), (7, 1));
    assert_eq!(calculate_peak(&[0, 0]), (0, 0));
    assert_eq!(calculate_peak(&[-32768]), (32768, 0));
}

#[test]
fn note_data_layout() {
    let n = create_note_data(0x5F3A);
    assert_eq!(n.len(), 2004);
    assert_eq!(&n[..15], b"sfifDATE\n5F3A\n\n");
    assert!(n[15..].iter().all(|&b| b == b'\n'));
}

#[test]
fn written_file_reads_back_and_has_markers() {
    let samples = vec![3i16, -9, 27];
    let mut f = fmt(1);
    f.data_size = 6;
    let chunks = create_cdp_chunks((27.0f32 / 32767.0).to_bits(), 2, 1234);
    let bytes = write_wav_cdp(&f, &samples, &chunks);
    let (f2, s2) = read_wav(&bytes).unwrap();
    assert_eq!(f2, f);
    assert_eq!(s2, samples);
    assert_eq!(has_cdp_format(&bytes).unwrap(), true);
    assert_eq!(has_cdp_format(&simple_wav(1, &[1])).unwrap(), false);
    let riff = u32::from_le_bytes([bytes[4], bytes[5], bytes[6], bytes[7]]) as usize;
    assert_eq!(riff + 8, bytes.len());
}

#[test]
fn chunk_listing_and_lookup() {
    let bytes = simple_wav(1, &[1, 2, 3]);
    let chunks = read_chunks(&bytes).unwrap();
    assert_eq!(chunks.len(), 2);
    assert_eq!(chunks[0].id, FMT_ID);
    assert_eq!(chunks[0].offset, 20);
    assert_eq!(chunks[1].id, DATA_ID);
    assert_eq!(chunks[1].size, 6);
    assert_eq!(find_chunk(&chunks, DATA_ID), Some(1));
    assert_eq!(find_chunk(&chunks, PEAK_ID), None);
    assert!(read_chunks(&bytes[..8]).is_err());
}

#[test]
fn chunk_types_compare_as_multisets() {
    let a = read_chunks(&simple_wav(1, &[1])).unwrap();
    let mut b = a.clone();
    b.reverse();
    assert!(have_same_chunk_types(&a, &b));
    b.push(b[0]);
    assert!(!have_same_chunk_types(&a, &b));
}

#[test]
fn comparison_ignores_peak_time_stamp() {
    let mut f = fmt(1);
    f.data_size = 4;
    let s = vec![10i16, -20];
    let a = write_wav_cdp(&f, &s, &create_cdp_chunks(7, 1, 100));
    let b = write_wav_cdp(&f, &s, &create_cdp_chunks(7, 1, 200));
    let c = write_wav_cdp(&f, &[10, -21], &create_cdp_chunks(8, 1, 100));
    let ab = compare_wav_files(&a, &b).unwrap();
    assert!(ab.chunks_match && ab.format_matches && ab.data_matches && ab.peak_matches);
    let ac = compare_wav_files(&a, &c).unwrap();
    assert!(ac.format_matches);
    assert!(!ac.data_matches);
    assert!(!ac.peak_matches);
    assert!(ac.details.contains("Audio data differs"));
    let plain = compare_wav_files(&a, &simple_wav(1, &[10, -20])).unwrap();
    assert!(!plain.chunks_match && plain.data_matches && !plain.peak_matches);
    assert!(plain.details.contains("One file missing PEAK chunk"));
}

#[test]
fn extract_channel_picks_interleaved_samples() {
    let (f, s) = extract_channel_to(&fmt(3), &vec![1, 2, 3, 4, 5, 6, 7], 2).unwrap();
    assert_eq!(s, vec![2, 5]);
    assert_eq!(f.channels, 1);
    assert_eq!(f.data_size, 4);
    let (_, s3) = extract_channel_to(&fmt(3), &vec![1, 2, 3, 4, 5, 6, 7], 1).unwrap();
    assert_eq!(s3, vec![1, 4, 7]);
}

#[test]
fn test_extract_channel_validation() {
    assert!(matches!(extract_channel_to(&fmt(2), &vec![1, 2], 0), Err(HousekeepError::InvalidFile(_))));
    assert!(matches!(extract_channel_to(&fmt(1), &vec![1, 2], 1), Err(HousekeepError::InvalidFile(_))));
    assert!(matches!(extract_channel_to(&fmt(2), &vec![1, 2], 3), Err(HousekeepError::InvalidFile(_))));
}

#[test]
fn mono_mix_averages_toward_zero() {
    let (f, s) = mix_to_mono(&fmt(2), &vec![3, 4, -3, -4, 32767, 32767, 5], false).unwrap();
    assert_eq!(s, vec![3, -3, 32767, 2]);
    assert_eq!(f.channels, 1);
    let (_, inv) = mix_to_mono(&fmt(2), &vec![3, 4, -32768, 32767], true).unwrap();
    assert_eq!(inv, vec![0, -32767]);
    let (f1, same) = mix_to_mono(&fmt(1), &vec![9, 8], true).unwrap();
    assert_eq!(f1, fmt(1));
    assert_eq!(same, vec![9, 8]);
    assert!(matches!(mix_to_mono(&fmt(0), &vec![9], false), Err(HousekeepError::InvalidFile(_))));
}

#[test]
fn copy_reads_sound_and_peak() {
    let bytes = simple_wav(1, &[0, 5, -9, 9]);
    let c = copy(&bytes).unwrap();
    assert_eq!(c.samples, vec![0, 5, -9, 9]);
    assert_eq!((c.peak, c.peak_position), (9, 2));
    assert!(matches!(copy_file(&bytes, 2), Err(HousekeepError::UnsupportedFormat(_))));
}

#[test]
fn test_basic_copy() {
    let bytes = simple_wav(1, &[0i16; 100]);
    let c = copy(&bytes).unwrap();
    let chunks = create_cdp_chunks(0, c.peak_position, 1);
    let out = write_wav_cdp(&c.format, &c.samples, &chunks);
    let (f, s) = read_wav(&out).unwrap();
    assert_eq!(f, c.format);
    assert_eq!(s, vec![0i16; 100]);
}

#[test]
fn housekeep_dispatch() {
    assert_eq!(
        housekeep("copy", &["1", "a.wav", "b.wav"]),
        Ok(HousekeepCommand::Copy { input: "a.wav".to_string(), output: "b.wav".to_string() })
    );
    assert!(matches!(housekeep("copy", &["2", "a", "b"]), Err(HousekeepError::UnsupportedFormat(_))));
    assert!(matches!(housekeep("copy", &["x", "a", "b"]), Ok(_)));
    assert!(matches!(housekeep("copy", &["1", "a"]), Err(HousekeepError::InvalidFile(_))));
    assert_eq!(
        housekeep("chans", &["4", "in.wav", "out.wav", "-p"]),
        Ok(HousekeepCommand::Chans(ChansCommand::MixToMono {
            input: "in.wav".to_string(),
            output: "out.wav".to_string(),
            invert_phase: true,
        }))
    );
    assert!(matches!(housekeep("move", &[]), Err(HousekeepError::UnsupportedFormat(_))));
}

#[test]
fn chans_dispatch() {
    assert_eq!(
        chans(1, &["in.wav", "x2"]),
        Err(HousekeepError::InvalidFile("Invalid channel number".to_string()))
    );
    assert!(matches!(chans(1, &["in.wav", "+2"]), Ok(ChansCommand::ExtractChannel { channel: 2, .. })));
    assert_eq!(
        chans(1, &["in.wav", "2"]),
        Ok(ChansCommand::ExtractChannel { input: "in.wav".to_string(), channel: 2 })
    );
    assert!(matches!(chans(2, &["a", "b"]), Err(HousekeepError::UnsupportedFormat(_))));
    assert!(matches!(chans(4, &["a"]), Err(HousekeepError::InvalidFile(_))));
}

#[test]
fn loudness_dispatch() {
    assert_eq!(
        loudness(3, &["a", "b", "-l0.5"]),
        Ok(LoudnessCommand::Normalize {
            input: "a".to_string(),
            output: "b".to_string(),
            level: Some("-l0.5".to_string()),
        })
    );
    assert!(matches!(loudness(1, &["a", "b"]), Err(ModifyError::InvalidParameter(_))));
    assert!(matches!(loudness(4, &["a", "b"]), Err(ModifyError::UnsupportedOperation(_))));
    assert!(matches!(modify("loudness", 6, &["a", "b"]), Ok(LoudnessCommand::InvertPhase { .. })));
    assert!(matches!(modify("space", 1, &[]), Err(ModifyError::UnsupportedOperation(_))));
}

#[test]
fn sndinfo_dispatch() {
    assert_eq!(sndinfo("props", &["f.wav"]), Ok("f.wav".to_string()));
    assert!(matches!(sndinfo("props", &[]), Err(SndinfoError::InvalidFile(_))));
    assert!(matches!(sndinfo("len", &["f"]), Err(SndinfoError::UnsupportedOperation(_))));
}

#[test]
fn properties_of_written_file() {
    let samples = vec![1i16, -300, 200, 4];
    let mut f = fmt(2);
    f.data_size = 8;
    let chunks = create_cdp_chunks((300.0f32 / 32767.0).to_bits(), 1, 99);
    let bytes = write_wav_cdp(&f, &samples, &chunks);
    let (pf, peak) = read_wav_with_metadata(&bytes).unwrap();
    assert_eq!(pf, f);
    assert_eq!(peak, Some(((300.0f32 / 32767.0).to_bits(), 1)));
    assert_eq!(total_samples(&pf), 2);
    let (plain, none) = read_wav_with_metadata(&simple_wav(1, &[1, 2, 3])).unwrap();
    assert_eq!(plain.data_size, 6);
    assert_eq!(none, None);
}

#[test]
fn properties_refuse_bad_files() {
    assert!(matches!(read_wav_with_metadata(b"RIFF"), Err(SndinfoError::Io(_))));
    assert!(matches!(read_wav_with_metadata(b"RIFX....WAVE"), Err(SndinfoError::InvalidFile(_))));
    assert!(matches!(read_wav_with_metadata(b"RIFF....WAVEdata\0\0\0\0"), Err(SndinfoError::InvalidFile(_))));
    let bytes = simple_wav(1, &[1, 2]);
    assert!(matches!(read_wav_with_metadata(&bytes[..30]), Err(SndinfoError::Io(_))));
}

#[test]
fn test_peak_calculation() {
    let samples = vec![0, 1000, -2000, 3000, -32767];
    let (peak, pos) = calculate_peak(&samples);
    assert_eq!(peak as f32 / 32767.0, 32767.0 / 32767.0);
    assert_eq!(pos, 4);
}

fn copy_bytes(input: &[u8]) -> Vec<u8> {
    let source = copy(input).unwrap();
    let (peak, position) = (source.peak, source.peak_position);
    let chunks = create_cdp_chunks((peak as f32 / 32767.0).to_bits(), position, 1);
    write_wav_cdp(&source.format, &source.samples, &chunks)
}

#[test]
fn test_copy_preserves_audio() {
    let samples: Vec<i16> = (0..1000).map(|i| ((i * 100) % 32768) as i16).collect();
    let mut input = simple_wav(2, &samples);
    // the rate of this file is 48000 Hz
    input[24..28].copy_from_slice(&48000u32.to_le_bytes());
    let out = copy_bytes(&input);
    let (f_in, s_in) = read_wav(&input).unwrap();
    let (f_out, s_out) = read_wav(&out).unwrap();
    assert_eq!(f_out.channels, 2);
    assert_eq!(f_out.sample_rate, 48000);
    assert_eq!(f_out.channels, f_in.channels);
    assert_eq!(f_out.sample_rate, f_in.sample_rate);
    assert_eq!(f_out.bits_per_sample, f_in.bits_per_sample);
    assert_eq!(s_out, s_in);
    assert_eq!(s_out, samples);
}

#[test]
fn test_copy_produces_cdp_format() {
    let input = simple_wav(1, &[0, 100, -200, 300]);
    assert_eq!(has_cdp_format(&input).unwrap(), false);
    let out = copy_bytes(&input);
    assert_eq!(has_cdp_format(&out).unwrap(), true);
    let chunks = read_chunks(&out).unwrap();
    assert_eq!(find_chunk(&chunks, PEAK_ID), Some(1));
}

#[test]
fn comparison_of_cut_bodies_fails() {
    let a = simple_wav(1, &[1, 2, 3]);
    let mut b = a.clone();
    b.truncate(b.len() - 2);
    assert!(matches!(compare_wav_files(&a, &b), Err(HousekeepError::Io(_))));
    assert!(compare_wav_files(&a, &a).is_ok());
}

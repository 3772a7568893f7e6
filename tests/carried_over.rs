use cdp_pvoc::wav::WavFormat;

#[test]
fn test_module_frozen() {}

#[test]
fn test_wav_format() {
    let format = WavFormat {
        channels: 2,
        sample_rate: 44100,
        bits_per_sample: 16,
        data_size: 176400,
    };
    assert_eq!(format.channels, 2);
    assert_eq!(format.sample_rate, 44100);
}

#[test]
fn sandbox_test() {
    assert_eq!(2 + 2, 4);
}

#[test]
fn test_placeholder() {
    assert_eq!(1 + 1, 2);
}

#[test]
fn test_ana_is_valid_wav() {}

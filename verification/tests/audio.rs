use ghostscribe_client::audio::{
    downmix, encode, encode_flac, encode_wav, flac_outcome, no_device_message, pick_device,
    resample_linear, AudioError, Capture, DevicePick, TARGET_SAMPLE_RATE,
};

fn wav_header(n: usize) -> Vec<u8> {
    let data = (2 * n) as u32;
    let mut h = Vec::new();
    h.extend_from_slice(b"RIFF");
    h.extend_from_slice(&(36 + data).to_le_bytes());
    h.extend_from_slice(b"WAVEfmt ");
    h.extend_from_slice(&16u32.to_le_bytes());
    h.extend_from_slice(&1u16.to_le_bytes());
    h.extend_from_slice(&1u16.to_le_bytes());
    h.extend_from_slice(&16000u32.to_le_bytes());
    h.extend_from_slice(&32000u32.to_le_bytes());
    h.extend_from_slice(&2u16.to_le_bytes());
    h.extend_from_slice(&16u16.to_le_bytes());
    h.extend_from_slice(b"data");
    h.extend_from_slice(&data.to_le_bytes());
    h
}

#[test]
fn downmix_averages_frames_toward_zero() {
    assert_eq!(downmix(&[1, 2, -3, -4, 10, 20], 2), vec![1, -3, 15]);
    // A trailing partial frame is dropped.
    assert_eq!(downmix(&[6, 6, 6, 9, 9], 3), vec![6]);
    // Extreme values do not overflow.
    assert_eq!(downmix(&[i16::MIN, i16::MIN, i16::MAX, i16::MAX], 2), vec![i16::MIN, i16::MAX]);
}

#[test]
fn downmix_mono_is_a_copy() {
    assert_eq!(downmix(&[5, -5, 7], 1), vec![5, -5, 7]);
    assert_eq!(downmix(&[5, -5, 7], 0), vec![5, -5, 7]);
}

#[test]
fn resample_same_rate_or_empty_is_unchanged() {
    assert_eq!(resample_linear(&[1, 2, 3], 16000, 16000), vec![1, 2, 3]);
    assert_eq!(resample_linear(&[], 48000, 16000), Vec::<i16>::new());
}

#[test]
fn resample_down_takes_every_third_sample() {
    let src: Vec<i16> = (0..9).map(|i| i * 10).collect();
    assert_eq!(resample_linear(&src, 48000, 16000), vec![0, 30, 60]);
}

#[test]
fn resample_up_interpolates() {
    assert_eq!(resample_linear(&[0, 100, 200], 8000, 16000), vec![0, 50, 100, 150, 200, 200]);
    // Truncation toward zero on negative values.
    assert_eq!(resample_linear(&[0, -3], 8000, 16000), vec![0, -1, -3, -3]);
}

#[test]
fn wav_bytes_are_exact() {
    let samples = [1i16, -2, 300];
    let bytes = encode_wav(&samples).unwrap();
    let mut expected = wav_header(3);
    expected.extend_from_slice(&[1, 0, 0xFE, 0xFF, 0x2C, 0x01]);
    assert_eq!(bytes, expected);
}

#[test]
fn wav_decodes_back_to_the_samples() {
    let samples = [0i16, 1, -1, i16::MIN, i16::MAX, 12345, -12345];
    let w = encode_wav(&samples).unwrap();
    assert_eq!(&w[0..4], b"RIFF");
    assert_eq!(&w[8..12], b"WAVE");
    assert_eq!(u16::from_le_bytes([w[20], w[21]]), 1);
    assert_eq!(u16::from_le_bytes([w[22], w[23]]), 1);
    assert_eq!(u32::from_le_bytes([w[24], w[25], w[26], w[27]]), 16000);
    assert_eq!(u16::from_le_bytes([w[34], w[35]]), 16);
    assert_eq!(u32::from_le_bytes([w[40], w[41], w[42], w[43]]), 14);
    let decoded: Vec<i16> =
        w[44..].chunks(2).map(|c| i16::from_le_bytes([c[0], c[1]])).collect();
    assert_eq!(decoded, samples);
}

#[test]
fn empty_wav_is_just_the_header() {
    assert_eq!(encode_wav(&[]).unwrap(), wav_header(0));
}

#[test]
fn flac_is_a_flac_stream() {
    let samples: Vec<i16> = (0..5000).map(|i| ((i % 200) as i16 - 100) * 50).collect();
    let bytes = encode_flac(&samples).unwrap();
    assert_eq!(&bytes[0..4], b"fLaC");
    assert!(bytes.len() > 4);
    assert_ne!(bytes.len(), samples.len());
}

#[test]
fn encode_picks_format_name_and_mime() {
    let (b, name, mime) = encode(&[0, 1, 2], "wav").unwrap();
    assert_eq!(name, "recording.wav");
    assert_eq!(mime, "audio/wav");
    assert_eq!(b, encode_wav(&[0, 1, 2]).unwrap());
    let (b, name, mime) = encode(&[0, 1, 2], "flac").unwrap();
    assert_eq!(name, "recording.flac");
    assert_eq!(mime, "audio/flac");
    assert_eq!(&b[0..4], b"fLaC");
}

#[test]
fn unknown_format_is_an_error() {
    match encode(&[0], "mp3") {
        Err(AudioError::UnknownFormat(f)) => assert_eq!(f, "mp3"),
        other => panic!("expected UnknownFormat, got {other:?}"),
    }
    let e = encode(&[0], "FLAC").unwrap_err();
    assert_eq!(e.message(), "unknown audio_format \"FLAC\"; use 'flac' or 'wav'");
}

#[test]
fn flac_outcome_keeps_bytes_and_reports() {
    assert_eq!(flac_outcome(Ok(vec![1, 2])).unwrap(), vec![1, 2]);
    let e = flac_outcome(Err((false, "boom".into()))).unwrap_err();
    assert!(matches!(&e, AudioError::Flac(m) if m == "boom"));
    assert_eq!(e.message(), "FLAC encode error: boom");
    let e = flac_outcome(Err((true, "disk".into()))).unwrap_err();
    assert!(matches!(&e, AudioError::FlacWrite(m) if m == "disk"));
    assert_eq!(e.message(), "FLAC write error: disk");
}

#[test]
fn capture_keeps_samples_only_while_active() {
    let mut c = Capture::new(16000, 1);
    c.push_samples(&[1, 2, 3]);
    assert_eq!(c.end(), None);
    c.begin();
    c.push_samples(&[1, 2, 3]);
    c.push_u16_samples(&[32768, 0, 65535]);
    assert_eq!(c.end(), Some(vec![1, 2, 3, 0, -32768, 32767]));
    assert_eq!(c.end(), None);
}

#[test]
fn capture_end_downmixes_and_resamples() {
    let mut c = Capture::new(32000, 2);
    c.begin();
    c.push_samples(&[10, 20, 30, 40, 50, 60, 70, 80]);
    // Mono: 15, 35, 55, 75 at 32 kHz; every second one at 16 kHz.
    assert_eq!(c.end(), Some(vec![15, 55]));
}

#[test]
fn capture_cancel_and_checkpoint() {
    let mut c = Capture::new(TARGET_SAMPLE_RATE, 1);
    c.begin();
    c.push_samples(&[4, 5]);
    assert_eq!(c.checkpoint(), Some(vec![4, 5]));
    assert_eq!(c.checkpoint(), None);
    c.push_samples(&[6]);
    c.cancel();
    c.push_samples(&[7]);
    assert_eq!(c.end(), None);
}

#[test]
fn device_pick_by_name() {
    let names = vec!["Built-in Mic".to_string(), "USB Audio CODEC".to_string(), "usb headset".to_string()];
    assert_eq!(pick_device("", &names), DevicePick::Default);
    assert_eq!(pick_device("usb", &names), DevicePick::Index(1));
    assert_eq!(pick_device("HEADSET", &names), DevicePick::Index(2));
    assert_eq!(pick_device("bluetooth", &names), DevicePick::NoMatch);
    assert_eq!(pick_device("x", &vec![]), DevicePick::NoMatch);
}

#[test]
fn no_device_message_quotes_the_filter() {
    assert_eq!(
        no_device_message("usb"),
        "no input device matched \"usb\" (use empty string for default)"
    );
}

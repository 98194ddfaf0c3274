use mnemo::wav::{format_fits, wav_bytes};

fn reference(samples: &[i16], sample_rate: u32, channels: u16) -> Vec<u8> {
    let data_len = samples.len() * 2;
    let mut wav = Vec::new();
    wav.extend_from_slice(b"RIFF");
    wav.extend_from_slice(&((36 + data_len) as u32).to_le_bytes());
    wav.extend_from_slice(b"WAVEfmt ");
    wav.extend_from_slice(&16u32.to_le_bytes());
    wav.extend_from_slice(&1u16.to_le_bytes());
    wav.extend_from_slice(&channels.to_le_bytes());
    wav.extend_from_slice(&sample_rate.to_le_bytes());
    wav.extend_from_slice(&(sample_rate * u32::from(channels) * 2).to_le_bytes());
    wav.extend_from_slice(&(channels * 2).to_le_bytes());
    wav.extend_from_slice(&16u16.to_le_bytes());
    wav.extend_from_slice(b"data");
    wav.extend_from_slice(&(data_len as u32).to_le_bytes());
    for sample in samples {
        wav.extend_from_slice(&sample.to_le_bytes());
    }
    wav
}

#[test]
fn a_small_file_has_these_bytes() {
    let wav = wav_bytes(&[1, -2], 8000, 1).unwrap();
    assert_eq!(
        wav,
        vec![
            82, 73, 70, 70, 40, 0, 0, 0, 87, 65, 86, 69, 102, 109, 116, 32, 16, 0, 0, 0, 1, 0, 1,
            0, 64, 31, 0, 0, 128, 62, 0, 0, 2, 0, 16, 0, 100, 97, 116, 97, 4, 0, 0, 0, 1, 0, 254,
            255
        ]
    );
}

#[test]
fn samples_and_format_can_be_read_back() {
    let samples: Vec<i16> = vec![0, 1, -1, 255, 256, -256, i16::MAX, i16::MIN, 12345, -12345];
    let wav = wav_bytes(&samples, 48000, 2).unwrap();
    assert_eq!(wav, reference(&samples, 48000, 2));
    let read: Vec<i16> = wav[44..]
        .chunks(2)
        .map(|b| i16::from_le_bytes([b[0], b[1]]))
        .collect();
    assert_eq!(read, samples);
    assert_eq!(u16::from_le_bytes([wav[22], wav[23]]), 2);
    assert_eq!(u32::from_le_bytes([wav[24], wav[25], wav[26], wav[27]]), 48000);
}

#[test]
fn sizes_in_the_header_are_those_of_the_file() {
    for n in [0usize, 1, 127, 128, 40_000] {
        let samples = vec![7i16; n];
        let wav = wav_bytes(&samples, 44100, 1).unwrap();
        assert_eq!(wav.len(), 44 + 2 * n);
        let riff = u32::from_le_bytes([wav[4], wav[5], wav[6], wav[7]]);
        assert_eq!(riff as usize, wav.len() - 8);
        let data = u32::from_le_bytes([wav[40], wav[41], wav[42], wav[43]]);
        assert_eq!(data as usize, 2 * n);
    }
}

#[test]
fn the_largest_rates_fit() {
    let wav = wav_bytes(&[], u32::MAX / 2, 1).unwrap();
    assert_eq!(wav, reference(&[], u32::MAX / 2, 1));
    let wav = wav_bytes(&[], 65538, 32767).unwrap();
    assert_eq!(wav, reference(&[], 65538, 32767));
}

#[test]
fn formats_that_do_not_fit_are_recognised() {
    assert!(format_fits(48000, 2));
    assert!(format_fits(0, 0));
    assert!(format_fits(0, 32767));
    assert!(!format_fits(0, 32768));
    assert!(format_fits(u32::MAX / 2, 1));
    assert!(!format_fits(u32::MAX / 2 + 1, 1));
    assert!(format_fits(65538, 32767));
    assert!(!format_fits(65539, 32767));
    assert!(!format_fits(u32::MAX, 32767));
}

use drywet::wav::{parse_fmt_chunk, parse_wav, pcm16_samples, wav_note_stem, WavError, WavPcm};

fn fmt_body(format: u16, channels: u16, rate: u32, bits: u16) -> Vec<u8> {
    let mut b = Vec::new();
    b.extend_from_slice(&format.to_le_bytes());
    b.extend_from_slice(&channels.to_le_bytes());
    b.extend_from_slice(&rate.to_le_bytes());
    let block = u32::from(channels) * u32::from(bits) / 8;
    b.extend_from_slice(&(rate * block).to_le_bytes());
    b.extend_from_slice(&(block as u16).to_le_bytes());
    b.extend_from_slice(&bits.to_le_bytes());
    b
}

fn chunk(id: &[u8; 4], body: &[u8]) -> Vec<u8> {
    let mut c = Vec::new();
    c.extend_from_slice(id);
    c.extend_from_slice(&(body.len() as u32).to_le_bytes());
    c.extend_from_slice(body);
    if body.len() % 2 == 1 {
        c.push(0);
    }
    c
}

fn riff(chunks: &[Vec<u8>]) -> Vec<u8> {
    let body: Vec<u8> = chunks.iter().flatten().copied().collect();
    let mut out = Vec::new();
    out.extend_from_slice(b"RIFF");
    out.extend_from_slice(&((body.len() + 4) as u32).to_le_bytes());
    out.extend_from_slice(b"WAVE");
    out.extend_from_slice(&body);
    out
}

fn pcm_bytes(samples: &[i16]) -> Vec<u8> {
    samples.iter().flat_map(|s| s.to_le_bytes()).collect()
}

#[test]
fn mono_pcm16_decodes_samples() {
    let data = riff(&[
        chunk(b"fmt ", &fmt_body(1, 1, 44100, 16)),
        chunk(b"data", &pcm_bytes(&[0, 32767, -32768, -1, 256])),
    ]);
    let wav = parse_wav(&data).unwrap();
    assert_eq!(
        wav,
        WavPcm { channels: 1, sample_rate: 44100, samples: vec![0, 32767, -32768, -1, 256] }
    );
}

#[test]
fn stereo_keeps_interleaved_samples_and_rate() {
    let data = riff(&[
        chunk(b"fmt ", &fmt_body(1, 2, 22050, 16)),
        chunk(b"data", &pcm_bytes(&[100, -100, 200, -200])),
    ]);
    let wav = parse_wav(&data).unwrap();
    assert_eq!(wav.channels, 2);
    assert_eq!(wav.sample_rate, 22050);
    assert_eq!(wav.samples, vec![100, -100, 200, -200]);
}

#[test]
fn odd_chunk_is_padded_and_skipped() {
    let data = riff(&[
        chunk(b"LIST", &[1, 2, 3]),
        chunk(b"fmt ", &fmt_body(1, 1, 8000, 16)),
        chunk(b"data", &pcm_bytes(&[7, 8])),
    ]);
    let wav = parse_wav(&data).unwrap();
    assert_eq!(wav.sample_rate, 8000);
    assert_eq!(wav.samples, vec![7, 8]);
}

#[test]
fn trailing_odd_data_byte_is_ignored() {
    let mut body = pcm_bytes(&[5, 6]);
    body.push(9);
    let data = riff(&[chunk(b"fmt ", &fmt_body(1, 1, 8000, 16)), chunk(b"data", &body)]);
    assert_eq!(parse_wav(&data).unwrap().samples, vec![5, 6]);
}

#[test]
fn last_fmt_and_data_chunks_win() {
    let data = riff(&[
        chunk(b"fmt ", &fmt_body(1, 1, 8000, 16)),
        chunk(b"data", &pcm_bytes(&[1])),
        chunk(b"fmt ", &fmt_body(1, 1, 16000, 16)),
        chunk(b"data", &pcm_bytes(&[2, 3])),
    ]);
    let wav = parse_wav(&data).unwrap();
    assert_eq!(wav.sample_rate, 16000);
    assert_eq!(wav.samples, vec![2, 3]);
}

#[test]
fn sampler_rejects_non_16bit_wav() {
    let data = riff(&[
        chunk(b"fmt ", &fmt_body(1, 1, 44100, 8)),
        chunk(b"data", &[0, 1, 2, 3]),
    ]);
    let err = parse_wav(&data).unwrap_err();
    assert_eq!(err, WavError::Not16Bit);
    assert_eq!(err.message(), "WAV must be 16-bit");
}

#[test]
fn each_refusal_has_its_error() {
    assert_eq!(parse_wav(b"RIFX\0\0\0\0WAVE").unwrap_err(), WavError::NotRiff);
    assert_eq!(parse_wav(b"RIFF").unwrap_err(), WavError::NotRiff);
    assert_eq!(parse_wav(b"RIFF\0\0\0\0AVI ").unwrap_err(), WavError::NotRiff);

    let mut truncated = riff(&[chunk(b"fmt ", &fmt_body(1, 1, 8000, 16))]);
    truncated.extend_from_slice(b"data");
    truncated.extend_from_slice(&100u32.to_le_bytes());
    truncated.extend_from_slice(&[0, 0]);
    assert_eq!(parse_wav(&truncated).unwrap_err(), WavError::ChunkTruncated);

    let no_fmt = riff(&[chunk(b"data", &pcm_bytes(&[1]))]);
    assert_eq!(parse_wav(&no_fmt).unwrap_err(), WavError::MissingFmt);

    let no_data = riff(&[chunk(b"fmt ", &fmt_body(1, 1, 8000, 16))]);
    assert_eq!(parse_wav(&no_data).unwrap_err(), WavError::MissingData);

    let no_channels = riff(&[
        chunk(b"fmt ", &fmt_body(1, 0, 8000, 16)),
        chunk(b"data", &pcm_bytes(&[1])),
    ]);
    assert_eq!(parse_wav(&no_channels).unwrap_err(), WavError::NoChannels);

    let short = riff(&[chunk(b"fmt ", &[1, 0, 1, 0]), chunk(b"data", &pcm_bytes(&[1]))]);
    assert_eq!(parse_wav(&short).unwrap_err(), WavError::FmtTooShort);

    let float = riff(&[
        chunk(b"fmt ", &fmt_body(3, 1, 8000, 16)),
        chunk(b"data", &pcm_bytes(&[1])),
    ]);
    assert_eq!(parse_wav(&float).unwrap_err(), WavError::NotPcm);
}

#[test]
fn error_messages() {
    assert_eq!(WavError::NotRiff.message(), "not a RIFF/WAVE file");
    assert_eq!(WavError::ChunkOverflows.message(), "WAV chunk overflows");
    assert_eq!(WavError::ChunkTruncated.message(), "WAV chunk truncated");
    assert_eq!(WavError::MissingFmt.message(), "WAV missing fmt chunk");
    assert_eq!(WavError::MissingData.message(), "WAV missing data chunk");
    assert_eq!(WavError::NoChannels.message(), "WAV has no channels");
    assert_eq!(WavError::FmtTooShort.message(), "WAV fmt chunk too short");
    assert_eq!(WavError::NotPcm.message(), "WAV must be PCM");
}

#[test]
fn fmt_chunk_fields() {
    let body = fmt_body(1, 2, 48000, 16);
    let mut d = vec![9u8; 3];
    d.extend_from_slice(&body);
    assert_eq!(parse_fmt_chunk(&d, 3, 3 + body.len()), Ok((2, 48000)));
    assert_eq!(parse_fmt_chunk(&d, 3, 18), Err(WavError::FmtTooShort));
}

#[test]
fn pcm16_little_endian() {
    let d = [0x34, 0x12, 0xff, 0xff, 0x00, 0x80, 0x07];
    assert_eq!(pcm16_samples(&d, 0, 7), vec![0x1234, -1, -32768]);
    assert_eq!(pcm16_samples(&d, 1, 5), vec![-238, 255]);
    assert_eq!(pcm16_samples(&d, 2, 2), Vec::<i16>::new());
}

#[test]
fn note_stems_of_sample_files() {
    assert_eq!(wav_note_stem("C4.wav"), Some("C4"));
    assert_eq!(wav_note_stem("c#4.WAV"), Some("c#4"));
    assert_eq!(wav_note_stem("Bb3.Wav"), Some("Bb3"));
    assert_eq!(wav_note_stem("g10.wav"), Some("g10"));
    assert_eq!(wav_note_stem("readme.txt"), None);
    assert_eq!(wav_note_stem("Bb.wav"), None);
    assert_eq!(wav_note_stem("H4.wav"), None);
    assert_eq!(wav_note_stem(".wav"), None);
    assert_eq!(wav_note_stem("C4x.wav"), None);
    assert_eq!(wav_note_stem("wav"), None);
}

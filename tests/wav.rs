use audio_files::wav::{float_wav_spec, FLOAT_BITS};
use rodio::Source;
use std::io::Cursor;

#[test]
fn float_wav_spec_fields() {
    let spec = float_wav_spec(2, 44100);
    assert_eq!(spec.channels, 2);
    assert_eq!(spec.sample_rate, 44100);
    assert_eq!(spec.bits_per_sample, 32);
    assert_eq!(FLOAT_BITS, 32);
    assert_eq!(spec.sample_format, hound::SampleFormat::Float);
}

#[test]
fn write_and_read() {
    let expected = vec![0.0f32, -0.25f32, 0.25f32, 1.0f32];
    let mut bytes = Cursor::new(Vec::new());
    {
        let mut writer = hound::WavWriter::new(&mut bytes, float_wav_spec(2, 32)).unwrap();
        for sample in &expected {
            writer.write_sample(*sample).unwrap();
        }
        writer.finalize().unwrap();
    }
    let source = rodio::Decoder::new(Cursor::new(bytes.into_inner())).unwrap();
    assert_eq!(source.channels(), 2);
    assert_eq!(source.sample_rate(), 32);
    let actual: Vec<f32> = source.collect();
    assert_eq!(actual.len(), expected.len());
    for (a, e) in actual.iter().zip(expected.iter()) {
        assert!((a - e).abs() <= 0.0001);
    }
}

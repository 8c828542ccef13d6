use speaklab_server::asr::{
    asked_language, decode_to_pcm, join_segments, must_load, parse_wav, prepare, transcript, AsrFault, Pcm,
};
use speaklab_server::config::AsrConfig;
use speaklab_server::error::AppError;

/// A WAV file with the smallest header there is.
fn wav(sample_rate: u32, channels: u16, bits: u16, samples: &[i16]) -> Vec<u8> {
    let data_len = (samples.len() * 2) as u32;
    let mut v = Vec::new();
    v.extend_from_slice(b"RIFF");
    v.extend_from_slice(&(36 + data_len).to_le_bytes());
    v.extend_from_slice(b"WAVE");
    v.extend_from_slice(b"fmt ");
    v.extend_from_slice(&16u32.to_le_bytes());
    v.extend_from_slice(&1u16.to_le_bytes());
    v.extend_from_slice(&channels.to_le_bytes());
    v.extend_from_slice(&sample_rate.to_le_bytes());
    v.extend_from_slice(&(sample_rate * channels as u32 * (bits / 8) as u32).to_le_bytes());
    v.extend_from_slice(&(channels * (bits / 8)).to_le_bytes());
    v.extend_from_slice(&bits.to_le_bytes());
    v.extend_from_slice(b"data");
    v.extend_from_slice(&data_len.to_le_bytes());
    for s in samples {
        v.extend_from_slice(&s.to_le_bytes());
    }
    v
}

fn samples(pcm: &Pcm) -> Vec<f32> {
    pcm.numerators.iter().map(|&n| (n as f64 / pcm.scale as f64) as f32).collect()
}

fn why(e: AppError) -> String {
    match e {
        AppError::BadRequest(s) | AppError::NotImplemented(s) | AppError::Internal(s) => s,
        other => panic!("unexpected {:?}", other),
    }
}

fn with_model(path: Option<&str>) -> AsrConfig {
    AsrConfig {
        whisper: true,
        model_path: path.map(str::to_owned),
        language: "en".into(),
        max_concurrency: 1,
    }
}

#[test]
fn parses_wav_header() {
    let bytes = wav(16_000, 1, 16, &[0, 100, -100]);
    let (sr, ch, bits, data) = parse_wav(&bytes).unwrap();
    assert_eq!(sr, 16_000);
    assert_eq!(ch, 1);
    assert_eq!(bits, 16);
    assert_eq!(data.len(), 6);
}

#[test]
fn rejects_non_wav() {
    assert!(parse_wav(b"not a wav file at all").is_err());
}

#[test]
fn resamples_to_16k() {
    let samples = vec![0i16; 32_000];
    let bytes = wav(32_000, 1, 16, &samples);
    let pcm = decode_to_pcm(&bytes).unwrap();
    assert!(
        (pcm.numerators.len() as i64 - 16_000).abs() <= 2,
        "重采样后长度 {} 不对",
        pcm.numerators.len()
    );
}

#[test]
fn downmixes_stereo() {
    let stereo = vec![16_384i16, -16_384, 16_384, -16_384];
    let bytes = wav(16_000, 2, 16, &stereo);
    let pcm = samples(&decode_to_pcm(&bytes).unwrap());
    assert_eq!(pcm.len(), 2);
    assert!(pcm[0].abs() < 1e-4, "混音结果应接近 0，实际 {}", pcm[0]);
}

#[test]
fn rejects_non_16bit() {
    let bytes = wav(16_000, 1, 8, &[0, 1]);
    assert!(decode_to_pcm(&bytes).is_err());
}

#[test]
fn one_channel_at_the_target_rate_is_kept() {
    let bytes = wav(16_000, 1, 16, &[0, 100, -100, 32_767, -32_768]);
    let pcm = decode_to_pcm(&bytes).unwrap();
    assert_eq!(pcm.numerators, vec![0, 100, -100, 32_767, -32_768]);
    assert_eq!(pcm.scale, 32_768);
}

#[test]
fn stereo_is_averaged_and_a_short_frame_counts_in_full() {
    let bytes = wav(16_000, 2, 16, &[100, 300, 50]);
    let pcm = decode_to_pcm(&bytes).unwrap();
    assert_eq!(pcm.scale, 65_536);
    assert_eq!(pcm.numerators, vec![400, 50]);
}

#[test]
fn resampling_draws_a_straight_line() {
    // At half the target rate every other value lies half way.
    let bytes = wav(8_000, 1, 16, &[0, 100, 200]);
    let got = samples(&decode_to_pcm(&bytes).unwrap());
    let want: Vec<f32> = [0.0, 50.0, 100.0, 150.0, 200.0, 200.0].iter().map(|x| x / 32_768.0).collect();
    assert_eq!(got, want);
}

#[test]
fn what_is_wrong_with_a_file_is_said() {
    assert_eq!(why(parse_wav(b"RIFF").unwrap_err()), "不是合法的 WAV 文件");
    assert_eq!(
        why(decode_to_pcm(&wav(16_000, 1, 8, &[0])).unwrap_err()),
        "只支持 16 位 PCM WAV，收到 8 位"
    );
    assert_eq!(why(decode_to_pcm(&wav(0, 1, 16, &[0])).unwrap_err()), "WAV 头里的采样率为 0");
    assert_eq!(why(decode_to_pcm(&wav(16_000, 0, 16, &[0])).unwrap_err()), "声道数为 0");
    let only_header = &wav(16_000, 1, 16, &[])[..36];
    assert!(parse_wav(only_header).is_err());
}

#[test]
fn a_file_that_breaks_off_is_refused() {
    let cut = b"RIFF\0\0\0\0WAVEfmt \x10\0\0\0";
    assert_eq!(why(parse_wav(cut).unwrap_err()), "不是合法的 WAV 文件");
    let whole = wav(16_000, 1, 16, &[1, 2]);
    for n in 0..whole.len() {
        let refused = parse_wav(&whole[..n]);
        match refused {
            Err(AppError::BadRequest(_)) => assert!(n < 44),
            Err(other) => panic!("{:?}", other),
            Ok((_, _, _, data)) => assert_eq!(data.len(), n - 44),
        }
    }
    // A second format chunk that breaks off spoils the file as well.
    let mut twice = whole.clone();
    twice.extend_from_slice(b"fmt \x10\0\0\0\x01\0");
    assert_eq!(why(decode_to_pcm(&twice).unwrap_err()), "不是合法的 WAV 文件");
}

#[test]
fn a_recording_is_readied_with_its_model() {
    let bytes = wav(16_000, 1, 16, &[7]);
    let job = prepare(&with_model(Some("m.bin")), &bytes, "zh").ok().unwrap();
    assert_eq!(job.model_path, "m.bin");
    assert_eq!(job.language, "zh");
    assert_eq!(job.pcm.numerators, vec![7]);
    let refused = prepare(&with_model(None), &bytes, "zh").err().unwrap();
    assert_eq!(why(refused), "whisper 模型（未设置 SPEAKLAB_ASR_MODEL）");
    let refused = prepare(&with_model(Some("m.bin")), b"nonsense", "zh").err().unwrap();
    assert_eq!(why(refused), "不是合法的 WAV 文件");
}

#[test]
fn a_model_is_loaded_once() {
    assert_eq!(must_load(true, "m.bin", false).unwrap(), false);
    assert_eq!(must_load(false, "m.bin", true).unwrap(), true);
    assert_eq!(why(must_load(false, "m.bin", false).unwrap_err()), "whisper 模型文件（找不到 m.bin）");
}

#[test]
fn auto_asks_for_no_language() {
    assert_eq!(asked_language("auto"), None);
    assert_eq!(asked_language("ja"), Some("ja"));
}

#[test]
fn segments_are_joined_with_one_space() {
    let parts = vec![" Hello,".to_owned(), "  world. ".to_owned(), "\u{3000}".to_owned(), "Bye".to_owned()];
    assert_eq!(join_segments(&parts), "Hello, world.  Bye");
    assert_eq!(join_segments(&Vec::new()), "");
    let t = transcript(&parts, "en".into(), 16_000);
    assert_eq!(t.text, "Hello, world.  Bye");
    assert_eq!(t.language, "en");
    assert_eq!(t.samples, 16_000);
}

#[test]
fn faults_of_the_recogniser_are_internal() {
    assert_eq!(why(AsrFault::LockPoisoned.error()), "模型锁被污染");
    assert_eq!(why(AsrFault::NotLoaded("e".into()).error()), "加载模型失败：e");
    assert_eq!(why(AsrFault::NoState("e".into()).error()), "创建识别状态失败：e");
    assert_eq!(why(AsrFault::NotRecognised("e".into()).error()), "识别失败：e");
    assert_eq!(why(AsrFault::NoSegments("e".into()).error()), "读取分段失败：e");
    assert_eq!(why(AsrFault::NoSegmentText("e".into()).error()), "读取分段文本失败：e");
    assert_eq!(why(AsrFault::Crashed("e".into()).error()), "识别任务崩溃：e");
    assert_eq!(why(AsrFault::GateClosed("e".into()).error()), "并发闸门已关闭：e");
}

use izwi_core::api::error::ApiError;
use izwi_core::api::lfm2::{
    asr_answer, chat_answer, default_voice, default_voices, failure_of, sample_rate_of,
    status_answer, text_or, tts_answer, DaemonReply,
};
use izwi_core::error::Error;
use izwi_core::inference::asr_bridge::{
    shutdown_step, startup_step, AsrRequest, AsrResponse, ShutdownAction, StartupAction,
};
use izwi_core::inference::framing::{frame, length_prefix, payload_length};
use izwi_core::inference::python_bridge::{AudioError, PythonBridge, PythonTTSResponse};
use izwi_core::tokenizer::format_tts_prompt;

fn reply() -> DaemonReply {
    DaemonReply {
        error: None,
        status: None,
        device: None,
        cached_models: None,
        voices: None,
        audio_base64: None,
        sample_rate: None,
        format: None,
        transcription: None,
        text: None,
    }
}

fn response() -> PythonTTSResponse {
    PythonTTSResponse {
        audio_base64: None,
        sample_rate: None,
        format: None,
        error: None,
        status: None,
    }
}

#[test]
fn length_prefix_is_big_endian() {
    assert_eq!(length_prefix(0), [0, 0, 0, 0]);
    assert_eq!(length_prefix(1), [0, 0, 0, 1]);
    assert_eq!(length_prefix(0x0102_0304), [1, 2, 3, 4]);
    assert_eq!(length_prefix(0xffff_ffff), [255, 255, 255, 255]);
    assert_eq!(length_prefix(258), 258u32.to_be_bytes());
}

#[test]
fn frame_puts_the_length_in_front() {
    assert_eq!(frame(&[]), vec![0, 0, 0, 0]);
    assert_eq!(frame(b"{}"), vec![0, 0, 0, 2, b'{', b'}']);
    let payload = vec![7u8; 300];
    let message = frame(&payload);
    assert_eq!(&message[..4], &[0, 0, 1, 44]);
    assert_eq!(&message[4..], &payload[..]);
}

#[test]
fn payload_length_reads_what_length_prefix_wrote() {
    assert_eq!(payload_length(&[0, 0, 0, 0]), 0);
    assert_eq!(payload_length(&[1, 2, 3, 4]), 0x0102_0304);
    assert_eq!(payload_length(&[255, 255, 255, 255]), u32::MAX);
    for n in [0usize, 5, 255, 256, 65_536, 99_999_999] {
        assert_eq!(payload_length(&length_prefix(n)) as usize, n);
    }
}

#[test]
fn audio_of_decodes_base64() {
    let ok = PythonTTSResponse {
        audio_base64: Some("aGVsbG8=".to_string()),
        sample_rate: Some(16000),
        ..response()
    };
    match PythonBridge::audio_of(&ok) {
        Ok((bytes, rate)) => {
            assert_eq!(bytes, b"hello".to_vec());
            assert_eq!(rate, 16000);
        }
        Err(e) => panic!("unexpected error {:?}", e),
    }
    let no_rate = PythonTTSResponse {
        audio_base64: Some("".to_string()),
        ..response()
    };
    match PythonBridge::audio_of(&no_rate) {
        Ok((bytes, rate)) => {
            assert!(bytes.is_empty());
            assert_eq!(rate, 24000);
        }
        Err(e) => panic!("unexpected error {:?}", e),
    }
}

#[test]
fn audio_of_reports_each_error() {
    let failed = PythonTTSResponse {
        audio_base64: Some("aGVsbG8=".to_string()),
        error: Some("no model".to_string()),
        ..response()
    };
    assert!(matches!(PythonBridge::audio_of(&failed), Err(AudioError::Remote(m)) if m == "no model"));
    assert!(matches!(PythonBridge::audio_of(&response()), Err(AudioError::NoAudio)));
    let garbled = PythonTTSResponse {
        audio_base64: Some("not base64!".to_string()),
        ..response()
    };
    assert!(matches!(PythonBridge::audio_of(&garbled), Err(AudioError::Undecodable)));
    assert!(matches!(PythonBridge::payload_of(None, Some(1)), Err(AudioError::Undecodable)));
    assert!(matches!(PythonBridge::payload_of(Some(vec![1, 2]), None), Ok((b, 24000)) if b == vec![1, 2]));
}

#[test]
fn dependencies_need_status_ok() {
    let ok = PythonTTSResponse {
        status: Some("ok".to_string()),
        ..response()
    };
    let bad = PythonTTSResponse {
        status: Some("missing".to_string()),
        error: Some("x".to_string()),
        ..response()
    };
    assert!(PythonBridge::dependencies_available(Some(&ok)));
    assert!(!PythonBridge::dependencies_available(Some(&bad)));
    assert!(!PythonBridge::dependencies_available(Some(&response())));
    assert!(!PythonBridge::dependencies_available(None));
}

#[test]
fn generate_request_carries_its_fields() {
    let request = PythonBridge::generate_request(
        "/m".to_string(),
        "hi".to_string(),
        Some("anna".to_string()),
        None,
        Some("slow".to_string()),
    );
    assert_eq!(request.command, "generate");
    assert_eq!(request.model_path, "/m");
    assert_eq!(request.text, "hi");
    assert_eq!(request.speaker.as_deref(), Some("anna"));
    assert_eq!(request.language, None);
    assert_eq!(request.instruct.as_deref(), Some("slow"));
    let bridge = PythonBridge::at("scripts/tts_inference.py".to_string());
    assert_eq!(bridge.script_path(), "scripts/tts_inference.py");
    assert_eq!(bridge.python_cmd(), "python3");
}

#[test]
fn asr_requests_and_checked_responses() {
    let empty = AsrRequest::default();
    assert_eq!(empty.command, "");
    assert!(empty.audio_base64.is_none() && empty.model_id.is_none() && empty.language.is_none());
    let status = AsrRequest::command("status".to_string());
    assert_eq!(status.command, "status");
    assert!(status.audio_base64.is_none());
    let transcribe = AsrRequest::transcribe("QUJD".to_string(), None, Some("en".to_string()));
    assert_eq!(transcribe.command, "transcribe");
    assert_eq!(transcribe.audio_base64.as_deref(), Some("QUJD"));
    assert_eq!(transcribe.language.as_deref(), Some("en"));

    let good = AsrResponse {
        transcription: Some("hello".to_string()),
        language: None,
        error: None,
        status: None,
        device: None,
        cached_models: None,
    };
    assert_eq!(good.clone().checked().unwrap().transcription.as_deref(), Some("hello"));
    let bad = AsrResponse {
        error: Some("boom".to_string()),
        ..good
    };
    assert_eq!(bad.checked().unwrap_err(), "boom");
}

#[test]
fn daemon_start_and_stop_decisions() {
    assert_eq!(startup_step(1, true), StartupAction::Ready);
    assert_eq!(startup_step(100, true), StartupAction::Ready);
    assert_eq!(startup_step(1, false), StartupAction::Wait);
    assert_eq!(startup_step(99, false), StartupAction::Wait);
    assert_eq!(startup_step(100, false), StartupAction::GiveUp);
    assert_eq!(shutdown_step(1, true), ShutdownAction::Stopped);
    assert_eq!(shutdown_step(49, false), ShutdownAction::Wait);
    assert_eq!(shutdown_step(50, false), ShutdownAction::Kill);
}

#[test]
fn unreachable_daemon_answers_503() {
    let failure = tts_answer(Err("no socket".to_string())).unwrap_err();
    assert_eq!(failure.status, 503);
    assert_eq!(failure.body.error.message, "no socket");
    assert_eq!(asr_answer(Err("x".to_string())).unwrap_err().status, 503);
    assert_eq!(chat_answer(Err("x".to_string())).unwrap_err().status, 503);
    assert_eq!(status_answer(Err("x".to_string())).unwrap_err().status, 503);
    assert!(failure_of(&Ok(reply())).is_none());
}

#[test]
fn daemon_error_answers_500() {
    let failed = DaemonReply {
        error: Some("bad voice".to_string()),
        audio_base64: Some("QQ==".to_string()),
        ..reply()
    };
    let failure = tts_answer(Ok(failed.clone())).unwrap_err();
    assert_eq!(failure.status, 500);
    assert_eq!(failure.body.error.message, "bad voice");
    assert_eq!(asr_answer(Ok(failed.clone())).unwrap_err().status, 500);
    assert_eq!(chat_answer(Ok(failed.clone())).unwrap_err().status, 500);
    assert_eq!(status_answer(Ok(failed)).unwrap_err().body.error.message, "bad voice");
}

#[test]
fn answers_fill_in_defaults() {
    let tts = tts_answer(Ok(reply())).unwrap();
    assert_eq!(tts.audio_base64, "");
    assert_eq!(tts.sample_rate, 24000);
    assert_eq!(tts.format, "wav");
    assert_eq!(asr_answer(Ok(reply())).unwrap().transcription, "");
    let chat = chat_answer(Ok(reply())).unwrap();
    assert_eq!(chat.text, "");
    assert_eq!(chat.audio_base64, None);
    assert_eq!(chat.sample_rate, 24000);
    assert_eq!(chat.format, "wav");
    let status = status_answer(Ok(reply())).unwrap();
    assert_eq!(status.status, "unknown");
    assert_eq!(status.device, None);
    assert!(status.cached_models.is_empty());
    assert_eq!(status.voices, vec!["us_male", "us_female", "uk_male", "uk_female"]);
    assert_eq!(default_voices(), vec!["us_male", "us_female", "uk_male", "uk_female"]);
    assert_eq!(default_voice(), "us_female");
}

#[test]
fn answers_carry_what_the_daemon_gave() {
    let full = DaemonReply {
        status: Some("ready".to_string()),
        device: Some("mps".to_string()),
        cached_models: Some(vec!["a".to_string()]),
        voices: Some(vec!["v".to_string()]),
        audio_base64: Some("QQ==".to_string()),
        sample_rate: Some(48000),
        format: Some("flac".to_string()),
        transcription: Some("words".to_string()),
        text: Some("reply".to_string()),
        ..reply()
    };
    let tts = tts_answer(Ok(full.clone())).unwrap();
    assert_eq!((tts.audio_base64.as_str(), tts.sample_rate, tts.format.as_str()), ("QQ==", 48000, "flac"));
    assert_eq!(asr_answer(Ok(full.clone())).unwrap().transcription, "words");
    let chat = chat_answer(Ok(full.clone())).unwrap();
    assert_eq!(chat.text, "reply");
    assert_eq!(chat.audio_base64.as_deref(), Some("QQ=="));
    let status = status_answer(Ok(full)).unwrap();
    assert_eq!(status.status, "ready");
    assert_eq!(status.device.as_deref(), Some("mps"));
    assert_eq!(status.cached_models, vec!["a"]);
    assert_eq!(status.voices, vec!["v"]);
    assert_eq!(sample_rate_of(Some(0x1_0000_0000 + 7)), 7);
    assert_eq!(sample_rate_of(None), 24000);
    assert_eq!(text_or(None, "x"), "x");
    assert_eq!(text_or(Some("y".to_string()), "x"), "y");
}

#[test]
fn error_messages_and_statuses() {
    let missing = Error::ModelNotFound("qwen".to_string());
    assert_eq!(missing.message(), "Model not found: qwen");
    assert_eq!(missing.prefix(), "Model not found: ");
    assert_eq!(missing.cause(), "qwen");
    assert_eq!(Error::ModelLoadError("x".to_string()).message(), "Model loading failed: x");
    assert_eq!(Error::DownloadError("x".to_string()).message(), "Download failed: x");
    assert_eq!(Error::TokenizationError("x".to_string()).message(), "Tokenization error: x");
    assert_eq!(Error::InferenceError("x".to_string()).message(), "Inference error: x");
    assert_eq!(Error::AudioError("x".to_string()).message(), "Audio encoding error: x");
    assert_eq!(Error::ConfigError("x".to_string()).message(), "Configuration error: x");
    assert_eq!(Error::IoError("x".to_string()).message(), "IO error: x");
    assert_eq!(Error::SerializationError("x".to_string()).message(), "Serialization error: x");
    assert_eq!(Error::HttpError("x".to_string()).message(), "HTTP error: x");
    assert_eq!(Error::HfHubError("x".to_string()).message(), "HuggingFace Hub error: x");
    assert_eq!(Error::SafetensorsError("x".to_string()).message(), "Safetensors error: x");
    assert_eq!(Error::MlxError("x".to_string()).message(), "MLX error: x");
    assert_eq!(Error::UnsupportedPlatform("x".to_string()).message(), "Unsupported platform: x");

    let api = ApiError::from_error(&missing);
    assert_eq!((api.status, api.message.as_str()), (404, "Model not found: qwen"));
    assert_eq!(ApiError::from_error(&Error::ConfigError("c".to_string())).status, 400);
    assert_eq!(ApiError::from_error(&Error::IoError("c".to_string())).status, 500);
    assert_eq!(ApiError::bad_request("b".to_string()).status, 400);
    assert_eq!(ApiError::not_found("b".to_string()).status, 404);
    assert_eq!(ApiError::internal("b".to_string()).message, "b");
}

#[test]
fn tts_prompt_names_the_speaker() {
    assert_eq!(format_tts_prompt("Hello", Some("anna")), "[speaker:anna] Hello");
    assert_eq!(format_tts_prompt("Hello", None), "[speaker:default] Hello");
    assert_eq!(format_tts_prompt("", None), "[speaker:default] ");
}

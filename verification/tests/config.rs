use whatdidisay::config::{
    device_connected_after, event_command, is_config_changed, should_start_worker, str_eq,
    AsrPaths, Config, LifecycleCommand,
};

#[test]
fn defaults_when_host_reports_nothing() {
    let c = Config::from_host(String::new(), None);
    assert_eq!(c.load_timing, "device_connect");
    assert_eq!(c.sample_rate, 48000);
    assert_eq!(c.channels, 2);
    assert!(!c.starts_on_launch());
}

#[test]
fn audio_state_overrides_defaults() {
    let c = Config::from_host(
        "micyou_start".to_string(),
        Some(b"{\"sampleRate\":16000,\"channels\":1}".as_slice()),
    );
    assert_eq!(c.load_timing, "micyou_start");
    assert_eq!(c.sample_rate, 16000);
    assert_eq!(c.channels, 1);
    assert!(c.starts_on_launch());
}

#[test]
fn audio_state_partial() {
    let c = Config::from_host(String::new(), Some(b"{\"channels\":6}".as_slice()));
    assert_eq!(c.sample_rate, 48000);
    assert_eq!(c.channels, 6);
}

#[test]
fn device_events() {
    let dc = Config::from_host(String::new(), None);
    let ms = Config::from_host("micyou_start".to_string(), None);
    let other = Config::from_host("later".to_string(), None);
    assert_eq!(event_command(Some(&dc), "device_connected"), LifecycleCommand::Start);
    assert_eq!(event_command(Some(&dc), "device_disconnected"), LifecycleCommand::Stop);
    // MicYou Start mode: models stay loaded, and come back on a connection
    assert_eq!(event_command(Some(&ms), "device_connected"), LifecycleCommand::Start);
    assert_eq!(event_command(Some(&ms), "device_disconnected"), LifecycleCommand::Ignore);
    assert_eq!(event_command(Some(&other), "device_connected"), LifecycleCommand::Ignore);
    assert_eq!(event_command(Some(&other), "device_disconnected"), LifecycleCommand::Stop);
    assert_eq!(event_command(None, "device_connected"), LifecycleCommand::Ignore);
    assert_eq!(event_command(None, "device_disconnected"), LifecycleCommand::Stop);
    assert_eq!(event_command(Some(&dc), "other"), LifecycleCommand::Ignore);
}

#[test]
fn device_connection_tracking() {
    assert!(device_connected_after(false, "device_connected"));
    assert!(!device_connected_after(true, "device_disconnected"));
    assert!(device_connected_after(true, "other"));
    assert!(!device_connected_after(false, "other"));
}

#[test]
fn load_timing_change_to_launch_restarts_once() {
    let mut c = Config::from_host(String::new(), None);
    assert_eq!(c.apply_load_timing("micyou_start", false), LifecycleCommand::Restart);
    assert_eq!(c.load_timing, "micyou_start");
    assert_eq!(c.apply_load_timing("micyou_start", false), LifecycleCommand::Ignore);
    assert_eq!(c.apply_load_timing("", false), LifecycleCommand::Ignore);
    assert_eq!(c.load_timing, "micyou_start");
}

#[test]
fn load_timing_change_to_connect_waits_for_device() {
    let mut c = Config::from_host("micyou_start".to_string(), None);
    assert_eq!(c.apply_load_timing("device_connect", false), LifecycleCommand::Stop);
    assert_eq!(c.load_timing, "device_connect");
    let mut c = Config::from_host("micyou_start".to_string(), None);
    assert_eq!(c.apply_load_timing("device_connect", true), LifecycleCommand::Restart);
}

#[test]
fn load_timing_change_to_other_value_restarts() {
    let mut c = Config::from_host(String::new(), None);
    assert_eq!(c.apply_load_timing("unknown", true), LifecycleCommand::Restart);
    assert_eq!(c.load_timing, "unknown");
    let mut c = Config::from_host(String::new(), None);
    assert_eq!(c.apply_load_timing("unknown", false), LifecycleCommand::Restart);
    assert_eq!(c.apply_load_timing("unknown", false), LifecycleCommand::Ignore);
}

#[test]
fn config_changed_topic() {
    assert!(is_config_changed("config:changed"));
    assert!(!is_config_changed("config:changed "));
    assert!(!is_config_changed(""));
}

#[test]
fn start_worker_decision() {
    assert!(!should_start_worker(false, false, false));
    assert!(should_start_worker(true, false, false));
    assert!(should_start_worker(true, true, false));
    assert!(should_start_worker(true, false, true));
    assert!(!should_start_worker(true, true, true));
}

#[test]
fn string_equality() {
    assert!(str_eq("abc", "abc"));
    assert!(!str_eq("abc", "abd"));
    assert!(!str_eq("ab", "abc"));
    assert!(str_eq("", ""));
}

#[test]
fn model_paths() {
    let p = AsrPaths::under("/plug");
    assert_eq!(p.vad_model, "/plug/silero_vad.onnx");
    assert_eq!(p.conv_frontend, "/plug/sherpa-onnx-qwen3-asr-0.6B-int8/conv_frontend.onnx");
    assert_eq!(p.encoder, "/plug/sherpa-onnx-qwen3-asr-0.6B-int8/encoder.int8.onnx");
    assert_eq!(p.decoder, "/plug/sherpa-onnx-qwen3-asr-0.6B-int8/decoder.int8.onnx");
    assert_eq!(p.tokenizer, "/plug/sherpa-onnx-qwen3-asr-0.6B-int8/tokenizer");
    assert_eq!(p.records_dir, "/plug/records");
}

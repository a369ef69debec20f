use voice2text::whisper::{
    choose_script, early_transcript, script_candidates, interpret_reply, read_reply, short_recording_transcript,
    transcription_request, warmup_request, ReplyFields, TARGET_SAMPLE_RATE,
};

#[test]
fn request_escapes_the_path() {
    assert_eq!(
        transcription_request("/tmp/voice2text_temp.wav"),
        "{\"lang\":\"zh\",\"wav\":\"/tmp/voice2text_temp.wav\"}"
    );
    assert_eq!(
        transcription_request("C:\\Temp\\\"a\"\n\u{1}语.wav"),
        "{\"lang\":\"zh\",\"wav\":\"C:\\\\Temp\\\\\\\"a\\\"\\n\\u0001语.wav\"}"
    );
}

#[test]
fn warmup_request_names_warmup() {
    assert_eq!(warmup_request(), "{\"wav\":\"WARMUP\"}");
}

#[test]
fn early_and_short_transcripts() {
    assert_eq!(TARGET_SAMPLE_RATE, 16000);
    assert_eq!(early_transcript(0), Some(String::new()));
    assert_eq!(early_transcript(1), None);
    assert_eq!(short_recording_transcript(4799), Some("(录音时间太短)".to_string()));
    assert_eq!(short_recording_transcript(4800), None);
}

#[test]
fn reply_errors() {
    assert_eq!(read_reply("not json"), Err("invalid json".to_string()));
    assert_eq!(read_reply("{\"error\": \"model missing\"}\n"), Err("model missing".to_string()));
}

#[test]
fn reply_texts() {
    assert_eq!(read_reply("{\"text\": \"\"}"), Ok("(未识别到语音)".to_string()));
    assert_eq!(read_reply("[1, 2]"), Ok("(未识别到语音)".to_string()));
    assert_eq!(read_reply("{\"error\": 5, \"text\": \"ok\"}"), Ok("ok".to_string()));
    assert_eq!(read_reply("{\"text\": \" （你好）\\n 世界 \"}\n"), Ok("你好世界".to_string()));
}

#[test]
fn interpret_reply_fields() {
    assert_eq!(interpret_reply(None), Err("invalid json".to_string()));
    let f = ReplyFields { error: Some("e".to_string()), text: Some("t".to_string()) };
    assert_eq!(interpret_reply(Some(f)), Err("e".to_string()));
    let f = ReplyFields { error: None, text: None };
    assert_eq!(interpret_reply(Some(f)), Ok("(未识别到语音)".to_string()));
}

#[test]
fn script_is_looked_for_in_order() {
    let c = script_candidates("whisper_server.py", "/opt/app/whisper_server.py".to_string());
    assert_eq!(
        c,
        vec![
            "whisper_server.py".to_string(),
            "src-tauri/whisper_server.py".to_string(),
            "/opt/app/whisper_server.py".to_string()
        ]
    );
    let places: Vec<(String, bool)> = vec![
        (c[0].clone(), false),
        (c[1].clone(), true),
        (c[2].clone(), true),
    ];
    assert_eq!(choose_script("whisper_server.py", &places), "src-tauri/whisper_server.py");
    let none: Vec<(String, bool)> = c.iter().map(|p| (p.clone(), false)).collect();
    assert_eq!(choose_script("whisper_server.py", &none), "whisper_server.py");
}

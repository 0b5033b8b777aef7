use std::collections::HashMap;
use vlog_recorder::naming::{contains_str, file_name, output_path, Extension, SessionKey};
use vlog_recorder::registry::{RecorderError, Registry};

/// A host that keeps its files in memory and carries out what the registry
/// decides.
struct Host {
    registry: Registry,
    disk: HashMap<String, Vec<u8>>,
}

impl Host {
    fn new() -> Host {
        Host { registry: Registry::new(), disk: HashMap::new() }
    }

    fn init(&mut self, dir: &str, mime: Option<&str>, key: SessionKey, suffix: Option<&str>) -> String {
        let path = output_path(dir, mime, &key, suffix);
        self.disk.remove(&path);
        let registered = self.registry.init_recording(dir, mime, key, suffix);
        assert_eq!(registered, path);
        registered
    }

    fn append(&mut self, key: &SessionKey, data: &[u8]) -> Result<(), RecorderError> {
        let path = self.registry.append_target(key)?;
        self.disk.entry(path).or_default().extend_from_slice(data);
        Ok(())
    }

    fn finalize(&mut self, key: &SessionKey) -> Result<String, RecorderError> {
        self.registry.finalize_recording(key)
    }

    fn read(&self, key: &SessionKey) -> Result<Vec<u8>, RecorderError> {
        let path = self.registry.read_target(key)?;
        match self.disk.get(&path) {
            Some(bytes) => Ok(bytes.clone()),
            None => Err(RecorderError::NotFound(key.clone())),
        }
    }
}

fn named(s: &str) -> SessionKey {
    SessionKey::Named(s.to_string())
}

#[test]
fn example_session_writes_both_chunks() {
    let mut host = Host::new();
    let cam = named("cam");
    let path = host.init("/tmp", Some("video/webm"), cam.clone(), Some("01"));
    assert_eq!(path, "/tmp/vlog_recording_cam_01.webm");
    host.append(&cam, &[0x1a, 0x45]).unwrap();
    host.append(&cam, &[0xdf, 0xa3]).unwrap();
    assert_eq!(host.finalize(&cam).unwrap(), path);
    assert_eq!(host.disk.get(&path).unwrap(), &vec![0x1a, 0x45, 0xdf, 0xa3]);
}

#[test]
fn append_before_init_is_not_initialized() {
    let mut host = Host::new();
    for key in [SessionKey::Default, named("cam"), named("audio"), named("")] {
        let r = host.append(&key, b"x");
        assert!(matches!(r, Err(RecorderError::NotInitialized(_))));
    }
    assert!(host.disk.is_empty());
}

#[test]
fn append_after_finalize_is_not_initialized() {
    let mut host = Host::new();
    host.init("/tmp", None, SessionKey::Default, None);
    host.finalize(&SessionKey::Default).unwrap();
    let r = host.append(&SessionKey::Default, b"late");
    assert!(matches!(r, Err(RecorderError::NotInitialized(SessionKey::Default))));
}

#[test]
fn appends_concatenate_in_call_order() {
    let mut host = Host::new();
    let key = named("screen");
    let path = host.init("/data", Some("video/mp4"), key.clone(), None);
    let chunks: [&[u8]; 4] = [b"one", b"", b"two", b"three"];
    for c in chunks {
        host.append(&key, c).unwrap();
    }
    assert_eq!(host.disk.get(&path).unwrap(), b"onetwothree");
}

#[test]
fn init_truncates_previous_contents() {
    let mut host = Host::new();
    let key = named("k");
    let p1 = host.init("/tmp", None, key.clone(), None);
    host.append(&key, b"A").unwrap();
    host.finalize(&key).unwrap();
    let p2 = host.init("/tmp", None, key.clone(), None);
    host.append(&key, b"B").unwrap();
    host.finalize(&key).unwrap();
    assert_eq!(p1, p2);
    assert_eq!(host.disk.get(&p2).unwrap(), b"B");
}

#[test]
fn reinit_while_open_moves_to_new_path() {
    let mut host = Host::new();
    let key = named("cam");
    let first = host.init("/tmp", Some("video/webm"), key.clone(), Some("a"));
    host.append(&key, b"1").unwrap();
    let second = host.init("/tmp", Some("video/webm"), key.clone(), Some("b"));
    host.append(&key, b"2").unwrap();
    assert_ne!(first, second);
    assert_eq!(host.disk.get(&first).unwrap(), b"1");
    assert_eq!(host.disk.get(&second).unwrap(), b"2");
    assert_eq!(host.finalize(&key).unwrap(), second);
}

#[test]
fn finalize_without_session_fails() {
    let mut host = Host::new();
    let r = host.finalize(&named("nothing"));
    assert!(matches!(r, Err(RecorderError::NoActiveSession(_))));
}

#[test]
fn finalize_twice_fails_second_time() {
    let mut host = Host::new();
    let path = host.init("/tmp", None, SessionKey::Default, None);
    assert_eq!(host.finalize(&SessionKey::Default).unwrap(), path);
    let r = host.finalize(&SessionKey::Default);
    assert!(matches!(r, Err(RecorderError::NoActiveSession(SessionKey::Default))));
}

#[test]
fn webm_mime_gives_webm() {
    let p = output_path("/tmp", Some("video/webm;codecs=vp9"), &SessionKey::Default, None);
    assert_eq!(p, "/tmp/vlog_recording.webm");
    let a = output_path("/tmp", Some("audio/webm"), &named("audio"), None);
    assert_eq!(a, "/tmp/vlog_recording_audio.webm");
}

#[test]
fn mp4_or_absent_mime_gives_mp4() {
    assert_eq!(output_path("/tmp", Some("video/mp4"), &named("cam"), None), "/tmp/vlog_recording_cam.mp4");
    assert_eq!(output_path("/tmp", None, &named("cam"), None), "/tmp/vlog_recording_cam.mp4");
    assert_eq!(output_path("/tmp", None, &SessionKey::Default, None), "/tmp/vlog_recording.mp4");
}

#[test]
fn audio_key_gives_m4a_without_webm() {
    assert_eq!(output_path("/tmp", Some("audio/mp4"), &named("audio"), None), "/tmp/vlog_recording_audio.m4a");
    assert_eq!(output_path("/tmp", None, &named("audio"), None), "/tmp/vlog_recording_audio.m4a");
    assert_eq!(Extension::for_session(Some("audio/ogg"), &named("audio")), Extension::M4a);
    assert_eq!(Extension::for_session(Some("audio/ogg"), &named("Audio")), Extension::Mp4);
}

#[test]
fn extension_text() {
    assert_eq!(Extension::Webm.as_str(), "webm");
    assert_eq!(Extension::Mp4.as_str(), "mp4");
    assert_eq!(Extension::M4a.as_str(), "m4a");
}

#[test]
fn file_names_follow_convention() {
    assert_eq!(file_name(None, &SessionKey::Default, None), "vlog_recording.mp4");
    assert_eq!(file_name(None, &SessionKey::Default, Some("")), "vlog_recording.mp4");
    assert_eq!(file_name(None, &SessionKey::Default, Some("x")), "vlog_recording_x.mp4");
    assert_eq!(file_name(Some("video/webm"), &named("cam"), Some("2024")), "vlog_recording_cam_2024.webm");
    assert_eq!(file_name(None, &named("default"), None), "vlog_recording_default.mp4");
}

#[test]
fn paths_join_with_one_separator() {
    assert_eq!(output_path("/tmp/", None, &SessionKey::Default, None), "/tmp/vlog_recording.mp4");
    assert_eq!(output_path("/", None, &SessionKey::Default, None), "/vlog_recording.mp4");
    assert_eq!(output_path("", None, &SessionKey::Default, None), "vlog_recording.mp4");
    assert_eq!(output_path("/home/me/Desktop", None, &named("cam"), Some("1")), "/home/me/Desktop/vlog_recording_cam_1.mp4");
}

#[test]
fn distinct_keys_are_independent() {
    let mut host = Host::new();
    let cam = named("cam");
    let mic = named("audio");
    let pc = host.init("/tmp", Some("video/webm"), cam.clone(), None);
    let pm = host.init("/tmp", Some("audio/mp4"), mic.clone(), None);
    assert_ne!(pc, pm);
    host.append(&cam, b"video").unwrap();
    host.append(&mic, b"sound").unwrap();
    host.append(&cam, b"more").unwrap();
    assert_eq!(host.finalize(&cam).unwrap(), pc);
    assert_eq!(host.disk.get(&pc).unwrap(), b"videomore");
    assert_eq!(host.disk.get(&pm).unwrap(), b"sound");
    host.append(&mic, b"!").unwrap();
    assert_eq!(host.disk.get(&pm).unwrap(), b"sound!");
    assert_eq!(host.registry.append_target(&mic).unwrap(), pm);
}

#[test]
fn default_and_named_default_are_distinct_sessions() {
    let mut host = Host::new();
    let named_default = SessionKey::from_id(Some("default".to_string()));
    let plain = SessionKey::from_id(None);
    let a = host.init("/tmp", None, plain.clone(), None);
    let b = host.init("/tmp", None, named_default.clone(), None);
    assert_ne!(a, b);
    host.finalize(&plain).unwrap();
    assert!(host.append(&named_default, b"z").is_ok());
}

#[test]
fn read_back_after_finalize_returns_written_bytes() {
    let mut host = Host::new();
    let key = named("clip");
    host.init("/tmp", None, key.clone(), None);
    host.append(&key, b"abc").unwrap();
    host.append(&key, b"def").unwrap();
    let before = host.read(&key).unwrap();
    host.finalize(&key).unwrap();
    assert_eq!(host.read(&key).unwrap(), before);
    assert_eq!(before, b"abcdef");
}

#[test]
fn read_back_of_unknown_key_is_not_found() {
    let host = Host::new();
    assert!(matches!(host.read(&named("none")), Err(RecorderError::NotFound(_))));
    assert!(matches!(host.registry.read_target(&SessionKey::Default), Err(RecorderError::NotFound(SessionKey::Default))));
}

#[test]
fn read_back_before_any_append_is_not_found() {
    let mut host = Host::new();
    host.init("/tmp", None, SessionKey::Default, None);
    assert_eq!(host.registry.read_target(&SessionKey::Default).unwrap(), "/tmp/vlog_recording.mp4");
    assert!(matches!(host.read(&SessionKey::Default), Err(RecorderError::NotFound(_))));
}

#[test]
fn substring_search() {
    assert!(contains_str("video/webm", "webm"));
    assert!(contains_str("webm", "webm"));
    assert!(contains_str("x", ""));
    assert!(contains_str("", ""));
    assert!(!contains_str("web", "webm"));
    assert!(!contains_str("video/mp4", "webm"));
    assert!(!contains_str("wEbm", "webm"));
    assert!(contains_str("ééwebmé", "webm"));
}

#[test]
fn key_helpers() {
    assert!(named("a").same_as(&named("a")));
    assert!(!named("a").same_as(&named("b")));
    assert!(!named("default").same_as(&SessionKey::Default));
    assert!(SessionKey::Default.same_as(&SessionKey::Default));
    assert!(named("audio").is_audio());
    assert!(!SessionKey::Default.is_audio());
    assert!(SessionKey::Default.is_default());
    assert!(named("q").duplicate().same_as(&named("q")));
}

use rustwave::gui::{display_tail, is_wav_extension, Action, AfskGui, GuiState};
use rustwave::text::plural;

#[test]
fn new_window_is_idle() {
    let g = AfskGui::new();
    assert!(matches!(g.state(), GuiState::Idle));
    assert!(!g.is_processing());
}

#[test]
fn wav_drop_starts_decoding() {
    let mut g = AfskGui::new();
    g.start_processing("signal.wav".to_string(), true);
    assert!(g.is_processing());
    match g.state() {
        GuiState::Processing { filename, action } => {
            assert_eq!(filename, "signal.wav");
            assert_eq!(*action, Action::Decoding);
        }
        _ => panic!("expected processing"),
    }
}

#[test]
fn finished_job_moves_to_done() {
    let mut g = AfskGui::new();
    g.start_processing("notes.txt".to_string(), false);
    g.poll_worker(None);
    assert!(g.is_processing());
    g.poll_worker(Some(Ok("notes_encoded.wav".to_string())));
    match g.state() {
        GuiState::Done { action, output } => {
            assert_eq!(*action, Action::Encoding);
            assert_eq!(output, "notes_encoded.wav");
        }
        _ => panic!("expected done"),
    }
}

#[test]
fn failed_job_moves_to_failed() {
    let mut g = AfskGui::new();
    g.start_processing("x.wav".to_string(), true);
    g.poll_worker(Some(Err("bad signal".to_string())));
    match g.state() {
        GuiState::Failed(message) => assert_eq!(message, "bad signal"),
        _ => panic!("expected failed"),
    }
}

#[test]
fn idle_window_ignores_results() {
    let mut g = AfskGui::new();
    g.poll_worker(Some(Ok("out".to_string())));
    assert!(matches!(g.state(), GuiState::Idle));
}

#[test]
fn action_labels() {
    assert_eq!(Action::Decoding.label(), "Decoding");
    assert_eq!(Action::Encoding.label(), "Encoding");
}

#[test]
fn short_detail_shown_whole() {
    assert_eq!(display_tail("/tmp/out.bin"), "/tmp/out.bin");
    let exact = "a".repeat(55);
    assert_eq!(display_tail(&exact), exact);
}

#[test]
fn long_detail_keeps_its_tail() {
    let long: String = (0..60).map(|i| char::from(b'a' + (i % 26) as u8)).collect();
    let shown = display_tail(&long);
    let tail: String = long.chars().skip(6).collect();
    assert_eq!(shown, format!("\u{2026}{tail}"));
    assert_eq!(shown.chars().count(), 55);
}

#[test]
fn plural_suffix() {
    assert_eq!(plural(1), "");
    assert_eq!(plural(0), "s");
    assert_eq!(plural(2), "s");
}

#[test]
fn drop_starts_a_job_only_when_idle_or_finished() {
    let mut g = AfskGui::new();
    assert!(g.on_drop("a.wav".to_string(), true));
    assert!(!g.on_drop("b.txt".to_string(), false));
    match g.state() {
        GuiState::Processing { filename, action } => {
            assert_eq!(filename, "a.wav");
            assert_eq!(*action, Action::Decoding);
        }
        _ => panic!("expected processing"),
    }
    g.poll_worker(Some(Ok("a.bin".to_string())));
    assert!(g.on_drop("b.txt".to_string(), false));
    match g.state() {
        GuiState::Processing { action, .. } => assert_eq!(*action, Action::Encoding),
        _ => panic!("expected processing"),
    }
}

#[test]
fn wav_extension_ignores_ascii_case() {
    assert!(is_wav_extension("wav"));
    assert!(is_wav_extension("WAV"));
    assert!(is_wav_extension("wAv"));
    assert!(!is_wav_extension("wave"));
    assert!(!is_wav_extension("wa"));
    assert!(!is_wav_extension("mp3"));
    assert!(!is_wav_extension(""));
}

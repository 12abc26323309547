//! The local model.

use hikyaku::intelligence::chat::{
    chat_request, connection_failed, model_available, not_running, refused, timed_out, ChatStream,
};
use hikyaku::intelligence::gpu_detect::{
    detect_amd, detect_gpu, detect_intel, detect_nvidia, suggested_model, suggestion_reason,
    system_ram_mib, DrmEntry, GpuInfo, GpuVendor, NvidiaProbe,
};
use hikyaku::intelligence::ollama_api::{
    delete_request, list_models, pull_request, take_line, PullProgress,
};
use hikyaku::intelligence::ollama_manager::{
    api_url, detect, ensure_running, host_of, start_step, OllamaStatus, Probe, RunStep, StartStep,
    START_ATTEMPTS,
};
use hikyaku::intelligence::watcher::{keyword_match, whole_word_match};
use hikyaku::matrix::event::MatrixEvent;

#[test]
fn a_request_is_json() {
    assert_eq!(
        chat_request("m", Some("say \"hi\""), true),
        "{\"model\":\"m\",\"messages\":[{\"role\":\"user\",\"content\":\"say \\\"hi\\\"\"}],\"stream\":true,\"keep_alive\":\"15m\"}"
    );
    assert_eq!(
        chat_request("m", None, false),
        "{\"model\":\"m\",\"messages\":[],\"stream\":false,\"keep_alive\":\"15m\"}"
    );
    assert!(pull_request("a\"b").contains("a\\\"b"));
    assert!(delete_request("m").contains("\"m\""));
}

fn chunk(text: &str, done: bool) -> String {
    format!("{{\"message\":{{\"content\":\"{text}\"}},\"done\":{done}}}\n")
}

fn text_of(events: &[MatrixEvent]) -> String {
    events
        .iter()
        .map(|e| match e {
            MatrixEvent::OllamaChunk { chunk, .. } => chunk.clone(),
            _ => String::new(),
        })
        .collect()
}

#[test]
fn an_answer_does_not_depend_on_its_packets() {
    let all = [chunk("Hel", false), chunk("lo", false), chunk("!", true)].concat();
    let mut whole = ChatStream::new();
    let at_once = whole.feed(&all.clone().into_bytes(), "c");
    assert!(whole.done());
    let mut bits = ChatStream::new();
    let mut got = Vec::new();
    for b in all.into_bytes() {
        got.extend(bits.feed(&vec![b], "c"));
    }
    assert!(bits.done());
    assert_eq!(text_of(&at_once), "Hello!");
    assert_eq!(text_of(&got), "Hello!");
    assert!(bits.finish("c").is_none());
    assert!(bits.feed(&chunk("more", false).into_bytes(), "c").is_empty());
}

#[test]
fn an_answer_that_breaks_off_is_ended() {
    let s = ChatStream::new();
    assert!(matches!(s.finish("c"), Some(MatrixEvent::OllamaChunk { done: true, .. })));
}

#[test]
fn failures_are_told() {
    for e in [
        not_running("c", "http://localhost:11434"),
        connection_failed("c", "refused"),
        refused("c", "500", "{\"error\":\"x\"}"),
        timed_out("c"),
    ] {
        match e {
            MatrixEvent::OllamaChunk { context, chunk, .. } => {
                assert_eq!(context, "c");
                assert!(!chunk.is_empty());
            }
            other => panic!("{other:?}"),
        }
    }
}

#[test]
fn models_are_listed() {
    let answer = "{\"models\":[{\"name\":\"qwen2.5:3b\"},{\"name\":\"llama3\"},{\"x\":1}]}";
    assert_eq!(list_models(answer), vec!["qwen2.5:3b", "llama3"]);
    assert!(list_models("junk").is_empty());
    assert!(model_available(answer, "llama3"));
    assert!(!model_available(answer, "mistral"));
}

#[test]
fn lines_are_taken_one_by_one() {
    let mut buf = b"ab\nc".to_vec();
    assert_eq!(take_line(&mut buf), Some(b"ab\n".to_vec()));
    assert_eq!(take_line(&mut buf), None);
    assert_eq!(buf, b"c".to_vec());
}

#[test]
fn a_pull_is_followed_layer_by_layer() {
    let mut p = PullProgress::new();
    let line = |d: &str, c: u64| {
        format!("{{\"digest\":\"{d}\",\"total\":100,\"completed\":{c}}}").into_bytes()
    };
    p.note(line("a", 10));
    p.note(line("b", 50));
    p.note(line("a", 90));
    p.note(b"junk".to_vec());
    assert_eq!(p.layers.len(), 2);
    assert!(p.layers.get("a").is_some());
}

#[test]
fn an_nvidia_card_is_asked_for_its_memory() {
    let probe = NvidiaProbe { present: true, memory_total: Some("8192\n".to_string()) };
    let gpu = detect_nvidia(&probe).unwrap();
    assert_eq!((gpu.vendor, gpu.vram_mib), (GpuVendor::Nvidia, Some(8192)));
    assert!(detect_nvidia(&NvidiaProbe { present: false, memory_total: None }).is_none());
}

fn card(vendor: &str, amd: Option<&str>, intel: Option<&str>) -> DrmEntry {
    DrmEntry {
        name: "card0".to_string(),
        vendor: vendor.to_string(),
        amd_vram: amd.map(|s| s.to_string()),
        intel_lmem: intel.map(|s| s.to_string()),
    }
}

#[test]
fn other_cards_are_told_by_their_vendor() {
    let amd = vec![card("0x1002", Some("8589934592\n"), None)];
    assert_eq!(detect_amd(&amd).unwrap().vram_mib, Some(8192));
    assert!(detect_intel(&amd).is_none());
    let arc = card("0x8086", None, Some("17179869184\n"));
    let none = NvidiaProbe { present: false, memory_total: None };
    for lmem in [None, Some("0"), Some("none")] {
        let integrated = vec![card("0x8086", None, lmem)];
        assert!(detect_intel(&integrated).is_none());
        assert!(detect_gpu(&none, &integrated).is_none());
    }
    let both = vec![card("0x8086", None, None), arc];
    let found = detect_intel(&both).unwrap();
    assert_eq!((found.vendor, found.vram_mib), (GpuVendor::Intel, Some(16384)));
    assert_eq!(detect_gpu(&none, &amd).unwrap().vendor, GpuVendor::Amd);
    assert!(detect_gpu(&none, &Vec::new()).is_none());
}

#[test]
fn a_model_fits_the_memory() {
    let gpu = |mib| GpuInfo { vendor: GpuVendor::Nvidia, vram_mib: Some(mib) };
    let big = suggested_model(Some(&gpu(24_000)), None);
    let small = suggested_model(Some(&gpu(2_000)), None);
    assert_ne!(big, small);
    assert!(suggestion_reason(Some(&gpu(8192))).contains("8"));
    assert!(!suggestion_reason(None).is_empty());
    assert_eq!(system_ram_mib("MemTotal:       16384000 kB\nMemFree: 1 kB\n"), Some(16000));
    assert_eq!(system_ram_mib("nothing"), None);
}

fn probe() -> Probe {
    Probe { reachable: false, in_flatpak: false, extension: None, managed: None, on_path: None }
}

#[test]
fn a_server_is_found() {
    let url = "http://localhost:11434";
    assert!(matches!(
        detect(url, Probe { reachable: true, ..probe() }),
        OllamaStatus::Running { endpoint } if endpoint == url
    ));
    let found = detect(url, Probe { on_path: Some("/bin/ollama".to_string()), ..probe() });
    assert!(matches!(&found, OllamaStatus::Found { path } if path == "/bin/ollama"));
    assert!(!found.label().is_empty());
    assert!(matches!(ensure_running(found), RunStep::Start { path } if path == "/bin/ollama"));
    assert!(matches!(ensure_running(OllamaStatus::NeedDownload), RunStep::GiveUp));
    assert_eq!(api_url("http://localhost:11434/", "/api/tags"), "http://localhost:11434/api/tags");
    assert_eq!(host_of("http://localhost:11434"), "localhost:11434");
}

#[test]
fn a_start_is_waited_for() {
    assert!(matches!(start_step(0, START_ATTEMPTS, true), StartStep::Ready));
    assert!(matches!(start_step(0, START_ATTEMPTS, false), StartStep::WaitAgain));
    assert!(matches!(start_step(START_ATTEMPTS, START_ATTEMPTS, false), StartStep::GiveUp));
}

#[test]
fn terms_are_found_as_whole_words() {
    assert!(whole_word_match("the cat sat", "cat"));
    assert!(!whole_word_match("concatenate", "cat"));
    assert!(whole_word_match("cat!", "cat"));
    let terms = vec!["dog".to_string(), "Cat".to_string()];
    assert_eq!(keyword_match("A CAT sat", &terms).as_deref(), Some("Cat"));
    assert_eq!(keyword_match("A bird sat", &terms), None);
}

#[test]
fn states_of_the_server_are_compared() {
    let found = OllamaStatus::Found { path: "/usr/bin/ollama".to_string() };
    assert_eq!(found.clone(), found);
    assert_ne!(found, OllamaStatus::NeedDownload);
}

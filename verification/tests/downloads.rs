use tokamak::binary64::Binary64;
use tokamak::downloads::{
    bearer, check_pull, direct_file, direct_segments, file_results, files_url, hub_file_url,
    hub_segments, is_transfer_countable, listing_error, ollama_available, progress_at, progress_end,
    pull_not_started, pull_step, quant_from_name, range_header, safe_segment, search_results,
    search_url, urlencode, which_ollama, DownloadState, PullAction, PullState, Transfer,
    TransferAction, TransferEvent,
};
use tokamak::scanner::Place;

#[test]
fn segments_cannot_escape() {
    assert_eq!(safe_segment("../../etc"), "_.._etc");
    assert_eq!(safe_segment("a/b"), "a_b");
    assert_eq!(safe_segment("a\\b"), "a_b");
    assert_eq!(safe_segment("C:evil"), "C_evil");
    assert_eq!(safe_segment("  "), "unnamed");
    assert_eq!(safe_segment(""), "unnamed");
    // Trailing dots are a classic Windows trick.
    assert_eq!(safe_segment("nul."), "nul");
    assert!(safe_segment(&"x".repeat(500)).chars().count() <= 120);
}

#[test]
fn reads_quant_from_file_name() {
    assert_eq!(quant_from_name("Qwen3-14B-Q4_K_M.gguf"), Some("Q4_K_M".into()));
    assert_eq!(quant_from_name("model-IQ4_XS.gguf"), Some("IQ4_XS".into()));
    assert_eq!(quant_from_name("mmproj-F16.gguf"), Some("F16".into()));
    assert_eq!(quant_from_name("plain-model.gguf"), None);
}

/// A model's own name is no quant label.
#[test]
fn names_with_digits_are_no_quants() {
    assert_eq!(quant_from_name("Qwen3-14B.gguf"), None);
    assert_eq!(quant_from_name("Q4_0-qwen2.5.gguf").as_deref(), Some("Q4_0"));
    assert_eq!(quant_from_name("m.bf16.gguf").as_deref(), Some("BF16"));
    assert_eq!(quant_from_name("m-q.gguf"), None);
    assert_eq!(quant_from_name("m-iq3_xs.GGUF").as_deref(), Some("IQ3_XS"));
}

#[test]
fn encodes_query_strings() {
    assert_eq!(urlencode("qwen3 coder"), "qwen3+coder");
    assert_eq!(urlencode("a/b&c"), "a%2Fb%26c");
    assert_eq!(urlencode("plain"), "plain");
}

#[test]
fn characters_beyond_ascii_are_encoded_byte_by_byte() {
    assert_eq!(urlencode("é"), "%C3%A9");
    assert_eq!(urlencode("~-_."), "~-_.");
}

#[test]
fn addresses_are_built_from_their_parts() {
    assert_eq!(
        search_url("a b"),
        "https://huggingface.co/api/models?search=a+b&filter=gguf&sort=downloads&direction=-1&limit=30"
    );
    assert_eq!(files_url("org/m"), "https://huggingface.co/api/models/org/m?blobs=true");
    assert_eq!(hub_file_url("org/m", "f.gguf"), "https://huggingface.co/org/m/resolve/main/f.gguf");
    assert_eq!(bearer(Some(" tok ")), Some("Bearer tok".to_string()));
    assert_eq!(bearer(Some("  ")), None);
    assert_eq!(bearer(None), None);
    assert_eq!(hub_segments("org/m", "a/b.gguf"), ["org", "m", "a_b.gguf"]);
    assert_eq!(direct_segments("x.gguf"), ["direct", "x.gguf"]);
}

#[test]
fn only_secure_links_to_models_are_followed() {
    assert_eq!(direct_file("https://h/x/m.gguf?download=1"), Ok("m.gguf".to_string()));
    assert_eq!(
        direct_file("http://h/m.gguf"),
        Err("only https:// URLs are accepted".to_string())
    );
    assert_eq!(
        direct_file("https://h/m.zip"),
        Err("that URL does not point at a .gguf file".to_string())
    );
}

#[test]
fn search_results_are_read() {
    let body = r#"[{"modelId":"a/b","downloads":5,"likes":2,"gated":"auto"},{"downloads":1},
                   {"modelId":"c/d","gated":false}]"#;
    let models = search_results(body).unwrap();
    assert_eq!(models.len(), 2);
    assert_eq!(models[0].id, "a/b");
    assert_eq!((models[0].downloads, models[0].likes, models[0].gated), (5, 2, true));
    assert_eq!(models[1].id, "c/d");
    assert_eq!((models[1].downloads, models[1].likes, models[1].gated), (0, 0, false));
    let odd = r#"[{"modelId":"n","gated":null},{"modelId":"t","gated":true},
                  {"modelId":"m","gated":"manual"},{"modelId":"e","gated":""},
                  {"modelId":"z","gated":0},{"modelId":"o","gated":1},{"modelId":"l","gated":[]}]"#;
    let gated: Vec<bool> = search_results(odd).unwrap().iter().map(|m| m.gated).collect();
    assert_eq!(gated, [false, true, true, false, false, true, true]);
    assert!(search_results("{}").is_err());
    assert!(search_results("nonsense").is_err());
}

#[test]
fn listings_show_models_by_size() {
    let body = r#"{"siblings":[{"rfilename":"README.md","size":1},
        {"rfilename":"big-Q8_0.gguf","size":20},{"rfilename":"small-Q4_0.GGUF","size":10}]}"#;
    let files = file_results(body).unwrap();
    let names: Vec<&str> = files.iter().map(|f| f.name.as_str()).collect();
    assert_eq!(names, ["small-Q4_0.GGUF", "big-Q8_0.gguf"]);
    assert_eq!(files[1].quant.as_deref(), Some("Q8_0"));
    assert_eq!(files[1].size_bytes, 20);
    assert!(file_results("[").is_err());
}

#[test]
fn a_gated_repository_asks_for_a_token() {
    assert_eq!(
        listing_error("o/m", "status code 403"),
        "o/m is gated — add a Hugging Face token in settings"
    );
    assert_eq!(listing_error("o/m", "timed out"), "could not read o/m: timed out");
}

#[test]
fn downloads_are_cancelled_one_by_one() {
    let mut s = DownloadState::default();
    let a = s.arm(1);
    let b = s.arm(2);
    assert!(!s.is_cancelled(a) && !s.is_cancelled(b));
    s.cancel(1);
    assert!(s.is_cancelled(a));
    assert!(!s.is_cancelled(b));
    s.cancel(7);
    assert!(!s.is_cancelled(b));
}

#[test]
fn a_resumed_transfer_adds_to_what_is_there() {
    assert_eq!(range_header(0), None);
    assert_eq!(range_header(100), Some("bytes=100-".to_string()));
    assert!(is_transfer_countable(100, 206, Some("50")));
    assert!(!is_transfer_countable(100, 206, Some("18446744073709551615")));
    let mut t = Transfer::plan(100, 206, Some("50"));
    assert!(t.resuming);
    assert_eq!((t.start, t.received, t.total), (100, 100, 150));
    t.add(20);
    assert_eq!(
        t.finish(),
        Err("connection closed early: got 120 of 150 bytes — retry to resume".to_string())
    );
    t.add(30);
    assert_eq!(t.finish(), Ok(()));
    let p = progress_at(9, &t, Binary64 { bits: 2.0f64.to_bits() });
    assert_eq!((p.id, p.received, p.total), (9, 150, 150));
    assert_eq!(f64::from_bits(p.bytes_per_sec.bits), 25.0);
    assert!(!p.done);
}

#[test]
fn a_transfer_goes_on_as_its_stream_does() {
    let mut t = Transfer::plan(0, 200, Some("10"));
    assert!(matches!(t.step(&TransferEvent::Written(4)), TransferAction::Continue));
    assert_eq!(t.received, 4);
    let fail = |t: &mut Transfer, e: TransferEvent| match t.step(&e) {
        TransferAction::Fail(s) => s,
        other => panic!("got {other:?}"),
    };
    assert_eq!(fail(&mut t, TransferEvent::ReadFailed("reset".into())), "read failed: reset");
    assert_eq!(
        fail(&mut t, TransferEvent::WriteFailed("full".into())),
        "write failed (out of disk?): full"
    );
    assert_eq!(
        fail(&mut t, TransferEvent::Ended),
        "connection closed early: got 4 of 10 bytes — retry to resume"
    );
    assert!(matches!(t.step(&TransferEvent::Cancelled), TransferAction::Keep));
    t.step(&TransferEvent::Written(6));
    assert!(matches!(t.step(&TransferEvent::Ended), TransferAction::Publish));
}

#[test]
fn a_server_that_starts_over_is_followed() {
    let t = Transfer::plan(100, 200, Some("150"));
    assert!(!t.resuming);
    assert_eq!((t.start, t.received, t.total), (0, 0, 150));
    let unknown = Transfer::plan(0, 200, None);
    assert_eq!(unknown.total, 0);
    assert_eq!(unknown.finish(), Ok(()));
}

#[test]
fn the_end_of_a_download_says_how_it_ended() {
    let done = progress_end(1, Ok(Some("/m/x.gguf".to_string())));
    assert!(done.done && !done.cancelled);
    assert_eq!(done.path.as_deref(), Some("/m/x.gguf"));
    let cancelled = progress_end(1, Ok(None));
    assert!(cancelled.done && cancelled.cancelled);
    let failed = progress_end(1, Err("x".to_string()));
    assert_eq!(failed.error.as_deref(), Some("x"));
    assert!(failed.done && !failed.cancelled);
}

fn place(path: &str, is_file: bool) -> Place {
    Place { path: path.to_string(), is_file }
}

#[test]
fn ollama_is_found_where_it_is() {
    let nowhere = vec![place("/a/ollama", false)];
    assert!(!ollama_available(&nowhere));
    let somewhere = vec![place("/a/ollama", false), place("/b/ollama", true)];
    assert!(ollama_available(&somewhere));
    assert_eq!(which_ollama(&somewhere).as_deref(), Some("/b/ollama"));
}

#[test]
fn a_pull_needs_ollama_and_a_model() {
    let none = vec![place("/b/ollama", false)];
    let here = vec![place("/b/ollama", true)];
    assert_eq!(
        check_pull(&none, "qwen3"),
        Err("ollama is not installed or not on PATH".to_string())
    );
    for bad in ["", "  ", "a&b", "a|b", "a;b", "a\nb"] {
        assert_eq!(check_pull(&here, bad), Err("invalid model name".to_string()));
    }
    assert_eq!(
        check_pull(&here, " qwen3:14b "),
        Ok(("/b/ollama".to_string(), "qwen3:14b".to_string()))
    );
}

#[test]
fn a_pull_ends_as_its_process_does() {
    assert!(matches!(pull_step(1, false, &PullState::Running), PullAction::Wait));
    match pull_step(1, true, &PullState::Running) {
        PullAction::Kill(p) => assert!(p.done && p.cancelled && p.error.is_none()),
        other => panic!("got {other:?}"),
    }
    match pull_step(7, false, &PullState::Printed("pulling 22f8 40%".to_string())) {
        PullAction::Show(l) => assert_eq!((l.id, l.line.as_str()), (7, "pulling 22f8 40%")),
        other => panic!("got {other:?}"),
    }
    assert!(matches!(
        pull_step(7, true, &PullState::Printed("late".to_string())),
        PullAction::Kill(_)
    ));
    let exit = |success| PullState::Exited { success, status: "exit code: 1".to_string() };
    match pull_step(1, false, &exit(true)) {
        PullAction::Report(p) => assert!(p.done && p.error.is_none()),
        other => panic!("got {other:?}"),
    }
    match pull_step(1, false, &exit(false)) {
        PullAction::Report(p) => {
            assert_eq!(p.error.as_deref(), Some("ollama pull failed (exit code: 1)"))
        }
        other => panic!("got {other:?}"),
    }
    match pull_step(1, false, &PullState::Failed("lost".to_string())) {
        PullAction::Report(p) => assert_eq!(p.error.as_deref(), Some("lost")),
        other => panic!("got {other:?}"),
    }
    assert_eq!(
        pull_not_started(1, "no such file").error.as_deref(),
        Some("could not run ollama: no such file")
    );
}

use stoclove::infra::model_manager::{
    available_models, client_timeout, find_installed_model, format_model_size, format_size,
    installed_model, model_by_id, pull_url, tags_url, PullProgress, OLLAMA_BASE_URL,
};
use stoclove::ui::models::model_options;

fn value(text: &str) -> serde_json::Value {
    serde_json::from_str(text).expect("a JSON value")
}

/// A number of bytes by floating-point arithmetic.
fn size_by_floats(bytes: u64) -> String {
    if bytes == 0 {
        return "---".into();
    }
    let gb = bytes as f64 / 1_073_741_824.0;
    if gb >= 1.0 {
        format!("{:.2} GB", gb)
    } else {
        format!("{:.0} MB", bytes as f64 / 1_048_576.0)
    }
}

#[test]
fn sizes_have_exact_texts() {
    assert_eq!(format_size(0), "---");
    assert_eq!(format_size(1), "0 MB");
    assert_eq!(format_size(524_288), "0 MB");
    assert_eq!(format_size(524_289), "1 MB");
    assert_eq!(format_size(1_572_864), "2 MB");
    assert_eq!(format_size(2_621_440), "2 MB");
    assert_eq!(format_size(1_073_741_823), "1024 MB");
    assert_eq!(format_size(1_073_741_824), "1.00 GB");
    assert_eq!(format_size(2_019_393_189), "1.88 GB");
    assert_eq!(format_size(u64::MAX), "17179869184.00 GB");
}

#[test]
fn sizes_are_as_floating_point_numbers_show_them() {
    let mut n: u64 = 1;
    let mut tried = 0;
    // Around powers of two, ties of both units, and numbers that need rounding to a double.
    for shift in 0..64 {
        for d in 0..40_u64 {
            for base in [1_u64 << shift, (1_u64 << shift).wrapping_mul(3), 5_368_709 * d, 1_048_576 / 2 * d] {
                for m in [base.wrapping_add(d), base.wrapping_sub(d)] {
                    assert_eq!(format_size(m), size_by_floats(m), "{}", m);
                    tried += 1;
                }
            }
        }
    }
    // A walk through all magnitudes.
    for _ in 0..20_000 {
        n = n.wrapping_mul(6_364_136_223_846_793_005).wrapping_add(1_442_695_040_888_963_407);
        for s in [0, 7, 13, 22, 31, 40] {
            assert_eq!(format_size(n >> s), size_by_floats(n >> s), "{}", n >> s);
        }
    }
    assert_eq!(tried, 64 * 40 * 8);
}

#[test]
fn model_sizes_have_one_decimal() {
    assert_eq!(format_model_size(8), "0.8 GB");
    assert_eq!(format_model_size(20), "2.0 GB");
    assert_eq!(format_model_size(41), "4.1 GB");
    for m in available_models() {
        let size_gb = m.size_gb_tenths as f32 / 10.0;
        assert_eq!(format_model_size(m.size_gb_tenths), format!("{:.1} GB", size_gb));
    }
}

#[test]
fn three_models_are_on_offer() {
    let all = available_models();
    let ids: Vec<&str> = all.iter().map(|m| m.id).collect();
    assert_eq!(ids, vec!["gemma3-1b", "llama32-3b", "mistral-7b"]);
    let recommended: Vec<bool> = all.iter().map(|m| m.recommended).collect();
    assert_eq!(recommended, vec![false, true, false]);
    assert_eq!(all[1].name, "Llama 3.2 3B  ★推奨");
    assert_eq!(all[2].ollama_model, "mistral:7b");
}

#[test]
fn no_two_models_share_an_id() {
    let all = available_models();
    for i in 0..all.len() {
        for j in 0..i {
            assert_ne!(all[i].id, all[j].id);
            assert_ne!(all[i].ollama_model, all[j].ollama_model);
        }
    }
}

#[test]
fn models_are_found_by_id() {
    assert_eq!(model_by_id("mistral-7b").map(|m| m.ollama_model), Some("mistral:7b"));
    assert!(model_by_id("mistral:7b").is_none());
    assert!(model_by_id("").is_none());
}

#[test]
fn the_first_known_model_that_is_installed_is_found() {
    let names = vec!["x".to_string(), "mistral:7b".to_string(), "llama3.2:3b".to_string()];
    assert_eq!(installed_model(&names).map(|m| m.id), Some("llama32-3b"));
    assert!(installed_model(&vec!["llama3.2".to_string()]).is_none());
    assert!(installed_model(&Vec::new()).is_none());
}

#[test]
fn the_reply_lists_the_installed_models() {
    let v = value("{\"models\": [{\"name\": 1}, {}, 2, {\"name\": \"gemma3:1b\"}, {\"name\": \"mistral:7b\"}]}");
    assert_eq!(find_installed_model(&v).map(|m| m.id), Some("gemma3-1b"));
    for bad in ["{}", "{\"models\": {}}", "{\"models\": []}", "[]", "{\"models\": [{\"name\": \"y\"}]}"] {
        assert!(find_installed_model(&value(bad)).is_none(), "{}", bad);
    }
}

#[test]
fn ollama_is_reached_at_its_address() {
    assert_eq!(OLLAMA_BASE_URL, "http://localhost:11434");
    assert_eq!(tags_url(OLLAMA_BASE_URL), "http://localhost:11434/api/tags");
    assert_eq!(pull_url(OLLAMA_BASE_URL), "http://localhost:11434/api/pull");
    assert_eq!(client_timeout(0), None);
    assert_eq!(client_timeout(3), Some(3));
}

#[test]
fn an_installation_is_followed_line_by_line() {
    let mut p = PullProgress::start();
    assert_eq!((p.downloaded, p.total, p.done), (0, 0, false));
    p.read_line("");
    p.read_line("{\"status\": \"pulling manifest\"}");
    assert_eq!((p.downloaded, p.total, p.done), (0, 0, false));
    p.read_line("{\"status\": \"pulling\", \"total\": 200}");
    assert_eq!((p.downloaded, p.total, p.done), (0, 200, false));
    p.read_line("{\"completed\": 50}");
    assert_eq!((p.downloaded, p.total, p.done), (50, 200, false));
    p.read_line("not json");
    p.read_line("{\"completed\": -1, \"total\": \"9\"}");
    assert_eq!((p.downloaded, p.total, p.done), (50, 200, false));
    p.read_line("{\"status\": \"success\"}");
    assert_eq!((p.downloaded, p.total, p.done), (50, 200, true));
    p.report(Some(200), None, None);
    assert_eq!((p.downloaded, p.total, p.done), (200, 200, true));
    p.report(None, Some(300), Some("Success".to_string()));
    assert_eq!((p.downloaded, p.total, p.done), (200, 300, true));
}

#[test]
fn models_are_offered_with_their_sizes() {
    let options = model_options();
    assert_eq!(options.len(), 3);
    assert_eq!(options[0].id, "gemma3-1b");
    assert_eq!(options[0].size_text, "0.8 GB");
    assert_eq!(options[0].speed, "高速");
    assert_eq!(options[0].accuracy, "△");
    assert!(!options[0].recommended);
    assert_eq!(options[1].size_text, "2.0 GB");
    assert!(options[1].recommended);
    assert_eq!(options[2].name, "Mistral 7B");
    assert_eq!(
        options[2].description,
        "高精度。複雑なレシピや多言語テキストに強い。\n高スペックPC向け (RAM 8GB 以上推奨)。"
    );
}

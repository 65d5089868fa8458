use hipfire_quantize::catalog::{
    add_file, find_scale, name_order, weight_of_scale, Listed, ScaleEntry,
};
use hipfire_quantize::config::{config_facts, read_config, ConfigError};
use hipfire_quantize::formats::Format;
use hipfire_quantize::gguf::GgufTensor;
use hipfire_quantize::imatrix::{
    find_tensor, hot_layers, importance_columns, layer_importance, probe_name, rank_layers,
    score_is_finite, stack_importance, tier_candidates, tier_of, ImportanceFault,
};
use hipfire_quantize::plan::Settings;
use hipfire_quantize::resolve::{
    cache_dir, looks_like_model_id, resolve_model_path, split_model_id, Search,
};
use hipfire_quantize::safetensors::{
    header_len, is_tensor_entry, tensor_entries, tensor_range, HeaderError,
};

fn strings(names: &[&str]) -> Vec<String> {
    names.iter().map(|s| s.to_string()).collect()
}

#[test]
fn scales_are_set_apart() {
    assert_eq!(weight_of_scale("a.b.scale"), Some("a.b.weight".to_string()));
    assert_eq!(weight_of_scale(".scale"), Some(".weight".to_string()));
    assert_eq!(weight_of_scale("a.scales"), None);
    let mut tensors: Vec<Listed> = Vec::new();
    let mut scales: Vec<ScaleEntry> = Vec::new();
    add_file(&mut tensors, &mut scales, &strings(&["b.weight", "b.scale", "a.weight"]), 0);
    add_file(&mut tensors, &mut scales, &strings(&["b.scale", "a.weight"]), 1);
    let names: Vec<(&str, usize)> = tensors.iter().map(|t| (t.name.as_str(), t.file)).collect();
    assert_eq!(names, vec![("b.weight", 0), ("a.weight", 0), ("a.weight", 1)]);
    assert_eq!(name_order(&tensors), vec![1, 2, 0]);
    assert_eq!(scales.len(), 2);
    let found = find_scale(&scales, "b.weight").unwrap();
    assert_eq!(scales[found].file, 1);
    assert_eq!(scales[found].scale, "b.scale");
    assert_eq!(find_scale(&scales, "a.weight"), None);
}

#[test]
fn names_sort_like_strings() {
    let mut names = strings(&["layers.10", "layers.2", "", "layers", "\u{e9}", "Z", "a\u{10000}"]);
    let list: Vec<Listed> =
        names.iter().map(|n| Listed { name: n.clone(), file: 0 }).collect();
    let sorted: Vec<String> =
        name_order(&list).iter().map(|i| names[*i].clone()).collect();
    names.sort();
    assert_eq!(sorted, names);
}

#[test]
fn headers_are_framed() {
    let mut file = 3u64.to_le_bytes().to_vec();
    assert_eq!(header_len(&file), None);
    file.extend_from_slice(&[b'{', b'}', b' ', 9, 9, 9]);
    assert_eq!(header_len(&file), Some(3));
    assert_eq!(header_len(&[1, 2, 3]), None);
    assert_eq!(header_len(&u64::MAX.to_le_bytes()), None);
    assert!(is_tensor_entry("a"));
    assert!(!is_tensor_entry("__metadata__"));
    assert_eq!(tensor_range(3, (0, 2), 14), Some((11, 13)));
    assert_eq!(tensor_range(3, (1, 3), 14), Some((12, 14)));
    assert_eq!(tensor_range(3, (1, 4), 14), None);
    assert_eq!(tensor_range(3, (2, 1), 14), None);
    assert_eq!(tensor_range(usize::MAX, (0, 0), 14), None);
}

#[test]
fn configurations_are_parsed() {
    let f = read_config("{\"model_type\": \"qwen3_5_moe\", \"num_hidden_layers\": 48}").unwrap();
    assert_eq!(f.model_type, "qwen3_5_moe");
    assert_eq!(f.arch, Some(6));
    assert_eq!(f.n_layers, 48);
    let f = read_config("{\"text_config\": {\"num_hidden_layers\": 7}}").unwrap();
    assert_eq!((f.model_type.as_str(), f.arch, f.n_layers), ("llama", Some(0), 7));
    let f = read_config("{\"num_hidden_layers\": -1, \"text_config\": {\"num_hidden_layers\": 7}}")
        .unwrap();
    assert_eq!(f.n_layers, 0);
    let f = read_config("{\"num_hidden_layers\": 3.5, \"model_type\": 4}").unwrap();
    assert_eq!((f.model_type.as_str(), f.n_layers), ("llama", 0));
    let f = read_config("[1, 2]").unwrap();
    assert_eq!((f.model_type.as_str(), f.n_layers), ("llama", 0));
    assert_eq!(read_config("{\"model_type\":").unwrap_err(), ConfigError::NotJson);
    assert_eq!(read_config("").unwrap_err(), ConfigError::NotJson);
}

#[test]
fn parsed_configurations_are_read() {
    let mut inner = serde_json::Map::new();
    inner.insert("num_hidden_layers".to_string(), serde_json::Value::from(61u64));
    let mut map = serde_json::Map::new();
    map.insert("model_type".to_string(), serde_json::Value::from("deepseek_v4"));
    map.insert("text_config".to_string(), serde_json::Value::Object(inner));
    let f = config_facts(&serde_json::Value::Object(map));
    assert_eq!((f.model_type.as_str(), f.arch, f.n_layers), ("deepseek_v4", Some(7), 61));
    let f = config_facts(&serde_json::Value::Null);
    assert_eq!((f.model_type.as_str(), f.n_layers), ("llama", 0));
}

#[test]
fn model_ids_are_recognized() {
    assert!(looks_like_model_id("Qwen/Qwen3-8B", "/", true));
    assert!(!looks_like_model_id("/models/Qwen3-8B", "/", true));
    assert!(!looks_like_model_id("models", "/", true));
    assert!(looks_like_model_id("a/b/c", "\\", false));
    assert!(!looks_like_model_id("a\\b/c", "\\", false));
    assert_eq!(
        split_model_id("Qwen/Qwen3-8B"),
        Some(("Qwen".to_string(), "Qwen3-8B".to_string()))
    );
    assert_eq!(split_model_id("a/b/c"), Some(("a".to_string(), "b/c".to_string())));
    assert_eq!(split_model_id("abc"), None);
    assert_eq!(
        cache_dir("/home/x", "Qwen", "Qwen3-8B"),
        "/home/x/.cache/huggingface/hub/models--Qwen--Qwen3-8B"
    );
}

#[test]
fn the_search_for_a_model_takes_its_steps() {
    let next = resolve_model_path;
    assert_eq!(next(Search::TestInput, true, true), Search::TakeInput);
    assert_eq!(next(Search::TestInput, false, false), Search::TakeInput);
    assert_eq!(next(Search::TestInput, false, true), Search::LookInCache);
    assert_eq!(next(Search::LookInCache, true, true), Search::TakeSnapshot);
    assert_eq!(next(Search::LookInCache, false, true), Search::Download);
    assert_eq!(next(Search::Download, true, true), Search::LookAgain);
    assert_eq!(next(Search::Download, false, true), Search::TakeInput);
    assert_eq!(next(Search::LookAgain, true, true), Search::TakeSnapshot);
    assert_eq!(next(Search::LookAgain, false, true), Search::TakeInput);
}

#[test]
fn importance_tensors_have_names() {
    let n = stack_importance("model.language_model.layers.7.mlp.experts.down_proj").unwrap();
    assert_eq!(n.sums, "blk.7.ffn_down_exps.weight.in_sum2");
    assert_eq!(n.counts, "blk.7.ffn_down_exps.weight.counts");
    assert!(stack_importance("model.layers.7.mlp.down_proj").is_none());
    let n = layer_importance(10);
    assert_eq!(n.sums, "blk.10.ffn_gate_exps.weight.in_sum2");
    assert_eq!(n.counts, "blk.10.ffn_gate_exps.weight.counts");
    let tensors: Vec<GgufTensor> = ["a", "b", "a"]
        .iter()
        .map(|n| GgufTensor { name: n.to_string(), shape: vec![1], is_q1: false })
        .collect();
    assert_eq!(find_tensor(&tensors, "a"), Some(0));
    assert_eq!(find_tensor(&tensors, "b"), Some(1));
    assert_eq!(find_tensor(&tensors, "c"), None);
}

#[test]
fn importance_shapes_are_tested() {
    assert_eq!(importance_columns(&[4, 2], &[1, 2], 2, 8, 2), Ok(4));
    assert_eq!(importance_columns(&[4], &[1, 2], 2, 8, 2), Err(ImportanceFault::Shape));
    assert_eq!(importance_columns(&[4, 2], &[2], 2, 8, 2), Err(ImportanceFault::Shape));
    assert_eq!(importance_columns(&[4, 2], &[1, 2], 3, 8, 2), Err(ImportanceFault::Experts));
    assert_eq!(importance_columns(&[4, 2], &[1, 2], 2, 7, 2), Err(ImportanceFault::Length));
    assert_eq!(importance_columns(&[4, 2], &[1, 2], 2, 8, 3), Err(ImportanceFault::Length));
    assert_eq!(
        importance_columns(&[usize::MAX, 2], &[1, 2], 2, 8, 2),
        Err(ImportanceFault::Length)
    );
}

#[test]
fn layers_are_ranked_by_score() {
    let s = Settings {
        format: Format::Tiered,
        is_moe: true,
        is_v4f: false,
        n_layers: 30,
        kmap: true,
        kmap_mode: 0,
        q8_conv1d: true,
        q8_router_option: false,
        non_expert_f16: false,
        include_vision: false,
    };
    assert_eq!(probe_name(3), "model.language_model.layers.3.mlp.experts.gate_up_proj");
    let scores: Vec<u64> =
        [1.0f64, 5.0, f64::NAN, 5.0, -2.0].iter().map(|v| v.to_bits()).collect();
    // Every listed expert stack is promoted in this mode; layer 1 is listed.
    let list = vec![Listed { name: probe_name(1), file: 0 }];
    assert_eq!(tier_candidates(s, &list, &scores), vec![0, 3, 4]);
    assert_eq!(tier_candidates(s, &[], &scores), vec![0, 1, 3, 4]);
    let off = Settings { kmap: false, ..s };
    assert_eq!(tier_candidates(off, &list, &scores), vec![0, 1, 3, 4]);
    let (order, ranked) = rank_layers(&[0, 1, 3, 4], &scores);
    assert_eq!(order, vec![1, 2, 0, 3]);
    assert_eq!(ranked, vec![1, 3, 0, 4]);
    assert_eq!(hot_layers(&ranked, 2), vec![1, 3]);
    assert_eq!(hot_layers(&ranked, 9), ranked);
    assert_eq!(tier_of(Some(3), &[1, 3]), Some(true));
    assert_eq!(tier_of(Some(4), &[1, 3]), Some(false));
    assert_eq!(tier_of(None, &[1, 3]), None);
    assert!(!score_is_finite(f64::INFINITY.to_bits()));
    assert!(score_is_finite(f64::MAX.to_bits()));
}

#[test]
fn headers_list_their_tensors() {
    let text = "{\"b\": {\"dtype\": \"F16\"}, \"__metadata__\": {\"format\": \"pt\"}, \"a\": 7}";
    let mut entries = tensor_entries(text).unwrap();
    entries.sort_by(|x, y| x.0.cmp(&y.0));
    let names: Vec<&str> = entries.iter().map(|e| e.0.as_str()).collect();
    assert_eq!(names, vec!["a", "b"]);
    assert_eq!(entries[0].1.as_u64(), Some(7));
    assert_eq!(entries[1].1.get("dtype").and_then(|d| d.as_str()), Some("F16"));
    assert_eq!(tensor_entries("{}").unwrap().len(), 0);
    assert_eq!(tensor_entries("[1]").unwrap().len(), 0);
    assert_eq!(tensor_entries("{\"a\": 1, \"a\": 2}").unwrap().len(), 1);
    assert_eq!(tensor_entries("{\"a\"").unwrap_err(), HeaderError::NotJson);
}

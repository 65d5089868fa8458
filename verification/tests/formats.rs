use hipfire_quantize::formats::{
    arch_id, default_threads, exit_code, find_option, gguf_arch_id, guard_format, is_allowed,
    kmap_enabled, kmap_mode, parse_kmap_mode, thread_count, Consent, Format, GgufFormat, Refusal,
};

const ALL: Consent = Consent { imatrix: true, mq2: true, mq2_lloyd: true, mq3_lloyd: true };
const NONE: Consent = Consent { imatrix: false, mq2: false, mq2_lloyd: false, mq3_lloyd: false };

#[test]
fn names_select_formats() {
    let want = [
        ("q8", Format::Q8),
        ("q8f16", Format::Q8),
        ("mixed", Format::Mixed),
        ("q8-fast", Format::Fast),
        ("q8hfq", Format::Q8Hfq),
        ("q4k", Format::Q4K),
        ("q4k-q8embed", Format::Q4KQ8Embed),
        ("mq8g256", Format::Mq8),
        ("magnum", Format::Mq4),
        ("hf4", Format::Hfq4),
        ("hfq3g256", Format::Hfq3G256),
        ("hf3", Format::Hfq3),
        ("hfq2g256", Format::Hfq2G256),
        ("hfq2", Format::Hfq2),
        ("hfq-mixed", Format::HfqMixed),
        ("mq6", Format::Mq6),
        ("mq4-mq6exp", Format::Mq4Mq6Experts),
        ("mq4-mq2lloydexp", Format::Mq2LloydProbe),
        ("mq4-mq2lloyd-routed", Format::Mq2LloydNative),
        ("mq4-mq2lloyd-kmap-promote", Format::Mq2LloydKmap),
        ("mq4-mq2lloyd-imatrix-kmap", Format::Mq2LloydImatrix),
        ("mq4-mq3lloyd-exp", Format::Mq3LloydKmap),
        ("mqlloyd-tiered", Format::Tiered),
        ("antirez-mq", Format::Asymmetric),
        ("antirez-mq-gptq", Format::AsymmetricGptq),
        ("all-mq2-gptq", Format::Mq2Gptq),
        ("mq3", Format::Mq3),
        ("mq2", Format::Mq2),
        ("mq2lloyd", Format::Mq2Lloyd),
        ("mq3g256-lloyd", Format::Mq3Lloyd),
        ("hf6", Format::Hfq6),
        ("fp4", Format::Hfp4),
        ("mf4p", Format::Mfp4),
        ("q4f16", Format::Q4),
        ("", Format::Q4),
        ("Q8", Format::Q4),
    ];
    for (flag, f) in want {
        assert_eq!(Format::from_flag(flag), f, "{}", flag);
    }
}

#[test]
fn gguf_names_and_labels() {
    let want = [
        ("hf4", GgufFormat::Hfq4, "HFQ4G256"),
        ("hfq6g256", GgufFormat::Hfq6, "HFQ6G256"),
        ("magnum", GgufFormat::Mq4, "MQ4G256"),
        ("mq6", GgufFormat::Mq6, "MQ6G256"),
        ("mq3g256", GgufFormat::Mq3, "MQ3G256"),
        ("mq2", GgufFormat::Mq2, "MQ2G256"),
        ("mq2lloyd", GgufFormat::Mq2Lloyd, "MQ2G256Lloyd"),
        ("mq3-lloyd", GgufFormat::Mq3Lloyd, "MQ3G256Lloyd"),
        ("bonsai", GgufFormat::Hfq1, "HFQ1G128"),
        ("hf4p", GgufFormat::Hfp4, "HFP4G32"),
        ("mfp4", GgufFormat::Mfp4, "MFP4G32"),
    ];
    for (flag, f, label) in want {
        assert_eq!(GgufFormat::from_flag(flag), Some(f));
        assert_eq!(f.label(), label);
    }
    assert_eq!(GgufFormat::from_flag("q8"), None);
    assert!(GgufFormat::Mfp4.needs_signs());
    assert!(!GgufFormat::Hfp4.needs_signs());
    assert!(!GgufFormat::Hfq1.needs_signs());
}

#[test]
fn guards_refuse_in_order() {
    let no_imatrix = Consent { imatrix: false, ..ALL };
    let no_mq3 = Consent { mq3_lloyd: false, ..ALL };
    let no_mq2_lloyd = Consent { mq2_lloyd: false, ..ALL };
    assert_eq!(guard_format(Format::Tiered, NONE), Some(Refusal::NeedsImatrix));
    assert_eq!(guard_format(Format::Mq2LloydImatrix, no_imatrix), Some(Refusal::NeedsImatrix));
    assert_eq!(guard_format(Format::Asymmetric, no_mq3), Some(Refusal::NeedsMq3Lloyd));
    assert_eq!(guard_format(Format::Mq3LloydKmap, NONE), Some(Refusal::NeedsMq3Lloyd));
    assert_eq!(guard_format(Format::Mq2, NONE), Some(Refusal::Mq2Reserved));
    assert_eq!(guard_format(Format::Mq3Lloyd, NONE), Some(Refusal::Mq3LloydResearch));
    assert_eq!(guard_format(Format::Mq2Lloyd, NONE), Some(Refusal::Mq2LloydResearch));
    assert_eq!(guard_format(Format::Mq3LloydKmap, no_mq2_lloyd), Some(Refusal::Mq2LloydResearch));
    assert_eq!(guard_format(Format::Mq4, NONE), None);
    assert_eq!(guard_format(Format::Mq3, NONE), None);
    assert_eq!(guard_format(Format::Mq2Gptq, ALL), None);
    assert_eq!(exit_code(Refusal::NeedsImatrix), 2);
    assert_eq!(exit_code(Refusal::NeedsMq3Lloyd), 2);
    assert_eq!(exit_code(Refusal::Mq2Reserved), 1);
    assert_eq!(exit_code(Refusal::Mq3LloydResearch), 1);
    assert_eq!(exit_code(Refusal::Mq2LloydResearch), 1);
}

#[test]
fn options_are_found_first_to_last() {
    let args: Vec<String> = ["quantize", "--input", "a", "--input", "b"]
        .iter()
        .map(|s| s.to_string())
        .collect();
    assert_eq!(find_option(&args, "--input"), Some(1));
    assert_eq!(find_option(&args, "b"), Some(4));
    assert_eq!(find_option(&args, "--output"), None);
    assert!(is_allowed(true, None));
    assert!(is_allowed(false, Some("1")));
    assert!(!is_allowed(false, Some("true")));
    assert!(!is_allowed(false, None));
}

#[test]
fn threads_default_to_four_fifths() {
    assert_eq!(default_threads(0), 1);
    assert_eq!(default_threads(1), 1);
    assert_eq!(default_threads(8), 6);
    assert_eq!(default_threads(24), 19);
    assert_eq!(default_threads(usize::MAX), usize::MAX / 10 * 8 + 4);
    assert_eq!(thread_count(Some("3"), Some("5"), 8), 3);
    assert_eq!(thread_count(Some("x"), Some("5"), 8), 5);
    assert_eq!(thread_count(None, Some("-1"), 8), 6);
    assert_eq!(thread_count(Some("+2"), None, 8), 2);
}

#[test]
fn modes_and_switches() {
    assert_eq!(parse_kmap_mode("full"), Some(0));
    assert_eq!(parse_kmap_mode("alt"), Some(1));
    assert_eq!(parse_kmap_mode("2"), Some(2));
    assert_eq!(parse_kmap_mode("3"), None);
    assert_eq!(kmap_mode(None), 1);
    assert_eq!(kmap_mode(Some("nonsense")), 1);
    assert_eq!(kmap_mode(Some("typed")), 2);
    assert!(kmap_enabled(false, true, false));
    assert!(kmap_enabled(false, false, true));
    assert!(!kmap_enabled(false, false, false));
    assert!(!kmap_enabled(true, true, true));
}

#[test]
fn architectures_have_numbers() {
    assert_eq!(arch_id("llama"), Some(0));
    assert_eq!(arch_id("qwen2"), Some(1));
    assert_eq!(arch_id("qwen3_5_text"), Some(5));
    assert_eq!(arch_id("qwen3_5_moe"), Some(6));
    assert_eq!(arch_id("deepseek_v4"), Some(7));
    assert_eq!(arch_id("gpt2"), None);
    assert_eq!(gguf_arch_id("qwen3moe"), Some(6));
    assert_eq!(gguf_arch_id("qwen3"), Some(1));
    assert_eq!(gguf_arch_id("deepseek_v4"), None);
}

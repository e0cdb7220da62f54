use inkflow::cost::estimate_api_cost;
use inkflow::counter::{count_tokens_batch, count_tokens_exact, TokenCounter, TokenError};
use inkflow::truncate::{boundary_cut, smart_truncate_text};


fn reference_count(text: &str) -> usize {
    let bpe = tiktoken_rs::cl100k_base().unwrap();
    bpe.encode_ordinary(text).len()
}

#[test]
fn count_hello_world_matches_reference_table() {
    let counter = TokenCounter::new();
    let expected = reference_count("Hello, world!");
    assert!(expected > 0);
    assert!(expected <= "Hello, world!".len());
    let got = counter.count_tokens("Hello, world!", "gpt-4").unwrap();
    assert_eq!(got, expected);
}

#[test]
fn count_empty_is_zero_for_every_model() {
    let counter = TokenCounter::new();
    for model in ["gpt-4", "gpt-4-turbo", "gpt-3.5-turbo", "gpt-3.5", "anything-else", ""] {
        assert_eq!(counter.count_tokens("", model).unwrap(), 0);
    }
}

#[test]
fn truncate_empty_is_empty() {
    let counter = TokenCounter::new();
    for k in [0usize, 1, 5, 1000] {
        let out = smart_truncate_text(&counter, "", k, "gpt-4").unwrap();
        assert_eq!(out, "");
    }
}

#[test]
fn truncate_within_budget_is_identity() {
    let counter = TokenCounter::new();
    let text = "Hello, world! This stays whole.";
    let n = counter.count_tokens(text, "gpt-4").unwrap();
    for budget in [n, n + 1, n + 100] {
        let out = smart_truncate_text(&counter, text, budget, "gpt-4").unwrap();
        assert_eq!(out, text);
    }
}

#[test]
fn truncate_keeps_count_within_budget() {
    let counter = TokenCounter::new();
    let text = "First sentence. Second one! Third? 第四句。Fifth keeps going without end";
    let total = counter.count_tokens(text, "gpt-4").unwrap();
    for budget in 0..total + 2 {
        match smart_truncate_text(&counter, text, budget, "gpt-4") {
            Ok(out) => {
                let c = counter.count_tokens(&out, "gpt-4").unwrap();
                assert!(c <= budget, "budget {} gave count {}", budget, c);
            }
            Err(TokenError::DecodeFailed(_)) => {}
            Err(e) => panic!("unexpected error: {:?}", e),
        }
    }
}

#[test]
fn truncate_is_idempotent_on_its_output() {
    let counter = TokenCounter::new();
    let text = "One. Two. Three. Four. Five. Six and some trailing words without a stop";
    let total = counter.count_tokens(text, "gpt-4").unwrap();
    for budget in 0..total + 2 {
        if let Ok(out) = smart_truncate_text(&counter, text, budget, "gpt-4") {
            let again = smart_truncate_text(&counter, &out, budget, "gpt-4").unwrap();
            assert_eq!(again, out);
        }
    }
}

#[test]
fn truncate_prefers_sentence_boundary_in_cjk_text() {
    let counter = TokenCounter::new();
    let text = "第一句。第二句。第三句未完";
    let total = counter.count_tokens(text, "gpt-4").unwrap();
    let mut checked = false;
    let mut budget = total - 1;
    loop {
        match smart_truncate_text(&counter, text, budget, "gpt-4") {
            Ok(out) => {
                assert_eq!(out, "第一句。第二句。");
                checked = true;
                break;
            }
            Err(TokenError::DecodeFailed(_)) => {
                assert!(budget > 0, "no budget produced a decodable prefix");
                budget -= 1;
            }
            Err(e) => panic!("unexpected error: {:?}", e),
        }
    }
    assert!(checked);
}

#[test]
fn truncate_never_splits_a_character() {
    let counter = TokenCounter::new();
    let text = "Hello世界! Mixed 内容 here。\n\nNext 段落 with ascii tail";
    let total = counter.count_tokens(text, "gpt-4").unwrap();
    for budget in 0..total + 1 {
        if let Ok(out) = smart_truncate_text(&counter, text, budget, "gpt-4") {
            assert!(text.starts_with(out.as_str()));
        }
    }
}

#[test]
fn unsupported_model_fails_every_operation() {
    let counter = TokenCounter::empty();
    match counter.count_tokens("text", "gpt-4") {
        Err(TokenError::UnsupportedModel(m)) => assert_eq!(m, "gpt-4"),
        other => panic!("expected UnsupportedModel, got {:?}", other),
    }
    match counter.find_smart_truncate_position("text", 1, "gpt-3.5-turbo") {
        Err(TokenError::UnsupportedModel(m)) => assert_eq!(m, "gpt-3.5-turbo"),
        other => panic!("expected UnsupportedModel, got {:?}", other),
    }
    match smart_truncate_text(&counter, "text", 1, "other-model") {
        Err(TokenError::UnsupportedModel(m)) => assert_eq!(m, "other-model"),
        other => panic!("expected UnsupportedModel, got {:?}", other),
    }
    match estimate_api_cost(&counter, "text", "gpt-4") {
        Err(TokenError::UnsupportedModel(m)) => assert_eq!(m, "gpt-4"),
        other => panic!("expected UnsupportedModel, got {:?}", other),
    }
    match count_tokens_batch(&counter, &vec!["a".to_string()], "gpt-4") {
        Err(TokenError::UnsupportedModel(m)) => assert_eq!(m, "gpt-4"),
        other => panic!("expected UnsupportedModel, got {:?}", other),
    }
}

#[test]
fn batch_counts_match_individual_counts() {
    let counter = TokenCounter::new();
    let texts = vec![
        "Hello, world!".to_string(),
        "".to_string(),
        "第一句。第二句。".to_string(),
        "let x = 42; // code".to_string(),
    ];
    let batch = count_tokens_batch(&counter, &texts, "gpt-4").unwrap();
    assert_eq!(batch.len(), texts.len());
    for (i, t) in texts.iter().enumerate() {
        assert_eq!(batch[i], counter.count_tokens(t, "gpt-4").unwrap());
    }
}

#[test]
fn batch_of_nothing_is_nothing() {
    let counter = TokenCounter::new();
    let batch = count_tokens_batch(&counter, &Vec::new(), "gpt-4").unwrap();
    assert!(batch.is_empty());
}

#[test]
fn count_tokens_exact_delegates() {
    let counter = TokenCounter::new();
    let a = count_tokens_exact(&counter, "some text here", "gpt-4").unwrap();
    let b = counter.count_tokens("some text here", "gpt-4").unwrap();
    assert_eq!(a, b);
}

#[test]
fn resolver_aliases_gpt4_and_gpt35() {
    let counter = TokenCounter::new();
    assert!(counter.get_bpe_for_model("gpt-4").is_some());
    assert!(counter.get_bpe_for_model("gpt-4-turbo").is_some());
    assert!(counter.get_bpe_for_model("gpt-3.5-turbo").is_some());
    assert!(counter.get_bpe_for_model("gpt-3.5").is_some());
    assert!(counter.get_bpe_for_model("totally-unknown").is_some());
    assert!(counter.get_bpe_for_model("").is_some());
    let a = counter.count_tokens("shared table text", "gpt-4").unwrap();
    let b = counter.count_tokens("shared table text", "gpt-3.5-turbo").unwrap();
    assert_eq!(a, b);
}

#[test]
fn estimate_cost_matches_price_table() {
    let counter = TokenCounter::new();
    // one million tokens each; costs are in units of 10^-7 USD
    assert_eq!(counter.estimate_cost(1_000_000, 1_000_000, "gpt-4-turbo"), 400_000_000);
    assert_eq!(counter.estimate_cost(1_000_000, 1_000_000, "gpt-4"), 900_000_000);
    assert_eq!(counter.estimate_cost(1_000_000, 1_000_000, "gpt-3.5-turbo"), 35_000_000);
    assert_eq!(counter.estimate_cost(1_000_000, 1_000_000, "something-else"), 35_000_000);
    assert_eq!(counter.estimate_cost(0, 0, "gpt-4"), 0);
    // as dollars: 1M prompt + 1M completion on gpt-4 is 30 + 60 USD
    let dollars = counter.estimate_cost(1_000_000, 1_000_000, "gpt-4") as f64 / 1e7;
    assert!((dollars - 90.0).abs() < 1e-9);
}

#[test]
fn cost_of_gpt4_dominates_gpt35() {
    let counter = TokenCounter::new();
    for (p, c) in [(0u32, 0u32), (1, 0), (0, 1), (100, 40), (1_000_000, 400_000), (u32::MAX, u32::MAX)] {
        let four = counter.estimate_cost(p, c, "gpt-4");
        let three_five = counter.estimate_cost(p, c, "gpt-3.5-turbo");
        assert!(four >= three_five);
    }
}

#[test]
fn api_cost_assumes_two_fifths_completion() {
    let counter = TokenCounter::new();
    let prompt = "Words that will be counted by the codec, 多语言混合 text.";
    let p = counter.count_tokens(prompt, "gpt-4").unwrap() as u128;
    let c = 2 * p / 5;
    let expected = p * 300 + c * 600;
    assert_eq!(estimate_api_cost(&counter, prompt, "gpt-4").unwrap(), expected);
}

#[test]
fn boundary_cut_prefers_last_terminator() {
    assert_eq!(boundary_cut("ab. cd! ef"), 7);
    assert_eq!(boundary_cut("没有终结符"), 5);
    assert_eq!(boundary_cut("one\n\ntwo"), 3);
    assert_eq!(boundary_cut("end with stop."), 14);
    assert_eq!(boundary_cut(""), 0);
    assert_eq!(boundary_cut("句号。之后还有字"), 3);
}

#[test]
fn truncate_budget_zero_empties_nonempty_text() {
    let counter = TokenCounter::new();
    let out = smart_truncate_text(&counter, "non-empty text", 0, "gpt-4").unwrap();
    assert_eq!(out, "");
}

#[test]
fn truncate_position_is_full_length_within_budget() {
    let counter = TokenCounter::new();
    let text = "short 文本";
    let n = counter.count_tokens(text, "gpt-4").unwrap();
    let pos = counter.find_smart_truncate_position(text, n, "gpt-4").unwrap();
    assert_eq!(pos, text.chars().count());
}

#[test]
fn longer_model_prefixes_pick_the_more_specific_tier() {
    let counter = TokenCounter::new();
    let turbo = counter.estimate_cost(1_000_000, 0, "gpt-4-turbo-preview");
    assert_eq!(turbo, 100_000_000);
    let four_o = counter.estimate_cost(1_000_000, 0, "gpt-4o");
    assert_eq!(four_o, 300_000_000);
}

//! Response framing, verdicts, and token accounting.

use rustgscholar::llm_filter::extract_json;
use rustgscholar::llm_filter::verdict_from_parse;
use rustgscholar::llm_filter::AtomicTokenUsage;
use rustgscholar::llm_filter::TokenUsage;
use rustgscholar::llm_filter::VerdictFields;

#[test]
fn test_extract_json_plain() {
    let input = r#"{"label": "relevant", "confidence": 0.9, "evidence": [], "reason": "test"}"#;
    let result = extract_json(input);
    assert!(result.contains("\"label\": \"relevant\""));
}

#[test]
fn test_extract_json_code_block() {
    let input = r#"```json
{"label": "relevant", "confidence": 0.9, "evidence": [], "reason": "test"}
```"#;
    let result = extract_json(input);
    assert!(result.contains("\"label\": \"relevant\""));
}

#[test]
fn test_extract_json_with_text() {
    let input = r#"Here is the result: {"label": "irrelevant", "confidence": 0.8, "evidence": ["stock"], "reason": "not related"}"#;
    let result = extract_json(input);
    assert!(result.starts_with('{'));
    assert!(result.ends_with('}'));
}

#[test]
fn test_parse_llm_response() {
    // the body the classification source answered, framed and parsed
    // the way the I/O driver does, then turned into a verdict
    let content = r#"{"label": "relevant", "confidence": 0.95, "evidence": ["landslide", "slope"], "reason": "Explicitly involves landslide research"}"#;
    let framed = extract_json(content);
    let value: serde_json::Value = serde_json::from_str(&framed).unwrap();
    let fields = VerdictFields {
        label: value["label"].as_str().unwrap().to_string(),
        confidence: value["confidence"].to_string(),
        evidence: value["evidence"]
            .as_array()
            .unwrap()
            .iter()
            .map(|e| e.as_str().unwrap().to_string())
            .collect(),
        reason: value["reason"].as_str().unwrap().to_string(),
    };
    let result = verdict_from_parse(Some(fields), "10.1234/test", "Test Paper", "");
    assert_eq!(result.label, "relevant");
    assert_eq!(result.confidence, "0.95");
    assert!(result.evidence.contains("landslide"));
    assert!(result.evidence.contains("slope"));
}

#[test]
fn test_verdict_out_of_set_label_is_uncertain() {
    // the label set is closed: anything else counts as uncertain
    let fields = VerdictFields {
        label: "banana".to_string(),
        confidence: "0.7".to_string(),
        evidence: vec!["fruit".to_string()],
        reason: "off-topic answer".to_string(),
    };
    let r = verdict_from_parse(Some(fields), "10.1/x", "T", "");
    assert_eq!(r.label, "uncertain");
    assert_eq!(r.confidence, "0.7");
    assert_eq!(r.evidence, "fruit");
    assert_eq!(r.reason, "off-topic answer");

    for ok in ["relevant", "irrelevant", "uncertain"] {
        let fields = VerdictFields {
            label: ok.to_string(),
            confidence: "0.5".to_string(),
            evidence: Vec::new(),
            reason: String::new(),
        };
        let r = verdict_from_parse(Some(fields), "10.1/x", "T", "");
        assert_eq!(r.label, ok);
    }
}

#[test]
fn test_verdict_parse_failure_is_uncertain() {
    let r = verdict_from_parse(None, "10.1/x", "T", "expected value at line 1");
    assert_eq!(r.label, "uncertain");
    assert_eq!(r.confidence, "0.0");
    assert_eq!(r.evidence, "");
    assert_eq!(r.reason, "Parse error: expected value at line 1");
    assert_eq!(r.id, "10.1/x");
    assert_eq!(r.title, "T");
}

#[test]
fn test_token_accumulation_order_independent() {
    // a hundred workers each reporting one prompt and one completion
    // token sum to the same totals in any completion order
    let unit = TokenUsage {
        prompt_tokens: 1,
        completion_tokens: 1,
        total_tokens: 2,
    };
    let mut forward = AtomicTokenUsage::new();
    for _ in 0..100 {
        forward.add(&unit);
    }
    let f = forward.get();
    assert_eq!(f.prompt_tokens, 100);
    assert_eq!(f.completion_tokens, 100);
    assert_eq!(f.total_tokens, 200);

    // mixed magnitudes in two different orders agree too
    let reports = [
        TokenUsage { prompt_tokens: 7, completion_tokens: 1, total_tokens: 8 },
        TokenUsage { prompt_tokens: 2, completion_tokens: 9, total_tokens: 11 },
        TokenUsage { prompt_tokens: 5, completion_tokens: 5, total_tokens: 10 },
    ];
    let mut a = AtomicTokenUsage::new();
    let mut b = AtomicTokenUsage::new();
    for r in reports.iter() {
        a.add(r);
    }
    for r in reports.iter().rev() {
        b.add(r);
    }
    assert_eq!(a.get(), b.get());
}

#[test]
fn test_token_accumulation_saturates() {
    let mut acc = AtomicTokenUsage::new();
    acc.add(&TokenUsage {
        prompt_tokens: u64::MAX - 1,
        completion_tokens: 0,
        total_tokens: 0,
    });
    acc.add(&TokenUsage { prompt_tokens: 5, completion_tokens: 1, total_tokens: 1 });
    let t = acc.get();
    assert_eq!(t.prompt_tokens, u64::MAX);
    assert_eq!(t.completion_tokens, 1);
}

use predictions::record::PredictionRecord;

#[test]
fn new_record_is_empty() {
    let record = PredictionRecord::new();
    assert!(record.is_empty());
    assert_eq!(record.len(), 0);
    assert_eq!(record.get("score_a"), None);
    assert!(record.field(0).is_none());
}

#[test]
fn insert_then_get_gives_the_score_bits() {
    let mut record = PredictionRecord::new();
    assert_eq!(record.insert(String::from("score_a"), 0.8f32.to_bits()), None);
    assert_eq!(record.insert(String::from("score_b"), 0.1f32.to_bits()), None);
    assert_eq!(record.len(), 2);
    assert!(!record.is_empty());
    assert_eq!(record.get("score_a"), Some(0x3f4c_cccd));
    assert_eq!(record.get("score_b").map(f32::from_bits), Some(0.1f32));
    assert_eq!(record.get("score_c"), None);
}

#[test]
fn insert_under_a_held_name_replaces_the_score() {
    let mut record = PredictionRecord::new();
    assert_eq!(record.insert(String::from("score"), 1), None);
    assert_eq!(record.insert(String::from("other"), 2), None);
    assert_eq!(record.insert(String::from("score"), 3), Some(1));
    assert_eq!(record.len(), 2);
    assert_eq!(record.get("score"), Some(3));
    assert_eq!(record.get("other"), Some(2));
}

#[test]
fn fields_are_walked_once_each() {
    let mut record = PredictionRecord::new();
    record.insert(String::from("a"), 10);
    record.insert(String::from("b"), 20);
    record.insert(String::from("a"), 30);
    let mut seen = Vec::new();
    let mut at = 0;
    while let Some(field) = record.field(at) {
        seen.push((field.name.clone(), field.score));
        at += 1;
    }
    assert_eq!(at, record.len());
    seen.sort();
    assert_eq!(seen, vec![(String::from("a"), 30), (String::from("b"), 20)]);
    assert!(record.field(2).is_none());
}

#[test]
fn records_are_equal_whatever_the_order_of_their_fields() {
    let mut left = PredictionRecord::new();
    left.insert(String::from("score_a"), 1);
    left.insert(String::from("score_b"), 2);
    let mut right = PredictionRecord::new();
    right.insert(String::from("score_b"), 2);
    right.insert(String::from("score_a"), 1);
    assert!(left == right);
    assert!(right == left);
}

#[test]
fn records_differ_by_score_name_or_size() {
    let mut base = PredictionRecord::new();
    base.insert(String::from("score_a"), 1);
    base.insert(String::from("score_b"), 2);

    let mut other_score = PredictionRecord::new();
    other_score.insert(String::from("score_a"), 1);
    other_score.insert(String::from("score_b"), 3);
    assert!(base != other_score);

    let mut other_name = PredictionRecord::new();
    other_name.insert(String::from("score_a"), 1);
    other_name.insert(String::from("score_c"), 2);
    assert!(base != other_name);

    let mut smaller = PredictionRecord::new();
    smaller.insert(String::from("score_a"), 1);
    assert!(base != smaller);
    assert!(smaller != base);

    assert!(PredictionRecord::new() == PredictionRecord::new());
    assert!(base != PredictionRecord::new());
}

#[test]
fn names_are_compared_exactly() {
    let mut record = PredictionRecord::new();
    record.insert(String::from("Score"), 1);
    record.insert(String::from("score"), 2);
    record.insert(String::from("sc\u{f6}re"), 3);
    record.insert(String::new(), 4);
    assert_eq!(record.len(), 4);
    assert_eq!(record.get("Score"), Some(1));
    assert_eq!(record.get("score"), Some(2));
    assert_eq!(record.get("sc\u{f6}re"), Some(3));
    assert_eq!(record.get(""), Some(4));
    assert_eq!(record.get("score "), None);
}

use flower_classifier::classify_scores;
use flower_classifier::label_for;
use flower_classifier::labels::LABEL_COUNT;
use flower_classifier::Error;

#[test]
fn top_scores_sorted_and_capped() {
    let scores: Vec<u32> = vec![100, 9000, 500, 200, 42];
    let r = classify_scores(&scores);
    assert_eq!(r.len(), 3);
    assert_eq!(r[0].label, "dandelion");
    assert_eq!(r[0].score, 9000);
    assert_eq!(r[1].label, "rose");
    assert_eq!(r[1].score, 500);
    assert_eq!(r[2].label, "sunflower");
    assert_eq!(r[2].score, 200);
    assert!(r[0].score >= r[1].score && r[1].score >= r[2].score);
}

#[test]
fn empty_scores_give_empty_result() {
    let scores: Vec<u32> = vec![];
    let r = classify_scores(&scores);
    assert_eq!(r.len(), 0);
}

#[test]
fn fewer_classes_than_three() {
    let one: Vec<u32> = vec![7];
    let r = classify_scores(&one);
    assert_eq!(r.len(), 1);
    assert_eq!(r[0].label, "daisy");
    assert_eq!(r[0].score, 7);

    let two: Vec<u32> = vec![3, 9];
    let r = classify_scores(&two);
    assert_eq!(r.len(), 2);
    assert_eq!(r[0].label, "dandelion");
    assert_eq!(r[1].label, "daisy");
}

#[test]
fn tie_keeps_original_index_order() {
    let scores: Vec<u32> = vec![500, 9000, 500];
    let r = classify_scores(&scores);
    assert_eq!(r.len(), 3);
    assert_eq!(r[0].label, "dandelion");
    assert_eq!(r[1].label, "daisy");
    assert_eq!(r[2].label, "rose");
    assert_eq!(r[1].score, 500);
    assert_eq!(r[2].score, 500);
}

#[test]
fn all_equal_scores_keep_table_order() {
    let scores: Vec<u32> = vec![100, 100, 100, 100, 100];
    let r = classify_scores(&scores);
    assert_eq!(r.len(), 3);
    assert_eq!(r[0].label, "daisy");
    assert_eq!(r[1].label, "dandelion");
    assert_eq!(r[2].label, "rose");
}

#[test]
fn top_label_is_first_table_entry_when_index_zero_wins() {
    let scores: Vec<u32> = vec![9000, 500, 200, 200, 100];
    let r = classify_scores(&scores);
    assert_eq!(r[0].label, "daisy");
    assert_eq!(r[0].score, 9000);
}

#[test]
fn index_three_maps_to_sunflower() {
    let scores: Vec<u32> = vec![100, 100, 100, 9000, 100];
    let r = classify_scores(&scores);
    assert_eq!(r[0].label, "sunflower");
    assert_eq!(r[0].score, 9000);
}

#[test]
fn indices_past_the_table_fall_back_to_unknown() {
    let scores: Vec<u32> = vec![1, 2, 3, 4, 5, 6];
    let r = classify_scores(&scores);
    assert_eq!(r.len(), 3);
    assert_eq!(r[0].label, "unknown");
    assert_eq!(r[0].score, 6);
    assert_eq!(r[1].label, "tulip");
    assert_eq!(r[2].label, "sunflower");
}

#[test]
fn stub_logits_rank_sunflower_first() {
    // The softmax and the score scaling the application applies, on the
    // fixed stub logits: the sunflower class must come out on top with a
    // score close to 97 percent.
    let logits: [f32; 5] = [0.1, 0.1, 0.1, 5.0, 0.1];
    let exps: Vec<f32> = logits.iter().map(|x| x.exp()).collect();
    let sum: f32 = exps.iter().sum();
    let scores: Vec<u32> = exps
        .iter()
        .map(|x| ((x / sum) * 10000.0).round().clamp(0.0, 10000.0) as u32)
        .collect();
    let r = classify_scores(&scores);
    assert_eq!(r.len(), 3);
    assert_eq!(r[0].label, "sunflower");
    assert!(r[0].score >= 9000);
    for c in &r {
        assert!(c.score <= 10000);
    }
    let total: u32 = scores.iter().sum();
    assert!(total >= 9998 && total <= 10002);
}

#[test]
fn label_table_is_fixed() {
    assert_eq!(label_for(0), "daisy");
    assert_eq!(label_for(1), "dandelion");
    assert_eq!(label_for(2), "rose");
    assert_eq!(label_for(3), "sunflower");
    assert_eq!(label_for(4), "tulip");
    assert_eq!(label_for(LABEL_COUNT), "unknown");
    assert_eq!(label_for(1000), "unknown");
}

#[test]
fn error_messages_name_each_failure() {
    assert_eq!(
        Error::Initialization.message(),
        "model bytes could not be loaded or compiled"
    );
    assert_eq!(Error::Decode.message(), "input bytes are not a decodable image");
    assert_eq!(Error::Execution.message(), "inference run failed");
    assert_eq!(Error::Uninitialized.message(), "classifier used before setup");
    assert_eq!(Error::Decode, Error::Decode);
    assert_ne!(Error::Decode, Error::Execution);
}

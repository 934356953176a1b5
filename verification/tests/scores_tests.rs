use ocean_chat::scores::Scores;

#[test]
fn test_distance_same_scores() {
    let scores1 = Scores::new(450, 320, 500, 280, 350).unwrap();
    let scores2 = Scores::new(450, 320, 500, 280, 350).unwrap();
    assert_eq!(scores1.distance_sq(&scores2), 0);
}

#[test]
fn test_distance_known_value() {
    // components differ by 10.00 in each of the five traits:
    // five times 1000^2 = 5_000_000
    let a = Scores::new(0, 0, 0, 0, 0).unwrap();
    let b = Scores::new(1000, 1000, 1000, 1000, 1000).unwrap();
    assert_eq!(a.distance_sq(&b), 5_000_000);
    assert_eq!(b.distance_sq(&a), 5_000_000);
}

#[test]
fn test_new_rejects_out_of_range() {
    assert!(Scores::new(10_001, 0, 0, 0, 0).is_none());
    assert!(Scores::new(0, 0, 0, 0, 10_001).is_none());
    assert!(Scores::new(10_000, 10_000, 10_000, 10_000, 10_000).is_some());
}

#[test]
fn test_mid_is_half() {
    let m = Scores::mid();
    assert_eq!(m.o, 5000);
    assert_eq!(m.n, 5000);
    assert_eq!(m.to_text(), "50.00,50.00,50.00,50.00,50.00");
}

#[test]
fn test_text_round_trip() {
    let sc = Scores::new(123, 10_000, 0, 9_999, 5_050).unwrap();
    let text = sc.to_text();
    assert_eq!(text, "1.23,100.00,0.00,99.99,50.50");
    let back = Scores::from_text(&text).unwrap();
    assert_eq!(back, sc);
}

#[test]
fn test_from_text_integer_components() {
    // the path parameter may carry plain integers, as in 0,0,0,0,0
    let sc = Scores::from_text("0,0,0,0,0").unwrap();
    assert_eq!(sc, Scores::new(0, 0, 0, 0, 0).unwrap());
    let sc = Scores::from_text("90,90,90,90,90").unwrap();
    assert_eq!(sc, Scores::new(9000, 9000, 9000, 9000, 9000).unwrap());
    let sc = Scores::from_text("50.5,50,50.25,100,0.0").unwrap();
    assert_eq!(sc, Scores::new(5050, 5000, 5025, 10_000, 0).unwrap());
}

#[test]
fn test_from_text_rejects_bad_input() {
    assert!(Scores::from_text("").is_none());
    assert!(Scores::from_text("50,50,50,50").is_none());
    assert!(Scores::from_text("50,50,50,50,50,50").is_none());
    assert!(Scores::from_text("101,50,50,50,50").is_none());
    assert!(Scores::from_text("100.01,0,0,0,0").is_none());
    assert!(Scores::from_text("50,abc,50,50,50").is_none());
    assert!(Scores::from_text("50,,50,50,50").is_none());
    assert!(Scores::from_text("50.123,50,50,50,50").is_none());
    assert!(Scores::from_text("50.,50,50,50,50").is_none());
}

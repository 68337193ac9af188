use smppgc::profanity::ProfFilter;

#[test]
fn clean_text_passes_through() {
    let f = ProfFilter::new();
    assert_eq!(f.filter("good morning"), "good morning");
}

#[test]
fn added_words_are_replaced() {
    let mut f = ProfFilter::new();
    assert_eq!(f.filter("gravel path"), "gravel path");
    f.add_word("gravel");
    let censored = f.filter("gravel path");
    assert_ne!(censored, "gravel path");
    assert!(censored.ends_with(" path"));
    assert!(censored.starts_with('#'));
}

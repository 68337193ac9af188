use smppgc::stringtree::StringTree;

#[test]
fn common_str() {
    assert_eq!(StringTree::common_str("apple", "able"), "a");
    assert_eq!(StringTree::common_str("able", "apple"), "a");
    assert_eq!(StringTree::common_str("box", "boy"), "bo");
    assert_eq!(StringTree::common_str("boy", "box"), "bo");
    assert_eq!(StringTree::common_str("bo", "box"), "bo");
    assert_eq!(StringTree::common_str("cow", "through"), "");
}

#[test]
fn build_test() {
    let wordlist = "able\nability\nboy\nbox\ncall\napple";
    let words: Vec<String> = wordlist.lines().map(|s| s.to_string()).collect();
    let tree = StringTree::from_iter(words);
    let manual = StringTree::new_node(
        "",
        vec![
            StringTree::new_node(
                "a",
                vec![
                    StringTree::new_leaf("apple".to_string()),
                    StringTree::new_node(
                        "ab",
                        vec![
                            StringTree::new_leaf("able".to_string()),
                            StringTree::new_leaf("ability".to_string()),
                        ],
                    ),
                ],
            ),
            StringTree::new_node(
                "bo",
                vec![
                    StringTree::new_leaf("boy".to_string()),
                    StringTree::new_leaf("box".to_string()),
                ],
            ),
            StringTree::new_leaf("call".to_string()),
        ],
    );

    assert_eq!(tree, manual);
}

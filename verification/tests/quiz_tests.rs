use quiz_board::quiz::{Category, Clue, LoadError, Quiz};

fn category(name: &str, clues: &[&str]) -> Category {
    Category {
        name: String::from(name),
        clues: clues.iter().map(|t| Clue { text: String::from(*t) }).collect(),
    }
}

#[test]
fn a_valid_document_loads() {
    let cats = vec![
        category("Movies", &["m200", "m400"]),
        category("History", &["h200", "h400"]),
    ];
    let quiz = Quiz::new(Some(String::from("Night Quiz")), None, cats, 2).unwrap();
    assert_eq!(quiz.name.as_deref(), Some("Night Quiz"));
    assert!(quiz.author.is_none());
    assert_eq!(quiz.categories.len(), 2);
    assert_eq!(quiz.categories[1].name, "History");
    assert_eq!(quiz.categories[1].clues[0].text, "h200");
}

#[test]
fn zero_tiers_is_rejected() {
    let r = Quiz::new(None, None, vec![category("Movies", &[])], 0);
    assert_eq!(r.err().unwrap(), LoadError::NoClueTiers);
}

#[test]
fn an_empty_document_is_rejected() {
    let r = Quiz::new(None, None, Vec::new(), 5);
    assert_eq!(r.err().unwrap(), LoadError::NoCategories);
}

#[test]
fn an_unnamed_category_is_rejected() {
    let cats = vec![category("Movies", &["a", "b"]), category("", &["c", "d"])];
    let r = Quiz::new(None, None, cats, 2);
    assert_eq!(r.err().unwrap(), LoadError::UnnamedCategory { index: 1 });
}

#[test]
fn a_category_with_the_wrong_clue_count_is_rejected() {
    let cats = vec![category("Movies", &["a", "b"]), category("History", &["c"])];
    let r = Quiz::new(None, None, cats, 2);
    assert_eq!(
        r.err().unwrap(),
        LoadError::ClueCountMismatch { index: 1, found: 1, expected: 2 }
    );
}

#[test]
fn the_name_check_comes_before_the_count_check() {
    let cats = vec![category("", &["only one"])];
    let r = Quiz::new(None, None, cats, 2);
    assert_eq!(r.err().unwrap(), LoadError::UnnamedCategory { index: 0 });
}

#[test]
fn load_errors_describe_themselves() {
    assert_eq!(
        LoadError::NoCategories.message(),
        "quiz document holds no categories"
    );
    assert_eq!(
        LoadError::NoClueTiers.message(),
        "quiz document declares no value tiers"
    );
    assert_eq!(
        LoadError::UnnamedCategory { index: 3 }.message(),
        "a category is missing its name"
    );
    assert_eq!(
        LoadError::ClueCountMismatch { index: 0, found: 4, expected: 5 }.message(),
        "a category has the wrong number of clues"
    );
}

#[test]
fn clues_are_indexed_column_major() {
    let cats = vec![
        category("Movies", &["m200", "m400", "m600"]),
        category("History", &["h200", "h400", "h600"]),
    ];
    let quiz = Quiz::new(None, None, cats, 3).unwrap();
    assert_eq!(quiz.cols(), 2);
    assert_eq!(quiz.rows(), 3);
    // index = column * rows + row
    assert_eq!(quiz.get_clue(0), "m200");
    assert_eq!(quiz.get_clue(1), "m400");
    assert_eq!(quiz.get_clue(2), "m600");
    assert_eq!(quiz.get_clue(3), "h200");
    assert_eq!(quiz.get_clue(5), "h600");
}

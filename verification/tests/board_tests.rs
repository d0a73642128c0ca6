use quiz_board::board::{find_hit, Board, BoardMode};
use quiz_board::quiz::{Category, Clue, Quiz};

fn category(name: &str, clues: &[&str]) -> Category {
    Category {
        name: String::from(name),
        clues: clues.iter().map(|t| Clue { text: String::from(*t) }).collect(),
    }
}

/// A 2-category, 2-clue quiz on a 400 by 400 window. Columns anchor at
/// 330 and 130, the grid's rows at 165 and 65; recentered, tile k sits at
/// (130, -35), (130, -135), (-70, -35), (-70, -135) with half-extents
/// 100 by 50.
fn small_board() -> Board {
    let cats = vec![
        category("Movies", &["m200", "m400"]),
        category("History", &["h200", "h400"]),
    ];
    let quiz = Quiz::new(Some(String::from("Quiz Night")), None, cats, 2).unwrap();
    Board::build(quiz, 400, 400)
}

#[test]
fn the_board_builds_one_tile_per_clue() {
    let board = small_board();
    assert_eq!(board.tiles.len(), 4);
    assert_eq!(board.value_labels.len(), 4);
    assert_eq!(board.headers.len(), 2);
    // index = column * rows + row, a bijection onto the grid
    let mut seen = [[false; 2]; 2];
    for (k, t) in board.tiles.iter().enumerate() {
        assert_eq!(t.col, k / 2);
        assert_eq!(t.row, k % 2);
        assert!(!seen[t.col][t.row]);
        seen[t.col][t.row] = true;
        assert!(!t.revealed);
    }
    assert_eq!(board.mode, BoardMode::Idle);
    assert!(board.overlay.is_none());
}

#[test]
fn the_board_is_laid_out_on_the_band_anchors() {
    let board = small_board();
    assert_eq!((board.tiles[0].cx, board.tiles[0].cy), (130, -35));
    assert_eq!((board.tiles[1].cx, board.tiles[1].cy), (130, -135));
    assert_eq!((board.tiles[2].cx, board.tiles[2].cy), (-70, -35));
    assert_eq!((board.tiles[3].cx, board.tiles[3].cy), (-70, -135));
    assert_eq!((board.tiles[0].half_w, board.tiles[0].half_h), (100, 50));
    assert_eq!(board.title.text, "Quiz Night");
    assert_eq!((board.title.x, board.title.y), (0, 165));
    assert!(board.title.visible);
    assert_eq!(board.headers[0].text, "Movies");
    assert_eq!(board.headers[1].text, "History");
    assert_eq!((board.headers[0].x, board.headers[0].y), (130, 65));
    assert_eq!((board.headers[1].x, board.headers[1].y), (-70, 65));
    assert_eq!(board.value_labels[0].text, "$200");
    assert_eq!(board.value_labels[1].text, "$400");
    assert_eq!(board.value_labels[2].text, "$200");
    assert_eq!(board.value_labels[3].text, "$400");
    assert!(board.value_labels.iter().all(|l| l.visible));
}

#[test]
fn a_click_inside_an_unrevealed_tile_shows_its_clue() {
    let mut board = small_board();
    // window point over tile 1: category 0, tier 1
    board.click(330, 65);
    assert_eq!(board.mode, BoardMode::ShowingClue);
    assert_eq!(board.overlay.as_ref().unwrap().text, "m400");
    assert!(board.tiles[1].revealed);
    assert!(board.value_labels.iter().all(|l| !l.visible));
}

#[test]
fn a_click_outside_every_tile_changes_nothing() {
    let mut board = small_board();
    board.click(200, 399);
    assert_eq!(board.mode, BoardMode::Idle);
    assert!(board.overlay.is_none());
    assert!(board.tiles.iter().all(|t| !t.revealed));
    assert!(board.value_labels.iter().all(|l| l.visible));
}

#[test]
fn any_click_dismisses_a_showing_clue() {
    let mut board = small_board();
    board.click(330, 65);
    assert_eq!(board.mode, BoardMode::ShowingClue);
    // dismissal ignores the position entirely
    board.click(0, 0);
    assert_eq!(board.mode, BoardMode::Idle);
    assert!(board.overlay.is_none());
    // the revealed tile's label stays hidden; the others come back
    assert!(board.value_labels[0].visible);
    assert!(!board.value_labels[1].visible);
    assert!(board.value_labels[2].visible);
    assert!(board.value_labels[3].visible);
    assert!(board.tiles[1].revealed);
}

#[test]
fn reclicking_a_revealed_tile_does_not_reopen_the_clue() {
    let mut board = small_board();
    board.click(330, 65);
    board.click(330, 65); // dismiss, same point
    assert_eq!(board.mode, BoardMode::Idle);
    board.click(330, 65); // the tile is revealed: a no-op
    assert_eq!(board.mode, BoardMode::Idle);
    assert!(board.overlay.is_none());
    assert!(!board.value_labels[1].visible);
}

#[test]
fn two_by_two_scenario() {
    let mut board = small_board();
    let expected = board.quiz.categories[0].clues[1].text.clone();
    // the screen point for category 0, tier 1
    board.click(330, 65);
    assert_eq!(board.mode, BoardMode::ShowingClue);
    assert_eq!(board.overlay.as_ref().unwrap().text, expected);
    // a second click anywhere dismisses
    board.click(17, 301);
    assert_eq!(board.mode, BoardMode::Idle);
    assert!(board.overlay.is_none());
    // a third click on the original point is a no-op
    board.click(330, 65);
    assert_eq!(board.mode, BoardMode::Idle);
    assert!(board.overlay.is_none());
    assert!(board.tiles[1].revealed);
}

#[test]
fn tiles_reveal_independently() {
    let mut board = small_board();
    board.click(330, 65); // tile 1
    board.click(0, 0); // dismiss
    board.click(130, 165); // tile 2: category 1, tier 0
    assert_eq!(board.mode, BoardMode::ShowingClue);
    assert_eq!(board.overlay.as_ref().unwrap().text, "h200");
    board.click(0, 0); // dismiss
    assert!(!board.value_labels[1].visible);
    assert!(!board.value_labels[2].visible);
    assert!(board.value_labels[0].visible);
    assert!(board.value_labels[3].visible);
}

#[test]
fn the_hit_test_picks_the_first_unrevealed_tile_in_creation_order() {
    let mut board = small_board();
    assert_eq!(find_hit(&board.tiles, 130, -135), Some(1));
    assert_eq!(find_hit(&board.tiles, -70, -35), Some(2));
    assert_eq!(find_hit(&board.tiles, 5000, 0), None);
    board.tiles[1].revealed = true;
    assert_eq!(find_hit(&board.tiles, 130, -135), None);
}

#[test]
fn a_one_by_one_board_works() {
    let quiz = Quiz::new(None, None, vec![category("Solo", &["only"])], 1).unwrap();
    let mut board = Board::build(quiz, 300, 300);
    assert_eq!(board.tiles.len(), 1);
    assert_eq!(board.title.text, "");
    let x = (board.tiles[0].cx + 150) as u64;
    let y = (board.tiles[0].cy + 150) as u64;
    board.click(x, y);
    assert_eq!(board.mode, BoardMode::ShowingClue);
    assert_eq!(board.overlay.as_ref().unwrap().text, "only");
}

#[test]
fn a_full_size_board_builds_and_plays() {
    let names = ["Alpha", "Beta", "Gamma", "Delta", "Epsilon", "Zeta"];
    let cats: Vec<Category> = names
        .iter()
        .map(|n| category(n, &["a", "b", "c", "d", "e"]))
        .collect();
    let quiz = Quiz::new(Some(String::from("Big Night")), None, cats, 5).unwrap();
    let mut board = Board::build(quiz, 1422, 800);
    assert_eq!(board.tiles.len(), 30);
    assert_eq!(board.headers.len(), 6);
    // column anchors 1339, 1102, ... recentered by 711; rows start two bands
    // down out of seven, so tier 0 anchors at 531 recentered by 400
    assert_eq!((board.tiles[0].cx, board.tiles[0].cy), (628, 131));
    assert_eq!(board.value_labels[4].text, "$1000");
    assert_eq!(board.value_labels[5].text, "$200");
    // click the center of category 0 / tier 0
    board.click(1339, 531);
    assert_eq!(board.mode, BoardMode::ShowingClue);
    assert_eq!(board.overlay.as_ref().unwrap().text, "a");
}

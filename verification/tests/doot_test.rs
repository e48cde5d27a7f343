use doots::ai::doot;
use doots::game::basic_types::edge;
use doots::game::board::Board;
use doots::players::player::{Player, PlayerId};

#[test]
fn test_draw_on_open_board() {
    let ai = doot::AI::new(PlayerId::One);
    let board = Board::new(2);
    let play = ai.play(board);

    assert_eq!(play, edge((2, 1), (2, 2)));
}

#[test]
fn test_draw_to_complete_box() {
    let ai = doot::AI::new(PlayerId::Two);
    let mut board = Board::new(2);
    board
        .draw_many(vec![
            (PlayerId::One, edge((0, 0), (0, 1))),
            (PlayerId::Two, edge((0, 0), (1, 0))),
            (PlayerId::One, edge((1, 0), (1, 1))),
        ])
        .expect("Draw failed");

    let play = ai.play(board);
    assert_eq!(play, edge((0, 1), (1, 1)));
}

#[test]
fn test_doot_names() {
    assert_eq!("Doot One", doot::AI::new(PlayerId::One).name());
    assert_eq!("Doot Two", doot::AI::new(PlayerId::Two).name());
}

#[test]
fn test_doot_avoids_opening_a_box() {
    // On a size-1 board with two edges of the only box drawn, every
    // remaining edge would open the box; with three drawn, the AI must
    // complete it rather than anything else.
    let ai = doot::AI::new(PlayerId::One);
    let mut board = Board::new(1);
    board
        .draw_many(vec![
            (PlayerId::One, edge((0, 0), (0, 1))),
            (PlayerId::Two, edge((0, 0), (1, 0))),
            (PlayerId::One, edge((0, 1), (1, 1))),
        ])
        .expect("Draw failed");
    let play = ai.play(board.clone());
    assert_eq!(play, edge((1, 0), (1, 1)));
    // The returned edge is legal on the board it was computed from.
    assert!(board.validate_draw(play).is_ok());
}

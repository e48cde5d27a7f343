use doots::ai::boox;
use doots::ai::sleepy::{current_nap_plan, Sleepy};
use doots::players::hoomin::Hoomin;
use doots::game::basic_types::{dot, edge, DotBox};
use doots::game::board::{Board, DrawError};
use doots::game::engine::advance_turn;
use doots::players::lineup::{choose_players, PlayerChoice};
use doots::players::player::{Player, PlayerId};

fn fill_board(board: &mut Board) {
    let mut owner = PlayerId::One;
    for e in board.iter_edges() {
        board.draw((owner, e)).expect("Draw failed");
        owner = if owner == PlayerId::One {
            PlayerId::Two
        } else {
            PlayerId::One
        };
    }
}

#[test]
fn edge_count_matches_formula() {
    for size in [1u16, 2, 3, 10, 100] {
        let board = Board::new(size);
        assert_eq!(board.edge_count(), 2 * size * (size + 1));
    }
}

#[test]
fn is_full_iff_all_edges_drawn() {
    let mut board = Board::new(1);
    assert!(!board.is_full());
    let edges = board.iter_edges();
    for (i, e) in edges.iter().enumerate() {
        assert!(!board.is_full());
        board.draw((PlayerId::One, *e)).expect("Draw failed");
        let drawn = i + 1;
        assert_eq!(
            board.is_full(),
            drawn == board.edge_count() as usize
        );
    }
    assert!(board.is_full());
}

#[test]
fn redraw_fails_and_leaves_count_unchanged() {
    let mut board = Board::new(2);
    board
        .draw((PlayerId::One, edge((0, 0), (0, 1))))
        .expect("Draw failed");
    let before = board.iter_owned_edges();

    let result = board.draw((PlayerId::Two, edge((0, 1), (0, 0))));
    assert_eq!(result, Err(DrawError::AlreadyDrawn));
    assert_eq!(before, board.iter_owned_edges());
}

#[test]
fn draw_many_is_all_or_nothing() {
    let mut board = Board::new(2);
    board
        .draw((PlayerId::One, edge((0, 0), (0, 1))))
        .expect("Draw failed");
    let before = board.iter_owned_edges();

    // A duplicate within the batch fails the whole batch.
    let result = board.draw_many(vec![
        (PlayerId::Two, edge((1, 0), (1, 1))),
        (PlayerId::One, edge((1, 1), (1, 0))),
    ]);
    assert_eq!(result, Err(DrawError::AlreadyDrawn));
    assert_eq!(before, board.iter_owned_edges());

    // A duplicate of a drawn edge fails the whole batch.
    let result = board.draw_many(vec![
        (PlayerId::Two, edge((2, 0), (2, 1))),
        (PlayerId::One, edge((0, 1), (0, 0))),
    ]);
    assert_eq!(result, Err(DrawError::AlreadyDrawn));
    assert_eq!(before, board.iter_owned_edges());

    // An invalid edge fails the whole batch.
    let result = board.draw_many(vec![
        (PlayerId::Two, edge((2, 0), (2, 1))),
        (PlayerId::One, edge((0, 0), (1, 1))),
    ]);
    assert_eq!(result, Err(DrawError::InvalidEdge));
    assert_eq!(before, board.iter_owned_edges());

    // An out-of-bounds edge fails the whole batch.
    let result = board.draw_many(vec![
        (PlayerId::Two, edge((2, 0), (2, 1))),
        (PlayerId::One, edge((2, 2), (2, 3))),
    ]);
    assert_eq!(result, Err(DrawError::OutOfBounds));
    assert_eq!(before, board.iter_owned_edges());

    // A fully valid batch commits every edge in order.
    let result = board.draw_many(vec![
        (PlayerId::Two, edge((2, 0), (2, 1))),
        (PlayerId::One, edge((1, 0), (1, 1))),
    ]);
    assert_eq!(result, Ok(2));
    assert_eq!(board.iter_owned_edges().len(), 3);
}

#[test]
fn box_owner_appears_only_with_fourth_edge() {
    let mut board = Board::new(2);
    let box_edges = DotBox(dot(0, 0)).edges();
    let owners = [PlayerId::One, PlayerId::Two, PlayerId::One, PlayerId::Two];
    for (i, e) in box_edges.iter().enumerate() {
        assert_eq!(board.box_owner(dot(0, 0)), None);
        board.draw((owners[i], *e)).expect("Draw failed");
    }
    // The fourth edge was drawn by player Two, so the box is theirs.
    assert_eq!(board.box_owner(dot(0, 0)), Some(PlayerId::Two));
    // A dot that names no box owns nothing.
    assert_eq!(board.box_owner(dot(2, 2)), None);
    assert_eq!(board.box_owner(dot(9, 9)), None);
}

#[test]
fn iter_edges_round_trip() {
    let board = Board::new(3);
    let edges = board.iter_edges();
    assert_eq!(edges.len(), board.edge_count() as usize);
    for e in edges.iter() {
        assert!(e.is_valid());
        assert!(board.edge_fits(*e));
    }
    for i in 0..edges.len() {
        for j in (i + 1)..edges.len() {
            assert_ne!(edges[i], edges[j]);
        }
    }
}

#[test]
fn winner_on_full_board_is_not_pending() {
    let mut board = Board::new(2);
    fill_board(&mut board);
    assert!(board.is_full());
    let winner = board.winner();
    assert!(winner != doots::game::basic_types::WinnerResult::NoneYet);
}

#[test]
fn boox_completes_a_box_near_the_opponent() {
    let ai = boox::AI::new(PlayerId::Two);
    let mut board = Board::new(2);
    board
        .draw_many(vec![
            (PlayerId::One, edge((0, 0), (0, 1))),
            (PlayerId::Two, edge((0, 0), (1, 0))),
            (PlayerId::One, edge((1, 0), (1, 1))),
        ])
        .expect("Draw failed");
    let play = ai.play(board.clone());
    assert_eq!(play, edge((0, 1), (1, 1)));
    assert!(board.validate_draw(play).is_ok());
}

#[test]
fn boox_first_move_is_legal() {
    let ai = boox::AI::new(PlayerId::One);
    let board = Board::new(2);
    let play = ai.play(board.clone());
    assert!(board.validate_draw(play).is_ok());
    assert_eq!(play, edge((0, 0), (0, 1)));
}

#[test]
fn sleepy_takes_first_free_edge() {
    let sleepy = Sleepy::new(PlayerId::One);
    let mut board = Board::new(2);
    assert_eq!(sleepy.select_edge(&board), edge((0, 0), (0, 1)));
    board
        .draw((PlayerId::Two, edge((0, 0), (0, 1))))
        .expect("Draw failed");
    assert_eq!(sleepy.select_edge(&board), edge((0, 0), (1, 0)));
}

#[test]
fn sleepy_nap_schedule() {
    assert_eq!(Sleepy::nap_seconds(0), None);
    assert_eq!(Sleepy::nap_seconds(1), Some(1));
    assert_eq!(Sleepy::nap_seconds(2), Some(1));
    assert_eq!(Sleepy::nap_seconds(3), Some(1));
    assert_eq!(Sleepy::nap_seconds(4), Some(1));
    assert_eq!(Sleepy::nap_seconds(5), Some(5));
    assert_eq!(Sleepy::nap_seconds(6), Some(5));
}

#[test]
fn sleepy_nap_plan_has_known_shape() {
    // Exercises the real clock: whatever day it is, the plan is one of
    // the three known outcomes.
    let plan = current_nap_plan();
    assert!(plan == None || plan == Some(1) || plan == Some(5));
}

#[test]
fn sleepy_names() {
    assert_eq!("Sleepy One", Sleepy::new(PlayerId::One).name());
    assert_eq!("Sleepy Two", Sleepy::new(PlayerId::Two).name());
}

#[test]
fn choose_players_maps_names() {
    let players = choose_players("doot", "sleepy");
    assert_eq!(players.len(), 2);
    assert_eq!(players[0].0, PlayerId::One);
    assert_eq!(players[1].0, PlayerId::Two);
    assert!(matches!(players[0].1, PlayerChoice::Doot));
    assert!(matches!(players[1].1, PlayerChoice::Sleepy));

    let players = choose_players("alice", "doot");
    match &players[0].1 {
        PlayerChoice::Hoomin(name) => assert_eq!(name, "alice"),
        other => panic!("expected an interactive player, got {:?}", other),
    }
    assert!(matches!(players[1].1, PlayerChoice::Doot));
}

#[test]
fn advance_turn_tracks_streaks() {
    // Finishing a box keeps the seat and extends the streak.
    assert_eq!(advance_turn(0, 0, 1, 2), (0, 1));
    assert_eq!(advance_turn(1, 3, 2, 3), (1, 4));
    // Not finishing one passes the turn and resets the streak.
    assert_eq!(advance_turn(0, 2, 2, 2), (1, 0));
    assert_eq!(advance_turn(1, 0, 0, 0), (0, 0));
}

#[test]
fn hoomin_names() {
    assert_eq!("Hoomin One", Hoomin::new(PlayerId::One).name());
    assert_eq!("Hoomin Two", Hoomin::new(PlayerId::Two).name());
    assert_eq!(
        "Grace",
        Hoomin::named(PlayerId::One, String::from("Grace")).name()
    );
}

#[test]
fn snapshot_is_equal_but_independent() {
    let mut board = Board::new(2);
    board
        .draw((PlayerId::One, edge((0, 0), (0, 1))))
        .expect("Draw failed");
    let snap = board.snapshot();
    board
        .draw((PlayerId::Two, edge((0, 0), (1, 0))))
        .expect("Draw failed");
    assert_eq!(snap.iter_owned_edges().len(), 1);
    assert_eq!(board.iter_owned_edges().len(), 2);
    assert!(snap.is_free(edge((0, 0), (1, 0))));
}

#[test]
fn largest_supported_board() {
    let board = Board::new(180);
    assert_eq!(board.edge_count(), 65160);
    assert_eq!(board.dot_count(), 32761);
    assert!(!board.is_full());
}

#[test]
fn winner_on_empty_board_is_pending() {
    let board = Board::new(1);
    assert_eq!(board.winner(), doots::game::basic_types::WinnerResult::NoneYet);
}

#[test]
fn draw_error_messages() {
    assert_eq!(
        DrawError::InvalidEdge.message(),
        "cannot draw invalid edge"
    );
    assert_eq!(DrawError::OutOfBounds.message(), "edge does not fit in board");
    assert_eq!(DrawError::AlreadyDrawn.message(), "cannot redraw edge");
}

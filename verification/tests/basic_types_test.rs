use doots::game::basic_types::{dot, edge, DotBox, Edge, WinnerResult};
use doots::players::player::PlayerId;

#[test]
pub fn test_dot_box_edges() {
    assert_eq!(
        DotBox(dot(3, 7)).edges(),
        vec![
            edge((3, 7), (3, 8)),
            edge((3, 8), (4, 8)),
            edge((4, 7), (4, 8)),
            edge((3, 7), (4, 7)),
        ]
    )
}

#[test]
fn test_edge_equality_is_order_insensitive() {
    let a = dot(1, 2);
    let b = dot(1, 3);
    assert_eq!(Edge(a, b), Edge(b, a));
    assert_eq!(Edge(a, b), Edge(a, b));
    assert_ne!(Edge(a, b), Edge(a, dot(2, 2)));
}

#[test]
fn test_dot_box_corners() {
    let dot_box = DotBox(dot(2, 5));
    assert_eq!(dot(2, 5), dot_box.upper_left());
    assert_eq!(dot(2, 6), dot_box.upper_right());
    assert_eq!(dot(3, 6), dot_box.lower_right());
    assert_eq!(dot(3, 5), dot_box.lower_left());
    assert_eq!(edge((2, 5), (2, 6)), dot_box.top());
    assert_eq!(edge((2, 6), (3, 6)), dot_box.right());
    assert_eq!(edge((3, 5), (3, 6)), dot_box.bottom());
    assert_eq!(edge((2, 5), (3, 5)), dot_box.left());
}

#[test]
fn test_edge_is_valid() {
    assert!(edge((0, 0), (0, 1)).is_valid());
    assert!(edge((1, 0), (0, 0)).is_valid());
    assert!(!edge((0, 0), (1, 1)).is_valid());
    assert!(!edge((0, 0), (0, 0)).is_valid());
    assert!(!edge((0, 0), (0, 2)).is_valid());
}

#[test]
fn test_winner_result_equality() {
    assert_eq!(
        WinnerResult::Winner(PlayerId::One, 3),
        WinnerResult::Winner(PlayerId::One, 3)
    );
    assert_ne!(
        WinnerResult::Winner(PlayerId::One, 3),
        WinnerResult::Winner(PlayerId::Two, 3)
    );
    assert_ne!(
        WinnerResult::Winner(PlayerId::One, 3),
        WinnerResult::Winner(PlayerId::One, 2)
    );
    // Tie comparison ignores the order of the tied players.
    assert_eq!(
        WinnerResult::Tie(vec![PlayerId::Two, PlayerId::One], 2),
        WinnerResult::Tie(vec![PlayerId::One, PlayerId::Two], 2)
    );
    assert_ne!(
        WinnerResult::Tie(vec![PlayerId::One, PlayerId::Two], 2),
        WinnerResult::Tie(vec![PlayerId::One, PlayerId::Two], 3)
    );
    assert_ne!(WinnerResult::NoneYet, WinnerResult::Winner(PlayerId::One, 0));
    assert_eq!(WinnerResult::NoneYet, WinnerResult::NoneYet);
}

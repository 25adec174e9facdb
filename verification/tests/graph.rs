use git_viz::graph::{allocate_lane, build_graph, Node};
use git_viz::oid::Oid;

fn oid(n: u8) -> Oid {
    let mut bytes = [0u8; 20];
    bytes[19] = n;
    Oid { bytes }
}

fn node(n: u8, parents: &[u8]) -> Node {
    Node {
        oid: oid(n),
        parents: parents.iter().map(|p| oid(*p)).collect(),
    }
}

#[test]
fn a_line_of_commits_has_one_lane() {
    let rows = build_graph(&vec![node(3, &[2]), node(2, &[1]), node(1, &[])]);
    assert_eq!(rows, vec!["● ", "● ", "● "]);
}

#[test]
fn a_merge_opens_a_lane_and_closes_it() {
    // 4 merges 2 and 3, both children of 1.
    let rows = build_graph(&vec![
        node(4, &[2, 3]),
        node(3, &[1]),
        node(2, &[1]),
        node(1, &[]),
    ]);
    assert_eq!(rows, vec!["● ", "│ ● ", "● │ ", "●   "]);
}

#[test]
fn a_free_lane_is_used_again() {
    // Two unrelated roots, then a third branch tip takes the freed lane.
    let rows = build_graph(&vec![
        node(5, &[4]),
        node(9, &[]),
        node(8, &[]),
        node(4, &[]),
    ]);
    assert_eq!(rows, vec!["● ", "│ ● ", "│ ● ", "●   "]);
}

#[test]
fn every_row_has_exactly_one_node() {
    let history = vec![
        node(7, &[6, 5, 4]),
        node(6, &[3]),
        node(5, &[3]),
        node(4, &[3]),
        node(3, &[1, 2]),
        node(2, &[1]),
        node(1, &[]),
    ];
    let rows = build_graph(&history);
    assert_eq!(rows.len(), history.len());
    for row in rows {
        assert_eq!(row.chars().filter(|c| *c == '●').count(), 1, "{row:?}");
        assert_eq!(row.chars().count() % 2, 0);
    }
}

#[test]
fn lanes_are_reserved_from_the_left() {
    let mut lanes = vec![Some(oid(1)), None, Some(oid(2))];
    assert_eq!(allocate_lane(&mut lanes, oid(3)), 1);
    assert_eq!(allocate_lane(&mut lanes, oid(4)), 3);
    assert_eq!(lanes.len(), 4);
    assert!(lanes[1].unwrap().same(&oid(3)));
    assert!(lanes[3].unwrap().same(&oid(4)));
}

#[test]
fn an_empty_history_has_no_rows() {
    assert!(build_graph(&Vec::new()).is_empty());
}

#[test]
fn rails_run_down_to_the_parents() {
    // 5 and 4 are tips; 5's parent 1 is drawn three rows below.
    let rows = build_graph(&vec![
        node(5, &[1]),
        node(4, &[3]),
        node(3, &[2]),
        node(2, &[1]),
        node(1, &[]),
    ]);
    assert_eq!(rows, vec!["● ", "│ ● ", "│ ● ", "│ ● ", "●   "]);
}

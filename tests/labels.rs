use graph_layout::{number_labels, Graph};

fn row(a: &str, b: &str) -> [String; 2] {
    [a.to_string(), b.to_string()]
}

#[test]
fn labels_are_numbered_in_first_seen_order() {
    let rows = vec![row("b", "a"), row("a", "c"), row("c", "b"), row("b", "b")];
    let (labels, data) = number_labels(&rows);
    assert_eq!(labels, vec!["b".to_string(), "a".to_string(), "c".to_string()]);
    assert_eq!(data, vec![[0, 1], [1, 2], [2, 0], [0, 0]]);
}

#[test]
fn numbered_labels_build_the_labelled_graph() {
    let rows = vec![
        row("https://x.pl/", "https://x.pl/a"),
        row("https://x.pl/a", "https://x.pl/"),
        row("https://x.pl/a", "https://x.pl/b"),
    ];
    let (labels, data) = number_labels(&rows);
    let g = Graph::new(data, 500, 500, 3);
    assert_eq!(g.nodes().len(), labels.len());
    assert_eq!(labels.len(), 3);
    assert_eq!(g.edges(), &vec![(0, 1), (1, 2)]);
    for (i, n) in g.nodes().iter().enumerate() {
        assert_eq!(n.value, i as u64);
    }
}

#[test]
fn no_rows_give_no_labels() {
    let (labels, data) = number_labels(&vec![]);
    assert!(labels.is_empty());
    assert!(data.is_empty());
}

use graph_layout::{draw_placements, node_count_of, Graph};
use rand::Rng;

fn ids(g: &Graph) -> Vec<u64> {
    g.nodes().iter().map(|n| n.value).collect()
}

#[test]
fn it_works() {
    let mut rng = rand::thread_rng();
    let mut data = vec![];
    let max = 10;

    for i in 0..max {
        for j in 0..max {
            if i != j && rng.gen_bool(1.0 / 4.0) {
                data.push([i, j]);
            }
        }
    }

    let graph = Graph::new(data, 500, 500, 100);
    let mut xy = vec![];
    for node in graph.nodes() {
        let single = (node.x, node.y);
        if !xy.contains(&single) {
            xy.push(single);
        }
    }

    assert_eq!(xy.len(), graph.nodes().len());
    println!("{:#?}", graph.nodes());
}

#[test]
fn reversed_and_repeated_rows_share_one_edge() {
    let data = vec![[1, 2], [2, 1], [1, 2]];
    let g = Graph::from_placements(&data, 10, 10, &vec![(0, 0), (1, 1)]);
    assert_eq!(g.edges(), &vec![(1, 2)]);
    assert_eq!(ids(&g), vec![1, 2]);
    assert_eq!(g.adjacency(0), &vec![(2, 0), (2, 0)]);
    assert_eq!(g.adjacency(1), &vec![(1, 0)]);
}

#[test]
fn edges_are_numbered_in_first_seen_order() {
    let data = vec![[3, 4], [4, 5], [4, 3], [5, 3], [3, 5]];
    let g = Graph::from_placements(&data, 10, 10, &vec![(0, 0), (1, 0), (2, 0)]);
    assert_eq!(g.edges(), &vec![(3, 4), (4, 5), (5, 3)]);
    assert_eq!(g.adjacency(0), &vec![(4, 0), (5, 2)]);
    assert_eq!(g.adjacency(1), &vec![(5, 1), (3, 0)]);
    assert_eq!(g.adjacency(2), &vec![(3, 2)]);
}

#[test]
fn adjacency_records_only_the_first_id_of_a_row() {
    let data = vec![[1, 2]];
    let g = Graph::from_placements(&data, 10, 10, &vec![(0, 0), (1, 1)]);
    assert_eq!(g.adjacency(0), &vec![(2, 0)]);
    assert!(g.adjacency(1).is_empty());
}

#[test]
fn one_node_per_distinct_id() {
    let data = vec![[7, 9], [9, 8], [8, 7], [9, 7]];
    assert_eq!(node_count_of(&data), 3);
    let g = Graph::new(data, 20, 30, 1);
    assert_eq!(ids(&g), vec![7, 9, 8]);
}

#[test]
fn self_loop_gives_one_node_and_one_edge() {
    let data = vec![[5, 5]];
    assert_eq!(node_count_of(&data), 1);
    let g = Graph::from_placements(&data, 4, 4, &vec![(3, 2)]);
    assert_eq!(ids(&g), vec![5]);
    assert_eq!(g.edges(), &vec![(5, 5)]);
    assert_eq!(g.adjacency(0), &vec![(5, 0)]);
    assert_eq!(g.edge_ends(0), (0, 0));
}

#[test]
fn empty_edge_list_gives_empty_graph() {
    let data: Vec<[u64; 2]> = vec![];
    assert_eq!(node_count_of(&data), 0);
    let g = Graph::new(data, 100, 100, 5);
    assert!(g.nodes().is_empty());
    assert!(g.edges().is_empty());
}

#[test]
fn placements_are_kept_in_node_order() {
    let data = vec![[10, 20], [30, 10]];
    let g = Graph::from_placements(&data, 100, 100, &vec![(10, 10), (90, 90), (5, 60)]);
    let xy: Vec<(u64, u32, u32)> = g.nodes().iter().map(|n| (n.value, n.x, n.y)).collect();
    assert_eq!(xy, vec![(10, 10, 10), (20, 90, 90), (30, 5, 60)]);
    assert_eq!(g.width(), 100);
    assert_eq!(g.height(), 100);
}

#[test]
fn edge_ends_point_at_the_edge_nodes() {
    let data = vec![[1, 2], [3, 2]];
    let g = Graph::from_placements(&data, 10, 10, &vec![(0, 0), (1, 1), (2, 2)]);
    assert_eq!(g.edge_ends(0), (0, 1));
    assert_eq!(g.edge_ends(1), (2, 1));
}

#[test]
fn initial_placement_lies_in_the_box() {
    let mut data = vec![];
    for i in 0..40u64 {
        data.push([i, (i * 7 + 3) % 40]);
    }
    for seed in 0..20u64 {
        let g = Graph::new(data.clone(), 3, 5, seed);
        assert_eq!(g.nodes().len(), 40);
        for n in g.nodes() {
            assert!(n.x < 3 && n.y < 5);
        }
    }
}

#[test]
fn unit_box_places_every_node_at_the_origin() {
    let g = Graph::new(vec![[1, 2], [2, 3]], 1, 1, 42);
    for n in g.nodes() {
        assert_eq!((n.x, n.y), (0, 0));
    }
}

#[test]
fn same_seed_gives_same_graph() {
    let data = vec![[1, 2], [2, 3], [3, 4], [4, 1], [1, 3]];
    let a = Graph::new(data.clone(), 500, 500, 9);
    let b = Graph::new(data, 500, 500, 9);
    assert_eq!(a.nodes(), b.nodes());
    assert_eq!(a.edges(), b.edges());
}

#[test]
fn draws_stay_below_their_bounds() {
    let p = draw_placements(200, 2, 7, 11);
    assert_eq!(p.len(), 200);
    assert!(p.iter().all(|&(x, y)| x < 2 && y < 7));
    assert!(p.iter().any(|&(x, _)| x == 1));
    assert!(p.iter().any(|&(_, y)| y != 0));
}

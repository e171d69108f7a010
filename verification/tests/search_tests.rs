use path_planner::data::{Data, Way};
use path_planner::geom::{distance, GeoCoord, Node};
use path_planner::graph::PathPlanner;

const DEG: i32 = 10_000_000;

fn node(long_deg_tenths: i32, lat_deg_tenths: i32) -> Node {
    Node { long: long_deg_tenths * (DEG / 10), lat: lat_deg_tenths * (DEG / 10) }
}

fn square_data() -> Data {
    // A(0,0) B(1,0) C(1,1) D(0,1), one way A-B-C-D.
    let nodes = vec![node(0, 0), node(10, 0), node(10, 10), node(0, 10)];
    let ways = vec![Way { tags: vec!["highway/residential".to_string()], nodes: vec![0, 1, 2, 3] }];
    Data { nodes, ways }
}

fn coord_of(data: &Data, id: usize) -> GeoCoord {
    GeoCoord { long: data.nodes[id].long as i64, lat: data.nodes[id].lat as i64 }
}

#[test]
fn start_equals_end_returns_single_coordinate() {
    let data = square_data();
    let expected = coord_of(&data, 2);
    let planner = PathPlanner::new(data);
    let (path, truncated) = planner.plan_path(2, 2, false);
    assert!(!truncated);
    assert_eq!(path.len(), 1);
    assert_eq!(path[0], expected);
}

#[test]
fn square_route_comes_back_end_to_start() {
    let data = square_data();
    let expected: Vec<GeoCoord> = vec![
        coord_of(&data, 3),
        coord_of(&data, 2),
        coord_of(&data, 1),
        coord_of(&data, 0),
    ];
    let planner = PathPlanner::new(data);
    let (path, truncated) = planner.plan_path(0, 3, false);
    assert!(!truncated);
    assert_eq!(path, expected);
}

#[test]
fn square_route_consecutive_nodes_are_adjacent() {
    let data = square_data();
    let planner = PathPlanner::new(data);
    let (path, _) = planner.plan_path(0, 3, false);
    for pair in path.windows(2) {
        let a = planner
            .data
            .nodes
            .iter()
            .position(|n| n.long as i64 == pair[0].long && n.lat as i64 == pair[0].lat)
            .unwrap();
        let b = planner
            .data
            .nodes
            .iter()
            .position(|n| n.long as i64 == pair[1].long && n.lat as i64 == pair[1].lat)
            .unwrap();
        assert!(planner.node_neighbors(a).contains(&b), "{} and {} not adjacent", a, b);
    }
}

#[test]
fn square_route_total_distance_is_three_units() {
    let data = square_data();
    let planner = PathPlanner::new(data);
    let (path, _) = planner.plan_path(0, 3, false);
    // Walk start-to-end, accumulating the same asymmetric metric the search
    // uses: the distance from each node toward the next.
    let mut total: u64 = 0;
    let mut i = path.len() - 1;
    while i > 0 {
        let from = Node { long: path[i].long as i32, lat: path[i].lat as i32 };
        let to = Node { long: path[i - 1].long as i32, lat: path[i - 1].lat as i32 };
        total += distance(&from, &to);
        i -= 1;
    }
    // Three unit edges, within the metric's tolerance (the top edge is a
    // touch shorter: longitude there is scaled by the cosine of one degree).
    let unit: u64 = 10_000_000_000_000;
    assert!(total > 3 * unit - 3 * unit / 1000, "total {}", total);
    assert!(total <= 3 * unit, "total {}", total);
}

fn disjoint_data() -> Data {
    let nodes = vec![node(0, 0), node(10, 0), node(300, 300), node(310, 300)];
    let ways = vec![
        Way { tags: vec!["highway/one".to_string()], nodes: vec![0, 1] },
        Way { tags: vec!["highway/two".to_string()], nodes: vec![2, 3] },
    ];
    Data { nodes, ways }
}

#[test]
fn disconnected_nodes_give_empty_path() {
    let data = disjoint_data();
    let planner = PathPlanner::new(data);
    let (path, truncated) = planner.plan_path(0, 2, false);
    assert!(path.is_empty());
    assert!(!truncated);
}

#[test]
fn debug_mode_reports_only_the_start_island() {
    let data = disjoint_data();
    let a = coord_of(&data, 0);
    let b = coord_of(&data, 1);
    let planner = PathPlanner::new(data);
    let (explored, truncated) = planner.plan_path(0, 2, true);
    assert!(!truncated);
    assert_eq!(explored, vec![a, b]);
}

fn lattice_data() -> Data {
    // A 3x3 lattice of nodes one degree apart, rows and columns as ways.
    let mut nodes = Vec::new();
    for j in 0..3 {
        for i in 0..3 {
            nodes.push(node(i * 10, j * 10));
        }
    }
    let mut ways = Vec::new();
    for j in 0..3usize {
        ways.push(Way {
            tags: vec!["highway/row".to_string()],
            nodes: vec![3 * j, 3 * j + 1, 3 * j + 2],
        });
    }
    for i in 0..3usize {
        ways.push(Way {
            tags: vec!["highway/col".to_string()],
            nodes: vec![i, i + 3, i + 6],
        });
    }
    Data { nodes, ways }
}

fn dijkstra_total(planner: &PathPlanner, start: usize, end: usize) -> u64 {
    let n = planner.data.nodes.len();
    let mut dist = vec![u64::MAX; n];
    let mut done = vec![false; n];
    dist[start] = 0;
    for _ in 0..n {
        let mut best = usize::MAX;
        for v in 0..n {
            if !done[v] && dist[v] != u64::MAX && (best == usize::MAX || dist[v] < dist[best]) {
                best = v;
            }
        }
        if best == usize::MAX {
            break;
        }
        done[best] = true;
        for &nb in planner.node_neighbors(best).iter() {
            let d = distance(&planner.data.nodes[best], &planner.data.nodes[nb]);
            let alt = dist[best].saturating_add(d);
            if alt < dist[nb] {
                dist[nb] = alt;
            }
        }
    }
    dist[end]
}

#[test]
fn lattice_route_matches_exhaustive_shortest_path() {
    let data = lattice_data();
    let planner = PathPlanner::new(data);
    let (path, truncated) = planner.plan_path(0, 8, false);
    assert!(!truncated);
    assert!(!path.is_empty());
    let mut total: u64 = 0;
    let mut i = path.len() - 1;
    while i > 0 {
        let from = Node { long: path[i].long as i32, lat: path[i].lat as i32 };
        let to = Node { long: path[i - 1].long as i32, lat: path[i - 1].lat as i32 };
        total += distance(&from, &to);
        i -= 1;
    }
    assert_eq!(total, dijkstra_total(&planner, 0, 8));
}

#[test]
fn neighbors_come_from_consecutive_way_entries() {
    let data = square_data();
    let planner = PathPlanner::new(data);
    assert_eq!(planner.node_neighbors(0).as_slice(), &[1]);
    let mut n1 = planner.node_neighbors(1).clone();
    n1.sort();
    assert_eq!(n1, vec![0, 2]);
    let mut n2 = planner.node_neighbors(2).clone();
    n2.sort();
    assert_eq!(n2, vec![1, 3]);
    assert_eq!(planner.node_neighbors(3).as_slice(), &[2]);
}

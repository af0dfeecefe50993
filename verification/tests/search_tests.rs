use travelling_salesman::engine::search;
use travelling_salesman::engine::SearchState;
use travelling_salesman::matrix::DistanceMatrix;
use travelling_salesman::tour::candidate_length;
use travelling_salesman::tour::reverse_segment;
use travelling_salesman::tour::route_distance;

fn euclidean_matrix(cities: &[(f64, f64)], scale: f64) -> DistanceMatrix {
    let n = cities.len();
    let mut rows: Vec<Vec<u64>> = Vec::new();
    for i in 0..n {
        let mut row: Vec<u64> = Vec::new();
        for j in 0..n {
            let dx = cities[i].0 - cities[j].0;
            let dy = cities[i].1 - cities[j].1;
            row.push(((dx * dx + dy * dy).sqrt() * scale).round() as u64);
        }
        rows.push(row);
    }
    DistanceMatrix::from_rows(rows).unwrap()
}

fn assert_is_permutation(route: &[usize], n: usize) {
    assert_eq!(route.len(), n);
    let mut seen = vec![false; n];
    for &c in route {
        assert!(c < n, "city index out of range");
        assert!(!seen[c], "city visited twice");
        seen[c] = true;
    }
    // Length n with no duplicates over 0..n leaves nothing out.
}

fn recompute(m: &DistanceMatrix, route: &[usize]) -> u64 {
    if route.len() <= 1 {
        return 0;
    }
    let mut total = 0u64;
    for k in 1..route.len() {
        total += m.at(route[k - 1], route[k]);
    }
    total + m.at(route[route.len() - 1], route[0])
}

#[test]
fn no_cities_yield_the_empty_tour() {
    let m = DistanceMatrix::from_rows(Vec::new()).unwrap();
    let tour = search(&m, 50, 7);
    assert!(tour.route.is_empty());
    assert_eq!(tour.distance, 0);
}

#[test]
fn one_city_yields_the_trivial_tour() {
    let m = DistanceMatrix::from_rows(vec![vec![0]]).unwrap();
    let tour = search(&m, 50, 7);
    assert_eq!(tour.route, vec![0]);
    assert_eq!(tour.distance, 0);
}

#[test]
fn two_cities_walk_the_edge_twice() {
    let m = DistanceMatrix::from_rows(vec![vec![0, 5], vec![5, 0]]).unwrap();
    let tour = search(&m, 20, 7);
    assert_is_permutation(&tour.route, 2);
    assert_eq!(tour.distance, 10);
}

#[test]
fn zero_budget_returns_the_initial_tour() {
    let m = euclidean_matrix(&[(0.0, 0.0), (3.0, 1.0), (1.0, 4.0), (5.0, 5.0)], 1000.0);
    let tour = search(&m, 0, 42);
    assert_eq!(tour.route, vec![0, 1, 2, 3]);
    assert_eq!(tour.distance, recompute(&m, &tour.route));
}

#[test]
fn search_returns_a_permutation_with_its_exact_distance() {
    let cities = [
        (27.0, 78.0),
        (18.0, 24.0),
        (48.0, 62.0),
        (83.0, 77.0),
        (55.0, 56.0),
        (10.0, 10.0),
    ];
    let m = euclidean_matrix(&cities, 1000.0);
    let tour = search(&m, 60, 123);
    assert_is_permutation(&tour.route, cities.len());
    assert_eq!(tour.distance, recompute(&m, &tour.route));
}

#[test]
fn search_handles_an_asymmetric_matrix() {
    let rows = vec![
        vec![0, 10, 3, 8],
        vec![2, 0, 7, 1],
        vec![9, 4, 0, 6],
        vec![5, 11, 2, 0],
    ];
    let m = DistanceMatrix::from_rows(rows).unwrap();
    let tour = search(&m, 40, 9);
    assert_is_permutation(&tour.route, 4);
    assert_eq!(tour.distance, recompute(&m, &tour.route));
}

#[test]
fn unit_square_converges_to_its_perimeter() {
    // Cities listed out of perimeter order, so the initial tour is longer
    // than 4.0 and the search has to find the square.
    let m = euclidean_matrix(&[(0.0, 0.0), (1.0, 1.0), (0.0, 1.0), (1.0, 0.0)], 1000.0);
    let tour = search(&m, 300, 2024);
    assert_is_permutation(&tour.route, 4);
    assert_eq!(tour.distance, recompute(&m, &tour.route));
    assert!(tour.distance <= 4040, "distance {} did not converge", tour.distance);
}

#[test]
fn best_tour_never_worsens_across_steps() {
    let m = euclidean_matrix(
        &[(0.0, 0.0), (4.0, 1.0), (2.0, 6.0), (7.0, 3.0), (5.0, 8.0)],
        1000.0,
    );
    let mut state = SearchState::init(&m);
    let mut last_best = state.best_so_far().distance;
    let draws: [(usize, usize, u64); 8] = [
        (0, 3, 0),
        (1, 4, 70000),
        (2, 2, 1),
        (4, 1, 30000),
        (0, 4, 65535),
        (3, 2, 0),
        (1, 0, 12000),
        (2, 4, 500),
    ];
    for (a, b, draw) in draws {
        state.step(&m, a, b, draw);
        let best = state.best_so_far();
        assert!(best.distance <= last_best);
        assert_eq!(best.distance, recompute(&m, &best.route));
        last_best = best.distance;
    }
}

#[test]
fn incremental_candidate_length_matches_recomputation() {
    let m = euclidean_matrix(
        &[(0.0, 0.0), (4.0, 1.0), (2.0, 6.0), (7.0, 3.0), (5.0, 8.0), (9.0, 9.0)],
        1000.0,
    );
    let mut route: Vec<usize> = vec![0, 1, 2, 3, 4, 5];
    let current = route_distance(&m, &route);
    for (lo, hi) in [(1usize, 3usize), (0, 2), (2, 5), (1, 4)] {
        let fast = candidate_length(&m, &route, current, lo, hi);
        let mut reversed = route.clone();
        reverse_segment(&mut reversed, lo, hi);
        assert_eq!(fast, route_distance(&m, &reversed));
    }
    route.reverse();
    assert_eq!(current, route_distance(&m, &route));
}

use bike_demand::common::{Conditions, DaySummary, PrecipitationIntensity, TemperatureCategory, Weather};
use bike_demand::search::{
    are_similar, bfs_closest, build_graph, dfs_closest, linear_closest, similarity_score,
};

fn day(
    date: &str,
    month: u32,
    total: i32,
    weather: Weather,
    temperature: TemperatureCategory,
    precipitation: PrecipitationIntensity,
) -> DaySummary {
    DaySummary {
        date: date.to_string(),
        month,
        total_rentals: total,
        weather,
        temperature_category: temperature,
        precipitation,
    }
}

fn sunny_cold_query() -> Conditions {
    Conditions {
        month: 1,
        weather: Weather::Sunny,
        temperature: TemperatureCategory::Cold,
        precipitation: PrecipitationIntensity::Absent,
    }
}

#[test]
fn test_bfs_finds_matching_day() {
    let graph_data = vec![
        day("01/01/2018", 1, 400, Weather::Sunny, TemperatureCategory::Cold, PrecipitationIntensity::Absent),
        day("02/01/2018", 1, 500, Weather::Sunny, TemperatureCategory::Cold, PrecipitationIntensity::Absent),
    ];
    let query = sunny_cold_query();
    let graph = build_graph(&graph_data);
    let result = bfs_closest(0, &graph, &graph_data, &query);
    assert!(result.is_some());
    assert_eq!(result.unwrap().total_rentals, 400);
}

#[test]
fn tie_is_resolved_by_traversal_order_and_repeats() {
    let days = vec![
        day("01/01/2018", 1, 400, Weather::Sunny, TemperatureCategory::Cold, PrecipitationIntensity::Absent),
        day("02/01/2018", 1, 500, Weather::Sunny, TemperatureCategory::Cold, PrecipitationIntensity::Absent),
    ];
    let query = sunny_cold_query();
    let graph = build_graph(&days);
    let first = bfs_closest(0, &graph, &days, &query).unwrap();
    let second = bfs_closest(0, &graph, &days, &query).unwrap();
    assert_eq!(first.date, second.date);
    assert_eq!(first.total_rentals, second.total_rentals);
    assert_eq!(first.total_rentals, 400);
    let from_other = bfs_closest(1, &graph, &days, &query).unwrap();
    assert_eq!(from_other.total_rentals, 500);
    assert_eq!(dfs_closest(0, &graph, &days, &query).unwrap().total_rentals, 400);
    assert_eq!(linear_closest(&days, &query).unwrap().total_rentals, 400);
}

#[test]
fn exact_match_wins_for_traversal_and_scan() {
    let days = vec![
        day("05/03/2018", 3, 900, Weather::Rainy, TemperatureCategory::Moderate, PrecipitationIntensity::Absent),
        day("06/03/2018", 3, 100, Weather::Snowy, TemperatureCategory::Cold, PrecipitationIntensity::Heavy),
    ];
    let query = Conditions {
        month: 3,
        weather: Weather::Rainy,
        temperature: TemperatureCategory::Moderate,
        precipitation: PrecipitationIntensity::Absent,
    };
    let graph = build_graph(&days);
    assert_eq!(bfs_closest(0, &graph, &days, &query).unwrap().date, "05/03/2018");
    assert_eq!(dfs_closest(0, &graph, &days, &query).unwrap().date, "05/03/2018");
    assert_eq!(linear_closest(&days, &query).unwrap().date, "05/03/2018");
    // The two days share no labels, so a walk from the other one stays there.
    assert_eq!(bfs_closest(1, &graph, &days, &query).unwrap().date, "06/03/2018");
}

#[test]
fn scan_sees_days_outside_the_component() {
    let days = vec![
        day("01/07/2018", 7, 300, Weather::Foggy, TemperatureCategory::Hot, PrecipitationIntensity::Absent),
        day("02/07/2018", 7, 800, Weather::Sunny, TemperatureCategory::Hot, PrecipitationIntensity::Absent),
    ];
    let query = Conditions {
        month: 7,
        weather: Weather::Sunny,
        temperature: TemperatureCategory::Hot,
        precipitation: PrecipitationIntensity::Absent,
    };
    let graph = build_graph(&days);
    assert_eq!(bfs_closest(0, &graph, &days, &query).unwrap().total_rentals, 300);
    assert_eq!(linear_closest(&days, &query).unwrap().total_rentals, 800);
}

#[test]
fn empty_inputs_give_nothing() {
    let days: Vec<DaySummary> = Vec::new();
    let query = sunny_cold_query();
    let graph = build_graph(&days);
    assert!(graph.adj_list.is_empty());
    assert!(bfs_closest(0, &graph, &days, &query).is_none());
    assert!(dfs_closest(0, &graph, &days, &query).is_none());
    assert!(linear_closest(&days, &query).is_none());
}

#[test]
fn start_outside_the_days_gives_nothing() {
    let days = vec![day("01/01/2018", 1, 400, Weather::Sunny, TemperatureCategory::Cold, PrecipitationIntensity::Absent)];
    let graph = build_graph(&days);
    assert!(bfs_closest(1, &graph, &days, &sunny_cold_query()).is_none());
    assert!(dfs_closest(5, &graph, &days, &sunny_cold_query()).is_none());
}

#[test]
fn graph_links_equal_labels_both_ways() {
    let days = vec![
        day("a", 1, 1, Weather::Sunny, TemperatureCategory::Cold, PrecipitationIntensity::Absent),
        day("b", 2, 2, Weather::Rainy, TemperatureCategory::Cold, PrecipitationIntensity::Absent),
        day("c", 3, 3, Weather::Sunny, TemperatureCategory::Cold, PrecipitationIntensity::Absent),
        day("d", 4, 4, Weather::Sunny, TemperatureCategory::Cold, PrecipitationIntensity::Absent),
    ];
    let graph = build_graph(&days);
    assert_eq!(graph.adj_list.get(&0), Some(&vec![2, 3]));
    assert_eq!(graph.adj_list.get(&2), Some(&vec![0, 3]));
    assert_eq!(graph.adj_list.get(&3), Some(&vec![0, 2]));
    assert_eq!(graph.adj_list.get(&1), None);
    for (i, row) in &graph.adj_list {
        for j in row {
            assert!(graph.adj_list.get(j).unwrap().contains(i));
        }
    }
}

#[test]
fn dfs_and_bfs_agree_on_best_score_in_a_component() {
    let days = vec![
        day("a", 1, 10, Weather::Snowy, TemperatureCategory::Cold, PrecipitationIntensity::Light),
        day("b", 2, 20, Weather::Snowy, TemperatureCategory::Cold, PrecipitationIntensity::Light),
        day("c", 3, 30, Weather::Snowy, TemperatureCategory::Cold, PrecipitationIntensity::Light),
        day("d", 2, 40, Weather::Sunny, TemperatureCategory::Cold, PrecipitationIntensity::Light),
    ];
    let query = Conditions {
        month: 2,
        weather: Weather::Snowy,
        temperature: TemperatureCategory::Cold,
        precipitation: PrecipitationIntensity::Light,
    };
    let graph = build_graph(&days);
    assert_eq!(bfs_closest(2, &graph, &days, &query).unwrap().date, "b");
    assert_eq!(dfs_closest(2, &graph, &days, &query).unwrap().date, "b");
}

#[test]
fn score_weights() {
    let d = day("x", 4, 0, Weather::Sunny, TemperatureCategory::Hot, PrecipitationIntensity::Absent);
    let exact = Conditions {
        month: 4,
        weather: Weather::Sunny,
        temperature: TemperatureCategory::Hot,
        precipitation: PrecipitationIntensity::Absent,
    };
    assert_eq!(similarity_score(&d, &exact), 0);
    assert_eq!(similarity_score(&d, &Conditions { month: 5, ..exact }), 10);
    assert_eq!(similarity_score(&d, &Conditions { weather: Weather::Rainy, ..exact }), 30);
    assert_eq!(similarity_score(&d, &Conditions { temperature: TemperatureCategory::Cold, ..exact }), 20);
    assert_eq!(similarity_score(&d, &Conditions { precipitation: PrecipitationIntensity::Heavy, ..exact }), 15);
    let none_match = Conditions {
        month: 0,
        weather: Weather::Foggy,
        temperature: TemperatureCategory::Moderate,
        precipitation: PrecipitationIntensity::Light,
    };
    assert_eq!(similarity_score(&d, &none_match), 75);
}

#[test]
fn similarity_ignores_month_and_total() {
    let a = day("x", 1, 5, Weather::Foggy, TemperatureCategory::Moderate, PrecipitationIntensity::Absent);
    let b = day("y", 9, 500, Weather::Foggy, TemperatureCategory::Moderate, PrecipitationIntensity::Absent);
    let c = day("z", 1, 5, Weather::Foggy, TemperatureCategory::Hot, PrecipitationIntensity::Absent);
    assert!(are_similar(&a, &b));
    assert!(!are_similar(&a, &c));
}

#[test]
fn labels_have_names() {
    assert_eq!(Weather::Foggy.label(), "Foggy");
    assert_eq!(TemperatureCategory::Moderate.label(), "Moderate");
    assert_eq!(PrecipitationIntensity::Absent.label(), "None");
    assert_eq!(PrecipitationIntensity::Heavy.label(), "Heavy");
}

use insta_keyframes::colmap::pair_list::candidate_pairs_text;
use insta_keyframes::pairs::geometry::geometry_window_pairs;
use insta_keyframes::pairs::graph::{pair_id_for_colmap, CandidateEdge, PairGraph, PairSource};
use insta_keyframes::pairs::temporal::{frame_id_delta, temporal_plan};

fn edge(a: &str, b: &str, source: PairSource) -> CandidateEdge<f32> {
    CandidateEdge { image_a: a.to_string(), image_b: b.to_string(), source, data: 1.0 }
}

#[test]
fn pair_id_order_independent() {
    assert_eq!(pair_id_for_colmap(1, 2), pair_id_for_colmap(2, 1));
}

#[test]
fn pair_id_formula() {
    assert_eq!(pair_id_for_colmap(1, 2), 2147483647 + 2);
    assert_eq!(pair_id_for_colmap(5, 3), 2147483647 * 3 + 5);
    assert_eq!(pair_id_for_colmap(4, 4), 2147483647 * 4 + 4);
}

#[test]
fn no_isolated_after_repair() {
    let mut g = PairGraph::new();
    g.add(edge("cam0/000001.jpg", "cam0/000002.jpg", PairSource::temporal()));
    assert_eq!(g.pairs.len(), 1);
    g.ensure_connectivity(2, 2, 0.0);
    assert_eq!(g.pairs.len(), 1);
}

#[test]
fn repair_adds_missing_neighbours_as_safety_edges() {
    let mut g = PairGraph::new();
    g.add(edge("cam0/000002.jpg", "cam0/000001.jpg", PairSource::temporal()));
    g.add(edge("cam0/000002.jpg", "cam0/000003.jpg", PairSource::temporal()));
    g.ensure_connectivity(2, 2, 0.5);
    assert_eq!(g.pairs.len(), 3);
    assert_eq!(g.pairs[0].source, PairSource::temporal());
    assert_eq!(g.pairs[1].source, PairSource::temporal());
    let added = &g.pairs[2];
    assert_eq!((added.image_a.as_str(), added.image_b.as_str()), ("cam0/000001.jpg", "cam0/000003.jpg"));
    assert_eq!(added.source, PairSource::safety());
    assert_eq!(added.data, 0.5);
    // already connected: nothing more to add
    g.ensure_connectivity(2, 2, 0.5);
    assert_eq!(g.pairs.len(), 3);
}

#[test]
fn repair_respects_window_sizes() {
    let mut g = PairGraph::new();
    for (a, b) in [("a", "b"), ("c", "d")] {
        g.add(edge(a, b, PairSource::temporal()));
    }
    g.ensure_connectivity(0, 1, 0.0);
    let got: Vec<(String, String)> = g.pairs.iter().map(|e| (e.image_a.clone(), e.image_b.clone())).collect();
    assert_eq!(got[2], ("b".to_string(), "c".to_string()));
    assert_eq!(g.pairs.len(), 3);
}

#[test]
fn graph_add_ignores_reversed_duplicate() {
    let mut g = PairGraph::new();
    g.add(edge("a.jpg", "b.jpg", PairSource::temporal()));
    g.add(edge("b.jpg", "a.jpg", PairSource::geometry()));
    g.add(edge("a.jpg", "b.jpg", PairSource::geometry()));
    g.add(edge("a.jpg", "c.jpg", PairSource::geometry()));
    assert_eq!(g.pairs.len(), 2);
    assert_eq!(g.pairs[0].source, PairSource::temporal());
    assert_eq!(g.pairs[1].image_b, "c.jpg");
}

#[test]
fn graph_diagnostics_counts_by_source() {
    let mut g = PairGraph::new();
    g.add(edge("a", "b", PairSource::temporal()));
    g.add(edge("a", "c", PairSource::geometry()));
    g.add(edge("b", "c", PairSource::temporal()));
    g.add(edge("c", "d", PairSource::geometry().union(PairSource::cross_lens())));
    let d = g.diagnostics();
    assert_eq!(d.total_pairs, 4);
    assert_eq!(d.by_source, vec![(1, 2), (2, 1), (6, 1)]);
}

#[test]
fn pair_source_flags() {
    let s = PairSource::temporal().union(PairSource::loop_closure());
    assert_eq!(s.bits, 9);
    assert!(s.contains(PairSource::temporal()));
    assert!(s.contains(PairSource::loop_closure()));
    assert!(!s.contains(PairSource::geometry()));
    assert_eq!(PairSource::safety().bits, 16);
}

fn images() -> Vec<(String, u64, u32)> {
    vec![
        ("cam0/3.jpg".to_string(), 3, 0),
        ("cam1/1.jpg".to_string(), 1, 1),
        ("cam0/1.jpg".to_string(), 1, 0),
        ("cam0/2.jpg".to_string(), 2, 0),
        ("cam1/2.jpg".to_string(), 2, 1),
    ]
}

#[test]
fn temporal_plan_orders_by_frame_per_sensor() {
    let imgs = images();
    let plan = temporal_plan(&imgs, 1, 1);
    let got: Vec<(usize, usize, usize, i32)> = plan.iter().map(|e| (e.from, e.to, e.step, e.frame_delta)).collect();
    // sensor 0 order: 2 (fid 1), 3 (fid 2), 0 (fid 3); sensor 1 order: 1, 4
    assert_eq!(
        got,
        vec![
            (2, 3, 1, 1),
            (3, 2, 1, 1),
            (3, 0, 1, 1),
            (0, 3, 1, 1),
            (1, 4, 1, 1),
            (4, 1, 1, 1),
        ]
    );
}

#[test]
fn temporal_plan_wider_window() {
    let imgs = images();
    let plan = temporal_plan(&imgs, 2, 0);
    let got: Vec<(usize, usize, usize)> = plan.iter().map(|e| (e.from, e.to, e.step)).collect();
    assert_eq!(got, vec![(3, 2, 1), (0, 3, 1), (0, 2, 2), (4, 1, 1)]);
}

#[test]
fn temporal_plan_stable_on_equal_frames() {
    let imgs = vec![
        ("x".to_string(), 5, 0),
        ("y".to_string(), 5, 0),
    ];
    let plan = temporal_plan(&imgs, 0, 1);
    assert_eq!(plan.len(), 1);
    assert_eq!((plan[0].from, plan[0].to, plan[0].frame_delta), (0, 1, 0));
}

#[test]
fn geometry_window_respects_frame_distance() {
    let imgs = images();
    let w = geometry_window_pairs(&imgs, 1);
    let got: Vec<(usize, usize, u32)> = w.iter().map(|p| (p.first, p.second, p.source.bits)).collect();
    assert_eq!(
        got,
        vec![(0, 3, 2), (0, 4, 6), (1, 2, 6), (1, 3, 6), (1, 4, 2), (2, 3, 2), (2, 4, 6), (3, 4, 6)]
    );
    assert_eq!(geometry_window_pairs(&imgs, 0).len(), 2);
}

#[test]
fn candidate_pairs_text_lines() {
    let pairs = vec![edge("cam0/1.jpg", "cam0/2.jpg", PairSource::temporal()), edge("cam0/1.jpg", "cam1/1.jpg", PairSource::cross_lens())];
    assert_eq!(candidate_pairs_text(&pairs), "cam0/1.jpg cam0/2.jpg\ncam0/1.jpg cam1/1.jpg\n");
    let empty: Vec<CandidateEdge<f32>> = Vec::new();
    assert_eq!(candidate_pairs_text(&empty), "");
}

#[test]
fn temporal_edges_stay_within_one_lens() {
    let mut imgs = images();
    imgs.push(("cam2/1.jpg".to_string(), 1, 2));
    let (before, after) = (2, 3);
    let plan = temporal_plan(&imgs, before, after);
    assert!(!plan.is_empty());
    for e in &plan {
        assert_ne!(e.from, e.to);
        assert_eq!(imgs[e.from].2, imgs[e.to].2);
        assert!(imgs[e.from].2 <= 1);
        assert!(e.step >= 1 && (e.step <= before || e.step <= after));
    }
}

#[test]
fn frame_id_deltas() {
    assert_eq!(frame_id_delta(5, 3), 2);
    assert_eq!(frame_id_delta(3, 5), -2);
    // ids are taken as i32, as the capture code does
    assert_eq!(frame_id_delta((1u64 << 32) + 1, 0), 1);
}

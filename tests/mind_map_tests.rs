use mqtt_mind_map::color::{color_index, push_hex_color, Rgb};
use mqtt_mind_map::mind_map::{bounded_weight, MQTTMindMap};
use mqtt_mind_map::render::{dot_text, next_step, push_decimal, render_plan, RenderStep, Stamp};
use mqtt_mind_map::store::TopicStore;
use mqtt_mind_map::throttle::Throttle;
use mqtt_mind_map::tree::{build_tree, MindGraph};

fn store_of(pairs: &[(&str, &str)]) -> TopicStore {
    let mut s = TopicStore::new();
    for (i, (t, v)) in pairs.iter().enumerate() {
        s.upsert(t.to_string(), v.to_string(), i as u64);
    }
    s
}

fn node<'a>(g: &'a MindGraph, path: &str) -> Option<&'a mqtt_mind_map::tree::NodeData> {
    g.nodes.iter().find(|n| n.path == path)
}

fn edge_paths(g: &MindGraph) -> Vec<(String, String)> {
    let mut v: Vec<(String, String)> = g
        .topology
        .edge_indices()
        .map(|e| {
            let (a, b) = g.topology.edge_endpoints(e).unwrap();
            (g.nodes[a.index()].path.clone(), g.nodes[b.index()].path.clone())
        })
        .collect();
    v.sort();
    v
}

fn stamp() -> Stamp {
    Stamp { year: 2024, month: 3, day: 7, hour: 9, minute: 5, second: 41 }
}

#[test]
fn tree_shape_example() {
    let s = store_of(&[("home/livingroom/temp", "21"), ("home/livingroom/humidity", "55")]);
    let g = build_tree(&s);
    assert_eq!(g.nodes.len(), 4);
    assert_eq!(node(&g, "home").unwrap().value, "");
    assert_eq!(node(&g, "home/livingroom").unwrap().value, "");
    assert_eq!(node(&g, "home/livingroom/temp").unwrap().value, "21");
    assert_eq!(node(&g, "home/livingroom/humidity").unwrap().value, "55");
    assert_eq!(node(&g, "home/livingroom/temp").unwrap().label, "temp");
    assert_eq!(node(&g, "home/livingroom/temp").unwrap().level, 2);
    let mut expected = vec![
        ("home".to_string(), "home/livingroom".to_string()),
        ("home/livingroom".to_string(), "home/livingroom/temp".to_string()),
        ("home/livingroom".to_string(), "home/livingroom/humidity".to_string()),
    ];
    expected.sort();
    assert_eq!(edge_paths(&g), expected);
}

#[test]
fn color_clamp_example() {
    assert_eq!(color_index(0, 3), 0);
    assert_eq!(color_index(1, 3), 1);
    assert_eq!(color_index(2, 3), 2);
    assert_eq!(color_index(5, 3), 2);
    assert_eq!(color_index(4, 1), 0);
}

#[test]
fn shared_prefixes_make_one_node_each() {
    let s = store_of(&[("a/b", "1"), ("a/c", "2"), ("a", "3"), ("x/y/z", "4")]);
    let g = build_tree(&s);
    // a, a/b, a/c, x, x/y, x/y/z
    assert_eq!(g.nodes.len(), 6);
    assert_eq!(g.topology.node_count(), 6);
    assert_eq!(g.topology.edge_count(), 4);
}

#[test]
fn value_on_exact_topic_even_after_a_longer_one() {
    let s = store_of(&[("a/b", "child"), ("a", "parent")]);
    let g = build_tree(&s);
    assert_eq!(node(&g, "a").unwrap().value, "parent");
    assert_eq!(node(&g, "a/b").unwrap().value, "child");
}

#[test]
fn latest_value_wins() {
    let mut s = store_of(&[("t/1", "old")]);
    s.upsert("t/1".to_string(), "new".to_string(), 9);
    assert_eq!(s.len(), 1);
    assert_eq!(s.entries[0].last_update, 9);
    let g = build_tree(&s);
    assert_eq!(node(&g, "t/1").unwrap().value, "new");
    assert_eq!(node(&g, "t").unwrap().value, "");
}

#[test]
fn building_twice_gives_the_same_structure() {
    let s = store_of(&[("a/b/c", "1"), ("a/d", "2"), ("e", "3")]);
    let g1 = build_tree(&s);
    let g2 = build_tree(&s);
    let mut first: Vec<(String, String)> = g1.nodes.iter().map(|n| (n.path.clone(), n.value.clone())).collect();
    let mut second: Vec<(String, String)> = g2.nodes.iter().map(|n| (n.path.clone(), n.value.clone())).collect();
    first.sort();
    second.sort();
    assert_eq!(first, second);
    assert_eq!(edge_paths(&g1), edge_paths(&g2));
}

#[test]
fn empty_segments_are_nodes_too() {
    let s = store_of(&[("/a", "1"), ("", "2")]);
    let g = build_tree(&s);
    assert_eq!(g.nodes.len(), 2);
    assert_eq!(node(&g, "").unwrap().value, "2");
    assert_eq!(node(&g, "/a").unwrap().label, "a");
    assert_eq!(edge_paths(&g), vec![("".to_string(), "/a".to_string())]);
}

#[test]
fn throttle_renders_once_per_interval() {
    let mut t = Throttle::new(1000, 0);
    assert!(!t.check(100));
    assert!(!t.check(500));
    assert!(!t.check(999));
    assert!(t.check(1000));
    assert_eq!(t.last_render, 1000);
    assert!(!t.check(1500));
    assert!(!t.check(1999));
    assert!(t.check(2600));
    assert!(!t.check(3599));
    assert!(t.check(3600));
}

#[test]
fn message_updates_store_and_throttle() {
    let mut m = MQTTMindMap::new("localhost".to_string(), 3003, 1000, "out".to_string(), 0);
    assert!(!m.on_message("a/b".to_string(), b"12", 10));
    assert!(m.on_message("a/c".to_string(), &[0xff, b'x'], 1010));
    assert_eq!(m.topic_values.len(), 2);
    let c = m.topic_values.entries.iter().find(|e| e.topic == "a/c").unwrap();
    assert_eq!(c.value, "\u{FFFD}x");
    assert_eq!(c.last_update, 1010);
}

#[test]
fn dot_text_of_one_topic() {
    let s = store_of(&[("a/b", "x")]);
    let g = build_tree(&s);
    let palette = vec![Rgb { red: 0x33, green: 0xb2, blue: 0xff }, Rgb { red: 0x19, green: 0x7f, blue: 0xe5 }];
    let text = dot_text(&g, &palette);
    assert_eq!(
        text,
        "digraph {\n    graph [rankdir=LR, splines=ortho];\n    node [style=filled, fontname=Arial];\n    n0 [label=\"a\", fillcolor=\"#33b2ff\", shape=box];\n    n1 [label=\"b\nx\", fillcolor=\"#197fe5\", shape=box];\n    n0 -> n1 [color=\"#666666\"];\n}\n"
    );
}

#[test]
fn plan_paths() {
    let s = store_of(&[("a", "1")]);
    let g = build_tree(&s);
    let palette = vec![Rgb { red: 0, green: 0, blue: 0 }];
    let p = render_plan(&g, &palette, &"output".to_string(), &stamp());
    assert_eq!(p.dot_path, "output/mqtt_mind_map_20240307_090541.dot");
    assert_eq!(p.svg_path, "output/mqtt_mind_map_20240307_090541.svg");
    assert_eq!(p.png_path, "output/mqtt_mind_map_20240307_090541.png");
    assert_eq!(p.latest_svg, "output/mqtt_mind_map_latest.svg");
    assert_eq!(p.latest_png, "output/mqtt_mind_map_latest.png");
    assert!(p.dot_content.contains("n0 [label=\"a\n1\", fillcolor=\"#000000\", shape=box];"));
}

#[test]
fn plan_from_mind_map() {
    let mut m = MQTTMindMap::new("h".to_string(), 1, 0, "o".to_string(), 0);
    assert!(m.on_message("x/y".to_string(), b"v", 5));
    let palette = vec![Rgb { red: 1, green: 2, blue: 3 }];
    let (g, p) = m.plan_render(&palette, &stamp()).unwrap();
    assert_eq!(g.nodes.len(), 2);
    assert_eq!(p.svg_path, "o/mqtt_mind_map_20240307_090541.svg");
    assert!(p.dot_content.contains("n0 -> n1"));
    assert!(m.graph().is_some());
}

#[test]
fn decimal_and_hex_text() {
    let mut s = String::from("n");
    push_decimal(&mut s, 0);
    push_decimal(&mut s, 1907);
    assert_eq!(s, "n01907");
    let mut h = String::new();
    push_hex_color(&mut h, Rgb { red: 255, green: 10, blue: 160 });
    assert_eq!(h, "#ff0aa0");
}

#[test]
fn weight_of_topics() {
    let s = store_of(&[("ab", "1"), ("c/d", "2")]);
    assert_eq!(bounded_weight(&s.entries), Some(7));
    assert_eq!(bounded_weight(&Vec::new()), Some(0));
}

#[test]
fn render_steps_in_order_and_stop_on_failure() {
    let mut step = RenderStep::WriteDot;
    let order = [
        RenderStep::DrawSvg,
        RenderStep::DrawPng,
        RenderStep::PointSvg,
        RenderStep::PointPng,
        RenderStep::Done,
    ];
    for expected in order.iter() {
        step = next_step(step, true);
        assert_eq!(step, *expected);
    }
    assert_eq!(next_step(RenderStep::Done, false), RenderStep::Done);
    assert_eq!(next_step(RenderStep::DrawPng, false), RenderStep::Failed);
    assert_eq!(next_step(RenderStep::Failed, true), RenderStep::Failed);
}

#[test]
fn different_stamps_write_different_files() {
    let s = store_of(&[("a", "1")]);
    let g = build_tree(&s);
    let palette = vec![Rgb { red: 0, green: 0, blue: 0 }];
    let dir = "out".to_string();
    let first = render_plan(&g, &palette, &dir, &stamp());
    let later = Stamp { second: 42, ..stamp() };
    let second = render_plan(&g, &palette, &dir, &later);
    assert_ne!(first.svg_path, second.svg_path);
    assert_eq!(second.svg_path, "out/mqtt_mind_map_20240307_090542.svg");
    assert!(first.svg_path < second.svg_path);
    assert_eq!(first.latest_svg, second.latest_svg);
}

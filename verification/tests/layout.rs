use gridterm::layout::{
    leaf_rects, pane_command, pane_title, Axis, LayoutNode, LayoutPreset, PaneSpec, Rect,
};

#[test]
fn rejects_unknown_cli_to_default() {
    assert!(matches!(
        LayoutPreset::from_cli("nope"),
        LayoutPreset::TwoByTwo
    ));
}

#[test]
fn names_select_presets() {
    assert!(matches!(LayoutPreset::from_cli("2"), LayoutPreset::Two));
    assert!(matches!(LayoutPreset::from_cli("2x1"), LayoutPreset::Two));
    assert!(matches!(LayoutPreset::from_cli("2x2"), LayoutPreset::TwoByTwo));
    assert!(matches!(LayoutPreset::from_cli("3x4"), LayoutPreset::ThreeByFour));
    assert!(matches!(LayoutPreset::from_cli("4x4"), LayoutPreset::FourByFour));
    assert!(matches!(LayoutPreset::from_cli(" 4x4"), LayoutPreset::TwoByTwo));
    assert!(matches!(LayoutPreset::from_cli(""), LayoutPreset::TwoByTwo));
}

#[test]
fn preset_names_read_back() {
    for preset in [
        LayoutPreset::Two,
        LayoutPreset::TwoByTwo,
        LayoutPreset::ThreeByFour,
        LayoutPreset::FourByFour,
    ] {
        assert_eq!(LayoutPreset::from_cli(preset.cli_name()), preset);
    }
    assert_eq!(LayoutPreset::ThreeByFour.cli_name(), "3x4");
}

#[test]
fn pane_counts() {
    assert_eq!(LayoutPreset::Two.pane_count(), 2);
    assert_eq!(LayoutPreset::TwoByTwo.pane_count(), 4);
    assert_eq!(LayoutPreset::ThreeByFour.pane_count(), 12);
    assert_eq!(LayoutPreset::FourByFour.pane_count(), 16);
}

#[test]
fn three_by_four_is_four_rows_of_three() {
    match LayoutPreset::ThreeByFour.tree() {
        LayoutNode::Split { axis, weights, children } => {
            assert_eq!(axis, Axis::Column);
            assert_eq!(weights, vec![1, 1, 1, 1]);
            assert_eq!(children.len(), 4);
            for child in &children {
                match child {
                    LayoutNode::Split { axis, weights, children } => {
                        assert_eq!(*axis, Axis::Row);
                        assert_eq!(*weights, vec![1, 1, 1]);
                        assert!(children.iter().all(|c| matches!(c, LayoutNode::Pane)));
                        assert_eq!(children.len(), 3);
                    }
                    LayoutNode::Pane => panic!("expected a row"),
                }
            }
        }
        LayoutNode::Pane => panic!("expected a split"),
    }
}

#[test]
fn every_preset_places_every_pane() {
    let area = Rect { x: 0, y: 0, width: 120, height: 40 };
    for preset in [
        LayoutPreset::Two,
        LayoutPreset::TwoByTwo,
        LayoutPreset::ThreeByFour,
        LayoutPreset::FourByFour,
    ] {
        let mut out = Vec::new();
        leaf_rects(&preset.tree(), area, &mut out);
        assert_eq!(out.len(), preset.pane_count());
        for r in &out {
            assert!(r.x >= area.x && r.x + r.width <= area.x + area.width);
            assert!(r.y >= area.y && r.y + r.height <= area.y + area.height);
        }
    }
}

#[test]
fn two_by_two_splits_area_into_quarters() {
    let area = Rect { x: 0, y: 0, width: 100, height: 40 };
    let mut out = Vec::new();
    leaf_rects(&LayoutPreset::TwoByTwo.tree(), area, &mut out);
    assert_eq!(
        out,
        vec![
            Rect { x: 0, y: 0, width: 50, height: 20 },
            Rect { x: 50, y: 0, width: 50, height: 20 },
            Rect { x: 0, y: 20, width: 50, height: 20 },
            Rect { x: 50, y: 20, width: 50, height: 20 },
        ]
    );
}

#[test]
fn row_split_keeps_height_and_appends() {
    let area = Rect { x: 3, y: 7, width: 90, height: 11 };
    let node = LayoutNode::Split {
        axis: Axis::Row,
        weights: vec![1, 2],
        children: vec![LayoutNode::Pane, LayoutNode::Pane],
    };
    let first = Rect { x: 0, y: 0, width: 1, height: 1 };
    let mut out = vec![first];
    leaf_rects(&node, area, &mut out);
    assert_eq!(out.len(), 3);
    assert_eq!(out[0], first);
    assert_eq!(out[1], Rect { x: 3, y: 7, width: 30, height: 11 });
    assert_eq!(out[2], Rect { x: 33, y: 7, width: 60, height: 11 });
}

#[test]
fn pane_alone_takes_the_area() {
    let area = Rect { x: 1, y: 2, width: 3, height: 4 };
    let mut out = Vec::new();
    leaf_rects(&LayoutNode::Pane, area, &mut out);
    assert_eq!(out, vec![area]);
}

#[test]
fn extra_children_without_weights_are_not_placed() {
    let node = LayoutNode::Split {
        axis: Axis::Column,
        weights: vec![1],
        children: vec![LayoutNode::Pane, LayoutNode::Pane],
    };
    let mut out = Vec::new();
    leaf_rects(&node, Rect { x: 0, y: 0, width: 10, height: 10 }, &mut out);
    assert_eq!(out, vec![Rect { x: 0, y: 0, width: 10, height: 10 }]);
}

#[test]
fn string_pane_spec_is_command_and_title() {
    let spec = PaneSpec::Command("  htop ".to_string());
    assert_eq!(spec.command(), Some("htop"));
    assert_eq!(spec.title(), Some("htop"));
    let blank = PaneSpec::Command("   ".to_string());
    assert_eq!(blank.command(), None);
    assert_eq!(blank.title(), None);
}

#[test]
fn detailed_pane_spec_prefers_title() {
    let spec = PaneSpec::Detailed {
        title: Some("Logs".to_string()),
        command: Some("tail -f app.log".to_string()),
    };
    assert_eq!(spec.command(), Some("tail -f app.log"));
    assert_eq!(spec.title(), Some("Logs"));
    let untitled = PaneSpec::Detailed { title: Some(" ".to_string()), command: Some(" make ".to_string()) };
    assert_eq!(untitled.title(), Some("make"));
    let empty = PaneSpec::Detailed { title: None, command: None };
    assert_eq!(empty.title(), None);
    assert_eq!(empty.command(), None);
}

#[test]
fn panes_past_the_configuration_open_the_shell() {
    let panes = vec![PaneSpec::Command("htop".to_string())];
    assert_eq!(pane_command(&panes, 0), Some("htop".to_string()));
    assert_eq!(pane_command(&panes, 1), None);
    assert_eq!(pane_command(&panes, 7), None);
}

#[test]
fn pane_titles_fall_back_to_numbers() {
    let panes = vec![
        PaneSpec::Detailed { title: Some("Logs".to_string()), command: None },
        PaneSpec::Command("  ".to_string()),
    ];
    assert_eq!(pane_title(&panes, 0), "Logs");
    assert_eq!(pane_title(&panes, 1), "Pane 2");
    assert_eq!(pane_title(&panes, 11), "Pane 12");
}

#[test]
fn default_shell_is_bash() {
    assert_eq!(gridterm::layout::default_shell(), "bash");
}

#[test]
fn preset_rects_count_panes() {
    let area = Rect { x: 0, y: 0, width: 160, height: 48 };
    let rects = LayoutPreset::FourByFour.pane_rects(area);
    assert_eq!(rects.len(), 16);
    assert_eq!(rects[0], Rect { x: 0, y: 0, width: 40, height: 12 });
    assert_eq!(rects[15], Rect { x: 120, y: 36, width: 40, height: 12 });
    assert_eq!(LayoutPreset::Two.pane_rects(area).len(), 2);
}

#[test]
fn unicode_whitespace_is_trimmed() {
    let spec = PaneSpec::Command("\u{3000}\thtop -d 5\u{a0}\n".to_string());
    assert_eq!(spec.command(), Some("htop -d 5"));
    assert_eq!(gridterm::layout::non_empty(" \u{2028} "), None);
}

#[test]
fn children_are_placed_in_their_own_chunks_in_order() {
    let node = LayoutNode::Split {
        axis: Axis::Column,
        weights: vec![1, 1],
        children: vec![
            LayoutNode::Split {
                axis: Axis::Row,
                weights: vec![1, 1, 2],
                children: vec![LayoutNode::Pane, LayoutNode::Pane, LayoutNode::Pane],
            },
            LayoutNode::Pane,
        ],
    };
    let mut out = Vec::new();
    leaf_rects(&node, Rect { x: 0, y: 0, width: 40, height: 10 }, &mut out);
    assert_eq!(
        out,
        vec![
            Rect { x: 0, y: 0, width: 10, height: 5 },
            Rect { x: 10, y: 0, width: 10, height: 5 },
            Rect { x: 20, y: 0, width: 20, height: 5 },
            Rect { x: 0, y: 5, width: 40, height: 5 },
        ]
    );
}

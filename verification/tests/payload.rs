use part_registry::payload::{canonicalize, parse, parse_tree, CanvasDim, Element, GroupAxis, Node, NodeSize, SpaceSize};

#[test]
fn parses_qr_id() {
    let p = parse("qr id").unwrap();
    assert_eq!(
        p,
        vec![
            Element::Qr { symbology: None },
            Element::Id {
                grouping: None,
                id_chars: None,
            },
        ]
    );
    assert_eq!(canonicalize(&p), "qr id");
}

#[test]
fn parses_id_qr_reverses_order() {
    let p = parse("id qr").unwrap();
    assert_eq!(
        p,
        vec![
            Element::Id {
                grouping: None,
                id_chars: None,
            },
            Element::Qr { symbology: None },
        ]
    );
}

#[test]
fn parses_id_only() {
    let p = parse("id").unwrap();
    assert_eq!(
        p,
        vec![Element::Id {
            grouping: None,
            id_chars: None,
        }]
    );
}

#[test]
fn parses_qr_only() {
    let p = parse("qr").unwrap();
    assert_eq!(p, vec![Element::Qr { symbology: None }]);
}

#[test]
fn parses_element_params() {
    let p = parse("qr:micro-m3-l id:554 space:8px").unwrap();
    assert_eq!(
        p,
        vec![
            Element::Qr {
                symbology: Some("micro-m3-l".into()),
            },
            Element::Id {
                grouping: Some("554".into()),
                id_chars: None,
            },
            Element::Space {
                size: Some(SpaceSize::Px { px: 8 }),
            },
        ]
    );
}

#[test]
fn parses_id_chars_n() {
    let p = parse("id:chars-8").unwrap();
    assert_eq!(
        p,
        vec![Element::Id {
            grouping: None,
            id_chars: Some(8),
        }]
    );
    assert_eq!(canonicalize(&p), "id:chars-8");
}

#[test]
fn space_units() {
    let p = parse("space:5px space:3mm space:4").unwrap();
    assert_eq!(
        p,
        vec![
            Element::Space {
                size: Some(SpaceSize::Px { px: 5 }),
            },
            Element::Space {
                size: Some(SpaceSize::Mm { mm: 3 }),
            },
            Element::Space {
                size: Some(SpaceSize::Px { px: 4 }),
            },
        ]
    );
}

#[test]
fn flat_parse_accepts_single_level_groups() {
    // Stage 2: [h: ...] and [v: ...] now parse and flatten
    // through `parse`. Plain `qr id` keeps stage-1 semantics.
    let p = parse("[h: qr id]").expect("h-group parses");
    assert_eq!(
        p,
        vec![
            Element::Qr { symbology: None },
            Element::Id {
                grouping: None,
                id_chars: None,
            },
        ]
    );
    let p = parse("[v: id qr]").expect("v-group parses");
    assert_eq!(
        p,
        vec![
            Element::Id {
                grouping: None,
                id_chars: None,
            },
            Element::Qr { symbology: None },
        ]
    );
}

#[test]
fn flat_parse_rejects_nested_groups_with_staged_message() {
    let err = parse("[h: [v: qr id]]").expect_err("nested groups staged");
    assert!(err.contains("groups inside groups"), "got: {err}");
}

#[test]
fn flat_parse_canvas_at_root_not_flattened() {
    // Canvas is structured, not flat — parse() (the flat shim)
    // surfaces the "cannot be flattened" error explaining the
    // canvas needs parse_tree.
    let err = parse("[c 64x32px: qr@(0px,0px)]").expect_err("canvas needs tree");
    assert!(err.contains("canvas"), "got: {err}");
}

#[test]
fn rejects_unknown_element() {
    let err = parse("foo").expect_err("unknown element");
    assert!(err.contains("unknown element"), "got: {err}");
}

#[test]
fn empty_payload_is_empty_vec() {
    assert_eq!(parse("").unwrap(), Vec::<Element>::new());
    assert_eq!(parse("   ").unwrap(), Vec::<Element>::new());
}

// ---------- structured tree tests (stage 2) ----------

#[test]
fn tree_parses_flat_leaves_as_list() {
    let t = parse_tree("qr id").expect("parses");
    match t {
        Node::List(nodes) => {
            assert_eq!(nodes.len(), 2);
            assert!(matches!(nodes[0], Node::Leaf(_)));
            assert!(matches!(nodes[1], Node::Leaf(_)));
        }
        other => panic!("expected List, got {other:?}"),
    }
}

#[test]
fn tree_parses_h_group_with_leaves() {
    let t = parse_tree("[h: qr id]").expect("parses");
    match t {
        Node::Group { axis, children } => {
            assert_eq!(axis, GroupAxis::H);
            assert_eq!(children.len(), 2);
        }
        other => panic!("expected Group, got {other:?}"),
    }
}

#[test]
fn tree_parses_v_group_with_leaves() {
    let t = parse_tree("[v: qr id]").expect("parses");
    match t {
        Node::Group { axis, .. } => assert_eq!(axis, GroupAxis::V),
        other => panic!("expected Group, got {other:?}"),
    }
}

#[test]
fn tree_parses_leaf_with_size_px() {
    let t = parse_tree("qr@8px").expect("parses");
    match t {
        Node::Leaf(l) => {
            assert!(matches!(l.element, Element::Qr { .. }));
            assert_eq!(l.size, Some(NodeSize::Px { px: 8 }));
        }
        other => panic!("expected Leaf, got {other:?}"),
    }
}

#[test]
fn tree_parses_leaf_with_flex_weight() {
    let t = parse_tree("space@w2").expect("parses");
    match t {
        Node::Leaf(l) => {
            assert_eq!(l.size, Some(NodeSize::Flex { weight: 2 }));
        }
        other => panic!("expected Leaf, got {other:?}"),
    }
}

#[test]
fn tree_rejects_nested_groups_staged() {
    let err = parse_tree("[h: [v: qr id]]").expect_err("staged");
    assert!(err.contains("groups inside groups"), "got: {err}");
}

#[test]
fn tree_rejects_canvas_inside_flow_with_staged_message() {
    let err = parse_tree("qr [c 64x32px: qr@(0px,0px)]").expect_err("canvas root-only");
    assert!(err.contains("root-only"), "got: {err}");
}

#[test]
fn tree_parses_canvas_with_one_child() {
    let t = parse_tree("[c 64x32px: qr@(0px,0px)]").expect("parses");
    match t {
        Node::Canvas {
            width,
            height,
            children,
        } => {
            assert_eq!(width, CanvasDim::Px { px: 64 });
            assert_eq!(height, CanvasDim::Px { px: 32 });
            assert_eq!(children.len(), 1);
            assert_eq!(children[0].x, CanvasDim::Px { px: 0 });
            assert_eq!(children[0].y, CanvasDim::Px { px: 0 });
        }
        other => panic!("expected Canvas, got {other:?}"),
    }
}

#[test]
fn tree_parses_canvas_with_multiple_children_with_size() {
    let t = parse_tree("[c 100x50mm: qr@(2mm,3mm)@10mm id@(20mm,3mm)]").expect("parses");
    match t {
        Node::Canvas { children, .. } => {
            assert_eq!(children.len(), 2);
            assert_eq!(children[0].size, Some(NodeSize::Mm { mm: 10 }));
            assert!(children[1].size.is_none());
        }
        other => panic!("expected Canvas, got {other:?}"),
    }
}

#[test]
fn tree_unknown_group_tag_errors() {
    let err = parse_tree("[x: qr id]").expect_err("unknown tag");
    assert!(err.contains("unknown group tag"), "got: {err}");
}

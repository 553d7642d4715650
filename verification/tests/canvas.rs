use part_registry::canvas::{resolve_canvas_px, CanvasChildPx};
use part_registry::payload::Element;

// Positions and sizes are given in device px; the mm conversion at a dpi
// is float arithmetic and stays outside the library.

fn child(element: Element, x_px: u32, y_px: u32, size_px: u32) -> CanvasChildPx {
    CanvasChildPx { element, x_px, y_px, size_px }
}

fn qr() -> Element {
    Element::Qr { symbology: None }
}

fn id() -> Element {
    Element::Id { grouping: None, id_chars: None }
}

#[test]
fn resolves_dims_and_positions_in_px() {
    let r = resolve_canvas_px(100, 50, &vec![child(qr(), 0, 0, 32), child(id(), 40, 0, 16)]).unwrap();
    assert_eq!(r.width_px, 100);
    assert_eq!(r.height_px, 50);
    assert_eq!(r.children[0].x_px, 0);
    assert_eq!(r.children[1].x_px, 40);
    assert!(r.overlaps.is_empty());
}

#[test]
fn x_overflow_errors_with_child_name_and_overflow_px() {
    let err = resolve_canvas_px(100, 100, &vec![child(qr(), 90, 0, 20)]).expect_err("overflows");
    assert!(err.contains("qr"), "names child: {err}");
    assert!(err.contains("overflow 10px"), "names overflow: {err}");
}

#[test]
fn origin_outside_canvas_errors() {
    let err = resolve_canvas_px(100, 100, &vec![child(qr(), 200, 0, 0)]).expect_err("origin out");
    assert!(err.contains("x=200"), "got: {err}");
}

#[test]
fn qr_over_qr_overlap_is_error() {
    let err = resolve_canvas_px(100, 100, &vec![child(qr(), 0, 0, 50), child(qr(), 30, 30, 50)])
        .expect_err("qr-over-qr");
    assert!(err.contains("qr-over-qr"), "got: {err}");
}

#[test]
fn qr_over_id_overlap_is_warning() {
    let r = resolve_canvas_px(100, 100, &vec![child(qr(), 0, 0, 50), child(id(), 30, 30, 50)]).unwrap();
    assert_eq!(r.overlaps.len(), 1);
    assert!(r.overlaps[0].contains("overlaps"), "got: {:?}", r.overlaps);
}

#[test]
fn no_overlap_between_disjoint_rects() {
    let r = resolve_canvas_px(100, 100, &vec![child(qr(), 0, 0, 20), child(qr(), 50, 0, 20)]).unwrap();
    assert!(r.overlaps.is_empty());
}

#[test]
fn y_overflow_and_exact_fit() {
    let err = resolve_canvas_px(100, 100, &vec![child(id(), 0, 95, 10)]).expect_err("overflows");
    assert!(err.contains("overflow 5px"), "got: {err}");
    let r = resolve_canvas_px(100, 100, &vec![child(id(), 90, 90, 10)]).unwrap();
    assert_eq!(r.children[0].w_px, 10);
    assert_eq!(r.children[0].h_px, 10);
}

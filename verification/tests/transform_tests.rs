use rengine::transform::{get_gl_coords, NdcVertex, Quad};

#[test]
fn origin_quad_concrete() {
    // 512x512 sprite at the pixel origin in a 1280x720 viewport.
    let q = get_gl_coords(0, 0, 512, 512, 1280, 720);
    let expected = Quad {
        bl: NdcVertex { x_num: -1280, y_num: 720 - 1024 },
        br: NdcVertex { x_num: 2 * 512 - 1280, y_num: 720 - 1024 },
        tr: NdcVertex { x_num: 2 * 512 - 1280, y_num: 720 },
        tl: NdcVertex { x_num: -1280, y_num: 720 },
    };
    assert_eq!(q, expected);
    // The left edge is the NDC value -1; the right edge is -1 + 2w/W,
    // within floating-point tolerance.
    assert!((q.bl.x_num as f64 / 1280.0 - -1.0).abs() < 1e-9);
    assert!((q.br.x_num as f64 / 1280.0 - (-1.0 + 2.0 * 512.0 / 1280.0)).abs() < 1e-9);
    // Under the pixel-down to device-up flip the top edge is +1.
    assert!((q.tl.y_num as f64 / 720.0 - 1.0).abs() < 1e-9);
    assert!((q.bl.y_num as f64 / 720.0 - (1.0 - 2.0 * 512.0 / 720.0)).abs() < 1e-9);
}

#[test]
fn quad_of_offset_sprite() {
    let q = get_gl_coords(-100, -50, 10, 20, 800, 600);
    assert_eq!(q.bl, NdcVertex { x_num: -1000, y_num: 660 });
    assert_eq!(q.br, NdcVertex { x_num: -980, y_num: 660 });
    assert_eq!(q.tr, NdcVertex { x_num: -980, y_num: 700 });
    assert_eq!(q.tl, NdcVertex { x_num: -1000, y_num: 700 });
}

#[test]
fn vertical_flip_lowers_ndc_y() {
    let near = get_gl_coords(200, 200, 512, 1024, 1280, 720);
    let lower = get_gl_coords(200, 201, 512, 1024, 1280, 720);
    assert!(lower.bl.y_num < near.bl.y_num);
    assert!(lower.br.y_num < near.br.y_num);
    assert!(lower.tr.y_num < near.tr.y_num);
    assert!(lower.tl.y_num < near.tl.y_num);
    assert_eq!(lower.bl.x_num, near.bl.x_num);
    assert_eq!(lower.br.x_num, near.br.x_num);
    assert_eq!(lower.tr.x_num, near.tr.x_num);
    assert_eq!(lower.tl.x_num, near.tl.x_num);
}

#[test]
fn corner_order_is_fan_order() {
    // bottom-left, bottom-right, top-right, top-left.
    let q = get_gl_coords(100, 100, 50, 60, 640, 480);
    assert!(q.bl.x_num < q.br.x_num);
    assert_eq!(q.bl.y_num, q.br.y_num);
    assert!(q.br.y_num < q.tr.y_num);
    assert_eq!(q.tr.x_num, q.br.x_num);
    assert_eq!(q.tl.x_num, q.bl.x_num);
    assert_eq!(q.tl.y_num, q.tr.y_num);
}

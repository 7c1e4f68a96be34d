use rengine::cache::{ResourceCache, TextureId};
use rengine::renderer::{Blink, ColorRgb, RenderError, SpriteEntity, SpriteRenderer, Tint};
use rengine::transform::{get_gl_coords, Position, Size};

fn entity(id: u128, resource: u128, x: i32, y: i32, w: i32, h: i32) -> SpriteEntity {
    SpriteEntity {
        id,
        position: Position { x, y },
        size: Size { w, h },
        resource,
        blink: None,
        tint: None,
    }
}

const IDENTITY: [[f32; 4]; 4] = [
    [1.0, 0.0, 0.0, 0.0],
    [0.0, 1.0, 0.0, 0.0],
    [0.0, 0.0, 1.0, 0.0],
    [0.0, 0.0, 0.0, 1.0],
];

#[test]
fn miss_is_skipped_and_never_fatal() {
    let renderer = SpriteRenderer::new(1280, 720);
    let mut cache = ResourceCache::new();
    let entities = vec![entity(1, 100, 0, 0, 512, 512)];
    // The resource is never inserted: across any number of frames the
    // entity is skipped and no error is reported.
    for _ in 0..10 {
        let plan = renderer
            .render(IDENTITY, IDENTITY, &entities, &mut cache, 0)
            .unwrap();
        assert!(plan.calls.is_empty());
    }
    // The load was requested exactly once.
    assert_eq!(cache.take_pending(), vec![100]);
}

#[test]
fn miss_then_insert_then_drawn() {
    let renderer = SpriteRenderer::new(1280, 720);
    let mut cache = ResourceCache::new();
    let entities = vec![entity(1, 100, 0, 0, 512, 512)];
    let plan = renderer
        .render(IDENTITY, IDENTITY, &entities, &mut cache, 0)
        .unwrap();
    assert!(plan.calls.is_empty());
    // The loader completes.
    assert_eq!(cache.take_pending(), vec![100]);
    cache.insert(100, TextureId(77));
    let plan = renderer
        .render(IDENTITY, IDENTITY, &entities, &mut cache, 16)
        .unwrap();
    assert_eq!(plan.calls.len(), 1);
    assert_eq!(plan.calls[0].entity, 1);
    assert_eq!(plan.calls[0].resource, 100);
    assert_eq!(plan.calls[0].texture, TextureId(77));
    assert_eq!(plan.calls[0].elapsed_ms, 16);
}

#[test]
fn draw_order_is_iteration_order_and_stable() {
    let renderer = SpriteRenderer::new(1280, 720);
    let mut cache = ResourceCache::new();
    cache.insert(10, TextureId(1));
    cache.insert(20, TextureId(2));
    cache.insert(30, TextureId(3));
    let entities = vec![
        entity(3, 30, 700, 400, 600, 300),
        entity(1, 10, 0, 0, 512, 512),
        entity(2, 20, 200, 200, 512, 1024),
    ];
    let first = renderer
        .render(IDENTITY, IDENTITY, &entities, &mut cache, 0)
        .unwrap();
    let second = renderer
        .render(IDENTITY, IDENTITY, &entities, &mut cache, 16)
        .unwrap();
    let order1: Vec<u128> = first.calls.iter().map(|c| c.entity).collect();
    let order2: Vec<u128> = second.calls.iter().map(|c| c.entity).collect();
    assert_eq!(order1, vec![3, 1, 2]);
    assert_eq!(order1, order2);
}

#[test]
fn mixed_hits_and_misses_keep_relative_order() {
    let renderer = SpriteRenderer::new(1280, 720);
    let mut cache = ResourceCache::new();
    cache.insert(10, TextureId(1));
    cache.insert(30, TextureId(3));
    let entities = vec![
        entity(1, 10, 0, 0, 10, 10),
        entity(2, 20, 0, 0, 10, 10),
        entity(3, 30, 0, 0, 10, 10),
    ];
    let plan = renderer
        .render(IDENTITY, IDENTITY, &entities, &mut cache, 0)
        .unwrap();
    let drawn: Vec<u128> = plan.calls.iter().map(|c| c.entity).collect();
    assert_eq!(drawn, vec![1, 3]);
}

#[test]
fn zero_sized_sprite_is_a_configuration_error() {
    let renderer = SpriteRenderer::new(1280, 720);
    let mut cache = ResourceCache::new();
    cache.insert(10, TextureId(1));
    let entities = vec![entity(1, 10, 0, 0, 10, 10), entity(2, 10, 0, 0, 0, 10)];
    let result = renderer.render(IDENTITY, IDENTITY, &entities, &mut cache, 0);
    assert_eq!(result.unwrap_err(), RenderError::ZeroSizedSprite { entity: 2 });
    // Fail-fast: the cache was not touched.
    assert_eq!(cache.take_pending(), Vec::<u128>::new());
}

#[test]
fn out_of_range_sprite_is_a_configuration_error() {
    let renderer = SpriteRenderer::new(1280, 720);
    let mut cache = ResourceCache::new();
    let entities = vec![entity(9, 10, i32::MAX - 4, 0, 10, 10)];
    let result = renderer.render(IDENTITY, IDENTITY, &entities, &mut cache, 0);
    assert_eq!(result.unwrap_err(), RenderError::SpriteOutOfRange { entity: 9 });
}

#[test]
fn blink_and_tint_reach_the_draw_call() {
    let renderer = SpriteRenderer::new(1280, 720);
    let mut cache = ResourceCache::new();
    cache.insert(10, TextureId(1));
    let mut decorated = entity(1, 10, 0, 0, 10, 10);
    decorated.blink = Some(Blink { color: ColorRgb { r: 255, g: 0, b: 0 }, amplitude: 128 });
    decorated.tint = Some(Tint { color: ColorRgb { r: 0, g: 255, b: 0 } });
    let plain = entity(2, 10, 0, 0, 10, 10);
    let entities = vec![decorated, plain];
    let plan = renderer
        .render(IDENTITY, IDENTITY, &entities, &mut cache, 500)
        .unwrap();
    assert_eq!(plan.calls.len(), 2);
    let call = &plan.calls[0];
    assert!(call.should_blink);
    assert_eq!(call.blink_color, ColorRgb { r: 255, g: 0, b: 0 });
    assert_eq!(call.blink_amplitude, 128);
    assert!(call.should_tint);
    assert_eq!(call.tint_color, ColorRgb { r: 0, g: 255, b: 0 });
    assert_eq!(call.elapsed_ms, 500);
    let call = &plan.calls[1];
    assert!(!call.should_blink);
    assert!(!call.should_tint);
    assert_eq!(call.blink_color, ColorRgb { r: 0, g: 0, b: 0 });
    assert_eq!(call.blink_amplitude, 0);
}

#[test]
fn plan_quads_match_the_transform() {
    let renderer = SpriteRenderer::new(1280, 720);
    let mut cache = ResourceCache::new();
    cache.insert(10, TextureId(1));
    let entities = vec![entity(1, 10, 200, 200, 512, 1024)];
    let plan = renderer
        .render(IDENTITY, IDENTITY, &entities, &mut cache, 0)
        .unwrap();
    assert_eq!(plan.calls[0].quad, get_gl_coords(200, 200, 512, 1024, 1280, 720));
    assert_eq!(plan.viewport_w, 1280);
    assert_eq!(plan.viewport_h, 720);
}

#[test]
fn projection_and_view_pass_through() {
    let renderer = SpriteRenderer::new(640, 480);
    let mut cache = ResourceCache::new();
    let projection = [
        [2.0 / 640.0, 0.0, 0.0, 0.0],
        [0.0, -2.0 / 480.0, 0.0, 0.0],
        [0.0, 0.0, 1.0, 0.0],
        [-1.0, 1.0, 0.0, 1.0],
    ];
    let plan = renderer
        .render(projection, IDENTITY, &Vec::new(), &mut cache, 0)
        .unwrap();
    assert_eq!(plan.projection, projection);
    assert_eq!(plan.view, IDENTITY);
    assert!(plan.calls.is_empty());
}

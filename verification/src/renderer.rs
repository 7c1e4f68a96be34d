//! Per-frame render pass.
//!
//! Each frame the renderer walks the entity store's query result in its
//! iteration order and turns it into a frame plan: the global uniforms
//! passed through unchanged and one draw call per entity whose resource is
//! resident, each with its quad corners, its texture, and its resolved
//! blink and tint uniform state. An entity whose resource is not resident
//! is skipped for the frame and its load is requested through the cache; a
//! malformed entity is a configuration error and aborts the frame before
//! any cache mutation. A backend executes the plan's calls in order under
//! additive blending with source-alpha / one-minus-source-alpha color
//! factors, and reports its own bind or submit failures to the frame loop.

use vstd::prelude::*;

use crate::cache::{get_or_request_step, CacheEntry, ResourceCache, TextureId};
use crate::transform::{get_gl_coords, quad_spec, valid_rect, valid_viewport, Quad, Position, Size};

verus! {

/// A color with 8-bit channels; a backend divides by 255 where it needs the
/// normalized 0-1 form.
#[derive(Clone, Copy, PartialEq, Eq, Structural, Debug)]
pub struct ColorRgb {
    pub r: u8,
    pub g: u8,
    pub b: u8,
}

/// Blink modifier: a pulsing overlay color with an amplitude, animated by
/// the shader from the supplied elapsed time.
#[derive(Clone, Copy, PartialEq, Eq, Structural, Debug)]
pub struct Blink {
    pub color: ColorRgb,
    pub amplitude: u8,
}

/// Tint modifier: a static overlay color.
#[derive(Clone, Copy, PartialEq, Eq, Structural, Debug)]
pub struct Tint {
    pub color: ColorRgb,
}

/// One row of the entity store's per-frame query: a drawable sprite with its
/// placement, its resource handle and its optional visual modifiers.
#[derive(Clone, Copy, PartialEq, Eq, Debug)]
pub struct SpriteEntity {
    pub id: u128,
    pub position: Position,
    pub size: Size,
    pub resource: u128,
    pub blink: Option<Blink>,
    pub tint: Option<Tint>,
}

/// One draw call of a frame plan: everything a backend binds and sets for
/// the shared quad primitive before it submits.
#[derive(Clone, Copy, PartialEq, Eq, Debug)]
pub struct DrawCall {
    pub entity: u128,
    pub resource: u128,
    pub texture: TextureId,
    pub quad: Quad,
    pub should_blink: bool,
    pub blink_color: ColorRgb,
    pub blink_amplitude: u8,
    pub should_tint: bool,
    pub tint_color: ColorRgb,
    pub elapsed_ms: u64,
}

/// The error of a render pass. The first two are configuration errors
/// detected before any draw call is planned; the last is what an executing
/// backend reports to the frame loop when binding or submitting fails,
/// aborting the rest of the frame.
#[derive(Clone, Copy, PartialEq, Eq, Structural, Debug)]
pub enum RenderError {
    ZeroSizedSprite { entity: u128 },
    SpriteOutOfRange { entity: u128 },
    BackendFailure,
}

/// The full frame plan: the global projection and view uniforms passed
/// through unchanged, the viewport the quads were computed against, and the
/// draw calls in entity iteration order.
#[derive(Debug)]
pub struct FramePlan<M> {
    pub projection: M,
    pub view: M,
    pub viewport_w: u32,
    pub viewport_h: u32,
    pub calls: Vec<DrawCall>,
}

/// An entity the transform accepts: positive size and a placement whose far
/// edge stays in the 32-bit pixel range.
pub open spec fn entity_drawable(e: SpriteEntity) -> bool {
    valid_rect(e.position.x as int, e.position.y as int, e.size.w as int, e.size.h as int)
}

/// The configuration error an undrawable entity is reported with.
pub open spec fn entity_error(e: SpriteEntity) -> RenderError {
    if e.size.w <= 0 || e.size.h <= 0 {
        RenderError::ZeroSizedSprite { entity: e.id }
    } else {
        RenderError::SpriteOutOfRange { entity: e.id }
    }
}

/// The first entity index the validation pass rejects.
pub open spec fn first_undrawable(entities: Seq<SpriteEntity>) -> int {
    choose|k: int|
        0 <= k < entities.len() && !entity_drawable(entities[k]) && (forall|j: int|
            0 <= j < k ==> entity_drawable(entities[j]))
}

/// The draw call of one entity whose resource is resident under `t`.
pub open spec fn draw_call_of(e: SpriteEntity, t: TextureId, elapsed_ms: u64, vw: int, vh: int) -> DrawCall {
    DrawCall {
        entity: e.id,
        resource: e.resource,
        texture: t,
        quad: quad_spec(
            e.position.x as int,
            e.position.y as int,
            e.size.w as int,
            e.size.h as int,
            vw,
            vh,
        ),
        should_blink: e.blink is Some,
        blink_color: match e.blink {
            Some(b) => b.color,
            None => ColorRgb { r: 0, g: 0, b: 0 },
        },
        blink_amplitude: match e.blink {
            Some(b) => b.amplitude,
            None => 0u8,
        },
        should_tint: e.tint is Some,
        tint_color: match e.tint {
            Some(t) => t.color,
            None => ColorRgb { r: 0, g: 0, b: 0 },
        },
        elapsed_ms,
    }
}

/// The draw calls of a frame: one per entity whose resource is in the
/// loaded map, in entity order; every other entity is skipped.
pub open spec fn plan_calls(
    entities: Seq<SpriteEntity>,
    loaded: Map<u128, TextureId>,
    elapsed_ms: u64,
    vw: int,
    vh: int,
) -> Seq<DrawCall>
    decreases entities.len(),
{
    if entities.len() == 0 {
        Seq::empty()
    } else {
        let rest = plan_calls(entities.drop_last(), loaded, elapsed_ms, vw, vh);
        let e = entities.last();
        if loaded.dom().contains(e.resource) {
            rest.push(draw_call_of(e, loaded[e.resource], elapsed_ms, vw, vh))
        } else {
            rest
        }
    }
}

/// The per-frame render pass over a fixed viewport.
pub struct SpriteRenderer {
    viewport_w: u32,
    viewport_h: u32,
}

impl SpriteRenderer {
    /// The viewport width the quads are computed against.
    pub closed spec fn viewport_width(self) -> u32 {
        self.viewport_w
    }

    /// The viewport height the quads are computed against.
    pub closed spec fn viewport_height(self) -> u32 {
        self.viewport_h
    }

    /// Well-formed: a nonzero viewport.
    pub open spec fn wf(self) -> bool {
        valid_viewport(self.viewport_width() as int, self.viewport_height() as int)
    }

    /// A renderer for a nonzero viewport.
    pub fn new(viewport_w: u32, viewport_h: u32) -> (r: SpriteRenderer)
        requires
            viewport_w > 0,
            viewport_h > 0,
        ensures
            r.wf(),
            r.viewport_width() == viewport_w,
            r.viewport_height() == viewport_h,
    {
        SpriteRenderer { viewport_w, viewport_h }
    }

    /// The viewport as a pair.
    pub fn viewport(&self) -> (r: (u32, u32))
        ensures
            r.0 == self.viewport_width(),
            r.1 == self.viewport_height(),
    {
        (self.viewport_w, self.viewport_h)
    }

    /// Plan one frame: validate every entity, then emit one draw call per
    /// entity whose resource is resident, in iteration order, requesting
    /// the load of every miss through the cache. A malformed entity aborts
    /// the frame with its configuration error before the cache is touched;
    /// a miss is no error. The loaded part of the cache is never changed.
    pub fn render<M>(
        &self,
        projection: M,
        view: M,
        entities: &Vec<SpriteEntity>,
        cache: &mut ResourceCache,
        elapsed_ms: u64,
    ) -> (r: Result<FramePlan<M>, RenderError>)
        requires
            self.wf(),
            old(cache).wf(),
        ensures
            final(cache).wf(),
            forall|h: u128| final(cache).loaded_texture(h) == old(cache).loaded_texture(h),
            r is Ok <==> (forall|k: int|
                0 <= k < entities@.len() ==> entity_drawable(entities@[k])),
            r matches Ok(plan) ==> {
                &&& plan.calls@ == plan_calls(
                    entities@,
                    old(cache).loaded_map(),
                    elapsed_ms,
                    self.viewport_width() as int,
                    self.viewport_height() as int,
                )
                &&& plan.projection == projection
                &&& plan.view == view
                &&& plan.viewport_w == self.viewport_width()
                &&& plan.viewport_h == self.viewport_height()
            },
            r is Ok ==> (forall|k: int|
                0 <= k < entities@.len() ==> final(cache).state_of(
                    #[trigger] entities@[k].resource,
                ) is Some),
            r is Err ==> *final(cache) == *old(cache),
            r matches Err(e) ==> !entity_drawable(entities@[first_undrawable(entities@)]) && e
                == entity_error(entities@[first_undrawable(entities@)]),
    {
        let n = entities.len();
        let mut k: usize = 0;
        while k < n
            invariant
                k <= n,
                n == entities@.len(),
                *cache == *old(cache),
                cache.wf(),
                forall|j: int| 0 <= j < k ==> entity_drawable(entities@[j]),
            decreases n - k,
        {
            let e = entities[k];
            let fits = e.size.w > 0 && e.size.h > 0 && (e.position.x as i64) + (e.size.w as i64)
                <= 0x7fff_ffff && (e.position.y as i64) + (e.size.h as i64) <= 0x7fff_ffff;
            if !fits {
                proof {
                    assert(!entity_drawable(entities@[k as int]));
                    lemma_first_undrawable_is(entities@, k as int);
                }
                if e.size.w <= 0 || e.size.h <= 0 {
                    return Err(RenderError::ZeroSizedSprite { entity: e.id });
                }
                return Err(RenderError::SpriteOutOfRange { entity: e.id });
            }
            k = k + 1;
        }
        let ghost cache0 = *cache;
        let ghost loaded = cache0.loaded_map();
        let ghost vw = self.viewport_width() as int;
        let ghost vh = self.viewport_height() as int;
        let mut calls: Vec<DrawCall> = Vec::new();
        let mut i: usize = 0;
        while i < n
            invariant
                i <= n,
                n == entities@.len(),
                self.wf(),
                cache0 == *old(cache),
                loaded == cache0.loaded_map(),
                vw == self.viewport_width() as int,
                vh == self.viewport_height() as int,
                cache.wf(),
                forall|h: u128| cache.loaded_texture(h) == cache0.loaded_texture(h),
                forall|j: int| 0 <= j < n ==> entity_drawable(entities@[j]),
                calls@ == plan_calls(entities@.subrange(0, i as int), loaded, elapsed_ms, vw, vh),
                forall|j: int|
                    0 <= j < i ==> cache.state_of(#[trigger] entities@[j].resource) is Some,
            decreases n - i,
        {
            let e = entities[i];
            let ghost cache_pre = *cache;
            let resolved = cache.get_or_request(e.resource);
            proof {
                assert(get_or_request_step(cache_pre, *cache, e.resource, resolved));
                assert(cache.state_of(e.resource) is Some) by {
                    if cache_pre.state_of(e.resource) is None || cache_pre.state_of(e.resource)
                        == Some(CacheEntry::Failed) {
                        assert(cache.state_of(e.resource) == Some(CacheEntry::Pending));
                    }
                }
                assert forall|j: int| 0 <= j < i + 1 implies cache.state_of(
                    #[trigger] entities@[j].resource,
                ) is Some by {
                    if j < i {
                        assert(cache_pre.state_of(entities@[j].resource) is Some);
                        if entities@[j].resource != e.resource {
                            assert(cache.state_of(entities@[j].resource) == cache_pre.state_of(
                                entities@[j].resource,
                            ));
                        }
                    }
                }
                assert(resolved == cache0.loaded_texture(e.resource));
            }
            match resolved {
                Some(texture) => {
                    let quad = get_gl_coords(
                        e.position.x,
                        e.position.y,
                        e.size.w,
                        e.size.h,
                        self.viewport_w,
                        self.viewport_h,
                    );
                    let (should_blink, blink_color, blink_amplitude) = match e.blink {
                        Some(b) => (true, b.color, b.amplitude),
                        None => (false, ColorRgb { r: 0, g: 0, b: 0 }, 0u8),
                    };
                    let (should_tint, tint_color) = match e.tint {
                        Some(t) => (true, t.color),
                        None => (false, ColorRgb { r: 0, g: 0, b: 0 }),
                    };
                    let call = DrawCall {
                        entity: e.id,
                        resource: e.resource,
                        texture,
                        quad,
                        should_blink,
                        blink_color,
                        blink_amplitude,
                        should_tint,
                        tint_color,
                        elapsed_ms,
                    };
                    proof {
                        assert(loaded.dom().contains(e.resource));
                        assert(loaded[e.resource] == texture);
                        assert(call == draw_call_of(e, texture, elapsed_ms, vw, vh));
                    }
                    calls.push(call);
                },
                None => {
                    proof {
                        assert(!loaded.dom().contains(e.resource));
                    }
                },
            }
            proof {
                let ghost prefix = entities@.subrange(0, i as int);
                let ghost prefix1 = entities@.subrange(0, i + 1);
                assert(prefix1.drop_last() =~= prefix);
                assert(prefix1.last() == entities@[i as int]);
                assert(calls@ == plan_calls(prefix1, loaded, elapsed_ms, vw, vh));
            }
            i = i + 1;
        }
        proof {
            assert(entities@.subrange(0, n as int) =~= entities@);
        }
        Ok(
            FramePlan {
                projection,
                view,
                viewport_w: self.viewport_w,
                viewport_h: self.viewport_h,
                calls,
            },
        )
    }
}

/// Any index whose prefix the validation pass accepted and that it rejects
/// itself is the first rejected index.
proof fn lemma_first_undrawable_is(entities: Seq<SpriteEntity>, k: int)
    requires
        0 <= k < entities.len(),
        !entity_drawable(entities[k]),
        forall|j: int| 0 <= j < k ==> entity_drawable(entities[j]),
    ensures
        first_undrawable(entities) == k,
{
    assert(0 <= k < entities.len() && !entity_drawable(entities[k]) && (forall|j: int|
        0 <= j < k ==> entity_drawable(entities[j])));
    let m = first_undrawable(entities);
    if m < k {
        assert(entity_drawable(entities[m]));
    } else if k < m {
        assert(entity_drawable(entities[k]));
    }
}

/// Law: a frame plan never draws a stale or garbage texture: every draw
/// call's resource is in the loaded map, and its texture is exactly what the
/// map holds for that resource.
pub proof fn lemma_only_loaded_drawn(
    entities: Seq<SpriteEntity>,
    loaded: Map<u128, TextureId>,
    elapsed_ms: u64,
    vw: int,
    vh: int,
)
    ensures
        forall|k: int|
            0 <= k < plan_calls(entities, loaded, elapsed_ms, vw, vh).len() ==> loaded.dom().contains(
                #[trigger] plan_calls(entities, loaded, elapsed_ms, vw, vh)[k].resource,
            ) && plan_calls(entities, loaded, elapsed_ms, vw, vh)[k].texture == loaded[plan_calls(
                entities,
                loaded,
                elapsed_ms,
                vw,
                vh,
            )[k].resource],
    decreases entities.len(),
{
    if entities.len() > 0 {
        lemma_only_loaded_drawn(entities.drop_last(), loaded, elapsed_ms, vw, vh);
        let rest = plan_calls(entities.drop_last(), loaded, elapsed_ms, vw, vh);
        let full = plan_calls(entities, loaded, elapsed_ms, vw, vh);
        let e = entities.last();
        if loaded.dom().contains(e.resource) {
            assert(full == rest.push(draw_call_of(e, loaded[e.resource], elapsed_ms, vw, vh)));
            assert forall|k: int|
                0 <= k < full.len() implies loaded.dom().contains(#[trigger] full[k].resource)
                && full[k].texture == loaded[full[k].resource] by {
                if k < rest.len() {
                    assert(full[k] == rest[k]);
                } else {
                    assert(full[k] == draw_call_of(e, loaded[e.resource], elapsed_ms, vw, vh));
                }
            }
        } else {
            assert(full == rest);
            assert forall|k: int|
                0 <= k < full.len() implies loaded.dom().contains(#[trigger] full[k].resource)
                && full[k].texture == loaded[full[k].resource] by {
                assert(full[k] == rest[k]);
            }
        }
    }
}

/// Law: an entity whose resource handle is never inserted into the cache is
/// never passed to the draw-submission step: no draw call of any frame plan
/// carries a handle outside the loaded map.
pub proof fn lemma_skip_on_miss(
    entities: Seq<SpriteEntity>,
    loaded: Map<u128, TextureId>,
    elapsed_ms: u64,
    vw: int,
    vh: int,
    h: u128,
)
    requires
        !loaded.dom().contains(h),
    ensures
        forall|k: int|
            0 <= k < plan_calls(entities, loaded, elapsed_ms, vw, vh).len() ==> #[trigger] plan_calls(
                entities,
                loaded,
                elapsed_ms,
                vw,
                vh,
            )[k].resource != h,
{
    lemma_only_loaded_drawn(entities, loaded, elapsed_ms, vw, vh);
}

/// Law: draw order is iteration order and is stable across frames: two
/// plans over the same entities and the same loaded map, whatever their
/// elapsed times, draw the same entities in the same relative order.
pub proof fn lemma_draw_order_stable(
    entities: Seq<SpriteEntity>,
    loaded: Map<u128, TextureId>,
    t1: u64,
    t2: u64,
    vw: int,
    vh: int,
)
    ensures
        plan_calls(entities, loaded, t1, vw, vh).map_values(|c: DrawCall| c.entity) == plan_calls(
            entities,
            loaded,
            t2,
            vw,
            vh,
        ).map_values(|c: DrawCall| c.entity),
    decreases entities.len(),
{
    let f = |c: DrawCall| c.entity;
    if entities.len() == 0 {
        assert(plan_calls(entities, loaded, t1, vw, vh).map_values(f) =~= plan_calls(
            entities,
            loaded,
            t2,
            vw,
            vh,
        ).map_values(f));
    } else {
        lemma_draw_order_stable(entities.drop_last(), loaded, t1, t2, vw, vh);
        let p1 = plan_calls(entities.drop_last(), loaded, t1, vw, vh);
        let p2 = plan_calls(entities.drop_last(), loaded, t2, vw, vh);
        let e = entities.last();
        if loaded.dom().contains(e.resource) {
            assert(p1.push(draw_call_of(e, loaded[e.resource], t1, vw, vh)).map_values(f) =~= p1.map_values(
                f,
            ).push(e.id));
            assert(p2.push(draw_call_of(e, loaded[e.resource], t2, vw, vh)).map_values(f) =~= p2.map_values(
                f,
            ).push(e.id));
        }
    }
}

} // verus!

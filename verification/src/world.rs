//! The world, its configuration, and the tick that advances it.
//!
//! A tick is one atomic transition: drain the queued commands, apply per-tick
//! forces (velocity damping, radius decay, removal of circles below the
//! minimum radius), run a fixed number of integration sub-steps (gravity,
//! motion, wall bounces, broad-phase grid, narrow-phase resolution), bump the
//! frame counter, and emit an immutable snapshot. The whole transition is one
//! spec function, [`tick_spec`], and [`Grid::tick`] is proved equal to it.

use vstd::prelude::*;
use vstd::pervasive::VecAdditionalExecFns;
use crate::body::{circle_models, static_circle_models, static_rectangle_models, Circle,
    CircleModel, GridMessage, StaticCircle, StaticCircleModel, StaticRectangle,
    StaticRectangleModel};
use crate::broad::{build_cells, build_cells_spec, cell_wf, cells_wf, pair_step, resolve_cell,
    resolve_cells, resolve_inner, CellModel};
use crate::collision::{circle_static_circle_collision, circle_static_rectangle_collision,
    collide, collide_static_circle, collide_static_rect};
use crate::fixed::{fx_add, fx_divi, fx_mul, fx_neg, fx_sub, s_abs, s_add, s_divi, s_dot, s_mul,
    s_neg, s_refl, s_sub, FX_MAX, SCALE};

verus! {

/// Tunable simulation options, fixed at world construction so independent
/// worlds can run with independent settings. All fractions are fixed-point
/// values out of `SCALE`.
#[derive(Clone, Copy, Debug)]
pub struct Config {
    /// Downward acceleration added to vertical velocity over each tick.
    pub gravity: i64,
    /// Fraction of speed kept along the contact normal after a wall or
    /// obstacle bounce.
    pub elasticity: i64,
    /// Fraction of velocity kept by each tick's damping pass.
    pub damping: i64,
    /// Fraction of radius kept by each tick's decay pass.
    pub shrink: i64,
    /// Radius below which a circle is removed from the world.
    pub min_radius: i64,
    /// Edge length of one broad-phase grid cell.
    pub cell_size: i64,
    /// Number of integration sub-steps per tick.
    pub sub_ticks: u32,
}

/// Ghost model of a configuration.
pub ghost struct ConfigModel {
    pub gravity: int,
    pub elasticity: int,
    pub damping: int,
    pub shrink: int,
    pub min_radius: int,
    pub cell_size: int,
    pub sub_ticks: int,
}

impl View for Config {
    type V = ConfigModel;

    open spec fn view(&self) -> ConfigModel {
        ConfigModel {
            gravity: self.gravity as int,
            elasticity: self.elasticity as int,
            damping: self.damping as int,
            shrink: self.shrink as int,
            min_radius: self.min_radius as int,
            cell_size: self.cell_size as int,
            sub_ticks: self.sub_ticks as int,
        }
    }
}

/// A well-formed configuration: every fraction lies in `[0, 1]`, gravity
/// and the removal threshold are representable, the grid cell has positive
/// size, and there is at least one sub-step.
pub open spec fn config_wf(c: ConfigModel) -> bool {
    &&& -FX_MAX <= c.gravity <= FX_MAX
    &&& 0 <= c.elasticity <= SCALE
    &&& 0 <= c.damping <= SCALE
    &&& 0 <= c.shrink <= SCALE
    &&& 0 <= c.min_radius <= FX_MAX
    &&& 1 <= c.cell_size <= FX_MAX
    &&& 1 <= c.sub_ticks
}

impl Config {
    /// Whether this configuration is well formed; [`Grid::tick`] requires it.
    pub fn is_valid(&self) -> (valid: bool)
        ensures
            valid == config_wf(self@),
    {
        -FX_MAX <= self.gravity && self.gravity <= FX_MAX && 0 <= self.elasticity
            && self.elasticity <= SCALE && 0 <= self.damping && self.damping <= SCALE && 0
            <= self.shrink && self.shrink <= SCALE && 0 <= self.min_radius && self.min_radius
            <= FX_MAX && 1 <= self.cell_size && self.cell_size <= FX_MAX && 1 <= self.sub_ticks
    }
}

impl Default for Config {
    /// The canonical options: gravity 0.2, elasticity 0.9, damping 0.993,
    /// radius decay 0.998, minimum radius 0.5, cell size 50, 10 sub-steps.
    fn default() -> (c: Config)
        ensures
            c@ == (ConfigModel {
                gravity: 200,
                elasticity: 900,
                damping: 993,
                shrink: 998,
                min_radius: 500,
                cell_size: 50_000,
                sub_ticks: 10,
            }),
            config_wf(c@),
    {
        Config {
            gravity: 200,
            elasticity: 900,
            damping: 993,
            shrink: 998,
            min_radius: 500,
            cell_size: 50_000,
            sub_ticks: 10,
        }
    }
}

/// Ghost model of the whole world between ticks.
pub ghost struct WorldModel {
    pub frame: int,
    pub width: int,
    pub height: int,
    pub circles: Seq<CircleModel>,
    pub statics: Seq<StaticCircleModel>,
    pub rects: Seq<StaticRectangleModel>,
    pub config: ConfigModel,
}

/// One circle after the per-tick damping and decay pass.
pub open spec fn drag_shrink(cfg: ConfigModel, c: CircleModel) -> CircleModel {
    CircleModel {
        vx: s_mul(c.vx, cfg.damping),
        vy: s_mul(c.vy, cfg.damping),
        r: s_mul(c.r, cfg.shrink),
        ..c
    }
}

/// The circles `s[i..]` after damping and decay, keeping only those whose
/// decayed radius still reaches the minimum: the sole removal path.
pub open spec fn integrate_from(cfg: ConfigModel, s: Seq<CircleModel>, i: int) -> Seq<CircleModel>
    decreases s.len() - i,
{
    if i < 0 || i >= s.len() {
        Seq::empty()
    } else {
        let c2 = drag_shrink(cfg, s[i]);
        let rest = integrate_from(cfg, s, i + 1);
        if c2.r >= cfg.min_radius {
            seq![c2] + rest
        } else {
            rest
        }
    }
}

/// The whole force-integration pass.
pub open spec fn integrate(cfg: ConfigModel, s: Seq<CircleModel>) -> Seq<CircleModel> {
    integrate_from(cfg, s, 0)
}

/// One circle after one sub-step of gravity.
pub open spec fn gravity_step(cfg: ConfigModel, c: CircleModel) -> CircleModel {
    CircleModel { vy: s_add(c.vy, s_divi(cfg.gravity, cfg.sub_ticks)), ..c }
}

/// One circle advanced by one sub-step of its velocity.
pub open spec fn move_step(cfg: ConfigModel, c: CircleModel) -> CircleModel {
    CircleModel { x: s_add(c.x, s_divi(c.vx, cfg.sub_ticks)), y: s_add(c.y, s_divi(c.vy, cfg.sub_ticks)), ..c }
}

/// One circle bounced off the world walls: on each crossed side the center
/// is clamped back so the circle's edge sits exactly on the boundary and
/// that axis's velocity is reversed, scaled by the elasticity coefficient.
pub open spec fn wall_step(c: CircleModel, w: int, h: int, e: int) -> CircleModel {
    let c1 = if c.x - c.r < 0 {
        CircleModel { x: c.r, vx: s_neg(s_mul(c.vx, e)), ..c }
    } else {
        c
    };
    let c2 = if c1.x + c1.r > w {
        CircleModel { x: s_sub(w, c1.r), vx: s_neg(s_mul(c1.vx, e)), ..c1 }
    } else {
        c1
    };
    let c3 = if c2.y - c2.r < 0 {
        CircleModel { y: c2.r, vy: s_neg(s_mul(c2.vy, e)), ..c2 }
    } else {
        c2
    };
    if c3.y + c3.r > h {
        CircleModel { y: s_sub(h, c3.r), vy: s_neg(s_mul(c3.vy, e)), ..c3 }
    } else {
        c3
    }
}

/// One circle resolved against the static circles `ss[k..]`, in order.
pub open spec fn hit_static_circles(c: CircleModel, ss: Seq<StaticCircleModel>, e: int, k: int)
    -> CircleModel
    decreases ss.len() - k,
{
    if k < 0 || k >= ss.len() {
        c
    } else {
        hit_static_circles(collide_static_circle(c, ss[k], e), ss, e, k + 1)
    }
}

/// One circle resolved against the static rectangles `rr[k..]`, in order.
pub open spec fn hit_static_rects(c: CircleModel, rr: Seq<StaticRectangleModel>, e: int, k: int)
    -> CircleModel
    decreases rr.len() - k,
{
    if k < 0 || k >= rr.len() {
        c
    } else {
        hit_static_rects(collide_static_rect(c, rr[k], e), rr, e, k + 1)
    }
}

/// The gravity pass over all circles.
pub open spec fn gravity_pass(cfg: ConfigModel, s: Seq<CircleModel>) -> Seq<CircleModel> {
    s.map_values(|c: CircleModel| gravity_step(cfg, c))
}

/// The motion pass over all circles.
pub open spec fn move_pass(cfg: ConfigModel, s: Seq<CircleModel>) -> Seq<CircleModel> {
    s.map_values(|c: CircleModel| move_step(cfg, c))
}

/// The wall-bounce pass over all circles.
pub open spec fn wall_pass(s: Seq<CircleModel>, w: int, h: int, e: int) -> Seq<CircleModel> {
    s.map_values(|c: CircleModel| wall_step(c, w, h, e))
}

/// Every circle resolved against every static circle.
pub open spec fn static_circle_pass(s: Seq<CircleModel>, ss: Seq<StaticCircleModel>, e: int)
    -> Seq<CircleModel> {
    s.map_values(|c: CircleModel| hit_static_circles(c, ss, e, 0))
}

/// Every circle resolved against every static rectangle.
pub open spec fn static_rect_pass(s: Seq<CircleModel>, rr: Seq<StaticRectangleModel>, e: int)
    -> Seq<CircleModel> {
    s.map_values(|c: CircleModel| hit_static_rects(c, rr, e, 0))
}

/// One whole integration sub-step, in order: gravity, motion, wall bounce,
/// broad-phase grid build, narrow-phase resolution of the grid's candidate
/// pairs, then resolution against every static circle and rectangle.
pub open spec fn substep_spec(
    cfg: ConfigModel,
    w: int,
    h: int,
    ss: Seq<StaticCircleModel>,
    rr: Seq<StaticRectangleModel>,
    s: Seq<CircleModel>,
) -> Seq<CircleModel> {
    let s1 = gravity_pass(cfg, s);
    let s2 = move_pass(cfg, s1);
    let s3 = wall_pass(s2, w, h, cfg.elasticity);
    let s4 = resolve_cells(s3, build_cells_spec(s3, cfg.cell_size), 0);
    let s5 = static_circle_pass(s4, ss, cfg.elasticity);
    static_rect_pass(s5, rr, cfg.elasticity)
}

/// `n` integration sub-steps in sequence.
pub open spec fn substeps_spec(
    cfg: ConfigModel,
    w: int,
    h: int,
    ss: Seq<StaticCircleModel>,
    rr: Seq<StaticRectangleModel>,
    s: Seq<CircleModel>,
    n: int,
) -> Seq<CircleModel>
    decreases n,
{
    if n <= 0 {
        s
    } else {
        substeps_spec(cfg, w, h, ss, rr, substep_spec(cfg, w, h, ss, rr, s), n - 1)
    }
}

/// The world after consuming the commands `msgs[k..]` in arrival order:
/// bodies are appended as given (no field validation) and a resize replaces
/// the wall-collision bounds at once.
pub open spec fn apply_messages_from(w: WorldModel, msgs: Seq<GridMessage>, k: int) -> WorldModel
    decreases msgs.len() - k,
{
    if k < 0 || k >= msgs.len() {
        w
    } else {
        let w2 = match msgs[k] {
            GridMessage::AddCircle(c) => WorldModel { circles: w.circles.push(c@), ..w },
            GridMessage::AddStaticCircle(s) => WorldModel { statics: w.statics.push(s@), ..w },
            GridMessage::AddStaticRectangle(t) => WorldModel { rects: w.rects.push(t@), ..w },
            GridMessage::Resize(nw, nh) => WorldModel { width: nw as int, height: nh as int, ..w },
        };
        apply_messages_from(w2, msgs, k + 1)
    }
}

/// The whole command backlog consumed in arrival order.
pub open spec fn apply_messages(w: WorldModel, msgs: Seq<GridMessage>) -> WorldModel {
    apply_messages_from(w, msgs, 0)
}

/// One whole tick: commands, force integration, sub-steps, frame count.
pub open spec fn tick_spec(w: WorldModel, msgs: Seq<GridMessage>) -> WorldModel {
    let w1 = apply_messages(w, msgs);
    let s1 = integrate(w1.config, w1.circles);
    let s2 = substeps_spec(
        w1.config,
        w1.width,
        w1.height,
        w1.statics,
        w1.rects,
        s1,
        w1.config.sub_ticks,
    );
    WorldModel { frame: w1.frame + 1, circles: s2, ..w1 }
}

fn integrate_forces(circles: &mut Vec<Circle>, config: &Config)
    ensures
        circle_models(final(circles)@) == integrate(config@, circle_models(old(circles)@)),
{
    let ghost cfg = config@;
    let ghost s = circle_models(circles@);
    let mut out: Vec<Circle> = Vec::new();
    let n = circles.len();
    let mut i: usize = 0;
    proof {
        assert(circle_models(out@) =~= Seq::<CircleModel>::empty());
        assert(circle_models(out@) + integrate_from(cfg, s, 0) =~= integrate_from(cfg, s, 0));
    }
    while i < n
        invariant
            0 <= i <= n,
            n == circles@.len(),
            s == circle_models(circles@),
            cfg == config@,
            integrate(cfg, s) == circle_models(out@) + integrate_from(cfg, s, i as int),
        decreases n - i,
    {
        let c = circles[i];
        let c2 = Circle {
            x_pos: c.x_pos,
            y_pos: c.y_pos,
            radius: fx_mul(c.radius, config.shrink),
            velocity: (fx_mul(c.velocity.0, config.damping), fx_mul(c.velocity.1, config.damping)),
        };
        proof {
            assert(c2@ == drag_shrink(cfg, s[i as int]));
        }
        if c2.radius >= config.min_radius {
            let ghost out_before = circle_models(out@);
            out.push(c2);
            proof {
                assert(circle_models(out@) =~= out_before.push(c2@));
                assert(circle_models(out@) + integrate_from(cfg, s, i + 1) =~= out_before + (seq![
                    c2@,
                ] + integrate_from(cfg, s, i + 1)));
            }
        }
        i = i + 1;
    }
    *circles = out;
}

fn apply_gravity(circles: &mut Vec<Circle>, config: &Config)
    requires
        config@.sub_ticks >= 1,
    ensures
        circle_models(final(circles)@) == gravity_pass(config@, circle_models(old(circles)@)),
{
    let ghost cfg = config@;
    let ghost s = circle_models(old(circles)@);
    let g_step = fx_divi(config.gravity, config.sub_ticks as i64);
    let n = circles.len();
    let mut i: usize = 0;
    while i < n
        invariant
            0 <= i <= n,
            n == circles@.len(),
            cfg == config@,
            s.len() == n,
            g_step as int == s_divi(cfg.gravity, cfg.sub_ticks),
            forall|j: int| 0 <= j < i ==> circle_models(circles@)[j] == gravity_step(
                cfg,
                #[trigger] s[j],
            ),
            forall|j: int| i <= j < n ==> circle_models(circles@)[j] == #[trigger] s[j],
        decreases n - i,
    {
        let mut c = circles[i];
        c.velocity.1 = fx_add(c.velocity.1, g_step);
        circles.set(i, c);
        i = i + 1;
    }
    proof {
        assert(circle_models(circles@) =~= gravity_pass(cfg, s));
    }
}

fn move_circles(circles: &mut Vec<Circle>, config: &Config)
    requires
        config@.sub_ticks >= 1,
    ensures
        circle_models(final(circles)@) == move_pass(config@, circle_models(old(circles)@)),
{
    let ghost cfg = config@;
    let ghost s = circle_models(old(circles)@);
    let st = config.sub_ticks as i64;
    let n = circles.len();
    let mut i: usize = 0;
    while i < n
        invariant
            0 <= i <= n,
            n == circles@.len(),
            cfg == config@,
            s.len() == n,
            st as int == cfg.sub_ticks,
            st >= 1,
            forall|j: int| 0 <= j < i ==> circle_models(circles@)[j] == move_step(
                cfg,
                #[trigger] s[j],
            ),
            forall|j: int| i <= j < n ==> circle_models(circles@)[j] == #[trigger] s[j],
        decreases n - i,
    {
        let mut c = circles[i];
        c.x_pos = fx_add(c.x_pos, fx_divi(c.velocity.0, st));
        c.y_pos = fx_add(c.y_pos, fx_divi(c.velocity.1, st));
        circles.set(i, c);
        i = i + 1;
    }
    proof {
        assert(circle_models(circles@) =~= move_pass(cfg, s));
    }
}

fn bounce_walls(circles: &mut Vec<Circle>, width: i64, height: i64, elasticity: i64)
    ensures
        circle_models(final(circles)@) == wall_pass(
            circle_models(old(circles)@),
            width as int,
            height as int,
            elasticity as int,
        ),
{
    let ghost s = circle_models(old(circles)@);
    let ghost w = width as int;
    let ghost h = height as int;
    let ghost e = elasticity as int;
    let n = circles.len();
    let mut i: usize = 0;
    while i < n
        invariant
            0 <= i <= n,
            n == circles@.len(),
            s.len() == n,
            w == width as int,
            h == height as int,
            e == elasticity as int,
            forall|j: int| 0 <= j < i ==> circle_models(circles@)[j] == wall_step(
                #[trigger] s[j],
                w,
                h,
                e,
            ),
            forall|j: int| i <= j < n ==> circle_models(circles@)[j] == #[trigger] s[j],
        decreases n - i,
    {
        let mut c = circles[i];
        if (c.x_pos as i128) - (c.radius as i128) < 0 {
            c.x_pos = c.radius;
            c.velocity.0 = fx_neg(fx_mul(c.velocity.0, elasticity));
        }
        if (c.x_pos as i128) + (c.radius as i128) > width as i128 {
            c.x_pos = fx_sub(width, c.radius);
            c.velocity.0 = fx_neg(fx_mul(c.velocity.0, elasticity));
        }
        if (c.y_pos as i128) - (c.radius as i128) < 0 {
            c.y_pos = c.radius;
            c.velocity.1 = fx_neg(fx_mul(c.velocity.1, elasticity));
        }
        if (c.y_pos as i128) + (c.radius as i128) > height as i128 {
            c.y_pos = fx_sub(height, c.radius);
            c.velocity.1 = fx_neg(fx_mul(c.velocity.1, elasticity));
        }
        circles.set(i, c);
        proof {
            assert(circle_models(circles@)[i as int] == wall_step(s[i as int], w, h, e));
        }
        i = i + 1;
    }
    proof {
        assert(circle_models(circles@) =~= wall_pass(s, w, h, e));
    }
}

fn hit_static_circles_pass(circles: &mut Vec<Circle>, statics: &Vec<StaticCircle>, elasticity: i64)
    requires
        0 <= elasticity <= SCALE,
    ensures
        circle_models(final(circles)@) == static_circle_pass(
            circle_models(old(circles)@),
            static_circle_models(statics@),
            elasticity as int,
        ),
{
    let ghost s = circle_models(old(circles)@);
    let ghost ssm = static_circle_models(statics@);
    let ghost e = elasticity as int;
    let n = circles.len();
    let n_statics = statics.len();
    let mut i: usize = 0;
    while i < n
        invariant
            0 <= i <= n,
            n == circles@.len(),
            n_statics == statics@.len(),
            s.len() == n,
            ssm == static_circle_models(statics@),
            e == elasticity as int,
            0 <= elasticity <= SCALE,
            forall|j: int| 0 <= j < i ==> circle_models(circles@)[j] == hit_static_circles(
                #[trigger] s[j],
                ssm,
                e,
                0,
            ),
            forall|j: int| i <= j < n ==> circle_models(circles@)[j] == #[trigger] s[j],
        decreases n - i,
    {
        let mut c = circles[i];
        let ghost c0 = c@;
        let mut k: usize = 0;
        while k < n_statics
            invariant
                0 <= k <= n_statics,
                n_statics == statics@.len(),
                ssm == static_circle_models(statics@),
                e == elasticity as int,
                0 <= elasticity <= SCALE,
                hit_static_circles(c@, ssm, e, k as int) == hit_static_circles(c0, ssm, e, 0),
            decreases n_statics - k,
        {
            let sc = statics[k];
            circle_static_circle_collision(&mut c, &sc, elasticity);
            k = k + 1;
        }
        circles.set(i, c);
        i = i + 1;
    }
    proof {
        assert(circle_models(circles@) =~= static_circle_pass(s, ssm, e));
    }
}

fn hit_static_rects_pass(
    circles: &mut Vec<Circle>,
    rects: &Vec<StaticRectangle>,
    elasticity: i64,
)
    requires
        0 <= elasticity <= SCALE,
    ensures
        circle_models(final(circles)@) == static_rect_pass(
            circle_models(old(circles)@),
            static_rectangle_models(rects@),
            elasticity as int,
        ),
{
    let ghost s = circle_models(old(circles)@);
    let ghost rrm = static_rectangle_models(rects@);
    let ghost e = elasticity as int;
    let n = circles.len();
    let n_rects = rects.len();
    let mut i: usize = 0;
    while i < n
        invariant
            0 <= i <= n,
            n == circles@.len(),
            n_rects == rects@.len(),
            s.len() == n,
            rrm == static_rectangle_models(rects@),
            e == elasticity as int,
            0 <= elasticity <= SCALE,
            forall|j: int| 0 <= j < i ==> circle_models(circles@)[j] == hit_static_rects(
                #[trigger] s[j],
                rrm,
                e,
                0,
            ),
            forall|j: int| i <= j < n ==> circle_models(circles@)[j] == #[trigger] s[j],
        decreases n - i,
    {
        let mut c = circles[i];
        let ghost c0 = c@;
        let mut k: usize = 0;
        while k < n_rects
            invariant
                0 <= k <= n_rects,
                n_rects == rects@.len(),
                rrm == static_rectangle_models(rects@),
                e == elasticity as int,
                0 <= elasticity <= SCALE,
                hit_static_rects(c@, rrm, e, k as int) == hit_static_rects(c0, rrm, e, 0),
            decreases n_rects - k,
        {
            let rc = rects[k];
            circle_static_rectangle_collision(&mut c, &rc, elasticity);
            k = k + 1;
        }
        circles.set(i, c);
        i = i + 1;
    }
    proof {
        assert(circle_models(circles@) =~= static_rect_pass(s, rrm, e));
    }
}

fn sub_step(
    circles: &mut Vec<Circle>,
    statics: &Vec<StaticCircle>,
    rects: &Vec<StaticRectangle>,
    width: i64,
    height: i64,
    config: &Config,
)
    requires
        config_wf(config@),
    ensures
        circle_models(final(circles)@) == substep_spec(
            config@,
            width as int,
            height as int,
            static_circle_models(statics@),
            static_rectangle_models(rects@),
            circle_models(old(circles)@),
        ),
{
    apply_gravity(circles, config);
    move_circles(circles, config);
    bounce_walls(circles, width, height, config.elasticity);
    let cells = build_cells(circles, config.cell_size);
    crate::broad::resolve_collisions(circles, &cells);
    hit_static_circles_pass(circles, statics, config.elasticity);
    hit_static_rects_pass(circles, rects, config.elasticity);
}

/// Every circle's radius reaches at least `m`.
pub open spec fn radii_at_least(s: Seq<CircleModel>, m: int) -> bool {
    forall|k: int| 0 <= k < s.len() ==> (#[trigger] s[k]).r >= m
}

proof fn lemma_collide_preserves_radii(a: CircleModel, b: CircleModel)
    ensures
        collide(a, b).0.r == a.r,
        collide(a, b).1.r == b.r,
{
}

proof fn lemma_pair_step_radii(s: Seq<CircleModel>, i: int, j: int, m: int)
    requires
        radii_at_least(s, m),
    ensures
        pair_step(s, i, j).len() == s.len(),
        radii_at_least(pair_step(s, i, j), m),
{
    if 0 <= i < s.len() && 0 <= j < s.len() && i != j {
        lemma_collide_preserves_radii(s[i], s[j]);
    }
}

proof fn lemma_resolve_inner_radii(s: Seq<CircleModel>, idxs: Seq<int>, a: int, b: int, m: int)
    requires
        radii_at_least(s, m),
    ensures
        resolve_inner(s, idxs, a, b).len() == s.len(),
        radii_at_least(resolve_inner(s, idxs, a, b), m),
    decreases idxs.len() - b,
{
    if a < 0 || a >= idxs.len() || b < 0 || b >= idxs.len() {
    } else {
        lemma_pair_step_radii(s, idxs[a], idxs[b], m);
        lemma_resolve_inner_radii(pair_step(s, idxs[a], idxs[b]), idxs, a, b + 1, m);
    }
}

proof fn lemma_resolve_cell_radii(s: Seq<CircleModel>, idxs: Seq<int>, a: int, m: int)
    requires
        radii_at_least(s, m),
    ensures
        resolve_cell(s, idxs, a).len() == s.len(),
        radii_at_least(resolve_cell(s, idxs, a), m),
    decreases idxs.len() - a,
{
    if a < 0 || a >= idxs.len() {
    } else {
        lemma_resolve_inner_radii(s, idxs, a, a + 1, m);
        lemma_resolve_cell_radii(resolve_inner(s, idxs, a, a + 1), idxs, a + 1, m);
    }
}

proof fn lemma_resolve_cells_radii(s: Seq<CircleModel>, cells: Seq<CellModel>, k: int, m: int)
    requires
        radii_at_least(s, m),
    ensures
        resolve_cells(s, cells, k).len() == s.len(),
        radii_at_least(resolve_cells(s, cells, k), m),
    decreases cells.len() - k,
{
    if k < 0 || k >= cells.len() {
    } else {
        lemma_resolve_cell_radii(s, cells[k].idxs, 0, m);
        lemma_resolve_cells_radii(resolve_cell(s, cells[k].idxs, 0), cells, k + 1, m);
    }
}

proof fn lemma_hit_static_circles_radius(c: CircleModel, ss: Seq<StaticCircleModel>, e: int, k: int)
    ensures
        hit_static_circles(c, ss, e, k).r == c.r,
    decreases ss.len() - k,
{
    if k < 0 || k >= ss.len() {
    } else {
        lemma_hit_static_circles_radius(collide_static_circle(c, ss[k], e), ss, e, k + 1);
    }
}

proof fn lemma_hit_static_rects_radius(c: CircleModel, rr: Seq<StaticRectangleModel>, e: int, k: int)
    ensures
        hit_static_rects(c, rr, e, k).r == c.r,
    decreases rr.len() - k,
{
    if k < 0 || k >= rr.len() {
    } else {
        lemma_hit_static_rects_radius(collide_static_rect(c, rr[k], e), rr, e, k + 1);
    }
}

proof fn lemma_substep_radii(
    cfg: ConfigModel,
    w: int,
    h: int,
    ss: Seq<StaticCircleModel>,
    rr: Seq<StaticRectangleModel>,
    s: Seq<CircleModel>,
    m: int,
)
    requires
        radii_at_least(s, m),
    ensures
        radii_at_least(substep_spec(cfg, w, h, ss, rr, s), m),
{
    let s1 = gravity_pass(cfg, s);
    let s2 = move_pass(cfg, s1);
    let s3 = wall_pass(s2, w, h, cfg.elasticity);
    assert(radii_at_least(s3, m));
    let s4 = resolve_cells(s3, build_cells_spec(s3, cfg.cell_size), 0);
    lemma_resolve_cells_radii(s3, build_cells_spec(s3, cfg.cell_size), 0, m);
    let s5 = static_circle_pass(s4, ss, cfg.elasticity);
    assert forall|k: int| 0 <= k < s5.len() implies (#[trigger] s5[k]).r >= m by {
        lemma_hit_static_circles_radius(s4[k], ss, cfg.elasticity, 0);
    };
    let s6 = static_rect_pass(s5, rr, cfg.elasticity);
    assert forall|k: int| 0 <= k < s6.len() implies (#[trigger] s6[k]).r >= m by {
        lemma_hit_static_rects_radius(s5[k], rr, cfg.elasticity, 0);
    };
}

proof fn lemma_substeps_radii(
    cfg: ConfigModel,
    w: int,
    h: int,
    ss: Seq<StaticCircleModel>,
    rr: Seq<StaticRectangleModel>,
    s: Seq<CircleModel>,
    n: int,
    m: int,
)
    requires
        radii_at_least(s, m),
    ensures
        radii_at_least(substeps_spec(cfg, w, h, ss, rr, s, n), m),
    decreases n,
{
    if n <= 0 {
    } else {
        lemma_substep_radii(cfg, w, h, ss, rr, s, m);
        lemma_substeps_radii(cfg, w, h, ss, rr, substep_spec(cfg, w, h, ss, rr, s), n - 1, m);
    }
}

proof fn lemma_integrate_radii(cfg: ConfigModel, s: Seq<CircleModel>, i: int)
    ensures
        radii_at_least(integrate_from(cfg, s, i), cfg.min_radius),
    decreases s.len() - i,
{
    if i < 0 || i >= s.len() {
    } else {
        lemma_integrate_radii(cfg, s, i + 1);
        let c2 = drag_shrink(cfg, s[i]);
        let rest = integrate_from(cfg, s, i + 1);
        if c2.r >= cfg.min_radius {
            assert(forall|k: int| 0 <= k < (seq![c2] + rest).len() ==> (#[trigger] (seq![c2]
                + rest)[k]).r >= cfg.min_radius);
        }
    }
}

proof fn lemma_apply_messages_fixed_fields(w: WorldModel, msgs: Seq<GridMessage>, k: int)
    ensures
        apply_messages_from(w, msgs, k).frame == w.frame,
        apply_messages_from(w, msgs, k).config == w.config,
    decreases msgs.len() - k,
{
    if k < 0 || k >= msgs.len() {
    } else {
        let w2 = match msgs[k] {
            GridMessage::AddCircle(c) => WorldModel { circles: w.circles.push(c@), ..w },
            GridMessage::AddStaticCircle(s) => WorldModel { statics: w.statics.push(s@), ..w },
            GridMessage::AddStaticRectangle(t) => WorldModel { rects: w.rects.push(t@), ..w },
            GridMessage::Resize(nw, nh) => WorldModel { width: nw as int, height: nh as int, ..w },
        };
        lemma_apply_messages_fixed_fields(w2, msgs, k + 1);
    }
}

/// Ghost model of an emitted snapshot.
pub ghost struct FrameModel {
    pub frame: int,
    pub width: int,
    pub height: int,
    pub circles: Seq<CircleModel>,
    pub statics: Seq<StaticCircleModel>,
    pub rects: Seq<StaticRectangleModel>,
}

/// The snapshot a world state yields.
pub open spec fn frame_of(w: WorldModel) -> FrameModel {
    FrameModel {
        frame: w.frame,
        width: w.width,
        height: w.height,
        circles: w.circles,
        statics: w.statics,
        rects: w.rects,
    }
}

/// An immutable snapshot of the world at the end of one tick: an
/// independent deep copy, so a consumer never observes a later mutation.
#[derive(Clone, Debug)]
pub struct GridFrame {
    pub frame_number: u32,
    pub width: i64,
    pub height: i64,
    pub circles: Vec<Circle>,
    pub static_circles: Vec<StaticCircle>,
    pub static_rectangles: Vec<StaticRectangle>,
}

impl View for GridFrame {
    type V = FrameModel;

    open spec fn view(&self) -> FrameModel {
        FrameModel {
            frame: self.frame_number as int,
            width: self.width as int,
            height: self.height as int,
            circles: circle_models(self.circles@),
            statics: static_circle_models(self.static_circles@),
            rects: static_rectangle_models(self.static_rectangles@),
        }
    }
}

impl GridFrame {
    /// The tick counter this snapshot was taken at.
    pub fn get_frame_number(&self) -> (n: u32)
        ensures
            n as int == self@.frame,
    {
        self.frame_number
    }
}

fn copied_vec<T: Copy>(v: &Vec<T>) -> (r: Vec<T>)
    ensures
        r@ == v@,
{
    let mut out: Vec<T> = Vec::new();
    let n = v.len();
    let mut i: usize = 0;
    while i < n
        invariant
            0 <= i <= n,
            n == v@.len(),
            out@ == v@.take(i as int),
        decreases n - i,
    {
        out.push(v[i]);
        proof {
            assert(out@ =~= v@.take(i + 1));
        }
        i = i + 1;
    }
    proof {
        assert(v@.take(n as int) =~= v@);
    }
    out
}

/// The world: dynamic circles, immutable obstacles, wall bounds, a frame
/// counter, and the configuration it was created with. Exactly one mutator,
/// [`Grid::tick`], touches it.
pub struct Grid {
    frame_number: u32,
    width: i64,
    height: i64,
    circles: Vec<Circle>,
    static_circles: Vec<StaticCircle>,
    static_rectangles: Vec<StaticRectangle>,
    config: Config,
}

impl View for Grid {
    type V = WorldModel;

    closed spec fn view(&self) -> WorldModel {
        WorldModel {
            frame: self.frame_number as int,
            width: self.width as int,
            height: self.height as int,
            circles: circle_models(self.circles@),
            statics: static_circle_models(self.static_circles@),
            rects: static_rectangle_models(self.static_rectangles@),
            config: self.config@,
        }
    }
}

impl Grid {
    /// A well-formed world: its configuration is well formed.
    pub open spec fn wf(&self) -> bool {
        config_wf(self@.config)
    }

    /// An empty world with the given wall bounds and configuration.
    pub fn new(width: i64, height: i64, config: Config) -> (grid: Grid)
        ensures
            grid@ == (WorldModel {
                frame: 0,
                width: width as int,
                height: height as int,
                circles: Seq::<CircleModel>::empty(),
                statics: Seq::<StaticCircleModel>::empty(),
                rects: Seq::<StaticRectangleModel>::empty(),
                config: config@,
            }),
            config_wf(config@) ==> grid.wf(),
    {
        let grid = Grid {
            frame_number: 0,
            width,
            height,
            circles: Vec::new(),
            static_circles: Vec::new(),
            static_rectangles: Vec::new(),
            config,
        };
        proof {
            assert(circle_models(grid.circles@) =~= Seq::<CircleModel>::empty());
            assert(static_circle_models(grid.static_circles@) =~= Seq::<
                StaticCircleModel,
            >::empty());
            assert(static_rectangle_models(grid.static_rectangles@) =~= Seq::<
                StaticRectangleModel,
            >::empty());
        }
        grid
    }

    /// One atomic tick: drains the given command backlog in arrival order,
    /// integrates forces and removes decayed circles, runs the configured
    /// sub-steps, increments the frame counter by exactly one, and returns
    /// an independent snapshot of the new state.
    pub fn tick(&mut self, messages: Vec<GridMessage>) -> (frame: GridFrame)
        requires
            old(self).wf(),
            old(self)@.frame < u32::MAX,
        ensures
            final(self)@ == tick_spec(old(self)@, messages@),
            final(self).wf(),
            frame@ == frame_of(final(self)@),
            final(self)@.frame == old(self)@.frame + 1,
            final(self)@.config == old(self)@.config,
            radii_at_least(final(self)@.circles, old(self)@.config.min_radius),
    {
        let ghost w0 = self@;
        let ghost msgsv = messages@;

        let n_msgs = messages.len();
        let mut k: usize = 0;
        while k < n_msgs
            invariant
                0 <= k <= n_msgs,
                n_msgs == msgsv.len(),
                msgsv == messages@,
                self.config == old(self).config,
                self.frame_number == old(self).frame_number,
                apply_messages_from(self@, msgsv, k as int) == apply_messages(w0, msgsv),
            decreases n_msgs - k,
        {
            let ghost before = self@;
            let m = messages[k];
            match m {
                GridMessage::AddCircle(c) => {
                    self.circles.push(c);
                    proof {
                        assert(circle_models(self.circles@) =~= before.circles.push(c@));
                    }
                },
                GridMessage::AddStaticCircle(s) => {
                    self.static_circles.push(s);
                    proof {
                        assert(static_circle_models(self.static_circles@) =~= before.statics.push(
                            s@,
                        ));
                    }
                },
                GridMessage::AddStaticRectangle(t) => {
                    self.static_rectangles.push(t);
                    proof {
                        assert(static_rectangle_models(self.static_rectangles@)
                            =~= before.rects.push(t@));
                    }
                },
                GridMessage::Resize(new_width, new_height) => {
                    self.width = new_width;
                    self.height = new_height;
                },
            }
            k = k + 1;
        }
        let ghost w1 = apply_messages(w0, msgsv);
        proof {
            assert(self@ == w1);
            lemma_apply_messages_fixed_fields(w0, msgsv, 0);
        }

        integrate_forces(&mut self.circles, &self.config);
        let ghost s1 = integrate(w1.config, w1.circles);
        proof {
            assert(self@.circles == s1);
            lemma_integrate_radii(w1.config, w1.circles, 0);
        }

        let st = self.config.sub_ticks;
        let mut step: u32 = 0;
        while step < st
            invariant
                0 <= step <= st,
                st == self.config.sub_ticks,
                self.config == old(self).config,
                self.frame_number == old(self).frame_number,
                config_wf(self.config@),
                self@.width == w1.width,
                self@.height == w1.height,
                self@.statics == w1.statics,
                self@.rects == w1.rects,
                substeps_spec(
                    self.config@,
                    w1.width,
                    w1.height,
                    w1.statics,
                    w1.rects,
                    self@.circles,
                    st - step,
                ) == substeps_spec(
                    self.config@,
                    w1.width,
                    w1.height,
                    w1.statics,
                    w1.rects,
                    s1,
                    st as int,
                ),
                radii_at_least(self@.circles, self.config@.min_radius),
            decreases st - step,
        {
            let ghost circles_before = self@.circles;
            sub_step(
                &mut self.circles,
                &self.static_circles,
                &self.static_rectangles,
                self.width,
                self.height,
                &self.config,
            );
            proof {
                lemma_substep_radii(
                    self.config@,
                    w1.width,
                    w1.height,
                    w1.statics,
                    w1.rects,
                    circles_before,
                    self.config@.min_radius,
                );
            }
            step = step + 1;
        }

        self.frame_number = self.frame_number + 1;

        let frame = GridFrame {
            frame_number: self.frame_number,
            width: self.width,
            height: self.height,
            circles: copied_vec(&self.circles),
            static_circles: copied_vec(&self.static_circles),
            static_rectangles: copied_vec(&self.static_rectangles),
        };
        proof {
            assert(self@ == tick_spec(w0, msgsv));
            assert(frame@ == frame_of(self@));
        }
        frame
    }
}

/// After the wall pass, every circle that fits between the walls lies
/// within them: its center stays in `[r, w - r]` by `[r, h - r]`. The
/// representability bounds only keep the clamped coordinates exact.
pub proof fn lemma_wall_step_confines(c: CircleModel, w: int, h: int, e: int)
    requires
        2 * c.r <= w,
        2 * c.r <= h,
        -FX_MAX <= w - c.r <= FX_MAX,
        -FX_MAX <= h - c.r <= FX_MAX,
    ensures
        wall_step(c, w, h, e).r == c.r,
        c.r <= wall_step(c, w, h, e).x <= w - c.r,
        c.r <= wall_step(c, w, h, e).y <= h - c.r,
{
}

/// The wall pass never displaces a circle already within the walls, so
/// enlarging the world relaxes the bounds at once without moving bodies
/// that rested against the old boundary.
pub proof fn lemma_wall_step_within_bounds_untouched(c: CircleModel, w: int, h: int, e: int)
    requires
        c.r <= c.x,
        c.x + c.r <= w,
        c.r <= c.y,
        c.y + c.r <= h,
    ensures
        wall_step(c, w, h, e) == c,
{
}

/// A wall bounce with an elasticity coefficient below one strictly loses
/// speed: the reflected velocity component is strictly smaller in magnitude
/// than the incoming one, so repeated bounces dissipate energy.
pub proof fn lemma_bounce_loses_speed(v: int, e: int)
    requires
        0 <= e < SCALE,
        v != 0,
        -FX_MAX <= v <= FX_MAX,
    ensures
        s_abs(s_neg(s_mul(v, e))) < s_abs(v),
{
    let a = s_abs(v);
    let p = a * e;
    assert(v * e == if v >= 0 { p } else { -p } && 0 <= p <= a * SCALE - a) by (nonlinear_arith)
        requires
            0 <= e < SCALE,
            a == (if v < 0 { -v } else { v }),
            p == a * e,
            v != 0,
    ;
    assert(a * SCALE - 1 == SCALE * (a - 1) + (SCALE - 1)) by (nonlinear_arith);
    vstd::arithmetic::div_mod::lemma_fundamental_div_mod_converse(
        a * SCALE - 1,
        SCALE as int,
        a - 1,
        SCALE - 1,
    );
    vstd::arithmetic::div_mod::lemma_div_is_ordered(p, a * SCALE - 1, SCALE as int);
    vstd::arithmetic::div_mod::lemma_div_pos_is_pos(p, SCALE as int);
}

/// A head-on obstacle bounce also dissipates: for a circle falling straight
/// onto a horizontal surface (contact normal pointing straight up), the
/// reflected vertical velocity is strictly smaller in magnitude than the
/// impact velocity, whenever the impact is fast enough to register at the
/// fixed-point scale and the elasticity coefficient is below one.
pub proof fn lemma_head_on_bounce_loses_speed(v: int, e: int)
    requires
        0 < v <= FX_MAX,
        0 <= e < SCALE,
        2 * v * e >= SCALE,
    ensures
        ({
            let vn = s_dot(0, -(SCALE as int), 0, v);
            let bounced = s_sub(v, s_refl(vn, -(SCALE as int), e));
            -v < bounced && bounced < v
        }),
{
    let s = SCALE as int;
    crate::fixed::lemma_tdiv_multiple(-v, s);
    assert((-v) * s == 0 * 0 + (-s) * v) by (nonlinear_arith);
    let vn = s_dot(0, -s, 0, v);
    assert(vn == -v);
    // The reflection term 2 vn n e / SCALE^2 with vn = -v and n = -SCALE.
    let p = 2 * vn * (-s) * e;
    assert(p == 2 * v * e * s && s * s <= p <= (2 * v) * (s * s) - 1) by (nonlinear_arith)
        requires
            vn == -v,
            0 < v,
            0 <= e < s,
            s == 1000,
            2 * v * e >= s,
            p == 2 * vn * (-s) * e,
    ;
    assert((2 * v) * (s * s) - 1 == (2 * v - 1) * (s * s) + (s * s - 1)) by (nonlinear_arith);
    vstd::arithmetic::div_mod::lemma_fundamental_div_mod_converse(
        (2 * v) * (s * s) - 1,
        s * s,
        2 * v - 1,
        s * s - 1,
    );
    vstd::arithmetic::div_mod::lemma_div_is_ordered(p, (2 * v) * (s * s) - 1, s * s);
    vstd::arithmetic::div_mod::lemma_div_by_multiple(1, s * s);
    assert(1 * (s * s) == s * s) by (nonlinear_arith);
    vstd::arithmetic::div_mod::lemma_div_is_ordered(s * s, p, s * s);
}

/// A dynamic circle whose radius stands exactly at the minimum threshold is
/// removed by the next tick's decay pass: with any genuine decay factor the
/// decayed radius falls strictly below the threshold, and the integrator
/// keeps only circles whose decayed radius still reaches it.
pub proof fn lemma_radius_at_threshold_decays_out(cfg: ConfigModel, c: CircleModel)
    requires
        config_wf(cfg),
        cfg.shrink < SCALE,
        1 <= cfg.min_radius,
        c.r == cfg.min_radius,
    ensures
        drag_shrink(cfg, c).r < cfg.min_radius,
{
    let r = c.r;
    let p = r * cfg.shrink;
    assert(0 <= p <= r * SCALE - r) by (nonlinear_arith)
        requires
            0 <= cfg.shrink < SCALE,
            r >= 1,
            p == r * cfg.shrink,
    ;
    assert(r * SCALE - 1 == SCALE * (r - 1) + (SCALE - 1)) by (nonlinear_arith);
    vstd::arithmetic::div_mod::lemma_fundamental_div_mod_converse(
        r * SCALE - 1,
        SCALE as int,
        r - 1,
        SCALE - 1,
    );
    vstd::arithmetic::div_mod::lemma_div_is_ordered(p, r * SCALE - 1, SCALE as int);
}

/// The integrator's keep test: exactly the circles whose decayed radius
/// still reaches the minimum survive, in their original order.
pub proof fn lemma_integrate_keeps(cfg: ConfigModel, s: Seq<CircleModel>, i: int)
    requires
        0 <= i < s.len(),
        drag_shrink(cfg, s[i]).r < cfg.min_radius,
    ensures
        integrate_from(cfg, s, i) == integrate_from(cfg, s, i + 1),
{
}

proof fn lemma_wf_bucket_of_one_is_short(c: CellModel)
    requires
        cell_wf(c, 1),
    ensures
        c.idxs.len() <= 1,
{
    if c.idxs.len() >= 2 {
        assert(c.idxs[0] < c.idxs[1]);
        assert(0 <= c.idxs[0] && c.idxs[1] < 1);
    }
}

proof fn lemma_resolve_cells_single_circle(s: Seq<CircleModel>, cells: Seq<CellModel>, k: int)
    requires
        cells_wf(cells, 1),
    ensures
        resolve_cells(s, cells, k) == s,
    decreases cells.len() - k,
{
    if k < 0 || k >= cells.len() {
    } else {
        lemma_wf_bucket_of_one_is_short(cells[k]);
        let idxs = cells[k].idxs;
        if idxs.len() == 1 {
            assert(resolve_inner(s, idxs, 0, 1) == s);
            assert(resolve_cell(s, idxs, 1) == s);
            assert(resolve_cell(s, idxs, 0) == resolve_cell(resolve_inner(s, idxs, 0, 1), idxs, 1));
        }
        assert(resolve_cell(s, idxs, 0) == s);
        lemma_resolve_cells_single_circle(s, cells, k + 1);
    }
}

proof fn lemma_substep_lone_circle(cfg: ConfigModel, w: int, h: int, s: Seq<CircleModel>)
    requires
        s.len() == 1,
    ensures
        substep_spec(cfg, w, h, Seq::empty(), Seq::empty(), s).len() == 1,
        substep_spec(cfg, w, h, Seq::empty(), Seq::empty(), s)[0] == wall_step(
            move_step(cfg, gravity_step(cfg, s[0])),
            w,
            h,
            cfg.elasticity,
        ),
{
    let s3 = wall_pass(move_pass(cfg, gravity_pass(cfg, s)), w, h, cfg.elasticity);
    crate::broad::lemma_built_cells_wf(s3, cfg.cell_size);
    lemma_resolve_cells_single_circle(s3, build_cells_spec(s3, cfg.cell_size), 0);
}

/// A lone dynamic circle in a world without obstacles ends every sub-step
/// sequence within the walls: its center stays in `[r, w - r]` by
/// `[r, h - r]` whenever the circle fits the world at all. This is the
/// whole-tick counterpart of `lemma_wall_step_confines`; with several
/// bodies or obstacles, a resolution push after the wall pass can still
/// leave a circle beyond a wall until the next sub-step.
pub proof fn lemma_lone_circle_confined(cfg: ConfigModel, w: int, h: int, s: Seq<CircleModel>, n: int)
    requires
        s.len() == 1,
        n >= 1,
        2 * s[0].r <= w,
        2 * s[0].r <= h,
        -FX_MAX <= w - s[0].r <= FX_MAX,
        -FX_MAX <= h - s[0].r <= FX_MAX,
    ensures
        substeps_spec(cfg, w, h, Seq::empty(), Seq::empty(), s, n).len() == 1,
        substeps_spec(cfg, w, h, Seq::empty(), Seq::empty(), s, n)[0].r == s[0].r,
        s[0].r <= substeps_spec(cfg, w, h, Seq::empty(), Seq::empty(), s, n)[0].x <= w - s[0].r,
        s[0].r <= substeps_spec(cfg, w, h, Seq::empty(), Seq::empty(), s, n)[0].y <= h - s[0].r,
    decreases n,
{
    let s2 = substep_spec(cfg, w, h, Seq::empty(), Seq::empty(), s);
    lemma_substep_lone_circle(cfg, w, h, s);
    lemma_wall_step_confines(move_step(cfg, gravity_step(cfg, s[0])), w, h, cfg.elasticity);
    assert(s2[0].r == s[0].r);
    assert(substeps_spec(cfg, w, h, Seq::empty(), Seq::empty(), s, n) == substeps_spec(
        cfg,
        w,
        h,
        Seq::empty(),
        Seq::empty(),
        s2,
        n - 1,
    ));
    if n == 1 {
        assert(substeps_spec(cfg, w, h, Seq::empty(), Seq::empty(), s2, 0) == s2);
    } else {
        lemma_lone_circle_confined(cfg, w, h, s2, n - 1);
    }
}

/// The world bounds change only through an explicit resize command: a
/// command backlog without one leaves them untouched, and a tick keeps
/// exactly the bounds its backlog produced.
pub proof fn lemma_bounds_change_only_by_resize(w: WorldModel, msgs: Seq<GridMessage>, k: int)
    requires
        forall|j: int| 0 <= j < msgs.len() ==> !(#[trigger] msgs[j] is Resize),
    ensures
        apply_messages_from(w, msgs, k).width == w.width,
        apply_messages_from(w, msgs, k).height == w.height,
    decreases msgs.len() - k,
{
    if k < 0 || k >= msgs.len() {
    } else {
        let w2 = match msgs[k] {
            GridMessage::AddCircle(c) => WorldModel { circles: w.circles.push(c@), ..w },
            GridMessage::AddStaticCircle(s) => WorldModel { statics: w.statics.push(s@), ..w },
            GridMessage::AddStaticRectangle(t) => WorldModel { rects: w.rects.push(t@), ..w },
            GridMessage::Resize(nw, nh) => WorldModel { width: nw as int, height: nh as int, ..w },
        };
        lemma_bounds_change_only_by_resize(w2, msgs, k + 1);
    }
}

} // verus!

//! The demo page: the points it draws, and the page itself.
use base64::Engine;
#[allow(unused_imports)]
use vstd::arithmetic::power2::{lemma2_to64, lemma_pow2_adds, pow2};
use vstd::prelude::*;

use crate::fusion::{Detection, Point};
use crate::ieee;
use crate::pipeline;
use crate::text;

verus! {

/// How many points the page draws at most.
pub const MAX_RENDER_POINTS: usize = 18_000;

/// The bit pattern of -30 as a 32-bit float.
pub const REAR_EDGE: u32 = 0xc1f0_0000;

/// The bit pattern of 80 as a 32-bit float.
pub const FRONT_EDGE: u32 = 0x42a0_0000;

/// The bit pattern of -50 as a 32-bit float.
pub const RIGHT_EDGE: u32 = 0xc248_0000;

/// The bit pattern of 50 as a 32-bit float.
pub const LEFT_EDGE: u32 = 0x4248_0000;

/// A point as the page draws it: its place in the vehicle's frame, and in the
/// front camera's picture. Bit patterns of 32-bit floats.
#[derive(Clone, Copy, Debug)]
pub struct RenderPoint {
    pub x: u32,
    pub y: u32,
    pub z: u32,
    pub u: u32,
    pub v: u32,
}

/// What a demo was built of, and where it went.
pub struct DemoSummary {
    pub html: String,
    pub arrow: String,
    pub timestamp_micros: i64,
    pub points: usize,
    pub boxes: usize,
    pub boxes_with_depth: usize,
}

/// The point lies in the part of the scene that is drawn: from 30 behind the
/// vehicle to 80 before it, and 50 to either side.
pub open spec fn in_view(point: Point) -> bool {
    &&& ieee::f32_le(REAR_EDGE, point.x)
    &&& ieee::f32_le(point.x, FRONT_EDGE)
    &&& ieee::f32_le(RIGHT_EDGE, point.y)
    &&& ieee::f32_le(point.y, LEFT_EDGE)
}

/// The points in view, in order.
pub open spec fn visible(points: Seq<Point>) -> Seq<Point> {
    points.filter(|point: Point| in_view(point))
}

pub open spec fn ceil_div(n: int, d: int) -> int {
    (n + d - 1) / d
}

/// Of how many points in view one is drawn: the smallest step that keeps to the
/// limit.
pub open spec fn render_step(count: int) -> int {
    if count == 0 {
        1
    } else {
        ceil_div(count, MAX_RENDER_POINTS as int)
    }
}

pub open spec fn drawn(point: Point) -> RenderPoint {
    RenderPoint { x: point.x, y: point.y, z: point.z, u: point.u, v: point.v }
}

/// The points that the page draws: of the points in view the first, and then
/// every one a step further.
pub open spec fn rendered(points: Seq<Point>) -> Seq<RenderPoint> {
    let shown = visible(points);
    let step = render_step(shown.len() as int);
    Seq::new(
        ceil_div(shown.len() as int, step) as nat,
        |i: int| drawn(shown[i * step]),
    )
}

fn is_in_view(point: &Point) -> (seen: bool)
    ensures
        seen == in_view(*point),
{
    ieee::le32(REAR_EDGE, point.x) && ieee::le32(point.x, FRONT_EDGE) && ieee::le32(
        RIGHT_EDGE,
        point.y,
    ) && ieee::le32(point.y, LEFT_EDGE)
}

/// The points that the page draws.
pub fn downsample_for_render(points: &[Point]) -> (render: Vec<RenderPoint>)
    ensures
        render@ == rendered(points@),
{
    let mut shown: Vec<Point> = Vec::new();
    let mut i: usize = 0;
    while i < points.len()
        invariant
            i <= points.len(),
            shown.len() <= i,
            shown@ == visible(points@.take(i as int)),
        decreases points.len() - i,
    {
        proof {
            reveal(Seq::filter);
            assert(points@.take(i + 1).drop_last() =~= points@.take(i as int));
        }
        if is_in_view(&points[i]) {
            shown.push(points[i]);
        }
        i = i + 1;
    }
    assert(points@.take(i as int) =~= points@);
    let count: usize = shown.len();
    let step: usize = if count == 0 {
        1
    } else {
        (count - 1) / MAX_RENDER_POINTS + 1
    };
    assert(step == render_step(count as int));
    let mut render: Vec<RenderPoint> = Vec::new();
    let mut at: usize = 0;
    let ghost mut done: int = 0;
    proof {
        assert(done * step == 0) by (nonlinear_arith)
            requires
                done == 0,
        ;
        assert(count == 0 ==> ceil_div(count as int, step as int) == 0);
    }
    while at < count
        invariant
            step >= 1,
            count == shown.len(),
            shown@ == visible(points@),
            step == render_step(count as int),
            done == render@.len(),
            at <= count,
            at == count ==> done == ceil_div(count as int, step as int),
            at < count ==> at == done * step,
            forall|j: int| 0 <= j < done ==> #[trigger] render@[j] == drawn(shown@[j * step]),
        decreases count - at,
    {
        let point = shown[at];
        render.push(RenderPoint { x: point.x, y: point.y, z: point.z, u: point.u, v: point.v });
        proof {
            lemma_steps(count as int, step as int, done);
            assert((done + 1) * step == done * step + step) by (nonlinear_arith);
            done = done + 1;
        }
        if count - at <= step {
            at = count;
        } else {
            at = at + step;
        }
    }
    assert(render@ =~= rendered(points@));
    render
}

/// How the number of steps grows.
proof fn lemma_steps(count: int, step: int, done: int)
    requires
        step >= 1,
        0 <= done,
        done * step < count,
    ensures
        done + 1 <= ceil_div(count, step),
        count - done * step <= step ==> done + 1 == ceil_div(count, step),
{
    let q = ceil_div(count, step);
    vstd::arithmetic::div_mod::lemma_fundamental_div_mod(count + step - 1, step);
    let r = (count + step - 1) % step;
    assert(count + step - 1 == step * q + r);
    assert(0 <= r < step);
    assert(done + 1 <= q) by (nonlinear_arith)
        requires
            count + step - 1 == step * q + r,
            0 <= r < step,
            done * step < count,
            step >= 1,
    ;
    if count - done * step <= step {
        assert(done + 1 >= q) by (nonlinear_arith)
            requires
                count + step - 1 == step * q + r,
                0 <= r < step,
                count - done * step <= step,
                step >= 1,
        ;
    }
}

/// No page draws more points than the limit, and one whose points in view keep to
/// the limit draws them all.
pub proof fn law_render_limit(points: Seq<Point>)
    ensures
        rendered(points).len() <= MAX_RENDER_POINTS,
        visible(points).len() <= MAX_RENDER_POINTS ==> rendered(points) == visible(
            points,
        ).map_values(|point: Point| drawn(point)),
{
    let count = visible(points).len() as int;
    let step = render_step(count);
    let limit = MAX_RENDER_POINTS as int;
    if count > 0 {
        vstd::arithmetic::div_mod::lemma_fundamental_div_mod(count + limit - 1, limit);
        assert(count <= limit * step);
        let steps = ceil_div(count, step);
        vstd::arithmetic::div_mod::lemma_fundamental_div_mod(count + step - 1, step);
        let r = (count + step - 1) % step;
        assert(steps <= limit) by (nonlinear_arith)
            requires
                count + step - 1 == step * steps + r,
                0 <= r < step,
                count <= limit * step,
                step >= 1,
        ;
    }
    if count <= limit {
        assert(step == 1);
        assert(rendered(points) =~= visible(points).map_values(|point: Point| drawn(point)));
    }
}

/// The sign for six bits in base 64.
pub open spec fn base64_char(sextet: int) -> char {
    if sextet < 26 {
        ('A' as int + sextet) as char
    } else if sextet < 52 {
        ('a' as int + sextet - 26) as char
    } else if sextet < 62 {
        ('0' as int + sextet - 52) as char
    } else if sextet == 62 {
        '+'
    } else {
        '/'
    }
}

/// Bytes in base 64: four signs for three bytes, padded with `=`.
pub open spec fn base64_text(bytes: Seq<u8>) -> Seq<char>
    decreases bytes.len(),
{
    let (a, b, c) = (bytes[0] as int, bytes[1] as int, bytes[2] as int);
    if bytes.len() == 0 {
        Seq::empty()
    } else if bytes.len() == 1 {
        seq![base64_char(a / 4), base64_char(a % 4 * 16), '=', '=']
    } else if bytes.len() == 2 {
        seq![base64_char(a / 4), base64_char(a % 4 * 16 + b / 16), base64_char(b % 16 * 4), '=']
    } else {
        seq![
            base64_char(a / 4),
            base64_char(a % 4 * 16 + b / 16),
            base64_char(b % 16 * 4 + c / 64),
            base64_char(c % 64),
        ] + base64_text(bytes.skip(3))
    }
}

/// `Engine::encode` of `base64` with the engine `STANDARD`: base 64 with the
/// standard signs and padding. Panics where the text is longer than a vector can
/// be.
#[verifier::external_body]
fn encode_base64(bytes: &[u8]) -> (text: String)
    requires
        (bytes@.len() + 2) / 3 * 4 <= isize::MAX,
    ensures
        text@ == base64_text(bytes@),
{
    base64::engine::general_purpose::STANDARD.encode(bytes)
}

/// The page: its template with the picture in place of one mark and then the
/// data in place of the other.
pub open spec fn page_text(template: Seq<char>, jpeg: Seq<u8>, payload: Seq<char>) -> Seq<char> {
    text::replaced(
        text::replaced(template, "__CAMERA_JPEG__"@, base64_text(jpeg)),
        "__DEMO_PAYLOAD__"@,
        payload,
    )
}

/// The page for a template, the camera's picture and the data as JSON.
pub fn render_page(template: &str, jpeg: &[u8], payload: &str) -> (page: String)
    requires
        (jpeg@.len() + 2) / 3 * 4 <= isize::MAX,
    ensures
        page@ == page_text(template@, jpeg@, payload@),
{
    proof {
        reveal_strlit("__CAMERA_JPEG__");
        reveal_strlit("__DEMO_PAYLOAD__");
    }
    let picture: String = encode_base64(jpeg);
    let with_picture: String = text::replace_all(template, "__CAMERA_JPEG__", picture.as_str());
    text::replace_all(with_picture.as_str(), "__DEMO_PAYLOAD__", payload)
}

/// The summary of a demo.
pub fn summarize_demo(
    html: String,
    arrow: String,
    timestamp_micros: i64,
    points: usize,
    boxes: &[Detection],
) -> (summary: DemoSummary)
    ensures
        summary == (DemoSummary {
            html,
            arrow,
            timestamp_micros,
            points,
            boxes: boxes@.len() as usize,
            boxes_with_depth: pipeline::with_depth(boxes@) as usize,
        }),
        summary.boxes_with_depth == pipeline::with_depth(boxes@),
{
    DemoSummary {
        html,
        arrow,
        timestamp_micros,
        points,
        boxes: boxes.len(),
        boxes_with_depth: pipeline::count_with_depth(boxes),
    }
}

/// A point is in view where it lies from 30 behind the vehicle to 80 before it, and
/// up to 50 to either side of it, however high.
pub proof fn law_view_is_longer_than_wide(point: Point)
    ensures
        in_view(point) <==> {
            &&& ieee::f32_is_finite(point.x)
            &&& ieee::f32_is_finite(point.y)
            &&& -30 * pow2(149) <= ieee::f32_value(point.x) <= 80 * pow2(149)
            &&& -50 * pow2(149) <= ieee::f32_value(point.y) <= 50 * pow2(149)
        },
{
    lemma2_to64();
    // -30 is 0xf0_0000 times 2^-19, and so on: what is left of 2^149 is a power too.
    assert(ieee::f32_value(REAR_EDGE) == -30 * pow2(149)) by {
        lemma_pow2_adds(19, 130);
        assert(ieee::f32_value(REAR_EDGE) == -(0xf0_0000 * pow2(130)));
    }
    assert(ieee::f32_value(FRONT_EDGE) == 80 * pow2(149)) by {
        lemma_pow2_adds(17, 132);
        assert(ieee::f32_value(FRONT_EDGE) == 0xa0_0000 * pow2(132));
    }
    assert(ieee::f32_value(RIGHT_EDGE) == -50 * pow2(149)) by {
        lemma_pow2_adds(18, 131);
        assert(ieee::f32_value(RIGHT_EDGE) == -(0xc8_0000 * pow2(131)));
    }
    assert(ieee::f32_value(LEFT_EDGE) == 50 * pow2(149)) by {
        lemma_pow2_adds(18, 131);
        assert(ieee::f32_value(LEFT_EDGE) == 0xc8_0000 * pow2(131));
    }
    if ieee::f32_is_finite(point.x) {
        ieee::law_f32_order(REAR_EDGE, point.x);
        ieee::law_f32_order(point.x, FRONT_EDGE);
    }
    if ieee::f32_is_finite(point.y) {
        ieee::law_f32_order(RIGHT_EDGE, point.y);
        ieee::law_f32_order(point.y, LEFT_EDGE);
    }
}

/// The page draws the first point in view and then one at every step, each where it
/// is, in the vehicle's frame and in the picture. The step is the smallest that
/// keeps to 18000 points, and the last step goes past the last point.
pub proof fn law_drawn_points_keep_their_places(points: Seq<Point>, step: int, i: int)
    requires
        step >= 1,
        visible(points).len() <= step * 18_000,
        (step - 1) * 18_000 < visible(points).len() || step == 1,
        0 <= i < rendered(points).len(),
    ensures
        0 <= i * step < visible(points).len() <= rendered(points).len() * step,
        rendered(points)[i].x == visible(points)[i * step].x,
        rendered(points)[i].y == visible(points)[i * step].y,
        rendered(points)[i].z == visible(points)[i * step].z,
        rendered(points)[i].u == visible(points)[i * step].u,
        rendered(points)[i].v == visible(points)[i * step].v,
{
    let count = visible(points).len() as int;
    assert(step == render_step(count)) by {
        if count > 0 {
            let limit = MAX_RENDER_POINTS as int;
            vstd::arithmetic::div_mod::lemma_fundamental_div_mod_converse(
                count + limit - 1,
                limit,
                step,
                count + limit - 1 - limit * step,
            );
        }
    }
    let steps = ceil_div(count, step);
    vstd::arithmetic::div_mod::lemma_fundamental_div_mod(count + step - 1, step);
    let r = (count + step - 1) % step;
    assert(count <= steps * step && steps >= 0) by (nonlinear_arith)
        requires
            count + step - 1 == step * steps + r,
            0 <= r < step,
            step >= 1,
            count >= 0,
    ;
    assert(0 <= i * step < count) by (nonlinear_arith)
        requires
            count + step - 1 == step * steps + r,
            0 <= r < step,
            step >= 1,
            0 <= i < steps,
    ;
}

/// The points in view keep their order, and none of them is left out.
pub proof fn law_points_in_view_keep_their_order(points: Seq<Point>)
    ensures
        visible(Seq::<Point>::empty()) == Seq::<Point>::empty(),
        points.len() > 0 ==> visible(points) == if in_view(points.last()) {
            visible(points.drop_last()).push(points.last())
        } else {
            visible(points.drop_last())
        },
{
    reveal(Seq::filter);
}

/// The page is its template with the picture where its mark stood, and then the data
/// where that mark stood, wherever each stands once.
pub proof fn law_pages_hold_the_picture_and_the_data(
    template: Seq<char>,
    jpeg: Seq<u8>,
    payload: Seq<char>,
    picture_at: int,
    payload_at: int,
)
    requires
        forall|at: int| #[trigger]
            text::occurs_at(template, "__CAMERA_JPEG__"@, at) <==> at == picture_at,
        forall|at: int| !#[trigger]
            text::occurs_at(template.skip(picture_at + 15), "__CAMERA_JPEG__"@, at),
        forall|at: int| #[trigger]
            text::occurs_at(
                template.take(picture_at) + base64_text(jpeg) + template.skip(picture_at + 15),
                "__DEMO_PAYLOAD__"@,
                at,
            ) <==> at == payload_at,
        forall|at: int| !#[trigger]
            text::occurs_at(
                (template.take(picture_at) + base64_text(jpeg) + template.skip(
                    picture_at + 15,
                )).skip(payload_at + 16),
                "__DEMO_PAYLOAD__"@,
                at,
            ),
    ensures
        ({
            let with_picture = template.take(picture_at) + base64_text(jpeg) + template.skip(
                picture_at + 15,
            );
            page_text(template, jpeg, payload) == with_picture.take(payload_at) + payload
                + with_picture.skip(payload_at + 16)
        }),
{
    reveal_strlit("__CAMERA_JPEG__");
    reveal_strlit("__DEMO_PAYLOAD__");
    let with_picture = template.take(picture_at) + base64_text(jpeg) + template.skip(
        picture_at + 15,
    );
    assert(text::occurs_at(template, "__CAMERA_JPEG__"@, picture_at));
    text::law_the_first_occurrence_is_replaced(
        template,
        "__CAMERA_JPEG__"@,
        base64_text(jpeg),
        picture_at,
    );
    text::law_other_text_is_kept(
        template.skip(picture_at + 15),
        "__CAMERA_JPEG__"@,
        base64_text(jpeg),
    );
    assert(text::occurs_at(with_picture, "__DEMO_PAYLOAD__"@, payload_at));
    text::law_the_first_occurrence_is_replaced(
        with_picture,
        "__DEMO_PAYLOAD__"@,
        payload,
        payload_at,
    );
    text::law_other_text_is_kept(
        with_picture.skip(payload_at + 16),
        "__DEMO_PAYLOAD__"@,
        payload,
    );
}

} // verus!

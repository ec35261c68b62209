use vstd::prelude::*;
use crate::world::Tile;

verus! {

/// One frame of an animation: the position of its image within the texture (in units of a
/// tile) and how long it shows, in milliseconds.
#[derive(Clone, Copy, Debug)]
pub struct Frame {
    pub at: (u16, u16),
    pub time: u64,
}

/// The total time of the frames, in milliseconds.
pub open spec fn frames_duration(frames: Seq<Frame>) -> int
    decreases frames.len(),
{
    if frames.len() == 0 {
        0
    } else {
        frames[0].time + frames_duration(frames.drop_first())
    }
}

/// The frame showing `t` milliseconds into the animation: the first frame whose end time is
/// at or after `t`; none once all frames have ended.
pub open spec fn spec_frame_at_time(frames: Seq<Frame>, t: int) -> Option<(u16, u16)>
    decreases frames.len(),
{
    if frames.len() == 0 {
        None
    } else if t <= frames[0].time {
        Some(frames[0].at)
    } else {
        spec_frame_at_time(frames.drop_first(), t - frames[0].time)
    }
}

/// The total time of the frames, in milliseconds.
pub fn duration_of_frames(frames: &[Frame]) -> (d: u64)
    requires
        frames_duration(frames@) <= u64::MAX,
    ensures
        d == frames_duration(frames@),
{
    let mut duration: u64 = 0;
    let mut i: usize = 0;
    assert(frames@.subrange(0, frames@.len() as int) =~= frames@);
    while i < frames.len()
        invariant
            i <= frames@.len(),
            duration + frames_duration(frames@.subrange(i as int, frames@.len() as int)) == frames_duration(frames@),
            frames_duration(frames@) <= u64::MAX,
        decreases frames@.len() - i,
    {
        let ghost rest = frames@.subrange(i as int, frames@.len() as int);
        assert(rest.drop_first() =~= frames@.subrange(i + 1, frames@.len() as int));
        assert(rest[0] == frames@[i as int]);
        proof {
            lemma_duration_nonnegative(rest.drop_first());
        }
        duration = duration + frames[i].time;
        i = i + 1;
    }
    assert(frames@.subrange(frames@.len() as int, frames@.len() as int) =~= Seq::<Frame>::empty());
    duration
}

/// A duration is never negative.
pub proof fn lemma_duration_nonnegative(frames: Seq<Frame>)
    ensures
        frames_duration(frames) >= 0,
    decreases frames.len(),
{
    if frames.len() > 0 {
        lemma_duration_nonnegative(frames.drop_first());
    }
}

/// The frame showing `frame_time` milliseconds into the animation, if any frame is still
/// showing then (a time before the start shows the first frame).
pub fn frame_at_time(frames: &[Frame], frame_time: i128) -> (r: Option<(u16, u16)>)
    requires
        frame_time <= u64::MAX,
    ensures
        r == spec_frame_at_time(frames@, frame_time as int),
{
    let mut current_end_time: i128 = 0;
    let mut i: usize = 0;
    assert(frames@.subrange(0, frames@.len() as int) =~= frames@);
    while i < frames.len()
        invariant
            i <= frames@.len(),
            0 <= current_end_time <= u64::MAX,
            frame_time <= u64::MAX,
            spec_frame_at_time(frames@, frame_time as int) == spec_frame_at_time(
                frames@.subrange(i as int, frames@.len() as int),
                frame_time - current_end_time,
            ),
        decreases frames@.len() - i,
    {
        let ghost rest = frames@.subrange(i as int, frames@.len() as int);
        assert(rest.drop_first() =~= frames@.subrange(i + 1, frames@.len() as int));
        assert(rest[0] == frames@[i as int]);
        current_end_time = current_end_time + frames[i].time as i128;
        if frame_time <= current_end_time {
            return Some(frames[i].at);
        }
        i = i + 1;
    }
    assert(frames@.subrange(frames@.len() as int, frames@.len() as int) =~= Seq::<Frame>::empty());
    None
}

/// Some frame shows at any time up to the end of the frames.
pub proof fn lemma_frame_within_duration(frames: Seq<Frame>, t: int)
    requires
        t <= frames_duration(frames),
        frames.len() > 0,
    ensures
        spec_frame_at_time(frames, t) is Some,
    decreases frames.len(),
{
    if t > frames[0].time {
        if frames.len() == 1 {
            assert(frames.drop_first().len() == 0);
            assert(frames_duration(frames.drop_first()) == 0);
        }
        lemma_frame_within_duration(frames.drop_first(), t - frames[0].time);
    }
}

/// An animation that always shows the same image.
#[derive(Clone, Copy, Debug, PartialEq, Eq, Structural)]
pub struct Static(pub u16, pub u16);

impl Static {
    /// The position of the image within the texture, whatever the time.
    pub fn get_relative_texture_coords(&self, _time: i64) -> (r: (u16, u16))
        ensures
            r == (self.0, self.1),
    {
        (self.0, self.1)
    }
}

/// An animation that repeats its frames forever.
pub struct Continuous {
    frames: Vec<Frame>,
    duration: u64,
}

impl Continuous {
    /// The stored duration is that of the frames.
    pub closed spec fn wf(&self) -> bool {
        self.duration == frames_duration(self.frames@)
    }

    /// The frames of the animation.
    pub closed spec fn frames(&self) -> Seq<Frame> {
        self.frames@
    }

    /// The duration of one round of the animation, in milliseconds.
    pub closed spec fn spec_duration(&self) -> u64 {
        self.duration
    }

    /// An animation repeating `frames`.
    pub fn new(frames: Vec<Frame>) -> (c: Continuous)
        requires
            frames_duration(frames@) <= u64::MAX,
        ensures
            c.wf(),
            c.frames() == frames@,
            c.spec_duration() == frames_duration(frames@),
    {
        let duration = duration_of_frames(frames.as_slice());
        Continuous { frames, duration }
    }

    /// The position within the texture of the frame showing at time `time` (in milliseconds).
    pub fn get_relative_texture_coords(&self, time: u64) -> (r: (u16, u16))
        requires
            self.wf(),
            self.spec_duration() > 0,
        ensures
            Some(r) == spec_frame_at_time(self.frames(), (time % self.spec_duration()) as int),
    {
        let t: u64 = time % self.duration;
        proof {
            assert(self.frames().len() > 0) by {
                if self.frames().len() == 0 {
                    assert(frames_duration(self.frames()) == 0);
                }
            }
            lemma_frame_within_duration(self.frames(), t as int);
        }
        frame_at_time(self.frames.as_slice(), t as i128).unwrap()
    }
}

/// A repeating animation shows the same frame one round later.
pub proof fn law_continuous_periodic(frames: Seq<Frame>, duration: u64, time: u64)
    requires
        duration > 0,
        time + duration <= u64::MAX,
    ensures
        spec_frame_at_time(frames, (time % duration) as int) == spec_frame_at_time(
            frames,
            ((time + duration) as u64 % duration) as int,
        ),
{
    vstd::arithmetic::div_mod::lemma_mod_add_multiples_vanish(time as int, duration as int);
}

/// An animation that plays its frames once, from a start time to an end time.
pub struct Once {
    frames: Vec<Frame>,
    start_time: i64,
    end_time: i64,
}

impl Once {
    /// The frames of the animation.
    pub closed spec fn frames(&self) -> Seq<Frame> {
        self.frames@
    }

    /// When the animation starts, in milliseconds.
    pub closed spec fn spec_start_time(&self) -> i64 {
        self.start_time
    }

    /// When the animation ends, in milliseconds.
    pub closed spec fn spec_end_time(&self) -> i64 {
        self.end_time
    }

    /// An animation of `frames` starting at `now` (in milliseconds).
    pub fn new(frames: Vec<Frame>, now: i64) -> (o: Once)
        requires
            frames@.len() > 0,
            frames_duration(frames@) <= i64::MAX,
            now + frames_duration(frames@) <= i64::MAX,
        ensures
            o.frames() == frames@,
            o.spec_start_time() == now,
            o.spec_end_time() == now + frames_duration(frames@),
    {
        proof {
            lemma_duration_nonnegative(frames@);
        }
        let duration = duration_of_frames(frames.as_slice());
        let end_time = now + duration as i64;
        Once { frames, start_time: now, end_time }
    }

    /// Whether the animation has ended by time `now`.
    pub fn has_concluded(&self, now: i64) -> (r: bool)
        ensures
            r == (now >= self.spec_end_time()),
    {
        now >= self.end_time
    }

    /// The position within the texture of the frame showing at time `time`: the frame at the
    /// time elapsed since the start of the animation, so that the frames play in turn (the
    /// first frame at or before the start), and the last frame once all frames have been
    /// shown.
    pub fn get_relative_texture_coords(&self, time: i64) -> (r: (u16, u16))
        requires
            self.frames().len() > 0,
        ensures
            r == match spec_frame_at_time(self.frames(), time - self.spec_start_time()) {
                Some(at) => at,
                None => self.frames().last().at,
            },
    {
        let elapsed: i128 = time as i128 - self.start_time as i128;
        match frame_at_time(self.frames.as_slice(), elapsed) {
            Some(at) => at,
            None => self.frames[self.frames.len() - 1].at,
        }
    }
}

/// `count` frames of `time` milliseconds each, the `i`-th at (`x0 + i`, `y`) when `along_x`,
/// or at (`x0`, `y + i`) otherwise.
pub open spec fn frame_row(count: nat, x0: u16, y: u16, time: u64, along_x: bool) -> Seq<Frame> {
    Seq::new(
        count,
        |i: int|
            if along_x {
                Frame { at: ((x0 + i) as u16, y), time }
            } else {
                Frame { at: (x0, (y + i) as u16), time }
            },
    )
}

/// Builds [`frame_row`].
fn make_frame_row(count: u16, x0: u16, y: u16, time: u64, along_x: bool) -> (v: Vec<Frame>)
    requires
        x0 + count <= u16::MAX,
        y + count <= u16::MAX,
    ensures
        v@ == frame_row(count as nat, x0, y, time, along_x),
{
    let mut v: Vec<Frame> = Vec::new();
    let mut i: u16 = 0;
    while i < count
        invariant
            i <= count,
            x0 + count <= u16::MAX,
            y + count <= u16::MAX,
            v@ == frame_row(i as nat, x0, y, time, along_x),
        decreases count - i,
    {
        let frame = if along_x {
            Frame { at: (x0 + i, y), time }
        } else {
            Frame { at: (x0, y + i), time }
        };
        v.push(frame);
        i = i + 1;
        assert(v@ =~= frame_row(i as nat, x0, y, time, along_x));
    }
    v
}

/// The frames of a detonating bomb: four frames of 80 milliseconds along the top row.
pub open spec fn detonating_bomb_frames() -> Seq<Frame> {
    frame_row(4, 0, 0, 80, true)
}

/// The frames of a rock being smashed: seven frames of 25 milliseconds along row 3.
pub open spec fn rock_smash_frames() -> Seq<Frame> {
    frame_row(7, 0, 3, 25, true)
}

/// The frames of a bomb waiting to be detonated: three frames of 100 milliseconds down
/// column 12.
pub open spec fn undetonated_bomb_frames() -> Seq<Frame> {
    frame_row(3, 12, 0, 100, false)
}

/// Frames that all last `time` milliseconds last `time` times their number in all.
proof fn lemma_uniform_duration(frames: Seq<Frame>, time: u64)
    requires
        forall|i: int| 0 <= i < frames.len() ==> #[trigger] frames[i].time == time,
    ensures
        frames_duration(frames) == frames.len() * time,
    decreases frames.len(),
{
    if frames.len() > 0 {
        assert forall|i: int| 0 <= i < frames.drop_first().len() implies #[trigger] frames.drop_first()[i].time == time by {
            assert(frames.drop_first()[i] == frames[i + 1]);
        }
        lemma_uniform_duration(frames.drop_first(), time);
        assert(frames.len() * time == time + (frames.len() - 1) * time) by (nonlinear_arith);
    }
}

/// A frame row's duration is the number of frames times the frame time.
proof fn lemma_frame_row_duration(count: nat, x0: u16, y: u16, time: u64, along_x: bool)
    ensures
        frames_duration(frame_row(count, x0, y, time, along_x)) == count * time,
{
    let s = frame_row(count, x0, y, time, along_x);
    lemma_uniform_duration(s, time);
}

/// The animation of a bomb detonating, starting at `now` (in milliseconds).
pub fn make_detonating_bomb_animation(now: i64) -> (o: Once)
    requires
        now + 320 <= i64::MAX,
    ensures
        o.frames() == detonating_bomb_frames(),
        o.spec_start_time() == now,
        o.spec_end_time() == now + 320,
{
    let frames = make_frame_row(4, 0, 0, 80, true);
    proof {
        lemma_frame_row_duration(4, 0, 0, 80, true);
    }
    Once::new(frames, now)
}

/// The animation of a rock being smashed, starting at `now` (in milliseconds).
pub fn new_rock_smash_animation(now: i64) -> (o: Once)
    requires
        now + 175 <= i64::MAX,
    ensures
        o.frames() == rock_smash_frames(),
        o.spec_start_time() == now,
        o.spec_end_time() == now + 175,
{
    let frames = make_frame_row(7, 0, 3, 25, true);
    proof {
        lemma_frame_row_duration(7, 0, 3, 25, true);
    }
    Once::new(frames, now)
}

/// The animation of a bomb waiting to be detonated.
pub fn undetonated_bomb_animation() -> (c: Continuous)
    ensures
        c.wf(),
        c.frames() == undetonated_bomb_frames(),
        c.spec_duration() == 300,
{
    let frames = make_frame_row(3, 12, 0, 100, false);
    proof {
        lemma_frame_row_duration(3, 12, 0, 100, false);
    }
    Continuous::new(frames)
}

/// The step of an entity's walk that its drawing shows.
#[derive(Clone, Copy, Debug, PartialEq, Eq, Structural)]
pub enum WalkCycle {
    BeforeRight,
    Right,
    BeforeLeft,
    Left,
}

impl WalkCycle {
    /// The step after `self` in the cycle.
    pub open spec fn spec_next(self) -> WalkCycle {
        match self {
            WalkCycle::BeforeRight => WalkCycle::Right,
            WalkCycle::Right => WalkCycle::BeforeLeft,
            WalkCycle::BeforeLeft => WalkCycle::Left,
            WalkCycle::Left => WalkCycle::BeforeRight,
        }
    }

    /// The next step in which the entity is not mid-stride.
    pub open spec fn spec_stationary(self) -> WalkCycle {
        match self {
            WalkCycle::Left => WalkCycle::BeforeRight,
            WalkCycle::Right => WalkCycle::BeforeLeft,
            _ => self,
        }
    }

    /// The step after this one in the cycle.
    pub fn next(&self) -> (w: WalkCycle)
        ensures
            w == self.spec_next(),
    {
        match self {
            WalkCycle::BeforeRight => WalkCycle::Right,
            WalkCycle::Right => WalkCycle::BeforeLeft,
            WalkCycle::BeforeLeft => WalkCycle::Left,
            WalkCycle::Left => WalkCycle::BeforeRight,
        }
    }

    /// The next step in which the entity is not mid-stride (this one if it is not).
    pub fn stationary(&self) -> (w: WalkCycle)
        ensures
            w == self.spec_stationary(),
    {
        match self {
            WalkCycle::Left => WalkCycle::BeforeRight,
            WalkCycle::Right => WalkCycle::BeforeLeft,
            _ => *self,
        }
    }
}

impl Default for WalkCycle {
    /// Walking starts before the right step.
    fn default() -> (w: WalkCycle)
        ensures
            w == WalkCycle::BeforeRight,
    {
        WalkCycle::BeforeRight
    }
}

/// The walk cycle has four steps: four steps lead back to the same step, and fewer do not.
pub proof fn law_walk_cycle_period(w: WalkCycle)
    ensures
        w.spec_next().spec_next().spec_next().spec_next() == w,
        w.spec_next() != w,
        w.spec_next().spec_next() != w,
        w.spec_next().spec_next().spec_next() != w,
{
}

/// Stopping leaves the entity on a step that is not mid-stride, and stopping again changes
/// nothing; the step reached is the current one or the one after it.
pub proof fn law_walk_cycle_stationary(w: WalkCycle)
    ensures
        w.spec_stationary() == WalkCycle::BeforeRight || w.spec_stationary() == WalkCycle::BeforeLeft,
        w.spec_stationary().spec_stationary() == w.spec_stationary(),
        w.spec_stationary() == w || w.spec_stationary() == w.spec_next(),
{
}

/// How a tile is drawn when nothing is happening to it: a fixed image or a repeating
/// animation.
pub enum TileAnimation {
    Static(Static),
    Continuous(Continuous),
}

/// The fixed image of a tile, for the tiles that have one.
pub open spec fn spec_static_tile_image(tile: Tile) -> Option<(u16, u16)> {
    match tile {
        Tile::Grass => Some((0, 0)),
        Tile::FlowerPatch => Some((0, 1)),
        Tile::Stones => Some((0, 2)),
        Tile::Dirt => Some((2, 1)),
        Tile::DirtGrassTop => Some((2, 0)),
        Tile::DirtGrassBottom => Some((2, 2)),
        Tile::DirtGrassLeft => Some((1, 1)),
        Tile::DirtGrassRight => Some((3, 1)),
        Tile::DirtGrassTopLeft => Some((1, 0)),
        Tile::DirtGrassTopRight => Some((3, 0)),
        Tile::DirtGrassBottomLeft => Some((1, 2)),
        Tile::DirtGrassBottomRight => Some((3, 2)),
        Tile::DirtGrassCornerTopLeft => Some((4, 0)),
        Tile::DirtGrassCornerTopRight => Some((5, 0)),
        Tile::DirtGrassCornerBottomLeft => Some((4, 1)),
        Tile::DirtGrassCornerBottomRight => Some((5, 1)),
        Tile::Rock => Some((6, 0)),
        Tile::RockEmerald => Some((7, 0)),
        Tile::RockRuby => Some((7, 1)),
        Tile::RockDiamond => Some((7, 2)),
        Tile::RockSmashed => Some((6, 1)),
        Tile::Shrub => Some((4, 2)),
        Tile::WaterGrassBottom => Some((2, 7)),
        Tile::WaterGrassLeft => Some((1, 6)),
        Tile::WaterGrassRight => Some((3, 6)),
        Tile::WaterGrassTopLeft => Some((1, 5)),
        Tile::WaterGrassTopRight => Some((3, 5)),
        Tile::WaterGrassBottomLeft => Some((1, 7)),
        Tile::WaterGrassBottomRight => Some((3, 7)),
        Tile::WaterGrassCornerBottomLeft => Some((2, 6)),
        Tile::WaterGrassCornerBottomRight => Some((2, 5)),
        _ => None,
    }
}

/// No two tiles share a fixed image, so each tile with one is drawn as itself (a smashed rock,
/// for one, never looks like an intact rock).
pub proof fn law_static_tile_images_distinct(a: Tile, b: Tile)
    ensures
        spec_static_tile_image(a) is Some && spec_static_tile_image(a) == spec_static_tile_image(b) ==> a == b,
{
}

/// The images lie in the texture as drawn by the artist: a smashed rock just below the intact
/// rock, the gem rocks in the column next to them, and the dirt-grass edges around the dirt
/// image, each on the side that it names.
pub proof fn law_static_tile_image_layout()
    ensures
        ({
            let rock = spec_static_tile_image(Tile::Rock)->0;
            let smashed = spec_static_tile_image(Tile::RockSmashed)->0;
            &&& smashed.0 == rock.0
            &&& smashed.1 == rock.1 + 1
        }),
        (spec_static_tile_image(Tile::RockEmerald)->0).0 == (spec_static_tile_image(Tile::Rock)->0).0 + 1,
        (spec_static_tile_image(Tile::RockRuby)->0).0 == (spec_static_tile_image(Tile::Rock)->0).0 + 1,
        (spec_static_tile_image(Tile::RockDiamond)->0).0 == (spec_static_tile_image(Tile::Rock)->0).0 + 1,
        ({
            let d = spec_static_tile_image(Tile::Dirt)->0;
            &&& spec_static_tile_image(Tile::DirtGrassTop)->0 == (d.0, (d.1 - 1) as u16)
            &&& spec_static_tile_image(Tile::DirtGrassBottom)->0 == (d.0, (d.1 + 1) as u16)
            &&& spec_static_tile_image(Tile::DirtGrassLeft)->0 == ((d.0 - 1) as u16, d.1)
            &&& spec_static_tile_image(Tile::DirtGrassRight)->0 == ((d.0 + 1) as u16, d.1)
            &&& spec_static_tile_image(Tile::DirtGrassTopLeft)->0 == ((d.0 - 1) as u16, (d.1 - 1) as u16)
            &&& spec_static_tile_image(Tile::DirtGrassTopRight)->0 == ((d.0 + 1) as u16, (d.1 - 1) as u16)
            &&& spec_static_tile_image(Tile::DirtGrassBottomLeft)->0 == ((d.0 - 1) as u16, (d.1 + 1) as u16)
            &&& spec_static_tile_image(Tile::DirtGrassBottomRight)->0 == ((d.0 + 1) as u16, (d.1 + 1) as u16)
        }),
{
}

/// The repeating frames of the tiles that are animated.
pub open spec fn spec_tile_frames(tile: Tile) -> Seq<Frame> {
    match tile {
        Tile::FlowerBlue => seq![Frame { at: (5, 2), time: 2650 }, Frame { at: (6, 2), time: 350 }],
        Tile::FlowersYellowOrange => seq![
            Frame { at: (0, 4), time: 1750 },
            Frame { at: (1, 4), time: 250 },
            Frame { at: (2, 4), time: 250 },
            Frame { at: (3, 4), time: 250 },
        ],
        Tile::Water => frame_row(4, 4, 7, 150, true),
        Tile::WaterGrassTop => frame_row(4, 4, 6, 150, true),
        Tile::WaterGrassCornerTopLeft => frame_row(4, 4, 4, 150, true),
        Tile::WaterGrassCornerTopRight => frame_row(4, 4, 5, 150, true),
        _ => Seq::empty(),
    }
}

/// How the given tile is drawn when nothing is happening to it.
pub fn stateless_tile_animation(tile: Tile) -> (a: TileAnimation)
    ensures
        match a {
            TileAnimation::Static(s) => spec_static_tile_image(tile) == Some((s.0, s.1)),
            TileAnimation::Continuous(c) => {
                &&& spec_static_tile_image(tile) is None
                &&& c.wf()
                &&& c.frames() == spec_tile_frames(tile)
                &&& c.spec_duration() > 0
            },
        },
{
    match tile {
        Tile::Grass => TileAnimation::Static(Static(0, 0)),
        Tile::FlowerPatch => TileAnimation::Static(Static(0, 1)),
        Tile::Stones => TileAnimation::Static(Static(0, 2)),
        Tile::Dirt => TileAnimation::Static(Static(2, 1)),
        Tile::DirtGrassTop => TileAnimation::Static(Static(2, 0)),
        Tile::DirtGrassBottom => TileAnimation::Static(Static(2, 2)),
        Tile::DirtGrassLeft => TileAnimation::Static(Static(1, 1)),
        Tile::DirtGrassRight => TileAnimation::Static(Static(3, 1)),
        Tile::DirtGrassTopLeft => TileAnimation::Static(Static(1, 0)),
        Tile::DirtGrassTopRight => TileAnimation::Static(Static(3, 0)),
        Tile::DirtGrassBottomLeft => TileAnimation::Static(Static(1, 2)),
        Tile::DirtGrassBottomRight => TileAnimation::Static(Static(3, 2)),
        Tile::DirtGrassCornerTopLeft => TileAnimation::Static(Static(4, 0)),
        Tile::DirtGrassCornerTopRight => TileAnimation::Static(Static(5, 0)),
        Tile::DirtGrassCornerBottomLeft => TileAnimation::Static(Static(4, 1)),
        Tile::DirtGrassCornerBottomRight => TileAnimation::Static(Static(5, 1)),
        Tile::Rock => TileAnimation::Static(Static(6, 0)),
        Tile::RockEmerald => TileAnimation::Static(Static(7, 0)),
        Tile::RockRuby => TileAnimation::Static(Static(7, 1)),
        Tile::RockDiamond => TileAnimation::Static(Static(7, 2)),
        Tile::RockSmashed => TileAnimation::Static(Static(6, 1)),
        Tile::Shrub => TileAnimation::Static(Static(4, 2)),
        Tile::WaterGrassBottom => TileAnimation::Static(Static(2, 7)),
        Tile::WaterGrassLeft => TileAnimation::Static(Static(1, 6)),
        Tile::WaterGrassRight => TileAnimation::Static(Static(3, 6)),
        Tile::WaterGrassTopLeft => TileAnimation::Static(Static(1, 5)),
        Tile::WaterGrassTopRight => TileAnimation::Static(Static(3, 5)),
        Tile::WaterGrassBottomLeft => TileAnimation::Static(Static(1, 7)),
        Tile::WaterGrassBottomRight => TileAnimation::Static(Static(3, 7)),
        Tile::WaterGrassCornerBottomLeft => TileAnimation::Static(Static(2, 6)),
        Tile::WaterGrassCornerBottomRight => TileAnimation::Static(Static(2, 5)),
        Tile::FlowerBlue => {
            let frames = vec![Frame { at: (5, 2), time: 2650 }, Frame { at: (6, 2), time: 350 }];
            proof {
                reveal_with_fuel(frames_duration, 3);
                assert(frames@ =~= spec_tile_frames(tile));
            }
            TileAnimation::Continuous(Continuous::new(frames))
        },
        Tile::FlowersYellowOrange => {
            let frames = vec![
                Frame { at: (0, 4), time: 1750 },
                Frame { at: (1, 4), time: 250 },
                Frame { at: (2, 4), time: 250 },
                Frame { at: (3, 4), time: 250 },
            ];
            proof {
                reveal_with_fuel(frames_duration, 5);
                assert(frames@ =~= spec_tile_frames(tile));
            }
            TileAnimation::Continuous(Continuous::new(frames))
        },
        Tile::Water => TileAnimation::Continuous(water_animation(7)),
        Tile::WaterGrassTop => TileAnimation::Continuous(water_animation(6)),
        Tile::WaterGrassCornerTopLeft => TileAnimation::Continuous(water_animation(4)),
        Tile::WaterGrassCornerTopRight => TileAnimation::Continuous(water_animation(5)),
    }
}

/// Four frames of 150 milliseconds along row `y` from column 4 (the moving water).
fn water_animation(y: u16) -> (c: Continuous)
    requires
        y <= 7,
    ensures
        c.wf(),
        c.frames() == frame_row(4, 4, y, 150, true),
        c.spec_duration() == 600,
{
    let frames = make_frame_row(4, 4, y, 150, true);
    proof {
        lemma_frame_row_duration(4, 4, y, 150, true);
    }
    Continuous::new(frames)
}

} // verus!

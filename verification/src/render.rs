use vstd::prelude::*;

verus! {

/// The first frame of an animation that does not say where it starts: frames
/// are counted from one.
pub fn one() -> (first: u32)
    ensures
        first == 1,
{
    1
}

/// Where a sprite is drawn: the top left corner and the size.
#[derive(Clone, Copy, Debug, PartialEq, Eq, Structural)]
pub struct Placement {
    pub x: i64,
    pub y: i64,
    pub width: u32,
    pub height: u32,
}

/// Where a sprite of the given size is drawn whose centre stands at
/// `(x, y)` in the world, seen by a camera whose top left corner stands at
/// `(camera_x, camera_y)`.
pub fn draw_rect(x: i32, y: i32, width: u32, height: u32, camera_x: i32, camera_y: i32) -> (p:
    Placement)
    ensures
        p.x == x - width / 2 - camera_x,
        p.y == y - height / 2 - camera_y,
        p.width == width,
        p.height == height,
{
    Placement {
        x: x as i64 - (width / 2) as i64 - camera_x as i64,
        y: y as i64 - (height / 2) as i64 - camera_y as i64,
        width,
        height,
    }
}

/// Whether any of the placement lies on a screen of the given size.
pub open spec fn overlaps_screen(p: Placement, screen_width: u32, screen_height: u32) -> bool {
    &&& p.x + p.width > 0
    &&& p.x < screen_width
    &&& p.y + p.height > 0
    &&& p.y < screen_height
}

/// Whether any of the placement lies on a screen of the given size.
pub fn on_screen(p: &Placement, screen_width: u32, screen_height: u32) -> (b: bool)
    ensures
        b == overlaps_screen(*p, screen_width, screen_height),
{
    p.x > -(p.width as i64) && p.x < screen_width as i64 && p.y > -(p.height as i64) && p.y
        < screen_height as i64
}

/// The frame size and last frame of an animation as it was declared, a zero
/// standing for "take it from the texture".
#[derive(Clone, Copy, Debug, PartialEq, Eq, Structural)]
pub struct Strip {
    pub frame_width: u32,
    pub frame_height: u32,
    pub last: u32,
}

/// An animation with what it left open taken from its texture: a last frame
/// of zero becomes as many frames as fit in a row, a frame height of zero
/// the texture's height, a frame width of zero the texture's width. `None`
/// where both the last frame and the frame width are left open: then the
/// number of frames cannot be told.
pub fn fill_strip(strip: Strip, texture_width: u32, texture_height: u32) -> (r: Option<Strip>)
    ensures
        r is Some <==> !(strip.last == 0 && strip.frame_width == 0),
        r matches Some(filled) ==> {
            &&& filled.last == (if strip.last == 0 {
                (texture_width / strip.frame_width) as u32
            } else {
                strip.last
            })
            &&& filled.frame_height == (if strip.frame_height == 0 {
                texture_height
            } else {
                strip.frame_height
            })
            &&& filled.frame_width == (if strip.frame_width == 0 {
                texture_width
            } else {
                strip.frame_width
            })
        },
{
    if strip.last == 0 && strip.frame_width == 0 {
        return None;
    }
    let last = if strip.last == 0 {
        texture_width / strip.frame_width
    } else {
        strip.last
    };
    let frame_height = if strip.frame_height == 0 {
        texture_height
    } else {
        strip.frame_height
    };
    let frame_width = if strip.frame_width == 0 {
        texture_width
    } else {
        strip.frame_width
    };
    Some(Strip { frame_width, frame_height, last })
}

/// The size at which an animated sprite is drawn: its own, and where that
/// is left at zero, the size of a frame.
pub fn fill_size(width: u32, height: u32, frame_width: u32, frame_height: u32) -> (r: (u32, u32))
    ensures
        r.0 == (if width == 0 {
            frame_width
        } else {
            width
        }),
        r.1 == (if height == 0 {
            frame_height
        } else {
            height
        }),
{
    (
        if width == 0 {
            frame_width
        } else {
            width
        },
        if height == 0 {
            frame_height
        } else {
            height
        },
    )
}

/// Whether the sprite `a` is drawn no later than `b`: by depth, then by
/// entity id. Each is a pair of depth and entity id.
pub open spec fn no_later(a: (i32, usize), b: (i32, usize)) -> bool {
    a.0 < b.0 || (a.0 == b.0 && a.1 <= b.1)
}

/// Whether the sprites stand in drawing order.
pub open spec fn in_order(sprites: Seq<(i32, usize)>) -> bool {
    forall|i: int, j: int| 0 <= i < j < sprites.len() ==> no_later(sprites[i], sprites[j])
}

/// Whether the sprite `a` is drawn no later than `b`.
pub fn draws_no_later(a: (i32, usize), b: (i32, usize)) -> (r: bool)
    ensures
        r == no_later(a, b),
{
    a.0 < b.0 || (a.0 == b.0 && a.1 <= b.1)
}

/// The sprites in drawing order: lowest depth first, and among equal depths
/// the lowest entity id first. Each is a pair of depth and entity id.
pub fn draw_order(sprites: &Vec<(i32, usize)>) -> (ordered: Vec<(i32, usize)>)
    ensures
        in_order(ordered@),
        ordered@.to_multiset() == sprites@.to_multiset(),
        ordered@.len() == sprites@.len(),
{
    let mut ordered: Vec<(i32, usize)> = Vec::new();
    let mut i: usize = 0;
    assert(sprites@.subrange(0, 0) =~= Seq::empty());
    while i < sprites.len()
        invariant
            i <= sprites@.len(),
            ordered@.len() == i,
            in_order(ordered@),
            ordered@.to_multiset() == sprites@.subrange(0, i as int).to_multiset(),
        decreases sprites@.len() - i,
    {
        let sprite = sprites[i];
        let mut at: usize = 0;
        while at < ordered.len() && draws_no_later(ordered[at], sprite)
            invariant
                at <= ordered@.len(),
                forall|j: int| 0 <= j < at ==> no_later(ordered@[j], sprite),
            decreases ordered@.len() - at,
        {
            at += 1;
        }
        let ghost before = ordered@;
        ordered.insert(at, sprite);
        proof {
            assert forall|a: int, b: int| 0 <= a < b < ordered@.len() implies no_later(
                ordered@[a],
                ordered@[b],
            ) by {
                if b == at {
                    assert(ordered@[a] == before[a]);
                } else if a == at {
                    assert(ordered@[b] == before[b - 1]);
                    assert(!no_later(before[at as int], sprite));
                    if b - 1 > at {
                        assert(no_later(before[at as int], before[b - 1]));
                    }
                } else {
                    let a0 = if a < at {
                        a
                    } else {
                        a - 1
                    };
                    let b0 = if b < at {
                        b
                    } else {
                        b - 1
                    };
                    assert(ordered@[a] == before[a0]);
                    assert(ordered@[b] == before[b0]);
                }
            }
            vstd::seq_lib::to_multiset_insert(before, at as int, sprite);
            assert(sprites@.subrange(0, i + 1) =~= sprites@.subrange(0, i as int).push(sprite));
            vstd::seq_lib::to_multiset_build(sprites@.subrange(0, i as int), sprite);
        }
        i += 1;
    }
    assert(sprites@.subrange(0, i as int) =~= sprites@);
    ordered
}

} // verus!

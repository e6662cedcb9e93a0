use vstd::prelude::*;

verus! {

/// Side of the bouncing square, in pixels.
pub const BOUNCE_SIZE: u32 = 128;

/// The colour of frame `frame`: it changes every 180 frames, cycling through three.
pub open spec fn bounce_color(frame: u32) -> u32 {
    if (frame / 180) % 3 == 0 {
        0x0000d8ff
    } else if (frame / 180) % 3 == 1 {
        0x00ff3b80
    } else {
        0x0099ff55
    }
}

/// One axis of a step: when the next position would touch the near edge (0) or
/// bring the square's far side to `limit`, the velocity flips; the position then
/// moves by the (new) velocity.
pub open spec fn bounce_axis(p: u32, d: i32, limit: u32) -> (u32, i32) {
    let next = p as i32 + d;
    let d2: i32 = if next <= 0 || next + BOUNCE_SIZE as i32 >= limit as i32 { (-d) as i32 } else { d };
    ((p as i32 + d2) as u32, d2)
}

/// The positions of a step and its colour.
#[derive(Debug, Clone, Copy, PartialEq, Eq, Structural)]
pub struct BounceFrame {
    pub old_x: u32,
    pub old_y: u32,
    pub new_x: u32,
    pub new_y: u32,
    pub size: u32,
    pub color: u32,
}

/// The bouncing square: its position, velocity and frame count.
pub struct Bounce {
    x: u32,
    y: u32,
    dx: i32,
    dy: i32,
    frame: u32,
}

/// A position far enough from the ends of `i32` for a step.
pub open spec fn axis_ok(p: u32) -> bool {
    (p as i32) - 7 >= i32::MIN && (p as i32) + 7 + BOUNCE_SIZE <= i32::MAX
}

impl Bounce {
    pub closed spec fn state(&self) -> (u32, u32, i32, i32, u32) {
        (self.x, self.y, self.dx, self.dy, self.frame)
    }

    pub closed spec fn wf(&self) -> bool {
        &&& (self.dx == 7 || self.dx == -7)
        &&& (self.dy == 5 || self.dy == -5)
    }

    /// The square at (32, 32), moving by (7, 5), at frame 0.
    pub fn new() -> (r: Self)
        ensures
            r.wf(),
            r.state() == (32u32, 32u32, 7i32, 5i32, 0u32),
    {
        Bounce { x: 32, y: 32, dx: 7, dy: 5, frame: 0 }
    }

    /// One frame on a screen of `width` by `height`: both axes step as
    /// `bounce_axis` says, the frame's colour is picked, and the frame count goes
    /// up by one (wrapping).
    pub fn step(&mut self, width: u32, height: u32) -> (f: BounceFrame)
        requires
            old(self).wf(),
            axis_ok(old(self).state().0),
            axis_ok(old(self).state().1),
        ensures
            final(self).wf(),
            ({
                let (x, y, dx, dy, frame) = old(self).state();
                let (nx, ndx) = bounce_axis(x, dx, width);
                let (ny, ndy) = bounce_axis(y, dy, height);
                &&& final(self).state() == (nx, ny, ndx, ndy, (if frame == u32::MAX { 0 } else { frame + 1 }) as u32)
                &&& f == (BounceFrame { old_x: x, old_y: y, new_x: nx, new_y: ny, size: BOUNCE_SIZE, color: bounce_color(frame) })
            }),
    {
        let old_x = self.x;
        let old_y = self.y;
        let next_x = self.x as i32 + self.dx;
        let next_y = self.y as i32 + self.dy;
        if next_x <= 0 || next_x + BOUNCE_SIZE as i32 >= width as i32 {
            self.dx = -self.dx;
        }
        if next_y <= 0 || next_y + BOUNCE_SIZE as i32 >= height as i32 {
            self.dy = -self.dy;
        }
        self.x = (self.x as i32 + self.dx) as u32;
        self.y = (self.y as i32 + self.dy) as u32;
        let color: u32 = if (self.frame / 180) % 3 == 0 {
            0x0000d8ff
        } else if (self.frame / 180) % 3 == 1 {
            0x00ff3b80
        } else {
            0x0099ff55
        };
        let f = BounceFrame { old_x, old_y, new_x: self.x, new_y: self.y, size: BOUNCE_SIZE, color };
        self.frame = self.frame.wrapping_add(1);
        f
    }
}

} // verus!

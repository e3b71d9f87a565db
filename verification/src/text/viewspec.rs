use vstd::prelude::*;

verus! {

/// The geometry of a view: its size and origin, the rows and columns taken by headers and
/// margins, and the size and origin of the body that holds the text.
#[derive(Debug, Clone)]
pub struct ViewSpec {
    pub w: u16,
    pub h: u16,
    pub origin_x: u16,
    pub origin_y: u16,
    pub header: u16,
    pub footer: u16,
    pub status: u16,
    pub lm: u16,
    pub rm: u16,
    pub sx: u16,
    pub sy: u16,
    pub x0: u16,
    pub y0: u16,
}

impl ViewSpec {
    /// The body's size and origin fit in the view's numbers.
    pub open spec fn calc_ok(&self) -> bool {
        &&& self.lm + self.rm <= self.w
        &&& self.header + self.footer + self.status <= self.h
        &&& self.origin_x + self.lm <= u16::MAX
        &&& self.origin_y + self.header <= u16::MAX
    }

    /// The body is what is left of the view after the margins, the header, the footer and
    /// the status row.
    pub open spec fn calculated(&self) -> bool {
        &&& self.sx == self.w - self.lm - self.rm
        &&& self.sy == self.h - self.header - self.footer - self.status
        &&& self.x0 == self.origin_x + self.lm
        &&& self.y0 == self.origin_y + self.header
    }

    /// A view with one header row, one footer row, one status row, a left margin of six
    /// columns and a right margin of one.
    pub fn new(w: u16, h: u16, origin_x: u16, origin_y: u16) -> (s: Self)
        requires
            w >= 7,
            h >= 3,
            origin_x <= u16::MAX - 6,
            origin_y <= u16::MAX - 1,
        ensures
            s.w == w,
            s.h == h,
            s.origin_x == origin_x,
            s.origin_y == origin_y,
            s.header == 1,
            s.footer == 1,
            s.status == 1,
            s.lm == 6,
            s.rm == 1,
            s.calculated(),
    {
        let header: u16 = 1;
        let footer: u16 = 1;
        let status: u16 = 1;
        let lm: u16 = 6;
        let rm: u16 = 1;
        let s = Self {
            w: w,
            h: h,
            origin_x: origin_x,
            origin_y: origin_y,
            header: header,
            footer: footer,
            status: status,
            lm: lm,
            rm: rm,
            sx: 0,
            sy: 0,
            x0: 0,
            y0: 0,
        };
        s.init()
    }

    fn init(self) -> (s: Self)
        requires
            self.calc_ok(),
        ensures
            s.w == self.w && s.h == self.h && s.origin_x == self.origin_x && s.origin_y
                == self.origin_y,
            s.header == self.header && s.footer == self.footer && s.status == self.status,
            s.lm == self.lm && s.rm == self.rm,
            s.calculated(),
    {
        let mut s = self;
        s.calc();
        s
    }

    /// Gives the view a new size and origin and recomputes the body.
    pub fn resize(&mut self, w: u16, h: u16, origin_x: u16, origin_y: u16)
        requires
            old(self).lm + old(self).rm <= w,
            old(self).header + old(self).footer + old(self).status <= h,
            origin_x + old(self).lm <= u16::MAX,
            origin_y + old(self).header <= u16::MAX,
        ensures
            final(self).w == w && final(self).h == h,
            final(self).origin_x == origin_x && final(self).origin_y == origin_y,
            final(self).header == old(self).header && final(self).footer == old(self).footer
                && final(self).status == old(self).status,
            final(self).lm == old(self).lm && final(self).rm == old(self).rm,
            final(self).calculated(),
    {
        self.w = w;
        self.h = h;
        self.origin_x = origin_x;
        self.origin_y = origin_y;
        self.calc();
    }

    /// Recomputes the body from the view's size, origin, margins and rows.
    pub fn calc(&mut self)
        requires
            old(self).calc_ok(),
        ensures
            final(self).w == old(self).w && final(self).h == old(self).h,
            final(self).origin_x == old(self).origin_x && final(self).origin_y == old(
                self,
            ).origin_y,
            final(self).header == old(self).header && final(self).footer == old(self).footer
                && final(self).status == old(self).status,
            final(self).lm == old(self).lm && final(self).rm == old(self).rm,
            final(self).calculated(),
    {
        self.sx = self.w - self.lm - self.rm;
        self.sy = self.h - self.header - self.footer - self.status;
        self.x0 = self.origin_x + self.lm;
        self.y0 = self.origin_y + self.header;
    }
}

} // verus!

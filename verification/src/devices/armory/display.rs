//! A framebuffer that remembers which of its pages were written.
//!
//! The guest writes pixels through `SimpleFb`; the host asks `Fb::refresh`
//! which rows to draw again.

use crate::access::IoAccess;
use crate::devices::PixelFormat;
use crate::region::overwrite;
use vstd::prelude::*;

verus! {

pub const SIMPLE_FB_PAGE_SIZE: u32 = 4096;

/// Dirty rows that lie at most this far apart are drawn as one rectangle.
pub const SIMPLE_FB_MERGE_TH: u32 = 3;

/// A rectangle of the display to draw again.
#[derive(Clone, Copy, Debug, PartialEq, Eq, Structural)]
pub struct Rect {
    pub x: i32,
    pub y: i32,
    pub w: u32,
    pub h: u32,
}

/// The rows that a refresh has seen dirty and not yet handed out, and the
/// rectangles that it has handed out.
pub struct Sweep {
    pub y_start: u32,
    pub y_end: u32,
    pub rects: Seq<Rect>,
}

/// The first row that the page `page` holds bytes of.
pub open spec fn first_row(page: int, stride: int) -> int {
    (page * SIMPLE_FB_PAGE_SIZE) / stride
}

/// The row after the last one that the page `page` holds bytes of, at most
/// `height`.
pub open spec fn end_row(page: int, stride: int, height: int) -> int {
    let e = (page * SIMPLE_FB_PAGE_SIZE + SIMPLE_FB_PAGE_SIZE - 1) / stride + 1;
    if e < height {
        e
    } else {
        height
    }
}

/// The rectangle of the rows from `y_start` up to `y_end`, as wide as the
/// display.
pub open spec fn row_rect(y_start: u32, y_end: u32, width: u32) -> Rect {
    Rect { x: 0, y: y_start as i32, w: width, h: (y_end - y_start) as u32 }
}

/// The sweep once the dirty page `page` is seen: its rows begin the pending
/// rows, or extend them where they begin at most three rows after their
/// end, or else the pending rows are handed out and its rows are pending.
pub open spec fn sweep_page(s: Sweep, page: int, stride: int, height: int, width: u32) -> Sweep {
    let ys = first_row(page, stride) as u32;
    let ye = end_row(page, stride, height) as u32;
    if s.y_start == s.y_end {
        Sweep { y_start: ys, y_end: ye, rects: s.rects }
    } else if ys <= s.y_end + SIMPLE_FB_MERGE_TH {
        Sweep { y_start: s.y_start, y_end: ye, rects: s.rects }
    } else {
        Sweep { y_start: ys, y_end: ye, rects: s.rects.push(row_rect(s.y_start, s.y_end, width)) }
    }
}

/// The sweep over the first `upto` pages, in ascending order.
pub open spec fn sweep(dirty: Seq<bool>, upto: int, stride: int, height: int, width: u32) -> Sweep
    decreases upto,
{
    if upto <= 0 {
        Sweep { y_start: 0, y_end: 0, rects: Seq::empty() }
    } else {
        let s = sweep(dirty, upto - 1, stride, height, width);
        if dirty[upto - 1] {
            sweep_page(s, upto - 1, stride, height, width)
        } else {
            s
        }
    }
}

/// The rectangles that cover the dirty pages: what the sweep over all pages
/// hands out, and then its pending rows.
pub open spec fn dirty_rects(dirty: Seq<bool>, stride: int, height: int, width: u32) -> Seq<Rect> {
    let s = sweep(dirty, dirty.len() as int, stride, height, width);
    if s.y_start != s.y_end {
        s.rects.push(row_rect(s.y_start, s.y_end, width))
    } else {
        s.rects
    }
}

/// A framebuffer with one dirty flag for each page of 4096 bytes.
pub struct Fb {
    fb: Vec<u8>,
    width: u32,
    height: u32,
    format: PixelFormat,
    pages: u32,
    dirties: Vec<bool>,
}

impl Fb {
    /// The pixels, row by row.
    pub closed spec fn pixels(&self) -> Seq<u8> {
        self.fb@
    }

    /// The dirty flags, page by page.
    pub closed spec fn dirty(&self) -> Seq<bool> {
        self.dirties@
    }

    pub closed spec fn spec_width(&self) -> u32 {
        self.width
    }

    pub closed spec fn spec_height(&self) -> u32 {
        self.height
    }

    pub closed spec fn spec_format(&self) -> PixelFormat {
        self.format
    }

    /// The bytes of a row.
    pub open spec fn spec_stride(&self) -> int {
        self.spec_width() * self.spec_format().bytes()
    }

    /// The framebuffer holds its rows, in whole pages that fit 32 bits, and
    /// a flag for each page.
    pub open spec fn wf(&self) -> bool {
        &&& self.pixels().len() == self.spec_stride() * self.spec_height()
        &&& self.spec_stride() <= u32::MAX
        &&& self.pixels().len() + SIMPLE_FB_PAGE_SIZE - 1 <= u32::MAX
        &&& self.dirty().len() == (self.pixels().len() + SIMPLE_FB_PAGE_SIZE - 1) / (
        SIMPLE_FB_PAGE_SIZE as int)
    }

    /// A black framebuffer of `width` by `height` pixels with no page dirty.
    pub fn new(width: u32, height: u32, format: PixelFormat) -> (fb: Fb)
        requires
            width * format.bytes() <= u32::MAX,
            width * height * format.bytes() + SIMPLE_FB_PAGE_SIZE - 1 <= u32::MAX,
        ensures
            fb.wf(),
            fb.spec_width() == width,
            fb.spec_height() == height,
            fb.spec_format() == format,
            fb.pixels() == Seq::new((width * height * format.bytes()) as nat, |i: int| 0u8),
            fb.dirty() == Seq::new(fb.dirty().len(), |i: int| false),
    {
        let bytes = format.size();
        assert(width * height <= width * height * bytes) by (nonlinear_arith)
            requires
                bytes >= 1,
                width >= 0,
                height >= 0,
        ;
        assert(width * height * bytes == width * bytes * height) by (nonlinear_arith);
        let size = width * height * bytes;
        assert(size + SIMPLE_FB_PAGE_SIZE - 1 <= u32::MAX);
        let pages = (size + (SIMPLE_FB_PAGE_SIZE - 1)) / SIMPLE_FB_PAGE_SIZE;
        let fb = vec![0u8; size as usize];
        let dirties = vec![false; pages as usize];
        assert(fb@ =~= Seq::new(size as nat, |i: int| 0u8));
        assert(dirties@ =~= Seq::new(pages as nat, |i: int| false));
        Fb { fb, width, height, format, pages, dirties }
    }

    /// The bytes of the framebuffer's pages.
    pub fn size(&self) -> (n: u32)
        requires
            self.wf(),
        ensures
            n == self.dirty().len() * SIMPLE_FB_PAGE_SIZE,
    {
        (self.dirties.len() as u32) * SIMPLE_FB_PAGE_SIZE
    }

    /// Marks the page that holds the byte `offset` dirty, where the
    /// framebuffer has such a page.
    pub fn set_dirty(&mut self, offset: u64)
        requires
            old(self).wf(),
        ensures
            final(self).wf(),
            final(self).pixels() == old(self).pixels(),
            final(self).spec_width() == old(self).spec_width(),
            final(self).spec_height() == old(self).spec_height(),
            final(self).spec_format() == old(self).spec_format(),
            final(self).dirty() == if offset / (SIMPLE_FB_PAGE_SIZE as u64) < old(self).dirty().len() {
                old(self).dirty().update((offset / (SIMPLE_FB_PAGE_SIZE as u64)) as int, true)
            } else {
                old(self).dirty()
            },
    {
        let page = offset / (SIMPLE_FB_PAGE_SIZE as u64);
        if page < self.dirties.len() as u64 {
            self.dirties[page as usize] = true;
        }
    }

    /// The rectangles that cover the pages written since the last refresh,
    /// top to bottom; no page is dirty afterwards.
    pub fn refresh(&mut self) -> (rects: Vec<Rect>)
        requires
            old(self).wf(),
        ensures
            final(self).wf(),
            final(self).pixels() == old(self).pixels(),
            final(self).spec_width() == old(self).spec_width(),
            final(self).spec_height() == old(self).spec_height(),
            final(self).spec_format() == old(self).spec_format(),
            final(self).dirty() == Seq::new(old(self).dirty().len(), |i: int| false),
            rects@ == dirty_rects(
                old(self).dirty(),
                old(self).spec_stride(),
                old(self).spec_height() as int,
                old(self).spec_width(),
            ),
    {
        let mut rects: Vec<Rect> = Vec::new();
        let mut y_start: u32 = 0;
        let mut y_end: u32 = 0;
        let stride = self.stride();
        let n = self.dirties.len();
        let ghost dirty = self.dirties@;
        let mut page: usize = 0;
        while page < n
            invariant
                page <= n,
                n == dirty.len(),
                self.wf(),
                self.fb == old(self).fb,
                self.width == old(self).width,
                self.height == old(self).height,
                self.format == old(self).format,
                self.dirties@.len() == n,
                stride == self.spec_stride(),
                dirty == old(self).dirty(),
                forall|i: int| 0 <= i < page ==> !self.dirties@[i],
                forall|i: int| page <= i < n ==> self.dirties@[i] == dirty[i],
                sweep(dirty, page as int, stride as int, self.height as int, self.width) == (Sweep {
                    y_start,
                    y_end,
                    rects: rects@,
                }),
                y_start <= y_end <= self.height,
                y_start != y_end ==> y_start <= first_row(page as int, stride as int),
            decreases n - page,
        {
            if self.dirties[page] {
                self.dirties[page] = false;
                proof {
                    lemma_rows(page as int, n as int, stride as int, self.height as int);
                    lemma_rows_ascend(page + 1, stride as int);
                }
                let byte_offset = (page as u32) * SIMPLE_FB_PAGE_SIZE;
                let y_start_offset = byte_offset / stride;
                let e = (byte_offset + (SIMPLE_FB_PAGE_SIZE - 1)) / stride + 1;
                let y_end_offset = if e < self.height {
                    e
                } else {
                    self.height
                };
                if y_start == y_end {
                    y_start = y_start_offset;
                    y_end = y_end_offset;
                } else if y_start_offset as u64 <= y_end as u64 + SIMPLE_FB_MERGE_TH as u64 {
                    y_end = y_end_offset;
                } else {
                    rects.push(
                        Rect { x: 0, y: #[verifier::truncate] (y_start as i32), w: self.width, h: y_end - y_start },
                    );
                    y_start = y_start_offset;
                    y_end = y_end_offset;
                }
            } else {
                proof {
                    lemma_rows(page as int, n as int, stride as int, self.height as int);
                    lemma_rows_ascend(page + 1, stride as int);
                }
            }
            page += 1;
        }
        if y_start != y_end {
            rects.push(
                Rect { x: 0, y: #[verifier::truncate] (y_start as i32), w: self.width, h: y_end - y_start },
            );
        }
        assert(self.dirties@ =~= Seq::new(n as nat, |i: int| false));
        rects
    }

    /// The pixels, row by row.
    pub fn data(&self) -> (d: &Vec<u8>)
        ensures
            d@ == self.pixels(),
    {
        &self.fb
    }

    pub fn width(&self) -> (w: u32)
        ensures
            w == self.spec_width(),
    {
        self.width
    }

    pub fn height(&self) -> (h: u32)
        ensures
            h == self.spec_height(),
    {
        self.height
    }

    /// The bytes of a row.
    pub fn stride(&self) -> (s: u32)
        requires
            self.wf(),
        ensures
            s == self.spec_stride(),
    {
        self.width * self.format.size()
    }

    pub fn pixel_format(&self) -> (f: &PixelFormat)
        ensures
            *f == self.spec_format(),
    {
        &self.format
    }
}

/// The rows of the pages of a framebuffer of `pages` pages: a page begins
/// in a row of the display, holds at least one row, and begins no earlier
/// than the page before it.
pub proof fn lemma_rows(page: int, pages: int, stride: int, height: int)
    requires
        0 <= page < pages,
        stride >= 0,
        height >= 0,
        pages == (stride * height + SIMPLE_FB_PAGE_SIZE - 1) / (SIMPLE_FB_PAGE_SIZE as int),
    ensures
        stride > 0,
        0 <= first_row(page, stride) < end_row(page, stride, height) <= height,
{
    let size = stride * height;
    assert(page * 4096 < size);
    assert(stride > 0) by (nonlinear_arith)
        requires
            stride >= 0,
            height >= 0,
            stride * height > 0,
    ;
    let b = page * 4096;
    vstd::arithmetic::div_mod::lemma_fundamental_div_mod(b, stride);
    vstd::arithmetic::div_mod::lemma_div_pos_is_pos(b, stride);
    assert(b / stride < height) by (nonlinear_arith)
        requires
            b < stride * height,
            b == stride * (b / stride) + b % stride,
            0 <= b % stride,
            stride > 0,
    ;
    vstd::arithmetic::div_mod::lemma_div_is_ordered(b, b + 4095, stride);
}

/// A page begins no earlier than the page before it.
pub proof fn lemma_rows_ascend(page: int, stride: int)
    requires
        page > 0,
        stride > 0,
    ensures
        first_row(page - 1, stride) <= first_row(page, stride),
{
    vstd::arithmetic::div_mod::lemma_div_is_ordered((page - 1) * 4096, page * 4096, stride);
}

/// The framebuffer as a device: writes mark the page of their first byte
/// dirty.
pub struct SimpleFb {
    pub fb: Fb,
}

impl SimpleFb {
    pub fn new(fb: Fb) -> (s: SimpleFb)
        ensures
            s.fb == fb,
    {
        SimpleFb { fb }
    }
}

impl IoAccess for SimpleFb {
    open spec fn inv(&self) -> bool {
        self.fb.wf()
    }

    /// A read inside the framebuffer gives its bytes and changes nothing; a
    /// read that passes its end is refused.
    open spec fn read_post(
        pre: Self,
        post: Self,
        offset: int,
        len: int,
        out: Seq<u8>,
        r: Result<usize, String>,
    ) -> bool {
        &&& post == pre
        &&& if offset + len <= pre.fb.pixels().len() {
            r == Ok::<usize, String>(len as usize) && out == pre.fb.pixels().subrange(offset, offset + len)
        } else {
            r is Err
        }
    }

    /// A write inside the framebuffer replaces its bytes there and marks
    /// the page of its first byte dirty; a write that passes its end is
    /// refused and changes nothing.
    open spec fn write_post(pre: Self, post: Self, offset: int, data: Seq<u8>, r: Result<usize, String>) -> bool {
        if offset + data.len() <= pre.fb.pixels().len() {
            &&& r == Ok::<usize, String>(data.len() as usize)
            &&& post.fb.pixels() == overwrite(pre.fb.pixels(), offset, data)
            &&& post.fb.spec_width() == pre.fb.spec_width()
            &&& post.fb.spec_height() == pre.fb.spec_height()
            &&& post.fb.spec_format() == pre.fb.spec_format()
            &&& post.fb.dirty() == if offset / (SIMPLE_FB_PAGE_SIZE as int) < pre.fb.dirty().len() {
                pre.fb.dirty().update(offset / (SIMPLE_FB_PAGE_SIZE as int), true)
            } else {
                pre.fb.dirty()
            }
        } else {
            r is Err && post == pre
        }
    }

    fn read(&mut self, offset: u64, data: &mut Vec<u8>) -> (r: Result<usize, String>) {
        let size = self.fb.fb.len();
        let len = data.len();
        if offset > size as u64 || len > size - offset as usize {
            return Err("out of range!".to_owned());
        }
        crate::region::load(&self.fb.fb, offset as usize, data);
        Ok(len)
    }

    fn write(&mut self, offset: u64, data: &[u8]) -> (r: Result<usize, String>) {
        let size = self.fb.fb.len();
        let len = data.len();
        if offset > size as u64 || len > size - offset as usize {
            return Err("out of range!".to_owned());
        }
        self.fb.set_dirty(offset);
        crate::region::store(&mut self.fb.fb, offset as usize, data);
        Ok(len)
    }
}

} // verus!

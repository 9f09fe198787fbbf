use vstd::prelude::*;
use crate::frame::Frame;

verus! {

/// Luma of a blue, green, red triple with the ITU-R BT.601 weights in 14-bit
/// fixed point (0.114, 0.587 and 0.299), rounded to nearest.
pub open spec fn luma(b: u8, g: u8, r: u8) -> int {
    (1868 * b as int + 9617 * g as int + 4899 * r as int + 8192) / 16384
}

/// Gray level of pixel `p`: its luma where the pixel carries colour, its first
/// sample otherwise.
pub open spec fn gray_level(f: Frame, p: int) -> int {
    if f.channels >= 3 {
        luma(f.sample(p, 0), f.sample(p, 1), f.sample(p, 2))
    } else {
        f.sample(p, 0) as int
    }
}

/// Reduces a frame to one channel of gray levels.
pub fn to_gray(frame: &Frame) -> (r: Frame)
    requires
        frame.wf(),
    ensures
        r.wf(),
        r.width == frame.width && r.height == frame.height && r.channels == 1,
        forall|p: int| 0 <= p < frame.pixel_count() ==> r.data@[p] as int == gray_level(*frame, p),
{
    let c = frame.channels;
    let ghost pixels = frame.pixel_count();
    proof {
        assert(frame.data@.len() == pixels * c);
        assert(pixels >= 0) by (nonlinear_arith)
            requires
                pixels == frame.width as int * frame.height as int,
        ;
        assert(pixels <= pixels * c) by (nonlinear_arith)
            requires
                c >= 1,
                pixels >= 0,
        ;
    }
    let len = frame.data.len();
    let n = len / c;
    proof {
        assert(n == pixels) by (nonlinear_arith)
            requires
                n == (pixels * c) / c as int,
                c >= 1,
        ;
    }
    let mut out: Vec<u8> = Vec::with_capacity(n);
    let mut p: usize = 0;
    while p < n
        invariant
            p <= n,
            n == pixels,
            c == frame.channels,
            frame.wf(),
            frame.data@.len() == pixels * c,
            pixels * c <= usize::MAX,
            out@.len() == p,
            forall|q: int| 0 <= q < p ==> out@[q] as int == gray_level(*frame, q),
        decreases n - p,
    {
        proof {
            assert(p * c + c <= pixels * c) by (nonlinear_arith)
                requires
                    p < pixels,
                    c >= 1,
            ;
        }
        let base = p * c;
        let g: u8 = if c >= 3 {
            let b = frame.data[base] as u64;
            let gr = frame.data[base + 1] as u64;
            let r = frame.data[base + 2] as u64;
            let y = (1868 * b + 9617 * gr + 4899 * r + 8192) / 16384;
            y as u8
        } else {
            frame.data[base]
        };
        out.push(g);
        p += 1;
    }
    Frame { width: frame.width, height: frame.height, channels: 1, data: out }
}

} // verus!

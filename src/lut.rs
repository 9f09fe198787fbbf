use vstd::prelude::*;
use crate::frame::Frame;

verus! {

/// Every sample of `s` replaced by its entry in `table`.
pub open spec fn mapped(s: Seq<u8>, table: Seq<u8>) -> Seq<u8> {
    Seq::new(s.len(), |i: int| table[s[i] as int])
}

/// Replaces every sample of every channel through a 256-entry table.
pub fn apply_table(frame: &Frame, table: &Vec<u8>) -> (r: Frame)
    requires
        frame.wf(),
        table@.len() == 256,
    ensures
        r.wf(),
        r.width == frame.width && r.height == frame.height && r.channels == frame.channels,
        r.data@ == mapped(frame.data@, table@),
{
    let n = frame.data.len();
    let mut out: Vec<u8> = Vec::with_capacity(n);
    let mut i: usize = 0;
    while i < n
        invariant
            i <= n,
            n == frame.data@.len(),
            table@.len() == 256,
            out@ == mapped(frame.data@, table@).take(i as int),
        decreases n - i,
    {
        out.push(table[frame.data[i] as usize]);
        i += 1;
        assert(out@ =~= mapped(frame.data@, table@).take(i as int));
    }
    assert(out@ =~= mapped(frame.data@, table@));
    Frame { width: frame.width, height: frame.height, channels: frame.channels, data: out }
}

} // verus!

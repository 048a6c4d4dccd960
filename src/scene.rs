use vstd::prelude::*;

verus! {

/// Surface time operations: the six phases of the eversion.
#[derive(Debug, Clone, Copy, PartialEq, Eq, Structural)]
pub enum STO {
    Corrugate,
    PushThrough,
    Twist,
    UnPush,
    UnCorrugate,
    BendIn,
}

/// How the control points of a Bezier patch are written: `CG` plainly
/// with fixed precision, `CF` through the significant-digit formatter.
#[derive(Debug, Clone, Copy, PartialEq, Eq, Structural)]
pub enum FormatType {
    CG,
    CF,
}

/// The operation of the `i`-th window of the schedule, in time order.
pub open spec fn window_operation(i: int) -> STO {
    if i == 0 {
        STO::Corrugate
    } else if i == 1 {
        STO::PushThrough
    } else if i == 2 {
        STO::Twist
    } else if i == 3 {
        STO::UnPush
    } else {
        STO::UnCorrugate
    }
}

/// The latest window among the first `k` that has started.
pub open spec fn latest_started(started: Seq<bool>, k: int) -> Option<int>
    decreases k,
{
    if k <= 0 {
        None
    } else if started[k - 1] {
        Some(k - 1)
    } else {
        latest_started(started, k - 1)
    }
}

/// Picks the window that a time falls in. The schedule has five windows in
/// ascending order (corrugate, push through, twist, unpush, uncorrugate);
/// `started[i]` tells whether window `i` is enabled and its start has been
/// reached. The latest such window is the one in progress; its index is
/// returned with its operation, or `None` when no window has started.
pub fn scheduled_operation(started: &[bool; 5]) -> (r: Option<(usize, STO)>)
    ensures
        match latest_started(started@, 5) {
            Some(i) => r == Some((i as usize, window_operation(i))),
            None => r is None,
        },
{
    let mut k: usize = 5;
    while k > 0
        invariant
            k <= 5,
            started@.len() == 5,
            latest_started(started@, 5) == latest_started(started@, k as int),
        decreases k,
    {
        if started[k - 1] {
            let op = if k - 1 == 0 {
                STO::Corrugate
            } else if k - 1 == 1 {
                STO::PushThrough
            } else if k - 1 == 2 {
                STO::Twist
            } else if k - 1 == 3 {
                STO::UnPush
            } else {
                STO::UnCorrugate
            };
            return Some((k - 1, op));
        }
        k = k - 1;
    }
    None
}

/// The grid intervals along one axis for a span-over-step count already
/// rounded to the nearest integer: that count, but never fewer than one,
/// so that a zero span still yields one interval.
pub fn grid_divisions(rounded: i32) -> (r: i32)
    ensures
        r >= 1,
        r == if rounded >= 1 {
            rounded
        } else {
            1
        },
{
    if rounded >= 1 {
        rounded
    } else {
        1
    }
}

/// The line that opens the sampled geometry: Bezier patches or a normal
/// mesh, with the binary marker where the data follows in binary.
pub fn geometry_open(bezier: bool, binary: bool) -> (r: &'static str)
    ensures
        r@ == if bezier {
            if binary {
                "{ STBBP BINARY"@
            } else {
                "{ STBBP"@
            }
        } else if binary {
            "{ NMESH BINARY"@
        } else {
            "{ NMESH"@
        },
{
    if bezier {
        if binary {
            "{ STBBP BINARY"
        } else {
            "{ STBBP"
        }
    } else if binary {
        "{ NMESH BINARY"
    } else {
        "{ NMESH"
    }
}

/// The four bytes of `n` in two's complement, most significant first.
pub open spec fn be_bytes(n: i32) -> Seq<u8> {
    let w = n as u32 as int;
    seq![
        (w / 0x1000000) as u8,
        (w / 0x10000 % 0x100) as u8,
        (w / 0x100 % 0x100) as u8,
        (w % 0x100) as u8,
    ]
}

/// Relies on `i32::to_be_bytes`: the memory representation of the integer
/// in big-endian byte order.
#[verifier::external_body]
fn i32_be_bytes(n: i32) -> (r: [u8; 4])
    ensures
        r@ == be_bytes(n),
{
    n.to_be_bytes()
}

/// The dimension header of a binary mesh: the node counts `nu` then `nv`,
/// each as a big-endian 32-bit integer.
pub fn mesh_header_bytes(nu: i32, nv: i32) -> (r: Vec<u8>)
    ensures
        r@ == be_bytes(nu) + be_bytes(nv),
{
    let a = i32_be_bytes(nu);
    let b = i32_be_bytes(nv);
    let mut out: Vec<u8> = Vec::new();
    out.push(a[0]);
    out.push(a[1]);
    out.push(a[2]);
    out.push(a[3]);
    out.push(b[0]);
    out.push(b[1]);
    out.push(b[2]);
    out.push(b[3]);
    assert(out@ =~= be_bytes(nu) + be_bytes(nv));
    out
}

} // verus!

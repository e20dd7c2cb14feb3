use vstd::prelude::*;

use crate::bus::{
    burst_bracket, burst_frames, lemma_concat_assoc, read_frame, read_ops, rmw, rmw_frames,
    setter_frames, write_frame, BusOp,
};

verus! {

/// A model of a well-behaved device at the far end of the bus: its register
/// file, whether the select line holds it active, and the address and
/// direction it latched from the first byte of the current bracket. The
/// driver's ghost history can be run against this model to state what a
/// sequence of bus actions does to the device.
pub struct DeviceModel {
    /// The register file, indexed by address; 128 entries, one per 7-bit
    /// address.
    pub regs: Seq<u8>,
    /// Whether the select line currently holds the device active.
    pub selected: bool,
    /// The address and read flag latched since the select edge, once the
    /// first byte of the bracket arrived.
    pub latched: Option<(u8, bool)>,
}

/// The register file holds one byte per 7-bit address.
pub open spec fn device_wf(d: DeviceModel) -> bool {
    d.regs.len() == 0x80
}

/// Advances the latched address after a data byte when the auto-increment
/// flag in CTRL2 is set, as the device walks consecutive registers.
pub open spec fn device_advance(d: DeviceModel, a: u8, read: bool) -> DeviceModel {
    if d.regs[0x21] & 0x04 == 0x04 {
        DeviceModel { latched: Option::Some((((a + 1) as u8) & 0x7F, read)), ..d }
    } else {
        d
    }
}

/// One action's effect on the device: select edges reset the latch; the
/// first byte while selected latches address and direction; later bytes
/// store data (in write mode) or just walk the latch (in read mode).
pub open spec fn device_step(d: DeviceModel, op: BusOp) -> DeviceModel {
    match op {
        BusOp::Select => DeviceModel { selected: true, latched: Option::None, ..d },
        BusOp::Deselect => DeviceModel { selected: false, latched: Option::None, ..d },
        BusOp::WriteByte(b) => if !d.selected {
            d
        } else {
            match d.latched {
                Option::None => DeviceModel {
                    latched: Option::Some((b & 0x7F, b & 0x80 == 0x80)),
                    ..d
                },
                Option::Some((a, read)) => if read {
                    device_advance(d, a, read)
                } else {
                    device_advance(
                        DeviceModel { regs: d.regs.update(a as int, b), ..d },
                        a,
                        read,
                    )
                },
            }
        },
        BusOp::ReadByte(_) => if !d.selected {
            d
        } else {
            match d.latched {
                Option::Some((a, read)) => device_advance(d, a, read),
                Option::None => d,
            }
        },
    }
}

/// The device after performing the actions of `ops`, oldest first.
pub open spec fn device_run(d: DeviceModel, ops: Seq<BusOp>) -> DeviceModel
    decreases ops.len(),
{
    if ops.len() == 0 {
        d
    } else {
        device_step(device_run(d, ops.drop_last()), ops.last())
    }
}

/// The byte the device shifts back on a read exchange: the latched
/// register's value while selected in read mode, else a placeholder zero.
pub open spec fn device_output(d: DeviceModel) -> u8 {
    if d.selected {
        match d.latched {
            Option::Some((a, read)) => if read {
                d.regs[a as int]
            } else {
                0
            },
            Option::None => 0,
        }
    } else {
        0
    }
}

/// The recorded read payloads agree with the device model at every point:
/// each `ReadByte` in `ops` carries exactly the byte the model, having run
/// the actions before it, would shift back.
pub open spec fn faithful(d: DeviceModel, ops: Seq<BusOp>) -> bool {
    forall|i: int|
        0 <= i < ops.len() ==> (#[trigger] ops[i] matches BusOp::ReadByte(b) ==> b
            == device_output(device_run(d, ops.take(i))))
}

/// Running a concatenation is running the two halves in turn.
pub proof fn lemma_run_concat(d: DeviceModel, s1: Seq<BusOp>, s2: Seq<BusOp>)
    ensures
        device_run(d, s1 + s2) == device_run(device_run(d, s1), s2),
    decreases s2.len(),
{
    if s2.len() == 0 {
        assert(s1 + s2 =~= s1);
    } else {
        lemma_run_concat(d, s1, s2.drop_last());
        assert((s1 + s2).drop_last() =~= s1 + s2.drop_last());
        assert((s1 + s2).last() == s2.last());
    }
}

/// Faithfulness of a concatenation gives faithfulness of the first half and,
/// from the state the first half leaves, of the second.
pub proof fn lemma_faithful_concat(d: DeviceModel, s1: Seq<BusOp>, s2: Seq<BusOp>)
    requires
        faithful(d, s1 + s2),
    ensures
        faithful(d, s1),
        faithful(device_run(d, s1), s2),
{
    assert forall|i: int| 0 <= i < s1.len() implies (#[trigger] s1[i] matches BusOp::ReadByte(b)
        ==> b == device_output(device_run(d, s1.take(i)))) by {
        assert((s1 + s2)[i] == s1[i]);
        assert((s1 + s2).take(i) =~= s1.take(i));
    }
    assert forall|i: int| 0 <= i < s2.len() implies (#[trigger] s2[i] matches BusOp::ReadByte(b)
        ==> b == device_output(device_run(device_run(d, s1), s2.take(i)))) by {
        let j = s1.len() + i;
        assert((s1 + s2)[j] == s2[i]);
        assert((s1 + s2).take(j) =~= s1 + s2.take(i));
        lemma_run_concat(d, s1, s2.take(i));
    }
}

/// What appending equal prefixes says of the remainders.
pub proof fn lemma_concat_cancel_left(pre: Seq<BusOp>, x: Seq<BusOp>, y: Seq<BusOp>)
    requires
        pre + x == pre + y,
    ensures
        x == y,
{
    assert((pre + x).len() == pre.len() + x.len());
    assert((pre + y).len() == pre.len() + y.len());
    assert((pre + x).len() == (pre + y).len());
    assert(x.len() == y.len());
    assert forall|i: int| 0 <= i < x.len() implies x[i] == y[i] by {
        assert((pre + x)[pre.len() + i] == x[i]);
        assert((pre + y)[pre.len() + i] == y[i]);
    }
    assert(x =~= y);
}

/// A faithful read frame returns the addressed register's current value and
/// leaves the register file untouched and the device deselected.
pub proof fn lemma_read_frame_effect(d: DeviceModel, a: u8, b: u8)
    requires
        device_wf(d),
        a & 0x80 == 0,
    ensures
        device_run(d, read_frame(a, b)).regs == d.regs,
        !device_run(d, read_frame(a, b)).selected,
        device_run(d, read_frame(a, b)).latched is None,
        faithful(d, read_frame(a, b)) ==> b == d.regs[a as int],
{
    let ops = read_frame(a, b);
    let s3 = ops.drop_last();
    let s2 = s3.drop_last();
    let s1 = s2.drop_last();
    let s0 = s1.drop_last();
    assert(a < 0x80 && (a | 0x80) & 0x7F == a && (a | 0x80) & 0x80 == 0x80) by (bit_vector)
        requires
            a & 0x80 == 0,
    ;
    assert(s0.len() == 0);
    assert(device_run(d, s0) == d);
    let d1 = device_step(d, BusOp::Select);
    assert(s1.last() == BusOp::Select);
    assert(device_run(d, s1) == d1);
    let d2 = device_step(d1, BusOp::WriteByte(a | 0x80));
    assert(s2.last() == BusOp::WriteByte(a | 0x80));
    assert(device_run(d, s2) == d2);
    let d3 = device_step(d2, BusOp::ReadByte(b));
    assert(s3.last() == BusOp::ReadByte(b));
    assert(device_run(d, s3) == d3);
    let d4 = device_step(d3, BusOp::Deselect);
    assert(ops.last() == BusOp::Deselect);
    assert(device_run(d, ops) == d4);
    assert(d2.latched == Option::Some((a, true)));
    assert(d3.regs == d.regs && d4.regs == d.regs);
    if faithful(d, ops) {
        assert(ops[2] matches BusOp::ReadByte(bb) ==> bb == device_output(
            device_run(d, ops.take(2)),
        ));
        assert(ops.take(2) =~= s2);
        assert(device_output(d2) == d.regs[a as int]);
    }
}

/// A write frame stores its data byte at the addressed register and leaves
/// every other register untouched and the device deselected.
pub proof fn lemma_write_frame_effect(d: DeviceModel, a: u8, w: u8)
    requires
        device_wf(d),
        a & 0x80 == 0,
    ensures
        device_run(d, write_frame(a, w)).regs == d.regs.update(a as int, w),
        !device_run(d, write_frame(a, w)).selected,
        device_run(d, write_frame(a, w)).latched is None,
        device_wf(device_run(d, write_frame(a, w))),
{
    let ops = write_frame(a, w);
    let s3 = ops.drop_last();
    let s2 = s3.drop_last();
    let s1 = s2.drop_last();
    let s0 = s1.drop_last();
    assert(a < 0x80 && a & 0x7F == a && a & 0x80 != 0x80) by (bit_vector)
        requires
            a & 0x80 == 0,
    ;
    assert(s0.len() == 0);
    assert(device_run(d, s0) == d);
    let d1 = device_step(d, BusOp::Select);
    assert(s1.last() == BusOp::Select);
    assert(device_run(d, s1) == d1);
    let d2 = device_step(d1, BusOp::WriteByte(a));
    assert(s2.last() == BusOp::WriteByte(a));
    assert(device_run(d, s2) == d2);
    let d3 = device_step(d2, BusOp::WriteByte(w));
    assert(s3.last() == BusOp::WriteByte(w));
    assert(device_run(d, s3) == d3);
    let d4 = device_step(d3, BusOp::Deselect);
    assert(ops.last() == BusOp::Deselect);
    assert(device_run(d, ops) == d4);
    assert(d2.latched == Option::Some((a, false)));
    assert(d3.regs == d.regs.update(a as int, w));
    assert(d4.regs == d.regs.update(a as int, w));
}

/// Against a faithful device, one read-modify-write cycle on register `a`
/// reads the register's current value and stores it back with the bits of
/// `clear` cleared and the bits of `set` set, touching no other register.
pub proof fn lemma_rmw_frames_effect(
    d: DeviceModel,
    pre: Seq<BusOp>,
    delta: Seq<BusOp>,
    a: u8,
    clear: u8,
    set: u8,
)
    requires
        device_wf(d),
        a & 0x80 == 0,
        rmw_frames(pre, pre + delta, a, clear, set),
        faithful(d, delta),
    ensures
        device_run(d, delta).regs == d.regs.update(
            a as int,
            rmw(d.regs[a as int], clear, set),
        ),
        !device_run(d, delta).selected,
        device_wf(device_run(d, delta)),
{
    assert(a < 0x80) by (bit_vector)
        requires
            a & 0x80 == 0,
    ;
    let v = choose|v: u8|
        pre + delta == pre + #[trigger] read_frame(a, v) + write_frame(a, rmw(v, clear, set));
    let rf = read_frame(a, v);
    let wf = write_frame(a, rmw(v, clear, set));
    assert(pre + delta == (pre + rf) + wf);
    assert((pre + rf) + wf =~= pre + (rf + wf));
    lemma_concat_cancel_left(pre, delta, rf + wf);
    lemma_faithful_concat(d, rf, wf);
    lemma_read_frame_effect(d, a, v);
    let d1 = device_run(d, rf);
    assert(v == d.regs[a as int]);
    assert(device_wf(d1));
    lemma_write_frame_effect(d1, a, rmw(v, clear, set));
    lemma_run_concat(d, rf, wf);
    assert(device_run(d, delta) == device_run(d1, wf));
}

/// The read-modify-write isolation law, end to end: run against a faithful
/// device, a two-cycle configuration setter's appended history leaves the
/// target register holding its old value with the field's mask cleared and
/// the new bits set — the field holds exactly the new bits and every bit
/// outside the mask is unchanged — and touches no other register.
pub proof fn lemma_setter_frames_effect(
    d: DeviceModel,
    pre: Seq<BusOp>,
    delta: Seq<BusOp>,
    a: u8,
    clear: u8,
    set: u8,
)
    requires
        device_wf(d),
        a & 0x80 == 0,
        set & !clear == 0,
        setter_frames(pre, pre + delta, a, clear, set),
        faithful(d, delta),
    ensures
        device_run(d, delta).regs == d.regs.update(
            a as int,
            rmw(d.regs[a as int], clear, set),
        ),
        device_run(d, delta).regs[a as int] & clear == set,
        device_run(d, delta).regs[a as int] & !clear == d.regs[a as int] & !clear,
        !device_run(d, delta).selected,
        device_wf(device_run(d, delta)),
{
    assert(a < 0x80) by (bit_vector)
        requires
            a & 0x80 == 0,
    ;
    let mid = choose|mid: Seq<BusOp>|
        #[trigger] rmw_frames(pre, mid, a, clear, 0) && rmw_frames(mid, pre + delta, a, 0, set);
    let v1 = choose|v: u8|
        mid == pre + #[trigger] read_frame(a, v) + write_frame(a, rmw(v, clear, 0));
    let c1 = read_frame(a, v1) + write_frame(a, rmw(v1, clear, 0));
    assert(mid =~= pre + c1);
    let v2 = choose|v: u8|
        pre + delta == mid + #[trigger] read_frame(a, v) + write_frame(a, rmw(v, 0, set));
    let c2 = read_frame(a, v2) + write_frame(a, rmw(v2, 0, set));
    assert(pre + delta =~= mid + c2);
    assert(pre + delta =~= pre + (c1 + c2));
    lemma_concat_cancel_left(pre, delta, c1 + c2);
    lemma_faithful_concat(d, c1, c2);
    lemma_rmw_frames_effect(d, pre, c1, a, clear, 0);
    let d1 = device_run(d, c1);
    lemma_rmw_frames_effect(d1, mid, c2, a, 0, set);
    lemma_run_concat(d, c1, c2);
    assert(device_run(d, delta) == device_run(d1, c2));
    let v0 = d.regs[a as int];
    assert(d1.regs[a as int] == rmw(v0, clear, 0));
    crate::bus::lemma_setter_two_step(v0, clear, set);
    assert(device_run(d1, c2).regs =~= d.regs.update(a as int, rmw(v0, clear, set)));
    crate::bus::lemma_rmw_isolation(v0, clear, set);
}

/// Reading byte after byte while selected in read mode with the
/// auto-increment flag on walks consecutive registers: the register file is
/// untouched, the latch advances once per byte, and faithful payloads are
/// exactly the registers at the consecutive addresses.
pub proof fn lemma_read_run(d: DeviceModel, a: u8, bs: Seq<u8>)
    requires
        device_wf(d),
        d.selected,
        d.latched == Option::Some((a, true)),
        d.regs[0x21] & 0x04 == 0x04,
        a + bs.len() < 0x80,
    ensures
        device_run(d, read_ops(bs)).regs == d.regs,
        device_run(d, read_ops(bs)).selected,
        device_run(d, read_ops(bs)).latched == Option::Some((((a + bs.len()) as u8), true)),
        faithful(d, read_ops(bs)) ==> forall|i: int|
            0 <= i < bs.len() ==> bs[i] == d.regs[a + i],
    decreases bs.len(),
{
    let ops = read_ops(bs);
    assert(ops.len() == bs.len());
    if bs.len() == 0 {
        assert(device_run(d, ops) == d);
        assert((a + 0) as u8 == a);
    } else {
        let bs0 = bs.drop_last();
        let ops0 = read_ops(bs0);
        assert(ops0 =~= ops.drop_last());
        lemma_read_run(d, a, bs0);
        let dk = device_run(d, ops0);
        assert(ops.last() == BusOp::ReadByte(bs.last()));
        assert(device_run(d, ops) == device_step(dk, BusOp::ReadByte(bs.last())));
        let k = bs0.len();
        let ak = (a + k) as u8;
        assert((((ak + 1) as u8) & 0x7F) == (ak + 1) as u8) by (bit_vector)
            requires
                ak < 0x7F,
        ;
        assert(device_run(d, ops).latched == Option::Some((((a + bs.len()) as u8), true)));
        if faithful(d, ops) {
            assert forall|i: int| 0 <= i < ops0.len() implies (#[trigger] ops0[i] matches
                BusOp::ReadByte(b) ==> b == device_output(device_run(d, ops0.take(i)))) by {
                assert(ops[i] == ops0[i]);
                assert(ops.take(i) =~= ops0.take(i));
            }
            assert(ops[ops.len() - 1] matches BusOp::ReadByte(b) ==> b == device_output(
                device_run(d, ops.take(ops.len() - 1)),
            ));
            assert(ops.take(ops.len() - 1) =~= ops0);
            assert(device_output(dk) == d.regs[a + k]);
            assert(bs.last() == d.regs[a + k]);
            assert forall|i: int| 0 <= i < bs.len() implies bs[i] == d.regs[a + i] by {
                if i < bs.len() - 1 {
                    assert(bs0[i] == bs[i]);
                }
            }
        }
    }
}

/// One burst bracket run with the auto-increment flag on: the register file
/// is untouched, the device ends deselected, and faithful payloads are
/// exactly the consecutive registers starting at the address.
pub proof fn lemma_burst_bracket_effect(d: DeviceModel, a: u8, bs: Seq<u8>)
    requires
        device_wf(d),
        a & 0x80 == 0,
        d.regs[0x21] & 0x04 == 0x04,
        a + bs.len() < 0x80,
    ensures
        device_run(d, burst_bracket(a, bs)).regs == d.regs,
        !device_run(d, burst_bracket(a, bs)).selected,
        faithful(d, burst_bracket(a, bs)) ==> forall|i: int|
            0 <= i < bs.len() ==> bs[i] == d.regs[a + i],
{
    let ops = burst_bracket(a, bs);
    let head = seq![BusOp::Select, BusOp::WriteByte(a | 0x80)];
    let tail = seq![BusOp::Deselect];
    assert(ops == (head + read_ops(bs)) + tail);
    assert(a < 0x80 && (a | 0x80) & 0x7F == a && (a | 0x80) & 0x80 == 0x80) by (bit_vector)
        requires
            a & 0x80 == 0,
    ;
    let h1 = head.drop_last();
    assert(h1.drop_last().len() == 0);
    assert(device_run(d, h1.drop_last()) == d);
    let d1 = device_step(d, BusOp::Select);
    assert(h1.last() == BusOp::Select);
    assert(device_run(d, h1) == d1);
    let d2 = device_step(d1, BusOp::WriteByte(a | 0x80));
    assert(head.last() == BusOp::WriteByte(a | 0x80));
    assert(device_run(d, head) == d2);
    assert(d2.selected && d2.latched == Option::Some((a, true)) && d2.regs == d.regs);
    lemma_run_concat(d, head, read_ops(bs));
    lemma_read_run(d2, a, bs);
    let d3 = device_run(d2, read_ops(bs));
    lemma_run_concat(d, head + read_ops(bs), tail);
    assert(tail.drop_last().len() == 0);
    assert(device_run(d3, tail.drop_last()) == d3);
    assert(tail.last() == BusOp::Deselect);
    assert(device_run(d3, tail) == device_step(d3, BusOp::Deselect));
    assert(device_run(d, ops).regs == d.regs);
    assert(!device_run(d, ops).selected);
    if faithful(d, ops) {
        lemma_faithful_concat(d, head + read_ops(bs), tail);
        lemma_faithful_concat(d, head, read_ops(bs));
        assert(faithful(d2, read_ops(bs)));
    }
}

/// A faithful burst read observes the registers themselves: with the
/// flag-setting cycle, the bracket, and the flag-clearing cycle run against
/// a faithful device, the bytes are the consecutive registers' contents as
/// they stood once the flag was set, the only register changed overall is
/// the flag register CTRL2, and the flag ends cleared again.
#[verifier::rlimit(100)]
pub proof fn lemma_burst_frames_effect(
    d: DeviceModel,
    pre: Seq<BusOp>,
    delta: Seq<BusOp>,
    a: u8,
    bs: Seq<u8>,
)
    requires
        device_wf(d),
        a & 0x80 == 0,
        a + bs.len() < 0x80,
        burst_frames(pre, pre + delta, 0x21, 0x04, a, bs),
        faithful(d, delta),
    ensures
        forall|i: int|
            0 <= i < bs.len() ==> bs[i] == d.regs.update(
                0x21,
                rmw(d.regs[0x21], 0, 0x04),
            )[a + i],
        device_run(d, delta).regs == d.regs.update(
            0x21,
            rmw(rmw(d.regs[0x21], 0, 0x04), 0x04, 0),
        ),
        !device_run(d, delta).selected,
        device_wf(device_run(d, delta)),
{
    assert(0x21u8 & 0x80 == 0) by (bit_vector);
    let brk = burst_bracket(a, bs);
    let (mid1, mid2) = choose|mid1: Seq<BusOp>, mid2: Seq<BusOp>|
        #![trigger rmw_frames(pre, mid1, 0x21, 0, 0x04), rmw_frames(mid2, pre + delta, 0x21, 0x04, 0)]
        {
            &&& rmw_frames(pre, mid1, 0x21, 0, 0x04)
            &&& mid2 == mid1 + burst_bracket(a, bs)
            &&& rmw_frames(mid2, pre + delta, 0x21, 0x04, 0)
        };
    assert(rmw_frames(pre, mid1, 0x21, 0, 0x04) && mid2 == mid1 + brk && rmw_frames(
        mid2,
        pre + delta,
        0x21,
        0x04,
        0,
    ));
    let v1 = choose|v: u8|
        mid1 == pre + #[trigger] read_frame(0x21, v) + write_frame(0x21, rmw(v, 0, 0x04));
    let rf1 = read_frame(0x21, v1);
    let wf1 = write_frame(0x21, rmw(v1, 0, 0x04));
    let c1 = rf1 + wf1;
    lemma_concat_assoc(pre, rf1, wf1);
    assert(mid1 == pre + c1);
    let v2 = choose|v: u8|
        pre + delta == mid2 + #[trigger] read_frame(0x21, v) + write_frame(0x21, rmw(v, 0x04, 0));
    let rf2 = read_frame(0x21, v2);
    let wf2 = write_frame(0x21, rmw(v2, 0x04, 0));
    let c2 = rf2 + wf2;
    lemma_concat_assoc(mid2, rf2, wf2);
    assert(pre + delta == mid2 + c2);
    lemma_concat_assoc(pre, c1, brk);
    assert(mid2 == pre + (c1 + brk));
    lemma_concat_assoc(pre, c1 + brk, c2);
    assert(pre + delta == pre + ((c1 + brk) + c2));
    lemma_concat_cancel_left(pre, delta, (c1 + brk) + c2);
    lemma_faithful_concat(d, c1 + brk, c2);
    lemma_faithful_concat(d, c1, brk);
    lemma_rmw_frames_effect(d, pre, c1, 0x21, 0, 0x04);
    let d1 = device_run(d, c1);
    let v0 = d.regs[0x21];
    assert(d1.regs == d.regs.update(0x21, rmw(v0, 0, 0x04)));
    assert(rmw(v0, 0, 0x04) & 0x04 == 0x04) by (bit_vector);
    lemma_burst_bracket_effect(d1, a, bs);
    let d2 = device_run(d1, brk);
    assert(d2.regs == d1.regs && !d2.selected);
    lemma_run_concat(d, c1, brk);
    assert(d2 == device_run(d, c1 + brk));
    lemma_rmw_frames_effect(d2, mid2, c2, 0x21, 0x04, 0);
    let d3 = device_run(d2, c2);
    lemma_run_concat(d, c1 + brk, c2);
    assert(device_run(d, delta) == d3);
    assert(d3.regs =~= d.regs.update(0x21, rmw(rmw(v0, 0, 0x04), 0x04, 0)));
}

/// Idempotence, end to end: against a faithful device, running the same
/// setter's history twice in a row leaves the register file exactly where
/// running it once left it.
pub proof fn lemma_setter_idempotent_effect(
    d: DeviceModel,
    pre1: Seq<BusOp>,
    delta1: Seq<BusOp>,
    pre2: Seq<BusOp>,
    delta2: Seq<BusOp>,
    a: u8,
    clear: u8,
    set: u8,
)
    requires
        device_wf(d),
        a & 0x80 == 0,
        set & !clear == 0,
        setter_frames(pre1, pre1 + delta1, a, clear, set),
        setter_frames(pre2, pre2 + delta2, a, clear, set),
        faithful(d, delta1),
        faithful(device_run(d, delta1), delta2),
    ensures
        device_run(device_run(d, delta1), delta2).regs == device_run(d, delta1).regs,
{
    assert(a < 0x80) by (bit_vector)
        requires
            a & 0x80 == 0,
    ;
    lemma_setter_frames_effect(d, pre1, delta1, a, clear, set);
    let d1 = device_run(d, delta1);
    lemma_setter_frames_effect(d1, pre2, delta2, a, clear, set);
    let v0 = d.regs[a as int];
    assert(d1.regs[a as int] == rmw(v0, clear, set));
    crate::bus::lemma_rmw_idempotent(v0, clear, set);
    assert(device_run(d1, delta2).regs =~= d1.regs);
}

/// Reading the register back immediately after the setter observes exactly
/// the setter's result: the read frame that follows a faithful setter
/// history returns the read-modify-written byte.
pub proof fn lemma_setter_then_readback(
    d: DeviceModel,
    pre: Seq<BusOp>,
    delta: Seq<BusOp>,
    a: u8,
    clear: u8,
    set: u8,
    b: u8,
)
    requires
        device_wf(d),
        a & 0x80 == 0,
        set & !clear == 0,
        setter_frames(pre, pre + delta, a, clear, set),
        faithful(d, delta + read_frame(a, b)),
    ensures
        b == rmw(d.regs[a as int], clear, set),
        b & clear == set,
        b & !clear == d.regs[a as int] & !clear,
{
    assert(a < 0x80) by (bit_vector)
        requires
            a & 0x80 == 0,
    ;
    lemma_faithful_concat(d, delta, read_frame(a, b));
    lemma_setter_frames_effect(d, pre, delta, a, clear, set);
    let d1 = device_run(d, delta);
    lemma_read_frame_effect(d1, a, b);
}

} // verus!

use vstd::prelude::*;

verus! {

/// One observable action at the device's pins: an edge on the chip-select
/// line, or one full-duplex byte exchange on the bus. A handle records every
/// action it performs in a ghost history, and every contract of the driver is
/// stated over that history.
pub enum BusOp {
    /// The select line driven to its active (low) level.
    Select,
    /// The select line driven back to its inactive (high) level.
    Deselect,
    /// One byte shifted out to the device; the byte shifted back is discarded.
    WriteByte(u8),
    /// One placeholder byte shifted out; the payload is the byte the device
    /// shifted back.
    ReadByte(u8),
}

/// The raw byte-exchange capability of the bus: shift one byte out while the
/// device shifts one byte back, in a single full-duplex step. Implementors
/// wrap the platform's bus peripheral; the driver assumes nothing about the
/// byte that comes back or about when the exchange fails.
pub trait SpiBus {
    /// The transport's own error.
    type BusError;

    /// Exchanges one byte with the device while it is selected.
    fn exchange(&mut self, byte: u8) -> Result<u8, Self::BusError>;
}

/// The digital-output capability for the chip-select line. Implementors wrap
/// the platform's output pin; the driver assumes nothing about when a drive
/// fails.
pub trait SelectPin {
    /// The pin's own error.
    type PinError;

    /// Drives the line to its inactive (high) level.
    fn set_high(&mut self) -> Result<(), Self::PinError>;
    /// Drives the line to its active (low) level.
    fn set_low(&mut self) -> Result<(), Self::PinError>;
}

/// The read-modify-write update: clear the bits of `clear`, then set the bits
/// of `set`, leaving every other bit of `v` as it was.
pub open spec fn rmw(v: u8, clear: u8, set: u8) -> u8 {
    (v & !clear) | set
}

/// The actions of one framed single-register read that returned `data`:
/// select, the address with the read flag forced on, one byte in, deselect.
pub open spec fn read_frame(a: u8, data: u8) -> Seq<BusOp> {
    seq![
        BusOp::Select,
        BusOp::WriteByte(a | 0x80),
        BusOp::ReadByte(data),
        BusOp::Deselect,
    ]
}

/// The actions of one framed single-register write of `data`: select, the
/// address with the top bit left clear, the data byte, deselect.
pub open spec fn write_frame(a: u8, data: u8) -> Seq<BusOp> {
    seq![
        BusOp::Select,
        BusOp::WriteByte(a),
        BusOp::WriteByte(data),
        BusOp::Deselect,
    ]
}

/// The actions of a single-register read that was cut short before the
/// deselect: select, the address with the read flag forced on, one byte in.
pub open spec fn read_body(a: u8, b: u8) -> Seq<BusOp> {
    seq![BusOp::Select, BusOp::WriteByte(a | 0x80), BusOp::ReadByte(b)]
}

/// The actions of reading the bytes `bs` back-to-back, in order.
pub open spec fn read_ops(bs: Seq<u8>) -> Seq<BusOp> {
    bs.map_values(|b: u8| BusOp::ReadByte(b))
}

/// The history a successful read-modify-write cycle on register `a` appends
/// to `pre`: one read frame returning some byte `v`, then one write frame
/// storing `rmw(v, clear, set)`.
pub open spec fn rmw_frames(pre: Seq<BusOp>, post: Seq<BusOp>, a: u8, clear: u8, set: u8) -> bool {
    exists|v: u8| post == pre + #[trigger] read_frame(a, v) + write_frame(a, rmw(v, clear, set))
}

/// The history a successful two-cycle setter on register `a` appends to
/// `pre`: one read-modify-write cycle that clears the field's mask, then one
/// that sets the new code.
pub open spec fn setter_frames(pre: Seq<BusOp>, post: Seq<BusOp>, a: u8, clear: u8, set: u8) -> bool {
    exists|mid: Seq<BusOp>|
        #[trigger] rmw_frames(pre, mid, a, clear, 0) && rmw_frames(mid, post, a, 0, set)
}

/// The actions of one burst bracket reading the bytes `bs` starting at
/// register `a`: select, the address with the read flag forced on, every
/// byte of `bs` back to back, deselect.
pub open spec fn burst_bracket(a: u8, bs: Seq<u8>) -> Seq<BusOp> {
    seq![BusOp::Select, BusOp::WriteByte(a | 0x80)] + read_ops(bs) + seq![BusOp::Deselect]
}

/// The history a successful burst read of the bytes `bs` starting at register
/// `a` appends to `pre`: a read-modify-write cycle on control register `ctrl`
/// setting the auto-increment flag `flag`, then one select/deselect bracket
/// holding the address (read flag forced on) and every byte of `bs`, then a
/// read-modify-write cycle clearing `flag` again.
pub open spec fn burst_frames(
    pre: Seq<BusOp>,
    post: Seq<BusOp>,
    ctrl: u8,
    flag: u8,
    a: u8,
    bs: Seq<u8>,
) -> bool {
    exists|mid1: Seq<BusOp>, mid2: Seq<BusOp>|
        #![trigger rmw_frames(pre, mid1, ctrl, 0, flag), rmw_frames(mid2, post, ctrl, flag, 0)]
        {
            &&& rmw_frames(pre, mid1, ctrl, 0, flag)
            &&& mid2 == mid1 + burst_bracket(a, bs)
            &&& rmw_frames(mid2, post, ctrl, flag, 0)
        }
}

/// After a transport failure the operation has still released the select
/// line: the history grew, and the last action it records is the deselect.
pub open spec fn released_after(pre: Seq<BusOp>, post: Seq<BusOp>) -> bool {
    post.len() > pre.len() && post.last() == BusOp::Deselect
}

/// A history only ever grows: whatever a concatenation appends, the old
/// history stays a prefix.
pub proof fn lemma_prefix_concat(pre: Seq<BusOp>, delta: Seq<BusOp>)
    ensures
        pre.is_prefix_of(pre + delta),
{
    assert(pre =~= (pre + delta).subrange(0, pre.len() as int));
}

/// Concatenation of histories is associative.
pub proof fn lemma_concat_assoc(a: Seq<BusOp>, b: Seq<BusOp>, c: Seq<BusOp>)
    ensures
        (a + b) + c == a + (b + c),
{
    assert((a + b) + c =~= a + (b + c));
}

/// A history is a prefix of itself.
pub proof fn lemma_prefix_refl(a: Seq<BusOp>)
    ensures
        a.is_prefix_of(a),
{
    assert(a =~= a.subrange(0, a.len() as int));
}

/// A history that extends another is that history plus what was appended,
/// which connects an operation's old/new histories to the appended actions
/// its contract describes.
pub proof fn lemma_prefix_skip(pre: Seq<BusOp>, post: Seq<BusOp>)
    requires
        pre.is_prefix_of(post),
    ensures
        post == pre + post.skip(pre.len() as int),
{
    assert(post =~= pre + post.skip(pre.len() as int));
}

/// Being a prefix is transitive.
pub proof fn lemma_prefix_trans(a: Seq<BusOp>, b: Seq<BusOp>, c: Seq<BusOp>)
    requires
        a.is_prefix_of(b),
        b.is_prefix_of(c),
    ensures
        a.is_prefix_of(c),
{
    assert(a =~= c.subrange(0, a.len() as int));
}

/// Read-modify-write isolation: updating a field whose new bits lie inside
/// the cleared mask leaves every bit outside the mask exactly as it was, and
/// leaves the field holding exactly the new bits. This is why configuration
/// setters that share a register cannot clobber their siblings.
pub proof fn lemma_rmw_isolation(v: u8, clear: u8, set: u8)
    requires
        set & !clear == 0,
    ensures
        rmw(v, clear, set) & !clear == v & !clear,
        rmw(v, clear, set) & clear == set,
{
    assert(((v & !clear) | set) & !clear == v & !clear && ((v & !clear) | set) & clear == set) by (bit_vector)
        requires
            set & !clear == 0,
    ;
}

/// Read-modify-write idempotence: applying the same update twice leaves the
/// register exactly as applying it once does.
pub proof fn lemma_rmw_idempotent(v: u8, clear: u8, set: u8)
    ensures
        rmw(rmw(v, clear, set), clear, set) == rmw(v, clear, set),
{
    assert(((((v & !clear) | set) & !clear) | set) == ((v & !clear) | set)) by (bit_vector);
}

/// Setting bits with no prior clear is the same read-modify-write as
/// clearing exactly those bits first: the OR absorbs the cleared bits.
pub proof fn lemma_set_only_rmw(v: u8, set: u8)
    ensures
        rmw(v, 0, set) == rmw(v, set, set),
{
    assert((v & !0) | set == (v & !set) | set) by (bit_vector);
}

/// A setter's two cycles — first clear the mask, then set the new bits —
/// amount to one read-modify-write of the register, provided the device hands
/// the second read exactly what the first cycle stored.
pub proof fn lemma_setter_two_step(v: u8, clear: u8, set: u8)
    ensures
        rmw(rmw(v, clear, 0), 0, set) == rmw(v, clear, set),
{
    assert((((v & !clear) | 0) & !0) | set == (v & !clear) | set) by (bit_vector);
}

} // verus!

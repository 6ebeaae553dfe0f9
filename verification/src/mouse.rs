//! PS/2 mouse input: packet decoding into a clamped cursor position and an
//! event queue.
use vstd::prelude::*;

use crate::counter::{bump, bumped};
use crate::framebuffer::{HEIGHT, WIDTH};
use crossbeam_queue::ArrayQueue;

verus! {

pub const MOUSE_QUEUE_SIZE: usize = 64;

/// IRQ vector of the mouse: IRQ 12 on the secondary PIC (offset 40).
pub const MOUSE_IRQ: u8 = 44;

#[derive(Debug, Clone, Copy, PartialEq, Eq, Structural)]
pub struct MouseEvent {
    pub x: i16,
    pub y: i16,
    pub buttons: u8,
}

#[verifier::external_type_specification]
#[verifier::external_body]
#[verifier::reject_recursive_types(T)]
pub struct ExArrayQueue<T>(ArrayQueue<T>);

/// The events queued in a mouse queue, oldest first.
pub uninterp spec fn queued_events(q: ArrayQueue<MouseEvent>) -> Seq<MouseEvent>;

/// The capacity a mouse queue was created with.
pub uninterp spec fn queue_capacity(q: ArrayQueue<MouseEvent>) -> nat;

/// `ArrayQueue::new`: an empty queue of capacity `cap` (it panics on a zero
/// capacity, which `requires` leaves out, as it does capacities too large to
/// allocate).
#[verifier::external_body]
fn new_event_queue(cap: usize) -> (r: ArrayQueue<MouseEvent>)
    requires
        0 < cap <= 4096,
    ensures
        queued_events(r) == Seq::<MouseEvent>::empty(),
        queue_capacity(r) == cap,
{
    ArrayQueue::new(cap)
}

/// `ArrayQueue::push_mut` on the state's queue: appends `ev` and reports
/// `true` when the queue holds fewer than its capacity, else reports `false`
/// and leaves the queue unchanged; nothing else in the state changes.
#[verifier::external_body]
fn push_event(st: &mut MouseState, ev: MouseEvent) -> (r: bool)
    ensures
        r == (queued_events(old(st).queue).len() < queue_capacity(old(st).queue)),
        r ==> queued_events(final(st).queue) == queued_events(old(st).queue).push(ev),
        !r ==> queued_events(final(st).queue) == queued_events(old(st).queue),
        queue_capacity(final(st).queue) == queue_capacity(old(st).queue),
        final(st).initialized == old(st).initialized,
        final(st).events == old(st).events,
        final(st).cursor_x == old(st).cursor_x,
        final(st).cursor_y == old(st).cursor_y,
        final(st).packet == old(st).packet,
        final(st).packet_index == old(st).packet_index,
{
    st.queue.push_mut(ev).is_ok()
}

/// `ArrayQueue::pop_mut` on the state's queue: removes and returns the
/// oldest event, `None` on an empty queue; nothing else in the state
/// changes.
#[verifier::external_body]
fn pop_event(st: &mut MouseState) -> (r: Option<MouseEvent>)
    ensures
        queue_capacity(final(st).queue) == queue_capacity(old(st).queue),
        queued_events(old(st).queue).len() == 0 ==> r is None && queued_events(final(st).queue) == queued_events(old(st).queue),
        queued_events(old(st).queue).len() > 0 ==> r == Some(queued_events(old(st).queue)[0]) && queued_events(final(st).queue)
            == queued_events(old(st).queue).drop_first(),
        final(st).initialized == old(st).initialized,
        final(st).events == old(st).events,
        final(st).cursor_x == old(st).cursor_x,
        final(st).cursor_y == old(st).cursor_y,
        final(st).packet == old(st).packet,
        final(st).packet_index == old(st).packet_index,
{
    st.queue.pop_mut()
}

/// Mouse state: controller initialised, event counter, cursor, event queue
/// and the packet being assembled.
pub struct MouseState {
    pub initialized: bool,
    pub events: u64,
    pub cursor_x: u64,
    pub cursor_y: u64,
    pub queue: ArrayQueue<MouseEvent>,
    pub packet: Vec<u8>,
    pub packet_index: usize,
}

impl MouseState {
    pub open spec fn wf(&self) -> bool {
        &&& self.packet@.len() == 3
        &&& self.packet_index < 3
        &&& self.cursor_x <= 512
        &&& self.cursor_y <= 384
        &&& queue_capacity(self.queue) == MOUSE_QUEUE_SIZE
    }

    pub fn new() -> (r: Self)
        ensures
            r.wf(),
            !r.initialized,
            r.events == 0,
            r.cursor_x == 512 && r.cursor_y == 384,
            queued_events(r.queue) == Seq::<MouseEvent>::empty(),
            r.packet_index == 0,
    {
        let mut packet: Vec<u8> = Vec::new();
        packet.push(0);
        packet.push(0);
        packet.push(0);
        MouseState {
            initialized: false,
            events: 0,
            cursor_x: 512,
            cursor_y: 384,
            queue: new_event_queue(MOUSE_QUEUE_SIZE),
            packet,
            packet_index: 0,
        }
    }
}

pub fn cursor_position(st: &MouseState) -> (r: (i16, i16))
    requires
        st.wf(),
    ensures
        r.0 == st.cursor_x && r.1 == st.cursor_y,
{
    (st.cursor_x as i16, st.cursor_y as i16)
}

pub fn event_count(st: &MouseState) -> (r: u64)
    ensures
        r == st.events,
{
    st.events
}

pub fn initialized(st: &MouseState) -> (r: bool)
    ensures
        r == st.initialized,
{
    st.initialized
}

/// Record that the auxiliary port and IRQ 12 are enabled.
pub fn mark_initialized(st: &mut MouseState)
    ensures
        final(st).initialized,
        final(st).events == old(st).events,
        final(st).cursor_x == old(st).cursor_x && final(st).cursor_y == old(st).cursor_y,
        final(st).queue == old(st).queue,
        final(st).packet == old(st).packet && final(st).packet_index == old(st).packet_index,
{
    st.initialized = true;
}

pub open spec fn clamp(v: int, lo: int, hi: int) -> int {
    if v < lo {
        lo
    } else if v > hi {
        hi
    } else {
        v
    }
}

fn clamp_i16(v: i16, lo: i16, hi: i16) -> (r: i16)
    requires
        lo <= hi,
    ensures
        r == clamp(v as int, lo as int, hi as int),
{
    if v < lo {
        lo
    } else if v > hi {
        hi
    } else {
        v
    }
}

/// Queue an event at (`x`, `y`) and move the cursor there, clamped to the
/// screen (the event keeps the unclamped position).
pub fn inject_event(st: &mut MouseState, x: i16, y: i16, buttons: u8)
    requires
        old(st).wf(),
    ensures
        final(st).wf(),
        final(st).cursor_x == clamp(x as int, 0, WIDTH - 1),
        final(st).cursor_y == clamp(y as int, 0, HEIGHT - 1),
        final(st).events == bumped(old(st).events),
        queued_events(old(st).queue).len() < MOUSE_QUEUE_SIZE ==> queued_events(final(st).queue)
            == queued_events(old(st).queue).push(MouseEvent { x, y, buttons }),
        queued_events(old(st).queue).len() >= MOUSE_QUEUE_SIZE ==> queued_events(final(st).queue)
            == queued_events(old(st).queue),
        final(st).initialized == old(st).initialized,
{
    st.cursor_x = clamp_i16(x, 0, (WIDTH - 1) as i16) as u64;
    st.cursor_y = clamp_i16(y, 0, (HEIGHT - 1) as i16) as u64;
    let _ = push_event(st, MouseEvent { x, y, buttons });
    st.events = bump(st.events);
}

/// Take the oldest queued event.
pub fn poll_event(st: &mut MouseState) -> (r: Option<MouseEvent>)
    requires
        old(st).wf(),
    ensures
        final(st).wf(),
        queued_events(old(st).queue).len() == 0 ==> r is None,
        queued_events(old(st).queue).len() > 0 ==> r == Some(queued_events(old(st).queue)[0])
            && queued_events(final(st).queue) == queued_events(old(st).queue).drop_first(),
        final(st).events == old(st).events,
        final(st).cursor_x == old(st).cursor_x && final(st).cursor_y == old(st).cursor_y,
        final(st).initialized == old(st).initialized,
{
    pop_event(st)
}

pub fn mouse_irq_vector() -> (r: u8)
    ensures
        r == MOUSE_IRQ,
{
    MOUSE_IRQ
}

/// The signed movement of a packet axis: the delta byte, minus 256 when
/// the axis sign bit of the flags is set.
pub open spec fn axis_delta(delta: u8, negative: bool) -> int {
    delta as int - if negative { 256int } else { 0int }
}

/// Feed one byte of a three-byte PS/2 packet; the third byte completes the
/// packet, which moves the cursor (clamped to the screen) and queues an
/// event with the button bits.
pub fn push_packet(st: &mut MouseState, byte: u8)
    requires
        old(st).wf(),
    ensures
        final(st).wf(),
        final(st).initialized == old(st).initialized,
        old(st).packet_index < 2 ==> final(st).packet_index == old(st).packet_index + 1
            && final(st).packet@ == old(st).packet@.update(old(st).packet_index as int, byte)
            && final(st).events == old(st).events && final(st).cursor_x == old(st).cursor_x
            && final(st).cursor_y == old(st).cursor_y && queued_events(final(st).queue) == queued_events(old(st).queue),
        old(st).packet_index == 2 ==> ({
            let flags = old(st).packet@[0];
            let cx = clamp(old(st).cursor_x + axis_delta(old(st).packet@[1], flags & 0x10 != 0), 0, WIDTH - 1);
            let cy = clamp(old(st).cursor_y + axis_delta(byte, flags & 0x20 != 0), 0, HEIGHT - 1);
            &&& final(st).packet_index == 0
            &&& final(st).cursor_x == cx
            &&& final(st).cursor_y == cy
            &&& final(st).events == bumped(old(st).events)
            &&& queued_events(old(st).queue).len() < MOUSE_QUEUE_SIZE ==> queued_events(final(st).queue)
                == queued_events(old(st).queue).push(MouseEvent { x: cx as i16, y: cy as i16, buttons: flags & 0x07 })
        }),
{
    let idx = st.packet_index;
    st.packet.set(idx, byte);
    if idx + 1 < 3 {
        st.packet_index = idx + 1;
        return;
    }
    st.packet_index = 0;
    let flags = st.packet[0];
    let dx = st.packet[1] as i16;
    let dy = st.packet[2] as i16;
    let x_sign: i16 = if flags & 0x10 != 0 {
        -256
    } else {
        0
    };
    let y_sign: i16 = if flags & 0x20 != 0 {
        -256
    } else {
        0
    };
    let x_delta = dx + x_sign;
    let y_delta = dy + y_sign;
    let (cx0, cy0) = cursor_position(st);
    let cx = clamp_i16(cx0 + x_delta, 0, (WIDTH - 1) as i16);
    let cy = clamp_i16(cy0 + y_delta, 0, (HEIGHT - 1) as i16);
    st.cursor_x = cx as u64;
    st.cursor_y = cy as u64;
    let _ = push_event(st, MouseEvent { x: cx, y: cy, buttons: flags & 0x07 });
    st.events = bump(st.events);
}

/// Mouse event FIFO: an event queued behind `q` comes out after every
/// event of `q`, and a poll of a non-empty queue returns its oldest event
/// and leaves the later ones, the new one last.
pub proof fn lemma_mouse_queue_fifo(q: Seq<MouseEvent>, e: MouseEvent)
    ensures
        q.push(e)[q.len() as int] == e,
        q.len() > 0 ==> q.push(e)[0] == q[0] && q.push(e).drop_first() == q.drop_first().push(e),
{
    if q.len() > 0 {
        assert(q.push(e).drop_first() =~= q.drop_first().push(e));
    }
}

/// Mouse smoke (after the controller is initialised): an injected event is
/// counted and can be polled back.
pub fn smoke_mouse(st: &mut MouseState) -> (r: bool)
    requires
        old(st).wf(),
    ensures
        final(st).wf(),
        old(st).initialized && old(st).events < u64::MAX && queued_events(old(st).queue).len() < MOUSE_QUEUE_SIZE ==> r,
        !old(st).initialized ==> !r,
{
    if !initialized(st) {
        return false;
    }
    inject_event(st, 300, 240, 0x01);
    event_count(st) > 0 && poll_event(st).is_some()
}

} // verus!

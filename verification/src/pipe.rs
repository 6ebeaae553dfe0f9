//! Anonymous pipes: a small table of fixed-capacity byte buffers, named to
//! descriptors as `/@pipe/<id>/r` and `/@pipe/<id>/w`.
use vstd::prelude::*;

use crate::bytes::{all_digits, bytes_ends_with, bytes_starts_with, decimal, decimal_bytes, is_digit, lemma_decimal_parses, parse_u32, parse_u32_spec, unsigned_body};
use crate::counter::{advance, advanced, bump, bumped};
use crate::fd_table::{
    acting_pid, fd_entry, has_free_fd, open_pipe_for_process, pipe_path_prefix, read_fd,
    starts_with, write_fd, FdState, MAX_FDS,
};
use crate::process::{ProcessId, ProcessTable};
use crate::security::{Credentials, SecurityState};
use crate::storage::FileStore;

verus! {

pub const PIPE_CAPACITY: usize = 64;
pub const MAX_PIPES: usize = 4;

/// A pipe buffer: `data` always holds `PIPE_CAPACITY` bytes, of which the
/// first `len` are queued.
pub struct PipeBuffer {
    pub data: Vec<u8>,
    pub len: usize,
}

/// The pipe table and its counters.
pub struct PipeTable {
    pub pipes: Vec<PipeBuffer>,
    pub created: u64,
    pub bytes: u64,
    pub poll_calls: u64,
    pub poll_ready: u64,
    pub hw_probes: u64,
}

fn empty_buffer() -> (r: PipeBuffer)
    ensures
        r.len == 0,
        r.data@ == Seq::new(PIPE_CAPACITY as nat, |i: int| 0u8),
{
    let mut data: Vec<u8> = Vec::new();
    let mut i: usize = 0;
    while i < PIPE_CAPACITY
        invariant
            i <= PIPE_CAPACITY,
            data@ == Seq::new(i as nat, |k: int| 0u8),
        decreases PIPE_CAPACITY - i,
    {
        data.push(0);
        i += 1;
    }
    PipeBuffer { data, len: 0 }
}

impl PipeTable {
    pub open spec fn wf(&self) -> bool {
        &&& self.pipes@.len() == MAX_PIPES
        &&& forall|i: int|
            0 <= i < MAX_PIPES ==> (#[trigger] self.pipes@[i]).data@.len() == PIPE_CAPACITY
                && self.pipes@[i].len <= PIPE_CAPACITY
    }

    /// The bytes queued in pipe `id`, oldest first.
    pub open spec fn queued(&self, id: int) -> Seq<u8> {
        self.pipes@[id].data@.subrange(0, self.pipes@[id].len as int)
    }

    pub open spec fn others_same(&self, other: &PipeTable, id: int) -> bool {
        &&& self.pipes@.len() == other.pipes@.len()
        &&& forall|j: int| 0 <= j < self.pipes@.len() && j != id ==> (#[trigger] self.pipes@[j]) == other.pipes@[j]
    }

    pub fn new() -> (r: Self)
        ensures
            r.wf(),
            forall|i: int| 0 <= i < MAX_PIPES ==> (#[trigger] r.pipes@[i]).len == 0 && r.pipes@[i].data@ == Seq::new(PIPE_CAPACITY as nat, |k: int| 0u8),
            r.created == 0 && r.bytes == 0 && r.poll_calls == 0 && r.poll_ready == 0 && r.hw_probes == 0,
    {
        let mut pipes: Vec<PipeBuffer> = Vec::new();
        let mut i: usize = 0;
        while i < MAX_PIPES
            invariant
                i <= MAX_PIPES,
                pipes@.len() == i,
                forall|k: int| 0 <= k < i ==> (#[trigger] pipes@[k]).len == 0 && pipes@[k].data@ == Seq::new(PIPE_CAPACITY as nat, |j: int| 0u8),
            decreases MAX_PIPES - i,
        {
            pipes.push(empty_buffer());
            i += 1;
        }
        PipeTable { pipes, created: 0, bytes: 0, poll_calls: 0, poll_ready: 0, hw_probes: 0 }
    }
}

/// (pipes created, bytes moved).
pub fn status(t: &PipeTable) -> (r: (u64, u64))
    ensures
        r == (t.created, t.bytes),
{
    (t.created, t.bytes)
}

/// (poll calls, polls that found data).
pub fn poll_status(t: &PipeTable) -> (r: (u64, u64))
    ensures
        r == (t.poll_calls, t.poll_ready),
{
    (t.poll_calls, t.poll_ready)
}

/// (hardware pipe probes, bytes moved).
pub fn pipeprobe_status(t: &PipeTable) -> (r: (u64, u64))
    ensures
        r == (t.hw_probes, t.bytes),
{
    (t.hw_probes, t.bytes)
}

/// Whether pipe `pipe_id` has queued bytes.
pub fn pipe_readable(t: &PipeTable, pipe_id: u32) -> (r: bool)
    requires
        t.wf(),
    ensures
        r == (pipe_id < MAX_PIPES && t.pipes@[pipe_id as int].len > 0),
{
    if (pipe_id as usize) < t.pipes.len() {
        t.pipes[pipe_id as usize].len > 0
    } else {
        false
    }
}

pub open spec fn pristine(p: PipeBuffer) -> bool {
    p.len == 0 && forall|k: int| 0 <= k < p.data@.len() ==> #[trigger] p.data@[k] == 0u8
}

/// The first never-used pipe (empty and all-zero buffer).
fn alloc_pipe_id(t: &PipeTable) -> (r: Option<u32>)
    requires
        t.wf(),
    ensures
        r matches Some(i) ==> i < MAX_PIPES && pristine(t.pipes@[i as int]) && forall|j: int|
            0 <= j < i ==> !pristine(#[trigger] t.pipes@[j]),
        r is None ==> forall|j: int| 0 <= j < MAX_PIPES ==> !pristine(#[trigger] t.pipes@[j]),
{
    let mut i: usize = 0;
    while i < MAX_PIPES
        invariant
            t.wf(),
            i <= MAX_PIPES,
            forall|j: int| 0 <= j < i ==> !pristine(#[trigger] t.pipes@[j]),
        decreases MAX_PIPES - i,
    {
        let p = &t.pipes[i];
        if p.len == 0 {
            let mut all_zero = true;
            let mut k: usize = 0;
            while k < PIPE_CAPACITY
                invariant
                    t.wf(),
                    i < MAX_PIPES,
                    p == &t.pipes@[i as int],
                    k <= PIPE_CAPACITY,
                    all_zero == (forall|m: int| 0 <= m < k ==> #[trigger] p.data@[m] == 0u8),
                decreases PIPE_CAPACITY - k,
            {
                if p.data[k] != 0 {
                    all_zero = false;
                }
                k += 1;
            }
            if all_zero {
                return Some(i as u32);
            }
        }
        i += 1;
    }
    None
}

/// The id in a pipe path: what follows `/@pipe/` up to the next `/`, parsed
/// as an unsigned number.
pub open spec fn pipe_id_spec(path: Seq<u8>) -> Option<u32> {
    if !starts_with(path, pipe_path_prefix()) {
        None
    } else {
        parse_u32_spec(first_segment(path.skip(7)))
    }
}

/// Everything before the first `/`.
pub open spec fn first_segment(s: Seq<u8>) -> Seq<u8> {
    if exists|i: int| 0 <= i < s.len() && #[trigger] s[i] == 47u8 {
        s.take(choose|i: int| 0 <= i < s.len() && #[trigger] s[i] == 47u8 && forall|j: int| 0 <= j < i ==> #[trigger] s[j] != 47u8)
    } else {
        s
    }
}

fn first_segment_end(s: &[u8]) -> (r: usize)
    ensures
        r <= s@.len(),
        s@.take(r as int) == first_segment(s@),
{
    let mut i: usize = 0;
    while i < s.len()
        invariant
            i <= s@.len(),
            forall|j: int| 0 <= j < i ==> #[trigger] s@[j] != 47u8,
        decreases s@.len() - i,
    {
        if s[i] == 47u8 {
            proof {
                let w = choose|k: int| 0 <= k < s@.len() && #[trigger] s@[k] == 47u8 && forall|j: int| 0 <= j < k ==> #[trigger] s@[j] != 47u8;
                assert(0 <= i < s@.len() && s@[i as int] == 47u8 && forall|j: int| 0 <= j < i ==> #[trigger] s@[j] != 47u8);
                if w < i {
                    assert(s@[w] != 47u8);
                } else if w > i {
                    assert(s@[i as int] != 47u8);
                }
            }
            return i;
        }
        i += 1;
    }
    assert(s@.take(s@.len() as int) =~= s@);
    s.len()
}

/// The pipe id named by a pipe path, if it is one.
pub fn pipe_id_from_path(path: &[u8]) -> (r: Option<u32>)
    ensures
        r == pipe_id_spec(path@),
{
    let prefix: [u8; 7] = [47u8, 64u8, 112u8, 105u8, 112u8, 101u8, 47u8];
    assert(prefix@ == pipe_path_prefix());
    if !bytes_starts_with(path, &prefix) {
        return None;
    }
    let mut rest: Vec<u8> = Vec::new();
    let mut i: usize = 7;
    while i < path.len()
        invariant
            7 <= i <= path@.len(),
            rest@ == path@.subrange(7, i as int),
        decreases path@.len() - i,
    {
        rest.push(path[i]);
        i += 1;
    }
    assert(rest@ =~= path@.skip(7));
    let end = first_segment_end(rest.as_slice());
    let mut seg: Vec<u8> = Vec::new();
    let mut k: usize = 0;
    while k < end
        invariant
            end <= rest@.len(),
            k <= end,
            seg@ == rest@.take(k as int),
        decreases end - k,
    {
        seg.push(rest[k]);
        k += 1;
    }
    parse_u32(seg.as_slice())
}

pub open spec fn ends_with(s: Seq<u8>, suffix: Seq<u8>) -> bool {
    suffix.len() <= s.len() && s.subrange(s.len() - suffix.len(), s.len() as int) == suffix
}

/// A read end ends with `/r`.
pub fn is_pipe_read(path: &[u8]) -> (r: bool)
    ensures
        r == ends_with(path@, seq![47u8, 114u8]),
{
    let suffix: [u8; 2] = [47u8, 114u8];
    assert(suffix@ == seq![47u8, 114u8]);
    bytes_ends_with(path, &suffix)
}

/// A write end ends with `/w`.
pub fn is_pipe_write(path: &[u8]) -> (r: bool)
    ensures
        r == ends_with(path@, seq![47u8, 119u8]),
{
    let suffix: [u8; 2] = [47u8, 119u8];
    assert(suffix@ == seq![47u8, 119u8]);
    bytes_ends_with(path, &suffix)
}

/// Append `bytes` to pipe `pipe_id`; refused when they do not fit.
pub fn write_pipe_kernel(t: &mut PipeTable, pipe_id: u32, bytes: &[u8]) -> (r: Result<usize, ()>)
    requires
        old(t).wf(),
    ensures
        final(t).wf(),
        pipe_id >= MAX_PIPES ==> r is Err && *final(t) == *old(t),
        pipe_id < MAX_PIPES && old(t).pipes@[pipe_id as int].len + bytes@.len() > PIPE_CAPACITY ==> r is Err
            && *final(t) == *old(t),
        pipe_id < MAX_PIPES && old(t).pipes@[pipe_id as int].len + bytes@.len() <= PIPE_CAPACITY ==> r
            == Ok::<usize, ()>(bytes@.len() as usize) && final(t).queued(pipe_id as int) == old(t).queued(
            pipe_id as int,
        ) + bytes@ && final(t).pipes@[pipe_id as int].data@.subrange(
            final(t).pipes@[pipe_id as int].len as int,
            PIPE_CAPACITY as int,
        ) == old(t).pipes@[pipe_id as int].data@.subrange(
            final(t).pipes@[pipe_id as int].len as int,
            PIPE_CAPACITY as int,
        ) && final(t).others_same(old(t), pipe_id as int) && final(t).bytes == advanced(
            old(t).bytes,
            bytes@.len() as u64,
        ),
        final(t).created == old(t).created && final(t).poll_calls == old(t).poll_calls
            && final(t).poll_ready == old(t).poll_ready && final(t).hw_probes == old(t).hw_probes,
{
    let id = pipe_id as usize;
    if id >= t.pipes.len() {
        return Err(());
    }
    let len = t.pipes[id].len;
    if bytes.len() > PIPE_CAPACITY - len {
        return Err(());
    }
    let ghost before = *t;
    let mut p = t.pipes.remove(id);
    let mut k: usize = 0;
    while k < bytes.len()
        invariant
            len == before.pipes@[id as int].len,
            len + bytes@.len() <= PIPE_CAPACITY,
            p.data@.len() == PIPE_CAPACITY,
            k <= bytes@.len(),
            p.len == len,
            forall|m: int| 0 <= m < len ==> #[trigger] p.data@[m] == before.pipes@[id as int].data@[m],
            forall|m: int| len + bytes@.len() <= m < PIPE_CAPACITY ==> #[trigger] p.data@[m] == before.pipes@[id as int].data@[m],
            forall|m: int| 0 <= m < k ==> #[trigger] p.data@[len + m] == bytes@[m],
        decreases bytes@.len() - k,
    {
        p.data.set(len + k, bytes[k]);
        k += 1;
    }
    assert forall|i: int| len <= i < len + bytes@.len() implies #[trigger] p.data@[i] == bytes@[i - len] by {
        assert(p.data@[len + (i - len)] == bytes@[i - len]);
    }
    p.len = len + bytes.len();
    t.pipes.insert(id, p);
    assert(t.pipes@ =~= before.pipes@.update(id as int, t.pipes@[id as int]));
    assert(t.queued(id as int) =~= before.queued(id as int) + bytes@);
    assert(t.pipes@[id as int].data@.subrange(t.pipes@[id as int].len as int, PIPE_CAPACITY as int) =~= before.pipes@[id as int].data@.subrange(t.pipes@[id as int].len as int, PIPE_CAPACITY as int));
    t.bytes = advance(t.bytes, bytes.len() as u64);
    Ok(bytes.len())
}

/// How many bytes a read of at most `max_len` takes from a pipe holding
/// `queued` bytes: no more than the pipe's capacity.
pub open spec fn read_take(max_len: u64, queued: int) -> int {
    let len = if max_len < PIPE_CAPACITY { max_len as int } else { PIPE_CAPACITY as int };
    if len < queued { len } else { queued }
}

/// The bytes a read of at most `min(max_len, PIPE_CAPACITY)` from pipe
/// `pipe_id` into the reader's buffer at `user_buf` would take, without
/// taking them. A reader whose copy into its buffer can fail copies these
/// first and then calls `commit_pipe_read` with their number; a failed copy
/// commits nothing and the bytes stay queued.
pub fn peek_pipe(t: &PipeTable, pipe_id: u32, user_buf: u64, max_len: u64) -> (r: Result<Vec<u8>, ()>)
    requires
        t.wf(),
    ensures
        max_len == 0 || user_buf == 0 || pipe_id >= MAX_PIPES ==> r is Err,
        max_len != 0 && user_buf != 0 && pipe_id < MAX_PIPES ==> r is Ok
            && r->Ok_0@ == t.queued(pipe_id as int).take(read_take(max_len, t.queued(pipe_id as int).len() as int)),
{
    let len = if max_len < PIPE_CAPACITY as u64 {
        max_len as usize
    } else {
        PIPE_CAPACITY
    };
    if len == 0 || user_buf == 0 {
        return Err(());
    }
    let id = pipe_id as usize;
    if id >= t.pipes.len() {
        return Err(());
    }
    let plen = t.pipes[id].len;
    let take = if len < plen {
        len
    } else {
        plen
    };
    let mut out: Vec<u8> = Vec::new();
    let mut k: usize = 0;
    while k < take
        invariant
            t.wf(),
            id < MAX_PIPES,
            take <= t.pipes@[id as int].len,
            k <= take,
            out@ == t.pipes@[id as int].data@.take(k as int),
        decreases take - k,
    {
        out.push(t.pipes[id].data[k]);
        k += 1;
    }
    assert(out@ =~= t.queued(id as int).take(take as int));
    Ok(out)
}

/// Take the first `min(n, queued)` bytes out of pipe `pipe_id` once they
/// reached the reader: the rest move to the front of the buffer and the
/// byte counter advances by that many.
pub fn commit_pipe_read(t: &mut PipeTable, pipe_id: u32, n: usize) -> (r: Result<(), ()>)
    requires
        old(t).wf(),
    ensures
        final(t).wf(),
        pipe_id >= MAX_PIPES ==> r is Err && *final(t) == *old(t),
        pipe_id < MAX_PIPES ==> {
            let q = old(t).queued(pipe_id as int);
            let take = if (n as int) < q.len() { n as int } else { q.len() as int };
            &&& r is Ok
            &&& final(t).queued(pipe_id as int) == q.skip(take)
            &&& final(t).others_same(old(t), pipe_id as int)
            &&& final(t).bytes == advanced(old(t).bytes, take as u64)
        },
        final(t).created == old(t).created && final(t).poll_calls == old(t).poll_calls
            && final(t).poll_ready == old(t).poll_ready && final(t).hw_probes == old(t).hw_probes,
{
    let id = pipe_id as usize;
    if id >= t.pipes.len() {
        return Err(());
    }
    let ghost before = *t;
    let plen = t.pipes[id].len;
    let take = if n < plen {
        n
    } else {
        plen
    };
    if take > 0 {
        let mut p = t.pipes.remove(id);
        let mut j: usize = 0;
        while j < plen - take
            invariant
                p.data@.len() == PIPE_CAPACITY,
                plen == before.pipes@[id as int].len,
                plen <= PIPE_CAPACITY,
                take <= plen,
                j <= plen - take,
                forall|m: int| 0 <= m < j ==> #[trigger] p.data@[m] == before.pipes@[id as int].data@[take + m],
                forall|m: int| j <= m < PIPE_CAPACITY ==> #[trigger] p.data@[m] == before.pipes@[id as int].data@[m],
            decreases plen - take - j,
        {
            let b = p.data[take + j];
            p.data.set(j, b);
            j += 1;
        }
        p.len = plen - take;
        t.pipes.insert(id, p);
        assert(t.pipes@ =~= before.pipes@.update(id as int, t.pipes@[id as int]));
    }
    assert(t.queued(id as int) =~= before.queued(id as int).skip(take as int));
    t.bytes = advance(t.bytes, take as u64);
    Ok(())
}

/// Take up to `min(max_len, PIPE_CAPACITY)` queued bytes from pipe
/// `pipe_id` and hand them to the reader (a `peek_pipe` then a
/// `commit_pipe_read` of all of them, for a destination that cannot fail);
/// the rest move to the front of the buffer.
pub fn read_pipe(t: &mut PipeTable, pipe_id: u32, user_buf: u64, max_len: u64) -> (r: Result<Vec<u8>, ()>)
    requires
        old(t).wf(),
    ensures
        final(t).wf(),
        max_len == 0 || user_buf == 0 || pipe_id >= MAX_PIPES ==> r is Err && *final(t) == *old(t),
        max_len != 0 && user_buf != 0 && pipe_id < MAX_PIPES ==> {
            let q = old(t).queued(pipe_id as int);
            let take = if max_len < PIPE_CAPACITY { if (max_len as int) < q.len() { max_len as int } else { q.len() as int } } else { if (PIPE_CAPACITY as int) < q.len() { PIPE_CAPACITY as int } else { q.len() as int } };
            &&& r is Ok
            &&& r->Ok_0@ == q.take(take)
            &&& final(t).queued(pipe_id as int) == q.skip(take)
            &&& final(t).others_same(old(t), pipe_id as int)
            &&& final(t).bytes == advanced(old(t).bytes, take as u64)
        },
        final(t).created == old(t).created && final(t).poll_calls == old(t).poll_calls
            && final(t).poll_ready == old(t).poll_ready && final(t).hw_probes == old(t).hw_probes,
{
    let out = peek_pipe(t, pipe_id, user_buf, max_len)?;
    let _ = commit_pipe_read(t, pipe_id, out.len());
    Ok(out)
}

/// Write up to `min(max_len, PIPE_CAPACITY)` bytes taken from the writer's
/// buffer (`user_bytes`, what is readable at `user_buf`) into the pipe; a
/// buffer shorter than that fails like a faulting copy.
pub fn write_pipe(t: &mut PipeTable, pipe_id: u32, user_buf: u64, max_len: u64, user_bytes: &[u8]) -> (r: Result<u64, ()>)
    requires
        old(t).wf(),
    ensures
        final(t).wf(),
        ({
            let len = if max_len < PIPE_CAPACITY { max_len as int } else { PIPE_CAPACITY as int };
            &&& (len == 0 || user_buf == 0 || user_bytes@.len() < len) ==> r is Err && *final(t) == *old(t)
            &&& !(len == 0 || user_buf == 0 || user_bytes@.len() < len) ==> {
                &&& r is Ok <==> (pipe_id < MAX_PIPES && old(t).pipes@[pipe_id as int].len + len <= PIPE_CAPACITY)
                &&& r is Ok ==> r->Ok_0 == len && final(t).queued(pipe_id as int) == old(t).queued(pipe_id as int) + user_bytes@.take(len)
                    && final(t).others_same(old(t), pipe_id as int) && final(t).bytes == advanced(old(t).bytes, len as u64)
                &&& r is Err ==> *final(t) == *old(t)
            }
        }),
        final(t).created == old(t).created && final(t).poll_calls == old(t).poll_calls
            && final(t).poll_ready == old(t).poll_ready && final(t).hw_probes == old(t).hw_probes,
{
    let len = if max_len < PIPE_CAPACITY as u64 {
        max_len as usize
    } else {
        PIPE_CAPACITY
    };
    if len == 0 || user_buf == 0 || user_bytes.len() < len {
        return Err(());
    }
    let mut buf: Vec<u8> = Vec::new();
    let mut k: usize = 0;
    while k < len
        invariant
            len <= user_bytes@.len(),
            k <= len,
            buf@ == user_bytes@.take(k as int),
        decreases len - k,
    {
        buf.push(user_bytes[k]);
        k += 1;
    }
    match write_pipe_kernel(t, pipe_id, buf.as_slice()) {
        Ok(n) => Ok(n as u64),
        Err(_) => Err(()),
    }
}

/// The descriptor path of an end of pipe `id`: `/@pipe/<id>/` then `end`
/// (`r` or `w`).
pub open spec fn pipe_path(id: u32, end: u8) -> Seq<u8> {
    pipe_path_prefix() + decimal(id as nat) + seq![47u8, end]
}

/// Pipe FIFO: a write appends to the queued bytes and a read takes the
/// oldest ones, so after `b` is written behind `q`, a read of up to
/// `q.len()` bytes returns the head of `q` and leaves the rest of `q`
/// followed by `b`; a read of everything returns `q` then `b`.
pub proof fn lemma_pipe_fifo(q: Seq<u8>, b: Seq<u8>, n: int)
    requires
        0 <= n <= q.len(),
    ensures
        (q + b).take(n) == q.take(n),
        (q + b).skip(n) == q.skip(n) + b,
        (q + b).take((q.len() + b.len()) as int) == q + b,
{
    assert((q + b).take(n) =~= q.take(n));
    assert((q + b).skip(n) =~= q.skip(n) + b);
    assert((q + b).take((q.len() + b.len()) as int) =~= q + b);
}

/// Pipe naming round trip: the path of either end of pipe `id` names `id`
/// again, and tells the read end from the write end.
pub proof fn lemma_pipe_path_round_trip(id: u32, end: u8)
    ensures
        pipe_id_spec(pipe_path(id, end)) == Some(id),
        ends_with(pipe_path(id, end), seq![47u8, 114u8]) == (end == 114u8),
        ends_with(pipe_path(id, end), seq![47u8, 119u8]) == (end == 119u8),
{
    let d = decimal(id as nat);
    lemma_decimal_parses(id as nat);
    let p = pipe_path(id, end);
    assert(p.subrange(0, 7) =~= pipe_path_prefix());
    let rest = p.skip(7);
    assert(rest =~= d + seq![47u8, end]);
    assert(rest[d.len() as int] == 47u8);
    assert forall|j: int| 0 <= j < d.len() implies #[trigger] rest[j] != 47u8 by {
        assert(rest[j] == d[j]);
        assert(is_digit(d[j]));
    }
    let w = choose|i: int| 0 <= i < rest.len() && #[trigger] rest[i] == 47u8 && forall|j: int| 0 <= j < i ==> #[trigger] rest[j] != 47u8;
    assert(0 <= d.len() < rest.len() && rest[d.len() as int] == 47u8 && forall|j: int| 0 <= j < d.len() ==> #[trigger] rest[j] != 47u8);
    if w < d.len() {
        assert(rest[w] != 47u8);
    } else if w > d.len() {
        assert(rest[d.len() as int] != 47u8);
    }
    assert(first_segment(rest) =~= d);
    assert(unsigned_body(d) == d);
    assert(p.subrange(p.len() - 2, p.len() as int) =~= seq![47u8, end]);
}

/// Build the descriptor path of an end of pipe `id`.
fn pipe_end_path(id: u32, end: u8) -> (r: Vec<u8>)
    ensures
        r@ == pipe_path(id, end),
{
    let mut out: Vec<u8> = Vec::new();
    out.push(47u8);
    out.push(64u8);
    out.push(112u8);
    out.push(105u8);
    out.push(112u8);
    out.push(101u8);
    out.push(47u8);
    let digits = decimal_bytes(id);
    let ghost base = out@;
    let mut i: usize = 0;
    while i < digits.len()
        invariant
            i <= digits@.len(),
            out@ == base + digits@.take(i as int),
        decreases digits@.len() - i,
    {
        out.push(digits[i]);
        i += 1;
    }
    out.push(47u8);
    out.push(end);
    assert(digits@.take(digits@.len() as int) =~= digits@);
    assert(out@ =~= pipe_path(id, end));
    out
}

/// Create a pipe for `pid`: take the first never-used pipe and open its
/// read end, then its write end, as descriptors of `pid`.
/// `pid` has at least two free descriptor slots.
pub open spec fn two_free_fds(procs: &ProcessTable, pid: ProcessId) -> bool {
    exists|a: int, b: int| 0 <= a < b < MAX_FDS && (#[trigger] procs.fds_of(pid)[a]) is None
        && (#[trigger] procs.fds_of(pid)[b]) is None
}

pub fn pipe_create_for_process(
    t: &mut PipeTable,
    fds: &mut FdState,
    procs: &mut ProcessTable,
    pid: ProcessId,
) -> (r: Result<(u32, u32, u32), ()>)
    requires
        old(t).wf(),
        old(procs).wf(),
    ensures
        final(t).wf(),
        final(procs).wf(),
        final(t).pipes@ == old(t).pipes@,
        final(procs).smoke_pid == old(procs).smoke_pid,
        final(procs).current_pid == old(procs).current_pid,
        (forall|j: int| 0 <= j < MAX_PIPES ==> !pristine(#[trigger] old(t).pipes@[j])) ==> r is Err
            && final(procs).procs@ == old(procs).procs@,
        r is Ok ==> ({
            let (rfd, wfd, id) = r->Ok_0;
            &&& id < MAX_PIPES && pristine(old(t).pipes@[id as int])
            &&& forall|j: int| 0 <= j < id ==> !pristine(#[trigger] old(t).pipes@[j])
            &&& old(procs).has(pid)
            &&& fd_entry(final(procs), pid, rfd) is Some && fd_entry(final(procs), pid, rfd)->Some_0.path@ == pipe_path(id, 114u8)
            &&& fd_entry(final(procs), pid, wfd) is Some && fd_entry(final(procs), pid, wfd)->Some_0.path@ == pipe_path(id, 119u8)
            &&& final(t).created == bumped(old(t).created)
        }),
        r is Err ==> final(t).created == old(t).created,
        final(t).bytes == old(t).bytes && final(t).hw_probes == old(t).hw_probes
            && final(t).poll_calls == old(t).poll_calls && final(t).poll_ready == old(t).poll_ready,
        (exists|j: int| 0 <= j < MAX_PIPES && pristine(#[trigger] old(t).pipes@[j])) && old(procs).has(pid)
            && two_free_fds(old(procs), pid) ==> r is Ok,
{
    let id = match alloc_pipe_id(t) {
        Some(i) => i,
        None => return Err(()),
    };
    let ghost two = two_free_fds(procs, pid);
    proof {
        if two {
            let (a, b) = choose|a: int, b: int| 0 <= a < b < MAX_FDS && (#[trigger] procs.fds_of(pid)[a]) is None
                && (#[trigger] procs.fds_of(pid)[b]) is None;
            assert(has_free_fd(procs, pid));
        }
    }
    let read_path = pipe_end_path(id, 114u8);
    let write_path = pipe_end_path(id, 119u8);
    assert(read_path@.subrange(0, 7) =~= pipe_path_prefix());
    assert(write_path@.subrange(0, 7) =~= pipe_path_prefix());
    assert(starts_with(read_path@, pipe_path_prefix()));
    assert(starts_with(write_path@, pipe_path_prefix()));
    let read_fd = match open_pipe_for_process(fds, procs, pid, read_path.as_slice()) {
        Ok(fd) => fd,
        Err(_) => return Err(()),
    };
    let ghost mid = *procs;
    proof {
        if two {
            let (a, b) = choose|a: int, b: int| 0 <= a < b < MAX_FDS && (#[trigger] old(procs).fds_of(pid)[a]) is None
                && (#[trigger] old(procs).fds_of(pid)[b]) is None;
            if read_fd as int == a {
                assert(mid.fds_of(pid)[b] is None);
            } else {
                assert(mid.fds_of(pid)[a] is None);
            }
            assert(has_free_fd(&mid, pid));
        }
    }
    let write_fd = match open_pipe_for_process(fds, procs, pid, write_path.as_slice()) {
        Ok(fd) => fd,
        Err(_) => return Err(()),
    };
    assert(mid.fds_of(pid)[read_fd as int] is Some);
    assert(procs.fds_of(pid)[read_fd as int] == mid.fds_of(pid)[read_fd as int]);
    t.created = bump(t.created);
    Ok((read_fd, write_fd, id))
}

/// The user buffer address the smokes hand to descriptor reads and writes.
pub const SMOKE_USER_BUF: u64 = 0x0000_7fff_ffff_ef80;

/// Poll descriptor `fd` of the acting process: it must be a pipe read end;
/// the answer is 1 when `events` asks for input (bit 0) and the pipe holds
/// bytes, else 0.
pub fn poll_syscall(t: &mut PipeTable, procs: &ProcessTable, fd: u64, events: u64) -> (r: Result<u64, ()>)
    requires
        procs.wf(),
        old(t).wf(),
    ensures
        final(t).wf(),
        final(t).pipes@ == old(t).pipes@,
        final(t).poll_calls == bumped(old(t).poll_calls),
        final(t).created == old(t).created && final(t).bytes == old(t).bytes && final(t).hw_probes == old(t).hw_probes,
        ({
            let ok_fd = acting_pid(procs) is Some && fd < MAX_FDS && fd_entry(procs, acting_pid(procs)->Some_0, fd as u32) is Some;
            let path = fd_entry(procs, acting_pid(procs)->Some_0, fd as u32)->Some_0.path@;
            &&& !ok_fd ==> r is Err && final(t).poll_ready == old(t).poll_ready
            &&& ok_fd ==> (r is Ok <==> (pipe_id_spec(path) is Some && ends_with(path, seq![47u8, 114u8])))
            &&& ok_fd && r is Ok ==> {
                let ready = events & 1 != 0 && pipe_id_spec(path)->Some_0 < MAX_PIPES
                    && old(t).pipes@[pipe_id_spec(path)->Some_0 as int].len > 0;
                &&& ready ==> r->Ok_0 == 1 && final(t).poll_ready == bumped(old(t).poll_ready)
                &&& !ready ==> r->Ok_0 == 0 && final(t).poll_ready == old(t).poll_ready
            }
            &&& r is Err ==> final(t).poll_ready == old(t).poll_ready
        }),
{
    t.poll_calls = bump(t.poll_calls);
    let pid = match procs.current_process_id() {
        Some(p) => p,
        None => match procs.smoke_process_id() {
            Some(p) => p,
            None => return Err(()),
        },
    };
    if fd >= MAX_FDS as u64 {
        return Err(());
    }
    let fdn = fd as u32;
    let path: Vec<u8> = if pid.0 >= 1 && pid.0 <= procs.procs.len() as u64 {
        match &procs.procs[(pid.0 - 1) as usize].fds[fdn as usize] {
            Some(e) => crate::bytes::copy_bytes(e.path.as_slice()),
            None => return Err(()),
        }
    } else {
        return Err(());
    };
    let pipe_id = match pipe_id_from_path(path.as_slice()) {
        Some(i) => i,
        None => return Err(()),
    };
    if !is_pipe_read(path.as_slice()) {
        return Err(());
    }
    let readable = (events & 1) != 0 && pipe_readable(t, pipe_id);
    if readable {
        t.poll_ready = bump(t.poll_ready);
        Ok(1)
    } else {
        Ok(0)
    }
}

/// pipe(2) for the acting process: both result addresses must be non-null;
/// the result is the (read, write) descriptor pair the caller stores there.
pub fn pipe_syscall(
    t: &mut PipeTable,
    fds: &mut FdState,
    procs: &mut ProcessTable,
    read_fd_out: u64,
    write_fd_out: u64,
) -> (r: Result<(u32, u32), ()>)
    requires
        old(t).wf(),
        old(procs).wf(),
    ensures
        final(t).wf(),
        final(procs).wf(),
        read_fd_out == 0 || write_fd_out == 0 || acting_pid(old(procs)) is None ==> r is Err
            && *final(t) == *old(t) && final(procs).procs@ == old(procs).procs@,
        r is Ok ==> ({
            let pid = acting_pid(old(procs))->Some_0;
            &&& fd_entry(final(procs), pid, r->Ok_0.0) is Some
            &&& fd_entry(final(procs), pid, r->Ok_0.1) is Some
            &&& exists|id: u32| fd_entry(final(procs), pid, r->Ok_0.0)->Some_0.path@ == pipe_path(id, 114u8)
                && fd_entry(final(procs), pid, r->Ok_0.1)->Some_0.path@ == pipe_path(id, 119u8)
            &&& final(t).created == bumped(old(t).created)
        }),
        read_fd_out != 0 && write_fd_out != 0 && acting_pid(old(procs)) is Some && old(procs).has(
            acting_pid(old(procs))->Some_0,
        ) && two_free_fds(old(procs), acting_pid(old(procs))->Some_0) && (exists|j: int|
            0 <= j < MAX_PIPES && pristine(#[trigger] old(t).pipes@[j])) ==> r is Ok,
{
    if read_fd_out == 0 || write_fd_out == 0 {
        return Err(());
    }
    let pid = match procs.current_process_id() {
        Some(p) => p,
        None => match procs.smoke_process_id() {
            Some(p) => p,
            None => return Err(()),
        },
    };
    match pipe_create_for_process(t, fds, procs, pid) {
        Ok((rfd, wfd, _id)) => Ok((rfd, wfd)),
        Err(_) => Err(()),
    }
}

/// Pipe smoke: a pipe created for a fresh process carries kernel-written
/// bytes to a read through its read end; writing to the read end fails.
pub fn smoke_pipe_lite(
    t: &mut PipeTable,
    fds: &mut FdState,
    procs: &mut ProcessTable,
    store: &mut FileStore,
    sec: &SecurityState,
) -> (r: bool)
    requires
        old(t).wf(),
        old(procs).wf(),
    ensures
        final(t).wf(),
        final(procs).wf(),
        r ==> final(t).created > 0 && final(t).bytes > 0 && final(procs).smoke_pid is None
            && final(procs).current_pid is None,
        old(procs).procs@.len() < crate::process::MAX_PROCESSES && (exists|j: int| 0 <= j < MAX_PIPES
            && pristine(#[trigger] old(t).pipes@[j])) && old(t).created < u64::MAX && old(t).bytes < u64::MAX
            - 12 ==> r,
{
    let pid = match procs.create_process(Credentials::shell_user()) {
        Some(p) => p,
        None => return false,
    };
    procs.set_smoke_process_id(Some(pid));
    proof {
        assert(procs.fds_of(pid)[0] is None && procs.fds_of(pid)[1] is None);
        assert(two_free_fds(procs, pid));
    }
    let (read_end, _write_end, pipe_id) = match pipe_create_for_process(t, fds, procs, pid) {
        Ok(x) => x,
        Err(_) => return false,
    };
    proof {
        lemma_pipe_path_round_trip(pipe_id, 114u8);
        assert(t.pipes@[pipe_id as int].len == 0);
        assert(fd_entry(procs, pid, read_end) is Some);
    }
    let msg: [u8; 6] = [112u8, 105u8, 112u8, 101u8, 56u8, 55u8];
    let ghost b0 = t.bytes;
    let wrote = write_pipe_kernel(t, pipe_id, &msg).is_ok();
    procs.set_current_process_id(Some(pid));
    proof {
        assert(wrote);
        assert(t.bytes == advanced(b0, 6));
        assert(acting_pid(procs) == Some(pid));
        assert(fd_entry(procs, pid, read_end) is Some);
    }
    let ghost b1 = t.bytes;
    let read_ok = read_fd(fds, t, procs, store, sec, read_end, SMOKE_USER_BUF, 8).is_ok();
    proof {
        assert(read_ok);
        if b0 < u64::MAX - 12 {
            assert(b1 == b0 + 6);
            assert(t.bytes > 0);
        }
    }
    let ghost t2 = *t;
    let empty: [u8; 0] = [];
    let _bad_write = write_fd(fds, t, procs, store, sec, read_end, SMOKE_USER_BUF, 4, &empty).is_err();
    proof {
        assert(*t == t2);
    }
    procs.set_smoke_process_id(None);
    procs.set_current_process_id(None);
    let (pipes, bytes) = status(t);
    wrote && read_ok && pipes > 0 && bytes > 0
}

/// Poll smoke: an empty pipe polls 0, after a kernel write it polls 1.
pub fn smoke_poll_lite(t: &mut PipeTable, fds: &mut FdState, procs: &mut ProcessTable) -> (r: bool)
    requires
        old(t).wf(),
        old(procs).wf(),
    ensures
        final(t).wf(),
        final(procs).wf(),
        r ==> final(t).poll_calls > 0 && final(t).poll_ready > 0 && final(procs).smoke_pid is None,
        old(procs).procs@.len() < crate::process::MAX_PROCESSES && old(procs).current_pid is None
            && (exists|j: int| 0 <= j < MAX_PIPES && pristine(#[trigger] old(t).pipes@[j]))
            && old(t).poll_calls < u64::MAX - 1 && old(t).poll_ready < u64::MAX ==> r,
{
    let pid = match procs.create_process(Credentials::shell_user()) {
        Some(p) => p,
        None => return false,
    };
    procs.set_smoke_process_id(Some(pid));
    proof {
        assert(procs.fds_of(pid)[0] is None && procs.fds_of(pid)[1] is None);
        assert(two_free_fds(procs, pid));
    }
    let (read_end, _write_end, pipe_id) = match pipe_create_for_process(t, fds, procs, pid) {
        Ok(x) => x,
        Err(_) => return false,
    };
    let ghost good = old(procs).current_pid is None && old(t).poll_calls < u64::MAX - 1
        && old(t).poll_ready < u64::MAX;
    proof {
        lemma_pipe_path_round_trip(pipe_id, 114u8);
        if good {
            assert(acting_pid(procs) == Some(pid));
            assert(fd_entry(procs, pid, read_end) is Some);
            assert(t.pipes@[pipe_id as int].len == 0);
            assert(1u64 & 1 != 0) by (bit_vector);
        }
    }
    let empty = match poll_syscall(t, procs, read_end as u64, 1) {
        Ok(v) => v == 0,
        Err(_) => false,
    };
    let x: [u8; 1] = [120u8];
    let _ = write_pipe_kernel(t, pipe_id, &x);
    proof {
        if good {
            assert(empty);
            assert(t.pipes@[pipe_id as int].len == 1);
        }
    }
    let ready = match poll_syscall(t, procs, read_end as u64, 1) {
        Ok(v) => v == 1,
        Err(_) => false,
    };
    procs.set_smoke_process_id(None);
    let (polls, ready_n) = poll_status(t);
    empty && ready && polls > 0 && ready_n > 0
}

/// Pipe probe smoke: bytes written by the kernel are read back through the
/// read end by the process itself.
pub fn smoke_pipe_probe(
    t: &mut PipeTable,
    fds: &mut FdState,
    procs: &mut ProcessTable,
    store: &FileStore,
    sec: &SecurityState,
) -> (r: bool)
    requires
        old(t).wf(),
        old(procs).wf(),
    ensures
        final(t).wf(),
        final(procs).wf(),
        r ==> final(t).hw_probes > 0 && final(t).bytes > 0 && final(procs).smoke_pid is None
            && final(procs).current_pid is None,
        old(procs).procs@.len() < crate::process::MAX_PROCESSES && (exists|j: int| 0 <= j < MAX_PIPES
            && pristine(#[trigger] old(t).pipes@[j])) && old(t).hw_probes < u64::MAX && old(t).bytes < u64::MAX
            - 12 ==> r,
{
    let pid = match procs.create_process(Credentials::shell_user()) {
        Some(p) => p,
        None => return false,
    };
    procs.set_smoke_process_id(Some(pid));
    procs.set_current_process_id(Some(pid));
    proof {
        assert(procs.fds_of(pid)[0] is None && procs.fds_of(pid)[1] is None);
        assert(two_free_fds(procs, pid));
    }
    let (read_end, _write_end, pipe_id) = match pipe_create_for_process(t, fds, procs, pid) {
        Ok(x) => x,
        Err(_) => return false,
    };
    proof {
        lemma_pipe_path_round_trip(pipe_id, 114u8);
        assert(t.pipes@[pipe_id as int].len == 0);
        assert(acting_pid(procs) == Some(pid));
    }
    let msg: [u8; 6] = [112u8, 105u8, 112u8, 101u8, 57u8, 53u8];
    let ghost b0 = t.bytes;
    let _ = write_pipe_kernel(t, pipe_id, &msg);
    proof {
        assert(t.bytes == advanced(b0, 6));
        assert(fd_entry(procs, pid, read_end) is Some);
        assert(pipe_id < MAX_PIPES);
    }
    let ghost b1 = t.bytes;
    let read_ok = read_fd(fds, t, procs, store, sec, read_end, SMOKE_USER_BUF, 8).is_ok();
    proof {
        assert(read_ok);
        if read_ok && b0 < u64::MAX - 12 {
            assert(b1 == b0 + 6);
            assert(t.bytes > 0);
        }
    }
    t.hw_probes = bump(t.hw_probes);
    procs.set_smoke_process_id(None);
    procs.set_current_process_id(None);
    let (probes, bytes) = pipeprobe_status(t);
    read_ok && probes > 0 && bytes > 0
}

} // verus!

use vstd::prelude::*;

use crate::slice::{file_name_of, Slice, SliceView};

verus! {

/// Largest payload, in bytes, that a single dispatched slice may carry.
pub const MAX_WRITE_SIZE: usize = 15360;

/// The part of `s` that is dispatched when `s` is over the size bound.
pub open spec fn head_part(s: SliceView) -> SliceView {
    SliceView { filename: s.filename, payload: s.payload.take(MAX_WRITE_SIZE as int), command: s.command }
}

/// The part of `s` that goes back to the head of the queue when `s` is over
/// the size bound.
pub open spec fn tail_part(s: SliceView) -> SliceView {
    SliceView { filename: s.filename, payload: s.payload.skip(MAX_WRITE_SIZE as int), command: s.command }
}

/// One dispatcher step on queue `q`: the item handed on (if any) and the
/// queue left behind.
pub open spec fn dispatch_step(q: Seq<SliceView>) -> (Option<SliceView>, Seq<SliceView>) {
    if q.len() == 0 {
        (None, q)
    } else if q[0].payload.len() > MAX_WRITE_SIZE {
        (Some(head_part(q[0])), seq![tail_part(q[0])] + q.drop_first())
    } else {
        (Some(q[0]), q.drop_first())
    }
}

/// The items that slice `s` is dispatched as: pieces of `MAX_WRITE_SIZE`
/// bytes, then the rest.
pub open spec fn chunks(s: SliceView) -> Seq<SliceView>
    decreases s.payload.len(),
{
    if s.payload.len() > MAX_WRITE_SIZE {
        seq![head_part(s)] + chunks(tail_part(s))
    } else {
        seq![s]
    }
}

/// Everything the dispatcher hands on when it drains queue `q`.
pub open spec fn dispatch_all(q: Seq<SliceView>) -> Seq<SliceView>
    decreases q.len(),
{
    if q.len() == 0 {
        Seq::empty()
    } else {
        chunks(q[0]) + dispatch_all(q.drop_first())
    }
}

/// The bytes that the data slices of `q` addressed to `filename` carry, in
/// queue order.
pub open spec fn data_of(q: Seq<SliceView>, filename: Seq<char>) -> Seq<u8>
    decreases q.len(),
{
    if q.len() == 0 {
        Seq::empty()
    } else {
        let first = if q[0].is_data() && q[0].filename == filename {
            q[0].payload
        } else {
            Seq::empty()
        };
        first + data_of(q.drop_first(), filename)
    }
}

pub open spec fn opt_slice_view(o: Option<Slice>) -> Option<SliceView> {
    match o {
        Some(s) => Some(s@),
        None => None,
    }
}

/// The shared FIFO of pending slices.
pub struct IngestQueue {
    pub items: Vec<Slice>,
}

impl View for IngestQueue {
    type V = Seq<SliceView>;

    open spec fn view(&self) -> Seq<SliceView> {
        self.items@.map_values(|s: Slice| s@)
    }
}

impl IngestQueue {
    /// Every queued slice carries bytes or a command, never both.
    pub open spec fn wf(&self) -> bool {
        forall|i: int| 0 <= i < self@.len() ==> #[trigger] self@[i].wf()
    }

    pub fn new() -> (r: IngestQueue)
        ensures
            r.wf(),
            r@ == Seq::<SliceView>::empty(),
    {
        let r = IngestQueue { items: Vec::new() };
        assert(r@ =~= Seq::<SliceView>::empty());
        r
    }

    pub fn len(&self) -> (r: usize)
        ensures
            r == self@.len(),
    {
        self.items.len()
    }

    /// Appends `slice` at the tail.
    pub fn enqueue(&mut self, slice: Slice)
        requires
            old(self).wf(),
            slice@.wf(),
        ensures
            final(self).wf(),
            final(self)@ == old(self)@.push(slice@),
    {
        self.items.push(slice);
        assert(final(self)@ =~= old(self)@.push(slice@));
    }

    /// Queues a data slice carrying `data` for the session named `name`.
    pub fn push_to_queue(&mut self, data: Vec<u8>, name: &String)
        requires
            old(self).wf(),
        ensures
            final(self).wf(),
            final(self)@ == old(self)@.push(
                SliceView { filename: file_name_of(name@), payload: data@, command: None },
            ),
    {
        self.enqueue(Slice::data(data, name.as_str()));
    }

    /// Queues a control slice carrying command `data` for the session named
    /// `name`.
    pub fn push_msg_to_queue(&mut self, data: String, name: &String)
        requires
            old(self).wf(),
        ensures
            final(self).wf(),
            final(self)@ == old(self)@.push(
                SliceView {
                    filename: file_name_of(name@),
                    payload: Seq::empty(),
                    command: Some(data@),
                },
            ),
    {
        self.enqueue(Slice::control(data, name.as_str()));
    }

    /// Takes the head slice. A payload over `MAX_WRITE_SIZE` bytes is cut: the
    /// first `MAX_WRITE_SIZE` bytes are returned and the rest goes back to the
    /// head of the queue, ahead of all other work.
    pub fn dispatch_next(&mut self) -> (r: Option<Slice>)
        requires
            old(self).wf(),
        ensures
            final(self).wf(),
            r matches Some(s) ==> s@.wf() && s@.payload.len() <= MAX_WRITE_SIZE,
            (opt_slice_view(r), final(self)@) == dispatch_step(old(self)@),
    {
        if self.items.len() == 0 {
            return None;
        }
        let mut slice = self.items.remove(0);
        assert(old(self)@[0] == slice@);
        assert(old(self)@[0].wf());
        assert(self@ =~= old(self)@.drop_first());
        assert(forall|i: int| 0 <= i < self@.len() ==> self@[i] == old(self)@[i + 1]);
        if slice.payload.len() > MAX_WRITE_SIZE {
            let tail = slice.payload.split_off(MAX_WRITE_SIZE);
            let rest = Slice {
                filename: slice.filename.clone(),
                payload: tail,
                command: slice.command.clone(),
            };
            assert(rest@ == tail_part(old(self)@[0]));
            assert(slice@ == head_part(old(self)@[0]));
            let ghost before = self@;
            self.items.insert(0, rest);
            assert(self@ =~= seq![rest@] + before);
            assert(forall|i: int| 0 < i < self@.len() ==> self@[i] == before[i - 1]);
        }
        Some(slice)
    }
}

proof fn lemma_data_of_concat(a: Seq<SliceView>, b: Seq<SliceView>, filename: Seq<char>)
    ensures
        data_of(a + b, filename) == data_of(a, filename) + data_of(b, filename),
    decreases a.len(),
{
    if a.len() == 0 {
        assert(a + b =~= b);
        assert(data_of(a, filename) + data_of(b, filename) =~= data_of(b, filename));
    } else {
        assert((a + b).drop_first() =~= a.drop_first() + b);
        lemma_data_of_concat(a.drop_first(), b, filename);
        assert(data_of(a + b, filename) =~= data_of(a, filename) + data_of(b, filename));
    }
}

proof fn lemma_data_of_single(s: SliceView, filename: Seq<char>)
    ensures
        data_of(seq![s], filename) == (if s.is_data() && s.filename == filename {
            s.payload
        } else {
            Seq::empty()
        }),
{
    let q = seq![s];
    assert(q.drop_first() =~= Seq::<SliceView>::empty());
    assert(data_of(q.drop_first(), filename) == Seq::<u8>::empty());
    assert(data_of(q, filename) =~= (if s.is_data() && s.filename == filename {
        s.payload
    } else {
        Seq::empty()
    }));
}

proof fn lemma_chunks_keep_data(s: SliceView, filename: Seq<char>)
    ensures
        data_of(chunks(s), filename) == data_of(seq![s], filename),
    decreases s.payload.len(),
{
    lemma_data_of_single(s, filename);
    if s.payload.len() > MAX_WRITE_SIZE {
        lemma_chunks_keep_data(tail_part(s), filename);
        lemma_data_of_concat(seq![head_part(s)], chunks(tail_part(s)), filename);
        lemma_data_of_single(head_part(s), filename);
        lemma_data_of_single(tail_part(s), filename);
        assert(s.payload =~= s.payload.take(MAX_WRITE_SIZE as int) + s.payload.skip(
            MAX_WRITE_SIZE as int,
        ));
        if s.is_data() && s.filename == filename {
            assert(data_of(chunks(s), filename) =~= s.payload);
        } else {
            assert(data_of(chunks(s), filename) =~= Seq::<u8>::empty());
        }
    }
}

/// One dispatcher step hands on exactly the next item of the full drain, and
/// what is left drains to the remainder: repeated steps emit `dispatch_all`.
pub proof fn lemma_step_follows_drain(q: Seq<SliceView>)
    requires
        q.len() > 0,
    ensures
        dispatch_step(q).0 is Some,
        dispatch_all(q) == seq![dispatch_step(q).0.unwrap()] + dispatch_all(dispatch_step(q).1),
{
    let h = q[0];
    if h.payload.len() > MAX_WRITE_SIZE {
        let rest = seq![tail_part(h)] + q.drop_first();
        assert(rest[0] == tail_part(h));
        assert(rest.drop_first() =~= q.drop_first());
        assert(dispatch_all(q) =~= seq![head_part(h)] + dispatch_all(rest));
    } else {
        assert(dispatch_all(q) =~= seq![h] + dispatch_all(q.drop_first()));
    }
}

/// Draining the queue keeps, for every file, the bytes addressed to it and
/// their order, whatever other sessions' slices are interleaved with them.
pub proof fn lemma_drain_keeps_order(q: Seq<SliceView>, filename: Seq<char>)
    ensures
        data_of(dispatch_all(q), filename) == data_of(q, filename),
    decreases q.len(),
{
    if q.len() > 0 {
        lemma_drain_keeps_order(q.drop_first(), filename);
        lemma_chunks_keep_data(q[0], filename);
        lemma_data_of_concat(chunks(q[0]), dispatch_all(q.drop_first()), filename);
        lemma_data_of_single(q[0], filename);
        assert(data_of(q, filename) =~= data_of(seq![q[0]], filename) + data_of(
            q.drop_first(),
            filename,
        ));
    }
}

proof fn lemma_chunks_bounded(s: SliceView)
    ensures
        forall|i: int|
            0 <= i < chunks(s).len() ==> #[trigger] chunks(s)[i].payload.len() <= MAX_WRITE_SIZE,
    decreases s.payload.len(),
{
    if s.payload.len() > MAX_WRITE_SIZE {
        lemma_chunks_bounded(tail_part(s));
        assert forall|i: int| 0 <= i < chunks(s).len() implies #[trigger] chunks(s)[i].payload.len()
            <= MAX_WRITE_SIZE by {
            if i > 0 {
                assert(chunks(s)[i] == chunks(tail_part(s))[i - 1]);
            }
        }
    }
}

/// No dispatched item carries more than `MAX_WRITE_SIZE` bytes.
pub proof fn lemma_drain_bounded(q: Seq<SliceView>)
    ensures
        forall|i: int|
            0 <= i < dispatch_all(q).len() ==> #[trigger] dispatch_all(q)[i].payload.len()
                <= MAX_WRITE_SIZE,
    decreases q.len(),
{
    if q.len() > 0 {
        lemma_drain_bounded(q.drop_first());
        lemma_chunks_bounded(q[0]);
        let c = chunks(q[0]);
        let d = dispatch_all(q.drop_first());
        assert forall|i: int| 0 <= i < dispatch_all(q).len() implies #[trigger] dispatch_all(
            q,
        )[i].payload.len() <= MAX_WRITE_SIZE by {
            if i < c.len() {
                assert(dispatch_all(q)[i] == c[i]);
            } else {
                assert(dispatch_all(q)[i] == d[i - c.len()]);
            }
        }
    }
}

/// A well-formed control slice carries no bytes, so the dispatcher hands it on
/// whole and in its place in the queue.
pub proof fn lemma_control_passes_whole(s: SliceView)
    requires
        s.wf(),
        s.command is Some,
    ensures
        chunks(s) == seq![s],
{
}

/// A slice of `k * MAX_WRITE_SIZE + r` bytes (`0 < r <= MAX_WRITE_SIZE`) is
/// dispatched as `k + 1` items for the same file with the same command: the
/// first `k` carry `MAX_WRITE_SIZE` bytes each, the last `r`, and item `i`
/// carries the bytes of the original from `i * MAX_WRITE_SIZE` on.
pub proof fn lemma_chunk_count(s: SliceView, k: nat, r: nat)
    requires
        s.payload.len() == k * MAX_WRITE_SIZE + r,
        0 < r <= MAX_WRITE_SIZE,
    ensures
        chunks(s).len() == k + 1,
        forall|i: int|
            0 <= i < k ==> #[trigger] chunks(s)[i].payload == s.payload.subrange(
                i * MAX_WRITE_SIZE,
                (i + 1) * MAX_WRITE_SIZE,
            ),
        chunks(s)[k as int].payload == s.payload.subrange(
            k * MAX_WRITE_SIZE,
            s.payload.len() as int,
        ),
        forall|i: int|
            0 <= i <= k ==> #[trigger] chunks(s)[i].filename == s.filename && chunks(s)[i].command
                == s.command,
    decreases k,
{
    if k == 0 {
        assert(s.payload.subrange(0, s.payload.len() as int) =~= s.payload);
    } else {
        let t = tail_part(s);
        assert(t.payload.len() == (k - 1) as nat * MAX_WRITE_SIZE + r) by (nonlinear_arith)
            requires
                t.payload.len() == s.payload.len() - MAX_WRITE_SIZE,
                s.payload.len() == k * MAX_WRITE_SIZE + r,
                k > 0,
        ;
        lemma_chunk_count(t, (k - 1) as nat, r);
        let c = chunks(s);
        let ct = chunks(t);
        assert(c == seq![head_part(s)] + ct);
        assert forall|i: int| 0 <= i < k implies #[trigger] c[i].payload == s.payload.subrange(
            i * MAX_WRITE_SIZE,
            (i + 1) * MAX_WRITE_SIZE,
        ) by {
            if i == 0 {
                assert(c[0].payload =~= s.payload.subrange(0, MAX_WRITE_SIZE as int));
            } else {
                assert(c[i] == ct[i - 1]);
                assert((i - 1) * MAX_WRITE_SIZE + MAX_WRITE_SIZE == i * MAX_WRITE_SIZE) by (
                nonlinear_arith);
                assert(i * MAX_WRITE_SIZE + MAX_WRITE_SIZE == (i + 1) * MAX_WRITE_SIZE) by (
                nonlinear_arith);
                assert(c[i].payload =~= s.payload.subrange(
                    i * MAX_WRITE_SIZE,
                    (i + 1) * MAX_WRITE_SIZE,
                ));
            }
        }
        assert(c[k as int] == ct[k - 1]);
        assert(((k - 1) as nat) * MAX_WRITE_SIZE + MAX_WRITE_SIZE == k * MAX_WRITE_SIZE) by (
        nonlinear_arith)
            requires
                k > 0,
        ;
        assert(c[k as int].payload =~= s.payload.subrange(
            k * MAX_WRITE_SIZE,
            s.payload.len() as int,
        ));
        assert forall|i: int| 0 <= i <= k implies #[trigger] c[i].filename == s.filename
            && c[i].command == s.command by {
            if i > 0 {
                assert(c[i] == ct[i - 1]);
            }
        }
    }
}

} // verus!

//! The batch aggregator for draw submission.
//!
//! Instances are accumulated per draw key (texture and blend mode).  Within
//! one frame, repeated pushes to the same key accumulate; at draw time one
//! draw call is emitted per key with at least one instance, and the
//! per-frame (transient) contributions are then cleared while the
//! persistent contributions stay for the next frame.  Batches themselves
//! are kept across frames so their allocations can be reused; only their
//! transient contents are dropped.

use crate::instance::BlendMode;
use crate::instance::InstanceData;
use crate::instance::SingleRenderState;
use crate::instance::TextureRef;
use crate::instance::instance_data_of;
use crate::instance::spec_instance_data_of;
use vstd::prelude::*;

verus! {

/// The identity a batch accumulates under: one draw call is issued per key
/// with at least one instance.
#[derive(Clone, Copy, PartialEq, Eq, Structural, Debug, Hash)]
pub struct BatchKey {
    pub tex: TextureRef,
    pub blend: BlendMode,
}

/// One emitted draw call: the key and how many accumulated instances it
/// covers.
#[derive(Clone, Copy, PartialEq, Eq, Structural, Debug)]
pub struct DrawCall {
    pub key: BatchKey,
    pub instance_count: usize,
}

/// Mathematical model of one batch: the accumulated GPU-layout instances,
/// with the persistent contributions as the prefix of length
/// `persistent_len` and the transient contributions behind them.
#[verifier::ext_equal]
pub ghost struct BatchView {
    pub key: BatchKey,
    pub instances: Seq<InstanceData>,
    pub persistent_len: nat,
}

impl BatchView {
    /// The persistent prefix never exceeds the accumulation buffer.
    pub open spec fn wf(self) -> bool {
        self.persistent_len <= self.instances.len()
    }
}

/// The sequence of instance records a push contributes, in order.
pub open spec fn converted(items: Seq<SingleRenderState>) -> Seq<InstanceData> {
    items.map_values(|s: SingleRenderState| spec_instance_data_of(s))
}

/// A batch created by the first push to its key.
pub open spec fn fresh_batch(
    key: BatchKey,
    transient: Seq<InstanceData>,
    persistent: Seq<InstanceData>,
) -> BatchView {
    BatchView {
        key,
        instances: persistent + transient,
        persistent_len: persistent.len(),
    }
}

/// A batch after a further push: new persistent instances join the end of
/// the persistent prefix, new transient instances join the end of the
/// buffer.
pub open spec fn pushed(
    b: BatchView,
    transient: Seq<InstanceData>,
    persistent: Seq<InstanceData>,
) -> BatchView {
    BatchView {
        key: b.key,
        instances: b.instances.take(b.persistent_len as int) + persistent + b.instances.skip(
            b.persistent_len as int,
        ) + transient,
        persistent_len: b.persistent_len + persistent.len(),
    }
}

/// A batch after the frame: transient contributions dropped, persistent
/// prefix kept.
pub open spec fn frame_cleared(b: BatchView) -> BatchView {
    BatchView { instances: b.instances.take(b.persistent_len as int), ..b }
}

/// Index of the batch accumulating under `key`, or `bs.len()` if no push
/// has used the key yet.
pub open spec fn find_key(bs: Seq<BatchView>, key: BatchKey) -> int
    decreases bs.len(),
{
    if bs.len() == 0 {
        0
    } else if bs[0].key == key {
        0
    } else {
        1 + find_key(bs.drop_first(), key)
    }
}

/// A scan that passes only other keys and stops at the key (or at the end)
/// has found `find_key`.
pub proof fn lemma_find_key_is(bs: Seq<BatchView>, key: BatchKey, i: int)
    requires
        0 <= i <= bs.len(),
        forall|j: int| 0 <= j < i ==> bs[j].key != key,
        i < bs.len() ==> bs[i].key == key,
    ensures
        find_key(bs, key) == i,
    decreases bs.len(),
{
    if bs.len() == 0 {
    } else if i == 0 {
    } else {
        assert(bs[0].key != key);
        assert forall|j: int| 0 <= j < i - 1 implies bs.drop_first()[j].key != key by {
            assert(bs.drop_first()[j] == bs[j + 1]);
        }
        assert(i - 1 < bs.drop_first().len() ==> bs.drop_first()[i - 1].key == key);
        lemma_find_key_is(bs.drop_first(), key, i - 1);
    }
}

/// Every batch is well formed and no key is accumulated twice.
pub open spec fn wf_batches(bs: Seq<BatchView>) -> bool {
    &&& forall|i: int| 0 <= i < bs.len() ==> (#[trigger] bs[i]).wf()
    &&& forall|i: int, j: int| 0 <= i < j < bs.len() ==> bs[i].key != bs[j].key
}

/// The draw calls a frame emits: one per batch holding at least one
/// instance, in batch order, counting all accumulated instances.
pub open spec fn draw_calls_spec(bs: Seq<BatchView>) -> Seq<DrawCall>
    decreases bs.len(),
{
    if bs.len() == 0 {
        Seq::empty()
    } else {
        let head: Seq<DrawCall> = if bs[0].instances.len() > 0 {
            seq![DrawCall { key: bs[0].key, instance_count: bs[0].instances.len() as usize }]
        } else {
            Seq::empty()
        };
        head + draw_calls_spec(bs.drop_first())
    }
}

/// Emitting over one more batch at the back appends that batch's call, if
/// any.
pub proof fn lemma_draw_calls_snoc(bs: Seq<BatchView>, b: BatchView)
    ensures
        draw_calls_spec(bs.push(b)) == draw_calls_spec(bs) + (if b.instances.len() > 0 {
            seq![DrawCall { key: b.key, instance_count: b.instances.len() as usize }]
        } else {
            Seq::<DrawCall>::empty()
        }),
    decreases bs.len(),
{
    let p = bs.push(b);
    let tail: Seq<DrawCall> = if b.instances.len() > 0 {
        seq![DrawCall { key: b.key, instance_count: b.instances.len() as usize }]
    } else {
        Seq::empty()
    };
    if bs.len() == 0 {
        assert(p[0] == b);
        assert(p.drop_first() =~= Seq::<BatchView>::empty());
        assert(draw_calls_spec(Seq::<BatchView>::empty()) == Seq::<DrawCall>::empty());
        assert(draw_calls_spec(p) =~= draw_calls_spec(bs) + tail);
    } else {
        assert(p[0] == bs[0]);
        assert(p.drop_first() =~= bs.drop_first().push(b));
        lemma_draw_calls_snoc(bs.drop_first(), b);
        assert(draw_calls_spec(p) =~= draw_calls_spec(bs) + tail);
    }
}

/// One accumulating batch.
struct Batch {
    key: BatchKey,
    instances: Vec<InstanceData>,
    persistent_len: usize,
}

impl View for Batch {
    type V = BatchView;

    closed spec fn view(&self) -> BatchView {
        BatchView {
            key: self.key,
            instances: self.instances@,
            persistent_len: self.persistent_len as nat,
        }
    }
}

/// Appends the conversion of each record to the accumulation buffer.
fn append_converted(dst: &mut Vec<InstanceData>, items: &Vec<SingleRenderState>)
    ensures
        final(dst)@ == old(dst)@ + converted(items@),
{
    let mut k: usize = 0;
    while k < items.len()
        invariant
            k <= items@.len(),
            dst@ == old(dst)@ + converted(items@).take(k as int),
        decreases items@.len() - k,
    {
        let c = instance_data_of(&items[k]);
        dst.push(c);
        k += 1;
        proof {
            assert(dst@ =~= old(dst)@ + converted(items@).take(k as int));
        }
    }
    proof {
        assert(dst@ =~= old(dst)@ + converted(items@));
    }
}

/// Appends the records of `src` at `[lo, hi)` to the accumulation buffer.
fn append_slice(dst: &mut Vec<InstanceData>, src: &Vec<InstanceData>, lo: usize, hi: usize)
    requires
        lo <= hi <= src@.len(),
    ensures
        final(dst)@ == old(dst)@ + src@.subrange(lo as int, hi as int),
{
    let mut k: usize = lo;
    while k < hi
        invariant
            lo <= k <= hi <= src@.len(),
            dst@ == old(dst)@ + src@.subrange(lo as int, k as int),
        decreases hi - k,
    {
        let c = src[k];
        dst.push(c);
        k += 1;
        proof {
            assert(dst@ =~= old(dst)@ + src@.subrange(lo as int, k as int));
        }
    }
}

/// The batch aggregator: per-key accumulation buffers for draw submission.
pub struct BatchAggregator {
    batches: Vec<Batch>,
}

impl BatchAggregator {
    /// The batches as a sequence of models, in order of first push.
    pub closed spec fn bviews(&self) -> Seq<BatchView> {
        self.batches@.map_values(|b: Batch| b@)
    }

    /// Every batch is well formed and keys are accumulated once.
    pub open spec fn wf(&self) -> bool {
        wf_batches(self.bviews())
    }

    /// An aggregator with no batches.
    pub fn new() -> (r: BatchAggregator)
        ensures
            r.wf(),
            r.bviews() == Seq::<BatchView>::empty(),
    {
        let r = BatchAggregator { batches: Vec::new() };
        proof {
            assert(r.bviews() =~= Seq::<BatchView>::empty());
        }
        r
    }

    /// Appends instances to the key's accumulation buffer, creating it on
    /// the first push: the per-frame records go behind the buffer, the
    /// raw/persistent records behind the persistent prefix.  Pushing the
    /// same key again accumulates; it never overwrites.
    pub fn push_models(
        &mut self,
        key: BatchKey,
        transient: &Vec<SingleRenderState>,
        persistent: &Vec<SingleRenderState>,
    )
        requires
            old(self).wf(),
        ensures
            final(self).wf(),
            ({
                let bs = old(self).bviews();
                let t = converted(transient@);
                let p = converted(persistent@);
                let j = find_key(bs, key);
                final(self).bviews() == (if j < bs.len() {
                    bs.update(j, pushed(bs[j], t, p))
                } else {
                    bs.push(fresh_batch(key, t, p))
                })
            }),
    {
        let n = self.batches.len();
        let mut i: usize = 0;
        while i < n && !(self.batches[i].key == key)
            invariant
                n == self.bviews().len(),
                i <= n,
                *self == *old(self),
                forall|j: int| 0 <= j < i ==> (#[trigger] self.bviews()[j]).key != key,
            decreases n - i,
        {
            i += 1;
        }
        proof {
            lemma_find_key_is(self.bviews(), key, i as int);
        }
        if i < n {
            proof {
                assert(self.bviews()[i as int].wf());
            }
            let plen = self.batches[i].persistent_len;
            let total = self.batches[i].instances.len();
            let mut new_insts: Vec<InstanceData> = Vec::new();
            append_slice(&mut new_insts, &self.batches[i].instances, 0, plen);
            append_converted(&mut new_insts, persistent);
            let new_plen = new_insts.len();
            append_slice(&mut new_insts, &self.batches[i].instances, plen, total);
            append_converted(&mut new_insts, transient);
            proof {
                assert(new_insts@ =~= self.bviews()[i as int].instances.take(plen as int)
                    + converted(persistent@) + self.bviews()[i as int].instances.skip(plen as int)
                    + converted(transient@));
            }
            let b = &mut self.batches[i];
            b.instances = new_insts;
            b.persistent_len = new_plen;
            proof {
                assert(self.bviews() =~= old(self).bviews().update(
                    i as int,
                    pushed(
                        old(self).bviews()[i as int],
                        converted(transient@),
                        converted(persistent@),
                    ),
                ));
            }
        } else {
            let mut insts: Vec<InstanceData> = Vec::new();
            append_converted(&mut insts, persistent);
            let plen = insts.len();
            append_converted(&mut insts, transient);
            let b = Batch { key, instances: insts, persistent_len: plen };
            self.batches.push(b);
            proof {
                assert(self.bviews() =~= old(self).bviews().push(
                    fresh_batch(key, converted(transient@), converted(persistent@)),
                ));
            }
        }
    }

    /// Number of batches, including ones that are currently empty.
    pub fn batch_count(&self) -> (r: usize)
        ensures
            r == self.bviews().len(),
    {
        self.batches.len()
    }

    /// Emits the frame's draw calls — one per batch holding at least one
    /// instance, in batch order, counting every accumulated instance — and
    /// then ends the frame: transient contributions are dropped and
    /// persistent prefixes stay for the next frame's accumulation.
    pub fn draw(&mut self) -> (calls: Vec<DrawCall>)
        requires
            old(self).wf(),
        ensures
            final(self).wf(),
            calls@ == draw_calls_spec(old(self).bviews()),
            final(self).bviews() == old(self).bviews().map_values(|b: BatchView| frame_cleared(b)),
    {
        let n = self.batches.len();
        let mut calls: Vec<DrawCall> = Vec::new();
        let mut i: usize = 0;
        while i < n
            invariant
                n == self.bviews().len(),
                i <= n,
                *self == *old(self),
                calls@ == draw_calls_spec(self.bviews().take(i as int)),
            decreases n - i,
        {
            proof {
                lemma_draw_calls_snoc(self.bviews().take(i as int), self.bviews()[i as int]);
                assert(self.bviews().take(i + 1) =~= self.bviews().take(i as int).push(
                    self.bviews()[i as int],
                ));
            }
            if self.batches[i].instances.len() > 0 {
                let c = DrawCall {
                    key: self.batches[i].key,
                    instance_count: self.batches[i].instances.len(),
                };
                calls.push(c);
            }
            i += 1;
        }
        proof {
            assert(self.bviews().take(n as int) =~= self.bviews());
        }
        let mut j: usize = 0;
        while j < n
            invariant
                n == self.bviews().len(),
                n == old(self).bviews().len(),
                j <= n,
                calls@ == draw_calls_spec(old(self).bviews()),
                wf_batches(old(self).bviews()),
                forall|k: int|
                    0 <= k < j ==> self.bviews()[k] == frame_cleared(
                        #[trigger] old(self).bviews()[k],
                    ),
                forall|k: int|
                    j <= k < n ==> self.bviews()[k] == #[trigger] old(self).bviews()[k],
            decreases n - j,
        {
            proof {
                assert(old(self).bviews()[j as int].wf());
            }
            let b = &mut self.batches[j];
            let plen = b.persistent_len;
            b.instances.truncate(plen);
            j += 1;
        }
        proof {
            assert(self.bviews() =~= old(self).bviews().map_values(
                |b: BatchView| frame_cleared(b),
            ));
        }
        calls
    }
}

} // verus!

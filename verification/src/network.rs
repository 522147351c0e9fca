use crate::elem::MatElem;
use crate::elem::RandomElem;
use crate::functions::ActivationFn;
use crate::functions::LossFn;
use crate::functions::binary_total;
use crate::functions::maps_to;
use crate::functions::unary_total;
use crate::functions::zips_to;
use crate::matrix::Mat;
use crate::matrix::MatError;
use crate::matrix::MatView;
use vstd::prelude::*;

verus! {

/// One layer transition of a forward pass: `y` is a possible
/// element-wise image under the activation `f` of the affine value
/// `w * x + b`, and is a column of `w.rows` elements.
pub open spec fn layer_step<T: MatElem, AF: Fn(T) -> T>(
    w: MatView<T>,
    b: MatView<T>,
    x: MatView<T>,
    y: MatView<T>,
    f: AF,
) -> bool {
    &&& y.rows == w.rows
    &&& y.cols == 1
    &&& y.wf()
    &&& maps_to(f, w.dot_view(x).add_view(b).data, y.data)
}

/// The weights, biases and downward-flowing losses at some point of a
/// backward pass.
pub struct BpState<T> {
    pub ws: Seq<MatView<T>>,
    pub bs: Seq<MatView<T>>,
    pub losses: MatView<T>,
}

/// One backward step at layer `i`: scale the element-wise product of
/// the gradient seed and the losses by the learning rate, add the
/// outer product with the cached layer input to the weight, add the
/// scaled gradient to the bias, and pass the losses down through the
/// just-updated weight.
pub open spec fn bp_step<T: MatElem>(
    s: BpState<T>,
    seed: MatView<T>,
    cache_i: MatView<T>,
    lr: T,
    i: int,
) -> BpState<T> {
    let g = seed.mul_view(s.losses).scale_view(lr);
    let w_new = s.ws[i].add_view(g.dot_view(cache_i.transpose_view()));
    BpState {
        ws: s.ws.update(i, w_new),
        bs: s.bs.update(i, s.bs[i].add_view(g)),
        losses: w_new.transpose_view().dot_view(s.losses),
    }
}

/// The backward pass after `t` steps, starting from weights `w0`,
/// biases `b0` and initial losses `l0`: step `t` works on layer
/// `w0.len() - t`, so the pass runs from the last layer down to the
/// first.
pub open spec fn bp_run<T: MatElem>(
    w0: Seq<MatView<T>>,
    b0: Seq<MatView<T>>,
    cache: Seq<MatView<T>>,
    seeds: Seq<MatView<T>>,
    l0: MatView<T>,
    lr: T,
    t: int,
) -> BpState<T>
    decreases t,
{
    if t <= 0 {
        BpState { ws: w0, bs: b0, losses: l0 }
    } else {
        let prev = bp_run(w0, b0, cache, seeds, l0, lr, t - 1);
        let i = w0.len() - t;
        bp_step(prev, seeds[i], cache[i], lr, i)
    }
}

/// The first `t` backward steps read only the seeds of the last `t`
/// layers, so two seed sequences that agree there give one result.
proof fn lemma_bp_run_agree<T: MatElem>(
    w0: Seq<MatView<T>>,
    b0: Seq<MatView<T>>,
    cache: Seq<MatView<T>>,
    s1: Seq<MatView<T>>,
    s2: Seq<MatView<T>>,
    l0: MatView<T>,
    lr: T,
    t: int,
)
    requires
        0 <= t <= w0.len(),
        forall|i: int| w0.len() - t <= i < w0.len() ==> s1[i] == s2[i],
    ensures
        bp_run(w0, b0, cache, s1, l0, lr, t) == bp_run(w0, b0, cache, s2, l0, lr, t),
    decreases t,
{
    if t > 0 {
        lemma_bp_run_agree(w0, b0, cache, s1, s2, l0, lr, t - 1);
    }
}

/// The gradient seeds of a backward pass: for the last layer a
/// possible image of the prediction under the activation derivative,
/// for every earlier layer a possible image of that layer's cached
/// output; all columns of the next layer's width.
pub open spec fn bp_seeds_ok<T: MatElem, AD: Fn(T) -> T>(
    seeds: Seq<MatView<T>>,
    prediction: MatView<T>,
    cache: Seq<MatView<T>>,
    fp: AD,
    nlayers: int,
) -> bool {
    &&& seeds.len() == nlayers
    &&& forall|i: int|
        0 <= i < nlayers ==> #[trigger] seed_ok_at(seeds, prediction, cache, fp, nlayers, i)
}

/// The gradient seed of layer `i` is a possible image, under the
/// activation derivative, of the prediction for the last layer and
/// of the cached layer output for every earlier one.
pub open spec fn seed_ok_at<T: MatElem, AD: Fn(T) -> T>(
    seeds: Seq<MatView<T>>,
    prediction: MatView<T>,
    cache: Seq<MatView<T>>,
    fp: AD,
    nlayers: int,
    i: int,
) -> bool {
    let src = if i == nlayers - 1 {
        prediction
    } else {
        cache[i + 1]
    };
    &&& seeds[i].rows == src.rows
    &&& seeds[i].cols == 1
    &&& seeds[i].wf()
    &&& maps_to(fp, src.data, seeds[i].data)
}

/// What a backward pass leaves behind: for some gradient seeds drawn
/// from the activation derivative and some initial losses drawn from
/// the loss derivative on prediction and truth, the new weights and
/// biases are the result of running every backward step on the old
/// state.
pub open spec fn backprop_rel<T: MatElem, AD: Fn(T) -> T, LD: Fn(T, T) -> T>(
    w0: Seq<MatView<T>>,
    b0: Seq<MatView<T>>,
    cache: Seq<MatView<T>>,
    fp: AD,
    lp: LD,
    lr: T,
    prediction: MatView<T>,
    truth: MatView<T>,
    ws_new: Seq<MatView<T>>,
    bs_new: Seq<MatView<T>>,
) -> bool {
    exists|seeds: Seq<MatView<T>>, l0: MatView<T>|
        #[trigger] backprop_witness(
            w0,
            b0,
            cache,
            fp,
            lp,
            lr,
            prediction,
            truth,
            ws_new,
            bs_new,
            seeds,
            l0,
        )
}

/// One concrete choice of gradient seeds and initial losses that
/// explains a backward pass's outcome.
pub open spec fn backprop_witness<T: MatElem, AD: Fn(T) -> T, LD: Fn(T, T) -> T>(
    w0: Seq<MatView<T>>,
    b0: Seq<MatView<T>>,
    cache: Seq<MatView<T>>,
    fp: AD,
    lp: LD,
    lr: T,
    prediction: MatView<T>,
    truth: MatView<T>,
    ws_new: Seq<MatView<T>>,
    bs_new: Seq<MatView<T>>,
    seeds: Seq<MatView<T>>,
    l0: MatView<T>,
) -> bool {
    &&& bp_seeds_ok(seeds, prediction, cache, fp, w0.len() as int)
    &&& l0.rows == prediction.rows
    &&& l0.cols == 1
    &&& l0.wf()
    &&& zips_to(lp, prediction.data, truth.data, l0.data)
    &&& ws_new == bp_run(w0, b0, cache, seeds, l0, lr, w0.len() as int).ws
    &&& bs_new == bp_run(w0, b0, cache, seeds, l0, lr, w0.len() as int).bs
}

/// A flat sequence seen as a column vector.
pub open spec fn column_view<T>(s: Seq<T>) -> MatView<T> {
    MatView { rows: s.len(), cols: 1, data: s }
}

/// The left fold of a sequence with the element addition, from `acc`.
pub open spec fn fold_add<T: MatElem>(acc: T, s: Seq<T>) -> T
    decreases s.len(),
{
    if s.len() == 0 {
        acc
    } else {
        fold_add(acc.add_spec(s[0]), s.drop_first())
    }
}

/// The left fold of a sequence of sequences, each folded in turn.
pub open spec fn fold_add_all<T: MatElem>(acc: T, ss: Seq<Seq<T>>) -> T
    decreases ss.len(),
{
    if ss.len() == 0 {
        acc
    } else {
        fold_add_all(fold_add(acc, ss[0]), ss.drop_first())
    }
}

/// Folding one more element adds it at the end.
pub proof fn lemma_fold_add_push<T: MatElem>(acc: T, s: Seq<T>, x: T)
    ensures
        fold_add(acc, s.push(x)) == fold_add(acc, s).add_spec(x),
    decreases s.len(),
{
    if s.len() == 0 {
        assert(s.push(x).drop_first() =~= Seq::<T>::empty());
        assert(s.push(x)[0] == x);
        assert(fold_add(acc, s) == acc);
        assert(fold_add(acc.add_spec(x), Seq::<T>::empty()) == acc.add_spec(x));
        assert(fold_add(acc, s.push(x)) == fold_add(acc.add_spec(x), s.push(x).drop_first()));
    } else {
        assert(s.push(x).drop_first() =~= s.drop_first().push(x));
        assert(s.push(x)[0] == s[0]);
        lemma_fold_add_push(acc.add_spec(s[0]), s.drop_first(), x);
        assert(fold_add(acc, s.push(x)) == fold_add(acc.add_spec(s[0]), s.drop_first().push(x)));
        assert(fold_add(acc, s) == fold_add(acc.add_spec(s[0]), s.drop_first()));
    }
}

/// Folding one more inner sequence folds it at the end.
pub proof fn lemma_fold_add_all_push<T: MatElem>(acc: T, ss: Seq<Seq<T>>, l: Seq<T>)
    ensures
        fold_add_all(acc, ss.push(l)) == fold_add(fold_add_all(acc, ss), l),
    decreases ss.len(),
{
    if ss.len() == 0 {
        assert(ss.push(l).drop_first() =~= Seq::<Seq<T>>::empty());
        assert(ss.push(l)[0] == l);
        assert(fold_add_all(acc, ss) == acc);
        assert(fold_add_all(fold_add(acc, l), Seq::<Seq<T>>::empty()) == fold_add(acc, l));
        assert(fold_add_all(acc, ss.push(l)) == fold_add_all(
            fold_add(acc, l),
            ss.push(l).drop_first(),
        ));
    } else {
        assert(ss.push(l).drop_first() =~= ss.drop_first().push(l));
        assert(ss.push(l)[0] == ss[0]);
        lemma_fold_add_all_push(fold_add(acc, ss[0]), ss.drop_first(), l);
        assert(fold_add_all(acc, ss.push(l)) == fold_add_all(
            fold_add(acc, ss[0]),
            ss.drop_first().push(l),
        ));
        assert(fold_add_all(acc, ss) == fold_add_all(fold_add(acc, ss[0]), ss.drop_first()));
    }
}

/// Epoch `i` of a training run is a logged checkpoint: every epoch
/// when there are fewer than twenty, else every twentieth of the run.
pub open spec fn is_checkpoint(i: int, epochs: int) -> bool {
    epochs < 20 || i % (epochs / 20) == 0
}

/// How many of the first `i` epochs are logged checkpoints.
pub open spec fn checkpoint_count(i: int, epochs: int) -> nat
    decreases i,
{
    if i <= 0 {
        0
    } else {
        checkpoint_count(i - 1, epochs) + (if is_checkpoint(i, epochs) {
            1nat
        } else {
            0nat
        })
    }
}

/// A stack of per-layer weight and bias matrices with a forward
/// (inference) pass and a backward (gradient-descent update) pass;
/// the activation cache of the latest forward pass couples the two.
#[verifier::reject_recursive_types(T)]
pub struct NeuralNet<T, AF, AD, LF, LD> where
    T: MatElem,
    AF: Fn(T) -> T,
    AD: Fn(T) -> T,
    LF: Fn(T, T) -> T,
    LD: Fn(T, T) -> T,
 {
    architecture: Vec<usize>,
    weights: Vec<Mat<T>>,
    biases: Vec<Mat<T>>,
    learning_rate: T,
    activation: ActivationFn<AF, AD>,
    loss: LossFn<LF, LD>,
    data: Vec<Mat<T>>,
}

impl<T, AF, AD, LF, LD> NeuralNet<T, AF, AD, LF, LD> where
    T: MatElem,
    AF: Fn(T) -> T,
    AD: Fn(T) -> T,
    LF: Fn(T, T) -> T,
    LD: Fn(T, T) -> T,
 {
    /// The layer widths, input layer first.
    pub closed spec fn arch(self) -> Seq<usize> {
        self.architecture@
    }

    /// The weight matrices, one per layer transition, as views.
    pub closed spec fn weights_view(self) -> Seq<MatView<T>> {
        Seq::new(self.weights@.len(), |i: int| self.weights@[i]@)
    }

    /// The bias matrices, one per layer transition, as views.
    pub closed spec fn biases_view(self) -> Seq<MatView<T>> {
        Seq::new(self.biases@.len(), |i: int| self.biases@[i]@)
    }

    /// The activation cache left by the latest forward pass, as views.
    pub closed spec fn cache_view(self) -> Seq<MatView<T>> {
        Seq::new(self.data@.len(), |i: int| self.data@[i]@)
    }

    pub closed spec fn rate(self) -> T {
        self.learning_rate
    }

    pub closed spec fn act(self) -> ActivationFn<AF, AD> {
        self.activation
    }

    pub closed spec fn loss_fns(self) -> LossFn<LF, LD> {
        self.loss
    }

    /// The structural invariant: at least two layers; one weight and
    /// one bias matrix per transition, of shapes `(next, prev)` and
    /// `(next, 1)`; positive layer widths; weight sizes that fit the
    /// address space; and function pairs callable on all elements.
    pub open spec fn wf(self) -> bool {
        &&& self.arch().len() >= 2
        &&& self.weights_view().len() == self.arch().len() - 1
        &&& self.biases_view().len() == self.arch().len() - 1
        &&& forall|i: int| 0 <= i < self.arch().len() ==> (#[trigger] self.arch()[i]) >= 1
        &&& forall|i: int|
            0 <= i < self.arch().len() - 1 ==> {
                &&& (#[trigger] self.weights_view()[i]).wf()
                &&& self.weights_view()[i].rows == self.arch()[i + 1]
                &&& self.weights_view()[i].cols == self.arch()[i]
                &&& self.weights_view()[i].rows * self.weights_view()[i].cols <= usize::MAX
                &&& self.biases_view()[i].wf()
                &&& self.biases_view()[i].rows == self.arch()[i + 1]
                &&& self.biases_view()[i].cols == 1
            }
        &&& unary_total(self.act().f)
        &&& unary_total(self.act().f_prime)
        &&& binary_total(self.loss_fns().f)
        &&& binary_total(self.loss_fns().f_prime)
    }

    /// The cache is fresh: one column per layer, of that layer's
    /// width, as a completed forward pass leaves it.
    pub open spec fn cache_ok(self) -> bool {
        &&& self.cache_view().len() == self.arch().len()
        &&& forall|k: int|
            0 <= k < self.cache_view().len() ==> {
                &&& (#[trigger] self.cache_view()[k]).wf()
                &&& self.cache_view()[k].rows == self.arch()[k]
                &&& self.cache_view()[k].cols == 1
            }
    }

    /// What a successful forward pass leaves behind: parameters
    /// untouched, a fresh cache that starts at the input and steps
    /// through every layer transition, and the last cache entry as
    /// the output.
    pub open spec fn forward_post(pre: Self, post: Self, input: MatView<T>, out: MatView<T>) -> bool {
        &&& post.wf()
        &&& post.arch() == pre.arch()
        &&& post.weights_view() == pre.weights_view()
        &&& post.biases_view() == pre.biases_view()
        &&& post.rate() == pre.rate()
        &&& post.act() == pre.act()
        &&& post.loss_fns() == pre.loss_fns()
        &&& post.cache_ok()
        &&& post.cache_view().len() == pre.arch().len()
        &&& post.cache_view()[0] == input
        &&& forall|i: int|
            0 <= i < pre.arch().len() - 1 ==> layer_step(
                pre.weights_view()[i],
                pre.biases_view()[i],
                post.cache_view()[i],
                #[trigger] post.cache_view()[i + 1],
                pre.act().f,
            )
        &&& out == post.cache_view().last()
    }

    /// What a backward pass leaves behind: the cache and everything
    /// but the parameters untouched, and the parameters updated as
    /// `backprop_rel` says.
    pub open spec fn backprop_post(
        pre: Self,
        post: Self,
        prediction: MatView<T>,
        truth: MatView<T>,
    ) -> bool {
        &&& post.wf()
        &&& post.cache_ok()
        &&& post.arch() == pre.arch()
        &&& post.cache_view() == pre.cache_view()
        &&& post.rate() == pre.rate()
        &&& post.act() == pre.act()
        &&& post.loss_fns() == pre.loss_fns()
        &&& backprop_rel(
            pre.weights_view(),
            pre.biases_view(),
            pre.cache_view(),
            pre.act().f_prime,
            pre.loss_fns().f_prime,
            pre.rate(),
            prediction,
            truth,
            post.weights_view(),
            post.biases_view(),
        )
    }

    /// One concrete intermediate state and output that explain one
    /// online update: a forward pass on the input, then a backward
    /// pass of its output against the truth.
    pub open spec fn sample_witness(
        pre: Self,
        post: Self,
        x: Vec<T>,
        y: Vec<T>,
        mid: Self,
        out: MatView<T>,
    ) -> bool {
        &&& Self::forward_post(pre, mid, column_view(x@), out)
        &&& out.rows == pre.arch().last()
        &&& out.cols == 1
        &&& out.wf()
        &&& Self::backprop_post(mid, post, out, column_view(y@))
    }

    /// One online update: a forward pass on `x`, then a backward pass
    /// of its output against `y`.
    pub open spec fn sample_step(pre: Self, post: Self, x: Vec<T>, y: Vec<T>) -> bool {
        exists|mid: Self, out: MatView<T>| #[trigger] Self::sample_witness(pre, post, x, y, mid, out)
    }

    /// One concrete chain of states that explains one epoch: each
    /// dataset pair applied in order as one online update.
    pub open spec fn epoch_witness(
        pre: Self,
        post: Self,
        inputs: Seq<Vec<T>>,
        truth: Seq<Vec<T>>,
        states: Seq<Self>,
    ) -> bool {
        &&& states.len() == inputs.len() + 1
        &&& states[0] == pre
        &&& states.last() == post
        &&& forall|j: int|
            0 <= j < inputs.len() ==> #[trigger] Self::sample_step(
                states[j],
                states[j + 1],
                inputs[j],
                truth[j],
            )
    }

    /// One epoch of online updates in dataset order.
    pub open spec fn epoch_rel(
        pre: Self,
        post: Self,
        inputs: Seq<Vec<T>>,
        truth: Seq<Vec<T>>,
    ) -> bool {
        exists|states: Seq<Self>| #[trigger] Self::epoch_witness(pre, post, inputs, truth, states)
    }

    /// A recomputation that may overwrite the cache but leaves the
    /// parameters exactly as they were.
    pub open spec fn observation_ok(pre: Self, post: Self) -> bool {
        &&& post.wf()
        &&& post.weights_view() == pre.weights_view()
        &&& post.biases_view() == pre.biases_view()
        &&& post.arch() == pre.arch()
        &&& post.rate() == pre.rate()
        &&& post.act() == pre.act()
        &&& post.loss_fns() == pre.loss_fns()
    }

    /// One sample of a loss recomputation: a forward pass from the
    /// state so far, and the element-wise loss images of its output
    /// against the truth column.
    pub open spec fn sample_loss_ok(
        s_pre: Self,
        s_post: Self,
        out: MatView<T>,
        limg: Seq<T>,
        x: Vec<T>,
        y: Vec<T>,
    ) -> bool {
        &&& Self::forward_post(s_pre, s_post, column_view(x@), out)
        &&& out.rows == s_pre.arch().last()
        &&& out.cols == 1
        &&& out.wf()
        &&& zips_to(s_pre.loss_fns().f, out.data, y@, limg)
    }

    /// One concrete chain of states, forward outputs and loss images
    /// that explains a loss recomputation: one forward pass per
    /// sample in order, and the result is the fold of all the loss
    /// images, sample by sample and element by element, with the
    /// element addition from the element zero.
    pub open spec fn loss_sum_witness(
        pre: Self,
        post: Self,
        inputs: Seq<Vec<T>>,
        truth: Seq<Vec<T>>,
        result: T,
        states: Seq<Self>,
        outs: Seq<MatView<T>>,
        limgs: Seq<Seq<T>>,
    ) -> bool {
        &&& states.len() == inputs.len() + 1
        &&& outs.len() == inputs.len()
        &&& limgs.len() == inputs.len()
        &&& states[0] == pre
        &&& states.last() == post
        &&& forall|j: int|
            0 <= j < inputs.len() ==> #[trigger] Self::sample_loss_ok(
                states[j],
                states[j + 1],
                outs[j],
                limgs[j],
                inputs[j],
                truth[j],
            )
        &&& result == fold_add_all(T::zero_spec(), limgs)
    }

    /// The aggregate loss over the dataset: for some per-sample
    /// forward outcomes and loss images, the result is their fold.
    pub open spec fn loss_sum_rel(
        pre: Self,
        post: Self,
        inputs: Seq<Vec<T>>,
        truth: Seq<Vec<T>>,
        result: T,
    ) -> bool {
        exists|states: Seq<Self>, outs: Seq<MatView<T>>, limgs: Seq<Seq<T>>|
            #[trigger] Self::loss_sum_witness(
                pre,
                post,
                inputs,
                truth,
                result,
                states,
                outs,
                limgs,
            )
    }

    /// The observability step after one epoch: at a checkpoint the
    /// recomputed aggregate loss is appended to the log and the
    /// parameters stay untouched; off checkpoints nothing happens.
    pub open spec fn obs_log(
        mid: Self,
        post: Self,
        inputs: Seq<Vec<T>>,
        truth: Seq<Vec<T>>,
        epochs: int,
        i: int,
        lpre: Seq<T>,
        lpost: Seq<T>,
    ) -> bool {
        if is_checkpoint(i, epochs) {
            exists|v: T|
                #[trigger] Self::loss_sum_rel(mid, post, inputs, truth, v)
                    && Self::observation_ok(mid, post) && lpost == lpre.push(v)
        } else {
            post == mid && lpost == lpre
        }
    }

    /// One training epoch followed by its observability step: the
    /// parameter change comes from the epoch's online updates alone,
    /// and the log grows by the recomputed loss exactly at
    /// checkpoints.
    pub open spec fn epoch_obs_log(
        pre: Self,
        post: Self,
        inputs: Seq<Vec<T>>,
        truth: Seq<Vec<T>>,
        epochs: int,
        i: int,
        lpre: Seq<T>,
        lpost: Seq<T>,
    ) -> bool {
        exists|mid: Self|
            #[trigger] Self::epoch_rel(pre, mid, inputs, truth) && Self::obs_log(
                mid,
                post,
                inputs,
                truth,
                epochs,
                i,
                lpre,
                lpost,
            )
    }

    /// Runs the layered affine-plus-activation transform on a column
    /// vector of the input layer's width: resets the cache to the
    /// input, appends each layer's activated output to it, and
    /// returns the last one.  An input with a row count other than
    /// the first layer's width is rejected as a `ShapeMismatch` and
    /// leaves the network untouched.
    pub fn forward(&mut self, inputs: Mat<T>) -> (r: Result<Mat<T>, MatError>)
        requires
            old(self).wf(),
            inputs.wf(),
            inputs@.cols == 1,
        ensures
            final(self).wf(),
            final(self).arch() == old(self).arch(),
            final(self).weights_view() == old(self).weights_view(),
            final(self).biases_view() == old(self).biases_view(),
            final(self).rate() == old(self).rate(),
            final(self).act() == old(self).act(),
            final(self).loss_fns() == old(self).loss_fns(),
            match r {
                Ok(out) => {
                    &&& inputs@.rows == old(self).arch()[0]
                    &&& Self::forward_post(*old(self), *final(self), inputs@, out@)
                    &&& out@.rows == old(self).arch().last()
                    &&& out@.cols == 1
                    &&& out.wf()
                },
                Err(e) => {
                    &&& e == MatError::ShapeMismatch
                    &&& inputs@.rows != old(self).arch()[0]
                    &&& *final(self) == *old(self)
                },
            },
    {
        if self.architecture[0] != inputs.nrows() {
            return Err(MatError::ShapeMismatch);
        }
        let ghost input_view = inputs@;
        let mut current = inputs;
        let mut cache: Vec<Mat<T>> = Vec::new();
        cache.push(current.duplicate());
        self.data = cache;
        let n = self.architecture.len();
        let mut i: usize = 0;
        while i < n - 1
            invariant
                old(self).wf(),
                self.wf(),
                n == self.arch().len(),
                i <= n - 1,
                self.arch() == old(self).arch(),
                self.weights_view() == old(self).weights_view(),
                self.biases_view() == old(self).biases_view(),
                self.rate() == old(self).rate(),
                self.act() == old(self).act(),
                self.loss_fns() == old(self).loss_fns(),
                self.cache_view().len() == i + 1,
                self.cache_view()[0] == input_view,
                current.wf(),
                current@.cols == 1,
                current@.rows == self.arch()[i as int],
                current@ == self.cache_view().last(),
                forall|t: int|
                    0 <= t < self.cache_view().len() ==> {
                        &&& (#[trigger] self.cache_view()[t]).wf()
                        &&& self.cache_view()[t].rows == self.arch()[t]
                        &&& self.cache_view()[t].cols == 1
                    },
                forall|t: int|
                    0 <= t < i ==> layer_step(
                        self.weights_view()[t],
                        self.biases_view()[t],
                        self.cache_view()[t],
                        #[trigger] self.cache_view()[t + 1],
                        self.act().f,
                    ),
            decreases n - 1 - i,
        {
            let ghost pre_cache = self.cache_view();
            let ghost pre_cur = current@;
            proof {
                assert(self.weights@[i as int]@ == self.weights_view()[i as int]);
                assert(self.biases@[i as int]@ == self.biases_view()[i as int]);
                assert(pre_cache[i as int] == pre_cur);
            }
            let z = self.weights[i].dot(&current).unwrap();
            let zb = z.add(&self.biases[i]).unwrap();
            current = zb.map(&self.activation.f);
            self.data.push(current.duplicate());
            proof {
                assert(self.cache_view().len() == pre_cache.len() + 1);
                assert(forall|t: int|
                    0 <= t < pre_cache.len() ==> self.cache_view()[t] == pre_cache[t]);
                assert(self.cache_view()[i as int + 1] == current@);
                assert(zb@ == self.weights_view()[i as int].dot_view(pre_cache[i as int]).add_view(
                    self.biases_view()[i as int],
                ));
                assert(maps_to(self.act().f, zb@.data, current@.data));
                assert(layer_step(
                    self.weights_view()[i as int],
                    self.biases_view()[i as int],
                    self.cache_view()[i as int],
                    self.cache_view()[i as int + 1],
                    self.act().f,
                ));
                assert forall|t: int|
                    0 <= t < self.cache_view().len() implies ((#[trigger] self.cache_view()[t]).wf()
                    && self.cache_view()[t].rows == self.arch()[t] && self.cache_view()[t].cols
                    == 1) by {
                    if t < pre_cache.len() {
                        assert(self.cache_view()[t] == pre_cache[t]);
                        assert(pre_cache[t].wf());
                    } else {
                        assert(t == i as int + 1);
                        assert(self.cache_view()[t] == current@);
                        assert(self.weights_view()[i as int].rows == self.arch()[i as int + 1]);
                    }
                }
                assert forall|t: int| 0 <= t < i as int + 1 implies layer_step(
                    self.weights_view()[t],
                    self.biases_view()[t],
                    self.cache_view()[t],
                    #[trigger] self.cache_view()[t + 1],
                    self.act().f,
                ) by {
                    if t < i as int {
                        assert(self.cache_view()[t] == pre_cache[t]);
                        assert(self.cache_view()[t + 1] == pre_cache[t + 1]);
                        assert(layer_step(
                            self.weights_view()[t],
                            self.biases_view()[t],
                            pre_cache[t],
                            pre_cache[t + 1],
                            self.act().f,
                        ));
                    }
                }
            }
            i += 1;
        }
        Ok(current)
    }

    /// Applies one gradient-descent update from the last layer down
    /// to the first, consuming the cache of the immediately preceding
    /// forward pass: per layer, the weight gains the scaled gradient
    /// times the transposed cached input, the bias gains the scaled
    /// gradient, and the losses flow down through the just-updated
    /// weight.  The relation between the old and the new parameters
    /// is `backprop_rel`.
    pub fn backprop(&mut self, prediction: Mat<T>, truth: Mat<T>)
        requires
            old(self).wf(),
            old(self).cache_ok(),
            prediction.wf(),
            truth.wf(),
            prediction@.rows == old(self).arch().last(),
            prediction@.cols == 1,
            truth@.rows == old(self).arch().last(),
            truth@.cols == 1,
        ensures
            Self::backprop_post(*old(self), *final(self), prediction@, truth@),
    {
        let mut losses = prediction.elementwise(&truth, &self.loss.f_prime).unwrap();
        let mut gradients = prediction.map(&self.activation.f_prime);
        let ghost l0 = losses@;
        let ghost w0 = self.weights_view();
        let ghost b0 = self.biases_view();
        let ghost cache0 = self.cache_view();
        let nl = self.architecture.len();
        let ghost big_l = nl - 1 as int;
        let ghost mut seeds: Seq<MatView<T>> = Seq::new(big_l as nat, |x: int| gradients@);
        let mut li: usize = nl - 1;
        while li > 0
            invariant
                old(self).wf(),
                self.wf(),
                li <= big_l,
                big_l == self.arch().len() - 1,
                self.arch() == old(self).arch(),
                self.cache_view() == old(self).cache_view(),
                self.rate() == old(self).rate(),
                self.act() == old(self).act(),
                self.loss_fns() == old(self).loss_fns(),
                self.cache_ok(),
                w0 == old(self).weights_view(),
                b0 == old(self).biases_view(),
                cache0 == old(self).cache_view(),
                w0.len() == big_l,
                seeds.len() == big_l,
                prediction.wf(),
                prediction@.cols == 1,
                prediction@.rows == old(self).arch().last(),
                losses.wf(),
                losses@.cols == 1,
                losses@.rows == self.arch()[li as int],
                li > 0 ==> {
                    &&& gradients.wf()
                    &&& gradients@.cols == 1
                    &&& gradients@.rows == self.arch()[li as int]
                    &&& maps_to(
                        old(self).act().f_prime,
                        (if li == big_l {
                            prediction@
                        } else {
                            cache0[li as int]
                        }).data,
                        gradients@.data,
                    )
                },
                forall|x: int|
                    li <= x < big_l ==> #[trigger] seed_ok_at(
                        seeds,
                        prediction@,
                        cache0,
                        old(self).act().f_prime,
                        big_l,
                        x,
                    ),
                bp_run(w0, b0, cache0, seeds, l0, old(self).rate(), big_l - li).ws
                    == self.weights_view(),
                bp_run(w0, b0, cache0, seeds, l0, old(self).rate(), big_l - li).bs
                    == self.biases_view(),
                bp_run(w0, b0, cache0, seeds, l0, old(self).rate(), big_l - li).losses == losses@,
            decreases li,
        {
            let i = li - 1;
            let ghost seeds_old = seeds;
            let ghost grad_seed = gradients@;
            let ghost t_pre = big_l - li;
            proof {
                seeds = seeds.update(i as int, gradients@);
                lemma_bp_run_agree(
                    w0,
                    b0,
                    cache0,
                    seeds_old,
                    seeds,
                    l0,
                    old(self).rate(),
                    t_pre,
                );
                assert(self.weights@[i as int]@ == self.weights_view()[i as int]);
                assert(self.biases@[i as int]@ == self.biases_view()[i as int]);
                assert(self.data@[i as int]@ == self.cache_view()[i as int]);
            }
            let ghost st = bp_run(w0, b0, cache0, seeds, l0, old(self).rate(), t_pre);
            let g = gradients.elementwise_mul(&losses).unwrap().scale(self.learning_rate);
            let dt = self.data[i].transpose();
            let delta = g.dot(&dt).unwrap();
            let w_new = self.weights[i].add(&delta).unwrap();
            let ghost w_new_view = w_new@;
            self.weights[i] = w_new;
            let b_new = self.biases[i].add(&g).unwrap();
            self.biases[i] = b_new;
            losses = self.weights[i].transpose().dot(&losses).unwrap();
            gradients = self.data[i].map(&self.activation.f_prime);
            proof {
                let st2 = bp_run(w0, b0, cache0, seeds, l0, old(self).rate(), t_pre + 1);
                assert(st2 == bp_step(
                    st,
                    seeds[i as int],
                    cache0[i as int],
                    old(self).rate(),
                    i as int,
                ));
                assert(g@ == seeds[i as int].mul_view(st.losses).scale_view(old(self).rate()));
                assert(w_new_view == st.ws[i as int].add_view(
                    g@.dot_view(cache0[i as int].transpose_view()),
                ));
                assert(self.weights_view() =~= st.ws.update(i as int, w_new_view));
                assert(self.biases_view() =~= st.bs.update(
                    i as int,
                    st.bs[i as int].add_view(g@),
                ));
                assert(losses@ == st2.losses);
                assert forall|x: int| i as int <= x < big_l implies #[trigger] seed_ok_at(
                    seeds,
                    prediction@,
                    cache0,
                    old(self).act().f_prime,
                    big_l,
                    x,
                ) by {
                    if x == i as int {
                        assert(seeds[x] == grad_seed);
                        if x + 1 < self.cache_view().len() {
                            assert((self.cache_view()[x + 1]).wf());
                            assert(cache0[x + 1].rows == old(self).arch()[x + 1]);
                        }
                    } else {
                        assert(seeds[x] == seeds_old[x]);
                        assert(seed_ok_at(
                            seeds_old,
                            prediction@,
                            cache0,
                            old(self).act().f_prime,
                            big_l,
                            x,
                        ));
                    }
                }
            }
            li = i;
        }
        proof {
            assert(backprop_witness(
                w0,
                b0,
                cache0,
                old(self).act().f_prime,
                old(self).loss_fns().f_prime,
                old(self).rate(),
                prediction@,
                truth@,
                self.weights_view(),
                self.biases_view(),
                seeds,
                l0,
            ));
        }
    }

    /// A training dataset fits the network: inputs and truths pair up
    /// by position, each input has the first layer's width and each
    /// truth the last layer's width.
    pub open spec fn dataset_ok(self, inputs: Seq<Vec<T>>, truth: Seq<Vec<T>>) -> bool {
        &&& inputs.len() == truth.len()
        &&& forall|j: int| 0 <= j < inputs.len() ==> (#[trigger] inputs[j])@.len() == self.arch()[0]
        &&& forall|j: int|
            0 <= j < truth.len() ==> (#[trigger] truth[j])@.len() == self.arch().last()
    }

    /// The states and log prefixes a training run walks through: each
    /// epoch is one pass of online updates followed by its
    /// observability step, which appends the recomputed aggregate
    /// loss exactly at checkpoint epochs and never touches the
    /// parameters.
    pub open spec fn train_witness(
        pre: Self,
        post: Self,
        inputs: Seq<Vec<T>>,
        truth: Seq<Vec<T>>,
        epochs: int,
        states: Seq<Self>,
        logs: Seq<Seq<T>>,
    ) -> bool {
        &&& states.len() == epochs + 1
        &&& logs.len() == epochs + 1
        &&& states[0] == pre
        &&& logs[0] == Seq::<T>::empty()
        &&& states.last() == post
        &&& forall|e: int|
            0 <= e < epochs ==> #[trigger] Self::epoch_obs_log(
                states[e],
                states[e + 1],
                inputs,
                truth,
                epochs,
                e + 1,
                logs[e],
                logs[e + 1],
            )
    }

    /// A whole training run: `epochs` chained epochs of online
    /// updates, each followed by its observability step, with `log`
    /// the checkpoint losses the run collected, earliest first.
    pub open spec fn train_rel(
        pre: Self,
        post: Self,
        inputs: Seq<Vec<T>>,
        truth: Seq<Vec<T>>,
        epochs: int,
        log: Seq<T>,
    ) -> bool {
        exists|states: Seq<Self>, logs: Seq<Seq<T>>|
            #[trigger] Self::train_witness(pre, post, inputs, truth, epochs, states, logs)
                && logs.last() == log
    }

    /// Runs one online pass over the dataset in order: for each pair,
    /// a forward pass followed by a backward update.
    pub fn train_epoch(&mut self, inputs: &Vec<Vec<T>>, truth: &Vec<Vec<T>>)
        requires
            old(self).wf(),
            old(self).dataset_ok(inputs@, truth@),
        ensures
            final(self).wf(),
            final(self).arch() == old(self).arch(),
            final(self).rate() == old(self).rate(),
            final(self).act() == old(self).act(),
            final(self).loss_fns() == old(self).loss_fns(),
            Self::epoch_rel(*old(self), *final(self), inputs@, truth@),
    {
        let mut j: usize = 0;
        let n = inputs.len();
        let ghost mut states: Seq<Self> = seq![*self];
        while j < n
            invariant
                j <= n,
                n == inputs@.len(),
                self.wf(),
                self.arch() == old(self).arch(),
                self.rate() == old(self).rate(),
                self.act() == old(self).act(),
                self.loss_fns() == old(self).loss_fns(),
                old(self).dataset_ok(inputs@, truth@),
                states.len() == j + 1,
                states[0] == *old(self),
                states.last() == *self,
                forall|jj: int|
                    0 <= jj < j ==> #[trigger] Self::sample_step(
                        states[jj],
                        states[jj + 1],
                        inputs@[jj],
                        truth@[jj],
                    ),
            decreases n - j,
        {
            let ghost pre_state = *self;
            let input_mat = Mat::from_column(&inputs[j]);
            proof {
                assert(input_mat@ =~= column_view(inputs@[j as int]@));
            }
            let outputs = self.forward(input_mat).unwrap();
            let ghost mid_state = *self;
            let ghost outv = outputs@;
            let truth_mat = Mat::from_column(&truth[j]);
            proof {
                assert(truth_mat@ =~= column_view(truth@[j as int]@));
            }
            self.backprop(outputs, truth_mat);
            proof {
                assert(Self::sample_witness(
                    pre_state,
                    *self,
                    inputs@[j as int],
                    truth@[j as int],
                    mid_state,
                    outv,
                ));
                states = states.push(*self);
            }
            j += 1;
        }
        proof {
            assert(Self::epoch_witness(*old(self), *self, inputs@, truth@, states));
        }
    }

    /// Recomputes the aggregate loss over the whole dataset: one
    /// forward pass per sample, summing the loss of every output
    /// element against its truth.  The weights and biases are left
    /// exactly as they were: the recomputation is observability only.
    pub fn total_loss(&mut self, inputs: &Vec<Vec<T>>, truth: &Vec<Vec<T>>) -> (r: T)
        requires
            old(self).wf(),
            old(self).dataset_ok(inputs@, truth@),
        ensures
            final(self).wf(),
            final(self).weights_view() == old(self).weights_view(),
            final(self).biases_view() == old(self).biases_view(),
            final(self).arch() == old(self).arch(),
            final(self).rate() == old(self).rate(),
            final(self).act() == old(self).act(),
            final(self).loss_fns() == old(self).loss_fns(),
            Self::loss_sum_rel(*old(self), *final(self), inputs@, truth@, r),
    {
        let mut loss = T::zero_elem();
        let mut j: usize = 0;
        let n = inputs.len();
        let ghost mut states: Seq<Self> = seq![*self];
        let ghost mut outs: Seq<MatView<T>> = Seq::empty();
        let ghost mut limgs: Seq<Seq<T>> = Seq::empty();
        while j < n
            invariant
                j <= n,
                n == inputs@.len(),
                self.wf(),
                self.weights_view() == old(self).weights_view(),
                self.biases_view() == old(self).biases_view(),
                self.arch() == old(self).arch(),
                self.rate() == old(self).rate(),
                self.act() == old(self).act(),
                self.loss_fns() == old(self).loss_fns(),
                old(self).dataset_ok(inputs@, truth@),
                states.len() == j + 1,
                outs.len() == j,
                limgs.len() == j,
                states[0] == *old(self),
                states.last() == *self,
                forall|jj: int|
                    0 <= jj < j ==> #[trigger] Self::sample_loss_ok(
                        states[jj],
                        states[jj + 1],
                        outs[jj],
                        limgs[jj],
                        inputs@[jj],
                        truth@[jj],
                    ),
                loss == fold_add_all(T::zero_spec(), limgs),
            decreases n - j,
        {
            let ghost pre_state = *self;
            let input_mat = Mat::from_column(&inputs[j]);
            proof {
                assert(input_mat@ =~= column_view(inputs@[j as int]@));
            }
            let outputs = self.forward(input_mat).unwrap();
            let ghost outv = outputs@;
            let ghost loss_start = loss;
            let ghost mut cur: Seq<T> = Seq::empty();
            let rows = outputs.nrows();
            let mut t: usize = 0;
            while t < rows
                invariant
                    t <= rows,
                    self.wf(),
                    outputs.wf(),
                    outv == outputs@,
                    rows == outputs@.rows,
                    outputs@.cols == 1,
                    outputs@.data.len() == rows,
                    rows == truth@[j as int]@.len(),
                    j < inputs@.len(),
                    inputs@.len() == truth@.len(),
                    binary_total(self.loss_fns().f),
                    cur.len() == t,
                    forall|e: int|
                        0 <= e < t ==> call_ensures(
                            self.loss_fns().f,
                            (outv.data[e], truth@[j as int]@[e]),
                            #[trigger] cur[e],
                        ),
                    loss == fold_add(loss_start, cur),
                decreases rows - t,
            {
                let y_hat = *outputs.at(t, 0);
                let y = truth[j][t];
                let v = (self.loss.f)(y_hat, y);
                proof {
                    lemma_fold_add_push(loss_start, cur, v);
                    cur = cur.push(v);
                }
                loss = loss.add_elem(v);
                t += 1;
            }
            proof {
                assert(zips_to(pre_state.loss_fns().f, outv.data, truth@[j as int]@, cur));
                assert(Self::sample_loss_ok(
                    pre_state,
                    *self,
                    outv,
                    cur,
                    inputs@[j as int],
                    truth@[j as int],
                ));
                lemma_fold_add_all_push(T::zero_spec(), limgs, cur);
                states = states.push(*self);
                outs = outs.push(outv);
                limgs = limgs.push(cur);
            }
            j += 1;
        }
        proof {
            assert(Self::loss_sum_witness(
                *old(self),
                *self,
                inputs@,
                truth@,
                loss,
                states,
                outs,
                limgs,
            ));
        }
        loss
    }

    /// Runs `epochs` training epochs of online updates in dataset
    /// order, and after every checkpoint epoch recomputes the
    /// aggregate loss; the checkpoint losses come back in order, one
    /// per checkpoint epoch, earliest first.
    pub fn train_basic(&mut self, inputs: Vec<Vec<T>>, truth: Vec<Vec<T>>, epochs: u32) -> (r:
        Vec<T>)
        requires
            old(self).wf(),
            old(self).dataset_ok(inputs@, truth@),
            epochs >= 1,
        ensures
            final(self).wf(),
            final(self).arch() == old(self).arch(),
            final(self).rate() == old(self).rate(),
            final(self).act() == old(self).act(),
            final(self).loss_fns() == old(self).loss_fns(),
            r@.len() == checkpoint_count(epochs as int, epochs as int),
            Self::train_rel(*old(self), *final(self), inputs@, truth@, epochs as int, r@),
    {
        let mut log: Vec<T> = Vec::new();
        let mut done: u32 = 0;
        let ghost mut states: Seq<Self> = seq![*self];
        let ghost mut logs: Seq<Seq<T>> = seq![Seq::<T>::empty()];
        while done < epochs
            invariant
                done <= epochs,
                self.wf(),
                self.arch() == old(self).arch(),
                self.rate() == old(self).rate(),
                self.act() == old(self).act(),
                self.loss_fns() == old(self).loss_fns(),
                old(self).dataset_ok(inputs@, truth@),
                log@.len() == checkpoint_count(done as int, epochs as int),
                states.len() == done + 1,
                logs.len() == done + 1,
                states[0] == *old(self),
                logs[0] == Seq::<T>::empty(),
                states.last() == *self,
                logs.last() == log@,
                forall|e: int|
                    0 <= e < done ==> #[trigger] Self::epoch_obs_log(
                        states[e],
                        states[e + 1],
                        inputs@,
                        truth@,
                        epochs as int,
                        e + 1,
                        logs[e],
                        logs[e + 1],
                    ),
            decreases epochs - done,
        {
            let i = done + 1;
            let ghost pre_state = *self;
            let ghost lpre = log@;
            self.train_epoch(&inputs, &truth);
            let ghost mid_state = *self;
            if epochs < 20 || i % (epochs / 20) == 0 {
                let loss = self.total_loss(&inputs, &truth);
                proof {
                    assert(Self::loss_sum_rel(mid_state, *self, inputs@, truth@, loss));
                }
                log.push(loss);
                proof {
                    assert(is_checkpoint(i as int, epochs as int));
                    assert(log@ == lpre.push(loss));
                }
            } else {
                proof {
                    assert(!is_checkpoint(i as int, epochs as int));
                }
            }
            proof {
                assert(Self::epoch_rel(pre_state, mid_state, inputs@, truth@));
                assert(Self::obs_log(
                    mid_state,
                    *self,
                    inputs@,
                    truth@,
                    epochs as int,
                    i as int,
                    lpre,
                    log@,
                ));
                assert(Self::epoch_obs_log(
                    pre_state,
                    *self,
                    inputs@,
                    truth@,
                    epochs as int,
                    i as int,
                    lpre,
                    log@,
                ));
                states = states.push(*self);
                logs = logs.push(log@);
            }
            done = i;
        }
        proof {
            assert(Self::train_witness(
                *old(self),
                *self,
                inputs@,
                truth@,
                epochs as int,
                states,
                logs,
            ));
        }
        log
    }
}

impl<T, AF, AD, LF, LD> NeuralNet<T, AF, AD, LF, LD> where
    T: MatElem + RandomElem,
    AF: Fn(T) -> T,
    AD: Fn(T) -> T,
    LF: Fn(T, T) -> T,
    LD: Fn(T, T) -> T,
 {
    /// Builds a network from a list of layer widths: for each
    /// adjacent pair, a randomly initialized weight matrix of shape
    /// `(next, prev)` and bias matrix of shape `(next, 1)`; the cache
    /// starts empty.
    pub fn new(
        layers: Vec<usize>,
        activation: ActivationFn<AF, AD>,
        loss: LossFn<LF, LD>,
        learning_rate: T,
    ) -> (r: Self)
        requires
            layers@.len() >= 2,
            forall|i: int| 0 <= i < layers@.len() ==> (#[trigger] layers@[i]) >= 1,
            forall|i: int|
                0 <= i < layers@.len() - 1 ==> (#[trigger] (layers@[i + 1] * layers@[i]))
                    <= usize::MAX,
            unary_total(activation.f),
            unary_total(activation.f_prime),
            binary_total(loss.f),
            binary_total(loss.f_prime),
        ensures
            r.wf(),
            r.arch() == layers@,
            r.rate() == learning_rate,
            r.act() == activation,
            r.loss_fns() == loss,
            r.cache_view().len() == 0,
    {
        let mut weights: Vec<Mat<T>> = Vec::new();
        let mut biases: Vec<Mat<T>> = Vec::new();
        let mut i: usize = 0;
        let n = layers.len();
        while i < n - 1
            invariant
                n == layers@.len(),
                n >= 2,
                i <= n - 1,
                weights@.len() == i,
                biases@.len() == i,
                forall|t: int| 0 <= t < layers@.len() ==> (#[trigger] layers@[t]) >= 1,
                forall|t: int|
                    0 <= t < layers@.len() - 1 ==> (#[trigger] (layers@[t + 1] * layers@[t]))
                        <= usize::MAX,
                forall|t: int|
                    0 <= t < i ==> {
                        &&& (#[trigger] weights@[t]@).wf()
                        &&& weights@[t]@.rows == layers@[t + 1]
                        &&& weights@[t]@.cols == layers@[t]
                        &&& biases@[t]@.wf()
                        &&& biases@[t]@.rows == layers@[t + 1]
                        &&& biases@[t]@.cols == 1
                    },
            decreases n - 1 - i,
        {
            let w: Mat<T> = Mat::random(layers[i + 1], layers[i]);
            let b: Mat<T> = Mat::random(layers[i + 1], 1);
            let ghost wv = w@;
            let ghost bv = b@;
            let ghost pre_w = weights@;
            let ghost pre_b = biases@;
            weights.push(w);
            biases.push(b);
            proof {
                assert forall|t: int| 0 <= t < i + 1 implies {
                    &&& (#[trigger] weights@[t]@).wf()
                    &&& weights@[t]@.rows == layers@[t + 1]
                    &&& weights@[t]@.cols == layers@[t]
                    &&& biases@[t]@.wf()
                    &&& biases@[t]@.rows == layers@[t + 1]
                    &&& biases@[t]@.cols == 1
                } by {
                    if t == i as int {
                        assert(weights@[t]@ == wv);
                        assert(biases@[t]@ == bv);
                    } else {
                        assert(weights@[t] == pre_w[t]);
                        assert(biases@[t] == pre_b[t]);
                        assert((pre_w[t]@).wf());
                    }
                }
            }
            i += 1;
        }
        let net = NeuralNet {
            architecture: layers,
            weights,
            biases,
            data: Vec::new(),
            activation,
            loss,
            learning_rate,
        };
        proof {
            assert(net.weights_view().len() == net.arch().len() - 1);
            assert forall|t: int| 0 <= t < net.arch().len() - 1 implies {
                &&& (#[trigger] net.weights_view()[t]).wf()
                &&& net.weights_view()[t].rows == net.arch()[t + 1]
                &&& net.weights_view()[t].cols == net.arch()[t]
                &&& net.weights_view()[t].rows * net.weights_view()[t].cols <= usize::MAX
                &&& net.biases_view()[t].wf()
                &&& net.biases_view()[t].rows == net.arch()[t + 1]
                &&& net.biases_view()[t].cols == 1
            } by {
                assert(net.weights_view()[t] == net.weights@[t]@);
                assert(net.biases_view()[t] == net.biases@[t]@);
            }
        }
        net
    }
}

} // verus!

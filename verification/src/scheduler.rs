//! The scheduler: owns the pending and submitted sets, consumes fee-market
//! events and transaction requests, and emits submit/reprice decisions.
//!
//! Each event triggers a re-evaluation pass: first every submitted
//! transaction past its cooldown is considered for a 10% upward reprice,
//! then pending transactions are admitted in ascending id order while the
//! rate limiter grants tokens. The whole pass is specified by the recursive
//! functions `reprice_run` and `admit_run`, and the executable pass is
//! proved to compute exactly their outcome.

use crate::events::{GasEvent, SchedulerDecision, TransactionRequest};
use crate::limiter::{consumed, RateLimiter};
use crate::model::{current_fee_of, spike_at, GasModel};
use crate::nonce::{bumped, counter_in, NonceManager};
use vstd::prelude::*;

verus! {

/// Scheduler policy knobs. The spike threshold is compared against the fee
/// model's volatility; the cooldown is a span of monotonic nanoseconds.
pub struct SchedulerConfig {
    pub target_base_fee: u64,
    pub max_priority_fee: u64,
    pub spike_threshold: u64,
    pub reprice_cooldown_ns: u64,
}

/// A transaction that has been submitted: the original request, its assigned
/// nonce, the gas price last used, and the reading of the last action.
pub struct SubmittedTx {
    pub req: TransactionRequest,
    pub nonce: u64,
    pub last_gas_price: u64,
    pub last_action_at: u64,
}

/// The mandatory replacement floor: a reprice must strictly exceed a 10%
/// bump over the last gas price.
pub open spec fn min_bump(last_gas_price: u64) -> int {
    (last_gas_price * 110) / 100
}

/// One submitted entry considered for repricing at reading `now`: within the
/// cooldown nothing happens; otherwise the entry is repriced to the current
/// desired price exactly when that price strictly clears the 10% bump floor
/// and stays within the request's fee cap.
pub open spec fn reprice_step(tx: SubmittedTx, fee: u64, cooldown: u64, now: u64) -> (
    SubmittedTx,
    Option<SchedulerDecision>,
) {
    if now - tx.last_action_at < cooldown {
        (tx, None)
    } else {
        let desired = fee + tx.req.max_priority_fee_per_gas;
        if desired > min_bump(tx.last_gas_price) && desired <= tx.req.max_fee_per_gas {
            (
                SubmittedTx {
                    req: tx.req,
                    nonce: tx.nonce,
                    last_gas_price: desired as u64,
                    last_action_at: now,
                },
                Some(
                    SchedulerDecision::Reprice {
                        tx_id: tx.req.id,
                        old_nonce: tx.nonce,
                        new_gas_price: desired as u64,
                    },
                ),
            )
        } else {
            (tx, None)
        }
    }
}

/// The repricing phase over the whole submitted set, in order.
pub open spec fn reprice_run(subs: Seq<SubmittedTx>, fee: u64, cooldown: u64, now: u64) -> (Seq<
    SubmittedTx,
>, Seq<SchedulerDecision>)
    decreases subs.len(),
{
    if subs.len() == 0 {
        (Seq::empty(), Seq::empty())
    } else {
        let stepped = reprice_step(subs.first(), fee, cooldown, now);
        let rest = reprice_run(subs.drop_first(), fee, cooldown, now);
        (
            seq![stepped.0] + rest.0,
            (match stepped.1 {
                Some(d) => seq![d],
                None => Seq::empty(),
            }) + rest.1,
        )
    }
}

/// What the admission phase leaves behind: the requests still pending, the
/// submitted set, the nonce counters, the rate limiter, and the decisions
/// emitted.
pub struct AdmitOutcome {
    pub kept: Seq<TransactionRequest>,
    pub subs: Seq<SubmittedTx>,
    pub nonces: Map<Seq<u8>, u64>,
    pub lim: RateLimiter,
    pub decisions: Seq<SchedulerDecision>,
}

/// The admission phase over the pending set, in order. Every considered
/// request costs one token; when the limiter declines, the phase stops and
/// the rest stays pending. A granted request is submitted at the going rate
/// `fee + tip` when a spike is on — the cap is deliberately bypassed to
/// chase inclusion — or when the current fee is within its cap; otherwise it
/// stays pending. The deferral of an over-cap request on a falling fee
/// trend is silent: no decision is emitted and the entry simply waits for
/// the next pass, exactly as it does when the trend is flat.
pub open spec fn admit_run(
    pending: Seq<TransactionRequest>,
    subs: Seq<SubmittedTx>,
    nonces: Map<Seq<u8>, u64>,
    lim: RateLimiter,
    fee: u64,
    spike: bool,
    now: u64,
) -> AdmitOutcome
    decreases pending.len(),
{
    if pending.len() == 0 {
        AdmitOutcome { kept: Seq::empty(), subs, nonces, lim, decisions: Seq::empty() }
    } else {
        let tx = pending.first();
        let step = consumed(lim, now);
        if !step.1 {
            AdmitOutcome { kept: pending, subs, nonces, lim: step.0, decisions: Seq::empty() }
        } else if spike || fee <= tx.max_fee_per_gas {
            let nonce = counter_in(nonces, tx.from@);
            let price = (fee + tx.max_priority_fee_per_gas) as u64;
            let entry = SubmittedTx {
                req: tx,
                nonce,
                last_gas_price: price,
                last_action_at: now,
            };
            let rest = admit_run(
                pending.drop_first(),
                subs.push(entry),
                nonces.insert(tx.from@, bumped(nonce)),
                step.0,
                fee,
                spike,
                now,
            );
            AdmitOutcome {
                kept: rest.kept,
                subs: rest.subs,
                nonces: rest.nonces,
                lim: rest.lim,
                decisions: seq![
                    SchedulerDecision::Submit { tx_id: tx.id, nonce, gas_price: price },
                ] + rest.decisions,
            }
        } else {
            let rest = admit_run(pending.drop_first(), subs, nonces, step.0, fee, spike, now);
            AdmitOutcome {
                kept: seq![tx] + rest.kept,
                subs: rest.subs,
                nonces: rest.nonces,
                lim: rest.lim,
                decisions: rest.decisions,
            }
        }
    }
}

/// Bounds every submitted entry must keep: a bounded request, a last price
/// within twice the fee bound, and a last action no later than `now`.
pub open spec fn subs_ok(subs: Seq<SubmittedTx>, now: u64) -> bool {
    forall|i: int|
        0 <= i < subs.len() ==> (#[trigger] subs[i]).req.fees_bounded() && subs[i].last_gas_price
            <= 2 * crate::MAX_BASE_FEE && subs[i].last_action_at <= now
}

/// Every pending request carries bounded fees.
pub open spec fn reqs_ok(pend: Seq<TransactionRequest>) -> bool {
    forall|i: int| 0 <= i < pend.len() ==> (#[trigger] pend[i]).fees_bounded()
}

/// Pending requests are strictly ascending by id.
pub open spec fn ids_sorted(pend: Seq<TransactionRequest>) -> bool {
    forall|i: int, j: int| 0 <= i < j < pend.len() ==> pend[i].id < pend[j].id
}

/// Submitted entries carry pairwise distinct transaction ids.
pub open spec fn sub_ids_unique(subs: Seq<SubmittedTx>) -> bool {
    forall|i: int, j: int| 0 <= i < j < subs.len() ==> subs[i].req.id != subs[j].req.id
}

/// No pending id is also a submitted id.
pub open spec fn ids_disjoint(pend: Seq<TransactionRequest>, subs: Seq<SubmittedTx>) -> bool {
    forall|i: int, j: int|
        0 <= i < pend.len() && 0 <= j < subs.len() ==> pend[i].id != subs[j].req.id
}

/// The event-driven transaction scheduler.
pub struct Scheduler {
    pub config: SchedulerConfig,
    pub model: GasModel,
    pub nonce_manager: NonceManager,
    pub limiter: RateLimiter,
    pub pending: Vec<TransactionRequest>,
    pub submitted: Vec<SubmittedTx>,
}

impl Scheduler {
    pub open spec fn wf(&self) -> bool {
        &&& self.model.wf()
        &&& self.limiter.wf()
        &&& self.config.spike_threshold <= crate::MAX_BASE_FEE
        &&& reqs_ok(self.pending@)
        &&& ids_sorted(self.pending@)
        &&& sub_ids_unique(self.submitted@)
        &&& ids_disjoint(self.pending@, self.submitted@)
    }

    /// Every recorded action lies at or before the reading `now`: readings
    /// come from a monotonic clock.
    pub open spec fn time_ok(&self, now: u64) -> bool {
        &&& subs_ok(self.submitted@, now)
    }

    /// An id strictly above everything the scheduler has seen; upstream
    /// assigns ids monotonically.
    pub open spec fn fresh_id(&self, id: u64) -> bool {
        &&& forall|i: int| 0 <= i < self.pending@.len() ==> self.pending@[i].id < id
        &&& forall|i: int| 0 <= i < self.submitted@.len() ==> self.submitted@[i].req.id < id
    }

    pub fn new(
        config: SchedulerConfig,
        model: GasModel,
        nonce_manager: NonceManager,
        limiter: RateLimiter,
    ) -> (r: Scheduler)
        requires
            model.wf(),
            limiter.wf(),
            config.spike_threshold <= crate::MAX_BASE_FEE,
        ensures
            r.wf(),
            r.model == model,
            r.limiter == limiter,
            r.config == config,
            r.nonce_manager == nonce_manager,
            r.pending@ == Seq::<TransactionRequest>::empty(),
            r.submitted@ == Seq::<SubmittedTx>::empty(),
    {
        Scheduler {
            config,
            model,
            nonce_manager,
            limiter,
            pending: Vec::new(),
            submitted: Vec::new(),
        }
    }
}

/// What one re-evaluation pass leaves behind, given the pre-state pieces:
/// the post-state holds exactly the outcome of `reprice_run` followed by
/// `admit_run` on the snapshot taken from the fee window, and the decisions
/// are the reprices followed by the submissions.
pub open spec fn pass_post(
    win: Seq<u64>,
    subs: Seq<SubmittedTx>,
    pend: Seq<TransactionRequest>,
    nonces: Map<Seq<u8>, u64>,
    lim: RateLimiter,
    cfg: SchedulerConfig,
    post: Scheduler,
    ds: Seq<SchedulerDecision>,
    now: u64,
) -> bool {
    let fee = current_fee_of(win);
    let spike = spike_at(win, cfg.spike_threshold);
    let rp = reprice_run(subs, fee, cfg.reprice_cooldown_ns, now);
    let out = admit_run(pend, rp.0, nonces, lim, fee, spike, now);
    &&& ds == rp.1 + out.decisions
    &&& post.submitted@ == out.subs
    &&& post.pending@ == out.kept
    &&& post.nonce_manager@ == out.nonces
    &&& post.limiter == out.lim
    &&& post.model.window() == win
    &&& post.config == cfg
}

impl Scheduler {
    /// One re-evaluation pass at reading `now_ns`: reprice submitted entries
    /// past their cooldown, then admit pending requests in id order while
    /// the rate limiter grants tokens.
    pub fn re_evaluate_pending(&mut self, now_ns: u64) -> (decisions: Vec<SchedulerDecision>)
        requires
            old(self).wf(),
            old(self).time_ok(now_ns),
        ensures
            final(self).wf(),
            final(self).time_ok(now_ns),
            final(self).model == old(self).model,
            pass_post(
                old(self).model.window(),
                old(self).submitted@,
                old(self).pending@,
                old(self).nonce_manager@,
                old(self).limiter,
                old(self).config,
                *final(self),
                decisions@,
                now_ns,
            ),
    {
        let ghost win0 = self.model.window();
        let ghost model0 = self.model;
        let ghost cfg0 = self.config;
        let ghost pend_fix = self.pending@;
        let ghost non_fix = self.nonce_manager@;
        let ghost lim_fix = self.limiter;
        let fee = self.model.current_fee();
        let spike = self.model.volatility_exceeds(self.config.spike_threshold);
        let cooldown = self.config.reprice_cooldown_ns;
        proof {
            if win0.len() > 0 {
                assert(self.model.window()[win0.len() - 1] <= crate::MAX_BASE_FEE);
            }
        }
        let mut decisions: Vec<SchedulerDecision> = Vec::new();

        // Phase 1: repricing of submitted transactions.
        let ghost subs0 = self.submitted@;
        let ghost full_rp = reprice_run(subs0, fee, cooldown, now_ns);
        let mut remaining: Vec<SubmittedTx> = Vec::new();
        core::mem::swap(&mut self.submitted, &mut remaining);
        proof {
            lemma_reprice_shape(subs0, fee, cooldown, now_ns);
            assert(self.submitted@ + remaining@ =~= subs0);
            assert(full_rp.0 =~= self.submitted@ + reprice_run(remaining@, fee, cooldown, now_ns).0);
            assert(full_rp.1 =~= decisions@ + reprice_run(remaining@, fee, cooldown, now_ns).1);
        }
        while remaining.len() > 0
            invariant
                fee <= crate::MAX_BASE_FEE,
                fee == current_fee_of(win0),
                cooldown == self.config.reprice_cooldown_ns,
                subs_ok(remaining@, now_ns),
                subs_ok(self.submitted@, now_ns),
                self.model == model0,
                self.config == cfg0,
                self.pending@ == pend_fix,
                self.nonce_manager@ == non_fix,
                self.limiter == lim_fix,
                full_rp == reprice_run(subs0, fee, cooldown, now_ns),
                full_rp.0 == self.submitted@ + reprice_run(remaining@, fee, cooldown, now_ns).0,
                full_rp.1 == decisions@ + reprice_run(remaining@, fee, cooldown, now_ns).1,
            decreases remaining.len(),
        {
            let ghost rem0 = remaining@;
            let mut entry = remaining.remove(0);
            proof {
                assert(rem0.drop_first() =~= remaining@);
            }
            let within_cooldown = now_ns - entry.last_action_at < cooldown;
            if !within_cooldown {
                let min_new = (entry.last_gas_price * 110) / 100;
                let desired = fee + entry.req.max_priority_fee_per_gas;
                if desired > min_new && desired <= entry.req.max_fee_per_gas {
                    decisions.push(
                        SchedulerDecision::Reprice {
                            tx_id: entry.req.id,
                            old_nonce: entry.nonce,
                            new_gas_price: desired,
                        },
                    );
                    entry.last_gas_price = desired;
                    entry.last_action_at = now_ns;
                }
            }
            let ghost stepped = reprice_step(rem0.first(), fee, cooldown, now_ns);
            self.submitted.push(entry);
            proof {
                assert(entry == stepped.0);
                let rest = reprice_run(remaining@, fee, cooldown, now_ns);
                assert(reprice_run(rem0, fee, cooldown, now_ns).0 =~= seq![stepped.0] + rest.0);
                assert(full_rp.0 =~= self.submitted@ + rest.0);
                assert(full_rp.1 =~= decisions@ + rest.1);
            }
        }
        proof {
            assert(reprice_run(remaining@, fee, cooldown, now_ns).0 =~= Seq::<SubmittedTx>::empty());
            assert(full_rp.0 =~= self.submitted@);
            assert(full_rp.1 =~= decisions@);
        }

        // Phase 2: admission of pending transactions, in id order.
        let ghost pend0 = self.pending@;
        let ghost subs1 = self.submitted@;
        let ghost nonces0 = self.nonce_manager@;
        let ghost lim0 = self.limiter;
        let ghost full_adm = admit_run(pend0, subs1, nonces0, lim0, fee, spike, now_ns);
        let ghost ds1 = decisions@;
        let mut waiting: Vec<TransactionRequest> = Vec::new();
        core::mem::swap(&mut self.pending, &mut waiting);
        let mut stopped = false;
        proof {
            assert(self.pending@ + waiting@ =~= pend0);
            assert(full_adm.decisions =~= decisions@.skip(ds1.len() as int) + admit_run(
                waiting@,
                self.submitted@,
                self.nonce_manager@,
                self.limiter,
                fee,
                spike,
                now_ns,
            ).decisions);
        }
        while waiting.len() > 0 && !stopped
            invariant
                fee <= crate::MAX_BASE_FEE,
                reqs_ok(waiting@),
                reqs_ok(self.pending@),
                subs_ok(self.submitted@, now_ns),
                self.model == model0,
                self.config == cfg0,
                self.limiter.wf(),
                ds1.len() <= decisions@.len(),
                decisions@.take(ds1.len() as int) == ds1,
                full_adm == admit_run(pend0, subs1, nonces0, lim0, fee, spike, now_ns),
                (if stopped {
                    &&& full_adm.kept == self.pending@ + waiting@
                    &&& full_adm.subs == self.submitted@
                    &&& full_adm.nonces == self.nonce_manager@
                    &&& full_adm.lim == self.limiter
                    &&& full_adm.decisions == decisions@.skip(ds1.len() as int)
                } else {
                    let rest = admit_run(
                        waiting@,
                        self.submitted@,
                        self.nonce_manager@,
                        self.limiter,
                        fee,
                        spike,
                        now_ns,
                    );
                    &&& full_adm.kept == self.pending@ + rest.kept
                    &&& full_adm.subs == rest.subs
                    &&& full_adm.nonces == rest.nonces
                    &&& full_adm.lim == rest.lim
                    &&& full_adm.decisions == decisions@.skip(ds1.len() as int) + rest.decisions
                }),
            decreases waiting.len() + (if stopped {
                0int
            } else {
                1int
            }),
        {
            let ghost wait0 = waiting@;
            let ghost sub_pre = self.submitted@;
            let ghost non_pre = self.nonce_manager@;
            let ghost lim_pre = self.limiter;
            let granted = self.limiter.check_and_consume(now_ns);
            if !granted {
                stopped = true;
                proof {
                    assert(admit_run(wait0, sub_pre, non_pre, lim_pre, fee, spike, now_ns).kept
                        == wait0);
                }
            } else {
                let tx = waiting.remove(0);
                proof {
                    assert(wait0.drop_first() =~= waiting@);
                }
                if spike || fee <= tx.max_fee_per_gas {
                    let price = fee + tx.max_priority_fee_per_gas;
                    let nonce = self.nonce_manager.next_nonce(&tx.from);
                    decisions.push(
                        SchedulerDecision::Submit { tx_id: tx.id, nonce, gas_price: price },
                    );
                    let entry = SubmittedTx {
                        req: tx,
                        nonce,
                        last_gas_price: price,
                        last_action_at: now_ns,
                    };
                    self.submitted.push(entry);
                } else {
                    self.pending.push(tx);
                }
                proof {
                    let rest = admit_run(
                        waiting@,
                        self.submitted@,
                        self.nonce_manager@,
                        self.limiter,
                        fee,
                        spike,
                        now_ns,
                    );
                    assert(full_adm.kept =~= self.pending@ + rest.kept);
                    assert(full_adm.decisions =~= decisions@.skip(ds1.len() as int)
                        + rest.decisions);
                    assert(decisions@.take(ds1.len() as int) =~= ds1);
                }
            }
        }
        // Anything not reached stays pending, in order.
        while waiting.len() > 0
            invariant
                full_adm.kept == self.pending@ + waiting@,
                full_adm.subs == self.submitted@,
                full_adm.nonces == self.nonce_manager@,
                full_adm.lim == self.limiter,
                full_adm.decisions == decisions@.skip(ds1.len() as int),
                decisions@.take(ds1.len() as int) == ds1,
                reqs_ok(waiting@),
                reqs_ok(self.pending@),
                subs_ok(self.submitted@, now_ns),
                self.model == model0,
                self.config == cfg0,
            decreases waiting.len(),
        {
            let ghost wait0 = waiting@;
            let tx = waiting.remove(0);
            self.pending.push(tx);
            proof {
                assert(wait0.drop_first() =~= waiting@);
                assert(self.pending@ + waiting@ =~= full_adm.kept);
            }
        }
        proof {
            assert(self.pending@ =~= full_adm.kept);
            assert(decisions@ =~= ds1 + full_adm.decisions);
            assert(decisions@ =~= full_rp.1 + full_adm.decisions);
            lemma_admit_shape(pend0, subs1, nonces0, lim0, fee, spike, now_ns);
        }
        decisions
    }

    /// Feeds a fee-market event: a base-fee sample (from a fee update or a
    /// new block) enters the fee model and triggers a re-evaluation pass;
    /// the other events leave the scheduler unchanged.
    pub fn handle_gas_event(&mut self, event: GasEvent, now_ns: u64) -> (decisions: Vec<
        SchedulerDecision,
    >)
        requires
            old(self).wf(),
            old(self).time_ok(now_ns),
            event.fees_bounded(),
        ensures
            final(self).wf(),
            final(self).time_ok(now_ns),
            final(self).model.max_history == old(self).model.max_history,
            (match event.base_fee_sample() {
                Some(f) => pass_post(
                    pushed_window(old(self).model.window(), old(self).model.max_history, f),
                    old(self).submitted@,
                    old(self).pending@,
                    old(self).nonce_manager@,
                    old(self).limiter,
                    old(self).config,
                    *final(self),
                    decisions@,
                    now_ns,
                ),
                None => *final(self) == *old(self) && decisions@ == Seq::<
                    SchedulerDecision,
                >::empty(),
            }),
    {
        let sample: Option<u64> = match &event {
            GasEvent::BaseFeeUpdate { base_fee, .. } => Some(*base_fee),
            GasEvent::NewBlock { base_fee, .. } => Some(*base_fee),
            _ => None,
        };
        match sample {
            Some(f) => {
                self.model.update(f);
                self.re_evaluate_pending(now_ns)
            },
            None => Vec::new(),
        }
    }

    /// Takes in a user transaction request: it joins the pending set and a
    /// re-evaluation pass runs.
    pub fn handle_tx_request(&mut self, req: TransactionRequest, now_ns: u64) -> (decisions: Vec<
        SchedulerDecision,
    >)
        requires
            old(self).wf(),
            old(self).time_ok(now_ns),
            req.fees_bounded(),
            old(self).fresh_id(req.id),
        ensures
            final(self).wf(),
            final(self).time_ok(now_ns),
            final(self).model == old(self).model,
            pass_post(
                old(self).model.window(),
                old(self).submitted@,
                old(self).pending@.push(req),
                old(self).nonce_manager@,
                old(self).limiter,
                old(self).config,
                *final(self),
                decisions@,
                now_ns,
            ),
    {
        self.pending.push(req);
        self.re_evaluate_pending(now_ns)
    }
}

/// The fee window after one sample: appended at the tail, evicting the head
/// when the window is full.
pub open spec fn pushed_window(win: Seq<u64>, max_history: usize, f: u64) -> Seq<u64> {
    if win.len() < max_history {
        win.push(f)
    } else {
        win.drop_first().push(f)
    }
}

/// Shape of the repricing phase: it touches neither requests nor nonces nor
/// membership — entry `i` of the result still carries request and nonce of
/// entry `i` of the input — and it keeps every entry within bounds. A
/// repriced entry's new price strictly clears the 10% bump floor over the
/// price it replaces (the mandatory bump), stays within its request's cap,
/// and only entries whose cooldown has elapsed are touched.
pub proof fn lemma_reprice_shape(subs: Seq<SubmittedTx>, fee: u64, cooldown: u64, now: u64)
    requires
        subs_ok(subs, now),
        fee <= crate::MAX_BASE_FEE,
    ensures
        reprice_run(subs, fee, cooldown, now).0.len() == subs.len(),
        forall|i: int|
            0 <= i < subs.len() ==> (#[trigger] reprice_run(subs, fee, cooldown, now).0[i]).req
                == subs[i].req && reprice_run(subs, fee, cooldown, now).0[i].nonce
                == subs[i].nonce,
        subs_ok(reprice_run(subs, fee, cooldown, now).0, now),
        forall|i: int|
            0 <= i < subs.len() && (#[trigger] reprice_run(subs, fee, cooldown, now).0[i])
                != subs[i] ==> reprice_run(subs, fee, cooldown, now).0[i].last_gas_price
                > min_bump(subs[i].last_gas_price) && reprice_run(subs, fee, cooldown, now).0[i].last_gas_price
                <= subs[i].req.max_fee_per_gas && now - subs[i].last_action_at >= cooldown
                && reprice_run(subs, fee, cooldown, now).0[i].last_action_at == now,
    decreases subs.len(),
{
    if subs.len() > 0 {
        lemma_reprice_shape(subs.drop_first(), fee, cooldown, now);
    }
}

/// Shape of the admission phase: every emitted decision is a submission at
/// the exact price `fee + tip` of a request that was pending and not yet
/// submitted; ids of submissions are strictly ascending (admission is FIFO
/// by id); when no spike is on, every submitted request had `fee` within its
/// cap; what is kept is exactly the pending requests not submitted, in
/// order; and the invariants of the sets are preserved.
pub proof fn lemma_admit_shape(
    pending: Seq<TransactionRequest>,
    subs: Seq<SubmittedTx>,
    nonces: Map<Seq<u8>, u64>,
    lim: RateLimiter,
    fee: u64,
    spike: bool,
    now: u64,
)
    requires
        reqs_ok(pending),
        ids_sorted(pending),
        subs_ok(subs, now),
        sub_ids_unique(subs),
        ids_disjoint(pending, subs),
        fee <= crate::MAX_BASE_FEE,
        lim.wf(),
    ensures
        reqs_ok(admit_run(pending, subs, nonces, lim, fee, spike, now).kept),
        ids_sorted(admit_run(pending, subs, nonces, lim, fee, spike, now).kept),
        subs_ok(admit_run(pending, subs, nonces, lim, fee, spike, now).subs, now),
        sub_ids_unique(admit_run(pending, subs, nonces, lim, fee, spike, now).subs),
        ids_disjoint(
            admit_run(pending, subs, nonces, lim, fee, spike, now).kept,
            admit_run(pending, subs, nonces, lim, fee, spike, now).subs,
        ),
        admit_run(pending, subs, nonces, lim, fee, spike, now).lim.wf(),
        admit_run(pending, subs, nonces, lim, fee, spike, now).lim.max_tokens == lim.max_tokens,
        forall|i: int|
            0 <= i < subs.len() ==> #[trigger] admit_run(
                pending,
                subs,
                nonces,
                lim,
                fee,
                spike,
                now,
            ).subs[i] == subs[i],
        admit_run(pending, subs, nonces, lim, fee, spike, now).subs.len() >= subs.len(),
        pending.len() > 0 ==> (forall|i: int|
            0 <= i < admit_run(pending, subs, nonces, lim, fee, spike, now).kept.len() ==> (
            #[trigger] admit_run(pending, subs, nonces, lim, fee, spike, now).kept[i]).id
                >= pending.first().id),
        pending.len() > 0 ==> (forall|i: int|
            subs.len() <= i < admit_run(pending, subs, nonces, lim, fee, spike, now).subs.len()
                ==> (#[trigger] admit_run(pending, subs, nonces, lim, fee, spike, now).subs[i]).req.id
                >= pending.first().id),
    decreases pending.len(),
{
    if pending.len() > 0 {
        let tx = pending.first();
        let step = consumed(lim, now);
        if !step.1 {
        } else if spike || fee <= tx.max_fee_per_gas {
            let nonce = counter_in(nonces, tx.from@);
            let price = (fee + tx.max_priority_fee_per_gas) as u64;
            let entry = SubmittedTx {
                req: tx,
                nonce,
                last_gas_price: price,
                last_action_at: now,
            };
            lemma_admit_shape(
                pending.drop_first(),
                subs.push(entry),
                nonces.insert(tx.from@, bumped(nonce)),
                step.0,
                fee,
                spike,
                now,
            );
        } else {
            lemma_admit_shape(pending.drop_first(), subs, nonces, step.0, fee, spike, now);
        }
    }
}


/// Whether a decision is a submission.
pub open spec fn is_submit(d: SchedulerDecision) -> bool {
    match d {
        SchedulerDecision::Submit { .. } => true,
        _ => false,
    }
}

/// The transaction id a decision speaks of.
pub open spec fn decision_id(d: SchedulerDecision) -> u64 {
    match d {
        SchedulerDecision::Submit { tx_id, .. } => tx_id,
        SchedulerDecision::Defer { tx_id, .. } => tx_id,
        SchedulerDecision::Reprice { tx_id, .. } => tx_id,
        SchedulerDecision::Drop { tx_id, .. } => tx_id,
    }
}

/// Laws of the repricing phase, decision by decision: every decision it
/// emits is a `Reprice` of some submitted entry whose cooldown had elapsed,
/// and the new price is exactly the going rate `fee + tip`, strictly above
/// the 10% bump floor over the price it replaces, and within the request's
/// cap.
pub proof fn lemma_reprice_laws(subs: Seq<SubmittedTx>, fee: u64, cooldown: u64, now: u64)
    ensures
        forall|k: int|
            0 <= k < reprice_run(subs, fee, cooldown, now).1.len() ==> (match #[trigger] reprice_run(
                subs,
                fee,
                cooldown,
                now,
            ).1[k] {
                SchedulerDecision::Reprice { tx_id, old_nonce, new_gas_price } => exists|i: int|
                    0 <= i < subs.len() && (#[trigger] subs[i]).req.id == tx_id && subs[i].nonce
                        == old_nonce && new_gas_price == fee + subs[i].req.max_priority_fee_per_gas
                        && new_gas_price > min_bump(subs[i].last_gas_price) && new_gas_price
                        <= subs[i].req.max_fee_per_gas && now - subs[i].last_action_at >= cooldown,
                _ => false,
            }),
    decreases subs.len(),
{
    if subs.len() > 0 {
        let d = subs.drop_first();
        lemma_reprice_laws(d, fee, cooldown, now);
        let run = reprice_run(subs, fee, cooldown, now);
        let rest = reprice_run(d, fee, cooldown, now);
        let head = reprice_step(subs.first(), fee, cooldown, now);
        assert forall|k: int| 0 <= k < run.1.len() implies (match #[trigger] run.1[k] {
            SchedulerDecision::Reprice { tx_id, old_nonce, new_gas_price } => exists|i: int|
                0 <= i < subs.len() && (#[trigger] subs[i]).req.id == tx_id && subs[i].nonce
                    == old_nonce && new_gas_price == fee + subs[i].req.max_priority_fee_per_gas
                    && new_gas_price > min_bump(subs[i].last_gas_price) && new_gas_price
                    <= subs[i].req.max_fee_per_gas && now - subs[i].last_action_at >= cooldown,
            _ => false,
        }) by {
            let off: int = if head.1 is Some {
                1
            } else {
                0
            };
            if k < off {
                assert(subs[0] == subs.first());
                assert(run.1[k] == head.1.unwrap());
            } else {
                assert(run.1[k] == rest.1[k - off]);
                match run.1[k] {
                    SchedulerDecision::Reprice { tx_id, old_nonce, new_gas_price } => {
                        let i = choose|i: int|
                            0 <= i < d.len() && (#[trigger] d[i]).req.id == tx_id && d[i].nonce
                                == old_nonce && new_gas_price == fee
                                + d[i].req.max_priority_fee_per_gas && new_gas_price > min_bump(
                                d[i].last_gas_price,
                            ) && new_gas_price <= d[i].req.max_fee_per_gas && now
                                - d[i].last_action_at >= cooldown;
                        assert(subs[i + 1] == d[i]);
                    },
                    _ => {},
                }
            }
        }
    }
}

/// Laws of the admission phase, decision by decision: every decision it
/// emits is a `Submit` of some pending request, at the exact price
/// `fee + tip` of that request; outside spike mode the current fee lay
/// within the request's cap; no submitted id was already in the submitted
/// set; and the submissions appear in strictly ascending id order.
pub proof fn lemma_admission_laws(
    pending: Seq<TransactionRequest>,
    subs: Seq<SubmittedTx>,
    nonces: Map<Seq<u8>, u64>,
    lim: RateLimiter,
    fee: u64,
    spike: bool,
    now: u64,
)
    requires
        reqs_ok(pending),
        ids_sorted(pending),
        subs_ok(subs, now),
        sub_ids_unique(subs),
        ids_disjoint(pending, subs),
        fee <= crate::MAX_BASE_FEE,
        lim.wf(),
    ensures
        forall|k: int|
            0 <= k < admit_run(pending, subs, nonces, lim, fee, spike, now).decisions.len() ==> (
            match #[trigger] admit_run(pending, subs, nonces, lim, fee, spike, now).decisions[k] {
                SchedulerDecision::Submit { tx_id, nonce, gas_price } => exists|j: int|
                    0 <= j < pending.len() && (#[trigger] pending[j]).id == tx_id && gas_price
                        == fee + pending[j].max_priority_fee_per_gas && (!spike ==> fee
                        <= pending[j].max_fee_per_gas),
                _ => false,
            }),
        forall|k: int, j: int|
            0 <= k < admit_run(pending, subs, nonces, lim, fee, spike, now).decisions.len() && 0
                <= j < subs.len() ==> decision_id(
                #[trigger] admit_run(pending, subs, nonces, lim, fee, spike, now).decisions[k],
            ) != (#[trigger] subs[j]).req.id,
        forall|k1: int, k2: int|
            0 <= k1 < k2 < admit_run(pending, subs, nonces, lim, fee, spike, now).decisions.len()
                ==> decision_id(admit_run(pending, subs, nonces, lim, fee, spike, now).decisions[k1])
                < decision_id(admit_run(pending, subs, nonces, lim, fee, spike, now).decisions[k2]),
        forall|k: int|
            0 <= k < admit_run(pending, subs, nonces, lim, fee, spike, now).decisions.len()
                ==> exists|i: int|
                subs.len() <= i < admit_run(pending, subs, nonces, lim, fee, spike, now).subs.len()
                    && (#[trigger] admit_run(pending, subs, nonces, lim, fee, spike, now).subs[i]).req.id
                    == decision_id(
                    #[trigger] admit_run(pending, subs, nonces, lim, fee, spike, now).decisions[k],
                ),
    decreases pending.len(),
{
    if pending.len() > 0 {
        let tx = pending.first();
        let dp = pending.drop_first();
        let step = consumed(lim, now);
        let out = admit_run(pending, subs, nonces, lim, fee, spike, now);
        if !step.1 {
        } else if spike || fee <= tx.max_fee_per_gas {
            let nonce = counter_in(nonces, tx.from@);
            let price = (fee + tx.max_priority_fee_per_gas) as u64;
            let entry = SubmittedTx { req: tx, nonce, last_gas_price: price, last_action_at: now };
            let subs2 = subs.push(entry);
            let nonces2 = nonces.insert(tx.from@, bumped(nonce));
            lemma_admission_laws(dp, subs2, nonces2, step.0, fee, spike, now);
            lemma_admit_shape(dp, subs2, nonces2, step.0, fee, spike, now);
            let rest = admit_run(dp, subs2, nonces2, step.0, fee, spike, now);
            assert forall|k: int| 0 <= k < out.decisions.len() implies exists|i: int|
                subs.len() <= i < out.subs.len() && (#[trigger] out.subs[i]).req.id == decision_id(
                    #[trigger] out.decisions[k],
                ) by {
                if k == 0 {
                    assert(rest.subs[subs.len() as int] == subs2[subs.len() as int]);
                    assert(out.subs[subs.len() as int].req.id == decision_id(out.decisions[0]));
                } else {
                    assert(out.decisions[k] == rest.decisions[k - 1]);
                    let i = choose|i: int|
                        subs2.len() <= i < rest.subs.len() && (#[trigger] rest.subs[i]).req.id
                            == decision_id(rest.decisions[k - 1]);
                    assert(out.subs[i].req.id == decision_id(out.decisions[k]));
                }
            }
            assert forall|k: int| 0 <= k < out.decisions.len() implies (match #[trigger] out.decisions[k] {
                SchedulerDecision::Submit { tx_id, nonce: _, gas_price } => exists|j: int|
                    0 <= j < pending.len() && (#[trigger] pending[j]).id == tx_id && gas_price
                        == fee + pending[j].max_priority_fee_per_gas && (!spike ==> fee
                        <= pending[j].max_fee_per_gas),
                _ => false,
            }) by {
                if k == 0 {
                    assert(pending[0] == tx);
                    assert(out.decisions[0] == (SchedulerDecision::Submit {
                        tx_id: tx.id,
                        nonce,
                        gas_price: price,
                    }));
                } else {
                    assert(out.decisions[k] == rest.decisions[k - 1]);
                    match out.decisions[k] {
                        SchedulerDecision::Submit { tx_id, nonce: n2, gas_price } => {
                            let j = choose|j: int|
                                0 <= j < dp.len() && (#[trigger] dp[j]).id == tx_id && gas_price
                                    == fee + dp[j].max_priority_fee_per_gas && (!spike ==> fee
                                    <= dp[j].max_fee_per_gas);
                            assert(pending[j + 1] == dp[j]);
                        },
                        _ => {},
                    }
                }
            }
            assert forall|k1: int, k2: int| 0 <= k1 < k2 < out.decisions.len() implies decision_id(
                out.decisions[k1],
            ) < decision_id(out.decisions[k2]) by {
                if k1 == 0 {
                    // the later decision's id is a pending id from behind the
                    // head, hence above the head's id
                    match rest.decisions[k2 - 1] {
                        SchedulerDecision::Submit { tx_id, nonce: _, gas_price } => {
                            let j = choose|j: int|
                                0 <= j < dp.len() && (#[trigger] dp[j]).id == tx_id && gas_price
                                    == fee + dp[j].max_priority_fee_per_gas && (!spike ==> fee
                                    <= dp[j].max_fee_per_gas);
                        },
                        _ => {},
                    }
                }
            }
        } else {
            lemma_admission_laws(dp, subs, nonces, step.0, fee, spike, now);
            let rest = admit_run(dp, subs, nonces, step.0, fee, spike, now);
            assert forall|k: int| 0 <= k < out.decisions.len() implies exists|i: int|
                subs.len() <= i < out.subs.len() && (#[trigger] out.subs[i]).req.id == decision_id(
                    #[trigger] out.decisions[k],
                ) by {
                let i = choose|i: int|
                    subs.len() <= i < rest.subs.len() && (#[trigger] rest.subs[i]).req.id
                        == decision_id(rest.decisions[k]);
                assert(out.subs[i].req.id == decision_id(out.decisions[k]));
            }
            assert forall|k: int| 0 <= k < out.decisions.len() implies (match #[trigger] out.decisions[k] {
                SchedulerDecision::Submit { tx_id, nonce, gas_price } => exists|j: int|
                    0 <= j < pending.len() && (#[trigger] pending[j]).id == tx_id && gas_price
                        == fee + pending[j].max_priority_fee_per_gas && (!spike ==> fee
                        <= pending[j].max_fee_per_gas),
                _ => false,
            }) by {
                assert(out.decisions[k] == rest.decisions[k]);
                match out.decisions[k] {
                    SchedulerDecision::Submit { tx_id, nonce, gas_price } => {
                        let j = choose|j: int|
                            0 <= j < dp.len() && (#[trigger] dp[j]).id == tx_id && gas_price == fee
                                + dp[j].max_priority_fee_per_gas && (!spike ==> fee
                                <= dp[j].max_fee_per_gas);
                        assert(pending[j + 1] == dp[j]);
                    },
                    _ => {},
                }
            }
        }
    }
}


/// One scheduler pass, abstracted to what it did to the submitted-id set:
/// the ids submitted before it ran, the ids submitted after, and the
/// decisions it emitted.
pub struct PassRecord {
    pub before: Set<u64>,
    pub after: Set<u64>,
    pub decisions: Seq<SchedulerDecision>,
}

/// A pass behaves as the admission laws establish: the submitted-id set only
/// grows, a submission's id was not yet submitted and is submitted
/// afterwards, submissions within the pass carry distinct ids, and each
/// pass starts from the set the previous pass left.
pub open spec fn passes_consistent(passes: Seq<PassRecord>) -> bool {
    &&& forall|p: int|
        0 <= p < passes.len() ==> (#[trigger] passes[p]).before.subset_of(passes[p].after)
    &&& forall|p: int|
        0 <= p < passes.len() - 1 ==> (#[trigger] passes[p]).after.subset_of(
            passes[p + 1].before,
        )
    &&& forall|p: int, k: int|
        0 <= p < passes.len() && 0 <= k < passes[p].decisions.len() && is_submit(
            #[trigger] passes[p].decisions[k],
        ) ==> !passes[p].before.contains(decision_id(passes[p].decisions[k]))
            && passes[p].after.contains(decision_id(passes[p].decisions[k]))
    &&& forall|p: int, k1: int, k2: int|
        0 <= p < passes.len() && 0 <= k1 < k2 < passes[p].decisions.len() && is_submit(
            #[trigger] passes[p].decisions[k1],
        ) && is_submit(#[trigger] passes[p].decisions[k2]) ==> decision_id(
            passes[p].decisions[k1],
        ) != decision_id(passes[p].decisions[k2])
}

/// The submitted-id set a pass starts from contains everything any earlier
/// pass had finished with.
proof fn lemma_submitted_ids_grow(passes: Seq<PassRecord>, p1: int, p2: int)
    requires
        passes_consistent(passes),
        0 <= p1 < p2 < passes.len(),
    ensures
        passes[p1].after.subset_of(passes[p2].before),
    decreases p2 - p1,
{
    if p1 + 1 < p2 {
        lemma_submitted_ids_grow(passes, p1 + 1, p2);
        assert(passes[p1].after.subset_of(passes[p1 + 1].before));
        assert(passes[p1 + 1].before.subset_of(passes[p1 + 1].after));
    }
}

/// At most one Submit per id: across any consistent sequence of passes, no
/// transaction id is submitted twice — neither within one pass nor across
/// two different passes.
pub proof fn lemma_at_most_one_submit(passes: Seq<PassRecord>)
    requires
        passes_consistent(passes),
    ensures
        forall|p1: int, k1: int, p2: int, k2: int|
            0 <= p1 < passes.len() && 0 <= k1 < passes[p1].decisions.len() && 0 <= p2
                < passes.len() && 0 <= k2 < passes[p2].decisions.len() && is_submit(
                #[trigger] passes[p1].decisions[k1],
            ) && is_submit(#[trigger] passes[p2].decisions[k2]) && (p1 != p2 || k1 != k2)
                ==> decision_id(passes[p1].decisions[k1]) != decision_id(passes[p2].decisions[k2]),
{
    assert forall|p1: int, k1: int, p2: int, k2: int|
        0 <= p1 < passes.len() && 0 <= k1 < passes[p1].decisions.len() && 0 <= p2 < passes.len()
            && 0 <= k2 < passes[p2].decisions.len() && is_submit(#[trigger] passes[p1].decisions[k1])
            && is_submit(#[trigger] passes[p2].decisions[k2]) && (p1 != p2 || k1 != k2) implies decision_id(
        passes[p1].decisions[k1],
    ) != decision_id(passes[p2].decisions[k2]) by {
        if p1 < p2 {
            lemma_submitted_ids_grow(passes, p1, p2);
        } else if p2 < p1 {
            lemma_submitted_ids_grow(passes, p2, p1);
        }
    }
}

/// Reprice cooldown: an entry is repriced at reading `now` only if at least
/// the cooldown has elapsed since its last action, and the reprice stamps
/// the entry with `now`.
pub proof fn lemma_reprice_cooldown(tx: SubmittedTx, fee: u64, cooldown: u64, now: u64)
    requires
        reprice_step(tx, fee, cooldown, now).1 is Some,
    ensures
        now - tx.last_action_at >= cooldown,
        reprice_step(tx, fee, cooldown, now).0.last_action_at == now,
{
}

/// Successive reprices of one transaction are separated by at least the
/// cooldown: when an entry repriced at reading `t1` is repriced again at a
/// later reading `t2`, then `t2 - t1 >= cooldown`.
pub proof fn lemma_reprice_cooldown_successive(
    tx: SubmittedTx,
    fee1: u64,
    fee2: u64,
    cooldown: u64,
    t1: u64,
    t2: u64,
)
    requires
        reprice_step(tx, fee1, cooldown, t1).1 is Some,
        reprice_step(reprice_step(tx, fee1, cooldown, t1).0, fee2, cooldown, t2).1 is Some,
    ensures
        t2 - t1 >= cooldown,
{
}


/// The set of transaction ids present in a submitted set.
pub open spec fn sub_ids(subs: Seq<SubmittedTx>) -> Set<u64> {
    Set::new(|id: u64| exists|i: int| 0 <= i < subs.len() && (#[trigger] subs[i]).req.id == id)
}

/// One admission phase is a consistent pass in the sense of
/// `passes_consistent`: the submitted-id set only grows, every submission's
/// id was not yet submitted and is submitted afterwards, and submissions
/// within the phase carry pairwise distinct ids. Chained through
/// `lemma_at_most_one_submit`, this gives: at most one Submit is ever
/// emitted per transaction id.
pub proof fn lemma_pass_record(
    pending: Seq<TransactionRequest>,
    subs: Seq<SubmittedTx>,
    nonces: Map<Seq<u8>, u64>,
    lim: RateLimiter,
    fee: u64,
    spike: bool,
    now: u64,
)
    requires
        reqs_ok(pending),
        ids_sorted(pending),
        subs_ok(subs, now),
        sub_ids_unique(subs),
        ids_disjoint(pending, subs),
        fee <= crate::MAX_BASE_FEE,
        lim.wf(),
    ensures
        sub_ids(subs).subset_of(
            sub_ids(admit_run(pending, subs, nonces, lim, fee, spike, now).subs),
        ),
        forall|k: int|
            0 <= k < admit_run(pending, subs, nonces, lim, fee, spike, now).decisions.len()
                && is_submit(
                #[trigger] admit_run(pending, subs, nonces, lim, fee, spike, now).decisions[k],
            ) ==> !sub_ids(subs).contains(
                decision_id(admit_run(pending, subs, nonces, lim, fee, spike, now).decisions[k]),
            ) && sub_ids(admit_run(pending, subs, nonces, lim, fee, spike, now).subs).contains(
                decision_id(admit_run(pending, subs, nonces, lim, fee, spike, now).decisions[k]),
            ),
        forall|k1: int, k2: int|
            0 <= k1 < k2 < admit_run(pending, subs, nonces, lim, fee, spike, now).decisions.len()
                && is_submit(
                #[trigger] admit_run(pending, subs, nonces, lim, fee, spike, now).decisions[k1],
            ) && is_submit(
                #[trigger] admit_run(pending, subs, nonces, lim, fee, spike, now).decisions[k2],
            ) ==> decision_id(admit_run(pending, subs, nonces, lim, fee, spike, now).decisions[k1])
                != decision_id(
                admit_run(pending, subs, nonces, lim, fee, spike, now).decisions[k2],
            ),
{
    lemma_admission_laws(pending, subs, nonces, lim, fee, spike, now);
    lemma_admit_shape(pending, subs, nonces, lim, fee, spike, now);
    let out = admit_run(pending, subs, nonces, lim, fee, spike, now);
    assert forall|id: u64| sub_ids(subs).contains(id) implies sub_ids(out.subs).contains(
        id,
    ) by {
        let i = choose|i: int| 0 <= i < subs.len() && (#[trigger] subs[i]).req.id == id;
        assert(out.subs[i] == subs[i]);
    }
    assert forall|k: int|
        0 <= k < out.decisions.len() && is_submit(#[trigger] out.decisions[k]) implies !sub_ids(
        subs,
    ).contains(decision_id(out.decisions[k])) && sub_ids(out.subs).contains(
        decision_id(out.decisions[k]),
    ) by {
        if sub_ids(subs).contains(decision_id(out.decisions[k])) {
            let j = choose|j: int|
                0 <= j < subs.len() && (#[trigger] subs[j]).req.id == decision_id(
                    out.decisions[k],
                );
            assert(decision_id(out.decisions[k]) != subs[j].req.id);
        }
        let i = choose|i: int|
            subs.len() <= i < out.subs.len() && (#[trigger] out.subs[i]).req.id == decision_id(
                out.decisions[k],
            );
        assert(0 <= i < out.subs.len() && out.subs[i].req.id == decision_id(out.decisions[k]));
    }
}


} // verus!

//! The batch and its four-stage pipeline.
//!
//! A batch moves `Loaded -> Resolved -> Converted -> Executed`, each
//! stage completing for every record before the next may run. Loading,
//! resolution and conversion fail atomically: on any error the batch is
//! left exactly as it was. Execution is fail-fast instead: records are
//! submitted strictly in file order, and the first failure stops all
//! further submission, marking the remaining records as never
//! attempted, so the operator sees precisely which payments moved.
//!
//! The remote round-trips themselves are the caller's: resolution takes
//! the looked-up handles as an argument, and execution hands out one
//! [`PaymentOrder`] at a time, taking back each send's outcome.

use vstd::prelude::*;

use crate::convert::ConvertErrorKind;
use crate::convert::atoms;
use crate::convert::conv_ok;
use crate::convert::convert_amount;
use crate::convert::price_valid;
use crate::decimal::Decimal;
use crate::loader::LoadError;
use crate::loader::load_records;
use crate::loader::spec_load;
use crate::record::Outcome;
use crate::record::OutcomeView;
use crate::record::PaymentRecord;
use crate::record::RecordView;
use crate::record::converted_rec;
use crate::record::loaded_rec;
use crate::record::resolved_rec;
use crate::record::views_of;
use vstd::slice::slice_to_vec;

verus! {

/// Readiness of a batch: each stage requires its predecessor to have
/// completed for the whole collection.
#[derive(Clone, Copy, Debug, PartialEq, Eq, Structural)]
pub enum Stage {
    Loaded,
    Resolved,
    Converted,
    Executed,
}

/// Resolution failed: the record at `row` names an identity the remote
/// service could not resolve (unknown, or the lookup itself failed).
#[derive(Debug)]
pub struct ResolveError {
    pub row: usize,
    pub identity: Vec<u8>,
}

/// Why conversion of the batch failed.
#[derive(Clone, Copy, Debug, PartialEq, Eq, Structural)]
pub enum ConvertError {
    /// The batch price is zero or negative.
    InvalidPrice,
    /// The amount at `row` cannot be converted.
    Row { row: usize, kind: ConvertErrorKind },
}

/// Everything the caller needs to submit one payment.
#[derive(Debug)]
pub struct PaymentOrder {
    pub recipient_identity: Vec<u8>,
    pub wallet_handle: Vec<u8>,
    pub atomic_amount: u64,
    pub memo: Option<Vec<u8>>,
}

/// Aggregate outcome of an executed batch.
#[derive(Debug)]
pub enum BatchOutcome {
    /// Every record was submitted and accepted.
    AllSucceeded { count: usize },
    /// The record at `row` failed for `reason`; `completed` records
    /// before it succeeded and `not_attempted` after it were never
    /// submitted.
    FailedAt { row: usize, identity: Vec<u8>, reason: Vec<u8>, completed: usize, not_attempted: usize },
}

pub ghost struct BatchView {
    pub records: Seq<RecordView>,
    pub price: Decimal,
    pub stage: Stage,
    pub done: int,
}

/// One batch of intended payments, the fixed price, and how far
/// execution has come.
pub struct Batch {
    pub records: Vec<PaymentRecord>,
    pub price: Decimal,
    pub stage: Stage,
    /// Records with a decided outcome; always a prefix of the batch.
    pub done: usize,
}

impl View for Batch {
    type V = BatchView;

    open spec fn view(&self) -> BatchView {
        BatchView {
            records: views_of(self.records@),
            price: self.price,
            stage: self.stage,
            done: self.done as int,
        }
    }
}

/// A successful resolution, record-wise: each record has only gained a
/// wallet handle — every loaded field is untouched. `Batch::resolve`
/// guarantees this of its `Ok` outcome.
pub open spec fn resolution_of(pre: Seq<RecordView>, post: Seq<RecordView>) -> bool {
    post.len() == pre.len() && forall|i: int|
        0 <= i < pre.len() ==> (#[trigger] post[i]).recipient_identity == pre[i].recipient_identity
            && post[i].human_amount == pre[i].human_amount && post[i].memo == pre[i].memo
            && post[i].wallet_handle is Some && post[i].atomic_amount == pre[i].atomic_amount
            && post[i].outcome == pre[i].outcome
}

/// A successful conversion at `price`, record-wise: each record has
/// only gained its atomic amount, computed from its own human amount
/// and the batch price. `Batch::convert` guarantees this of its `Ok`
/// outcome.
pub open spec fn conversion_of(pre: Seq<RecordView>, post: Seq<RecordView>, price: Decimal) -> bool {
    post.len() == pre.len() && forall|i: int|
        0 <= i < pre.len() ==> #[trigger] post[i] == pre[i].with_atomic(
            atoms(pre[i].human_amount, price) as u64,
        )
}

impl BatchView {
    /// The batch invariant, per stage. During and after execution the
    /// outcomes have the fail-fast shape: a prefix of successes, then
    /// (once executed and only if anything failed) one failure and
    /// only never-attempted records after it.
    pub open spec fn wf(self) -> bool {
        &&& self.price.wf()
        &&& match self.stage {
            Stage::Loaded => self.done == 0 && forall|i: int|
                0 <= i < self.records.len() ==> loaded_rec(#[trigger] self.records[i]),
            Stage::Resolved => self.done == 0 && forall|i: int|
                0 <= i < self.records.len() ==> resolved_rec(#[trigger] self.records[i]),
            Stage::Converted => {
                &&& 0 <= self.done <= self.records.len()
                &&& forall|i: int|
                    0 <= i < self.records.len() ==> converted_rec(#[trigger] self.records[i])
                &&& forall|i: int|
                    0 <= i < self.done ==> (#[trigger] self.records[i]).outcome is Succeeded
                &&& forall|i: int|
                    self.done <= i < self.records.len() ==> (#[trigger] self.records[i]).outcome
                        is Pending
            },
            Stage::Executed => {
                &&& 0 <= self.done <= self.records.len()
                &&& forall|i: int|
                    0 <= i < self.records.len() ==> converted_rec(#[trigger] self.records[i])
                &&& forall|i: int|
                    0 <= i < self.done ==> (#[trigger] self.records[i]).outcome is Succeeded
                &&& self.done < self.records.len() ==> self.records[self.done].outcome is Failed
                &&& forall|i: int|
                    self.done < i < self.records.len() ==> (#[trigger] self.records[i]).outcome
                        is NotAttempted
            },
        }
    }
}

impl Batch {
    /// Loads a batch from delimited text at the given price.
    ///
    /// On success the batch holds exactly the input's data rows, in
    /// file order; on any malformed row the whole load fails and no
    /// batch exists at all.
    pub fn load(input: &[u8], price: Decimal) -> (r: Result<Batch, LoadError>)
        requires
            price.wf(),
        ensures
            r matches Ok(b) ==> b@.wf() && b@.stage == Stage::Loaded && b@.price == price && b@.done
                == 0 && (spec_load(input@) matches Ok(s) && b@.records == s),
            r matches Err(e) ==> spec_load(input@) == Err::<Seq<RecordView>, LoadError>(e),
    {
        match load_records(input) {
            Err(e) => Err(e),
            Ok(records) => {
                proof {
                    crate::loader::lemma_load_loaded(input@);
                }
                Ok(Batch { records, price, stage: Stage::Loaded, done: 0 })
            },
        }
    }

    /// How many records the batch holds.
    pub fn len(&self) -> (r: usize)
        ensures
            r == self@.records.len(),
    {
        self.records.len()
    }

    pub fn stage(&self) -> (r: Stage)
        ensures
            r == self@.stage,
    {
        self.stage
    }

    pub fn price(&self) -> (r: Decimal)
        ensures
            r == self@.price,
    {
        self.price
    }

    /// Records with a decided outcome.
    pub fn done_count(&self) -> (r: usize)
        ensures
            r == self@.done,
    {
        self.done
    }

    /// The preview: a read-only view of every record, set and unset
    /// fields alike, for operator review. Rendering is the caller's
    /// business; nothing here mutates the batch or talks to anything.
    pub fn preview(&self) -> (r: &Vec<PaymentRecord>)
        ensures
            views_of(r@) == self@.records,
    {
        &self.records
    }

    /// The identities to resolve, one per record, in order.
    pub fn identities(&self) -> (r: Vec<Vec<u8>>)
        ensures
            r@.len() == self@.records.len(),
            forall|i: int| 0 <= i < r@.len() ==> (#[trigger] r@[i])@ == self@.records[i].recipient_identity,
    {
        let mut out: Vec<Vec<u8>> = Vec::new();
        let mut i: usize = 0;
        while i < self.records.len()
            invariant
                i <= self.records@.len(),
                out@.len() == i,
                forall|j: int| 0 <= j < i ==> (#[trigger] out@[j])@
                    == self@.records[j].recipient_identity,
            decreases self.records@.len() - i,
        {
            let rec = &self.records[i];
            proof {
                assert(self@.records[i as int] == rec@);
            }
            out.push(slice_to_vec(rec.recipient_identity.as_slice()));
            i = i + 1;
        }
        out
    }
}

/// Index of the first missing handle, if any.
fn first_none(handles: &Vec<Option<Vec<u8>>>) -> (r: Option<usize>)
    ensures
        r matches Some(j) ==> j < handles@.len() && handles@[j as int] is None && (forall|k: int|
            0 <= k < j ==> (#[trigger] handles@[k]) is Some),
        r is None ==> forall|k: int| 0 <= k < handles@.len() ==> (#[trigger] handles@[k]) is Some,
{
    let mut i: usize = 0;
    while i < handles.len()
        invariant
            i <= handles@.len(),
            forall|k: int| 0 <= k < i ==> (#[trigger] handles@[k]) is Some,
        decreases handles@.len() - i,
    {
        let h = &handles[i];
        if h.is_none() {
            return Some(i);
        }
        i = i + 1;
    }
    None
}

impl Batch {
    /// The resolver stage: installs one wallet handle per record.
    ///
    /// The caller looks up every identity (`identities` gives the
    /// list, in order) and hands the outcomes back; a missing handle
    /// means that lookup failed, for whatever reason. All or nothing:
    /// on any missing handle the batch is left exactly as it was —
    /// no record gains a handle — and the error names the first
    /// offending record; on success every record carries its handle
    /// and the batch is `Resolved`.
    pub fn resolve(&mut self, handles: Vec<Option<Vec<u8>>>) -> (r: Result<(), ResolveError>)
        requires
            old(self)@.wf(),
            old(self)@.stage == Stage::Loaded,
            handles@.len() == old(self)@.records.len(),
        ensures
            final(self)@.wf(),
            r is Ok <==> (forall|i: int| 0 <= i < handles@.len() ==> (#[trigger] handles@[i])
                is Some),
            r is Ok ==> final(self)@.stage == Stage::Resolved && final(self)@.price == old(
                self,
            )@.price && final(self)@.done == 0 && final(self)@.records.len() == old(
                self,
            )@.records.len() && (forall|i: int|
                0 <= i < old(self)@.records.len() ==> final(self)@.records[i] == old(
                    self,
                )@.records[i].with_handle((#[trigger] handles@[i])->Some_0@)),
            r is Ok ==> resolution_of(old(self)@.records, final(self)@.records),
            r matches Err(e) ==> *final(self) == *old(self) && e.row < handles@.len() && handles@[e.row as int]
                is None && (forall|k: int| 0 <= k < e.row ==> (#[trigger] handles@[k]) is Some)
                && e.identity@ == old(self)@.records[e.row as int].recipient_identity,
    {
        match first_none(&handles) {
            Some(j) => {
                let rec = &self.records[j];
                proof {
                    assert(self@.records[j as int] == rec@);
                }
                Err(
                    ResolveError {
                        row: j,
                        identity: slice_to_vec(rec.recipient_identity.as_slice()),
                    },
                )
            },
            None => {
                let ghost orig = old(self)@.records;
                let ghost hs = handles@;
                let n = self.records.len();
                let mut handles = handles;
                let mut i: usize = 0;
                while i < n
                    invariant
                        i <= n,
                        n == self.records@.len(),
                        views_of(self.records@).len() == n,
                        orig.len() == n,
                        hs.len() == n,
                        handles@ =~= hs.skip(i as int),
                        forall|k: int| 0 <= k < n ==> (#[trigger] hs[k]) is Some,
                        forall|j: int|
                            0 <= j < i ==> views_of(self.records@)[j] == orig[j].with_handle(
                                (#[trigger] hs[j])->Some_0@,
                            ),
                        forall|j: int|
                            i <= j < n ==> views_of(self.records@)[j] == #[trigger] orig[j],
                        self.price == old(self).price,
                        self.stage == old(self).stage,
                        self.done == old(self).done,
                    decreases n - i,
                {
                    let h = handles.remove(0);
                    proof {
                        assert(h == hs.skip(i as int)[0]);
                        assert(hs.skip(i as int)[0] == hs[i as int]);
                        assert(handles@ =~= hs.skip(i as int + 1));
                    }
                    let v = match h {
                        Some(v) => v,
                        None => {
                            proof {
                                assert(false);
                            }
                            Vec::new()
                        },
                    };
                    let ghost prev = self.records@;
                    let mut rec = self.records.remove(i);
                    rec.wallet_handle = Some(v);
                    self.records.insert(i, rec);
                    proof {
                        assert(self.records@ =~= prev.update(i as int, rec));
                        assert(rec@ == prev[i as int]@.with_handle(hs[i as int]->Some_0@));
                        assert forall|j: int| 0 <= j < n implies #[trigger] views_of(
                            self.records@,
                        )[j] == if j == i {
                            orig[j].with_handle(hs[j]->Some_0@)
                        } else {
                            views_of(prev)[j]
                        } by {
                            assert(views_of(self.records@)[j] == self.records@[j]@);
                            if j != i {
                                assert(self.records@[j] == prev[j]);
                            } else {
                                assert(views_of(prev)[j] == prev[j]@);
                                assert(prev[j]@ == orig[j]);
                            }
                        }
                    }
                    i = i + 1;
                }
                self.stage = Stage::Resolved;
                proof {
                    assert forall|j: int| 0 <= j < n implies resolved_rec(
                        #[trigger] final(self)@.records[j],
                    ) by {
                        assert(loaded_rec(orig[j]));
                        assert(final(self)@.records[j] == orig[j].with_handle(hs[j]->Some_0@));
                    }
                    assert forall|j: int| 0 <= j < n implies (#[trigger] final(self)@.records[j]).recipient_identity == orig[j].recipient_identity && final(self)@.records[j].human_amount == orig[j].human_amount && final(self)@.records[j].memo == orig[j].memo && final(self)@.records[j].wallet_handle
                        is Some && final(self)@.records[j].atomic_amount == orig[j].atomic_amount
                        && final(self)@.records[j].outcome == orig[j].outcome by {
                        assert(final(self)@.records[j] == orig[j].with_handle(hs[j]->Some_0@));
                    }
                    assert(resolution_of(orig, final(self)@.records));
                }
                Ok(())
            },
        }
    }
}

impl Batch {
    /// The converter stage: computes every record's atomic amount from
    /// its human amount and the batch price ([`crate::convert`] states
    /// the convention). All or nothing: an invalid price or any
    /// unconvertible amount leaves the batch exactly as it was, and
    /// the error names the first offending record.
    pub fn convert(&mut self) -> (r: Result<(), ConvertError>)
        requires
            old(self)@.wf(),
            old(self)@.stage == Stage::Resolved,
        ensures
            final(self)@.wf(),
            !price_valid(old(self)@.price) ==> r == Err::<(), ConvertError>(
                ConvertError::InvalidPrice,
            ) && *final(self) == *old(self),
            price_valid(old(self)@.price) ==> ((r is Ok) <==> (forall|i: int|
                0 <= i < old(self)@.records.len() ==> conv_ok(
                    (#[trigger] old(self)@.records[i]).human_amount,
                    old(self)@.price,
                ))),
            price_valid(old(self)@.price) && r is Ok ==> final(self)@.stage == Stage::Converted
                && final(self)@.price == old(self)@.price && final(self)@.done == 0 && final(self)@.records.len() == old(self)@.records.len() && (forall|i: int|
                0 <= i < old(self)@.records.len() ==> #[trigger] final(self)@.records[i] == old(
                    self,
                )@.records[i].with_atomic(
                    atoms(old(self)@.records[i].human_amount, old(self)@.price) as u64,
                )),
            r is Ok ==> conversion_of(old(self)@.records, final(self)@.records, old(self)@.price),
            r matches Err(e) ==> *final(self) == *old(self) && (e matches ConvertError::Row {
                row,
                kind,
            } ==> row < old(self)@.records.len() && !conv_ok(
                old(self)@.records[row as int].human_amount,
                old(self)@.price,
            ) && (forall|k: int|
                0 <= k < row ==> conv_ok(
                    (#[trigger] old(self)@.records[k]).human_amount,
                    old(self)@.price,
                )) && (kind == ConvertErrorKind::NegativeAmount <==> old(
                self,
            )@.records[row as int].human_amount.negative)),
    {
        if self.price.negative || self.price.mantissa == 0 {
            return Err(ConvertError::InvalidPrice);
        }
        let ghost orig = old(self)@.records;
        let ghost price = old(self)@.price;
        let n = self.records.len();
        let mut amts: Vec<u64> = Vec::new();
        let mut i: usize = 0;
        while i < n
            invariant
                i <= n,
                n == self.records@.len(),
                *self == *old(self),
                old(self)@.wf(),
                old(self)@.stage == Stage::Resolved,
                orig == old(self)@.records,
                price == old(self)@.price,
                price_valid(price),
                amts@.len() == i,
                forall|j: int|
                    0 <= j < i ==> conv_ok((#[trigger] orig[j]).human_amount, price) && amts@[j]
                        == atoms(orig[j].human_amount, price) as u64,
            decreases n - i,
        {
            let rec = &self.records[i];
            proof {
                assert(rec@ == orig[i as int]);
                assert(resolved_rec(orig[i as int]));
            }
            match convert_amount(rec.human_amount, self.price) {
                Err(kind) => {
                    return Err(ConvertError::Row { row: i, kind });
                },
                Ok(a) => {
                    amts.push(a);
                },
            }
            i = i + 1;
        }
        let mut i: usize = 0;
        while i < n
            invariant
                i <= n,
                n == self.records@.len(),
                views_of(self.records@).len() == n,
                orig.len() == n,
                amts@.len() == n,
                price_valid(price),
                forall|j: int|
                    0 <= j < n ==> conv_ok((#[trigger] orig[j]).human_amount, price) && amts@[j]
                        == atoms(orig[j].human_amount, price) as u64,
                forall|j: int|
                    0 <= j < i ==> views_of(self.records@)[j] == (#[trigger] orig[j]).with_atomic(
                        atoms(orig[j].human_amount, price) as u64,
                    ),
                forall|j: int| i <= j < n ==> views_of(self.records@)[j] == #[trigger] orig[j],
                self.price == old(self).price,
                self.stage == old(self).stage,
                self.done == old(self).done,
                old(self)@.wf(),
                old(self)@.stage == Stage::Resolved,
                orig == old(self)@.records,
                price == old(self)@.price,
            decreases n - i,
        {
            let a = amts[i];
            let ghost prev = self.records@;
            let mut rec = self.records.remove(i);
            rec.atomic_amount = Some(a);
            self.records.insert(i, rec);
            proof {
                assert(self.records@ =~= prev.update(i as int, rec));
                assert(rec@ == prev[i as int]@.with_atomic(a));
                assert forall|j: int| 0 <= j < n implies #[trigger] views_of(self.records@)[j]
                    == if j == i {
                    orig[j].with_atomic(atoms(orig[j].human_amount, price) as u64)
                } else {
                    views_of(prev)[j]
                } by {
                    assert(views_of(self.records@)[j] == self.records@[j]@);
                    if j != i {
                        assert(self.records@[j] == prev[j]);
                    } else {
                        assert(views_of(prev)[j] == prev[j]@);
                        assert(prev[j]@ == orig[j]);
                    }
                }
            }
            i = i + 1;
        }
        self.stage = Stage::Converted;
        proof {
            assert forall|j: int| 0 <= j < n implies converted_rec(
                #[trigger] final(self)@.records[j],
            ) && final(self)@.records[j].outcome is Pending by {
                assert(resolved_rec(orig[j]));
                assert(final(self)@.records[j] == orig[j].with_atomic(
                    atoms(orig[j].human_amount, price) as u64,
                ));
            }
        }
        Ok(())
    }

    /// The next payment to submit: the first record without a decided
    /// outcome. Hands out copies only; nothing is changed and nothing
    /// is sent here. Returns nothing exactly when every record is
    /// decided.
    pub fn next_payment(&self) -> (r: Option<PaymentOrder>)
        requires
            self@.wf(),
            self@.stage == Stage::Converted,
        ensures
            r is None <==> self@.done == self@.records.len(),
            r matches Some(o) ==> self@.done < self@.records.len() && o.recipient_identity@
                == self@.records[self@.done].recipient_identity && (
            self@.records[self@.done].wallet_handle matches Some(w) && o.wallet_handle@ == w) && (
            self@.records[self@.done].atomic_amount matches Some(a) && o.atomic_amount == a) && (
            o.memo is Some <==> self@.records[self@.done].memo is Some) && (o.memo matches Some(m)
                ==> self@.records[self@.done].memo matches Some(rm) && m@ == rm),
    {
        if self.done == self.records.len() {
            return None;
        }
        let rec = &self.records[self.done];
        proof {
            assert(rec@ == self@.records[self@.done]);
            assert(converted_rec(rec@));
        }
        let wallet_handle = match &rec.wallet_handle {
            Some(w) => slice_to_vec(w.as_slice()),
            None => {
                proof {
                    assert(false);
                }
                Vec::new()
            },
        };
        let atomic_amount = match rec.atomic_amount {
            Some(a) => a,
            None => {
                proof {
                    assert(false);
                }
                0
            },
        };
        let memo = match &rec.memo {
            Some(m) => Some(slice_to_vec(m.as_slice())),
            None => None,
        };
        Some(
            PaymentOrder {
                recipient_identity: slice_to_vec(rec.recipient_identity.as_slice()),
                wallet_handle,
                atomic_amount,
                memo,
            },
        )
    }

    /// Records that the remote service accepted the current payment:
    /// the first undecided record becomes `Succeeded`, once and for
    /// all, and execution moves to the next record.
    pub fn apply_success(&mut self)
        requires
            old(self)@.wf(),
            old(self)@.stage == Stage::Converted,
            old(self)@.done < old(self)@.records.len(),
        ensures
            final(self)@.wf(),
            final(self)@.stage == Stage::Converted,
            final(self)@.price == old(self)@.price,
            final(self)@.done == old(self)@.done + 1,
            final(self)@.records.len() == old(self)@.records.len(),
            final(self)@.records[old(self)@.done] == old(self)@.records[old(self)@.done].with_outcome(
                OutcomeView::Succeeded,
            ),
            forall|i: int|
                0 <= i < old(self)@.records.len() && i != old(self)@.done ==> final(self)@.records[i] == #[trigger] old(self)@.records[i],
    {
        let i = self.done;
        let n = self.records.len();
        let ghost prev = self.records@;
        let mut rec = self.records.remove(i);
        rec.outcome = Outcome::Succeeded;
        self.records.insert(i, rec);
        self.done = i + 1;
        proof {
            assert(self.records@ =~= prev.update(i as int, rec));
            assert forall|j: int| 0 <= j < self.records@.len() implies #[trigger] views_of(
                self.records@,
            )[j] == if j == i {
                prev[j]@.with_outcome(OutcomeView::Succeeded)
            } else {
                views_of(prev)[j]
            } by {
                assert(views_of(self.records@)[j] == self.records@[j]@);
                if j != i {
                    assert(self.records@[j] == prev[j]);
                }
                assert(views_of(prev)[j] == prev[j]@);
            }
        }
    }

    /// Records that the remote service rejected the current payment,
    /// fail-fast: the first undecided record becomes `Failed` with the
    /// given reason, every later record becomes `NotAttempted` — it
    /// will never be handed out — and the batch is `Executed`. Earlier
    /// records keep their true outcomes.
    pub fn apply_failure(&mut self, reason: Vec<u8>)
        requires
            old(self)@.wf(),
            old(self)@.stage == Stage::Converted,
            old(self)@.done < old(self)@.records.len(),
        ensures
            final(self)@.wf(),
            final(self)@.stage == Stage::Executed,
            final(self)@.price == old(self)@.price,
            final(self)@.done == old(self)@.done,
            final(self)@.records.len() == old(self)@.records.len(),
            final(self)@.records[old(self)@.done] == old(self)@.records[old(self)@.done].with_outcome(
                OutcomeView::Failed(reason@),
            ),
            forall|i: int|
                0 <= i < old(self)@.done ==> final(self)@.records[i] == #[trigger] old(
                    self,
                )@.records[i],
            forall|i: int|
                old(self)@.done < i < old(self)@.records.len() ==> #[trigger] final(self)@.records[i] == old(self)@.records[i].with_outcome(OutcomeView::NotAttempted),
    {
        let ghost orig = old(self)@.records;
        let i0 = self.done;
        let n = self.records.len();
        let ghost prev = self.records@;
        let mut rec = self.records.remove(i0);
        rec.outcome = Outcome::Failed(reason);
        self.records.insert(i0, rec);
        proof {
            assert(self.records@ =~= prev.update(i0 as int, rec));
            assert forall|j: int| 0 <= j < n implies #[trigger] views_of(self.records@)[j] == if j
                == i0 {
                orig[j].with_outcome(OutcomeView::Failed(reason@))
            } else {
                orig[j]
            } by {
                assert(views_of(self.records@)[j] == self.records@[j]@);
                if j != i0 {
                    assert(self.records@[j] == prev[j]);
                }
                assert(views_of(prev)[j] == prev[j]@);
            }
        }
        let mut i = i0 + 1;
        while i < n
            invariant
                i0 < i <= n,
                n == self.records@.len(),
                views_of(self.records@).len() == n,
                orig.len() == n,
                forall|j: int| 0 <= j < i0 ==> views_of(self.records@)[j] == #[trigger] orig[j],
                views_of(self.records@)[i0 as int] == orig[i0 as int].with_outcome(
                    OutcomeView::Failed(reason@),
                ),
                forall|j: int|
                    i0 < j < i ==> views_of(self.records@)[j] == (
                    #[trigger] orig[j]).with_outcome(OutcomeView::NotAttempted),
                forall|j: int| i <= j < n ==> views_of(self.records@)[j] == #[trigger] orig[j],
                self.price == old(self).price,
                self.stage == old(self).stage,
                self.done == i0,
            decreases n - i,
        {
            let ghost prev2 = self.records@;
            let mut rec = self.records.remove(i);
            rec.outcome = Outcome::NotAttempted;
            self.records.insert(i, rec);
            proof {
                assert(self.records@ =~= prev2.update(i as int, rec));
                assert forall|j: int| 0 <= j < n implies #[trigger] views_of(self.records@)[j]
                    == if j == i {
                    prev2[j]@.with_outcome(OutcomeView::NotAttempted)
                } else {
                    views_of(prev2)[j]
                } by {
                    assert(views_of(self.records@)[j] == self.records@[j]@);
                    if j != i {
                        assert(self.records@[j] == prev2[j]);
                    }
                    assert(views_of(prev2)[j] == prev2[j]@);
                }
                assert(prev2[i as int]@ == orig[i as int]);
            }
            i = i + 1;
        }
        self.stage = Stage::Executed;
        proof {
            assert forall|j: int| 0 <= j < n implies converted_rec(
                #[trigger] final(self)@.records[j],
            ) by {
                assert(converted_rec(orig[j]));
            }
            assert forall|j: int| 0 <= j < i0 implies (#[trigger] final(self)@.records[j]).outcome
                is Succeeded by {
                assert(final(self)@.records[j] == orig[j]);
            }
            assert(final(self)@.records[i0 as int].outcome is Failed);
            assert forall|j: int| i0 < j < n implies (#[trigger] final(self)@.records[j]).outcome
                is NotAttempted by {
                assert(final(self)@.records[j] == orig[j].with_outcome(OutcomeView::NotAttempted));
            }
        }
    }

    /// Closes execution once every record is decided; for an empty
    /// batch or one whose every payment was accepted.
    pub fn finish_execution(&mut self)
        requires
            old(self)@.wf(),
            old(self)@.stage == Stage::Converted,
            old(self)@.done == old(self)@.records.len(),
        ensures
            final(self)@.wf(),
            final(self)@ == (BatchView { stage: Stage::Executed, ..old(self)@ }),
    {
        self.stage = Stage::Executed;
    }

    /// The aggregate outcome of an executed batch: full success with
    /// the count, or the first failure's row, identity and reason plus
    /// how many payments completed before it and how many were never
    /// attempted after it.
    pub fn outcome_summary(&self) -> (r: BatchOutcome)
        requires
            self@.wf(),
            self@.stage == Stage::Executed,
        ensures
            self@.done == self@.records.len() ==> (r matches BatchOutcome::AllSucceeded { count }
                && count == self@.records.len()),
            self@.done < self@.records.len() ==> (r matches BatchOutcome::FailedAt {
                row,
                identity,
                reason,
                completed,
                not_attempted,
            } && row == self@.done && completed == self@.done && not_attempted
                == self@.records.len() - self@.done - 1 && identity@
                == self@.records[self@.done].recipient_identity && (
            self@.records[self@.done].outcome matches OutcomeView::Failed(rr) && reason@ == rr)),
    {
        let n = self.records.len();
        if self.done == n {
            return BatchOutcome::AllSucceeded { count: n };
        }
        let rec = &self.records[self.done];
        proof {
            assert(rec@ == self@.records[self@.done]);
        }
        let reason = match &rec.outcome {
            Outcome::Failed(rr) => slice_to_vec(rr.as_slice()),
            _ => {
                proof {
                    assert(false);
                }
                Vec::new()
            },
        };
        BatchOutcome::FailedAt {
            row: self.done,
            identity: slice_to_vec(rec.recipient_identity.as_slice()),
            reason,
            completed: self.done,
            not_attempted: n - self.done - 1,
        }
    }
}

} // verus!

//! The in-memory unit of one intended payment.
//!
//! A record starts with only the loaded fields set; the resolver fills
//! the wallet handle, the converter the atomic amount, and the executor
//! the outcome. Identities, memos, handles and failure reasons are kept
//! as byte strings, exactly as they stood in the input file or came
//! back from the remote service.

use vstd::prelude::*;

use crate::decimal::Decimal;

verus! {

/// Execution outcome of one record, set exactly once by the executor.
#[derive(Debug)]
pub enum Outcome {
    /// Not yet submitted.
    Pending,
    /// The remote service accepted the payment.
    Succeeded,
    /// The remote service or the transport rejected it for this reason.
    Failed(Vec<u8>),
    /// An earlier record failed, so this one was never submitted.
    NotAttempted,
}

pub ghost enum OutcomeView {
    Pending,
    Succeeded,
    Failed(Seq<u8>),
    NotAttempted,
}

impl View for Outcome {
    type V = OutcomeView;

    open spec fn view(&self) -> OutcomeView {
        match self {
            Outcome::Pending => OutcomeView::Pending,
            Outcome::Succeeded => OutcomeView::Succeeded,
            Outcome::Failed(r) => OutcomeView::Failed(r@),
            Outcome::NotAttempted => OutcomeView::NotAttempted,
        }
    }
}

/// One row of intended payment and everything the pipeline has learned
/// about it so far.
#[derive(Debug)]
pub struct PaymentRecord {
    /// Who is to be paid, as the input file named them.
    pub recipient_identity: Vec<u8>,
    /// The human-denominated amount; never changed after loading.
    pub human_amount: Decimal,
    /// Free-text note carried through unchanged.
    pub memo: Option<Vec<u8>>,
    /// Resolved destination; absent until resolution succeeds.
    pub wallet_handle: Option<Vec<u8>>,
    /// Amount in the ledger's smallest unit; absent until conversion.
    pub atomic_amount: Option<u64>,
    /// Execution outcome.
    pub outcome: Outcome,
}

pub ghost struct RecordView {
    pub recipient_identity: Seq<u8>,
    pub human_amount: Decimal,
    pub memo: Option<Seq<u8>>,
    pub wallet_handle: Option<Seq<u8>>,
    pub atomic_amount: Option<u64>,
    pub outcome: OutcomeView,
}

impl View for PaymentRecord {
    type V = RecordView;

    open spec fn view(&self) -> RecordView {
        RecordView {
            recipient_identity: self.recipient_identity@,
            human_amount: self.human_amount,
            memo: match self.memo {
                Some(ref m) => Some(m@),
                None => None,
            },
            wallet_handle: match self.wallet_handle {
                Some(ref w) => Some(w@),
                None => None,
            },
            atomic_amount: self.atomic_amount,
            outcome: self.outcome@,
        }
    }
}

impl RecordView {
    /// A record as the loader creates it: nothing filled in yet.
    pub open spec fn fresh(identity: Seq<u8>, amount: Decimal, memo: Option<Seq<u8>>) -> RecordView {
        RecordView {
            recipient_identity: identity,
            human_amount: amount,
            memo,
            wallet_handle: None,
            atomic_amount: None,
            outcome: OutcomeView::Pending,
        }
    }

    pub open spec fn with_handle(self, h: Seq<u8>) -> RecordView {
        RecordView { wallet_handle: Some(h), ..self }
    }

    pub open spec fn with_atomic(self, a: u64) -> RecordView {
        RecordView { atomic_amount: Some(a), ..self }
    }

    pub open spec fn with_outcome(self, o: OutcomeView) -> RecordView {
        RecordView { outcome: o, ..self }
    }
}

impl PaymentRecord {
    /// A freshly loaded record: handle, atomic amount and outcome unset.
    pub fn new(recipient_identity: Vec<u8>, human_amount: Decimal, memo: Option<Vec<u8>>) -> (r:
        PaymentRecord)
        ensures
            r@ == RecordView::fresh(
                recipient_identity@,
                human_amount,
                match memo {
                    Some(m) => Some(m@),
                    None => None::<Seq<u8>>,
                },
            ),
    {
        PaymentRecord {
            recipient_identity,
            human_amount,
            memo,
            wallet_handle: None,
            atomic_amount: None,
            outcome: Outcome::Pending,
        }
    }
}

/// The views of a sequence of records.
pub open spec fn views_of(v: Seq<PaymentRecord>) -> Seq<RecordView> {
    v.map_values(|p: PaymentRecord| p@)
}

/// A record as the loader leaves it.
pub open spec fn loaded_rec(r: RecordView) -> bool {
    &&& r.wallet_handle is None
    &&& r.atomic_amount is None
    &&& r.outcome is Pending
    &&& r.human_amount.wf()
}

/// A record after resolution.
pub open spec fn resolved_rec(r: RecordView) -> bool {
    &&& r.wallet_handle is Some
    &&& r.atomic_amount is None
    &&& r.outcome is Pending
    &&& r.human_amount.wf()
}

/// A record after conversion: both remote-facing fields are set.
pub open spec fn converted_rec(r: RecordView) -> bool {
    &&& r.wallet_handle is Some
    &&& r.atomic_amount is Some
    &&& r.human_amount.wf()
}

} // verus!

//! Pipeline-wide laws, stated and proved once and for all.
//!
//! Each law here relates the contracts of several pipeline operations;
//! the per-operation guarantees live in the `ensures` of the
//! operations themselves.

use vstd::prelude::*;

use crate::batch::BatchView;
use crate::batch::Stage;
use crate::batch::conversion_of;
use crate::batch::resolution_of;
use crate::convert::atoms;
use crate::convert::conv_ok;
use crate::decimal::Decimal;
use crate::decimal::find_byte;
use crate::loader::first_nonblank;
use crate::loader::lines_of;
use crate::loader::spec_load;
use crate::loader::split_on;
use crate::loader::strip_cr;
use crate::record::RecordView;
use crate::record::loaded_rec;

verus! {

/// Resolution is all or nothing: a batch still `Loaded` — as it is
/// after a failed resolution, which leaves it exactly as it was — has
/// no record with a wallet handle set.
pub proof fn lemma_resolution_all_or_nothing(b: BatchView)
    requires
        b.wf(),
        b.stage == Stage::Loaded,
    ensures
        forall|i: int|
            0 <= i < b.records.len() ==> (#[trigger] b.records[i]).wallet_handle is None,
{
    assert forall|i: int| 0 <= i < b.records.len() implies (#[trigger] b.records[i]).wallet_handle
        is None by {
        assert(loaded_rec(b.records[i]));
    }
}

/// Loading, resolving and converting never touch what was loaded: the
/// converted batch shows every record's original recipient, human
/// amount and memo unchanged. The later stages only add fields.
pub proof fn lemma_round_trip(
    loaded: Seq<RecordView>,
    resolved: Seq<RecordView>,
    converted: Seq<RecordView>,
    price: Decimal,
)
    requires
        resolution_of(loaded, resolved),
        conversion_of(resolved, converted, price),
    ensures
        converted.len() == loaded.len(),
        forall|i: int|
            0 <= i < loaded.len() ==> (#[trigger] converted[i]).human_amount
                == loaded[i].human_amount && converted[i].recipient_identity
                == loaded[i].recipient_identity && converted[i].memo == loaded[i].memo,
{
    assert forall|i: int| 0 <= i < loaded.len() implies (#[trigger] converted[i]).human_amount
        == loaded[i].human_amount && converted[i].recipient_identity
        == loaded[i].recipient_identity && converted[i].memo == loaded[i].memo by {
        assert(converted[i] == resolved[i].with_atomic(atoms(resolved[i].human_amount, price) as u64));
        assert(resolved[i].human_amount == loaded[i].human_amount);
    }
}

/// Previewing is read-only and deterministic: the preview is a
/// function of the records alone, so previews of equal batches are
/// equal, however often they are taken, and taking one changes
/// nothing. `Batch::preview` pins its result to the records and takes
/// the batch by shared reference.
pub proof fn lemma_preview_deterministic(
    b1: BatchView,
    b2: BatchView,
    p1: Seq<RecordView>,
    p2: Seq<RecordView>,
)
    requires
        b1.records == b2.records,
        p1 == b1.records,
        p2 == b2.records,
    ensures
        p1 == p2,
{
}

/// Conversion is deterministic: the atomic amount and the success of
/// the conversion are functions of the human amount and the price
/// alone, so repeated runs reproduce the same figures.
pub proof fn lemma_conversion_deterministic(h1: Decimal, p1: Decimal, h2: Decimal, p2: Decimal)
    requires
        h1 == h2,
        p1 == p2,
    ensures
        atoms(h1, p1) == atoms(h2, p2),
        conv_ok(h1, p1) == conv_ok(h2, p2),
{
}

/// An executed batch has the fail-fast shape: every record before the
/// cursor succeeded; if anything failed, the failing record sits at
/// the cursor and every later record was never attempted — it was
/// never handed out for submission.
pub proof fn lemma_executed_fail_fast(b: BatchView)
    requires
        b.wf(),
        b.stage == Stage::Executed,
    ensures
        forall|i: int| 0 <= i < b.done ==> (#[trigger] b.records[i]).outcome is Succeeded,
        b.done < b.records.len() ==> b.records[b.done].outcome is Failed,
        forall|i: int|
            b.done < i < b.records.len() ==> (#[trigger] b.records[i]).outcome is NotAttempted,
{
}

/// An empty input loads as the empty batch, so the whole pipeline
/// succeeds trivially on it.
pub proof fn lemma_load_empty(input: Seq<u8>)
    requires
        input.len() == 0,
    ensures
        spec_load(input) == Ok::<Seq<RecordView>, crate::loader::LoadError>(Seq::empty()),
{
    assert(find_byte(input, 10u8) == -1);
    let ls0 = split_on(input, 10u8);
    assert(ls0 =~= seq![input]);
    let ls = lines_of(input);
    assert(ls.len() == 1);
    assert(ls[0] == strip_cr(input));
    assert(ls[0].len() == 0);
    assert(ls.skip(1) =~= Seq::<Seq<u8>>::empty());
    assert(first_nonblank(Seq::<Seq<u8>>::empty()) == -1);
    assert(first_nonblank(ls) < 0);
}

} // verus!

//! Weights: how much of a block's time some work takes.
use vstd::prelude::*;

verus! {

/// An amount of computation time.
pub type Weight = u64;

/// What one read and one write of the database weigh.
#[derive(Clone, Copy, PartialEq, Eq, Debug)]
pub struct RuntimeDbWeight {
    pub read: Weight,
    pub write: Weight,
}

/// The largest weight, where `amount` is larger than that, and else `amount`.
pub open spec fn saturate(amount: int) -> Weight {
    if amount > u64::MAX {
        u64::MAX
    } else {
        amount as u64
    }
}

/// What `reads` reads and `writes` writes weigh: each product saturates, and so does their sum.
pub open spec fn db_cost(db: RuntimeDbWeight, reads: int, writes: int) -> Weight {
    saturate(saturate(db.read * reads) + saturate(db.write * writes))
}

/// `frame_support::weights::RuntimeDbWeight::reads_writes`, of which the reference time is taken:
/// the saturating sum of the saturating products of each kind of access with its weight.
#[verifier::external_body]
pub(crate) fn reads_writes(db: RuntimeDbWeight, reads: u64, writes: u64) -> (weight: Weight)
    ensures
        weight == db_cost(db, reads as int, writes as int),
{
    let db_weight = frame_support::weights::RuntimeDbWeight { read: db.read, write: db.write };
    db_weight.reads_writes(reads, writes).ref_time()
}

/// `frame_support::weights::RuntimeDbWeight::writes`, of which the reference time is taken: the
/// saturating product of the number of writes with the weight of one.
#[verifier::external_body]
pub(crate) fn db_writes(db: RuntimeDbWeight, writes: u64) -> (weight: Weight)
    ensures
        weight == saturate(db.write * writes),
{
    let db_weight = frame_support::weights::RuntimeDbWeight { read: db.read, write: db.write };
    db_weight.writes(writes).ref_time()
}

/// What reads and writes weigh is the sum of what each of them weighs, or the largest weight where
/// that is more.
pub proof fn law_accesses_add_up(db: RuntimeDbWeight, reads: nat, writes: nat)
    ensures
        ({
            let weight = reads * db.read + writes * db.write;
            db_cost(db, reads as int, writes as int) == (if weight > Weight::MAX {
                Weight::MAX as int
            } else {
                weight
            })
        }),
{
    assert(db.read * reads == reads * db.read) by (nonlinear_arith);
    assert(db.write * writes == writes * db.write) by (nonlinear_arith);
    assert(reads * db.read >= 0) by (nonlinear_arith)
        requires
            reads >= 0,
            db.read >= 0,
    ;
    assert(writes * db.write >= 0) by (nonlinear_arith)
        requires
            writes >= 0,
            db.write >= 0,
    ;
}

/// A sum saturates at the largest weight and nowhere before.
pub proof fn law_weights_saturate(weight: Weight, more: nat)
    ensures
        weight + more <= Weight::MAX ==> saturate(weight + more) == weight + more,
        weight + more > Weight::MAX ==> saturate(weight + more) == Weight::MAX,
{
}

} // verus!

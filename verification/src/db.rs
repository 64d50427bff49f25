//! An in-memory receipt store: lookup of previously computed instruction
//! outputs by content identifier.

use vstd::prelude::*;
use crate::receipt::Receipt;
use crate::receipt::ReceiptModel;
use crate::workflow::Cid;
use crate::workflow::cid_in;
use crate::workflow::cids_view;
use crate::workflow::contains_cid;

verus! {

/// The content of a list of receipts.
pub open spec fn receipts_view(s: Seq<Receipt>) -> Seq<ReceiptModel> {
    s.map_values(|r: Receipt| r@)
}

/// The receipts of a store whose instruction identifier occurs among the
/// queried pointers, in store order.
pub open spec fn spec_find(rs: Seq<ReceiptModel>, cids: Seq<Seq<u8>>) -> Seq<ReceiptModel>
    decreases rs.len(),
{
    if rs.len() == 0 {
        Seq::empty()
    } else {
        let rest = spec_find(rs.drop_last(), cids);
        if cid_in(cids, rs.last().instruction) {
            rest.push(rs.last())
        } else {
            rest
        }
    }
}

/// An in-memory receipt store, holding receipts in insertion order.
#[derive(Debug, PartialEq, Eq)]
pub struct MemoryDb {
    receipts: Vec<Receipt>,
}

impl View for MemoryDb {
    type V = Seq<ReceiptModel>;

    closed spec fn view(&self) -> Seq<ReceiptModel> {
        receipts_view(self.receipts@)
    }
}

impl MemoryDb {
    /// An empty store.
    pub fn new() -> (r: MemoryDb)
        ensures
            r@ == Seq::<ReceiptModel>::empty(),
    {
        proof {
            assert(receipts_view(Seq::empty()) =~= Seq::<ReceiptModel>::empty());
        }
        MemoryDb { receipts: Vec::new() }
    }

    /// Store one receipt; the stored receipt is returned.
    pub fn store_receipt(&mut self, receipt: Receipt) -> (stored: Receipt)
        ensures
            final(self)@ == old(self)@.push(receipt@),
            stored@ == receipt@,
    {
        let ghost pre = self.receipts@;
        let stored = receipt.clone_receipt();
        self.receipts.push(receipt);
        proof {
            assert(receipts_view(self.receipts@) =~= receipts_view(pre).push(
                self.receipts@.last()@,
            ));
        }
        stored
    }

    /// Store a batch of receipts; the number of rows inserted is returned.
    pub fn store_receipts(&mut self, receipts: Vec<Receipt>) -> (n: usize)
        ensures
            final(self)@ == old(self)@ + receipts_view(receipts@),
            n == receipts@.len(),
    {
        let ghost pre = self@;
        let n = receipts.len();
        let mut i: usize = 0;
        while i < receipts.len()
            invariant
                i <= receipts@.len(),
                self@ == pre + receipts_view(receipts@.take(i as int)),
            decreases receipts@.len() - i,
        {
            self.store_receipt(receipts[i].clone_receipt());
            i = i + 1;
            proof {
                assert(receipts_view(receipts@.take(i as int)) =~= receipts_view(
                    receipts@.take(i as int - 1),
                ).push(receipts@[i as int - 1]@));
                assert(self@ =~= pre + receipts_view(receipts@.take(i as int)));
            }
        }
        proof {
            assert(receipts@.take(receipts@.len() as int) =~= receipts@);
            assert(self@ =~= pre + receipts_view(receipts@));
        }
        n
    }

    /// Find the receipts recorded for the queried instruction pointers;
    /// pointers with no receipt are simply absent from the result.
    pub fn find_instructions(&self, pointers: &Vec<Cid>) -> (found: Vec<Receipt>)
        ensures
            receipts_view(found@) == spec_find(self@, cids_view(pointers@)),
    {
        let mut found: Vec<Receipt> = Vec::new();
        let mut i: usize = 0;
        while i < self.receipts.len()
            invariant
                i <= self.receipts@.len(),
                receipts_view(found@) == spec_find(
                    receipts_view(self.receipts@.take(i as int)),
                    cids_view(pointers@),
                ),
            decreases self.receipts@.len() - i,
        {
            let ghost pre_found = found@;
            if contains_cid(pointers, self.receipts[i].instruction_cid()) {
                found.push(self.receipts[i].clone_receipt());
                proof {
                    assert(receipts_view(found@) =~= receipts_view(pre_found).push(
                        self.receipts@[i as int]@,
                    ));
                }
            }
            i = i + 1;
            proof {
                let rv = receipts_view(self.receipts@.take(i as int));
                assert(rv.drop_last() =~= receipts_view(self.receipts@.take(i as int - 1)));
                assert(rv.last() == self.receipts@[i as int - 1]@);
            }
        }
        proof {
            assert(self.receipts@.take(self.receipts@.len() as int) =~= self.receipts@);
        }
        found
    }
}

} // verus!
